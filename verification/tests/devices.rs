use mouse_configurator::devices::{
    is_supported_device, parse_hid_id, BT_PRODUCT_ID, HP_VENDOR_ID, USB_PRODUCT_ID,
};

#[test]
fn parse_hid_id_accepts_three_fields() {
    assert_eq!(parse_hid_id("0003:000003F0:0000524A"), Some((0x03F0, 0x524A)));
    assert_eq!(parse_hid_id("0005:03f0:544a"), Some((0x03F0, 0x544A)));
    assert_eq!(parse_hid_id("0003:+1A:2b"), Some((0x1A, 0x2B)));
    // anything after a third colon is ignored
    assert_eq!(parse_hid_id("0003:1:2:junk"), Some((1, 2)));
}

#[test]
fn parse_hid_id_rejects_bad_input() {
    assert_eq!(parse_hid_id(""), None);
    assert_eq!(parse_hid_id("0003:03F0"), None);
    assert_eq!(parse_hid_id("0003::524A"), None);
    assert_eq!(parse_hid_id("0003:03G0:524A"), None);
    // a value above 16 bits overflows
    assert_eq!(parse_hid_id("0003:103F0:524A"), None);
    assert_eq!(parse_hid_id("0003:+:524A"), None);
}

#[test]
fn supported_devices() {
    assert!(is_supported_device(HP_VENDOR_ID, USB_PRODUCT_ID, Some(1)));
    assert!(!is_supported_device(HP_VENDOR_ID, USB_PRODUCT_ID, Some(0)));
    assert!(!is_supported_device(HP_VENDOR_ID, USB_PRODUCT_ID, None));
    assert!(is_supported_device(HP_VENDOR_ID, BT_PRODUCT_ID, None));
    assert!(is_supported_device(HP_VENDOR_ID, BT_PRODUCT_ID, Some(3)));
    assert!(!is_supported_device(0x1234, USB_PRODUCT_ID, Some(1)));
    assert!(!is_supported_device(HP_VENDOR_ID, 0x1111, Some(1)));
}
