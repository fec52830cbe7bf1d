use mouse_configurator::report::{
    encode_report_1, exec_button_report, query_battery_report, query_button_report,
    query_dpi_report, query_firmware_report, set_button_report, set_dpi_report,
};
use mouse_configurator::{Button, Op, PressType};

#[test]
fn report_frame_layout() {
    // kind 5 -> signature 0xCF8; 21 bytes with the payload at offset 5
    let r = encode_report_1(5, &[0xAA, 0xBB]);
    let mut expected = vec![1u8, 0xF8, 0x0C, 2, 0, 0xAA, 0xBB];
    expected.resize(21, 0);
    assert_eq!(r, expected);
}

#[test]
fn firmware_query_frame() {
    let mut expected = vec![1u8, 0xF3, 0x0C, 0, 0];
    expected.resize(21, 0);
    assert_eq!(query_firmware_report(), expected);
}

#[test]
fn battery_query_frame() {
    let mut expected = vec![1u8, 0xF8, 0x0C, 4, 0, 0xFF, 0xFF, 0xFF, 0x06];
    expected.resize(21, 0);
    assert_eq!(query_battery_report(), expected);
}

#[test]
fn button_query_frame() {
    let mut expected = vec![1u8, 0x00, 0x0D, 2, 0, 0, 0];
    expected.resize(21, 0);
    assert_eq!(query_button_report(), expected);
}

#[test]
fn dpi_query_frame() {
    let mut expected = vec![1u8, 0x04, 0x0D, 4, 0, 0, 4, 0, 0];
    expected.resize(21, 0);
    assert_eq!(query_dpi_report(), expected);
}

#[test]
fn set_dpi_frame_is_little_endian() {
    let mut expected = vec![1u8, 0x04, 0x0D, 4, 0, 0, 0, 0xB0, 0x04];
    expected.resize(21, 0);
    assert_eq!(set_dpi_report(1200), expected);
}

#[test]
fn set_button_frame_wraps_record() {
    let button = Button::new(3, 0, PressType::Normal, &[Op::Kill]);
    assert_eq!(button.action(), &vec![0u8]);
    let r = set_button_report(&button, false);
    let mut expected = vec![1u8, 0x00, 0x0D, 6, 0, 0x01, 3, 0, 0, 1, 0];
    expected.resize(21, 0);
    assert_eq!(r, expected);
    // bit 7 of the command asks the device not to save to flash
    let r2 = set_button_report(&button, true);
    assert_eq!(r2[5], 0x81);
}

#[test]
fn exec_button_frame() {
    let button = Button::new(4, 0, PressType::Double, &[Op::Kill]);
    let r = exec_button_report(&button);
    let mut expected = vec![1u8, 0x00, 0x0D, 7, 0, 2, 0, 4, 0, 2, 1, 0];
    expected.resize(21, 0);
    assert_eq!(r, expected);
}

#[test]
fn button_record_round_trip() {
    let button = Button::new(9, 1, PressType::Up, &[Op::pause(
        mouse_configurator::Value::Const(100),
    )]);
    let mut wire = Vec::new();
    button.encode(&mut wire);
    let (parsed, used) = Button::decode(&wire).unwrap();
    assert_eq!(used, wire.len());
    assert_eq!(parsed.id, 9);
    assert_eq!(parsed.host_id, 1);
    assert_eq!(parsed.press_type, PressType::Up);
    assert_eq!(parsed.action(), button.action());
    assert_eq!(
        parsed.decode_action().unwrap(),
        vec![Op::pause(mouse_configurator::Value::Const(100))]
    );
}

#[test]
fn button_decode_rejects_bad_records() {
    assert!(Button::decode(&[1, 2, 3]).is_none());
    // unknown press type
    assert!(Button::decode(&[1, 2, 9, 0]).is_none());
    // declared action longer than the buffer
    assert!(Button::decode(&[1, 2, 0, 4, 0xAA]).is_none());
}
