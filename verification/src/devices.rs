//! The identity of a matching device, the parse of the kernel's HID_ID
//! property, and which vendor/product pairs the library supports. The
//! enumeration itself walks the device tree outside the library and hands
//! these functions plain values.

use vstd::prelude::*;

verus! {

use vstd::string::StringSliceAdditionalSpecFns;

pub const HP_VENDOR_ID: u16 = 0x03F0;

pub const BT_PRODUCT_ID: u16 = 0x524A;

pub const USB_PRODUCT_ID: u16 = 0x544A;

/// One enumerated device: its ids, the interface number when the transport
/// has one, and the device node path.
#[derive(Debug, Clone)]
pub struct DeviceInfo {
    pub vendor_id: u16,
    pub product_id: u16,
    pub interface: Option<u8>,
    pub devnode: String,
}

/// The pairs this library drives: the USB dongle on interface 1, and the
/// Bluetooth product on any interface.
pub open spec fn spec_is_supported_device(
    vendor_id: u16,
    product_id: u16,
    interface: Option<u8>,
) -> bool {
    ||| (vendor_id == HP_VENDOR_ID && product_id == USB_PRODUCT_ID && interface == Some(1u8))
    ||| (vendor_id == HP_VENDOR_ID && product_id == BT_PRODUCT_ID)
}

pub fn is_supported_device(vendor_id: u16, product_id: u16, interface: Option<u8>) -> (r: bool)
    ensures
        r == spec_is_supported_device(vendor_id, product_id, interface),
{
    if vendor_id != HP_VENDOR_ID {
        return false;
    }
    if product_id == BT_PRODUCT_ID {
        return true;
    }
    if product_id == USB_PRODUCT_ID {
        match interface {
            Some(n) => n == 1,
            None => false,
        }
    } else {
        false
    }
}

/// The value of an ASCII hexadecimal digit.
pub open spec fn spec_hex_val(c: u8) -> Option<u8> {
    if 0x30 <= c <= 0x39 {
        Some((c - 0x30) as u8)
    } else if 0x61 <= c <= 0x66 {
        Some((c - 0x61 + 10) as u8)
    } else if 0x41 <= c <= 0x46 {
        Some((c - 0x41 + 10) as u8)
    } else {
        None
    }
}

/// Fold hexadecimal digits from `i` to the end onto `acc`; a non-digit or a
/// value beyond 16 bits fails.
pub open spec fn spec_hex_fold(b: Seq<u8>, i: int, acc: int) -> Option<int>
    decreases b.len() - i,
{
    if i < 0 || i >= b.len() {
        Some(acc)
    } else {
        match spec_hex_val(b[i]) {
            None => None,
            Some(d) => if acc * 16 + d > 0xFFFF {
                None
            } else {
                spec_hex_fold(b, i + 1, acc * 16 + d)
            },
        }
    }
}

/// A 16-bit hexadecimal number: an optional plus sign, then at least one
/// digit, with overflow rejected.
pub open spec fn spec_hex_u16(b: Seq<u8>) -> Option<u16> {
    if b.len() == 0 {
        None
    } else {
        let s = if b[0] == 0x2B {
            b.skip(1)
        } else {
            b
        };
        if s.len() == 0 {
            None
        } else {
            match spec_hex_fold(s, 0, 0) {
                None => None,
                Some(v) => Some(v as u16),
            }
        }
    }
}

/// The first colon at or after `from`.
pub open spec fn spec_find_colon(b: Seq<u8>, from: int) -> Option<int>
    decreases b.len() - from,
{
    if from < 0 || from >= b.len() {
        None
    } else if b[from] == 0x3A {
        Some(from)
    } else {
        spec_find_colon(b, from + 1)
    }
}

/// The vendor and product ids out of a `HID_ID` property value: three
/// colon-separated fields, the second and third hexadecimal 16-bit numbers;
/// anything after a third colon is ignored.
pub open spec fn spec_parse_hid_id(b: Seq<u8>) -> Option<(u16, u16)> {
    match spec_find_colon(b, 0) {
        None => None,
        Some(c1) => match spec_find_colon(b, c1 + 1) {
            None => None,
            Some(c2) => {
                let end3 = match spec_find_colon(b, c2 + 1) {
                    None => b.len() as int,
                    Some(c3) => c3,
                };
                match (spec_hex_u16(b.subrange(c1 + 1, c2)), spec_hex_u16(b.subrange(c2 + 1, end3))) {
                    (Some(v), Some(p)) => Some((v, p)),
                    _ => None,
                }
            },
        },
    }
}

fn find_colon(b: &[u8], from: usize) -> (r: Option<usize>)
    requires
        from <= b@.len(),
    ensures
        match r {
            None => spec_find_colon(b@, from as int) is None,
            Some(j) => spec_find_colon(b@, from as int) == Some(j as int) && from <= j < b@.len(),
        },
{
    let mut j = from;
    while j < b.len()
        invariant
            from <= j <= b@.len(),
            spec_find_colon(b@, from as int) == spec_find_colon(b@, j as int),
        decreases b@.len() - j,
    {
        if b[j] == 0x3A {
            return Some(j);
        }
        j = j + 1;
    }
    None
}

fn hex_u16(b: &[u8], start: usize, end: usize) -> (r: Option<u16>)
    requires
        start <= end <= b@.len(),
    ensures
        r == spec_hex_u16(b@.subrange(start as int, end as int)),
{
    let ghost field = b@.subrange(start as int, end as int);
    if start == end {
        return None;
    }
    let s0: usize = if b[start] == 0x2B {
        start + 1
    } else {
        start
    };
    let ghost digits = b@.subrange(s0 as int, end as int);
    proof {
        if b@[start as int] == 0x2B {
            assert(field.skip(1) =~= digits);
        } else {
            assert(field =~= digits);
        }
    }
    if s0 == end {
        return None;
    }
    proof {
        assert(field.len() > 0);
        assert(digits.len() > 0);
    }
    let mut acc: u32 = 0;
    let mut j = s0;
    while j < end
        invariant
            start <= s0 <= j <= end <= b@.len(),
            acc <= 0xFFFF,
            digits == b@.subrange(s0 as int, end as int),
            digits.len() > 0,
            spec_hex_fold(digits, 0, 0) == spec_hex_fold(digits, j - s0, acc as int),
            spec_hex_u16(b@.subrange(start as int, end as int)) == (match spec_hex_fold(
                digits,
                0,
                0,
            ) {
                None => None::<u16>,
                Some(v) => Some(v as u16),
            }),
        decreases end - j,
    {
        let c = b[j];
        proof {
            assert(digits[j - s0] == b@[j as int]);
        }
        let d: u8 = if 0x30 <= c && c <= 0x39 {
            c - 0x30
        } else if 0x61 <= c && c <= 0x66 {
            c - 0x61 + 10
        } else if 0x41 <= c && c <= 0x46 {
            c - 0x41 + 10
        } else {
            return None;
        };
        let next = acc * 16 + (d as u32);
        if next > 0xFFFF {
            return None;
        }
        acc = next;
        j = j + 1;
    }
    Some(acc as u16)
}

/// Parse the kernel's `HID_ID` property, `bus:vendor:product` in
/// hexadecimal, into the vendor and product ids.
pub fn parse_hid_id(id: &str) -> (r: Option<(u16, u16)>)
    ensures
        r == spec_parse_hid_id(id.spec_bytes()),
{
    let bytes = id.as_bytes();
    let n = bytes.len();
    let c1 = match find_colon(bytes, 0) {
        Some(c1) => c1,
        None => {
            return None;
        },
    };
    proof {
        assert(c1 < n);
    }
    let c2 = match find_colon(bytes, c1 + 1) {
        Some(c2) => c2,
        None => {
            return None;
        },
    };
    proof {
        assert(c2 < n);
    }
    let end3 = match find_colon(bytes, c2 + 1) {
        Some(c3) => c3,
        None => n,
    };
    let vendor_id = match hex_u16(bytes, c1 + 1, c2) {
        Some(v) => v,
        None => {
            return None;
        },
    };
    let product_id = match hex_u16(bytes, c2 + 1, end3) {
        Some(p) => p,
        None => {
            return None;
        },
    };
    Some((vendor_id, product_id))
}

} // verus!
