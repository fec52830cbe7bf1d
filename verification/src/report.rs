//! Framing of outgoing command reports: a fixed 21-byte report-1 frame
//! carrying a packed header and a short payload, plus the payloads of each
//! command the device understands.

use vstd::prelude::*;

verus! {

use crate::HP_SIGNATURE;
use crate::button::{Button, spec_button_encode};

/// The 21-byte report-1 frame: report type, signature low byte, signature
/// high nibble with composite-device id 0, payload length, sequence 0, then
/// the payload and zero padding.
pub open spec fn spec_report_1(kind: u16, payload: Seq<u8>) -> Seq<u8> {
    let sig = HP_SIGNATURE + kind;
    Seq::new(
        21,
        |i: int|
            if i == 0 {
                1u8
            } else if i == 1 {
                (sig % 256) as u8
            } else if i == 2 {
                (sig / 256) as u8
            } else if i == 3 {
                payload.len() as u8
            } else if 5 <= i < 5 + payload.len() {
                payload[i - 5]
            } else {
                0u8
            },
    )
}

/// Frame one outgoing command of the given kind. The signature must stay
/// within its 12-bit field, and the payload within the single frame.
pub fn encode_report_1(kind: u16, packet: &[u8]) -> (r: Vec<u8>)
    requires
        kind <= 0x30C,
        packet@.len() <= 16,
    ensures
        r@ == spec_report_1(kind, packet@),
{
    let signature: u16 = HP_SIGNATURE + kind;
    let mut data: Vec<u8> = Vec::new();
    let mut k: usize = 0;
    while k < 21
        invariant
            k <= 21,
            data@.len() == k,
            forall|j: int| 0 <= j < k ==> data@[j] == 0u8,
        decreases 21 - k,
    {
        data.push(0);
        k = k + 1;
    }
    data[0] = 1;
    data[1] = (signature % 256) as u8;
    data[2] = (signature / 256) as u8;
    data[3] = packet.len() as u8;
    let mut i: usize = 0;
    while i < packet.len()
        invariant
            i <= packet@.len() <= 16,
            data@.len() == 21,
            data@[0] == 1u8,
            data@[1] == (((HP_SIGNATURE + kind) as int % 256) as u8),
            data@[2] == (((HP_SIGNATURE + kind) as int / 256) as u8),
            data@[3] == packet@.len() as u8,
            data@[4] == 0u8,
            forall|j: int| 0 <= j < i ==> #[trigger] data@[5 + j] == packet@[j],
            forall|j: int| i <= j < 16 ==> #[trigger] data@[5 + j] == 0u8,
        decreases packet@.len() - i,
    {
        let b = packet[i];
        data[5 + i] = b;
        i = i + 1;
    }
    proof {
        assert forall|i2: int| 0 <= i2 < 21 implies data@[i2] == spec_report_1(kind, packet@)[i2] by {
            if 5 <= i2 < 5 + packet@.len() {
                assert(data@[5 + (i2 - 5)] == packet@[i2 - 5]);
            } else if 5 <= i2 < 21 {
                assert(data@[5 + (i2 - 5)] == 0u8);
            }
        }
        assert(data@ =~= spec_report_1(kind, packet@));
    }
    data
}

/// The query that asks for firmware info.
pub fn query_firmware_report() -> (r: Vec<u8>)
    ensures
        r@ == spec_report_1(0, Seq::<u8>::empty()),
{
    let payload: Vec<u8> = Vec::new();
    proof {
        assert(payload@ =~= Seq::<u8>::empty());
    }
    encode_report_1(0, payload.as_slice())
}

/// The query that asks for battery info: leave the three thresholds as they
/// are and report automatically every 60 seconds.
pub fn query_battery_report() -> (r: Vec<u8>)
    ensures
        r@ == spec_report_1(5, seq![0xFFu8, 0xFFu8, 0xFFu8, 0x06u8]),
{
    let mut payload: Vec<u8> = Vec::new();
    payload.push(0xFF);
    payload.push(0xFF);
    payload.push(0xFF);
    payload.push(0x06);
    proof {
        assert(payload@ =~= seq![0xFFu8, 0xFFu8, 0xFFu8, 0x06u8]);
    }
    encode_report_1(5, payload.as_slice())
}

/// The query that asks the current host's button table.
pub fn query_button_report() -> (r: Vec<u8>)
    ensures
        r@ == spec_report_1(13, seq![0u8, 0u8]),
{
    let mut payload: Vec<u8> = Vec::new();
    payload.push(0);
    payload.push(0);
    proof {
        assert(payload@ =~= seq![0u8, 0u8]);
    }
    encode_report_1(13, payload.as_slice())
}

/// The query that asks the current host's DPI settings.
pub fn query_dpi_report() -> (r: Vec<u8>)
    ensures
        r@ == spec_report_1(17, seq![0u8, 4u8, 0u8, 0u8]),
{
    let mut payload: Vec<u8> = Vec::new();
    payload.push(0);
    payload.push(4);
    payload.push(0);
    payload.push(0);
    proof {
        assert(payload@ =~= seq![0u8, 4u8, 0u8, 0u8]);
    }
    encode_report_1(17, payload.as_slice())
}

/// The command that sets the DPI for the current host, little-endian.
pub fn set_dpi_report(dpi: u16) -> (r: Vec<u8>)
    ensures
        r@ == spec_report_1(17, seq![0u8, 0u8, (dpi % 256) as u8, (dpi / 256) as u8]),
{
    let mut payload: Vec<u8> = Vec::new();
    payload.push(0);
    payload.push(0);
    payload.push((dpi % 256) as u8);
    payload.push((dpi / 256) as u8);
    proof {
        assert(payload@ =~= seq![0u8, 0u8, (dpi % 256) as u8, (dpi / 256) as u8]);
    }
    encode_report_1(17, payload.as_slice())
}

/// The command that writes one button binding; bit 7 of the command byte
/// suppresses saving to flash.
pub fn set_button_report(button: &Button, no_save_to_flash: bool) -> (r: Vec<u8>)
    requires
        button@.action.len() <= 11,
    ensures
        r@ == spec_report_1(
            13,
            seq![
                if no_save_to_flash {
                    0x81u8
                } else {
                    0x01u8
                },
            ] + spec_button_encode(button@),
        ),
{
    let command: u8 = if no_save_to_flash {
        0x81
    } else {
        0x01
    };
    let mut payload: Vec<u8> = Vec::new();
    payload.push(command);
    button.encode(&mut payload);
    proof {
        assert(payload@ =~= seq![command] + spec_button_encode(button@));
    }
    encode_report_1(13, payload.as_slice())
}

/// The command that executes one button's action on the device.
pub fn exec_button_report(button: &Button) -> (r: Vec<u8>)
    requires
        button@.action.len() <= 10,
    ensures
        r@ == spec_report_1(13, seq![2u8, 0u8] + spec_button_encode(button@)),
{
    let mut payload: Vec<u8> = Vec::new();
    payload.push(2);
    payload.push(0);
    button.encode(&mut payload);
    proof {
        assert(payload@ =~= seq![2u8, 0u8] + spec_button_encode(button@));
    }
    encode_report_1(13, payload.as_slice())
}

} // verus!
