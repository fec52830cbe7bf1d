use vstd::prelude::*;

verus! {

use crate::HP_SIGNATURE;
use crate::bits::u8_bit;
use crate::button::{Button, ButtonView, spec_button_decode};
use vstd::slice::slice_subrange;
use vstd::utf8::{decode_utf8, valid_utf8};

/// Why a report fragment was rejected by the reassembler.
#[derive(Debug, Clone, Copy, PartialEq, Eq, Structural)]
pub enum ProtocolError {
    /// The fragment is too short to carry a header.
    InvalidHeader,
    /// The header's signature is below the protocol's base signature.
    InvalidSignature,
    /// A sequence-0 fragment arrived while a packet was being collected.
    UnexpectedRestart,
    /// A continuation fragment arrived while no packet was being collected.
    UnexpectedContinuation(u8),
    /// A continuation whose header differs from the expected one (carried
    /// as: expected, found).
    NonMatchingHeader(Header, Header),
}

/// The 16-bit little-endian value with bytes `lo`, `hi`.
pub open spec fn spec_le16(lo: u8, hi: u8) -> u16 {
    (lo + hi * 256) as u16
}

pub fn u16_from_bytes(low: u8, high: u8) -> (r: u16)
    ensures
        r == spec_le16(low, high),
{
    (low as u16) + (high as u16) * 256
}

/// The packed packet header carried in the first four bytes of a fragment.
#[derive(Debug, Clone, Copy, PartialEq, Eq, Structural)]
pub struct Header {
    pub signature: u16,
    pub composit_device: u8,
    pub length: usize,
    pub sequence: u8,
}

impl Default for Header {
    fn default() -> (r: Self)
        ensures
            r == (Header { signature: 0u16, composit_device: 0u8, length: 0usize, sequence: 0u8 }),
    {
        Header { signature: 0, composit_device: 0, length: 0, sequence: 0 }
    }
}

/// The header packed into the first four bytes: a 12-bit signature, 4-bit
/// composite-device id, 10-bit length, 6-bit sequence number.
pub open spec fn spec_parse_header(d: Seq<u8>) -> Option<Header> {
    if d.len() < 4 {
        None
    } else {
        Some(
            Header {
                signature: spec_le16(d[0], d[1] & 0xF),
                composit_device: (d[1] >> 4) & 0xF,
                length: spec_le16(d[2], d[3] & 0x3) as usize,
                sequence: (d[3] >> 2) & 0x3F,
            },
        )
    }
}

pub open spec fn spec_kind(h: Header) -> Option<u16> {
    if h.signature >= HP_SIGNATURE {
        Some((h.signature - HP_SIGNATURE) as u16)
    } else {
        None
    }
}

impl Header {
    pub fn new(data: &[u8]) -> (r: Option<Self>)
        ensures
            r == spec_parse_header(data@),
    {
        if data.len() < 4 {
            return None;
        }
        Some(
            Header {
                signature: u16_from_bytes(data[0], data[1] & 0xF),
                composit_device: (data[1] >> 4) & 0xF,
                length: u16_from_bytes(data[2], data[3] & 0x3) as usize,
                sequence: (data[3] >> 2) & 0x3F,
            },
        )
    }

    /// The packet kind: how far the signature lies above the base signature.
    pub fn kind(&self) -> (r: Option<u16>)
        ensures
            r == spec_kind(*self),
    {
        if self.signature >= HP_SIGNATURE {
            Some(self.signature - HP_SIGNATURE)
        } else {
            None
        }
    }
}

/// A decoded logical packet from the device.
#[derive(Debug)]
pub enum Event {
    Firmware { version: (u16, u16, u16), device: String, serial: String },
    Battery { low_level: u8, crit_level: u8, power_off_timeout: u8, auto_report_delay: u8, level: u8 },
    Buttons {
        total_buttons: u8,
        programmed_buttons: u8,
        host_id: u8,
        support_long_press: bool,
        support_double_press: bool,
        support_down_up_press: bool,
        support_simulate: bool,
        support_program_stop: bool,
        buttons: Vec<Button>,
    },
    Mouse {
        max_dpi: u16,
        min_dpi: u16,
        dpi: u16,
        step_dpi: u16,
        nb_sensitivity_wheel1: Option<u8>,
        sensitivity_wheel1: u8,
        nb_sensitivity_wheel2: Option<u8>,
        sensitivity_wheel2: u8,
        host_id: u8,
        cut_off_max: u8,
        cut_off: u8,
        support_left_handed: bool,
        left_handed: bool,
        support_no_save_to_flash: bool,
    },
}

/// The mathematical shape of an [`Event`].
pub enum EventView {
    Firmware { version: (u16, u16, u16), device: Seq<char>, serial: Seq<char> },
    Battery { low_level: u8, crit_level: u8, power_off_timeout: u8, auto_report_delay: u8, level: u8 },
    Buttons {
        total_buttons: u8,
        programmed_buttons: u8,
        host_id: u8,
        support_long_press: bool,
        support_double_press: bool,
        support_down_up_press: bool,
        support_simulate: bool,
        support_program_stop: bool,
        buttons: Seq<ButtonView>,
    },
    Mouse {
        max_dpi: u16,
        min_dpi: u16,
        dpi: u16,
        step_dpi: u16,
        nb_sensitivity_wheel1: Option<u8>,
        sensitivity_wheel1: u8,
        nb_sensitivity_wheel2: Option<u8>,
        sensitivity_wheel2: u8,
        host_id: u8,
        cut_off_max: u8,
        cut_off: u8,
        support_left_handed: bool,
        left_handed: bool,
        support_no_save_to_flash: bool,
    },
}

impl DeepView for Event {
    type V = EventView;

    open spec fn deep_view(&self) -> EventView {
        match self {
            Event::Firmware { version, device, serial } => EventView::Firmware {
                version: *version,
                device: device@,
                serial: serial@,
            },
            Event::Battery { low_level, crit_level, power_off_timeout, auto_report_delay, level } => EventView::Battery {
                low_level: *low_level,
                crit_level: *crit_level,
                power_off_timeout: *power_off_timeout,
                auto_report_delay: *auto_report_delay,
                level: *level,
            },
            Event::Buttons {
                total_buttons,
                programmed_buttons,
                host_id,
                support_long_press,
                support_double_press,
                support_down_up_press,
                support_simulate,
                support_program_stop,
                buttons,
            } => EventView::Buttons {
                total_buttons: *total_buttons,
                programmed_buttons: *programmed_buttons,
                host_id: *host_id,
                support_long_press: *support_long_press,
                support_double_press: *support_double_press,
                support_down_up_press: *support_down_up_press,
                support_simulate: *support_simulate,
                support_program_stop: *support_program_stop,
                buttons: buttons.deep_view(),
            },
            Event::Mouse {
                max_dpi,
                min_dpi,
                dpi,
                step_dpi,
                nb_sensitivity_wheel1,
                sensitivity_wheel1,
                nb_sensitivity_wheel2,
                sensitivity_wheel2,
                host_id,
                cut_off_max,
                cut_off,
                support_left_handed,
                left_handed,
                support_no_save_to_flash,
            } => EventView::Mouse {
                max_dpi: *max_dpi,
                min_dpi: *min_dpi,
                dpi: *dpi,
                step_dpi: *step_dpi,
                nb_sensitivity_wheel1: *nb_sensitivity_wheel1,
                sensitivity_wheel1: *sensitivity_wheel1,
                nb_sensitivity_wheel2: *nb_sensitivity_wheel2,
                sensitivity_wheel2: *sensitivity_wheel2,
                host_id: *host_id,
                cut_off_max: *cut_off_max,
                cut_off: *cut_off,
                support_left_handed: *support_left_handed,
                left_handed: *left_handed,
                support_no_save_to_flash: *support_no_save_to_flash,
            },
        }
    }
}

pub open spec fn opt_event_view(r: Option<Event>) -> Option<EventView> {
    match r {
        None => None,
        Some(e) => Some(e.deep_view()),
    }
}

/// Relies on `std::str::from_utf8`: it succeeds exactly on valid UTF-8 input,
/// and the resulting characters are the decoded scalar values.
#[verifier::external_body]
fn utf8_to_string(bytes: &[u8]) -> (r: Option<String>)
    ensures
        r is Some <==> valid_utf8(bytes@),
        r matches Some(s) ==> s@ == decode_utf8(bytes@),
{
    match std::str::from_utf8(bytes) {
        Ok(s) => Some(s.to_string()),
        Err(_) => None,
    }
}

// ---------------------------------------------------------------------------
// Payload decoders, one per packet kind.
// ---------------------------------------------------------------------------
/// The length-prefixed byte strings packed back to back from offset `i`; a
/// string cut short by the end of the buffer is kept truncated.
pub open spec fn spec_items(d: Seq<u8>, i: int) -> Seq<Seq<u8>>
    decreases d.len() - i,
{
    if i < 0 || i >= d.len() {
        Seq::empty()
    } else {
        let size = d[i] as int;
        let end = if i + 1 + size <= d.len() {
            i + 1 + size
        } else {
            d.len() as int
        };
        seq![d.subrange(i + 1, end)] + spec_items(d, end)
    }
}

/// Firmware info: a 16-bit version split into decimal fields, then two
/// length-prefixed UTF-8 strings (model name and serial number) at offset 4.
pub open spec fn spec_firmware(d: Seq<u8>) -> Option<EventView> {
    if d.len() <= 3 {
        None
    } else {
        let v = spec_le16(d[0], d[1]);
        let items = spec_items(d, 4);
        if items.len() < 2 {
            None
        } else if !valid_utf8(items[0]) || !valid_utf8(items[1]) {
            None
        } else {
            Some(
                EventView::Firmware {
                    version: ((v / 1000) as u16, ((v % 1000) / 10) as u16, (v % 10) as u16),
                    device: decode_utf8(items[0]),
                    serial: decode_utf8(items[1]),
                },
            )
        }
    }
}

/// Battery info: five consecutive bytes.
pub open spec fn spec_battery(d: Seq<u8>) -> Option<EventView> {
    if d.len() <= 4 {
        None
    } else {
        Some(
            EventView::Battery {
                low_level: d[0],
                crit_level: d[1],
                power_off_timeout: d[2],
                auto_report_delay: d[3],
                level: d[4],
            },
        )
    }
}

/// The button records packed from offset `i`, at most `remaining` of them;
/// parsing stops early, without failing, when a record does not fit.
pub open spec fn spec_parse_buttons(d: Seq<u8>, i: int, remaining: int) -> Seq<ButtonView>
    decreases remaining,
{
    if remaining <= 0 {
        Seq::empty()
    } else {
        match spec_button_decode(d.skip(i)) {
            None => Seq::empty(),
            Some((b, c)) => seq![b] + spec_parse_buttons(d, i + c, remaining - 1),
        }
    }
}

/// Button table: a status byte, counts, host id, five capability bits, then
/// `programmed_buttons` length-prefixed button records from offset 5.
pub open spec fn spec_buttons(d: Seq<u8>) -> Option<EventView> {
    if d.len() == 0 || d[0] != 0 {
        None
    } else if d.len() <= 4 {
        None
    } else {
        let flags = d[4];
        Some(
            EventView::Buttons {
                total_buttons: d[1],
                programmed_buttons: d[2],
                host_id: d[3],
                support_long_press: u8_bit(flags, 0),
                support_double_press: u8_bit(flags, 1),
                support_down_up_press: u8_bit(flags, 2),
                support_simulate: u8_bit(flags, 3),
                support_program_stop: u8_bit(flags, 4),
                buttons: spec_parse_buttons(d, 5, d[2] as int),
            },
        )
    }
}

/// Mouse settings: four 16-bit DPI values, two packed wheel-sensitivity
/// bytes, host id, cutoff bytes, and three capability bits.
pub open spec fn spec_mouse(d: Seq<u8>) -> Option<EventView> {
    if d.len() == 0 || d[0] != 0 {
        None
    } else if d.len() <= 14 {
        None
    } else {
        Some(
            EventView::Mouse {
                max_dpi: spec_le16(d[1], d[2]),
                min_dpi: spec_le16(d[3], d[4]),
                dpi: spec_le16(d[5], d[6]),
                step_dpi: spec_le16(d[7], d[8]),
                nb_sensitivity_wheel1: if d[9] & 0xF == 0 {
                    None
                } else {
                    Some(d[9] & 0xF)
                },
                sensitivity_wheel1: d[9] >> 4,
                nb_sensitivity_wheel2: if d[10] & 0xF == 0 {
                    None
                } else {
                    Some(d[10] & 0xF)
                },
                sensitivity_wheel2: d[10] >> 4,
                host_id: d[11],
                cut_off_max: d[12],
                cut_off: d[13],
                support_left_handed: u8_bit(d[14], 0),
                left_handed: u8_bit(d[14], 1),
                support_no_save_to_flash: u8_bit(d[14], 2),
            },
        )
    }
}

/// What the event decoder yields for a complete payload of a given kind.
pub open spec fn spec_dispatch(kind: u16, payload: Seq<u8>) -> Option<EventView> {
    if kind == 1 {
        spec_firmware(payload)
    } else if kind == 6 {
        spec_battery(payload)
    } else if kind == 14 {
        spec_buttons(payload)
    } else if kind == 18 {
        spec_mouse(payload)
    } else {
        None
    }
}

pub fn report_1_packet_1(data: &[u8]) -> (r: Option<Event>)
    ensures
        opt_event_view(r) == spec_firmware(data@),
{
    if data.len() <= 3 {
        return None;
    }
    let firmware_version = u16_from_bytes(data[0], data[1]);
    let major_version = firmware_version / 1000;
    let minor_version = (firmware_version % 1000) / 10;
    let patch_version = firmware_version % 10;

    let mut items: Vec<Vec<u8>> = Vec::new();
    let mut i: usize = 4;
    proof {
        assert(items.deep_view() + spec_items(data@, 4) =~= spec_items(data@, 4));
    }
    while i < data.len()
        invariant
            4 <= i <= data@.len(),
            spec_items(data@, 4) == items.deep_view() + spec_items(data@, i as int),
        decreases data@.len() - i,
    {
        let ghost items0 = items.deep_view();
        let size = data[i] as usize;
        i = i + 1;
        let ghost start = i as int;
        let mut item: Vec<u8> = Vec::new();
        proof {
            assert(item@ =~= data@.subrange(start, i as int));
        }
        while i < data.len() && item.len() < size
            invariant
                0 <= start <= i <= data@.len(),
                i - start <= size,
                item@ == data@.subrange(start, i as int),
                item@.len() == i - start,
            decreases data@.len() - i,
        {
            let b = data[i];
            item.push(b);
            i = i + 1;
            proof {
                assert(item@ =~= data@.subrange(start, i as int));
            }
        }
        proof {
            let end = if start + size <= data@.len() {
                start + size
            } else {
                data@.len() as int
            };
            assert(i == end);
        }
        let ghost itemv = item@;
        items.push(item);
        proof {
            assert(items.deep_view() =~~= items0.push(itemv));
            assert(items0 + (seq![itemv] + spec_items(data@, i as int)) =~~= items.deep_view()
                + spec_items(data@, i as int));
        }
    }
    proof {
        assert(spec_items(data@, i as int) =~= Seq::<Seq<u8>>::empty());
        assert(items.deep_view() + Seq::<Seq<u8>>::empty() =~= items.deep_view());
    }
    if items.len() < 2 {
        return None;
    }
    proof {
        assert(items.deep_view()[0] == items@[0]@);
        assert(items.deep_view()[1] == items@[1]@);
    }
    let device = match utf8_to_string(items[0].as_slice()) {
        Some(s) => s,
        None => {
            return None;
        },
    };
    let serial = match utf8_to_string(items[1].as_slice()) {
        Some(s) => s,
        None => {
            return None;
        },
    };
    Some(Event::Firmware { version: (major_version, minor_version, patch_version), device, serial })
}

pub fn report_1_packet_6(data: &[u8]) -> (r: Option<Event>)
    ensures
        opt_event_view(r) == spec_battery(data@),
{
    if data.len() <= 4 {
        return None;
    }
    Some(
        Event::Battery {
            low_level: data[0],
            crit_level: data[1],
            power_off_timeout: data[2],
            auto_report_delay: data[3],
            level: data[4],
        },
    )
}

pub fn report_1_packet_14(data: &[u8]) -> (r: Option<Event>)
    ensures
        opt_event_view(r) == spec_buttons(data@),
{
    if data.len() == 0 || data[0] != 0 {
        return None;
    }
    if data.len() <= 4 {
        return None;
    }
    let total_buttons = data[1];
    let programmed_buttons = data[2];
    let host_id = data[3];
    let flags = data[4];
    let support_long_press = ((flags >> 0u8) & 1) == 1;
    let support_double_press = ((flags >> 1u8) & 1) == 1;
    let support_down_up_press = ((flags >> 2u8) & 1) == 1;
    let support_simulate = ((flags >> 3u8) & 1) == 1;
    let support_program_stop = ((flags >> 4u8) & 1) == 1;

    let mut buttons: Vec<Button> = Vec::new();
    let mut i: usize = 5;
    proof {
        assert(buttons.deep_view() + spec_parse_buttons(data@, 5, programmed_buttons as int)
            =~= spec_parse_buttons(data@, 5, programmed_buttons as int));
    }
    while buttons.len() < programmed_buttons as usize
        invariant
            5 <= i <= data@.len(),
            data@.len() >= 5,
            buttons@.len() <= programmed_buttons,
            spec_parse_buttons(data@, 5, programmed_buttons as int) == buttons.deep_view()
                + spec_parse_buttons(data@, i as int, programmed_buttons - buttons@.len()),
        ensures
            buttons.deep_view() == spec_parse_buttons(data@, 5, programmed_buttons as int),
        decreases programmed_buttons - buttons@.len(),
    {
        let ghost buttons0 = buttons.deep_view();
        let ghost rem0 = programmed_buttons - buttons@.len();
        let sub = slice_subrange(data, i, data.len());
        proof {
            assert(sub@ =~= data@.skip(i as int));
        }
        match Button::decode(sub) {
            Some((button, count)) => {
                let ghost bv = button.deep_view();
                buttons.push(button);
                i = i + count;
                proof {
                    assert(buttons.deep_view() =~= buttons0.push(bv));
                    assert(buttons0 + (seq![bv] + spec_parse_buttons(
                        data@,
                        i as int,
                        rem0 - 1,
                    )) =~= buttons.deep_view() + spec_parse_buttons(data@, i as int, rem0 - 1));
                }
            },
            None => {
                proof {
                    assert(spec_parse_buttons(data@, i as int, rem0) =~= Seq::<ButtonView>::empty());
                    assert(buttons0 + Seq::<ButtonView>::empty() =~= buttons0);
                }
                break ;
            },
        }
    }
    Some(
        Event::Buttons {
            total_buttons,
            programmed_buttons,
            host_id,
            support_long_press,
            support_double_press,
            support_down_up_press,
            support_simulate,
            support_program_stop,
            buttons,
        },
    )
}

pub fn report_1_packet_18(data: &[u8]) -> (r: Option<Event>)
    ensures
        opt_event_view(r) == spec_mouse(data@),
{
    if data.len() == 0 || data[0] != 0 {
        return None;
    }
    if data.len() <= 14 {
        return None;
    }
    let nb1 = data[9] & 0xF;
    let nb2 = data[10] & 0xF;
    Some(
        Event::Mouse {
            max_dpi: u16_from_bytes(data[1], data[2]),
            min_dpi: u16_from_bytes(data[3], data[4]),
            dpi: u16_from_bytes(data[5], data[6]),
            step_dpi: u16_from_bytes(data[7], data[8]),
            nb_sensitivity_wheel1: if nb1 == 0 {
                None
            } else {
                Some(nb1)
            },
            sensitivity_wheel1: data[9] >> 4,
            nb_sensitivity_wheel2: if nb2 == 0 {
                None
            } else {
                Some(nb2)
            },
            sensitivity_wheel2: data[10] >> 4,
            host_id: data[11],
            cut_off_max: data[12],
            cut_off: data[13],
            support_left_handed: ((data[14] >> 0u8) & 1) == 1,
            left_handed: ((data[14] >> 1u8) & 1) == 1,
            support_no_save_to_flash: ((data[14] >> 2u8) & 1) == 1,
        },
    )
}

/// Decode a complete payload of the given kind; kinds without a decoder, and
/// payloads that do not fit their kind's layout, yield no event.
pub fn dispatch_event(kind: u16, payload: &[u8]) -> (r: Option<Event>)
    ensures
        opt_event_view(r) == spec_dispatch(kind, payload@),
{
    if kind == 1 {
        report_1_packet_1(payload)
    } else if kind == 6 {
        report_1_packet_6(payload)
    } else if kind == 14 {
        report_1_packet_14(payload)
    } else if kind == 18 {
        report_1_packet_18(payload)
    } else {
        None
    }
}

// ---------------------------------------------------------------------------
// The packet reassembler.
// ---------------------------------------------------------------------------
/// The reassembler's abstract state: the bytes collected so far and the
/// header recorded for the packet in flight. Idle exactly when `incoming`
/// is empty.
pub struct HpMouseEventsView {
    pub incoming: Seq<u8>,
    pub header: Header,
}

/// The sequence number the next continuation fragment must carry.
pub open spec fn wrap_inc(x: u8) -> u8 {
    if x == 255 {
        0
    } else {
        (x + 1) as u8
    }
}

/// One reassembly step on the arrival of fragment bytes `data` (the leading
/// report-type byte already stripped): the successor state and what the step
/// returns. A restart while collecting and a non-matching continuation both
/// drop the partial packet, so that a later sequence-0 fragment restarts
/// cleanly; a corrupted packet is never completed.
pub open spec fn spec_step(s: HpMouseEventsView, data: Seq<u8>) -> (
    HpMouseEventsView,
    Result<Option<EventView>, ProtocolError>,
) {
    match spec_parse_header(data) {
        None => (s, Err(ProtocolError::InvalidHeader)),
        Some(h) => {
            if h.signature < HP_SIGNATURE {
                (s, Err(ProtocolError::InvalidSignature))
            } else {
                let kind = (h.signature - HP_SIGNATURE) as u16;
                if h.sequence == 0 {
                    if s.incoming.len() > 0 {
                        (
                            HpMouseEventsView { incoming: Seq::empty(), header: s.header },
                            Err(ProtocolError::UnexpectedRestart),
                        )
                    } else {
                        spec_accumulate(
                            HpMouseEventsView { incoming: s.incoming, header: h },
                            kind,
                            data,
                        )
                    }
                } else {
                    if s.incoming.len() == 0 {
                        (s, Err(ProtocolError::UnexpectedContinuation(h.sequence)))
                    } else {
                        let expected = Header {
                            signature: s.header.signature,
                            composit_device: s.header.composit_device,
                            length: s.header.length,
                            sequence: wrap_inc(s.header.sequence),
                        };
                        if h != expected {
                            (
                                HpMouseEventsView { incoming: Seq::empty(), header: expected },
                                Err(ProtocolError::NonMatchingHeader(expected, h)),
                            )
                        } else {
                            spec_accumulate(
                                HpMouseEventsView { incoming: s.incoming, header: expected },
                                kind,
                                data,
                            )
                        }
                    }
                }
            }
        },
    }
}

/// Append the fragment's payload; on reaching the declared length, truncate,
/// dispatch, and reset to idle (excess bytes are discarded).
pub open spec fn spec_accumulate(s: HpMouseEventsView, kind: u16, data: Seq<u8>) -> (
    HpMouseEventsView,
    Result<Option<EventView>, ProtocolError>,
) {
    let inc = s.incoming + data.skip(4);
    if inc.len() >= s.header.length {
        (
            HpMouseEventsView { incoming: Seq::empty(), header: s.header },
            Ok(spec_dispatch(kind, inc.take(s.header.length as int))),
        )
    } else {
        (HpMouseEventsView { incoming: inc, header: s.header }, Ok(None))
    }
}

pub open spec fn res_view(r: Result<Option<Event>, ProtocolError>) -> Result<
    Option<EventView>,
    ProtocolError,
> {
    match r {
        Ok(o) => Ok(opt_event_view(o)),
        Err(e) => Err(e),
    }
}

/// Reassembles sequenced report fragments into logical packets and decodes
/// them. Holds at most one packet in flight.
pub struct HpMouseEvents {
    incoming: Vec<u8>,
    header: Header,
}

impl View for HpMouseEvents {
    type V = HpMouseEventsView;

    closed spec fn view(&self) -> HpMouseEventsView {
        HpMouseEventsView { incoming: self.incoming@, header: self.header }
    }
}

impl HpMouseEvents {
    pub fn new() -> (r: Self)
        ensures
            r@.incoming == Seq::<u8>::empty(),
            r@.header == (Header {
                signature: 0u16,
                composit_device: 0u8,
                length: 0usize,
                sequence: 0u8,
            }),
    {
        let r = HpMouseEvents { incoming: Vec::new(), header: Header::default() };
        proof {
            assert(r@.incoming =~= Seq::<u8>::empty());
        }
        r
    }

    /// Whether a packet is currently being collected.
    pub fn is_collecting(&self) -> (r: bool)
        ensures
            r == (self@.incoming.len() > 0),
    {
        self.incoming.len() > 0
    }

    /// Feed one report-1 fragment (after the leading report-type byte) into
    /// the reassembler.
    pub fn report_1(&mut self, data: &[u8]) -> (r: Result<Option<Event>, ProtocolError>)
        ensures
            ({
                let (s2, rv) = spec_step(old(self)@, data@);
                final(self)@ == s2 && res_view(r) == rv
            }),
    {
        let header = match Header::new(data) {
            Some(h) => h,
            None => {
                return Err(ProtocolError::InvalidHeader);
            },
        };
        let kind = match header.kind() {
            Some(k) => k,
            None => {
                return Err(ProtocolError::InvalidSignature);
            },
        };

        if header.sequence == 0 {
            if self.incoming.len() > 0 {
                // drop the packet in flight: the next sequence-0 fragment
                // must be able to restart cleanly
                self.incoming.clear();
                proof {
                    assert(self@.incoming =~= Seq::<u8>::empty());
                }
                return Err(ProtocolError::UnexpectedRestart);
            }
            self.header = header;
        } else {
            if self.incoming.len() == 0 {
                return Err(ProtocolError::UnexpectedContinuation(header.sequence));
            }
            let next_seq: u8 = if self.header.sequence == 255 {
                0
            } else {
                self.header.sequence + 1
            };
            self.header.sequence = next_seq;
            if header != self.header {
                // the packet in flight is corrupted; drop it rather than
                // let later fragments complete it
                self.incoming.clear();
                proof {
                    assert(self@.incoming =~= Seq::<u8>::empty());
                }
                return Err(ProtocolError::NonMatchingHeader(self.header, header));
            }
        }

        let payload = slice_subrange(data, 4, data.len());
        proof {
            assert(payload@ =~= data@.skip(4));
        }
        self.incoming.extend_from_slice(payload);

        proof {
            assert(self@.incoming == old(self)@.incoming + data@.skip(4));
        }
        if self.incoming.len() >= header.length {
            let mut incoming: Vec<u8> = Vec::new();
            std::mem::swap(&mut incoming, &mut self.incoming);
            incoming.truncate(header.length);
            proof {
                let inc = old(self)@.incoming + data@.skip(4);
                assert(incoming@ =~= inc.take(header.length as int));
                assert(self@.incoming =~= Seq::<u8>::empty());
            }
            let ev = dispatch_event(kind, incoming.as_slice());
            return Ok(ev);
        }
        Ok(None)
    }

    /// Route one raw report to its handler: only report type 1 carries
    /// protocol packets; anything else is ignored.
    pub fn handle_report(&mut self, buf: &[u8]) -> (r: Result<Option<Event>, ProtocolError>)
        ensures
            buf@.len() > 0 && buf@[0] == 1 ==> ({
                let (s2, rv) = spec_step(old(self)@, buf@.skip(1));
                final(self)@ == s2 && res_view(r) == rv
            }),
            !(buf@.len() > 0 && buf@[0] == 1) ==> final(self)@ == old(self)@ && r == Ok::<
                Option<Event>,
                ProtocolError,
            >(None),
    {
        if buf.len() > 0 && buf[0] == 1 {
            let rest = slice_subrange(buf, 1, buf.len());
            proof {
                assert(rest@ =~= buf@.skip(1));
            }
            self.report_1(rest)
        } else {
            Ok(None)
        }
    }
}

/// The outcome of one read-and-feed cycle on a device stream.
pub enum ReadRes {
    Packet(Event),
    Continue,
    EOF,
}

} // verus!
