use mouse_configurator::event::{Event, ProtocolError};
use mouse_configurator::{Header, HpMouseEvents, PressType};

fn frag(kind: u16, length: u8, sequence: u8, payload: &[u8]) -> Vec<u8> {
    let sig = 0xCF3u16 + kind;
    let mut v = vec![
        (sig & 0xFF) as u8,
        ((sig >> 8) & 0xF) as u8,
        length,
        sequence << 2,
    ];
    v.extend_from_slice(payload);
    v
}

#[test]
fn header_round_trip() {
    let bytes = frag(6, 5, 3, &[]);
    let h = Header::new(&bytes).unwrap();
    assert_eq!(h.signature, 0xCF9);
    assert_eq!(h.composit_device, 0);
    assert_eq!(h.length, 5);
    assert_eq!(h.sequence, 3);
    assert_eq!(h.kind(), Some(6));
}

#[test]
fn header_too_short() {
    assert!(Header::new(&[1, 2, 3]).is_none());
}

#[test]
fn header_below_base_signature_has_no_kind() {
    let h = Header::new(&[0x23, 0x01, 0, 0]).unwrap();
    assert_eq!(h.signature, 0x123);
    assert_eq!(h.kind(), None);
}

#[test]
fn three_fragments_one_event() {
    let mut ev = HpMouseEvents::new();
    let r0 = ev.report_1(&frag(6, 5, 0, &[1, 2]));
    assert!(matches!(r0, Ok(None)));
    let r1 = ev.report_1(&frag(6, 5, 1, &[3, 4]));
    assert!(matches!(r1, Ok(None)));
    let r2 = ev.report_1(&frag(6, 5, 2, &[5]));
    match r2 {
        Ok(Some(Event::Battery {
            low_level,
            crit_level,
            power_off_timeout,
            auto_report_delay,
            level,
        })) => {
            assert_eq!(low_level, 1);
            assert_eq!(crit_level, 2);
            assert_eq!(power_off_timeout, 3);
            assert_eq!(auto_report_delay, 4);
            assert_eq!(level, 5);
        }
        other => panic!("expected one battery event, got {:?}", other.map(|_| ())),
    }
    assert!(!ev.is_collecting());
}

#[test]
fn restart_mid_packet_is_an_error() {
    let mut ev = HpMouseEvents::new();
    assert!(matches!(ev.report_1(&frag(6, 5, 0, &[1, 2])), Ok(None)));
    let r = ev.report_1(&frag(6, 5, 0, &[1, 2]));
    assert_eq!(r.unwrap_err(), ProtocolError::UnexpectedRestart);
    // no event was dispatched, and the partial packet was dropped ...
    assert!(!ev.is_collecting());
    // ... so a fresh sequence-0 packet restarts cleanly
    let r2 = ev.report_1(&frag(6, 5, 0, &[1, 2, 3, 4, 5]));
    assert!(matches!(r2, Ok(Some(Event::Battery { .. }))));
}

#[test]
fn continuation_while_idle_is_an_error() {
    let mut ev = HpMouseEvents::new();
    let r = ev.report_1(&frag(6, 5, 1, &[1, 2]));
    assert_eq!(r.unwrap_err(), ProtocolError::UnexpectedContinuation(1));
}

#[test]
fn mismatched_continuation_header_is_an_error() {
    let mut ev = HpMouseEvents::new();
    assert!(matches!(ev.report_1(&frag(6, 9, 0, &[1, 2])), Ok(None)));
    // continuation declares a different total length
    let r = ev.report_1(&frag(6, 7, 1, &[3, 4]));
    assert!(matches!(r.unwrap_err(), ProtocolError::NonMatchingHeader(_, _)));
    // the corrupted packet was dropped; a sequence-0 packet restarts cleanly
    assert!(!ev.is_collecting());
    let r2 = ev.report_1(&frag(6, 5, 0, &[1, 2, 3, 4, 5]));
    assert!(matches!(r2, Ok(Some(Event::Battery { .. }))));
}

#[test]
fn skipped_sequence_is_an_error() {
    let mut ev = HpMouseEvents::new();
    assert!(matches!(ev.report_1(&frag(6, 9, 0, &[1, 2])), Ok(None)));
    let r = ev.report_1(&frag(6, 9, 2, &[3, 4]));
    assert!(matches!(r.unwrap_err(), ProtocolError::NonMatchingHeader(_, _)));
    // the partial packet was dropped
    assert!(!ev.is_collecting());
}

#[test]
fn short_fragment_is_invalid_header() {
    let mut ev = HpMouseEvents::new();
    assert_eq!(
        ev.report_1(&[1, 2, 3]).unwrap_err(),
        ProtocolError::InvalidHeader
    );
}

#[test]
fn low_signature_is_invalid() {
    let mut ev = HpMouseEvents::new();
    assert_eq!(
        ev.report_1(&[0x23, 0x01, 2, 0, 9, 9]).unwrap_err(),
        ProtocolError::InvalidSignature
    );
}

#[test]
fn excess_bytes_are_discarded() {
    let mut ev = HpMouseEvents::new();
    // length 5, but 7 payload bytes arrive in one fragment
    let r = ev.report_1(&frag(6, 5, 0, &[1, 2, 3, 4, 5, 6, 7]));
    match r {
        Ok(Some(Event::Battery { level, .. })) => assert_eq!(level, 5),
        other => panic!("expected a battery event, got {:?}", other.map(|_| ())),
    }
    assert!(!ev.is_collecting());
}

#[test]
fn firmware_event_decodes_strings() {
    // version 2345 -> 2.34.5, then "Test" and "AB1" as length-prefixed items
    let payload = [41, 9, 0, 0, 4, 84, 101, 115, 116, 3, 65, 66, 49];
    let mut ev = HpMouseEvents::new();
    let r = ev.report_1(&frag(1, payload.len() as u8, 0, &payload));
    match r {
        Ok(Some(Event::Firmware { version, device, serial })) => {
            assert_eq!(version, (2, 34, 5));
            assert_eq!(device, "Test");
            assert_eq!(serial, "AB1");
        }
        other => panic!("expected a firmware event, got {:?}", other.map(|_| ())),
    }
}

#[test]
fn firmware_with_invalid_utf8_yields_no_event() {
    // 0xFF is not valid UTF-8, so the device name fails to decode
    let payload = [41, 9, 0, 0, 2, 0xFF, 0xFF, 3, 65, 66, 49];
    let mut ev = HpMouseEvents::new();
    let r = ev.report_1(&frag(1, payload.len() as u8, 0, &payload));
    assert!(matches!(r, Ok(None)));
}

#[test]
fn buttons_event_decodes_records() {
    let payload = [
        0, 5, 2, 7, 0x1F, // status, total, programmed, host, flags
        3, 7, 0, 1, 0, // id 3, host 7, Normal, one action byte
        4, 7, 1, 1, 0, // id 4, host 7, Long
    ];
    let mut ev = HpMouseEvents::new();
    let r = ev.report_1(&frag(14, payload.len() as u8, 0, &payload));
    match r {
        Ok(Some(Event::Buttons {
            total_buttons,
            programmed_buttons,
            host_id,
            support_long_press,
            support_double_press,
            support_down_up_press,
            support_simulate,
            support_program_stop,
            buttons,
        })) => {
            assert_eq!(total_buttons, 5);
            assert_eq!(programmed_buttons, 2);
            assert_eq!(host_id, 7);
            assert!(support_long_press);
            assert!(support_double_press);
            assert!(support_down_up_press);
            assert!(support_simulate);
            assert!(support_program_stop);
            assert_eq!(buttons.len(), 2);
            assert_eq!(buttons[0].id, 3);
            assert_eq!(buttons[0].host_id, 7);
            assert_eq!(buttons[0].press_type, PressType::Normal);
            assert_eq!(buttons[0].action(), &vec![0u8]);
            assert_eq!(buttons[1].id, 4);
            assert_eq!(buttons[1].press_type, PressType::Long);
        }
        other => panic!("expected a buttons event, got {:?}", other.map(|_| ())),
    }
}

#[test]
fn buttons_event_stops_at_truncated_record() {
    // declares 3 records but carries only one complete record
    let payload = [0, 5, 3, 7, 0x01, 3, 7, 0, 1, 0, 4, 7];
    let mut ev = HpMouseEvents::new();
    let r = ev.report_1(&frag(14, payload.len() as u8, 0, &payload));
    match r {
        Ok(Some(Event::Buttons { buttons, .. })) => assert_eq!(buttons.len(), 1),
        other => panic!("expected a buttons event, got {:?}", other.map(|_| ())),
    }
}

#[test]
fn buttons_event_rejects_nonzero_status() {
    let payload = [1, 5, 0, 7, 0x01];
    let mut ev = HpMouseEvents::new();
    let r = ev.report_1(&frag(14, payload.len() as u8, 0, &payload));
    assert!(matches!(r, Ok(None)));
}

#[test]
fn mouse_event_decodes_fields() {
    let payload = [
        0, 0xB0, 0x04, 0x20, 0x03, 0xE8, 0x03, 0x64, 0x00, 0x23, 0x00, 1, 10, 5, 0b011,
    ];
    let mut ev = HpMouseEvents::new();
    let r = ev.report_1(&frag(18, payload.len() as u8, 0, &payload));
    match r {
        Ok(Some(Event::Mouse {
            max_dpi,
            min_dpi,
            dpi,
            step_dpi,
            nb_sensitivity_wheel1,
            sensitivity_wheel1,
            nb_sensitivity_wheel2,
            sensitivity_wheel2,
            host_id,
            cut_off_max,
            cut_off,
            support_left_handed,
            left_handed,
            support_no_save_to_flash,
        })) => {
            assert_eq!(max_dpi, 1200);
            assert_eq!(min_dpi, 800);
            assert_eq!(dpi, 1000);
            assert_eq!(step_dpi, 100);
            assert_eq!(nb_sensitivity_wheel1, Some(3));
            assert_eq!(sensitivity_wheel1, 2);
            assert_eq!(nb_sensitivity_wheel2, None);
            assert_eq!(sensitivity_wheel2, 0);
            assert_eq!(host_id, 1);
            assert_eq!(cut_off_max, 10);
            assert_eq!(cut_off, 5);
            assert!(support_left_handed);
            assert!(left_handed);
            assert!(!support_no_save_to_flash);
        }
        other => panic!("expected a mouse event, got {:?}", other.map(|_| ())),
    }
}

#[test]
fn unknown_kind_dispatches_nothing() {
    let mut ev = HpMouseEvents::new();
    let r = ev.report_1(&frag(9, 2, 0, &[1, 2]));
    assert!(matches!(r, Ok(None)));
    assert!(!ev.is_collecting());
}

#[test]
fn handle_report_routes_only_report_type_1() {
    let mut ev = HpMouseEvents::new();
    let mut raw = vec![1u8];
    raw.extend_from_slice(&frag(6, 5, 0, &[1, 2, 3, 4, 5]));
    match ev.handle_report(&raw) {
        Ok(Some(Event::Battery { level, .. })) => assert_eq!(level, 5),
        other => panic!("expected a battery event, got {:?}", other.map(|_| ())),
    }
    // other report types are ignored
    let mut ev2 = HpMouseEvents::new();
    assert!(matches!(ev2.handle_report(&[2, 0xF9, 0x0C, 5, 0]), Ok(None)));
    assert!(!ev2.is_collecting());
}

#[test]
fn sequence_zero_restarts_cleanly_after_error() {
    let mut ev = HpMouseEvents::new();
    // a continuation while idle fails ...
    assert!(ev.report_1(&frag(6, 5, 1, &[1, 2])).is_err());
    // ... and a fresh sequence-0 packet is then accepted as usual
    let r = ev.report_1(&frag(6, 5, 0, &[1, 2, 3, 4, 5]));
    assert!(matches!(r, Ok(Some(Event::Battery { .. }))));
}

#[test]
fn zero_length_packet_completes_immediately() {
    let mut ev = HpMouseEvents::new();
    // declared length 0: the packet completes on its first fragment, and
    // kind 6 rejects the empty payload, so no event comes out
    let r = ev.report_1(&frag(6, 0, 0, &[]));
    assert!(matches!(r, Ok(None)));
    assert!(!ev.is_collecting());
}
