use mouse_configurator::bits::{BitStream, BitWriter};
use mouse_configurator::codec::{decode_action, encode_action, get_value2, push_value2, DecodeError};
use mouse_configurator::Op;
use mouse_configurator::Value::{self, Const, Var};

fn zoom_in() -> Vec<Op> {
    vec![
        Op::key(false, vec![Const(1)]),
        Op::pause(Const(100)),
        Op::mouse(false, Const(0), Const(0), Const(0), Const(1), Const(0)),
        Op::pause(Const(100)),
        Op::key(false, vec![]),
    ]
}

fn zoom_out() -> Vec<Op> {
    vec![
        Op::key(false, vec![Const(1)]),
        Op::pause(Const(100)),
        Op::mouse(false, Const(0), Const(0), Const(0), Const(-1), Const(0)),
        Op::pause(Const(100)),
        Op::key(false, vec![]),
    ]
}

#[test]
fn test_value2() {
    let mut w = BitWriter::new();
    push_value2(&mut w, &Const(100));
    let nbits = w.bit_len();
    let bytes = w.into_vec();
    let mut bitstream = BitStream::for_bitslice(&bytes, nbits);
    assert_eq!(get_value2(&mut bitstream).unwrap(), Const(100));
    assert_eq!(bitstream.len(), 0);
}

#[test]
fn test_pause() {
    let pause = vec![Op::pause(Const(100))];
    assert_eq!(decode_action(&encode_action(&pause)).unwrap(), pause);
}

#[test]
fn test_zoom_in() {
    let zoom_in = zoom_in();
    assert_eq!(decode_action(&encode_action(&zoom_in)).unwrap(), zoom_in);
}

#[test]
fn test_zoom_out() {
    let zoom_out = zoom_out();
    assert_eq!(decode_action(&encode_action(&zoom_out)).unwrap(), zoom_out);
}

#[test]
fn test_zoom_in_decode() {
    let zoom_in = zoom_in();
    let bytes = &[152, 1, 212, 200, 46, 1, 4, 16, 192, 0, 106, 100, 24];
    assert_eq!(decode_action(bytes).unwrap(), zoom_in);
}

#[test]
fn test_zoom_out_decode() {
    let zoom_out = zoom_out();
    let bytes = &[152, 1, 212, 200, 46, 1, 4, 16, 192, 127, 106, 100, 24];
    assert_eq!(decode_action(bytes).unwrap(), zoom_out);
}

#[test]
fn test_media_play_pause() {
    let play_pause = vec![Op::media(true, vec![Const(0xCDu8 as i8)])];
    assert_eq!(
        decode_action(&encode_action(&play_pause)).unwrap(),
        play_pause
    );
}

#[test]
fn key_payload_pairs_adjacent_literals() {
    // two adjacent literals share one tag-3 group: 26 bits, not 28
    let ops = vec![Op::key(false, vec![Const(5), Const(7)])];
    let bytes = encode_action(&ops);
    assert_eq!(bytes, vec![216, 5, 7, 0]);
    assert_eq!(decode_action(&bytes).unwrap(), ops);
}

#[test]
fn key_payload_pairing_keeps_order() {
    let ops = vec![Op::key(false, vec![Var(2), Const(5), Const(7), Var(3)])];
    let bytes = encode_action(&ops);
    assert_eq!(bytes, vec![88, 114, 193, 65, 3]);
    assert_eq!(decode_action(&bytes).unwrap(), ops);
}

#[test]
fn mouse_trims_trailing_zero_literals() {
    // only buttons, dx, dy are emitted; wheels come back as zero literals
    let ops = vec![Op::mouse(false, Const(0), Const(0), Const(1), Const(0), Const(0))];
    let bytes = encode_action(&ops);
    assert_eq!(bytes, vec![151, 0, 2, 24, 0]);
    assert_eq!(decode_action(&bytes).unwrap(), ops);
}

#[test]
fn trailing_kill_is_dropped_after_other_ops() {
    let stored = vec![Op::pause(Const(10)), Op::Kill];
    let decoded = decode_action(&encode_action(&stored)).unwrap();
    assert_eq!(decoded, vec![Op::pause(Const(10))]);
}

#[test]
fn lone_kill_is_kept() {
    let stored = vec![Op::Kill];
    assert_eq!(decode_action(&encode_action(&stored)).unwrap(), stored);
}

#[test]
fn empty_action_decodes_empty() {
    let bytes = encode_action(&[]);
    assert_eq!(bytes, Vec::<u8>::new());
    assert_eq!(decode_action(&bytes).unwrap(), Vec::<Op>::new());
}

#[test]
fn two_byte_literals_round_trip() {
    let ops = vec![
        Op::pause(Const(300)),
        Op::mouse(true, Var(15), Const(-32768), Const(32767), Const(127), Const(-1)),
        Op::media(false, vec![Const(-128), Const(127), Var(0)]),
    ];
    assert_eq!(decode_action(&encode_action(&ops)).unwrap(), ops);
}

#[test]
fn unsupported_opcode_is_an_error() {
    // low five bits 11111 = opcode 31
    assert_eq!(decode_action(&[0x1F]).unwrap_err(), DecodeError::UnsupportedOp(31));
}

#[test]
fn truncated_operand_is_an_error() {
    // opcode 21 (pause) with only three bits left for its operand
    assert_eq!(decode_action(&[0x15]).unwrap_err(), DecodeError::OutOfBits);
}
