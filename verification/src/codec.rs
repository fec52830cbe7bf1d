use vstd::prelude::*;

verus! {

use crate::bits::{
    BitStream, BitWriter, bits_val, byte_bits, bytes_to_bits, false_bits, pad_len,
};
use crate::button::{Op, OpView, Value};

/// Why an action byte string failed to decode.
#[derive(Debug, Clone, Copy, PartialEq, Eq, Structural)]
pub enum DecodeError {
    /// The bitstream ended before the field being read was complete.
    OutOfBits,
    /// A five-bit opcode outside the supported set.
    UnsupportedOp(u8),
}

// ---------------------------------------------------------------------------
// Arithmetic views of the fixed-width conversions the wire format uses.
// ---------------------------------------------------------------------------
/// The unsigned 16-bit pattern of `c`.
pub open spec fn i16_bits(c: i16) -> int {
    if c >= 0 {
        c as int
    } else {
        c + 0x10000
    }
}

/// Low byte of the little-endian form of `c`.
pub open spec fn i16_low(c: i16) -> u8 {
    (i16_bits(c) % 256) as u8
}

/// High byte of the little-endian form of `c`.
pub open spec fn i16_high(c: i16) -> u8 {
    (i16_bits(c) / 256) as u8
}

/// `b` sign-extended from 8 to 16 bits.
pub open spec fn sext8_16(b: u8) -> i16 {
    if b < 128 {
        b as i16
    } else {
        (b - 256) as i16
    }
}

/// `b` reinterpreted as a signed byte.
pub open spec fn as_i8(b: u8) -> i8 {
    if b < 128 {
        b as i8
    } else {
        (b - 256) as i8
    }
}

/// The unsigned bit pattern of a signed byte.
pub open spec fn i8_bits(c: i8) -> u8 {
    if c >= 0 {
        c as u8
    } else {
        (c + 256) as u8
    }
}

/// The signed 16-bit value with little-endian bytes `lo`, `hi`.
pub open spec fn le_i16(lo: u8, hi: u8) -> i16 {
    let v = lo + 256 * (hi as int);
    if v < 32768 {
        v as i16
    } else {
        (v - 65536) as i16
    }
}

// ---------------------------------------------------------------------------
// Bit-level decoding, as spec functions over the bit sequence.
// ---------------------------------------------------------------------------
/// Read `n <= 8` bits as a little-endian field; `None` when too few remain.
pub open spec fn dec_take(bits: Seq<bool>, n: int) -> Option<(u8, Seq<bool>)> {
    if n <= bits.len() {
        Some((bits_val(bits.take(n)) as u8, bits.skip(n)))
    } else {
        None
    }
}

/// Read one bit; `None` when none remain.
pub open spec fn dec_bit(bits: Seq<bool>) -> Option<(bool, Seq<bool>)> {
    if bits.len() >= 1 {
        Some((bits[0], bits.skip(1)))
    } else {
        None
    }
}

/// Decode one standalone 16-bit operand: a selector bit, then either a 4-bit
/// slot, a sign-extended byte, or a two-byte little-endian literal.
pub open spec fn dec_value2(bits: Seq<bool>) -> Result<(Value<i16>, Seq<bool>), DecodeError> {
    match dec_bit(bits) {
        None => Err(DecodeError::OutOfBits),
        Some((is_const, r1)) => if !is_const {
            match dec_take(r1, 4) {
                None => Err(DecodeError::OutOfBits),
                Some((nib, r2)) => Ok((Value::Var(nib), r2)),
            }
        } else {
            match dec_bit(r1) {
                None => Err(DecodeError::OutOfBits),
                Some((two_bytes, r2)) => if !two_bytes {
                    match dec_take(r2, 8) {
                        None => Err(DecodeError::OutOfBits),
                        Some((b, r3)) => Ok((Value::Const(sext8_16(b)), r3)),
                    }
                } else {
                    match dec_take(r2, 8) {
                        None => Err(DecodeError::OutOfBits),
                        Some((b1, r3)) => match dec_take(r3, 8) {
                            None => Err(DecodeError::OutOfBits),
                            Some((b2, r4)) => Ok((Value::Const(le_i16(b1, b2)), r4)),
                        },
                    }
                },
            }
        },
    }
}

/// Decode a tag stream of 16-bit operands: tag 0 stops, 1 is a slot, 2 a
/// sign-extended byte, 3 a two-byte little-endian literal.
pub open spec fn dec_payload2(bits: Seq<bool>) -> Result<
    (Seq<Value<i16>>, Seq<bool>),
    DecodeError,
>
    decreases bits.len(),
{
    match dec_take(bits, 2) {
        None => Err(DecodeError::OutOfBits),
        Some((tag, r)) => if tag == 0 {
            Ok((Seq::empty(), r))
        } else if tag == 1 {
            match dec_take(r, 4) {
                None => Err(DecodeError::OutOfBits),
                Some((nib, r2)) => match dec_payload2(r2) {
                    Err(e) => Err(e),
                    Ok((vs, r3)) => Ok((seq![Value::Var(nib)] + vs, r3)),
                },
            }
        } else if tag == 2 {
            match dec_take(r, 8) {
                None => Err(DecodeError::OutOfBits),
                Some((b, r2)) => match dec_payload2(r2) {
                    Err(e) => Err(e),
                    Ok((vs, r3)) => Ok((seq![Value::Const(sext8_16(b))] + vs, r3)),
                },
            }
        } else {
            match dec_take(r, 8) {
                None => Err(DecodeError::OutOfBits),
                Some((b1, r2)) => match dec_take(r2, 8) {
                    None => Err(DecodeError::OutOfBits),
                    Some((b2, r3)) => match dec_payload2(r3) {
                        Err(e) => Err(e),
                        Ok((vs, r4)) => Ok((seq![Value::Const(le_i16(b1, b2))] + vs, r4)),
                    },
                },
            }
        },
    }
}

/// Decode a tag stream of 8-bit operands; tag 3 carries two literals at once.
pub open spec fn dec_payload(bits: Seq<bool>) -> Result<(Seq<Value<i8>>, Seq<bool>), DecodeError>
    decreases bits.len(),
{
    match dec_take(bits, 2) {
        None => Err(DecodeError::OutOfBits),
        Some((tag, r)) => if tag == 0 {
            Ok((Seq::empty(), r))
        } else if tag == 1 {
            match dec_take(r, 4) {
                None => Err(DecodeError::OutOfBits),
                Some((nib, r2)) => match dec_payload(r2) {
                    Err(e) => Err(e),
                    Ok((vs, r3)) => Ok((seq![Value::Var(nib)] + vs, r3)),
                },
            }
        } else if tag == 2 {
            match dec_take(r, 8) {
                None => Err(DecodeError::OutOfBits),
                Some((b, r2)) => match dec_payload(r2) {
                    Err(e) => Err(e),
                    Ok((vs, r3)) => Ok((seq![Value::Const(as_i8(b))] + vs, r3)),
                },
            }
        } else {
            match dec_take(r, 8) {
                None => Err(DecodeError::OutOfBits),
                Some((b1, r2)) => match dec_take(r2, 8) {
                    None => Err(DecodeError::OutOfBits),
                    Some((b2, r3)) => match dec_payload(r3) {
                        Err(e) => Err(e),
                        Ok((vs, r4)) => Ok(
                            (seq![Value::Const(as_i8(b1)), Value::Const(as_i8(b2))] + vs, r4),
                        ),
                    },
                },
            }
        },
    }
}

pub proof fn lemma_dec_payload2_len(bits: Seq<bool>)
    ensures
        dec_payload2(bits) matches Ok((vs, r)) ==> r.len() <= bits.len(),
    decreases bits.len(),
{
    match dec_take(bits, 2) {
        None => {},
        Some((tag, r)) => {
            if tag == 1 {
                match dec_take(r, 4) {
                    None => {},
                    Some((nib, r2)) => {
                        lemma_dec_payload2_len(r2);
                    },
                }
            } else if tag == 2 {
                match dec_take(r, 8) {
                    None => {},
                    Some((b, r2)) => {
                        lemma_dec_payload2_len(r2);
                    },
                }
            } else if tag != 0 {
                match dec_take(r, 8) {
                    None => {},
                    Some((b1, r2)) => match dec_take(r2, 8) {
                        None => {},
                        Some((b2, r3)) => {
                            lemma_dec_payload2_len(r3);
                        },
                    },
                }
            }
        },
    }
}

pub proof fn lemma_dec_payload_len(bits: Seq<bool>)
    ensures
        dec_payload(bits) matches Ok((vs, r)) ==> r.len() <= bits.len(),
    decreases bits.len(),
{
    match dec_take(bits, 2) {
        None => {},
        Some((tag, r)) => {
            if tag == 1 {
                match dec_take(r, 4) {
                    None => {},
                    Some((nib, r2)) => {
                        lemma_dec_payload_len(r2);
                    },
                }
            } else if tag == 2 {
                match dec_take(r, 8) {
                    None => {},
                    Some((b, r2)) => {
                        lemma_dec_payload_len(r2);
                    },
                }
            } else if tag != 0 {
                match dec_take(r, 8) {
                    None => {},
                    Some((b1, r2)) => match dec_take(r2, 8) {
                        None => {},
                        Some((b2, r3)) => {
                            lemma_dec_payload_len(r3);
                        },
                    },
                }
            }
        },
    }
}

/// The field of a decoded mouse payload, defaulting to a zero literal when
/// the entry was trimmed from the wire form.
pub open spec fn pay_get(vs: Seq<Value<i16>>, i: int) -> Value<i16> {
    if 0 <= i < vs.len() {
        vs[i]
    } else {
        Value::Const(0i16)
    }
}

/// Decode a whole operation stream. Decoding stops at the first kept `Kill`
/// opcode, or when fewer than five bits remain.
pub open spec fn dec_ops(bits: Seq<bool>) -> Result<Seq<OpView>, DecodeError>
    decreases bits.len(),
{
    if bits.len() < 5 {
        Ok(Seq::empty())
    } else {
        match dec_take(bits, 5) {
            None => Err(DecodeError::OutOfBits),
            Some((op, r)) => {
                if op == 0 {
                    Ok(seq![OpView::Kill])
                } else if op == 21 {
                    match dec_value2(r) {
                        Err(e) => Err(e),
                        Ok((v, r2)) => match dec_ops(r2) {
                            Err(e) => Err(e),
                            Ok(rest) => Ok(seq![OpView::Pause(v)] + rest),
                        },
                    }
                } else if op == 23 {
                    match dec_bit(r) {
                        None => Err(DecodeError::OutOfBits),
                        Some((auto_release, r2)) => match dec_payload2(r2) {
                            Err(e) => Err(e),
                            Ok((vs, r3)) => {
                                proof {
                                    lemma_dec_payload2_len(r2);
                                }
                                match dec_ops(r3) {
                                    Err(e) => Err(e),
                                    Ok(rest) => Ok(
                                        seq![
                                            OpView::Mouse {
                                                auto_release,
                                                buttons: pay_get(vs, 0),
                                                dx: pay_get(vs, 1),
                                                dy: pay_get(vs, 2),
                                                wheel1: pay_get(vs, 3),
                                                wheel2: pay_get(vs, 4),
                                            },
                                        ] + rest,
                                    ),
                                }
                            },
                        },
                    }
                } else if op == 24 {
                    match dec_bit(r) {
                        None => Err(DecodeError::OutOfBits),
                        Some((auto_release, r2)) => match dec_payload(r2) {
                            Err(e) => Err(e),
                            Ok((vs, r3)) => {
                                proof {
                                    lemma_dec_payload_len(r2);
                                }
                                match dec_ops(r3) {
                                    Err(e) => Err(e),
                                    Ok(rest) => Ok(
                                        seq![OpView::Key { auto_release, payload: vs }] + rest,
                                    ),
                                }
                            },
                        },
                    }
                } else if op == 27 {
                    match dec_bit(r) {
                        None => Err(DecodeError::OutOfBits),
                        Some((auto_release, r2)) => match dec_payload(r2) {
                            Err(e) => Err(e),
                            Ok((vs, r3)) => {
                                proof {
                                    lemma_dec_payload_len(r2);
                                }
                                match dec_ops(r3) {
                                    Err(e) => Err(e),
                                    Ok(rest) => Ok(
                                        seq![OpView::Media { auto_release, payload: vs }] + rest,
                                    ),
                                }
                            },
                        },
                    }
                } else {
                    Err(DecodeError::UnsupportedOp(op))
                }
            },
        }
    }
}

/// Drop a trailing `Kill` when at least one other operation precedes it: the
/// device writes such a terminator, and it carries no meaning of its own.
pub open spec fn canon(ops: Seq<OpView>) -> Seq<OpView> {
    if ops.len() > 1 && ops.last() is Kill {
        ops.drop_last()
    } else {
        ops
    }
}

/// What `decode_action` returns on `bytes`.
pub open spec fn spec_decode_action(bytes: Seq<u8>) -> Result<Seq<OpView>, DecodeError> {
    match dec_ops(bytes_to_bits(bytes)) {
        Err(e) => Err(e),
        Ok(o) => Ok(canon(o)),
    }
}

// ---------------------------------------------------------------------------
// Bit-level encoding, as spec functions producing the bit sequence.
// ---------------------------------------------------------------------------
/// Wire form of one standalone 16-bit operand.
pub open spec fn enc_value2(v: Value<i16>) -> Seq<bool> {
    match v {
        Value::Var(s) => seq![false] + byte_bits(s, 4),
        Value::Const(c) => if i16_high(c) != 0 {
            seq![true, true] + byte_bits(i16_low(c), 8) + byte_bits(i16_high(c), 8)
        } else {
            seq![true, false] + byte_bits(i16_low(c), 8)
        },
    }
}

/// Wire form of one tagged 16-bit payload entry.
pub open spec fn enc_entry2(v: Value<i16>) -> Seq<bool> {
    match v {
        Value::Var(s) => byte_bits(1, 2) + byte_bits(s, 4),
        Value::Const(c) => if i16_high(c) != 0 {
            byte_bits(3, 2) + byte_bits(i16_low(c), 8) + byte_bits(i16_high(c), 8)
        } else {
            byte_bits(2, 2) + byte_bits(i16_low(c), 8)
        },
    }
}

/// Wire form of a 16-bit payload: tagged entries, then a stop tag.
pub open spec fn enc_payload2(vs: Seq<Value<i16>>) -> Seq<bool>
    decreases vs.len(),
{
    if vs.len() == 0 {
        byte_bits(0, 2)
    } else {
        enc_entry2(vs[0]) + enc_payload2(vs.skip(1))
    }
}

/// Emit a literal byte that was waiting for a partner (tag 2).
pub open spec fn enc_flush(pending: Option<u8>) -> Seq<bool> {
    match pending {
        None => Seq::empty(),
        Some(p) => byte_bits(2, 2) + byte_bits(p, 8),
    }
}

/// Wire form of an 8-bit payload, pairing adjacent literals under tag 3.
/// `pending` is a literal buffered by the encoder, not yet emitted.
pub open spec fn enc_payload_rec(vs: Seq<Value<i8>>, pending: Option<u8>) -> Seq<bool>
    decreases vs.len(),
{
    if vs.len() == 0 {
        enc_flush(pending) + byte_bits(0, 2)
    } else {
        match vs[0] {
            Value::Var(s) => enc_flush(pending) + byte_bits(1, 2) + byte_bits(s, 4)
                + enc_payload_rec(vs.skip(1), None),
            Value::Const(c) => match pending {
                None => enc_payload_rec(vs.skip(1), Some(i8_bits(c))),
                Some(p) => byte_bits(3, 2) + byte_bits(p, 8) + byte_bits(i8_bits(c), 8)
                    + enc_payload_rec(vs.skip(1), None),
            },
        }
    }
}

/// Drop zero literals from the end of a mouse payload.
pub open spec fn trim_zeros(vs: Seq<Value<i16>>) -> Seq<Value<i16>>
    decreases vs.len(),
{
    if vs.len() > 0 && vs.last() == Value::<i16>::Const(0i16) {
        trim_zeros(vs.drop_last())
    } else {
        vs
    }
}

/// Wire form of one operation: a five-bit opcode and its operands.
pub open spec fn enc_op(op: OpView) -> Seq<bool> {
    match op {
        OpView::Kill => byte_bits(0, 5),
        OpView::Pause(v) => byte_bits(21, 5) + enc_value2(v),
        OpView::Mouse { auto_release, buttons, dx, dy, wheel1, wheel2 } => byte_bits(23, 5)
            + seq![auto_release] + enc_payload2(
            trim_zeros(seq![buttons, dx, dy, wheel1, wheel2]),
        ),
        OpView::Key { auto_release, payload } => byte_bits(24, 5) + seq![auto_release]
            + enc_payload_rec(payload, None),
        OpView::Media { auto_release, payload } => byte_bits(27, 5) + seq![auto_release]
            + enc_payload_rec(payload, None),
    }
}

/// Wire form of a whole operation sequence.
pub open spec fn enc_ops(ops: Seq<OpView>) -> Seq<bool>
    decreases ops.len(),
{
    if ops.len() == 0 {
        Seq::empty()
    } else {
        enc_op(ops[0]) + enc_ops(ops.skip(1))
    }
}

// ---------------------------------------------------------------------------
// Executable conversions.
// ---------------------------------------------------------------------------
pub proof fn lemma_seq_assoc<A>(a: Seq<A>, b: Seq<A>, c: Seq<A>)
    ensures
        a + (b + c) == (a + b) + c,
{
    assert(a + (b + c) =~= (a + b) + c);
}

fn sext8(b: u8) -> (r: i16)
    ensures
        r == sext8_16(b),
{
    if b < 128 {
        b as i16
    } else {
        (b as i16) - 256
    }
}

fn u8_to_i8(b: u8) -> (r: i8)
    ensures
        r == as_i8(b),
{
    if b < 128 {
        b as i8
    } else {
        ((b as i16) - 256) as i8
    }
}

fn i8_to_u8(c: i8) -> (r: u8)
    ensures
        r == i8_bits(c),
{
    if c >= 0 {
        c as u8
    } else {
        ((c as i16) + 256) as u8
    }
}

fn le16_signed(lo: u8, hi: u8) -> (r: i16)
    ensures
        r == le_i16(lo, hi),
{
    let v: u32 = lo as u32 + 256 * (hi as u32);
    if v < 32768 {
        v as i16
    } else {
        ((v as i32) - 65536) as i16
    }
}

fn i16_split(c: i16) -> (r: (u8, u8))
    ensures
        r.0 == i16_low(c),
        r.1 == i16_high(c),
{
    let u: u32 = if c >= 0 {
        c as u32
    } else {
        ((c as i32) + 0x10000) as u32
    };
    ((u % 256) as u8, (u / 256) as u8)
}

// ---------------------------------------------------------------------------
// Executable decoding.
// ---------------------------------------------------------------------------
pub fn get_value2(bs: &mut BitStream) -> (r: Result<Value<i16>, DecodeError>)
    requires
        old(bs).wf(),
    ensures
        final(bs).wf(),
        final(bs).remaining().len() <= old(bs).remaining().len(),
        match r {
            Ok(v) => dec_value2(old(bs).remaining()) == Ok::<(Value<i16>, Seq<bool>), DecodeError>(
                (v, final(bs).remaining()),
            ),
            Err(e) => dec_value2(old(bs).remaining()) == Err::<
                (Value<i16>, Seq<bool>),
                DecodeError,
            >(e),
        },
{
    match bs.bit() {
        None => Err(DecodeError::OutOfBits),
        Some(is_const) => if !is_const {
            match bs.bits(4) {
                None => Err(DecodeError::OutOfBits),
                Some(nib) => Ok(Value::Var(nib)),
            }
        } else {
            match bs.bit() {
                None => Err(DecodeError::OutOfBits),
                Some(two_bytes) => if !two_bytes {
                    match bs.bits(8) {
                        None => Err(DecodeError::OutOfBits),
                        Some(b) => Ok(Value::Const(sext8(b))),
                    }
                } else {
                    match bs.bits(8) {
                        None => Err(DecodeError::OutOfBits),
                        Some(b1) => match bs.bits(8) {
                            None => Err(DecodeError::OutOfBits),
                            Some(b2) => Ok(Value::Const(le16_signed(b1, b2))),
                        },
                    }
                },
            }
        },
    }
}

fn get_payload2(bs: &mut BitStream) -> (r: Result<Vec<Value<i16>>, DecodeError>)
    requires
        old(bs).wf(),
    ensures
        final(bs).wf(),
        final(bs).remaining().len() <= old(bs).remaining().len(),
        match r {
            Ok(vs) => dec_payload2(old(bs).remaining()) == Ok::<
                (Seq<Value<i16>>, Seq<bool>),
                DecodeError,
            >((vs@, final(bs).remaining())),
            Err(e) => dec_payload2(old(bs).remaining()) == Err::<
                (Seq<Value<i16>>, Seq<bool>),
                DecodeError,
            >(e),
        },
{
    let ghost orig = old(bs).remaining();
    let mut values: Vec<Value<i16>> = Vec::new();
    proof {
        match dec_payload2(orig) {
            Ok(p) => {
                assert(values@ + p.0 =~= p.0);
            },
            Err(_) => {},
        }
    }
    loop
        invariant
            bs.wf(),
            orig == old(bs).remaining(),
            bs.remaining().len() <= orig.len(),
            dec_payload2(orig) == (match dec_payload2(bs.remaining()) {
                Ok((vs, rest)) => Ok::<(Seq<Value<i16>>, Seq<bool>), DecodeError>(
                    (values@ + vs, rest),
                ),
                Err(e) => Err(e),
            }),
        decreases bs.remaining().len(),
    {
        let ghost rem0 = bs.remaining();
        let ghost vals0 = values@;
        match bs.bits(2) {
            None => {
                return Err(DecodeError::OutOfBits);
            },
            Some(tag) => {
                proof {
                    crate::bits::lemma_bits_val_bound(rem0.take(2));
                    vstd::arithmetic::power2::lemma2_to64();
                    assert(tag < 4);
                }
                if tag == 0 {
                    proof {
                        assert(values@ + Seq::<Value<i16>>::empty() =~= values@);
                    }
                    return Ok(values);
                } else if tag == 1 {
                    match bs.bits(4) {
                        None => {
                            return Err(DecodeError::OutOfBits);
                        },
                        Some(nib) => {
                            values.push(Value::Var(nib));
                            proof {
                                match dec_payload2(bs.remaining()) {
                                    Ok(p) => {
                                        assert(vals0 + (seq![Value::<i16>::Var(nib)] + p.0)
                                            =~= values@ + p.0);
                                    },
                                    Err(_) => {},
                                }
                            }
                        },
                    }
                } else if tag == 2 {
                    match bs.bits(8) {
                        None => {
                            return Err(DecodeError::OutOfBits);
                        },
                        Some(b) => {
                            values.push(Value::Const(sext8(b)));
                            proof {
                                match dec_payload2(bs.remaining()) {
                                    Ok(p) => {
                                        assert(vals0 + (seq![Value::<i16>::Const(sext8_16(b))]
                                            + p.0) =~= values@ + p.0);
                                    },
                                    Err(_) => {},
                                }
                            }
                        },
                    }
                } else {
                    match bs.bits(8) {
                        None => {
                            return Err(DecodeError::OutOfBits);
                        },
                        Some(b1) => match bs.bits(8) {
                            None => {
                                return Err(DecodeError::OutOfBits);
                            },
                            Some(b2) => {
                                values.push(Value::Const(le16_signed(b1, b2)));
                                proof {
                                    match dec_payload2(bs.remaining()) {
                                        Ok(p) => {
                                            assert(vals0 + (seq![
                                                Value::<i16>::Const(le_i16(b1, b2)),
                                            ] + p.0) =~= values@ + p.0);
                                        },
                                        Err(_) => {},
                                    }
                                }
                            },
                        },
                    }
                }
            },
        }
    }
}

fn get_payload(bs: &mut BitStream) -> (r: Result<Vec<Value<i8>>, DecodeError>)
    requires
        old(bs).wf(),
    ensures
        final(bs).wf(),
        final(bs).remaining().len() <= old(bs).remaining().len(),
        match r {
            Ok(vs) => dec_payload(old(bs).remaining()) == Ok::<
                (Seq<Value<i8>>, Seq<bool>),
                DecodeError,
            >((vs@, final(bs).remaining())),
            Err(e) => dec_payload(old(bs).remaining()) == Err::<
                (Seq<Value<i8>>, Seq<bool>),
                DecodeError,
            >(e),
        },
{
    let ghost orig = old(bs).remaining();
    let mut values: Vec<Value<i8>> = Vec::new();
    proof {
        match dec_payload(orig) {
            Ok(p) => {
                assert(values@ + p.0 =~= p.0);
            },
            Err(_) => {},
        }
    }
    loop
        invariant
            bs.wf(),
            orig == old(bs).remaining(),
            bs.remaining().len() <= orig.len(),
            dec_payload(orig) == (match dec_payload(bs.remaining()) {
                Ok((vs, rest)) => Ok::<(Seq<Value<i8>>, Seq<bool>), DecodeError>(
                    (values@ + vs, rest),
                ),
                Err(e) => Err(e),
            }),
        decreases bs.remaining().len(),
    {
        let ghost rem0 = bs.remaining();
        let ghost vals0 = values@;
        match bs.bits(2) {
            None => {
                return Err(DecodeError::OutOfBits);
            },
            Some(tag) => {
                proof {
                    crate::bits::lemma_bits_val_bound(rem0.take(2));
                    vstd::arithmetic::power2::lemma2_to64();
                    assert(tag < 4);
                }
                if tag == 0 {
                    proof {
                        assert(values@ + Seq::<Value<i8>>::empty() =~= values@);
                    }
                    return Ok(values);
                } else if tag == 1 {
                    match bs.bits(4) {
                        None => {
                            return Err(DecodeError::OutOfBits);
                        },
                        Some(nib) => {
                            values.push(Value::Var(nib));
                            proof {
                                match dec_payload(bs.remaining()) {
                                    Ok(p) => {
                                        assert(vals0 + (seq![Value::<i8>::Var(nib)] + p.0)
                                            =~= values@ + p.0);
                                    },
                                    Err(_) => {},
                                }
                            }
                        },
                    }
                } else if tag == 2 {
                    match bs.bits(8) {
                        None => {
                            return Err(DecodeError::OutOfBits);
                        },
                        Some(b) => {
                            values.push(Value::Const(u8_to_i8(b)));
                            proof {
                                match dec_payload(bs.remaining()) {
                                    Ok(p) => {
                                        assert(vals0 + (seq![Value::<i8>::Const(as_i8(b))] + p.0)
                                            =~= values@ + p.0);
                                    },
                                    Err(_) => {},
                                }
                            }
                        },
                    }
                } else {
                    match bs.bits(8) {
                        None => {
                            return Err(DecodeError::OutOfBits);
                        },
                        Some(b1) => match bs.bits(8) {
                            None => {
                                return Err(DecodeError::OutOfBits);
                            },
                            Some(b2) => {
                                values.push(Value::Const(u8_to_i8(b1)));
                                values.push(Value::Const(u8_to_i8(b2)));
                                proof {
                                    match dec_payload(bs.remaining()) {
                                        Ok(p) => {
                                            assert(vals0 + (seq![
                                                Value::<i8>::Const(as_i8(b1)),
                                                Value::<i8>::Const(as_i8(b2)),
                                            ] + p.0) =~= values@ + p.0);
                                        },
                                        Err(_) => {},
                                    }
                                }
                            },
                        },
                    }
                }
            },
        }
    }
}

fn pay_get_exec(vs: &Vec<Value<i16>>, i: usize) -> (r: Value<i16>)
    ensures
        r == pay_get(vs@, i as int),
{
    if i < vs.len() {
        vs[i]
    } else {
        Value::Const(0)
    }
}

fn canonicalize_ops(ops: Vec<Op>) -> (r: Vec<Op>)
    ensures
        r.deep_view() == canon(ops.deep_view()),
{
    let mut ops = ops;
    let ghost dv0 = ops.deep_view();
    if ops.len() > 1 {
        let is_kill = match &ops[ops.len() - 1] {
            Op::Kill => true,
            _ => false,
        };
        proof {
            assert(is_kill == (dv0.last() is Kill));
        }
        if is_kill {
            ops.pop();
            proof {
                assert(ops.deep_view() =~= dv0.drop_last());
            }
        }
    }
    ops
}

/// Decode a button's stored action bytes into the operation sequence they
/// represent, dropping a redundant trailing `Kill`.
pub fn decode_action(action: &[u8]) -> (r: Result<Vec<Op>, DecodeError>)
    requires
        action@.len() * 8 <= usize::MAX,
    ensures
        match r {
            Ok(ops) => spec_decode_action(action@) == Ok::<Seq<OpView>, DecodeError>(
                ops.deep_view(),
            ),
            Err(e) => spec_decode_action(action@) == Err::<Seq<OpView>, DecodeError>(e),
        },
{
    let mut bs = BitStream::new(action);
    let ghost bits0 = bs.remaining();
    let mut ops: Vec<Op> = Vec::new();
    proof {
        match dec_ops(bits0) {
            Ok(rest) => {
                assert(ops.deep_view() + rest =~= rest);
            },
            Err(_) => {},
        }
    }
    loop
        invariant
            bs.wf(),
            bits0 == bytes_to_bits(action@),
            dec_ops(bits0) == (match dec_ops(bs.remaining()) {
                Ok(rest) => Ok::<Seq<OpView>, DecodeError>(ops.deep_view() + rest),
                Err(e) => Err(e),
            }),
        decreases bs.remaining().len(),
    {
        let ghost rem0 = bs.remaining();
        let ghost dv0 = ops.deep_view();
        let op = match bs.bits(5) {
            None => {
                proof {
                    assert(dv0 + Seq::<OpView>::empty() =~= dv0);
                }
                return Ok(canonicalize_ops(ops));
            },
            Some(op) => op,
        };
        proof {
            crate::bits::lemma_bits_val_bound(rem0.take(5));
            vstd::arithmetic::power2::lemma2_to64();
            assert(op < 32);
        }
        if op == 0 {
            ops.push(Op::Kill);
            proof {
                assert(ops.deep_view() =~= dv0.push(OpView::Kill));
                assert(dv0 + seq![OpView::Kill] =~= ops.deep_view());
            }
            return Ok(canonicalize_ops(ops));
        } else if op == 21 {
            match get_value2(&mut bs) {
                Err(e) => {
                    return Err(e);
                },
                Ok(v) => {
                    ops.push(Op::Pause(v));
                    proof {
                        assert(ops.deep_view() =~= dv0.push(OpView::Pause(v)));
                        match dec_ops(bs.remaining()) {
                            Ok(rest) => {
                                assert(dv0 + (seq![OpView::Pause(v)] + rest) =~= ops.deep_view()
                                    + rest);
                            },
                            Err(_) => {},
                        }
                    }
                },
            }
        } else if op == 23 {
            let auto_release = match bs.bit() {
                None => {
                    return Err(DecodeError::OutOfBits);
                },
                Some(b) => b,
            };
            match get_payload2(&mut bs) {
                Err(e) => {
                    return Err(e);
                },
                Ok(payload) => {
                    let m = Op::Mouse {
                        auto_release,
                        buttons: pay_get_exec(&payload, 0),
                        dx: pay_get_exec(&payload, 1),
                        dy: pay_get_exec(&payload, 2),
                        wheel1: pay_get_exec(&payload, 3),
                        wheel2: pay_get_exec(&payload, 4),
                    };
                    let ghost mv = m.deep_view();
                    ops.push(m);
                    proof {
                        assert(ops.deep_view() =~= dv0.push(mv));
                        match dec_ops(bs.remaining()) {
                            Ok(rest) => {
                                assert(dv0 + (seq![mv] + rest) =~= ops.deep_view() + rest);
                            },
                            Err(_) => {},
                        }
                    }
                },
            }
        } else if op == 24 {
            let auto_release = match bs.bit() {
                None => {
                    return Err(DecodeError::OutOfBits);
                },
                Some(b) => b,
            };
            match get_payload(&mut bs) {
                Err(e) => {
                    return Err(e);
                },
                Ok(payload) => {
                    let m = Op::Key { auto_release, payload };
                    let ghost mv = m.deep_view();
                    ops.push(m);
                    proof {
                        assert(ops.deep_view() =~= dv0.push(mv));
                        match dec_ops(bs.remaining()) {
                            Ok(rest) => {
                                assert(dv0 + (seq![mv] + rest) =~= ops.deep_view() + rest);
                            },
                            Err(_) => {},
                        }
                    }
                },
            }
        } else if op == 27 {
            let auto_release = match bs.bit() {
                None => {
                    return Err(DecodeError::OutOfBits);
                },
                Some(b) => b,
            };
            match get_payload(&mut bs) {
                Err(e) => {
                    return Err(e);
                },
                Ok(payload) => {
                    let m = Op::Media { auto_release, payload };
                    let ghost mv = m.deep_view();
                    ops.push(m);
                    proof {
                        assert(ops.deep_view() =~= dv0.push(mv));
                        match dec_ops(bs.remaining()) {
                            Ok(rest) => {
                                assert(dv0 + (seq![mv] + rest) =~= ops.deep_view() + rest);
                            },
                            Err(_) => {},
                        }
                    }
                },
            }
        } else {
            return Err(DecodeError::UnsupportedOp(op));
        }
    }
}

// ---------------------------------------------------------------------------
// Executable encoding.
// ---------------------------------------------------------------------------
pub fn push_value2(w: &mut BitWriter, value: &Value<i16>)
    requires
        old(w).wf(),
        old(w)@.len() + enc_value2(*value).len() <= usize::MAX,
    ensures
        final(w).wf(),
        final(w)@ == old(w)@ + enc_value2(*value),
{
    match value {
        Value::Var(s) => {
            w.push_bit(false);
            w.push_bits(*s, 4);
            proof {
                assert(w@ =~= old(w)@ + enc_value2(*value));
            }
        },
        Value::Const(c) => {
            let (lo, hi) = i16_split(*c);
            w.push_bit(true);
            w.push_bit(hi != 0);
            w.push_bits(lo, 8);
            if hi != 0 {
                w.push_bits(hi, 8);
            }
            proof {
                assert(w@ =~= old(w)@ + enc_value2(*value));
            }
        },
    }
}

fn push_payload2(w: &mut BitWriter, payload: &[Value<i16>])
    requires
        old(w).wf(),
        old(w)@.len() + enc_payload2(payload@).len() <= usize::MAX,
    ensures
        final(w).wf(),
        final(w)@ == old(w)@ + enc_payload2(payload@),
{
    let ghost base = old(w)@;
    proof {
        assert(payload@.skip(0) =~= payload@);
    }
    let mut i: usize = 0;
    while i < payload.len()
        invariant
            w.wf(),
            i <= payload@.len(),
            base + enc_payload2(payload@) == w@ + enc_payload2(payload@.skip(i as int)),
            w@.len() + enc_payload2(payload@.skip(i as int)).len() <= usize::MAX,
        decreases payload@.len() - i,
    {
        let ghost w0 = w@;
        proof {
            assert(payload@.skip(i as int)[0] == payload@[i as int]);
            assert(payload@.skip(i as int).skip(1) =~= payload@.skip(i + 1));
            assert(enc_payload2(payload@.skip(i as int)) == enc_entry2(payload@[i as int])
                + enc_payload2(payload@.skip(i + 1)));
        }
        let v = payload[i];
        match v {
            Value::Var(s) => {
                w.push_bits(1, 2);
                w.push_bits(s, 4);
            },
            Value::Const(c) => {
                let (lo, hi) = i16_split(c);
                if hi != 0 {
                    w.push_bits(3, 2);
                    w.push_bits(lo, 8);
                    w.push_bits(hi, 8);
                } else {
                    w.push_bits(2, 2);
                    w.push_bits(lo, 8);
                }
            },
        }
        proof {
            assert(w@ =~= w0 + enc_entry2(payload@[i as int]));
            lemma_seq_assoc(w0, enc_entry2(payload@[i as int]), enc_payload2(payload@.skip(i + 1)));
            assert(base + enc_payload2(payload@) == w@ + enc_payload2(payload@.skip(i + 1)));
        }
        i = i + 1;
    }
    proof {
        assert(payload@.skip(payload@.len() as int) =~= Seq::<Value<i16>>::empty());
    }
    w.push_bits(0, 2);
    proof {
        assert(final(w)@ =~= old(w)@ + enc_payload2(payload@));
    }
}

fn push_payload(w: &mut BitWriter, payload: &[Value<i8>])
    requires
        old(w).wf(),
        old(w)@.len() + enc_payload_rec(payload@, None).len() <= usize::MAX,
    ensures
        final(w).wf(),
        final(w)@ == old(w)@ + enc_payload_rec(payload@, None),
{
    let ghost base = old(w)@;
    proof {
        assert(payload@.skip(0) =~= payload@);
    }
    let mut prev_const: Option<u8> = None;
    let mut i: usize = 0;
    while i < payload.len()
        invariant
            w.wf(),
            i <= payload@.len(),
            base + enc_payload_rec(payload@, None) == w@ + enc_payload_rec(
                payload@.skip(i as int),
                prev_const,
            ),
            w@.len() + enc_payload_rec(payload@.skip(i as int), prev_const).len() <= usize::MAX,
        decreases payload@.len() - i,
    {
        let ghost w0 = w@;
        let ghost pc0 = prev_const;
        proof {
            assert(payload@.skip(i as int)[0] == payload@[i as int]);
            assert(payload@.skip(i as int).skip(1) =~= payload@.skip(i + 1));
        }
        let v = payload[i];
        match v {
            Value::Var(s) => {
                match prev_const {
                    Some(pv) => {
                        w.push_bits(2, 2);
                        w.push_bits(pv, 8);
                        prev_const = None;
                    },
                    None => {},
                }
                w.push_bits(1, 2);
                w.push_bits(s, 4);
                proof {
                    assert(w@ =~= w0 + (enc_flush(pc0) + byte_bits(1, 2) + byte_bits(s, 4)));
                    assert(w0 + (enc_flush(pc0) + byte_bits(1, 2) + byte_bits(s, 4))
                        + enc_payload_rec(payload@.skip(i + 1), None) =~= w0 + enc_payload_rec(
                        payload@.skip(i as int),
                        pc0,
                    ));
                }
            },
            Value::Const(c) => {
                match prev_const {
                    Some(pv) => {
                        w.push_bits(3, 2);
                        w.push_bits(pv, 8);
                        w.push_bits(i8_to_u8(c), 8);
                        prev_const = None;
                        proof {
                            assert(w@ =~= w0 + (byte_bits(3, 2) + byte_bits(pv, 8) + byte_bits(
                                i8_bits(c),
                                8,
                            )));
                            assert(w0 + (byte_bits(3, 2) + byte_bits(pv, 8) + byte_bits(
                                i8_bits(c),
                                8,
                            )) + enc_payload_rec(payload@.skip(i + 1), None) =~= w0
                                + enc_payload_rec(payload@.skip(i as int), pc0));
                        }
                    },
                    None => {
                        prev_const = Some(i8_to_u8(c));
                        proof {
                            assert(enc_payload_rec(payload@.skip(i as int), pc0)
                                == enc_payload_rec(payload@.skip(i + 1), prev_const));
                        }
                    },
                }
            },
        }
        i = i + 1;
    }
    proof {
        assert(payload@.skip(payload@.len() as int) =~= Seq::<Value<i8>>::empty());
    }
    match prev_const {
        Some(pv) => {
            w.push_bits(2, 2);
            w.push_bits(pv, 8);
        },
        None => {},
    }
    w.push_bits(0, 2);
    proof {
        assert(final(w)@ =~= old(w)@ + enc_payload_rec(payload@, None));
    }
}

/// Encode an operation sequence into a button's action bytes; the bit string
/// is padded with zero bits to a whole number of bytes.
pub fn encode_action(ops: &[Op]) -> (r: Vec<u8>)
    requires
        enc_ops(ops.deep_view()).len() <= usize::MAX,
    ensures
        bytes_to_bits(r@) == enc_ops(ops.deep_view()) + false_bits(
            pad_len(enc_ops(ops.deep_view()).len() as int),
        ),
        r@.len() * 8 == enc_ops(ops.deep_view()).len() + pad_len(
            enc_ops(ops.deep_view()).len() as int,
        ),
{
    let ghost dv = ops.deep_view();
    let mut w = BitWriter::new();
    proof {
        assert(Seq::<bool>::empty() + enc_ops(dv) =~= enc_ops(dv));
        assert(dv.skip(0) =~= dv);
    }
    let mut idx: usize = 0;
    while idx < ops.len()
        invariant
            w.wf(),
            idx <= ops@.len(),
            dv == ops.deep_view(),
            dv.len() == ops@.len(),
            w@ + enc_ops(dv.skip(idx as int)) == enc_ops(dv),
            enc_ops(dv).len() <= usize::MAX,
        decreases ops@.len() - idx,
    {
        let ghost w0 = w@;
        proof {
            assert(dv.skip(idx as int)[0] == dv[idx as int]);
            assert(dv[idx as int] == ops@[idx as int].deep_view());
            assert(dv.skip(idx as int).skip(1) =~= dv.skip(idx + 1));
            assert(enc_ops(dv.skip(idx as int)) == enc_op(dv[idx as int]) + enc_ops(
                dv.skip(idx + 1),
            ));
            lemma_seq_assoc(w0, enc_op(dv[idx as int]), enc_ops(dv.skip(idx + 1)));
        }
        let op = &ops[idx];
        match op {
            Op::Kill => {
                w.push_bits(0, 5);
            },
            Op::Pause(value) => {
                w.push_bits(21, 5);
                push_value2(&mut w, value);
                proof {
                    assert(w@ =~= w0 + enc_op(dv[idx as int]));
                }
            },
            Op::Mouse { auto_release, buttons, dx, dy, wheel1, wheel2 } => {
                w.push_bits(23, 5);
                w.push_bit(*auto_release);
                let mut payload: Vec<Value<i16>> = Vec::new();
                payload.push(*buttons);
                payload.push(*dx);
                payload.push(*dy);
                payload.push(*wheel1);
                payload.push(*wheel2);
                let ghost five = seq![*buttons, *dx, *dy, *wheel1, *wheel2];
                proof {
                    assert(payload@ =~= five);
                }
                loop
                    invariant
                        trim_zeros(payload@) == trim_zeros(five),
                    ensures
                        trim_zeros(payload@) == trim_zeros(five),
                        payload@.len() == 0 || !(payload@.last() == Value::<i16>::Const(0i16)),
                    decreases payload@.len(),
                {
                    if payload.len() == 0 {
                        break ;
                    }
                    let lastv = payload[payload.len() - 1];
                    if lastv == Value::Const(0i16) {
                        let ghost pre = payload@;
                        payload.pop();
                        proof {
                            assert(payload@ =~= pre.drop_last());
                        }
                    } else {
                        break ;
                    }
                }
                proof {
                    assert(trim_zeros(payload@) == payload@);
                }
                push_payload2(&mut w, payload.as_slice());
                proof {
                    assert(w@ =~= w0 + enc_op(dv[idx as int]));
                }
            },
            Op::Key { auto_release, payload } => {
                w.push_bits(24, 5);
                w.push_bit(*auto_release);
                push_payload(&mut w, payload.as_slice());
                proof {
                    assert(w@ =~= w0 + enc_op(dv[idx as int]));
                }
            },
            Op::Media { auto_release, payload } => {
                w.push_bits(27, 5);
                w.push_bit(*auto_release);
                push_payload(&mut w, payload.as_slice());
                proof {
                    assert(w@ =~= w0 + enc_op(dv[idx as int]));
                }
            },
        }
        proof {
            assert(w@ + enc_ops(dv.skip(idx + 1)) == enc_ops(dv));
        }
        idx = idx + 1;
    }
    proof {
        assert(dv.skip(dv.len() as int) =~= Seq::<OpView>::empty());
        assert(w@ + Seq::<bool>::empty() =~= w@);
        assert(w@ == enc_ops(dv));
    }
    w.into_vec()
}

// ---------------------------------------------------------------------------
// Well-formed operations: the values the wire format can carry faithfully.
// ---------------------------------------------------------------------------
/// A 16-bit operand the codec round-trips: slots fit in four bits, and
/// literals avoid [128, 255], which the one-byte form sign-extends.
pub open spec fn wf_value16(v: Value<i16>) -> bool {
    match v {
        Value::Var(s) => s < 16,
        Value::Const(c) => !(128 <= c <= 255),
    }
}

/// An 8-bit operand the codec round-trips: slots fit in four bits.
pub open spec fn wf_value8(v: Value<i8>) -> bool {
    match v {
        Value::Var(s) => s < 16,
        Value::Const(_) => true,
    }
}

pub open spec fn wf_op(op: OpView) -> bool {
    match op {
        OpView::Kill => true,
        OpView::Pause(v) => wf_value16(v),
        OpView::Mouse { buttons, dx, dy, wheel1, wheel2, .. } => wf_value16(buttons)
            && wf_value16(dx) && wf_value16(dy) && wf_value16(wheel1) && wf_value16(wheel2),
        OpView::Key { payload, .. } => forall|i: int|
            0 <= i < payload.len() ==> wf_value8(#[trigger] payload[i]),
        OpView::Media { payload, .. } => forall|i: int|
            0 <= i < payload.len() ==> wf_value8(#[trigger] payload[i]),
    }
}

/// A sequence the codec round-trips: every operand in range, and `Kill`
/// nowhere but in the final position, since decoding stops at a kept `Kill`.
pub open spec fn wf_ops(ops: Seq<OpView>) -> bool {
    &&& forall|i: int| 0 <= i < ops.len() ==> wf_op(#[trigger] ops[i])
    &&& forall|i: int| 0 <= i < ops.len() - 1 ==> !((#[trigger] ops[i]) is Kill)
}

} // verus!
