use vstd::prelude::*;

verus! {

use crate::bits::{
    byte_bits, bytes_to_bits, false_bits, lemma_bits_val_byte_bits, lemma_u8_zero_bits, pad_len,
};
use crate::button::{OpView, Value};
use crate::codec::{
    DecodeError, as_i8, canon, dec_ops, dec_payload, dec_payload2, dec_take, dec_value2, enc_op,
    enc_ops, enc_payload2, enc_payload_rec, enc_value2, i8_bits, i16_bits, i16_high, i16_low,
    le_i16, pay_get, sext8_16, spec_decode_action, trim_zeros, wf_op, wf_ops, wf_value16,
    wf_value8,
};
use vstd::arithmetic::power2::{lemma2_to64, pow2};
use vstd::arithmetic::div_mod::{lemma_fundamental_div_mod, lemma_small_mod};

/// Reading back `n` bits written from a value below `pow2(n)` returns the
/// value and leaves the rest untouched.
proof fn lemma_dec_take_enc(v: u8, n: int, rest: Seq<bool>)
    requires
        0 <= n <= 8,
        (v as nat) < pow2(n as nat),
    ensures
        dec_take(byte_bits(v, n) + rest, n) == Some((v, rest)),
{
    let s = byte_bits(v, n) + rest;
    assert(s.take(n) =~= byte_bits(v, n));
    assert(s.skip(n) =~= rest);
    lemma_bits_val_byte_bits(v, n);
    lemma_small_mod(v as nat, pow2(n as nat));
}

/// The split of a 16-bit pattern into little-endian bytes is faithful.
proof fn lemma_i16_split(c: i16)
    ensures
        0 <= i16_bits(c) < 0x10000,
        i16_low(c) + 256 * (i16_high(c) as int) == i16_bits(c),
        i16_high(c) == 0 ==> i16_bits(c) < 256,
        le_i16(i16_low(c), i16_high(c)) == c,
{
    let u = i16_bits(c);
    lemma_fundamental_div_mod(u, 256);
}

proof fn lemma_dec_value2_enc(v: Value<i16>, rest: Seq<bool>)
    requires
        wf_value16(v),
    ensures
        dec_value2(enc_value2(v) + rest) == Ok::<(Value<i16>, Seq<bool>), DecodeError>((v, rest)),
{
    lemma2_to64();
    match v {
        Value::Var(s) => {
            let s0 = enc_value2(v) + rest;
            assert(s0[0] == false);
            assert(s0.skip(1) =~= byte_bits(s, 4) + rest);
            lemma_dec_take_enc(s, 4, rest);
        },
        Value::Const(c) => {
            lemma_i16_split(c);
            let lo = i16_low(c);
            let hi = i16_high(c);
            let s0 = enc_value2(v) + rest;
            if hi != 0 {
                assert(s0[0] == true);
                assert(s0.skip(1) =~= seq![true] + (byte_bits(lo, 8) + (byte_bits(hi, 8) + rest)));
                let s1 = seq![true] + (byte_bits(lo, 8) + (byte_bits(hi, 8) + rest));
                assert(s1[0] == true);
                assert(s1.skip(1) =~= byte_bits(lo, 8) + (byte_bits(hi, 8) + rest));
                lemma_dec_take_enc(lo, 8, byte_bits(hi, 8) + rest);
                lemma_dec_take_enc(hi, 8, rest);
                assert(le_i16(lo, hi) == c);
            } else {
                assert(s0[0] == true);
                assert(s0.skip(1) =~= seq![false] + (byte_bits(lo, 8) + rest));
                let s1 = seq![false] + (byte_bits(lo, 8) + rest);
                assert(s1[0] == false);
                assert(s1.skip(1) =~= byte_bits(lo, 8) + rest);
                lemma_dec_take_enc(lo, 8, rest);
                // a one-byte literal is sign-extended on decode; wf rules out
                // the values whose pattern would change meaning
                assert(i16_bits(c) < 256);
                assert(c >= 0);
                assert(lo == c);
                assert(sext8_16(lo) == c);
            }
        },
    }
}

proof fn lemma_dec_payload2_enc(vs: Seq<Value<i16>>, rest: Seq<bool>)
    requires
        forall|i: int| 0 <= i < vs.len() ==> wf_value16(#[trigger] vs[i]),
    ensures
        dec_payload2(enc_payload2(vs) + rest) == Ok::<(Seq<Value<i16>>, Seq<bool>), DecodeError>(
            (vs, rest),
        ),
    decreases vs.len(),
{
    lemma2_to64();
    if vs.len() == 0 {
        lemma_dec_take_enc(0, 2, rest);
        assert(enc_payload2(vs) + rest =~= byte_bits(0, 2) + rest);
        assert(vs =~= Seq::<Value<i16>>::empty());
    } else {
        let v0 = vs[0];
        let tail = vs.skip(1);
        assert(forall|i: int| 0 <= i < tail.len() ==> wf_value16(#[trigger] tail[i]));
        lemma_dec_payload2_enc(tail, rest);
        let cont = enc_payload2(tail) + rest;
        let s0 = enc_payload2(vs) + rest;
        match v0 {
            Value::Var(s) => {
                assert(s0 =~= byte_bits(1, 2) + (byte_bits(s, 4) + cont));
                lemma_dec_take_enc(1, 2, byte_bits(s, 4) + cont);
                lemma_dec_take_enc(s, 4, cont);
                assert(seq![Value::<i16>::Var(s)] + tail =~= vs);
            },
            Value::Const(c) => {
                lemma_i16_split(c);
                let lo = i16_low(c);
                let hi = i16_high(c);
                if hi != 0 {
                    assert(s0 =~= byte_bits(3, 2) + (byte_bits(lo, 8) + (byte_bits(hi, 8)
                        + cont)));
                    lemma_dec_take_enc(3, 2, byte_bits(lo, 8) + (byte_bits(hi, 8) + cont));
                    lemma_dec_take_enc(lo, 8, byte_bits(hi, 8) + cont);
                    lemma_dec_take_enc(hi, 8, cont);
                    assert(le_i16(lo, hi) == c);
                    assert(seq![Value::<i16>::Const(c)] + tail =~= vs);
                } else {
                    assert(s0 =~= byte_bits(2, 2) + (byte_bits(lo, 8) + cont));
                    lemma_dec_take_enc(2, 2, byte_bits(lo, 8) + cont);
                    lemma_dec_take_enc(lo, 8, cont);
                    assert(i16_bits(c) < 256);
                    assert(c >= 0 && c < 128);
                    assert(sext8_16(lo) == c);
                    assert(seq![Value::<i16>::Const(c)] + tail =~= vs);
                }
            },
        }
    }
}

/// The operand a buffered literal stands for.
spec fn pend_seq(pending: Option<u8>) -> Seq<Value<i8>> {
    match pending {
        None => Seq::empty(),
        Some(b) => seq![Value::Const(as_i8(b))],
    }
}

proof fn lemma_dec_payload_enc(vs: Seq<Value<i8>>, pending: Option<u8>, rest: Seq<bool>)
    requires
        forall|i: int| 0 <= i < vs.len() ==> wf_value8(#[trigger] vs[i]),
    ensures
        dec_payload(enc_payload_rec(vs, pending) + rest) == Ok::<
            (Seq<Value<i8>>, Seq<bool>),
            DecodeError,
        >((pend_seq(pending) + vs, rest)),
    decreases vs.len(),
{
    lemma2_to64();
    if vs.len() == 0 {
        match pending {
            None => {
                assert(enc_payload_rec(vs, pending) + rest =~= byte_bits(0, 2) + rest);
                lemma_dec_take_enc(0, 2, rest);
                assert(pend_seq(pending) + vs =~= Seq::<Value<i8>>::empty());
            },
            Some(p) => {
                let stop = byte_bits(0, 2) + rest;
                assert(enc_payload_rec(vs, pending) + rest =~= byte_bits(2, 2) + (byte_bits(p, 8)
                    + stop));
                lemma_dec_take_enc(2, 2, byte_bits(p, 8) + stop);
                lemma_dec_take_enc(p, 8, stop);
                lemma_dec_take_enc(0, 2, rest);
                assert(dec_payload(stop) == Ok::<(Seq<Value<i8>>, Seq<bool>), DecodeError>(
                    (Seq::empty(), rest),
                ));
                assert(seq![Value::<i8>::Const(as_i8(p))] + Seq::<Value<i8>>::empty() =~= pend_seq(
                    pending,
                ) + vs);
            },
        }
    } else {
        let v0 = vs[0];
        let tail = vs.skip(1);
        assert(forall|i: int| 0 <= i < tail.len() ==> wf_value8(#[trigger] tail[i]));
        match v0 {
            Value::Var(s) => {
                lemma_dec_payload_enc(tail, None, rest);
                let cont = enc_payload_rec(tail, None) + rest;
                match pending {
                    None => {
                        assert(enc_payload_rec(vs, pending) + rest =~= byte_bits(1, 2)
                            + (byte_bits(s, 4) + cont));
                        lemma_dec_take_enc(1, 2, byte_bits(s, 4) + cont);
                        lemma_dec_take_enc(s, 4, cont);
                        assert(seq![Value::<i8>::Var(s)] + (pend_seq(None) + tail) =~= pend_seq(
                            pending,
                        ) + vs);
                    },
                    Some(p) => {
                        let after_flush = byte_bits(1, 2) + (byte_bits(s, 4) + cont);
                        assert(enc_payload_rec(vs, pending) + rest =~= byte_bits(2, 2)
                            + (byte_bits(p, 8) + after_flush));
                        lemma_dec_take_enc(2, 2, byte_bits(p, 8) + after_flush);
                        lemma_dec_take_enc(p, 8, after_flush);
                        lemma_dec_take_enc(1, 2, byte_bits(s, 4) + cont);
                        lemma_dec_take_enc(s, 4, cont);
                        assert(dec_payload(after_flush) == Ok::<
                            (Seq<Value<i8>>, Seq<bool>),
                            DecodeError,
                        >((seq![Value::<i8>::Var(s)] + (pend_seq(None) + tail), rest)));
                        assert(seq![Value::<i8>::Const(as_i8(p))] + (seq![Value::<i8>::Var(s)]
                            + (pend_seq(None) + tail)) =~= pend_seq(pending) + vs);
                    },
                }
            },
            Value::Const(c) => {
                match pending {
                    None => {
                        lemma_dec_payload_enc(tail, Some(i8_bits(c)), rest);
                        assert(as_i8(i8_bits(c)) == c);
                        assert(enc_payload_rec(vs, pending) == enc_payload_rec(
                            tail,
                            Some(i8_bits(c)),
                        ));
                        assert(pend_seq(Some(i8_bits(c))) + tail =~= pend_seq(pending) + vs);
                    },
                    Some(p) => {
                        lemma_dec_payload_enc(tail, None, rest);
                        let cont = enc_payload_rec(tail, None) + rest;
                        assert(enc_payload_rec(vs, pending) + rest =~= byte_bits(3, 2)
                            + (byte_bits(p, 8) + (byte_bits(i8_bits(c), 8) + cont)));
                        lemma_dec_take_enc(3, 2, byte_bits(p, 8) + (byte_bits(i8_bits(c), 8)
                            + cont));
                        lemma_dec_take_enc(p, 8, byte_bits(i8_bits(c), 8) + cont);
                        lemma_dec_take_enc(i8_bits(c), 8, cont);
                        assert(as_i8(i8_bits(c)) == c);
                        assert(seq![Value::<i8>::Const(as_i8(p)), Value::<i8>::Const(c)]
                            + (pend_seq(None) + tail) =~= pend_seq(pending) + vs);
                    },
                }
            },
        }
    }
}

/// Trimming keeps a prefix of the payload.
proof fn lemma_trim_prefix(vs: Seq<Value<i16>>)
    ensures
        trim_zeros(vs).len() <= vs.len(),
        forall|i: int| 0 <= i < trim_zeros(vs).len() ==> trim_zeros(vs)[i] == vs[i],
    decreases vs.len(),
{
    if vs.len() > 0 && vs.last() == Value::<i16>::Const(0i16) {
        lemma_trim_prefix(vs.drop_last());
        assert forall|i: int| 0 <= i < trim_zeros(vs).len() implies trim_zeros(vs)[i] == vs[i] by {
            assert(trim_zeros(vs) == trim_zeros(vs.drop_last()));
            assert(trim_zeros(vs.drop_last())[i] == vs.drop_last()[i]);
            assert(vs.drop_last()[i] == vs[i]);
        }
    }
}

/// Decoding a trimmed payload and defaulting the missing entries restores
/// every field.
proof fn lemma_trim_pay_get(vs: Seq<Value<i16>>)
    ensures
        forall|i: int| pay_get(trim_zeros(vs), i) == pay_get(vs, i),
    decreases vs.len(),
{
    if vs.len() > 0 && vs.last() == Value::<i16>::Const(0i16) {
        lemma_trim_pay_get(vs.drop_last());
        assert forall|i: int| pay_get(trim_zeros(vs), i) == pay_get(vs, i) by {
            assert(pay_get(trim_zeros(vs.drop_last()), i) == pay_get(vs.drop_last(), i));
            if 0 <= i < vs.len() - 1 {
                assert(vs.drop_last()[i] == vs[i]);
            }
        }
    }
}

/// What decoding yields on an encoded sequence followed by `k` zero padding
/// bits: the sequence itself, plus one `Kill` when at least five padding bits
/// follow an unterminated sequence and decode as an opcode.
spec fn dec_padded_expect(ops: Seq<OpView>, k: int) -> Seq<OpView> {
    if ops.len() > 0 && ops.last() is Kill {
        ops
    } else if k >= 5 {
        ops.push(OpView::Kill)
    } else {
        ops
    }
}

proof fn lemma_false_bits_dec(k: int)
    requires
        0 <= k < 8,
    ensures
        dec_ops(false_bits(k)) == Ok::<Seq<OpView>, DecodeError>(
            if k >= 5 {
                seq![OpView::Kill]
            } else {
                Seq::empty()
            },
        ),
{
    lemma2_to64();
    lemma_u8_zero_bits();
    if k >= 5 {
        assert(false_bits(k) =~= byte_bits(0, 5) + false_bits(k - 5));
        lemma_dec_take_enc(0, 5, false_bits(k - 5));
    }
}

/// Decoding one encoded non-`Kill` operation, then whatever `cont` decodes
/// to, is decoding the concatenation.
#[verifier::rlimit(60)]
proof fn lemma_dec_op_cons(op0: OpView, cont: Seq<bool>, rest0: Seq<OpView>)
    requires
        wf_op(op0),
        !(op0 is Kill),
        dec_ops(cont) == Ok::<Seq<OpView>, DecodeError>(rest0),
    ensures
        dec_ops(enc_op(op0) + cont) == Ok::<Seq<OpView>, DecodeError>(seq![op0] + rest0),
{
    lemma2_to64();
    let s0 = enc_op(op0) + cont;
    match op0 {
        OpView::Kill => {},
        OpView::Pause(v) => {
            assert(s0 =~= byte_bits(21, 5) + (enc_value2(v) + cont));
            lemma_dec_take_enc(21, 5, enc_value2(v) + cont);
            lemma_dec_value2_enc(v, cont);
        },
        OpView::Mouse { auto_release, buttons, dx, dy, wheel1, wheel2 } => {
            let five = seq![buttons, dx, dy, wheel1, wheel2];
            let trimmed = trim_zeros(five);
            lemma_trim_prefix(five);
            assert(forall|i: int| 0 <= i < trimmed.len() ==> wf_value16(#[trigger] trimmed[i]));
            assert(s0 =~= byte_bits(23, 5) + (seq![auto_release] + (enc_payload2(trimmed)
                + cont)));
            lemma_dec_take_enc(23, 5, seq![auto_release] + (enc_payload2(trimmed) + cont));
            let s1 = seq![auto_release] + (enc_payload2(trimmed) + cont);
            assert(s1[0] == auto_release);
            assert(s1.skip(1) =~= enc_payload2(trimmed) + cont);
            lemma_dec_payload2_enc(trimmed, cont);
            lemma_trim_pay_get(five);
            assert(pay_get(five, 0) == buttons);
            assert(pay_get(five, 1) == dx);
            assert(pay_get(five, 2) == dy);
            assert(pay_get(five, 3) == wheel1);
            assert(pay_get(five, 4) == wheel2);
        },
        OpView::Key { auto_release, payload } => {
            assert(s0 =~= byte_bits(24, 5) + (seq![auto_release] + (enc_payload_rec(payload, None)
                + cont)));
            lemma_dec_take_enc(24, 5, seq![auto_release] + (enc_payload_rec(payload, None)
                + cont));
            let s1 = seq![auto_release] + (enc_payload_rec(payload, None) + cont);
            assert(s1[0] == auto_release);
            assert(s1.skip(1) =~= enc_payload_rec(payload, None) + cont);
            lemma_dec_payload_enc(payload, None, cont);
            assert(pend_seq(None) + payload =~= payload);
        },
        OpView::Media { auto_release, payload } => {
            assert(s0 =~= byte_bits(27, 5) + (seq![auto_release] + (enc_payload_rec(payload, None)
                + cont)));
            lemma_dec_take_enc(27, 5, seq![auto_release] + (enc_payload_rec(payload, None)
                + cont));
            let s1 = seq![auto_release] + (enc_payload_rec(payload, None) + cont);
            assert(s1[0] == auto_release);
            assert(s1.skip(1) =~= enc_payload_rec(payload, None) + cont);
            lemma_dec_payload_enc(payload, None, cont);
            assert(pend_seq(None) + payload =~= payload);
        },
    }
}

proof fn lemma_dec_ops_enc(ops: Seq<OpView>, k: int)
    requires
        wf_ops(ops),
        0 <= k < 8,
    ensures
        dec_ops(enc_ops(ops) + false_bits(k)) == Ok::<Seq<OpView>, DecodeError>(
            dec_padded_expect(ops, k),
        ),
    decreases ops.len(),
{
    lemma2_to64();
    if ops.len() == 0 {
        assert(enc_ops(ops) + false_bits(k) =~= false_bits(k));
        lemma_false_bits_dec(k);
        if k >= 5 {
            assert(dec_padded_expect(ops, k) =~= seq![OpView::Kill]);
        } else {
            assert(dec_padded_expect(ops, k) =~= Seq::<OpView>::empty());
        }
    } else {
        let op0 = ops[0];
        let tail = ops.skip(1);
        assert(wf_op(op0));
        assert(forall|i: int| 0 <= i < tail.len() ==> wf_op(#[trigger] tail[i]));
        assert(forall|i: int| 0 <= i < tail.len() - 1 ==> !((#[trigger] tail[i]) is Kill));
        let cont = enc_ops(tail) + false_bits(k);
        if op0 is Kill {
            // well-formedness puts Kill only in the last place
            assert(ops.len() == 1);
            assert(tail =~= Seq::<OpView>::empty());
            assert(enc_ops(ops) + false_bits(k) =~= byte_bits(0, 5) + false_bits(k));
            lemma_dec_take_enc(0, 5, false_bits(k));
            assert(dec_padded_expect(ops, k) == ops);
            assert(seq![OpView::Kill] =~= ops);
        } else {
            lemma_dec_ops_enc(tail, k);
            lemma_dec_op_cons(op0, cont, dec_padded_expect(tail, k));
            assert(enc_ops(ops) + false_bits(k) =~= enc_op(op0) + cont);
            assert(seq![op0] + dec_padded_expect(tail, k) =~= dec_padded_expect(ops, k));
        }
    }
}

/// Round trip of the action codec: decoding the encoding of any well-formed
/// operation sequence yields the sequence itself, up to canonicalization,
/// which drops a trailing `Kill` when other operations precede it.
///
/// `bytes` is any byte string whose bits are the encoding plus its zero
/// padding — exactly what `encode_action` ensures about its result.
pub proof fn lemma_action_round_trip(ops: Seq<OpView>, bytes: Seq<u8>)
    requires
        wf_ops(ops),
        bytes_to_bits(bytes) == enc_ops(ops) + false_bits(pad_len(enc_ops(ops).len() as int)),
    ensures
        spec_decode_action(bytes) == Ok::<Seq<OpView>, DecodeError>(canon(ops)),
{
    let n = enc_ops(ops).len() as int;
    let k = pad_len(n);
    assert(0 <= k < 8);
    lemma_dec_ops_enc(ops, k);
    let expected = dec_padded_expect(ops, k);
    if ops.len() == 0 {
        assert(enc_ops(ops).len() == 0);
        assert(k == 0);
        assert(canon(expected) == canon(ops));
    } else if ops.last() is Kill {
        assert(expected == ops);
    } else if k >= 5 {
        assert(expected == ops.push(OpView::Kill));
        assert(expected.len() > 1);
        assert(expected.last() is Kill);
        assert(canon(expected) =~= ops);
        assert(canon(ops) == ops);
    } else {
        assert(expected == ops);
    }
}

} // verus!
