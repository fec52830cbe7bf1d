use vstd::prelude::*;

verus! {

use vstd::arithmetic::power2::pow2;
use vstd::arithmetic::power2::lemma2_to64;
use vstd::arithmetic::power2::lemma_pow2_adds;
use vstd::arithmetic::power2::lemma_pow2_strictly_increases;
use vstd::arithmetic::div_mod::lemma_breakdown;
use vstd::slice::slice_to_vec;

/// Bit `i` of byte `b`, least-significant bit first.
pub open spec fn u8_bit(b: u8, i: int) -> bool {
    (b >> (i as u8)) & 1 == 1
}

/// The low `n` bits of `b`, least-significant bit first.
pub open spec fn byte_bits(b: u8, n: int) -> Seq<bool> {
    Seq::new(n as nat, |i: int| u8_bit(b, i))
}

/// All bits of a byte sequence, least-significant bit first within each byte.
pub open spec fn bytes_to_bits(bytes: Seq<u8>) -> Seq<bool> {
    Seq::new(bytes.len() * 8, |i: int| u8_bit(bytes[i / 8], i % 8))
}

/// A sequence of `n` zero bits.
pub open spec fn false_bits(n: int) -> Seq<bool> {
    Seq::new(n as nat, |i: int| false)
}

/// How many zero bits pad a bit string of length `n` up to a whole byte.
pub open spec fn pad_len(n: int) -> int {
    (8 - n % 8) % 8
}

/// The value of a bit sequence read least-significant bit first.
pub open spec fn bits_val(s: Seq<bool>) -> nat
    decreases s.len(),
{
    if s.len() == 0 {
        0
    } else {
        (if s[0] {
            1nat
        } else {
            0nat
        }) + 2 * bits_val(s.skip(1))
    }
}

pub proof fn lemma_pow2_succ(n: nat)
    requires
        n >= 1,
    ensures
        pow2(n) == 2 * pow2((n - 1) as nat),
{
    lemma_pow2_adds(1, (n - 1) as nat);
    lemma2_to64();
}

pub proof fn lemma_bits_val_bound(s: Seq<bool>)
    ensures
        bits_val(s) < pow2(s.len()),
    decreases s.len(),
{
    if s.len() == 0 {
        lemma2_to64();
    } else {
        lemma_bits_val_bound(s.skip(1));
        lemma_pow2_succ(s.len());
    }
}

pub proof fn lemma_bits_val_push(s: Seq<bool>, b: bool)
    ensures
        bits_val(s.push(b)) == bits_val(s) + (if b {
            pow2(s.len())
        } else {
            0
        }),
    decreases s.len(),
{
    if s.len() == 0 {
        assert(s.push(b).skip(1) =~= Seq::<bool>::empty());
        assert(bits_val(Seq::<bool>::empty()) == 0);
        assert(s.push(b)[0] == b);
        lemma2_to64();
    } else {
        assert(s.push(b).skip(1) =~= s.skip(1).push(b));
        assert(s.push(b)[0] == s[0]);
        lemma_bits_val_push(s.skip(1), b);
        lemma_pow2_succ(s.len() as nat);
    }
}

/// Reading back the low `n` bits of a byte gives the byte's value modulo `pow2(n)`.
pub proof fn lemma_bits_val_byte_bits(b: u8, n: int)
    requires
        0 <= n <= 8,
    ensures
        bits_val(byte_bits(b, n)) == (b as nat) % pow2(n as nat),
    decreases n,
{
    if n == 0 {
        lemma2_to64();
        assert(byte_bits(b, 0) =~= Seq::<bool>::empty());
    } else {
        assert(byte_bits(b, n).skip(1) =~= byte_bits(b / 2, n - 1)) by {
            assert forall|i: int| 0 <= i < n - 1 implies byte_bits(b, n).skip(1)[i] == byte_bits(
                b / 2,
                n - 1,
            )[i] by {
                let j = i as u8;
                assert(((b >> (j + 1)) & 1) == (((b / 2) >> j) & 1)) by (bit_vector)
                    requires
                        j < 7,
                ;
                assert((i + 1) as u8 == j + 1);
            }
        }
        lemma_bits_val_byte_bits(b / 2, n - 1);
        lemma_pow2_succ(n as nat);
        vstd::arithmetic::power2::lemma_pow2_pos((n - 1) as nat);
        lemma_breakdown(b as int, 2, pow2((n - 1) as nat) as int);
        assert(((b >> 0u8) & 1) == b % 2) by (bit_vector);
    }
}


/// The zero byte has no set bits.
pub proof fn lemma_u8_zero_bits()
    ensures
        forall|i: int| !u8_bit(0, i),
{
    assert(forall|j: u8| ((0u8 >> j) & 1) == 0) by (bit_vector);
    assert forall|i: int| !u8_bit(0, i) by {
        let j = i as u8;
        assert(((0u8 >> j) & 1) == 0);
    }
}

/// A read cursor over a byte buffer, addressing bits least-significant first.
/// `end` bounds the readable bits, so a cursor can cover a bit string that
/// stops short of the last byte's end.
pub struct BitStream {
    data: Vec<u8>,
    pos: usize,
    end: usize,
}

impl BitStream {
    pub closed spec fn all_bits(&self) -> Seq<bool> {
        bytes_to_bits(self.data@).take(self.end as int)
    }

    /// The bits not yet consumed.
    pub closed spec fn remaining(&self) -> Seq<bool> {
        self.all_bits().skip(self.pos as int)
    }

    pub closed spec fn wf(&self) -> bool {
        &&& self.pos <= self.end
        &&& self.end <= self.data@.len() * 8
        &&& self.data@.len() * 8 <= usize::MAX
    }

    pub fn new(data: &[u8]) -> (r: Self)
        requires
            data@.len() * 8 <= usize::MAX,
        ensures
            r.wf(),
            r.remaining() == bytes_to_bits(data@),
    {
        let end = data.len() * 8;
        let r = BitStream { data: slice_to_vec(data), pos: 0, end };
        proof {
            assert(r.remaining() =~= bytes_to_bits(data@));
        }
        r
    }

    /// A cursor over only the first `bit_len` bits of `data`.
    pub fn for_bitslice(data: &[u8], bit_len: usize) -> (r: Self)
        requires
            data@.len() * 8 <= usize::MAX,
            bit_len <= data@.len() * 8,
        ensures
            r.wf(),
            r.remaining() == bytes_to_bits(data@).take(bit_len as int),
    {
        let r = BitStream { data: slice_to_vec(data), pos: 0, end: bit_len };
        proof {
            assert(r.remaining() =~= bytes_to_bits(data@).take(bit_len as int));
        }
        r
    }

    /// Consume one bit; empty when none remain.
    pub fn bit(&mut self) -> (r: Option<bool>)
        requires
            old(self).wf(),
        ensures
            final(self).wf(),
            match r {
                Some(b) => old(self).remaining().len() > 0 && b == old(self).remaining()[0]
                    && final(self).remaining() == old(self).remaining().skip(1),
                None => old(self).remaining().len() == 0 && *final(self) == *old(self),
            },
    {
        if self.pos < self.end {
            let byte = self.data[self.pos / 8];
            let sh = (self.pos % 8) as u8;
            let b = ((byte >> sh) & 1) == 1;
            proof {
                assert(self.pos < self.data@.len() * 8);
                assert(self.remaining()[0] == self.all_bits()[self.pos as int]);
                assert(self.all_bits()[self.pos as int] == bytes_to_bits(self.data@)[
                    self.pos as int]);
                assert(self.all_bits().skip(self.pos as int).skip(1) =~= self.all_bits().skip(
                    self.pos + 1,
                ));
            }
            self.pos = self.pos + 1;
            Some(b)
        } else {
            proof {
                assert(self.pos == self.end);
            }
            None
        }
    }

    /// Consume `count <= 8` bits; the first bit read becomes bit 0 of the result.
    /// Consumes nothing when fewer than `count` bits remain.
    pub fn bits(&mut self, count: usize) -> (r: Option<u8>)
        requires
            old(self).wf(),
            count <= 8,
        ensures
            final(self).wf(),
            match r {
                Some(v) => old(self).remaining().len() >= count && v as nat == bits_val(
                    old(self).remaining().take(count as int),
                ) && final(self).remaining() == old(self).remaining().skip(count as int),
                None => old(self).remaining().len() < count && *final(self) == *old(self),
            },
    {
        let total = self.end;
        if count <= total - self.pos {
            let ghost orig = self.remaining();
            let mut acc: u16 = 0;
            let mut p: u16 = 1;
            let mut i: usize = 0;
            proof {
                lemma2_to64();
            }
            while i < count
                invariant
                    self.wf(),
                    count <= 8,
                    i <= count,
                    orig.len() >= count,
                    self.remaining() == orig.skip(i as int),
                    p as nat == pow2(i as nat),
                    acc as nat == bits_val(orig.take(i as int)),
                    acc < p,
                decreases count - i,
            {
                let b = match self.bit() {
                    Some(b) => b,
                    None => {
                        proof {
                            assert(orig.skip(i as int).len() == orig.len() - i);
                        }
                        vstd::pervasive::unreached()
                    },
                };
                proof {
                    assert(orig.skip(i as int)[0] == orig[i as int]);
                    assert(orig.skip(i as int).skip(1) =~= orig.skip(i + 1));
                    lemma_bits_val_push(orig.take(i as int), b);
                    assert(orig.take(i as int).push(b) =~= orig.take(i + 1));
                    if i < 7 {
                        lemma_pow2_strictly_increases(i as nat, 7);
                    }
                    lemma2_to64();
                    assert(p <= 128);
                    lemma_pow2_succ((i + 1) as nat);
                }
                if b {
                    acc = acc + p;
                }
                p = p * 2;
                i = i + 1;
            }
            proof {
                lemma_bits_val_bound(orig.take(count as int));
                if count < 8 {
                    lemma_pow2_strictly_increases(count as nat, 8);
                }
                lemma2_to64();
            }
            Some(acc as u8)
        } else {
            None
        }
    }

    /// How many bits remain to be read.
    pub fn len(&self) -> (r: usize)
        requires
            self.wf(),
        ensures
            r == self.remaining().len(),
    {
        self.end - self.pos
    }

    pub fn is_empty(&self) -> (r: bool)
        requires
            self.wf(),
        ensures
            r == (self.remaining().len() == 0),
    {
        self.len() == 0
    }
}

/// A write cursor that appends bits, least-significant first, into a byte buffer.
pub struct BitWriter {
    data: Vec<u8>,
    len: usize,
}

impl View for BitWriter {
    type V = Seq<bool>;

    closed spec fn view(&self) -> Seq<bool> {
        bytes_to_bits(self.data@).take(self.len as int)
    }
}

impl BitWriter {
    pub closed spec fn wf(&self) -> bool {
        &&& self.len <= self.data@.len() * 8
        &&& self.data@.len() * 8 < self.len + 8
        &&& forall|i: int|
            self.len <= i < self.data@.len() * 8 ==> !#[trigger] u8_bit(self.data@[i / 8], i % 8)
    }

    pub fn new() -> (r: Self)
        ensures
            r.wf(),
            r@ == Seq::<bool>::empty(),
    {
        let r = BitWriter { data: Vec::new(), len: 0 };
        proof {
            assert(r@ =~= Seq::<bool>::empty());
        }
        r
    }

    pub fn push_bit(&mut self, b: bool)
        requires
            old(self).wf(),
            old(self)@.len() < usize::MAX,
        ensures
            final(self).wf(),
            final(self)@ == old(self)@.push(b),
            final(self)@.len() == old(self)@.len() + 1,
    {
        proof {
            assert(forall|x: u8, j: u8, t: u8|
                j < 8 && t < 8 && t != j ==> ((((x | (1u8 << j)) >> t) & 1) == ((x >> t)
                    & 1))) by (bit_vector);
            assert(forall|x: u8, j: u8| j < 8 ==> ((((x | (1u8 << j)) >> j) & 1) == 1)) by (bit_vector);
            assert(forall|j: u8| ((0u8 >> j) & 1) == 0) by (bit_vector);
            assert(forall|j: u8| 1 <= j && j < 8 ==> ((1u8 >> j) & 1) == 0) by (bit_vector);
            assert(((1u8 >> 0u8) & 1) == 1) by (bit_vector);
        }
        let ghost pre = *self;
        if self.len % 8 == 0 {
            let vb: u8 = if b {
                1
            } else {
                0
            };
            self.data.push(vb);
            proof {
                assert(pre.data@.len() == pre.len / 8);
                assert forall|i: int| 0 <= i < pre.len + 1 implies bytes_to_bits(self.data@)[i]
                    == pre@.push(b)[i] by {
                    if i < pre.len {
                        assert(self.data@[i / 8] == pre.data@[i / 8]);
                    } else {
                        assert(i / 8 == pre.data@.len());
                        assert(i % 8 == 0);
                        assert(self.data@[i / 8] == vb);
                    }
                }
            }
        } else if b {
            let k = self.len / 8;
            let sh = (self.len % 8) as u8;
            let old_b = self.data[k];
            let nb = old_b | (1u8 << sh);
            self.data[k] = nb;
            proof {
                assert(pre.data@.len() * 8 < pre.len + 8);
                assert(k == pre.data@.len() - 1);
                assert forall|i: int| 0 <= i < pre.len + 1 implies bytes_to_bits(self.data@)[i]
                    == pre@.push(b)[i] by {
                    if i / 8 < k {
                        assert(self.data@[i / 8] == pre.data@[i / 8]);
                    } else {
                        assert(i / 8 == k);
                        let t = (i % 8) as u8;
                        if i < pre.len {
                            assert(((nb >> t) & 1) == ((old_b >> t) & 1));
                        } else {
                            assert(t == sh);
                        }
                    }
                }
                assert forall|i: int|
                    pre.len + 1 <= i < self.data@.len() * 8 implies !#[trigger] u8_bit(
                    self.data@[i / 8],
                    i % 8,
                ) by {
                    assert(i / 8 == k);
                    let t = (i % 8) as u8;
                    assert(t != sh);
                    assert(((nb >> t) & 1) == ((old_b >> t) & 1));
                    assert(!u8_bit(pre.data@[i / 8], i % 8));
                }
            }
        } else {
            proof {
                assert(pre.data@.len() * 8 < pre.len + 8);
                assert forall|i: int| 0 <= i < pre.len + 1 implies bytes_to_bits(self.data@)[i]
                    == pre@.push(b)[i] by {
                    if i >= pre.len {
                        assert(!u8_bit(pre.data@[i / 8], i % 8));
                    }
                }
            }
        }
        self.len = self.len + 1;
        proof {
            assert(final(self)@ =~= pre@.push(b));
        }
    }

    /// Append the low `count <= 8` bits of `b`, least-significant first.
    pub fn push_bits(&mut self, b: u8, count: usize)
        requires
            old(self).wf(),
            count <= 8,
            old(self)@.len() + count <= usize::MAX,
        ensures
            final(self).wf(),
            final(self)@ == old(self)@ + byte_bits(b, count as int),
            final(self)@.len() == old(self)@.len() + count,
    {
        let ghost base = old(self)@;
        proof {
            assert(base + byte_bits(b, 0) =~= base);
        }
        let mut i: usize = 0;
        while i < count
            invariant
                self.wf(),
                count <= 8,
                i <= count,
                self.len == old(self).len + i,
                self@ == base + byte_bits(b, i as int),
                old(self).len + count <= usize::MAX,
                base.len() == old(self).len,
            decreases count - i,
        {
            let sh = i as u8;
            let bit = ((b >> sh) & 1) == 1;
            self.push_bit(bit);
            proof {
                assert((base + byte_bits(b, i as int)).push(bit) =~= base + byte_bits(
                    b,
                    i + 1,
                ));
            }
            i = i + 1;
        }
    }

    /// The number of bits written so far.
    pub fn bit_len(&self) -> (r: usize)
        requires
            self.wf(),
        ensures
            r == self@.len(),
    {
        self.len
    }

    /// The finished buffer: all written bits, then zero padding to a byte boundary.
    pub fn into_vec(self) -> (r: Vec<u8>)
        requires
            self.wf(),
        ensures
            bytes_to_bits(r@) == self@ + false_bits(pad_len(self@.len() as int)),
            r@.len() * 8 == self@.len() + pad_len(self@.len() as int),
    {
        proof {
            assert(self.data@.len() * 8 == self.len + pad_len(self.len as int));
            assert(bytes_to_bits(self.data@) =~= self@ + false_bits(pad_len(self@.len() as int)));
        }
        self.data
    }
}

} // verus!
