//! A bit-granular read cursor over a borrowed byte slice.
use crate::obu::ObuError;
use vstd::arithmetic::power2::{
    lemma2_to64, lemma2_to64_rest, lemma_pow2_adds, lemma_pow2_strictly_increases,
    lemma_pow2_unfold, pow2,
};
use vstd::prelude::*;

verus! {

/// The bit of `bytes` at bit index `i`, where bit 0 is the most significant
/// bit of the first byte.
pub open spec fn bit_at(bytes: Seq<u8>, i: int) -> bool {
    (bytes[i / 8] >> ((7 - i % 8) as u8)) & 1 == 1
}

/// The unsigned number spelled by the `n` bits of `bytes` that start at bit
/// index `pos`, most significant bit first.
pub open spec fn bits_value(bytes: Seq<u8>, pos: int, n: nat) -> nat
    decreases n,
{
    if n == 0 {
        0
    } else {
        2 * bits_value(bytes, pos, (n - 1) as nat) + if bit_at(bytes, pos + n - 1) {
            1nat
        } else {
            0nat
        }
    }
}

/// A field of `n` bits holds a number below two to the power `n`.
pub proof fn lemma_bits_value_bound(bytes: Seq<u8>, pos: int, n: nat)
    ensures
        bits_value(bytes, pos, n) < pow2(n),
    decreases n,
{
    if n == 0 {
        lemma2_to64();
    } else {
        lemma_bits_value_bound(bytes, pos, (n - 1) as nat);
        lemma_pow2_unfold(n);
    }
}

/// The largest number of groups that one variable-length number spans.
pub const LEB128_MAX_GROUPS: usize = 8;

/// The variable-length number that starts at bit index `pos`, read as at
/// most `limit` groups of eight bits: the value, and how many groups it
/// spans. Each group gives its low seven bits, least significant group
/// first; a group with its high bit clear ends the number, and so does the
/// last group that `limit` allows, whatever its high bit. `None` where the
/// bytes end before the number does.
pub open spec fn leb128(bytes: Seq<u8>, pos: int, limit: nat) -> Option<(nat, nat)>
    decreases limit,
{
    if limit == 0 {
        Some((0nat, 0nat))
    } else if pos + 8 > 8 * bytes.len() {
        None
    } else {
        let group = bits_value(bytes, pos, 8);
        if group < 128 || limit == 1 {
            Some((group % 128, 1nat))
        } else {
            match leb128(bytes, pos + 8, (limit - 1) as nat) {
                Some((rest, groups)) => Some((group % 128 + 128 * rest, groups + 1)),
                None => None,
            }
        }
    }
}

/// The mathematical model of a cursor: the bytes it reads and how many bits
/// of them it has passed.
pub struct BitCursor {
    pub bytes: Seq<u8>,
    pub position: nat,
}

impl BitCursor {
    /// The position lies within the bytes, or just past their end.
    pub open spec fn wf(self) -> bool {
        self.position <= 8 * self.bytes.len()
    }

    /// The number of bits that have not been passed yet.
    pub open spec fn remaining(self) -> int {
        8 * self.bytes.len() - self.position
    }

    /// The cursor moved by `n` bits, forwards or backwards.
    pub open spec fn moved(self, n: int) -> BitCursor {
        BitCursor { bytes: self.bytes, position: (self.position + n) as nat }
    }
}

/// A cursor over a borrowed byte slice that reads bit by bit.
#[derive(Debug, Clone, Copy)]
pub struct Buffer<'a> {
    bytes: &'a [u8],
    byte_index: usize,
    bit_offset: u8,
}

impl<'a> View for Buffer<'a> {
    type V = BitCursor;

    closed spec fn view(&self) -> BitCursor {
        BitCursor { bytes: self.bytes@, position: (8 * self.byte_index + self.bit_offset) as nat }
    }
}

impl<'a> Buffer<'a> {
    #[verifier::type_invariant]
    spec fn inv(self) -> bool {
        &&& self.bit_offset < 8
        &&& self.byte_index <= self.bytes@.len()
        &&& self.byte_index == self.bytes@.len() ==> self.bit_offset == 0
    }

    /// A cursor at the first bit of `bytes`.
    pub fn new(bytes: &'a [u8]) -> (buf: Self)
        ensures
            buf@ == (BitCursor { bytes: bytes@, position: 0 }),
    {
        Buffer { bytes, byte_index: 0, bit_offset: 0 }
    }

    /// Reads the bit at the cursor, which the caller knows to be there.
    fn next_bit(&mut self) -> (bit: bool)
        requires
            old(self)@.remaining() >= 1,
        ensures
            bit == bit_at(old(self)@.bytes, old(self)@.position as int),
            final(self)@ == old(self)@.moved(1),
    {
        proof {
            use_type_invariant(&*self);
        }
        let byte: u8 = self.bytes[self.byte_index];
        let shift: u8 = 7 - self.bit_offset;
        if self.bit_offset == 7 {
            *self = Buffer { bytes: self.bytes, byte_index: self.byte_index + 1, bit_offset: 0 };
        } else {
            self.bit_offset = self.bit_offset + 1;
        }
        (byte >> shift) & 1 == 1
    }

    /// Reads one bit. Where none is left, the cursor stays.
    pub fn get_bit(&mut self) -> (r: Result<bool, ObuError>)
        ensures
            final(self)@.wf(),
            match r {
                Ok(bit) => old(self)@.remaining() >= 1 && bit == bit_at(
                    old(self)@.bytes,
                    old(self)@.position as int,
                ) && final(self)@ == old(self)@.moved(1),
                Err(e) => e == ObuError::OutOfBounds && old(self)@.remaining() < 1 && final(self)@
                    == old(self)@,
            },
    {
        proof {
            use_type_invariant(&*self);
        }
        if self.byte_index >= self.bytes.len() {
            Err(ObuError::OutOfBounds)
        } else {
            Ok(self.next_bit())
        }
    }

    /// Whether `n` more bits lie between the cursor and the end of the bytes.
    fn fits(&self, n: usize) -> (r: bool)
        ensures
            r == (n <= self@.remaining()),
    {
        proof {
            use_type_invariant(self);
        }
        let avail: usize = self.bytes.len() - self.byte_index;
        let whole: usize = n / 8;
        let part: usize = n % 8;
        if whole > avail {
            false
        } else {
            let rest: usize = avail - whole;
            rest >= 2 || 8 * rest >= part + self.bit_offset as usize
        }
    }

    /// Reads a field of `n` bits, most significant bit first. Where fewer
    /// than `n` bits are left, nothing is read and the cursor stays.
    pub fn get_bits(&mut self, n: usize) -> (r: Result<u32, ObuError>)
        requires
            n <= 32,
        ensures
            final(self)@.wf(),
            match r {
                Ok(v) => n <= old(self)@.remaining()
                    && v == bits_value(old(self)@.bytes, old(self)@.position as int, n as nat)
                    && final(self)@ == old(self)@.moved(n as int),
                Err(e) => e == ObuError::OutOfBounds && old(self)@.remaining() < n
                    && final(self)@ == old(self)@,
            },
    {
        proof {
            use_type_invariant(&*self);
        }
        if !self.fits(n) {
            return Err(ObuError::OutOfBounds);
        }
        let ghost start = self@;
        let mut acc: u64 = 0;
        let mut i: usize = 0;
        while i < n
            invariant
                i <= n <= 32,
                n <= start.remaining(),
                self@ == start.moved(i as int),
                acc == bits_value(start.bytes, start.position as int, i as nat),
            decreases n - i,
        {
            proof {
                lemma_bits_value_bound(start.bytes, start.position as int, i as nat);
                lemma_pow2_strictly_increases(i as nat, 32);
                lemma2_to64();
            }
            let bit = self.next_bit();
            acc = 2 * acc + if bit { 1 } else { 0 };
            i = i + 1;
        }
        proof {
            lemma_bits_value_bound(start.bytes, start.position as int, n as nat);
            if n < 32 {
                lemma_pow2_strictly_increases(n as nat, 32);
            }
            lemma2_to64();
        }
        Ok(acc as u32)
    }

    /// Reads a variable-length unsigned number of at most eight groups of
    /// eight bits. The eighth group ends the number even with its high bit
    /// set, so the value stays below two to the power 56. Where the bytes end
    /// before the number does, nothing is read and the cursor stays.
    pub fn get_leb128(&mut self) -> (r: Result<u64, ObuError>)
        ensures
            final(self)@.wf(),
            match r {
                Ok(v) => leb128(
                    old(self)@.bytes,
                    old(self)@.position as int,
                    LEB128_MAX_GROUPS as nat,
                ) matches Some((value, groups)) && v == value && final(self)@ == old(
                    self,
                )@.moved(8 * groups as int),
                Err(e) => e == ObuError::OutOfBounds && leb128(
                    old(self)@.bytes,
                    old(self)@.position as int,
                    LEB128_MAX_GROUPS as nat,
                ) is None && final(self)@ == old(self)@,
            },
    {
        proof {
            use_type_invariant(&*self);
            lemma2_to64();
        }
        let entry: Buffer<'a> = *self;
        let ghost start = self@;
        let mut value: u64 = 0;
        let mut scale: u64 = 1;
        let mut i: usize = 0;
        while i < LEB128_MAX_GROUPS
            invariant
                i <= 8,
                entry@ == start,
                old(self)@ == start,
                start.wf(),
                self@ == start.moved(8 * i),
                self@.wf(),
                scale == pow2(7 * i as nat),
                value < scale,
                leb128(start.bytes, start.position as int, 8) == match leb128(
                    start.bytes,
                    start.position + 8 * i,
                    (8 - i) as nat,
                ) {
                    Some((rest, groups)) => Some(
                        ((value + scale * rest) as nat, (groups + i) as nat),
                    ),
                    None => None,
                },
            decreases 8 - i,
        {
            let ghost here = start.position + 8 * i;
            let ghost before = value;
            proof {
                lemma_pow2_adds(7 * i as nat, 7);
                lemma_pow2_strictly_increases(7 * i as nat, 56);
                lemma2_to64();
                lemma2_to64_rest();
                lemma_bits_value_bound(start.bytes, here, 8);
            }
            let group = match self.get_bits(8) {
                Ok(group) => group,
                Err(e) => {
                    *self = entry;
                    return Err(e);
                },
            };
            let low: u64 = (group % 128) as u64;
            assert(low * scale <= 127 * scale && scale * low == low * scale) by (nonlinear_arith)
                requires
                    low <= 127,
            ;
            value = value + low * scale;
            if group < 128 {
                return Ok(value);
            }
            proof {
                let rest = match leb128(start.bytes, here + 8, (8 - i - 1) as nat) {
                    Some((rest, _)) => rest,
                    None => 0,
                };
                assert(before + scale * (low + 128 * rest) == before + low * scale + (scale * 128)
                    * rest) by (nonlinear_arith);
            }
            scale = scale * 128;
            i = i + 1;
        }
        assert(scale * 0 == 0) by (nonlinear_arith);
        Ok(value)
    }

    /// Moves the cursor `k` bits forwards, or says that fewer are left.
    fn advance(&mut self, k: usize) -> (r: bool)
        ensures
            r == (k <= old(self)@.remaining()),
            r ==> final(self)@ == old(self)@.moved(k as int),
            !r ==> final(self)@ == old(self)@,
    {
        proof {
            use_type_invariant(&*self);
        }
        let avail: usize = self.bytes.len() - self.byte_index;
        let whole: usize = k / 8;
        let sum: usize = k % 8 + self.bit_offset as usize;
        if whole > avail || (avail - whole < 2 && 8 * (avail - whole) < sum) {
            return false;
        }
        let byte_index: usize = self.byte_index + whole + sum / 8;
        *self = Buffer { bytes: self.bytes, byte_index, bit_offset: (sum % 8) as u8 };
        true
    }

    /// Moves the cursor `k` bits backwards, or says that fewer were passed.
    fn retreat(&mut self, k: usize) -> (r: bool)
        ensures
            r == (k <= old(self)@.position),
            r ==> final(self)@ == old(self)@.moved(-(k as int)),
            !r ==> final(self)@ == old(self)@,
    {
        proof {
            use_type_invariant(&*self);
        }
        let whole: usize = k / 8;
        let part: u8 = (k % 8) as u8;
        if whole > self.byte_index {
            return false;
        }
        let rest: usize = self.byte_index - whole;
        if self.bit_offset >= part {
            *self = Buffer {
                bytes: self.bytes,
                byte_index: rest,
                bit_offset: self.bit_offset - part,
            };
            true
        } else if rest >= 1 {
            *self = Buffer {
                bytes: self.bytes,
                byte_index: rest - 1,
                bit_offset: self.bit_offset + 8 - part,
            };
            true
        } else {
            false
        }
    }

    /// Moves the cursor by `n` bits without reading them: forwards where `n`
    /// is positive, backwards where it is negative. Where that would leave
    /// the bytes, the cursor stays.
    pub fn seek_bits(&mut self, n: isize) -> (r: Result<(), ObuError>)
        ensures
            final(self)@.wf(),
            match r {
                Ok(_) => 0 <= old(self)@.position + n <= 8 * old(self)@.bytes.len()
                    && final(self)@ == old(self)@.moved(n as int),
                Err(e) => e == ObuError::OutOfBounds
                    && !(0 <= old(self)@.position + n <= 8 * old(self)@.bytes.len())
                    && final(self)@ == old(self)@,
            },
    {
        proof {
            use_type_invariant(&*self);
        }
        let moved = if n >= 0 {
            self.advance(n as usize)
        } else {
            self.retreat((-(n + 1)) as usize + 1)
        };
        if moved {
            Ok(())
        } else {
            Err(ObuError::OutOfBounds)
        }
    }

    /// The number of whole bytes that the cursor has passed.
    pub fn byte_position(&self) -> (r: usize)
        ensures
            r == self@.position / 8,
            self@.wf(),
    {
        proof {
            use_type_invariant(self);
        }
        self.byte_index
    }

    /// The number of bits that the cursor has passed within the byte it
    /// stands in; zero where it stands at the start of a byte.
    pub fn bit_offset(&self) -> (r: u8)
        ensures
            r == self@.position % 8,
            self@.wf(),
    {
        proof {
            use_type_invariant(self);
        }
        self.bit_offset
    }

    /// Whether every bit has been passed.
    pub fn is_exhausted(&self) -> (r: bool)
        ensures
            r == (self@.remaining() == 0),
            self@.wf(),
    {
        proof {
            use_type_invariant(self);
        }
        self.byte_index >= self.bytes.len()
    }
}

/// A byte is the sum of its bits, each weighted by its place.
proof fn lemma_byte_from_bits(b: u8)
    ensures
        b == 128 * (if (b >> 7u8) & 1 == 1 { 1int } else { 0int })
            + 64 * (if (b >> 6u8) & 1 == 1 { 1int } else { 0int })
            + 32 * (if (b >> 5u8) & 1 == 1 { 1int } else { 0int })
            + 16 * (if (b >> 4u8) & 1 == 1 { 1int } else { 0int })
            + 8 * (if (b >> 3u8) & 1 == 1 { 1int } else { 0int })
            + 4 * (if (b >> 2u8) & 1 == 1 { 1int } else { 0int })
            + 2 * (if (b >> 1u8) & 1 == 1 { 1int } else { 0int })
            + (if (b >> 0u8) & 1 == 1 { 1int } else { 0int }),
{
    assert(b == 128 * ((b >> 7u8) & 1) + 64 * ((b >> 6u8) & 1) + 32 * ((b >> 5u8) & 1) + 16 * ((b
        >> 4u8) & 1) + 8 * ((b >> 3u8) & 1) + 4 * ((b >> 2u8) & 1) + 2 * ((b >> 1u8) & 1) + ((b
        >> 0u8) & 1)) by (bit_vector);
    assert((b >> 7u8) & 1 == 0 || (b >> 7u8) & 1 == 1) by (bit_vector);
    assert((b >> 6u8) & 1 == 0 || (b >> 6u8) & 1 == 1) by (bit_vector);
    assert((b >> 5u8) & 1 == 0 || (b >> 5u8) & 1 == 1) by (bit_vector);
    assert((b >> 4u8) & 1 == 0 || (b >> 4u8) & 1 == 1) by (bit_vector);
    assert((b >> 3u8) & 1 == 0 || (b >> 3u8) & 1 == 1) by (bit_vector);
    assert((b >> 2u8) & 1 == 0 || (b >> 2u8) & 1 == 1) by (bit_vector);
    assert((b >> 1u8) & 1 == 0 || (b >> 1u8) & 1 == 1) by (bit_vector);
    assert((b >> 0u8) & 1 == 0 || (b >> 0u8) & 1 == 1) by (bit_vector);
}

/// Eight bits read from the start of a byte give that byte.
pub proof fn lemma_aligned_byte(bytes: Seq<u8>, k: int)
    requires
        0 <= k < bytes.len(),
    ensures
        bits_value(bytes, 8 * k, 8) == bytes[k],
{
    let b = bytes[k];
    lemma_byte_from_bits(b);
    reveal_with_fuel(bits_value, 9);
    assert(bit_at(bytes, 8 * k + 0) == ((b >> 7u8) & 1 == 1));
    assert(bit_at(bytes, 8 * k + 1) == ((b >> 6u8) & 1 == 1));
    assert(bit_at(bytes, 8 * k + 2) == ((b >> 5u8) & 1 == 1));
    assert(bit_at(bytes, 8 * k + 3) == ((b >> 4u8) & 1 == 1));
    assert(bit_at(bytes, 8 * k + 4) == ((b >> 3u8) & 1 == 1));
    assert(bit_at(bytes, 8 * k + 5) == ((b >> 2u8) & 1 == 1));
    assert(bit_at(bytes, 8 * k + 6) == ((b >> 1u8) & 1 == 1));
    assert(bit_at(bytes, 8 * k + 7) == ((b >> 0u8) & 1 == 1));
}

/// The standard variable-length encoding of `v`: groups of seven bits, the
/// least significant group first, each but the last with its high bit set.
pub open spec fn leb128_encoding(v: nat) -> Seq<u8>
    decreases v,
{
    if v < 128 {
        seq![v as u8]
    } else {
        seq![(128 + v % 128) as u8] + leb128_encoding(v / 128)
    }
}

/// Decoding undoes encoding, wherever the encoding is short enough: where
/// the bytes from byte `k` on spell the standard encoding of `v` in no more
/// than `limit` groups, the number read at the start of byte `k` is `v`, and
/// it spans exactly those bytes.
pub proof fn lemma_leb128_decodes_encoding(bytes: Seq<u8>, k: int, v: nat, limit: nat)
    requires
        0 <= k,
        leb128_encoding(v).len() <= limit,
        k + leb128_encoding(v).len() <= bytes.len(),
        bytes.subrange(k, k + leb128_encoding(v).len() as int) == leb128_encoding(v),
    ensures
        leb128(bytes, 8 * k, limit) == Some((v, leb128_encoding(v).len())),
    decreases v,
{
    let encoding = leb128_encoding(v);
    let spelled = bytes.subrange(k, k + encoding.len() as int);
    lemma_aligned_byte(bytes, k);
    assert(bytes[k] == spelled[0]);
    if v >= 128 {
        let rest = leb128_encoding(v / 128);
        assert(encoding.len() == rest.len() + 1);
        assert(bytes.subrange(k + 1, k + 1 + rest.len() as int) =~= rest) by {
            assert forall|i: int| 0 <= i < rest.len() implies bytes.subrange(
                k + 1,
                k + 1 + rest.len() as int,
            )[i] == rest[i] by {
                assert(spelled[i + 1] == encoding[i + 1]);
            }
        }
        lemma_leb128_decodes_encoding(bytes, k + 1, v / 128, (limit - 1) as nat);
    }
}

/// The standard encoding of a number below two to the power `7 * m` has at
/// most `m` groups, for `m` of one or more.
pub proof fn lemma_leb128_encoding_len(v: nat, m: nat)
    requires
        m >= 1,
        v < pow2(7 * m),
    ensures
        1 <= leb128_encoding(v).len() <= m,
    decreases v,
{
    if v >= 128 {
        lemma2_to64();
        if m == 1 {
            assert(false);
        }
        lemma_pow2_adds(7 * (m - 1) as nat, 7);
        assert(v / 128 < pow2(7 * (m - 1) as nat));
        lemma_leb128_encoding_len(v / 128, (m - 1) as nat);
    }
}

/// Reading back what the standard encoding wrote: where the bytes from byte
/// `k` on spell the standard encoding of a number `v` below two to the power
/// 32, a cursor at the start of byte `k` reads `v` and then stands at the
/// first byte past the encoding.
pub proof fn lemma_leb128_round_trip(c: BitCursor, k: int, v: nat)
    requires
        v < 0x1_0000_0000,
        0 <= k,
        c.position == 8 * k,
        k + leb128_encoding(v).len() <= c.bytes.len(),
        c.bytes.subrange(k, k + leb128_encoding(v).len() as int) == leb128_encoding(v),
    ensures
        leb128(c.bytes, c.position as int, LEB128_MAX_GROUPS as nat) == Some(
            (v, leb128_encoding(v).len()),
        ),
        c.moved(8 * leb128_encoding(v).len() as int).position == 8 * (k + leb128_encoding(
            v,
        ).len()),
        c.moved(8 * leb128_encoding(v).len() as int).wf(),
{
    lemma2_to64();
    lemma2_to64_rest();
    lemma_leb128_encoding_len(v, 5);
    lemma_leb128_decodes_encoding(c.bytes, k, v, 8);
}

/// A field that was read is read again after seeking back over it: the
/// cursor is where it was, and the same bits give the same number. The
/// cursor holds no state but its position.
pub proof fn lemma_reread_after_seek_back(c: BitCursor, n: nat)
    requires
        c.wf(),
        1 <= n <= 32,
        n <= c.remaining(),
    ensures
        ({
            let read = c.moved(n as int);
            &&& 0 <= read.position - n <= 8 * read.bytes.len()
            &&& read.moved(-(n as int)) == c
            &&& bits_value(
                read.moved(-(n as int)).bytes,
                read.moved(-(n as int)).position as int,
                n,
            ) == bits_value(c.bytes, c.position as int, n)
        }),
{
}

/// A variable-length number lies within the bytes, spans at least one group
/// where any is allowed and at most as many as are allowed, and is below two
/// to the power of seven times its groups.
pub proof fn lemma_leb128_within(bytes: Seq<u8>, pos: int, limit: nat)
    requires
        leb128(bytes, pos, limit) is Some,
    ensures
        ({
            let (value, groups) = leb128(bytes, pos, limit).unwrap();
            &&& groups <= limit
            &&& limit >= 1 ==> groups >= 1
            &&& pos + 8 * groups <= 8 * bytes.len() || limit == 0
            &&& value < pow2(7 * groups)
        }),
    decreases limit,
{
    lemma2_to64();
    if limit > 0 {
        let group = bits_value(bytes, pos, 8);
        if !(group < 128 || limit == 1) {
            lemma_leb128_within(bytes, pos + 8, (limit - 1) as nat);
            let (rest, groups) = leb128(bytes, pos + 8, (limit - 1) as nat).unwrap();
            lemma_pow2_adds(7 * groups, 7);
        }
    }
}

} // verus!
