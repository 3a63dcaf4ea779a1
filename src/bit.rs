use vstd::arithmetic::power2::*;
use vstd::prelude::*;

use crate::error::Error;
use crate::mpeg::ByteReader;

verus! {

/// The bit of `data` at bit offset `i`, counting from the most significant bit
/// of the first byte.
pub open spec fn bit_at(data: Seq<u8>, i: int) -> bool {
    data[i / 8] & (1u8 << ((7 - i % 8) as u8)) != 0
}

/// The unsigned value of the `n` bits of `data` that start at bit offset
/// `start`, most significant bit first.
pub open spec fn bits_value(data: Seq<u8>, start: int, n: nat) -> nat
    decreases n,
{
    if n == 0 {
        0
    } else {
        2 * bits_value(data, start, (n - 1) as nat) + if bit_at(data, start + n - 1) {
            1nat
        } else {
            0nat
        }
    }
}

/// `n` bits never hold a value of `2^n` or more.
pub proof fn lemma_bits_value_bound(data: Seq<u8>, start: int, n: nat)
    ensures
        bits_value(data, start, n) < pow2(n),
    decreases n,
{
    lemma_pow2_pos(n);
    if n == 0 {
        assert(pow2(0) == 1) by {
            lemma2_to64();
        }
    } else {
        lemma_bits_value_bound(data, start, (n - 1) as nat);
        lemma_pow2_unfold(n);
        assert(pow2(n) == 2 * pow2((n - 1) as nat));
    }
}

/// `2^n` for the widths that a bit read can take.
pub proof fn lemma_pow2_widths(n: nat)
    ensures
        n <= 8 ==> pow2(n) <= 0x100,
        n <= 16 ==> pow2(n) <= 0x1_0000,
        n <= 32 ==> pow2(n) <= 0x1_0000_0000,
        n <= 64 ==> pow2(n) <= 0x1_0000_0000_0000_0000,
{
    lemma2_to64();
    if n < 8 {
        lemma_pow2_strictly_increases(n, 8);
    }
    if n < 16 {
        lemma_pow2_strictly_increases(n, 16);
    }
    if n < 32 {
        lemma_pow2_strictly_increases(n, 32);
    }
    if n < 64 {
        lemma_pow2_strictly_increases(n, 64);
    }
}

fn bit_of(data: &Vec<u8>, pos: u64) -> (r: bool)
    requires
        pos < 8 * data@.len(),
    ensures
        r == bit_at(data@, pos as int),
{
    assert(pos / 8 < data@.len()) by (nonlinear_arith)
        requires
            pos < 8 * data@.len(),
    ;
    let byte_count = data.len();
    let byte = data[(pos / 8) as usize];
    let shift = (7 - pos % 8) as u8;
    byte & (1u8 << shift) != 0
}

/// A cursor over a byte string that hands out bits, most significant bit of
/// each byte first. A read wider than its type fails with `Error::Range`, and
/// one asking for more bits than are left with `Error::Eof`; either leaves
/// the cursor where it was.
pub struct BitReader {
    data: Vec<u8>,
    pos: u64,
}

impl BitReader {
    /// The bytes being read.
    pub closed spec fn bytes(&self) -> Seq<u8> {
        self.data@
    }

    /// The bit offset of the next bit to be read.
    pub closed spec fn pos(&self) -> int {
        self.pos as int
    }

    pub open spec fn wf(&self) -> bool {
        &&& 0 <= self.pos() <= 8 * self.bytes().len()
        &&& 8 * self.bytes().len() <= u64::MAX
    }

    /// How many bits are left.
    pub open spec fn remaining(&self) -> int {
        8 * self.bytes().len() - self.pos()
    }

    /// `next` reads the same bytes as `self` and stands no earlier.
    pub open spec fn progressed(&self, next: &BitReader) -> bool {
        &&& next.wf()
        &&& next.bytes() == self.bytes()
        &&& self.pos() <= next.pos()
    }

    /// What a read of `n` bits at the cursor returns, and where it leaves the
    /// cursor.
    pub open spec fn read_spec(&self, n: nat) -> Result<(nat, int), Error> {
        if self.remaining() < n {
            Err(Error::Eof)
        } else {
            Ok((bits_value(self.bytes(), self.pos(), n), self.pos() + n))
        }
    }

    /// What a read of `n` bits at the cursor returns when reads may be at
    /// most `max` bits wide: a wider one fails with `Error::Range`.
    pub open spec fn read_checked(&self, n: nat, max: nat) -> Result<(nat, int), Error> {
        if n > max {
            Err(Error::Range)
        } else {
            self.read_spec(n)
        }
    }

    pub fn new(data: &[u8]) -> (r: BitReader)
        requires
            8 * data@.len() <= u64::MAX,
        ensures
            r.wf(),
            r.bytes() == data@,
            r.pos() == 0,
    {
        BitReader { data: vstd::slice::slice_to_vec(data), pos: 0 }
    }

    /// The bit offset of the next bit to be read.
    pub fn position(&self) -> (r: u64)
        ensures
            r == self.pos(),
    {
        self.pos
    }

    /// How many bits are left.
    pub fn bits_left(&self) -> (r: u64)
        requires
            self.wf(),
        ensures
            r == self.remaining(),
    {
        8 * self.data.len() as u64 - self.pos
    }

    pub fn is_byte_aligned(&self) -> (r: bool)
        ensures
            r == (self.pos() % 8 == 0),
    {
        self.pos % 8 == 0
    }

    pub fn read_bool(&mut self) -> (r: Result<bool, Error>)
        requires
            old(self).wf(),
        ensures
            final(self).wf(),
            final(self).bytes() == old(self).bytes(),
            old(self).remaining() >= 1 ==> r == Ok::<bool, Error>(bit_at(old(self).bytes(), old(self).pos()))
                && final(self).pos() == old(self).pos() + 1,
            old(self).remaining() < 1 ==> r == Err::<bool, Error>(Error::Eof) && final(self).pos()
                == old(self).pos(),
    {
        if self.pos >= 8 * (self.data.len() as u64) {
            return Err(Error::Eof);
        }
        let b = bit_of(&self.data, self.pos);
        self.pos = self.pos + 1;
        Ok(b)
    }

    /// Reads `n` bits as an unsigned number, most significant bit first.
    pub fn read_bits(&mut self, n: u8) -> (r: Result<u64, Error>)
        requires
            old(self).wf(),
        ensures
            final(self).wf(),
            final(self).bytes() == old(self).bytes(),
            match old(self).read_checked(n as nat, 64) {
                Ok((v, p)) => r == Ok::<u64, Error>(v as u64) && v < pow2(n as nat) && final(self).pos() == p,
                Err(e) => r == Err::<u64, Error>(e) && final(self).pos() == old(self).pos(),
            },
    {
        if n > 64 {
            return Err(Error::Range);
        }
        let len = self.data.len() as u64;
        if 8 * len - self.pos < n as u64 {
            return Err(Error::Eof);
        }
        let start = self.pos;
        let mut ret: u64 = 0;
        let mut i: u8 = 0;
        while i < n
            invariant
                self.wf(),
                self.bytes() == old(self).bytes(),
                i <= n <= 64,
                start == old(self).pos(),
                self.pos() == start + i,
                start + n <= 8 * self.bytes().len(),
                ret == bits_value(self.bytes(), start as int, i as nat),
            decreases n - i,
        {
            proof {
                lemma_bits_value_bound(self.bytes(), start as int, (i + 1) as nat);
                lemma_pow2_widths((i + 1) as nat);
            }
            let b = bit_of(&self.data, self.pos);
            ret = 2 * ret + if b { 1u64 } else { 0u64 };
            self.pos = self.pos + 1;
            i = i + 1;
        }
        proof {
            lemma_bits_value_bound(self.bytes(), start as int, n as nat);
        }
        Ok(ret)
    }

    pub fn read_u8(&mut self, n: u8) -> (r: Result<u8, Error>)
        requires
            old(self).wf(),
        ensures
            final(self).wf(),
            final(self).bytes() == old(self).bytes(),
            match old(self).read_checked(n as nat, 8) {
                Ok((v, p)) => r == Ok::<u8, Error>(v as u8) && v < pow2(n as nat) && final(self).pos() == p,
                Err(e) => r == Err::<u8, Error>(e) && final(self).pos() == old(self).pos(),
            },
    {
        if n > 8 {
            return Err(Error::Range);
        }
        proof {
            lemma_pow2_widths(n as nat);
        }
        let v = self.read_bits(n)?;
        Ok(v as u8)
    }

    pub fn read_u16(&mut self, n: u8) -> (r: Result<u16, Error>)
        requires
            old(self).wf(),
        ensures
            final(self).wf(),
            final(self).bytes() == old(self).bytes(),
            match old(self).read_checked(n as nat, 16) {
                Ok((v, p)) => r == Ok::<u16, Error>(v as u16) && v < pow2(n as nat) && final(self).pos() == p,
                Err(e) => r == Err::<u16, Error>(e) && final(self).pos() == old(self).pos(),
            },
    {
        if n > 16 {
            return Err(Error::Range);
        }
        proof {
            lemma_pow2_widths(n as nat);
        }
        let v = self.read_bits(n)?;
        Ok(v as u16)
    }

    pub fn read_u32(&mut self, n: u8) -> (r: Result<u32, Error>)
        requires
            old(self).wf(),
        ensures
            final(self).wf(),
            final(self).bytes() == old(self).bytes(),
            match old(self).read_checked(n as nat, 32) {
                Ok((v, p)) => r == Ok::<u32, Error>(v as u32) && v < pow2(n as nat) && final(self).pos() == p,
                Err(e) => r == Err::<u32, Error>(e) && final(self).pos() == old(self).pos(),
            },
    {
        if n > 32 {
            return Err(Error::Range);
        }
        proof {
            lemma_pow2_widths(n as nat);
        }
        let v = self.read_bits(n)?;
        Ok(v as u32)
    }

    pub fn read_u64(&mut self, n: u8) -> (r: Result<u64, Error>)
        requires
            old(self).wf(),
        ensures
            final(self).wf(),
            final(self).bytes() == old(self).bytes(),
            match old(self).read_checked(n as nat, 64) {
                Ok((v, p)) => r == Ok::<u64, Error>(v as u64) && v < pow2(n as nat) && final(self).pos() == p,
                Err(e) => r == Err::<u64, Error>(e) && final(self).pos() == old(self).pos(),
            },
    {
        if n > 64 {
            return Err(Error::Range);
        }
        self.read_bits(n)
    }
}

/// A block of bytes of a size fixed in advance, read bit by bit, most
/// significant bit first. Its reads cannot fail: their contracts keep them
/// inside the block.
pub struct Bits {
    data: Vec<u8>,
    pos: usize,
}

impl Bits {
    /// The bytes of the block.
    pub closed spec fn bytes(&self) -> Seq<u8> {
        self.data@
    }

    /// The bit offset of the next bit to be read.
    pub closed spec fn pos(&self) -> int {
        self.pos as int
    }

    pub open spec fn wf(&self) -> bool {
        &&& 0 <= self.pos() <= 8 * self.bytes().len()
        &&& 8 * self.bytes().len() <= usize::MAX
    }

    /// How many bits are left.
    pub open spec fn remaining(&self) -> int {
        8 * self.bytes().len() - self.pos()
    }

    /// Takes the next `len` bytes of `from` as a block.
    pub fn read_exact(from: &mut ByteReader, len: usize) -> (r: Result<Bits, Error>)
        requires
            old(from).wf(),
            len <= usize::MAX / 8,
        ensures
            old(from).moved_on(final(from)),
            len <= old(from).left() ==> r is Ok && r->Ok_0.wf() && r->Ok_0.pos() == 0
                && r->Ok_0.bytes() == old(from).bytes().subrange(
                old(from).pos(),
                old(from).pos() + len,
            ) && final(from).pos() == old(from).pos() + len,
            len > old(from).left() ==> r == Err::<Bits, Error>(Error::Eof),
    {
        let data = from.read_bytes(len as u64)?;
        Ok(Bits { data, pos: 0 })
    }

    pub fn read_bool(&mut self) -> (r: bool)
        requires
            old(self).wf(),
            old(self).remaining() >= 1,
        ensures
            final(self).wf(),
            final(self).bytes() == old(self).bytes(),
            final(self).pos() == old(self).pos() + 1,
            r == bit_at(old(self).bytes(), old(self).pos()),
    {
        let b = bit_of(&self.data, self.pos as u64);
        self.pos = self.pos + 1;
        b
    }

    /// Reads `n` bits as an unsigned number, most significant bit first.
    pub fn read_bits(&mut self, n: u8) -> (r: u64)
        requires
            old(self).wf(),
            n <= 64,
            old(self).remaining() >= n,
        ensures
            final(self).wf(),
            final(self).bytes() == old(self).bytes(),
            final(self).pos() == old(self).pos() + n,
            r == bits_value(old(self).bytes(), old(self).pos(), n as nat),
    {
        let start = self.pos;
        let mut ret: u64 = 0;
        let mut i: u8 = 0;
        while i < n
            invariant
                self.wf(),
                self.bytes() == old(self).bytes(),
                i <= n <= 64,
                start == old(self).pos(),
                self.pos() == start + i,
                start + n <= 8 * self.bytes().len(),
                ret == bits_value(self.bytes(), start as int, i as nat),
            decreases n - i,
        {
            proof {
                lemma_bits_value_bound(self.bytes(), start as int, (i + 1) as nat);
                lemma_pow2_widths((i + 1) as nat);
            }
            let b = bit_of(&self.data, self.pos as u64);
            ret = 2 * ret + if b { 1u64 } else { 0u64 };
            self.pos = self.pos + 1;
            i = i + 1;
        }
        ret
    }

    pub fn read_u8(&mut self, n: u8) -> (r: u8)
        requires
            old(self).wf(),
            n <= 8,
            old(self).remaining() >= n,
        ensures
            final(self).wf(),
            final(self).bytes() == old(self).bytes(),
            final(self).pos() == old(self).pos() + n,
            r == bits_value(old(self).bytes(), old(self).pos(), n as nat),
    {
        proof {
            lemma_bits_value_bound(self.bytes(), self.pos(), n as nat);
            lemma_pow2_widths(n as nat);
        }
        self.read_bits(n) as u8
    }

    pub fn read_u16(&mut self, n: u8) -> (r: u16)
        requires
            old(self).wf(),
            n <= 16,
            old(self).remaining() >= n,
        ensures
            final(self).wf(),
            final(self).bytes() == old(self).bytes(),
            final(self).pos() == old(self).pos() + n,
            r == bits_value(old(self).bytes(), old(self).pos(), n as nat),
    {
        proof {
            lemma_bits_value_bound(self.bytes(), self.pos(), n as nat);
            lemma_pow2_widths(n as nat);
        }
        self.read_bits(n) as u16
    }

    pub fn read_u32(&mut self, n: u8) -> (r: u32)
        requires
            old(self).wf(),
            n <= 32,
            old(self).remaining() >= n,
        ensures
            final(self).wf(),
            final(self).bytes() == old(self).bytes(),
            final(self).pos() == old(self).pos() + n,
            r == bits_value(old(self).bytes(), old(self).pos(), n as nat),
    {
        proof {
            lemma_bits_value_bound(self.bytes(), self.pos(), n as nat);
            lemma_pow2_widths(n as nat);
        }
        self.read_bits(n) as u32
    }

    pub fn read_u64(&mut self, n: u8) -> (r: u64)
        requires
            old(self).wf(),
            n <= 64,
            old(self).remaining() >= n,
        ensures
            final(self).wf(),
            final(self).bytes() == old(self).bytes(),
            final(self).pos() == old(self).pos() + n,
            r == bits_value(old(self).bytes(), old(self).pos(), n as nat),
    {
        self.read_bits(n)
    }

    /// Passes over `n` bits.
    pub fn skip(&mut self, n: u8)
        requires
            old(self).wf(),
            old(self).remaining() >= n,
        ensures
            final(self).wf(),
            final(self).bytes() == old(self).bytes(),
            final(self).pos() == old(self).pos() + n,
    {
        self.pos = self.pos + n as usize;
    }

    /// Whether every bit has been read.
    pub fn done(&self) -> (r: bool)
        requires
            self.wf(),
        ensures
            r == (self.remaining() == 0),
    {
        self.pos == self.data.len() * 8
    }
}

} // verus!
