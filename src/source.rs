//! An owned, forward-only byte source with "read exactly N bytes or fail"
//! semantics, and big-endian reassembly of fixed-width windows.

use vstd::prelude::*;

verus! {

/// The natural number whose big-endian base-256 digits are `b`.
pub open spec fn be_nat(b: Seq<u8>) -> nat
    decreases b.len(),
{
    if b.len() == 0 {
        0
    } else {
        be_nat(b.drop_last()) * 256 + b.last() as nat
    }
}

/// 256 raised to the power `n`.
pub open spec fn pow256(n: nat) -> nat
    decreases n,
{
    if n == 0 {
        1
    } else {
        256 * pow256((n - 1) as nat)
    }
}

/// A big-endian number of `n` bytes is below `256^n`.
pub proof fn lemma_be_nat_bound(b: Seq<u8>)
    ensures
        be_nat(b) < pow256(b.len()),
    decreases b.len(),
{
    if b.len() > 0 {
        lemma_be_nat_bound(b.drop_last());
        let p = pow256((b.len() - 1) as nat);
        let h = be_nat(b.drop_last());
        let l = b.last() as nat;
        assert(h * 256 + l < 256 * p) by (nonlinear_arith)
            requires
                h < p,
                l < 256,
        ;
    }
}

/// Why a read from a byte source failed.
#[derive(Debug, Clone, Copy, PartialEq, Eq, Structural)]
pub enum ReadError {
    /// The source ended before the requested number of bytes was available.
    UnexpectedEnd,
}

/// A byte source: the bytes it holds and how many of them were consumed.
pub struct ByteSource {
    bytes: Vec<u8>,
    pos: usize,
}

impl ByteSource {
    /// Every byte the source was made with, consumed or not.
    pub closed spec fn all(&self) -> Seq<u8> {
        self.bytes@
    }

    /// How many bytes have been consumed.
    pub closed spec fn consumed(&self) -> nat {
        self.pos as nat
    }

    pub closed spec fn wf(&self) -> bool {
        self.pos <= self.bytes.len()
    }

    /// The bytes not yet consumed.
    pub open spec fn rest(&self) -> Seq<u8> {
        self.all().subrange(self.consumed() as int, self.all().len() as int)
    }

    pub proof fn lemma_wf(&self)
        requires
            self.wf(),
        ensures
            self.consumed() <= self.all().len(),
            self.all().len() <= usize::MAX,
    {
    }

    /// A source positioned at the first of `bytes`.
    pub fn new(bytes: Vec<u8>) -> (r: ByteSource)
        ensures
            r.wf(),
            r.all() == bytes@,
            r.consumed() == 0,
    {
        ByteSource { bytes, pos: 0 }
    }

    /// How many bytes have been consumed.
    pub fn position(&self) -> (r: usize)
        ensures
            r == self.consumed(),
    {
        self.pos
    }

    /// How many bytes are left.
    pub fn remaining(&self) -> (r: usize)
        requires
            self.wf(),
        ensures
            r == self.rest().len(),
    {
        self.bytes.len() - self.pos
    }

    /// Reads the next `width` bytes as one big-endian unsigned number.
    /// Fails, consuming nothing, when fewer than `width` bytes are left.
    pub fn read_be(&mut self, width: usize) -> (r: Result<u64, ReadError>)
        requires
            old(self).wf(),
            width <= 8,
        ensures
            final(self).wf(),
            final(self).all() == old(self).all(),
            old(self).rest().len() >= width ==> {
                &&& r == Ok::<u64, ReadError>(be_nat(old(self).rest().take(width as int)) as u64)
                &&& be_nat(old(self).rest().take(width as int)) < pow256(width as nat)
                &&& final(self).consumed() == old(self).consumed() + width
            },
            old(self).rest().len() < width ==> {
                &&& r == Err::<u64, ReadError>(ReadError::UnexpectedEnd)
                &&& final(self).consumed() == old(self).consumed()
            },
    {
        if self.bytes.len() - self.pos < width {
            return Err(ReadError::UnexpectedEnd);
        }
        let ghost start = self.pos as int;
        let mut acc: u64 = 0;
        let mut i: usize = 0;
        while i < width
            invariant
                self.wf(),
                self.pos == start,
                start + width <= self.bytes.len(),
                0 <= i <= width <= 8,
                acc as nat == be_nat(self.bytes@.subrange(start, start + i)),
            decreases width - i,
        {
            let ghost prev = self.bytes@.subrange(start, start + i);
            let ghost next = self.bytes@.subrange(start, start + i + 1);
            proof {
                assert(next.drop_last() =~= prev);
                lemma_be_nat_bound(prev);
                lemma_pow256_monotonic(i as nat, 7);
                lemma_pow256_7();
            }
            let b = self.bytes[self.pos + i];
            assert(b == next.last());
            acc = acc * 256 + b as u64;
            i = i + 1;
        }
        proof {
            assert(self.bytes@.subrange(start, start + width)
                =~= self.bytes@.subrange(start, self.bytes@.len() as int).take(width as int));
            lemma_be_nat_bound(self.bytes@.subrange(start, start + width));
        }
        self.pos = self.pos + width;
        Ok(acc)
    }
}

proof fn lemma_pow256_monotonic(a: nat, b: nat)
    requires
        a <= b,
    ensures
        pow256(a) <= pow256(b),
    decreases b,
{
    if a < b {
        lemma_pow256_monotonic(a, (b - 1) as nat);
    }
}

proof fn lemma_pow256_7()
    ensures
        pow256(7) == 0x100_0000_0000_0000,
{
    reveal_with_fuel(pow256, 8);
}

/// The powers of 256 that the numeric widths use.
pub proof fn lemma_pow256_widths()
    ensures
        pow256(1) == 0x100,
        pow256(2) == 0x1_0000,
        pow256(4) == 0x1_0000_0000,
        pow256(8) == 0x1_0000_0000_0000_0000,
{
    reveal_with_fuel(pow256, 9);
}

} // verus!
