//! A cursor over an in-memory byte stream, with a little-endian
//! fixed-width integer reader: the leaf primitive under the record decoder.
use vstd::prelude::*;

verus! {

/// The value of a byte sequence read as a little-endian unsigned integer.
pub open spec fn spec_le_nat(b: Seq<u8>) -> nat
    decreases b,
{
    if b.len() == 0 {
        0
    } else {
        (b[0] as nat) + 256 * spec_le_nat(b.subrange(1, b.len() as int))
    }
}

/// 256 to the power `n`: the number of values of an `n`-byte field.
pub open spec fn spec_pow256(n: nat) -> nat
    decreases n,
{
    if n == 0 {
        1
    } else {
        256 * spec_pow256((n - 1) as nat)
    }
}

/// A little-endian value fits in the width it was read from.
pub proof fn lemma_le_nat_bound(b: Seq<u8>)
    ensures
        spec_le_nat(b) < spec_pow256(b.len()),
    decreases b,
{
    if b.len() > 0 {
        lemma_le_nat_bound(b.subrange(1, b.len() as int));
    }
}

/// `spec_pow256` is monotonic.
pub proof fn lemma_pow256_le(a: nat, b: nat)
    requires
        a <= b,
    ensures
        spec_pow256(a) <= spec_pow256(b),
    decreases b,
{
    if a < b && b > 0 {
        lemma_pow256_le(a, (b - 1) as nat);
        assert(spec_pow256(b) == 256 * spec_pow256((b - 1) as nat));
    }
}

/// A reading cursor over a borrowed byte buffer. Reads only advance the
/// position; the buffer itself is never modified.
pub struct ByteSource<'a> {
    data: &'a Vec<u8>,
    pos: usize,
}

impl<'a> ByteSource<'a> {
    /// The cursor never points past the end of the buffer.
    pub closed spec fn wf(&self) -> bool {
        self.pos <= self.data@.len()
    }

    /// The bytes not yet consumed.
    pub closed spec fn remaining(&self) -> Seq<u8> {
        self.data@.subrange(self.pos as int, self.data@.len() as int)
    }

    /// A fresh cursor positioned at the start of the buffer.
    pub fn new(data: &'a Vec<u8>) -> (s: Self)
        ensures
            s.wf(),
            s.remaining() == data@,
    {
        let s = ByteSource { data, pos: 0 };
        proof {
            assert(s.remaining() =~= data@);
        }
        s
    }

    /// How many bytes are left to read.
    pub fn remaining_len(&self) -> (n: usize)
        requires
            self.wf(),
        ensures
            n == self.remaining().len(),
    {
        self.data.len() - self.pos
    }

    /// Read an `n`-byte little-endian unsigned value, consuming `n` bytes.
    pub fn read_le(&mut self, n: usize) -> (r: u64)
        requires
            old(self).wf(),
            1 <= n <= 8,
            old(self).remaining().len() >= n,
        ensures
            final(self).wf(),
            r == spec_le_nat(old(self).remaining().subrange(0, n as int)),
            final(self).remaining() == old(self).remaining().subrange(
                n as int,
                old(self).remaining().len() as int,
            ),
    {
        let ghost full = old(self).remaining();
        let dlen: usize = self.data.len();
        let mut val: u64 = 0;
        let mut i: usize = n;
        while i > 0
            invariant
                i <= n <= 8,
                *self == *old(self),
                old(self).wf(),
                dlen == self.data@.len(),
                self.pos + n <= dlen,
                old(self).remaining().len() >= n,
                full == old(self).remaining(),
                val == spec_le_nat(full.subrange(i as int, n as int)),
                val < spec_pow256((n - i) as nat),
            decreases i,
        {
            i = i - 1;
            let b = self.data[self.pos + i];
            proof {
                assert(b == full[i as int]);
                let cur = full.subrange(i as int, n as int);
                assert(cur[0] == full[i as int]);
                assert(cur.subrange(1, cur.len() as int) =~= full.subrange(i + 1, n as int));
                lemma_pow256_le((n - i - 1) as nat, 7);
                assert(spec_pow256(8) == 0x1_0000_0000_0000_0000) by {
                    reveal_with_fuel(spec_pow256, 9);
                }
                assert(spec_pow256((n - i) as nat) == 256 * spec_pow256((n - i - 1) as nat));
                assert(val * 256 + b < spec_pow256((n - i) as nat));
            }
            val = val * 256 + (b as u64);
        }
        proof {
            assert(full.subrange(0, n as int) == full.subrange(0 as int, n as int));
        }
        self.pos = self.pos + n;
        proof {
            assert(self.remaining() =~= full.subrange(n as int, full.len() as int));
        }
        val
    }
}

} // verus!
