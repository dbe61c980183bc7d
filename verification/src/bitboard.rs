use vstd::prelude::*;
use crate::square::Square;

verus! {

/// Whether bit `i` of `b` is set; bits outside `0..64` count as clear.
pub open spec fn bit64(b: u64, i: int) -> bool {
    0 <= i < 64 && (b >> (i as u64)) & 1u64 == 1u64
}

/// Number of set bits of `b` among the bits below `n`.
pub open spec fn popcount_to(b: u64, n: int) -> int
    decreases n,
{
    if n <= 0 {
        0
    } else {
        popcount_to(b, n - 1) + if bit64(b, n - 1) {
            1int
        } else {
            0int
        }
    }
}

/// Number of set bits of `b`.
pub open spec fn popcount(b: u64) -> int {
    popcount_to(b, 64)
}

pub proof fn lemma_bit_or(a: u64, b: u64)
    ensures
        forall|i: int| #[trigger] bit64(a | b, i) <==> bit64(a, i) || bit64(b, i),
{
    assert(forall|x: u64, y: u64, j: u64|
        j < 64 ==> ((((x | y) >> j) & 1u64 == 1u64) <==> (((x >> j) & 1u64 == 1u64) || ((y >> j)
            & 1u64 == 1u64)))) by (bit_vector);
}

pub proof fn lemma_bit_and(a: u64, b: u64)
    ensures
        forall|i: int| #[trigger] bit64(a & b, i) <==> bit64(a, i) && bit64(b, i),
{
    assert(forall|x: u64, y: u64, j: u64|
        j < 64 ==> ((((x & y) >> j) & 1u64 == 1u64) <==> (((x >> j) & 1u64 == 1u64) && ((y >> j)
            & 1u64 == 1u64)))) by (bit_vector);
}

pub proof fn lemma_bit_xor(a: u64, b: u64)
    ensures
        forall|i: int| #[trigger] bit64(a ^ b, i) <==> (bit64(a, i) != bit64(b, i) && 0 <= i < 64),
{
    assert(forall|x: u64, y: u64, j: u64|
        j < 64 ==> ((((x ^ y) >> j) & 1u64 == 1u64) <==> (((x >> j) & 1u64 == 1u64) != ((y >> j)
            & 1u64 == 1u64)))) by (bit_vector);
}

pub proof fn lemma_bit_not(a: u64)
    ensures
        forall|i: int| #[trigger] bit64(!a, i) <==> (!bit64(a, i) && 0 <= i < 64),
{
    assert(forall|x: u64, j: u64|
        j < 64 ==> ((((!x) >> j) & 1u64 == 1u64) <==> !((x >> j) & 1u64 == 1u64))) by (bit_vector);
}

pub proof fn lemma_bit_single(s: u64)
    requires
        s < 64,
    ensures
        forall|i: int| #[trigger] bit64(1u64 << s, i) <==> i == s,
{
    assert(forall|x: u64, j: u64|
        x < 64 && j < 64 ==> ((((1u64 << x) >> j) & 1u64 == 1u64) <==> j == x)) by (bit_vector);
}

pub proof fn lemma_bit_zero()
    ensures
        forall|i: int| !bit64(0u64, i),
{
    assert(forall|j: u64| j < 64 ==> ((0u64 >> j) & 1u64 == 0u64)) by (bit_vector);
}

/// A 64-bit set of board squares, one bit per square index.
#[derive(Clone, Copy, Debug, PartialEq, Eq, Structural)]
pub struct BitBoard(pub u64);

impl BitBoard {
    /// The set containing a square exactly when its index bit is set.
    pub open spec fn contains_spec(self, s: Square) -> bool {
        bit64(self.0, s.idx())
    }

    pub fn empty() -> (r: BitBoard)
        ensures
            r.0 == 0u64,
            forall|s: Square| !r.contains_spec(s),
    {
        proof {
            lemma_bit_zero();
        }
        BitBoard(0)
    }

    /// Membership test.
    pub fn has(self, s: Square) -> (r: bool)
        requires
            s.wf(),
        ensures
            r == self.contains_spec(s),
    {
        (self.0 >> s.index()) & 1u64 == 1u64
    }

    pub fn union(self, other: BitBoard) -> (r: BitBoard)
        ensures
            r.0 == self.0 | other.0,
            forall|s: Square| #[trigger] r.contains_spec(s) <==> self.contains_spec(s)
                || other.contains_spec(s),
    {
        proof {
            lemma_bit_or(self.0, other.0);
        }
        BitBoard(self.0 | other.0)
    }

    pub fn intersect(self, other: BitBoard) -> (r: BitBoard)
        ensures
            r.0 == self.0 & other.0,
            forall|s: Square| #[trigger] r.contains_spec(s) <==> self.contains_spec(s)
                && other.contains_spec(s),
    {
        proof {
            lemma_bit_and(self.0, other.0);
        }
        BitBoard(self.0 & other.0)
    }

    pub fn complement(self) -> (r: BitBoard)
        ensures
            r.0 == !self.0,
            forall|s: Square| s.wf() ==> (#[trigger] r.contains_spec(s) <==> !self.contains_spec(
                s,
            )),
    {
        proof {
            lemma_bit_not(self.0);
        }
        BitBoard(!self.0)
    }

    pub fn is_empty(self) -> (r: bool)
        ensures
            r == (self.0 == 0u64),
    {
        self.0 == 0u64
    }

    /// Population count: how many squares the set holds.
    pub fn popcnt(self) -> (r: u32)
        ensures
            r == popcount(self.0),
    {
        let mut count: u32 = 0;
        let mut i: u64 = 0;
        while i < 64
            invariant
                0 <= i <= 64,
                count == popcount_to(self.0, i as int),
                count <= i,
            decreases 64 - i,
        {
            if (self.0 >> i) & 1u64 == 1u64 {
                count = count + 1;
            }
            i = i + 1;
        }
        count
    }

    /// The squares of the set, in ascending index order.
    pub fn squares(self) -> (r: Vec<Square>)
        ensures
            forall|j: int| 0 <= j < r@.len() ==> (#[trigger] r@[j]).wf() && self.contains_spec(
                r@[j],
            ),
            forall|j: int, l: int| 0 <= j < l < r@.len() ==> r@[j].idx() < r@[l].idx(),
            forall|s: Square| s.wf() && self.contains_spec(s) ==> exists|j: int|
                0 <= j < r@.len() && r@[j] == s,
    {
        let mut out: Vec<Square> = Vec::new();
        let mut i: u8 = 0;
        while i < 64
            invariant
                0 <= i <= 64,
                forall|j: int| 0 <= j < out@.len() ==> (#[trigger] out@[j]).wf()
                    && self.contains_spec(out@[j]) && out@[j].idx() < i,
                forall|j: int, l: int| 0 <= j < l < out@.len() ==> out@[j].idx() < out@[l].idx(),
                forall|s: Square| s.wf() && s.idx() < i && self.contains_spec(s) ==> exists|j: int|
                    0 <= j < out@.len() && out@[j] == s,
            decreases 64 - i,
        {
            let ghost prev = out@;
            if (self.0 >> (i as u64)) & 1u64 == 1u64 {
                out.push(Square(i));
            }
            proof {
                assert forall|s: Square|
                    s.wf() && s.idx() < i + 1 && self.contains_spec(s) implies exists|j: int|
                    0 <= j < out@.len() && out@[j] == s by {
                    if s.idx() == i as int {
                        assert(out@[out@.len() - 1] == s);
                    } else {
                        let j = choose|j: int| 0 <= j < prev.len() && prev[j] == s;
                        assert(out@[j] == s);
                    }
                }
            }
            i = i + 1;
        }
        out
    }
}

} // verus!
