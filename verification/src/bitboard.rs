//! Sets of squares, one bit per square.
use vstd::prelude::*;
use crate::types::{Square, valid_index};

verus! {

/// The 81 low bits: bit `i - 1` stands for the square with index `i`.
pub const FULL_BITS: u128 = 0x1_ffff_ffff_ffff_ffff_ffffu128;

/// A set of squares: bit `i - 1` of `bits` is set when the square with index `i` is in the set.
#[derive(Clone, Copy, Debug, PartialEq, Eq, Structural)]
pub struct Bitboard {
    pub bits: u128,
}

proof fn lemma_bit_or(a: u128, b: u128, k: u128)
    by (bit_vector)
    requires
        k < 128,
    ensures
        ((a | b) >> k) & 1 == 1 <==> ((a >> k) & 1 == 1 || (b >> k) & 1 == 1),
{
}

proof fn lemma_bit_and(a: u128, b: u128, k: u128)
    by (bit_vector)
    requires
        k < 128,
    ensures
        ((a & b) >> k) & 1 == 1 <==> ((a >> k) & 1 == 1 && (b >> k) & 1 == 1),
{
}

proof fn lemma_bit_not(a: u128, k: u128)
    by (bit_vector)
    requires
        k < 81,
    ensures
        ((!a & 0x1_ffff_ffff_ffff_ffff_ffffu128) >> k) & 1 == 1 <==> !((a >> k) & 1 == 1),
{
}

proof fn lemma_bit_single(j: u128, k: u128)
    by (bit_vector)
    requires
        j < 128,
        k < 128,
    ensures
        ((1u128 << j) >> k) & 1 == 1 <==> j == k,
{
}

proof fn lemma_bit_zero(k: u128)
    by (bit_vector)
    requires
        k < 128,
    ensures
        !((0u128 >> k) & 1 == 1),
{
}

proof fn lemma_bounds(a: u128, b: u128, j: u128)
    by (bit_vector)
    requires
        a <= 0x1_ffff_ffff_ffff_ffff_ffffu128,
        b <= 0x1_ffff_ffff_ffff_ffff_ffffu128,
        j < 81,
    ensures
        a | b <= 0x1_ffff_ffff_ffff_ffff_ffffu128,
        a & b <= 0x1_ffff_ffff_ffff_ffff_ffffu128,
        1u128 << j <= 0x1_ffff_ffff_ffff_ffff_ffffu128,
{
}

proof fn lemma_not_bound(a: u128)
    by (bit_vector)
    ensures
        !a & 0x1_ffff_ffff_ffff_ffff_ffffu128 <= 0x1_ffff_ffff_ffff_ffff_ffffu128,
{
}

proof fn lemma_top_bit_clear(a: u128, k: u128)
    by (bit_vector)
    requires
        k < 127,
        a < (1u128 << (k + 1)),
        (a >> k) & 1 != 1,
    ensures
        a < (1u128 << k),
{
}

proof fn lemma_full_bound()
    by (bit_vector)
    ensures
        0x1_ffff_ffff_ffff_ffff_ffffu128 < (1u128 << 81),
        (1u128 << 0) == 1,
{
}

/// A value below `2^k` whose bits below `k` are all clear is zero.
proof fn lemma_all_clear_zero(a: u128, k: u128)
    requires
        k <= 81,
        a < (1u128 << k),
        forall|j: u128| j < k ==> !((a >> j) & 1 == 1),
    ensures
        a == 0,
    decreases k,
{
    if k == 0 {
        lemma_full_bound();
    } else {
        lemma_top_bit_clear(a, (k - 1) as u128);
        lemma_all_clear_zero(a, (k - 1) as u128);
    }
}

impl Bitboard {
    /// Whether the square with index `i` is in the set.
    pub open spec fn has(self, i: int) -> bool {
        valid_index(i) && (self.bits >> ((i - 1) as u128)) & 1 == 1
    }

    /// Only the 81 low bits may be set.
    pub open spec fn wf(self) -> bool {
        self.bits <= FULL_BITS
    }

    pub fn empty() -> (r: Bitboard)
        ensures
            r.wf(),
            forall|i: int| !r.has(i),
    {
        proof {
            assert forall|i: int| !(Bitboard { bits: 0 }).has(i) by {
                if valid_index(i) {
                    lemma_bit_zero((i - 1) as u128);
                }
            }
        }
        Bitboard { bits: 0 }
    }

    /// All 81 squares.
    pub fn full() -> (r: Bitboard)
        ensures
            r.wf(),
            forall|i: int| r.has(i) <==> valid_index(i),
    {
        let r = Bitboard::empty().not();
        r
    }

    /// The set holding exactly one square.
    pub fn single(square: Square) -> (r: Bitboard)
        requires
            square.wf(),
        ensures
            r.wf(),
            forall|i: int| r.has(i) <==> i == square.index,
    {
        let r = Bitboard { bits: 1u128 << (square.index - 1) };
        proof {
            lemma_bounds(0, 0, (square.index - 1) as u128);
            assert forall|i: int| r.has(i) <==> i == square.index by {
                if valid_index(i) {
                    lemma_bit_single((square.index - 1) as u128, (i - 1) as u128);
                }
            }
        }
        r
    }

    pub fn contains(self, square: Square) -> (r: bool)
        requires
            square.wf(),
        ensures
            r == self.has(square.index as int),
    {
        (self.bits >> (square.index - 1)) & 1 == 1
    }

    pub fn or(self, other: Bitboard) -> (r: Bitboard)
        requires
            self.wf(),
            other.wf(),
        ensures
            r.wf(),
            forall|i: int| r.has(i) <==> (self.has(i) || other.has(i)),
    {
        let r = Bitboard { bits: self.bits | other.bits };
        proof {
            lemma_bounds(self.bits, other.bits, 0);
            assert forall|i: int| r.has(i) <==> (self.has(i) || other.has(i)) by {
                if valid_index(i) {
                    lemma_bit_or(self.bits, other.bits, (i - 1) as u128);
                }
            }
        }
        r
    }

    pub fn and(self, other: Bitboard) -> (r: Bitboard)
        requires
            self.wf(),
            other.wf(),
        ensures
            r.wf(),
            forall|i: int| r.has(i) <==> (self.has(i) && other.has(i)),
    {
        let r = Bitboard { bits: self.bits & other.bits };
        proof {
            lemma_bounds(self.bits, other.bits, 0);
            assert forall|i: int| r.has(i) <==> (self.has(i) && other.has(i)) by {
                if valid_index(i) {
                    lemma_bit_and(self.bits, other.bits, (i - 1) as u128);
                }
            }
        }
        r
    }

    /// The squares of the board that are not in the set.
    pub fn not(self) -> (r: Bitboard)
        ensures
            r.wf(),
            forall|i: int| r.has(i) <==> (valid_index(i) && !self.has(i)),
    {
        let r = Bitboard { bits: !self.bits & FULL_BITS };
        proof {
            lemma_not_bound(self.bits);
            assert forall|i: int| r.has(i) <==> (valid_index(i) && !self.has(i)) by {
                if valid_index(i) {
                    lemma_bit_not(self.bits, (i - 1) as u128);
                }
            }
        }
        r
    }

    /// The squares of `self` that are not in `other`.
    pub fn minus(self, other: Bitboard) -> (r: Bitboard)
        requires
            self.wf(),
            other.wf(),
        ensures
            r.wf(),
            forall|i: int| r.has(i) <==> (self.has(i) && !other.has(i)),
    {
        self.and(other.not())
    }

    /// Adds one square.
    pub fn with(self, square: Square) -> (r: Bitboard)
        requires
            self.wf(),
            square.wf(),
        ensures
            r.wf(),
            forall|i: int| r.has(i) <==> (self.has(i) || i == square.index),
    {
        self.or(Bitboard::single(square))
    }

    /// Whether the two sets share a square.
    pub fn intersects(self, other: Bitboard) -> (r: bool)
        requires
            self.wf(),
            other.wf(),
        ensures
            r <==> (exists|i: int| self.has(i) && other.has(i)),
    {
        let both = self.and(other);
        let e = both.is_empty();
        proof {
            if !e {
                let i = choose|i: int| both.has(i);
                assert(self.has(i) && other.has(i));
            }
        }
        !e
    }

    pub fn is_empty(self) -> (r: bool)
        requires
            self.wf(),
        ensures
            r <==> (forall|i: int| !self.has(i)),
    {
        proof {
            if self.bits == 0 {
                assert forall|i: int| !self.has(i) by {
                    if valid_index(i) {
                        lemma_bit_zero((i - 1) as u128);
                    }
                }
            } else {
                if forall|i: int| !self.has(i) {
                    assert forall|j: u128| j < 81 implies !((self.bits >> j) & 1 == 1) by {
                        assert(!self.has(j + 1));
                    }
                    lemma_full_bound();
                    lemma_all_clear_zero(self.bits, 81);
                }
            }
        }
        self.bits == 0
    }
}

} // verus!
