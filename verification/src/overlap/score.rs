//! The order of correlation scores.

use vstd::prelude::*;

use crate::binary64::{less, Binary64, INFINITY, SIGN};

verus! {

/// The place of a score among all: numbers rank by their order, both zeros the
/// same. What is no number ranks lowest, with minus infinity.
pub open spec fn rank(bits: u64) -> int {
    let score = Binary64 { bits };
    if score.is_nan() || (score.is_infinite() && score.is_negative()) {
        i64::MIN as int
    } else {
        score.order()
    }
}

/// The place of the score with these bits among all.
pub fn rank_of_bits(bits: u64) -> (r: i64)
    ensures
        r == rank(bits),
        bits <= INFINITY ==> r == bits,
        SIGN <= bits < SIGN + INFINITY ==> r == SIGN - bits,
        INFINITY < bits < SIGN ==> r == i64::MIN,
        SIGN + INFINITY <= bits ==> r == i64::MIN,
{
    if bits <= INFINITY {
        bits as i64
    } else if SIGN <= bits && bits < 0xfff0_0000_0000_0000 {
        -((bits - SIGN) as i64)
    } else {
        i64::MIN
    }
}

/// A higher score has a higher rank, and only a higher one.
pub proof fn law_ranks_are_in_the_order_of_scores(a: Binary64, b: Binary64)
    requires
        !a.is_nan(),
        !b.is_nan(),
    ensures
        less(a, b) <==> rank(a.bits) < rank(b.bits),
{
}

} // verus!
