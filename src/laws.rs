use vstd::prelude::*;

use crate::direction::Direction;
use crate::resolve::resolves_to;

verus! {

/// A step lands on one value at most: two results of the same step are equal.
pub proof fn lemma_resolution_is_unique(d: Direction, v: u32, c: Seq<u32>, r1: u32, r2: u32)
    requires
        resolves_to(d, v, c, r1),
        resolves_to(d, v, c, r2),
    ensures
        r1 == r2,
{
}

/// Where a step lands depends only on which values are candidates, not on
/// their order or on how often each is listed.
pub proof fn lemma_same_values_same_resolution(
    d: Direction,
    v: u32,
    c1: Seq<u32>,
    c2: Seq<u32>,
    r1: u32,
    r2: u32,
)
    requires
        forall|x: u32| c1.contains(x) <==> c2.contains(x),
        resolves_to(d, v, c1, r1),
        resolves_to(d, v, c2, r2),
    ensures
        r1 == r2,
{
    assert(resolves_to(d, v, c2, r1));
}

/// Shuffling the candidates does not change where a step lands.
pub proof fn lemma_order_does_not_matter(
    d: Direction,
    v: u32,
    c: Seq<u32>,
    shuffled: Seq<u32>,
    r1: u32,
    r2: u32,
)
    requires
        shuffled.to_multiset() == c.to_multiset(),
        resolves_to(d, v, c, r1),
        resolves_to(d, v, shuffled, r2),
    ensures
        r1 == r2,
{
    assert forall|x: u32| c.contains(x) <==> shuffled.contains(x) by {
        vstd::seq_lib::to_multiset_contains(c, x);
        vstd::seq_lib::to_multiset_contains(shuffled, x);
    }
    lemma_same_values_same_resolution(d, v, c, shuffled, r1, r2);
}

/// Listing existing candidates again does not change where a step lands.
pub proof fn lemma_duplicates_do_not_matter(
    d: Direction,
    v: u32,
    c: Seq<u32>,
    copies: Seq<u32>,
    r1: u32,
    r2: u32,
)
    requires
        forall|i: int| 0 <= i < copies.len() ==> c.contains(#[trigger] copies[i]),
        resolves_to(d, v, c, r1),
        resolves_to(d, v, c + copies, r2),
    ensures
        r1 == r2,
{
    let more = c + copies;
    assert forall|x: u32| c.contains(x) <==> more.contains(x) by {
        if c.contains(x) {
            let i = choose|i: int| 0 <= i < c.len() && c[i] == x;
            assert(more[i] == x);
        }
        if more.contains(x) {
            let i = choose|i: int| 0 <= i < more.len() && more[i] == x;
            if i >= c.len() {
                assert(copies[i - c.len()] == x);
            } else {
                assert(c[i] == x);
            }
        }
    }
    lemma_same_values_same_resolution(d, v, c, more, r1, r2);
}

} // verus!
