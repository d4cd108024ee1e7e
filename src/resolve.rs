use vstd::prelude::*;

use crate::direction::Direction;

verus! {

/// Why no candidate could be picked.
#[derive(Clone, Copy, Debug, PartialEq, Eq, Structural)]
pub enum StepError {
    /// There is no candidate value at all.
    EmptyCandidateSet,
}

/// `m` is a candidate and no candidate is smaller.
pub open spec fn is_min(c: Seq<u32>, m: u32) -> bool {
    c.contains(m) && forall|x: u32| c.contains(x) ==> m <= x
}

/// `m` is a candidate and no candidate is larger.
pub open spec fn is_max(c: Seq<u32>, m: u32) -> bool {
    c.contains(m) && forall|x: u32| c.contains(x) ==> x <= m
}

/// Some candidate lies strictly above `v`.
pub open spec fn has_above(c: Seq<u32>, v: u32) -> bool {
    exists|x: u32| c.contains(x) && v < x
}

/// Some candidate lies strictly below `v`.
pub open spec fn has_below(c: Seq<u32>, v: u32) -> bool {
    exists|x: u32| c.contains(x) && x < v
}

/// `r` is the smallest candidate strictly above `v`.
pub open spec fn is_next_above(c: Seq<u32>, v: u32, r: u32) -> bool {
    c.contains(r) && v < r && forall|x: u32| c.contains(x) && v < x ==> r <= x
}

/// `r` is the largest candidate strictly below `v`.
pub open spec fn is_next_below(c: Seq<u32>, v: u32, r: u32) -> bool {
    c.contains(r) && r < v && forall|x: u32| c.contains(x) && x < v ==> x <= r
}

/// `r` is where a step in direction `d` from `v` lands among the candidates `c`:
/// the extreme for `Bottom` and `Top`, the nearest neighbour for `Up` and `Down`,
/// and the extreme on that side when there is no neighbour there.
pub open spec fn resolves_to(d: Direction, v: u32, c: Seq<u32>, r: u32) -> bool {
    match d {
        Direction::Bottom => is_min(c, r),
        Direction::Top => is_max(c, r),
        Direction::Up => if has_above(c, v) {
            is_next_above(c, v, r)
        } else {
            is_max(c, r)
        },
        Direction::Down => if has_below(c, v) {
            is_next_below(c, v, r)
        } else {
            is_min(c, r)
        },
    }
}

/// The candidates are in ascending order.
pub open spec fn is_ascending(s: Seq<u32>) -> bool {
    forall|i: int, j: int| 0 <= i <= j < s.len() ==> s[i] <= s[j]
}

/// Returns the candidates in ascending order, duplicates kept.
pub fn sorted_ascending(values: &Vec<u32>) -> (r: Vec<u32>)
    ensures
        is_ascending(r@),
        r@.to_multiset() == values@.to_multiset(),
{
    broadcast use vstd::seq_lib::group_to_multiset_ensures;

    let mut out: Vec<u32> = Vec::new();
    let mut i: usize = 0;
    while i < values.len()
        invariant
            i <= values.len(),
            is_ascending(out@),
            out@.to_multiset() == values@.subrange(0, i as int).to_multiset(),
        decreases values.len() - i,
    {
        let x = values[i];
        let mut k: usize = 0;
        while k < out.len() && out[k] <= x
            invariant
                k <= out.len(),
                forall|j: int| 0 <= j < k ==> out@[j] <= x,
            decreases out.len() - k,
        {
            k = k + 1;
        }
        let ghost before = out@;
        out.insert(k, x);
        assert(values@.subrange(0, i + 1) == values@.subrange(0, i as int).push(x));
        assert(out@ == before.insert(k as int, x));
        proof {
            vstd::seq_lib::to_multiset_insert(before, k as int, x);
            vstd::seq_lib::to_multiset_build(values@.subrange(0, i as int), x);
        }
        i = i + 1;
    }
    assert(values@.subrange(0, values.len() as int) == values@);
    out
}

/// The first candidate strictly above `current`, or the largest candidate when
/// there is none; `sorted` is in ascending order.
pub fn closest_up(sorted: &Vec<u32>, current: u32) -> (r: u32)
    requires
        sorted.len() > 0,
        is_ascending(sorted@),
    ensures
        resolves_to(Direction::Up, current, sorted@, r),
{
    let mut i: usize = 0;
    while i < sorted.len()
        invariant
            i <= sorted.len(),
            is_ascending(sorted@),
            forall|j: int| 0 <= j < i ==> sorted@[j] <= current,
        decreases sorted.len() - i,
    {
        if current < sorted[i] {
            assert forall|x: u32| sorted@.contains(x) && current < x implies sorted@[i as int] <= x by {
                let j = choose|j: int| 0 <= j < sorted@.len() && sorted@[j] == x;
                assert(sorted@[j] == x);
                if j >= i {
                    assert(sorted@[i as int] <= sorted@[j]);
                }
            }
            assert(sorted@.contains(sorted@[i as int]));
            return sorted[i];
        }
        i = i + 1;
    }
    let last = sorted[sorted.len() - 1];
    assert(sorted@.contains(last));
    last
}

/// The last candidate strictly below `current`, or the smallest candidate when
/// there is none; `sorted` is in ascending order.
pub fn closest_down(sorted: &Vec<u32>, current: u32) -> (r: u32)
    requires
        sorted.len() > 0,
        is_ascending(sorted@),
    ensures
        resolves_to(Direction::Down, current, sorted@, r),
{
    let mut i: usize = sorted.len();
    while i > 0
        invariant
            i <= sorted.len(),
            is_ascending(sorted@),
            forall|j: int| i <= j < sorted.len() ==> current <= sorted@[j],
        decreases i,
    {
        if sorted[i - 1] < current {
            assert forall|x: u32| sorted@.contains(x) && x < current implies x <= sorted@[i - 1] by {
                let j = choose|j: int| 0 <= j < sorted@.len() && sorted@[j] == x;
                assert(sorted@[j] == x);
                if j < i {
                    assert(sorted@[j] <= sorted@[i - 1]);
                }
            }
            assert(sorted@.contains(sorted@[i - 1]));
            return sorted[i - 1];
        }
        i = i - 1;
    }
    let first = sorted[0];
    assert(sorted@.contains(first));
    first
}

/// Picks the candidate that a step in direction `direction` from `current_value`
/// lands on (see [`resolves_to`]); fails when there is no candidate.
pub fn resolve_new_value(direction: Direction, current_value: u32, steppable_values: Vec<u32>) -> (r:
    Result<u32, StepError>)
    ensures
        steppable_values.len() == 0 ==> r == Err::<u32, StepError>(StepError::EmptyCandidateSet),
        steppable_values.len() > 0 ==> (r matches Ok(x) && resolves_to(
            direction,
            current_value,
            steppable_values@,
            x,
        )),
{
    if steppable_values.len() == 0 {
        return Err(StepError::EmptyCandidateSet);
    }
    let sorted = sorted_ascending(&steppable_values);
    proof {
        broadcast use vstd::seq_lib::group_to_multiset_ensures;

        assert forall|x: u32| sorted@.contains(x) <==> steppable_values@.contains(x) by {
            assert(sorted@.to_multiset().count(x) == steppable_values@.to_multiset().count(x));
        }
        vstd::seq_lib::to_multiset_len(sorted@);
        vstd::seq_lib::to_multiset_len(steppable_values@);
    }
    let r = match direction {
        Direction::Bottom => sorted[0],
        Direction::Down => closest_down(&sorted, current_value),
        Direction::Up => closest_up(&sorted, current_value),
        Direction::Top => sorted[sorted.len() - 1],
    };
    proof {
        if direction == Direction::Bottom {
            assert(sorted@.contains(sorted@[0]));
        }
        if direction == Direction::Top {
            assert(sorted@.contains(sorted@[sorted@.len() - 1]));
        }
    }
    Ok(r)
}

} // verus!
