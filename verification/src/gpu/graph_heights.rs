//! How the height that is left on the page is shared out among the graphs.
use vstd::prelude::*;

use crate::rect::{fits_i32, max_i64, max_of, min_i64, min_of};

verus! {

pub open spec fn total(heights: Seq<int>) -> int
    decreases heights.len(),
{
    if heights.len() == 0 {
        0
    } else {
        total(heights.drop_last()) + heights.last()
    }
}

/// How many graphs are higher than their minimum.
pub open spec fn active_count(heights: Seq<int>, minimum: Seq<int>) -> int
    decreases heights.len(),
{
    if heights.len() == 0 {
        0
    } else {
        active_count(heights.drop_last(), minimum.drop_last()) + if heights.last()
            > minimum.last() {
            1int
        } else {
            0int
        }
    }
}

/// What one graph gives up in a round: no more than its share, than it has above its minimum,
/// and than is still to be given up.
pub open spec fn reduction(height: int, minimum: int, share: int, remaining: int) -> int {
    min_of(min_of(height - minimum, share), remaining)
}

/// One round of giving up height, from the graph at `index` on: the heights and what remains.
pub open spec fn after_round(
    heights: Seq<int>,
    minimum: Seq<int>,
    share: int,
    remaining: int,
    index: int,
) -> (Seq<int>, int)
    decreases heights.len() - index,
{
    if index < 0 || index >= heights.len() || remaining == 0 {
        (heights, remaining)
    } else {
        let given = reduction(heights[index], minimum[index], share, remaining);
        after_round(
            heights.update(index, heights[index] - given),
            minimum,
            share,
            remaining - given,
            index + 1,
        )
    }
}

/// The share of each active graph in a round, rounded up.
pub open spec fn share_of(remaining: int, active: int) -> int {
    max_of((remaining + active - 1) / active, 1)
}

/// How many graphs are lower than their minimum.
pub open spec fn below_count(heights: Seq<int>, minimum: Seq<int>) -> nat
    decreases heights.len(),
{
    if heights.len() == 0 {
        0
    } else {
        below_count(heights.drop_last(), minimum.drop_last()) + if heights.last()
            < minimum.last() {
            1nat
        } else {
            0nat
        }
    }
}

/// How much the graphs have above their minimum, all together.
pub open spec fn excess(heights: Seq<int>, minimum: Seq<int>) -> nat
    decreases heights.len(),
{
    if heights.len() == 0 {
        0
    } else {
        excess(heights.drop_last(), minimum.drop_last()) + max_of(
            heights.last() - minimum.last(),
            0,
        ) as nat
    }
}

/// The heights after `remaining` has been given up, in as many rounds as it takes.
pub open spec fn shrunk(heights: Seq<int>, minimum: Seq<int>, remaining: int) -> Seq<int>
    decreases below_count(heights, minimum), excess(heights, minimum),
    when heights.len() == minimum.len()
    via shrunk_decreases
{
    let active = active_count(heights, minimum);
    if remaining <= 0 || active == 0 {
        heights
    } else {
        let round = after_round(heights, minimum, share_of(remaining, active), remaining, 0);
        if round.1 == 0 {
            round.0
        } else {
            shrunk(round.0, minimum, round.1)
        }
    }
}

#[via_fn]
proof fn shrunk_decreases(heights: Seq<int>, minimum: Seq<int>, remaining: int) {
    let active = active_count(heights, minimum);
    if heights.len() == minimum.len() && remaining > 0 && active != 0 {
        let share = share_of(remaining, active);
        let round = after_round(heights, minimum, share, remaining, 0);
        if round.1 != 0 {
            lemma_round(heights, minimum, share, remaining, 0);
            lemma_no_round_lowers(heights, round.0, minimum, share);
        }
    }
}

/// What a round does: lengths stay, what is given up leaves the total, and where something
/// remains every graph from `index` on has been visited.
pub proof fn lemma_round(
    heights: Seq<int>,
    minimum: Seq<int>,
    share: int,
    remaining: int,
    index: int,
)
    requires
        heights.len() == minimum.len(),
        0 <= index <= heights.len(),
        share >= 1,
        remaining >= 0,
    ensures
        ({
            let (after, left) = after_round(heights, minimum, share, remaining, index);
            &&& after.len() == heights.len()
            &&& left >= 0
            &&& total(after) - left == total(heights) - remaining
            &&& forall|i: int| 0 <= i < index ==> after[i] == heights[i]
            &&& forall|i: int|
                index <= i < heights.len() ==> (#[trigger] after[i] == heights[i] || after[i]
                    >= minimum[i])
            &&& left > 0 ==> forall|i: int|
                index <= i < heights.len() ==> #[trigger] after[i] == heights[i] - min_of(
                    heights[i] - minimum[i],
                    share,
                )
        }),
    decreases heights.len() - index,
{
    if index < heights.len() && remaining != 0 {
        let given = reduction(heights[index], minimum[index], share, remaining);
        let next = heights.update(index, heights[index] - given);
        lemma_total_update(heights, index, heights[index] - given);
        lemma_round(next, minimum, share, remaining - given, index + 1);
        let (after, left) = after_round(heights, minimum, share, remaining, index);
        assert(after[index] == next[index]);
        if left > 0 {
            assert(given < remaining) by {
                if given == remaining {
                    assert(after_round(next, minimum, share, 0, index + 1) == (next, 0int));
                }
            }
            assert forall|i: int| index <= i < heights.len() implies #[trigger] after[i]
                == heights[i] - min_of(heights[i] - minimum[i], share) by {
                if i > index {
                    assert(next[i] == heights[i]);
                }
            }
        }
        assert forall|i: int| index <= i < heights.len() implies (#[trigger] after[i] == heights[i]
            || after[i] >= minimum[i]) by {
            if i > index {
                assert(next[i] == heights[i]);
            }
        }
    }
}

proof fn lemma_total_update(heights: Seq<int>, index: int, value: int)
    requires
        0 <= index < heights.len(),
    ensures
        total(heights.update(index, value)) == total(heights) - heights[index] + value,
    decreases heights.len(),
{
    let updated = heights.update(index, value);
    if index == heights.len() - 1 {
        assert(updated.drop_last() =~= heights.drop_last());
    } else {
        lemma_total_update(heights.drop_last(), index, value);
        assert(updated.drop_last() =~= heights.drop_last().update(index, value));
    }
}

/// A round that visits every graph leaves none below its minimum, and lowers the excess where
/// none was below before.
proof fn lemma_no_round_lowers(
    heights: Seq<int>,
    after: Seq<int>,
    minimum: Seq<int>,
    share: int,
)
    requires
        heights.len() == minimum.len(),
        after.len() == heights.len(),
        share >= 1,
        forall|i: int|
            0 <= i < heights.len() ==> #[trigger] after[i] == heights[i] - min_of(
                heights[i] - minimum[i],
                share,
            ),
    ensures
        below_count(after, minimum) == 0,
        excess(after, minimum) <= excess(heights, minimum),
        active_count(heights, minimum) > 0 ==> excess(after, minimum) < excess(heights, minimum),
        active_count(heights, minimum) >= 0,
    decreases heights.len(),
{
    if heights.len() > 0 {
        let shorter = after.drop_last();
        assert forall|i: int| 0 <= i < shorter.len() implies #[trigger] shorter[i]
            == heights.drop_last()[i] - min_of(
            heights.drop_last()[i] - minimum.drop_last()[i],
            share,
        ) by {
            assert(shorter[i] == after[i]);
        }
        lemma_no_round_lowers(heights.drop_last(), shorter, minimum.drop_last(), share);
        assert(after.last() == after[heights.len() - 1]);
    }
}

/// Where no graph is above its minimum, the total is at most that of the minimums.
proof fn lemma_inactive_total(heights: Seq<int>, minimum: Seq<int>)
    requires
        heights.len() == minimum.len(),
    ensures
        active_count(heights, minimum) >= 0,
        active_count(heights, minimum) == 0 ==> total(heights) <= total(minimum),
    decreases heights.len(),
{
    if heights.len() > 0 {
        lemma_inactive_total(heights.drop_last(), minimum.drop_last());
    }
}

/// Giving up height takes exactly `remaining` off the total, as long as the minimums allow it,
/// and takes no graph below its minimum that was not there before.
pub proof fn shrinking_is_exact(heights: Seq<int>, minimum: Seq<int>, remaining: int)
    requires
        heights.len() == minimum.len(),
        0 <= remaining <= total(heights) - total(minimum),
    ensures
        shrunk(heights, minimum, remaining).len() == heights.len(),
        total(shrunk(heights, minimum, remaining)) == total(heights) - remaining,
        forall|i: int|
            0 <= i < heights.len() ==> (#[trigger] shrunk(heights, minimum, remaining)[i]
                == heights[i] || shrunk(heights, minimum, remaining)[i] >= minimum[i]),
    decreases below_count(heights, minimum), excess(heights, minimum),
{
    let active = active_count(heights, minimum);
    lemma_inactive_total(heights, minimum);
    if remaining > 0 && active != 0 {
        let share = share_of(remaining, active);
        let round = after_round(heights, minimum, share, remaining, 0);
        lemma_round(heights, minimum, share, remaining, 0);
        if round.1 != 0 {
            lemma_no_round_lowers(heights, round.0, minimum, share);
            shrinking_is_exact(round.0, minimum, round.1);
            let end = shrunk(heights, minimum, remaining);
            assert forall|i: int| 0 <= i < heights.len() implies (#[trigger] end[i] == heights[i]
                || end[i] >= minimum[i]) by {
                assert(end[i] == round.0[i] || end[i] >= minimum[i]);
                assert(round.0[i] == heights[i] || round.0[i] >= minimum[i]);
            }
        }
    }
}

/// The heights with `extra` added: the same for each graph, and one more for the first ones
/// where it does not divide.
pub open spec fn grown(heights: Seq<int>, extra: int) -> Seq<int> {
    let count = heights.len() as int;
    Seq::new(
        heights.len(),
        |i: int|
            heights[i] + extra / count + if i < extra % count {
                1int
            } else {
                0int
            },
    )
}

/// The heights of the graphs when they share `target`, which is raised to the minimums.
pub open spec fn fitted(preferred: Seq<int>, minimum: Seq<int>, target: int) -> Seq<int> {
    let target = max_of(target, total(minimum));
    if target >= total(preferred) {
        grown(preferred, target - total(preferred))
    } else {
        shrunk(preferred, minimum, total(preferred) - target)
    }
}

pub open spec fn ints(heights: [i32; 4]) -> Seq<int> {
    heights@.map_values(|height: i32| height as int)
}

proof fn lemma_total_four(heights: Seq<int>)
    requires
        heights.len() == 4,
    ensures
        total(heights) == heights[0] + heights[1] + heights[2] + heights[3],
{
    reveal_with_fuel(total, 5);
    assert(heights.drop_last().last() == heights[2]);
    assert(heights.drop_last().drop_last().last() == heights[1]);
    assert(heights.drop_last().drop_last().drop_last().last() == heights[0]);
}

/// The fitted heights add up to the target, and none is below its minimum that was not
/// preferred to be.
pub proof fn fitted_heights_are_exact(preferred: Seq<int>, minimum: Seq<int>, target: int)
    requires
        preferred.len() == 4,
        minimum.len() == 4,
    ensures
        fitted(preferred, minimum, target).len() == 4,
        total(fitted(preferred, minimum, target)) == max_of(target, total(minimum)),
        forall|i: int|
            0 <= i < 4 && preferred[i] >= minimum[i] ==> #[trigger] fitted(
                preferred,
                minimum,
                target,
            )[i] >= minimum[i],
{
    let goal = max_of(target, total(minimum));
    let result = fitted(preferred, minimum, target);
    if goal >= total(preferred) {
        let extra = goal - total(preferred);
        lemma_total_four(preferred);
        lemma_total_four(result);
        assert(4 * (extra / 4) + extra % 4 == extra);
        assert forall|i: int| 0 <= i < 4 && preferred[i] >= minimum[i] implies #[trigger] result[i]
            >= minimum[i] by {}
    } else {
        shrinking_is_exact(preferred, minimum, total(preferred) - goal);
    }
}

spec fn longs(heights: [i64; 4]) -> Seq<int> {
    heights@.map_values(|height: i64| height as int)
}

/// Heights that an exact computation may pass through.
spec fn moderate(heights: Seq<int>) -> bool {
    &&& heights.len() == 4
    &&& forall|i: int| 0 <= i < 4 ==> fits_i32(#[trigger] heights[i])
}

proof fn lemma_active_four(heights: Seq<int>, minimum: Seq<int>)
    requires
        heights.len() == 4,
        minimum.len() == 4,
    ensures
        active_count(heights, minimum) == (if heights[0] > minimum[0] {
            1int
        } else {
            0
        }) + (if heights[1] > minimum[1] {
            1int
        } else {
            0
        }) + (if heights[2] > minimum[2] {
            1int
        } else {
            0
        }) + (if heights[3] > minimum[3] {
            1int
        } else {
            0
        }),
{
    reveal_with_fuel(active_count, 5);
    assert(heights.drop_last().last() == heights[2]);
    assert(heights.drop_last().drop_last().last() == heights[1]);
    assert(heights.drop_last().drop_last().drop_last().last() == heights[0]);
    assert(minimum.drop_last().last() == minimum[2]);
    assert(minimum.drop_last().drop_last().last() == minimum[1]);
    assert(minimum.drop_last().drop_last().drop_last().last() == minimum[0]);
}

fn count_active(heights: &[i64; 4], minimum: &[i64; 4]) -> (active: i64)
    ensures
        active == active_count(longs(*heights), longs(*minimum)),
        0 <= active <= 4,
{
    proof {
        lemma_active_four(longs(*heights), longs(*minimum));
    }
    (if heights[0] > minimum[0] {
        1
    } else {
        0
    }) + (if heights[1] > minimum[1] {
        1
    } else {
        0
    }) + (if heights[2] > minimum[2] {
        1
    } else {
        0
    }) + (if heights[3] > minimum[3] {
        1
    } else {
        0
    })
}

/// One round of giving up height; returns what remains.
fn run_round(heights: &mut [i64; 4], minimum: &[i64; 4], share: i64, remaining: i64) -> (left: i64)
    requires
        moderate(longs(*old(heights))),
        moderate(longs(*minimum)),
        1 <= share <= 0x10_0000_0000,
        0 < remaining <= 0x10_0000_0000,
    ensures
        after_round(longs(*old(heights)), longs(*minimum), share as int, remaining as int, 0) == (
            longs(*final(heights)),
            left as int,
        ),
        moderate(longs(*final(heights))),
{
    let ghost start = longs(*heights);
    let mut left: i64 = remaining;
    let mut index: usize = 0;
    while index < 4 && left != 0
        invariant
            0 <= index <= 4,
            moderate(longs(*heights)),
            moderate(longs(*minimum)),
            1 <= share <= 0x10_0000_0000,
            0 <= left <= 0x10_0000_0000 + index * 0x1_0000_0000,
            after_round(start, longs(*minimum), share as int, remaining as int, 0) == after_round(
                longs(*heights),
                longs(*minimum),
                share as int,
                left as int,
                index as int,
            ),
        decreases 4 - index,
    {
        let ghost before = longs(*heights);
        let height: i64 = heights[index];
        assert(before[index as int] == height);
        assert(longs(*minimum)[index as int] == minimum[index as int]);
        let given: i64 = min_i64(min_i64(height - minimum[index], share), left);
        heights[index] = height - given;
        assert(longs(*heights) =~= before.update(index as int, height - given));
        left = left - given;
        index = index + 1;
    }
    left
}

/// Gives up `remaining` in rounds.
fn shrink(heights: [i64; 4], minimum: &[i64; 4], remaining: i64) -> (result: [i64; 4])
    requires
        moderate(longs(heights)),
        moderate(longs(*minimum)),
        0 <= remaining <= total(longs(heights)) - total(longs(*minimum)),
    ensures
        longs(result) == shrunk(longs(heights), longs(*minimum), remaining as int),
        moderate(longs(result)),
{
    let ghost start = longs(heights);
    let mut result = heights;
    let mut left: i64 = remaining;
    proof {
        lemma_total_four(start);
        lemma_total_four(longs(*minimum));
    }
    loop
        invariant
            moderate(longs(result)),
            moderate(longs(*minimum)),
            0 <= left <= total(longs(result)) - total(longs(*minimum)),
            left <= 0x8_0000_0000,
            shrunk(start, longs(*minimum), remaining as int) == shrunk(
                longs(result),
                longs(*minimum),
                left as int,
            ),
        ensures
            moderate(longs(result)),
            longs(result) == shrunk(start, longs(*minimum), remaining as int),
        decreases below_count(longs(result), longs(*minimum)), excess(
            longs(result),
            longs(*minimum),
        ),
    {
        let active: i64 = count_active(&result, minimum);
        if left == 0 || active == 0 {
            break;
        }
        let ghost before = longs(result);
        let ghost bound = longs(*minimum);
        let share: i64 = max_i64((left + active - 1) / active, 1);
        assert(share == share_of(left as int, active as int));
        assert((left + active - 1) / active as int <= left + active - 1) by (nonlinear_arith)
            requires
                active >= 1,
                left >= 0,
        ;
        proof {
            lemma_round(before, bound, share as int, left as int, 0);
        }
        let given_up_to: i64 = left;
        left = run_round(&mut result, minimum, share, given_up_to);
        proof {
            lemma_total_four(longs(result));
            lemma_total_four(bound);
            if left != 0 {
                lemma_no_round_lowers(before, longs(result), bound, share as int);
            }
        }
        if left == 0 {
            break;
        }
    }
    result
}

/// Shares `target_total` out among four graphs.
///
/// What is left above the preferred heights is spread evenly; what is missing is taken off
/// evenly, down to the minimums.
pub fn fit_graph_heights(preferred: [i32; 4], minimum: [i32; 4], target_total: i32) -> (heights: [i32;
    4])
    requires
        forall|i: int|
            0 <= i < 4 ==> fits_i32(
                #[trigger] fitted(ints(preferred), ints(minimum), target_total as int)[i],
            ),
    ensures
        ints(heights) == fitted(ints(preferred), ints(minimum), target_total as int),
{
    let wide: [i64; 4] = [
        preferred[0] as i64,
        preferred[1] as i64,
        preferred[2] as i64,
        preferred[3] as i64,
    ];
    let least: [i64; 4] = [
        minimum[0] as i64,
        minimum[1] as i64,
        minimum[2] as i64,
        minimum[3] as i64,
    ];
    assert(longs(wide) =~= ints(preferred));
    assert(longs(least) =~= ints(minimum));
    proof {
        lemma_total_four(ints(preferred));
        lemma_total_four(ints(minimum));
    }
    let preferred_total: i64 = wide[0] + wide[1] + wide[2] + wide[3];
    let minimum_total: i64 = least[0] + least[1] + least[2] + least[3];
    let target: i64 = max_i64(target_total as i64, minimum_total);
    let ghost goal = fitted(ints(preferred), ints(minimum), target_total as int);
    if target >= preferred_total {
        let extra: i64 = target - preferred_total;
        let per_graph: i64 = extra / 4;
        let remainder: i64 = extra % 4;
        let first: i64 = wide[0] + per_graph + if 0 < remainder {
            1
        } else {
            0
        };
        let second: i64 = wide[1] + per_graph + if 1 < remainder {
            1
        } else {
            0
        };
        let third: i64 = wide[2] + per_graph + if 2 < remainder {
            1
        } else {
            0
        };
        let fourth: i64 = wide[3] + per_graph;
        assert(goal[0] == first && goal[1] == second && goal[2] == third && goal[3] == fourth);
        let heights: [i32; 4] = [first as i32, second as i32, third as i32, fourth as i32];
        assert(ints(heights) =~= goal);
        heights
    } else {
        let result = shrink(wide, &least, preferred_total - target);
        assert(longs(result) == goal);
        assert(goal[0] == result[0] && goal[1] == result[1] && goal[2] == result[2] && goal[3]
            == result[3]);
        let heights: [i32; 4] = [
            result[0] as i32,
            result[1] as i32,
            result[2] as i32,
            result[3] as i32,
        ];
        assert(ints(heights) =~= goal);
        heights
    }
}

} // verus!
