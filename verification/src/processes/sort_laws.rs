//! What a sorted list looks like in the column that it is sorted by.
use vstd::prelude::*;

use super::columns::ColumnId;
use super::model::{
    ProcEntry, ABOVE_NORMAL_PRIORITY_CLASS, BELOW_NORMAL_PRIORITY_CLASS, HIGH_PRIORITY_CLASS,
    NORMAL_PRIORITY_CLASS, REALTIME_PRIORITY_CLASS,
};
use super::sort::{in_order, row_before, rows_are_ordered, sorted_rows_are_in_order};
use crate::text::{lemma_text_order, text_before};

verus! {

/// Whether the second priority class is at least as urgent as the first. A class without a name
/// of its own is less urgent than every other.
pub open spec fn at_least_as_urgent(first: u32, second: u32) -> bool {
    let realtime = second == REALTIME_PRIORITY_CLASS;
    let high = realtime || second == HIGH_PRIORITY_CLASS;
    let above_normal = high || second == ABOVE_NORMAL_PRIORITY_CLASS;
    let normal = above_normal || second == NORMAL_PRIORITY_CLASS;
    let below_normal = normal || second == BELOW_NORMAL_PRIORITY_CLASS;
    &&& first == REALTIME_PRIORITY_CLASS ==> realtime
    &&& first == HIGH_PRIORITY_CLASS ==> high
    &&& first == ABOVE_NORMAL_PRIORITY_CLASS ==> above_normal
    &&& first == NORMAL_PRIORITY_CLASS ==> normal
    &&& first == BELOW_NORMAL_PRIORITY_CLASS ==> below_normal
}

/// Whether what a column shows does not decrease from one row to another.
pub open spec fn does_not_decrease(first: ProcEntry, second: ProcEntry, column: ColumnId) -> bool {
    match column {
        ColumnId::ImageName => first.image_name_lower@ == second.image_name_lower@ || text_before(
            first.image_name_lower@,
            second.image_name_lower@,
        ),
        ColumnId::Pid => first.pid <= second.pid,
        ColumnId::Username => first.user_name_lower@ == second.user_name_lower@ || text_before(
            first.user_name_lower@,
            second.user_name_lower@,
        ),
        ColumnId::SessionId => match (first.session_id, second.session_id) {
            (Some(left), Some(right)) => left <= right,
            (Some(_), None) => false,
            (None, _) => true,
        },
        ColumnId::Cpu => first.cpu <= second.cpu,
        ColumnId::CpuTime => first.cpu_time_100ns <= second.cpu_time_100ns,
        ColumnId::MemUsage => first.mem_usage_kb <= second.mem_usage_kb,
        ColumnId::MemUsageDiff => first.mem_diff_kb <= second.mem_diff_kb,
        ColumnId::PageFaults => first.page_faults <= second.page_faults,
        ColumnId::PageFaultsDiff => first.page_faults_diff <= second.page_faults_diff,
        ColumnId::CommitCharge => first.commit_charge_kb <= second.commit_charge_kb,
        ColumnId::PagedPool => first.paged_pool_kb <= second.paged_pool_kb,
        ColumnId::NonPagedPool => first.nonpaged_pool_kb <= second.nonpaged_pool_kb,
        ColumnId::BasePriority => at_least_as_urgent(first.priority_class, second.priority_class),
        ColumnId::HandleCount => first.handle_count <= second.handle_count,
        ColumnId::ThreadCount => first.thread_count <= second.thread_count,
    }
}

proof fn lemma_not_above(first: ProcEntry, second: ProcEntry, column: ColumnId, direction: i32)
    requires
        !row_before(second.facts(), first.facts(), column, direction),
    ensures
        direction >= 0 ==> does_not_decrease(first, second, column),
        direction < 0 ==> does_not_decrease(second, first, column),
        does_not_decrease(first, second, column) && does_not_decrease(second, first, column)
            ==> if direction
            < 0 {
            first.pid >= second.pid
        } else {
            first.pid <= second.pid
        },
{
    rows_are_ordered(first.facts(), second.facts(), column, direction);
    lemma_text_order(first.image_name_lower@, second.image_name_lower@);
    lemma_text_order(second.image_name_lower@, first.image_name_lower@);
    lemma_text_order(first.user_name_lower@, second.user_name_lower@);
    lemma_text_order(second.user_name_lower@, first.user_name_lower@);
}

/// After sorting by a column the values which that column itself shows do not decrease from row
/// to row, and do not increase where the direction is negative. Rows that show the same are
/// ordered by their process identifiers, in the same direction. No row is lost and none is added.
pub proof fn sorted_column_is_monotone(entries: Seq<ProcEntry>, column: ColumnId, direction: i32)
    ensures
        ({
            let sorted = in_order(entries, column, direction);
            &&& sorted.to_multiset() == entries.to_multiset()
            &&& forall|i: int, j: int|
                0 <= i < j < sorted.len() ==> if direction < 0 {
                    does_not_decrease(#[trigger] sorted[j], #[trigger] sorted[i], column)
                } else {
                    does_not_decrease(sorted[i], sorted[j], column)
                }
            &&& forall|i: int, j: int|
                0 <= i < j < sorted.len() && does_not_decrease(
                    #[trigger] sorted[i],
                    #[trigger] sorted[j],
                    column,
                ) && does_not_decrease(sorted[j], sorted[i], column) ==> if direction < 0 {
                    sorted[i].pid >= sorted[j].pid
                } else {
                    sorted[i].pid <= sorted[j].pid
                }
        }),
{
    sorted_rows_are_in_order(entries, column, direction);
    let sorted = in_order(entries, column, direction);
    assert forall|i: int, j: int| 0 <= i < j < sorted.len() implies ({
        &&& if direction < 0 {
            does_not_decrease(#[trigger] sorted[j], #[trigger] sorted[i], column)
        } else {
            does_not_decrease(sorted[i], sorted[j], column)
        }
        &&& does_not_decrease(sorted[i], sorted[j], column) && does_not_decrease(
            sorted[j],
            sorted[i],
            column,
        ) ==> if direction < 0 {
            sorted[i].pid >= sorted[j].pid
        } else {
            sorted[i].pid <= sorted[j].pid
        }
    }) by {
        lemma_not_above(sorted[i], sorted[j], column, direction);
    }
}

/// Sorting rows that are sorted changes nothing.
pub proof fn sorting_again_changes_nothing(
    entries: Seq<ProcEntry>,
    column: ColumnId,
    direction: i32,
)
    ensures
        in_order(in_order(entries, column, direction), column, direction) == in_order(
            entries,
            column,
            direction,
        ),
{
    sorted_rows_are_in_order(entries, column, direction);
    lemma_sorted_stays(in_order(entries, column, direction), column, direction);
}

proof fn lemma_sorted_stays(sorted: Seq<ProcEntry>, column: ColumnId, direction: i32)
    requires
        forall|i: int, j: int|
            0 <= i < j < sorted.len() ==> !row_before(
                (#[trigger] sorted[j]).facts(),
                (#[trigger] sorted[i]).facts(),
                column,
                direction,
            ),
    ensures
        in_order(sorted, column, direction) == sorted,
    decreases sorted.len(),
{
    if sorted.len() > 0 {
        let front = sorted.drop_last();
        assert forall|i: int, j: int| 0 <= i < j < front.len() implies !row_before(
            (#[trigger] front[j]).facts(),
            (#[trigger] front[i]).facts(),
            column,
            direction,
        ) by {
            assert(front[i] == sorted[i] && front[j] == sorted[j]);
        }
        lemma_sorted_stays(front, column, direction);
        if front.len() > 0 {
            let (last, before) = (sorted[sorted.len() - 1], sorted[sorted.len() - 2]);
            assert(!row_before(last.facts(), before.facts(), column, direction));
            assert(front.last() == before);
        }
        assert(in_order(sorted, column, direction) =~= sorted);
    }
}

} // verus!
