//! The order of the rows of the process list.
use std::cmp::Ordering;

use vstd::prelude::*;

use super::columns::ColumnId;
use super::model::{
    ProcEntry, ProcFacts, ABOVE_NORMAL_PRIORITY_CLASS, BELOW_NORMAL_PRIORITY_CLASS,
    HIGH_PRIORITY_CLASS, NORMAL_PRIORITY_CLASS, REALTIME_PRIORITY_CLASS,
};
use crate::text::{is_text_before, lemma_text_order, lemma_text_order_chain, text_before};

verus! {

/// How urgent a priority class is.
pub open spec fn rank_of_priority(priority_class: u32) -> int {
    if priority_class == REALTIME_PRIORITY_CLASS {
        5
    } else if priority_class == HIGH_PRIORITY_CLASS {
        4
    } else if priority_class == ABOVE_NORMAL_PRIORITY_CLASS {
        3
    } else if priority_class == NORMAL_PRIORITY_CLASS {
        2
    } else if priority_class == BELOW_NORMAL_PRIORITY_CLASS {
        1
    } else {
        0
    }
}

fn priority_rank(priority_class: u32) -> (rank: u8)
    ensures
        rank == rank_of_priority(priority_class),
{
    if priority_class == REALTIME_PRIORITY_CLASS {
        5
    } else if priority_class == HIGH_PRIORITY_CLASS {
        4
    } else if priority_class == ABOVE_NORMAL_PRIORITY_CLASS {
        3
    } else if priority_class == NORMAL_PRIORITY_CLASS {
        2
    } else if priority_class == BELOW_NORMAL_PRIORITY_CLASS {
        1
    } else {
        0
    }
}

/// What rows are ordered by: a number, or a text where a column has texts.
pub enum SortKey {
    Number(int),
    Text(Seq<char>),
}

pub open spec fn sort_key(facts: ProcFacts, column: ColumnId) -> SortKey {
    match column {
        ColumnId::ImageName => SortKey::Text(facts.image_name_lower),
        ColumnId::Pid => SortKey::Number(facts.pid as int),
        ColumnId::Username => SortKey::Text(facts.user_name_lower),
        ColumnId::SessionId => SortKey::Number(
            match facts.session_id {
                Some(session) => session as int,
                None => -1,
            },
        ),
        ColumnId::Cpu => SortKey::Number(facts.cpu as int),
        ColumnId::CpuTime => SortKey::Number(facts.cpu_time_100ns as int),
        ColumnId::MemUsage => SortKey::Number(facts.mem_usage_kb as int),
        ColumnId::MemUsageDiff => SortKey::Number(facts.mem_diff_kb as int),
        ColumnId::PageFaults => SortKey::Number(facts.page_faults as int),
        ColumnId::PageFaultsDiff => SortKey::Number(facts.page_faults_diff as int),
        ColumnId::CommitCharge => SortKey::Number(facts.commit_charge_kb as int),
        ColumnId::PagedPool => SortKey::Number(facts.paged_pool_kb as int),
        ColumnId::NonPagedPool => SortKey::Number(facts.nonpaged_pool_kb as int),
        ColumnId::BasePriority => SortKey::Number(rank_of_priority(facts.priority_class)),
        ColumnId::HandleCount => SortKey::Number(facts.handle_count as int),
        ColumnId::ThreadCount => SortKey::Number(facts.thread_count as int),
    }
}

pub open spec fn key_before(a: SortKey, b: SortKey) -> bool {
    match (a, b) {
        (SortKey::Number(left), SortKey::Number(right)) => left < right,
        (SortKey::Text(left), SortKey::Text(right)) => text_before(left, right),
        _ => false,
    }
}

/// Whether one row stands above another. Rows with equal keys are ordered by their process
/// identifiers; a negative direction turns the whole order round.
pub open spec fn row_before(
    left: ProcFacts,
    right: ProcFacts,
    column: ColumnId,
    direction: i32,
) -> bool {
    let (a, b) = (sort_key(left, column), sort_key(right, column));
    if a == b {
        if direction < 0 {
            left.pid > right.pid
        } else {
            left.pid < right.pid
        }
    } else if direction < 0 {
        key_before(b, a)
    } else {
        key_before(a, b)
    }
}

fn number_key(entry: &ProcEntry, column: ColumnId) -> (key: i128)
    requires
        column != ColumnId::ImageName,
        column != ColumnId::Username,
    ensures
        sort_key(entry.facts(), column) == SortKey::Number(key as int),
{
    match column {
        ColumnId::Pid => entry.pid as i128,
        ColumnId::SessionId => match entry.session_id {
            Some(session) => session as i128,
            None => -1,
        },
        ColumnId::Cpu => entry.cpu as i128,
        ColumnId::CpuTime => entry.cpu_time_100ns as i128,
        ColumnId::MemUsage => entry.mem_usage_kb as i128,
        ColumnId::MemUsageDiff => entry.mem_diff_kb as i128,
        ColumnId::PageFaults => entry.page_faults as i128,
        ColumnId::PageFaultsDiff => entry.page_faults_diff as i128,
        ColumnId::CommitCharge => entry.commit_charge_kb as i128,
        ColumnId::PagedPool => entry.paged_pool_kb as i128,
        ColumnId::NonPagedPool => entry.nonpaged_pool_kb as i128,
        ColumnId::BasePriority => priority_rank(entry.priority_class) as i128,
        ColumnId::HandleCount => entry.handle_count as i128,
        ColumnId::ThreadCount => entry.thread_count as i128,
        ColumnId::ImageName | ColumnId::Username => 0,
    }
}

fn is_key_before(left: &ProcEntry, right: &ProcEntry, column: ColumnId) -> (before: bool)
    ensures
        before == key_before(sort_key(left.facts(), column), sort_key(right.facts(), column)),
{
    match column {
        ColumnId::ImageName => is_text_before(
            left.image_name_lower.as_str(),
            right.image_name_lower.as_str(),
        ),
        ColumnId::Username => is_text_before(
            left.user_name_lower.as_str(),
            right.user_name_lower.as_str(),
        ),
        _ => number_key(left, column) < number_key(right, column),
    }
}

/// Keys of one column are equal, or exactly one of them comes before the other.
proof fn lemma_keys(a: SortKey, b: SortKey)
    requires
        a is Number == b is Number,
    ensures
        a == b || key_before(a, b) || key_before(b, a),
        !(key_before(a, b) && key_before(b, a)),
        key_before(a, b) ==> a != b,
{
    match (a, b) {
        (SortKey::Text(left), SortKey::Text(right)) => {
            lemma_text_order(left, right);
            lemma_text_order(right, left);
        },
        _ => {},
    }
}

proof fn lemma_key_kinds(left: ProcFacts, right: ProcFacts, column: ColumnId)
    ensures
        sort_key(left, column) is Number == sort_key(right, column) is Number,
{
}

/// Whether the left row stands above the right one.
fn stands_before(
    left: &ProcEntry,
    right: &ProcEntry,
    sort_column: ColumnId,
    sort_direction: i32,
) -> (before: bool)
    ensures
        before == row_before(left.facts(), right.facts(), sort_column, sort_direction),
{
    let forward = is_key_before(left, right, sort_column);
    let backward = is_key_before(right, left, sort_column);
    proof {
        lemma_key_kinds(left.facts(), right.facts(), sort_column);
        lemma_keys(
            sort_key(left.facts(), sort_column),
            sort_key(right.facts(), sort_column),
        );
    }
    if !forward && !backward {
        if sort_direction < 0 {
            left.pid > right.pid
        } else {
            left.pid < right.pid
        }
    } else if sort_direction < 0 {
        backward
    } else {
        forward
    }
}

/// Compares two rows in the order of the list.
pub fn compare_entries(
    left: &ProcEntry,
    right: &ProcEntry,
    sort_column: ColumnId,
    sort_direction: i32,
) -> (ordering: Ordering)
    ensures
        (ordering == Ordering::Less) == row_before(
            left.facts(),
            right.facts(),
            sort_column,
            sort_direction,
        ),
        (ordering == Ordering::Greater) == row_before(
            right.facts(),
            left.facts(),
            sort_column,
            sort_direction,
        ),
{
    proof {
        rows_are_ordered(left.facts(), right.facts(), sort_column, sort_direction);
    }
    if stands_before(left, right, sort_column, sort_direction) {
        Ordering::Less
    } else if stands_before(right, left, sort_column, sort_direction) {
        Ordering::Greater
    } else {
        Ordering::Equal
    }
}

/// Of two rows at most one stands above the other; neither does only if they agree in the
/// column and in the process identifier. Turning the direction round turns the order round.
pub proof fn rows_are_ordered(
    left: ProcFacts,
    right: ProcFacts,
    column: ColumnId,
    direction: i32,
)
    ensures
        !(row_before(left, right, column, direction) && row_before(right, left, column, direction)),
        row_before(left, right, column, direction) || row_before(right, left, column, direction)
            || (left.pid == right.pid && sort_key(left, column) == sort_key(right, column)),
        direction >= 0 ==> row_before(left, right, column, (-1) as i32) == row_before(
            right,
            left,
            column,
            direction,
        ),
{
    lemma_key_kinds(left, right, column);
    lemma_keys(sort_key(left, column), sort_key(right, column));
    lemma_keys(sort_key(right, column), sort_key(left, column));
}

/// The order of rows is transitive.
pub proof fn row_order_is_transitive(
    a: ProcFacts,
    b: ProcFacts,
    c: ProcFacts,
    column: ColumnId,
    direction: i32,
)
    requires
        row_before(a, b, column, direction),
        row_before(b, c, column, direction),
    ensures
        row_before(a, c, column, direction),
{
    let (x, y, z) = (sort_key(a, column), sort_key(b, column), sort_key(c, column));
    lemma_key_kinds(a, b, column);
    lemma_key_kinds(b, c, column);
    lemma_keys(x, y);
    lemma_keys(y, z);
    lemma_keys(x, z);
    lemma_keys(z, x);
    match (x, y, z) {
        (SortKey::Text(p), SortKey::Text(q), SortKey::Text(r)) => {
            if direction < 0 {
                if text_before(r, q) && text_before(q, p) {
                    lemma_text_order_chain(r, q, p);
                }
            } else if text_before(p, q) && text_before(q, r) {
                lemma_text_order_chain(p, q, r);
            }
        },
        _ => {},
    }
}

/// Where a row goes among sorted ones: behind every row that does not stand below it.
pub open spec fn place_among(
    sorted: Seq<ProcEntry>,
    entry: ProcEntry,
    column: ColumnId,
    direction: i32,
) -> int
    decreases sorted.len(),
{
    if sorted.len() == 0 {
        0
    } else if row_before(entry.facts(), sorted.last().facts(), column, direction) {
        place_among(sorted.drop_last(), entry, column, direction)
    } else {
        sorted.len() as int
    }
}

/// The rows in the order of the list. Rows that compare equal keep their order.
pub open spec fn in_order(entries: Seq<ProcEntry>, column: ColumnId, direction: i32) -> Seq<
    ProcEntry,
>
    decreases entries.len(),
{
    if entries.len() == 0 {
        entries
    } else {
        let sorted = in_order(entries.drop_last(), column, direction);
        sorted.insert(place_among(sorted, entries.last(), column, direction), entries.last())
    }
}

proof fn lemma_place(
    sorted: Seq<ProcEntry>,
    entry: ProcEntry,
    column: ColumnId,
    direction: i32,
)
    ensures
        0 <= place_among(sorted, entry, column, direction) <= sorted.len(),
        forall|i: int|
            place_among(sorted, entry, column, direction) <= i < sorted.len() ==> row_before(
                entry.facts(),
                (#[trigger] sorted[i]).facts(),
                column,
                direction,
            ),
        place_among(sorted, entry, column, direction) > 0 ==> !row_before(
            entry.facts(),
            sorted[place_among(sorted, entry, column, direction) - 1].facts(),
            column,
            direction,
        ),
    decreases sorted.len(),
{
    if sorted.len() > 0 && row_before(entry.facts(), sorted.last().facts(), column, direction) {
        lemma_place(sorted.drop_last(), entry, column, direction);
        let at = place_among(sorted, entry, column, direction);
        assert forall|i: int| at <= i < sorted.len() implies row_before(
            entry.facts(),
            (#[trigger] sorted[i]).facts(),
            column,
            direction,
        ) by {
            if i < sorted.len() - 1 {
                assert(sorted.drop_last()[i] == sorted[i]);
            }
        }
    }
}

proof fn lemma_in_order_len(entries: Seq<ProcEntry>, column: ColumnId, direction: i32)
    ensures
        in_order(entries, column, direction).len() == entries.len(),
    decreases entries.len(),
{
    if entries.len() > 0 {
        lemma_in_order_len(entries.drop_last(), column, direction);
        lemma_place(
            in_order(entries.drop_last(), column, direction),
            entries.last(),
            column,
            direction,
        );
    }
}

/// Sorts the rows.
pub fn sort_entries(entries: &mut Vec<ProcEntry>, sort_column: ColumnId, sort_direction: i32)
    ensures
        final(entries)@ == in_order(old(entries)@, sort_column, sort_direction),
{
    let ghost given = entries@;
    let count: usize = entries.len();
    assert(in_order(given.take(0), sort_column, sort_direction) =~= given.take(0));
    assert(entries@ =~= in_order(given.take(0), sort_column, sort_direction) + given.skip(0));
    for index in 0..count
        invariant
            count == given.len(),
            entries@.len() == count,
            entries@ == in_order(given.take(index as int), sort_column, sort_direction)
                + given.skip(index as int),
            in_order(given.take(index as int), sort_column, sort_direction).len() == index,
    {
        let ghost sorted = in_order(given.take(index as int), sort_column, sort_direction);
        let ghost entry = given[index as int];
        let ghost place = place_among(sorted, entry, sort_column, sort_direction);
        assert(entries@[index as int] == entry);
        let mut at: usize = index;
        assert(sorted.take(index as int) =~= sorted);
        while at > 0 && stands_before(
            &entries[index],
            &entries[at - 1],
            sort_column,
            sort_direction,
        )
            invariant
                at <= index,
                index < entries@.len(),
                entries@[index as int] == entry,
                sorted.len() == index,
                forall|i: int| 0 <= i < index ==> entries@[i] == #[trigger] sorted[i],
                place_among(sorted, entry, sort_column, sort_direction) == place_among(
                    sorted.take(at as int),
                    entry,
                    sort_column,
                    sort_direction,
                ),
            decreases at,
        {
            assert(sorted.take(at as int).drop_last() =~= sorted.take(at - 1));
            assert(sorted.take(at as int).last() == sorted[at - 1]);
            at = at - 1;
        }
        proof {
            if at > 0 {
                assert(sorted.take(at as int).last() == sorted[at - 1]);
            }
            assert(at == place);
            assert(given.take(index + 1).drop_last() =~= given.take(index as int));
            lemma_in_order_len(given.take(index + 1), sort_column, sort_direction);
        }
        let moved = entries.remove(index);
        entries.insert(at, moved);
        assert(entries@ =~= sorted.insert(place, entry) + given.skip(index + 1));
    }
    assert(given.take(count as int) =~= given);
    assert(entries@ =~= in_order(given, sort_column, sort_direction));
}

/// The rows of the list stand in order, and they are the rows that were given.
pub proof fn sorted_rows_are_in_order(entries: Seq<ProcEntry>, column: ColumnId, direction: i32)
    ensures
        ({
            let sorted = in_order(entries, column, direction);
            &&& sorted.to_multiset() == entries.to_multiset()
            &&& forall|i: int, j: int|
                0 <= i < j < sorted.len() ==> !row_before(
                    (#[trigger] sorted[j]).facts(),
                    (#[trigger] sorted[i]).facts(),
                    column,
                    direction,
                )
        }),
    decreases entries.len(),
{
    if entries.len() > 0 {
        let shorter = entries.drop_last();
        let entry = entries.last();
        let before = in_order(shorter, column, direction);
        let at = place_among(before, entry, column, direction);
        let sorted = in_order(entries, column, direction);
        sorted_rows_are_in_order(shorter, column, direction);
        lemma_place(before, entry, column, direction);
        vstd::seq_lib::to_multiset_insert(before, at, entry);
        shorter.to_multiset_ensures();
        assert(entries =~= shorter.push(entry));
        assert forall|i: int, j: int| 0 <= i < j < sorted.len() implies !row_before(
            (#[trigger] sorted[j]).facts(),
            (#[trigger] sorted[i]).facts(),
            column,
            direction,
        ) by {
            let a = if i < at { i } else { i - 1 };
            let b = if j < at { j } else { j - 1 };
            if i != at {
                assert(sorted[i] == before[a]);
            }
            if j != at {
                assert(sorted[j] == before[b]);
            }
            if i == at {
                rows_are_ordered(entry.facts(), before[b].facts(), column, direction);
            } else if j == at {
                if row_before(entry.facts(), before[a].facts(), column, direction) && a < at - 1 {
                    assert(!row_before(
                        before[at - 1].facts(),
                        before[a].facts(),
                        column,
                        direction,
                    ));
                    lemma_not_below(
                        entry.facts(),
                        before[at - 1].facts(),
                        before[a].facts(),
                        column,
                        direction,
                    );
                }
            }
        }
    }
}

/// A row that does not stand above the second does not stand above the first, which the second
/// does not stand above either.
proof fn lemma_not_below(
    entry: ProcFacts,
    second: ProcFacts,
    first: ProcFacts,
    column: ColumnId,
    direction: i32,
)
    requires
        !row_before(entry, second, column, direction),
        !row_before(second, first, column, direction),
    ensures
        !row_before(entry, first, column, direction),
{
    if row_before(entry, first, column, direction) {
        rows_are_ordered(entry, second, column, direction);
        rows_are_ordered(second, first, column, direction);
        if row_before(second, entry, column, direction) {
            row_order_is_transitive(second, entry, first, column, direction);
        }
    }
}

} // verus!
