//! How a new sample of all processes is taken over into the rows of the list.
use vstd::prelude::*;

use super::columns::{column_set, no_columns, ColumnId, DirtyColumns};
use super::model::{
    changed_columns, column_changed, column_display, lemma_nothing_changed, refreshed,
    update_process_entry, ProcEntry, ProcFacts,
};
use super::sort::{in_order, sort_entries};
use crate::process_identity::ProcIdentity;

verus! {

/// A row of the list: who it is, what was sampled, the text of each column, the columns that
/// have to be drawn, and the pass in which it was last seen.
pub struct RowView {
    pub identity: ProcIdentity,
    pub facts: ProcFacts,
    pub shown: spec_fn(ColumnId) -> Seq<char>,
    pub dirty: DirtyColumns,
    pub pass: u64,
}

impl View for ProcEntry {
    type V = RowView;

    open spec fn view(&self) -> RowView {
        RowView {
            identity: self.identity,
            facts: self.facts(),
            shown: |column: ColumnId| self.shown(column),
            dirty: self.dirty_columns,
            pass: self.pass_count,
        }
    }
}

pub open spec fn rows_of(entries: Seq<ProcEntry>) -> Seq<RowView> {
    entries.map_values(|entry: ProcEntry| entry@)
}

/// A row after a new sample of the same process.
pub open spec fn updated_row(
    row: RowView,
    sample: ProcFacts,
    pass: u64,
    visible: DirtyColumns,
) -> RowView {
    let facts = refreshed(row.facts, sample);
    RowView {
        identity: row.identity,
        facts,
        shown: |column: ColumnId|
            if column_changed(row.facts, sample, column) && visible.has(column) && column
                != ColumnId::BasePriority {
                column_display(facts, column)
            } else {
                (row.shown)(column)
            },
        dirty: row.dirty.joined(changed_columns(row.facts, sample).common(visible)),
        pass,
    }
}

/// A row for a process that was not there before.
pub open spec fn added_row(
    row: RowView,
    pass: u64,
    visible: DirtyColumns,
) -> RowView {
    RowView {
        identity: row.identity,
        facts: row.facts,
        shown: |column: ColumnId|
            if visible.has(column) && column != ColumnId::BasePriority {
                column_display(row.facts, column)
            } else {
                (row.shown)(column)
            },
        dirty: visible,
        pass,
    }
}

/// The last of the first `count` rows with an identity, if there is one.
pub open spec fn row_index(rows: Seq<RowView>, count: int, identity: ProcIdentity) -> Option<int>
    decreases count,
{
    if count <= 0 {
        None
    } else if rows[count - 1].identity == identity {
        Some(count - 1)
    } else {
        row_index(rows, count - 1, identity)
    }
}

/// The rows while a sample is taken over, and whether they have to be sorted again.
pub struct MergedRows {
    pub rows: Seq<RowView>,
    pub sort_dirty: bool,
}

/// The rows after one process of a sample. Only rows that were there before the sample are
/// brought up to date by it.
pub open spec fn with_process(
    merged: MergedRows,
    count: int,
    sample: RowView,
    pass: u64,
    visible: DirtyColumns,
    sort_column: ColumnId,
) -> MergedRows {
    match row_index(merged.rows, count, sample.identity) {
        Some(index) => MergedRows {
            rows: merged.rows.update(
                index,
                updated_row(merged.rows[index], sample.facts, pass, visible),
            ),
            sort_dirty: merged.sort_dirty || column_changed(
                merged.rows[index].facts,
                sample.facts,
                sort_column,
            ),
        },
        None => MergedRows {
            rows: merged.rows.push(added_row(sample, pass, visible)),
            sort_dirty: true,
        },
    }
}

pub open spec fn with_processes(
    rows: Seq<RowView>,
    samples: Seq<RowView>,
    pass: u64,
    visible: DirtyColumns,
    sort_column: ColumnId,
) -> MergedRows
    decreases samples.len(),
{
    if samples.len() == 0 {
        MergedRows { rows, sort_dirty: false }
    } else {
        with_process(
            with_processes(rows, samples.drop_last(), pass, visible, sort_column),
            rows.len() as int,
            samples.last(),
            pass,
            visible,
            sort_column,
        )
    }
}

pub open spec fn seen_in(rows: Seq<RowView>, pass: u64) -> Seq<RowView> {
    rows.filter(|row: RowView| row.pass == pass)
}

/// The rows after a sample, before they are sorted: rows of processes that are gone are dropped.
pub open spec fn merged_rows(
    rows: Seq<RowView>,
    samples: Seq<RowView>,
    pass: u64,
    visible: DirtyColumns,
    sort_column: ColumnId,
) -> MergedRows {
    let merged = with_processes(rows, samples, pass, visible, sort_column);
    let kept = seen_in(merged.rows, pass);
    MergedRows {
        rows: kept,
        sort_dirty: merged.sort_dirty || kept.len() != merged.rows.len(),
    }
}

fn find_row(entries: &Vec<ProcEntry>, count: usize, identity: ProcIdentity) -> (index: Option<
    usize,
>)
    requires
        count <= entries@.len(),
    ensures
        match index {
            Some(at) => at < count && row_index(rows_of(entries@), count as int, identity) == Some(
                at as int,
            ),
            None => row_index(rows_of(entries@), count as int, identity) is None,
        },
{
    let ghost rows = rows_of(entries@);
    let mut at: usize = count;
    while at > 0
        invariant
            at <= count <= entries@.len(),
            rows == rows_of(entries@),
            row_index(rows, count as int, identity) == row_index(rows, at as int, identity),
        decreases at,
    {
        assert(rows[at - 1].identity == entries@[at - 1].identity);
        if entries[at - 1].identity == identity {
            return Some(at - 1);
        }
        at = at - 1;
    }
    None
}

/// Drops the rows that were not seen in a pass; tells whether there were any.
fn remove_stale_entries(entries: &mut Vec<ProcEntry>, current_pass: u64) -> (removed: bool)
    ensures
        rows_of(final(entries)@) == seen_in(rows_of(old(entries)@), current_pass),
        removed == (final(entries)@.len() != old(entries)@.len()),
{
    let ghost given = entries@;
    let ghost seen = |row: RowView| row.pass == current_pass;
    let count: usize = entries.len();
    let mut kept: usize = 0;
    proof {
        reveal(Seq::filter);
        assert(rows_of(given.take(0)).filter(seen) =~= Seq::<RowView>::empty());
        assert(entries@.take(0) =~= Seq::<ProcEntry>::empty());
        assert(rows_of(entries@.take(0)) =~= Seq::<RowView>::empty());
        assert(entries@.skip(0) =~= given.skip(0));
    }
    for index in 0..count
        invariant
            seen == (|row: RowView| row.pass == current_pass),
            count == given.len(),
            kept <= index,
            entries@.len() == count - index + kept,
            entries@.skip(kept as int) == given.skip(index as int),
            rows_of(entries@.take(kept as int)) == rows_of(given.take(index as int)).filter(seen),
    {
        let ghost before = entries@;
        let ghost tail = entries@.skip(kept as int);
        proof {
            reveal(Seq::filter);
            assert(entries@[kept as int] == entries@.skip(kept as int)[0]);
            let upto = rows_of(given.take(index + 1));
            assert(upto.drop_last() =~= rows_of(given.take(index as int)));
            assert(upto.last() == given[index as int]@);
        }
        if entries[kept].pass_count == current_pass {
            kept = kept + 1;
            proof {
                assert(entries@.take(kept as int) =~= before.take(kept - 1).push(
                    given[index as int],
                ));
                assert(rows_of(entries@.take(kept as int)) =~= rows_of(before.take(kept - 1)).push(
                    given[index as int]@,
                ));
            }
        } else {
            entries.remove(kept);
            assert(entries@.take(kept as int) =~= before.take(kept as int));
        }
        proof {
            let shorter = entries@.skip(kept as int);
            assert(shorter =~= tail.skip(1)) by {
                assert forall|i: int| 0 <= i < shorter.len() implies shorter[i] == tail[i + 1] by {}
            }
            assert(given.skip(index as int).skip(1) =~= given.skip(index + 1));
        }
    }
    proof {
        assert(given.take(count as int) =~= given);
        assert(entries@.take(kept as int) =~= entries@);
    }
    entries.len() != count
}

/// Takes a sample over into the rows.
pub fn merge_snapshot(
    entries: &mut Vec<ProcEntry>,
    samples: Vec<ProcEntry>,
    current_pass: u64,
    active_columns: &Vec<ColumnId>,
    sort_column: ColumnId,
    sort_direction: i32,
)
    ensures
        ({
            let merged = merged_rows(
                rows_of(old(entries)@),
                rows_of(samples@),
                current_pass,
                column_set(active_columns@),
                sort_column,
            );
            exists|rows: Seq<ProcEntry>|
                #[trigger] rows_of(rows) == merged.rows && final(entries)@ == if merged.sort_dirty {
                    in_order(rows, sort_column, sort_direction)
                } else {
                    rows
                }
        }),
{
    let visible_columns = DirtyColumns::from_columns(active_columns.as_slice());
    let ghost start = rows_of(entries@);
    let ghost given = samples@;
    let existing: usize = entries.len();
    let count: usize = samples.len();
    let mut rest = samples;
    let mut sort_dirty = false;
    proof {
        assert(rows_of(given).take(0) =~= Seq::<RowView>::empty());
    }
    for index in 0..count
        invariant
            count == given.len(),
            rest@ == given.skip(index as int),
            existing == start.len(),
            existing <= entries@.len(),
            visible_columns == column_set(active_columns@),
            forall|column: ColumnId| #[trigger]
                visible_columns.has(column) <==> active_columns@.contains(column),
            ({
                let merged = with_processes(
                    start,
                    rows_of(given).take(index as int),
                    current_pass,
                    visible_columns,
                    sort_column,
                );
                rows_of(entries@) == merged.rows && sort_dirty == merged.sort_dirty
            }),
    {
        let ghost before = entries@;
        let ghost samples_before = rows_of(given).take(index as int);
        let sample = rest.remove(0);
        proof {
            assert(rest@ =~= given.skip(index + 1));
            assert(sample == given[index as int]);
            assert(rows_of(given).take(index + 1).drop_last() =~= samples_before);
            assert(rows_of(given).take(index + 1).last() == sample@);
        }
        match find_row(entries, existing, sample.identity) {
            Some(at) => {
                let changed = update_process_entry(
                    &mut entries[at],
                    &sample,
                    current_pass,
                    visible_columns,
                );
                if changed.contains(sort_column) {
                    sort_dirty = true;
                }
                proof {
                    let row = before[at as int];
                    let after = entries@[at as int];
                    let goal = updated_row(row@, sample.facts(), current_pass, visible_columns);
                    assert(after@.shown =~= goal.shown) by {
                        assert forall|column: ColumnId| #[trigger] (after@.shown)(column) == (
                        goal.shown)(column) by {
                            assert(after.shown(column) == (after@.shown)(column));
                            assert(row.shown(column) == (row@.shown)(column));
                        }
                    }
                    assert(after@ == goal);
                    assert(rows_of(entries@) =~= rows_of(before).update(at as int, goal));
                }
            },
            None => {
                let ghost sampled = sample@;
                let ghost facts = sample.facts();
                let added = sample.with_pass_count(
                    current_pass,
                    active_columns.as_slice(),
                    visible_columns,
                );
                proof {
                    let goal = added_row(sampled, current_pass, visible_columns);
                    assert(added@.shown =~= goal.shown) by {
                        assert forall|column: ColumnId| #[trigger] (added@.shown)(column) == (
                        goal.shown)(column) by {
                            assert(added.shown(column) == (added@.shown)(column));
                            assert(sample.shown(column) == (sampled.shown)(column));
                        }
                    }
                    assert(added@ == goal);
                }
                entries.push(added);
                assert(rows_of(entries@) =~= rows_of(before).push(added@));
                sort_dirty = true;
            },
        }
    }
    proof {
        assert(rows_of(given).take(count as int) =~= rows_of(given));
    }
    let ghost merged_len = rows_of(entries@).len();
    let removed = remove_stale_entries(entries, current_pass);
    if removed {
        sort_dirty = true;
    }
    let ghost rows = entries@;
    if sort_dirty {
        sort_entries(entries, sort_column, sort_direction);
    }
    assert(rows_of(rows) == merged_rows(
        start,
        rows_of(given),
        current_pass,
        visible_columns,
        sort_column,
    ).rows);
}

/// Whether a process has a row that was seen in a pass.
pub open spec fn has_row(rows: Seq<RowView>, identity: ProcIdentity, pass: u64) -> bool {
    exists|i: int|
        0 <= i < rows.len() && (#[trigger] rows[i]).identity == identity && rows[i].pass == pass
}

pub open spec fn is_sampled(samples: Seq<RowView>, identity: ProcIdentity) -> bool {
    exists|j: int| 0 <= j < samples.len() && (#[trigger] samples[j]).identity == identity
}

proof fn lemma_row_index(rows: Seq<RowView>, count: int, identity: ProcIdentity)
    requires
        count <= rows.len(),
    ensures
        row_index(rows, count, identity) matches Some(index) ==> 0 <= index < count
            && rows[index].identity == identity,
    decreases count,
{
    if count > 0 {
        lemma_row_index(rows, count - 1, identity);
    }
}

proof fn lemma_merged_identities(
    rows: Seq<RowView>,
    samples: Seq<RowView>,
    pass: u64,
    visible: DirtyColumns,
    sort_column: ColumnId,
    identity: ProcIdentity,
)
    requires
        forall|i: int| 0 <= i < rows.len() ==> (#[trigger] rows[i]).pass != pass,
    ensures
        with_processes(rows, samples, pass, visible, sort_column).rows.len() >= rows.len(),
        has_row(
            with_processes(rows, samples, pass, visible, sort_column).rows,
            identity,
            pass,
        ) <==> is_sampled(samples, identity),
    decreases samples.len(),
{
    if samples.len() > 0 {
        let shorter = samples.drop_last();
        let sample = samples.last();
        lemma_merged_identities(rows, shorter, pass, visible, sort_column, identity);
        let before = with_processes(rows, shorter, pass, visible, sort_column).rows;
        let after = with_processes(rows, samples, pass, visible, sort_column).rows;
        lemma_row_index(before, rows.len() as int, sample.identity);
        if is_sampled(samples, identity) {
            let j = choose|j: int|
                0 <= j < samples.len() && (#[trigger] samples[j]).identity == identity;
            if j < shorter.len() {
                assert(shorter[j].identity == identity);
            }
        }
        if is_sampled(shorter, identity) {
            let j = choose|j: int|
                0 <= j < shorter.len() && (#[trigger] shorter[j]).identity == identity;
            assert(samples[j].identity == identity);
        }
        if sample.identity == identity {
            assert(samples[samples.len() - 1].identity == identity);
        }
        match row_index(before, rows.len() as int, sample.identity) {
            Some(index) => {
                assert(after[index].identity == sample.identity && after[index].pass == pass);
                if has_row(before, identity, pass) {
                    let i = choose|i: int|
                        0 <= i < before.len() && (#[trigger] before[i]).identity == identity
                            && before[i].pass == pass;
                    assert(after[i].identity == identity && after[i].pass == pass);
                }
                if has_row(after, identity, pass) {
                    let i = choose|i: int|
                        0 <= i < after.len() && (#[trigger] after[i]).identity == identity
                            && after[i].pass == pass;
                    if i != index {
                        assert(before[i] == after[i]);
                    }
                }
            },
            None => {
                let added = added_row(sample, pass, visible);
                assert(after[before.len() as int] == added);
                if has_row(before, identity, pass) {
                    let i = choose|i: int|
                        0 <= i < before.len() && (#[trigger] before[i]).identity == identity
                            && before[i].pass == pass;
                    assert(after[i] == before[i]);
                }
                if has_row(after, identity, pass) {
                    let i = choose|i: int|
                        0 <= i < after.len() && (#[trigger] after[i]).identity == identity
                            && after[i].pass == pass;
                    if i < before.len() {
                        assert(before[i] == after[i]);
                    }
                }
            },
        }
    }
}

proof fn lemma_seen_rows(rows: Seq<RowView>, pass: u64, identity: ProcIdentity)
    ensures
        has_row(seen_in(rows, pass), identity, pass) <==> has_row(rows, identity, pass),
        forall|i: int|
            0 <= i < seen_in(rows, pass).len() ==> (#[trigger] seen_in(rows, pass)[i]).pass == pass,
    decreases rows.len(),
{
    reveal(Seq::filter);
    let seen = |row: RowView| row.pass == pass;
    if rows.len() > 0 {
        let shorter = rows.drop_last();
        lemma_seen_rows(shorter, pass, identity);
        let before = seen_in(shorter, pass);
        let after = seen_in(rows, pass);
        if has_row(shorter, identity, pass) {
            let i = choose|i: int|
                0 <= i < shorter.len() && (#[trigger] shorter[i]).identity == identity
                    && shorter[i].pass == pass;
            assert(rows[i] == shorter[i]);
            let k = choose|i: int|
                0 <= i < before.len() && (#[trigger] before[i]).identity == identity
                    && before[i].pass == pass;
            assert(after[k] == before[k]);
        }
        if rows.last().pass == pass {
            assert(after[before.len() as int] == rows.last());
            assert(rows[rows.len() - 1] == rows.last());
        }
        if has_row(rows, identity, pass) {
            let i = choose|i: int|
                0 <= i < rows.len() && (#[trigger] rows[i]).identity == identity && rows[i].pass
                    == pass;
            if i < shorter.len() {
                assert(shorter[i] == rows[i]);
            }
        }
        if has_row(after, identity, pass) {
            let i = choose|i: int|
                0 <= i < after.len() && (#[trigger] after[i]).identity == identity && after[i].pass
                    == pass;
            if i < before.len() {
                assert(before[i] == after[i]);
            }
        }
        assert forall|i: int| 0 <= i < after.len() implies (#[trigger] after[i]).pass == pass by {
            if i < before.len() {
                assert(before[i] == after[i]);
            }
        }
    }
}

/// After a sample exactly the sampled processes have rows, as long as no row claims to have been
/// seen in the pass before it began.
pub proof fn rows_are_the_sampled_processes(
    rows: Seq<RowView>,
    samples: Seq<RowView>,
    pass: u64,
    visible: DirtyColumns,
    sort_column: ColumnId,
    identity: ProcIdentity,
)
    requires
        forall|i: int| 0 <= i < rows.len() ==> (#[trigger] rows[i]).pass != pass,
    ensures
        ({
            let merged = merged_rows(rows, samples, pass, visible, sort_column).rows;
            &&& has_row(merged, identity, pass) <==> is_sampled(samples, identity)
            &&& forall|i: int| 0 <= i < merged.len() ==> (#[trigger] merged[i]).pass == pass
        }),
{
    lemma_merged_identities(rows, samples, pass, visible, sort_column, identity);
    lemma_seen_rows(
        with_processes(rows, samples, pass, visible, sort_column).rows,
        pass,
        identity,
    );
}

/// A sample with the same facts changes nothing in a row but the pass, and no column has to be
/// drawn for it.
pub proof fn equal_sample_changes_nothing(row: RowView, pass: u64, visible: DirtyColumns)
    ensures
        changed_columns(row.facts, row.facts) == no_columns(),
        updated_row(row, row.facts, pass, visible) == (RowView { pass, ..row }),
{
    lemma_nothing_changed(row.facts, row.facts);
    row.dirty.lemma_nothing(visible);
    let after = updated_row(row, row.facts, pass, visible);
    assert(after.shown =~= row.shown);
}

} // verus!
