//! What the rows of the process list show, and what a refresh leaves of them.
use vstd::prelude::*;

use super::columns::{ColumnId, DirtyColumns};
use super::model::{column_changed, column_display, ProcFacts};
use super::snapshot::{
    added_row, merged_rows, row_index, seen_in, updated_row, with_processes, RowView,
};
use super::sort::{row_before, sort_key};
use crate::process_identity::ProcIdentity;
use crate::text::{
    all_digits, decimal_text, decimal_text_stands_for_value, decimal_value, padded_to_two,
};

verus! {

/// Whether a text is a number of kilobytes.
pub open spec fn reads_as_kilobytes(text: Seq<char>, value: int) -> bool {
    &&& text.len() >= 3
    &&& text.skip(text.len() - 2) == seq![' ', 'K']
    &&& reads_as_number(text.take(text.len() - 2), value)
}

/// Whether a text is a number in decimal digits, with a sign if it is negative.
pub open spec fn reads_as_number(text: Seq<char>, value: int) -> bool {
    if value >= 0 {
        text.len() > 0 && all_digits(text) && decimal_value(text) == value
    } else {
        text.len() > 1 && text[0] == '-' && all_digits(text.skip(1)) && decimal_value(text.skip(1))
            == -value
    }
}

proof fn lemma_signed(value: int)
    ensures
        reads_as_number(crate::text::signed_decimal_text(value), value),
{
    if value >= 0 {
        decimal_text_stands_for_value(value as nat);
    } else {
        let digits = decimal_text((-value) as nat);
        decimal_text_stands_for_value((-value) as nat);
        assert((seq!['-'] + digits).skip(1) =~= digits);
    }
}

proof fn lemma_kilobytes(value: int)
    ensures
        reads_as_kilobytes(super::model::kilobytes(value), value),
{
    reveal_strlit(" K");
    let digits = crate::text::signed_decimal_text(value);
    lemma_signed(value);
    let text = super::model::kilobytes(value);
    assert(text.take(text.len() - 2) =~= digits);
    assert(text.skip(text.len() - 2) =~= seq![' ', 'K']);
}

proof fn lemma_padded(value: nat)
    ensures
        ({
            let text = padded_to_two(decimal_text(value), '0');
            text.len() >= 2 && all_digits(text) && decimal_value(text) == value
        }),
{
    let digits = decimal_text(value);
    let text = padded_to_two(digits, '0');
    decimal_text_stands_for_value(value);
    if digits.len() == 1 {
        reveal_with_fuel(decimal_value, 3);
        assert(text.drop_last() =~= seq!['0']);
        assert(text.drop_last().drop_last() =~= Seq::<char>::empty());
        assert(digits.drop_last() =~= Seq::<char>::empty());
    }
}

/// Every column of numbers shows its own number: the digits read back are the value of that
/// column, and of no other.
pub proof fn shown_numbers_are_those_of_the_column(facts: ProcFacts)
    ensures
        reads_as_number(column_display(facts, ColumnId::Pid), facts.pid as int),
        reads_as_number(column_display(facts, ColumnId::PageFaults), facts.page_faults as int),
        reads_as_number(
            column_display(facts, ColumnId::PageFaultsDiff),
            facts.page_faults_diff as int,
        ),
        reads_as_number(column_display(facts, ColumnId::HandleCount), facts.handle_count as int),
        reads_as_number(column_display(facts, ColumnId::ThreadCount), facts.thread_count as int),
        reads_as_kilobytes(column_display(facts, ColumnId::MemUsage), facts.mem_usage_kb as int),
        reads_as_kilobytes(column_display(facts, ColumnId::MemUsageDiff), facts.mem_diff_kb as int),
        reads_as_kilobytes(
            column_display(facts, ColumnId::CommitCharge),
            facts.commit_charge_kb as int,
        ),
        reads_as_kilobytes(column_display(facts, ColumnId::PagedPool), facts.paged_pool_kb as int),
        reads_as_kilobytes(
            column_display(facts, ColumnId::NonPagedPool),
            facts.nonpaged_pool_kb as int,
        ),
        facts.session_id matches Some(session) ==> reads_as_number(
            column_display(facts, ColumnId::SessionId),
            session as int,
        ),
        facts.session_id is None ==> column_display(facts, ColumnId::SessionId).len() == 0,
{
    decimal_text_stands_for_value(facts.pid as nat);
    decimal_text_stands_for_value(facts.page_faults as nat);
    decimal_text_stands_for_value(facts.handle_count as nat);
    decimal_text_stands_for_value(facts.thread_count as nat);
    lemma_signed(facts.page_faults_diff as int);
    lemma_kilobytes(facts.mem_usage_kb as int);
    lemma_kilobytes(facts.mem_diff_kb as int);
    lemma_kilobytes(facts.commit_charge_kb as int);
    lemma_kilobytes(facts.paged_pool_kb as int);
    lemma_kilobytes(facts.nonpaged_pool_kb as int);
    if facts.session_id is Some {
        decimal_text_stands_for_value(facts.session_id->0 as nat);
    }
}

/// The names stand in their columns; a process of 32 bits is marked behind its name, and no other.
pub proof fn shown_names_are_those_of_the_process(facts: ProcFacts)
    ensures
        column_display(facts, ColumnId::Username) == facts.user_name,
        facts.is_32_bit != Some(true) ==> column_display(facts, ColumnId::ImageName)
            == facts.image_name,
        facts.is_32_bit == Some(true) ==> column_display(facts, ColumnId::ImageName)
            == facts.image_name + seq![' ', '*', '3', '2'],
{
    reveal_strlit(" *32");
    assert(" *32"@ =~= seq![' ', '*', '3', '2']);
}

/// The processor share is shown with at least two digits and a percent sign.
pub proof fn shown_share_is_the_processor_share(facts: ProcFacts)
    ensures
        ({
            let text = column_display(facts, ColumnId::Cpu);
            let digits = text.take(text.len() - 2);
            &&& text.len() >= 4
            &&& text.skip(text.len() - 2) == seq![' ', '%']
            &&& all_digits(digits)
            &&& decimal_value(digits) == facts.cpu
        }),
{
    reveal_strlit(" %");
    lemma_padded(facts.cpu as nat);
    let digits = padded_to_two(decimal_text(facts.cpu as nat), '0');
    let text = column_display(facts, ColumnId::Cpu);
    assert(text.take(text.len() - 2) =~= digits);
    assert(text.skip(text.len() - 2) =~= seq![' ', '%']);
}

/// The processor time is shown as hours, minutes and seconds that make up the whole seconds of
/// the time.
pub proof fn shown_time_is_the_processor_time(facts: ProcFacts)
    ensures
        exists|hours: nat, minutes: nat, seconds: nat|
            column_display(facts, ColumnId::CpuTime) == #[trigger] clock_text(
                hours,
                minutes,
                seconds,
            ) && minutes < 60 && seconds < 60 && (hours * 3600 + minutes * 60 + seconds)
                * 10_000_000 <= facts.display_cpu_time_100ns < (hours * 3600 + minutes * 60
                + seconds + 1) * 10_000_000,
{
    let total = facts.display_cpu_time_100ns as int / 10_000_000;
    let (hours, minutes, seconds) = (
        (total / 3600) as nat,
        (total % 3600 / 60) as nat,
        (total % 60) as nat,
    );
    assert(column_display(facts, ColumnId::CpuTime) =~= clock_text(hours, minutes, seconds));
    assert(hours * 3600 + minutes * 60 + seconds == total);
}

/// Hours, minutes and seconds with colons between them, minutes and seconds with two digits.
pub open spec fn clock_text(hours: nat, minutes: nat, seconds: nat) -> Seq<char> {
    padded_to_two(decimal_text(hours), ' ') + seq![':'] + padded_to_two(
        decimal_text(minutes),
        '0',
    ) + seq![':'] + padded_to_two(decimal_text(seconds), '0')
}

/// Whether two samples agree in what a column shows.
pub open spec fn agree_in(first: ProcFacts, second: ProcFacts, column: ColumnId) -> bool {
    match column {
        ColumnId::ImageName => first.image_name == second.image_name && first.is_32_bit
            == second.is_32_bit,
        ColumnId::CpuTime => first.display_cpu_time_100ns == second.display_cpu_time_100ns,
        ColumnId::BasePriority => first.priority_class == second.priority_class,
        _ => column_display(first, column) == column_display(second, column),
    }
}

/// A column counts as changed exactly if the samples do not agree in what it shows.
pub proof fn changed_columns_show_something_else(
    before: ProcFacts,
    after: ProcFacts,
    column: ColumnId,
)
    ensures
        column_changed(before, after, column) <==> !agree_in(before, after, column),
{
    shown_numbers_are_those_of_the_column(before);
    shown_numbers_are_those_of_the_column(after);
    shown_names_are_those_of_the_process(before);
    shown_names_are_those_of_the_process(after);
    shown_share_is_the_processor_share(before);
    shown_share_is_the_processor_share(after);
}

/// Whether every visible column of a row shows what the row holds. The base priority has no text
/// of its own.
pub open spec fn shows_its_facts(row: RowView, visible: DirtyColumns) -> bool {
    forall|column: ColumnId|
        visible.has(column) && column != ColumnId::BasePriority ==> #[trigger] (row.shown)(column)
            == column_display(row.facts, column)
}

/// The visible texts of a row are never out of date: after a new sample, as for a new row, they
/// show what was sampled last.
pub proof fn visible_texts_stay_up_to_date(
    row: RowView,
    sample: RowView,
    pass: u64,
    visible: DirtyColumns,
)
    ensures
        shows_its_facts(row, visible) ==> shows_its_facts(
            updated_row(row, sample.facts, pass, visible),
            visible,
        ),
        shows_its_facts(added_row(sample, pass, visible), visible),
        added_row(sample, pass, visible).facts == sample.facts,
        added_row(sample, pass, visible).identity == sample.identity,
        forall|column: ColumnId| #[trigger]
            visible.has(column) ==> added_row(sample, pass, visible).dirty.has(column),
{
    let updated = updated_row(row, sample.facts, pass, visible);
    if shows_its_facts(row, visible) {
        assert forall|column: ColumnId|
            visible.has(column) && column != ColumnId::BasePriority implies #[trigger] (
        updated.shown)(column) == column_display(updated.facts, column) by {
            changed_columns_show_something_else(row.facts, sample.facts, column);
            assert((row.shown)(column) == column_display(row.facts, column));
        }
    }
}

/// Whether the facts of a row belong together as they do in a sample: the names with their
/// lower-case forms, the time with the time that is shown, the identifier with the identity.
pub open spec fn belongs_together(row: RowView) -> bool {
    &&& row.facts.has_lower_names()
    &&& row.facts.display_cpu_time_100ns == row.facts.cpu_time_100ns
    &&& row.facts.pid == row.identity.pid
}

/// What was sampled is what the row holds afterwards, and what has to be drawn is what had to be
/// before and the visible columns that changed.
pub proof fn row_holds_the_sample(
    row: RowView,
    sample: RowView,
    pass: u64,
    visible: DirtyColumns,
)
    requires
        belongs_together(row),
        belongs_together(sample),
    ensures
        ({
            let updated = updated_row(row, sample.facts, pass, visible);
            &&& updated.facts == sample.facts
            &&& updated.identity == row.identity
            &&& updated.pass == pass
            &&& forall|column: ColumnId| #[trigger]
                updated.dirty.has(column) <==> row.dirty.has(column) || (visible.has(column)
                    && !agree_in(row.facts, sample.facts, column))
        }),
{
    let updated = updated_row(row, sample.facts, pass, visible);
    let changed = super::model::changed_columns(row.facts, sample.facts);
    super::columns::lemma_columns_where(
        |column: ColumnId| column_changed(row.facts, sample.facts, column),
    );
    row.dirty.lemma_joined(changed.common(visible));
    changed.lemma_joined(visible);
    assert forall|column: ColumnId| #[trigger]
        updated.dirty.has(column) <==> row.dirty.has(column) || (visible.has(column) && !agree_in(
            row.facts,
            sample.facts,
            column,
        )) by {
        changed_columns_show_something_else(row.facts, sample.facts, column);
        assert(changed.has(column) <==> column_changed(row.facts, sample.facts, column));
        assert(changed.common(visible).has(column) <==> changed.has(column) && visible.has(column));
    }
}

proof fn lemma_row_index_is_last(rows: Seq<RowView>, count: int, identity: ProcIdentity)
    requires
        0 <= count <= rows.len(),
    ensures
        match row_index(rows, count, identity) {
            Some(index) => 0 <= index < count && rows[index].identity == identity && forall|i: int|
                index < i < count ==> (#[trigger] rows[i]).identity != identity,
            None => forall|i: int| 0 <= i < count ==> (#[trigger] rows[i]).identity != identity,
        },
    decreases count,
{
    if count > 0 {
        lemma_row_index_is_last(rows, count - 1, identity);
    }
}

pub open spec fn all_belong_together(rows: Seq<RowView>) -> bool {
    forall|i: int| 0 <= i < rows.len() ==> belongs_together(#[trigger] rows[i])
}

pub open spec fn all_different(rows: Seq<RowView>) -> bool {
    forall|i: int, j: int|
        0 <= i < j < rows.len() ==> (#[trigger] rows[i]).identity != (#[trigger] rows[j]).identity
}

/// Whether a row of a process holds what a sample of it says.
pub open spec fn holds(rows: Seq<RowView>, sample: RowView, pass: u64) -> bool {
    exists|i: int|
        0 <= i < rows.len() && (#[trigger] rows[i]).identity == sample.identity && rows[i].facts
            == sample.facts && rows[i].pass == pass
}

proof fn lemma_samples_are_held(
    rows: Seq<RowView>,
    samples: Seq<RowView>,
    pass: u64,
    visible: DirtyColumns,
    sort_column: ColumnId,
)
    requires
        all_belong_together(rows),
        all_belong_together(samples),
        all_different(rows),
        all_different(samples),
        forall|i: int| 0 <= i < rows.len() ==> (#[trigger] rows[i]).pass != pass,
    ensures
        ({
            let merged = with_processes(rows, samples, pass, visible, sort_column).rows;
            &&& merged.len() >= rows.len()
            &&& all_belong_together(merged)
            &&& all_different(merged)
            &&& forall|i: int|
                0 <= i < rows.len() ==> (#[trigger] merged[i]).identity == rows[i].identity
            &&& forall|i: int|
                0 <= i < merged.len() && (#[trigger] merged[i]).pass == pass ==> exists|j: int|
                    0 <= j < samples.len() && (#[trigger] samples[j]).identity
                        == merged[i].identity
            &&& forall|i: int|
                rows.len() <= i < merged.len() ==> (#[trigger] merged[i]).pass == pass
            &&& forall|j: int|
                0 <= j < samples.len() ==> holds(merged, #[trigger] samples[j], pass)
        }),
    decreases samples.len(),
{
    if samples.len() > 0 {
        let front = samples.drop_last();
        let sample = samples.last();
        let n = samples.len() - 1;
        assert forall|i: int| 0 <= i < front.len() implies belongs_together(
            #[trigger] front[i],
        ) by {
            assert(belongs_together(samples[i]));
        }
        assert forall|i: int, j: int| 0 <= i < j < front.len() implies (
        #[trigger] front[i]).identity != (#[trigger] front[j]).identity by {
            assert(samples[i].identity != samples[j].identity);
        }
        lemma_samples_are_held(rows, front, pass, visible, sort_column);
        let before = with_processes(rows, front, pass, visible, sort_column).rows;
        let after = with_processes(rows, samples, pass, visible, sort_column).rows;
        lemma_row_index_is_last(before, rows.len() as int, sample.identity);
        assert(belongs_together(samples[n]));
        match row_index(before, rows.len() as int, sample.identity) {
            Some(index) => {
                assert(belongs_together(before[index]));
                row_holds_the_sample(before[index], sample, pass, visible);
                assert(after[index].identity == sample.identity);
                assert forall|i: int| 0 <= i < after.len() implies belongs_together(
                    #[trigger] after[i],
                ) by {
                    if i != index {
                        assert(after[i] == before[i]);
                    }
                }
                assert forall|i: int, j: int| 0 <= i < j < after.len() implies (
                #[trigger] after[i]).identity != (#[trigger] after[j]).identity by {
                    assert(before[i].identity != before[j].identity);
                }
                assert forall|i: int|
                    0 <= i < after.len() && (#[trigger] after[i]).pass == pass implies exists|
                    j: int,
                |
                    0 <= j < samples.len() && (#[trigger] samples[j]).identity
                        == after[i].identity by {
                    if i == index {
                        assert(samples[n].identity == after[i].identity);
                    } else {
                        assert(after[i] == before[i]);
                        let j = choose|j: int|
                            0 <= j < front.len() && (#[trigger] front[j]).identity
                                == before[i].identity;
                        assert(samples[j] == front[j]);
                    }
                }
                assert forall|j: int| 0 <= j < samples.len() implies holds(
                    after,
                    #[trigger] samples[j],
                    pass,
                ) by {
                    if j < n {
                        assert(front[j] == samples[j]);
                        assert(holds(before, front[j], pass));
                        let i = choose|i: int|
                            0 <= i < before.len() && (#[trigger] before[i]).identity
                                == front[j].identity && before[i].facts == front[j].facts
                                && before[i].pass == pass;
                        assert(samples[j].identity != samples[n].identity);
                        assert(i != index);
                        assert(after[i] == before[i]);
                    }
                }
            },
            None => {
                let added = added_row(sample, pass, visible);
                assert(after == before.push(added));
                assert forall|i: int| 0 <= i < before.len() implies (
                #[trigger] before[i]).identity != sample.identity by {
                    if i >= rows.len() {
                        assert(before[i].pass == pass);
                        let j = choose|j: int|
                            0 <= j < front.len() && (#[trigger] front[j]).identity
                                == before[i].identity;
                        assert(samples[j] == front[j]);
                        assert(samples[j].identity != samples[n].identity);
                    }
                }
                assert forall|i: int| 0 <= i < after.len() implies belongs_together(
                    #[trigger] after[i],
                ) by {
                    if i < before.len() {
                        assert(after[i] == before[i]);
                    }
                }
                assert forall|i: int, j: int| 0 <= i < j < after.len() implies (
                #[trigger] after[i]).identity != (#[trigger] after[j]).identity by {
                    assert(after[i] == before[i]);
                    if j < before.len() {
                        assert(after[j] == before[j]);
                    }
                }
                assert forall|i: int|
                    0 <= i < after.len() && (#[trigger] after[i]).pass == pass implies exists|
                    j: int,
                |
                    0 <= j < samples.len() && (#[trigger] samples[j]).identity
                        == after[i].identity by {
                    if i == before.len() {
                        assert(samples[n].identity == after[i].identity);
                    } else {
                        assert(after[i] == before[i]);
                        let j = choose|j: int|
                            0 <= j < front.len() && (#[trigger] front[j]).identity
                                == before[i].identity;
                        assert(samples[j] == front[j]);
                    }
                }
                assert forall|j: int| 0 <= j < samples.len() implies holds(
                    after,
                    #[trigger] samples[j],
                    pass,
                ) by {
                    if j < n {
                        assert(front[j] == samples[j]);
                        assert(holds(before, front[j], pass));
                        let i = choose|i: int|
                            0 <= i < before.len() && (#[trigger] before[i]).identity
                                == front[j].identity && before[i].facts == front[j].facts
                                && before[i].pass == pass;
                        assert(after[i] == before[i]);
                    } else {
                        assert(after[before.len() as int] == added);
                    }
                }
            },
        }
    }
}

/// Whether a row holds what one of the samples says of its process.
pub open spec fn is_sampled_row(samples: Seq<RowView>, row: RowView) -> bool {
    exists|j: int|
        0 <= j < samples.len() && (#[trigger] samples[j]).identity == row.identity
            && samples[j].facts == row.facts
}

proof fn lemma_held_rows(
    all: Seq<RowView>,
    samples: Seq<RowView>,
    pass: u64,
    k: int,
)
    requires
        all_different(all),
        0 <= k < all.len(),
        exists|j: int| 0 <= j < samples.len()
            && (#[trigger] samples[j]).identity == all[k].identity,
        forall|j: int| 0 <= j < samples.len() ==> holds(all, #[trigger] samples[j], pass),
    ensures
        is_sampled_row(samples, all[k]),
{
    let j = choose|j: int|
        0 <= j < samples.len() && (#[trigger] samples[j]).identity == all[k].identity;
    assert(holds(all, samples[j], pass));
    let h = choose|h: int|
        0 <= h < all.len() && (#[trigger] all[h]).identity == samples[j].identity && all[h].facts
            == samples[j].facts && all[h].pass == pass;
    assert(h == k) by {
        if h < k {
            assert(all[h].identity != all[k].identity);
        } else if k < h {
            assert(all[k].identity != all[h].identity);
        }
    }
}

proof fn lemma_held_after_filter(all: Seq<RowView>, sample: RowView, pass: u64)
    requires
        holds(all, sample, pass),
    ensures
        holds(seen_in(all, pass), sample, pass),
{
    let seen = |row: RowView| row.pass == pass;
    let merged = seen_in(all, pass);
    let i = choose|i: int|
        0 <= i < all.len() && (#[trigger] all[i]).identity == sample.identity && all[i].facts
            == sample.facts && all[i].pass == pass;
    all.lemma_filter_contains(seen, i);
    let k = choose|k: int| 0 <= k < merged.len() && merged[k] == all[i];
    assert(merged[k].identity == sample.identity);
}

/// After a refresh the list holds what was sampled: for every process of the sample one row with
/// exactly the facts of the sample, and no row for any other process.
pub proof fn refreshed_list_is_the_sample(
    rows: Seq<RowView>,
    samples: Seq<RowView>,
    pass: u64,
    visible: DirtyColumns,
    sort_column: ColumnId,
)
    requires
        all_belong_together(rows),
        all_belong_together(samples),
        all_different(rows),
        all_different(samples),
        forall|i: int| 0 <= i < rows.len() ==> (#[trigger] rows[i]).pass != pass,
    ensures
        ({
            let merged = merged_rows(rows, samples, pass, visible, sort_column).rows;
            &&& forall|j: int|
                0 <= j < samples.len() ==> holds(merged, #[trigger] samples[j], pass)
            &&& forall|i: int|
                0 <= i < merged.len() ==> is_sampled_row(samples, #[trigger] merged[i])
            &&& all_different(merged)
        }),
{
    lemma_samples_are_held(rows, samples, pass, visible, sort_column);
    let all = with_processes(rows, samples, pass, visible, sort_column).rows;
    let merged = seen_in(all, pass);
    let seen = |row: RowView| row.pass == pass;
    lemma_filter_different(all, seen);
    assert forall|j: int| 0 <= j < samples.len() implies holds(
        merged,
        #[trigger] samples[j],
        pass,
    ) by {
        lemma_held_after_filter(all, samples[j], pass);
    }
    assert forall|i: int| 0 <= i < merged.len() implies is_sampled_row(
        samples,
        #[trigger] merged[i],
    ) by {
        all.lemma_filter_contains_rev(seen, merged[i]);
        all.lemma_filter_pred(seen, i);
        let k = choose|k: int| 0 <= k < all.len() && all[k] == merged[i];
        assert(all[k].pass == pass);
        lemma_held_rows(all, samples, pass, k);
    }
}

proof fn lemma_filter_different(rows: Seq<RowView>, wanted: spec_fn(RowView) -> bool)
    requires
        all_different(rows),
    ensures
        all_different(rows.filter(wanted)),
    decreases rows.len(),
{
    reveal(Seq::filter);
    if rows.len() > 0 {
        let front = rows.drop_last();
        let n = rows.len() - 1;
        assert forall|i: int, j: int| 0 <= i < j < front.len() implies (
        #[trigger] front[i]).identity != (#[trigger] front[j]).identity by {
            assert(rows[i].identity != rows[j].identity);
        }
        lemma_filter_different(front, wanted);
        let before = front.filter(wanted);
        let after = rows.filter(wanted);
        assert forall|i: int, j: int| 0 <= i < j < after.len() implies (
        #[trigger] after[i]).identity != (#[trigger] after[j]).identity by {
            assert(after[i] == before[i]);
            if j < before.len() {
                assert(after[j] == before[j]);
            } else {
                front.lemma_filter_contains_rev(wanted, before[i]);
                let k = choose|k: int| 0 <= k < front.len() && front[k] == before[i];
                assert(rows[k].identity != rows[n].identity);
            }
        }
    }
}

/// Whether no row stands above one before it.
pub open spec fn in_list_order(rows: Seq<RowView>, column: ColumnId, direction: i32) -> bool {
    forall|i: int, j: int|
        0 <= i < j < rows.len() ==> !row_before(
            (#[trigger] rows[j]).facts,
            (#[trigger] rows[i]).facts,
            column,
            direction,
        )
}

proof fn lemma_keys_stay(
    rows: Seq<RowView>,
    samples: Seq<RowView>,
    pass: u64,
    visible: DirtyColumns,
    column: ColumnId,
)
    requires
        all_belong_together(rows),
        all_belong_together(samples),
        !with_processes(rows, samples, pass, visible, column).sort_dirty,
    ensures
        ({
            let merged = with_processes(rows, samples, pass, visible, column).rows;
            &&& merged.len() == rows.len()
            &&& forall|i: int|
                0 <= i < rows.len() ==> {
                    let row = #[trigger] merged[i];
                    &&& belongs_together(row)
                    &&& row.identity == rows[i].identity
                    &&& sort_key(row.facts, column) == sort_key(rows[i].facts, column)
                }
        }),
    decreases samples.len(),
{
    if samples.len() > 0 {
        let front = samples.drop_last();
        let sample = samples.last();
        assert forall|i: int| 0 <= i < front.len() implies belongs_together(
            #[trigger] front[i],
        ) by {
            assert(belongs_together(samples[i]));
        }
        lemma_keys_stay(rows, front, pass, visible, column);
        let before = with_processes(rows, front, pass, visible, column).rows;
        let after = with_processes(rows, samples, pass, visible, column).rows;
        lemma_row_index_is_last(before, rows.len() as int, sample.identity);
        assert(belongs_together(samples[samples.len() - 1]));
        let index = row_index(before, rows.len() as int, sample.identity)->0;
        row_holds_the_sample(before[index], sample, pass, visible);
        assert forall|i: int| 0 <= i < rows.len() implies ({
            let row = #[trigger] after[i];
            &&& belongs_together(row)
            &&& row.identity == rows[i].identity
            &&& sort_key(row.facts, column) == sort_key(rows[i].facts, column)
        }) by {
            assert(belongs_together(before[i]));
            if i != index {
                assert(after[i] == before[i]);
            }
        }
    }
}

/// A list that is not sorted anew after a refresh is in order all the same, if it was before.
pub proof fn list_stays_in_order(
    rows: Seq<RowView>,
    samples: Seq<RowView>,
    pass: u64,
    visible: DirtyColumns,
    column: ColumnId,
    direction: i32,
)
    requires
        all_belong_together(rows),
        all_belong_together(samples),
        in_list_order(rows, column, direction),
    ensures
        ({
            let merged = merged_rows(rows, samples, pass, visible, column);
            !merged.sort_dirty ==> in_list_order(merged.rows, column, direction)
        }),
{
    let merged = merged_rows(rows, samples, pass, visible, column);
    if !merged.sort_dirty {
        let all = with_processes(rows, samples, pass, visible, column).rows;
        lemma_keys_stay(rows, samples, pass, visible, column);
        lemma_full_filter(all, |row: RowView| row.pass == pass);
        assert forall|i: int, j: int| 0 <= i < j < all.len() implies !row_before(
            (#[trigger] all[j]).facts,
            (#[trigger] all[i]).facts,
            column,
            direction,
        ) by {
            assert(belongs_together(rows[i]) && belongs_together(rows[j]));
            assert(!row_before(rows[j].facts, rows[i].facts, column, direction));
        }
    }
}

proof fn lemma_full_filter(rows: Seq<RowView>, wanted: spec_fn(RowView) -> bool)
    requires
        rows.filter(wanted).len() == rows.len(),
    ensures
        rows.filter(wanted) == rows,
    decreases rows.len(),
{
    reveal(Seq::filter);
    if rows.len() > 0 {
        rows.drop_last().lemma_filter_len(wanted);
        if wanted(rows.last()) {
            lemma_full_filter(rows.drop_last(), wanted);
            assert(rows.drop_last().push(rows.last()) =~= rows);
        }
    } else {
        assert(rows.filter(wanted) =~= rows);
    }
}

} // verus!
