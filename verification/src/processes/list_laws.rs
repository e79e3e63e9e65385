//! What holds of the columns, of the commands, of what is selected, and of remembered accounts.
use vstd::prelude::*;

use super::accounts::{account_index, oldest_index, with_account, AccountView, MAX_ACCOUNT_NAMES};
use super::columns::{
    behind_first, chosen_columns, column_numbered, column_numbers_stand_for_columns, columns_among,
    initial_choice, is_permutation, reordered, stored_width, with_choices, with_numbers,
    ColumnChoice, ColumnId, NUM_COLUMN,
};
use super::commands::{priority_item, priority_of, ProcCommand, ProcPriority};
use super::events::clicked_column;
use super::model::{
    priority_name, PriorityNames, ProcEntry, ABOVE_NORMAL_PRIORITY_CLASS,
    BELOW_NORMAL_PRIORITY_CLASS, HIGH_PRIORITY_CLASS, IDLE_PRIORITY_CLASS, NORMAL_PRIORITY_CLASS,
    REALTIME_PRIORITY_CLASS,
};
use super::page::{first_selection, position_of, ProcessPageState};
use super::sort::rank_of_priority;
use super::sort_laws::{does_not_decrease, sorted_column_is_monotone};
use crate::process_identity::ProcIdentity;
use crate::seqs::lemma_push_contains;

verus! {

/// The columns that are read are those that the numbers name, in their order; a number that names
/// no column is passed over.
pub proof fn numbers_name_the_columns(numbers: Seq<i32>)
    ensures
        columns_among(numbers) == numbers.filter(
            |number: i32| 0 <= number < NUM_COLUMN,
        ).map_values(|number: i32| column_numbered(number as int)->0),
        forall|i: int|
            0 <= i < columns_among(numbers).len() ==> numbers.contains(
                (#[trigger] columns_among(numbers)[i]).number() as i32,
            ),
    decreases numbers.len(),
{
    reveal(Seq::filter);
    let named = |number: i32| 0 <= number < NUM_COLUMN;
    let column = |number: i32| column_numbered(number as int)->0;
    let columns = columns_among(numbers);
    if numbers.len() > 0 {
        let front = numbers.drop_last();
        numbers_name_the_columns(front);
        let before = columns_among(front);
        assert forall|i: int| 0 <= i < columns.len() implies numbers.contains(
            (#[trigger] columns[i]).number() as i32,
        ) by {
            if i < before.len() {
                assert(columns[i] == before[i]);
                let number = before[i].number() as i32;
                let k = choose|k: int| 0 <= k < front.len() && front[k] == number;
                assert(numbers[k] == number);
            } else {
                assert(numbers[numbers.len() - 1] == columns[i].number());
            }
        }
    }
    assert(columns =~= numbers.filter(named).map_values(column));
}

/// The display order only changes the order: the column at a place is the one that the order names
/// for it, and none is shown twice that was not before.
pub proof fn reordered_columns_are_the_active_ones(active: Seq<ColumnId>, order: Seq<i32>)
    requires
        is_permutation(order, active.len() as int),
        active.no_duplicates(),
    ensures
        reordered(active, order).len() == active.len(),
        reordered(active, order).no_duplicates(),
        forall|i: int|
            0 <= i < active.len() ==> active.contains(#[trigger] reordered(active, order)[i]),
        forall|i: int|
            0 <= i < active.len() ==> #[trigger] reordered(active, order)[i]
                == active[order[i] as int],
{
}

/// A width that was set is stored for its column; without one the standard width is.
pub proof fn set_widths_are_stored(columns: Seq<ColumnId>, widths: Seq<i32>, i: int)
    requires
        columns.len() == widths.len(),
        columns.no_duplicates(),
        0 <= i < columns.len(),
    ensures
        ({
            let stored = stored_width(
                ProcessPageState::widths_by_number(columns, widths),
                columns[i],
            );
            &&& widths[i] > 0 ==> stored == widths[i]
            &&& widths[i] <= 0 ==> stored == columns[i].default_width()
            &&& stored > 0
        }),
{
    lemma_width_of(columns, widths, i);
}

proof fn lemma_width_of(columns: Seq<ColumnId>, widths: Seq<i32>, i: int)
    requires
        columns.len() <= widths.len(),
        columns.no_duplicates(),
        0 <= i < columns.len(),
    ensures
        ({
            let stored = ProcessPageState::widths_by_number(columns, widths);
            stored.contains_key(columns[i].number() as u32) && stored[columns[i].number() as u32]
                == widths[i]
        }),
    decreases columns.len(),
{
    let n = columns.len() - 1;
    if i < n {
        let front = columns.drop_last();
        assert(front[i] == columns[i]);
        lemma_width_of(front, widths, i);
        column_numbers_stand_for_columns(columns[i]);
        column_numbers_stand_for_columns(columns[n]);
        assert(columns[i] != columns[n]);
    }
}

/// A new row of the list of accounts forgets at most one account, and only if the list is full.
/// That one was not used for the longest time. Every other account stays as it was.
pub proof fn only_the_longest_unused_is_forgotten(
    accounts: Seq<AccountView>,
    account: AccountView,
    i: int,
)
    requires
        0 <= i < accounts.len(),
        accounts[i].sid != account.sid,
        !with_account(accounts, account).contains(accounts[i]),
    ensures
        accounts.len() >= MAX_ACCOUNT_NAMES,
        forall|j: int|
            0 <= j < accounts.len() ==> accounts[i].last_used <= (#[trigger] accounts[j]).last_used,
        forall|j: int|
            0 <= j < accounts.len() ==> (#[trigger] accounts[j]).sid != account.sid,
        forall|j: int|
            0 <= j < accounts.len() && j != i ==> with_account(accounts, account).contains(
                #[trigger] accounts[j],
            ),
{
    lemma_index(accounts, account.sid);
    lemma_oldest_is_least(accounts);
    let after = with_account(accounts, account);
    match account_index(accounts, account.sid) {
        Some(index) => {
            assert(after[i] == accounts[i]);
        },
        None => {
            if accounts.len() < MAX_ACCOUNT_NAMES {
                assert(after[i] == accounts[i]);
            } else {
                let oldest = oldest_index(accounts);
                assert forall|j: int| 0 <= j < accounts.len() && j != oldest implies after.contains(
                    #[trigger] accounts[j],
                ) by {
                    let k = if j < oldest { j } else { j - 1 };
                    assert(after[k] == accounts[j]);
                }
            }
        },
    }
}

proof fn lemma_index(accounts: Seq<AccountView>, sid: Seq<u8>)
    ensures
        match account_index(accounts, sid) {
            Some(index) => 0 <= index < accounts.len() && accounts[index].sid == sid,
            None => forall|j: int| 0 <= j < accounts.len() ==> (#[trigger] accounts[j]).sid != sid,
        },
    decreases accounts.len(),
{
    if accounts.len() > 0 {
        let front = accounts.drop_last();
        lemma_index(front, sid);
        if account_index(accounts, sid) is None {
            assert forall|j: int| 0 <= j < accounts.len() implies (#[trigger] accounts[j]).sid
                != sid by {
                if j < front.len() {
                    assert(front[j].sid != sid);
                }
            }
        }
    }
}

proof fn lemma_oldest_is_least(accounts: Seq<AccountView>)
    requires
        accounts.len() > 0,
    ensures
        0 <= oldest_index(accounts) < accounts.len(),
        forall|i: int|
            0 <= i < accounts.len() ==> accounts[oldest_index(accounts)].last_used <= (
            #[trigger] accounts[i]).last_used,
    decreases accounts.len(),
{
    if accounts.len() > 1 {
        let front = accounts.drop_last();
        lemma_oldest_is_least(front);
        assert forall|i: int| 0 <= i < accounts.len() implies accounts[oldest_index(
            accounts,
        )].last_used <= (#[trigger] accounts[i]).last_used by {
            if i < front.len() {
                assert(front[i] == accounts[i]);
            }
        }
    }
}

/// What is found of a process is its first row.
pub proof fn first_row_is_found(entries: Seq<ProcEntry>, identity: ProcIdentity)
    ensures
        match position_of(entries, identity) {
            Some(at) => 0 <= at < entries.len() && entries[at].identity == identity
                && forall|i: int|
                0 <= i < at ==> (#[trigger] entries[i]).identity != identity,
            None => forall|i: int|
                0 <= i < entries.len() ==> (#[trigger] entries[i]).identity != identity,
        },
    decreases entries.len(),
{
    if entries.len() > 0 && entries[0].identity != identity {
        let rest = entries.drop_first();
        first_row_is_found(rest, identity);
        match position_of(rest, identity) {
            Some(at) => {
                assert forall|i: int| 0 <= i < at + 1 implies (#[trigger] entries[i]).identity
                    != identity by {
                    if i > 0 {
                        assert(rest[i - 1].identity != identity);
                    }
                }
            },
            None => {
                assert forall|i: int| 0 <= i < entries.len()
                    implies (#[trigger] entries[i]).identity
                    != identity by {
                    if i > 0 {
                        assert(rest[i - 1].identity != identity);
                    }
                }
            },
        }
    }
}

/// What the list says is selected counts; only where it says nothing does the earlier selection
/// stay.
pub proof fn newer_selection_counts(first: Option<ProcIdentity>, second: Option<ProcIdentity>)
    ensures
        first is Some ==> first_selection(first, second) == first,
        first is None ==> first_selection(first, second) == second,
{
}

/// A click on another column than before sorts by it, the largest on top; a second click on it
/// turns the order round.
pub proof fn clicks_sort_by_the_column(
    before: ProcessPageState,
    once: ProcessPageState,
    twice: ProcessPageState,
    sub_item: i32,
    selected: Option<ProcIdentity>,
)
    requires
        0 <= sub_item < before.active_columns@.len(),
        before.sort_column != before.active_columns@[sub_item as int],
        once.sorted_by_click(&before, sub_item, selected),
        twice.sorted_by_click(&once, sub_item, selected),
    ensures
        once.sort_column == before.active_columns@[sub_item as int],
        once.entries@.to_multiset() == before.entries@.to_multiset(),
        forall|i: int, j: int|
            0 <= i < j < once.entries@.len() ==> does_not_decrease(
                #[trigger] once.entries@[j],
                #[trigger] once.entries@[i],
                before.active_columns@[sub_item as int],
            ),
        twice.sort_column == once.sort_column,
        forall|i: int, j: int|
            0 <= i < j < twice.entries@.len() ==> does_not_decrease(
                #[trigger] twice.entries@[i],
                #[trigger] twice.entries@[j],
                before.active_columns@[sub_item as int],
            ),
{
    let column = before.active_columns@[sub_item as int];
    assert(clicked_column(before.active_columns@, sub_item) == column);
    sorted_column_is_monotone(before.entries@, column, once.sort_direction);
    sorted_column_is_monotone(once.entries@, column, twice.sort_direction);
}

/// A priority stands for one class and a class for that priority; a more urgent priority has a
/// more urgent class.
pub proof fn priorities_stand_for_classes(priority: ProcPriority)
    ensures
        priority_of(priority.class()) == priority,
        rank_of_priority(ProcPriority::Low.class()) < rank_of_priority(
            ProcPriority::BelowNormal.class(),
        ) < rank_of_priority(ProcPriority::Normal.class()) < rank_of_priority(
            ProcPriority::AboveNormal.class(),
        ) < rank_of_priority(ProcPriority::High.class()) < rank_of_priority(
            ProcPriority::Realtime.class(),
        ),
        ProcPriority::Low.class() == IDLE_PRIORITY_CLASS,
        ProcPriority::Normal.class() == NORMAL_PRIORITY_CLASS,
{
}

/// In the menu of priorities exactly the one of the process is marked, and the item that is marked
/// asks for the class that the process has.
pub proof fn menu_marks_the_priority(priority: ProcPriority, class: u32, verified: bool)
    ensures
        priority_item(priority, class, verified).command == ProcCommand::SetPriority(priority),
        priority_item(priority, class, verified).enabled == verified,
        class == priority.class() ==> priority_item(priority, class, verified).checked,
        class == priority.class() ==> forall|other: ProcPriority|
            other != priority ==> !(#[trigger] priority_item(other, class, verified)).checked,
        priority_item(priority, class, verified).checked && priority != ProcPriority::Normal
            ==> class == priority.class(),
{
}

/// A menu item asks for its own command; the button asks for the end of a process.
pub proof fn items_ask_for_their_commands(command: ProcCommand, button: u16)
    ensures
        command.id() != button ==> command.is_asked_by(command.id(), button),
        ProcCommand::Terminate.is_asked_by(button, button),
        command != ProcCommand::Terminate ==> !command.is_asked_by(button, button),
{
}

/// Every priority class is shown under its own name.
pub proof fn classes_have_their_names(names: PriorityNames, class: u32)
    ensures
        priority_name(names, ProcPriority::Low.class()) == names.low@,
        priority_name(names, ProcPriority::BelowNormal.class()) == names.below_normal@,
        priority_name(names, ProcPriority::Normal.class()) == names.normal@,
        priority_name(names, ProcPriority::AboveNormal.class()) == names.above_normal@,
        priority_name(names, ProcPriority::High.class()) == names.high@,
        priority_name(names, ProcPriority::Realtime.class()) == names.realtime@,
        (forall|priority: ProcPriority| #[trigger] priority.class() != class) ==> priority_name(
            names,
            class,
        ) == names.unknown@,
{
    assert(ProcPriority::Low.class() == IDLE_PRIORITY_CLASS);
    assert(ProcPriority::BelowNormal.class() == BELOW_NORMAL_PRIORITY_CLASS);
    assert(ProcPriority::Normal.class() == NORMAL_PRIORITY_CLASS);
    assert(ProcPriority::AboveNormal.class() == ABOVE_NORMAL_PRIORITY_CLASS);
    assert(ProcPriority::High.class() == HIGH_PRIORITY_CLASS);
    assert(ProcPriority::Realtime.class() == REALTIME_PRIORITY_CLASS);
}

/// Whether a column is checked, or always shown.
pub open spec fn is_wanted(checked: Seq<bool>) -> spec_fn(ColumnId) -> bool {
    |column: ColumnId| column == ColumnId::ImageName || checked[column.number()]
}

proof fn lemma_choices_are_filtered(checked: Seq<bool>, columns: Seq<ColumnId>)
    requires
        checked.len() == NUM_COLUMN,
        columns.no_duplicates(),
        !columns.contains(ColumnId::ImageName),
    ensures
        ({
            let after = with_choices(initial_choice(checked), columns);
            &&& after.columns == seq![ColumnId::ImageName] + columns.filter(is_wanted(checked))
            &&& forall|column: ColumnId| #[trigger]
                after.open.contains(column) <==> is_wanted(checked)(column) && !columns.contains(
                    column,
                )
        }),
    decreases columns.len(),
{
    reveal(Seq::filter);
    let wanted = is_wanted(checked);
    if columns.len() == 0 {
        assert(seq![ColumnId::ImageName] + columns.filter(wanted) =~= seq![ColumnId::ImageName]);
    } else {
        let front = columns.drop_last();
        let last = columns.last();
        assert(front.push(last) =~= columns);
        lemma_push_contains(front, last);
        assert(!front.contains(last)) by {
            if front.contains(last) {
                let k = choose|k: int| 0 <= k < front.len() && front[k] == last;
                assert(columns[k] == columns[columns.len() - 1]);
            }
        }
        lemma_choices_are_filtered(checked, front);
        let before = with_choices(initial_choice(checked), front);
        let after = with_choices(initial_choice(checked), columns);
        assert(after.columns =~= seq![ColumnId::ImageName] + columns.filter(wanted));
    }
}

proof fn lemma_numbers_are_appended(choice: ColumnChoice, count: int)
    requires
        1 <= count <= NUM_COLUMN,
    ensures
        ({
            let after = with_numbers(choice, count);
            &&& after.columns.len() >= choice.columns.len()
            &&& after.columns.take(choice.columns.len() as int) == choice.columns
            &&& forall|i: int|
                choice.columns.len() <= i < after.columns.len() ==> 1 <= (
                #[trigger] after.columns[i]).number() < count && choice.open.contains(
                    after.columns[i],
                )
            &&& forall|i: int, j: int|
                choice.columns.len() <= i < j < after.columns.len() ==> (
                #[trigger] after.columns[i]).number() < (#[trigger] after.columns[j]).number()
            &&& forall|column: ColumnId|
                1 <= column.number() < count && #[trigger] choice.open.contains(column)
                    ==> after.columns.contains(column)
            &&& forall|column: ColumnId| #[trigger]
                after.open.contains(column) <==> choice.open.contains(column) && !(1
                    <= column.number() < count)
        }),
    decreases count,
{
    if count == 1 {
        assert(choice.columns.take(choice.columns.len() as int) =~= choice.columns);
    } else {
        lemma_numbers_are_appended(choice, count - 1);
        let before = with_numbers(choice, count - 1);
        let after = with_numbers(choice, count);
        let next = column_numbered(count - 1)->0;
        assert(next.number() == count - 1);
        lemma_push_contains(before.columns, next);
        assert(after.columns.take(choice.columns.len() as int) =~= choice.columns) by {
            assert(before.columns.take(choice.columns.len() as int) =~= choice.columns);
            if before.open.contains(next) {
                assert(after.columns.take(choice.columns.len() as int)
                    =~= before.columns.take(choice.columns.len() as int));
            }
        }
        assert forall|column: ColumnId| column.number() == count - 1 implies column == next by {
            column_numbers_stand_for_columns(column);
        }
    }
}

/// The image name comes first, then the checked ones of the columns that were shown before, in
/// their order, and then the other checked ones in the order of all columns.
pub proof fn chosen_columns_keep_their_order(existing: Seq<ColumnId>, checked: Seq<bool>)
    requires
        checked.len() == NUM_COLUMN,
        existing.len() > 0,
        existing[0] == ColumnId::ImageName,
        existing.no_duplicates(),
    ensures
        ({
            let chosen = chosen_columns(existing, checked);
            let kept = existing.filter(is_wanted(checked));
            &&& kept.len() <= chosen.len()
            &&& chosen.take(kept.len() as int) == kept
            &&& forall|i: int|
                kept.len() <= i < chosen.len() ==> !existing.contains(#[trigger] chosen[i])
                    && checked[chosen[i].number()]
            &&& forall|i: int, j: int|
                kept.len() <= i < j < chosen.len() ==> (#[trigger] chosen[i]).number() < (
                #[trigger] chosen[j]).number()
        }),
{
    let rest = behind_first(existing);
    let wanted = is_wanted(checked);
    assert forall|i: int, j: int| 0 <= i < rest.len() && 0 <= j < rest.len() && i != j
        implies rest[i]
        != rest[j] by {
        assert(existing[i + 1] != existing[j + 1]);
    }
    assert(!rest.contains(ColumnId::ImageName)) by {
        if rest.contains(ColumnId::ImageName) {
            let k = choose|k: int| 0 <= k < rest.len() && rest[k] == ColumnId::ImageName;
            assert(existing[k + 1] == existing[0]);
        }
    }
    lemma_choices_are_filtered(checked, rest);
    let middle = with_choices(initial_choice(checked), rest);
    lemma_numbers_are_appended(middle, NUM_COLUMN as int);
    assert(existing =~= seq![ColumnId::ImageName] + rest);
    Seq::filter_distributes_over_add(seq![ColumnId::ImageName], rest, wanted);
    reveal(Seq::filter);
    assert(seq![ColumnId::ImageName].drop_last() =~= Seq::<ColumnId>::empty());
    assert(seq![ColumnId::ImageName].drop_last().filter(wanted) =~= Seq::<ColumnId>::empty());
    assert(seq![ColumnId::ImageName].filter(wanted) =~= seq![ColumnId::ImageName]);
    let chosen = chosen_columns(existing, checked);
    assert forall|i: int| middle.columns.len() <= i < chosen.len() implies !existing.contains(
        #[trigger] chosen[i],
    ) && checked[chosen[i].number()] by {
        let column = chosen[i];
        if existing.contains(column) {
            let k = choose|k: int| 0 <= k < existing.len() && existing[k] == column;
            if k > 0 {
                assert(rest[k - 1] == column);
            }
        }
    }
}

} // verus!
