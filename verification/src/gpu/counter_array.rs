//! Arrays of counter values of graphics adapters.
use vstd::prelude::*;

use super::counters::{CounterArrayItem, CounterArrayRead, CounterItemIssue, ItemIssueView};
use super::instances::malformed;
use super::model::GpuSampleError;
use crate::pdh::{
    array_fits, is_array_inside, name_at, read_bounded_name, words_for, CounterBuffer, NameFault,
    RawCounterItem, MAX_PDH_ARRAY_BYTES, WORD_SIZE,
};
use crate::win32::{
    ERROR_SUCCESS, PDH_CSTATUS_NEW_DATA, PDH_CSTATUS_VALID_DATA, PDH_MORE_DATA,
};

verus! {

/// What to do after the size of an array was asked for.
#[derive(Clone, Copy, Debug, PartialEq, Eq, Structural)]
pub enum ArraySize {
    Empty,
    Words(usize),
}

/// Decides on the answer to the question for the size of an array.
pub fn array_size(status: u32, byte_count: u32, item_count: u32) -> (outcome: Result<
    ArraySize,
    GpuSampleError,
>)
    ensures
        if status == ERROR_SUCCESS && item_count == 0 {
            outcome == Ok::<ArraySize, GpuSampleError>(ArraySize::Empty)
        } else if status != PDH_MORE_DATA {
            outcome == Err::<ArraySize, GpuSampleError>(
                GpuSampleError::Pdh { context: "PdhGetFormattedCounterArrayW size query", status },
            )
        } else if byte_count == 0 || byte_count > MAX_PDH_ARRAY_BYTES {
            outcome == malformed::<ArraySize>("GPU PDH array buffer size")
        } else {
            outcome matches Ok(ArraySize::Words(words)) && (words - 1) * WORD_SIZE < byte_count
                <= words * WORD_SIZE
        },
{
    if status == ERROR_SUCCESS && item_count == 0 {
        return Ok(ArraySize::Empty);
    }
    if status != PDH_MORE_DATA {
        return Err(
            GpuSampleError::Pdh { context: "PdhGetFormattedCounterArrayW size query", status },
        );
    }
    if byte_count == 0 || byte_count > MAX_PDH_ARRAY_BYTES {
        return Err(GpuSampleError::InvalidData { context: "GPU PDH array buffer size" });
    }
    Ok(ArraySize::Words(words_for(byte_count)))
}

/// Decides whether the array that was delivered may be read.
pub fn check_array(status: u32, byte_count: u32, item_count: u32, storage_words: usize) -> (outcome:
    Result<(), GpuSampleError>)
    ensures
        outcome == if status != ERROR_SUCCESS {
            Err::<(), GpuSampleError>(
                GpuSampleError::Pdh { context: "PdhGetFormattedCounterArrayW data query", status },
            )
        } else if !array_fits(byte_count as int, item_count as int, storage_words as int) {
            malformed("GPU PDH array item bounds")
        } else {
            Ok(())
        },
{
    if status != ERROR_SUCCESS {
        return Err(
            GpuSampleError::Pdh { context: "PdhGetFormattedCounterArrayW data query", status },
        );
    }
    if !is_array_inside(byte_count, item_count, storage_words) {
        return Err(GpuSampleError::InvalidData { context: "GPU PDH array item bounds" });
    }
    Ok(())
}

pub open spec fn name_error(fault: NameFault) -> GpuSampleError {
    match fault {
        NameFault::Pointer => GpuSampleError::InvalidData {
            context: "GPU PDH instance name pointer",
        },
        NameFault::Terminator => GpuSampleError::InvalidData {
            context: "GPU PDH instance name terminator",
        },
        NameFault::Encoding => GpuSampleError::InvalidData {
            context: "GPU PDH instance name encoding",
        },
    }
}

fn name_fault_error(fault: NameFault) -> (error: GpuSampleError)
    ensures
        error == name_error(fault),
{
    match fault {
        NameFault::Pointer => GpuSampleError::InvalidData {
            context: "GPU PDH instance name pointer",
        },
        NameFault::Terminator => GpuSampleError::InvalidData {
            context: "GPU PDH instance name terminator",
        },
        NameFault::Encoding => GpuSampleError::InvalidData {
            context: "GPU PDH instance name encoding",
        },
    }
}

/// Why an item has no value, if it has none.
pub open spec fn item_issue<V>(buffer: CounterBuffer, item: RawCounterItem<V>) -> Option<
    ItemIssueView,
> {
    match name_at(buffer, item.name_address as int) {
        Err(fault) => Some(ItemIssueView { instance_name: None, error: name_error(fault) }),
        Ok(name) => if item.status != PDH_CSTATUS_VALID_DATA && item.status
            != PDH_CSTATUS_NEW_DATA {
            Some(
                ItemIssueView {
                    instance_name: Some(name),
                    error: GpuSampleError::Pdh {
                        context: "GPU PDH counter value status",
                        status: item.status,
                    },
                },
            )
        } else {
            None
        },
    }
}

/// The items with a value, each with its name.
pub open spec fn named_values<V>(buffer: CounterBuffer, items: Seq<RawCounterItem<V>>) -> Seq<
    (Seq<char>, V),
>
    decreases items.len(),
{
    if items.len() == 0 {
        Seq::empty()
    } else {
        let before = named_values(buffer, items.drop_last());
        if item_issue(buffer, items.last()) is None {
            before.push(
                (name_at(buffer, items.last().name_address as int)->Ok_0, items.last().value),
            )
        } else {
            before
        }
    }
}

/// What is wrong with the other items.
pub open spec fn item_issues<V>(buffer: CounterBuffer, items: Seq<RawCounterItem<V>>) -> Seq<
    ItemIssueView,
>
    decreases items.len(),
{
    if items.len() == 0 {
        Seq::empty()
    } else {
        let before = item_issues(buffer, items.drop_last());
        match item_issue(buffer, items.last()) {
            None => before,
            Some(found) => before.push(found),
        }
    }
}

pub open spec fn item_views<V>(items: Seq<CounterArrayItem<V>>) -> Seq<(Seq<char>, V)> {
    items.map_values(|item: CounterArrayItem<V>| (item.name@, item.value))
}

/// Reads the items of an array. One that cannot be used becomes an issue.
pub fn decode_counter_array<V: Copy>(
    buffer: &CounterBuffer,
    items: &Vec<RawCounterItem<V>>,
) -> (read: CounterArrayRead<V>)
    requires
        buffer.well_formed(),
    ensures
        item_views(read.values@) == named_values(*buffer, items@),
        read.issues@.map_values(|noted: CounterItemIssue| noted@) == item_issues(*buffer, items@),
{
    let mut values: Vec<CounterArrayItem<V>> = Vec::new();
    let mut issues: Vec<CounterItemIssue> = Vec::new();
    let ghost issue_view = |noted: CounterItemIssue| noted@;
    assert(items@.take(0) =~= Seq::<RawCounterItem<V>>::empty());
    for index in 0..items.len()
        invariant
            buffer.well_formed(),
            issue_view == (|noted: CounterItemIssue| noted@),
            item_views(values@) =~= named_values(*buffer, items@.take(index as int)),
            issues@.map_values(issue_view) =~= item_issues(*buffer, items@.take(index as int)),
    {
        assert(items@.take(index + 1).drop_last() =~= items@.take(index as int));
        let item = &items[index];
        let ghost known = values@;
        let ghost before = issues@;
        match read_bounded_name(buffer, item.name_address) {
            Err(fault) => {
                let noted = CounterItemIssue {
                    instance_name: None,
                    error: name_fault_error(fault),
                };
                issues.push(noted);
                assert(issues@.map_values(issue_view) =~= before.map_values(issue_view).push(
                    noted@,
                ));
            },
            Ok(name) => {
                if item.status != PDH_CSTATUS_VALID_DATA && item.status != PDH_CSTATUS_NEW_DATA {
                    let noted = CounterItemIssue {
                        instance_name: Some(name),
                        error: GpuSampleError::Pdh {
                            context: "GPU PDH counter value status",
                            status: item.status,
                        },
                    };
                    issues.push(noted);
                    assert(issues@.map_values(issue_view) =~= before.map_values(issue_view).push(
                        noted@,
                    ));
                } else {
                    let ghost text = name@;
                    values.push(CounterArrayItem { name, value: item.value });
                    assert(item_views(values@) =~= item_views(known).push((text, item.value)));
                }
            },
        }
    }
    assert(items@.take(items@.len() as int) =~= items@);
    CounterArrayRead { values, issues }
}

} // verus!
