//! The state of the page as a whole, and the errors behind it.
use vstd::prelude::*;

use super::model::GpuSampleError;
use crate::text::same_text;

verus! {

#[derive(Clone, Copy, Debug, PartialEq, Eq, Structural)]
pub enum GpuPageStatus {
    Loading,
    LoadingPerformance,
    LoadingDetails,
    Ready,
    Partial,
    NoHardware,
    Unsupported,
    Failed,
    Stale,
}

impl Default for GpuPageStatus {
    fn default() -> (status: Self)
        ensures
            status == GpuPageStatus::Loading,
    {
        GpuPageStatus::Loading
    }
}

/// The state after a sample failed: what is shown is stale if there was a sample before.
pub open spec fn failed_status(has_snapshot: bool, unsupported: bool) -> GpuPageStatus {
    if has_snapshot {
        GpuPageStatus::Stale
    } else if unsupported {
        GpuPageStatus::Unsupported
    } else {
        GpuPageStatus::Failed
    }
}

pub fn status_after_refresh_error(has_snapshot: bool, unsupported: bool) -> (status: GpuPageStatus)
    ensures
        status == failed_status(has_snapshot, unsupported),
{
    if has_snapshot {
        GpuPageStatus::Stale
    } else if unsupported {
        GpuPageStatus::Unsupported
    } else {
        GpuPageStatus::Failed
    }
}

/// Whether a list of adapters belongs to another generation than the one before it.
pub fn snapshot_generation_changed(current: Option<u64>, candidate: u64) -> (changed: bool)
    ensures
        changed == (current matches Some(current) && current != candidate),
{
    match current {
        Some(current) => current != candidate,
        None => false,
    }
}

/// Whether a sample was taken after the one before it.
pub fn snapshot_timestamp_advances(current: Option<u64>, candidate: u64) -> (advances: bool)
    ensures
        advances == (current matches Some(current) ==> current < candidate),
{
    match current {
        Some(current) => current < candidate,
        None => true,
    }
}

/// An error with its context as a sequence of characters.
pub enum ErrorView {
    Pdh(Seq<char>, u32),
    HResult(Seq<char>, i32),
    NtStatus(Seq<char>, i32),
    Win32(Seq<char>, u32),
    InvalidData(Seq<char>),
}

impl View for GpuSampleError {
    type V = ErrorView;

    open spec fn view(&self) -> ErrorView {
        match self {
            GpuSampleError::Pdh { context, status } => ErrorView::Pdh(context@, *status),
            GpuSampleError::HResult { context, code } => ErrorView::HResult(context@, *code),
            GpuSampleError::NtStatus { context, status } => ErrorView::NtStatus(context@, *status),
            GpuSampleError::Win32 { context, code } => ErrorView::Win32(context@, *code),
            GpuSampleError::InvalidData { context } => ErrorView::InvalidData(context@),
        }
    }
}

impl GpuSampleError {
    pub fn same_as(&self, other: &GpuSampleError) -> (same: bool)
        ensures
            same == (self@ == other@),
    {
        match (self, other) {
            (
                GpuSampleError::Pdh { context: a, status: x },
                GpuSampleError::Pdh { context: b, status: y },
            ) => *x == *y && same_text(a, b),
            (
                GpuSampleError::HResult { context: a, code: x },
                GpuSampleError::HResult { context: b, code: y },
            ) => *x == *y && same_text(a, b),
            (
                GpuSampleError::NtStatus { context: a, status: x },
                GpuSampleError::NtStatus { context: b, status: y },
            ) => *x == *y && same_text(a, b),
            (
                GpuSampleError::Win32 { context: a, code: x },
                GpuSampleError::Win32 { context: b, code: y },
            ) => *x == *y && same_text(a, b),
            (
                GpuSampleError::InvalidData { context: a },
                GpuSampleError::InvalidData { context: b },
            ) => same_text(a, b),
            _ => false,
        }
    }
}

/// Whether a list holds an error.
pub open spec fn holds_error(errors: Seq<GpuSampleError>, error: GpuSampleError) -> bool {
    exists|i: int| 0 <= i < errors.len() && (#[trigger] errors[i])@ == error@
}

fn contains_error(errors: &Vec<GpuSampleError>, error: &GpuSampleError) -> (found: bool)
    ensures
        found == holds_error(errors@, *error),
{
    for index in 0..errors.len()
        invariant
            forall|i: int| 0 <= i < index ==> (#[trigger] errors@[i])@ != error@,
    {
        if errors[index].same_as(error) {
            return true;
        }
    }
    false
}

/// The errors of a list, each once.
pub open spec fn distinct_errors(errors: Seq<GpuSampleError>) -> Seq<GpuSampleError>
    decreases errors.len(),
{
    if errors.len() == 0 {
        errors
    } else {
        let earlier = distinct_errors(errors.drop_last());
        if holds_error(earlier, errors.last()) {
            earlier
        } else {
            earlier.push(errors.last())
        }
    }
}

/// The errors of a list that another list does not hold.
pub open spec fn new_errors(errors: Seq<GpuSampleError>, known: Seq<GpuSampleError>) -> Seq<
    GpuSampleError,
>
    decreases errors.len(),
{
    if errors.len() == 0 {
        errors
    } else {
        let earlier = new_errors(errors.drop_last(), known);
        if holds_error(known, errors.last()) {
            earlier
        } else {
            earlier.push(errors.last())
        }
    }
}

pub fn find_distinct(errors: &Vec<GpuSampleError>) -> (distinct: Vec<GpuSampleError>)
    ensures
        distinct@ == distinct_errors(errors@),
{
    let mut distinct: Vec<GpuSampleError> = Vec::new();
    assert(distinct@ =~= errors@.take(0));
    for index in 0..errors.len()
        invariant
            distinct@ == distinct_errors(errors@.take(index as int)),
    {
        assert(errors@.take(index + 1).drop_last() =~= errors@.take(index as int));
        if !contains_error(&distinct, &errors[index]) {
            distinct.push(errors[index]);
        }
    }
    assert(errors@.take(errors@.len() as int) =~= errors@);
    distinct
}

pub fn find_new(errors: &Vec<GpuSampleError>, known: &Vec<GpuSampleError>) -> (fresh: Vec<
    GpuSampleError,
>)
    ensures
        fresh@ == new_errors(errors@, known@),
{
    let mut fresh: Vec<GpuSampleError> = Vec::new();
    assert(fresh@ =~= errors@.take(0));
    for index in 0..errors.len()
        invariant
            fresh@ == new_errors(errors@.take(index as int), known@),
    {
        assert(errors@.take(index + 1).drop_last() =~= errors@.take(index as int));
        if !contains_error(known, &errors[index]) {
            fresh.push(errors[index]);
        }
    }
    assert(errors@.take(errors@.len() as int) =~= errors@);
    fresh
}

proof fn lemma_known_errors(errors: Seq<GpuSampleError>, known: Seq<GpuSampleError>)
    requires
        forall|i: int| 0 <= i < errors.len() ==> holds_error(known, #[trigger] errors[i]),
    ensures
        new_errors(errors, known).len() == 0,
    decreases errors.len(),
{
    if errors.len() > 0 {
        assert forall|i: int| 0 <= i < errors.drop_last().len() implies holds_error(
            known,
            #[trigger] errors.drop_last()[i],
        ) by {
            assert(holds_error(known, errors[i]));
        }
        lemma_known_errors(errors.drop_last(), known);
        assert(holds_error(known, errors[errors.len() - 1]));
    }
}

/// Errors that stay the same from one sample to the next are put on record once.
pub proof fn repeated_errors_are_not_new(errors: Seq<GpuSampleError>)
    ensures
        new_errors(errors, errors).len() == 0,
{
    assert forall|i: int| 0 <= i < errors.len() implies holds_error(
        errors,
        #[trigger] errors[i],
    ) by {}
    lemma_known_errors(errors, errors);
}

} // verus!
