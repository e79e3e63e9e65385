//! The page of the graphics adapters: what was learned of them, and what is chosen.
//!
//! The list of adapters, their samples and their metadata come from different sources, one by
//! one. A source that fails leaves what the others delivered as it is.
use std::sync::Arc;

use vstd::prelude::*;

use super::adapter_history::{fresh_history, with_sample, AdapterHistory, AdapterHistoryView};
use super::counters::{contains_id, displayed_ids};
use super::metadata::metadata_ids;
use super::model::{
    GpuAdapterId, GpuAdapterInfo, GpuAdapterMetadata, GpuAdapterSample, GpuCollectOutcome,
    GpuDynamicSnapshot, GpuEngineId, GpuEngineKind, GpuInventorySnapshot, GpuMetadataRequest,
    GpuMetadataSnapshot, GpuSampleError,
};
use super::status::{
    distinct_errors, failed_status, find_distinct, find_new, new_errors,
    snapshot_generation_changed, snapshot_timestamp_advances, status_after_refresh_error,
    GpuPageStatus,
};
use crate::options::Options;
use crate::perf_drawing::GRAPH_GRID;
use crate::table::{has_key, Table};
use crate::text::{copy_of, same_text};
use crate::win32::{ERROR_BROKEN_PIPE, PDH_CSTATUS_NO_COUNTER, PDH_CSTATUS_NO_OBJECT, PDH_INVALID_PATH};

verus! {

pub struct GpuPageState {
    pub no_title: bool,
    pub inventory: Option<GpuInventorySnapshot>,
    pub dynamic_snapshot: Option<GpuDynamicSnapshot>,
    pub metadata: Table<GpuAdapterId, GpuAdapterMetadata>,
    /// Whether metadata are being collected or will be.
    pub metadata_busy: bool,
    pub status: GpuPageStatus,
    pub last_dynamic_error: Option<GpuSampleError>,
    pub last_metadata_error: Option<GpuSampleError>,
    pub last_dynamic_aux_errors: Vec<GpuSampleError>,
    pub last_metadata_aux_errors: Vec<GpuSampleError>,
    pub selected_adapter: Option<GpuAdapterId>,
    pub adapter_signature: Vec<(GpuAdapterId, String)>,
    pub adapter_options: Vec<GpuAdapterId>,
    pub current_engine_options: Vec<(GpuEngineId, GpuEngineKind)>,
    pub engine_selections: Table<GpuAdapterId, [Option<GpuEngineId>; 4]>,
    pub histories: Table<GpuAdapterId, AdapterHistory>,
    pub graph_scroll_offset: i32,
    pub page_scroll_position: i32,
    pub content_height: i32,
}

/// What became of something that a source delivered.
pub enum CommitOutcome {
    /// It belongs to another list of adapters.
    Ignored,
    /// It is faulty. The flag tells whether the error is put on record.
    Refused(GpuSampleError, bool),
    /// It is shown. The errors in it that are new are put on record.
    Committed(Vec<GpuSampleError>),
}

/// What a round of sampling came to for the page.
pub enum PageUpdate {
    /// A list of adapters. Another round follows at once.
    Inventory(InventoryOutcome),
    /// The counters have no values yet.
    Waiting,
    Sample(CommitOutcome),
    /// The round failed. The flag tells whether the error is put on record.
    Failed(GpuSampleError, bool),
}

/// Whether another round is requested after some completions, one of which was a list of
/// adapters if `listed`.
pub fn needs_follow_up(listed: bool, in_flight: bool) -> (needed: bool)
    ensures
        needed == (listed && !in_flight),
{
    listed && !in_flight
}

/// What became of a list of adapters.
pub enum InventoryOutcome {
    /// It is faulty. The flag tells whether the error is put on record.
    Refused(GpuSampleError, bool),
    /// It is shown. The flag tells whether the choice of adapters changes; the request is for
    /// their metadata.
    Committed(bool, Option<GpuMetadataRequest>),
}

pub open spec fn unsupported(error: GpuSampleError) -> bool {
    error.pdh_status() matches Some(status) && (status == PDH_CSTATUS_NO_OBJECT || status
        == PDH_CSTATUS_NO_COUNTER || status == PDH_INVALID_PATH)
}

/// Whether one list names the same adapters as another, each once.
pub open spec fn ids_match(ids: Seq<GpuAdapterId>, expected: Seq<GpuAdapterId>) -> bool {
    ids.no_duplicates() && ids.to_set() == expected.to_set()
}

pub open spec fn sample_ids(samples: Seq<GpuAdapterSample>) -> Seq<GpuAdapterId> {
    samples.map_values(|sample: GpuAdapterSample| sample.info.id)
}

/// The names in the choice of adapters.
pub open spec fn signature_of(infos: Seq<Arc<GpuAdapterInfo>>) -> Seq<(GpuAdapterId, Seq<char>)> {
    infos.map_values(|info: Arc<GpuAdapterInfo>| (info.id, info.name@))
}

pub open spec fn signature_views(signature: Seq<(GpuAdapterId, String)>) -> Seq<
    (GpuAdapterId, Seq<char>),
> {
    signature.map_values(|entry: (GpuAdapterId, String)| (entry.0, entry.1@))
}

pub open spec fn history_map(histories: Map<GpuAdapterId, AdapterHistory>) -> Map<
    GpuAdapterId,
    AdapterHistoryView,
> {
    histories.map_values(|history: AdapterHistory| history@)
}

/// The history of an adapter, or a fresh one.
pub open spec fn history_of(
    histories: Map<GpuAdapterId, AdapterHistoryView>,
    id: GpuAdapterId,
) -> AdapterHistoryView {
    if histories.contains_key(id) {
        histories[id]
    } else {
        fresh_history()
    }
}

/// The histories after each adapter was sampled once more.
pub open spec fn with_samples(
    histories: Map<GpuAdapterId, AdapterHistoryView>,
    samples: Seq<GpuAdapterSample>,
) -> Map<GpuAdapterId, AdapterHistoryView>
    decreases samples.len(),
{
    if samples.len() == 0 {
        histories
    } else {
        let earlier = with_samples(histories, samples.drop_last());
        let sample = samples.last();
        earlier.insert(sample.info.id, with_sample(history_of(earlier, sample.info.id), sample))
    }
}

pub open spec fn sample_errors(samples: Seq<GpuAdapterSample>) -> Seq<GpuSampleError>
    decreases samples.len(),
{
    if samples.len() == 0 {
        Seq::empty()
    } else {
        sample_errors(samples.drop_last()) + samples.last().row_errors@
    }
}

pub open spec fn adapter_errors(metadata: Seq<GpuAdapterMetadata>) -> Seq<GpuSampleError>
    decreases metadata.len(),
{
    if metadata.len() == 0 {
        Seq::empty()
    } else {
        adapter_errors(metadata.drop_last()) + metadata.last().metadata_errors@
    }
}

pub open spec fn metadata_map(metadata: Seq<GpuAdapterMetadata>) -> Map<
    GpuAdapterId,
    GpuAdapterMetadata,
>
    decreases metadata.len(),
{
    if metadata.len() == 0 {
        Map::empty()
    } else {
        metadata_map(metadata.drop_last()).insert(metadata.last().id, metadata.last())
    }
}

fn no_id_twice(ids: &Vec<GpuAdapterId>) -> (distinct: bool)
    ensures
        distinct == ids@.no_duplicates(),
{
    let mut seen: Vec<GpuAdapterId> = Vec::new();
    for index in 0..ids.len()
        invariant
            seen@ =~= ids@.take(index as int),
            seen@.no_duplicates(),
    {
        if contains_id(&seen, ids[index]) {
            proof {
                let i = choose|i: int| 0 <= i < seen@.len() && seen@[i] == ids@[index as int];
                assert(ids@[i] == ids@[index as int]);
            }
            return false;
        }
        seen.push(ids[index]);
    }
    assert(seen@ =~= ids@);
    true
}

fn match_ids(ids: &Vec<GpuAdapterId>, expected: &Vec<GpuAdapterId>) -> (matched: bool)
    ensures
        matched == ids_match(ids@, expected@),
{
    if !no_id_twice(ids) {
        return false;
    }
    for index in 0..ids.len()
        invariant
            forall|i: int| 0 <= i < index ==> expected@.contains(#[trigger] ids@[i]),
    {
        if !contains_id(expected, ids[index]) {
            assert(ids@.to_set().contains(ids@[index as int]));
            assert(!expected@.to_set().contains(ids@[index as int]));
            return false;
        }
    }
    for index in 0..expected.len()
        invariant
            forall|i: int| 0 <= i < index ==> ids@.contains(#[trigger] expected@[i]),
    {
        if !contains_id(ids, expected[index]) {
            assert(expected@.to_set().contains(expected@[index as int]));
            assert(!ids@.to_set().contains(expected@[index as int]));
            return false;
        }
    }
    assert(ids@.to_set() =~= expected@.to_set());
    true
}

fn ids_of_infos(infos: &Vec<Arc<GpuAdapterInfo>>) -> (ids: Vec<GpuAdapterId>)
    ensures
        ids@ == displayed_ids(infos@),
{
    let mut ids: Vec<GpuAdapterId> = Vec::new();
    for index in 0..infos.len()
        invariant
            ids@ =~= displayed_ids(infos@).take(index as int),
    {
        ids.push(infos[index].id);
    }
    assert(ids@ =~= displayed_ids(infos@));
    ids
}

fn ids_of_samples(samples: &Vec<GpuAdapterSample>) -> (ids: Vec<GpuAdapterId>)
    ensures
        ids@ == sample_ids(samples@),
{
    let mut ids: Vec<GpuAdapterId> = Vec::new();
    for index in 0..samples.len()
        invariant
            ids@ =~= sample_ids(samples@).take(index as int),
    {
        ids.push(samples[index].info.id);
    }
    assert(ids@ =~= sample_ids(samples@));
    ids
}

fn ids_of_metadata(metadata: &Vec<GpuAdapterMetadata>) -> (ids: Vec<GpuAdapterId>)
    ensures
        ids@ == metadata_ids(metadata@),
{
    let mut ids: Vec<GpuAdapterId> = Vec::new();
    for index in 0..metadata.len()
        invariant
            ids@ =~= metadata_ids(metadata@).take(index as int),
    {
        ids.push(metadata[index].id);
    }
    assert(ids@ =~= metadata_ids(metadata@));
    ids
}

fn signature(infos: &Vec<Arc<GpuAdapterInfo>>) -> (signature: Vec<(GpuAdapterId, String)>)
    ensures
        signature_views(signature@) == signature_of(infos@),
{
    let mut signature: Vec<(GpuAdapterId, String)> = Vec::new();
    for index in 0..infos.len()
        invariant
            signature_views(signature@) =~= signature_of(infos@).take(index as int),
    {
        let ghost known = signature_views(signature@);
        let name = copy_of(infos[index].name.as_str());
        let id = infos[index].id;
        signature.push((id, name));
        assert(signature_views(signature@) =~= known.push((id, name@)));
        assert(signature_of(infos@)[index as int] == (id, name@));
    }
    assert(signature_views(signature@) =~= signature_of(infos@));
    signature
}

fn same_signature(
    first: &Vec<(GpuAdapterId, String)>,
    second: &Vec<(GpuAdapterId, String)>,
) -> (same: bool)
    ensures
        same == (signature_views(first@) == signature_views(second@)),
{
    if first.len() != second.len() {
        assert(signature_views(first@).len() != signature_views(second@).len());
        return false;
    }
    for index in 0..first.len()
        invariant
            first@.len() == second@.len(),
            forall|i: int|
                0 <= i < index ==> #[trigger] signature_views(first@)[i] == signature_views(
                    second@,
                )[i],
    {
        let left = &first[index];
        let right = &second[index];
        if left.0 != right.0 || !same_text(left.1.as_str(), right.1.as_str()) {
            assert(signature_views(first@)[index as int] != signature_views(
                second@,
            )[index as int]);
            return false;
        }
    }
    assert(signature_views(first@) =~= signature_views(second@));
    true
}

fn copied_adapters(infos: &Vec<Arc<GpuAdapterInfo>>) -> (copied: Vec<Arc<GpuAdapterInfo>>)
    ensures
        copied@ == infos@,
{
    let mut copied: Vec<Arc<GpuAdapterInfo>> = Vec::new();
    for index in 0..infos.len()
        invariant
            copied@ =~= infos@.take(index as int),
    {
        copied.push(Arc::clone(&infos[index]));
    }
    copied
}

fn errors_in_samples(samples: &Vec<GpuAdapterSample>) -> (errors: Vec<GpuSampleError>)
    ensures
        errors@ == sample_errors(samples@),
{
    let mut errors: Vec<GpuSampleError> = Vec::new();
    assert(samples@.take(0) =~= Seq::<GpuAdapterSample>::empty());
    for at in 0..samples.len()
        invariant
            errors@ == sample_errors(samples@.take(at as int)),
    {
        let rows = &samples[at].row_errors;
        let ghost before = errors@;
        assert(samples@.take(at + 1).drop_last() =~= samples@.take(at as int));
        for index in 0..rows.len()
            invariant
                errors@ =~= before + rows@.take(index as int),
        {
            errors.push(rows[index]);
        }
        assert(rows@.take(rows@.len() as int) =~= rows@);
    }
    assert(samples@.take(samples@.len() as int) =~= samples@);
    errors
}

fn errors_in_metadata(metadata: &Vec<GpuAdapterMetadata>) -> (errors: Vec<GpuSampleError>)
    ensures
        errors@ == adapter_errors(metadata@),
{
    let mut errors: Vec<GpuSampleError> = Vec::new();
    assert(metadata@.take(0) =~= Seq::<GpuAdapterMetadata>::empty());
    for at in 0..metadata.len()
        invariant
            errors@ == adapter_errors(metadata@.take(at as int)),
    {
        let rows = &metadata[at].metadata_errors;
        let ghost before = errors@;
        assert(metadata@.take(at + 1).drop_last() =~= metadata@.take(at as int));
        for index in 0..rows.len()
            invariant
                errors@ =~= before + rows@.take(index as int),
        {
            errors.push(rows[index]);
        }
        assert(rows@.take(rows@.len() as int) =~= rows@);
    }
    assert(metadata@.take(metadata@.len() as int) =~= metadata@);
    errors
}

/// Whether an error is the one that was there before.
pub open spec fn is_known_error(last: Option<GpuSampleError>, error: GpuSampleError) -> bool {
    last matches Some(known) && known@ == error@
}

fn knows_error(last: &Option<GpuSampleError>, error: &GpuSampleError) -> (known: bool)
    ensures
        known == is_known_error(*last, *error),
{
    match last {
        Some(known) => known.same_as(error),
        None => false,
    }
}

impl GpuPageState {
    pub open spec fn well_formed(&self) -> bool {
        &&& self.metadata.well_formed()
        &&& self.engine_selections.well_formed()
        &&& self.histories.well_formed()
        &&& forall|id: GpuAdapterId| #[trigger]
            self.histories@.contains_key(id) ==> self.histories@[id].well_formed()
        &&& 0 <= self.graph_scroll_offset < GRAPH_GRID
    }

    pub fn new() -> (state: Self)
        ensures
            state.well_formed(),
            !state.no_title,
            state.inventory is None,
            state.dynamic_snapshot is None,
            state.metadata@ == Map::<GpuAdapterId, GpuAdapterMetadata>::empty(),
            !state.metadata_busy,
            state.status == GpuPageStatus::Loading,
            state.last_dynamic_error is None,
            state.last_metadata_error is None,
            state.last_dynamic_aux_errors@.len() == 0,
            state.last_metadata_aux_errors@.len() == 0,
            state.selected_adapter is None,
            state.adapter_signature@.len() == 0,
            state.adapter_options@.len() == 0,
            state.current_engine_options@.len() == 0,
            state.engine_selections@ == Map::<GpuAdapterId, [Option<GpuEngineId>; 4]>::empty(),
            state.histories@ == Map::<GpuAdapterId, AdapterHistory>::empty(),
            state.graph_scroll_offset == 0,
            state.page_scroll_position == 0,
            state.content_height == 0,
    {
        GpuPageState {
            no_title: false,
            inventory: None,
            dynamic_snapshot: None,
            metadata: Table::new(),
            metadata_busy: false,
            status: GpuPageStatus::Loading,
            last_dynamic_error: None,
            last_metadata_error: None,
            last_dynamic_aux_errors: Vec::new(),
            last_metadata_aux_errors: Vec::new(),
            selected_adapter: None,
            adapter_signature: Vec::new(),
            adapter_options: Vec::new(),
            current_engine_options: Vec::new(),
            engine_selections: Table::new(),
            histories: Table::new(),
            graph_scroll_offset: 0,
            page_scroll_position: 0,
            content_height: 0,
        }
    }

    /// Takes over the options, and tells whether the page has to be laid out anew.
    pub fn apply_options(&mut self, options: &Options) -> (changed: bool)
        ensures
            changed == (old(self).no_title != options.hide_title),
            *final(self) == (GpuPageState {
                no_title: options.hide_title,
                page_scroll_position: if changed {
                    0
                } else {
                    old(self).page_scroll_position
                },
                ..*old(self)
            }),
    {
        let no_title = options.hide_title;
        if self.no_title != no_title {
            self.no_title = no_title;
            self.page_scroll_position = 0;
            true
        } else {
            false
        }
    }

    pub fn no_title(&self) -> (no_title: bool)
        ensures
            no_title == self.no_title,
    {
        self.no_title
    }

    /// Whether something could not be learned of some adapter.
    pub open spec fn lacks_metadata(&self) -> bool {
        exists|id: GpuAdapterId| #[trigger]
            self.metadata@.contains_key(id) && self.metadata@[id].metadata_errors@.len() > 0
    }

    /// The state that follows from what was learned so far.
    pub open spec fn status_of(&self) -> GpuPageStatus {
        match self.inventory {
            None => match self.last_dynamic_error {
                Some(error) => failed_status(false, unsupported(error)),
                None => GpuPageStatus::Loading,
            },
            Some(inventory) => if inventory.adapters@.len() == 0 {
                GpuPageStatus::NoHardware
            } else {
                match self.last_dynamic_error {
                    Some(error) => failed_status(
                        self.dynamic_snapshot is Some,
                        unsupported(error),
                    ),
                    None => if self.dynamic_snapshot is None {
                        GpuPageStatus::LoadingPerformance
                    } else if self.last_metadata_error is Some
                        || self.last_dynamic_aux_errors@.len() > 0 || self.lacks_metadata() {
                        GpuPageStatus::Partial
                    } else if self.metadata_busy || self.metadata@.dom().len()
                        != inventory.adapters@.len() {
                        GpuPageStatus::LoadingDetails
                    } else {
                        GpuPageStatus::Ready
                    },
                }
            },
        }
    }

    fn has_metadata_error(&self) -> (found: bool)
        requires
            self.metadata.well_formed(),
        ensures
            found == self.lacks_metadata(),
    {
        let count: usize = self.metadata.len();
        proof {
            self.metadata.lemma_entries();
        }
        for index in 0..count
            invariant
                self.metadata.well_formed(),
                count == self.metadata.entries().len(),
                forall|i: int|
                    0 <= i < index ==> (
                    #[trigger] self.metadata.entries()[i]).1.metadata_errors@.len() == 0,
        {
            proof {
                self.metadata.lemma_entries();
            }
            let entry = self.metadata.entry(index);
            if entry.1.metadata_errors.len() > 0 {
                assert(self.metadata@.contains_key(entry.0));
                return true;
            }
        }
        proof {
            self.metadata.lemma_entries();
            assert forall|id: GpuAdapterId| #[trigger]
                self.metadata@.contains_key(id) implies self.metadata@[id].metadata_errors@.len()
                == 0 by {
                let entries = self.metadata.entries();
                assert(has_key(entries, id));
                let i = choose|i: int| 0 <= i < entries.len() && #[trigger] entries[i].0 == id;
                assert(entries[i].1.metadata_errors@.len() == 0);
            }
        }
        false
    }

    pub fn derive_status(&self) -> (status: GpuPageStatus)
        requires
            self.well_formed(),
        ensures
            status == self.status_of(),
    {
        let adapter_count: usize = match &self.inventory {
            None => return match &self.last_dynamic_error {
                Some(error) => status_after_refresh_error(false, error.is_unsupported()),
                None => GpuPageStatus::Loading,
            },
            Some(inventory) => inventory.adapters.len(),
        };
        if adapter_count == 0 {
            return GpuPageStatus::NoHardware;
        }
        if let Some(error) = &self.last_dynamic_error {
            return status_after_refresh_error(
                self.dynamic_snapshot.is_some(),
                error.is_unsupported(),
            );
        }
        if self.dynamic_snapshot.is_none() {
            return GpuPageStatus::LoadingPerformance;
        }
        if self.last_metadata_error.is_some() || self.last_dynamic_aux_errors.len() > 0
            || self.has_metadata_error() {
            return GpuPageStatus::Partial;
        }
        proof {
            self.metadata.lemma_len();
        }
        if self.metadata_busy || self.metadata.len() != adapter_count {
            GpuPageStatus::LoadingDetails
        } else {
            GpuPageStatus::Ready
        }
    }

    pub fn update_status(&mut self)
        requires
            old(self).well_formed(),
        ensures
            final(self).well_formed(),
            *final(self) == (GpuPageState { status: old(self).status_of(), ..*old(self) }),
    {
        self.status = self.derive_status();
    }

    /// The page after a sample failed.
    pub open spec fn after_dynamic_error(self, error: GpuSampleError) -> GpuPageState {
        GpuPageState {
            last_dynamic_error: Some(error),
            status: failed_status(self.dynamic_snapshot is Some, unsupported(error)),
            ..self
        }
    }

    /// Notes that a sample failed, and tells whether that is put on record.
    pub fn handle_dynamic_error(&mut self, error: GpuSampleError) -> (recorded: bool)
        requires
            old(self).well_formed(),
        ensures
            final(self).well_formed(),
            *final(self) == old(self).after_dynamic_error(error),
            recorded == !is_known_error(old(self).last_dynamic_error, error),
    {
        let recorded = !knows_error(&self.last_dynamic_error, &error);
        self.last_dynamic_error = Some(error);
        self.status = status_after_refresh_error(
            self.dynamic_snapshot.is_some(),
            error.is_unsupported(),
        );
        recorded
    }

    /// The page after metadata could not be collected.
    pub open spec fn after_metadata_error(self, error: GpuSampleError) -> GpuPageState {
        let noted = GpuPageState { last_metadata_error: Some(error), ..self };
        GpuPageState { status: noted.status_of(), ..noted }
    }

    /// Notes that metadata could not be collected, and tells whether that is put on record.
    pub fn handle_metadata_error(&mut self, error: GpuSampleError) -> (recorded: bool)
        requires
            old(self).well_formed(),
        ensures
            final(self).well_formed(),
            *final(self) == old(self).after_metadata_error(error),
            recorded == !is_known_error(old(self).last_metadata_error, error),
    {
        let recorded = !knows_error(&self.last_metadata_error, &error);
        self.last_metadata_error = Some(error);
        self.update_status();
        recorded
    }

    /// The error of a request for a sample that could not be made. `outcome` is there if there
    /// is a worker.
    pub open spec fn request_error(outcome: Option<Result<(), u32>>) -> Option<GpuSampleError> {
        match outcome {
            None => Some(
                GpuSampleError::Win32 { context: "GPU worker state", code: ERROR_BROKEN_PIPE },
            ),
            Some(Err(code)) => Some(GpuSampleError::Win32 { context: "GPU worker request", code }),
            Some(Ok(_)) => None,
        }
    }

    /// Notes whether a sample could be requested, and returns what is put on record.
    pub fn request_refresh(&mut self, outcome: Option<Result<(), u32>>) -> (record: Option<
        GpuSampleError,
    >)
        requires
            old(self).well_formed(),
        ensures
            final(self).well_formed(),
            match Self::request_error(outcome) {
                None => record is None && *final(self) == *old(self),
                Some(error) => {
                    &&& *final(self) == old(self).after_dynamic_error(error)
                    &&& record == if is_known_error(old(self).last_dynamic_error, error) {
                        None
                    } else {
                        Some(error)
                    }
                },
            },
    {
        let error = match outcome {
            None => GpuSampleError::Win32 { context: "GPU worker state", code: ERROR_BROKEN_PIPE },
            Some(Err(code)) => GpuSampleError::Win32 { context: "GPU worker request", code },
            Some(Ok(_)) => return None,
        };
        if self.handle_dynamic_error(error) {
            Some(error)
        } else {
            None
        }
    }

    /// The error of a request for metadata that could not be made.
    pub open spec fn metadata_request_error(outcome: Option<Result<(), u32>>) -> Option<
        GpuSampleError,
    > {
        match outcome {
            None => Some(
                GpuSampleError::Win32 {
                    context: "GPU metadata worker state",
                    code: ERROR_BROKEN_PIPE,
                },
            ),
            Some(Err(code)) => Some(
                GpuSampleError::Win32 { context: "GPU metadata worker request", code },
            ),
            Some(Ok(_)) => None,
        }
    }

    /// Notes whether metadata could be requested, and returns what is put on record.
    pub fn request_metadata(&mut self, outcome: Option<Result<(), u32>>) -> (record: Option<
        GpuSampleError,
    >)
        requires
            old(self).well_formed(),
        ensures
            final(self).well_formed(),
            match Self::metadata_request_error(outcome) {
                None => {
                    let busy = GpuPageState { metadata_busy: true, ..*old(self) };
                    record is None && *final(self) == (GpuPageState {
                        status: busy.status_of(),
                        ..busy
                    })
                },
                Some(error) => {
                    &&& *final(self) == old(self).after_metadata_error(error)
                    &&& record == if is_known_error(old(self).last_metadata_error, error) {
                        None
                    } else {
                        Some(error)
                    }
                },
            },
    {
        let error = match outcome {
            None => GpuSampleError::Win32 {
                context: "GPU metadata worker state",
                code: ERROR_BROKEN_PIPE,
            },
            Some(Err(code)) => GpuSampleError::Win32 {
                context: "GPU metadata worker request",
                code,
            },
            Some(Ok(_)) => {
                self.metadata_busy = true;
                self.update_status();
                return None;
            },
        };
        if self.handle_metadata_error(error) {
            Some(error)
        } else {
            None
        }
    }

    pub open spec fn changes_generation(&self, inventory: GpuInventorySnapshot) -> bool {
        self.inventory matches Some(current) && current.generation != inventory.generation
    }

    /// Whether the page shows a new list of adapters, and keeps what it knows of those that were
    /// there before, unless the generation changed.
    pub open spec fn shows_inventory(
        &self,
        before: &GpuPageState,
        inventory: GpuInventorySnapshot,
    ) -> bool {
        let changed = before.changes_generation(inventory);
        let ids = displayed_ids(inventory.adapters@);
        &&& self.inventory == Some(inventory)
        &&& self.dynamic_snapshot == if changed {
            None
        } else {
            before.dynamic_snapshot
        }
        &&& self.metadata@ == if changed {
            Map::empty()
        } else {
            before.metadata@
        }
        &&& self.histories@ == if changed {
            Map::empty()
        } else {
            before.histories@.restrict(ids.to_set())
        }
        &&& self.engine_selections@ == before.engine_selections@.restrict(ids.to_set())
        &&& self.current_engine_options@ == if changed {
            Seq::empty()
        } else {
            before.current_engine_options@
        }
        &&& self.last_dynamic_aux_errors@ == if changed {
            Seq::empty()
        } else {
            before.last_dynamic_aux_errors@
        }
        &&& self.last_metadata_aux_errors@ == if changed {
            Seq::empty()
        } else {
            before.last_metadata_aux_errors@
        }
        &&& self.last_dynamic_error == if changed {
            None
        } else {
            before.last_dynamic_error
        }
        &&& self.last_metadata_error == if changed {
            None
        } else {
            before.last_metadata_error
        }
        &&& signature_views(self.adapter_signature@) == signature_of(inventory.adapters@)
        &&& self.adapter_options@ == if signature_views(before.adapter_signature@) == signature_of(
            inventory.adapters@,
        ) {
            before.adapter_options@
        } else {
            ids
        }
        &&& self.selected_adapter == match before.selected_adapter {
            Some(selected) if ids.contains(selected) => Some(selected),
            _ => if ids.len() > 0 {
                Some(ids[0])
            } else {
                None
            },
        }
        &&& self.status == self.status_of()
        &&& self.no_title == before.no_title
        &&& self.metadata_busy == before.metadata_busy
        &&& self.graph_scroll_offset == before.graph_scroll_offset
        &&& self.page_scroll_position == before.page_scroll_position
        &&& self.content_height == before.content_height
    }

    /// Takes over a list of adapters.
    pub fn commit_inventory(&mut self, inventory: GpuInventorySnapshot) -> (outcome: InventoryOutcome)
        requires
            old(self).well_formed(),
        ensures
            final(self).well_formed(),
            if !displayed_ids(inventory.adapters@).no_duplicates() {
                let error = GpuSampleError::InvalidData {
                    context: "duplicate GPU inventory adapter identity",
                };
                &&& *final(self) == old(self).after_dynamic_error(error)
                &&& outcome == InventoryOutcome::Refused(
                    error,
                    !is_known_error(old(self).last_dynamic_error, error),
                )
            } else {
                &&& final(self).shows_inventory(old(self), inventory)
                &&& outcome matches InventoryOutcome::Committed(list_changed, request)
                &&& list_changed == (signature_views(old(self).adapter_signature@) != signature_of(
                    inventory.adapters@,
                ))
                &&& if inventory.adapters@.len() == 0 {
                    request is None
                } else {
                    request matches Some(request) && request.generation == inventory.generation
                        && request.adapters@ == inventory.adapters@
                }
            },
    {
        let ghost before = *self;
        let ids = ids_of_infos(&inventory.adapters);
        if !no_id_twice(&ids) {
            let error = GpuSampleError::InvalidData {
                context: "duplicate GPU inventory adapter identity",
            };
            let recorded = self.handle_dynamic_error(error);
            return InventoryOutcome::Refused(error, recorded);
        }
        let current: Option<u64> = match &self.inventory {
            Some(current) => Some(current.generation),
            None => None,
        };
        if snapshot_generation_changed(current, inventory.generation) {
            self.dynamic_snapshot = None;
            self.metadata = Table::new();
            self.histories = Table::new();
            self.current_engine_options = Vec::new();
            self.last_dynamic_aux_errors = Vec::new();
            self.last_metadata_aux_errors = Vec::new();
            self.last_dynamic_error = None;
            self.last_metadata_error = None;
        }
        self.histories.retain_listed(&ids);
        self.engine_selections.retain_listed(&ids);
        proof {
            if before.changes_generation(inventory) {
                assert(self.histories@ =~= Map::<GpuAdapterId, AdapterHistory>::empty());
            }
        }
        let names = signature(&inventory.adapters);
        let list_changed = !same_signature(&self.adapter_signature, &names);
        self.adapter_signature = names;
        let keeps_selection = match self.selected_adapter {
            Some(selected) => contains_id(&ids, selected),
            None => false,
        };
        if !keeps_selection {
            self.selected_adapter = if ids.len() > 0 {
                Some(ids[0])
            } else {
                None
            };
        }
        let request = if inventory.adapters.len() > 0 {
            Some(
                GpuMetadataRequest {
                    generation: inventory.generation,
                    adapters: copied_adapters(&inventory.adapters),
                },
            )
        } else {
            None
        };
        self.inventory = Some(inventory);
        if list_changed {
            self.adapter_options = ids;
        }
        self.update_status();
        InventoryOutcome::Committed(list_changed, request)
    }

    /// Gives every adapter of a sample its next values.
    fn push_samples(&mut self, samples: &Vec<GpuAdapterSample>)
        requires
            old(self).well_formed(),
        ensures
            final(self).well_formed(),
            history_map(final(self).histories@) == with_samples(
                history_map(old(self).histories@),
                samples@,
            ),
            *final(self) == (GpuPageState { histories: final(self).histories, ..*old(self) }),
    {
        let ghost start = history_map(self.histories@);
        assert(samples@.take(0) =~= Seq::<GpuAdapterSample>::empty());
        for index in 0..samples.len()
            invariant
                self.well_formed(),
                start == history_map(old(self).histories@),
                *self == (GpuPageState { histories: self.histories, ..*old(self) }),
                history_map(self.histories@) == with_samples(start, samples@.take(index as int)),
        {
            let sample = &samples[index];
            let id = sample.info.id;
            let ghost before = history_map(self.histories@);
            proof {
                assert(samples@.take(index + 1).drop_last() =~= samples@.take(index as int));
                assert(samples@.take(index + 1).last() == *sample);
            }
            let mut history = match self.histories.remove(&id) {
                Some(history) => history,
                None => AdapterHistory::new(),
            };
            assert(history@ == history_of(before, id));
            history.push(sample);
            self.histories.insert(id, history);
            assert(history_map(self.histories@) =~= before.insert(id, history@));
        }
        assert(samples@.take(samples@.len() as int) =~= samples@);
    }

    /// Whether the page shows a new sample.
    pub open spec fn shows_samples(&self, before: &GpuPageState, snapshot: GpuDynamicSnapshot) -> bool {
        let noted = GpuPageState {
            dynamic_snapshot: Some(snapshot),
            last_dynamic_error: None,
            last_dynamic_aux_errors: self.last_dynamic_aux_errors,
            histories: self.histories,
            graph_scroll_offset: ((before.graph_scroll_offset + 2) % (GRAPH_GRID as int)) as i32,
            ..*before
        };
        &&& history_map(self.histories@) == with_samples(
            history_map(before.histories@),
            snapshot.adapters@,
        )
        &&& self.last_dynamic_aux_errors@ == distinct_errors(sample_errors(snapshot.adapters@))
        &&& *self == (GpuPageState { status: noted.status_of(), ..noted })
    }

    /// Why a sample cannot be shown, if it is about the current adapters.
    pub open spec fn sample_fault(&self, snapshot: GpuDynamicSnapshot) -> Option<GpuSampleError> {
        match self.inventory {
            None => Some(
                GpuSampleError::InvalidData { context: "GPU dynamic snapshot before inventory" },
            ),
            Some(inventory) => if snapshot.generation != inventory.generation {
                None
            } else if self.dynamic_snapshot matches Some(current) && current.timestamp_ms
                >= snapshot.timestamp_ms {
                Some(
                    GpuSampleError::InvalidData {
                        context: "GPU snapshot timestamp is not monotonic",
                    },
                )
            } else if !ids_match(
                sample_ids(snapshot.adapters@),
                displayed_ids(inventory.adapters@),
            ) {
                Some(GpuSampleError::InvalidData { context: "GPU dynamic adapter completeness" })
            } else {
                None
            },
        }
    }

    /// Whether the page is what a sample makes of it: a faulty one is an error, and one of another
    /// list of adapters is ignored.
    pub open spec fn takes_sample(&self, before: &GpuPageState, snapshot: GpuDynamicSnapshot) -> bool {
        match before.sample_fault(snapshot) {
            Some(error) => *self == before.after_dynamic_error(error),
            None => if before.inventory->0.generation != snapshot.generation {
                *self == *before
            } else {
                self.shows_samples(before, snapshot)
            },
        }
    }

    fn find_sample_fault(&self, snapshot: &GpuDynamicSnapshot) -> (fault: Option<GpuSampleError>)
        ensures
            fault == self.sample_fault(*snapshot),
    {
        let inventory = match &self.inventory {
            Some(inventory) => inventory,
            None => return Some(
                GpuSampleError::InvalidData { context: "GPU dynamic snapshot before inventory" },
            ),
        };
        if snapshot.generation != inventory.generation {
            return None;
        }
        let current: Option<u64> = match &self.dynamic_snapshot {
            Some(current) => Some(current.timestamp_ms),
            None => None,
        };
        if !snapshot_timestamp_advances(current, snapshot.timestamp_ms) {
            return Some(
                GpuSampleError::InvalidData { context: "GPU snapshot timestamp is not monotonic" },
            );
        }
        let ids = ids_of_samples(&snapshot.adapters);
        let expected = ids_of_infos(&inventory.adapters);
        if !match_ids(&ids, &expected) {
            return Some(
                GpuSampleError::InvalidData { context: "GPU dynamic adapter completeness" },
            );
        }
        None
    }

    /// Takes over a sample. It has to be newer than the last one and about the same adapters.
    pub fn commit_dynamic_snapshot(&mut self, snapshot: GpuDynamicSnapshot) -> (outcome:
        CommitOutcome)
        requires
            old(self).well_formed(),
        ensures
            final(self).well_formed(),
            final(self).takes_sample(old(self), snapshot),
            match old(self).sample_fault(snapshot) {
                Some(error) => outcome == CommitOutcome::Refused(
                    error,
                    !is_known_error(old(self).last_dynamic_error, error),
                ),
                None => if old(self).inventory->0.generation != snapshot.generation {
                    outcome == CommitOutcome::Ignored
                } else {
                    &&& outcome matches CommitOutcome::Committed(errors)
                    &&& errors@ == new_errors(
                        distinct_errors(sample_errors(snapshot.adapters@)),
                        old(self).last_dynamic_aux_errors@,
                    )
                },
            },
    {
        if let Some(error) = self.find_sample_fault(&snapshot) {
            let recorded = self.handle_dynamic_error(error);
            return CommitOutcome::Refused(error, recorded);
        }
        let generation: u64 = match &self.inventory {
            Some(inventory) => inventory.generation,
            None => return CommitOutcome::Ignored,
        };
        if snapshot.generation != generation {
            return CommitOutcome::Ignored;
        }
        self.push_samples(&snapshot.adapters);
        let errors = find_distinct(&errors_in_samples(&snapshot.adapters));
        let fresh = find_new(&errors, &self.last_dynamic_aux_errors);
        self.last_dynamic_aux_errors = errors;
        self.dynamic_snapshot = Some(snapshot);
        self.last_dynamic_error = None;
        self.graph_scroll_offset = (self.graph_scroll_offset + 2) % GRAPH_GRID;
        self.update_status();
        CommitOutcome::Committed(fresh)
    }

    /// Whether the page shows new metadata.
    pub open spec fn shows_metadata(&self, before: &GpuPageState, snapshot: GpuMetadataSnapshot) -> bool {
        let noted = GpuPageState {
            metadata: self.metadata,
            last_metadata_error: None,
            last_metadata_aux_errors: self.last_metadata_aux_errors,
            ..*before
        };
        &&& self.metadata@ == metadata_map(snapshot.adapters@)
        &&& self.last_metadata_aux_errors@ == distinct_errors(adapter_errors(snapshot.adapters@))
        &&& *self == (GpuPageState { status: noted.status_of(), ..noted })
    }

    /// Takes over metadata. They have to be about the current adapters.
    pub fn commit_metadata_snapshot(&mut self, snapshot: GpuMetadataSnapshot) -> (outcome:
        CommitOutcome)
        requires
            old(self).well_formed(),
        ensures
            final(self).well_formed(),
            match old(self).inventory {
                Some(inventory) if inventory.generation == snapshot.generation => if !ids_match(
                    metadata_ids(snapshot.adapters@),
                    displayed_ids(inventory.adapters@),
                ) {
                    let error = GpuSampleError::InvalidData {
                        context: "GPU metadata adapter completeness",
                    };
                    &&& *final(self) == old(self).after_metadata_error(error)
                    &&& outcome == CommitOutcome::Refused(
                        error,
                        !is_known_error(old(self).last_metadata_error, error),
                    )
                } else {
                    &&& final(self).shows_metadata(old(self), snapshot)
                    &&& outcome matches CommitOutcome::Committed(errors)
                    &&& errors@ == new_errors(
                        distinct_errors(adapter_errors(snapshot.adapters@)),
                        old(self).last_metadata_aux_errors@,
                    )
                },
                _ => *final(self) == *old(self) && outcome == CommitOutcome::Ignored,
            },
    {
        let expected = match &self.inventory {
            Some(inventory) => {
                if snapshot.generation != inventory.generation {
                    return CommitOutcome::Ignored;
                }
                ids_of_infos(&inventory.adapters)
            },
            None => return CommitOutcome::Ignored,
        };
        let ids = ids_of_metadata(&snapshot.adapters);
        if !match_ids(&ids, &expected) {
            let error = GpuSampleError::InvalidData {
                context: "GPU metadata adapter completeness",
            };
            let recorded = self.handle_metadata_error(error);
            return CommitOutcome::Refused(error, recorded);
        }
        let errors = find_distinct(&errors_in_metadata(&snapshot.adapters));
        let fresh = find_new(&errors, &self.last_metadata_aux_errors);
        self.last_metadata_aux_errors = errors;
        let ghost given = snapshot.adapters@;
        let mut rest = snapshot.adapters;
        let mut metadata: Table<GpuAdapterId, GpuAdapterMetadata> = Table::new();
        let count: usize = rest.len();
        assert(given.take(0) =~= Seq::<GpuAdapterMetadata>::empty());
        for index in 0..count
            invariant
                count == given.len(),
                rest@ == given.skip(index as int),
                metadata.well_formed(),
                metadata@ == metadata_map(given.take(index as int)),
        {
            let adapter = rest.remove(0);
            assert(rest@ =~= given.skip(index + 1));
            assert(given.take(index + 1).drop_last() =~= given.take(index as int));
            assert(adapter == given[index as int]);
            metadata.insert(adapter.id, adapter);
        }
        assert(given.take(count as int) =~= given);
        self.metadata = metadata;
        self.last_metadata_error = None;
        self.update_status();
        CommitOutcome::Committed(fresh)
    }

    /// Takes over what a round of sampling came to.
    pub fn apply_completion(
        &mut self,
        completion: Result<GpuCollectOutcome, GpuSampleError>,
    ) -> (update: PageUpdate)
        requires
            old(self).well_formed(),
        ensures
            final(self).well_formed(),
            match completion {
                Err(error) => {
                    &&& *final(self) == old(self).after_dynamic_error(error)
                    &&& update == PageUpdate::Failed(
                        error,
                        !is_known_error(old(self).last_dynamic_error, error),
                    )
                },
                Ok(GpuCollectOutcome::AwaitingBaseline { generation }) => {
                    &&& update == PageUpdate::Waiting
                    &&& *final(self) == if old(self).inventory matches Some(inventory)
                        && inventory.generation == generation {
                        (GpuPageState { status: old(self).status_of(), ..*old(self) })
                    } else {
                        *old(self)
                    }
                },
                Ok(GpuCollectOutcome::Inventory(inventory)) => {
                    &&& update matches PageUpdate::Inventory(outcome)
                    &&& outcome is Committed <==> displayed_ids(
                        inventory.adapters@,
                    ).no_duplicates()
                    &&& outcome is Committed ==> final(self).shows_inventory(old(self), inventory)
                    &&& outcome matches InventoryOutcome::Refused(error, recorded) ==> error
                        == GpuSampleError::InvalidData {
                        context: "duplicate GPU inventory adapter identity",
                    } && recorded == !is_known_error(old(self).last_dynamic_error, error)
                        && *final(self) == old(self).after_dynamic_error(error)
                    &&& outcome matches InventoryOutcome::Committed(list_changed, request)
                        ==> list_changed == (signature_views(old(self).adapter_signature@)
                        != signature_of(inventory.adapters@)) && (request is None
                        <==> inventory.adapters@.len() == 0) && (request matches Some(request)
                        ==> request.generation == inventory.generation && request.adapters@
                        == inventory.adapters@)
                },
                Ok(GpuCollectOutcome::Dynamic(snapshot)) => {
                    &&& update matches PageUpdate::Sample(outcome)
                    &&& final(self).takes_sample(old(self), snapshot)
                    &&& match old(self).sample_fault(snapshot) {
                        Some(error) => outcome == CommitOutcome::Refused(
                            error,
                            !is_known_error(old(self).last_dynamic_error, error),
                        ),
                        None => if old(self).inventory->0.generation != snapshot.generation {
                            outcome == CommitOutcome::Ignored
                        } else {
                            &&& outcome matches CommitOutcome::Committed(errors)
                            &&& errors@ == new_errors(
                                distinct_errors(sample_errors(snapshot.adapters@)),
                                old(self).last_dynamic_aux_errors@,
                            )
                        },
                    }
                },
            },
    {
        match completion {
            Err(error) => {
                let recorded = self.handle_dynamic_error(error);
                PageUpdate::Failed(error, recorded)
            },
            Ok(GpuCollectOutcome::AwaitingBaseline { generation }) => {
                let is_current = match &self.inventory {
                    Some(inventory) => inventory.generation == generation,
                    None => false,
                };
                if is_current {
                    self.update_status();
                }
                PageUpdate::Waiting
            },
            Ok(GpuCollectOutcome::Inventory(inventory)) => PageUpdate::Inventory(
                self.commit_inventory(inventory),
            ),
            Ok(GpuCollectOutcome::Dynamic(snapshot)) => PageUpdate::Sample(
                self.commit_dynamic_snapshot(snapshot),
            ),
        }
    }

    /// Notes that the channel to the sampling worker broke, and tells whether that is put on
    /// record.
    pub fn sample_channel_failed(&mut self, code: u32) -> (recorded: bool)
        requires
            old(self).well_formed(),
        ensures
            final(self).well_formed(),
            ({
                let error = GpuSampleError::Win32 {
                    context: "GPU worker completion channel",
                    code,
                };
                *final(self) == old(self).after_dynamic_error(error) && recorded
                    == !is_known_error(old(self).last_dynamic_error, error)
            }),
    {
        self.handle_dynamic_error(
            GpuSampleError::Win32 { context: "GPU worker completion channel", code },
        )
    }

    /// Notes that the channel to the metadata worker broke, and tells whether that is put on
    /// record.
    pub fn metadata_channel_failed(&mut self, code: u32) -> (recorded: bool)
        requires
            old(self).well_formed(),
        ensures
            final(self).well_formed(),
            ({
                let error = GpuSampleError::Win32 {
                    context: "GPU metadata worker completion channel",
                    code,
                };
                *final(self) == old(self).after_metadata_error(error) && recorded
                    == !is_known_error(old(self).last_metadata_error, error)
            }),
    {
        self.handle_metadata_error(
            GpuSampleError::Win32 { context: "GPU metadata worker completion channel", code },
        )
    }

    /// Ends a round of metadata. `busy` tells whether another one is under way.
    pub fn finish_metadata_round(&mut self, busy: bool)
        requires
            old(self).well_formed(),
        ensures
            final(self).well_formed(),
            ({
                let noted = GpuPageState { metadata_busy: busy, ..*old(self) };
                *final(self) == (GpuPageState { status: noted.status_of(), ..noted })
            }),
    {
        self.metadata_busy = busy;
        self.update_status();
    }

    /// Forgets everything that was learned.
    pub fn destroy(&mut self)
        requires
            old(self).well_formed(),
        ensures
            final(self).well_formed(),
            final(self).inventory is None,
            final(self).dynamic_snapshot is None,
            final(self).metadata@ == Map::<GpuAdapterId, GpuAdapterMetadata>::empty(),
            !final(self).metadata_busy,
            final(self).last_dynamic_aux_errors@.len() == 0,
            final(self).last_metadata_aux_errors@.len() == 0,
            final(self).engine_selections@ == Map::<
                GpuAdapterId,
                [Option<GpuEngineId>; 4],
            >::empty(),
            final(self).histories@ == Map::<GpuAdapterId, AdapterHistory>::empty(),
            *final(self) == (GpuPageState {
                inventory: None,
                dynamic_snapshot: None,
                metadata: final(self).metadata,
                metadata_busy: false,
                last_dynamic_aux_errors: final(self).last_dynamic_aux_errors,
                last_metadata_aux_errors: final(self).last_metadata_aux_errors,
                engine_selections: final(self).engine_selections,
                histories: final(self).histories,
                ..*old(self)
            }),
    {
        self.inventory = None;
        self.dynamic_snapshot = None;
        self.metadata = Table::new();
        self.metadata_busy = false;
        self.last_dynamic_aux_errors = Vec::new();
        self.last_metadata_aux_errors = Vec::new();
        self.engine_selections = Table::new();
        self.histories = Table::new();
    }
}

/// What was learned before stays as it is when a sample fails, and it counts as stale exactly if
/// there was a sample.
pub proof fn failed_sample_keeps_what_is_shown(page: GpuPageState, error: GpuSampleError)
    ensures
        page.after_dynamic_error(error).inventory == page.inventory,
        page.after_dynamic_error(error).dynamic_snapshot == page.dynamic_snapshot,
        page.after_dynamic_error(error).metadata == page.metadata,
        page.after_dynamic_error(error).histories == page.histories,
        page.after_dynamic_error(error).engine_selections == page.engine_selections,
        page.after_dynamic_error(error).status == GpuPageStatus::Stale
            <==> page.dynamic_snapshot is Some,
{
}

/// Where the counters are missing and there was no sample, the page says so, and no history is
/// drawn for it.
pub proof fn missing_counters_are_reported(page: GpuPageState, context: &'static str)
    requires
        page.dynamic_snapshot is None,
    ensures
        ({
            let error = GpuSampleError::Pdh { context, status: PDH_CSTATUS_NO_COUNTER };
            let after = page.after_dynamic_error(error);
            after.status == GpuPageStatus::Unsupported && after.histories == page.histories
        }),
{
}

/// A sample of another generation than the list of adapters changes nothing.
pub proof fn stale_generation_changes_nothing(
    page: GpuPageState,
    snapshot: GpuDynamicSnapshot,
    after: GpuPageState,
)
    requires
        page.inventory matches Some(inventory) && inventory.generation != snapshot.generation,
        after.takes_sample(&page, snapshot),
    ensures
        after == page,
{
}

/// A failure to learn the metadata leaves samples and histories as they are.
pub proof fn failed_metadata_keep_the_samples(page: GpuPageState, error: GpuSampleError)
    ensures
        page.after_metadata_error(error).inventory == page.inventory,
        page.after_metadata_error(error).dynamic_snapshot == page.dynamic_snapshot,
        page.after_metadata_error(error).metadata == page.metadata,
        page.after_metadata_error(error).histories == page.histories,
        page.after_metadata_error(error).last_dynamic_error == page.last_dynamic_error,
{
}

/// A sample that is not newer than the last one moves no history.
pub proof fn old_sample_moves_no_history(
    page: GpuPageState,
    snapshot: GpuDynamicSnapshot,
    after: GpuPageState,
)
    requires
        page.dynamic_snapshot matches Some(current) && current.timestamp_ms
            >= snapshot.timestamp_ms,
        after.takes_sample(&page, snapshot),
    ensures
        after.histories == page.histories,
        after.dynamic_snapshot == page.dynamic_snapshot,
{
}

/// A list of adapters of another generation starts with fresh histories.
pub proof fn new_generation_starts_fresh(
    page: GpuPageState,
    inventory: GpuInventorySnapshot,
    after: GpuPageState,
)
    requires
        page.changes_generation(inventory),
        after.shows_inventory(&page, inventory),
    ensures
        after.histories@ == Map::<GpuAdapterId, AdapterHistory>::empty(),
        after.metadata@ == Map::<GpuAdapterId, GpuAdapterMetadata>::empty(),
        after.dynamic_snapshot is None,
        inventory.adapters@.len() > 0 ==> after.status == GpuPageStatus::LoadingPerformance,
{
}

} // verus!
