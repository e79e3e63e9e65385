//! What is known of an adapter beyond its place in the list: driver, location, memory.
//!
//! A failure to learn one of these stays with its adapter and leaves everything else as it is.
use std::sync::Arc;

use vstd::prelude::*;

use super::counters::{contains_id, contains_luid, displayed_ids};
use super::inventory::find_end;
use super::model::{
    AdapterLuid, GpuAdapterId, GpuAdapterInfo, GpuAdapterMetadata, GpuDriverDetails,
    GpuMetadataRequest, GpuMetadataSnapshot, GpuSampleError,
};
use crate::bytes::{read_u16, read_u32, u16_at, u32_at};
use crate::pdh::first_zero;
use crate::seqs::lemma_push_contains;
use crate::text::{
    append_chars, chars_of, copied_chars, copy_of, decimal_chars, decimal_text, lower, lower_chars,
    pieces, same_text, split_on, string_of, views,
};
use crate::utf16::{decode, decoded};
use crate::win32::{error_or_gen_failure, ERROR_GEN_FAILURE, ERROR_INSUFFICIENT_BUFFER, ERROR_NOT_FOUND};

verus! {

pub const MAX_DEVICE_PROPERTY_BYTES: u32 = 67_108_864;

pub const DEVPROP_TYPE_FILETIME: u32 = 16;

pub const DEVPROP_TYPE_STRING: u32 = 18;

pub const DEVPROP_TYPE_STRING_LIST: u32 = 8210;

pub const D3D_FEATURE_LEVEL_11_0: i32 = 0xB000;

pub const D3D_FEATURE_LEVEL_11_1: i32 = 0xB100;

pub const D3D_FEATURE_LEVEL_12_0: i32 = 0xC000;

pub const D3D_FEATURE_LEVEL_12_1: i32 = 0xC100;

pub const D3D_FEATURE_LEVEL_12_2: i32 = 0xC200;

/// What is known of an adapter, with its name as a sequence of characters.
pub struct InfoView {
    pub id: GpuAdapterId,
    pub enumeration_index: u32,
    pub name: Seq<char>,
    pub vendor_id: u32,
    pub device_id: u32,
    pub subsystem_id: u32,
    pub revision: u32,
    pub dedicated_limit_bytes: Option<u64>,
    pub shared_limit_bytes: Option<u64>,
}

impl View for GpuAdapterInfo {
    type V = InfoView;

    open spec fn view(&self) -> InfoView {
        InfoView {
            id: self.id,
            enumeration_index: self.enumeration_index,
            name: self.name@,
            vendor_id: self.vendor_id,
            device_id: self.device_id,
            subsystem_id: self.subsystem_id,
            revision: self.revision,
            dedicated_limit_bytes: self.dedicated_limit_bytes,
            shared_limit_bytes: self.shared_limit_bytes,
        }
    }
}

pub(crate) fn same_amount(first: Option<u64>, second: Option<u64>) -> (same: bool)
    ensures
        same == (first == second),
{
    match (first, second) {
        (Some(first), Some(second)) => first == second,
        (None, None) => true,
        _ => false,
    }
}

impl GpuAdapterInfo {
    pub fn same_as(&self, other: &GpuAdapterInfo) -> (same: bool)
        ensures
            same == (self@ == other@),
    {
        self.id == other.id && self.enumeration_index == other.enumeration_index && same_text(
            self.name.as_str(),
            other.name.as_str(),
        ) && self.vendor_id == other.vendor_id && self.device_id == other.device_id
            && self.subsystem_id == other.subsystem_id && self.revision == other.revision
            && same_amount(self.dedicated_limit_bytes, other.dedicated_limit_bytes) && same_amount(
            self.shared_limit_bytes,
            other.shared_limit_bytes,
        )
    }
}

pub open spec fn info_views(infos: Seq<Arc<GpuAdapterInfo>>) -> Seq<InfoView> {
    infos.map_values(|info: Arc<GpuAdapterInfo>| info@)
}

fn same_infos(first: &Vec<Arc<GpuAdapterInfo>>, second: &Vec<Arc<GpuAdapterInfo>>) -> (same: bool)
    ensures
        same == (info_views(first@) == info_views(second@)),
{
    if first.len() != second.len() {
        assert(info_views(first@).len() != info_views(second@).len());
        return false;
    }
    for index in 0..first.len()
        invariant
            first@.len() == second@.len(),
            forall|i: int|
                0 <= i < index ==> #[trigger] info_views(first@)[i] == info_views(second@)[i],
    {
        if !first[index].same_as(&second[index]) {
            assert(info_views(first@)[index as int] != info_views(second@)[index as int]);
            return false;
        }
    }
    assert(info_views(first@) =~= info_views(second@));
    true
}

/// The memory that the hardware keeps for itself: what is installed beyond the dedicated limit,
/// where both are known.
pub fn validated_hardware_reserved_memory(
    installed_memory: Option<u64>,
    dedicated_limit: Option<u64>,
) -> (outcome: Result<Option<u64>, GpuSampleError>)
    ensures
        outcome == match (installed_memory, dedicated_limit) {
            (Some(installed), Some(limit)) => if installed == 0 || limit == 0 {
                Ok::<Option<u64>, GpuSampleError>(None)
            } else if installed < limit {
                Err(
                    GpuSampleError::InvalidData {
                        context: "GPU installed memory is below the dedicated limit",
                    },
                )
            } else {
                Ok(Some((installed - limit) as u64))
            },
            _ => Ok(None),
        },
{
    match (installed_memory, dedicated_limit) {
        (Some(installed), Some(limit)) => {
            if installed == 0 || limit == 0 {
                Ok(None)
            } else if installed < limit {
                Err(
                    GpuSampleError::InvalidData {
                        context: "GPU installed memory is below the dedicated limit",
                    },
                )
            } else {
                Ok(Some(installed - limit))
            }
        },
        _ => Ok(None),
    }
}

/// `text` with backslashes for slashes.
pub open spec fn normalized(text: Seq<char>) -> Seq<char> {
    text.map_values(
        |c: char|
            if c == '/' {
                '\\'
            } else {
                c
            },
    )
}

/// Where `wanted` first stands in `text`, from `start` on.
pub open spec fn first_match(text: Seq<char>, wanted: Seq<char>, start: int) -> Option<int>
    decreases text.len() + 1 - start,
{
    if start < 0 || start + wanted.len() > text.len() {
        None
    } else if text.subrange(start, start + wanted.len()) == wanted {
        Some(start)
    } else {
        first_match(text, wanted, start + 1)
    }
}

/// The instance of a device that a key of the registry names: the three parts behind the
/// directory of all devices.
pub open spec fn device_instance_id(key: Seq<char>) -> Option<Seq<char>> {
    let text = normalized(key);
    match first_match(lower(text), "\\enum\\"@, 0) {
        None => None,
        Some(start) => {
            let parts = pieces(text.skip(start + 6), '\\').filter(|part: Seq<char>| part.len() > 0);
            if parts.len() < 3 {
                None
            } else {
                Some(parts[0] + seq!['\\'] + parts[1] + seq!['\\'] + parts[2])
            }
        },
    }
}

fn find_text(text: &Vec<char>, wanted: &Vec<char>) -> (found: Option<usize>)
    requires
        wanted@.len() > 0,
    ensures
        match found {
            Some(start) => first_match(text@, wanted@, 0) == Some(start as int) && start
                + wanted@.len() <= text@.len(),
            None => first_match(text@, wanted@, 0) is None,
        },
{
    let mut start: usize = 0;
    while start < text.len() && wanted.len() <= text.len() - start
        invariant
            start <= text@.len(),
            wanted@.len() > 0,
            first_match(text@, wanted@, 0) == first_match(text@, wanted@, start as int),
        decreases text.len() - start,
    {
        let part = vstd::slice::slice_subrange(text.as_slice(), start, start + wanted.len());
        if crate::text::same_chars(part, wanted.as_slice()) {
            return Some(start);
        }
        start = start + 1;
    }
    None
}

pub fn device_instance_id_from_pnp_key(value: &str) -> (id: Option<String>)
    ensures
        match device_instance_id(value@) {
            Some(text) => id matches Some(found) && found@ == text,
            None => id is None,
        },
{
    let chars = chars_of(value);
    let mut text: Vec<char> = Vec::new();
    for index in 0..chars.len()
        invariant
            text@ =~= normalized(chars@.take(index as int)),
    {
        let c: char = chars[index];
        text.push(
            if c == '/' {
                '\\'
            } else {
                c
            },
        );
    }
    assert(chars@.take(chars@.len() as int) =~= chars@);
    let lowered = lower_chars(text.as_slice());
    let marker = chars_of("\\enum\\");
    proof {
        reveal_strlit("\\enum\\");
    }
    let start: usize = match find_text(&lowered, &marker) {
        Some(start) => start,
        None => return None,
    };
    assert(lowered@.len() == text@.len());
    let rest = vstd::slice::slice_subrange(text.as_slice(), start + 6, text.len());
    assert(rest@ =~= text@.skip(start + 6));
    let parts = split_on(rest, '\\');
    let ghost nonempty = |part: Seq<char>| part.len() > 0;
    let ghost all = pieces(rest@, '\\');
    let mut kept: Vec<Vec<char>> = Vec::new();
    proof {
        reveal(Seq::filter);
        assert(all.take(0) =~= Seq::<Seq<char>>::empty());
        assert(views(kept@) =~= all.take(0).filter(nonempty));
    }
    for index in 0..parts.len()
        invariant
            nonempty == (|part: Seq<char>| part.len() > 0),
            all == views(parts@),
            views(kept@) == all.take(index as int).filter(nonempty),
    {
        let ghost before = views(kept@);
        proof {
            reveal(Seq::filter);
            assert(all.take(index + 1).drop_last() =~= all.take(index as int));
            assert(all.take(index + 1).last() == parts@[index as int]@);
        }
        if parts[index].len() > 0 {
            let part = copied_chars(parts[index].as_slice());
            kept.push(part);
            assert(views(kept@) =~= before.push(part@));
        }
    }
    assert(all.take(all.len() as int) =~= all);
    if kept.len() < 3 {
        return None;
    }
    proof {
        assert(views(kept@)[0] == kept@[0]@);
        assert(views(kept@)[1] == kept@[1]@);
        assert(views(kept@)[2] == kept@[2]@);
    }
    let mut id = copied_chars(kept[0].as_slice());
    id.push('\\');
    append_chars(&mut id, kept[1].as_slice());
    id.push('\\');
    append_chars(&mut id, kept[2].as_slice());
    assert(id@ =~= kept@[0]@ + seq!['\\'] + kept@[1]@ + seq!['\\'] + kept@[2]@);
    Some(string_of(id.as_slice()))
}

pub open spec fn text_view(text: Option<String>) -> Option<Seq<char>> {
    match text {
        Some(text) => Some(text@),
        None => None,
    }
}

fn copied_text(text: &Option<String>) -> (copied: Option<String>)
    ensures
        text_view(copied) == text_view(*text),
{
    match text {
        Some(text) => Some(copy_of(text.as_str())),
        None => None,
    }
}

/// The metadata of an adapter, with texts as sequences of characters.
pub struct MetadataView {
    pub id: GpuAdapterId,
    pub hardware_reserved_bytes: Option<u64>,
    pub driver_version: Option<Seq<char>>,
    pub driver_date: Option<Seq<char>>,
    pub location: Option<Seq<char>>,
    pub location_path: Option<Seq<char>>,
    pub directx_feature_level: Option<Seq<char>>,
    pub metadata_errors: Seq<GpuSampleError>,
}

impl View for GpuAdapterMetadata {
    type V = MetadataView;

    open spec fn view(&self) -> MetadataView {
        MetadataView {
            id: self.id,
            hardware_reserved_bytes: self.hardware_reserved_bytes,
            driver_version: text_view(self.driver.version),
            driver_date: text_view(self.driver.date),
            location: text_view(self.driver.location),
            location_path: text_view(self.driver.location_path),
            directx_feature_level: text_view(self.directx_feature_level),
            metadata_errors: self.metadata_errors@,
        }
    }
}

impl GpuAdapterMetadata {
    fn copied(&self) -> (copied: GpuAdapterMetadata)
        ensures
            copied@ == self@,
    {
        let mut metadata_errors: Vec<GpuSampleError> = Vec::new();
        for index in 0..self.metadata_errors.len()
            invariant
                metadata_errors@ =~= self.metadata_errors@.take(index as int),
        {
            metadata_errors.push(self.metadata_errors[index]);
        }
        assert(metadata_errors@ =~= self.metadata_errors@);
        GpuAdapterMetadata {
            id: self.id,
            hardware_reserved_bytes: self.hardware_reserved_bytes,
            driver: GpuDriverDetails {
                version: copied_text(&self.driver.version),
                date: copied_text(&self.driver.date),
                location: copied_text(&self.driver.location),
                location_path: copied_text(&self.driver.location_path),
            },
            directx_feature_level: copied_text(&self.directx_feature_level),
            metadata_errors,
        }
    }
}

/// The metadata of a list of adapters.
pub struct MetadataSnapshotView {
    pub generation: u64,
    pub adapters: Seq<MetadataView>,
}

impl MetadataSnapshotView {
    pub open spec fn ids(self) -> Seq<GpuAdapterId> {
        self.adapters.map_values(|adapter: MetadataView| adapter.id)
    }
}

impl View for GpuMetadataSnapshot {
    type V = MetadataSnapshotView;

    open spec fn view(&self) -> MetadataSnapshotView {
        MetadataSnapshotView {
            generation: self.generation,
            adapters: self.adapters@.map_values(|adapter: GpuAdapterMetadata| adapter@),
        }
    }
}

impl GpuMetadataSnapshot {
    /// A snapshot that says the same.
    pub fn copied(&self) -> (copied: GpuMetadataSnapshot)
        ensures
            copied@ == self@,
    {
        let mut adapters: Vec<GpuAdapterMetadata> = Vec::new();
        for index in 0..self.adapters.len()
            invariant
                adapters@.len() == index,
                forall|i: int| 0 <= i < index ==> (#[trigger] adapters@[i])@ == self.adapters@[i]@,
        {
            adapters.push(self.adapters[index].copied());
        }
        let copied = GpuMetadataSnapshot { generation: self.generation, adapters };
        assert(copied@.adapters =~= self@.adapters);
        copied
    }
}

pub open spec fn metadata_ids(metadata: Seq<GpuAdapterMetadata>) -> Seq<GpuAdapterId> {
    metadata.map_values(|adapter: GpuAdapterMetadata| adapter.id)
}

/// Which logical adapters a request is about, each once.
fn requested_luids(adapters: &Vec<Arc<GpuAdapterInfo>>) -> (luids: Vec<AdapterLuid>)
    ensures
        forall|luid: AdapterLuid| #[trigger]
            luids@.contains(luid) <==> luids_of(adapters@).contains(luid),
        luids@.no_duplicates(),
{
    let mut luids: Vec<AdapterLuid> = Vec::new();
    for index in 0..adapters.len()
        invariant
            forall|luid: AdapterLuid| #[trigger]
                luids@.contains(luid) <==> luids_of(adapters@.take(index as int)).contains(luid),
            luids@.no_duplicates(),
    {
        let luid = adapters[index].id.luid;
        let ghost before = luids@;
        proof {
            let upto = adapters@.take(index as int);
            assert(luids_of(adapters@.take(index + 1)) =~= luids_of(upto).push(luid));
            lemma_push_contains(luids_of(upto), luid);
            lemma_push_contains(before, luid);
        }
        if !contains_luid(luids.as_slice(), luid) {
            luids.push(luid);
        }
    }
    assert(adapters@.take(adapters@.len() as int) =~= adapters@);
    luids
}

pub open spec fn luids_of(adapters: Seq<Arc<GpuAdapterInfo>>) -> Seq<AdapterLuid> {
    adapters.map_values(|info: Arc<GpuAdapterInfo>| info.id.luid)
}

/// What the metadata of the current adapters are, and for which list of them.
pub struct GpuMetadataCollector {
    pub generation: Option<u64>,
    pub inventory: Vec<Arc<GpuAdapterInfo>>,
    pub snapshot: Option<GpuMetadataSnapshot>,
}

/// How a request for metadata is answered.
pub enum MetadataPlan {
    /// With what is already there.
    Cached,
    /// By asking these logical adapters.
    Query(Vec<AdapterLuid>),
}

/// What the system said of an adapter: of itself, unless it could not be opened, and its feature
/// level.
pub struct AdapterReply {
    pub answers: Result<AdapterAnswers, GpuSampleError>,
    pub directx: Result<Option<String>, GpuSampleError>,
}

impl GpuMetadataCollector {
    /// What is kept is the answer for the list that is kept: one entry for each adapter, in the
    /// order of the list.
    pub open spec fn well_formed(&self) -> bool {
        &&& self.generation is Some <==> self.snapshot is Some
        &&& self.snapshot matches Some(snapshot) ==> self.generation == Some(snapshot.generation)
            && metadata_ids(snapshot.adapters@) == displayed_ids(self.inventory@)
    }

    /// Why a request cannot be answered, if it cannot.
    pub open spec fn request_fault(&self, request: GpuMetadataRequest) -> Option<GpuSampleError> {
        if request.generation == 0 {
            Some(GpuSampleError::InvalidData { context: "GPU metadata generation" })
        } else if !displayed_ids(request.adapters@).no_duplicates() {
            Some(
                GpuSampleError::InvalidData { context: "duplicate GPU metadata adapter identity" },
            )
        } else if self.generation == Some(request.generation) {
            if info_views(self.inventory@) != info_views(request.adapters@) {
                Some(
                    GpuSampleError::InvalidData {
                        context: "GPU inventory changed without a new generation",
                    },
                )
            } else if self.snapshot is None {
                Some(GpuSampleError::InvalidData { context: "GPU metadata cached snapshot" })
            } else {
                None
            }
        } else {
            None
        }
    }

    /// Whether a request that can be answered is answered with what is kept.
    pub open spec fn serves(&self, request: GpuMetadataRequest) -> bool {
        self.generation == Some(request.generation)
    }

    /// Whether the collector becomes `after`, and the request has this outcome. A request that
    /// was answered before gets the kept answer, and a faulty one changes nothing. Any other is
    /// answered by what the adapters said, one entry for each of them in order.
    pub open spec fn answers(
        &self,
        after: &GpuMetadataCollector,
        request: GpuMetadataRequest,
        replies: Seq<AdapterReply>,
        outcome: Result<GpuMetadataSnapshot, GpuSampleError>,
    ) -> bool {
        match self.request_fault(request) {
            Some(error) => *after == *self && outcome == Err::<GpuMetadataSnapshot, GpuSampleError>(
                error,
            ),
            None => if self.serves(request) {
                &&& *after == *self
                &&& outcome matches Ok(snapshot)
                &&& snapshot@ == self.snapshot->0@
            } else {
                &&& after.generation == Some(request.generation)
                &&& after.inventory == request.adapters
                &&& after.snapshot matches Some(kept)
                &&& kept.generation == request.generation
                &&& kept.adapters@.len() == request.adapters@.len()
                &&& forall|i: int|
                    0 <= i < kept.adapters@.len() ==> describes(
                        #[trigger] kept.adapters@[i],
                        *request.adapters@[i],
                        replies[i].answers,
                        replies[i].directx,
                    )
                &&& outcome matches Ok(snapshot)
                &&& snapshot@ == kept@
            },
        }
    }

    pub fn new() -> (collector: Self)
        ensures
            collector.well_formed(),
            collector.generation is None,
            collector.inventory@.len() == 0,
            collector.snapshot is None,
    {
        GpuMetadataCollector { generation: None, inventory: Vec::new(), snapshot: None }
    }

    /// Decides how a request is answered: an answer is kept until the list of adapters changes,
    /// which has to come with a new generation.
    pub fn plan(&self, request: &GpuMetadataRequest) -> (outcome: Result<
        MetadataPlan,
        GpuSampleError,
    >)
        ensures
            match self.request_fault(*request) {
                Some(error) => outcome == Err::<MetadataPlan, GpuSampleError>(error),
                None => if self.serves(*request) {
                    outcome == Ok::<MetadataPlan, GpuSampleError>(MetadataPlan::Cached)
                } else {
                    &&& outcome matches Ok(MetadataPlan::Query(luids))
                    &&& luids@.no_duplicates()
                    &&& forall|luid: AdapterLuid| #[trigger]
                        luids@.contains(luid) <==> luids_of(request.adapters@).contains(luid)
                },
            },
    {
        if request.generation == 0 {
            return Err(GpuSampleError::InvalidData { context: "GPU metadata generation" });
        }
        let ghost ids = displayed_ids(request.adapters@);
        let mut seen: Vec<GpuAdapterId> = Vec::new();
        for index in 0..request.adapters.len()
            invariant
                ids == displayed_ids(request.adapters@),
                request.generation != 0,
                seen@ =~= ids.take(index as int),
                seen@.no_duplicates(),
        {
            let id = request.adapters[index].id;
            if contains_id(&seen, id) {
                proof {
                    let i = choose|i: int| 0 <= i < seen@.len() && seen@[i] == id;
                    assert(ids[i] == id && ids[index as int] == id);
                }
                return Err(
                    GpuSampleError::InvalidData {
                        context: "duplicate GPU metadata adapter identity",
                    },
                );
            }
            seen.push(id);
        }
        assert(ids =~= seen@);
        let same_generation = match self.generation {
            Some(generation) => generation == request.generation,
            None => false,
        };
        if same_generation {
            if !same_infos(&self.inventory, &request.adapters) {
                return Err(
                    GpuSampleError::InvalidData {
                        context: "GPU inventory changed without a new generation",
                    },
                );
            }
            return if self.snapshot.is_none() {
                Err(GpuSampleError::InvalidData { context: "GPU metadata cached snapshot" })
            } else {
                Ok(MetadataPlan::Cached)
            };
        }
        Ok(MetadataPlan::Query(requested_luids(&request.adapters)))
    }

    /// Answers a request. `replies` holds what the system said of each adapter, in order, if the
    /// request is not answered with what is kept.
    pub fn collect(&mut self, request: GpuMetadataRequest, replies: Vec<AdapterReply>) -> (outcome:
        Result<GpuMetadataSnapshot, GpuSampleError>)
        requires
            old(self).well_formed(),
            old(self).request_fault(request) is None && !old(self).serves(request)
                ==> replies@.len() == request.adapters@.len(),
        ensures
            final(self).well_formed(),
            old(self).answers(final(self), request, replies@, outcome),
    {
        match self.plan(&request) {
            Err(error) => return Err(error),
            Ok(MetadataPlan::Cached) => return match &self.snapshot {
                Some(snapshot) => Ok(snapshot.copied()),
                None => Err(GpuSampleError::InvalidData { context: "GPU metadata cached snapshot" }),
            },
            Ok(MetadataPlan::Query(_)) => {},
        }
        let ghost given = replies@;
        let mut rest = replies;
        let mut adapters: Vec<GpuAdapterMetadata> = Vec::new();
        for index in 0..request.adapters.len()
            invariant
                given.len() == request.adapters@.len(),
                rest@ == given.skip(index as int),
                adapters@.len() == index,
                forall|i: int|
                    0 <= i < index ==> describes(
                        #[trigger] adapters@[i],
                        *request.adapters@[i],
                        given[i].answers,
                        given[i].directx,
                    ),
        {
            let reply = rest.remove(0);
            assert(reply == given[index as int]);
            assert(rest@ =~= given.skip(index + 1));
            adapters.push(adapter_metadata(&request.adapters[index], reply.answers, reply.directx));
        }
        assert(metadata_ids(adapters@) =~= displayed_ids(request.adapters@));
        let snapshot = GpuMetadataSnapshot { generation: request.generation, adapters };
        let answer = snapshot.copied();
        self.generation = Some(request.generation);
        self.inventory = request.adapters;
        self.snapshot = Some(snapshot);
        Ok(answer)
    }
}

/// An answer lists the adapters of its request, each once and in order, whatever could not be
/// learned of them: a failure is only noted with its adapter. Without a generation, or with an
/// adapter listed twice, there is no answer and nothing changes.
pub proof fn answer_follows_the_request(
    before: GpuMetadataCollector,
    after: GpuMetadataCollector,
    request: GpuMetadataRequest,
    replies: Seq<AdapterReply>,
    outcome: Result<GpuMetadataSnapshot, GpuSampleError>,
)
    requires
        before.well_formed(),
        before.answers(&after, request, replies, outcome),
    ensures
        request.generation == 0 || !displayed_ids(request.adapters@).no_duplicates() ==> outcome
            is Err && after == before,
        before.generation == Some(request.generation) ==> after == before,
        outcome is Err ==> after == before,
        before.generation != Some(request.generation) && request.generation != 0 && displayed_ids(
            request.adapters@,
        ).no_duplicates() ==> outcome is Ok,
        outcome matches Ok(snapshot) ==> snapshot@.generation == request.generation
            && snapshot@.ids() == displayed_ids(request.adapters@),
{
    if let Ok(snapshot) = outcome {
        let kept = after.snapshot->0;
        let wanted = displayed_ids(request.adapters@);
        assert(metadata_ids(kept.adapters@) =~= wanted) by {
            if before.serves(request) {
                let infos = info_views(request.adapters@);
                let listed = info_views(before.inventory@);
                assert(infos.len() == request.adapters@.len() && listed.len()
                    == before.inventory@.len());
                assert forall|i: int| 0 <= i < wanted.len() implies #[trigger] wanted[i]
                    == displayed_ids(before.inventory@)[i] by {
                    assert(infos[i] == listed[i]);
                    assert(infos[i].id == wanted[i]);
                    assert(listed[i].id == before.inventory@[i].id);
                }
            }
        }
        assert(snapshot@.ids() =~= metadata_ids(kept.adapters@));
    }
}

/// An answer is kept: the same request gets it again, whatever the adapters would say now, and
/// another list of adapters under the same generation is refused.
pub proof fn kept_answer_serves_its_request(
    before: GpuMetadataCollector,
    after: GpuMetadataCollector,
    last: GpuMetadataCollector,
    request: GpuMetadataRequest,
    again: GpuMetadataRequest,
    replies: Seq<AdapterReply>,
    later_replies: Seq<AdapterReply>,
    answer: GpuMetadataSnapshot,
    outcome: Result<GpuMetadataSnapshot, GpuSampleError>,
)
    requires
        before.well_formed(),
        before.answers(&after, request, replies, Ok(answer)),
        after.answers(&last, again, later_replies, outcome),
        again.generation == request.generation,
    ensures
        last == after,
        info_views(again.adapters@) == info_views(request.adapters@) ==> (outcome matches Ok(
            second,
        ) && second@ == answer@),
        info_views(again.adapters@) != info_views(request.adapters@) ==> outcome is Err,
{
    if info_views(again.adapters@) == info_views(request.adapters@) {
        let (first, second) = (displayed_ids(request.adapters@), displayed_ids(again.adapters@));
        assert(second =~= first) by {
            assert(info_views(again.adapters@).len() == info_views(request.adapters@).len());
            assert forall|i: int| 0 <= i < first.len() implies second[i] == first[i] by {
                assert(info_views(again.adapters@)[i] == info_views(request.adapters@)[i]);
            }
        }
    }
}

/// Matches the adapters that the system lists with those of a request.
pub struct AdapterMatch {
    pub requested: Vec<AdapterLuid>,
    pub found: Vec<AdapterLuid>,
}

impl AdapterMatch {
    pub open spec fn well_formed(&self) -> bool {
        &&& self.requested@.no_duplicates()
        &&& self.found@.no_duplicates()
        &&& forall|luid: AdapterLuid| #[trigger]
            self.found@.contains(luid) ==> self.requested@.contains(luid)
    }

    pub fn new(requested: Vec<AdapterLuid>) -> (matching: Self)
        requires
            requested@.no_duplicates(),
        ensures
            matching.well_formed(),
            matching.requested == requested,
            matching.found@.len() == 0,
    {
        AdapterMatch { requested, found: Vec::new() }
    }

    /// Notes an adapter that the system lists, and tells whether it was requested.
    pub fn note(&mut self, luid: AdapterLuid) -> (outcome: Result<bool, GpuSampleError>)
        requires
            old(self).well_formed(),
        ensures
            final(self).well_formed(),
            final(self).requested == old(self).requested,
            if !old(self).requested@.contains(luid) {
                outcome == Ok::<bool, GpuSampleError>(false) && final(self).found == old(self).found
            } else if old(self).found@.contains(luid) {
                outcome == Err::<bool, GpuSampleError>(
                    GpuSampleError::InvalidData { context: "duplicate DXGI LUID for GPU metadata" },
                ) && final(self).found == old(self).found
            } else {
                outcome == Ok::<bool, GpuSampleError>(true) && final(self).found@ == old(
                    self,
                ).found@.push(luid)
            },
    {
        if !contains_luid(self.requested.as_slice(), luid) {
            return Ok(false);
        }
        if contains_luid(self.found.as_slice(), luid) {
            return Err(
                GpuSampleError::InvalidData { context: "duplicate DXGI LUID for GPU metadata" },
            );
        }
        proof {
            lemma_push_contains(self.found@, luid);
        }
        self.found.push(luid);
        Ok(true)
    }

    /// Checks that every requested adapter was found.
    pub fn finish(&self) -> (outcome: Result<(), GpuSampleError>)
        requires
            self.well_formed(),
        ensures
            outcome == if self.requested@.to_set() == self.found@.to_set() {
                Ok::<(), GpuSampleError>(())
            } else {
                Err(
                    GpuSampleError::InvalidData {
                        context: "GPU metadata DXGI adapter completeness",
                    },
                )
            },
    {
        proof {
            let wanted = self.requested@.to_set();
            let found = self.found@.to_set();
            self.requested@.unique_seq_to_set();
            self.found@.unique_seq_to_set();
            assert(found.subset_of(wanted));
            if found.len() == wanted.len() {
                vstd::set_lib::lemma_subset_equality(found, wanted);
            }
        }
        if self.found.len() != self.requested.len() {
            Err(GpuSampleError::InvalidData { context: "GPU metadata DXGI adapter completeness" })
        } else {
            Ok(())
        }
    }
}

/// The feature level of a logical adapter. `runtime` and `adapters` tell whether the system
/// component could be loaded and the adapters listed; `level` is what the adapter said.
pub fn directx_result(
    runtime: Result<(), GpuSampleError>,
    adapters: Result<(), GpuSampleError>,
    level: Option<Result<Option<String>, GpuSampleError>>,
) -> (outcome: Result<Option<String>, GpuSampleError>)
    ensures
        outcome == match (runtime, adapters, level) {
            (Err(error), _, _) => Err::<Option<String>, GpuSampleError>(error),
            (_, Err(error), _) => Err(error),
            (_, _, None) => Err(
                GpuSampleError::InvalidData { context: "missing DXGI adapter for GPU metadata" },
            ),
            (_, _, Some(level)) => level,
        },
{
    if let Err(error) = runtime {
        return Err(error);
    }
    if let Err(error) = adapters {
        return Err(error);
    }
    match level {
        Some(level) => level,
        None => Err(
            GpuSampleError::InvalidData { context: "missing DXGI adapter for GPU metadata" },
        ),
    }
}

pub open spec fn feature_level(level: i32) -> Option<Seq<char>> {
    if level == D3D_FEATURE_LEVEL_12_2 {
        Some("12 (FL 12.2)"@)
    } else if level == D3D_FEATURE_LEVEL_12_1 {
        Some("12 (FL 12.1)"@)
    } else if level == D3D_FEATURE_LEVEL_12_0 {
        Some("12 (FL 12.0)"@)
    } else if level == D3D_FEATURE_LEVEL_11_1 {
        Some("12 (FL 11.1)"@)
    } else if level == D3D_FEATURE_LEVEL_11_0 {
        Some("12 (FL 11.0)"@)
    } else {
        None
    }
}

pub fn feature_level_name(level: i32) -> (name: Option<&'static str>)
    ensures
        match feature_level(level) {
            Some(text) => name matches Some(found) && found@ == text,
            None => name is None,
        },
{
    if level == D3D_FEATURE_LEVEL_12_2 {
        Some("12 (FL 12.2)")
    } else if level == D3D_FEATURE_LEVEL_12_1 {
        Some("12 (FL 12.1)")
    } else if level == D3D_FEATURE_LEVEL_12_0 {
        Some("12 (FL 12.0)")
    } else if level == D3D_FEATURE_LEVEL_11_1 {
        Some("12 (FL 11.1)")
    } else if level == D3D_FEATURE_LEVEL_11_0 {
        Some("12 (FL 11.0)")
    } else {
        None
    }
}

/// The feature level of an adapter: none where no device can be made for it. `level` is what the
/// device supports at most.
pub fn query_feature_level(
    create_result: i32,
    has_device: bool,
    level: Result<i32, GpuSampleError>,
) -> (outcome: Result<Option<String>, GpuSampleError>)
    ensures
        if create_result < 0 {
            outcome == Ok::<Option<String>, GpuSampleError>(None)
        } else if !has_device {
            outcome == Err::<Option<String>, GpuSampleError>(
                GpuSampleError::InvalidData { context: "D3D12CreateDevice output" },
            )
        } else {
            match level {
                Err(error) => outcome == Err::<Option<String>, GpuSampleError>(error),
                Ok(level) => match feature_level(level) {
                    Some(text) => outcome matches Ok(Some(name)) && name@ == text,
                    None => outcome == Ok::<Option<String>, GpuSampleError>(None),
                },
            }
        },
{
    if create_result < 0 {
        return Ok(None);
    }
    if !has_device {
        return Err(GpuSampleError::InvalidData { context: "D3D12CreateDevice output" });
    }
    match level {
        Err(error) => Err(error),
        Ok(level) => match feature_level_name(level) {
            Some(name) => Ok(Some(copy_of(name))),
            None => Ok(None),
        },
    }
}

/// What an open adapter said: its installed memory, and its driver with what could not be
/// learned of it.
pub struct AdapterAnswers {
    pub installed_memory: Result<Option<u64>, GpuSampleError>,
    pub driver: Result<(GpuDriverDetails, Vec<GpuSampleError>), GpuSampleError>,
}

/// The reserved memory of an adapter.
pub open spec fn reserved_memory(info: GpuAdapterInfo, answers: AdapterAnswers) -> Result<
    Option<u64>,
    GpuSampleError,
> {
    match answers.installed_memory {
        Err(error) => Err(error),
        Ok(Some(installed)) => match info.dedicated_limit_bytes {
            Some(limit) => if installed == 0 || limit == 0 {
                Ok(None)
            } else if installed < limit {
                Err(
                    GpuSampleError::InvalidData {
                        context: "GPU installed memory is below the dedicated limit",
                    },
                )
            } else {
                Ok(Some((installed - limit) as u64))
            },
            None => Ok(None),
        },
        Ok(None) => Ok(None),
    }
}

/// The error of a failed answer, as a list.
pub open spec fn error_list<T>(answer: Result<T, GpuSampleError>) -> Seq<GpuSampleError> {
    match answer {
        Ok(_) => Seq::empty(),
        Err(error) => seq![error],
    }
}

/// What could not be learned of an adapter.
pub open spec fn metadata_errors(
    info: GpuAdapterInfo,
    answers: Result<AdapterAnswers, GpuSampleError>,
    directx: Result<Option<String>, GpuSampleError>,
) -> Seq<GpuSampleError> {
    (match answers {
        Err(error) => seq![error],
        Ok(answers) => error_list(reserved_memory(info, answers)) + match answers.driver {
            Ok((_, errors)) => errors@,
            Err(error) => seq![error],
        },
    }) + error_list(directx)
}

/// Whether metadata say of an adapter what was learned of it, and note what was not.
pub open spec fn describes(
    metadata: GpuAdapterMetadata,
    info: GpuAdapterInfo,
    answers: Result<AdapterAnswers, GpuSampleError>,
    directx: Result<Option<String>, GpuSampleError>,
) -> bool {
    &&& metadata.id == info.id
    &&& metadata.hardware_reserved_bytes == match answers {
        Ok(answers) => match reserved_memory(info, answers) {
            Ok(reserved) => reserved,
            Err(_) => None,
        },
        Err(_) => None,
    }
    &&& metadata.driver == match answers {
        Ok(AdapterAnswers { driver: Ok((driver, _)), .. }) => driver,
        _ => (GpuDriverDetails { version: None, date: None, location: None, location_path: None }),
    }
    &&& metadata.directx_feature_level == match directx {
        Ok(level) => level,
        Err(_) => None,
    }
    &&& metadata.metadata_errors@ == metadata_errors(info, answers, directx)
}

/// What is known of an adapter. `answers` is an error if it could not be opened.
pub fn adapter_metadata(
    info: &GpuAdapterInfo,
    answers: Result<AdapterAnswers, GpuSampleError>,
    directx: Result<Option<String>, GpuSampleError>,
) -> (metadata: GpuAdapterMetadata)
    ensures
        describes(metadata, *info, answers, directx),
{
    let mut errors: Vec<GpuSampleError> = Vec::new();
    let mut driver: GpuDriverDetails = Default::default();
    let mut hardware_reserved_bytes: Option<u64> = None;
    let ghost given = answers;
    match answers {
        Ok(answers) => {
            let reserved = match answers.installed_memory {
                Ok(installed) => validated_hardware_reserved_memory(
                    installed,
                    info.dedicated_limit_bytes,
                ),
                Err(error) => Err(error),
            };
            assert(reserved == reserved_memory(*info, answers));
            match reserved {
                Ok(value) => {
                    hardware_reserved_bytes = value;
                },
                Err(error) => {
                    errors.push(error);
                },
            }
            assert(errors@ =~= error_list(reserved));
            match answers.driver {
                Ok((details, noted)) => {
                    driver = details;
                    for index in 0..noted.len()
                        invariant
                            errors@ =~= error_list(reserved) + noted@.take(index as int),
                    {
                        errors.push(noted[index]);
                    }
                    assert(noted@.take(noted@.len() as int) =~= noted@);
                },
                Err(error) => {
                    errors.push(error);
                },
            }
        },
        Err(error) => {
            errors.push(error);
        },
    }
    let ghost earlier = errors@;
    let directx_feature_level = match directx {
        Ok(level) => level,
        Err(error) => {
            errors.push(error);
            None
        },
    };
    assert(errors@ =~= earlier + error_list(directx));
    assert(errors@ =~= metadata_errors(*info, given, directx));
    GpuAdapterMetadata {
        id: info.id,
        hardware_reserved_bytes,
        driver,
        directx_feature_level,
        metadata_errors: errors,
    }
}

/// A value that may be missing; a failure to learn it is noted.
pub fn optional_metadata_field<T>(
    result: Result<Option<T>, GpuSampleError>,
    errors: &mut Vec<GpuSampleError>,
) -> (value: Option<T>)
    ensures
        match result {
            Ok(found) => value == found && final(errors)@ == old(errors)@,
            Err(error) => value is None && final(errors)@ == old(errors)@.push(error),
        },
{
    match result {
        Ok(value) => value,
        Err(error) => {
            errors.push(error);
            None
        },
    }
}

/// The driver of an adapter, from the properties of its device.
pub fn driver_details(
    version: Result<Option<String>, GpuSampleError>,
    date: Result<Option<String>, GpuSampleError>,
    location: Result<Option<String>, GpuSampleError>,
    location_path: Result<Option<String>, GpuSampleError>,
) -> (details: (GpuDriverDetails, Vec<GpuSampleError>))
    ensures
        details.0 == (GpuDriverDetails {
            version: known(version),
            date: known(date),
            location: known(location),
            location_path: known(location_path),
        }),
        details.1@ == error_list(version) + error_list(date) + error_list(location) + error_list(
            location_path,
        ),
{
    let mut errors: Vec<GpuSampleError> = Vec::new();
    let ghost lists = (
        error_list(version),
        error_list(date),
        error_list(location),
        error_list(location_path),
    );
    let version = optional_metadata_field(version, &mut errors);
    assert(errors@ =~= lists.0);
    let date = optional_metadata_field(date, &mut errors);
    assert(errors@ =~= lists.0 + lists.1);
    let location = optional_metadata_field(location, &mut errors);
    assert(errors@ =~= lists.0 + lists.1 + lists.2);
    let location_path = optional_metadata_field(location_path, &mut errors);
    assert(errors@ =~= lists.0 + lists.1 + lists.2 + lists.3);
    (GpuDriverDetails { version, date, location, location_path }, errors)
}

pub open spec fn known<T>(result: Result<Option<T>, GpuSampleError>) -> Option<T> {
    match result {
        Ok(value) => value,
        Err(_) => None,
    }
}

/// Decides on the answer to the question for the size of a property: it may not be there.
pub fn property_size(
    succeeded: bool,
    error: u32,
    required_size: u32,
    context: &'static str,
) -> (outcome: Result<Option<u32>, GpuSampleError>)
    ensures
        outcome == if !succeeded && error == ERROR_NOT_FOUND {
            Ok::<Option<u32>, GpuSampleError>(None)
        } else if !succeeded && error != ERROR_INSUFFICIENT_BUFFER {
            Err(
                GpuSampleError::Win32 {
                    context,
                    code: if error == 0 {
                        ERROR_GEN_FAILURE
                    } else {
                        error
                    },
                },
            )
        } else if required_size == 0 || required_size > MAX_DEVICE_PROPERTY_BYTES {
            Err(GpuSampleError::InvalidData { context })
        } else {
            Ok(Some(required_size))
        },
{
    if !succeeded {
        if error == ERROR_NOT_FOUND {
            return Ok(None);
        }
        if error != ERROR_INSUFFICIENT_BUFFER {
            return Err(GpuSampleError::Win32 { context, code: error_or_gen_failure(error) });
        }
    }
    if required_size == 0 || required_size > MAX_DEVICE_PROPERTY_BYTES {
        return Err(GpuSampleError::InvalidData { context });
    }
    Ok(Some(required_size))
}

/// A property of a device: its type and its bytes.
pub struct DeviceProperty {
    pub property_type: u32,
    pub bytes: Vec<u8>,
}

/// Takes the bytes of a property out of the buffer that the system wrote them into.
pub fn property_bytes(
    succeeded: bool,
    error: u32,
    property_type: u32,
    actual_size: u32,
    buffer: Vec<u8>,
    context: &'static str,
) -> (outcome: Result<DeviceProperty, GpuSampleError>)
    ensures
        if !succeeded {
            outcome == Err::<DeviceProperty, GpuSampleError>(
                GpuSampleError::Win32 {
                    context,
                    code: if error == 0 {
                        ERROR_GEN_FAILURE
                    } else {
                        error
                    },
                },
            )
        } else if actual_size > buffer@.len() {
            outcome == Err::<DeviceProperty, GpuSampleError>(
                GpuSampleError::InvalidData { context },
            )
        } else {
            outcome matches Ok(property) && property.property_type == property_type
                && property.bytes@ == buffer@.take(actual_size as int)
        },
{
    if !succeeded {
        return Err(GpuSampleError::Win32 { context, code: error_or_gen_failure(error) });
    }
    if actual_size as usize > buffer.len() {
        return Err(GpuSampleError::InvalidData { context });
    }
    let mut bytes = buffer;
    bytes.truncate(actual_size as usize);
    assert(bytes@ =~= buffer@.take(actual_size as int));
    Ok(DeviceProperty { property_type, bytes })
}

/// The two-byte units of some bytes.
pub open spec fn units_of(bytes: Seq<u8>) -> Seq<u16> {
    Seq::new((bytes.len() / 2) as nat, |i: int| u16_at(bytes, 2 * i) as u16)
}

/// The text of a property: the first of a list, and none where it is empty.
pub open spec fn property_text(
    property: DeviceProperty,
    expected_type: u32,
    context: &'static str,
) -> Result<Option<Seq<char>>, GpuSampleError> {
    let units = units_of(property.bytes@);
    if property.property_type != expected_type || property.bytes@.len() % 2 != 0 {
        Err(GpuSampleError::InvalidData { context })
    } else {
        match first_zero(units) {
            None => Err(GpuSampleError::InvalidData { context }),
            Some(length) => if length == 0 {
                Ok(None)
            } else {
                match decoded(units.take(length)) {
                    Some(text) => Ok(Some(text)),
                    None => Err(GpuSampleError::InvalidData { context }),
                }
            },
        }
    }
}

pub fn string_property(
    property: &DeviceProperty,
    expected_type: u32,
    context: &'static str,
) -> (outcome: Result<Option<String>, GpuSampleError>)
    ensures
        match property_text(*property, expected_type, context) {
            Err(error) => outcome == Err::<Option<String>, GpuSampleError>(error),
            Ok(None) => outcome == Ok::<Option<String>, GpuSampleError>(None),
            Ok(Some(text)) => outcome matches Ok(Some(found)) && found@ == text,
        },
{
    let size: usize = property.bytes.len();
    if property.property_type != expected_type || size % 2 != 0 {
        return Err(GpuSampleError::InvalidData { context });
    }
    let count: usize = size / 2;
    let mut units: Vec<u16> = Vec::new();
    for index in 0..count
        invariant
            2 * count == size,
            size == property.bytes@.len(),
            units@ =~= units_of(property.bytes@).take(index as int),
    {
        units.push(read_u16(property.bytes.as_slice(), 2 * index));
    }
    assert(units@ =~= units_of(property.bytes@));
    let length: usize = match find_end(units.as_slice()) {
        Some(length) => length,
        None => return Err(GpuSampleError::InvalidData { context }),
    };
    if length == 0 {
        return Ok(None);
    }
    let text = vstd::slice::slice_subrange(units.as_slice(), 0, length);
    assert(text@ =~= units@.take(length as int));
    match decode(text) {
        Some(text) => Ok(Some(text)),
        None => Err(GpuSampleError::InvalidData { context }),
    }
}

/// The moment of a property, as its lower and its upper half.
pub fn filetime_property(property: &DeviceProperty, context: &'static str) -> (outcome: Result<
    (u32, u32),
    GpuSampleError,
>)
    ensures
        if property.property_type != DEVPROP_TYPE_FILETIME || property.bytes@.len() != 8 {
            outcome == Err::<(u32, u32), GpuSampleError>(GpuSampleError::InvalidData { context })
        } else {
            outcome matches Ok((low, high)) && low == u32_at(property.bytes@, 0) && high == u32_at(
                property.bytes@,
                4,
            )
        },
{
    if property.property_type != DEVPROP_TYPE_FILETIME || property.bytes.len() != 8 {
        return Err(GpuSampleError::InvalidData { context });
    }
    let bytes = property.bytes.as_slice();
    Ok((read_u32(bytes, 0), read_u32(bytes, 4)))
}

/// `text` with zeros before it, so that it has at least `width` characters.
pub open spec fn zero_padded(text: Seq<char>, width: nat) -> Seq<char> {
    if text.len() >= width {
        text
    } else {
        Seq::new((width - text.len()) as nat, |i: int| '0') + text
    }
}

fn append_padded(text: &mut Vec<char>, value: u16, width: usize)
    ensures
        final(text)@ == old(text)@ + zero_padded(decimal_text(value as nat), width as nat),
{
    let digits = decimal_chars(value as u64);
    let fill: usize = if digits.len() >= width {
        0
    } else {
        width - digits.len()
    };
    for done in 0..fill
        invariant
            text@ =~= old(text)@ + Seq::new(done as nat, |i: int| '0'),
    {
        text.push('0');
    }
    append_chars(text, digits.as_slice());
    assert(text@ =~= old(text)@ + zero_padded(decimal_text(value as nat), width as nat));
}

/// The text of a date.
pub fn date_text(year: u16, month: u16, day: u16) -> (text: String)
    ensures
        text@ == zero_padded(decimal_text(year as nat), 4) + seq!['-'] + zero_padded(
            decimal_text(month as nat),
            2,
        ) + seq!['-'] + zero_padded(decimal_text(day as nat), 2),
{
    let mut text: Vec<char> = Vec::new();
    append_padded(&mut text, year, 4);
    text.push('-');
    append_padded(&mut text, month, 2);
    text.push('-');
    append_padded(&mut text, day, 2);
    assert(text@ =~= zero_padded(decimal_text(year as nat), 4) + seq!['-'] + zero_padded(
        decimal_text(month as nat),
        2,
    ) + seq!['-'] + zero_padded(decimal_text(day as nat), 2));
    string_of(text.as_slice())
}

} // verus!
