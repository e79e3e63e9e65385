//! Supplemental processor topology, read from the records that Windows returns.
//!
//! `GetLogicalProcessorInformationEx` answers with a run of variable-length records. Offsets
//! below are those of the 64-bit layouts of the structures that it documents.
use vstd::prelude::*;

use super::model::{
    invalid, CpuCacheInfo, CpuCacheKind, CpuDetailError, CpuSupplementalTopology, CpuTopologyKey,
    LogicalProcessorId,
};
use super::processor_set::ProcessorSet;
use crate::bits::{bit_count, bit_set, count_bits, has_bit};
use crate::bytes::{read_u16, read_u32, read_u64, u16_at, u32_at, u64_at};
use crate::seqs::{contains_u16, contains_u32, lemma_push_contains};

verus! {

pub const RELATION_PROCESSOR_CORE: u32 = 0;

pub const RELATION_NUMA_NODE: u32 = 1;

pub const RELATION_CACHE: u32 = 2;

pub const RELATION_PROCESSOR_PACKAGE: u32 = 3;

pub const RELATION_GROUP: u32 = 4;

pub const RELATION_PROCESSOR_DIE: u32 = 5;

pub const RELATION_NUMA_NODE_EX: u32 = 6;

pub const RELATION_PROCESSOR_MODULE: u32 = 7;

pub const CACHE_UNIFIED: u32 = 0;

pub const CACHE_INSTRUCTION: u32 = 1;

pub const CACHE_DATA: u32 = 2;

pub const CACHE_TRACE: u32 = 3;

pub const CACHE_FULLY_ASSOCIATIVE: u8 = 0xFF;

/// Size of the part that all records share: relationship and record size.
pub const HEADER_SIZE: usize = 8;

/// Where the group count and the group masks stand in a processor or NUMA node record.
pub const NODE_GROUP_COUNT: usize = 30;

pub const NODE_MASKS: usize = 32;

/// Where the group count and the group masks stand in a cache record.
pub const CACHE_GROUP_COUNT: usize = 38;

pub const CACHE_MASKS: usize = 40;

pub const GROUP_AFFINITY_SIZE: usize = 16;

pub const GROUP_INFO_SIZE: usize = 48;

/// Where the descriptions of the groups start in a group record.
pub const GROUP_INFOS: usize = 32;

/// What two caches have in common when they are counted together.
#[derive(Clone, Copy, Debug, PartialEq, Eq, Structural)]
pub struct CacheKey {
    pub level: u8,
    pub kind: CpuCacheKind,
    pub bytes: u32,
    pub line_size: u16,
    pub associativity: Option<u8>,
}

pub open spec fn kind_rank(kind: CpuCacheKind) -> int {
    match kind {
        CpuCacheKind::Unified => 0,
        CpuCacheKind::Instruction => 1,
        CpuCacheKind::Data => 2,
        CpuCacheKind::Trace => 3,
    }
}

pub open spec fn associativity_rank(associativity: Option<u8>) -> int {
    match associativity {
        None => -1,
        Some(ways) => ways as int,
    }
}

/// The order in which caches are listed: by level, kind, size, line size and associativity.
pub open spec fn cache_before(a: CacheKey, b: CacheKey) -> bool {
    if a.level != b.level {
        a.level < b.level
    } else if a.kind != b.kind {
        kind_rank(a.kind) < kind_rank(b.kind)
    } else if a.bytes != b.bytes {
        a.bytes < b.bytes
    } else if a.line_size != b.line_size {
        a.line_size < b.line_size
    } else {
        associativity_rank(a.associativity) < associativity_rank(b.associativity)
    }
}

fn cache_kind_rank(kind: CpuCacheKind) -> (rank: u8)
    ensures
        rank == kind_rank(kind),
{
    match kind {
        CpuCacheKind::Unified => 0,
        CpuCacheKind::Instruction => 1,
        CpuCacheKind::Data => 2,
        CpuCacheKind::Trace => 3,
    }
}

fn is_cache_before(a: CacheKey, b: CacheKey) -> (before: bool)
    ensures
        before == cache_before(a, b),
{
    if a.level != b.level {
        a.level < b.level
    } else if a.kind != b.kind {
        cache_kind_rank(a.kind) < cache_kind_rank(b.kind)
    } else if a.bytes != b.bytes {
        a.bytes < b.bytes
    } else if a.line_size != b.line_size {
        a.line_size < b.line_size
    } else {
        match (a.associativity, b.associativity) {
            (None, Some(_)) => true,
            (Some(left), Some(right)) => left < right,
            _ => false,
        }
    }
}

/// What has been read of the records so far.
pub struct RelationView {
    pub cores: Set<LogicalProcessorId>,
    pub packages: Set<LogicalProcessorId>,
    pub dies: Set<LogicalProcessorId>,
    pub modules: Set<LogicalProcessorId>,
    pub numa: Set<LogicalProcessorId>,
    pub package_count: nat,
    pub die_count: nat,
    pub module_count: nat,
    pub numa_nodes: Set<u32>,
    pub saw_group: bool,
    pub caches: Map<CacheKey, nat>,
}

pub open spec fn nothing_read() -> RelationView {
    RelationView {
        cores: Set::empty(),
        packages: Set::empty(),
        dies: Set::empty(),
        modules: Set::empty(),
        numa: Set::empty(),
        package_count: 0,
        die_count: 0,
        module_count: 0,
        numa_nodes: Set::empty(),
        saw_group: false,
        caches: Map::empty(),
    }
}

pub open spec fn bad<T>(context: &'static str) -> Result<T, CpuDetailError> {
    Err(CpuDetailError::InvalidData { context })
}

pub open spec fn mask_at(record: Seq<u8>, masks: int, index: int) -> u64 {
    u64_at(record, masks + index * GROUP_AFFINITY_SIZE) as u64
}

pub open spec fn mask_group_at(record: Seq<u8>, masks: int, index: int) -> u16 {
    u16_at(record, masks + index * GROUP_AFFINITY_SIZE + 8) as u16
}

/// Whether one of the first `count` masks names no processor or repeats a group.
pub open spec fn bad_masks(record: Seq<u8>, masks: int, count: int) -> bool {
    exists|i: int|
        0 <= i < count && (#[trigger] mask_at(record, masks, i) == 0 || exists|j: int|
            0 <= j < i && mask_group_at(record, masks, i) == #[trigger] mask_group_at(
                record,
                masks,
                j,
            ))
}

/// The processors that the first `count` masks name.
pub open spec fn masked_processors(record: Seq<u8>, masks: int, count: int) -> Set<
    LogicalProcessorId,
> {
    Set::new(
        |id: LogicalProcessorId|
            exists|i: int|
                0 <= i < count && #[trigger] mask_group_at(record, masks, i) == id.group && bit_set(
                    mask_at(record, masks, i),
                    id.number as int,
                ),
    )
}

/// The processors that a record names by a list of group masks.
pub open spec fn group_members(record: Seq<u8>, count_offset: int, masks: int) -> Result<
    Set<LogicalProcessorId>,
    CpuDetailError,
> {
    if count_offset + 2 > record.len() {
        bad("CPU variable record read bounds")
    } else {
        let count = u16_at(record, count_offset);
        if count == 0 {
            bad("CPU topology empty group mask list")
        } else if masks + count * GROUP_AFFINITY_SIZE > record.len() {
            bad("CPU topology group mask bounds")
        } else if bad_masks(record, masks, count) {
            bad("CPU topology empty or duplicate group mask")
        } else {
            Ok(masked_processors(record, masks, count))
        }
    }
}

/// The same, for members that have to be among the expected processors.
pub open spec fn expected_members(
    record: Seq<u8>,
    count_offset: int,
    masks: int,
    expected: Set<LogicalProcessorId>,
) -> Result<Set<LogicalProcessorId>, CpuDetailError> {
    match group_members(record, count_offset, masks) {
        Err(error) => Err(error),
        Ok(members) => if members == Set::<LogicalProcessorId>::empty() || !members.subset_of(
            expected,
        ) {
            bad("CPU relationship processor membership")
        } else {
            Ok(members)
        },
    }
}

pub open spec fn group_active_count(record: Seq<u8>, index: int) -> int {
    record[GROUP_INFOS + index * GROUP_INFO_SIZE + 1] as int
}

pub open spec fn group_maximum_count(record: Seq<u8>, index: int) -> int {
    record[GROUP_INFOS + index * GROUP_INFO_SIZE] as int
}

pub open spec fn group_mask(record: Seq<u8>, index: int) -> u64 {
    u64_at(record, GROUP_INFOS + index * GROUP_INFO_SIZE + 40) as u64
}

/// Whether the counts of a group agree with each other and with its mask.
pub open spec fn good_group(record: Seq<u8>, index: int) -> bool {
    &&& 0 < group_active_count(record, index) <= group_maximum_count(record, index)
    &&& bit_count(group_mask(record, index)) == group_active_count(record, index)
}

/// The processors that are active in the first `count` groups.
pub open spec fn active_processors(record: Seq<u8>, count: int) -> Set<LogicalProcessorId> {
    Set::new(
        |id: LogicalProcessorId|
            id.group < count && bit_set(group_mask(record, id.group as int), id.number as int),
    )
}

/// Why a group record is refused, if it is.
pub open spec fn group_record_error(
    record: Seq<u8>,
    expected: Set<LogicalProcessorId>,
) -> Option<&'static str> {
    if record.len() < HEADER_SIZE + 4 {
        Some("CPU variable record read bounds")
    } else {
        let active = u16_at(record, HEADER_SIZE + 2);
        let maximum = u16_at(record, HEADER_SIZE as int);
        if active == 0 || active > maximum {
            Some("CPU active processor group count")
        } else if GROUP_INFOS + active * GROUP_INFO_SIZE > record.len() {
            Some("CPU group relationship bounds")
        } else if exists|i: int| 0 <= i < active && !good_group(record, i) {
            Some("CPU group relationship active mask")
        } else if active_processors(record, active) != expected {
            Some("CPU group relationship topology mismatch")
        } else {
            None
        }
    }
}

pub open spec fn cache_kind(value: int) -> Option<CpuCacheKind> {
    if value == CACHE_UNIFIED {
        Some(CpuCacheKind::Unified)
    } else if value == CACHE_INSTRUCTION {
        Some(CpuCacheKind::Instruction)
    } else if value == CACHE_DATA {
        Some(CpuCacheKind::Data)
    } else if value == CACHE_TRACE {
        Some(CpuCacheKind::Trace)
    } else {
        None
    }
}

/// The cache that a record describes.
pub open spec fn cache_record_key(record: Seq<u8>, expected: Set<LogicalProcessorId>) -> Result<
    CacheKey,
    CpuDetailError,
> {
    if record.len() < HEADER_SIZE + 1 {
        bad("CPU variable record read bounds")
    } else if !(1 <= record[HEADER_SIZE as int] <= 3) {
        bad("CPU cache level")
    } else if record.len() < HEADER_SIZE + 12 {
        bad("CPU variable record read bounds")
    } else if u16_at(record, HEADER_SIZE + 2) == 0 || u32_at(record, HEADER_SIZE + 4) == 0 {
        bad("CPU cache size and line size")
    } else {
        match cache_kind(u32_at(record, HEADER_SIZE + 8)) {
            None => bad("CPU cache type"),
            Some(kind) => match expected_members(
                record,
                CACHE_GROUP_COUNT as int,
                CACHE_MASKS as int,
                expected,
            ) {
                Err(error) => Err(error),
                Ok(members) => Ok(
                    CacheKey {
                        level: record[HEADER_SIZE as int],
                        kind,
                        bytes: u32_at(record, HEADER_SIZE + 4) as u32,
                        line_size: u16_at(record, HEADER_SIZE + 2) as u16,
                        associativity: if record[HEADER_SIZE + 1] == CACHE_FULLY_ASSOCIATIVE {
                            None
                        } else {
                            Some(record[HEADER_SIZE + 1])
                        },
                    },
                ),
            },
        }
    }
}

/// What has been read after a record that names some processors of the expected ones.
pub open spec fn after_members(
    view: RelationView,
    relationship: int,
    node: u32,
    members: Set<LogicalProcessorId>,
) -> RelationView {
    if relationship == RELATION_PROCESSOR_CORE {
        RelationView { cores: view.cores.union(members), ..view }
    } else if relationship == RELATION_PROCESSOR_PACKAGE {
        RelationView {
            packages: view.packages.union(members),
            package_count: view.package_count + 1,
            ..view
        }
    } else if relationship == RELATION_PROCESSOR_DIE {
        RelationView {
            dies: view.dies.union(members),
            die_count: view.die_count + 1,
            ..view
        }
    } else if relationship == RELATION_PROCESSOR_MODULE {
        RelationView {
            modules: view.modules.union(members),
            module_count: view.module_count + 1,
            ..view
        }
    } else {
        RelationView {
            numa: view.numa.union(members),
            numa_nodes: view.numa_nodes.insert(node),
            ..view
        }
    }
}

/// The processors that records of a relationship have named so far.
pub open spec fn members_so_far(view: RelationView, relationship: int) -> Set<LogicalProcessorId> {
    if relationship == RELATION_PROCESSOR_CORE {
        view.cores
    } else if relationship == RELATION_PROCESSOR_PACKAGE {
        view.packages
    } else if relationship == RELATION_PROCESSOR_DIE {
        view.dies
    } else if relationship == RELATION_PROCESSOR_MODULE {
        view.modules
    } else {
        view.numa
    }
}

pub open spec fn is_partition_relationship(relationship: int) -> bool {
    ||| relationship == RELATION_PROCESSOR_CORE
    ||| relationship == RELATION_PROCESSOR_PACKAGE
    ||| relationship == RELATION_PROCESSOR_DIE
    ||| relationship == RELATION_PROCESSOR_MODULE
    ||| is_numa_relationship(relationship)
}

pub open spec fn is_numa_relationship(relationship: int) -> bool {
    relationship == RELATION_NUMA_NODE || relationship == RELATION_NUMA_NODE_EX
}

pub open spec fn count_of(caches: Map<CacheKey, nat>, key: CacheKey) -> nat {
    if caches.contains_key(key) {
        caches[key]
    } else {
        0
    }
}

/// What has been read after one more record, or why the record is refused.
pub open spec fn after_record(
    view: RelationView,
    record: Seq<u8>,
    expected: Set<LogicalProcessorId>,
) -> Result<RelationView, CpuDetailError> {
    let relationship = u32_at(record, 0);
    if is_partition_relationship(relationship) {
        if is_numa_relationship(relationship) && record.len() < HEADER_SIZE + 4 {
            bad("CPU variable record read bounds")
        } else {
            match expected_members(record, NODE_GROUP_COUNT as int, NODE_MASKS as int, expected) {
                Err(error) => Err(error),
                Ok(members) => if !members_so_far(view, relationship).disjoint(members) {
                    bad("CPU relationship partition overlap")
                } else {
                    Ok(
                        after_members(
                            view,
                            relationship,
                            u32_at(record, HEADER_SIZE as int) as u32,
                            members,
                        ),
                    )
                },
            }
        }
    } else if relationship == RELATION_CACHE {
        match cache_record_key(record, expected) {
            Err(error) => Err(error),
            Ok(key) => Ok(
                RelationView {
                    caches: view.caches.insert(key, count_of(view.caches, key) + 1),
                    ..view
                },
            ),
        }
    } else if relationship == RELATION_GROUP {
        match group_record_error(record, expected) {
            Some(context) => bad(context),
            None => if view.saw_group {
                bad("CPU duplicate group relationship")
            } else {
                Ok(RelationView { saw_group: true, ..view })
            },
        }
    } else {
        bad("CPU RelationAll unknown relationship")
    }
}

/// Where the record at `offset` ends, or why there is no whole record.
pub open spec fn record_end(bytes: Seq<u8>, offset: int) -> Result<int, CpuDetailError> {
    if bytes.len() - offset < HEADER_SIZE {
        bad("CPU RelationAll truncated record header")
    } else if u32_at(bytes, offset + 4) < HEADER_SIZE {
        bad("CPU RelationAll record minimum size")
    } else if offset + u32_at(bytes, offset + 4) > bytes.len() {
        bad("CPU RelationAll record bounds")
    } else {
        Ok(offset + u32_at(bytes, offset + 4))
    }
}

/// What has been read after all records from `offset` on.
pub open spec fn after_records(
    view: RelationView,
    bytes: Seq<u8>,
    offset: int,
    expected: Set<LogicalProcessorId>,
) -> Result<RelationView, CpuDetailError>
    decreases bytes.len() - offset,
{
    if offset >= bytes.len() {
        Ok(view)
    } else {
        match record_end(bytes, offset) {
            Err(error) => Err(error),
            Ok(end) => match after_record(view, bytes.subrange(offset, end), expected) {
                Err(error) => Err(error),
                Ok(next) => after_records(next, bytes, end, expected),
            },
        }
    }
}

/// Why the records together are not a complete topology of the expected processors, if so.
pub open spec fn incompleteness(
    view: RelationView,
    expected: Set<LogicalProcessorId>,
) -> Option<&'static str> {
    if view.package_count == 0 || view.packages != expected || view.cores != expected {
        Some("CPU package or core topology completeness")
    } else if view.numa_nodes == Set::<u32>::empty() || view.numa != expected || !view.saw_group {
        Some("CPU NUMA or group topology completeness")
    } else if view.die_count > 0 && view.dies != expected {
        Some("CPU die topology completeness")
    } else if view.module_count > 0 && view.modules != expected {
        Some("CPU module topology completeness")
    } else if exists|key: CacheKey| #[trigger]
        view.caches.contains_key(key) && key.bytes * view.caches[key] > u64::MAX {
        Some("CPU cache total size overflow")
    } else {
        None
    }
}

/// What a whole answer says of the expected processors, or why it is refused.
pub open spec fn relation_outcome(bytes: Seq<u8>, ids: Seq<LogicalProcessorId>) -> Result<
    RelationView,
    CpuDetailError,
> {
    if bytes.len() == 0 {
        bad("CPU RelationAll empty result")
    } else if ids.len() == 0 || !ids.no_duplicates() {
        bad("CPU detail topology key identities")
    } else {
        match after_records(nothing_read(), bytes, 0, ids.to_set()) {
            Err(error) => Err(error),
            Ok(view) => match incompleteness(view, ids.to_set()) {
                Some(context) => bad(context),
                None => Ok(view),
            },
        }
    }
}

pub open spec fn key_of(info: CpuCacheInfo) -> CacheKey {
    CacheKey {
        level: info.level,
        kind: info.kind,
        bytes: info.bytes_per_instance as u32,
        line_size: info.line_size,
        associativity: info.associativity,
    }
}

/// Whether `caches` lists exactly the counted caches, each once and in order.
pub open spec fn lists_caches(caches: Seq<CpuCacheInfo>, counts: Map<CacheKey, nat>) -> bool {
    &&& forall|i: int|
        0 <= i < caches.len() ==> {
            let info = #[trigger] caches[i];
            &&& info.bytes_per_instance <= u32::MAX
            &&& counts.contains_key(key_of(info))
            &&& info.instance_count == counts[key_of(info)]
            &&& info.total_bytes == info.bytes_per_instance * info.instance_count
        }
    &&& forall|i: int, j: int|
        0 <= i < j < caches.len() ==> cache_before(
            key_of(#[trigger] caches[i]),
            key_of(#[trigger] caches[j]),
        )
    &&& forall|key: CacheKey| #[trigger]
        counts.contains_key(key) ==> exists|i: int|
            0 <= i < caches.len() && key_of(#[trigger] caches[i]) == key
}

/// Whether `topology` is what the records say of the expected processors.
pub open spec fn is_topology(
    topology: CpuSupplementalTopology,
    view: RelationView,
    expected: Set<LogicalProcessorId>,
) -> bool {
    &&& topology.package_count == view.package_count
    &&& topology.numa_node_count == view.numa_nodes.len()
    &&& topology.group_count == expected.map(|id: LogicalProcessorId| id.group).len()
    &&& match topology.die_count {
        None => view.die_count == 0,
        Some(count) => count == view.die_count && count > 0,
    }
    &&& match topology.module_count {
        None => view.module_count == 0,
        Some(count) => count == view.module_count && count > 0,
    }
    &&& lists_caches(topology.caches@, view.caches)
}

/// Whether `outcome` is what an answer comes to.
pub open spec fn is_parsed(
    outcome: Result<CpuSupplementalTopology, CpuDetailError>,
    bytes: Seq<u8>,
    ids: Seq<LogicalProcessorId>,
) -> bool {
    match relation_outcome(bytes, ids) {
        Err(error) => outcome == Err::<CpuSupplementalTopology, CpuDetailError>(error),
        Ok(view) => outcome matches Ok(topology) && is_topology(topology, view, ids.to_set()),
    }
}

fn parse_group_members(record: &[u8], count_offset: usize, masks_offset: usize) -> (outcome: Result<
    ProcessorSet,
    CpuDetailError,
>)
    requires
        count_offset <= 64,
        masks_offset <= 64,
    ensures
        match outcome {
            Ok(members) => group_members(record@, count_offset as int, masks_offset as int) == Ok::<
                Set<LogicalProcessorId>,
                CpuDetailError,
            >(members@),
            Err(error) => group_members(record@, count_offset as int, masks_offset as int) == Err::<
                Set<LogicalProcessorId>,
                CpuDetailError,
            >(error),
        },
{
    if count_offset + 2 > record.len() {
        return invalid("CPU variable record read bounds");
    }
    let group_count: usize = read_u16(record, count_offset) as usize;
    if group_count == 0 {
        return invalid("CPU topology empty group mask list");
    }
    if masks_offset + group_count * GROUP_AFFINITY_SIZE > record.len() {
        return invalid("CPU topology group mask bounds");
    }
    let mut groups: Vec<u16> = Vec::new();
    let mut members = ProcessorSet::new();
    assert(members@ =~= masked_processors(record@, masks_offset as int, 0));
    for index in 0..group_count
        invariant
            masks_offset <= 64,
            group_count == u16_at(record@, count_offset as int),
            count_offset + 2 <= record@.len(),
            masks_offset + group_count * GROUP_AFFINITY_SIZE <= record.len(),
            groups@.len() == index,
            forall|i: int|
                0 <= i < index ==> groups@[i] == mask_group_at(record@, masks_offset as int, i),
            !bad_masks(record@, masks_offset as int, index as int),
            members@ == masked_processors(record@, masks_offset as int, index as int),
    {
        let offset: usize = masks_offset + index * GROUP_AFFINITY_SIZE;
        let mask: u64 = read_u64(record, offset);
        let group: u16 = read_u16(record, offset + 8);
        assert(mask == mask_at(record@, masks_offset as int, index as int));
        assert(group == mask_group_at(record@, masks_offset as int, index as int));
        if mask == 0 || contains_u16(&groups, group) {
            proof {
                if mask != 0 {
                    let j = choose|j: int| 0 <= j < groups@.len() && groups@[j] == group;
                    assert(mask_group_at(record@, masks_offset as int, j) == group);
                }
                assert(mask_at(record@, masks_offset as int, index as int) == mask);
                assert(bad_masks(record@, masks_offset as int, group_count as int));
            }
            return invalid("CPU topology empty or duplicate group mask");
        }
        proof {
            assert forall|j: int| 0 <= j < index implies group != #[trigger] mask_group_at(
                record@,
                masks_offset as int,
                j,
            ) by {
                assert(groups@[j] == mask_group_at(record@, masks_offset as int, j));
            }
            if bad_masks(record@, masks_offset as int, index + 1) {
                let i = choose|i: int|
                    0 <= i < index + 1 && (#[trigger] mask_at(record@, masks_offset as int, i) == 0
                        || exists|j: int|
                        0 <= j < i && mask_group_at(record@, masks_offset as int, i)
                            == #[trigger] mask_group_at(record@, masks_offset as int, j));
                assert(i == index) by {
                    if i < index {
                        assert(mask_at(record@, masks_offset as int, i) == mask_at(
                            record@,
                            masks_offset as int,
                            i,
                        ));
                        assert(bad_masks(record@, masks_offset as int, index as int));
                    }
                }
                assert(false);
            }
        }
        groups.push(group);
        insert_masked(&mut members, group, mask);
        proof {
            assert forall|id: LogicalProcessorId|
                members@.contains(id) == masked_processors(
                    record@,
                    masks_offset as int,
                    index + 1,
                ).contains(id) by {
                let earlier = masked_processors(record@, masks_offset as int, index as int);
                if earlier.contains(id) {
                    let i = choose|i: int|
                        0 <= i < index && #[trigger] mask_group_at(record@, masks_offset as int, i)
                            == id.group && bit_set(
                            mask_at(record@, masks_offset as int, i),
                            id.number as int,
                        );
                    assert(0 <= i < index + 1);
                    assert(mask_group_at(record@, masks_offset as int, i) == id.group);
                }
                assert(mask_group_at(record@, masks_offset as int, index as int) == group);
            }
            assert(members@ =~= masked_processors(record@, masks_offset as int, index + 1));
        }
    }
    Ok(members)
}

/// Adds the processors that `mask` names in `group`.
fn insert_masked(members: &mut ProcessorSet, group: u16, mask: u64)
    ensures
        forall|id: LogicalProcessorId| #[trigger]
            final(members)@.contains(id) <==> old(members)@.contains(id) || (id.group == group
                && bit_set(mask, id.number as int)),
{
    for number in 0..64u8
        invariant
            forall|id: LogicalProcessorId| #[trigger]
                members@.contains(id) <==> old(members)@.contains(id) || (id.group == group
                    && id.number < number && bit_set(mask, id.number as int)),
    {
        if has_bit(mask, number) {
            members.insert(LogicalProcessorId { group, number });
        }
    }
}

fn parse_expected_members(
    record: &[u8],
    count_offset: usize,
    masks_offset: usize,
    expected: &ProcessorSet,
) -> (outcome: Result<ProcessorSet, CpuDetailError>)
    requires
        count_offset <= 64,
        masks_offset <= 64,
    ensures
        match outcome {
            Ok(members) => expected_members(
                record@,
                count_offset as int,
                masks_offset as int,
                expected@,
            ) == Ok::<Set<LogicalProcessorId>, CpuDetailError>(members@),
            Err(error) => expected_members(
                record@,
                count_offset as int,
                masks_offset as int,
                expected@,
            ) == Err::<Set<LogicalProcessorId>, CpuDetailError>(error),
        },
{
    match parse_group_members(record, count_offset, masks_offset) {
        Err(error) => Err(error),
        Ok(members) => {
            if members.is_empty() || !members.is_subset(expected) {
                return invalid("CPU relationship processor membership");
            }
            Ok(members)
        },
    }
}

fn validate_group_relationship(record: &[u8], expected: &ProcessorSet) -> (outcome: Result<
    (),
    CpuDetailError,
>)
    ensures
        match group_record_error(record@, expected@) {
            None => outcome == Ok::<(), CpuDetailError>(()),
            Some(context) => outcome == bad::<()>(context),
        },
{
    if record.len() < HEADER_SIZE + 4 {
        return invalid("CPU variable record read bounds");
    }
    let active_count: usize = read_u16(record, HEADER_SIZE + 2) as usize;
    let maximum_count: usize = read_u16(record, HEADER_SIZE) as usize;
    if active_count == 0 || active_count > maximum_count {
        return invalid("CPU active processor group count");
    }
    if GROUP_INFOS + active_count * GROUP_INFO_SIZE > record.len() {
        return invalid("CPU group relationship bounds");
    }
    let mut actual = ProcessorSet::new();
    assert(actual@ =~= active_processors(record@, 0));
    for index in 0..active_count
        invariant
            0 < active_count <= u16_at(record@, HEADER_SIZE as int) <= u16::MAX,
            active_count == u16_at(record@, HEADER_SIZE + 2),
            record.len() >= HEADER_SIZE + 4,
            GROUP_INFOS + active_count * GROUP_INFO_SIZE <= record.len(),
            forall|i: int| 0 <= i < index ==> good_group(record@, i),
            actual@ == active_processors(record@, index as int),
    {
        let offset: usize = GROUP_INFOS + index * GROUP_INFO_SIZE;
        let maximum: u8 = record[offset];
        let active: u8 = record[offset + 1];
        let mask: u64 = read_u64(record, offset + 40);
        if active == 0 || active > maximum || count_bits(mask) != active as u32 {
            assert(!good_group(record@, index as int));
            return invalid("CPU group relationship active mask");
        }
        insert_masked(&mut actual, index as u16, mask);
        assert(actual@ =~= active_processors(record@, index + 1));
    }
    if !actual.same_members(expected) {
        return invalid("CPU group relationship topology mismatch");
    }
    Ok(())
}

/// How often one kind of cache was seen.
#[derive(Clone, Copy)]
struct CacheCount {
    key: CacheKey,
    count: usize,
}

/// Counted caches, in the order in which they are listed.
struct CacheTable {
    entries: Vec<CacheCount>,
}

impl View for CacheTable {
    type V = Map<CacheKey, nat>;

    closed spec fn view(&self) -> Map<CacheKey, nat> {
        Map::new(
            |key: CacheKey| self.position(key) is Some,
            |key: CacheKey| self.entries@[self.position(key)->0].count as nat,
        )
    }
}

impl CacheTable {
    spec fn position(&self, key: CacheKey) -> Option<int> {
        if exists|i: int| 0 <= i < self.entries@.len() && #[trigger] self.entries@[i].key == key {
            Some(
                choose|i: int|
                    0 <= i < self.entries@.len() && #[trigger] self.entries@[i].key == key,
            )
        } else {
            None
        }
    }

    spec fn sorted(&self) -> bool {
        forall|i: int, j: int|
            0 <= i < j < self.entries@.len() ==> cache_before(
                #[trigger] self.entries@[i].key,
                #[trigger] self.entries@[j].key,
            )
    }

    proof fn lemma_entry(&self, i: int)
        requires
            self.sorted(),
            0 <= i < self.entries@.len(),
        ensures
            self@.contains_key(self.entries@[i].key),
            self@[self.entries@[i].key] == self.entries@[i].count,
    {
        let key = self.entries@[i].key;
        let at = self.position(key)->0;
        assert(self.entries@[i].key == key);
        assert(at == i) by {
            if at < i {
                assert(cache_before(self.entries@[at].key, self.entries@[i].key));
            } else if i < at {
                assert(cache_before(self.entries@[i].key, self.entries@[at].key));
            }
        }
    }

    proof fn lemma_covered(&self, key: CacheKey)
        requires
            self@.contains_key(key),
        ensures
            exists|i: int| 0 <= i < self.entries@.len() && #[trigger] self.entries@[i].key == key,
    {
    }

    fn new() -> (table: Self)
        ensures
            table.sorted(),
            table@ == Map::<CacheKey, nat>::empty(),
    {
        let table = CacheTable { entries: Vec::new() };
        assert(table@ =~= Map::<CacheKey, nat>::empty());
        table
    }

    fn add_one(&mut self, key: CacheKey)
        requires
            old(self).sorted(),
            forall|k: CacheKey| #[trigger]
                old(self)@.contains_key(k) ==> old(self)@[k] < usize::MAX,
        ensures
            final(self).sorted(),
            final(self)@ == old(self)@.insert(key, count_of(old(self)@, key) + 1),
    {
        let ghost before = *self;
        let mut at: usize = 0;
        while at < self.entries.len() && is_cache_before(self.entries[at].key, key)
            invariant
                at <= self.entries.len(),
                forall|i: int| 0 <= i < at ==> cache_before(#[trigger] self.entries@[i].key, key),
            decreases self.entries.len() - at,
        {
            at += 1;
        }
        if at < self.entries.len() && self.entries[at].key == key {
            proof {
                before.lemma_entry(at as int);
            }
            let count: usize = self.entries[at].count;
            self.entries.set(at, CacheCount { key, count: count + 1 });
            proof {
                assert forall|i: int, j: int|
                    0 <= i < j < self.entries@.len() implies cache_before(
                    #[trigger] self.entries@[i].key,
                    #[trigger] self.entries@[j].key,
                ) by {
                    assert(self.entries@[i].key == before.entries@[i].key);
                    assert(self.entries@[j].key == before.entries@[j].key);
                }
                self.lemma_updated(before, key, at as int, false);
            }
        } else {
            self.entries.insert(at, CacheCount { key, count: 1 });
            proof {
                let n = before.entries@.len();
                assert forall|i: int, j: int|
                    0 <= i < j < self.entries@.len() implies cache_before(
                    #[trigger] self.entries@[i].key,
                    #[trigger] self.entries@[j].key,
                ) by {
                    let a = if i < at { i } else { i - 1 };
                    let b = if j < at { j } else { j - 1 };
                    if i != at {
                        assert(self.entries@[i] == before.entries@[a]);
                    }
                    if j != at {
                        assert(self.entries@[j] == before.entries@[b]);
                    }
                    if at < n {
                        assert(before.entries@[at as int].key != key);
                        lemma_cache_order(before.entries@[at as int].key, key);
                    }
                    if i == at && b > at {
                        assert(cache_before(before.entries@[at as int].key, before.entries@[b].key));
                        lemma_cache_order_chain(
                            key,
                            before.entries@[at as int].key,
                            before.entries@[b].key,
                        );
                    }
                }
                assert(!before@.contains_key(key)) by {
                    if before@.contains_key(key) {
                        before.lemma_covered(key);
                        let i = choose|i: int|
                            0 <= i < n && #[trigger] before.entries@[i].key == key;
                        if at < n {
                            lemma_cache_order(before.entries@[at as int].key, key);
                            if at < i {
                                assert(cache_before(
                                    before.entries@[at as int].key,
                                    before.entries@[i].key,
                                ));
                            }
                        }
                    }
                }
                self.lemma_updated(before, key, at as int, true);
            }
        }
    }

    /// How the counts changed when the entry at `at` was set or inserted.
    proof fn lemma_updated(&self, before: CacheTable, key: CacheKey, at: int, inserted: bool)
        requires
            before.sorted(),
            self.sorted(),
            0 <= at < self.entries@.len(),
            self.entries@[at].key == key,
            self.entries@[at].count == count_of(before@, key) + 1,
            inserted ==> at <= before.entries@.len() && self.entries@ == before.entries@.insert(
                at,
                self.entries@[at],
            ),
            !inserted ==> at < before.entries@.len() && self.entries@ == before.entries@.update(
                at,
                self.entries@[at],
            ) && before.entries@[at].key == key,
        ensures
            self@ == before@.insert(key, count_of(before@, key) + 1),
    {
        let target = before@.insert(key, count_of(before@, key) + 1);
        self.lemma_entry(at);
        assert forall|k: CacheKey| self@.contains_key(k) == target.contains_key(k) by {
            if k != key {
                if self@.contains_key(k) {
                    self.lemma_covered(k);
                    let i = choose|i: int|
                        0 <= i < self.entries@.len() && #[trigger] self.entries@[i].key == k;
                    let b = if inserted && i > at { i - 1 } else { i };
                    assert(before.entries@[b] == self.entries@[i]);
                    before.lemma_entry(b);
                }
                if before@.contains_key(k) {
                    before.lemma_covered(k);
                    let b = choose|i: int|
                        0 <= i < before.entries@.len() && #[trigger] before.entries@[i].key == k;
                    let i = if inserted && b >= at { b + 1 } else { b };
                    assert(before.entries@[b] == self.entries@[i]);
                    self.lemma_entry(i);
                }
            }
        }
        assert forall|k: CacheKey| self@.contains_key(k) implies #[trigger] self@[k]
            == target[k] by {
            self.lemma_covered(k);
            let i = choose|i: int|
                0 <= i < self.entries@.len() && #[trigger] self.entries@[i].key == k;
            self.lemma_entry(i);
            if k != key {
                let b = if inserted && i > at { i - 1 } else { i };
                assert(before.entries@[b] == self.entries@[i]);
                before.lemma_entry(b);
            }
        }
        assert(self@ =~= target);
    }
}

/// Any two different caches are ordered one way.
pub(crate) proof fn lemma_cache_order(a: CacheKey, b: CacheKey)
    ensures
        a == b || cache_before(a, b) || cache_before(b, a),
        !(cache_before(a, b) && cache_before(b, a)),
        !cache_before(a, a),
{
}

proof fn lemma_cache_order_chain(a: CacheKey, b: CacheKey, c: CacheKey)
    requires
        cache_before(a, b),
        cache_before(b, c),
    ensures
        cache_before(a, c),
{
}

/// What has been read of the records so far.
struct RelationState {
    cores: ProcessorSet,
    packages: ProcessorSet,
    dies: ProcessorSet,
    modules: ProcessorSet,
    numa: ProcessorSet,
    package_count: usize,
    die_count: usize,
    module_count: usize,
    numa_nodes: Vec<u32>,
    saw_group: bool,
    caches: CacheTable,
}

impl View for RelationState {
    type V = RelationView;

    closed spec fn view(&self) -> RelationView {
        RelationView {
            cores: self.cores@,
            packages: self.packages@,
            dies: self.dies@,
            modules: self.modules@,
            numa: self.numa@,
            package_count: self.package_count as nat,
            die_count: self.die_count as nat,
            module_count: self.module_count as nat,
            numa_nodes: self.numa_nodes@.to_set(),
            saw_group: self.saw_group,
            caches: self.caches@,
        }
    }
}

impl RelationState {
    spec fn well_formed(&self) -> bool {
        self.caches.sorted() && self.numa_nodes@.no_duplicates()
    }

    /// Every count is at most `bound`.
    spec fn counts_within(&self, bound: int) -> bool {
        &&& self.package_count <= bound
        &&& self.die_count <= bound
        &&& self.module_count <= bound
        &&& forall|key: CacheKey| #[trigger]
            self.caches@.contains_key(key) ==> self.caches@[key] <= bound
    }

    fn new() -> (state: Self)
        ensures
            state.well_formed(),
            state.counts_within(0),
            state@ == nothing_read(),
    {
        let state = RelationState {
            cores: ProcessorSet::new(),
            packages: ProcessorSet::new(),
            dies: ProcessorSet::new(),
            modules: ProcessorSet::new(),
            numa: ProcessorSet::new(),
            package_count: 0,
            die_count: 0,
            module_count: 0,
            numa_nodes: Vec::new(),
            saw_group: false,
            caches: CacheTable::new(),
        };
        assert(state.numa_nodes@.to_set() =~= Set::<u32>::empty());
        state
    }

    fn insert_partition(&mut self, relationship: u32, node: u32, members: &ProcessorSet) -> (outcome:
        Result<(), CpuDetailError>)
        requires
            is_partition_relationship(relationship as int),
            old(self).well_formed(),
            old(self).counts_within(usize::MAX - 1),
        ensures
            members_so_far(old(self)@, relationship as int).disjoint(members@) ==> {
                &&& outcome == Ok::<(), CpuDetailError>(())
                &&& final(self).well_formed()
                &&& final(self)@ == after_members(
                    old(self)@,
                    relationship as int,
                    node,
                    members@,
                )
                &&& forall|bound: int| #[trigger]
                    old(self).counts_within(bound) ==> final(self).counts_within(bound + 1)
            },
            !members_so_far(old(self)@, relationship as int).disjoint(members@) ==> outcome == bad::<
                (),
            >("CPU relationship partition overlap"),
    {
        let disjoint = match relationship {
            RELATION_PROCESSOR_CORE => self.cores.insert_all(members),
            RELATION_PROCESSOR_PACKAGE => {
                self.package_count = self.package_count + 1;
                self.packages.insert_all(members)
            },
            RELATION_PROCESSOR_DIE => {
                self.die_count = self.die_count + 1;
                self.dies.insert_all(members)
            },
            RELATION_PROCESSOR_MODULE => {
                self.module_count = self.module_count + 1;
                self.modules.insert_all(members)
            },
            _ => {
                let ghost nodes = self.numa_nodes@;
                if contains_u32(&self.numa_nodes, node) {
                    assert(nodes.to_set() =~= nodes.to_set().insert(node));
                } else {
                    self.numa_nodes.push(node);
                    proof {
                        lemma_push_contains(nodes, node);
                        assert(self.numa_nodes@.to_set() =~= nodes.to_set().insert(node));
                    }
                }
                self.numa.insert_all(members)
            },
        };
        if !disjoint {
            return invalid("CPU relationship partition overlap");
        }
        Ok(())
    }

    fn apply_record(&mut self, record: &[u8], expected: &ProcessorSet) -> (outcome: Result<
        (),
        CpuDetailError,
    >)
        requires
            HEADER_SIZE <= record.len(),
            old(self).well_formed(),
            old(self).counts_within(usize::MAX - 1),
        ensures
            match after_record(old(self)@, record@, expected@) {
                Err(error) => outcome == Err::<(), CpuDetailError>(error),
                Ok(next) => {
                    &&& outcome == Ok::<(), CpuDetailError>(())
                    &&& final(self).well_formed()
                    &&& final(self)@ == next
                    &&& forall|bound: int| #[trigger]
                        old(self).counts_within(bound) ==> final(self).counts_within(bound + 1)
                },
            },
    {
        let relationship: u32 = read_u32(record, 0);
        match relationship {
            RELATION_PROCESSOR_CORE
            | RELATION_PROCESSOR_PACKAGE
            | RELATION_PROCESSOR_DIE
            | RELATION_PROCESSOR_MODULE
            | RELATION_NUMA_NODE
            | RELATION_NUMA_NODE_EX => {
                let is_numa = relationship == RELATION_NUMA_NODE || relationship
                    == RELATION_NUMA_NODE_EX;
                if is_numa && record.len() < HEADER_SIZE + 4 {
                    return invalid("CPU variable record read bounds");
                }
                match parse_expected_members(record, NODE_GROUP_COUNT, NODE_MASKS, expected) {
                    Err(error) => Err(error),
                    Ok(members) => {
                        let node: u32 = read_u32(record, HEADER_SIZE);
                        self.insert_partition(relationship, node, &members)
                    },
                }
            },
            RELATION_CACHE => {
                match parse_cache_record(record, expected) {
                    Err(error) => Err(error),
                    Ok(key) => {
                        self.caches.add_one(key);
                        Ok(())
                    },
                }
            },
            RELATION_GROUP => {
                match validate_group_relationship(record, expected) {
                    Err(error) => Err(error),
                    Ok(()) => {
                        if self.saw_group {
                            return invalid("CPU duplicate group relationship");
                        }
                        self.saw_group = true;
                        Ok(())
                    },
                }
            },
            _ => invalid("CPU RelationAll unknown relationship"),
        }
    }
}

fn parse_cache_record(record: &[u8], expected: &ProcessorSet) -> (outcome: Result<
    CacheKey,
    CpuDetailError,
>)
    ensures
        outcome == cache_record_key(record@, expected@),
{
    if record.len() < HEADER_SIZE + 1 {
        return invalid("CPU variable record read bounds");
    }
    let level: u8 = record[HEADER_SIZE];
    if level < 1 || level > 3 {
        return invalid("CPU cache level");
    }
    if record.len() < HEADER_SIZE + 12 {
        return invalid("CPU variable record read bounds");
    }
    let associativity: u8 = record[HEADER_SIZE + 1];
    let line_size: u16 = read_u16(record, HEADER_SIZE + 2);
    let bytes: u32 = read_u32(record, HEADER_SIZE + 4);
    let cache_type: u32 = read_u32(record, HEADER_SIZE + 8);
    if line_size == 0 || bytes == 0 {
        return invalid("CPU cache size and line size");
    }
    let kind = match cache_type {
        CACHE_UNIFIED => CpuCacheKind::Unified,
        CACHE_INSTRUCTION => CpuCacheKind::Instruction,
        CACHE_DATA => CpuCacheKind::Data,
        CACHE_TRACE => CpuCacheKind::Trace,
        _ => return invalid("CPU cache type"),
    };
    match parse_expected_members(record, CACHE_GROUP_COUNT, CACHE_MASKS, expected) {
        Err(error) => Err(error),
        Ok(_) => Ok(
            CacheKey {
                level,
                kind,
                bytes,
                line_size,
                associativity: if associativity == CACHE_FULLY_ASSOCIATIVE {
                    None
                } else {
                    Some(associativity)
                },
            },
        ),
    }
}

/// The processors that a key lists, or nothing when it lists none or one twice.
fn expected_processors(key: &CpuTopologyKey) -> (expected: Option<ProcessorSet>)
    ensures
        expected is Some <==> key.ids().len() > 0 && key.ids().no_duplicates(),
        expected matches Some(set) ==> set@ == key.ids().to_set(),
{
    let identities = key.identities();
    let mut expected = ProcessorSet::new();
    for index in 0..identities.len()
        invariant
            identities@ == key.0@,
            key.ids().take(index as int).no_duplicates(),
            forall|id: LogicalProcessorId| #[trigger]
                expected@.contains(id) <==> key.ids().take(index as int).contains(id),
    {
        let ghost ids = key.ids();
        proof {
            assert(ids.take(index + 1) =~= ids.take(index as int).push(ids[index as int]));
            lemma_push_contains(ids.take(index as int), ids[index as int]);
        }
        if !expected.insert(identities[index].id) {
            proof {
                let seen = ids.take(index as int);
                let i = choose|i: int| 0 <= i < seen.len() && seen[i] == ids[index as int];
                assert(ids[i] == ids[index as int]);
            }
            return None;
        }
    }
    proof {
        assert(key.ids().take(identities@.len() as int) =~= key.ids());
        assert(expected@ =~= key.ids().to_set());
    }
    if identities.len() == 0 {
        None
    } else {
        Some(expected)
    }
}

/// Lists the counted caches, unless a total does not fit.
fn list_caches(table: &CacheTable) -> (outcome: Result<Vec<CpuCacheInfo>, CpuDetailError>)
    requires
        table.sorted(),
    ensures
        (exists|key: CacheKey| #[trigger]
            table@.contains_key(key) && key.bytes * table@[key] > u64::MAX) ==> outcome == bad::<
            Vec<CpuCacheInfo>,
        >("CPU cache total size overflow"),
        !(exists|key: CacheKey| #[trigger]
            table@.contains_key(key) && key.bytes * table@[key] > u64::MAX) ==> (outcome matches Ok(
            caches,
        ) && lists_caches(caches@, table@)),
{
    let mut caches: Vec<CpuCacheInfo> = Vec::new();
    for index in 0..table.entries.len()
        invariant
            table.sorted(),
            caches@.len() == index,
            forall|i: int|
                0 <= i < index ==> {
                    let info = #[trigger] caches@[i];
                    &&& info.bytes_per_instance <= u32::MAX
                    &&& key_of(info) == table.entries@[i].key
                    &&& info.instance_count == table.entries@[i].count
                    &&& info.total_bytes == info.bytes_per_instance * info.instance_count
                },
    {
        let entry = table.entries[index];
        proof {
            table.lemma_entry(index as int);
        }
        let bytes_per_instance: u64 = entry.key.bytes as u64;
        let total_bytes: u64 = match bytes_per_instance.checked_mul(entry.count as u64) {
            Some(total) => total,
            None => {
                assert(table@.contains_key(entry.key));
                return invalid("CPU cache total size overflow");
            },
        };
        caches.push(
            CpuCacheInfo {
                level: entry.key.level,
                kind: entry.key.kind,
                instance_count: entry.count,
                bytes_per_instance,
                total_bytes,
                line_size: entry.key.line_size,
                associativity: entry.key.associativity,
            },
        );
    }
    proof {
        assert forall|key: CacheKey| #[trigger] table@.contains_key(key) implies (exists|i: int|
            0 <= i < caches@.len() && key_of(#[trigger] caches@[i]) == key) && key.bytes
            * table@[key] <= u64::MAX by {
            table.lemma_covered(key);
            let i = choose|i: int|
                0 <= i < table.entries@.len() && #[trigger] table.entries@[i].key == key;
            assert(key_of(caches@[i]) == key);
            table.lemma_entry(i);
        }
        assert forall|i: int| 0 <= i < caches@.len() implies {
            let info = #[trigger] caches@[i];
            &&& table@.contains_key(key_of(info))
            &&& info.instance_count == table@[key_of(info)]
        } by {
            table.lemma_entry(i);
        }
    }
    Ok(caches)
}

/// Reads the topology that the records in `bytes` describe.
///
/// Every record is held against the processors of `key`, and the records together have to
/// describe all of them.
pub fn parse_relation_all(bytes: &[u8], key: &CpuTopologyKey) -> (outcome: Result<
    CpuSupplementalTopology,
    CpuDetailError,
>)
    ensures
        is_parsed(outcome, bytes@, key.ids()),
{
    if bytes.len() == 0 {
        return invalid("CPU RelationAll empty result");
    }
    let expected = match expected_processors(key) {
        Some(expected) => expected,
        None => return invalid("CPU detail topology key identities"),
    };
    let mut state = RelationState::new();
    let mut offset: usize = 0;
    while offset < bytes.len()
        invariant
            offset <= bytes.len(),
            0 < bytes.len(),
            key.ids().len() > 0,
            key.ids().no_duplicates(),
            expected@ == key.ids().to_set(),
            state.well_formed(),
            state.counts_within(offset as int),
            after_records(nothing_read(), bytes@, 0, expected@) == after_records(
                state@,
                bytes@,
                offset as int,
                expected@,
            ),
        decreases bytes.len() - offset,
    {
        if bytes.len() - offset < HEADER_SIZE {
            return invalid("CPU RelationAll truncated record header");
        }
        let record_size: usize = read_u32(bytes, offset + 4) as usize;
        if record_size < HEADER_SIZE {
            return invalid("CPU RelationAll record minimum size");
        }
        if record_size > bytes.len() - offset {
            return invalid("CPU RelationAll record bounds");
        }
        let record = vstd::slice::slice_subrange(bytes, offset, offset + record_size);
        match state.apply_record(record, &expected) {
            Ok(()) => {},
            Err(error) => {
                return Err(error);
            },
        }
        offset = offset + record_size;
    }
    if state.package_count == 0 || !state.packages.same_members(&expected)
        || !state.cores.same_members(&expected) {
        return invalid("CPU package or core topology completeness");
    }
    proof {
        state.numa_nodes@.unique_seq_to_set();
        if state.numa_nodes@.len() == 0 {
            assert(state@.numa_nodes =~= Set::<u32>::empty());
        } else {
            assert(state@.numa_nodes.contains(state.numa_nodes@[0]));
        }
    }
    if state.numa_nodes.len() == 0 || !state.numa.same_members(&expected) || !state.saw_group {
        return invalid("CPU NUMA or group topology completeness");
    }
    if state.die_count > 0 && !state.dies.same_members(&expected) {
        return invalid("CPU die topology completeness");
    }
    if state.module_count > 0 && !state.modules.same_members(&expected) {
        return invalid("CPU module topology completeness");
    }
    let caches = match list_caches(&state.caches) {
        Ok(caches) => caches,
        Err(error) => return Err(error),
    };
    Ok(
        CpuSupplementalTopology {
            package_count: state.package_count,
            numa_node_count: state.numa_nodes.len(),
            group_count: expected.group_count(),
            die_count: if state.die_count > 0 {
                Some(state.die_count)
            } else {
                None
            },
            module_count: if state.module_count > 0 {
                Some(state.module_count)
            } else {
                None
            },
            caches,
        },
    )
}

/// How many records of `relationship`, from `offset` on, name the processor `id`.
pub open spec fn records_naming(
    bytes: Seq<u8>,
    offset: int,
    relationship: int,
    id: LogicalProcessorId,
) -> nat
    decreases bytes.len() - offset,
{
    match record_end(bytes, offset) {
        Err(_) => 0,
        Ok(end) => {
            let record = bytes.subrange(offset, end);
            let here: nat = if u32_at(record, 0) == relationship && masked_processors(
                record,
                NODE_MASKS as int,
                u16_at(record, NODE_GROUP_COUNT as int),
            ).contains(id) {
                1
            } else {
                0
            };
            here + records_naming(bytes, end, relationship, id)
        },
    }
}

proof fn lemma_records_naming(
    view: RelationView,
    bytes: Seq<u8>,
    offset: int,
    expected: Set<LogicalProcessorId>,
    relationship: int,
    id: LogicalProcessorId,
)
    requires
        0 <= offset <= bytes.len(),
        relationship == RELATION_PROCESSOR_CORE || relationship == RELATION_PROCESSOR_PACKAGE
            || relationship == RELATION_PROCESSOR_DIE || relationship == RELATION_PROCESSOR_MODULE,
        after_records(view, bytes, offset, expected) is Ok,
    ensures
        ({
            let after = after_records(view, bytes, offset, expected)->Ok_0;
            let named = members_so_far(after, relationship).contains(id);
            let before = members_so_far(view, relationship).contains(id);
            &&& before ==> named && records_naming(bytes, offset, relationship, id) == 0
            &&& !before && named ==> records_naming(bytes, offset, relationship, id) == 1
            &&& !named ==> records_naming(bytes, offset, relationship, id) == 0
        }),
    decreases bytes.len() - offset,
{
    if offset < bytes.len() {
        let end = record_end(bytes, offset)->Ok_0;
        let record = bytes.subrange(offset, end);
        let next = after_record(view, record, expected)->Ok_0;
        assert(after_record(view, record, expected) is Ok);
        lemma_records_naming(next, bytes, end, expected, relationship, id);
    }
}

/// In an accepted answer every expected processor lies in exactly one core and in exactly one
/// package, and, where dies or modules are described at all, in exactly one of them; no other
/// processor lies in any.
pub proof fn accepted_records_partition_the_processors(
    bytes: Seq<u8>,
    ids: Seq<LogicalProcessorId>,
    id: LogicalProcessorId,
)
    requires
        relation_outcome(bytes, ids) is Ok,
    ensures
        ({
            let view = relation_outcome(bytes, ids)->Ok_0;
            let once: nat = if ids.contains(id) {
                1
            } else {
                0
            };
            &&& records_naming(bytes, 0, RELATION_PROCESSOR_CORE as int, id) == once
            &&& records_naming(bytes, 0, RELATION_PROCESSOR_PACKAGE as int, id) == once
            &&& view.die_count > 0 ==> records_naming(bytes, 0, RELATION_PROCESSOR_DIE as int, id)
                == once
            &&& view.module_count > 0 ==> records_naming(
                bytes,
                0,
                RELATION_PROCESSOR_MODULE as int,
                id,
            ) == once
        }),
{
    let expected = ids.to_set();
    lemma_records_naming(
        nothing_read(),
        bytes,
        0,
        expected,
        RELATION_PROCESSOR_CORE as int,
        id,
    );
    lemma_records_naming(
        nothing_read(),
        bytes,
        0,
        expected,
        RELATION_PROCESSOR_PACKAGE as int,
        id,
    );
    lemma_records_naming(nothing_read(), bytes, 0, expected, RELATION_PROCESSOR_DIE as int, id);
    lemma_records_naming(nothing_read(), bytes, 0, expected, RELATION_PROCESSOR_MODULE as int, id);
}

/// An answer cut short inside its last record is refused.
pub proof fn truncated_record_is_refused(
    view: RelationView,
    bytes: Seq<u8>,
    offset: int,
    cut: int,
    expected: Set<LogicalProcessorId>,
)
    requires
        0 <= offset < cut < bytes.len(),
        record_end(bytes, offset) == Ok::<int, CpuDetailError>(bytes.len() as int),
    ensures
        after_records(view, bytes.take(cut), offset, expected) is Err,
{
    let short = bytes.take(cut);
    if short.len() - offset >= HEADER_SIZE {
        assert(u32_at(short, offset + 4) == u32_at(bytes, offset + 4));
    }
}

} // verus!
