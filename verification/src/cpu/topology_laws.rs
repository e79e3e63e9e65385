//! What a topology says, counted over the records that it was read from.
use vstd::prelude::*;

use super::model::{
    CpuCacheInfo, CpuCacheKind, CpuDetailError, CpuSupplementalTopology, LogicalProcessorId,
};
use super::native::{
    after_record, after_records, cache_before, cache_record_key, count_of, is_parsed, key_of,
    nothing_read, relation_outcome, CacheKey, RelationView, RELATION_CACHE, RELATION_GROUP,
    RELATION_NUMA_NODE, RELATION_NUMA_NODE_EX, RELATION_PROCESSOR_DIE, RELATION_PROCESSOR_MODULE,
    RELATION_PROCESSOR_PACKAGE,
};
use crate::bytes::{u16_at, u32_at};

verus! {

/// The records of an answer, cut at the sizes that they state.
pub open spec fn records_from(bytes: Seq<u8>, offset: int) -> Seq<Seq<u8>>
    decreases bytes.len() - offset,
{
    if offset < 0 || offset + 8 > bytes.len() {
        Seq::empty()
    } else {
        let size = u32_at(bytes, offset + 4);
        if size < 8 || offset + size > bytes.len() {
            Seq::empty()
        } else {
            seq![bytes.subrange(offset, offset + size)] + records_from(bytes, offset + size)
        }
    }
}

/// How many of the records have a property.
pub open spec fn how_many(records: Seq<Seq<u8>>, wanted: spec_fn(Seq<u8>) -> bool) -> nat {
    records.filter(wanted).len()
}

pub open spec fn relates(relationship: u32) -> spec_fn(Seq<u8>) -> bool {
    |record: Seq<u8>| u32_at(record, 0) == relationship
}

pub open spec fn is_kind_code(code: int, kind: CpuCacheKind) -> bool {
    match kind {
        CpuCacheKind::Unified => code == 0,
        CpuCacheKind::Instruction => code == 1,
        CpuCacheKind::Data => code == 2,
        CpuCacheKind::Trace => code == 3,
    }
}

/// Whether a record describes a cache of this level, kind, size, line size and associativity.
pub open spec fn describes(cache: CpuCacheInfo) -> spec_fn(Seq<u8>) -> bool {
    |record: Seq<u8>|
        {
            &&& u32_at(record, 0) == RELATION_CACHE
            &&& record[8] == cache.level
            &&& if record[9] == 0xFF {
                cache.associativity is None
            } else {
                cache.associativity == Some(record[9])
            }
            &&& u16_at(record, 10) == cache.line_size
            &&& u32_at(record, 12) == cache.bytes_per_instance
            &&& is_kind_code(u32_at(record, 16), cache.kind)
        }
}

proof fn lemma_how_many_first(
    records: Seq<Seq<u8>>,
    record: Seq<u8>,
    wanted: spec_fn(Seq<u8>) -> bool,
)
    ensures
        how_many(seq![record] + records, wanted) == how_many(records, wanted) + if wanted(record) {
            1nat
        } else {
            0nat
        },
{
    Seq::filter_distributes_over_add(seq![record], records, wanted);
    reveal(Seq::filter);
    assert(seq![record].drop_last() =~= Seq::<Seq<u8>>::empty());
    assert(seq![record].drop_last().filter(wanted) =~= Seq::<Seq<u8>>::empty());
}

/// Whether a record describes a cache with the key.
spec fn has_cache_key(key: CacheKey) -> spec_fn(Seq<u8>) -> bool {
    describes(
        CpuCacheInfo {
            level: key.level,
            kind: key.kind,
            instance_count: 0,
            bytes_per_instance: key.bytes as u64,
            total_bytes: 0,
            line_size: key.line_size,
            associativity: key.associativity,
        },
    )
}

proof fn lemma_record_key(record: Seq<u8>, expected: Set<LogicalProcessorId>, key: CacheKey)
    requires
        u32_at(record, 0) == RELATION_CACHE,
        cache_record_key(record, expected) is Ok,
    ensures
        has_cache_key(key)(record) <==> cache_record_key(record, expected) == Ok::<
            CacheKey,
            CpuDetailError,
        >(key),
{
    let found = cache_record_key(record, expected)->Ok_0;
    assert(0 <= u32_at(record, 12) <= u32::MAX);
    assert(0 <= u16_at(record, 10) <= u16::MAX);
}

proof fn lemma_counts(
    view: RelationView,
    bytes: Seq<u8>,
    offset: int,
    expected: Set<LogicalProcessorId>,
)
    requires
        0 <= offset <= bytes.len(),
        after_records(view, bytes, offset, expected) is Ok,
    ensures
        ({
            let after = after_records(view, bytes, offset, expected)->Ok_0;
            let records = records_from(bytes, offset);
            &&& after.package_count == view.package_count + how_many(
                records,
                relates(RELATION_PROCESSOR_PACKAGE),
            )
            &&& after.die_count == view.die_count + how_many(
                records,
                relates(RELATION_PROCESSOR_DIE),
            )
            &&& after.module_count == view.module_count + how_many(
                records,
                relates(RELATION_PROCESSOR_MODULE),
            )
            &&& forall|key: CacheKey|
                #![trigger after.caches.contains_key(key)]
                #![trigger count_of(after.caches, key)]
                {
                    &&& count_of(after.caches, key) == count_of(view.caches, key) + how_many(
                        records,
                        has_cache_key(key),
                    )
                    &&& after.caches.contains_key(key) <==> view.caches.contains_key(key)
                        || how_many(records, has_cache_key(key)) > 0
                }
        }),
    decreases bytes.len() - offset,
{
    if offset >= bytes.len() {
        reveal(Seq::filter);
    } else {
        let size = u32_at(bytes, offset + 4);
        let end = offset + size;
        let record = bytes.subrange(offset, end);
        let rest = records_from(bytes, end);
        let next = after_record(view, record, expected)->Ok_0;
        assert(after_record(view, record, expected) is Ok);
        lemma_counts(next, bytes, end, expected);
        lemma_how_many_first(rest, record, relates(RELATION_PROCESSOR_PACKAGE));
        lemma_how_many_first(rest, record, relates(RELATION_PROCESSOR_DIE));
        lemma_how_many_first(rest, record, relates(RELATION_PROCESSOR_MODULE));
        let after = after_records(view, bytes, offset, expected)->Ok_0;
        let records = records_from(bytes, offset);
        assert(after == after_records(next, bytes, end, expected)->Ok_0);
        assert forall|key: CacheKey|
            #![trigger after.caches.contains_key(key)]
            #![trigger count_of(after.caches, key)]
            {
                &&& count_of(after.caches, key) == count_of(view.caches, key) + how_many(
                    records,
                    has_cache_key(key),
                )
                &&& after.caches.contains_key(key) <==> view.caches.contains_key(key) || how_many(
                    records,
                    has_cache_key(key),
                ) > 0
            } by {
            lemma_how_many_first(rest, record, has_cache_key(key));
            assert(count_of(after.caches, key) == count_of(next.caches, key) + how_many(
                rest,
                has_cache_key(key),
            ));
            if u32_at(record, 0) == RELATION_CACHE {
                lemma_record_key(record, expected, key);
            }
        }
    }
}

proof fn lemma_same_wanted(
    records: Seq<Seq<u8>>,
    first: spec_fn(Seq<u8>) -> bool,
    second: spec_fn(Seq<u8>) -> bool,
)
    requires
        forall|record: Seq<u8>| #[trigger] first(record) == second(record),
    ensures
        how_many(records, first) == how_many(records, second),
    decreases records.len(),
{
    reveal(Seq::filter);
    if records.len() > 0 {
        lemma_same_wanted(records.drop_last(), first, second);
    }
}

/// For every listed cache the number of instances is the number of records that describe a cache
/// of its level, kind, size, line size and associativity, and there is at least one. The total is
/// what all of them hold together.
pub proof fn instances_are_the_records_of_a_cache(
    topology: CpuSupplementalTopology,
    bytes: Seq<u8>,
    ids: Seq<LogicalProcessorId>,
    i: int,
)
    requires
        is_parsed(Ok::<CpuSupplementalTopology, CpuDetailError>(topology), bytes, ids),
        0 <= i < topology.caches@.len(),
    ensures
        ({
            let cache = topology.caches@[i];
            &&& cache.instance_count == how_many(records_from(bytes, 0), describes(cache))
            &&& cache.instance_count > 0
            &&& cache.total_bytes == cache.instance_count * cache.bytes_per_instance
        }),
{
    let expected = ids.to_set();
    lemma_counts(nothing_read(), bytes, 0, expected);
    let view = relation_outcome(bytes, ids)->Ok_0;
    let cache = topology.caches@[i];
    let key = key_of(cache);
    assert(count_of(view.caches, key) == how_many(records_from(bytes, 0), has_cache_key(key)));
    lemma_same_wanted(records_from(bytes, 0), describes(cache), has_cache_key(key));
    assert(cache.total_bytes == cache.instance_count * cache.bytes_per_instance)
        by (nonlinear_arith)
        requires
            cache.total_bytes == cache.bytes_per_instance * cache.instance_count,
    ;
}

/// Packages, dies and modules are counted by their records. Dies and modules that no record
/// describes are not counted as none, but stay unknown.
pub proof fn parts_are_counted_by_their_records(
    topology: CpuSupplementalTopology,
    bytes: Seq<u8>,
    ids: Seq<LogicalProcessorId>,
)
    requires
        is_parsed(Ok::<CpuSupplementalTopology, CpuDetailError>(topology), bytes, ids),
    ensures
        ({
            let records = records_from(bytes, 0);
            let dies = how_many(records, relates(RELATION_PROCESSOR_DIE));
            let modules = how_many(records, relates(RELATION_PROCESSOR_MODULE));
            &&& topology.package_count == how_many(records, relates(RELATION_PROCESSOR_PACKAGE))
            &&& topology.package_count > 0
            &&& topology.die_count is Some <==> dies > 0
            &&& topology.die_count matches Some(count) ==> count == dies
            &&& topology.module_count is Some <==> modules > 0
            &&& topology.module_count matches Some(count) ==> count == modules
            &&& topology.group_count == Set::new(
                |group: u16| exists|i: int| 0 <= i < ids.len()
                    && (#[trigger] ids[i]).group == group,
            ).len()
        }),
{
    lemma_counts(nothing_read(), bytes, 0, ids.to_set());
    let groups = Set::new(
        |group: u16| exists|i: int| 0 <= i < ids.len() && (#[trigger] ids[i]).group == group,
    );
    let mapped = ids.to_set().map(|id: LogicalProcessorId| id.group);
    assert forall|group: u16| groups.contains(group) <==> mapped.contains(group) by {
        if groups.contains(group) {
            let i = choose|i: int| 0 <= i < ids.len() && (#[trigger] ids[i]).group == group;
            assert(ids.to_set().contains(ids[i]));
        }
        if mapped.contains(group) {
            let id = choose|id: LogicalProcessorId|
                #[trigger] ids.to_set().contains(id) && id.group == group;
            let i = choose|i: int| 0 <= i < ids.len() && ids[i] == id;
            assert(ids[i].group == group);
        }
    }
    assert(groups =~= mapped);
}

/// The numbers of the nodes that records of memory nodes name.
pub open spec fn named_nodes(records: Seq<Seq<u8>>) -> Set<u32> {
    Set::new(
        |node: u32|
            exists|r: int|
                0 <= r < records.len() && is_node_record(#[trigger] records[r]) && u32_at(
                    records[r],
                    8,
                ) == node,
    )
}

pub open spec fn is_node_record(record: Seq<u8>) -> bool {
    u32_at(record, 0) == RELATION_NUMA_NODE || u32_at(record, 0) == RELATION_NUMA_NODE_EX
}

proof fn lemma_nodes(
    view: RelationView,
    bytes: Seq<u8>,
    offset: int,
    expected: Set<LogicalProcessorId>,
    node: u32,
)
    requires
        0 <= offset <= bytes.len(),
        after_records(view, bytes, offset, expected) is Ok,
    ensures
        after_records(view, bytes, offset, expected)->Ok_0.numa_nodes.contains(node)
            <==> view.numa_nodes.contains(node) || named_nodes(
            records_from(bytes, offset),
        ).contains(node),
    decreases bytes.len() - offset,
{
    if offset < bytes.len() {
        let size = u32_at(bytes, offset + 4);
        let end = offset + size;
        let record = bytes.subrange(offset, end);
        let rest = records_from(bytes, end);
        let records = records_from(bytes, offset);
        let next = after_record(view, record, expected)->Ok_0;
        assert(after_record(view, record, expected) is Ok);
        lemma_nodes(next, bytes, end, expected, node);
        assert(records =~= seq![record] + rest);
        assert(records[0] == record);
        if named_nodes(rest).contains(node) {
            let r = choose|r: int|
                0 <= r < rest.len() && is_node_record(#[trigger] rest[r]) && u32_at(rest[r], 8)
                    == node;
            assert(records[r + 1] == rest[r]);
        }
        if named_nodes(records).contains(node) {
            let r = choose|r: int|
                0 <= r < records.len() && is_node_record(#[trigger] records[r]) && u32_at(
                    records[r],
                    8,
                ) == node;
            if r > 0 {
                assert(rest[r - 1] == records[r]);
            }
        }
        if is_node_record(record) {
            assert(0 <= u32_at(record, 8) <= u32::MAX);
        }
    }
}

/// Memory nodes are counted by the numbers that their records name, each once.
pub proof fn nodes_are_counted_once(
    topology: CpuSupplementalTopology,
    bytes: Seq<u8>,
    ids: Seq<LogicalProcessorId>,
)
    requires
        is_parsed(Ok::<CpuSupplementalTopology, CpuDetailError>(topology), bytes, ids),
    ensures
        topology.numa_node_count == named_nodes(records_from(bytes, 0)).len(),
        topology.numa_node_count > 0,
{
    let view = relation_outcome(bytes, ids)->Ok_0;
    assert forall|node: u32| view.numa_nodes.contains(node) <==> named_nodes(
        records_from(bytes, 0),
    ).contains(node) by {
        lemma_nodes(nothing_read(), bytes, 0, ids.to_set(), node);
    }
    assert(view.numa_nodes =~= named_nodes(records_from(bytes, 0)));
    lemma_nodes_finite(nothing_read(), bytes, 0, ids.to_set());
    if view.numa_nodes.len() == 0 {
        assert(view.numa_nodes =~= Set::<u32>::empty());
    }
}

proof fn lemma_nodes_finite(
    view: RelationView,
    bytes: Seq<u8>,
    offset: int,
    expected: Set<LogicalProcessorId>,
)
    requires
        0 <= offset <= bytes.len(),
        view.numa_nodes.finite(),
        after_records(view, bytes, offset, expected) is Ok,
    ensures
        after_records(view, bytes, offset, expected)->Ok_0.numa_nodes.finite(),
    decreases bytes.len() - offset,
{
    if offset < bytes.len() {
        let end = offset + u32_at(bytes, offset + 4);
        let record = bytes.subrange(offset, end);
        assert(after_record(view, record, expected) is Ok);
        lemma_nodes_finite(after_record(view, record, expected)->Ok_0, bytes, end, expected);
    }
}

/// The number of instances of all listed caches together.
pub open spec fn all_instances(caches: Seq<CpuCacheInfo>) -> nat {
    caches.fold_left(0nat, |sum: nat, cache: CpuCacheInfo| (sum + cache.instance_count) as nat)
}

/// Over all the caches, how many of the records describe them.
spec fn all_described(caches: Seq<CpuCacheInfo>, records: Seq<Seq<u8>>) -> nat
    decreases caches.len(),
{
    if caches.len() == 0 {
        0
    } else {
        all_described(caches.drop_last(), records) + how_many(records, describes(caches.last()))
    }
}

spec fn describing(caches: Seq<CpuCacheInfo>, record: Seq<u8>) -> nat
    decreases caches.len(),
{
    if caches.len() == 0 {
        0
    } else {
        describing(caches.drop_last(), record) + if describes(caches.last())(record) {
            1nat
        } else {
            0nat
        }
    }
}

proof fn lemma_all_described_first(
    caches: Seq<CpuCacheInfo>,
    record: Seq<u8>,
    records: Seq<Seq<u8>>,
)
    ensures
        all_described(caches, seq![record] + records) == all_described(caches, records)
            + describing(caches, record),
    decreases caches.len(),
{
    if caches.len() > 0 {
        lemma_all_described_first(caches.drop_last(), record, records);
        lemma_how_many_first(records, record, describes(caches.last()));
    }
}

proof fn lemma_describing_none(caches: Seq<CpuCacheInfo>, record: Seq<u8>)
    requires
        forall|i: int| 0 <= i < caches.len() ==> !describes(#[trigger] caches[i])(record),
    ensures
        describing(caches, record) == 0,
    decreases caches.len(),
{
    if caches.len() > 0 {
        let front = caches.drop_last();
        assert forall|i: int| 0 <= i < front.len() implies !describes(#[trigger] front[i])(
            record,
        ) by {
            assert(!describes(caches[i])(record));
        }
        lemma_describing_none(front, record);
        assert(!describes(caches[caches.len() - 1])(record));
    }
}

proof fn lemma_describing_one(caches: Seq<CpuCacheInfo>, record: Seq<u8>, at: int)
    requires
        0 <= at < caches.len(),
        describes(caches[at])(record),
        forall|i: int|
            0 <= i < caches.len() && i != at ==> !describes(#[trigger] caches[i])(record),
    ensures
        describing(caches, record) == 1,
    decreases caches.len(),
{
    let front = caches.drop_last();
    if at == caches.len() - 1 {
        assert forall|i: int| 0 <= i < front.len() implies !describes(#[trigger] front[i])(
            record,
        ) by {
            assert(!describes(caches[i])(record));
        }
        lemma_describing_none(front, record);
    } else {
        assert(front[at] == caches[at]);
        assert forall|i: int| 0 <= i < front.len() && i != at implies !describes(
            #[trigger] front[i],
        )(record) by {
            assert(!describes(caches[i])(record));
        }
        lemma_describing_one(front, record, at);
        assert(!describes(caches[caches.len() - 1])(record));
    }
}

/// One cache of the list describes a cache record; none describes any other record.
proof fn lemma_describing(caches: Seq<CpuCacheInfo>, record: Seq<u8>)
    requires
        u32_at(record, 0) == RELATION_CACHE ==> exists|i: int|
            0 <= i < caches.len() && describes(#[trigger] caches[i])(record),
        forall|i: int| 0 <= i < caches.len() ==> (#[trigger] caches[i]).bytes_per_instance
            <= u32::MAX,
        forall|i: int, j: int|
            0 <= i < j < caches.len() ==> cache_before(
                key_of(#[trigger] caches[i]),
                key_of(#[trigger] caches[j]),
            ),
    ensures
        describing(caches, record) == if relates(RELATION_CACHE)(record) {
            1nat
        } else {
            0nat
        },
{
    if u32_at(record, 0) == RELATION_CACHE {
        let at = choose|i: int| 0 <= i < caches.len() && describes(#[trigger] caches[i])(record);
        assert forall|i: int| 0 <= i < caches.len() && i != at implies !describes(
            #[trigger] caches[i],
        )(record) by {
            if describes(caches[i])(record) {
                assert(key_of(caches[i]) == key_of(caches[at]));
                super::native::lemma_cache_order(key_of(caches[i]), key_of(caches[at]));
                if i < at {
                    assert(cache_before(key_of(caches[i]), key_of(caches[at])));
                } else {
                    assert(cache_before(key_of(caches[at]), key_of(caches[i])));
                }
            }
        }
        lemma_describing_one(caches, record, at);
    } else {
        lemma_describing_none(caches, record);
    }
}

proof fn lemma_all_described(
    caches: Seq<CpuCacheInfo>,
    records: Seq<Seq<u8>>,
)
    requires
        forall|r: int|
            0 <= r < records.len() && u32_at(#[trigger] records[r], 0) == RELATION_CACHE
                ==> exists|i: int| 0 <= i < caches.len()
                && describes(#[trigger] caches[i])(records[r]),
        forall|i: int| 0 <= i < caches.len() ==> (#[trigger] caches[i]).bytes_per_instance
            <= u32::MAX,
        forall|i: int, j: int|
            0 <= i < j < caches.len() ==> cache_before(
                key_of(#[trigger] caches[i]),
                key_of(#[trigger] caches[j]),
            ),
    ensures
        all_described(caches, records) == how_many(records, relates(RELATION_CACHE)),
    decreases records.len(),
{
    if records.len() == 0 {
        reveal(Seq::filter);
        lemma_nothing_described(caches, records);
    } else {
        let record = records[0];
        let rest = records.drop_first();
        assert(records =~= seq![record] + rest);
        assert forall|r: int|
            0 <= r < rest.len() && u32_at(#[trigger] rest[r], 0) == RELATION_CACHE implies exists|
            i: int,
        | 0 <= i < caches.len() && describes(#[trigger] caches[i])(rest[r]) by {
            assert(rest[r] == records[r + 1]);
        }
        lemma_all_described(caches, rest);
        lemma_all_described_first(caches, record, rest);
        lemma_how_many_first(rest, record, relates(RELATION_CACHE));
        lemma_describing(caches, record);
    }
}

proof fn lemma_nothing_described(caches: Seq<CpuCacheInfo>, records: Seq<Seq<u8>>)
    requires
        records.len() == 0,
    ensures
        all_described(caches, records) == 0,
    decreases caches.len(),
{
    reveal(Seq::filter);
    if caches.len() > 0 {
        lemma_nothing_described(caches.drop_last(), records);
    }
}

proof fn lemma_all_instances(caches: Seq<CpuCacheInfo>, records: Seq<Seq<u8>>)
    requires
        forall|i: int|
            0 <= i < caches.len() ==> (#[trigger] caches[i]).instance_count == how_many(
                records,
                describes(caches[i]),
            ),
    ensures
        all_instances(caches) == all_described(caches, records),
    decreases caches.len(),
{
    if caches.len() > 0 {
        let front = caches.drop_last();
        assert forall|i: int| 0 <= i < front.len() implies (#[trigger] front[i]).instance_count
            == how_many(records, describes(front[i])) by {
            assert(front[i] == caches[i]);
        }
        lemma_all_instances(front, records);
        assert(caches[caches.len() - 1].instance_count == how_many(
            records,
            describes(caches[caches.len() - 1]),
        ));
    }
}

proof fn lemma_counted_when_present(
    records: Seq<Seq<u8>>,
    wanted: spec_fn(Seq<u8>) -> bool,
    r: int,
)
    requires
        0 <= r < records.len(),
        wanted(records[r]),
    ensures
        how_many(records, wanted) > 0,
{
    records.lemma_filter_contains(wanted, r);
}

proof fn lemma_records_are_read(
    view: RelationView,
    bytes: Seq<u8>,
    offset: int,
    expected: Set<LogicalProcessorId>,
    r: int,
)
    requires
        0 <= offset <= bytes.len(),
        after_records(view, bytes, offset, expected) is Ok,
        0 <= r < records_from(bytes, offset).len(),
        u32_at(records_from(bytes, offset)[r], 0) == RELATION_CACHE,
    ensures
        cache_record_key(records_from(bytes, offset)[r], expected) is Ok,
    decreases bytes.len() - offset,
{
    let size = u32_at(bytes, offset + 4);
    let end = offset + size;
    let record = bytes.subrange(offset, end);
    let rest = records_from(bytes, end);
    assert(records_from(bytes, offset) =~= seq![record] + rest);
    assert(after_record(view, record, expected) is Ok);
    if r > 0 {
        assert(records_from(bytes, offset)[r] == rest[r - 1]);
        lemma_records_are_read(
            after_record(view, record, expected)->Ok_0,
            bytes,
            end,
            expected,
            r - 1,
        );
    }
}

/// Every cache record counts once: the instances of all listed caches add up to the number of
/// cache records.
pub proof fn instances_add_up_to_the_cache_records(
    topology: CpuSupplementalTopology,
    bytes: Seq<u8>,
    ids: Seq<LogicalProcessorId>,
)
    requires
        is_parsed(Ok::<CpuSupplementalTopology, CpuDetailError>(topology), bytes, ids),
    ensures
        all_instances(topology.caches@) == how_many(
            records_from(bytes, 0),
            relates(RELATION_CACHE),
        ),
{
    let expected = ids.to_set();
    let records = records_from(bytes, 0);
    let caches = topology.caches@;
    let view = relation_outcome(bytes, ids)->Ok_0;
    assert forall|i: int| 0 <= i < caches.len() implies (#[trigger] caches[i]).instance_count
        == how_many(records, describes(caches[i])) by {
        instances_are_the_records_of_a_cache(topology, bytes, ids, i);
    }
    assert forall|r: int|
        0 <= r < records.len() && u32_at(#[trigger] records[r], 0)
            == RELATION_CACHE implies exists|i: int|
        0 <= i < caches.len() && describes(#[trigger] caches[i])(records[r]) by {
        lemma_records_are_read(nothing_read(), bytes, 0, expected, r);
        let key = cache_record_key(records[r], expected)->Ok_0;
        lemma_record_key(records[r], expected, key);
        lemma_counted_when_present(records, has_cache_key(key), r);
        lemma_counts(nothing_read(), bytes, 0, expected);
        assert(view.caches.contains_key(key));
        let i = choose|i: int| 0 <= i < caches.len() && key_of(#[trigger] caches[i]) == key;
        assert(describes(caches[i])(records[r]));
    }
    lemma_all_described(caches, records);
    lemma_all_instances(caches, records);
}

proof fn lemma_group_records(
    view: RelationView,
    bytes: Seq<u8>,
    offset: int,
    expected: Set<LogicalProcessorId>,
)
    requires
        0 <= offset <= bytes.len(),
        after_records(view, bytes, offset, expected) is Ok,
    ensures
        ({
            let after = after_records(view, bytes, offset, expected)->Ok_0;
            let groups = how_many(records_from(bytes, offset), relates(RELATION_GROUP));
            &&& view.saw_group ==> groups == 0 && after.saw_group
            &&& !view.saw_group && after.saw_group ==> groups == 1
            &&& !after.saw_group ==> groups == 0
        }),
    decreases bytes.len() - offset,
{
    if offset >= bytes.len() {
        reveal(Seq::filter);
    } else {
        let end = offset + u32_at(bytes, offset + 4);
        let record = bytes.subrange(offset, end);
        assert(after_record(view, record, expected) is Ok);
        lemma_group_records(after_record(view, record, expected)->Ok_0, bytes, end, expected);
        lemma_how_many_first(records_from(bytes, end), record, relates(RELATION_GROUP));
    }
}

/// An accepted answer has exactly one record of the groups.
pub proof fn groups_are_described_once(
    topology: CpuSupplementalTopology,
    bytes: Seq<u8>,
    ids: Seq<LogicalProcessorId>,
)
    requires
        is_parsed(Ok::<CpuSupplementalTopology, CpuDetailError>(topology), bytes, ids),
    ensures
        how_many(records_from(bytes, 0), relates(RELATION_GROUP)) == 1,
{
    lemma_group_records(nothing_read(), bytes, 0, ids.to_set());
}

/// Whether a record of a memory node names a processor.
pub open spec fn names_in_node(id: LogicalProcessorId) -> spec_fn(Seq<u8>) -> bool {
    |record: Seq<u8>|
        is_node_record(record) && super::native::masked_processors(
            record,
            32,
            u16_at(record, 30),
        ).contains(id)
}

proof fn lemma_node_records(
    view: RelationView,
    bytes: Seq<u8>,
    offset: int,
    expected: Set<LogicalProcessorId>,
    id: LogicalProcessorId,
)
    requires
        0 <= offset <= bytes.len(),
        after_records(view, bytes, offset, expected) is Ok,
    ensures
        ({
            let after = after_records(view, bytes, offset, expected)->Ok_0;
            let naming = how_many(records_from(bytes, offset), names_in_node(id));
            &&& view.numa.contains(id) ==> naming == 0 && after.numa.contains(id)
            &&& !view.numa.contains(id) && after.numa.contains(id) ==> naming == 1
            &&& !after.numa.contains(id) ==> naming == 0
        }),
    decreases bytes.len() - offset,
{
    if offset >= bytes.len() {
        reveal(Seq::filter);
    } else {
        let end = offset + u32_at(bytes, offset + 4);
        let record = bytes.subrange(offset, end);
        assert(after_record(view, record, expected) is Ok);
        lemma_node_records(after_record(view, record, expected)->Ok_0, bytes, end, expected, id);
        lemma_how_many_first(records_from(bytes, end), record, names_in_node(id));
    }
}

/// In an accepted answer every expected processor lies in exactly one memory node, and no other
/// processor lies in any.
pub proof fn processors_lie_in_one_node(
    topology: CpuSupplementalTopology,
    bytes: Seq<u8>,
    ids: Seq<LogicalProcessorId>,
    id: LogicalProcessorId,
)
    requires
        is_parsed(Ok::<CpuSupplementalTopology, CpuDetailError>(topology), bytes, ids),
    ensures
        how_many(records_from(bytes, 0), names_in_node(id)) == if ids.contains(id) {
            1nat
        } else {
            0nat
        },
{
    lemma_node_records(nothing_read(), bytes, 0, ids.to_set(), id);
}

/// Caches are listed from the level nearest to the processor on; those of one level and kind from
/// the smallest on.
pub proof fn caches_are_listed_by_level_and_size(
    topology: CpuSupplementalTopology,
    bytes: Seq<u8>,
    ids: Seq<LogicalProcessorId>,
    i: int,
    j: int,
)
    requires
        is_parsed(Ok::<CpuSupplementalTopology, CpuDetailError>(topology), bytes, ids),
        0 <= i < j < topology.caches@.len(),
    ensures
        ({
            let (first, second) = (topology.caches@[i], topology.caches@[j]);
            &&& first.level <= second.level
            &&& first.level == second.level && first.kind == second.kind
                ==> first.bytes_per_instance <= second.bytes_per_instance
            &&& first.level == second.level && second.kind is Unified ==> first.kind is Unified
            &&& first.level == second.level && second.kind is Instruction ==> !(first.kind is Data
                || first.kind is Trace)
            &&& first.level == second.level && second.kind is Data ==> !(first.kind is Trace)
        }),
{
    assert(cache_before(key_of(topology.caches@[i]), key_of(topology.caches@[j])));
}

} // verus!
