//! The order of the records in an answer does not matter.
use vstd::prelude::*;

use super::model::{CpuCacheInfo, CpuDetailError, CpuSupplementalTopology, LogicalProcessorId};
use super::native::{
    after_members, after_record, after_records, cache_before, cache_record_key, count_of,
    expected_members, group_record_error, is_numa_relationship, is_parsed,
    is_partition_relationship, is_topology, key_of, lemma_cache_order, lists_caches,
    members_so_far, nothing_read, record_end, relation_outcome, CacheKey, RelationView,
    HEADER_SIZE, NODE_GROUP_COUNT, NODE_MASKS, RELATION_CACHE, RELATION_GROUP,
};
use crate::bytes::u32_at;

verus! {

/// Whether these bytes are one record that says how long it is.
pub open spec fn is_whole_record(record: Seq<u8>) -> bool {
    record.len() >= HEADER_SIZE && u32_at(record, 4) == record.len()
}

pub open spec fn are_whole_records(records: Seq<Seq<u8>>) -> bool {
    forall|i: int| 0 <= i < records.len() ==> is_whole_record(#[trigger] records[i])
}

/// The bytes of some records, one after the other.
pub open spec fn joined_records(records: Seq<Seq<u8>>) -> Seq<u8>
    decreases records.len(),
{
    if records.len() == 0 {
        Seq::empty()
    } else {
        records[0] + joined_records(records.drop_first())
    }
}

/// What a record says by itself.
enum RecordEffect {
    Members { relationship: int, node: u32, members: Set<LogicalProcessorId> },
    Cache(CacheKey),
    Group,
}

/// What a record says of the expected processors, unless it is refused whatever was read before.
spec fn effect_of(record: Seq<u8>, expected: Set<LogicalProcessorId>) -> Option<RecordEffect> {
    let relationship = u32_at(record, 0);
    if is_partition_relationship(relationship) {
        if is_numa_relationship(relationship) && record.len() < HEADER_SIZE + 4 {
            None
        } else {
            match expected_members(record, NODE_GROUP_COUNT as int, NODE_MASKS as int, expected) {
                Err(_) => None,
                Ok(members) => Some(
                    RecordEffect::Members {
                        relationship,
                        node: u32_at(record, HEADER_SIZE as int) as u32,
                        members,
                    },
                ),
            }
        }
    } else if relationship == RELATION_CACHE {
        match cache_record_key(record, expected) {
            Err(_) => None,
            Ok(key) => Some(RecordEffect::Cache(key)),
        }
    } else if relationship == RELATION_GROUP {
        match group_record_error(record, expected) {
            Some(_) => None,
            None => Some(RecordEffect::Group),
        }
    } else {
        None
    }
}

/// What has been read after a record, unless it contradicts what was read before.
spec fn applied(view: RelationView, effect: RecordEffect) -> Option<RelationView> {
    match effect {
        RecordEffect::Members { relationship, node, members } => if !members_so_far(
            view,
            relationship,
        ).disjoint(members) {
            None
        } else {
            Some(after_members(view, relationship, node, members))
        },
        RecordEffect::Cache(key) => Some(
            RelationView {
                caches: view.caches.insert(key, count_of(view.caches, key) + 1),
                ..view
            },
        ),
        RecordEffect::Group => if view.saw_group {
            None
        } else {
            Some(RelationView { saw_group: true, ..view })
        },
    }
}

spec fn both_applied(view: RelationView, first: RecordEffect, second: RecordEffect) -> Option<
    RelationView,
> {
    match applied(view, first) {
        None => None,
        Some(next) => applied(next, second),
    }
}

proof fn lemma_effect(view: RelationView, record: Seq<u8>, expected: Set<LogicalProcessorId>)
    ensures
        match effect_of(record, expected) {
            None => after_record(view, record, expected) is Err,
            Some(effect) => match applied(view, effect) {
                None => after_record(view, record, expected) is Err,
                Some(next) => after_record(view, record, expected) == Ok::<
                    RelationView,
                    CpuDetailError,
                >(next),
            },
        },
{
}

/// Sets of processors are joined one after the other in either order.
proof fn lemma_members_commute(
    view: RelationView,
    first: int,
    first_node: u32,
    first_members: Set<LogicalProcessorId>,
    second: int,
    second_node: u32,
    second_members: Set<LogicalProcessorId>,
)
    ensures
        ({
            let one = RecordEffect::Members {
                relationship: first,
                node: first_node,
                members: first_members,
            };
            let other = RecordEffect::Members {
                relationship: second,
                node: second_node,
                members: second_members,
            };
            both_applied(view, one, other) == both_applied(view, other, one)
        }),
{
    let one = after_members(view, first, first_node, first_members);
    let other = after_members(view, second, second_node, second_members);
    let forth = after_members(one, second, second_node, second_members);
    let back = after_members(other, first, first_node, first_members);
    assert(forth.cores =~= back.cores);
    assert(forth.packages =~= back.packages);
    assert(forth.dies =~= back.dies);
    assert(forth.modules =~= back.modules);
    assert(forth.numa =~= back.numa);
    assert(forth.numa_nodes =~= back.numa_nodes);
    assert(forth == back);
    let (a, b) = (first_members, second_members);
    let (m, n) = (members_so_far(view, first), members_so_far(view, second));
    let (m2, n2) = (members_so_far(other, first), members_so_far(one, second));
    assert(m.disjoint(a) && n2.disjoint(b) <==> n.disjoint(b) && m2.disjoint(a)) by {
        if m.disjoint(a) && n2.disjoint(b) {
            assert forall|id: LogicalProcessorId| !(#[trigger] n.contains(id) && b.contains(id)) by {
                assert(n.contains(id) ==> n2.contains(id));
            }
            assert forall|id: LogicalProcessorId| !(#[trigger] m2.contains(id) && a.contains(
                id,
            )) by {
                if m2.contains(id) && a.contains(id) {
                    assert(!m.contains(id));
                    assert(b.contains(id));
                    assert(n2.contains(id));
                }
            }
        }
        if n.disjoint(b) && m2.disjoint(a) {
            assert forall|id: LogicalProcessorId| !(#[trigger] m.contains(id) && a.contains(id)) by {
                assert(m.contains(id) ==> m2.contains(id));
            }
            assert forall|id: LogicalProcessorId| !(#[trigger] n2.contains(id) && b.contains(
                id,
            )) by {
                if n2.contains(id) && b.contains(id) {
                    assert(!n.contains(id));
                    assert(a.contains(id));
                    assert(m2.contains(id));
                }
            }
        }
    }
}

proof fn lemma_effects_commute(view: RelationView, first: RecordEffect, second: RecordEffect)
    ensures
        both_applied(view, first, second) == both_applied(view, second, first),
{
    match (first, second) {
        (
            RecordEffect::Members { relationship: a, node: m, members: p },
            RecordEffect::Members { relationship: b, node: n, members: q },
        ) => {
            lemma_members_commute(view, a, m, p, b, n, q);
        },
        (RecordEffect::Cache(a), RecordEffect::Cache(b)) => {
            let counts = view.caches;
            let one = counts.insert(a, count_of(counts, a) + 1);
            let other = counts.insert(b, count_of(counts, b) + 1);
            assert(one.insert(b, count_of(one, b) + 1) =~= other.insert(a, count_of(other, a) + 1));
        },
        _ => {},
    }
}

/// What has been read after some records.
spec fn after_list(
    view: RelationView,
    records: Seq<Seq<u8>>,
    expected: Set<LogicalProcessorId>,
) -> Result<RelationView, CpuDetailError>
    decreases records.len(),
{
    if records.len() == 0 {
        Ok(view)
    } else {
        match after_record(view, records[0], expected) {
            Err(error) => Err(error),
            Ok(next) => after_list(next, records.drop_first(), expected),
        }
    }
}

/// Both are refused, or both read the same.
spec fn agree(
    first: Result<RelationView, CpuDetailError>,
    second: Result<RelationView, CpuDetailError>,
) -> bool {
    first is Ok || second is Ok ==> first == second
}

proof fn lemma_list(
    view: RelationView,
    before: Seq<u8>,
    records: Seq<Seq<u8>>,
    expected: Set<LogicalProcessorId>,
)
    requires
        are_whole_records(records),
    ensures
        after_records(view, before + joined_records(records), before.len() as int, expected)
            == after_list(view, records, expected),
    decreases records.len(),
{
    let bytes = before + joined_records(records);
    let offset = before.len() as int;
    if records.len() > 0 {
        let record = records[0];
        let rest = records.drop_first();
        let end = offset + record.len();
        assert(joined_records(records) == record + joined_records(rest));
        assert(is_whole_record(record));
        assert(bytes =~= (before + record) + joined_records(rest));
        assert(forall|i: int| 0 <= i < record.len() ==> #[trigger] bytes[offset + i] == record[i]);
        assert(u32_at(bytes, offset + 4) == u32_at(record, 4)) by {
            assert(bytes[offset + 4] == record[4]);
            assert(bytes[offset + 5] == record[5]);
            assert(bytes[offset + 6] == record[6]);
            assert(bytes[offset + 7] == record[7]);
        }
        assert(record_end(bytes, offset) == Ok::<int, CpuDetailError>(end));
        assert(bytes.subrange(offset, end) =~= record);
        assert forall|i: int| 0 <= i < rest.len() implies is_whole_record(#[trigger] rest[i]) by {
            assert(rest[i] == records[i + 1]);
        }
        if let Ok(next) = after_record(view, record, expected) {
            lemma_list(next, before + record, rest, expected);
        }
    }
}

proof fn lemma_swap(
    view: RelationView,
    first: Seq<u8>,
    second: Seq<u8>,
    rest: Seq<Seq<u8>>,
    expected: Set<LogicalProcessorId>,
)
    ensures
        agree(
            after_list(view, seq![first, second] + rest, expected),
            after_list(view, seq![second, first] + rest, expected),
        ),
{
    reveal_with_fuel(after_list, 3);
    let forth = seq![first, second] + rest;
    let back = seq![second, first] + rest;
    lemma_effect(view, first, expected);
    lemma_effect(view, second, expected);
    assert(forth.drop_first() =~= seq![second] + rest);
    assert(back.drop_first() =~= seq![first] + rest);
    assert((seq![second] + rest).drop_first() =~= rest);
    assert((seq![first] + rest).drop_first() =~= rest);
    match (effect_of(first, expected), effect_of(second, expected)) {
        (Some(one), Some(other)) => {
            lemma_effects_commute(view, one, other);
            if let Some(next) = applied(view, one) {
                lemma_effect(next, second, expected);
            }
            if let Some(next) = applied(view, other) {
                lemma_effect(next, first, expected);
            }
        },
        (Some(one), None) => {
            if let Some(next) = applied(view, one) {
                lemma_effect(next, second, expected);
            }
        },
        (None, Some(other)) => {
            if let Some(next) = applied(view, other) {
                lemma_effect(next, first, expected);
            }
        },
        (None, None) => {},
    }
}

/// A record may as well come first.
proof fn lemma_to_front(
    view: RelationView,
    records: Seq<Seq<u8>>,
    index: int,
    expected: Set<LogicalProcessorId>,
)
    requires
        0 <= index < records.len(),
    ensures
        agree(
            after_list(view, records, expected),
            after_list(view, seq![records[index]] + records.remove(index), expected),
        ),
    decreases index,
{
    let record = records[index];
    if index == 0 {
        assert(seq![record] + records.remove(0) =~= records);
    } else {
        let head = records[0];
        let rest = records.drop_first();
        let others = rest.remove(index - 1);
        assert(rest[index - 1] == record);
        let moved = seq![record] + others;
        assert(seq![record] + records.remove(index) =~= seq![record, head] + others);
        assert((seq![head, record] + others).drop_first() =~= moved);
        assert((seq![head, record] + others)[0] == head);
        lemma_swap(view, head, record, others, expected);
        if let Ok(next) = after_record(view, head, expected) {
            lemma_to_front(next, rest, index - 1, expected);
        }
    }
}

proof fn lemma_reordered(
    view: RelationView,
    records: Seq<Seq<u8>>,
    others: Seq<Seq<u8>>,
    expected: Set<LogicalProcessorId>,
)
    requires
        records.to_multiset() == others.to_multiset(),
    ensures
        agree(after_list(view, records, expected), after_list(view, others, expected)),
    decreases records.len(),
{
    records.to_multiset_ensures();
    others.to_multiset_ensures();
    assert(records.len() == others.len());
    if records.len() > 0 {
        let record = records[0];
        assert(records.contains(record));
        assert(records.to_multiset().count(record) > 0);
        assert(others.contains(record));
        let index = choose|i: int| 0 <= i < others.len() && others[i] == record;
        let rest = others.remove(index);
        vstd::seq_lib::to_multiset_remove(others, index);
        vstd::seq_lib::to_multiset_remove(records, 0);
        assert(records.remove(0) =~= records.drop_first());
        let moved = seq![record] + rest;
        assert(moved.drop_first() =~= rest);
        assert(moved[0] == record);
        lemma_to_front(view, others, index, expected);
        if let Ok(next) = after_record(view, record, expected) {
            lemma_reordered(next, records.drop_first(), rest, expected);
        }
    }
}

/// Counted caches can be listed in one way only.
proof fn lemma_one_list(
    caches: Seq<CpuCacheInfo>,
    others: Seq<CpuCacheInfo>,
    counts: Map<CacheKey, nat>,
    n: int,
)
    requires
        lists_caches(caches, counts),
        lists_caches(others, counts),
        0 <= n <= caches.len(),
    ensures
        n <= others.len(),
        forall|i: int| 0 <= i < n ==> #[trigger] caches[i] == others[i],
    decreases n,
{
    if n > 0 {
        let last = n - 1;
        lemma_one_list(caches, others, counts, last);
        let key = key_of(caches[last]);
        assert(counts.contains_key(key));
        let j = choose|i: int| 0 <= i < others.len() && key_of(#[trigger] others[i]) == key;
        assert(j >= last) by {
            if j < last {
                assert(caches[j] == others[j]);
                assert(cache_before(key_of(caches[j]), key_of(caches[last])));
                lemma_cache_order(key, key);
            }
        }
        let other = key_of(others[last]);
        assert(counts.contains_key(other));
        let k = choose|i: int| 0 <= i < caches.len() && key_of(#[trigger] caches[i]) == other;
        assert(other == key) by {
            if j > last {
                assert(cache_before(key_of(others[last]), key_of(others[j])));
                lemma_cache_order(other, key);
                if k < last {
                    assert(caches[k] == others[k]);
                    assert(cache_before(key_of(others[k]), key_of(others[last])));
                    lemma_cache_order(other, other);
                } else if k > last {
                    assert(cache_before(key_of(caches[last]), key_of(caches[k])));
                }
            }
        }
        let (info, twin) = (caches[last], others[last]);
        assert(key_of(info) == key_of(twin));
        assert(info.bytes_per_instance == twin.bytes_per_instance);
        assert(info == twin);
    }
}

/// Two topologies say the same.
pub open spec fn same_topology(
    first: CpuSupplementalTopology,
    second: CpuSupplementalTopology,
) -> bool {
    &&& first.package_count == second.package_count
    &&& first.numa_node_count == second.numa_node_count
    &&& first.group_count == second.group_count
    &&& first.die_count == second.die_count
    &&& first.module_count == second.module_count
    &&& first.caches@ == second.caches@
}

/// What was read says which topology it is.
pub proof fn records_describe_one_topology(
    first: CpuSupplementalTopology,
    second: CpuSupplementalTopology,
    view: RelationView,
    expected: Set<LogicalProcessorId>,
)
    requires
        is_topology(first, view, expected),
        is_topology(second, view, expected),
    ensures
        same_topology(first, second),
{
    lemma_one_list(first.caches@, second.caches@, view.caches, first.caches@.len() as int);
    lemma_one_list(second.caches@, first.caches@, view.caches, second.caches@.len() as int);
    assert(first.caches@ =~= second.caches@);
}

/// An answer with the same records in another order is accepted as well, and describes the same
/// topology.
pub proof fn record_order_does_not_matter(
    records: Seq<Seq<u8>>,
    others: Seq<Seq<u8>>,
    ids: Seq<LogicalProcessorId>,
    first: Result<CpuSupplementalTopology, CpuDetailError>,
    second: Result<CpuSupplementalTopology, CpuDetailError>,
)
    requires
        are_whole_records(records),
        records.to_multiset() == others.to_multiset(),
        is_parsed(first, joined_records(records), ids),
        is_parsed(second, joined_records(others), ids),
    ensures
        first is Ok <==> second is Ok,
        first is Ok ==> same_topology(first->Ok_0, second->Ok_0),
{
    records.to_multiset_ensures();
    others.to_multiset_ensures();
    assert forall|i: int| 0 <= i < others.len() implies is_whole_record(#[trigger] others[i]) by {
        assert(others.contains(others[i]));
        assert(others.to_multiset().count(others[i]) > 0);
        assert(records.contains(others[i]));
    }
    let expected = ids.to_set();
    let nothing = Seq::<u8>::empty();
    lemma_list(nothing_read(), nothing, records, expected);
    lemma_list(nothing_read(), nothing, others, expected);
    assert(nothing + joined_records(records) =~= joined_records(records));
    assert(nothing + joined_records(others) =~= joined_records(others));
    lemma_reordered(nothing_read(), records, others, expected);
    lemma_emptiness(records);
    lemma_emptiness(others);
    if first is Ok {
        let view = relation_outcome(joined_records(records), ids)->Ok_0;
        records_describe_one_topology(first->Ok_0, second->Ok_0, view, expected);
    }
}

proof fn lemma_emptiness(records: Seq<Seq<u8>>)
    requires
        are_whole_records(records),
    ensures
        joined_records(records).len() == 0 <==> records.len() == 0,
{
    if records.len() > 0 {
        assert(is_whole_record(records[0]));
    }
}

} // verus!
