//! Which engines are offered and shown, and under which names.
use vstd::prelude::*;

use super::counters::kind_views;
use super::layout::ENGINE_SLOT_COUNT;
use super::model::{EngineKindView, GpuEngineId, GpuEngineKind};
use crate::seqs::lemma_push_contains;
use crate::table::{has_key, lemma_has_key_prefix, Table};
use crate::text::{
    append_chars, append_text, chars_of, copy_of, decimal_chars, decimal_text, is_text_before,
    lemma_text_order, lemma_text_order_chain, string_of, text_before,
};

verus! {

/// An engine that can be shown, and its kind.
pub type OptionView = (GpuEngineId, EngineKindView);

pub open spec fn option_views(options: Seq<(GpuEngineId, GpuEngineKind)>) -> Seq<OptionView> {
    options.map_values(|option: (GpuEngineId, GpuEngineKind)| (option.0, option.1@))
}

/// The rank of a kind; the smaller, the earlier it is offered.
pub open spec fn rank(kind: EngineKindView) -> u8 {
    match kind {
        EngineKindView::ThreeD => 0,
        EngineKindView::Copy => 1,
        EngineKindView::VideoEncode => 2,
        EngineKindView::VideoDecode => 3,
        EngineKindView::Compute => 4,
        EngineKindView::Security => 5,
        EngineKindView::Other(_) => 6,
    }
}

pub fn engine_priority(kind: &GpuEngineKind) -> (priority: u8)
    ensures
        priority == rank(kind@),
{
    match kind {
        GpuEngineKind::ThreeD => 0,
        GpuEngineKind::Copy => 1,
        GpuEngineKind::VideoEncode => 2,
        GpuEngineKind::VideoDecode => 3,
        GpuEngineKind::Compute => 4,
        GpuEngineKind::Security => 5,
        GpuEngineKind::Other(_) => 6,
    }
}

/// The name of an unusual kind.
pub open spec fn kind_name(kind: EngineKindView) -> Seq<char> {
    match kind {
        EngineKindView::Other(name) => name,
        _ => Seq::empty(),
    }
}

/// Whether an engine is offered before another: by rank, then by number, then by name.
pub open spec fn offered_before(first: OptionView, second: OptionView) -> bool {
    if rank(first.1) != rank(second.1) {
        rank(first.1) < rank(second.1)
    } else if first.0.ordinal != second.0.ordinal {
        first.0.ordinal < second.0.ordinal
    } else {
        text_before(kind_name(first.1), kind_name(second.1))
    }
}

pub open spec fn in_offered_order(options: Seq<OptionView>) -> bool {
    forall|i: int, j: int|
        0 <= i < j < options.len() ==> !offered_before(#[trigger] options[j], #[trigger] options[i])
}

fn is_offered_before(
    first: &(GpuEngineId, GpuEngineKind),
    second: &(GpuEngineId, GpuEngineKind),
) -> (before: bool)
    ensures
        before == offered_before((first.0, first.1@), (second.0, second.1@)),
{
    let first_rank: u8 = engine_priority(&first.1);
    let second_rank: u8 = engine_priority(&second.1);
    if first_rank != second_rank {
        return first_rank < second_rank;
    }
    if first.0.ordinal != second.0.ordinal {
        return first.0.ordinal < second.0.ordinal;
    }
    match (&first.1, &second.1) {
        (GpuEngineKind::Other(first_name), GpuEngineKind::Other(second_name)) => is_text_before(
            first_name.as_str(),
            second_name.as_str(),
        ),
        _ => {
            proof {
                lemma_text_order(Seq::<char>::empty(), Seq::<char>::empty());
            }
            false
        },
    }
}

proof fn lemma_offered_order(first: OptionView, second: OptionView, third: OptionView)
    ensures
        !(offered_before(first, second) && offered_before(second, first)),
        offered_before(first, second) && offered_before(second, third) ==> offered_before(
            first,
            third,
        ),
{
    lemma_text_order(kind_name(first.1), kind_name(second.1));
    if text_before(kind_name(first.1), kind_name(second.1)) && text_before(
        kind_name(second.1),
        kind_name(third.1),
    ) {
        lemma_text_order_chain(kind_name(first.1), kind_name(second.1), kind_name(third.1));
    }
}

fn insert_option(
    options: &mut Vec<(GpuEngineId, GpuEngineKind)>,
    option: (GpuEngineId, GpuEngineKind),
) -> (position: usize)
    requires
        in_offered_order(option_views(old(options)@)),
    ensures
        in_offered_order(option_views(final(options)@)),
        position <= old(options)@.len(),
        final(options)@ == old(options)@.insert(position as int, option),
{
    let ghost before = option_views(options@);
    let ghost added: OptionView = (option.0, option.1@);
    let count: usize = options.len();
    let mut position: usize = 0;
    while position < count && !is_offered_before(&option, &options[position])
        invariant
            position <= count,
            count == options@.len(),
            before == option_views(options@),
            added == (option.0, option.1@),
            forall|i: int| 0 <= i < position ==> !offered_before(added, #[trigger] before[i]),
        decreases count - position,
    {
        assert(before[position as int] == (options@[position as int].0, options@[position as int].1@));
        position = position + 1;
    }
    proof {
        if position < count {
            assert(before[position as int] == (
                options@[position as int].0,
                options@[position as int].1@,
            ));
        }
    }
    options.insert(position, option);
    proof {
        let after = option_views(options@);
        assert(after =~= before.insert(position as int, added));
        assert forall|i: int, j: int| 0 <= i < j < after.len() implies !offered_before(
            #[trigger] after[j],
            #[trigger] after[i],
        ) by {
            let a = if i < position {
                i
            } else {
                i - 1
            };
            let b = if j < position {
                j
            } else {
                j - 1
            };
            if j == position {
                assert(!offered_before(added, before[a]));
            } else if i == position {
                lemma_offered_order(before[b], added, before[position as int]);
                if b != position {
                    assert(!offered_before(before[b], before[position as int]));
                }
            } else {
                assert(!offered_before(before[b], before[a]));
            }
        }
    }
    position
}

pub open spec fn is_offered(options: Seq<OptionView>, id: GpuEngineId) -> bool {
    exists|i: int| 0 <= i < options.len() && (#[trigger] options[i]).0 == id
}

/// Whether the options are the engines of a map, each once, in the order in which they are
/// offered.
pub open spec fn lists_options(
    options: Seq<OptionView>,
    kinds: Map<GpuEngineId, EngineKindView>,
) -> bool {
    &&& in_offered_order(options)
    &&& forall|i: int|
        0 <= i < options.len() ==> kinds.contains_key((#[trigger] options[i]).0)
            && kinds[options[i].0] == options[i].1
    &&& forall|id: GpuEngineId| #[trigger]
        kinds.contains_key(id) ==> is_offered(options, id)
    &&& forall|i: int, j: int|
        0 <= i < j < options.len() ==> (#[trigger] options[i]).0 != (#[trigger] options[j]).0
}

/// The engines of a table in the order in which they are offered.
pub fn engine_options(kinds: &Table<GpuEngineId, GpuEngineKind>) -> (options: Vec<
    (GpuEngineId, GpuEngineKind),
>)
    requires
        kinds.well_formed(),
    ensures
        lists_options(option_views(options@), kind_views(kinds@)),
{
    proof {
        kinds.lemma_entries();
    }
    let ghost entries = kinds.entries();
    let mut options: Vec<(GpuEngineId, GpuEngineKind)> = Vec::new();
    let count: usize = kinds.len();
    for index in 0..count
        invariant
            kinds.well_formed(),
            entries == kinds.entries(),
            count == entries.len(),
            in_offered_order(option_views(options@)),
            forall|i: int|
                0 <= i < options@.len() ==> kinds@.contains_key((#[trigger] options@[i]).0)
                    && kinds@[options@[i].0]@ == options@[i].1@ && has_key(
                    entries.take(index as int),
                    options@[i].0,
                ),
            forall|k: int|
                0 <= k < index ==> is_offered(option_views(options@), (#[trigger] entries[k]).0),
            forall|i: int, j: int|
                0 <= i < j < options@.len() ==> (#[trigger] options@[i]).0 != (
                #[trigger] options@[j]).0,
    {
        let entry = kinds.entry(index);
        let ghost before = options@;
        let option = (entry.0, entry.1.copied());
        proof {
            kinds.lemma_entries();
            lemma_has_key_prefix(entries, index as int);
            assert(entries[index as int].0 == option.0);
            assert forall|i: int| 0 <= i < before.len() implies (#[trigger] before[i]).0
                != option.0 by {
                let upto = entries.take(index as int);
                assert(has_key(upto, before[i].0));
                let k = choose|k: int| 0 <= k < upto.len() && #[trigger] upto[k].0 == before[i].0;
                assert(entries[k].0 == before[i].0);
                assert(entries[k].0 != entries[index as int].0);
            }
        }
        let position: usize = insert_option(&mut options, option);
        proof {
            let after = options@;
            assert(after == before.insert(position as int, option));
            assert forall|i: int| 0 <= i < after.len() implies kinds@.contains_key(
                (#[trigger] after[i]).0,
            ) && kinds@[after[i].0]@ == after[i].1@ && has_key(
                entries.take(index + 1),
                after[i].0,
            ) by {
                if i < position {
                    assert(after[i] == before[i]);
                } else if i > position {
                    assert(after[i] == before[i - 1]);
                }
            }
            assert forall|k: int| 0 <= k < index + 1 implies is_offered(
                option_views(after),
                (#[trigger] entries[k]).0,
            ) by {
                let shown = option_views(after);
                let id = entries[k].0;
                if k < index {
                    let earlier = option_views(before);
                    assert(is_offered(earlier, id));
                    let i = choose|i: int|
                        0 <= i < earlier.len() && (#[trigger] earlier[i]).0 == id;
                    if i < position {
                        assert(shown[i].0 == id);
                    } else {
                        assert(shown[i + 1].0 == id);
                    }
                } else {
                    assert(shown[position as int].0 == id);
                }
            }
            assert forall|i: int, j: int| 0 <= i < j < after.len() implies (#[trigger] after[i]).0
                != (#[trigger] after[j]).0 by {
                let a = if i < position {
                    i
                } else {
                    i - 1
                };
                let b = if j < position {
                    j
                } else {
                    j - 1
                };
                if i != position && j != position {
                    assert(before[a].0 != before[b].0);
                }
            }
        }
    }
    proof {
        assert(entries.take(count as int) =~= entries);
        kinds.lemma_entries();
        let shown = option_views(options@);
        assert forall|i: int| 0 <= i < shown.len() implies kind_views(kinds@).contains_key(
            (#[trigger] shown[i]).0,
        ) && kind_views(kinds@)[shown[i].0] == shown[i].1 by {
            assert(options@[i].0 == shown[i].0);
        }
        assert forall|id: GpuEngineId| #[trigger]
            kind_views(kinds@).contains_key(id) implies is_offered(shown, id) by {
            assert(kinds@.contains_key(id));
            assert(has_key(entries, id));
            let k = choose|k: int| 0 <= k < entries.len() && #[trigger] entries[k].0 == id;
            assert(is_offered(shown, entries[k].0));
        }
        assert forall|i: int, j: int| 0 <= i < j < shown.len() implies (#[trigger] shown[i]).0 != (
        #[trigger] shown[j]).0 by {
            assert(options@[i].0 != options@[j].0);
        }
    }
    options
}

/// The first option of a kind that is not taken yet.
pub open spec fn first_of_kind(
    options: Seq<OptionView>,
    kind: EngineKindView,
    taken: Seq<GpuEngineId>,
) -> Option<GpuEngineId>
    decreases options.len(),
{
    if options.len() == 0 {
        None
    } else if options[0].1 == kind && !taken.contains(options[0].0) {
        Some(options[0].0)
    } else {
        first_of_kind(options.drop_first(), kind, taken)
    }
}

pub open spec fn with_kind_first(
    options: Seq<OptionView>,
    kind: EngineKindView,
    taken: Seq<GpuEngineId>,
) -> Seq<GpuEngineId> {
    match first_of_kind(options, kind, taken) {
        Some(id) => taken.push(id),
        None => taken,
    }
}

/// One engine of each of the usual kinds, where there is one.
pub open spec fn usual_engines(options: Seq<OptionView>) -> Seq<GpuEngineId> {
    with_kind_first(
        options,
        EngineKindView::VideoDecode,
        with_kind_first(
            options,
            EngineKindView::VideoEncode,
            with_kind_first(
                options,
                EngineKindView::Copy,
                with_kind_first(options, EngineKindView::ThreeD, Seq::empty()),
            ),
        ),
    )
}

/// The engines that are taken after the free slots were filled in the order of the options.
pub open spec fn filled_slots(options: Seq<OptionView>, taken: Seq<GpuEngineId>) -> Seq<GpuEngineId>
    decreases options.len(),
{
    if options.len() == 0 {
        taken
    } else {
        let earlier = filled_slots(options.drop_last(), taken);
        if earlier.len() >= ENGINE_SLOT_COUNT || earlier.contains(options.last().0) {
            earlier
        } else {
            earlier.push(options.last().0)
        }
    }
}

/// The engines that are shown unless others are chosen.
pub open spec fn default_engines(options: Seq<OptionView>) -> Seq<GpuEngineId> {
    filled_slots(options, usual_engines(options))
}

fn contains_engine(ids: &Vec<GpuEngineId>, id: GpuEngineId) -> (found: bool)
    ensures
        found == ids@.contains(id),
{
    for index in 0..ids.len()
        invariant
            forall|i: int| 0 <= i < index ==> ids@[i] != id,
    {
        if ids[index] == id {
            return true;
        }
    }
    false
}

fn take_first_of_kind(
    options: &[(GpuEngineId, GpuEngineKind)],
    kind: &GpuEngineKind,
    taken: &mut Vec<GpuEngineId>,
)
    ensures
        final(taken)@ == with_kind_first(option_views(options@), kind@, old(taken)@),
{
    let ghost all = option_views(options@);
    assert(all.skip(0) =~= all);
    for index in 0..options.len()
        invariant
            all == option_views(options@),
            taken@ == old(taken)@,
            first_of_kind(all, kind@, taken@) == first_of_kind(
                all.skip(index as int),
                kind@,
                taken@,
            ),
    {
        proof {
            assert(all.skip(index as int)[0] == all[index as int]);
            assert(all[index as int] == (options@[index as int].0, options@[index as int].1@));
            assert(all.skip(index as int).drop_first() =~= all.skip(index + 1));
        }
        if options[index].1.same_as(kind) && !contains_engine(taken, options[index].0) {
            taken.push(options[index].0);
            return;
        }
    }
    assert(all.skip(all.len() as int) =~= Seq::<OptionView>::empty());
}

pub fn default_engine_slots(options: &[(GpuEngineId, GpuEngineKind)]) -> (slots: [Option<
    GpuEngineId,
>; 4])
    ensures
        ({
            let chosen = default_engines(option_views(options@));
            forall|i: int|
                0 <= i < ENGINE_SLOT_COUNT ==> #[trigger] slots@[i] == if i < chosen.len() {
                    Some(chosen[i])
                } else {
                    None
                }
        }),
{
    let ghost all = option_views(options@);
    let mut chosen: Vec<GpuEngineId> = Vec::new();
    take_first_of_kind(options, &GpuEngineKind::ThreeD, &mut chosen);
    take_first_of_kind(options, &GpuEngineKind::Copy, &mut chosen);
    take_first_of_kind(options, &GpuEngineKind::VideoEncode, &mut chosen);
    take_first_of_kind(options, &GpuEngineKind::VideoDecode, &mut chosen);
    let ghost usual = usual_engines(all);
    assert(chosen@ == usual);
    assert(all.take(0) =~= Seq::<OptionView>::empty());
    for index in 0..options.len()
        invariant
            all == option_views(options@),
            chosen@ == filled_slots(all.take(index as int), usual),
    {
        let id = options[index].0;
        proof {
            assert(all.take(index + 1).drop_last() =~= all.take(index as int));
            assert(all.take(index + 1).last() == all[index as int]);
            assert(all[index as int].0 == id);
        }
        if chosen.len() < ENGINE_SLOT_COUNT && !contains_engine(&chosen, id) {
            chosen.push(id);
        }
    }
    assert(all.take(all.len() as int) =~= all);
    let mut slots: [Option<GpuEngineId>; 4] = [None, None, None, None];
    for slot in 0..ENGINE_SLOT_COUNT
        invariant
            forall|i: int|
                0 <= i < ENGINE_SLOT_COUNT ==> #[trigger] slots@[i] == if i < slot && i
                    < chosen@.len() {
                    Some(chosen@[i])
                } else {
                    None
                },
    {
        if slot < chosen.len() {
            slots[slot] = Some(chosen[slot]);
        }
    }
    slots
}

proof fn lemma_first_of_kind(
    options: Seq<OptionView>,
    kind: EngineKindView,
    taken: Seq<GpuEngineId>,
)
    requires
        taken.no_duplicates(),
        forall|i: int| 0 <= i < taken.len() ==> is_offered(options, #[trigger] taken[i]),
    ensures
        with_kind_first(options, kind, taken).no_duplicates(),
        forall|i: int|
            0 <= i < with_kind_first(options, kind, taken).len() ==> is_offered(
                options,
                #[trigger] with_kind_first(options, kind, taken)[i],
            ),
        with_kind_first(options, kind, taken).len() <= taken.len() + 1,
{
    lemma_first_is_offered(options, kind, taken);
}

proof fn lemma_first_is_offered(
    options: Seq<OptionView>,
    kind: EngineKindView,
    taken: Seq<GpuEngineId>,
)
    ensures
        first_of_kind(options, kind, taken) matches Some(id) ==> is_offered(options, id)
            && !taken.contains(id),
    decreases options.len(),
{
    if options.len() > 0 {
        if options[0].1 == kind && !taken.contains(options[0].0) {
            assert(is_offered(options, options[0].0));
        } else {
            lemma_first_is_offered(options.drop_first(), kind, taken);
            if first_of_kind(options, kind, taken) is Some {
                let id = first_of_kind(options, kind, taken)->0;
                let rest = options.drop_first();
                let i = choose|i: int| 0 <= i < rest.len() && (#[trigger] rest[i]).0 == id;
                assert(options[i + 1].0 == id);
            }
        }
    }
}

proof fn lemma_filled_slots(options: Seq<OptionView>, n: int, taken: Seq<GpuEngineId>)
    requires
        0 <= n <= options.len(),
        taken.no_duplicates(),
        taken.len() <= ENGINE_SLOT_COUNT,
        forall|i: int| 0 <= i < taken.len() ==> is_offered(options, #[trigger] taken[i]),
    ensures
        ({
            let filled = filled_slots(options.take(n), taken);
            &&& filled.no_duplicates()
            &&& filled.len() <= ENGINE_SLOT_COUNT
            &&& forall|i: int| 0 <= i < filled.len() ==> is_offered(options, #[trigger] filled[i])
            &&& filled.len() == ENGINE_SLOT_COUNT || forall|i: int|
                0 <= i < n ==> filled.contains((#[trigger] options[i]).0)
        }),
    decreases n,
{
    if n == 0 {
        assert(options.take(0) =~= Seq::<OptionView>::empty());
    } else {
        lemma_filled_slots(options, n - 1, taken);
        let upto = options.take(n);
        let earlier = filled_slots(options.take(n - 1), taken);
        let id = options[n - 1].0;
        assert(upto.drop_last() =~= options.take(n - 1));
        assert(upto.last() == options[n - 1]);
        assert(is_offered(options, id));
        lemma_push_contains(earlier, id);
    }
}

/// No engine is shown in two slots, only engines that are offered are shown, and a slot stays
/// empty only if every engine that is offered has one.
pub proof fn default_slots_are_distinct(options: Seq<OptionView>)
    ensures
        default_engines(options).no_duplicates(),
        default_engines(options).len() <= ENGINE_SLOT_COUNT,
        forall|i: int|
            0 <= i < default_engines(options).len() ==> is_offered(
                options,
                #[trigger] default_engines(options)[i],
            ),
        default_engines(options).len() == ENGINE_SLOT_COUNT || forall|i: int|
            0 <= i < options.len() ==> default_engines(options).contains((#[trigger] options[i]).0),
{
    let nothing = Seq::<GpuEngineId>::empty();
    lemma_first_of_kind(options, EngineKindView::ThreeD, nothing);
    let one = with_kind_first(options, EngineKindView::ThreeD, nothing);
    lemma_first_of_kind(options, EngineKindView::Copy, one);
    let two = with_kind_first(options, EngineKindView::Copy, one);
    lemma_first_of_kind(options, EngineKindView::VideoEncode, two);
    let three = with_kind_first(options, EngineKindView::VideoEncode, two);
    lemma_first_of_kind(options, EngineKindView::VideoDecode, three);
    let four = with_kind_first(options, EngineKindView::VideoDecode, three);
    lemma_filled_slots(options, options.len() as int, four);
    assert(options.take(options.len() as int) =~= options);
}

/// The names of the usual kinds in the language of the user.
pub struct EngineNames {
    pub three_d: String,
    pub copy: String,
    pub video_encode: String,
    pub video_decode: String,
    pub compute: String,
    pub security: String,
}

pub open spec fn engine_name(kind: EngineKindView, names: EngineNames) -> Seq<char> {
    match kind {
        EngineKindView::ThreeD => names.three_d@,
        EngineKindView::Copy => names.copy@,
        EngineKindView::VideoEncode => names.video_encode@,
        EngineKindView::VideoDecode => names.video_decode@,
        EngineKindView::Compute => names.compute@,
        EngineKindView::Security => names.security@,
        EngineKindView::Other(name) => name,
    }
}

pub fn localized_engine_name(kind: &GpuEngineKind, names: &EngineNames) -> (name: String)
    ensures
        name@ == engine_name(kind@, *names),
{
    match kind {
        GpuEngineKind::ThreeD => copy_of(names.three_d.as_str()),
        GpuEngineKind::Copy => copy_of(names.copy.as_str()),
        GpuEngineKind::VideoEncode => copy_of(names.video_encode.as_str()),
        GpuEngineKind::VideoDecode => copy_of(names.video_decode.as_str()),
        GpuEngineKind::Compute => copy_of(names.compute.as_str()),
        GpuEngineKind::Security => copy_of(names.security.as_str()),
        GpuEngineKind::Other(name) => copy_of(name.as_str()),
    }
}

pub open spec fn engine_label(kind: EngineKindView, ordinal: u32, names: EngineNames) -> Seq<char> {
    engine_name(kind, names) + " "@ + decimal_text(ordinal as nat)
}

pub fn format_engine_label(kind: &GpuEngineKind, ordinal: u32, names: &EngineNames) -> (label:
    String)
    ensures
        label@ == engine_label(kind@, ordinal, *names),
{
    let mut label = chars_of(localized_engine_name(kind, names).as_str());
    append_text(&mut label, " ");
    append_chars(&mut label, decimal_chars(ordinal as u64).as_slice());
    string_of(label.as_slice())
}

} // verus!
