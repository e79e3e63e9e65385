//! What histories keep, which engines are shown, and what the texts of the page say.
use std::sync::Arc;

use vstd::prelude::*;

use super::adapter_history::{
    last_usage, no_history, share_of, usage_or_zero, with_latest_kinds, with_new_engines,
    with_sample, AdapterHistoryView,
};
use super::counters::engine_sample_views;
use super::engines::{
    default_engines, engine_label, engine_name, filled_slots, first_of_kind, offered_before,
    usual_engines, with_kind_first, EngineNames, OptionView,
};
use super::instances::{engine_instance, memory_instance};
use super::model::{
    kind_named, luid_of, EngineKindView, EngineSampleView, GpuAdapterId, GpuAdapterInfo,
    GpuAdapterMetadata, GpuAdapterSample, GpuEngineId, GpuSampleError,
};
use super::page::GpuPageState;
use super::selection::{info_position, option_position, sample_position, slot_choice};
use super::values::{
    driver_field, metadata_text, percent_text, sum_of, temperature_text, usage_of_limit,
};
use crate::history::{newest, pushed};
use crate::text::{
    all_digits, decimal_text, decimal_text_stands_for_value, decimal_value, hex_value,
    is_decimal_u32, is_hex_u32, joined, lower, pieces, pieces_of_joined_parts,
};

verus! {

/// A new value stands first in a history, every other moves on by one place, and only the oldest
/// is forgotten.
pub proof fn new_value_moves_the_others_on(history: Seq<u8>, value: u8)
    requires
        history.len() > 0,
    ensures
        pushed(history, value).len() == history.len(),
        pushed(history, value)[0] == value,
        newest(pushed(history, value)) == value,
        forall|i: int|
            0 <= i < history.len() - 1 ==> #[trigger] pushed(history, value)[i + 1] == history[i],
{
}

/// The share of a limit is the percentage nearest to it, and never more than a hundred. Without a
/// limit there is no share.
pub proof fn share_is_the_nearest_percentage(usage: u64, limit: Option<u64>)
    ensures
        0 <= share_of(usage, limit) <= 100,
        limit is None || limit == Some(0u64) ==> share_of(usage, limit) == 0,
        limit is Some && limit->0 > 0 && usage >= limit->0 ==> share_of(usage, limit) == 100,
        limit is Some && limit->0 > 0 && usage <= limit->0 ==> {
            let (share, whole) = (share_of(usage, limit), limit->0 as int);
            2 * (share * whole) <= 200 * usage + whole && 200 * usage < 2 * (share * whole) + whole
        },
{
    if limit is Some && limit->0 > 0 {
        let whole = limit->0 as int;
        let sum = usage * 100 + whole / 2;
        let rounded = sum / whole;
        assert(sum == rounded * whole + sum % whole && 0 <= sum % whole < whole && rounded >= 0)
            by (nonlinear_arith)
            requires
                rounded == sum / whole,
                sum >= 0,
                whole > 0,
        ;
        if usage >= whole {
            assert(rounded >= 100) by (nonlinear_arith)
                requires
                    200 * usage < 2 * (rounded * whole) + whole,
                    usage >= whole,
                    whole > 0,
            ;
        }
        if usage <= whole && rounded > 100 {
            assert(false) by (nonlinear_arith)
                requires
                    2 * (rounded * whole) <= 200 * usage + whole,
                    usage <= whole,
                    rounded >= 101,
                    whole > 0,
            ;
        }
    }
}

/// What a sample says of an engine is what its last entry for it says.
pub proof fn usage_is_that_of_the_last_entry(engines: Seq<EngineSampleView>, id: GpuEngineId)
    ensures
        match last_usage(engines, id) {
            None => usage_or_zero(engines, id) == 0 && forall|i: int|
                0 <= i < engines.len() ==> (#[trigger] engines[i]).id != id,
            Some(usage) => usage_or_zero(engines, id) == usage && exists|i: int|
                0 <= i < engines.len() && (#[trigger] engines[i]).id == id
                    && engines[i].utilization_percent == usage && forall|j: int|
                    i < j < engines.len() ==> (#[trigger] engines[j]).id != id,
        },
    decreases engines.len(),
{
    if engines.len() > 0 {
        let front = engines.drop_last();
        let n = engines.len() - 1;
        usage_is_that_of_the_last_entry(front, id);
        assert(engines[n] == engines.last());
        if engines[n].id != id {
            match last_usage(front, id) {
                None => {
                    assert forall|i: int| 0 <= i < engines.len() implies (#[trigger] engines[i]).id
                        != id by {
                        if i < n {
                            assert(front[i].id != id);
                        }
                    }
                },
                Some(usage) => {
                    let i = choose|i: int|
                        0 <= i < front.len() && (#[trigger] front[i]).id == id
                            && front[i].utilization_percent == usage && forall|j: int|
                            i < j < front.len() ==> (#[trigger] front[j]).id != id;
                    assert(engines[i] == front[i]);
                    assert forall|j: int| i < j < engines.len() implies (#[trigger] engines[j]).id
                        != id by {
                        if j < n {
                            assert(front[j].id != id);
                        }
                    }
                },
            }
        }
    }
}

proof fn lemma_new_engines(
    histories: Map<GpuEngineId, Seq<u8>>,
    engines: Seq<EngineSampleView>,
    id: GpuEngineId,
)
    ensures
        ({
            let after = with_new_engines(histories, engines);
            &&& histories.contains_key(id) ==> after.contains_key(id) && after[id] == histories[id]
            &&& !histories.contains_key(id) && after.contains_key(id) ==> exists|i: int|
                0 <= i < engines.len() && (#[trigger] engines[i]).id == id && after[id] == pushed(
                    no_history(),
                    engines[i].utilization_percent,
                )
            &&& forall|i: int|
                0 <= i < engines.len() && (#[trigger] engines[i]).id == id ==> after.contains_key(
                    id,
                )
        }),
    decreases engines.len(),
{
    if engines.len() > 0 {
        let front = engines.drop_last();
        let n = engines.len() - 1;
        lemma_new_engines(histories, front, id);
        let before = with_new_engines(histories, front);
        let after = with_new_engines(histories, engines);
        assert(engines[n] == engines.last());
        if !histories.contains_key(id) && after.contains_key(id) {
            if before.contains_key(id) {
                let i = choose|i: int|
                    0 <= i < front.len() && (#[trigger] front[i]).id == id && before[id] == pushed(
                        no_history(),
                        front[i].utilization_percent,
                    );
                assert(engines[i] == front[i]);
            } else {
                assert(engines[n].id == id);
            }
        }
        assert forall|i: int|
            0 <= i < engines.len() && (#[trigger] engines[i]).id == id implies after.contains_key(
            id,
        ) by {
            if i < n {
                assert(front[i] == engines[i]);
            }
        }
    }
}

/// After a sample the newest value in the history of each engine that the sample lists is its
/// usage, that of a known engine which the sample does not list is zero, and every older value
/// stands one place further on. The newest values of the memory are the shares of their own
/// limits.
pub proof fn histories_begin_with_the_sample(
    history: AdapterHistoryView,
    sample: GpuAdapterSample,
    at: int,
)
    requires
        0 <= at < sample.engines@.len(),
        forall|i: int|
            0 <= i < sample.engines@.len() && i != at ==> (#[trigger] sample.engines@[i]).id
                != sample.engines@[at].id,
        history.engines.contains_key(sample.engines@[at].id)
            ==> history.engines[sample.engines@[at].id].len() > 0,
        history.dedicated.len() > 0,
        history.shared.len() > 0,
    ensures
        ({
            let after = with_sample(history, sample);
            let engine = sample.engines@[at];
            &&& after.engines.contains_key(engine.id)
            &&& after.engines[engine.id][0] == engine.utilization_percent
            &&& history.engines.contains_key(engine.id) ==> forall|i: int|
                0 <= i < history.engines[engine.id].len() - 1
                    ==> #[trigger] after.engines[engine.id][i + 1] == history.engines[engine.id][i]
            &&& after.kinds.contains_key(engine.id) && after.kinds[engine.id] == engine.kind@
            &&& after.dedicated[0] == share_of(
                sample.dedicated_usage_bytes,
                sample.info.dedicated_limit_bytes,
            )
            &&& after.shared[0] == share_of(
                sample.shared_usage_bytes,
                sample.info.shared_limit_bytes,
            )
        }),
{
    let engines = engine_sample_views(sample.engines@);
    let id = sample.engines@[at].id;
    assert(engines[at] == sample.engines@[at]@);
    assert forall|i: int| 0 <= i < engines.len() && i != at implies (#[trigger] engines[i]).id
        != id by {
        assert(engines[i] == sample.engines@[i]@);
        assert(sample.engines@[i].id != id);
    }
    usage_is_that_of_the_last_entry(engines, id);
    assert(engines[at].id == id);
    lemma_new_engines(super::adapter_history::all_pushed(history.engines, engines), engines, id);
    lemma_latest_kind(history.kinds, engines, id);
    share_is_the_nearest_percentage(
        sample.dedicated_usage_bytes,
        sample.info.dedicated_limit_bytes,
    );
    share_is_the_nearest_percentage(sample.shared_usage_bytes, sample.info.shared_limit_bytes);
}

proof fn lemma_latest_kind(
    kinds: Map<GpuEngineId, EngineKindView>,
    engines: Seq<EngineSampleView>,
    id: GpuEngineId,
)
    ensures
        ({
            let after = with_latest_kinds(kinds, engines);
            &&& (forall|i: int| 0 <= i < engines.len() ==> (#[trigger] engines[i]).id != id) ==> (
            after.contains_key(id) == kinds.contains_key(id) && (kinds.contains_key(id)
                ==> after[id] == kinds[id]))
            &&& forall|i: int|
                0 <= i < engines.len() && (#[trigger] engines[i]).id == id ==> after.contains_key(
                    id,
                )
            &&& (exists|i: int| 0 <= i < engines.len() && (#[trigger] engines[i]).id == id)
                ==> exists|i: int|
                0 <= i < engines.len() && (#[trigger] engines[i]).id == id && engines[i].kind
                    == after[id] && forall|j: int|
                    i < j < engines.len() ==> (#[trigger] engines[j]).id != id
        }),
    decreases engines.len(),
{
    if engines.len() > 0 {
        let front = engines.drop_last();
        let n = engines.len() - 1;
        lemma_latest_kind(kinds, front, id);
        let after = with_latest_kinds(kinds, engines);
        assert(engines[n] == engines.last());
        if forall|i: int| 0 <= i < engines.len() ==> (#[trigger] engines[i]).id != id {
            assert forall|i: int| 0 <= i < front.len() implies (#[trigger] front[i]).id != id by {
                assert(engines[i].id != id);
            }
            assert(engines[n].id != id);
        }
        assert forall|i: int|
            0 <= i < engines.len() && (#[trigger] engines[i]).id == id implies after.contains_key(
            id,
        ) by {
            if i < n {
                assert(front[i] == engines[i]);
            }
        }
        if exists|i: int| 0 <= i < engines.len() && (#[trigger] engines[i]).id == id {
            if engines[n].id != id {
                let k = choose|i: int| 0 <= i < engines.len() && (#[trigger] engines[i]).id == id;
                assert(front[k].id == id);
                let i = choose|i: int|
                    0 <= i < front.len() && (#[trigger] front[i]).id == id && front[i].kind
                        == with_latest_kinds(kinds, front)[id] && forall|j: int|
                        i < j < front.len() ==> (#[trigger] front[j]).id != id;
                assert(engines[i] == front[i]);
                assert forall|j: int| i < j < engines.len() implies (#[trigger] engines[j]).id
                    != id by {
                    if j < n {
                        assert(front[j].id != id);
                    }
                }
            }
        }
    }
}

/// Engines are offered by kind: for the picture first, then for copies, for encoding, for
/// decoding, for computing and for security, and all others last; engines of one kind by number.
pub proof fn engines_are_offered_by_kind_and_number(first: OptionView, second: OptionView)
    ensures
        first.1 is ThreeD && !(second.1 is ThreeD) ==> offered_before(first, second),
        first.1 is Copy && (second.1 is VideoEncode || second.1 is VideoDecode
            || second.1 is Compute
            || second.1 is Security || second.1 is Other) ==> offered_before(first, second),
        first.1 is VideoEncode && (second.1 is VideoDecode || second.1 is Compute
            || second.1 is Security || second.1 is Other) ==> offered_before(first, second),
        first.1 is VideoDecode && (second.1 is Compute || second.1 is Security || second.1 is Other)
            ==> offered_before(first, second),
        first.1 is Compute && (second.1 is Security || second.1 is Other) ==> offered_before(
            first,
            second,
        ),
        first.1 is Security && second.1 is Other ==> offered_before(first, second),
        first.1 == second.1 ==> (offered_before(first, second) <==> first.0.ordinal
            < second.0.ordinal),
        offered_before(first, second) ==> !offered_before(second, first),
{
    let (a, b) = (super::engines::kind_name(first.1), super::engines::kind_name(second.1));
    crate::text::lemma_text_order(a, b);
    crate::text::lemma_text_order(b, a);
}

/// Whether an engine is the first of its kind that is offered.
pub open spec fn is_first_of_kind(
    options: Seq<OptionView>,
    kind: EngineKindView,
    id: GpuEngineId,
) -> bool {
    exists|i: int|
        0 <= i < options.len() && (#[trigger] options[i]).0 == id && options[i].1 == kind
            && forall|j: int| 0 <= j < i ==> (#[trigger] options[j]).1 != kind
}

pub open spec fn offers_kind(options: Seq<OptionView>, kind: EngineKindView) -> bool {
    exists|i: int| 0 <= i < options.len() && (#[trigger] options[i]).1 == kind
}

proof fn lemma_first_of_kind(
    options: Seq<OptionView>,
    kind: EngineKindView,
    taken: Seq<GpuEngineId>,
)
    requires
        forall|i: int, t: int|
            0 <= i < options.len() && 0 <= t < taken.len() && (#[trigger] options[i]).1 == kind
                ==> options[i].0 != #[trigger] taken[t],
    ensures
        match first_of_kind(options, kind, taken) {
            Some(id) => is_first_of_kind(options, kind, id),
            None => !offers_kind(options, kind),
        },
    decreases options.len(),
{
    if options.len() > 0 {
        let rest = options.drop_first();
        if options[0].1 == kind {
            if taken.contains(options[0].0) {
                let t = choose|t: int| 0 <= t < taken.len() && taken[t] == options[0].0;
                assert(options[0].0 != taken[t]);
            }
        } else {
            assert forall|i: int, t: int|
                0 <= i < rest.len() && 0 <= t < taken.len() && (#[trigger] rest[i]).1
                    == kind implies rest[i].0 != #[trigger] taken[t] by {
                assert(rest[i] == options[i + 1]);
            }
            lemma_first_of_kind(rest, kind, taken);
            match first_of_kind(options, kind, taken) {
                Some(id) => {
                    let i = choose|i: int|
                        0 <= i < rest.len() && (#[trigger] rest[i]).0 == id && rest[i].1 == kind
                            && forall|j: int| 0 <= j < i ==> (#[trigger] rest[j]).1 != kind;
                    assert(options[i + 1] == rest[i]);
                    assert forall|j: int| 0 <= j < i + 1 implies (#[trigger] options[j]).1
                        != kind by {
                        if j > 0 {
                            assert(rest[j - 1] == options[j]);
                        }
                    }
                },
                None => {
                    if offers_kind(options, kind) {
                        let i = choose|i: int|
                            0 <= i < options.len() && (#[trigger] options[i]).1 == kind;
                        assert(rest[i - 1].1 == kind);
                    }
                },
            }
        }
    }
}

pub open spec fn each_offered_once(options: Seq<OptionView>) -> bool {
    forall|i: int, j: int|
        0 <= i < j < options.len() ==> (#[trigger] options[i]).0 != (#[trigger] options[j]).0
}

/// Taken engines are the first ones of other kinds.
spec fn taken_elsewhere(
    options: Seq<OptionView>,
    kind: EngineKindView,
    taken: Seq<GpuEngineId>,
) -> bool {
    forall|t: int|
        0 <= t < taken.len() ==> exists|i: int|
            0 <= i < options.len() && (#[trigger] options[i]).0 == #[trigger] taken[t]
                && options[i].1 != kind
}

proof fn lemma_taken_elsewhere(
    options: Seq<OptionView>,
    kind: EngineKindView,
    taken: Seq<GpuEngineId>,
)
    requires
        each_offered_once(options),
        taken_elsewhere(options, kind, taken),
    ensures
        forall|i: int, t: int|
            0 <= i < options.len() && 0 <= t < taken.len() && (#[trigger] options[i]).1 == kind
                ==> options[i].0 != #[trigger] taken[t],
{
    assert forall|i: int, t: int|
        0 <= i < options.len() && 0 <= t < taken.len() && (#[trigger] options[i]).1
            == kind implies options[i].0 != #[trigger] taken[t] by {
        let k = choose|k: int|
            0 <= k < options.len() && (#[trigger] options[k]).0 == taken[t] && options[k].1 != kind;
        if i < k {
            assert(options[i].0 != options[k].0);
        } else if k < i {
            assert(options[k].0 != options[i].0);
        }
    }
}

proof fn lemma_filled_keeps(options: Seq<OptionView>, taken: Seq<GpuEngineId>)
    ensures
        filled_slots(options, taken).len() >= taken.len(),
        forall|t: int|
            0 <= t < taken.len() ==> #[trigger] filled_slots(options, taken)[t] == taken[t],
    decreases options.len(),
{
    if options.len() > 0 {
        lemma_filled_keeps(options.drop_last(), taken);
    }
}

/// Where an engine of each of the four usual kinds is offered, the four slots show the first of
/// each: the picture, copies, encoding and decoding, in this order.
pub proof fn slots_show_the_usual_kinds(options: Seq<OptionView>)
    requires
        each_offered_once(options),
        offers_kind(options, EngineKindView::ThreeD),
        offers_kind(options, EngineKindView::Copy),
        offers_kind(options, EngineKindView::VideoEncode),
        offers_kind(options, EngineKindView::VideoDecode),
    ensures
        default_engines(options).len() == 4,
        is_first_of_kind(options, EngineKindView::ThreeD, default_engines(options)[0]),
        is_first_of_kind(options, EngineKindView::Copy, default_engines(options)[1]),
        is_first_of_kind(options, EngineKindView::VideoEncode, default_engines(options)[2]),
        is_first_of_kind(options, EngineKindView::VideoDecode, default_engines(options)[3]),
{
    let none = Seq::<GpuEngineId>::empty();
    lemma_first_of_kind(options, EngineKindView::ThreeD, none);
    let one = with_kind_first(options, EngineKindView::ThreeD, none);
    assert(one.len() == 1);
    lemma_with_elsewhere(options, none, EngineKindView::ThreeD, EngineKindView::Copy);
    lemma_taken_elsewhere(options, EngineKindView::Copy, one);
    lemma_first_of_kind(options, EngineKindView::Copy, one);
    let two = with_kind_first(options, EngineKindView::Copy, one);
    lemma_with_elsewhere(options, none, EngineKindView::ThreeD, EngineKindView::VideoEncode);
    lemma_with_elsewhere(options, one, EngineKindView::Copy, EngineKindView::VideoEncode);
    lemma_taken_elsewhere(options, EngineKindView::VideoEncode, two);
    lemma_first_of_kind(options, EngineKindView::VideoEncode, two);
    let three = with_kind_first(options, EngineKindView::VideoEncode, two);
    lemma_with_elsewhere(options, none, EngineKindView::ThreeD, EngineKindView::VideoDecode);
    lemma_with_elsewhere(options, one, EngineKindView::Copy, EngineKindView::VideoDecode);
    lemma_with_elsewhere(options, two, EngineKindView::VideoEncode, EngineKindView::VideoDecode);
    lemma_taken_elsewhere(options, EngineKindView::VideoDecode, three);
    lemma_first_of_kind(options, EngineKindView::VideoDecode, three);
    let four = usual_engines(options);
    assert(four == with_kind_first(options, EngineKindView::VideoDecode, three));
    assert(four.len() == 4);
    lemma_filled_keeps(options, four);
    lemma_full_stays(options, four);
    assert(four[0] == one[0]);
    assert(four[1] == two[1]);
    assert(four[2] == three[2]);
}

proof fn lemma_full_stays(options: Seq<OptionView>, taken: Seq<GpuEngineId>)
    requires
        taken.len() >= 4,
    ensures
        filled_slots(options, taken) == taken,
    decreases options.len(),
{
    if options.len() > 0 {
        lemma_full_stays(options.drop_last(), taken);
    }
}

proof fn lemma_with_elsewhere(
    options: Seq<OptionView>,
    taken: Seq<GpuEngineId>,
    kind: EngineKindView,
    other: EngineKindView,
)
    requires
        kind != other,
        taken_elsewhere(options, other, taken),
        forall|i: int, t: int|
            0 <= i < options.len() && 0 <= t < taken.len() && (#[trigger] options[i]).1 == kind
                ==> options[i].0 != #[trigger] taken[t],
    ensures
        taken_elsewhere(options, other, with_kind_first(options, kind, taken)),
{
    lemma_first_of_kind(options, kind, taken);
    let after = with_kind_first(options, kind, taken);
    assert forall|t: int| 0 <= t < after.len() implies exists|i: int|
        0 <= i < options.len() && (#[trigger] options[i]).0 == #[trigger] after[t] && options[i].1
            != other by {
        if t < taken.len() {
            assert(after[t] == taken[t]);
            let i = choose|i: int|
                0 <= i < options.len() && (#[trigger] options[i]).0 == taken[t] && options[i].1
                    != other;
            assert(options[i].0 == after[t]);
        } else {
            let id = after[t];
            let i = choose|i: int|
                0 <= i < options.len() && (#[trigger] options[i]).0 == id && options[i].1 == kind
                    && forall|j: int| 0 <= j < i ==> (#[trigger] options[j]).1 != kind;
            assert(options[i].0 == after[t]);
        }
    }
}

/// A free slot shows the next engine in the order in which they are offered: no engine has a slot
/// while one that is offered before it, and is not shown for its kind, has none.
pub proof fn free_slots_follow_the_offer(
    options: Seq<OptionView>,
    taken: Seq<GpuEngineId>,
    i: int,
    j: int,
)
    requires
        0 <= i < j < options.len(),
        each_offered_once(options),
        !taken.contains(options[j].0),
        filled_slots(options, taken).contains(options[j].0),
    ensures
        filled_slots(options, taken).contains(options[i].0),
    decreases options.len(),
{
    let front = options.drop_last();
    let n = options.len() - 1;
    let before = filled_slots(front, taken);
    let after = filled_slots(options, taken);
    if j < n {
        assert(front[i] == options[i] && front[j] == options[j]);
        assert(before.contains(options[j].0)) by {
            let k = choose|k: int| 0 <= k < after.len() && after[k] == options[j].0;
            assert(options[j].0 != options[n].0);
            if k < before.len() {
                assert(before[k] == options[j].0);
            }
        }
        assert forall|a: int, b: int| 0 <= a < b < front.len() implies (#[trigger] front[a]).0 != (
        #[trigger] front[b]).0 by {
            assert(options[a].0 != options[b].0);
        }
        free_slots_follow_the_offer(front, taken, i, j);
        let k = choose|k: int| 0 <= k < before.len() && before[k] == options[i].0;
        assert(after[k] == options[i].0);
    } else {
        lemma_not_filled(front, taken, options[n].0);
        assert(before.len() < 4);
        lemma_all_filled(front, taken, i);
        let k = choose|k: int| 0 <= k < before.len() && before[k] == front[i].0;
        assert(after[k] == options[i].0);
    }
}

proof fn lemma_not_filled(options: Seq<OptionView>, taken: Seq<GpuEngineId>, id: GpuEngineId)
    requires
        !taken.contains(id),
        forall|i: int| 0 <= i < options.len() ==> (#[trigger] options[i]).0 != id,
    ensures
        !filled_slots(options, taken).contains(id),
    decreases options.len(),
{
    if options.len() > 0 {
        let front = options.drop_last();
        assert forall|i: int| 0 <= i < front.len() implies (#[trigger] front[i]).0 != id by {
            assert(options[i].0 != id);
        }
        lemma_not_filled(front, taken, id);
        crate::seqs::lemma_push_contains(filled_slots(front, taken), options.last().0);
        assert(options[options.len() - 1].0 != id);
    }
}

proof fn lemma_all_filled(options: Seq<OptionView>, taken: Seq<GpuEngineId>, i: int)
    requires
        0 <= i < options.len(),
        filled_slots(options, taken).len() < 4,
    ensures
        filled_slots(options, taken).contains(options[i].0),
    decreases options.len(),
{
    let front = options.drop_last();
    let n = options.len() - 1;
    let before = filled_slots(front, taken);
    let after = filled_slots(options, taken);
    if i < n {
        lemma_all_filled(front, taken, i);
        let k = choose|k: int| 0 <= k < before.len() && before[k] == front[i].0;
        assert(after[k] == options[i].0);
    } else if !before.contains(options[n].0) {
        assert(after[before.len() as int] == options[n].0);
    }
}

/// Every kind has its own name in the language of the user, and the label of an engine ends with
/// its number.
pub proof fn engines_are_labelled_by_kind_and_number(
    ordinal: u32,
    names: EngineNames,
    name: Seq<char>,
)
    ensures
        engine_name(EngineKindView::ThreeD, names) == names.three_d@,
        engine_name(EngineKindView::Copy, names) == names.copy@,
        engine_name(EngineKindView::VideoEncode, names) == names.video_encode@,
        engine_name(EngineKindView::VideoDecode, names) == names.video_decode@,
        engine_name(EngineKindView::Compute, names) == names.compute@,
        engine_name(EngineKindView::Security, names) == names.security@,
        engine_name(EngineKindView::Other(name), names) == name,
        forall|kind: EngineKindView| #[trigger]
            engine_label(kind, ordinal, names)
                == engine_name(kind, names) + seq![' '] + decimal_text(
                ordinal as nat,
            ),
{
    reveal_strlit(" ");
    assert(" "@ =~= seq![' ']);
}

/// The case of letters in the name of a kind does not matter.
pub proof fn kinds_are_named_in_any_case(name: Seq<char>)
    ensures
        lower(name) == "3d"@ <==> kind_named(name) is ThreeD,
        lower(name) == "copy"@ <==> kind_named(name) is Copy,
        lower(name) == "videoencode"@ <==> kind_named(name) is VideoEncode,
        lower(name) == "videodecode"@ <==> kind_named(name) is VideoDecode,
        lower(name) == "compute"@ || lower(name) == "computing"@ <==> kind_named(name) is Compute,
        lower(name) == "security"@ <==> kind_named(name) is Security,
        kind_named(name) is Other ==> kind_named(name) == EngineKindView::Other(name),
{
    reveal_strlit("3d");
    reveal_strlit("copy");
    reveal_strlit("videoencode");
    reveal_strlit("videodecode");
    reveal_strlit("compute");
    reveal_strlit("computing");
    reveal_strlit("security");
    assert("copy"@[0] == 'c' && "compute"@.len() == 7 && "computing"@.len() == 9);
    assert("videoencode"@[5] == 'e' && "videodecode"@[5] == 'd');
    assert("security"@[0] == 's' && "3d"@[0] == '3');
}

/// The halves of an adapter's identifier keep their bits: the lower one is the number itself, the
/// upper one the signed number that is the same up to a multiple of its range.
pub proof fn identifier_keeps_its_bits(high: u32, low: u32)
    ensures
        luid_of(high as int, low as int).low_part == low,
        luid_of(high as int, low as int).high_part >= 0 ==> luid_of(
            high as int,
            low as int,
        ).high_part == high,
        luid_of(high as int, low as int).high_part < 0 ==> luid_of(
            high as int,
            low as int,
        ).high_part + 0x1_0000_0000 == high,
{
}

/// The first adapter with an identifier is the one that is found.
pub proof fn first_adapter_is_found(infos: Seq<Arc<GpuAdapterInfo>>, id: GpuAdapterId)
    ensures
        match info_position(infos, id) {
            Some(at) => 0 <= at < infos.len() && infos[at].id == id && forall|i: int|
                0 <= i < at ==> (#[trigger] infos[i]).id != id,
            None => forall|i: int| 0 <= i < infos.len() ==> (#[trigger] infos[i]).id != id,
        },
    decreases infos.len(),
{
    if infos.len() > 0 {
        let front = infos.drop_last();
        first_adapter_is_found(front, id);
        match info_position(front, id) {
            Some(at) => {
                assert forall|i: int| 0 <= i < at implies (#[trigger] infos[i]).id != id by {
                    assert(front[i].id != id);
                }
            },
            None => {
                assert forall|i: int| 0 <= i < infos.len() - 1 implies (#[trigger] infos[i]).id
                    != id by {
                    assert(front[i].id != id);
                }
            },
        }
    }
}

/// The first sample of an adapter is the one that is shown.
pub proof fn first_sample_is_found(samples: Seq<GpuAdapterSample>, id: GpuAdapterId)
    ensures
        match sample_position(samples, id) {
            Some(at) => 0 <= at < samples.len() && samples[at].info.id == id && forall|i: int|
                0 <= i < at ==> (#[trigger] samples[i]).info.id != id,
            None => forall|i: int| 0 <= i < samples.len() ==> (#[trigger] samples[i]).info.id != id,
        },
    decreases samples.len(),
{
    if samples.len() > 0 {
        let front = samples.drop_last();
        first_sample_is_found(front, id);
        match sample_position(front, id) {
            Some(at) => {
                assert forall|i: int| 0 <= i < at implies (#[trigger] samples[i]).info.id != id by {
                    assert(front[i].info.id != id);
                }
            },
            None => {
                assert forall|i: int| 0 <= i < samples.len() - 1 implies (
                #[trigger] samples[i]).info.id != id by {
                    assert(front[i].info.id != id);
                }
            },
        }
    }
}

/// The first option for an engine is the one that is marked.
pub proof fn first_option_is_found(options: Seq<OptionView>, id: GpuEngineId)
    ensures
        match option_position(options, id) {
            Some(at) => 0 <= at < options.len() && options[at].0 == id && forall|i: int|
                0 <= i < at ==> (#[trigger] options[i]).0 != id,
            None => forall|i: int| 0 <= i < options.len() ==> (#[trigger] options[i]).0 != id,
        },
    decreases options.len(),
{
    if options.len() > 0 {
        let front = options.drop_last();
        first_option_is_found(front, id);
        match option_position(front, id) {
            Some(at) => {
                assert forall|i: int| 0 <= i < at implies (#[trigger] options[i]).0 != id by {
                    assert(front[i].0 != id);
                }
            },
            None => {
                assert forall|i: int| 0 <= i < options.len() - 1 implies (
                #[trigger] options[i]).0 != id by {
                    assert(front[i].0 != id);
                }
            },
        }
    }
}

/// An engine that was chosen for a slot stays in it as long as it is offered; only where it is
/// not does the slot show what it shows unless something is chosen.
pub proof fn choice_stays_while_it_is_offered(
    options: Seq<OptionView>,
    id: GpuEngineId,
    at: int,
    slot: int,
)
    requires
        0 <= slot < 4,
    ensures
        0 <= at < options.len() && options[at].0 == id ==> slot_choice(options, Some(id), slot)
            == Some(id),
        (forall|i: int| 0 <= i < options.len() ==> (#[trigger] options[i]).0 != id) ==> slot_choice(
            options,
            Some(id),
            slot,
        ) == slot_choice(options, None, slot),
        slot < default_engines(options).len() ==> slot_choice(options, None, slot) == Some(
            default_engines(options)[slot],
        ),
        slot >= default_engines(options).len() ==> slot_choice(options, None, slot) is None,
{
}

/// A temperature is shown in degrees with one decimal place.
pub proof fn temperature_is_shown_in_degrees(deci_c: u32)
    ensures
        exists|degrees: nat, tenths: nat|
            temperature_text(deci_c) == #[trigger] degrees_text(degrees, tenths) && tenths < 10
                && degrees * 10 + tenths == deci_c,
{
    let (degrees, tenths) = ((deci_c / 10) as nat, (deci_c % 10) as nat);
    assert(temperature_text(deci_c) =~= degrees_text(degrees, tenths));
}

pub open spec fn degrees_text(degrees: nat, tenths: nat) -> Seq<char> {
    decimal_text(degrees) + "."@ + decimal_text(tenths) + " °C"@
}

/// A percentage is shown as its digits with a percent sign.
pub proof fn percentage_is_shown_whole(percent: u8)
    ensures
        ({
            let text = percent_text(percent);
            &&& text.len() >= 2
            &&& text.last() == '%'
            &&& all_digits(text.drop_last())
            &&& decimal_value(text.drop_last()) == percent
        }),
{
    reveal_strlit("%");
    decimal_text_stands_for_value(percent as nat);
    assert(percent_text(percent).drop_last() =~= decimal_text(percent as nat));
}

/// A total is known only where both amounts are, and is never less than either.
pub proof fn total_is_both_amounts(first: Option<u64>, second: Option<u64>)
    ensures
        sum_of(first, second) matches Some(sum) ==> first is Some && second is Some && sum
            == first->0 + second->0,
        first is Some && second is Some && first->0 + second->0 <= u64::MAX ==> sum_of(
            first,
            second,
        ) is Some,
        sum_of(first, second) == sum_of(second, first),
{
}

/// What is known of usage and limit is shown as it is; what is not known is never shown as an
/// amount.
pub proof fn known_amounts_are_shown(
    usage: Option<String>,
    limit: Option<String>,
    missing: Seq<char>,
    unavailable: Seq<char>,
)
    ensures
        ({
            let shown = usage_of_limit(usage, limit, missing, unavailable);
            let used = match usage {
                Some(usage) => usage@,
                None => missing,
            };
            &&& shown.len() >= used.len() && shown.take(used.len() as int) == used
            &&& usage is None && limit is None ==> shown == missing
            &&& limit matches Some(limit) ==> shown == used + seq![' ', '/', ' '] + limit@
            &&& usage is Some && limit is None ==> shown == used + seq![' ', '/', ' '] + unavailable
        }),
{
    reveal_strlit(" / ");
    assert(" / "@ =~= seq![' ', '/', ' ']);
    let shown = usage_of_limit(usage, limit, missing, unavailable);
    let used = match usage {
        Some(usage) => usage@,
        None => missing,
    };
    assert(shown.take(used.len() as int) =~= used);
}

/// Each field of the driver is shown as it is known; where it is not known, the text says whether
/// it may still come.
pub proof fn driver_fields_are_told_apart(
    metadata: GpuAdapterMetadata,
    value: Option<String>,
    pending: Seq<char>,
    unavailable: Seq<char>,
)
    ensures
        driver_field(Some(&metadata), 0) == metadata.driver.version,
        driver_field(Some(&metadata), 1) == metadata.driver.date,
        driver_field(Some(&metadata), 2) == metadata.directx_feature_level,
        driver_field(Some(&metadata), 3) == metadata.driver.location,
        forall|field: int| #[trigger] driver_field(None, field) is None,
        value matches Some(text) ==> metadata_text(Some(&metadata), value, pending, unavailable)
            == text@ && metadata_text(None, value, pending, unavailable) == text@,
        value is None ==> metadata_text(Some(&metadata), value, pending, unavailable) == unavailable
            && metadata_text(None, value, pending, unavailable) == pending,
{
}

/// The name of a memory instance is read as it is written: the two halves of the identifier and
/// the number of the physical adapter.
pub proof fn memory_names_are_read(high: Seq<char>, low: Seq<char>, physical: u32)
    requires
        is_hex_u32(high),
        is_hex_u32(low),
        !high.contains('_'),
        !low.contains('_'),
    ensures
        memory_instance(
            joined(seq!["luid"@, high, low, "phys"@, decimal_text(physical as nat)], '_'),
        ) == Ok::<GpuAdapterId, GpuSampleError>(
            GpuAdapterId {
                luid: luid_of(hex_value(high.skip(2)) as int, hex_value(low.skip(2)) as int),
                physical_index: physical,
            },
        ),
{
    let number = decimal_text(physical as nat);
    let parts = seq!["luid"@, high, low, "phys"@, number];
    decimal_text_stands_for_value(physical as nat);
    lemma_digits_have_no_separator(number);
    reveal_strlit("luid");
    reveal_strlit("phys");
    assert forall|i: int| 0 <= i < parts.len() implies !(#[trigger] parts[i]).contains('_') by {}
    pieces_of_joined_parts(parts, '_');
}

proof fn lemma_digits_have_no_separator(text: Seq<char>)
    requires
        all_digits(text),
    ensures
        !text.contains('_'),
{
    if text.contains('_') {
        let k = choose|k: int| 0 <= k < text.len() && text[k] == '_';
        assert(crate::text::is_digit(text[k]));
    }
}

/// The name of an engine instance is read as it is written: the process, the two halves of the
/// adapter's identifier, the number of the physical adapter, the number of the engine and its
/// kind.
pub proof fn engine_names_are_read(
    pid: u32,
    high: Seq<char>,
    low: Seq<char>,
    physical: u32,
    ordinal: u32,
    kind: Seq<char>,
)
    requires
        is_hex_u32(high),
        is_hex_u32(low),
        !high.contains('_'),
        !low.contains('_'),
        !kind.contains('_'),
        super::instances::is_type_token(kind),
    ensures
        engine_instance(
            joined(
                seq![
                    "pid"@,
                    decimal_text(pid as nat),
                    "luid"@,
                    high,
                    low,
                    "phys"@,
                    decimal_text(physical as nat),
                    "eng"@,
                    decimal_text(ordinal as nat),
                    "engtype"@,
                    kind,
                ],
                '_',
            ),
        ) == Ok::<super::instances::EngineInstanceView, GpuSampleError>(
            super::instances::EngineInstanceView {
                pid,
                id: GpuEngineId {
                    adapter: GpuAdapterId {
                        luid: luid_of(
                            hex_value(high.skip(2)) as int,
                            hex_value(low.skip(2)) as int,
                        ),
                        physical_index: physical,
                    },
                    ordinal,
                },
                kind: kind_named(kind),
            },
        ),
{
    let parts = seq![
        "pid"@,
        decimal_text(pid as nat),
        "luid"@,
        high,
        low,
        "phys"@,
        decimal_text(physical as nat),
        "eng"@,
        decimal_text(ordinal as nat),
        "engtype"@,
        kind,
    ];
    decimal_text_stands_for_value(pid as nat);
    decimal_text_stands_for_value(physical as nat);
    decimal_text_stands_for_value(ordinal as nat);
    lemma_digits_have_no_separator(decimal_text(pid as nat));
    lemma_digits_have_no_separator(decimal_text(physical as nat));
    lemma_digits_have_no_separator(decimal_text(ordinal as nat));
    reveal_strlit("pid");
    reveal_strlit("luid");
    reveal_strlit("phys");
    reveal_strlit("eng");
    reveal_strlit("engtype");
    assert forall|i: int| 0 <= i < parts.len() implies !(#[trigger] parts[i]).contains('_') by {}
    pieces_of_joined_parts(parts, '_');
    assert(parts.skip(10) =~= seq![kind]);
    assert(joined(parts.skip(10), '_') == kind);
}

/// What is shown of an adapter is what is known of the one that is selected, and the sample of it.
pub proof fn selected_adapter_is_shown(
    page: GpuPageState,
    selected: GpuAdapterId,
    info: Arc<GpuAdapterInfo>,
    sample: GpuAdapterSample,
)
    requires
        page.selected_adapter == Some(selected),
    ensures
        call_ensures(GpuPageState::selected_info, (&page,), Some(&info)) ==> info.id == selected
            && page.inventory->0.adapters@.contains(info),
        call_ensures(GpuPageState::selected_sample, (&page,), Some(&sample)) ==> sample.info.id
            == selected && page.dynamic_snapshot->0.adapters@.contains(sample),
        page.inventory is Some && page.inventory->0.adapters@.contains(info) && info.id == selected
            ==> !call_ensures(
            GpuPageState::selected_info,
            (&page,),
            None::<&Arc<GpuAdapterInfo>>,
        ),
{
    if page.inventory is Some {
        first_adapter_is_found(page.inventory->0.adapters@, selected);
    }
    if page.dynamic_snapshot is Some {
        first_sample_is_found(page.dynamic_snapshot->0.adapters@, selected);
    }
}

/// Without values there is no newest one, which counts as zero.
pub proof fn empty_histories_count_as_zero(values: Seq<u8>)
    ensures
        values.len() == 0 ==> newest(values) == 0,
        values.len() > 0 ==> newest(values) == values[0],
{
}

/// A name stands for the memory of an adapter only if it has all five parts, and the numbers among
/// them are numbers.
pub proof fn other_names_are_refused(name: Seq<char>)
    ensures
        memory_instance(name) is Ok ==> {
            let parts = pieces(name, '_');
            &&& parts.len() == 5
            &&& lower(parts[0]) == lower("luid"@) && lower(parts[3]) == lower("phys"@)
            &&& is_hex_u32(parts[1]) && is_hex_u32(parts[2]) && is_decimal_u32(parts[4])
        },
        engine_instance(name) is Ok ==> {
            let parts = pieces(name, '_');
            &&& parts.len() >= 11
            &&& lower(parts[0]) == lower("pid"@) && lower(parts[2]) == lower("luid"@)
                && lower(parts[5])
                == lower("phys"@) && lower(parts[7]) == lower("eng"@) && lower(
                parts[9],
            ) == lower("engtype"@)
            &&& is_decimal_u32(parts[1]) && is_hex_u32(parts[3]) && is_hex_u32(parts[4])
                && is_decimal_u32(parts[6]) && is_decimal_u32(parts[8])
        },
{
}

} // verus!
