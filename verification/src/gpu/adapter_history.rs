//! The histories of one adapter: of each of its engines, and of its memory.
use vstd::prelude::*;

use super::counters::{engine_sample_views, kind_views};
use super::engines::{engine_options, lists_options, option_views};
use super::layout::ENGINE_SLOT_COUNT;
use super::model::{
    EngineKindView, EngineSampleView, GpuAdapterId, GpuAdapterSample, GpuEngineId, GpuEngineKind,
    GpuEngineSample,
};
use crate::history::{pushed, HistoryBuffer};
use crate::perf_drawing::{ChartColor, HIST_SIZE};
use crate::table::Table;

verus! {

pub const GRAPH_COUNT: usize = 6;

pub const MEMORY_DEDICATED_GRAPH_INDEX: usize = 4;

pub const MEMORY_SHARED_GRAPH_INDEX: usize = 5;

/// A share of a limit in percent, rounded and at most a hundred; zero without a limit.
pub open spec fn share_of(usage: u64, limit: Option<u64>) -> int {
    match limit {
        None => 0,
        Some(limit) => if limit == 0 {
            0
        } else {
            let rounded = (usage * 100 + limit as int / 2) / limit as int;
            if rounded < 100 {
                rounded
            } else {
                100
            }
        },
    }
}

pub fn memory_percentage(usage: u64, limit: Option<u64>) -> (percent: u8)
    ensures
        percent == share_of(usage, limit),
        percent <= 100,
{
    match limit {
        None => 0,
        Some(limit) => {
            if limit == 0 {
                return 0;
            }
            let rounded: u128 = (usage as u128 * 100 + limit as u128 / 2) / limit as u128;
            proof {
                let total = usage * 100 + limit as int / 2;
                assert(total / limit as int >= 0) by (nonlinear_arith)
                    requires
                        total >= 0,
                        limit > 0,
                ;
            }
            if rounded < 100 {
                rounded as u8
            } else {
                100
            }
        },
    }
}

pub open spec fn no_history() -> Seq<u8> {
    Seq::new(HIST_SIZE as nat, |i: int| 0u8)
}

/// How much an engine was used: what the last sample of it says.
pub open spec fn last_usage(engines: Seq<EngineSampleView>, id: GpuEngineId) -> Option<u8>
    decreases engines.len(),
{
    if engines.len() == 0 {
        None
    } else if engines.last().id == id {
        Some(engines.last().utilization_percent)
    } else {
        last_usage(engines.drop_last(), id)
    }
}

pub open spec fn usage_or_zero(engines: Seq<EngineSampleView>, id: GpuEngineId) -> u8 {
    match last_usage(engines, id) {
        Some(usage) => usage,
        None => 0,
    }
}

/// The histories after each of them got the value of its engine; one without a sample gets a
/// zero.
pub open spec fn all_pushed(
    histories: Map<GpuEngineId, Seq<u8>>,
    engines: Seq<EngineSampleView>,
) -> Map<GpuEngineId, Seq<u8>> {
    Map::new(
        |id: GpuEngineId| histories.contains_key(id),
        |id: GpuEngineId| pushed(histories[id], usage_or_zero(engines, id)),
    )
}

/// The histories with one for each engine that had none.
pub open spec fn with_new_engines(
    histories: Map<GpuEngineId, Seq<u8>>,
    engines: Seq<EngineSampleView>,
) -> Map<GpuEngineId, Seq<u8>>
    decreases engines.len(),
{
    if engines.len() == 0 {
        histories
    } else {
        let earlier = with_new_engines(histories, engines.drop_last());
        let engine = engines.last();
        if earlier.contains_key(engine.id) {
            earlier
        } else {
            earlier.insert(engine.id, pushed(no_history(), engine.utilization_percent))
        }
    }
}

/// The kinds after some engines were seen. The latest kind of an engine counts.
pub open spec fn with_latest_kinds(
    kinds: Map<GpuEngineId, EngineKindView>,
    engines: Seq<EngineSampleView>,
) -> Map<GpuEngineId, EngineKindView>
    decreases engines.len(),
{
    if engines.len() == 0 {
        kinds
    } else {
        with_latest_kinds(kinds, engines.drop_last()).insert(
            engines.last().id,
            engines.last().kind,
        )
    }
}

pub struct AdapterHistory {
    pub engine_histories: Table<GpuEngineId, HistoryBuffer>,
    pub engine_kinds: Table<GpuEngineId, GpuEngineKind>,
    pub dedicated_history: HistoryBuffer,
    pub shared_history: HistoryBuffer,
}

pub struct AdapterHistoryView {
    pub engines: Map<GpuEngineId, Seq<u8>>,
    pub kinds: Map<GpuEngineId, EngineKindView>,
    pub dedicated: Seq<u8>,
    pub shared: Seq<u8>,
}

pub open spec fn history_views(histories: Map<GpuEngineId, HistoryBuffer>) -> Map<
    GpuEngineId,
    Seq<u8>,
> {
    histories.map_values(|history: HistoryBuffer| history@)
}

impl View for AdapterHistory {
    type V = AdapterHistoryView;

    open spec fn view(&self) -> AdapterHistoryView {
        AdapterHistoryView {
            engines: history_views(self.engine_histories@),
            kinds: kind_views(self.engine_kinds@),
            dedicated: self.dedicated_history@,
            shared: self.shared_history@,
        }
    }
}

/// The histories of an adapter that was not sampled yet.
pub open spec fn fresh_history() -> AdapterHistoryView {
    AdapterHistoryView {
        engines: Map::empty(),
        kinds: Map::empty(),
        dedicated: no_history(),
        shared: no_history(),
    }
}

/// The histories of an adapter after one more sample.
pub open spec fn with_sample(history: AdapterHistoryView, sample: GpuAdapterSample) -> AdapterHistoryView {
    let engines = engine_sample_views(sample.engines@);
    AdapterHistoryView {
        engines: with_new_engines(all_pushed(history.engines, engines), engines),
        kinds: with_latest_kinds(history.kinds, engines),
        dedicated: pushed(
            history.dedicated,
            share_of(sample.dedicated_usage_bytes, sample.info.dedicated_limit_bytes) as u8,
        ),
        shared: pushed(
            history.shared,
            share_of(sample.shared_usage_bytes, sample.info.shared_limit_bytes) as u8,
        ),
    }
}

/// How much an engine was used.
pub(crate) fn find_usage(engines: &Vec<GpuEngineSample>, id: GpuEngineId) -> (usage: u8)
    ensures
        usage == usage_or_zero(engine_sample_views(engines@), id),
{
    let ghost all = engine_sample_views(engines@);
    let count: usize = engines.len();
    let mut end: usize = count;
    assert(all.take(count as int) =~= all);
    while end > 0
        invariant
            end <= count,
            count == engines@.len(),
            all == engine_sample_views(engines@),
            last_usage(all, id) == last_usage(all.take(end as int), id),
        decreases end,
    {
        assert(all.take(end as int).drop_last() =~= all.take(end - 1));
        assert(all.take(end as int).last() == engines@[end - 1]@);
        if engines[end - 1].id == id {
            return engines[end - 1].utilization_percent;
        }
        end = end - 1;
    }
    0
}

impl AdapterHistory {
    pub open spec fn well_formed(&self) -> bool {
        self.engine_histories.well_formed() && self.engine_kinds.well_formed()
    }

    pub fn new() -> (history: Self)
        ensures
            history.well_formed(),
            history@ == fresh_history(),
    {
        let history = AdapterHistory {
            engine_histories: Table::new(),
            engine_kinds: Table::new(),
            dedicated_history: HistoryBuffer::zeroed(HIST_SIZE),
            shared_history: HistoryBuffer::zeroed(HIST_SIZE),
        };
        proof {
            assert(history@.engines =~= Map::<GpuEngineId, Seq<u8>>::empty());
            assert(history@.kinds =~= Map::<GpuEngineId, EngineKindView>::empty());
        }
        history
    }

    /// Gives every engine that has a history its next value.
    fn push_known(&mut self, engines: &Vec<GpuEngineSample>)
        requires
            old(self).well_formed(),
        ensures
            final(self).well_formed(),
            final(self)@ == (AdapterHistoryView {
                engines: all_pushed(old(self)@.engines, engine_sample_views(engines@)),
                ..old(self)@
            }),
    {
        let ghost given = self.engine_histories.entries();
        let ghost known = self.engine_histories@;
        let ghost all = engine_sample_views(engines@);
        proof {
            self.engine_histories.lemma_entries();
        }
        let mut next: Table<GpuEngineId, HistoryBuffer> = Table::new();
        let count: usize = self.engine_histories.len();
        for index in 0..count
            invariant
                self.engine_histories.well_formed(),
                given == self.engine_histories.entries(),
                known == self.engine_histories@,
                all == engine_sample_views(engines@),
                count == given.len(),
                next.well_formed(),
                forall|k: int| 0 <= k < index ==> next@.contains_key((#[trigger] given[k]).0),
                forall|id: GpuEngineId| #[trigger]
                    next@.contains_key(id) ==> known.contains_key(id) && next@[id]@ == pushed(
                        known[id]@,
                        usage_or_zero(all, id),
                    ),
        {
            let entry = self.engine_histories.entry(index);
            let id = entry.0;
            let mut history = entry.1.copied();
            history.push(find_usage(engines, id));
            proof {
                self.engine_histories.lemma_entries();
                assert(given[index as int].0 == id);
            }
            next.insert(id, history);
        }
        proof {
            self.engine_histories.lemma_entries();
            assert forall|id: GpuEngineId| known.contains_key(id) implies next@.contains_key(id) by {
                let k = choose|k: int| 0 <= k < given.len() && #[trigger] given[k].0 == id;
                assert(next@.contains_key(given[k].0));
            }
            assert(history_views(next@) =~= all_pushed(history_views(known), all));
        }
        self.engine_histories = next;
    }

    /// Starts a history for every engine that has none.
    fn add_new(&mut self, engines: &Vec<GpuEngineSample>)
        requires
            old(self).well_formed(),
        ensures
            final(self).well_formed(),
            final(self)@ == (AdapterHistoryView {
                engines: with_new_engines(old(self)@.engines, engine_sample_views(engines@)),
                kinds: with_latest_kinds(old(self)@.kinds, engine_sample_views(engines@)),
                ..old(self)@
            }),
    {
        let ghost all = engine_sample_views(engines@);
        assert(all.take(0) =~= Seq::<EngineSampleView>::empty());
        for index in 0..engines.len()
            invariant
                all == engine_sample_views(engines@),
                self.well_formed(),
                self.dedicated_history == old(self).dedicated_history,
                self.shared_history == old(self).shared_history,
                self@.engines == with_new_engines(old(self)@.engines, all.take(index as int)),
                self@.kinds == with_latest_kinds(old(self)@.kinds, all.take(index as int)),
        {
            let engine = &engines[index];
            let ghost before = self@;
            proof {
                assert(all.take(index + 1).drop_last() =~= all.take(index as int));
                assert(all.take(index + 1).last() == engine@);
            }
            let kind = engine.kind.copied();
            self.engine_kinds.insert(engine.id, kind);
            assert(self@.kinds =~= before.kinds.insert(engine.id, engine.kind@));
            if !self.engine_histories.contains_key(&engine.id) {
                let mut history = HistoryBuffer::zeroed(HIST_SIZE);
                history.push(engine.utilization_percent);
                self.engine_histories.insert(engine.id, history);
                assert(self@.engines =~= before.engines.insert(engine.id, history@));
            }
        }
        assert(all.take(all.len() as int) =~= all);
    }

    pub fn push(&mut self, sample: &GpuAdapterSample)
        requires
            old(self).well_formed(),
        ensures
            final(self).well_formed(),
            final(self)@ == with_sample(old(self)@, *sample),
    {
        self.push_known(&sample.engines);
        self.add_new(&sample.engines);
        self.dedicated_history.push(
            memory_percentage(sample.dedicated_usage_bytes, sample.info.dedicated_limit_bytes),
        );
        self.shared_history.push(
            memory_percentage(sample.shared_usage_bytes, sample.info.shared_limit_bytes),
        );
    }

    /// The engines of the adapter, in the order in which they are offered.
    pub fn engine_options(&self) -> (options: Vec<(GpuEngineId, GpuEngineKind)>)
        requires
            self.well_formed(),
        ensures
            lists_options(option_views(options@), self@.kinds),
    {
        engine_options(&self.engine_kinds)
    }
}

proof fn lemma_new_engines(
    histories: Map<GpuEngineId, Seq<u8>>,
    engines: Seq<EngineSampleView>,
    id: GpuEngineId,
)
    ensures
        histories.contains_key(id) ==> with_new_engines(histories, engines).contains_key(id)
            && with_new_engines(histories, engines)[id] == histories[id],
        with_new_engines(histories, engines).contains_key(id) <==> histories.contains_key(id)
            || last_usage(engines, id) is Some,
        !histories.contains_key(id) && last_usage(engines, id) is Some
            ==> with_new_engines(histories, engines)[id].len() == HIST_SIZE,
    decreases engines.len(),
{
    if engines.len() > 0 {
        lemma_new_engines(histories, engines.drop_last(), id);
    }
}

/// A sample moves every history of an adapter on by one value: that of an engine in the sample
/// gets its usage, that of an engine that is missing from it gets a zero, and none is lost.
pub proof fn sample_moves_every_history(
    history: AdapterHistoryView,
    sample: GpuAdapterSample,
    id: GpuEngineId,
)
    ensures
        ({
            let engines = engine_sample_views(sample.engines@);
            let after = with_sample(history, sample);
            &&& history.engines.contains_key(id) ==> after.engines.contains_key(id)
                && after.engines[id] == pushed(history.engines[id], usage_or_zero(engines, id))
            &&& after.engines.contains_key(id) <==> history.engines.contains_key(id) || last_usage(
                engines,
                id,
            ) is Some
            &&& after.dedicated.len() == history.dedicated.len()
            &&& after.shared.len() == history.shared.len()
        }),
{
    let engines = engine_sample_views(sample.engines@);
    lemma_new_engines(all_pushed(history.engines, engines), engines, id);
}

/// The history that a graph shows, if there is one, and its color. A graph of an engine shows the
/// one that is chosen for its slot.
pub open spec fn shown_history(
    selected_adapter: Option<GpuAdapterId>,
    histories: Map<GpuAdapterId, AdapterHistory>,
    engine_selections: Map<GpuAdapterId, [Option<GpuEngineId>; 4]>,
    graph_index: int,
) -> (Option<Seq<u8>>, ChartColor) {
    match selected_adapter {
        None => (None, ChartColor::Green),
        Some(adapter) => if !histories.contains_key(adapter) {
            (None, ChartColor::Green)
        } else if graph_index < ENGINE_SLOT_COUNT {
            let engines = histories[adapter]@.engines;
            let selected = if engine_selections.contains_key(adapter) {
                engine_selections[adapter]@[graph_index]
            } else {
                None
            };
            match selected {
                Some(id) if engines.contains_key(id) => (Some(engines[id]), ChartColor::Green),
                _ => (None, ChartColor::Green),
            }
        } else if graph_index == MEMORY_DEDICATED_GRAPH_INDEX {
            (Some(histories[adapter]@.dedicated), ChartColor::Yellow)
        } else if graph_index == MEMORY_SHARED_GRAPH_INDEX {
            (Some(histories[adapter]@.shared), ChartColor::Yellow)
        } else {
            (None, ChartColor::Green)
        },
    }
}

pub fn history_for_graph<'a>(
    selected_adapter: Option<GpuAdapterId>,
    histories: &'a Table<GpuAdapterId, AdapterHistory>,
    engine_selections: &Table<GpuAdapterId, [Option<GpuEngineId>; 4]>,
    graph_index: usize,
) -> (shown: (Option<&'a HistoryBuffer>, ChartColor))
    requires
        histories.well_formed(),
        engine_selections.well_formed(),
        forall|id: GpuAdapterId| #[trigger]
            histories@.contains_key(id) ==> histories@[id].well_formed(),
    ensures
        ({
            let (history, color) = shown_history(
                selected_adapter,
                histories@,
                engine_selections@,
                graph_index as int,
            );
            &&& shown.1 == color
            &&& match history {
                Some(values) => shown.0 matches Some(found) && found@ == values,
                None => shown.0 is None,
            }
        }),
{
    let adapter = match selected_adapter {
        Some(adapter) => adapter,
        None => return (None, ChartColor::Green),
    };
    let history = match histories.get(&adapter) {
        Some(history) => history,
        None => return (None, ChartColor::Green),
    };
    if graph_index < ENGINE_SLOT_COUNT {
        let selected: Option<GpuEngineId> = match engine_selections.get(&adapter) {
            Some(selections) => selections[graph_index],
            None => None,
        };
        let shown = match selected {
            Some(id) => history.engine_histories.get(&id),
            None => None,
        };
        (shown, ChartColor::Green)
    } else if graph_index == MEMORY_DEDICATED_GRAPH_INDEX {
        (Some(&history.dedicated_history), ChartColor::Yellow)
    } else if graph_index == MEMORY_SHARED_GRAPH_INDEX {
        (Some(&history.shared_history), ChartColor::Yellow)
    } else {
        (None, ChartColor::Green)
    }
}

} // verus!
