//! What is chosen on the page: an adapter, and an engine for each graph.
use std::sync::Arc;

use vstd::prelude::*;

use super::engines::{
    default_engine_slots, default_engines, engine_label, format_engine_label, is_offered,
    lists_options, option_views, EngineNames, OptionView,
};
use super::layout::ENGINE_SLOT_COUNT;
use super::model::{
    GpuAdapterId, GpuAdapterInfo, GpuAdapterSample, GpuEngineId, GpuEngineKind,
};
use super::page::GpuPageState;
use crate::resource::{IDC_GPU_ENGINE_SELECTOR_FIRST, IDC_GPU_SELECTOR};
use crate::text::{append_chars, append_text, chars_of, copy_of, decimal_chars, decimal_text, string_of};

verus! {

/// The message of a choice that changed.
pub const CBN_SELCHANGE: u32 = 1;

pub open spec fn info_position(infos: Seq<Arc<GpuAdapterInfo>>, id: GpuAdapterId) -> Option<int>
    decreases infos.len(),
{
    if infos.len() == 0 {
        None
    } else {
        match info_position(infos.drop_last(), id) {
            Some(position) => Some(position),
            None => if infos.last().id == id {
                Some(infos.len() - 1)
            } else {
                None
            },
        }
    }
}

pub open spec fn sample_position(samples: Seq<GpuAdapterSample>, id: GpuAdapterId) -> Option<int>
    decreases samples.len(),
{
    if samples.len() == 0 {
        None
    } else {
        match sample_position(samples.drop_last(), id) {
            Some(position) => Some(position),
            None => if samples.last().info.id == id {
                Some(samples.len() - 1)
            } else {
                None
            },
        }
    }
}

proof fn lemma_info_position(infos: Seq<Arc<GpuAdapterInfo>>, id: GpuAdapterId, n: int)
    requires
        0 <= n <= infos.len(),
    ensures
        info_position(infos.take(n), id) is Some ==> info_position(infos, id) == info_position(
            infos.take(n),
            id,
        ),
    decreases infos.len(),
{
    if n == infos.len() {
        assert(infos.take(n) =~= infos);
    } else {
        assert(infos.drop_last().take(n) =~= infos.take(n));
        lemma_info_position(infos.drop_last(), id, n);
    }
}

proof fn lemma_sample_position(samples: Seq<GpuAdapterSample>, id: GpuAdapterId, n: int)
    requires
        0 <= n <= samples.len(),
    ensures
        sample_position(samples.take(n), id) is Some ==> sample_position(samples, id)
            == sample_position(samples.take(n), id),
    decreases samples.len(),
{
    if n == samples.len() {
        assert(samples.take(n) =~= samples);
    } else {
        assert(samples.drop_last().take(n) =~= samples.take(n));
        lemma_sample_position(samples.drop_last(), id, n);
    }
}

fn find_info(infos: &Vec<Arc<GpuAdapterInfo>>, id: GpuAdapterId) -> (position: Option<usize>)
    ensures
        match position {
            Some(position) => info_position(infos@, id) == Some(position as int) && position
                < infos@.len(),
            None => info_position(infos@, id) is None,
        },
{
    assert(infos@.take(0) =~= Seq::<Arc<GpuAdapterInfo>>::empty());
    for index in 0..infos.len()
        invariant
            info_position(infos@.take(index as int), id) is None,
    {
        assert(infos@.take(index + 1).drop_last() =~= infos@.take(index as int));
        if infos[index].id == id {
            proof {
                lemma_info_position(infos@, id, index + 1);
            }
            return Some(index);
        }
    }
    assert(infos@.take(infos@.len() as int) =~= infos@);
    None
}

fn find_sample(samples: &Vec<GpuAdapterSample>, id: GpuAdapterId) -> (position: Option<usize>)
    ensures
        match position {
            Some(position) => sample_position(samples@, id) == Some(position as int) && position
                < samples@.len(),
            None => sample_position(samples@, id) is None,
        },
{
    assert(samples@.take(0) =~= Seq::<GpuAdapterSample>::empty());
    for index in 0..samples.len()
        invariant
            sample_position(samples@.take(index as int), id) is None,
    {
        assert(samples@.take(index + 1).drop_last() =~= samples@.take(index as int));
        if samples[index].info.id == id {
            proof {
                lemma_sample_position(samples@, id, index + 1);
            }
            return Some(index);
        }
    }
    assert(samples@.take(samples@.len() as int) =~= samples@);
    None
}

/// The position of an engine among the options.
pub open spec fn option_position(options: Seq<OptionView>, id: GpuEngineId) -> Option<int>
    decreases options.len(),
{
    if options.len() == 0 {
        None
    } else {
        match option_position(options.drop_last(), id) {
            Some(position) => Some(position),
            None => if options.last().0 == id {
                Some(options.len() - 1)
            } else {
                None
            },
        }
    }
}

proof fn lemma_option_position(options: Seq<OptionView>, id: GpuEngineId, n: int)
    requires
        0 <= n <= options.len(),
    ensures
        option_position(options.take(n), id) is Some ==> option_position(options, id)
            == option_position(options.take(n), id),
    decreases options.len(),
{
    if n == options.len() {
        assert(options.take(n) =~= options);
    } else {
        assert(options.drop_last().take(n) =~= options.take(n));
        lemma_option_position(options.drop_last(), id, n);
    }
}

proof fn lemma_option_is_offered(options: Seq<OptionView>, id: GpuEngineId)
    ensures
        option_position(options, id) is Some <==> is_offered(options, id),
        option_position(options, id) matches Some(position) ==> 0 <= position < options.len()
            && options[position].0 == id,
    decreases options.len(),
{
    if options.len() > 0 {
        let front = options.drop_last();
        lemma_option_is_offered(front, id);
        if is_offered(front, id) {
            let i = choose|i: int| 0 <= i < front.len() && (#[trigger] front[i]).0 == id;
            assert(options[i].0 == id);
        }
        if is_offered(options, id) {
            let i = choose|i: int| 0 <= i < options.len() && (#[trigger] options[i]).0 == id;
            if i < front.len() {
                assert(front[i].0 == id);
            }
        }
        if options.last().0 == id {
            assert(options[options.len() - 1].0 == id);
        }
    }
}

fn find_option(options: &Vec<(GpuEngineId, GpuEngineKind)>, id: GpuEngineId) -> (position: Option<
    usize,
>)
    ensures
        match position {
            Some(position) => option_position(option_views(options@), id) == Some(position as int)
                && position < options@.len(),
            None => option_position(option_views(options@), id) is None,
        },
        position is Some <==> is_offered(option_views(options@), id),
{
    let ghost all = option_views(options@);
    proof {
        lemma_option_is_offered(all, id);
        assert(all.take(0) =~= Seq::<OptionView>::empty());
    }
    for index in 0..options.len()
        invariant
            all == option_views(options@),
            option_position(all, id) is Some <==> is_offered(all, id),
            option_position(all.take(index as int), id) is None,
    {
        assert(all.take(index + 1).drop_last() =~= all.take(index as int));
        assert(all.take(index + 1).last() == all[index as int]);
        assert(all[index as int].0 == options@[index as int].0);
        if options[index].0 == id {
            proof {
                lemma_option_position(all, id, index + 1);
            }
            return Some(index);
        }
    }
    assert(all.take(all.len() as int) =~= all);
    None
}

fn same_options(
    first: &Vec<(GpuEngineId, GpuEngineKind)>,
    second: &Vec<(GpuEngineId, GpuEngineKind)>,
) -> (same: bool)
    ensures
        same == (option_views(first@) == option_views(second@)),
{
    if first.len() != second.len() {
        assert(option_views(first@).len() != option_views(second@).len());
        return false;
    }
    for index in 0..first.len()
        invariant
            first@.len() == second@.len(),
            forall|i: int|
                0 <= i < index ==> #[trigger] option_views(first@)[i] == option_views(second@)[i],
    {
        if first[index].0 != second[index].0 || !first[index].1.same_as(&second[index].1) {
            assert(option_views(first@)[index as int] != option_views(second@)[index as int]);
            return false;
        }
    }
    assert(option_views(first@) =~= option_views(second@));
    true
}

/// What the choice of engines needs after something changed.
#[derive(Clone, Copy, Debug, PartialEq, Eq, Structural)]
pub enum SelectionSync {
    /// There is no adapter: everything is empty.
    NoAdapter,
    /// There is no sample of the adapter: no engine can be chosen.
    NoSample,
    /// Other engines can be chosen than before.
    Rebuilt,
    /// The same engines can be chosen as before.
    Kept,
}

/// What is shown in a slot: what was chosen as long as it is offered, else what is shown unless
/// something else is chosen.
pub open spec fn slot_choice(
    options: Seq<OptionView>,
    chosen: Option<GpuEngineId>,
    slot: int,
) -> Option<GpuEngineId> {
    match chosen {
        Some(id) if is_offered(options, id) => Some(id),
        _ => default_slot(options, slot),
    }
}

pub open spec fn default_slot(options: Seq<OptionView>, slot: int) -> Option<GpuEngineId> {
    if slot < default_engines(options).len() {
        Some(default_engines(options)[slot])
    } else {
        None
    }
}

pub open spec fn chosen_engine(
    selections: Map<GpuAdapterId, [Option<GpuEngineId>; 4]>,
    adapter: GpuAdapterId,
    slot: int,
) -> Option<GpuEngineId> {
    if selections.contains_key(adapter) {
        selections[adapter]@[slot]
    } else {
        None
    }
}

/// What a command on the page was.
#[derive(Clone, Copy, Debug, PartialEq, Eq, Structural)]
pub enum GpuCommand {
    /// It is not for the page.
    Foreign,
    /// It changes nothing.
    Unchanged,
    /// Another adapter was chosen.
    Adapter,
    /// Another engine was chosen.
    Engine,
}

impl GpuPageState {
    /// The adapter that is shown.
    pub open spec fn shown_info(&self) -> Option<Arc<GpuAdapterInfo>> {
        match (self.selected_adapter, self.inventory) {
            (Some(selected), Some(inventory)) => match info_position(
                inventory.adapters@,
                selected,
            ) {
                Some(position) => Some(inventory.adapters@[position]),
                None => None,
            },
            _ => None,
        }
    }

    /// The sample that is shown.
    pub open spec fn shown_sample(&self) -> Option<GpuAdapterSample> {
        match (self.selected_adapter, self.dynamic_snapshot) {
            (Some(selected), Some(snapshot)) => match sample_position(
                snapshot.adapters@,
                selected,
            ) {
                Some(position) => Some(snapshot.adapters@[position]),
                None => None,
            },
            _ => None,
        }
    }

    pub fn selected_info(&self) -> (info: Option<&Arc<GpuAdapterInfo>>)
        ensures
            match self.shown_info() {
                Some(shown) => info matches Some(found) && *found == shown,
                None => info is None,
            },
    {
        let selected = match self.selected_adapter {
            Some(selected) => selected,
            None => return None,
        };
        match &self.inventory {
            None => None,
            Some(inventory) => match find_info(&inventory.adapters, selected) {
                Some(position) => Some(&inventory.adapters[position]),
                None => None,
            },
        }
    }

    pub fn selected_sample(&self) -> (sample: Option<&GpuAdapterSample>)
        ensures
            match self.shown_sample() {
                Some(shown) => sample matches Some(found) && *found == shown,
                None => sample is None,
            },
    {
        let selected = match self.selected_adapter {
            Some(selected) => selected,
            None => return None,
        };
        match &self.dynamic_snapshot {
            None => None,
            Some(snapshot) => match find_sample(&snapshot.adapters, selected) {
                Some(position) => Some(&snapshot.adapters[position]),
                None => None,
            },
        }
    }

    /// Gives every slot of an adapter an engine that is offered, where there is one left.
    fn ensure_engine_selections(&mut self, adapter: GpuAdapterId)
        requires
            old(self).well_formed(),
        ensures
            final(self).well_formed(),
            *final(self) == (GpuPageState {
                engine_selections: final(self).engine_selections,
                ..*old(self)
            }),
            ({
                let options = option_views(old(self).current_engine_options@);
                let before = old(self).engine_selections@;
                let after = final(self).engine_selections@;
                &&& after.dom() == before.dom().insert(adapter)
                &&& forall|id: GpuAdapterId| #[trigger]
                    before.contains_key(id) && id != adapter ==> after[id] == before[id]
                &&& forall|slot: int|
                    0 <= slot < ENGINE_SLOT_COUNT ==> #[trigger] after[adapter]@[slot]
                        == slot_choice(options, chosen_engine(before, adapter, slot), slot)
            }),
    {
        let ghost options = option_views(self.current_engine_options@);
        let ghost before = self.engine_selections@;
        let defaults = default_engine_slots(self.current_engine_options.as_slice());
        let mut selections: [Option<GpuEngineId>; 4] = match self.engine_selections.get(&adapter) {
            Some(selections) => *selections,
            None => [None, None, None, None],
        };
        let ghost given = selections@;
        for slot in 0..ENGINE_SLOT_COUNT
            invariant
                options == option_views(self.current_engine_options@),
                *self == *old(self),
                given.len() == 4,
                forall|i: int|
                    0 <= i < ENGINE_SLOT_COUNT ==> #[trigger] defaults@[i] == default_slot(
                        options,
                        i,
                    ),
                forall|i: int|
                    0 <= i < slot ==> #[trigger] selections@[i] == slot_choice(
                        options,
                        given[i],
                        i,
                    ),
                forall|i: int|
                    slot <= i < ENGINE_SLOT_COUNT ==> #[trigger] selections@[i] == given[i],
        {
            let offered = match selections[slot] {
                Some(id) => find_option(&self.current_engine_options, id).is_some(),
                None => false,
            };
            if !offered {
                let fallback = defaults[slot];
                selections[slot] = fallback;
            }
        }
        self.engine_selections.insert(adapter, selections);
        proof {
            assert(self.engine_selections@.dom() =~= before.dom().insert(adapter));
            assert forall|slot: int| 0 <= slot < ENGINE_SLOT_COUNT implies
                #[trigger] self.engine_selections@[adapter]@[slot] == slot_choice(
                options,
                chosen_engine(before, adapter, slot),
                slot,
            ) by {
                assert(given[slot] == chosen_engine(before, adapter, slot));
                assert(selections@[slot] == slot_choice(options, given[slot], slot));
            }
        }
    }

    /// Whether the engines of an adapter are the ones that can be chosen.
    pub open spec fn offers_engines_of(&self, adapter: GpuAdapterId) -> bool {
        if self.histories@.contains_key(adapter) {
            lists_options(
                option_views(self.current_engine_options@),
                self.histories@[adapter]@.kinds,
            )
        } else {
            self.current_engine_options@.len() == 0
        }
    }

    /// Brings the choice of engines in line with the adapter that is shown.
    pub fn sync_selected_adapter(&mut self) -> (sync: SelectionSync)
        requires
            old(self).well_formed(),
        ensures
            final(self).well_formed(),
            *final(self) == (GpuPageState {
                current_engine_options: final(self).current_engine_options,
                engine_selections: final(self).engine_selections,
                ..*old(self)
            }),
            match old(self).shown_info() {
                None => sync == SelectionSync::NoAdapter
                    && final(self).current_engine_options@.len() == 0
                    && final(self).engine_selections == old(self).engine_selections,
                Some(info) => if old(self).shown_sample() is None {
                    sync == SelectionSync::NoSample && final(self).current_engine_options@.len()
                        == 0 && final(self).engine_selections == old(self).engine_selections
                } else {
                    let options = option_views(final(self).current_engine_options@);
                    let before = old(self).engine_selections@;
                    let after = final(self).engine_selections@;
                    &&& final(self).offers_engines_of(info.id)
                    &&& sync == if options == option_views(old(self).current_engine_options@) {
                        SelectionSync::Kept
                    } else {
                        SelectionSync::Rebuilt
                    }
                    &&& after.dom() == before.dom().insert(info.id)
                    &&& forall|id: GpuAdapterId| #[trigger]
                        before.contains_key(id) && id != info.id ==> after[id] == before[id]
                    &&& forall|slot: int|
                        0 <= slot < ENGINE_SLOT_COUNT ==> #[trigger] after[info.id]@[slot]
                            == slot_choice(options, chosen_engine(before, info.id, slot), slot)
                },
            },
    {
        let id = match self.selected_info() {
            Some(info) => info.id,
            None => {
                self.current_engine_options = Vec::new();
                return SelectionSync::NoAdapter;
            },
        };
        if self.selected_sample().is_none() {
            self.current_engine_options = Vec::new();
            return SelectionSync::NoSample;
        }
        let options = match self.histories.get(&id) {
            Some(history) => history.engine_options(),
            None => Vec::new(),
        };
        let kept = same_options(&self.current_engine_options, &options);
        if !kept {
            self.current_engine_options = options;
        }
        proof {
            if !self.histories@.contains_key(id) {
                assert(option_views(options@).len() == 0);
                assert(option_views(self.current_engine_options@).len() == 0);
            }
        }
        self.ensure_engine_selections(id);
        if kept {
            SelectionSync::Kept
        } else {
            SelectionSync::Rebuilt
        }
    }

    /// The names in the choice of adapters.
    pub fn adapter_labels(&self) -> (labels: Vec<String>)
        ensures
            match self.inventory {
                None => labels@.len() == 0,
                Some(inventory) => labels@.len() == inventory.adapters@.len() && forall|i: int|
                    0 <= i < labels@.len() ==> (#[trigger] labels@[i])@ == "GPU "@ + decimal_text(
                        i as nat,
                    ) + " - "@ + inventory.adapters@[i].name@,
            },
    {
        let mut labels: Vec<String> = Vec::new();
        if let Some(inventory) = &self.inventory {
            for index in 0..inventory.adapters.len()
                invariant
                    labels@.len() == index,
                    forall|i: int|
                        0 <= i < index ==> (#[trigger] labels@[i])@ == "GPU "@ + decimal_text(
                            i as nat,
                        ) + " - "@ + inventory.adapters@[i].name@,
            {
                let mut label = chars_of("GPU ");
                append_chars(&mut label, decimal_chars(index as u64).as_slice());
                append_text(&mut label, " - ");
                append_text(&mut label, inventory.adapters[index].name.as_str());
                labels.push(string_of(label.as_slice()));
            }
        }
        labels
    }

    /// Which name is marked in the choice of adapters, if any is.
    pub fn adapter_choice(&self) -> (choice: Option<usize>)
        ensures
            match choice {
                Some(choice) => choice < self.adapter_options@.len() && self.selected_adapter
                    == Some(self.adapter_options@[choice as int]) && forall|i: int|
                    0 <= i < choice ==> self.selected_adapter != Some(
                        #[trigger] self.adapter_options@[i],
                    ),
                None => self.selected_adapter matches Some(selected)
                    ==> !self.adapter_options@.contains(selected),
            },
    {
        let selected = match self.selected_adapter {
            Some(selected) => selected,
            None => return None,
        };
        for index in 0..self.adapter_options.len()
            invariant
                self.selected_adapter == Some(selected),
                forall|i: int| 0 <= i < index ==> #[trigger] self.adapter_options@[i] != selected,
        {
            if self.adapter_options[index] == selected {
                return Some(index);
            }
        }
        None
    }

    /// Which engine is marked in the choice of a slot, if any is.
    pub fn engine_choice(&self, adapter: GpuAdapterId, slot: usize) -> (choice: Option<usize>)
        requires
            self.well_formed(),
            slot < ENGINE_SLOT_COUNT,
        ensures
            match chosen_engine(self.engine_selections@, adapter, slot as int) {
                None => choice is None,
                Some(id) => match option_position(option_views(self.current_engine_options@), id) {
                    Some(position) => choice == Some(position as usize) && position as usize
                        == position && position < self.current_engine_options@.len(),
                    None => choice is None,
                },
            },
    {
        let selected: Option<GpuEngineId> = match self.engine_selections.get(&adapter) {
            Some(selections) => selections[slot],
            None => None,
        };
        match selected {
            Some(id) => find_option(&self.current_engine_options, id),
            None => None,
        }
    }

    /// The name of the engine in a slot.
    pub fn engine_graph_label(
        &self,
        adapter: GpuAdapterId,
        slot: usize,
        names: &EngineNames,
        unavailable: &str,
    ) -> (label: String)
        requires
            self.well_formed(),
            slot < ENGINE_SLOT_COUNT,
        ensures
            ({
                let options = option_views(self.current_engine_options@);
                let position = match chosen_engine(
                    self.engine_selections@,
                    adapter,
                    slot as int,
                ) {
                    Some(id) => option_position(options, id),
                    None => None,
                };
                label@ == match position {
                    Some(position) => engine_label(
                        options[position].1,
                        options[position].0.ordinal,
                        *names,
                    ),
                    None => unavailable@,
                }
            }),
    {
        match self.engine_choice(adapter, slot) {
            Some(position) => {
                let option = &self.current_engine_options[position];
                assert(option_views(self.current_engine_options@)[position as int] == (
                    option.0,
                    option.1@,
                ));
                format_engine_label(&option.1, option.0.ordinal, names)
            },
            None => copy_of(unavailable),
        }
    }

    /// Takes over what was chosen: `selection` is the position in the list of the control, or
    /// negative.
    pub fn handle_command(&mut self, control_id: i32, notification: u32, selection: i64) -> (command:
        GpuCommand)
        requires
            old(self).well_formed(),
        ensures
            final(self).well_formed(),
            ({
                let slot = control_id - IDC_GPU_ENGINE_SELECTOR_FIRST;
                if notification != CBN_SELCHANGE {
                    command == GpuCommand::Foreign && *final(self) == *old(self)
                } else if control_id == IDC_GPU_SELECTOR {
                    if 0 <= selection < old(self).adapter_options@.len() {
                        &&& command == GpuCommand::Adapter
                        &&& final(self).current_engine_options@.len() == 0
                        &&& *final(self) == (GpuPageState {
                            selected_adapter: Some(old(self).adapter_options@[selection as int]),
                            current_engine_options: final(self).current_engine_options,
                            ..*old(self)
                        })
                    } else {
                        command == GpuCommand::Unchanged && *final(self) == *old(self)
                    }
                } else if 0 <= slot < ENGINE_SLOT_COUNT {
                    if 0 <= selection < old(self).current_engine_options@.len() && old(
                        self,
                    ).selected_adapter is Some {
                        let adapter = old(self).selected_adapter->0;
                        let before = old(self).engine_selections@;
                        let after = final(self).engine_selections@;
                        &&& command == GpuCommand::Engine
                        &&& *final(self) == (GpuPageState {
                            engine_selections: final(self).engine_selections,
                            ..*old(self)
                        })
                        &&& after.dom() == before.dom().insert(adapter)
                        &&& forall|id: GpuAdapterId| #[trigger]
                            before.contains_key(id) && id != adapter ==> after[id] == before[id]
                        &&& forall|i: int|
                            0 <= i < ENGINE_SLOT_COUNT ==> #[trigger] after[adapter]@[i] == if i
                                == slot {
                                Some(old(self).current_engine_options@[selection as int].0)
                            } else {
                                chosen_engine(before, adapter, i)
                            }
                    } else {
                        command == GpuCommand::Unchanged && *final(self) == *old(self)
                    }
                } else {
                    command == GpuCommand::Foreign && *final(self) == *old(self)
                }
            }),
    {
        if notification != CBN_SELCHANGE {
            return GpuCommand::Foreign;
        }
        if control_id == IDC_GPU_SELECTOR {
            if selection >= 0 && (selection as u64) < self.adapter_options.len() as u64 {
                self.selected_adapter = Some(self.adapter_options[selection as usize]);
                self.current_engine_options = Vec::new();
                return GpuCommand::Adapter;
            }
            return GpuCommand::Unchanged;
        }
        if control_id < IDC_GPU_ENGINE_SELECTOR_FIRST || control_id
            >= IDC_GPU_ENGINE_SELECTOR_FIRST + 4 {
            return GpuCommand::Foreign;
        }
        let slot: usize = (control_id - IDC_GPU_ENGINE_SELECTOR_FIRST) as usize;
        if selection < 0 || selection as u64 >= self.current_engine_options.len() as u64 {
            return GpuCommand::Unchanged;
        }
        let adapter = match self.selected_adapter {
            Some(adapter) => adapter,
            None => return GpuCommand::Unchanged,
        };
        let engine = self.current_engine_options[selection as usize].0;
        let mut selections: [Option<GpuEngineId>; 4] = match self.engine_selections.get(&adapter) {
            Some(selections) => *selections,
            None => [None, None, None, None],
        };
        let ghost before = self.engine_selections@;
        selections[slot] = Some(engine);
        self.engine_selections.insert(adapter, selections);
        assert(self.engine_selections@.dom() =~= before.dom().insert(adapter));
        GpuCommand::Engine
    }
}

} // verus!
