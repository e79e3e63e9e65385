//! What a selection of processors stands for, processor by processor.
use vstd::prelude::*;

use super::affinity::{
    boxes_for, checked_mask, cpu_mask, group_label, group_position, initial_masks,
    processor_label, selected_mask_of, selection, within_selection, AffinityChoice, AffinityGroup,
    ProcessorBox, MAX_AFFINITY_CPU,
};
use crate::bits::bit_count;
use crate::text::decimal_text;

verus! {

/// The first group with a number is the one that is found.
pub proof fn first_group_is_found(groups: Seq<AffinityGroup>, number: u16)
    ensures
        match group_position(groups, number) {
            Some(at) => 0 <= at < groups.len() && groups[at].number == number && forall|i: int|
                0 <= i < at ==> (#[trigger] groups[i]).number != number,
            None => forall|i: int| 0 <= i < groups.len()
                ==> (#[trigger] groups[i]).number != number,
        },
    decreases groups.len(),
{
    if groups.len() > 0 {
        let front = groups.drop_last();
        first_group_is_found(front, number);
        match group_position(front, number) {
            Some(at) => {
                assert forall|i: int| 0 <= i < at
                    implies (#[trigger] groups[i]).number != number by {
                    assert(front[i].number != number);
                }
            },
            None => {
                assert forall|i: int| 0 <= i < groups.len() - 1 implies (
                #[trigger] groups[i]).number != number by {
                    assert(front[i].number != number);
                }
            },
        }
    }
}

/// What is selected are the groups with a mask, each with its own mask: every such group, and no
/// other.
pub proof fn selection_is_what_has_a_mask(groups: Seq<AffinityGroup>, masks: Seq<usize>)
    requires
        groups.len() <= masks.len(),
    ensures
        forall|i: int|
            0 <= i < groups.len() && masks[i] != 0 ==> selection(groups, masks).contains(
                ((#[trigger] groups[i]).number, masks[i]),
            ),
        forall|k: int|
            0 <= k < selection(groups, masks).len() ==> exists|i: int|
                0 <= i < groups.len() && masks[i] != 0
                    && #[trigger] selection(groups, masks)[k] == (
                    (#[trigger] groups[i]).number,
                    masks[i],
                ),
        selection(groups, masks).len() <= groups.len(),
    decreases groups.len(),
{
    if groups.len() > 0 {
        let front = groups.drop_last();
        let n = groups.len() - 1;
        selection_is_what_has_a_mask(front, masks);
        let before = selection(front, masks);
        let after = selection(groups, masks);
        assert(groups[n] == groups.last());
        assert forall|i: int| 0 <= i < groups.len() && masks[i] != 0 implies after.contains(
            ((#[trigger] groups[i]).number, masks[i]),
        ) by {
            if i < n {
                assert(front[i] == groups[i]);
                let wanted = (front[i].number, masks[i]);
                assert(before.contains(wanted));
                let k = choose|k: int| 0 <= k < before.len() && before[k] == wanted;
                assert(after[k] == wanted);
            } else {
                assert(after[before.len() as int] == (groups[n].number, masks[n]));
            }
        }
        assert forall|k: int| 0 <= k < after.len() implies exists|i: int|
            0 <= i < groups.len() && masks[i] != 0 && #[trigger] after[k] == (
                (#[trigger] groups[i]).number,
                masks[i],
            ) by {
            if k < before.len() {
                assert(after[k] == before[k]);
                let i = choose|i: int|
                    0 <= i < front.len() && masks[i] != 0 && before[k] == (
                        (#[trigger] front[i]).number,
                        masks[i],
                    );
                assert(groups[i] == front[i]);
            } else {
                assert(after[k] == (groups[n].number, masks[n]));
            }
        }
    }
}

/// A thread runs within the selection exactly if its group is selected and every processor that
/// it may run on is selected in that group.
pub proof fn within_means_no_other_processor(
    selected: Seq<(u16, usize)>,
    at: int,
    mask: usize,
)
    requires
        0 <= at < selected.len(),
        forall|i: int| 0 <= i < at ==> (#[trigger] selected[i]).0 != selected[at].0,
    ensures
        within_selection(selected, selected[at].0, mask) <==> mask != 0 && mask & selected[at].1
            == mask,
{
    lemma_selected_mask(selected, at);
    let allowed = selected[at].1;
    assert((mask & !allowed == 0) == (mask & allowed == mask)) by (bit_vector);
}

proof fn lemma_selected_mask(selected: Seq<(u16, usize)>, at: int)
    requires
        0 <= at < selected.len(),
        forall|i: int| 0 <= i < at ==> (#[trigger] selected[i]).0 != selected[at].0,
    ensures
        selected_mask_of(selected, selected[at].0) == Some(selected[at].1),
    decreases selected.len(),
{
    if at > 0 {
        let rest = selected.drop_first();
        assert(selected[0].0 != selected[at].0);
        assert(rest[at - 1] == selected[at]);
        assert forall|i: int| 0 <= i < at - 1 implies (#[trigger] rest[i]).0 != rest[at - 1].0 by {
            assert(selected[i + 1].0 != selected[at].0);
        }
        lemma_selected_mask(rest, at - 1);
    }
}

/// A group that is not selected has no thread within the selection.
pub proof fn nothing_runs_in_other_groups(selected: Seq<(u16, usize)>, group: u16, mask: usize)
    requires
        forall|i: int| 0 <= i < selected.len() ==> (#[trigger] selected[i]).0 != group,
    ensures
        !within_selection(selected, group, mask),
    decreases selected.len(),
{
    if selected.len() > 0 {
        let rest = selected.drop_first();
        assert(selected[0].0 != group);
        assert forall|i: int| 0 <= i < rest.len() implies (#[trigger] rest[i]).0 != group by {
            assert(selected[i + 1].0 != group);
        }
        nothing_runs_in_other_groups(rest, group, mask);
    }
}

/// The choice starts with processors of one group: those that the process may run on, that the
/// system has, and that can be assigned.
pub proof fn choice_starts_with_the_processors_of_the_process(
    groups: Seq<AffinityGroup>,
    process_groups: Seq<u16>,
    process_mask: usize,
    system_mask: usize,
)
    ensures
        initial_masks(groups, process_groups, process_mask, system_mask) matches Ok(masks) ==> {
            let number = if process_groups.len() > 0 {
                process_groups[0]
            } else {
                groups[0].number
            };
            let at = group_position(groups, number);
            &&& at is Some
            &&& masks.len() == groups.len()
            &&& masks[at->0] != 0
            &&& masks[at->0] & process_mask == masks[at->0]
            &&& masks[at->0] & system_mask == masks[at->0]
            &&& masks[at->0] & groups[at->0].assignable_mask == masks[at->0]
            &&& process_mask & system_mask & groups[at->0].assignable_mask & masks[at->0]
                == process_mask & system_mask & groups[at->0].assignable_mask
            &&& forall|i: int| 0 <= i < masks.len() && i != at->0 ==> #[trigger] masks[i] == 0
        },
{
    if initial_masks(groups, process_groups, process_mask, system_mask) is Ok {
        let number = if process_groups.len() > 0 {
            process_groups[0]
        } else {
            groups[0].number
        };
        first_group_is_found(groups, number);
        let assignable = groups[group_position(groups, number)->0].assignable_mask;
        let m = process_mask & system_mask & assignable;
        assert(m & process_mask == m && m & system_mask == m && m & assignable == m && m & m == m)
            by (bit_vector)
            requires
                m == process_mask & system_mask & assignable,
        ;
    }
}

proof fn lemma_other_bit(mask: usize, set: usize, asked: usize)
    requires
        set < usize::BITS,
        asked < usize::BITS,
    ensures
        (mask | (1usize << set)) & (1usize << asked) != 0 <==> set == asked || mask & (1usize
            << asked) != 0,
        0usize & (1usize << asked) == 0,
{
    assert((mask | (1usize << set)) & (1usize << asked) != 0 <==> set == asked || mask & (1usize
        << asked) != 0) by (bit_vector)
        requires
            set < usize::BITS,
            asked < usize::BITS,
    ;
    assert(0usize & (1usize << asked) == 0) by (bit_vector);
}

proof fn lemma_checked(checked: Seq<bool>, assignable: usize, count: int, cpu: int)
    requires
        0 <= count <= MAX_AFFINITY_CPU + 1,
        0 <= cpu < usize::BITS,
    ensures
        checked_mask(checked, assignable, count) & cpu_mask(cpu) != 0 <==> cpu < count
            && checked[cpu] && assignable & cpu_mask(cpu) != 0,
    decreases count,
{
    if count == 0 {
        lemma_other_bit(0, 0, cpu as usize);
    } else {
        let earlier = checked_mask(checked, assignable, count - 1);
        lemma_checked(checked, assignable, count - 1, cpu);
        if count - 1 < usize::BITS {
            lemma_other_bit(earlier, (count - 1) as usize, cpu as usize);
        } else {
            assert(assignable & 0usize == 0) by (bit_vector);
        }
    }
}

/// A processor is selected exactly if its box is checked and it can be assigned.
pub proof fn selected_processors_are_the_checked_ones(
    checked: Seq<bool>,
    assignable: usize,
    cpu: int,
)
    requires
        checked.len() == MAX_AFFINITY_CPU + 1,
        0 <= cpu <= MAX_AFFINITY_CPU,
        cpu < usize::BITS,
    ensures
        checked_mask(checked, assignable, MAX_AFFINITY_CPU + 1) & cpu_mask(cpu) != 0
            <==> checked[cpu] && assignable & cpu_mask(cpu) != 0,
{
    lemma_checked(checked, assignable, MAX_AFFINITY_CPU + 1, cpu);
}

/// Every processor has a bit of its own, and there is none beyond the width of a mask.
pub proof fn processors_have_their_own_bits(first: int, second: int)
    ensures
        !(0 <= first < usize::BITS) ==> cpu_mask(first) == 0,
        0 <= first < usize::BITS ==> cpu_mask(first) != 0,
        0 <= first < usize::BITS && 0 <= second < usize::BITS
            ==> (cpu_mask(first) & cpu_mask(second)
            != 0 <==> first == second),
{
    if 0 <= first < usize::BITS {
        lemma_other_bit(0, first as usize, first as usize);
        let a = first as usize;
        assert(0usize | (1usize << a) == 1usize << a) by (bit_vector);
        assert((1usize << a) & (1usize << a) == 1usize << a) by (bit_vector);
        if 0 <= second < usize::BITS {
            lemma_other_bit(0, a, second as usize);
        }
    }
}

/// Groups and processors are named by their numbers. Where there are several groups, a group tells
/// how many processors it has, and a processor tells its group.
pub proof fn labels_tell_the_numbers(group: AffinityGroup, cpu_index: int)
    requires
        cpu_index >= 0,
    ensures
        group_label(group, false) == "G"@ + decimal_text(group.number as nat),
        group_label(group, true) == group_label(group, false) + (" ("@ + decimal_text(
            bit_count(group.processor_mask as u64),
        ) + ")"@),
        processor_label(group, false, cpu_index) == "CPU "@ + decimal_text(cpu_index as nat),
        processor_label(group, true, cpu_index) == group_label(group, false) + ":"@
            + processor_label(group, false, cpu_index),
{
    reveal_strlit(":CPU ");
    reveal_strlit("CPU ");
    reveal_strlit(":");
    assert(":CPU "@ =~= ":"@ + "CPU "@);
    assert(group_label(group, true) =~= group_label(group, false) + (" ("@ + decimal_text(
        bit_count(group.processor_mask as u64),
    ) + ")"@));
    assert(processor_label(group, true, cpu_index) =~= group_label(group, false) + ":"@
        + processor_label(group, false, cpu_index));
}

/// There is a box for every place of a mask. It can be checked if the processor can be assigned,
/// and it is checked if the processor is selected as well.
pub proof fn boxes_show_the_selection(choice: AffinityChoice, boxes: Vec<ProcessorBox>, i: int)
    requires
        call_ensures(AffinityChoice::render_affinity_group, (&choice,), boxes),
        0 <= i <= MAX_AFFINITY_CPU,
    ensures
        ({
            let shown = choice.selected_group_index as int;
            let can_run = choice.groups@[shown].assignable_mask & cpu_mask(i) != 0;
            &&& boxes@.len() == MAX_AFFINITY_CPU + 1
            &&& boxes@[i].enabled <==> can_run
            &&& boxes@[i].checked <==> can_run && choice.selected_masks@[shown] & cpu_mask(i) != 0
        }),
{
}

/// The boxes that are checked for a selection are those of its processors, as many as there are
/// places in a mask.
pub proof fn boxes_are_those_of_the_selection(selected: usize, assignable: usize, i: int)
    requires
        0 <= i <= MAX_AFFINITY_CPU,
    ensures
        boxes_for(selected, assignable).len() == MAX_AFFINITY_CPU + 1,
        boxes_for(selected, assignable)[i] <==> assignable & cpu_mask(i) != 0 && selected
            & cpu_mask(i) != 0,
{
}

} // verus!
