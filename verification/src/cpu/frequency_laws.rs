//! What the frequencies say, told from the counter values that they come from.
use vstd::prelude::*;

use super::model::CpuDetailError;
use super::pdh::{
    complete_values, effective_frequencies, frequencies_of, nominal_errors, nominal_processors,
    performance_errors, processor_instance, sum_of, summarizes, values_by_processor,
    FrequencyTracker, PdhArrayValue, PdhProcessorInstance, ProcessorValue, ProcessorValueErrors,
    RelativePerformance,
};
use crate::percent::HundredthPercent;
use crate::text::{
    decimal_text, decimal_text_stands_for_value, joined, lower, pieces_of_joined_parts,
    without_plus,
};

verus! {

/// Whether a counter value is one of the processor.
pub open spec fn is_of<T>(value: PdhArrayValue<T>, id: PdhProcessorInstance) -> bool {
    processor_instance(value.instance@) == Ok::<Option<PdhProcessorInstance>, CpuDetailError>(
        Some(id),
    )
}

/// The name of an instance is the number of a node and a number inside the node.
pub proof fn instance_names_are_read(node: u32, index: u32)
    ensures
        processor_instance(
            decimal_text(node as nat) + seq![','] + decimal_text(index as nat),
        ) == Ok::<Option<PdhProcessorInstance>, CpuDetailError>(
            Some(PdhProcessorInstance { numa_node: node, numa_index: index }),
        ),
{
    let (first, second) = (decimal_text(node as nat), decimal_text(index as nat));
    let parts = seq![first, second];
    let name = first + seq![','] + second;
    decimal_text_stands_for_value(node as nat);
    decimal_text_stands_for_value(index as nat);
    assert forall|i: int| 0 <= i < parts.len() implies !(#[trigger] parts[i]).contains(',') by {
        assert(parts[0] == first && parts[1] == second);
        if first.contains(',') {
            let k = choose|k: int| 0 <= k < first.len() && first[k] == ',';
            assert(crate::text::is_digit(first[k]));
        }
        if second.contains(',') {
            let k = choose|k: int| 0 <= k < second.len() && second[k] == ',';
            assert(crate::text::is_digit(second[k]));
        }
    }
    pieces_of_joined_parts(parts, ',');
    assert(parts.drop_last() =~= seq![first]);
    assert(joined(parts, ',') =~= name) by {
        assert(joined(parts.drop_last(), ',') == first);
    }
    reveal_strlit("_Total");
    assert(crate::text::is_digit(first[0]));
    assert(crate::text::is_digit(second[0]));
    assert(lower(name)[0] == name[0]);
    assert(lower("_Total"@)[0] == '_');
    assert(lower(second)[0] == second[0]);
    assert(without_plus(first) == first);
    assert(without_plus(second) == second);
}

/// The processors are those that some nominal frequency names, each once. A frequency that is not
/// positive makes all of them unusable.
pub proof fn processors_are_those_named(values: Seq<PdhArrayValue<i64>>)
    requires
        nominal_processors(values) is Ok,
    ensures
        ({
            let processors = nominal_processors(values)->Ok_0;
            &&& processors.no_duplicates()
            &&& forall|i: int|
                0 <= i < processors.len() ==> exists|k: int|
                    0 <= k < values.len() && is_of(#[trigger] values[k], #[trigger] processors[i])
            &&& forall|k: int, id: PdhProcessorInstance|
                0 <= k < values.len() && #[trigger] is_of(values[k], id) ==> processors.contains(id)
                    && values[k].value > 0
        }),
    decreases values.len(),
{
    if values.len() > 0 {
        let front = values.drop_last();
        let n = values.len() - 1;
        processors_are_those_named(front);
        let before = nominal_processors(front)->Ok_0;
        let processors = nominal_processors(values)->Ok_0;
        assert(values[n] == values.last());
        crate::seqs::lemma_push_contains(before, processors.last());
        assert forall|i: int| 0 <= i < processors.len() implies exists|k: int|
            0 <= k < values.len() && is_of(#[trigger] values[k], #[trigger] processors[i]) by {
            if i < before.len() {
                assert(processors[i] == before[i]);
                let k = choose|k: int|
                    0 <= k < front.len() && is_of(#[trigger] front[k], before[i]);
                assert(values[k] == front[k]);
            } else {
                assert(is_of(values[n], processors[i]));
            }
        }
        assert forall|k: int, id: PdhProcessorInstance|
            0 <= k < values.len() && #[trigger] is_of(values[k], id) implies processors.contains(id)
            && values[k].value > 0 by {
            if k < n {
                assert(front[k] == values[k]);
                assert(is_of(front[k], id));
            }
        }
    }
}

/// Every processor has the value that the counter gives for it, and no other processor has one.
pub proof fn values_are_those_of_the_processors<T: ProcessorValue>(
    values: Seq<PdhArrayValue<T>>,
    processors: Seq<PdhProcessorInstance>,
    errors: ProcessorValueErrors,
)
    requires
        values_by_processor(values, processors, errors) is Ok,
    ensures
        ({
            let known = values_by_processor(values, processors, errors)->Ok_0;
            &&& forall|id: PdhProcessorInstance| #[trigger]
                known.contains_key(id) ==> exists|k: int|
                    0 <= k < values.len() && is_of(#[trigger] values[k], id)
            &&& forall|k: int, id: PdhProcessorInstance|
                0 <= k < values.len() && #[trigger] is_of(values[k], id) ==> {
                    &&& known.contains_key(id)
                    &&& known[id] == values[k].value
                    &&& values[k].value.usable()
                    &&& processors.contains(id)
                }
        }),
    decreases values.len(),
{
    if values.len() > 0 {
        let front = values.drop_last();
        let n = values.len() - 1;
        values_are_those_of_the_processors(front, processors, errors);
        let known = values_by_processor(values, processors, errors)->Ok_0;
        let before = values_by_processor(front, processors, errors)->Ok_0;
        assert(values[n] == values.last());
        assert forall|id: PdhProcessorInstance| #[trigger]
            known.contains_key(id) implies exists|k: int|
            0 <= k < values.len() && is_of(#[trigger] values[k], id) by {
            if before.contains_key(id) {
                let k = choose|k: int| 0 <= k < front.len() && is_of(#[trigger] front[k], id);
                assert(values[k] == front[k]);
            } else {
                assert(is_of(values[n], id));
            }
        }
        assert forall|k: int, id: PdhProcessorInstance|
            0 <= k < values.len() && #[trigger] is_of(values[k], id) implies {
            &&& known.contains_key(id)
            &&& known[id] == values[k].value
            &&& values[k].value.usable()
            &&& processors.contains(id)
        } by {
            if k < n {
                assert(front[k] == values[k]);
                assert(is_of(front[k], id));
            }
        }
    }
}

proof fn lemma_effective<P: RelativePerformance>(
    processors: Seq<PdhProcessorInstance>,
    nominal: Map<PdhProcessorInstance, i64>,
    performance: Map<PdhProcessorInstance, P>,
)
    requires
        effective_frequencies(processors, nominal, performance) is Ok,
    ensures
        ({
            let frequencies = effective_frequencies(processors, nominal, performance)->Ok_0;
            &&& frequencies.len() == processors.len()
            &&& forall|i: int|
                0 <= i < processors.len() ==> Some(#[trigger] frequencies[i])
                    == performance[processors[i]].effective(nominal[processors[i]])
        }),
    decreases processors.len(),
{
    if processors.len() > 0 {
        let front = processors.drop_last();
        lemma_effective(front, nominal, performance);
        let before = effective_frequencies(front, nominal, performance)->Ok_0;
        let frequencies = effective_frequencies(processors, nominal, performance)->Ok_0;
        assert forall|i: int| 0 <= i < processors.len() implies Some(#[trigger] frequencies[i])
            == performance[processors[i]].effective(nominal[processors[i]]) by {
            if i < before.len() {
                assert(frequencies[i] == before[i]);
                assert(front[i] == processors[i]);
            }
        }
    }
}

/// There is one frequency for each processor: what the relative performance that the counter
/// gives for it makes of the nominal frequency that the counter gives for it.
pub proof fn frequency_is_performance_of_nominal<P: RelativePerformance>(
    nominal: Seq<PdhArrayValue<i64>>,
    performance: Seq<PdhArrayValue<P>>,
    processors: Seq<PdhProcessorInstance>,
    i: int,
    a: int,
    b: int,
)
    requires
        frequencies_of(nominal, performance, processors) is Ok,
        0 <= i < processors.len(),
        0 <= a < nominal.len(),
        is_of(nominal[a], processors[i]),
        0 <= b < performance.len(),
        is_of(performance[b], processors[i]),
    ensures
        ({
            let frequencies = frequencies_of(nominal, performance, processors)->Ok_0;
            &&& frequencies.len() == processors.len()
            &&& performance[b].value.effective(nominal[a].value) == Some(frequencies[i])
        }),
{
    let first = complete_values(nominal, processors, nominal_errors())->Ok_0;
    let second = complete_values(performance, processors, performance_errors())->Ok_0;
    values_are_those_of_the_processors(nominal, processors, nominal_errors());
    values_are_those_of_the_processors(performance, processors, performance_errors());
    lemma_effective(processors, first, second);
}

/// Where frequencies are told, both counters name every processor.
pub proof fn no_processor_is_left_out<P: RelativePerformance>(
    nominal: Seq<PdhArrayValue<i64>>,
    performance: Seq<PdhArrayValue<P>>,
    processors: Seq<PdhProcessorInstance>,
    i: int,
)
    requires
        frequencies_of(nominal, performance, processors) is Ok,
        0 <= i < processors.len(),
    ensures
        exists|a: int| 0 <= a < nominal.len() && is_of(#[trigger] nominal[a], processors[i]),
        exists|b: int| 0 <= b < performance.len()
            && is_of(#[trigger] performance[b], processors[i]),
{
    let first = complete_values(nominal, processors, nominal_errors())->Ok_0;
    let second = complete_values(performance, processors, performance_errors())->Ok_0;
    values_are_those_of_the_processors(nominal, processors, nominal_errors());
    values_are_those_of_the_processors(performance, processors, performance_errors());
    assert(processors.to_set().contains(processors[i]));
    assert(first.contains_key(processors[i]));
    assert(second.contains_key(processors[i]));
}

/// In hundredths of a percent, the effective frequency is the number of megahertz that is nearest
/// to the share of the nominal frequency.
pub proof fn effective_frequency_is_the_nearest(performance: HundredthPercent, nominal_mhz: i64)
    requires
        nominal_mhz >= 0,
        performance.effective(nominal_mhz) is Some,
    ensures
        ({
            let frequency = performance.effective(nominal_mhz)->0;
            2 * (frequency * 10000) <= 2 * (nominal_mhz * performance.0) + 10000 && 2 * (nominal_mhz
                * performance.0) < 2 * (frequency * 10000) + 10000
        }),
{
    assert(nominal_mhz * performance.0 >= 0) by (nonlinear_arith)
        requires
            nominal_mhz >= 0,
            performance.0 >= 0,
    ;
}

/// The average is the number that is nearest to the mean of all frequencies, and the other two
/// are the smallest and the largest of them.
pub proof fn average_is_the_nearest_to_the_mean(
    summary: (u64, u64, u64),
    frequencies: Seq<u64>,
)
    requires
        summarizes(summary, frequencies),
    ensures
        ({
            let sum = frequencies.fold_left(0int, |sum: int, frequency: u64| sum + frequency);
            let count = frequencies.len() as int;
            let (average, smallest, largest) = summary;
            &&& 2 * (average * count) <= 2 * sum + count
            &&& 2 * sum < 2 * (average * count) + count
            &&& forall|i: int|
                0 <= i < frequencies.len() ==> smallest <= #[trigger] frequencies[i] <= largest
            &&& frequencies.contains(smallest)
            &&& frequencies.contains(largest)
        }),
{
    lemma_sum_is_fold(frequencies);
    let sum = sum_of(frequencies);
    let count = frequencies.len() as int;
    let average = summary.0 as int;
    let half = count / 2;
    let whole = sum + half;
    assert(sum >= 0);
    assert(whole == average * count + whole % count && 0 <= whole % count < count)
        by (nonlinear_arith)
        requires
            average == whole / count,
            count > 0,
    ;
}

proof fn lemma_sum_is_fold(values: Seq<u64>)
    ensures
        sum_of(values) == values.fold_left(0int, |sum: int, frequency: u64| sum + frequency),
        sum_of(values) >= 0,
    decreases values.len(),
{
    if values.len() > 0 {
        lemma_sum_is_fold(values.drop_last());
    }
}

/// The processors are learnt from the first sample that names as many as are expected; every later
/// sample is held against them, and a sample that names another number is refused and teaches
/// nothing.
pub proof fn processors_are_learnt_once<P: RelativePerformance>(
    first: &mut FrequencyTracker,
    second: &mut FrequencyTracker,
    nominal: &[PdhArrayValue<i64>],
    performance: &[PdhArrayValue<P>],
    later_nominal: &[PdhArrayValue<i64>],
    later_performance: &[PdhArrayValue<P>],
    outcome: Result<(u64, u64, u64), CpuDetailError>,
    later_outcome: Result<(u64, u64, u64), CpuDetailError>,
)
    requires
        old(first).learnt() is None,
        old(first).expected_count() > 0,
    ensures
        call_ensures(
            FrequencyTracker::validate_frequencies::<P>,
            (first, nominal, performance),
            outcome,
        ) && *old(second) == *final(first) && call_ensures(
            FrequencyTracker::validate_frequencies::<P>,
            (second, later_nominal, later_performance),
            later_outcome,
        ) ==> {
            let named = nominal_processors(nominal@);
            let fits = named is Ok && named->Ok_0.len() == old(first).expected_count();
            &&& !fits ==> outcome is Err && final(first).learnt() is None
            &&& fits ==> final(first).learnt() == Some(named->Ok_0) && final(second).learnt()
                == Some(named->Ok_0)
            &&& final(second).expected_count() == old(first).expected_count()
        },
{
}

} // verus!
