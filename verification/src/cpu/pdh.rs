//! Counters of processor frequency and load.
//!
//! Frequencies come as two arrays, one with the nominal frequency and one with the relative
//! performance of each processor. A result is given only where both name the same processors,
//! each of them once.
use vstd::prelude::*;

use super::model::{invalid, CpuDetailError, LogicalProcessorId};
use super::native::bad;
use super::processor_set::ProcessorSet;
use crate::pdh::{
    array_fits, is_array_inside, name_at, read_bounded_name, words_for, CounterBuffer, NameFault,
    RawCounterItem, MAX_PDH_ARRAY_BYTES, WORD_SIZE,
};
use crate::percent::HundredthPercent;
use crate::seqs::lemma_push_contains;
use crate::table::{Key, Table};
use crate::text::{
    chars_of, decimal_value, equals_ignore_ascii_case, is_decimal_u32, lower, pieces,
    signed_decimal_u32, split_on, views, without_plus,
};
use crate::win32::{ERROR_SUCCESS, PDH_CSTATUS_NEW_DATA, PDH_CSTATUS_VALID_DATA, PDH_MORE_DATA};

verus! {

pub const FREQUENCY_COUNTER_PATH: &'static str =
    "\\Processor Information(*)\\Processor Frequency";

pub const PERFORMANCE_COUNTER_PATH: &'static str =
    "\\Processor Information(*)\\% Processor Performance";

pub const CONTEXT_SWITCH_COUNTER_PATH: &'static str = "\\System\\Context Switches/sec";

pub const SYSTEM_CALL_COUNTER_PATH: &'static str = "\\System\\System Calls/sec";

pub const PROCESSOR_QUEUE_COUNTER_PATH: &'static str = "\\System\\Processor Queue Length";

/// A value of one processor that may turn out not to be usable.
pub trait ProcessorValue: Copy {
    spec fn usable(self) -> bool;

    fn is_usable(&self) -> (usable: bool)
        ensures
            usable == self.usable(),
    ;
}

/// A nominal frequency in MHz.
impl ProcessorValue for i64 {
    open spec fn usable(self) -> bool {
        self > 0
    }

    fn is_usable(&self) -> (usable: bool) {
        *self > 0
    }
}

/// Performance relative to the nominal frequency; above one hundred percent while boosting.
pub trait RelativePerformance: ProcessorValue {
    /// The frequency in MHz that it amounts to, where it can be represented.
    spec fn effective(self, nominal_mhz: i64) -> Option<u64>;

    fn effective_mhz(&self, nominal_mhz: i64) -> (frequency: Option<u64>)
        ensures
            frequency == self.effective(nominal_mhz),
    ;
}

impl ProcessorValue for HundredthPercent {
    open spec fn usable(self) -> bool {
        true
    }

    fn is_usable(&self) -> (usable: bool) {
        true
    }
}

impl RelativePerformance for HundredthPercent {
    open spec fn effective(self, nominal_mhz: i64) -> Option<u64> {
        if nominal_mhz < 0 || (nominal_mhz * self.0 + 5000) / 10000 > u64::MAX {
            None
        } else {
            Some(((nominal_mhz * self.0 + 5000) / 10000) as u64)
        }
    }

    fn effective_mhz(&self, nominal_mhz: i64) -> (frequency: Option<u64>) {
        if nominal_mhz < 0 {
            return None;
        }
        let nominal: u128 = nominal_mhz as u128;
        let percent: u128 = self.0 as u128;
        assert(nominal * percent <= 0x7FFF_FFFF_FFFF_FFFF * 0xFFFF_FFFF_FFFF_FFFF)
            by (nonlinear_arith)
            requires
                nominal <= 0x7FFF_FFFF_FFFF_FFFF,
                percent <= 0xFFFF_FFFF_FFFF_FFFF,
        ;
        let frequency: u128 = (nominal * percent + 5000) / 10000;
        if frequency > u64::MAX as u128 {
            None
        } else {
            Some(frequency as u64)
        }
    }
}

/// A counter value with the name of its instance.
#[derive(Clone, Debug, PartialEq, Eq)]
pub struct PdhArrayValue<T> {
    pub instance: String,
    pub value: T,
}

/// An instance of the processor counters: a NUMA node, and an index inside the node.
#[derive(Clone, Copy, Debug, PartialEq, Eq, Structural, Hash, PartialOrd, Ord)]
pub struct PdhProcessorInstance {
    pub numa_node: u32,
    pub numa_index: u32,
}

impl Key for PdhProcessorInstance {
    fn same(&self, other: &Self) -> (same: bool) {
        *self == *other
    }
}

pub open spec fn is_total(text: Seq<char>) -> bool {
    lower(text) == lower("_Total"@)
}

/// The processor that an instance name stands for; none for one that stands for a total.
pub open spec fn processor_instance(name: Seq<char>) -> Result<
    Option<PdhProcessorInstance>,
    CpuDetailError,
> {
    let fields = pieces(name, ',');
    if is_total(name) {
        Ok(None)
    } else if !is_decimal_u32(without_plus(fields[0])) {
        bad("CPU processor NUMA node instance")
    } else if fields.len() < 2 {
        bad("CPU processor NUMA index instance")
    } else if fields.len() > 2 {
        bad("CPU processor instance field count")
    } else if is_total(fields[1]) {
        Ok(None)
    } else if !is_decimal_u32(without_plus(fields[1])) {
        bad("CPU processor NUMA index instance")
    } else {
        Ok(
            Some(
                PdhProcessorInstance {
                    numa_node: decimal_value(without_plus(fields[0])) as u32,
                    numa_index: decimal_value(without_plus(fields[1])) as u32,
                },
            ),
        )
    }
}

pub fn parse_processor_instance(value: &str) -> (outcome: Result<
    Option<PdhProcessorInstance>,
    CpuDetailError,
>)
    ensures
        outcome == processor_instance(value@),
{
    let chars = chars_of(value);
    if equals_ignore_ascii_case(chars.as_slice(), "_Total") {
        return Ok(None);
    }
    let fields = split_on(chars.as_slice(), ',');
    proof {
        assert forall|i: int| 0 <= i < fields@.len() implies #[trigger] fields@[i]@ == pieces(
            value@,
            ',',
        )[i] by {
            assert(views(fields@)[i] == fields@[i]@);
        }
    }
    let numa_node: u32 = match signed_decimal_u32(fields[0].as_slice()) {
        Some(numa_node) => numa_node,
        None => return invalid("CPU processor NUMA node instance"),
    };
    if fields.len() < 2 {
        return invalid("CPU processor NUMA index instance");
    }
    if fields.len() > 2 {
        return invalid("CPU processor instance field count");
    }
    if equals_ignore_ascii_case(fields[1].as_slice(), "_Total") {
        return Ok(None);
    }
    match signed_decimal_u32(fields[1].as_slice()) {
        Some(numa_index) => Ok(Some(PdhProcessorInstance { numa_node, numa_index })),
        None => invalid("CPU processor NUMA index instance"),
    }
}

/// What is reported when the values of the processors are not usable, not unique or not
/// complete.
#[derive(Clone, Copy)]
pub struct ProcessorValueErrors {
    pub invalid: &'static str,
    pub duplicate: &'static str,
    pub incomplete: &'static str,
}

pub open spec fn nominal_errors() -> ProcessorValueErrors {
    ProcessorValueErrors {
        invalid: "CPU nominal frequency instance or value",
        duplicate: "CPU duplicate nominal frequency instance",
        incomplete: "CPU nominal frequency instance completeness",
    }
}

pub open spec fn performance_errors() -> ProcessorValueErrors {
    ProcessorValueErrors {
        invalid: "CPU performance instance or value",
        duplicate: "CPU duplicate performance instance",
        incomplete: "CPU performance instance completeness",
    }
}

fn nominal_value_errors() -> (errors: ProcessorValueErrors)
    ensures
        errors == nominal_errors(),
{
    ProcessorValueErrors {
        invalid: "CPU nominal frequency instance or value",
        duplicate: "CPU duplicate nominal frequency instance",
        incomplete: "CPU nominal frequency instance completeness",
    }
}

fn performance_value_errors() -> (errors: ProcessorValueErrors)
    ensures
        errors == performance_errors(),
{
    ProcessorValueErrors {
        invalid: "CPU performance instance or value",
        duplicate: "CPU duplicate performance instance",
        incomplete: "CPU performance instance completeness",
    }
}

/// The processors that the nominal frequencies name, in order.
pub open spec fn nominal_processors(values: Seq<PdhArrayValue<i64>>) -> Result<
    Seq<PdhProcessorInstance>,
    CpuDetailError,
>
    decreases values.len(),
{
    if values.len() == 0 {
        Ok(Seq::empty())
    } else {
        match nominal_processors(values.drop_last()) {
            Err(error) => Err(error),
            Ok(known) => match processor_instance(values.last().instance@) {
                Err(error) => Err(error),
                Ok(None) => Ok(known),
                Ok(Some(id)) => if values.last().value <= 0 {
                    bad("CPU nominal frequency instance or value")
                } else if known.contains(id) {
                    bad("CPU duplicate nominal frequency instance")
                } else {
                    Ok(known.push(id))
                },
            },
        }
    }
}

/// The processors that the nominal frequencies name, where these are as many as expected.
pub open spec fn expected_instances(values: Seq<PdhArrayValue<i64>>, count: int) -> Result<
    Seq<PdhProcessorInstance>,
    CpuDetailError,
> {
    if count == 0 {
        bad("CPU expected processor instance count")
    } else {
        match nominal_processors(values) {
            Err(error) => Err(error),
            Ok(known) => if known.len() != count {
                bad("CPU nominal frequency instance completeness")
            } else {
                Ok(known)
            },
        }
    }
}

/// The value of each processor so far.
pub open spec fn values_by_processor<T: ProcessorValue>(
    values: Seq<PdhArrayValue<T>>,
    processors: Seq<PdhProcessorInstance>,
    errors: ProcessorValueErrors,
) -> Result<Map<PdhProcessorInstance, T>, CpuDetailError>
    decreases values.len(),
{
    if values.len() == 0 {
        Ok(Map::empty())
    } else {
        match values_by_processor(values.drop_last(), processors, errors) {
            Err(error) => Err(error),
            Ok(known) => match processor_instance(values.last().instance@) {
                Err(error) => Err(error),
                Ok(None) => Ok(known),
                Ok(Some(id)) => if !values.last().value.usable() {
                    bad(errors.invalid)
                } else if !processors.contains(id) {
                    bad("CPU frequency and performance instance mismatch")
                } else if known.contains_key(id) {
                    bad(errors.duplicate)
                } else {
                    Ok(known.insert(id, values.last().value))
                },
            },
        }
    }
}

/// The value of each of the processors, where there is one for every one of them.
pub open spec fn complete_values<T: ProcessorValue>(
    values: Seq<PdhArrayValue<T>>,
    processors: Seq<PdhProcessorInstance>,
    errors: ProcessorValueErrors,
) -> Result<Map<PdhProcessorInstance, T>, CpuDetailError> {
    match values_by_processor(values, processors, errors) {
        Err(error) => Err(error),
        Ok(known) => if known.dom() != processors.to_set() {
            bad(errors.incomplete)
        } else {
            Ok(known)
        },
    }
}

/// The effective frequencies of the processors, in order.
pub open spec fn effective_frequencies<P: RelativePerformance>(
    processors: Seq<PdhProcessorInstance>,
    nominal: Map<PdhProcessorInstance, i64>,
    performance: Map<PdhProcessorInstance, P>,
) -> Result<Seq<u64>, CpuDetailError>
    decreases processors.len(),
{
    if processors.len() == 0 {
        Ok(Seq::empty())
    } else {
        match effective_frequencies(processors.drop_last(), nominal, performance) {
            Err(error) => Err(error),
            Ok(known) => match performance[processors.last()].effective(
                nominal[processors.last()],
            ) {
                Some(frequency) => Ok(known.push(frequency)),
                None => bad("CPU effective frequency overflow"),
            },
        }
    }
}

pub open spec fn sum_of(values: Seq<u64>) -> int
    decreases values.len(),
{
    if values.len() == 0 {
        0
    } else {
        sum_of(values.drop_last()) + values.last()
    }
}

/// Whether the three numbers are the rounded average, the smallest and the largest frequency.
pub open spec fn summarizes(summary: (u64, u64, u64), frequencies: Seq<u64>) -> bool {
    let count = frequencies.len() as int;
    &&& count > 0
    &&& summary.0 == (sum_of(frequencies) + count / 2) / count
    &&& frequencies.contains(summary.1)
    &&& frequencies.contains(summary.2)
    &&& forall|i: int|
        0 <= i < frequencies.len() ==> summary.1 <= #[trigger] frequencies[i] <= summary.2
}

/// The frequencies that two arrays of counter values amount to.
pub open spec fn frequencies_of<P: RelativePerformance>(
    nominal: Seq<PdhArrayValue<i64>>,
    performance: Seq<PdhArrayValue<P>>,
    processors: Seq<PdhProcessorInstance>,
) -> Result<Seq<u64>, CpuDetailError> {
    match complete_values(nominal, processors, nominal_errors()) {
        Err(error) => Err(error),
        Ok(nominal_values) => match complete_values(
            performance,
            processors,
            performance_errors(),
        ) {
            Err(error) => Err(error),
            Ok(performance_values) => effective_frequencies(
                processors,
                nominal_values,
                performance_values,
            ),
        },
    }
}

fn contains_instance(list: &Vec<PdhProcessorInstance>, id: PdhProcessorInstance) -> (found: bool)
    ensures
        found == list@.contains(id),
{
    for index in 0..list.len()
        invariant
            forall|i: int| 0 <= i < index ==> list@[i] != id,
    {
        if list[index] == id {
            return true;
        }
    }
    false
}

fn build_processor_indices(values: &[PdhArrayValue<i64>], expected_count: usize) -> (outcome: Result<
    Vec<PdhProcessorInstance>,
    CpuDetailError,
>)
    ensures
        match expected_instances(values@, expected_count as int) {
            Ok(processors) => outcome matches Ok(found) && found@ == processors
                && found@.no_duplicates(),
            Err(error) => outcome == Err::<Vec<PdhProcessorInstance>, CpuDetailError>(error),
        },
{
    if expected_count == 0 {
        return invalid("CPU expected processor instance count");
    }
    let mut known: Vec<PdhProcessorInstance> = Vec::new();
    assert(values@.take(0) =~= Seq::<PdhArrayValue<i64>>::empty());
    for index in 0..values.len()
        invariant
            expected_count > 0,
            known@.no_duplicates(),
            nominal_processors(values@.take(index as int)) == Ok::<
                Seq<PdhProcessorInstance>,
                CpuDetailError,
            >(known@),
    {
        assert(values@.take(index + 1).drop_last() =~= values@.take(index as int));
        let item = &values[index];
        let ghost parsed = processor_instance(item.instance@);
        match parse_processor_instance(item.instance.as_str()) {
            Err(error) => {
                proof {
                    lemma_nominal_error(values@, index + 1);
                }
                return Err(error);
            },
            Ok(None) => {},
            Ok(Some(id)) => {
                if item.value <= 0 {
                    proof {
                        lemma_nominal_error(values@, index + 1);
                    }
                    return invalid("CPU nominal frequency instance or value");
                }
                if contains_instance(&known, id) {
                    proof {
                        lemma_nominal_error(values@, index + 1);
                    }
                    return invalid("CPU duplicate nominal frequency instance");
                }
                known.push(id);
            },
        }
    }
    assert(values@.take(values@.len() as int) =~= values@);
    if known.len() != expected_count {
        return invalid("CPU nominal frequency instance completeness");
    }
    Ok(known)
}

/// An error among the first values is the error of all of them.
proof fn lemma_nominal_error(values: Seq<PdhArrayValue<i64>>, n: int)
    requires
        0 <= n <= values.len(),
        nominal_processors(values.take(n)) is Err,
    ensures
        nominal_processors(values) == nominal_processors(values.take(n)),
    decreases values.len(),
{
    if n < values.len() {
        assert(values.drop_last().take(n) =~= values.take(n));
        lemma_nominal_error(values.drop_last(), n);
    } else {
        assert(values.take(n) =~= values);
    }
}

proof fn lemma_values_error<T: ProcessorValue>(
    values: Seq<PdhArrayValue<T>>,
    processors: Seq<PdhProcessorInstance>,
    errors: ProcessorValueErrors,
    n: int,
)
    requires
        0 <= n <= values.len(),
        values_by_processor(values.take(n), processors, errors) is Err,
    ensures
        values_by_processor(values, processors, errors) == values_by_processor(
            values.take(n),
            processors,
            errors,
        ),
    decreases values.len(),
{
    if n < values.len() {
        assert(values.drop_last().take(n) =~= values.take(n));
        lemma_values_error(values.drop_last(), processors, errors, n);
    } else {
        assert(values.take(n) =~= values);
    }
}

fn fill_processor_values<T: ProcessorValue>(
    values: &[PdhArrayValue<T>],
    processors: &Vec<PdhProcessorInstance>,
    errors: ProcessorValueErrors,
) -> (outcome: Result<Table<PdhProcessorInstance, T>, CpuDetailError>)
    requires
        processors@.no_duplicates(),
    ensures
        match complete_values(values@, processors@, errors) {
            Ok(known) => outcome matches Ok(found) && found.well_formed() && found@ == known,
            Err(error) => outcome == Err::<Table<PdhProcessorInstance, T>, CpuDetailError>(error),
        },
{
    let mut found: Table<PdhProcessorInstance, T> = Table::new();
    assert(values@.take(0) =~= Seq::<PdhArrayValue<T>>::empty());
    for index in 0..values.len()
        invariant
            found.well_formed(),
            values_by_processor(values@.take(index as int), processors@, errors) == Ok::<
                Map<PdhProcessorInstance, T>,
                CpuDetailError,
            >(found@),
            found@.dom().subset_of(processors@.to_set()),
            found.entries().len() == found@.dom().len(),
            found@.dom().finite(),
    {
        assert(values@.take(index + 1).drop_last() =~= values@.take(index as int));
        let item = &values[index];
        match parse_processor_instance(item.instance.as_str()) {
            Err(error) => {
                proof {
                    lemma_values_error(values@, processors@, errors, index + 1);
                }
                return Err(error);
            },
            Ok(None) => {},
            Ok(Some(id)) => {
                if !item.value.is_usable() {
                    proof {
                        lemma_values_error(values@, processors@, errors, index + 1);
                    }
                    return invalid(errors.invalid);
                }
                if !contains_instance(processors, id) {
                    proof {
                        lemma_values_error(values@, processors@, errors, index + 1);
                    }
                    return invalid("CPU frequency and performance instance mismatch");
                }
                if found.contains_key(&id) {
                    proof {
                        lemma_values_error(values@, processors@, errors, index + 1);
                    }
                    return invalid(errors.duplicate);
                }
                let ghost before = found@;
                found.insert(id, item.value);
                assert(found@.dom() =~= before.dom().insert(id));
            },
        }
    }
    assert(values@.take(values@.len() as int) =~= values@);
    proof {
        processors@.unique_seq_to_set();
        if found@.dom().len() == processors@.to_set().len() {
            vstd::set_lib::lemma_subset_equality(found@.dom(), processors@.to_set());
        }
    }
    if found.len() != processors.len() {
        return invalid(errors.incomplete);
    }
    Ok(found)
}

proof fn lemma_sum_bound(values: Seq<u64>, maximum: u64)
    requires
        forall|i: int| 0 <= i < values.len() ==> #[trigger] values[i] <= maximum,
    ensures
        0 <= sum_of(values) <= values.len() * maximum,
    decreases values.len(),
{
    if values.len() > 0 {
        let shorter = values.drop_last();
        assert forall|i: int| 0 <= i < shorter.len() implies #[trigger] shorter[i] <= maximum by {
            assert(shorter[i] == values[i]);
        }
        lemma_sum_bound(shorter, maximum);
        assert(values.last() <= maximum);
        assert(values.len() * maximum == shorter.len() * maximum + maximum) by (nonlinear_arith)
            requires
                values.len() == shorter.len() + 1,
        ;
    }
}

/// The rounded average, the smallest and the largest of some frequencies.
fn summarize(frequencies: &Vec<u64>) -> (summary: (u64, u64, u64))
    requires
        frequencies@.len() > 0,
    ensures
        summarizes(summary, frequencies@),
{
    let mut sum: u128 = 0;
    let mut minimum: u64 = frequencies[0];
    let mut maximum: u64 = frequencies[0];
    for index in 0..frequencies.len()
        invariant
            frequencies@.len() > 0,
            sum == sum_of(frequencies@.take(index as int)),
            sum <= index * u64::MAX,
            frequencies@.contains(minimum),
            frequencies@.contains(maximum),
            forall|i: int| 0 <= i < index ==> minimum <= #[trigger] frequencies@[i] <= maximum,
    {
        let frequency: u64 = frequencies[index];
        assert(frequencies@.take(index + 1).drop_last() =~= frequencies@.take(index as int));
        assert(index * u64::MAX + u64::MAX == (index + 1) * u64::MAX) by (nonlinear_arith);
        assert((index + 1) * u64::MAX < 0x1_0000_0000_0000_0000 * 0x1_0000_0000_0000_0000)
            by (nonlinear_arith)
            requires
                index < 0xFFFF_FFFF_FFFF_FFFF,
        ;
        sum = sum + frequency as u128;
        if frequency < minimum {
            minimum = frequency;
        }
        if frequency > maximum {
            maximum = frequency;
        }
    }
    assert(frequencies@.take(frequencies@.len() as int) =~= frequencies@);
    let count: u128 = frequencies.len() as u128;
    proof {
        lemma_sum_bound(frequencies@, maximum);
        assert(count * maximum <= count * 0xFFFF_FFFF_FFFF_FFFF) by (nonlinear_arith)
            requires
                maximum <= 0xFFFF_FFFF_FFFF_FFFF,
        ;
        assert(count * 0xFFFF_FFFF_FFFF_FFFF + count <= 0xFFFF_FFFF_FFFF_FFFF
            * 0x1_0000_0000_0000_0000) by (nonlinear_arith)
            requires
                count <= 0xFFFF_FFFF_FFFF_FFFF,
        ;
        assert((sum + count / 2) / count as int <= maximum) by (nonlinear_arith)
            requires
                count > 0,
                sum <= count * maximum,
        ;
    }
    let average: u128 = (sum + count / 2) / count;
    (average as u64, minimum, maximum)
}

fn summarize_frequencies<P: RelativePerformance>(
    nominal: &Table<PdhProcessorInstance, i64>,
    performance: &Table<PdhProcessorInstance, P>,
    processors: &Vec<PdhProcessorInstance>,
) -> (outcome: Result<(u64, u64, u64), CpuDetailError>)
    requires
        processors@.len() > 0,
        nominal.well_formed(),
        performance.well_formed(),
        nominal@.dom() == processors@.to_set(),
        performance@.dom() == processors@.to_set(),
    ensures
        match effective_frequencies(processors@, nominal@, performance@) {
            Ok(frequencies) => outcome matches Ok(summary) && summarizes(summary, frequencies),
            Err(error) => outcome == Err::<(u64, u64, u64), CpuDetailError>(error),
        },
{
    let mut frequencies: Vec<u64> = Vec::new();
    assert(processors@.take(0) =~= Seq::<PdhProcessorInstance>::empty());
    for index in 0..processors.len()
        invariant
            nominal.well_formed(),
            performance.well_formed(),
            nominal@.dom() == processors@.to_set(),
            performance@.dom() == processors@.to_set(),
            frequencies@.len() == index,
            effective_frequencies(processors@.take(index as int), nominal@, performance@) == Ok::<
                Seq<u64>,
                CpuDetailError,
            >(frequencies@),
    {
        assert(processors@.take(index + 1).drop_last() =~= processors@.take(index as int));
        let id = processors[index];
        assert(processors@.to_set().contains(id));
        assert(nominal@.dom().contains(id) && performance@.dom().contains(id));
        match (nominal.get(&id), performance.get(&id)) {
            (Some(nominal_mhz), Some(percent)) => {
                match percent.effective_mhz(*nominal_mhz) {
                    Some(frequency) => {
                        frequencies.push(frequency);
                    },
                    None => {
                        proof {
                            lemma_effective_error(processors@, nominal@, performance@, index + 1);
                        }
                        return invalid("CPU effective frequency overflow");
                    },
                }
            },
            _ => {
                assert(false);
            },
        }
    }
    assert(processors@.take(processors@.len() as int) =~= processors@);
    Ok(summarize(&frequencies))
}

proof fn lemma_effective_error<P: RelativePerformance>(
    processors: Seq<PdhProcessorInstance>,
    nominal: Map<PdhProcessorInstance, i64>,
    performance: Map<PdhProcessorInstance, P>,
    n: int,
)
    requires
        0 <= n <= processors.len(),
        effective_frequencies(processors.take(n), nominal, performance) is Err,
    ensures
        effective_frequencies(processors, nominal, performance) == effective_frequencies(
            processors.take(n),
            nominal,
            performance,
        ),
    decreases processors.len(),
{
    if n < processors.len() {
        assert(processors.drop_last().take(n) =~= processors.take(n));
        lemma_effective_error(processors.drop_last(), nominal, performance, n);
    } else {
        assert(processors.take(n) =~= processors);
    }
}

fn frequencies_for<P: RelativePerformance>(
    nominal: &[PdhArrayValue<i64>],
    performance: &[PdhArrayValue<P>],
    processors: &Vec<PdhProcessorInstance>,
) -> (outcome: Result<(u64, u64, u64), CpuDetailError>)
    requires
        processors@.no_duplicates(),
        processors@.len() > 0,
    ensures
        match frequencies_of(nominal@, performance@, processors@) {
            Ok(frequencies) => outcome matches Ok(summary) && summarizes(summary, frequencies),
            Err(error) => outcome == Err::<(u64, u64, u64), CpuDetailError>(error),
        },
{
    let nominal_values = match fill_processor_values(nominal, processors, nominal_value_errors()) {
        Ok(values) => values,
        Err(error) => return Err(error),
    };
    let performance_values = match fill_processor_values(
        performance,
        processors,
        performance_value_errors(),
    ) {
        Ok(values) => values,
        Err(error) => return Err(error),
    };
    summarize_frequencies(&nominal_values, &performance_values, processors)
}

/// Whether a list of processors is empty or names one of them twice.
fn has_bad_identities(expected: &[LogicalProcessorId]) -> (refused: bool)
    ensures
        refused == (expected@.len() == 0 || !expected@.no_duplicates()),
{
    let mut seen = ProcessorSet::new();
    assert(seen@ =~= expected@.take(0).to_set());
    for index in 0..expected.len()
        invariant
            expected@.take(index as int).no_duplicates(),
            seen@ == expected@.take(index as int).to_set(),
    {
        let ghost earlier = expected@.take(index as int);
        let ghost id = expected@[index as int];
        proof {
            assert(expected@.take(index + 1) =~= earlier.push(id));
            lemma_push_contains(earlier, id);
        }
        if !seen.insert(expected[index]) {
            proof {
                let i = choose|i: int| 0 <= i < earlier.len() && earlier[i] == id;
                assert(expected@[i] == expected@[index as int]);
            }
            return true;
        }
        assert(seen@ =~= expected@.take(index + 1).to_set());
    }
    assert(expected@.take(expected@.len() as int) =~= expected@);
    expected.len() == 0
}

/// The average, smallest and largest effective frequency of the expected processors.
pub fn validate_frequencies<P: RelativePerformance>(
    nominal_values: &[PdhArrayValue<i64>],
    performance_values: &[PdhArrayValue<P>],
    expected: &[LogicalProcessorId],
) -> (outcome: Result<(u64, u64, u64), CpuDetailError>)
    ensures
        if expected@.len() == 0 || !expected@.no_duplicates() {
            outcome == bad::<(u64, u64, u64)>("CPU expected processor identities")
        } else {
            match expected_instances(nominal_values@, expected@.len() as int) {
                Err(error) => outcome == Err::<(u64, u64, u64), CpuDetailError>(error),
                Ok(processors) => match frequencies_of(
                    nominal_values@,
                    performance_values@,
                    processors,
                ) {
                    Ok(frequencies) => outcome matches Ok(summary) && summarizes(
                        summary,
                        frequencies,
                    ),
                    Err(error) => outcome == Err::<(u64, u64, u64), CpuDetailError>(error),
                },
            }
        },
{
    if has_bad_identities(expected) {
        return invalid("CPU expected processor identities");
    }
    match build_processor_indices(nominal_values, expected.len()) {
        Err(error) => Err(error),
        Ok(processors) => frequencies_for(nominal_values, performance_values, &processors),
    }
}

/// Which processors the counters name. It is learnt from the first sample, and every later
/// sample is held against it.
pub struct FrequencyTracker {
    expected_processor_count: usize,
    processors: Option<Vec<PdhProcessorInstance>>,
}

impl FrequencyTracker {
    pub closed spec fn expected_count(&self) -> int {
        self.expected_processor_count as int
    }

    /// The processors learnt so far.
    pub closed spec fn learnt(&self) -> Option<Seq<PdhProcessorInstance>> {
        match self.processors {
            Some(processors) => Some(processors@),
            None => None,
        }
    }

    pub closed spec fn well_formed(&self) -> bool {
        &&& self.expected_processor_count > 0
        &&& self.processors matches Some(processors) ==> processors@.len()
            == self.expected_processor_count && processors@.no_duplicates()
    }

    pub fn new(expected: &[LogicalProcessorId]) -> (outcome: Result<Self, CpuDetailError>)
        ensures
            if expected@.len() == 0 || !expected@.no_duplicates() {
                outcome == bad::<Self>("CPU PDH expected processor identities")
            } else {
                outcome matches Ok(tracker) && tracker.well_formed() && tracker.learnt() is None
                    && tracker.expected_count() == expected@.len()
            },
    {
        if has_bad_identities(expected) {
            return invalid("CPU PDH expected processor identities");
        }
        Ok(FrequencyTracker { expected_processor_count: expected.len(), processors: None })
    }

    /// The processors that a sample is held against.
    pub open spec fn processors_for(&self, nominal: Seq<PdhArrayValue<i64>>) -> Result<
        Seq<PdhProcessorInstance>,
        CpuDetailError,
    > {
        match self.learnt() {
            Some(processors) => Ok(processors),
            None => expected_instances(nominal, self.expected_count()),
        }
    }

    pub fn validate_frequencies<P: RelativePerformance>(
        &mut self,
        nominal: &[PdhArrayValue<i64>],
        performance: &[PdhArrayValue<P>],
    ) -> (outcome: Result<(u64, u64, u64), CpuDetailError>)
        requires
            old(self).well_formed(),
        ensures
            final(self).well_formed(),
            final(self).expected_count() == old(self).expected_count(),
            match old(self).processors_for(nominal@) {
                Err(error) => outcome == Err::<(u64, u64, u64), CpuDetailError>(error)
                    && final(self).learnt() == old(self).learnt(),
                Ok(processors) => {
                    &&& final(self).learnt() == Some(processors)
                    &&& match frequencies_of(nominal@, performance@, processors) {
                        Ok(frequencies) => outcome matches Ok(summary) && summarizes(
                            summary,
                            frequencies,
                        ),
                        Err(error) => outcome == Err::<(u64, u64, u64), CpuDetailError>(error),
                    }
                },
            },
    {
        if self.processors.is_none() {
            match build_processor_indices(nominal, self.expected_processor_count) {
                Err(error) => {
                    return Err(error);
                },
                Ok(processors) => {
                    self.processors = Some(processors);
                },
            }
        }
        match &self.processors {
            Some(processors) => frequencies_for(nominal, performance, processors),
            None => invalid("CPU processor index state"),
        }
    }
}

/// A frequency result is a summary of as many frequencies as there are processors: the smallest
/// is at most the average, and the average at most the largest.
pub proof fn average_lies_between(summary: (u64, u64, u64), frequencies: Seq<u64>)
    requires
        summarizes(summary, frequencies),
    ensures
        summary.1 <= summary.0 <= summary.2,
{
    let count = frequencies.len() as int;
    lemma_sum_bound(frequencies, summary.2);
    lemma_sum_lower_bound(frequencies, summary.1);
    let sum = sum_of(frequencies);
    let (average, minimum, maximum) = (summary.0 as int, summary.1 as int, summary.2 as int);
    assert(minimum <= (sum + count / 2) / count <= maximum) by (nonlinear_arith)
        requires
            count > 0,
            count * minimum <= sum <= count * maximum,
    ;
}

proof fn lemma_sum_lower_bound(values: Seq<u64>, minimum: u64)
    requires
        forall|i: int| 0 <= i < values.len() ==> minimum <= #[trigger] values[i],
    ensures
        values.len() * minimum <= sum_of(values),
    decreases values.len(),
{
    if values.len() > 0 {
        let shorter = values.drop_last();
        assert forall|i: int| 0 <= i < shorter.len() implies minimum <= #[trigger] shorter[i] by {
            assert(shorter[i] == values[i]);
        }
        lemma_sum_lower_bound(shorter, minimum);
        assert(minimum <= values.last());
        assert(values.len() * minimum == shorter.len() * minimum + minimum) by (nonlinear_arith)
            requires
                values.len() == shorter.len() + 1,
        ;
    }
}

/// Decides on the answer to the question for the size of an array: how many words to hand over.
pub fn array_words(status: u32, byte_count: u32) -> (outcome: Result<usize, CpuDetailError>)
    ensures
        if status != PDH_MORE_DATA {
            outcome == Err::<usize, CpuDetailError>(
                CpuDetailError::Pdh {
                    context: "PdhGetFormattedCounterArrayW CPU size query",
                    status,
                },
            )
        } else if byte_count == 0 || byte_count > MAX_PDH_ARRAY_BYTES {
            outcome == bad::<usize>("CPU PDH wildcard buffer size")
        } else {
            outcome matches Ok(words) && (words - 1) * WORD_SIZE < byte_count <= words * WORD_SIZE
        },
{
    if status != PDH_MORE_DATA {
        return Err(
            CpuDetailError::Pdh { context: "PdhGetFormattedCounterArrayW CPU size query", status },
        );
    }
    if byte_count == 0 || byte_count > MAX_PDH_ARRAY_BYTES {
        return invalid("CPU PDH wildcard buffer size");
    }
    Ok(words_for(byte_count))
}

/// Decides whether the array that was delivered may be read.
pub fn check_array(status: u32, byte_count: u32, item_count: u32, storage_words: usize) -> (outcome:
    Result<(), CpuDetailError>)
    ensures
        outcome == if status != ERROR_SUCCESS {
            Err::<(), CpuDetailError>(
                CpuDetailError::Pdh {
                    context: "PdhGetFormattedCounterArrayW CPU data query",
                    status,
                },
            )
        } else if !array_fits(byte_count as int, item_count as int, storage_words as int) {
            bad("CPU PDH wildcard item bounds")
        } else {
            Ok(())
        },
{
    if status != ERROR_SUCCESS {
        return Err(
            CpuDetailError::Pdh { context: "PdhGetFormattedCounterArrayW CPU data query", status },
        );
    }
    if !is_array_inside(byte_count, item_count, storage_words) {
        return invalid("CPU PDH wildcard item bounds");
    }
    Ok(())
}

pub open spec fn is_valid_status(status: u32) -> bool {
    status == PDH_CSTATUS_VALID_DATA || status == PDH_CSTATUS_NEW_DATA
}

/// Decides whether a counter value may be used.
pub fn validate_pdh_status(status: u32) -> (outcome: Result<(), CpuDetailError>)
    ensures
        outcome == if is_valid_status(status) {
            Ok(())
        } else {
            Err::<(), CpuDetailError>(
                CpuDetailError::Pdh { context: "CPU PDH formatted counter status", status },
            )
        },
{
    if status == PDH_CSTATUS_VALID_DATA || status == PDH_CSTATUS_NEW_DATA {
        Ok(())
    } else {
        Err(CpuDetailError::Pdh { context: "CPU PDH formatted counter status", status })
    }
}

/// The value of a counter without instances, from the status of the query, the status of the
/// value, and the value.
pub fn single_counter_value(query_status: u32, value_status: u32, value: i64) -> (outcome: Result<
    u64,
    CpuDetailError,
>)
    ensures
        outcome == if query_status != ERROR_SUCCESS {
            Err::<u64, CpuDetailError>(
                CpuDetailError::Pdh {
                    context: "PdhGetFormattedCounterValue for CPU diagnostics",
                    status: query_status,
                },
            )
        } else if !is_valid_status(value_status) {
            Err(
                CpuDetailError::Pdh {
                    context: "CPU PDH formatted counter status",
                    status: value_status,
                },
            )
        } else if value < 0 {
            bad("CPU PDH negative counter value")
        } else {
            Ok(value as u64)
        },
{
    if query_status != ERROR_SUCCESS {
        return Err(
            CpuDetailError::Pdh {
                context: "PdhGetFormattedCounterValue for CPU diagnostics",
                status: query_status,
            },
        );
    }
    match validate_pdh_status(value_status) {
        Err(error) => Err(error),
        Ok(()) => {
            if value < 0 {
                invalid("CPU PDH negative counter value")
            } else {
                Ok(value as u64)
            }
        },
    }
}

pub open spec fn name_error(fault: NameFault) -> CpuDetailError {
    match fault {
        NameFault::Pointer => CpuDetailError::InvalidData {
            context: "CPU PDH instance name pointer",
        },
        NameFault::Terminator => CpuDetailError::InvalidData {
            context: "CPU PDH instance name terminator",
        },
        NameFault::Encoding => CpuDetailError::InvalidData {
            context: "CPU PDH instance name encoding",
        },
    }
}

/// The value of one item with its name, or why it has none.
pub open spec fn item_value<V>(buffer: CounterBuffer, item: RawCounterItem<V>) -> Result<
    (Seq<char>, V),
    CpuDetailError,
> {
    if !is_valid_status(item.status) {
        Err(
            CpuDetailError::Pdh {
                context: "CPU PDH formatted counter status",
                status: item.status,
            },
        )
    } else {
        match name_at(buffer, item.name_address as int) {
            Ok(name) => Ok((name, item.value)),
            Err(fault) => Err(name_error(fault)),
        }
    }
}

/// The values of all items, or the first error.
pub open spec fn item_values<V>(buffer: CounterBuffer, items: Seq<RawCounterItem<V>>) -> Result<
    Seq<(Seq<char>, V)>,
    CpuDetailError,
>
    decreases items.len(),
{
    if items.len() == 0 {
        Ok(Seq::empty())
    } else {
        match item_values(buffer, items.drop_last()) {
            Err(error) => Err(error),
            Ok(before) => match item_value(buffer, items.last()) {
                Err(error) => Err(error),
                Ok(value) => Ok(before.push(value)),
            },
        }
    }
}

proof fn lemma_item_error<V>(buffer: CounterBuffer, items: Seq<RawCounterItem<V>>, n: int)
    requires
        0 <= n <= items.len(),
        item_values(buffer, items.take(n)) is Err,
    ensures
        item_values(buffer, items) == item_values(buffer, items.take(n)),
    decreases items.len(),
{
    if n < items.len() {
        assert(items.drop_last().take(n) =~= items.take(n));
        lemma_item_error(buffer, items.drop_last(), n);
    } else {
        assert(items.take(n) =~= items);
    }
}

pub open spec fn array_value_views<V>(values: Seq<PdhArrayValue<V>>) -> Seq<(Seq<char>, V)> {
    values.map_values(|value: PdhArrayValue<V>| (value.instance@, value.value))
}

/// Reads the items of an array; one that cannot be used makes the whole array unusable.
pub fn decode_counter_array<V: Copy>(
    buffer: &CounterBuffer,
    items: &Vec<RawCounterItem<V>>,
) -> (outcome: Result<Vec<PdhArrayValue<V>>, CpuDetailError>)
    requires
        buffer.well_formed(),
    ensures
        match item_values(*buffer, items@) {
            Ok(values) => outcome matches Ok(found) && array_value_views(found@) == values,
            Err(error) => outcome == Err::<Vec<PdhArrayValue<V>>, CpuDetailError>(error),
        },
{
    let mut values: Vec<PdhArrayValue<V>> = Vec::new();
    assert(items@.take(0) =~= Seq::<RawCounterItem<V>>::empty());
    assert(array_value_views(values@) =~= Seq::<(Seq<char>, V)>::empty());
    for index in 0..items.len()
        invariant
            buffer.well_formed(),
            item_values(*buffer, items@.take(index as int)) == Ok::<
                Seq<(Seq<char>, V)>,
                CpuDetailError,
            >(array_value_views(values@)),
    {
        assert(items@.take(index + 1).drop_last() =~= items@.take(index as int));
        let item = &items[index];
        if let Err(error) = validate_pdh_status(item.status) {
            proof {
                lemma_item_error(*buffer, items@, index + 1);
            }
            return Err(error);
        }
        match read_bounded_name(buffer, item.name_address) {
            Ok(name) => {
                let ghost known = values@;
                let ghost text = name@;
                values.push(PdhArrayValue { instance: name, value: item.value });
                assert(array_value_views(values@) =~= array_value_views(known).push(
                    (text, item.value),
                ));
            },
            Err(fault) => {
                proof {
                    lemma_item_error(*buffer, items@, index + 1);
                }
                return match fault {
                    NameFault::Pointer => invalid("CPU PDH instance name pointer"),
                    NameFault::Terminator => invalid("CPU PDH instance name terminator"),
                    NameFault::Encoding => invalid("CPU PDH instance name encoding"),
                };
            },
        }
    }
    assert(items@.take(items@.len() as int) =~= items@);
    Ok(values)
}

} // verus!
