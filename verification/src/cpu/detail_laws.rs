//! What is read of processors from masks, counters, properties and flags.
use vstd::prelude::*;

use super::features::{listed_features, present_names};
use super::firmware::{
    fetched_string, fetched_u16, fetched_u32, firmware_processor, order_processors,
    processor_error, CpuFirmwareProcessor, string_property, u16_property,
    u32_property, unsigned_bits, FetchedProcessor, WmiProperty, WmiValue, CIM_STRING, CIM_UINT16,
    CIM_UINT32,
};
use super::model::{CpuArchitecture, CpuDetailError, LogicalProcessorId};
use super::native::{
    cache_record_key, expected_members, group_record_error, mask_at, mask_group_at,
    masked_processors, CACHE_GROUP_COUNT, CACHE_MASKS, NODE_GROUP_COUNT, NODE_MASKS,
};
use super::pdh::{item_value, item_values};
use crate::bits::{bit_count, bit_set, bits_below};
use crate::bytes::{u16_at, u32_at, u64_at};
use crate::pdh::{name_at, CounterBuffer, RawCounterItem};
use crate::text::{is_space, text_before, trimmed};
use crate::utf16::{decoding_undoes_encoding, encoded};

verus! {

/// Numbers stand in memory with their lowest byte first.
pub proof fn lowest_byte_comes_first(bytes: Seq<u8>, offset: int)
    requires
        0 <= offset,
        offset + 8 <= bytes.len(),
    ensures
        u16_at(bytes, offset) == bytes[offset] + 0x100 * bytes[offset + 1],
        u32_at(bytes, offset) == bytes[offset] + 0x100 * bytes[offset + 1] + 0x1_0000 * bytes[offset
            + 2] + 0x100_0000 * bytes[offset + 3],
        u64_at(bytes, offset) == u32_at(bytes, offset) + 0x1_0000_0000 * u32_at(bytes, offset + 4),
        0 <= u16_at(bytes, offset) <= u16::MAX,
        0 <= u32_at(bytes, offset) <= u32::MAX,
{
}

/// A record of a core, a package, a die, a module or a memory node names exactly the processors
/// whose bits are set in its masks, each in the group that stands behind its mask. The number of
/// masks stands before them.
pub proof fn named_processors_have_their_bits_set(
    record: Seq<u8>,
    expected: Set<LogicalProcessorId>,
    id: LogicalProcessorId,
)
    requires
        expected_members(record, NODE_GROUP_COUNT as int, NODE_MASKS as int, expected) is Ok,
    ensures
        ({
            let members = expected_members(
                record,
                NODE_GROUP_COUNT as int,
                NODE_MASKS as int,
                expected,
            )->Ok_0;
            &&& members.contains(id) <==> exists|i: int|
                0 <= i < u16_at(record, 30) && is_named(record, 32, #[trigger] at(i), id)
            &&& members.contains(id) ==> expected.contains(id)
            &&& u16_at(record, 30) > 0
        }),
{
    lemma_named(record, 32, u16_at(record, 30), id);
}

/// A record of a cache is accepted only if it names some of the expected processors in the same
/// way, with the number of masks and the masks in their own places.
pub proof fn caches_name_their_processors(
    record: Seq<u8>,
    expected: Set<LogicalProcessorId>,
    id: LogicalProcessorId,
)
    requires
        cache_record_key(record, expected) is Ok,
        exists|i: int| 0 <= i < u16_at(record, 38) && is_named(record, 40, #[trigger] at(i), id),
    ensures
        expected.contains(id),
        1 <= cache_record_key(record, expected)->Ok_0.level <= 3,
        cache_record_key(record, expected)->Ok_0.bytes > 0,
        cache_record_key(record, expected)->Ok_0.line_size > 0,
{
    lemma_named(record, 40, u16_at(record, 38), id);
    let members = expected_members(
        record,
        CACHE_GROUP_COUNT as int,
        CACHE_MASKS as int,
        expected,
    )->Ok_0;
    assert(members.contains(id));
    assert(0 <= u32_at(record, 12) <= u32::MAX);
    assert(0 <= u16_at(record, 10) <= u16::MAX);
}

/// The place of a mask among the masks of a record.
pub open spec fn at(i: int) -> int {
    i
}

/// Whether the mask at a place names a processor: its group is that of the mask, and the bit of its
/// number is set.
pub open spec fn is_named(record: Seq<u8>, masks: int, i: int, id: LogicalProcessorId) -> bool {
    u16_at(record, masks + 16 * i + 8) == id.group && bit_set(
        u64_at(record, masks + 16 * i) as u64,
        id.number as int,
    )
}

proof fn lemma_named(record: Seq<u8>, masks: int, count: int, id: LogicalProcessorId)
    ensures
        masked_processors(record, masks, count).contains(id) <==> exists|i: int|
            0 <= i < count && is_named(record, masks, #[trigger] at(i), id),
{
    if masked_processors(record, masks, count).contains(id) {
        let i = choose|i: int|
            0 <= i < count && #[trigger] mask_group_at(record, masks, i) == id.group && bit_set(
                mask_at(record, masks, i),
                id.number as int,
            );
        assert(0 <= u16_at(record, masks + i * 16 + 8) <= u16::MAX);
        assert(is_named(record, masks, at(i), id));
    }
    if exists|i: int| 0 <= i < count && is_named(record, masks, #[trigger] at(i), id) {
        let i = choose|i: int| 0 <= i < count && is_named(record, masks, #[trigger] at(i), id);
        assert(mask_group_at(record, masks, i) == id.group);
    }
}

/// A group record is accepted only if the processors that it counts as active, group by group, are
/// the expected ones, and every count is that of the bits in the mask.
pub proof fn active_groups_are_the_expected_ones(
    record: Seq<u8>,
    expected: Set<LogicalProcessorId>,
    id: LogicalProcessorId,
)
    requires
        group_record_error(record, expected) is None,
    ensures
        expected.contains(id) <==> id.group < u16_at(record, 10) && bit_set(
            u64_at(record, 32 + 48 * (id.group as int) + 40) as u64,
            id.number as int,
        ),
        0 < u16_at(record, 10) <= u16_at(record, 8),
        forall|g: int|
            0 <= g < u16_at(record, 10) ==> bit_count(#[trigger] active_mask(record, g))
                == record[32 + 48 * g + 1] && 0 < record[32 + 48 * g + 1] <= record[32 + 48 * g],
{
    assert forall|g: int| 0 <= g < u16_at(record, 10) implies bit_count(
        #[trigger] active_mask(record, g),
    ) == record[32 + 48 * g + 1] && 0 < record[32 + 48 * g + 1] <= record[32 + 48 * g] by {
        assert(super::native::good_group(record, g));
    }
}

/// The mask of the active processors of a group.
pub open spec fn active_mask(record: Seq<u8>, group: int) -> u64 {
    u64_at(record, 32 + 48 * group + 40) as u64
}

/// The bit of a processor is that of its number, counted from the lowest; a mask with one bit names
/// one processor, and there is none beyond the width of the mask.
pub proof fn one_bit_names_one_processor(place: u64, number: u64)
    requires
        place < 64,
    ensures
        bit_set(1u64 << place, number as int) <==> number == place,
        bit_set(u64::MAX, number as int) <==> number < 64,
        !bit_set(0, number as int),
{
    if number < 64 {
        assert(((1u64 << place) >> number) & 1 == 1 <==> number == place) by (bit_vector)
            requires
                place < 64,
                number < 64,
        ;
        assert((0xFFFF_FFFF_FFFF_FFFFu64 >> number) & 1 == 1 && (0u64 >> number) & 1 == 0)
            by (bit_vector)
            requires
                number < 64,
        ;
    }
}

/// The number of bits is the number of places at which a bit is set.
pub proof fn bits_are_counted(mask: u64, count: nat)
    requires
        count <= 64,
    ensures
        bits_below(mask, count) == set_places(mask, count).len(),
        set_places(mask, count).finite(),
    decreases count,
{
    if count == 0 {
        assert(set_places(mask, 0) =~= Set::<int>::empty());
    } else {
        bits_are_counted(mask, (count - 1) as nat);
        let before = set_places(mask, (count - 1) as nat);
        if bit_set(mask, count - 1) {
            assert(set_places(mask, count) =~= before.insert(count - 1));
        } else {
            assert(set_places(mask, count) =~= before);
        }
    }
}

/// The places below `count` at which a bit is set.
pub open spec fn set_places(mask: u64, count: nat) -> Set<int> {
    Set::new(|place: int| 0 <= place < count && bit_set(mask, place))
}

/// Every item of a counter array gives its own value with its own name, in order; where one cannot
/// be used, there is none, but the error of the first of them.
pub proof fn arrays_give_all_or_the_first_error<V>(
    buffer: CounterBuffer,
    items: Seq<RawCounterItem<V>>,
)
    ensures
        match item_values(buffer, items) {
            Ok(values) => values.len() == items.len() && forall|i: int|
                0 <= i < items.len() ==> (#[trigger] values[i]).1 == items[i].value && name_at(
                    buffer,
                    items[i].name_address as int,
                ) == Ok::<Seq<char>, crate::pdh::NameFault>(values[i].0) && (items[i].status == 0
                    || items[i].status == 1),
            Err(error) => exists|i: int|
                0 <= i < items.len() && item_value(buffer, #[trigger] items[i]) == Err::<
                    (Seq<char>, V),
                    CpuDetailError,
                >(error) && forall|j: int|
                    0 <= j < i ==> item_value(buffer, #[trigger] items[j]) is Ok,
        },
    decreases items.len(),
{
    if items.len() > 0 {
        let front = items.drop_last();
        let n = items.len() - 1;
        arrays_give_all_or_the_first_error(buffer, front);
        assert(items[n] == items.last());
        match item_values(buffer, front) {
            Ok(before) => {
                match item_values(buffer, items) {
                    Ok(values) => {
                        assert forall|i: int| 0 <= i < items.len() implies (
                        #[trigger] values[i]).1 == items[i].value && name_at(
                            buffer,
                            items[i].name_address as int,
                        ) == Ok::<Seq<char>, crate::pdh::NameFault>(values[i].0) && (
                        items[i].status == 0 || items[i].status == 1) by {
                            if i < n {
                                assert(values[i] == before[i]);
                                assert(front[i] == items[i]);
                            }
                        }
                    },
                    Err(error) => {
                        assert forall|j: int| 0 <= j < n implies item_value(
                            buffer,
                            #[trigger] items[j],
                        ) is Ok by {
                            assert(front[j] == items[j]);
                            assert(before[j].1 == front[j].value);
                        }
                        assert(item_value(buffer, items[n]) == Err::<
                            (Seq<char>, V),
                            CpuDetailError,
                        >(error));
                    },
                }
            },
            Err(error) => {
                let i = choose|i: int|
                    0 <= i < front.len() && item_value(buffer, #[trigger] front[i]) == Err::<
                        (Seq<char>, V),
                        CpuDetailError,
                    >(error) && forall|j: int|
                        0 <= j < i ==> item_value(buffer, #[trigger] front[j]) is Ok;
                assert(items[i] == front[i]);
                assert forall|j: int| 0 <= j < i implies item_value(buffer, #[trigger] items[j])
                    is Ok by {
                    assert(front[j] == items[j]);
                }
            },
        }
    }
}

/// A number that travels as a signed one is the same up to a multiple of its range.
pub proof fn unsigned_numbers_keep_their_bits(value: i32)
    ensures
        value >= 0 ==> unsigned_bits(value) == value,
        value < 0 ==> unsigned_bits(value) == value + 0x1_0000_0000,
{
}

/// A property is read only under its own type: a text without the space around it, and nothing
/// where there is nothing but space; a number as it is, where it is in its range.
pub proof fn properties_are_read_by_their_types(property: WmiProperty)
    ensures
        string_property(property) is Ok ==> property.cim_type == CIM_STRING,
        u16_property(property) is Ok ==> property.cim_type == CIM_UINT16,
        u32_property(property) is Ok ==> property.cim_type == CIM_UINT32,
        property.cim_type == CIM_STRING && property.value is Empty ==> string_property(property)
            == Ok::<Option<Seq<char>>, CpuDetailError>(None),
        property.cim_type == CIM_UINT16 ==> (property.value matches WmiValue::Signed(value) ==> (
        u16_property(property) is Ok <==> 0 <= value <= 0xFFFF) && (u16_property(property)
            matches Ok(Some(number)) ==> number == value)),
        u16_property(property) matches Ok(None) ==> property.value is Empty,
        u32_property(property) matches Ok(None) ==> property.value is Empty,
        property.cim_type == CIM_UINT32 ==> (property.value matches WmiValue::Signed(value)
            ==> u32_property(property) == Ok::<Option<u32>, CpuDetailError>(
            Some(unsigned_bits(value)),
        )),
        string_property(property) matches Ok(Some(text)) ==> text.len() > 0
            && trimmed(text) == text,
{
    if let Ok(Some(text)) = string_property(property) {
        let units = property.value->Text_0;
        let whole = crate::utf16::decoded(units@)->0;
        crate::processes::debugger_laws::trimming_takes_the_space_around(whole);
        assert(text == trimmed(whole));
        assert(!is_space(text[0]) && !is_space(text.last()));
    }
}

/// A text without space around it is read as it was written.
pub proof fn written_texts_are_read(property: WmiProperty, units: Vec<u16>, text: Seq<char>)
    requires
        property.cim_type == CIM_STRING,
        property.value == WmiValue::Text(units),
        units@ == encoded(text),
        text.len() > 0,
        !is_space(text[0]),
        !is_space(text.last()),
    ensures
        string_property(property) == Ok::<Option<Seq<char>>, CpuDetailError>(Some(text)),
{
    decoding_undoes_encoding(text);
    assert(trimmed(text) == text);
}

/// A processor is refused exactly if one of its properties cannot be read, or it has no identifier.
pub proof fn processors_need_readable_properties(raw: FetchedProcessor)
    ensures
        processor_error(raw) is None <==> {
            &&& fetched_string(raw.device_id) matches Ok(Some(_))
            &&& fetched_string(raw.name) is Ok
            &&& fetched_string(raw.manufacturer) is Ok
            &&& fetched_string(raw.socket) is Ok
            &&& fetched_string(raw.processor_id) is Ok
            &&& fetched_u16(raw.family) is Ok
            &&& fetched_u16(raw.level) is Ok
            &&& fetched_u16(raw.revision) is Ok
            &&& fetched_string(raw.stepping) is Ok
            &&& fetched_u16(raw.address_width) is Ok
            &&& fetched_u16(raw.data_width) is Ok
            &&& fetched_u32(raw.max_clock_mhz) is Ok
        },
        fetched_string(raw.device_id) matches Err(error) ==> processor_error(raw) == Some(error),
{
}

/// The features that are named are those that are listed and present: all of them, no other, and in
/// the order of the list.
pub proof fn present_features_are_named(present: Seq<u32>, count: int)
    requires
        0 <= count <= listed_features().len(),
    ensures
        forall|k: int|
            0 <= k < count && present.contains((#[trigger] listed_features()[k]).0)
                ==> present_names(present, count).contains(listed_features()[k].1),
        forall|i: int|
            0 <= i < present_names(present, count).len() ==> is_present_name(
                present,
                count,
                #[trigger] present_names(present, count)[i],
            ),
        (forall|k: int| 0 <= k < count ==> present.contains((#[trigger] listed_features()[k]).0))
            ==> present_names(present, count).len() == count,
    decreases count,
{
    if count > 0 {
        present_features_are_named(present, count - 1);
        let before = present_names(present, count - 1);
        let after = present_names(present, count);
        let n = count - 1;
        assert forall|k: int|
            0 <= k < count && present.contains(
                (#[trigger] listed_features()[k]).0,
            ) implies after.contains(listed_features()[k].1) by {
            if k < n {
                let name = listed_features()[k].1;
                let i = choose|i: int| 0 <= i < before.len() && before[i] == name;
                assert(after[i] == name);
            } else {
                assert(after[before.len() as int] == listed_features()[n].1);
            }
        }
        assert forall|i: int| 0 <= i < after.len() implies is_present_name(
            present,
            count,
            #[trigger] after[i],
        ) by {
            if i < before.len() {
                assert(after[i] == before[i]);
                assert(is_present_name(present, count - 1, before[i]));
                let k = choose|k: int|
                    0 <= k < count - 1 && present.contains((#[trigger] listed_features()[k]).0)
                        && listed_features()[k].1 == before[i];
                assert(listed_features()[k].1 == after[i]);
            } else {
                assert(listed_features()[n].1 == after[i]);
            }
        }
        if forall|k: int|
            0 <= k < count ==> present.contains((#[trigger] listed_features()[k]).0) {
            assert(present.contains(listed_features()[n].0));
        }
    }
}

/// Whether a name is that of a listed feature that is present.
pub open spec fn is_present_name(present: Seq<u32>, count: int, name: &'static str) -> bool {
    exists|k: int|
        0 <= k < count && present.contains((#[trigger] listed_features()[k]).0)
            && listed_features()[k].1 == name
}

/// Every property of a processor stands in its own field: texts and numbers as they were fetched.
pub proof fn properties_stand_in_their_fields(
    raw: FetchedProcessor,
    processor: CpuFirmwareProcessor,
    text: Seq<char>,
    number: u16,
    clock: u32,
)
    requires
        call_ensures(
            firmware_processor,
            (&raw,),
            Ok::<CpuFirmwareProcessor, CpuDetailError>(processor),
        ),
    ensures
        fetched_string(raw.device_id) == fetched_text(text) ==> processor.device_id@ == text,
        fetched_string(raw.name) == fetched_text(text) ==> (processor.name matches Some(name)
            && name@ == text),
        fetched_string(raw.manufacturer) == fetched_text(text) ==> (
        processor.manufacturer matches Some(manufacturer) && manufacturer@ == text),
        fetched_string(raw.socket) == fetched_text(text) ==> (processor.socket matches Some(socket)
            && socket@ == text),
        fetched_string(raw.processor_id) == fetched_text(text) ==> (
        processor.processor_id matches Some(id) && id@ == text),
        fetched_string(raw.stepping) == fetched_text(text) ==> (processor.stepping matches Some(
            stepping,
        ) && stepping@ == text),
        fetched_u16(raw.family) == fetched_number(number) ==> processor.family == Some(number),
        fetched_u16(raw.level) == fetched_number(number) ==> processor.level == Some(number),
        fetched_u16(raw.revision) == fetched_number(number) ==> processor.revision == Some(number),
        fetched_u16(raw.address_width) == fetched_number(number) ==> processor.address_width
            == Some(number),
        fetched_u16(raw.data_width) == fetched_number(number) ==> processor.data_width == Some(
            number,
        ),
        fetched_u32(raw.max_clock_mhz) == Ok::<Option<u32>, CpuDetailError>(Some(clock))
            ==> processor.max_clock_mhz == Some(clock),
{
}

/// A text that was fetched.
pub open spec fn fetched_text(text: Seq<char>) -> Result<Option<Seq<char>>, CpuDetailError> {
    Ok(Some(text))
}

/// A number that was fetched.
pub open spec fn fetched_number(number: u16) -> Result<Option<u16>, CpuDetailError> {
    Ok(Some(number))
}

/// The processors that are listed are those that were read, none of them lost or added; no two of
/// them have the same identifier, and two that do are refused.
pub proof fn listed_processors_are_those_read(
    processors: Vec<CpuFirmwareProcessor>,
    sorted: Vec<CpuFirmwareProcessor>,
    i: int,
    j: int,
)
    requires
        call_ensures(
            order_processors,
            (processors,),
            Ok::<Vec<CpuFirmwareProcessor>, CpuDetailError>(sorted),
        ),
    ensures
        sorted@.to_multiset() == processors@.to_multiset(),
        processors@.len() > 0,
        0 <= i < j < processors@.len() ==> processors@[i].device_id@ != processors@[j].device_id@,
        0 <= i < j < sorted@.len() ==> text_before(sorted@[i].device_id@, sorted@[j].device_id@),
{
}

/// Every value of Windows stands for the architecture that it is defined for.
pub proof fn values_stand_for_architectures(value: u16, architecture: CpuArchitecture)
    requires
        call_ensures(CpuArchitecture::from_windows, (value,), architecture),
    ensures
        architecture == CpuArchitecture::X86 <==> value == 0,
        architecture == CpuArchitecture::Mips <==> value == 1,
        architecture == CpuArchitecture::Alpha <==> value == 2,
        architecture == CpuArchitecture::PowerPc <==> value == 3,
        architecture == CpuArchitecture::Shx <==> value == 4,
        architecture == CpuArchitecture::Arm <==> value == 5,
        architecture == CpuArchitecture::Ia64 <==> value == 6,
        architecture == CpuArchitecture::Alpha64 <==> value == 7,
        architecture == CpuArchitecture::Msil <==> value == 8,
        architecture == CpuArchitecture::X64 <==> value == 9,
        architecture == CpuArchitecture::X86OnX64 <==> value == 10,
        architecture == CpuArchitecture::Neutral <==> value == 11,
        architecture == CpuArchitecture::Arm64 <==> value == 12,
        architecture == CpuArchitecture::Arm32OnArm64 <==> value == 13,
        architecture == CpuArchitecture::X86OnArm64 <==> value == 14,
        value > 14 ==> architecture == CpuArchitecture::Unknown(value),
{
}

} // verus!
