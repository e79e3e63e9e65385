//! What the firmware says of the processors, read from management properties.
use vstd::prelude::*;

use super::model::{invalid, CpuComponentUpdate, CpuDetailError, CpuTopologyKey};
use super::native::bad;
use crate::text::{
    chars_of, is_text_before, lemma_text_order, lemma_text_order_chain, same_text, string_of,
    text_before, trim, trimmed,
};
use crate::utf16::{decode, decoded};

verus! {

pub const CIM_STRING: i32 = 8;

pub const CIM_UINT16: i32 = 18;

pub const CIM_UINT32: i32 = 19;

#[derive(Clone, Debug, PartialEq, Eq)]
pub struct CpuFirmwareProcessor {
    pub device_id: String,
    pub name: Option<String>,
    pub manufacturer: Option<String>,
    pub socket: Option<String>,
    pub processor_id: Option<String>,
    pub family: Option<u16>,
    pub level: Option<u16>,
    pub revision: Option<u16>,
    pub stepping: Option<String>,
    pub address_width: Option<u16>,
    pub data_width: Option<u16>,
    pub max_clock_mhz: Option<u32>,
}

#[derive(Clone, Debug, PartialEq, Eq)]
pub struct CpuFirmwareSnapshot {
    pub topology_key: CpuTopologyKey,
    pub firmware: CpuComponentUpdate<Vec<CpuFirmwareProcessor>>,
}

/// The value of a management property: nothing, text, a number, or something else.
#[derive(Clone, Debug, PartialEq, Eq)]
pub enum WmiValue {
    Empty,
    Text(Vec<u16>),
    Signed(i32),
    Other,
}

/// A management property with its declared type.
#[derive(Clone, Debug, PartialEq, Eq)]
pub struct WmiProperty {
    pub cim_type: i32,
    pub value: WmiValue,
}

/// Unsigned 16-bit properties travel as signed 32-bit numbers.
pub fn wmi_i4_to_u16(value: i32) -> (outcome: Result<u16, CpuDetailError>)
    ensures
        outcome == if 0 <= value <= u16::MAX {
            Ok(value as u16)
        } else {
            bad("Win32_Processor u16 property overflow")
        },
{
    if value < 0 || value > u16::MAX as i32 {
        return invalid("Win32_Processor u16 property overflow");
    }
    Ok(value as u16)
}

/// The unsigned number whose bits a signed one has.
pub open spec fn unsigned_bits(value: i32) -> u32 {
    if value >= 0 {
        value as u32
    } else {
        (value + 0x1_0000_0000) as u32
    }
}

/// Unsigned 32-bit properties travel as signed 32-bit numbers with the same bits.
pub fn wmi_i4_to_u32(value: i32) -> (bits: u32)
    ensures
        bits == unsigned_bits(value),
{
    if value >= 0 {
        value as u32
    } else {
        (value as i64 + 0x1_0000_0000) as u32
    }
}

/// The text of a string property; none where it is empty but for white space.
pub open spec fn string_property(property: WmiProperty) -> Result<Option<Seq<char>>, CpuDetailError> {
    if property.cim_type != CIM_STRING {
        bad("Win32_Processor string CIM type")
    } else {
        match property.value {
            WmiValue::Empty => Ok(None),
            WmiValue::Text(units) => match decoded(units@) {
                None => bad("Win32_Processor string encoding"),
                Some(text) => Ok(
                    if trimmed(text).len() == 0 {
                        None
                    } else {
                        Some(trimmed(text))
                    },
                ),
            },
            _ => bad("Win32_Processor string VARIANT type"),
        }
    }
}

pub open spec fn u16_property(property: WmiProperty) -> Result<Option<u16>, CpuDetailError> {
    if property.cim_type != CIM_UINT16 {
        bad("Win32_Processor u16 CIM type")
    } else {
        match property.value {
            WmiValue::Empty => Ok(None),
            WmiValue::Signed(value) => if 0 <= value <= u16::MAX {
                Ok(Some(value as u16))
            } else {
                bad("Win32_Processor u16 property overflow")
            },
            _ => bad("Win32_Processor u16 VARIANT type"),
        }
    }
}

pub open spec fn u32_property(property: WmiProperty) -> Result<Option<u32>, CpuDetailError> {
    if property.cim_type != CIM_UINT32 {
        bad("Win32_Processor u32 CIM type")
    } else {
        match property.value {
            WmiValue::Empty => Ok(None),
            WmiValue::Signed(value) => Ok(Some(unsigned_bits(value))),
            _ => bad("Win32_Processor u32 VARIANT type"),
        }
    }
}

/// A property as it was fetched, or why it could not be.
pub type Fetched = Result<WmiProperty, CpuDetailError>;

pub open spec fn option_view(text: Option<String>) -> Option<Seq<char>> {
    match text {
        Some(text) => Some(text@),
        None => None,
    }
}

pub fn wmi_string(fetched: &Fetched) -> (outcome: Result<Option<String>, CpuDetailError>)
    ensures
        match fetched_string(*fetched) {
            Ok(text) => outcome matches Ok(found) && option_view(found) == text,
            Err(error) => outcome == Err::<Option<String>, CpuDetailError>(error),
        },
{
    match fetched {
        Err(error) => Err(copied_error(error)),
        Ok(property) => {
            if property.cim_type != CIM_STRING {
                return invalid("Win32_Processor string CIM type");
            }
            match &property.value {
                WmiValue::Empty => Ok(None),
                WmiValue::Text(units) => {
                    match decode(units.as_slice()) {
                        None => invalid("Win32_Processor string encoding"),
                        Some(text) => {
                            let content = trim(chars_of(text.as_str()).as_slice());
                            if content.len() == 0 {
                                Ok(None)
                            } else {
                                Ok(Some(string_of(content.as_slice())))
                            }
                        },
                    }
                },
                _ => invalid("Win32_Processor string VARIANT type"),
            }
        },
    }
}

pub open spec fn fetched_string(fetched: Fetched) -> Result<Option<Seq<char>>, CpuDetailError> {
    match fetched {
        Err(error) => Err(error),
        Ok(property) => string_property(property),
    }
}

pub open spec fn fetched_u16(fetched: Fetched) -> Result<Option<u16>, CpuDetailError> {
    match fetched {
        Err(error) => Err(error),
        Ok(property) => u16_property(property),
    }
}

pub open spec fn fetched_u32(fetched: Fetched) -> Result<Option<u32>, CpuDetailError> {
    match fetched {
        Err(error) => Err(error),
        Ok(property) => u32_property(property),
    }
}

pub fn copied_error(error: &CpuDetailError) -> (copied: CpuDetailError)
    ensures
        copied == *error,
{
    match error {
        CpuDetailError::Pdh { context, status } => CpuDetailError::Pdh { context, status: *status },
        CpuDetailError::HResult { context, code } => CpuDetailError::HResult {
            context,
            code: *code,
        },
        CpuDetailError::Win32 { context, code } => CpuDetailError::Win32 { context, code: *code },
        CpuDetailError::InvalidData { context } => CpuDetailError::InvalidData { context },
    }
}

pub fn wmi_u16(fetched: &Fetched) -> (outcome: Result<Option<u16>, CpuDetailError>)
    ensures
        outcome == fetched_u16(*fetched),
{
    match fetched {
        Err(error) => Err(copied_error(error)),
        Ok(property) => {
            if property.cim_type != CIM_UINT16 {
                return invalid("Win32_Processor u16 CIM type");
            }
            match &property.value {
                WmiValue::Empty => Ok(None),
                WmiValue::Signed(value) => match wmi_i4_to_u16(*value) {
                    Ok(value) => Ok(Some(value)),
                    Err(error) => Err(error),
                },
                _ => invalid("Win32_Processor u16 VARIANT type"),
            }
        },
    }
}

pub fn wmi_u32(fetched: &Fetched) -> (outcome: Result<Option<u32>, CpuDetailError>)
    ensures
        outcome == fetched_u32(*fetched),
{
    match fetched {
        Err(error) => Err(copied_error(error)),
        Ok(property) => {
            if property.cim_type != CIM_UINT32 {
                return invalid("Win32_Processor u32 CIM type");
            }
            match &property.value {
                WmiValue::Empty => Ok(None),
                WmiValue::Signed(value) => Ok(Some(wmi_i4_to_u32(*value))),
                _ => invalid("Win32_Processor u32 VARIANT type"),
            }
        },
    }
}

/// The properties of one processor, as they were fetched.
pub struct FetchedProcessor {
    pub device_id: Fetched,
    pub name: Fetched,
    pub manufacturer: Fetched,
    pub socket: Fetched,
    pub processor_id: Fetched,
    pub family: Fetched,
    pub level: Fetched,
    pub revision: Fetched,
    pub stepping: Fetched,
    pub address_width: Fetched,
    pub data_width: Fetched,
    pub max_clock_mhz: Fetched,
}

pub open spec fn string_error(fetched: Fetched) -> Option<CpuDetailError> {
    match fetched_string(fetched) {
        Ok(_) => None,
        Err(error) => Some(error),
    }
}

pub open spec fn u16_error(fetched: Fetched) -> Option<CpuDetailError> {
    match fetched_u16(fetched) {
        Ok(_) => None,
        Err(error) => Some(error),
    }
}

pub open spec fn or_error(first: Option<CpuDetailError>, second: Option<CpuDetailError>) -> Option<
    CpuDetailError,
> {
    if first is Some {
        first
    } else {
        second
    }
}

/// Why a processor is refused: the first property, in the order of the fields, that cannot be
/// read, or the identifier that it lacks.
pub open spec fn processor_error(raw: FetchedProcessor) -> Option<CpuDetailError> {
    let identifier = match fetched_string(raw.device_id) {
        Err(error) => Some(error),
        Ok(None) => Some(CpuDetailError::InvalidData { context: "Win32_Processor DeviceID" }),
        Ok(Some(_)) => None,
    };
    let texts = or_error(
        string_error(raw.name),
        or_error(
            string_error(raw.manufacturer),
            or_error(string_error(raw.socket), string_error(raw.processor_id)),
        ),
    );
    let numbers = or_error(
        u16_error(raw.family),
        or_error(u16_error(raw.level), u16_error(raw.revision)),
    );
    let widths = or_error(u16_error(raw.address_width), u16_error(raw.data_width));
    let clock = match fetched_u32(raw.max_clock_mhz) {
        Ok(_) => None,
        Err(error) => Some(error),
    };
    or_error(
        identifier,
        or_error(
            texts,
            or_error(numbers, or_error(string_error(raw.stepping), or_error(widths, clock))),
        ),
    )
}

/// Whether `processor` holds what the properties say.
pub open spec fn is_processor(processor: CpuFirmwareProcessor, raw: FetchedProcessor) -> bool {
    &&& fetched_string(raw.device_id) == Ok::<Option<Seq<char>>, CpuDetailError>(
        Some(processor.device_id@),
    )
    &&& fetched_string(raw.name) == Ok::<Option<Seq<char>>, CpuDetailError>(
        option_view(processor.name),
    )
    &&& fetched_string(raw.manufacturer) == Ok::<Option<Seq<char>>, CpuDetailError>(
        option_view(processor.manufacturer),
    )
    &&& fetched_string(raw.socket) == Ok::<Option<Seq<char>>, CpuDetailError>(
        option_view(processor.socket),
    )
    &&& fetched_string(raw.processor_id) == Ok::<Option<Seq<char>>, CpuDetailError>(
        option_view(processor.processor_id),
    )
    &&& fetched_u16(raw.family) == Ok::<Option<u16>, CpuDetailError>(processor.family)
    &&& fetched_u16(raw.level) == Ok::<Option<u16>, CpuDetailError>(processor.level)
    &&& fetched_u16(raw.revision) == Ok::<Option<u16>, CpuDetailError>(processor.revision)
    &&& fetched_string(raw.stepping) == Ok::<Option<Seq<char>>, CpuDetailError>(
        option_view(processor.stepping),
    )
    &&& fetched_u16(raw.address_width) == Ok::<Option<u16>, CpuDetailError>(
        processor.address_width,
    )
    &&& fetched_u16(raw.data_width) == Ok::<Option<u16>, CpuDetailError>(processor.data_width)
    &&& fetched_u32(raw.max_clock_mhz) == Ok::<Option<u32>, CpuDetailError>(
        processor.max_clock_mhz,
    )
}

/// Reads the properties of one processor.
pub fn firmware_processor(raw: &FetchedProcessor) -> (outcome: Result<
    CpuFirmwareProcessor,
    CpuDetailError,
>)
    ensures
        match processor_error(*raw) {
            Some(error) => outcome == Err::<CpuFirmwareProcessor, CpuDetailError>(error),
            None => outcome matches Ok(processor) && is_processor(processor, *raw),
        },
{
    let device_id = match wmi_string(&raw.device_id) {
        Ok(Some(device_id)) => device_id,
        Ok(None) => return invalid("Win32_Processor DeviceID"),
        Err(error) => return Err(error),
    };
    Ok(
        CpuFirmwareProcessor {
            device_id,
            name: wmi_string(&raw.name)?,
            manufacturer: wmi_string(&raw.manufacturer)?,
            socket: wmi_string(&raw.socket)?,
            processor_id: wmi_string(&raw.processor_id)?,
            family: wmi_u16(&raw.family)?,
            level: wmi_u16(&raw.level)?,
            revision: wmi_u16(&raw.revision)?,
            stepping: wmi_string(&raw.stepping)?,
            address_width: wmi_u16(&raw.address_width)?,
            data_width: wmi_u16(&raw.data_width)?,
            max_clock_mhz: wmi_u32(&raw.max_clock_mhz)?,
        },
    )
}

/// Whether the processors are listed by identifier, each identifier once.
pub open spec fn by_identifier(processors: Seq<CpuFirmwareProcessor>) -> bool {
    forall|i: int, j: int|
        0 <= i < j < processors.len() ==> text_before(
            (#[trigger] processors[i]).device_id@,
            (#[trigger] processors[j]).device_id@,
        )
}

/// Whether two processors have one identifier.
pub open spec fn repeats_identifier(processors: Seq<CpuFirmwareProcessor>) -> bool {
    exists|i: int, j: int|
        0 <= i < j < processors.len() && (#[trigger] processors[i]).device_id@ == (
        #[trigger] processors[j]).device_id@
}

/// Puts one processor into its place; tells whether its identifier was there already.
fn insert_by_identifier(
    sorted: &mut Vec<CpuFirmwareProcessor>,
    processor: CpuFirmwareProcessor,
) -> (repeated: bool)
    requires
        by_identifier(old(sorted)@),
    ensures
        repeated == exists|i: int|
            0 <= i < old(sorted)@.len() && (#[trigger] old(sorted)@[i]).device_id@
                == processor.device_id@,
        !repeated ==> by_identifier(final(sorted)@) && final(sorted)@.to_multiset() == old(
            sorted,
        )@.to_multiset().insert(processor),
{
    let ghost earlier = sorted@;
    let mut at: usize = 0;
    while at < sorted.len() && is_text_before(
        sorted[at].device_id.as_str(),
        processor.device_id.as_str(),
    )
        invariant
            at <= sorted@.len(),
            sorted@ == earlier,
            forall|i: int|
                0 <= i < at ==> text_before(
                    (#[trigger] sorted@[i]).device_id@,
                    processor.device_id@,
                ),
        decreases sorted.len() - at,
    {
        at = at + 1;
    }
    let ghost id = processor.device_id@;
    proof {
        assert forall|i: int| 0 <= i < at implies (#[trigger] earlier[i]).device_id@ != id by {
            lemma_text_order(earlier[i].device_id@, id);
        }
    }
    if at < sorted.len() && same_text(sorted[at].device_id.as_str(), processor.device_id.as_str()) {
        assert(earlier[at as int].device_id@ == id);
        return true;
    }
    proof {
        assert forall|i: int| at <= i < earlier.len() implies text_before(
            id,
            (#[trigger] earlier[i]).device_id@,
        ) && earlier[i].device_id@ != id by {
            lemma_text_order(earlier[at as int].device_id@, id);
            if i > at {
                assert(text_before(earlier[at as int].device_id@, earlier[i].device_id@));
                lemma_text_order_chain(id, earlier[at as int].device_id@, earlier[i].device_id@);
            }
            lemma_text_order(id, earlier[i].device_id@);
        }
    }
    sorted.insert(at, processor);
    proof {
        assert forall|i: int, j: int| 0 <= i < j < sorted@.len() implies text_before(
            (#[trigger] sorted@[i]).device_id@,
            (#[trigger] sorted@[j]).device_id@,
        ) by {
            let a = if i < at { i } else { i - 1 };
            let b = if j < at { j } else { j - 1 };
            if i != at {
                assert(sorted@[i] == earlier[a]);
            }
            if j != at {
                assert(sorted@[j] == earlier[b]);
            }
        }
        vstd::seq_lib::to_multiset_insert(earlier, at as int, processor);
    }
    false
}

/// Lists the processors by identifier.
pub fn order_processors(processors: Vec<CpuFirmwareProcessor>) -> (outcome: Result<
    Vec<CpuFirmwareProcessor>,
    CpuDetailError,
>)
    ensures
        if processors@.len() == 0 {
            outcome == bad::<Vec<CpuFirmwareProcessor>>("Win32_Processor empty result")
        } else if repeats_identifier(processors@) {
            outcome == bad::<Vec<CpuFirmwareProcessor>>("Win32_Processor duplicate DeviceID")
        } else {
            outcome matches Ok(sorted) && by_identifier(sorted@) && sorted@.to_multiset()
                == processors@.to_multiset()
        },
{
    if processors.len() == 0 {
        return invalid("Win32_Processor empty result");
    }
    let ghost given = processors@;
    let mut rest = processors;
    let mut sorted: Vec<CpuFirmwareProcessor> = Vec::new();
    let count: usize = rest.len();
    assert(given.take(0) =~= sorted@);
    for index in 0..count
        invariant
            given == processors@,
            count == given.len(),
            count > 0,
            rest@ == given.skip(index as int),
            by_identifier(sorted@),
            !repeats_identifier(given.take(index as int)),
            sorted@.to_multiset() == given.take(index as int).to_multiset(),
    {
        let processor = rest.remove(0);
        let ghost earlier = given.take(index as int);
        let ghost before = sorted@;
        proof {
            assert(rest@ =~= given.skip(index + 1));
            assert(given.take(index + 1) =~= earlier.push(processor));
            earlier.to_multiset_ensures();
            before.to_multiset_ensures();
        }
        let repeated = insert_by_identifier(&mut sorted, processor);
        proof {
            assert forall|p: CpuFirmwareProcessor| before.contains(p) == earlier.contains(p) by {
                assert(before.contains(p) <==> before.to_multiset().count(p) > 0);
                assert(earlier.contains(p) <==> earlier.to_multiset().count(p) > 0);
            }
        }
        if repeated {
            proof {
                let k = choose|i: int|
                    0 <= i < before.len() && (#[trigger] before[i]).device_id@
                        == processor.device_id@;
                assert(earlier.contains(before[k]));
                let i = choose|i: int| 0 <= i < earlier.len() && earlier[i] == before[k];
                assert(given[i].device_id@ == given[index as int].device_id@);
            }
            return invalid("Win32_Processor duplicate DeviceID");
        }
        proof {
            if repeats_identifier(given.take(index + 1)) {
                let (i, j) = choose|i: int, j: int|
                    0 <= i < j < index + 1 && (#[trigger] given.take(index + 1)[i]).device_id@ == (
                    #[trigger] given.take(index + 1)[j]).device_id@;
                if j < index {
                    assert(earlier[i].device_id@ == earlier[j].device_id@);
                } else {
                    assert(before.contains(earlier[i]));
                    let k = choose|k: int| 0 <= k < before.len() && before[k] == earlier[i];
                    assert(before[k].device_id@ == processor.device_id@);
                }
                assert(false);
            }
        }
    }
    assert(given.take(count as int) =~= given);
    Ok(sorted)
}

} // verus!
