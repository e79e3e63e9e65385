//! Names of counter instances: which process, adapter and engine a reading belongs to.
use vstd::prelude::*;

use super::model::{
    kind_named, luid_of, AdapterLuid, EngineKindView, GpuAdapterId, GpuEngineId, GpuEngineKind,
    GpuSampleError, GpuSampleSource,
};
use crate::text::{
    chars_of, decimal_u32, decimal_value, equals_ignore_ascii_case, hex_u32, hex_value,
    is_decimal_u32, is_digit, is_hex_u32, join_from, joined, joined_pieces_are_the_text, lower,
    pieces, split_on, string_of, views,
};

verus! {

#[derive(Clone, Debug, PartialEq, Eq, Hash)]
pub struct ParsedEngineInstance {
    pub pid: u32,
    pub id: GpuEngineId,
    pub kind: GpuEngineKind,
}

pub struct EngineInstanceView {
    pub pid: u32,
    pub id: GpuEngineId,
    pub kind: EngineKindView,
}

impl View for ParsedEngineInstance {
    type V = EngineInstanceView;

    open spec fn view(&self) -> EngineInstanceView {
        EngineInstanceView { pid: self.pid, id: self.id, kind: self.kind@ }
    }
}

pub open spec fn malformed<T>(context: &'static str) -> Result<T, GpuSampleError> {
    Err(GpuSampleError::InvalidData { context })
}

pub open spec fn is_type_char(c: char) -> bool {
    ||| is_digit(c)
    ||| 'a' <= c <= 'z'
    ||| 'A' <= c <= 'Z'
    ||| c == '-'
    ||| c == '.'
    ||| c == '_'
}

/// Whether `text` may name a type of engine.
pub open spec fn is_type_token(text: Seq<char>) -> bool {
    0 < text.len() <= 128 && forall|i: int| 0 <= i < text.len() ==> is_type_char(#[trigger] text[i])
}

pub open spec fn same_word(part: Seq<char>, word: Seq<char>) -> bool {
    lower(part) == lower(word)
}

/// Whether the parts are labelled as those of an engine instance.
pub open spec fn has_engine_labels(parts: Seq<Seq<char>>) -> bool {
    &&& parts.len() >= 11
    &&& same_word(parts[0], "pid"@)
    &&& same_word(parts[2], "luid"@)
    &&& same_word(parts[5], "phys"@)
    &&& same_word(parts[7], "eng"@)
    &&& same_word(parts[9], "engtype"@)
}

/// What the name of an engine instance says, or why it says nothing.
pub open spec fn engine_instance(name: Seq<char>) -> Result<EngineInstanceView, GpuSampleError> {
    let parts = pieces(name, '_');
    let engine_type = joined(parts.skip(10), '_');
    if !has_engine_labels(parts) {
        malformed("GPU engine instance grammar")
    } else if !is_type_token(engine_type) {
        malformed("GPU engine type token")
    } else if !is_decimal_u32(parts[1]) {
        malformed("GPU engine PID")
    } else if !is_hex_u32(parts[3]) {
        malformed("GPU engine LUID high part")
    } else if !is_hex_u32(parts[4]) {
        malformed("GPU engine LUID low part")
    } else if !is_decimal_u32(parts[6]) {
        malformed("GPU engine physical index")
    } else if !is_decimal_u32(parts[8]) {
        malformed("GPU engine ordinal")
    } else {
        Ok(
            EngineInstanceView {
                pid: decimal_value(parts[1]) as u32,
                id: GpuEngineId {
                    adapter: GpuAdapterId {
                        luid: luid_of(
                            hex_value(parts[3].skip(2)) as int,
                            hex_value(parts[4].skip(2)) as int,
                        ),
                        physical_index: decimal_value(parts[6]) as u32,
                    },
                    ordinal: decimal_value(parts[8]) as u32,
                },
                kind: kind_named(engine_type),
            },
        )
    }
}

/// What the name of a memory instance says, or why it says nothing.
pub open spec fn memory_instance(name: Seq<char>) -> Result<GpuAdapterId, GpuSampleError> {
    let parts = pieces(name, '_');
    if parts.len() != 5 || !same_word(parts[0], "luid"@) || !same_word(parts[3], "phys"@) {
        malformed("GPU memory instance grammar")
    } else if !is_hex_u32(parts[1]) {
        malformed("GPU memory LUID high part")
    } else if !is_hex_u32(parts[2]) {
        malformed("GPU memory LUID low part")
    } else if !is_decimal_u32(parts[4]) {
        malformed("GPU memory physical index")
    } else {
        Ok(
            GpuAdapterId {
                luid: luid_of(
                    hex_value(parts[1].skip(2)) as int,
                    hex_value(parts[2].skip(2)) as int,
                ),
                physical_index: decimal_value(parts[4]) as u32,
            },
        )
    }
}

fn parse_decimal(part: &Vec<char>, context: &'static str) -> (outcome: Result<u32, GpuSampleError>)
    ensures
        outcome == if is_decimal_u32(part@) {
            Ok(decimal_value(part@) as u32)
        } else {
            malformed(context)
        },
{
    match decimal_u32(part.as_slice()) {
        Some(value) => Ok(value),
        None => Err(GpuSampleError::InvalidData { context }),
    }
}

fn parse_hex(part: &Vec<char>, context: &'static str) -> (outcome: Result<u32, GpuSampleError>)
    ensures
        outcome == if is_hex_u32(part@) {
            Ok(hex_value(part@.skip(2)) as u32)
        } else {
            malformed(context)
        },
        outcome matches Ok(value) ==> value == hex_value(part@.skip(2)),
{
    match hex_u32(part.as_slice()) {
        Some(value) => Ok(value),
        None => Err(GpuSampleError::InvalidData { context }),
    }
}

fn is_engine_type(chars: &Vec<char>) -> (valid: bool)
    ensures
        valid == is_type_token(chars@),
{
    if chars.len() == 0 || chars.len() > 128 {
        return false;
    }
    for index in 0..chars.len()
        invariant
            forall|i: int| 0 <= i < index ==> is_type_char(#[trigger] chars@[i]),
    {
        let c = chars[index];
        let allowed = ('0' <= c && c <= '9') || ('a' <= c && c <= 'z') || ('A' <= c && c <= 'Z')
            || c == '-' || c == '.' || c == '_';
        if !allowed {
            assert(!is_type_char(chars@[index as int]));
            return false;
        }
    }
    true
}

/// Reads the name of an engine instance.
pub fn parse_engine_instance(value: &str) -> (outcome: Result<ParsedEngineInstance, GpuSampleError>)
    ensures
        match engine_instance(value@) {
            Ok(instance) => outcome matches Ok(parsed) && parsed@ == instance,
            Err(error) => outcome == Err::<ParsedEngineInstance, GpuSampleError>(error),
        },
{
    let parts = split_on(chars_of(value).as_slice(), '_');
    proof {
        assert forall|i: int| 0 <= i < parts@.len() implies #[trigger] parts@[i]@ == pieces(
            value@,
            '_',
        )[i] by {
            assert(views(parts@)[i] == parts@[i]@);
        }
    }
    if parts.len() < 11 || !equals_ignore_ascii_case(parts[0].as_slice(), "pid")
        || !equals_ignore_ascii_case(parts[2].as_slice(), "luid") || !equals_ignore_ascii_case(
        parts[5].as_slice(),
        "phys",
    ) || !equals_ignore_ascii_case(parts[7].as_slice(), "eng") || !equals_ignore_ascii_case(
        parts[9].as_slice(),
        "engtype",
    ) {
        return Err(GpuSampleError::InvalidData { context: "GPU engine instance grammar" });
    }
    let engine_type = join_from(&parts, 10, '_');
    if !is_engine_type(&engine_type) {
        return Err(GpuSampleError::InvalidData { context: "GPU engine type token" });
    }
    let pid: u32 = match parse_decimal(&parts[1], "GPU engine PID") {
        Ok(pid) => pid,
        Err(error) => return Err(error),
    };
    let high: u32 = match parse_hex(&parts[3], "GPU engine LUID high part") {
        Ok(high) => high,
        Err(error) => return Err(error),
    };
    let low: u32 = match parse_hex(&parts[4], "GPU engine LUID low part") {
        Ok(low) => low,
        Err(error) => return Err(error),
    };
    let physical_index: u32 = match parse_decimal(&parts[6], "GPU engine physical index") {
        Ok(physical_index) => physical_index,
        Err(error) => return Err(error),
    };
    let ordinal: u32 = match parse_decimal(&parts[8], "GPU engine ordinal") {
        Ok(ordinal) => ordinal,
        Err(error) => return Err(error),
    };
    Ok(
        ParsedEngineInstance {
            pid,
            id: GpuEngineId {
                adapter: GpuAdapterId { luid: AdapterLuid::from_parts(high, low), physical_index },
                ordinal,
            },
            kind: GpuEngineKind::from_counter_name(string_of(engine_type.as_slice()).as_str()),
        },
    )
}

/// Reads the name of a memory instance.
pub fn parse_memory_instance(value: &str) -> (outcome: Result<GpuAdapterId, GpuSampleError>)
    ensures
        outcome == memory_instance(value@),
{
    let parts = split_on(chars_of(value).as_slice(), '_');
    proof {
        assert forall|i: int| 0 <= i < parts@.len() implies #[trigger] parts@[i]@ == pieces(
            value@,
            '_',
        )[i] by {
            assert(views(parts@)[i] == parts@[i]@);
        }
    }
    if parts.len() != 5 || !equals_ignore_ascii_case(parts[0].as_slice(), "luid")
        || !equals_ignore_ascii_case(parts[3].as_slice(), "phys") {
        return Err(GpuSampleError::InvalidData { context: "GPU memory instance grammar" });
    }
    let high: u32 = match parse_hex(&parts[1], "GPU memory LUID high part") {
        Ok(high) => high,
        Err(error) => return Err(error),
    };
    let low: u32 = match parse_hex(&parts[2], "GPU memory LUID low part") {
        Ok(low) => low,
        Err(error) => return Err(error),
    };
    let physical_index: u32 = match parse_decimal(&parts[4], "GPU memory physical index") {
        Ok(physical_index) => physical_index,
        Err(error) => return Err(error),
    };
    Ok(GpuAdapterId { luid: AdapterLuid::from_parts(high, low), physical_index })
}

/// The adapter that the instance of a counter belongs to, as far as its name tells.
pub open spec fn instance_adapter(source: GpuSampleSource, name: Seq<char>) -> Option<GpuAdapterId> {
    match source {
        GpuSampleSource::Engine => match engine_instance(name) {
            Ok(instance) => Some(instance.id.adapter),
            Err(_) => None,
        },
        GpuSampleSource::DedicatedMemory | GpuSampleSource::SharedMemory => match memory_instance(
            name,
        ) {
            Ok(id) => Some(id),
            Err(_) => None,
        },
        GpuSampleSource::Temperature => None,
    }
}

pub fn adapter_id_from_instance(source: GpuSampleSource, instance_name: &str) -> (id: Option<
    GpuAdapterId,
>)
    ensures
        id == instance_adapter(source, instance_name@),
{
    match source {
        GpuSampleSource::Engine => match parse_engine_instance(instance_name) {
            Ok(parsed) => Some(parsed.id.adapter),
            Err(_) => None,
        },
        GpuSampleSource::DedicatedMemory | GpuSampleSource::SharedMemory => {
            match parse_memory_instance(instance_name) {
                Ok(id) => Some(id),
                Err(_) => None,
            }
        },
        GpuSampleSource::Temperature => None,
    }
}

/// Whatever is read from the name of an engine instance stands in the name: the parts, put
/// together again, are the name, and no part but the last holds a separator.
pub proof fn engine_instance_reads_the_whole_name(name: Seq<char>)
    requires
        engine_instance(name) is Ok,
    ensures
        joined(pieces(name, '_'), '_') == name,
        has_engine_labels(pieces(name, '_')),
        forall|i: int|
            0 <= i < pieces(name, '_').len() ==> !(#[trigger] pieces(name, '_')[i]).contains('_'),
{
    joined_pieces_are_the_text(name, '_');
}

} // verus!
