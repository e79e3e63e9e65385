//! Arrays of counter values, as the performance data helper lays them out in memory.
use vstd::prelude::*;

use crate::utf16::{decode, decoded};

verus! {

/// The largest array that is asked for.
pub const MAX_PDH_ARRAY_BYTES: u32 = 67_108_864;

/// Size of one item of an array: a pointer to its name, its status and its value.
pub const COUNTER_ITEM_SIZE: usize = 24;

pub const WORD_SIZE: usize = 8;

/// One item of an array, with its name still a pointer.
#[derive(Clone, Copy, Debug, PartialEq, Eq)]
pub struct RawCounterItem<V> {
    pub name_address: usize,
    pub status: u32,
    pub value: V,
}

/// Why the name of an item cannot be read.
#[derive(Clone, Copy, Debug, PartialEq, Eq, Structural)]
pub enum NameFault {
    Pointer,
    Terminator,
    Encoding,
}

/// The memory that an array came in: where it starts, how many bytes of it are used, and those
/// bytes as units of text.
pub struct CounterBuffer {
    pub base: usize,
    pub used_bytes: usize,
    pub units: Vec<u16>,
}

impl CounterBuffer {
    /// The memory starts at an even address, does not wrap around, and is there as a whole.
    pub open spec fn well_formed(&self) -> bool {
        &&& self.base % 2 == 0
        &&& self.base + self.used_bytes <= usize::MAX
        &&& self.units@.len() == self.used_bytes / 2
    }
}

/// Where the first zero stands, if there is one.
pub open spec fn first_zero(units: Seq<u16>) -> Option<int>
    decreases units.len(),
{
    if units.len() == 0 {
        None
    } else if units[0] == 0 {
        Some(0)
    } else {
        match first_zero(units.drop_first()) {
            Some(index) => Some(index + 1),
            None => None,
        }
    }
}

/// The text that starts at `address` and ends before a zero unit, all inside the buffer.
pub open spec fn name_at(buffer: CounterBuffer, address: int) -> Result<Seq<char>, NameFault> {
    if address == 0 || address < buffer.base || address >= buffer.base + buffer.used_bytes
        || address % 2 != 0 {
        Err(NameFault::Pointer)
    } else {
        let units = buffer.units@.skip((address - buffer.base) / 2);
        match first_zero(units) {
            None => Err(NameFault::Terminator),
            Some(length) => match decoded(units.take(length)) {
                Some(name) => Ok(name),
                None => Err(NameFault::Encoding),
            },
        }
    }
}

/// Where the first zero from `start` on stands.
fn find_zero(units: &Vec<u16>, start: usize) -> (found: Option<usize>)
    requires
        start <= units@.len(),
    ensures
        match first_zero(units@.skip(start as int)) {
            Some(length) => found == Some((start + length) as usize) && 0 <= length && start + length
                < units@.len(),
            None => found is None,
        },
{
    for index in start..units.len()
        invariant
            start <= units@.len(),
            match first_zero(units@.skip(start as int)) {
                Some(length) => first_zero(units@.skip(index as int)) == Some(
                    length - (index - start),
                ),
                None => first_zero(units@.skip(index as int)) is None,
            },
    {
        assert(units@.skip(index as int)[0] == units@[index as int]);
        assert(units@.skip(index as int).drop_first() =~= units@.skip(index + 1));
        if units[index] == 0 {
            return Some(index);
        }
    }
    None
}

/// Reads the name at `address`.
pub fn read_bounded_name(buffer: &CounterBuffer, address: usize) -> (outcome: Result<
    String,
    NameFault,
>)
    requires
        buffer.well_formed(),
    ensures
        match name_at(*buffer, address as int) {
            Ok(name) => outcome matches Ok(text) && text@ == name,
            Err(fault) => outcome == Err::<String, NameFault>(fault),
        },
{
    if address == 0 || address < buffer.base || address >= buffer.base + buffer.used_bytes
        || address % 2 != 0 {
        return Err(NameFault::Pointer);
    }
    let start: usize = (address - buffer.base) / 2;
    match find_zero(&buffer.units, start) {
        None => Err(NameFault::Terminator),
        Some(end) => {
            let units = vstd::slice::slice_subrange(buffer.units.as_slice(), start, end);
            assert(units@ =~= buffer.units@.skip(start as int).take(end - start));
            match decode(units) {
                Some(name) => Ok(name),
                None => Err(NameFault::Encoding),
            }
        },
    }
}

/// How many words hold `byte_count` bytes.
pub fn words_for(byte_count: u32) -> (words: usize)
    ensures
        (words - 1) * WORD_SIZE < byte_count <= words * WORD_SIZE,
{
    (byte_count as usize) / WORD_SIZE + if (byte_count as usize) % WORD_SIZE == 0 {
        0
    } else {
        1
    }
}

/// Whether `item_count` items lie inside the used bytes, and these inside the storage.
pub open spec fn array_fits(used_bytes: int, item_count: int, storage_words: int) -> bool {
    used_bytes <= storage_words * WORD_SIZE && item_count * COUNTER_ITEM_SIZE <= used_bytes
}

pub fn is_array_inside(used_bytes: u32, item_count: u32, storage_words: usize) -> (inside: bool)
    ensures
        inside == array_fits(used_bytes as int, item_count as int, storage_words as int),
{
    let words_needed: usize = words_for(used_bytes);
    assert(used_bytes <= storage_words * WORD_SIZE <==> words_needed <= storage_words)
        by (nonlinear_arith)
        requires
            (words_needed - 1) * WORD_SIZE < used_bytes <= words_needed * WORD_SIZE,
            WORD_SIZE == 8,
    ;
    words_needed <= storage_words && item_count as u64 * COUNTER_ITEM_SIZE as u64
        <= used_bytes as u64
}

} // verus!
