//! The debugger that the system is configured with: its command, its template, and the command
//! line that attaches it.
use vstd::prelude::*;

use crate::pdh::first_zero;
use crate::perf_drawing::{decode_up_to_zero, up_to_zero};
use crate::text::{
    append_chars, chars_of, copied_chars, copy_of, decimal_chars, decimal_text,
    equals_ignore_ascii_case, is_space, is_whitespace, lower, string_of, trim, trimmed,
};
use crate::utf16::{decode, decoded, decoded_lossy};
use crate::win32::{
    error_or_gen_failure, ERROR_FILE_NOT_FOUND, ERROR_GEN_FAILURE, ERROR_INVALID_DATA,
    ERROR_MORE_DATA, ERROR_NOT_SUPPORTED,
    ERROR_PATH_NOT_FOUND, ERROR_SUCCESS,
};

verus! {

pub const REG_SZ: u32 = 1;

pub const REG_EXPAND_SZ: u32 = 2;

pub const MAX_DEBUGGER_COMMAND_BYTES: u32 = 1_048_576;

pub const IMAGE_FILE_MACHINE_UNKNOWN: u16 = 0;

pub const IMAGE_FILE_MACHINE_I386: u16 = 0x14C;

pub const IMAGE_FILE_MACHINE_ARM: u16 = 0x1C0;

pub const IMAGE_FILE_MACHINE_THUMB: u16 = 0x1C2;

pub const IMAGE_FILE_MACHINE_ARMNT: u16 = 0x1C4;

pub const IMAGE_FILE_MACHINE_IA64: u16 = 0x200;

pub const IMAGE_FILE_MACHINE_AMD64: u16 = 0x8664;

pub const IMAGE_FILE_MACHINE_ARM64: u16 = 0xAA64;

pub const KEY_WOW64_64KEY: u32 = 0x100;

pub const KEY_WOW64_32KEY: u32 = 0x200;

/// Which part of the registry holds the debugger for a process.
#[derive(Clone, Copy, Debug, PartialEq, Eq, Structural)]
pub enum DebuggerRegistryView {
    Native,
    Registry32,
    Registry64,
}

impl DebuggerRegistryView {
    pub fn access_mask(self) -> (mask: u32)
        ensures
            mask == match self {
                DebuggerRegistryView::Native => 0u32,
                DebuggerRegistryView::Registry32 => KEY_WOW64_32KEY,
                DebuggerRegistryView::Registry64 => KEY_WOW64_64KEY,
            },
    {
        match self {
            DebuggerRegistryView::Native => 0,
            DebuggerRegistryView::Registry32 => KEY_WOW64_32KEY,
            DebuggerRegistryView::Registry64 => KEY_WOW64_64KEY,
        }
    }
}

/// Whether a machine has 32 or 64 bits, where that is known.
pub open spec fn machine_is_32_bit(machine: u16) -> Option<bool> {
    if machine == IMAGE_FILE_MACHINE_I386 || machine == IMAGE_FILE_MACHINE_ARM || machine
        == IMAGE_FILE_MACHINE_ARMNT || machine == IMAGE_FILE_MACHINE_THUMB {
        Some(true)
    } else if machine == IMAGE_FILE_MACHINE_AMD64 || machine == IMAGE_FILE_MACHINE_ARM64 || machine
        == IMAGE_FILE_MACHINE_IA64 {
        Some(false)
    } else {
        None
    }
}

fn is_32_bit_machine(machine: u16) -> (is_32_bit: Option<bool>)
    ensures
        is_32_bit == machine_is_32_bit(machine),
{
    match machine {
        IMAGE_FILE_MACHINE_I386
        | IMAGE_FILE_MACHINE_ARM
        | IMAGE_FILE_MACHINE_ARMNT
        | IMAGE_FILE_MACHINE_THUMB => Some(true),
        IMAGE_FILE_MACHINE_AMD64 | IMAGE_FILE_MACHINE_ARM64 | IMAGE_FILE_MACHINE_IA64 => Some(
            false,
        ),
        _ => None,
    }
}

/// The part of the registry for a process: on a 64-bit system that of its own machine, which is
/// the system's unless it is named.
pub open spec fn registry_view(process_machine: u16, native_machine: u16) -> Result<
    DebuggerRegistryView,
    u32,
> {
    let machine = if process_machine == IMAGE_FILE_MACHINE_UNKNOWN {
        native_machine
    } else {
        process_machine
    };
    match (machine_is_32_bit(machine), machine_is_32_bit(native_machine)) {
        (Some(_), Some(true)) => Ok(DebuggerRegistryView::Native),
        (Some(true), Some(false)) => Ok(DebuggerRegistryView::Registry32),
        (Some(false), Some(false)) => Ok(DebuggerRegistryView::Registry64),
        _ => Err(ERROR_NOT_SUPPORTED),
    }
}

pub fn debugger_registry_view_for_machines(process_machine: u16, native_machine: u16) -> (view:
    Result<DebuggerRegistryView, u32>)
    ensures
        view == registry_view(process_machine, native_machine),
{
    let effective_machine: u16 = if process_machine == IMAGE_FILE_MACHINE_UNKNOWN {
        native_machine
    } else {
        process_machine
    };
    let target_is_32_bit = match is_32_bit_machine(effective_machine) {
        Some(is_32_bit) => is_32_bit,
        None => return Err(ERROR_NOT_SUPPORTED),
    };
    match is_32_bit_machine(native_machine) {
        None => Err(ERROR_NOT_SUPPORTED),
        Some(true) => Ok(DebuggerRegistryView::Native),
        Some(false) => Ok(
            if target_is_32_bit {
                DebuggerRegistryView::Registry32
            } else {
                DebuggerRegistryView::Registry64
            },
        ),
    }
}

/// What to do after the registry was asked.
#[derive(Clone, Copy, Debug, PartialEq, Eq, Structural)]
pub enum RegistryStep {
    Proceed,
    /// There is no debugger.
    Absent,
    Fail(u32),
}

/// Decides on the answer to the opening of the key.
pub fn open_step(status: u32) -> (step: RegistryStep)
    ensures
        step == if status == ERROR_FILE_NOT_FOUND || status == ERROR_PATH_NOT_FOUND {
            RegistryStep::Absent
        } else if status != ERROR_SUCCESS {
            RegistryStep::Fail(status)
        } else {
            RegistryStep::Proceed
        },
{
    if status == ERROR_FILE_NOT_FOUND || status == ERROR_PATH_NOT_FOUND {
        RegistryStep::Absent
    } else if status != ERROR_SUCCESS {
        RegistryStep::Fail(status)
    } else {
        RegistryStep::Proceed
    }
}

pub open spec fn is_text_type(value_type: u32) -> bool {
    value_type == REG_SZ || value_type == REG_EXPAND_SZ
}

/// Decides on the answer to the question for the size of the value. `close_status` is what
/// closing the key returns; it only matters where there is no value.
pub fn size_step(status: u32, value_type: u32, value_size: u32, close_status: u32) -> (step:
    RegistryStep)
    ensures
        step == if status == ERROR_FILE_NOT_FOUND {
            if close_status == ERROR_SUCCESS {
                RegistryStep::Absent
            } else {
                RegistryStep::Fail(close_status)
            }
        } else if status != ERROR_SUCCESS {
            RegistryStep::Fail(status)
        } else if !is_text_type(value_type) || value_size < 2 || value_size % 2 != 0 || value_size
            > MAX_DEBUGGER_COMMAND_BYTES {
            RegistryStep::Fail(ERROR_INVALID_DATA)
        } else {
            RegistryStep::Proceed
        },
{
    if status == ERROR_FILE_NOT_FOUND {
        return if close_status == ERROR_SUCCESS {
            RegistryStep::Absent
        } else {
            RegistryStep::Fail(close_status)
        };
    }
    if status != ERROR_SUCCESS {
        return RegistryStep::Fail(status);
    }
    if !(value_type == REG_SZ || value_type == REG_EXPAND_SZ) || value_size < 2 || value_size % 2
        != 0 || value_size > MAX_DEBUGGER_COMMAND_BYTES {
        RegistryStep::Fail(ERROR_INVALID_DATA)
    } else {
        RegistryStep::Proceed
    }
}

/// What the registry delivered: the status of the reading and of the closing, the type, how
/// many bytes were asked for and delivered, and the buffer.
pub struct RegistryAnswer {
    pub read_status: u32,
    pub close_status: u32,
    pub value_type: u32,
    pub value_size: u32,
    pub actual_size: u32,
    pub buffer: Vec<u16>,
}

/// The text that the registry delivered, or why there is none.
pub open spec fn registry_text(answer: RegistryAnswer) -> Result<Seq<char>, u32> {
    if answer.read_status != ERROR_SUCCESS {
        Err(answer.read_status)
    } else if answer.close_status != ERROR_SUCCESS {
        Err(answer.close_status)
    } else if !is_text_type(answer.value_type) || answer.actual_size < 2 || answer.actual_size % 2
        != 0 || answer.actual_size > answer.value_size {
        Err(ERROR_INVALID_DATA)
    } else {
        let units = answer.buffer@.take(answer.actual_size as int / 2);
        match first_zero(units) {
            None => Err(ERROR_INVALID_DATA),
            Some(length) => match decoded(units.take(length)) {
                Some(text) => Ok(text),
                None => Err(ERROR_INVALID_DATA),
            },
        }
    }
}

/// Reads the text that the registry delivered.
pub fn read_aedebug_string(answer: &RegistryAnswer) -> (outcome: Result<String, u32>)
    requires
        answer.buffer@.len() == answer.value_size / 2,
    ensures
        match registry_text(*answer) {
            Ok(text) => outcome matches Ok(found) && found@ == text,
            Err(error) => outcome == Err::<String, u32>(error),
        },
{
    if answer.read_status == ERROR_MORE_DATA {
        return Err(ERROR_MORE_DATA);
    }
    if answer.read_status != ERROR_SUCCESS {
        return Err(answer.read_status);
    }
    if answer.close_status != ERROR_SUCCESS {
        return Err(answer.close_status);
    }
    if !(answer.value_type == REG_SZ || answer.value_type == REG_EXPAND_SZ) || answer.actual_size
        < 2 || answer.actual_size % 2 != 0 || answer.actual_size > answer.value_size {
        return Err(ERROR_INVALID_DATA);
    }
    let count: usize = answer.actual_size as usize / 2;
    let ghost units = answer.buffer@.take(count as int);
    let mut length: usize = 0;
    assert(units.skip(0) =~= units);
    while length < count && answer.buffer[length] != 0
        invariant
            length <= count <= answer.buffer@.len(),
            units == answer.buffer@.take(count as int),
            match first_zero(units) {
                Some(at) => first_zero(units.skip(length as int)) == Some(at - length),
                None => first_zero(units.skip(length as int)) is None,
            },
        decreases count - length,
    {
        assert(units.skip(length as int)[0] == answer.buffer@[length as int]);
        assert(units.skip(length as int).drop_first() =~= units.skip(length + 1));
        length = length + 1;
    }
    if length == count {
        assert(units.skip(length as int) =~= Seq::<u16>::empty());
        return Err(ERROR_INVALID_DATA);
    }
    assert(units.skip(length as int)[0] == 0);
    let text = vstd::slice::slice_subrange(answer.buffer.as_slice(), 0, length);
    assert(text@ =~= units.take(length as int));
    match decode(text) {
        Some(text) => Ok(text),
        None => Err(ERROR_INVALID_DATA),
    }
}

/// The characters before the first for which `stop` holds.
pub open spec fn before_first(text: Seq<char>, stop: spec_fn(char) -> bool) -> Seq<char>
    decreases text.len(),
{
    if text.len() == 0 || stop(text[0]) {
        Seq::empty()
    } else {
        seq![text[0]] + before_first(text.drop_first(), stop)
    }
}

/// The first word of a command line: what stands between quotes, or else up to white space.
pub open spec fn first_token(command_line: Seq<char>) -> Seq<char> {
    let text = trimmed(command_line);
    if text.len() > 0 && text[0] == '"' {
        before_first(text.skip(1), |c: char| c == '"')
    } else {
        before_first(text, |c: char| is_space(c))
    }
}

fn ends_token(c: char, quoted: bool) -> (ends: bool)
    ensures
        ends == if quoted {
            c == '"'
        } else {
            is_space(c)
        },
{
    if quoted {
        c == '"'
    } else {
        is_whitespace(c)
    }
}

fn first_token_chars(command_line: &[char]) -> (token: Vec<char>)
    ensures
        token@ == first_token(command_line@),
{
    let text = trim(command_line);
    let quoted = text.len() > 0 && text[0] == '"';
    let start: usize = if quoted {
        1
    } else {
        0
    };
    let ghost stop: spec_fn(char) -> bool = if quoted {
        |c: char| c == '"'
    } else {
        |c: char| is_space(c)
    };
    let ghost rest = text@.skip(start as int);
    let mut token: Vec<char> = Vec::new();
    let mut index: usize = start;
    assert(before_first(rest, stop) =~= token@ + before_first(text@.skip(index as int), stop));
    while index < text.len() && !ends_token(text[index], quoted)
        invariant
            start <= index <= text@.len(),
            stop == if quoted {
                |c: char| c == '"'
            } else {
                |c: char| is_space(c)
            },
            before_first(rest, stop) == token@ + before_first(text@.skip(index as int), stop),
        decreases text.len() - index,
    {
        let ghost tail = text@.skip(index as int);
        proof {
            assert(tail[0] == text@[index as int]);
            assert(tail.drop_first() =~= text@.skip(index + 1));
            assert(token@ + (seq![tail[0]] + before_first(tail.drop_first(), stop)) =~= token@.push(
                tail[0],
            ) + before_first(tail.drop_first(), stop));
        }
        token.push(text[index]);
        index = index + 1;
    }
    proof {
        if index < text@.len() {
            assert(text@.skip(index as int)[0] == text@[index as int]);
        }
        assert(before_first(text@.skip(index as int), stop) =~= Seq::<char>::empty());
        assert(before_first(rest, stop) =~= token@);
        if !quoted {
            assert(rest =~= text@);
        }
    }
    token
}

pub fn extract_first_command_token(command_line: &str) -> (token: String)
    ensures
        token@ == first_token(command_line@),
{
    string_of(first_token_chars(chars_of(command_line).as_slice()).as_slice())
}

pub open spec fn is_separator(c: char) -> bool {
    c == '\\' || c == '/'
}

pub open spec fn is_drive_letter(c: char) -> bool {
    'a' <= c <= 'z' || 'A' <= c <= 'Z'
}

/// Whether a character ends a component of a path. In a path that is taken word for word only a
/// backslash does.
pub open spec fn separates(c: char, verbatim: bool) -> bool {
    c == '\\' || (!verbatim && c == '/')
}

fn is_end(c: char, verbatim: bool) -> (end: bool)
    ensures
        end == separates(c, verbatim),
{
    c == '\\' || (!verbatim && c == '/')
}

/// How many characters stand before the first separator.
pub open spec fn component_length(text: Seq<char>, verbatim: bool) -> int
    decreases text.len(),
{
    if text.len() == 0 || separates(text[0], verbatim) {
        0
    } else {
        1 + component_length(text.drop_first(), verbatim)
    }
}

/// How many characters name a server and a share, with the separator between them.
pub open spec fn share_length(text: Seq<char>, verbatim: bool) -> int {
    let server = component_length(text, verbatim);
    let share = if server < text.len() {
        component_length(text.skip(server + 1), verbatim)
    } else {
        0
    };
    if share > 0 {
        server + 1 + share
    } else {
        server
    }
}

pub open spec fn starts_with_separators(path: Seq<char>) -> bool {
    path.len() >= 2 && is_separator(path[0]) && is_separator(path[1])
}

/// Whether a path is taken word for word: two backslashes, a question mark and a backslash stand
/// before it.
pub open spec fn is_verbatim(path: Seq<char>) -> bool {
    path.len() >= 4 && path[0] == '\\' && path[1] == '\\' && path[2] == '?' && path[3] == '\\'
}

pub open spec fn names_device(path: Seq<char>) -> bool {
    path.len() >= 4 && starts_with_separators(path) && path[2] == '.' && is_separator(path[3])
}

/// Whether a path names a server and a share: two separators, a server, a separator, a share.
pub open spec fn names_share(path: Seq<char>) -> bool {
    let server = path.skip(2);
    let length = component_length(server, false);
    starts_with_separators(path) && length > 0 && length < server.len() && component_length(
        server.skip(length + 1),
        false,
    ) > 0
}

pub open spec fn has_drive(path: Seq<char>) -> bool {
    path.len() >= 2 && is_drive_letter(path[0]) && path[1] == ':'
}

/// Whether a share follows in a path that is taken word for word.
pub open spec fn names_verbatim_share(path: Seq<char>) -> bool {
    path.len() >= 8 && path[4] == 'U' && path[5] == 'N' && path[6] == 'C' && is_separator(path[7])
}

/// How many characters of a path say where it starts: on a device, on a share, or on a drive.
pub open spec fn prefix_length(path: Seq<char>) -> int {
    if is_verbatim(path) {
        let rest = path.skip(4);
        if names_verbatim_share(path) {
            8 + share_length(path.skip(8), true)
        } else if has_drive(rest) && (rest.len() == 2 || is_separator(rest[2])) {
            6
        } else {
            4 + component_length(rest, true)
        }
    } else if names_device(path) {
        4 + component_length(path.skip(4), false)
    } else if names_share(path) {
        2 + share_length(path.skip(2), false)
    } else if has_drive(path) {
        2
    } else {
        0
    }
}

/// Whether a path does not depend on the current drive or directory: a drive with a separator
/// behind it, a share on a server, a device, or a path that is taken word for word.
pub open spec fn is_absolute_path(path: Seq<char>) -> bool {
    ||| is_verbatim(path)
    ||| names_device(path)
    ||| names_share(path)
    ||| has_drive(path) && path.len() >= 3 && is_separator(path[2])
}

fn is_path_separator(c: char) -> (separator: bool)
    ensures
        separator == is_separator(c),
{
    c == '\\' || c == '/'
}

fn find_separator(path: &Vec<char>, start: usize, verbatim: bool) -> (end: usize)
    requires
        start <= path@.len(),
    ensures
        start <= end <= path@.len(),
        end - start == component_length(path@.skip(start as int), verbatim),
{
    let mut end: usize = start;
    while end < path.len() && !is_end(path[end], verbatim)
        invariant
            start <= end <= path@.len(),
            end - start + component_length(path@.skip(end as int), verbatim) == component_length(
                path@.skip(start as int),
                verbatim,
            ),
        decreases path.len() - end,
    {
        assert(path@.skip(end as int)[0] == path@[end as int]);
        assert(path@.skip(end as int).drop_first() =~= path@.skip(end + 1));
        end = end + 1;
    }
    proof {
        if end < path@.len() {
            assert(path@.skip(end as int)[0] == path@[end as int]);
        }
    }
    end
}

/// Where the share that starts at `start` ends, and whether there is a server and a share.
fn find_share_end(path: &Vec<char>, start: usize, verbatim: bool) -> (found: (usize, bool))
    requires
        start <= path@.len(),
    ensures
        start <= found.0 <= path@.len(),
        found.0 - start == share_length(path@.skip(start as int), verbatim),
        ({
            let text = path@.skip(start as int);
            let length = component_length(text, verbatim);
            found.1 == (length > 0 && length < text.len() && component_length(
                text.skip(length + 1),
                verbatim,
            ) > 0)
        }),
{
    let server_end: usize = find_separator(path, start, verbatim);
    if server_end == path.len() {
        return (server_end, false);
    }
    let share_end: usize = find_separator(path, server_end + 1, verbatim);
    assert(path@.skip(start as int).skip(server_end - start + 1) =~= path@.skip(server_end + 1));
    if share_end == server_end + 1 {
        (server_end, false)
    } else {
        (share_end, server_end > start)
    }
}

fn is_drive(c: char) -> (drive: bool)
    ensures
        drive == is_drive_letter(c),
{
    ('a' <= c && c <= 'z') || ('A' <= c && c <= 'Z')
}

fn is_verbatim_path(path: &Vec<char>) -> (verbatim: bool)
    ensures
        verbatim == is_verbatim(path@),
{
    path.len() >= 4 && path[0] == '\\' && path[1] == '\\' && path[2] == '?' && path[3] == '\\'
}

fn is_device_path(path: &Vec<char>) -> (device: bool)
    ensures
        device == names_device(path@),
{
    path.len() >= 4 && is_path_separator(path[0]) && is_path_separator(path[1]) && path[2] == '.'
        && is_path_separator(path[3])
}

fn is_share_path(path: &Vec<char>) -> (share: bool)
    ensures
        share == names_share(path@),
{
    path.len() >= 2 && is_path_separator(path[0]) && is_path_separator(path[1]) && find_share_end(
        path,
        2,
        false,
    ).1
}

fn is_absolute(path: &Vec<char>) -> (absolute: bool)
    ensures
        absolute == is_absolute_path(path@),
{
    is_verbatim_path(path) || is_device_path(path) || is_share_path(path) || (path.len() >= 3
        && is_drive(path[0]) && path[1] == ':' && is_path_separator(path[2]))
}

fn find_prefix_end(path: &Vec<char>) -> (end: usize)
    ensures
        end == prefix_length(path@),
        end <= path@.len(),
{
    if is_verbatim_path(path) {
        if path.len() >= 8 && path[4] == 'U' && path[5] == 'N' && path[6] == 'C'
            && is_path_separator(path[7]) {
            find_share_end(path, 8, true).0
        } else if path.len() >= 6 && is_drive(path[4]) && path[5] == ':' && (path.len() == 6
            || is_path_separator(path[6])) {
            6
        } else {
            find_separator(path, 4, true)
        }
    } else if is_device_path(path) {
        find_separator(path, 4, false)
    } else if is_share_path(path) {
        find_share_end(path, 2, false).0
    } else if path.len() >= 2 && is_drive(path[0]) && path[1] == ':' {
        2
    } else {
        0
    }
}

/// What stands behind the last separator.
pub open spec fn last_component(path: Seq<char>, verbatim: bool) -> Seq<char>
    decreases path.len(),
{
    if path.len() == 0 || separates(path.last(), verbatim) {
        Seq::empty()
    } else {
        last_component(path.drop_last(), verbatim).push(path.last())
    }
}

/// The last component with a name. Empty ones are passed over, and so are single dots, unless the
/// path is taken word for word. A last component that stands for a directory has no name.
pub open spec fn last_name(path: Seq<char>, verbatim: bool) -> Seq<char>
    decreases path.len(),
{
    let component = last_component(path, verbatim);
    if path.len() == 0 {
        Seq::empty()
    } else if component.len() == 0 || (component == seq!['.'] && !verbatim) {
        last_name(path.drop_last(), verbatim)
    } else if component == seq!['.'] || component == seq!['.', '.'] {
        Seq::empty()
    } else {
        component
    }
}

/// What follows the prefix of a path, and the separator behind it.
pub open spec fn path_body(path: Seq<char>) -> Seq<char> {
    let start = prefix_length(path);
    if start < path.len() && is_separator(path[start]) {
        path.skip(start + 1)
    } else {
        path.skip(start)
    }
}

/// The name of the file that a path leads to; empty where it leads to none.
pub open spec fn file_name(path: Seq<char>) -> Seq<char> {
    last_name(path_body(path), is_verbatim(path))
}

/// Where the last component starts.
fn find_component(body: &Vec<char>, end: usize, verbatim: bool) -> (start: usize)
    requires
        end <= body@.len(),
    ensures
        start <= end,
        body@.subrange(start as int, end as int) == last_component(body@.take(end as int), verbatim),
{
    let mut start: usize = end;
    let ghost whole = body@.take(end as int);
    assert(whole.take(start as int) =~= whole);
    assert(whole.skip(start as int) =~= Seq::<char>::empty());
    while start > 0 && !is_end(body[start - 1], verbatim)
        invariant
            start <= end <= body@.len(),
            whole == body@.take(end as int),
            last_component(whole, verbatim) == last_component(whole.take(start as int), verbatim)
                + whole.skip(start as int),
        decreases start,
    {
        proof {
            let upto = whole.take(start as int);
            assert(upto.drop_last() =~= whole.take(start - 1));
            assert(upto.last() == body@[start - 1]);
            assert(last_component(upto, verbatim) + whole.skip(start as int) =~= last_component(
                whole.take(start - 1),
                verbatim,
            ) + whole.skip(start - 1));
        }
        start = start - 1;
    }
    proof {
        let upto = whole.take(start as int);
        if start > 0 {
            assert(upto.last() == body@[start - 1]);
        }
        assert(last_component(upto, verbatim) =~= Seq::<char>::empty());
        assert(body@.subrange(start as int, end as int) =~= last_component(whole, verbatim));
    }
    start
}

fn file_name_chars(path: &Vec<char>) -> (name: Vec<char>)
    ensures
        name@ == file_name(path@),
{
    let verbatim = is_verbatim_path(path);
    let prefix_end: usize = find_prefix_end(path);
    let start: usize = if prefix_end < path.len() && is_path_separator(path[prefix_end]) {
        prefix_end + 1
    } else {
        prefix_end
    };
    let body = copied_chars(vstd::slice::slice_subrange(path.as_slice(), start, path.len()));
    assert(body@ =~= path_body(path@));
    let mut end: usize = body.len();
    assert(body@.take(end as int) =~= body@);
    while end > 0
        invariant
            end <= body@.len(),
            last_name(body@, verbatim) == last_name(body@.take(end as int), verbatim),
            body@ == path_body(path@),
            verbatim == is_verbatim(path@),
        decreases end,
    {
        let component: usize = find_component(&body, end, verbatim);
        let length: usize = end - component;
        let ghost name = body@.subrange(component as int, end as int);
        assert(body@.take(end as int).drop_last() =~= body@.take(end - 1));
        let single = length == 1 && body[component] == '.';
        let double = length == 2 && body[component] == '.' && body[component + 1] == '.';
        proof {
            assert(single <==> name == seq!['.']) by {
                if single {
                    assert(name =~= seq!['.']);
                } else if name == seq!['.'] {
                    assert(name.len() == 1 && name[0] == body@[component as int]);
                }
            }
            assert(double <==> name == seq!['.', '.']) by {
                if double {
                    assert(name =~= seq!['.', '.']);
                } else if name == seq!['.', '.'] {
                    assert(name.len() == 2 && name[0] == body@[component as int] && name[1]
                        == body@[component + 1]);
                }
            }
        }
        if length == 0 || (single && !verbatim) {
            end = end - 1;
        } else if single || double {
            let nothing: Vec<char> = Vec::new();
            assert(nothing@ =~= Seq::<char>::empty());
            return nothing;
        } else {
            return copied_chars(vstd::slice::slice_subrange(body.as_slice(), component, end));
        }
    }
    let nothing: Vec<char> = Vec::new();
    assert(nothing@ =~= Seq::<char>::empty());
    nothing
}

pub open spec fn is_legacy_debugger(path: Seq<char>) -> bool {
    lower(file_name(path)) == lower("drwtsn32"@) || lower(file_name(path)) == lower(
        "drwtsn32.exe"@,
    )
}

fn names_legacy_debugger(path: &Vec<char>) -> (legacy: bool)
    ensures
        legacy == is_legacy_debugger(path@),
{
    let name = file_name_chars(path);
    equals_ignore_ascii_case(name.as_slice(), "drwtsn32") || equals_ignore_ascii_case(
        name.as_slice(),
        "drwtsn32.exe",
    )
}

/// A debugger: the template of its command line, and the program.
#[derive(Clone, Debug, PartialEq, Eq)]
pub struct DebuggerCommand {
    pub template: String,
    pub executable: String,
}

/// How many placeholders a template has, counted on from `count`. A percent sign is doubled or
/// starts a placeholder for a decimal number; the placeholder for an address is known but not
/// supported.
pub open spec fn placeholders(template: Seq<char>, count: int) -> Result<int, u32>
    decreases template.len(),
{
    if template.len() == 0 {
        Ok(count)
    } else if template[0] != '%' {
        placeholders(template.skip(1), count)
    } else if template.len() < 2 {
        Err(ERROR_INVALID_DATA)
    } else if template[1] == '%' {
        placeholders(template.skip(2), count)
    } else if template[1] == 'l' || template[1] == 'L' {
        if template.len() >= 3 && (template[2] == 'd' || template[2] == 'D') {
            placeholders(template.skip(3), count + 1)
        } else {
            Err(ERROR_INVALID_DATA)
        }
    } else if template[1] == 'p' || template[1] == 'P' {
        Err(ERROR_NOT_SUPPORTED)
    } else {
        Err(ERROR_INVALID_DATA)
    }
}

/// Why a template is refused, if it is: it needs exactly two placeholders.
pub open spec fn template_error(template: Seq<char>) -> Option<u32> {
    match placeholders(template, 0) {
        Err(error) => Some(error),
        Ok(count) => if count == 2 {
            None
        } else {
            Some(ERROR_INVALID_DATA)
        },
    }
}

fn check_template(template: &Vec<char>) -> (outcome: Result<(), u32>)
    ensures
        outcome == match template_error(template@) {
            Some(error) => Err(error),
            None => Ok::<(), u32>(()),
        },
{
    let mut index: usize = 0;
    let mut count: usize = 0;
    assert(template@.skip(0) =~= template@);
    while index < template.len()
        invariant
            index <= template@.len(),
            count <= index,
            placeholders(template@, 0) == placeholders(template@.skip(index as int), count as int),
        decreases template.len() - index,
    {
        let ghost rest = template@.skip(index as int);
        assert(rest[0] == template@[index as int]);
        if template[index] != '%' {
            assert(rest.skip(1) =~= template@.skip(index + 1));
            index = index + 1;
        } else if template.len() - index < 2 {
            return Err(ERROR_INVALID_DATA);
        } else {
            let kind: char = template[index + 1];
            assert(rest[1] == kind);
            if kind == '%' {
                assert(rest.skip(2) =~= template@.skip(index + 2));
                index = index + 2;
            } else if kind == 'l' || kind == 'L' {
                if template.len() - index < 3 {
                    return Err(ERROR_INVALID_DATA);
                }
                let digit: char = template[index + 2];
                assert(rest[2] == digit);
                if digit != 'd' && digit != 'D' {
                    return Err(ERROR_INVALID_DATA);
                }
                assert(rest.skip(3) =~= template@.skip(index + 3));
                index = index + 3;
                count = count + 1;
            } else if kind == 'p' || kind == 'P' {
                return Err(ERROR_NOT_SUPPORTED);
            } else {
                return Err(ERROR_INVALID_DATA);
            }
        }
    }
    assert(template@.skip(index as int) =~= Seq::<char>::empty());
    if count == 2 {
        Ok(())
    } else {
        Err(ERROR_INVALID_DATA)
    }
}

pub fn validate_debugger_template(template: &str) -> (outcome: Result<(), u32>)
    ensures
        outcome == match template_error(template@) {
            Some(error) => Err(error),
            None => Ok::<(), u32>(()),
        },
{
    check_template(&chars_of(template))
}

/// A template with its placeholders filled, of which `used` were filled before.
pub open spec fn filled(template: Seq<char>, values: Seq<Seq<char>>, used: int) -> Seq<char>
    decreases template.len(),
{
    if template.len() == 0 {
        Seq::empty()
    } else if template[0] != '%' {
        seq![template[0]] + filled(template.skip(1), values, used)
    } else if template.len() >= 2 && template[1] == '%' {
        seq!['%'] + filled(template.skip(2), values, used)
    } else if template.len() >= 3 {
        values[used] + filled(template.skip(3), values, used + 1)
    } else {
        Seq::empty()
    }
}

/// Where a count of placeholders succeeds, it does from any number on.
proof fn lemma_placeholders_shift(template: Seq<char>, count: int, other: int)
    ensures
        match placeholders(template, count) {
            Ok(total) => placeholders(template, other) == Ok::<int, u32>(total - count + other)
                && total >= count,
            Err(error) => placeholders(template, other) == Err::<int, u32>(error),
        },
    decreases template.len(),
{
    if template.len() > 0 {
        if template[0] != '%' {
            lemma_placeholders_shift(template.skip(1), count, other);
        } else if template.len() >= 2 && template[1] == '%' {
            lemma_placeholders_shift(template.skip(2), count, other);
        } else if template.len() >= 3 && (template[1] == 'l' || template[1] == 'L') && (template[2]
            == 'd' || template[2] == 'D') {
            lemma_placeholders_shift(template.skip(3), count + 1, other + 1);
        }
    }
}

/// Text without a percent sign stands in a filled template as it is.
proof fn lemma_plain_text(plain: Seq<char>, rest: Seq<char>, values: Seq<Seq<char>>, used: int)
    requires
        !plain.contains('%'),
    ensures
        filled(plain + rest, values, used) == plain + filled(rest, values, used),
        placeholders(plain + rest, used) == placeholders(rest, used),
    decreases plain.len(),
{
    let whole = plain + rest;
    if plain.len() == 0 {
        assert(whole =~= rest);
        assert(plain + filled(rest, values, used) =~= filled(rest, values, used));
    } else {
        assert(plain[0] != '%') by {
            if plain[0] == '%' {
                assert(plain.contains('%'));
            }
        }
        assert(!plain.skip(1).contains('%')) by {
            if plain.skip(1).contains('%') {
                let i = choose|i: int| 0 <= i < plain.skip(1).len() && plain.skip(1)[i] == '%';
                assert(plain[i + 1] == '%');
            }
        }
        assert(whole[0] == plain[0]);
        assert(whole.skip(1) =~= plain.skip(1) + rest);
        lemma_plain_text(plain.skip(1), rest, values, used);
        assert(seq![plain[0]] + (plain.skip(1) + filled(rest, values, used)) =~= plain + filled(
            rest,
            values,
            used,
        ));
    }
}

/// In a template with two placeholders the first is filled with the process identifier and the
/// second with the event handle; everything around them stays.
pub proof fn placeholders_are_filled_in_order(
    before: Seq<char>,
    between: Seq<char>,
    after: Seq<char>,
    process_id: Seq<char>,
    event_handle: Seq<char>,
)
    requires
        !before.contains('%'),
        !between.contains('%'),
        !after.contains('%'),
    ensures
        template_error(before + seq!['%', 'l', 'd'] + between + seq!['%', 'l', 'd'] + after)
            is None,
        filled(
            before + seq!['%', 'l', 'd'] + between + seq!['%', 'l', 'd'] + after,
            seq![process_id, event_handle],
            0,
        ) == before + process_id + between + event_handle + after,
{
    let mark = seq!['%', 'l', 'd'];
    let values = seq![process_id, event_handle];
    let last = mark + after;
    let middle = mark + (between + last);
    let nothing = Seq::<char>::empty();
    assert(before + mark + between + mark + after =~= before + middle);
    lemma_plain_text(before, middle, values, 0);
    assert(middle.skip(3) =~= between + last);
    lemma_plain_text(between, last, values, 1);
    assert(last.skip(3) =~= after);
    lemma_plain_text(after, nothing, values, 2);
    assert(after + nothing =~= after);
    assert(middle[0] == '%' && middle[1] == 'l' && middle[2] == 'd');
    assert(last[0] == '%' && last[1] == 'l' && last[2] == 'd');
    assert(before + (process_id + (between + (event_handle + (after + nothing)))) =~= before
        + process_id + between + event_handle + after);
}

/// Fills the placeholders of a template: the first with the process identifier, the second with
/// the handle of the event that the debugger signals.
pub fn format_debugger_template(template: &str, process_id: u32, event_handle: u64) -> (outcome:
    Result<String, u32>)
    ensures
        match template_error(template@) {
            Some(error) => outcome == Err::<String, u32>(error),
            None => outcome matches Ok(text) && text@ == filled(
                template@,
                seq![decimal_text(process_id as nat), decimal_text(event_handle as nat)],
                0,
            ),
        },
{
    let chars = chars_of(template);
    if let Err(error) = check_template(&chars) {
        return Err(error);
    }
    let first = decimal_chars(process_id as u64);
    let second = decimal_chars(event_handle);
    let ghost values = seq![
        decimal_text(process_id as nat),
        decimal_text(event_handle as nat),
    ];
    let mut output: Vec<char> = Vec::new();
    let mut index: usize = 0;
    let mut used: usize = 0;
    proof {
        assert(chars@.skip(0) =~= chars@);
        assert(filled(chars@, values, 0) =~= output@ + filled(chars@, values, 0));
    }
    while index < chars.len()
        invariant
            index <= chars@.len(),
            used <= 2,
            first@ == values[0],
            second@ == values[1],
            values.len() == 2,
            placeholders(chars@.skip(index as int), used as int) == Ok::<int, u32>(2),
            filled(chars@, values, 0) == output@ + filled(
                chars@.skip(index as int),
                values,
                used as int,
            ),
        decreases chars.len() - index,
    {
        let ghost rest = chars@.skip(index as int);
        let ghost before = output@;
        assert(rest[0] == chars@[index as int]);
        let c: char = chars[index];
        if c != '%' {
            output.push(c);
            proof {
                assert(rest.skip(1) =~= chars@.skip(index + 1));
                assert(before + (seq![c] + filled(rest.skip(1), values, used as int)) =~= output@
                    + filled(rest.skip(1), values, used as int));
            }
            index = index + 1;
        } else {
            assert(rest.len() >= 2);
            assert(rest[1] == chars@[index + 1]);
            if chars[index + 1] == '%' {
                output.push('%');
                proof {
                    assert(rest.skip(2) =~= chars@.skip(index + 2));
                    assert(before + (seq!['%'] + filled(rest.skip(2), values, used as int))
                        =~= output@ + filled(rest.skip(2), values, used as int));
                }
                index = index + 2;
            } else {
                proof {
                    assert(rest.len() >= 3);
                    lemma_placeholders_shift(rest.skip(3), used + 1, 0);
                    assert(used < 2);
                    assert(rest.skip(3) =~= chars@.skip(index + 3));
                }
                if used == 0 {
                    append_chars(&mut output, first.as_slice());
                } else {
                    append_chars(&mut output, second.as_slice());
                }
                proof {
                    assert(before + (values[used as int] + filled(rest.skip(3), values, used + 1))
                        =~= output@ + filled(rest.skip(3), values, used + 1));
                }
                index = index + 3;
                used = used + 1;
            }
        }
    }
    proof {
        assert(chars@.skip(index as int) =~= Seq::<char>::empty());
        assert(output@ =~= filled(chars@, values, 0));
    }
    Ok(string_of(output.as_slice()))
}

/// A value with its environment variables expanded. `required` is how many units the system asked
/// for, and `written` how many it wrote.
pub fn expand_environment_variables(
    required: u32,
    written: u32,
    error: u32,
    buffer: &Vec<u16>,
) -> (outcome: Result<String, u32>)
    ensures
        if required == 0 || written == 0 || written > required {
            outcome == Err::<String, u32>(
                if error == 0 {
                    ERROR_GEN_FAILURE
                } else {
                    error
                },
            )
        } else {
            outcome matches Ok(text) && text@ == decoded_lossy(up_to_zero(buffer@))
        },
{
    if required == 0 || written == 0 || written > required {
        Err(error_or_gen_failure(error))
    } else {
        Ok(decode_up_to_zero(buffer.as_slice()))
    }
}

/// The debugger that a command line names: none where there is no program, where it is not named
/// by an absolute path, or where it is the one of old systems that cannot be used.
pub fn parse_expanded_debugger_command(command_line: &str) -> (outcome: Result<
    Option<DebuggerCommand>,
    u32,
>)
    ensures
        ({
            let template = trimmed(command_line@);
            let executable = first_token(template);
            if executable.len() == 0 || !is_absolute_path(executable) || is_legacy_debugger(
                executable,
            ) {
                outcome == Ok::<Option<DebuggerCommand>, u32>(None)
            } else {
                match template_error(template) {
                    Some(error) => outcome == Err::<Option<DebuggerCommand>, u32>(error),
                    None => outcome matches Ok(Some(command)) && command.template@ == template
                        && command.executable@ == executable,
                }
            }
        }),
{
    let template = trim(chars_of(command_line).as_slice());
    let executable = first_token_chars(template.as_slice());
    if executable.len() == 0 || !is_absolute(&executable) || names_legacy_debugger(&executable) {
        return Ok(None);
    }
    match check_template(&template) {
        Err(error) => Err(error),
        Ok(()) => Ok(
            Some(
                DebuggerCommand {
                    template: string_of(template.as_slice()),
                    executable: string_of(executable.as_slice()),
                },
            ),
        ),
    }
}

/// The debugger that a value of the registry names. `expanded` is what the system made of a
/// value with environment variables; it only matters for a value of that type.
pub fn parse_debugger_command(
    command_line: &str,
    value_type: u32,
    expanded: Result<String, u32>,
) -> (outcome: Result<Option<DebuggerCommand>, u32>)
    ensures
        ({
            let text = if value_type == REG_EXPAND_SZ {
                match expanded {
                    Ok(text) => Ok::<Seq<char>, u32>(text@),
                    Err(error) => Err(error),
                }
            } else if value_type == REG_SZ {
                Ok(command_line@)
            } else {
                Err(ERROR_INVALID_DATA)
            };
            match text {
                Err(error) => outcome == Err::<Option<DebuggerCommand>, u32>(error),
                Ok(text) => {
                    let template = trimmed(text);
                    let executable = first_token(template);
                    if executable.len() == 0 || !is_absolute_path(executable)
                        || is_legacy_debugger(executable) {
                        outcome == Ok::<Option<DebuggerCommand>, u32>(None)
                    } else {
                        match template_error(template) {
                            Some(error) => outcome == Err::<Option<DebuggerCommand>, u32>(error),
                            None => outcome matches Ok(Some(command)) && command.template@
                                == template && command.executable@ == executable,
                        }
                    }
                },
            }
        }),
{
    if value_type == REG_EXPAND_SZ {
        match expanded {
            Ok(text) => parse_expanded_debugger_command(text.as_str()),
            Err(error) => Err(error),
        }
    } else if value_type == REG_SZ {
        parse_expanded_debugger_command(command_line)
    } else {
        Err(ERROR_INVALID_DATA)
    }
}

/// A debugger that was found: its program, and whether there is such a file.
pub struct FoundDebugger {
    pub executable: String,
    pub is_file: bool,
}

/// Whether a part of the registry names a debugger that can be started.
pub open spec fn usable(found: Result<Option<FoundDebugger>, u32>) -> bool {
    found matches Ok(Some(debugger)) && debugger.is_file
}

/// The debugger to offer, given what the parts of the registry hold, in the order in which they
/// are asked: the first that can be started, else the first error.
pub fn load_debugger_path(found: &Vec<Result<Option<FoundDebugger>, u32>>) -> (outcome: Result<
    Option<String>,
    u32,
>)
    ensures
        match outcome {
            Ok(Some(path)) => exists|i: int|
                0 <= i < found@.len() && usable(#[trigger] found@[i])
                    && path@ == found@[i]->Ok_0->0.executable@ && (forall|j: int|
                    0 <= j < i ==> !usable(#[trigger] found@[j])),
            Ok(None) => forall|j: int|
                0 <= j < found@.len() ==> (#[trigger] found@[j]) is Ok && !usable(found@[j]),
            Err(error) => (forall|j: int| 0 <= j < found@.len() ==> !usable(#[trigger] found@[j]))
                && exists|i: int|
                0 <= i < found@.len() && #[trigger] found@[i] == Err::<Option<FoundDebugger>, u32>(
                    error,
                ) && (forall|j: int| 0 <= j < i ==> (#[trigger] found@[j]) is Ok),
        },
{
    let mut first_error: Option<u32> = None;
    for index in 0..found.len()
        invariant
            forall|j: int| 0 <= j < index ==> !usable(#[trigger] found@[j]),
            match first_error {
                None => forall|j: int| 0 <= j < index ==> (#[trigger] found@[j]) is Ok,
                Some(error) => exists|i: int|
                    0 <= i < index && #[trigger] found@[i] == Err::<Option<FoundDebugger>, u32>(
                        error,
                    ) && (forall|j: int| 0 <= j < i ==> (#[trigger] found@[j]) is Ok),
            },
    {
        match &found[index] {
            Ok(Some(debugger)) => {
                if debugger.is_file {
                    assert(usable(found@[index as int]));
                    return Ok(Some(copy_of(debugger.executable.as_str())));
                }
            },
            Ok(None) => {},
            Err(error) => {
                if first_error.is_none() {
                    assert(found@[index as int] == Err::<Option<FoundDebugger>, u32>(*error));
                    first_error = Some(*error);
                }
            },
        }
    }
    match first_error {
        Some(error) => Err(error),
        None => Ok(None),
    }
}

/// The debugger to attach: there has to be one, and its program has to be a file.
pub fn debugger_to_attach(found: Result<Option<DebuggerCommand>, u32>, is_file: bool) -> (outcome:
    Result<DebuggerCommand, u32>)
    ensures
        outcome == match found {
            Err(error) => Err::<DebuggerCommand, u32>(error),
            Ok(None) => Err(ERROR_FILE_NOT_FOUND),
            Ok(Some(command)) => if is_file {
                Ok(command)
            } else {
                Err(ERROR_FILE_NOT_FOUND)
            },
        },
{
    match found {
        Err(error) => Err(error),
        Ok(None) => Err(ERROR_FILE_NOT_FOUND),
        Ok(Some(command)) => if is_file {
            Ok(command)
        } else {
            Err(ERROR_FILE_NOT_FOUND)
        },
    }
}

/// The program that a value of the registry names, wherever it lies: none where there is none,
/// or where it is the one of old systems that cannot be used.
pub fn normalize_debugger_command(command_line: &str, value_type: u32, expanded: &str) -> (program:
    Option<String>)
    ensures
        ({
            let executable = first_token(
                if value_type == REG_EXPAND_SZ {
                    expanded@
                } else {
                    command_line@
                },
            );
            &&& program is Some <==> is_text_type(value_type) && executable.len() > 0
                && !is_legacy_debugger(executable)
            &&& program matches Some(found) ==> found@ == executable
        }),
{
    let executable = if value_type == REG_EXPAND_SZ {
        first_token_chars(chars_of(expanded).as_slice())
    } else if value_type == REG_SZ {
        first_token_chars(chars_of(command_line).as_slice())
    } else {
        return None;
    };
    if executable.len() == 0 || names_legacy_debugger(&executable) {
        None
    } else {
        Some(string_of(executable.as_slice()))
    }
}

} // verus!
