//! What is read out of the command line of a debugger, and what is put into it.
use vstd::prelude::*;

use super::columns::{column_numbered, widths_stored};
use super::debugger::{
    before_first, component_length, file_name, filled, first_token, has_drive, is_absolute_path,
    is_verbatim, last_component, machine_is_32_bit, path_body, placeholders, prefix_length,
    registry_text, registry_view, separates, starts_with_separators, template_error,
    DebuggerRegistryView, RegistryAnswer, IMAGE_FILE_MACHINE_AMD64, IMAGE_FILE_MACHINE_ARM,
    IMAGE_FILE_MACHINE_ARM64, IMAGE_FILE_MACHINE_ARMNT, IMAGE_FILE_MACHINE_I386,
    IMAGE_FILE_MACHINE_IA64, IMAGE_FILE_MACHINE_THUMB, IMAGE_FILE_MACHINE_UNKNOWN, REG_EXPAND_SZ,
    REG_SZ,
};
use crate::pdh::first_zero;
use crate::text::{is_space, trimmed, trimmed_end, trimmed_start};
use crate::utf16::{decoding_undoes_encoding, encoded, encoded_char};
use crate::win32::{ERROR_INVALID_DATA, ERROR_NOT_SUPPORTED};

verus! {

/// What is trimmed away is white space, and all of it at both ends.
pub proof fn trimming_takes_the_space_around(text: Seq<char>)
    ensures
        exists|start: int, end: int|
            0 <= start <= end <= text.len() && trimmed(text) == #[trigger] text.subrange(start, end)
                && (forall|i: int| 0 <= i < start ==> is_space(#[trigger] text[i]))
                && (forall|i: int|
                end <= i < text.len() ==> is_space(#[trigger] text[i])),
        trimmed(text).len() > 0 ==> !is_space(trimmed(text)[0]) && !is_space(trimmed(text).last()),
{
    lemma_trimmed_start(text);
    let rest = trimmed_start(text);
    let start = text.len() - rest.len();
    lemma_trimmed_end(rest);
    let end = start + trimmed(text).len();
    assert(trimmed(text) =~= text.subrange(start, end)) by {
        assert(rest =~= text.skip(start));
        assert(trimmed(text) =~= rest.take(trimmed(text).len() as int));
    }
    assert forall|i: int| end <= i < text.len() implies is_space(#[trigger] text[i]) by {
        assert(rest[i - start] == text[i]);
    }
    if trimmed(text).len() > 0 {
        assert(trimmed(text)[0] == rest[0]);
    }
}

proof fn lemma_trimmed_start(text: Seq<char>)
    ensures
        ({
            let rest = trimmed_start(text);
            &&& rest.len() <= text.len()
            &&& rest == text.skip(text.len() - rest.len())
            &&& forall|i: int| 0 <= i < text.len() - rest.len() ==> is_space(#[trigger] text[i])
            &&& rest.len() > 0 ==> !is_space(rest[0])
        }),
    decreases text.len(),
{
    if text.len() > 0 && is_space(text[0]) {
        let shorter = text.drop_first();
        lemma_trimmed_start(shorter);
        let rest = trimmed_start(text);
        assert(rest =~= text.skip(text.len() - rest.len()));
        assert forall|i: int| 0 <= i < text.len() - rest.len() implies is_space(
            #[trigger] text[i],
        ) by {
            if i > 0 {
                assert(shorter[i - 1] == text[i]);
            }
        }
    } else {
        assert(text.skip(0) =~= text);
    }
}

proof fn lemma_trimmed_end(text: Seq<char>)
    ensures
        ({
            let rest = trimmed_end(text);
            &&& rest.len() <= text.len()
            &&& rest == text.take(rest.len() as int)
            &&& forall|i: int| rest.len() <= i < text.len() ==> is_space(#[trigger] text[i])
            &&& rest.len() > 0 ==> !is_space(rest.last())
        }),
    decreases text.len(),
{
    if text.len() > 0 && is_space(text.last()) {
        let shorter = text.drop_last();
        lemma_trimmed_end(shorter);
        let rest = trimmed_end(text);
        assert(rest =~= text.take(rest.len() as int));
        assert forall|i: int| rest.len() <= i < text.len() implies is_space(#[trigger] text[i]) by {
            if i < shorter.len() {
                assert(shorter[i] == text[i]);
            }
        }
    } else {
        assert(text.take(text.len() as int) =~= text);
    }
}

/// What stands before the first character of a sort is the longest start of the text without such
/// a character.
pub proof fn start_ends_at_the_first(text: Seq<char>, stop: spec_fn(char) -> bool)
    ensures
        ({
            let start = before_first(text, stop);
            &&& start.len() <= text.len()
            &&& start == text.take(start.len() as int)
            &&& forall|i: int| 0 <= i < start.len() ==> !stop(#[trigger] text[i])
            &&& start.len() < text.len() ==> stop(text[start.len() as int])
        }),
    decreases text.len(),
{
    let start = before_first(text, stop);
    if text.len() > 0 && !stop(text[0]) {
        let rest = text.drop_first();
        start_ends_at_the_first(rest, stop);
        assert(start =~= text.take(start.len() as int));
        assert forall|i: int| 0 <= i < start.len() implies !stop(#[trigger] text[i]) by {
            if i > 0 {
                assert(rest[i - 1] == text[i]);
            }
        }
    } else {
        assert(start =~= text.take(0));
    }
}

/// The program in a command line is what stands between the quotes, spaces and all; without quotes
/// it is the first word.
pub proof fn program_stands_first(program: Seq<char>, rest: Seq<char>)
    requires
        rest.len() == 0 || !is_space(rest.last()),
    ensures
        !program.contains('"') ==> first_token(seq!['"'] + program + seq!['"'] + rest) == program,
        program.len() > 0 && program[0] != '"' && rest.len() > 0 && (forall|i: int|
            0 <= i < program.len() ==> !is_space(#[trigger] program[i])) ==> first_token(
            program + seq![' '] + rest,
        ) == program,
{
    if !program.contains('"') {
        let line = seq!['"'] + program + seq!['"'] + rest;
        assert(!is_space(line[0]));
        assert(!is_space(line.last())) by {
            if rest.len() > 0 {
                assert(line.last() == rest.last());
            }
        }
        assert(trimmed(line) == line);
        let inner = line.skip(1);
        let stop = |c: char| c == '"';
        start_ends_at_the_first(inner, stop);
        let found = before_first(inner, stop);
        assert(inner =~= program + seq!['"'] + rest);
        assert forall|i: int| 0 <= i < program.len() implies program[i] != '"' by {
            if program[i] == '"' {
                assert(program.contains('"'));
            }
        }
        assert(stop(inner[program.len() as int]));
        if found.len() < program.len() {
            assert(inner[found.len() as int] == program[found.len() as int]);
        } else if found.len() > program.len() {
            assert(!stop(inner[program.len() as int]));
        }
        assert(found =~= program);
    }
    if program.len() > 0 && program[0] != '"' && rest.len() > 0 && (forall|i: int|
        0 <= i < program.len() ==> !is_space(#[trigger] program[i])) {
        let line = program + seq![' '] + rest;
        assert(line[0] == program[0]);
        assert(!is_space(line[0]));
        assert(line.last() == rest.last());
        assert(trimmed(line) == line);
        let stop = |c: char| is_space(c);
        start_ends_at_the_first(line, stop);
        let found = before_first(line, stop);
        assert(line[program.len() as int] == ' ');
        assert(stop(line[program.len() as int]));
        if found.len() < program.len() {
            assert(line[found.len() as int] == program[found.len() as int]);
        } else if found.len() > program.len() {
            assert(!stop(line[program.len() as int]));
        }
        assert(found =~= program);
    }
}

/// A doubled percent sign stands for one, and is no placeholder.
pub proof fn doubled_percent_stands_for_one(
    rest: Seq<char>,
    values: Seq<Seq<char>>,
    used: int,
    count: int,
)
    ensures
        filled(seq!['%', '%'] + rest, values, used) == seq!['%'] + filled(rest, values, used),
        placeholders(seq!['%', '%'] + rest, count) == placeholders(rest, count),
{
    assert((seq!['%', '%'] + rest).skip(2) =~= rest);
}

/// A placeholder is filled whatever the case of its letters; any other character behind a percent
/// sign is refused, the placeholder of an address with an error of its own.
pub proof fn placeholders_are_known(
    rest: Seq<char>,
    values: Seq<Seq<char>>,
    used: int,
    count: int,
    letter: char,
    digit: char,
)
    ensures
        (letter == 'l' || letter == 'L') && (digit == 'd' || digit == 'D') ==> {
            &&& placeholders(seq!['%', letter, digit] + rest, count)
                == placeholders(rest, count + 1)
            &&& filled(seq!['%', letter, digit] + rest, values, used) == values[used] + filled(
                rest,
                values,
                used + 1,
            )
        },
        (letter == 'l' || letter == 'L') && digit != 'd' && digit != 'D' ==> placeholders(
            seq!['%', letter, digit] + rest,
            count,
        ) == Err::<int, u32>(ERROR_INVALID_DATA),
        letter == 'p' || letter == 'P' ==> placeholders(seq!['%', letter] + rest, count) == Err::<
            int,
            u32,
        >(ERROR_NOT_SUPPORTED),
        letter != 'l' && letter != 'L' && letter != 'p' && letter != 'P' && letter != '%'
            ==> placeholders(seq!['%', letter] + rest, count)
            == Err::<int, u32>(ERROR_INVALID_DATA),
        placeholders(seq!['%'], count) == Err::<int, u32>(ERROR_INVALID_DATA),
{
    assert((seq!['%', letter, digit] + rest).skip(3) =~= rest);
}

/// A template is accepted with two placeholders, and with no other number of them.
pub proof fn two_placeholders_are_needed(template: Seq<char>)
    ensures
        template_error(template) is None <==> placeholders(template, 0) == Ok::<int, u32>(2),
        placeholders(template, 0) matches Err(error) ==> template_error(template) == Some(error),
        placeholders(template, 0) matches Ok(count) && count != 2 ==> template_error(template)
            == Some(ERROR_INVALID_DATA),
{
}

/// The debugger is looked for in the part of the registry for programs like the process: on a
/// system of 32 bits there is only one; on one of 64 bits a process of 32 bits has its own.
pub proof fn registry_part_fits_the_process(process: u16, native: u16)
    ensures
        machine_is_32_bit(native) == Some(true) && (process == IMAGE_FILE_MACHINE_UNKNOWN
            || machine_is_32_bit(process) is Some) ==> registry_view(process, native) == Ok::<
            DebuggerRegistryView,
            u32,
        >(DebuggerRegistryView::Native),
        machine_is_32_bit(native) == Some(false) && machine_is_32_bit(process) == Some(true)
            ==> registry_view(process, native) == Ok::<DebuggerRegistryView, u32>(
            DebuggerRegistryView::Registry32,
        ),
        machine_is_32_bit(native) == Some(false) && (process == IMAGE_FILE_MACHINE_UNKNOWN
            || machine_is_32_bit(process) == Some(false))
            ==> registry_view(process, native) == Ok::<
            DebuggerRegistryView,
            u32,
        >(DebuggerRegistryView::Registry64),
        machine_is_32_bit(native) is None ==> registry_view(process, native) is Err,
        process != IMAGE_FILE_MACHINE_UNKNOWN && machine_is_32_bit(process) is None
            ==> registry_view(process, native) is Err,
        machine_is_32_bit(process) == Some(true) <==> process == IMAGE_FILE_MACHINE_I386 || process
            == IMAGE_FILE_MACHINE_ARM || process == IMAGE_FILE_MACHINE_ARMNT || process
            == IMAGE_FILE_MACHINE_THUMB,
        machine_is_32_bit(process) == Some(false) <==> process == IMAGE_FILE_MACHINE_AMD64
            || process
            == IMAGE_FILE_MACHINE_ARM64 || process == IMAGE_FILE_MACHINE_IA64,
{
}

/// The first zero is the first one.
pub proof fn first_zero_is_the_first(units: Seq<u16>)
    ensures
        match first_zero(units) {
            Some(at) => 0 <= at < units.len() && units[at] == 0 && forall|i: int|
                0 <= i < at ==> #[trigger] units[i] != 0,
            None => forall|i: int| 0 <= i < units.len() ==> #[trigger] units[i] != 0,
        },
    decreases units.len(),
{
    if units.len() > 0 && units[0] != 0 {
        let rest = units.drop_first();
        first_zero_is_the_first(rest);
        match first_zero(rest) {
            Some(at) => {
                assert forall|i: int| 0 <= i < at + 1 implies #[trigger] units[i] != 0 by {
                    if i > 0 {
                        assert(rest[i - 1] != 0);
                    }
                }
            },
            None => {
                assert forall|i: int| 0 <= i < units.len() implies #[trigger] units[i] != 0 by {
                    if i > 0 {
                        assert(rest[i - 1] != 0);
                    }
                }
            },
        }
    }
}

proof fn lemma_encoded_char_without_zero(c: char)
    requires
        c != '\0',
    ensures
        forall|i: int| 0 <= i < encoded_char(c).len() ==> #[trigger] encoded_char(c)[i] != 0,
{
    let code = c as u32;
    assert(code != 0);
    assert(code <= 0x10_FFFF);
    if code < 0x1_0000 {
        assert(c as u16 == code);
    }
}

proof fn lemma_encoded_without_zero(text: Seq<char>)
    requires
        forall|i: int| 0 <= i < text.len() ==> #[trigger] text[i] != '\0',
    ensures
        forall|i: int| 0 <= i < encoded(text).len() ==> #[trigger] encoded(text)[i] != 0,
    decreases text.len(),
{
    if text.len() > 0 {
        let rest = text.drop_first();
        assert forall|i: int| 0 <= i < rest.len() implies #[trigger] rest[i] != '\0' by {
            assert(text[i + 1] != '\0');
        }
        lemma_encoded_without_zero(rest);
        let first = encoded_char(text[0]);
        assert(text[0] != '\0');
        lemma_encoded_char_without_zero(text[0]);
        assert forall|i: int| 0 <= i < encoded(text).len() implies #[trigger] encoded(text)[i]
            != 0 by {
            if i < first.len() {
                assert(encoded(text)[i] == first[i]);
            } else {
                assert(encoded(text)[i] == encoded(rest)[i - first.len()]);
            }
        }
    }
}

/// A text that was stored in the registry, with the zero at its end, is read back, whatever
/// follows in the room for it.
pub proof fn stored_text_is_read_back(text: Seq<char>, answer: RegistryAnswer)
    requires
        forall|i: int| 0 <= i < text.len() ==> #[trigger] text[i] != '\0',
        answer.read_status == 0,
        answer.close_status == 0,
        answer.value_type == REG_SZ || answer.value_type == REG_EXPAND_SZ,
        answer.actual_size == 2 * (encoded(text).len() + 1),
        answer.actual_size <= answer.value_size,
        answer.buffer@.len() * 2 >= answer.actual_size,
        answer.buffer@.take(encoded(text).len() as int) == encoded(text),
        answer.buffer@[encoded(text).len() as int] == 0,
    ensures
        registry_text(answer) == Ok::<Seq<char>, u32>(text),
{
    let length = encoded(text).len() as int;
    let units = answer.buffer@.take(answer.actual_size as int / 2);
    lemma_encoded_without_zero(text);
    first_zero_is_the_first(units);
    assert(units[length] == 0);
    assert forall|i: int| 0 <= i < length implies #[trigger] units[i] != 0 by {
        assert(answer.buffer@.take(length)[i] == units[i]);
    }
    let at = first_zero(units)->0;
    assert(at == length);
    assert(units.take(length) =~= encoded(text));
    decoding_undoes_encoding(text);
}

/// A component of a path reaches up to the next separator.
pub proof fn component_ends_at_a_separator(text: Seq<char>, verbatim: bool)
    ensures
        0 <= component_length(text, verbatim) <= text.len(),
        forall|i: int|
            0 <= i < component_length(text, verbatim) ==> !separates(#[trigger] text[i], verbatim),
        component_length(text, verbatim) < text.len() ==> separates(
            text[component_length(text, verbatim)],
            verbatim,
        ),
    decreases text.len(),
{
    if text.len() > 0 && !separates(text[0], verbatim) {
        let rest = text.drop_first();
        component_ends_at_a_separator(rest, verbatim);
        assert forall|i: int| 0 <= i < component_length(text, verbatim) implies !separates(
            #[trigger] text[i],
            verbatim,
        ) by {
            if i > 0 {
                assert(rest[i - 1] == text[i]);
            }
        }
    }
}

/// A path on a drive is absolute exactly if a separator follows the colon; without a drive and
/// without separators in front no path is.
pub proof fn drive_paths_are_absolute_with_a_separator(path: Seq<char>)
    ensures
        has_drive(path) ==> (is_absolute_path(path) <==> path.len() >= 3 && (path[2] == '\\'
            || path[2] == '/')),
        !has_drive(path) && !(path.len() >= 2 && (path[0] == '\\' || path[0] == '/') && (path[1]
            == '\\' || path[1] == '/')) ==> !is_absolute_path(path),
{
}

proof fn lemma_last_component(head: Seq<char>, name: Seq<char>)
    requires
        head.len() == 0 || separates(head.last(), false),
        forall|i: int| 0 <= i < name.len() ==> !separates(#[trigger] name[i], false),
    ensures
        last_component(head + name, false) == name,
    decreases name.len(),
{
    if name.len() == 0 {
        assert(head + name =~= head);
        assert(last_component(head, false) =~= name);
    } else {
        let shorter = name.drop_last();
        assert forall|i: int| 0 <= i < shorter.len() implies !separates(
            #[trigger] shorter[i],
            false,
        ) by {
            assert(shorter[i] == name[i]);
        }
        lemma_last_component(head, shorter);
        assert((head + name).drop_last() =~= head + shorter);
        assert((head + name).last() == name[name.len() - 1]);
        assert(shorter.push(name.last()) =~= name);
    }
}

/// The file that a path on a drive leads to is named by what follows its last separator.
pub proof fn file_is_named_last(drive: char, directory: Seq<char>, name: Seq<char>)
    requires
        'a' <= drive <= 'z' || 'A' <= drive <= 'Z',
        directory.len() == 0 || directory.last() == '\\' || directory.last() == '/',
        name.len() > 0,
        name != seq!['.'],
        name != seq!['.', '.'],
        forall|i: int| 0 <= i < name.len() ==> #[trigger] name[i] != '\\' && name[i] != '/',
    ensures
        file_name(seq![drive, ':', '\\'] + directory + name) == name,
        is_absolute_path(seq![drive, ':', '\\'] + directory + name),
{
    let path = seq![drive, ':', '\\'] + directory + name;
    assert(path[0] == drive && path[1] == ':' && path[2] == '\\');
    assert(!is_verbatim(path));
    assert(!starts_with_separators(path));
    assert(prefix_length(path) == 2);
    assert(path_body(path) =~= directory + name);
    lemma_last_component(directory, name);
}

proof fn lemma_widths_stored(numbers: Seq<i32>, widths: Seq<i32>, count: int, i: int)
    requires
        0 <= i < count <= numbers.len(),
        numbers.len() == widths.len(),
        forall|k: int| 0 <= k < count ==> 0 <= #[trigger] numbers[k] < 16,
        forall|k: int| i < k < count ==> #[trigger] numbers[k] != numbers[i],
    ensures
        ({
            let stored = widths_stored(numbers, widths, count);
            stored.contains_key(numbers[i] as u32) && stored[numbers[i] as u32] == widths[i]
        }),
    decreases count,
{
    assert forall|k: int| 0 <= k < count implies column_numbered(
        #[trigger] numbers[k] as int,
    ) is Some by {}
    if i < count - 1 {
        lemma_widths_stored(numbers, widths, count - 1, i);
        assert(numbers[count - 1] != numbers[i]);
    }
}

/// A column that is shown keeps the width that is stored in its place.
pub proof fn shown_columns_keep_their_widths(
    numbers: Seq<i32>,
    widths: Seq<i32>,
    shown: int,
    i: int,
)
    requires
        numbers.len() == 16,
        widths.len() == 16,
        0 <= i < shown <= 16,
        forall|k: int| 0 <= k < shown ==> 0 <= #[trigger] numbers[k] < 16,
        forall|k: int| shown <= k < 16 ==> #[trigger] numbers[k] == -1,
        forall|k: int| 0 <= k < shown && k != i ==> #[trigger] numbers[k] != numbers[i],
    ensures
        ({
            let stored = widths_stored(numbers, widths, 16);
            stored.contains_key(numbers[i] as u32) && stored[numbers[i] as u32] == widths[i]
        }),
{
    lemma_widths_stored(numbers, widths, shown, i);
    lemma_unused_places(numbers, widths, shown, 16);
}

proof fn lemma_unused_places(numbers: Seq<i32>, widths: Seq<i32>, shown: int, count: int)
    requires
        0 <= shown <= count <= numbers.len(),
        forall|k: int| shown <= k < numbers.len() ==> #[trigger] numbers[k] == -1,
    ensures
        widths_stored(numbers, widths, count) == widths_stored(numbers, widths, shown),
    decreases count,
{
    if count > shown {
        lemma_unused_places(numbers, widths, shown, count - 1);
        assert(numbers[count - 1] == -1);
        assert(column_numbered(numbers[count - 1] as int) is None);
    }
}

/// Nothing but a text is read from the registry, and only one that was delivered whole: without an
/// error, in whole units, and no more of them than there is room for.
pub proof fn other_values_are_no_texts(answer: RegistryAnswer)
    ensures
        registry_text(answer) is Ok ==> {
            &&& answer.value_type == REG_SZ || answer.value_type == REG_EXPAND_SZ
            &&& answer.read_status == 0 && answer.close_status == 0
            &&& answer.actual_size % 2 == 0 && 2 <= answer.actual_size <= answer.value_size
        },
        answer.read_status != 0 ==> registry_text(answer) == Err::<Seq<char>, u32>(
            answer.read_status,
        ),
{
}

} // verus!
