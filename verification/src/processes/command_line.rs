//! Arguments of a command line.
use vstd::prelude::*;

use crate::text::{append_chars, append_text, chars_of, copied_chars, string_of};

verus! {

pub open spec fn backslashes(count: nat) -> Seq<char> {
    Seq::new(count, |i: int| '\\')
}

pub open spec fn needs_quotes(value: Seq<char>) -> bool {
    value.contains(' ') || value.contains('\t') || value.contains('"')
}

/// What stands between the quotes for `value`, with `pending` backslashes before it: they are
/// doubled before a quote, which has one more before it, and before the closing quote.
pub open spec fn escaped(value: Seq<char>, pending: nat) -> Seq<char>
    decreases value.len(),
{
    if value.len() == 0 {
        backslashes(2 * pending)
    } else if value[0] == '\\' {
        escaped(value.skip(1), pending + 1)
    } else if value[0] == '"' {
        backslashes(2 * pending + 1) + seq!['"'] + escaped(value.skip(1), 0)
    } else {
        backslashes(pending) + seq![value[0]] + escaped(value.skip(1), 0)
    }
}

/// An argument as it stands on a command line.
pub open spec fn quoted(value: Seq<char>) -> Seq<char> {
    if needs_quotes(value) {
        seq!['"'] + escaped(value, 0) + seq!['"']
    } else {
        value
    }
}

/// How a program reads what follows an opening quote, with `pending` backslashes before it: two
/// backslashes before a quote stand for one, a single one makes the quote a plain character, and
/// a quote without one ends the argument. There is no argument unless its end is the text's.
pub open spec fn read_quoted(text: Seq<char>, pending: nat) -> Option<Seq<char>>
    decreases text.len(),
{
    if text.len() == 0 {
        None
    } else if text[0] == '\\' {
        read_quoted(text.skip(1), pending + 1)
    } else if text[0] == '"' && pending % 2 == 0 {
        if text.len() == 1 {
            Some(backslashes(pending / 2))
        } else {
            None
        }
    } else {
        let read = if text[0] == '"' {
            backslashes(pending / 2)
        } else {
            backslashes(pending)
        };
        match read_quoted(text.skip(1), 0) {
            Some(rest) => Some(read.push(text[0]) + rest),
            None => None,
        }
    }
}

/// How a program reads one argument that fills a command line.
pub open spec fn read_argument(text: Seq<char>) -> Option<Seq<char>> {
    if text.len() > 0 && text[0] == '"' {
        read_quoted(text.skip(1), 0)
    } else if needs_quotes(text) {
        None
    } else {
        Some(text)
    }
}

proof fn lemma_read_backslashes(count: nat, text: Seq<char>, pending: nat)
    ensures
        read_quoted(backslashes(count) + text, pending) == read_quoted(text, pending + count),
    decreases count,
{
    let whole = backslashes(count) + text;
    if count == 0 {
        assert(whole =~= text);
    } else {
        assert(whole[0] == '\\');
        assert(whole.skip(1) =~= backslashes((count - 1) as nat) + text);
        lemma_read_backslashes((count - 1) as nat, text, pending + 1);
    }
}

proof fn lemma_read_escaped(value: Seq<char>, pending: nat)
    ensures
        read_quoted(escaped(value, pending) + seq!['"'], 0) == Some(backslashes(pending) + value),
    decreases value.len(),
{
    let closing = seq!['"'];
    if value.len() == 0 {
        lemma_read_backslashes(2 * pending, closing, 0);
        assert(2 * pending / 2 == pending);
        assert(backslashes(pending) + value =~= backslashes(pending));
    } else if value[0] == '\\' {
        lemma_read_escaped(value.skip(1), pending + 1);
        assert(backslashes(pending + 1) + value.skip(1) =~= backslashes(pending) + value);
    } else {
        let c = value[0];
        let before: nat = if c == '"' {
            2 * pending + 1
        } else {
            pending
        };
        let tail = escaped(value.skip(1), 0) + closing;
        let text = seq![c] + tail;
        lemma_read_escaped(value.skip(1), 0);
        assert(backslashes(0) + value.skip(1) =~= value.skip(1));
        assert(escaped(value, pending) + closing =~= backslashes(before) + text);
        lemma_read_backslashes(before, text, 0);
        assert(text.skip(1) =~= tail);
        assert(before / 2 == pending || c != '"');
        assert(backslashes(pending).push(c) + value.skip(1) =~= backslashes(pending) + value);
    }
}

/// A program reads a quoted argument as the value that was quoted.
pub proof fn quoted_argument_is_read_back(value: Seq<char>)
    ensures
        read_argument(quoted(value)) == Some(value),
{
    if needs_quotes(value) {
        lemma_read_escaped(value, 0);
        assert(quoted(value).skip(1) =~= escaped(value, 0) + seq!['"']);
        assert(backslashes(0) + value =~= value);
    } else if value.len() > 0 {
        assert(value[0] != '"') by {
            if value[0] == '"' {
                assert(value.contains('"'));
            }
        }
    }
}

fn push_backslashes(text: &mut Vec<char>, count: usize)
    ensures
        final(text)@ == old(text)@ + backslashes(count as nat),
{
    assert(text@ =~= old(text)@ + backslashes(0));
    for done in 0..count
        invariant
            text@ == old(text)@ + backslashes(done as nat),
    {
        text.push('\\');
        assert(text@ =~= old(text)@ + backslashes((done + 1) as nat));
    }
}

fn has_char(chars: &Vec<char>, wanted: char) -> (found: bool)
    ensures
        found == chars@.contains(wanted),
{
    for index in 0..chars.len()
        invariant
            forall|i: int| 0 <= i < index ==> chars@[i] != wanted,
    {
        if chars[index] == wanted {
            return true;
        }
    }
    false
}

fn quoted_chars(value: &Vec<char>) -> (text: Vec<char>)
    ensures
        text@ == quoted(value@),
{
    if !(has_char(value, ' ') || has_char(value, '\t') || has_char(value, '"')) {
        return copied_chars(value.as_slice());
    }
    let mut text: Vec<char> = Vec::new();
    text.push('"');
    let mut pending: usize = 0;
    proof {
        assert(value@.skip(0) =~= value@);
        assert(text@ + escaped(value@, 0) =~= seq!['"'] + escaped(value@, 0));
    }
    for index in 0..value.len()
        invariant
            pending <= index,
            seq!['"'] + escaped(value@, 0) == text@ + escaped(
                value@.skip(index as int),
                pending as nat,
            ),
    {
        let ghost rest = value@.skip(index as int);
        let ghost before = text@;
        let ghost earlier = pending as nat;
        let c: char = value[index];
        proof {
            assert(rest[0] == c);
            assert(rest.skip(1) =~= value@.skip(index + 1));
        }
        if c == '\\' {
            pending = pending + 1;
        } else if c == '"' {
            push_backslashes(&mut text, pending);
            push_backslashes(&mut text, pending);
            text.push('\\');
            text.push('"');
            proof {
                assert(text@ + escaped(rest.skip(1), 0) =~= before + (backslashes(2 * earlier + 1)
                    + seq!['"'] + escaped(rest.skip(1), 0)));
            }
            pending = 0;
        } else {
            push_backslashes(&mut text, pending);
            text.push(c);
            proof {
                assert(text@ + escaped(rest.skip(1), 0) =~= before + (backslashes(earlier) + seq![c]
                    + escaped(rest.skip(1), 0)));
            }
            pending = 0;
        }
    }
    let ghost before = text@;
    push_backslashes(&mut text, pending);
    push_backslashes(&mut text, pending);
    proof {
        assert(value@.skip(value@.len() as int) =~= Seq::<char>::empty());
        assert(text@ =~= before + backslashes(2 * pending as nat));
    }
    text.push('"');
    text
}

/// Puts an argument between quotes where it needs them.
pub fn quote_command_line_arg(value: &str) -> (text: String)
    ensures
        text@ == quoted(value@),
{
    string_of(quoted_chars(&chars_of(value)).as_slice())
}

/// The command line that shows a file in its directory.
pub fn explorer_command_line(windows_directory: &str, image_path: &str) -> (text: String)
    ensures
        text@ == windows_directory@ + "\\explorer.exe"@ + " /select,"@ + quoted(image_path@),
{
    let mut text = chars_of(windows_directory);
    append_text(&mut text, "\\explorer.exe");
    append_text(&mut text, " /select,");
    append_chars(&mut text, quoted_chars(&chars_of(image_path)).as_slice());
    string_of(text.as_slice())
}

} // verus!
