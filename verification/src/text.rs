//! Text as sequences of characters: ASCII case, separators and numbers.
use vstd::prelude::*;

use crate::seqs::lemma_push_contains;

verus! {

/// `String::push` appends one character and leaves the rest as it is.
pub assume_specification[ String::push ](text: &mut String, c: char)
    ensures
        final(text)@ == old(text)@.push(c),
;

/// The characters of `text`.
pub fn chars_of(text: &str) -> (chars: Vec<char>)
    ensures
        chars@ == text@,
{
    let mut chars: Vec<char> = Vec::new();
    for c in it: text.chars()
        invariant
            chars@ == it.seq().take(it.index() as int),
            it.seq() == text@,
    {
        proof {
            assert(it.seq().take(it.index() + 1) =~= it.seq().take(it.index() as int).push(c));
        }
        chars.push(c);
    }
    assert(text@.take(text@.len() as int) =~= text@);
    chars
}

/// The text made of `chars`.
pub fn string_of(chars: &[char]) -> (text: String)
    ensures
        text@ == chars@,
{
    let mut text = String::new();
    for index in 0..chars.len()
        invariant
            text@ == chars@.take(index as int),
    {
        assert(chars@.take(index + 1) =~= chars@.take(index as int).push(chars@[index as int]));
        text.push(chars[index]);
    }
    assert(chars@.take(chars@.len() as int) =~= chars@);
    text
}

/// A text with the same characters.
pub fn copy_of(text: &str) -> (copied: String)
    ensures
        copied@ == text@,
{
    string_of(chars_of(text).as_slice())
}

pub fn same_chars(a: &[char], b: &[char]) -> (same: bool)
    ensures
        same == (a@ == b@),
{
    if a.len() != b.len() {
        return false;
    }
    for index in 0..a.len()
        invariant
            a@.len() == b@.len(),
            forall|i: int| 0 <= i < index ==> a@[i] == b@[i],
    {
        if a[index] != b[index] {
            return false;
        }
    }
    assert(a@ =~= b@);
    true
}

/// Whether `chars` are the characters of `text`.
pub fn is_text(chars: &[char], text: &str) -> (same: bool)
    ensures
        same == (chars@ == text@),
{
    same_chars(chars, chars_of(text).as_slice())
}

/// Whether two texts have the same characters.
pub fn same_text(a: &str, b: &str) -> (same: bool)
    ensures
        same == (a@ == b@),
{
    same_chars(chars_of(a).as_slice(), chars_of(b).as_slice())
}

pub open spec fn is_ascii_upper(c: char) -> bool {
    'A' <= c <= 'Z'
}

/// The lower-case form of an ASCII letter; any other character as it is.
pub open spec fn lower_char(c: char) -> char {
    if is_ascii_upper(c) {
        (c as u8 + 32) as u8 as char
    } else {
        c
    }
}

pub open spec fn lower(text: Seq<char>) -> Seq<char> {
    text.map_values(|c: char| lower_char(c))
}

pub fn ascii_lower(c: char) -> (lowered: char)
    ensures
        lowered == lower_char(c),
{
    if 'A' <= c && c <= 'Z' {
        (c as u8 + 32) as char
    } else {
        c
    }
}

pub fn lower_chars(chars: &[char]) -> (lowered: Vec<char>)
    ensures
        lowered@ == lower(chars@),
{
    let mut lowered: Vec<char> = Vec::new();
    for index in 0..chars.len()
        invariant
            lowered@ =~= lower(chars@.take(index as int)),
    {
        lowered.push(ascii_lower(chars[index]));
    }
    assert(chars@.take(chars@.len() as int) =~= chars@);
    lowered
}

/// Whether two texts are equal up to the case of ASCII letters.
pub fn equals_ignore_ascii_case(chars: &[char], text: &str) -> (same: bool)
    ensures
        same == (lower(chars@) == lower(text@)),
{
    let other = chars_of(text);
    same_chars(lower_chars(chars).as_slice(), lower_chars(other.as_slice()).as_slice())
}

/// What `str::to_lowercase` makes of a text.
pub uninterp spec fn lowercase(text: Seq<char>) -> Seq<char>;

/// `str::to_lowercase` maps every character to its lower-case form by the Unicode tables. Which
/// form that is stays open here; the same text always has the same one.
#[verifier::external_body]
pub(crate) fn to_lowercase(text: &str) -> (lowered: String)
    ensures
        lowered@ == lowercase(text@),
{
    text.to_lowercase()
}

/// The pieces of `text` between occurrences of `separator`.
pub open spec fn pieces(text: Seq<char>, separator: char) -> Seq<Seq<char>>
    decreases text.len(),
{
    if text.len() == 0 {
        seq![Seq::<char>::empty()]
    } else {
        let before = pieces(text.drop_last(), separator);
        if text.last() == separator {
            before.push(Seq::empty())
        } else {
            before.drop_last().push(before.last().push(text.last()))
        }
    }
}

/// The texts of `parts` in one, with `separator` between them.
pub open spec fn joined(parts: Seq<Seq<char>>, separator: char) -> Seq<char>
    decreases parts.len(),
{
    if parts.len() == 0 {
        Seq::empty()
    } else if parts.len() == 1 {
        parts[0]
    } else {
        joined(parts.drop_last(), separator).push(separator) + parts.last()
    }
}

pub proof fn lemma_pieces_nonempty(text: Seq<char>, separator: char)
    ensures
        pieces(text, separator).len() >= 1,
    decreases text.len(),
{
    if text.len() > 0 {
        lemma_pieces_nonempty(text.drop_last(), separator);
    }
}

/// Joining the pieces of a text gives the text back, and no piece holds the separator.
pub proof fn joined_pieces_are_the_text(text: Seq<char>, separator: char)
    ensures
        joined(pieces(text, separator), separator) == text,
        forall|i: int|
            0 <= i < pieces(text, separator).len() ==> !(#[trigger] pieces(text, separator)[i]).contains(
                separator,
            ),
    decreases text.len(),
{
    lemma_pieces_nonempty(text, separator);
    let parts = pieces(text, separator);
    if text.len() == 0 {
        assert(parts[0] =~= text);
    } else {
        let shorter = text.drop_last();
        let before = pieces(shorter, separator);
        joined_pieces_are_the_text(shorter, separator);
        lemma_pieces_nonempty(shorter, separator);
        if text.last() == separator {
            assert(parts.drop_last() =~= before);
            assert(joined(parts, separator) =~= text);
        } else {
            lemma_push_contains(before.last(), text.last());
            assert(parts.drop_last() =~= before.drop_last());
            assert(parts.last() == before.last().push(text.last()));
            if before.len() > 1 {
                let head = joined(before.drop_last(), separator).push(separator);
                assert(joined(before, separator) == head + before.last());
                assert(joined(parts, separator) == head + parts.last());
                assert(head + before.last().push(text.last()) =~= (head + before.last()).push(
                    text.last(),
                ));
            }
            assert(shorter.push(text.last()) =~= text);
        }
    }
}

/// Parts that hold no separator are the pieces of the text that they are joined to.
pub proof fn pieces_of_joined_parts(parts: Seq<Seq<char>>, separator: char)
    requires
        parts.len() > 0,
        forall|i: int| 0 <= i < parts.len() ==> !(#[trigger] parts[i]).contains(separator),
    ensures
        pieces(joined(parts, separator), separator) == parts,
    decreases parts.len(),
{
    if parts.len() == 1 {
        lemma_pieces_append(Seq::empty(), parts[0], separator);
        assert(Seq::<char>::empty() + parts[0] =~= parts[0]);
        let start = pieces(Seq::<char>::empty(), separator);
        assert(start.drop_last().push(start.last() + parts[0]) =~= parts) by {
            assert(start.last() + parts[0] =~= parts[0]);
        }
    } else {
        let front = parts.drop_last();
        let last = parts[parts.len() - 1];
        assert forall|i: int| 0 <= i < front.len() implies !(#[trigger] front[i]).contains(
            separator,
        ) by {
            assert(front[i] == parts[i]);
        }
        pieces_of_joined_parts(front, separator);
        let head = joined(front, separator).push(separator);
        assert(head.drop_last() =~= joined(front, separator));
        let before = pieces(head, separator);
        assert(before == front.push(Seq::empty()));
        lemma_pieces_append(head, last, separator);
        assert(before.drop_last().push(before.last() + last) =~= parts) by {
            assert(before.last() + last =~= last);
        }
    }
}

proof fn lemma_pieces_append(text: Seq<char>, more: Seq<char>, separator: char)
    requires
        !more.contains(separator),
    ensures
        ({
            let before = pieces(text, separator);
            pieces(text + more, separator) == before.drop_last().push(before.last() + more)
        }),
    decreases more.len(),
{
    let before = pieces(text, separator);
    lemma_pieces_nonempty(text, separator);
    if more.len() == 0 {
        assert(text + more =~= text);
        assert(before.last() + more =~= before.last());
        assert(before.drop_last().push(before.last()) =~= before);
    } else {
        let shorter = more.drop_last();
        assert(!shorter.contains(separator)) by {
            if shorter.contains(separator) {
                let k = choose|k: int| 0 <= k < shorter.len() && shorter[k] == separator;
                assert(more[k] == separator);
            }
        }
        assert(more[more.len() - 1] != separator) by {
            if more[more.len() - 1] == separator {
                assert(more.contains(separator));
            }
        }
        lemma_pieces_append(text, shorter, separator);
        assert((text + more).drop_last() =~= text + shorter);
        let between = pieces(text + shorter, separator);
        assert(between.drop_last() =~= before.drop_last());
        assert((before.last() + shorter).push(more.last()) =~= before.last() + more);
    }
}

pub open spec fn views(parts: Seq<Vec<char>>) -> Seq<Seq<char>> {
    parts.map_values(|part: Vec<char>| part@)
}

pub fn split_on(chars: &[char], separator: char) -> (parts: Vec<Vec<char>>)
    ensures
        views(parts@) == pieces(chars@, separator),
        parts@.len() >= 1,
{
    let mut parts: Vec<Vec<char>> = Vec::new();
    let mut current: Vec<char> = Vec::new();
    assert(views(parts@).push(current@) =~= pieces(chars@.take(0), separator));
    for index in 0..chars.len()
        invariant
            views(parts@).push(current@) == pieces(chars@.take(index as int), separator),
    {
        let ghost upto = chars@.take(index + 1);
        let ghost before = pieces(chars@.take(index as int), separator);
        assert(upto.drop_last() =~= chars@.take(index as int));
        assert(before.drop_last() =~= views(parts@));
        assert(before.last() == current@);
        if chars[index] == separator {
            let ghost known = views(parts@);
            let ghost piece = current@;
            parts.push(current);
            current = Vec::new();
            assert(views(parts@) =~= known.push(piece));
            assert(current@ =~= Seq::<char>::empty());
        } else {
            current.push(chars[index]);
        }
    }
    assert(chars@.take(chars@.len() as int) =~= chars@);
    let ghost known = views(parts@);
    let ghost piece = current@;
    parts.push(current);
    assert(views(parts@) =~= known.push(piece));
    parts
}

/// The texts of `parts[from..]` in one, with `separator` between them.
pub fn join_from(parts: &Vec<Vec<char>>, from: usize, separator: char) -> (text: Vec<char>)
    requires
        from < parts.len(),
    ensures
        text@ == joined(views(parts@).skip(from as int), separator),
{
    let ghost tail = views(parts@).skip(from as int);
    let mut text: Vec<char> = copied_chars(parts[from].as_slice());
    assert(tail.take(1) =~= seq![text@]);
    for index in from + 1..parts.len()
        invariant
            from < parts.len(),
            tail == views(parts@).skip(from as int),
            text@ == joined(tail.take(index - from), separator),
    {
        text.push(separator);
        append_chars(&mut text, parts[index].as_slice());
        assert(tail.take(index - from + 1).drop_last() =~= tail.take(index - from));
        assert(tail.take(index - from + 1).last() == parts@[index as int]@);
    }
    assert(tail.take(parts.len() - from) =~= tail);
    text
}

pub fn copied_chars(chars: &[char]) -> (copied: Vec<char>)
    ensures
        copied@ == chars@,
{
    let mut copied: Vec<char> = Vec::new();
    append_chars(&mut copied, chars);
    assert(copied@ =~= chars@);
    copied
}

pub fn append_chars(text: &mut Vec<char>, chars: &[char])
    ensures
        final(text)@ == old(text)@ + chars@,
{
    for index in 0..chars.len()
        invariant
            text@ =~= old(text)@ + chars@.take(index as int),
    {
        text.push(chars[index]);
    }
    assert(chars@.take(chars@.len() as int) =~= chars@);
}

pub fn append_text(text: &mut Vec<char>, more: &str)
    ensures
        final(text)@ == old(text)@ + more@,
{
    append_chars(text, chars_of(more).as_slice());
}

pub open spec fn is_digit(c: char) -> bool {
    '0' <= c <= '9'
}

pub open spec fn all_digits(text: Seq<char>) -> bool {
    forall|i: int| 0 <= i < text.len() ==> is_digit(#[trigger] text[i])
}

/// The number that decimal digits stand for.
pub open spec fn decimal_value(text: Seq<char>) -> nat
    decreases text.len(),
{
    if text.len() == 0 {
        0
    } else {
        (decimal_value(text.drop_last()) * 10 + (text.last() as int - '0' as int)) as nat
    }
}

/// Whether `text` is a decimal number that a `u32` holds: digits only, at least one.
pub open spec fn is_decimal_u32(text: Seq<char>) -> bool {
    text.len() > 0 && all_digits(text) && decimal_value(text) <= u32::MAX
}

proof fn lemma_decimal_value_grows(text: Seq<char>, n: int)
    requires
        all_digits(text),
        0 <= n <= text.len(),
    ensures
        decimal_value(text.take(n)) <= decimal_value(text),
    decreases text.len() - n,
{
    if n == text.len() {
        assert(text.take(n) =~= text);
    } else {
        lemma_decimal_value_grows(text, n + 1);
        assert(text.take(n + 1).drop_last() =~= text.take(n));
        assert(is_digit(text[n]));
    }
}

/// The number that `chars` stand for, where they are a decimal number that a `u32` holds.
pub fn decimal_u32(chars: &[char]) -> (value: Option<u32>)
    ensures
        value is Some <==> is_decimal_u32(chars@),
        value matches Some(number) ==> number == decimal_value(chars@),
{
    if chars.len() == 0 {
        return None;
    }
    for index in 0..chars.len()
        invariant
            forall|i: int| 0 <= i < index ==> is_digit(#[trigger] chars@[i]),
    {
        if !('0' <= chars[index] && chars[index] <= '9') {
            return None;
        }
    }
    let mut value: u64 = 0;
    for index in 0..chars.len()
        invariant
            all_digits(chars@),
            value == decimal_value(chars@.take(index as int)),
            value <= u32::MAX,
    {
        assert(is_digit(chars@[index as int]));
        assert(chars@.take(index + 1).drop_last() =~= chars@.take(index as int));
        value = value * 10 + (chars[index] as u64 - '0' as u64);
        if value > u32::MAX as u64 {
            proof {
                lemma_decimal_value_grows(chars@, index + 1);
            }
            return None;
        }
    }
    assert(chars@.take(chars@.len() as int) =~= chars@);
    Some(value as u32)
}

/// `text` without one leading plus sign.
pub open spec fn without_plus(text: Seq<char>) -> Seq<char> {
    if text.len() > 0 && text[0] == '+' {
        text.skip(1)
    } else {
        text
    }
}

/// The number that `chars` stand for: a decimal number that a `u32` holds, with or without a
/// plus sign.
pub fn signed_decimal_u32(chars: &[char]) -> (value: Option<u32>)
    ensures
        value is Some <==> is_decimal_u32(without_plus(chars@)),
        value matches Some(number) ==> number == decimal_value(without_plus(chars@)),
{
    if chars.len() > 0 && chars[0] == '+' {
        let digits = vstd::slice::slice_subrange(chars, 1, chars.len());
        assert(digits@ =~= chars@.skip(1));
        decimal_u32(digits)
    } else {
        decimal_u32(chars)
    }
}

pub open spec fn is_hex_digit(c: char) -> bool {
    '0' <= c <= '9' || 'a' <= c <= 'f' || 'A' <= c <= 'F'
}

pub open spec fn hex_digit_value(c: char) -> int {
    if '0' <= c <= '9' {
        c as int - '0' as int
    } else if 'a' <= c <= 'f' {
        c as int - 'a' as int + 10
    } else {
        c as int - 'A' as int + 10
    }
}

/// The number that hexadecimal digits stand for.
pub open spec fn hex_value(text: Seq<char>) -> nat
    decreases text.len(),
{
    if text.len() == 0 {
        0
    } else {
        (hex_value(text.drop_last()) * 16 + hex_digit_value(text.last())) as nat
    }
}

/// Whether `text` is a hexadecimal number: the prefix, then one to eight digits.
pub open spec fn is_hex_u32(text: Seq<char>) -> bool {
    &&& 3 <= text.len() <= 10
    &&& text[0] == '0' && (text[1] == 'x' || text[1] == 'X')
    &&& forall|i: int| 2 <= i < text.len() ==> is_hex_digit(#[trigger] text[i])
}

fn hex_digit(c: char) -> (value: Option<u32>)
    ensures
        value is Some <==> is_hex_digit(c),
        value matches Some(digit) ==> digit == hex_digit_value(c) && digit < 16,
{
    if '0' <= c && c <= '9' {
        Some(c as u32 - '0' as u32)
    } else if 'a' <= c && c <= 'f' {
        Some(c as u32 - 'a' as u32 + 10)
    } else if 'A' <= c && c <= 'F' {
        Some(c as u32 - 'A' as u32 + 10)
    } else {
        None
    }
}

/// The largest number with `count` hexadecimal digits, plus one.
spec fn hex_bound(count: int) -> int
    decreases count,
{
    if count <= 0 {
        1
    } else {
        16 * hex_bound(count - 1)
    }
}

proof fn lemma_hex_bound()
    ensures
        hex_bound(0) == 1,
        hex_bound(1) == 0x10,
        hex_bound(2) == 0x100,
        hex_bound(3) == 0x1000,
        hex_bound(4) == 0x1_0000,
        hex_bound(5) == 0x10_0000,
        hex_bound(6) == 0x100_0000,
        hex_bound(7) == 0x1000_0000,
        hex_bound(8) == 0x1_0000_0000,
{
    reveal_with_fuel(hex_bound, 9);
}

/// The number that `chars` stand for, where they are a hexadecimal number with its prefix.
pub fn hex_u32(chars: &[char]) -> (value: Option<u32>)
    ensures
        value is Some <==> is_hex_u32(chars@),
        value matches Some(number) ==> number == hex_value(chars@.skip(2)),
{
    if chars.len() < 3 || chars.len() > 10 || chars[0] != '0' || (chars[1] != 'x' && chars[1]
        != 'X') {
        return None;
    }
    let mut value: u64 = 0;
    for index in 2..chars.len()
        invariant
            3 <= chars@.len() <= 10,
            forall|i: int| 2 <= i < index ==> is_hex_digit(#[trigger] chars@[i]),
            value == hex_value(chars@.subrange(2, index as int)),
            value < hex_bound(index - 2),
    {
        proof {
            lemma_hex_bound();
            let upto = chars@.subrange(2, index + 1);
            assert(upto.drop_last() =~= chars@.subrange(2, index as int));
            assert(upto.last() == chars@[index as int]);
        }
        match hex_digit(chars[index]) {
            None => {
                return None;
            },
            Some(digit) => {
                value = value * 16 + digit as u64;
            },
        }
    }
    proof {
        lemma_hex_bound();
        assert(chars@.subrange(2, chars@.len() as int) =~= chars@.skip(2));
    }
    Some(value as u32)
}

/// Whether a character counts as white space.
pub open spec fn is_space(c: char) -> bool {
    ||| 0x9 <= c as int <= 0xD
    ||| c as int == 0x20
    ||| c as int == 0x85
    ||| c as int == 0xA0
    ||| c as int == 0x1680
    ||| 0x2000 <= c as int <= 0x200A
    ||| c as int == 0x2028
    ||| c as int == 0x2029
    ||| c as int == 0x202F
    ||| c as int == 0x205F
    ||| c as int == 0x3000
}

pub fn is_whitespace(c: char) -> (space: bool)
    ensures
        space == is_space(c),
{
    let code: u32 = c as u32;
    (0x9 <= code && code <= 0xD) || code == 0x20 || code == 0x85 || code == 0xA0 || code == 0x1680
        || (0x2000 <= code && code <= 0x200A) || code == 0x2028 || code == 0x2029 || code == 0x202F
        || code == 0x205F || code == 0x3000
}

/// `text` without white space at its start.
pub open spec fn trimmed_start(text: Seq<char>) -> Seq<char>
    decreases text.len(),
{
    if text.len() > 0 && is_space(text[0]) {
        trimmed_start(text.drop_first())
    } else {
        text
    }
}

/// `text` without white space at its end.
pub open spec fn trimmed_end(text: Seq<char>) -> Seq<char>
    decreases text.len(),
{
    if text.len() > 0 && is_space(text.last()) {
        trimmed_end(text.drop_last())
    } else {
        text
    }
}

/// `text` without white space around it.
pub open spec fn trimmed(text: Seq<char>) -> Seq<char> {
    trimmed_end(trimmed_start(text))
}

pub fn trim(chars: &[char]) -> (text: Vec<char>)
    ensures
        text@ == trimmed(chars@),
{
    let mut start: usize = 0;
    assert(chars@.skip(0) =~= chars@);
    while start < chars.len() && is_whitespace(chars[start])
        invariant
            start <= chars@.len(),
            trimmed_start(chars@) == trimmed_start(chars@.skip(start as int)),
        decreases chars.len() - start,
    {
        assert(chars@.skip(start as int).drop_first() =~= chars@.skip(start + 1));
        start = start + 1;
    }
    assert(trimmed_start(chars@) == chars@.skip(start as int));
    let ghost tail = chars@.skip(start as int);
    let mut end: usize = chars.len();
    assert(tail.take(end - start) =~= tail);
    while end > start && is_whitespace(chars[end - 1])
        invariant
            start <= end <= chars@.len(),
            tail == chars@.skip(start as int),
            trimmed_end(tail) == trimmed_end(tail.take(end - start)),
        decreases end,
    {
        assert(tail.take(end - start).drop_last() =~= tail.take(end - start - 1));
        assert(tail.take(end - start).last() == chars@[end - 1]);
        end = end - 1;
    }
    proof {
        if end > start {
            assert(tail.take(end - start).last() == chars@[end - 1]);
        }
        assert(chars@.subrange(start as int, end as int) =~= tail.take(end - start));
    }
    copied_chars(vstd::slice::slice_subrange(chars, start, end))
}

/// Whether `a` comes before `b` in the order of code points.
pub open spec fn text_before(a: Seq<char>, b: Seq<char>) -> bool
    decreases a.len(),
{
    if b.len() == 0 {
        false
    } else if a.len() == 0 {
        true
    } else if a[0] != b[0] {
        a[0] < b[0]
    } else {
        text_before(a.drop_first(), b.drop_first())
    }
}

/// Any two texts are equal, or exactly one of them comes before the other.
pub proof fn lemma_text_order(a: Seq<char>, b: Seq<char>)
    ensures
        a == b || text_before(a, b) || text_before(b, a),
        !(text_before(a, b) && text_before(b, a)),
        !text_before(a, a),
        text_before(a, b) ==> a != b,
    decreases a.len(),
{
    if a.len() > 0 && b.len() > 0 {
        lemma_text_order(a.drop_first(), b.drop_first());
        lemma_text_order(a.drop_first(), a.drop_first());
        if a[0] == b[0] && a.drop_first() == b.drop_first() {
            assert(a =~= seq![a[0]] + a.drop_first());
            assert(b =~= seq![b[0]] + b.drop_first());
        }
    } else if a.len() > 0 {
        lemma_text_order(a.drop_first(), a.drop_first());
    } else if b.len() == 0 {
        assert(a =~= b);
    }
}

pub proof fn lemma_text_order_chain(a: Seq<char>, b: Seq<char>, c: Seq<char>)
    requires
        text_before(a, b),
        text_before(b, c),
    ensures
        text_before(a, c),
    decreases a.len(),
{
    if a.len() > 0 && b.len() > 0 && c.len() > 0 && a[0] == b[0] && b[0] == c[0] {
        lemma_text_order_chain(a.drop_first(), b.drop_first(), c.drop_first());
    }
}

pub fn is_text_before(a: &str, b: &str) -> (before: bool)
    ensures
        before == text_before(a@, b@),
{
    let left = chars_of(a);
    let right = chars_of(b);
    let mut index: usize = 0;
    assert(left@.skip(0) =~= left@);
    assert(right@.skip(0) =~= right@);
    while index < left.len() && index < right.len()
        invariant
            left@ == a@,
            right@ == b@,
            index <= left@.len(),
            index <= right@.len(),
            text_before(left@, right@) == text_before(
                left@.skip(index as int),
                right@.skip(index as int),
            ),
        decreases left.len() - index,
    {
        assert(left@.skip(index as int)[0] == left@[index as int]);
        assert(right@.skip(index as int)[0] == right@[index as int]);
        let l: char = left[index];
        let r: char = right[index];
        if l != r {
            return l < r;
        }
        assert(left@.skip(index as int).drop_first() =~= left@.skip(index + 1));
        assert(right@.skip(index as int).drop_first() =~= right@.skip(index + 1));
        index = index + 1;
    }
    index < right.len()
}

pub open spec fn digit_char(digit: int) -> char {
    ('0' as int + digit) as char
}

/// The decimal digits of a number, without leading zeros.
pub open spec fn decimal_text(value: nat) -> Seq<char>
    decreases value,
{
    if value < 10 {
        seq![digit_char(value as int)]
    } else {
        decimal_text(value / 10).push(digit_char((value % 10) as int))
    }
}

/// The decimal digits of a number stand for the number, and the first of them is zero only for
/// zero itself.
pub proof fn decimal_text_stands_for_value(value: nat)
    ensures
        decimal_value(decimal_text(value)) == value,
        all_digits(decimal_text(value)),
        decimal_text(value).len() > 0,
        value > 0 ==> decimal_text(value)[0] != '0',
    decreases value,
{
    reveal_with_fuel(decimal_value, 2);
    if value < 10 {
        assert(decimal_text(value).drop_last() =~= Seq::<char>::empty());
    } else {
        decimal_text_stands_for_value(value / 10);
        assert(decimal_text(value).drop_last() =~= decimal_text(value / 10));
    }
}

fn digit_of(digit: u64) -> (c: char)
    requires
        digit < 10,
    ensures
        c == digit_char(digit as int),
{
    ('0' as u8 + digit as u8) as char
}

pub fn decimal_chars(value: u64) -> (chars: Vec<char>)
    ensures
        chars@ == decimal_text(value as nat),
    decreases value,
{
    if value < 10 {
        let mut chars: Vec<char> = Vec::new();
        chars.push(digit_of(value));
        assert(chars@ =~= seq![digit_char(value as int)]);
        chars
    } else {
        let mut chars = decimal_chars(value / 10);
        chars.push(digit_of(value % 10));
        chars
    }
}

/// The decimal digits of a number, with a minus sign before those of a negative one.
pub open spec fn signed_decimal_text(value: int) -> Seq<char> {
    if value >= 0 {
        decimal_text(value as nat)
    } else {
        seq!['-'] + decimal_text((-value) as nat)
    }
}

pub fn signed_decimal_chars(value: i64) -> (chars: Vec<char>)
    ensures
        chars@ == signed_decimal_text(value as int),
{
    if value >= 0 {
        decimal_chars(value as u64)
    } else {
        let magnitude: u64 = if value == i64::MIN {
            0x8000_0000_0000_0000
        } else {
            (-value) as u64
        };
        let mut chars: Vec<char> = Vec::new();
        chars.push('-');
        append_chars(&mut chars, decimal_chars(magnitude).as_slice());
        assert(chars@ =~= seq!['-'] + decimal_text(magnitude as nat));
        chars
    }
}

/// `text` with `fill` before it, so that it has at least two characters.
pub open spec fn padded_to_two(text: Seq<char>, fill: char) -> Seq<char> {
    if text.len() == 0 {
        seq![fill, fill]
    } else if text.len() == 1 {
        seq![fill, text[0]]
    } else {
        text
    }
}

/// The digits of `value`, filled up to two characters.
pub fn two_digits(value: u64, fill: char) -> (chars: Vec<char>)
    ensures
        chars@ == padded_to_two(decimal_text(value as nat), fill),
{
    let digits = decimal_chars(value);
    proof {
        decimal_text_stands_for_value(value as nat);
    }
    if digits.len() == 1 {
        let mut chars: Vec<char> = Vec::new();
        chars.push(fill);
        chars.push(digits[0]);
        assert(chars@ =~= padded_to_two(decimal_text(value as nat), fill));
        chars
    } else {
        digits
    }
}

} // verus!
