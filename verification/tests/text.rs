use taskmgr::bits::{count_bits, has_bit};
use taskmgr::bytes::{read_u16, read_u32, read_u64};
use taskmgr::history::{HistoryAccess, HistoryBuffer};
use taskmgr::table::Table;
use taskmgr::text::{
    chars_of, copy_of, decimal_chars, decimal_u32, equals_ignore_ascii_case, hex_u32,
    is_text_before, is_whitespace, join_from, same_text, signed_decimal_chars, signed_decimal_u32,
    split_on, string_of, trim, two_digits,
};
use taskmgr::utf16::{decode, decode_lossy, encode, to_wide_null};

fn text(chars: Vec<char>) -> String {
    chars.into_iter().collect()
}

#[test]
fn white_space_is_what_the_standard_library_calls_so() {
    for c in '\0'..=char::MAX {
        assert_eq!(is_whitespace(c), c.is_whitespace(), "{c:?}");
    }
}

#[test]
fn copies_hold_every_character() {
    let value = "Grüße, 世界 🦀";
    assert_eq!(copy_of(value), value);
    assert_eq!(string_of(&chars_of(value)), value);
    assert!(same_text(value, &copy_of(value)));
    assert!(!same_text(value, "Grüße"));
}

#[test]
fn trimming_agrees_with_the_standard_library() {
    for value in ["", "  ", " a b\t", "\u{2003}x\u{a0}", "x"] {
        assert_eq!(text(trim(&chars_of(value))), value.trim());
    }
}

#[test]
fn splitting_agrees_with_the_standard_library_and_is_undone_by_joining() {
    for value in ["", "_", "a_b", "_a__b_", "abc"] {
        let parts = split_on(&chars_of(value), '_');
        let expected: Vec<&str> = value.split('_').collect();
        let found: Vec<String> = parts.iter().map(|part| part.iter().collect()).collect();
        assert_eq!(found, expected);
        assert_eq!(text(join_from(&parts, 0, '_')), value);
    }
}

#[test]
fn numbers_are_read_and_written() {
    assert_eq!(decimal_u32(&chars_of("4294967295")), Some(u32::MAX));
    assert_eq!(decimal_u32(&chars_of("4294967296")), None);
    assert_eq!(decimal_u32(&chars_of("")), None);
    assert_eq!(decimal_u32(&chars_of("+1")), None);
    assert_eq!(signed_decimal_u32(&chars_of("+1")), Some(1));
    assert_eq!(hex_u32(&chars_of("0xFfffFFFF")), Some(u32::MAX));
    assert_eq!(hex_u32(&chars_of("0x000000000")), None);
    assert_eq!(hex_u32(&chars_of("12")), None);
    assert_eq!(text(decimal_chars(0)), "0");
    assert_eq!(text(decimal_chars(u64::MAX)), u64::MAX.to_string());
    assert_eq!(text(signed_decimal_chars(i64::MIN)), i64::MIN.to_string());
    assert_eq!(text(two_digits(7, '0')), "07");
    assert_eq!(text(two_digits(123, '0')), "123");
}

#[test]
fn texts_are_ordered_by_code_points() {
    for (a, b) in [("", "a"), ("a", "b"), ("Z", "a"), ("a", "aa"), ("é", "世"), ("x", "x")] {
        assert_eq!(is_text_before(a, b), a < b);
        assert_eq!(is_text_before(b, a), b < a);
    }
    assert!(equals_ignore_ascii_case(&chars_of("AbC"), "aBc"));
    assert!(!equals_ignore_ascii_case(&chars_of("É"), "é"));
}

#[test]
fn utf16_agrees_with_the_standard_library() {
    for value in ["", "abc", "Grüße", "🦀 crab", "\u{ffff}\u{10000}"] {
        let units: Vec<u16> = value.encode_utf16().collect();
        assert_eq!(encode(value), units);
        assert_eq!(decode(&units).as_deref(), Some(value));
        assert_eq!(decode_lossy(&units), value);
        let mut wide = units.clone();
        wide.push(0);
        assert_eq!(to_wide_null(value), wide);
    }
    for units in [
        vec![0xD800],
        vec![0xDC00, 0x41],
        vec![0xD83E, 0xD83E, 0xDD80],
        vec![0x41, 0xD800, 0x42],
    ] {
        assert_eq!(decode(&units), String::from_utf16(&units).ok());
        assert_eq!(decode_lossy(&units), String::from_utf16_lossy(&units));
    }
}

#[test]
fn numbers_in_bytes_are_little_endian() {
    let bytes = [1, 2, 3, 4, 5, 6, 7, 8, 9];
    assert_eq!(read_u16(&bytes, 1), 0x0302);
    assert_eq!(read_u32(&bytes, 1), 0x0504_0302);
    assert_eq!(read_u64(&bytes, 1), 0x0908_0706_0504_0302);
}

#[test]
fn bits_are_counted() {
    assert_eq!(count_bits(0), 0);
    assert_eq!(count_bits(u64::MAX), 64);
    assert_eq!(count_bits(0b1011), 3);
    assert!(has_bit(1 << 63, 63));
    assert!(!has_bit(u64::MAX, 64));
}

#[test]
fn history_forgets_its_oldest_value() {
    let mut history = HistoryBuffer::zeroed(3);
    for value in 1..=5 {
        history.push(value);
    }
    assert_eq!(history.len(), 3);
    assert_eq!(history.newest_value(), 5);
    assert_eq!(history.value_at(2), Some(3));
    assert_eq!(history.value_at(3), None);
    assert_eq!(history.copied().value_at(1), Some(4));
    let mut nothing = HistoryBuffer::zeroed(0);
    nothing.push(1);
    assert!(nothing.is_empty());
    assert_eq!(vec![7u8, 8].newest_value(), 7);
    assert_eq!([9u8, 8][..].value_at(1), Some(8));
}

#[test]
fn table_keeps_one_entry_for_each_key() {
    let mut table: Table<u32, &str> = Table::new();
    table.insert(1, "one");
    table.insert(2, "two");
    table.insert(1, "uno");
    assert_eq!(table.len(), 2);
    assert_eq!(table.get(&1), Some(&"uno"));
    assert_eq!(table.entry(1), &(2, "two"));
    assert!(table.contains_key(&2));
    table.insert(3, "three");
    table.retain_listed(&vec![3, 1]);
    assert_eq!(table.len(), 2);
    assert_eq!(table.remove(&3), Some("three"));
    assert_eq!(table.remove(&3), None);
}
