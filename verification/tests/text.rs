use glass::text::{chars_of, decimal_string, has_part, part_at, same_text, trim_bounds};

#[test]
fn decimal_numbers() {
    assert_eq!(decimal_string(0), "0");
    assert_eq!(decimal_string(9), "9");
    assert_eq!(decimal_string(10), "10");
    assert_eq!(decimal_string(1234567890), "1234567890");
    assert_eq!(decimal_string(u32::MAX), "4294967295");
}

#[test]
fn equal_texts() {
    assert!(same_text("", ""));
    assert!(same_text("abc", "abc"));
    assert!(!same_text("abc", "abd"));
    assert!(!same_text("abc", "ab"));
}

#[test]
fn parts_of_a_text() {
    let whole = chars_of("na\u{ef}ve text");
    assert_eq!(whole.len(), 10);
    assert!(part_at(&whole, &chars_of("\u{ef}ve"), 2));
    assert!(!part_at(&whole, &chars_of("\u{ef}ve"), 3));
    assert!(!part_at(&whole, &chars_of("text!"), 6));
    assert!(part_at(&whole, &chars_of(""), 10));
    assert!(!part_at(&whole, &chars_of(""), 11));
    assert!(has_part(&whole, &chars_of("text")));
    assert!(has_part(&whole, &chars_of("")));
    assert!(!has_part(&whole, &chars_of("texts")));
    assert!(!has_part(&chars_of(""), &chars_of("a")));
}

#[test]
fn white_space_is_trimmed_as_by_the_standard_library() {
    for text in ["", " ", "a", " a ", "\t\u{85}x y\u{2003}\n", "\u{200b}b", "\u{feff}c\u{1680}"] {
        let chars = chars_of(text);
        let (start, end) = trim_bounds(&chars, 0, chars.len());
        let trimmed: String = chars[start..end].iter().collect();
        assert_eq!(trimmed, text.trim());
    }
    for c in (0..0x11_0000u32).filter_map(char::from_u32) {
        let (start, end) = trim_bounds(&vec![c], 0, 1);
        assert_eq!(start == end, c.is_whitespace(), "{c:?}");
    }
}
