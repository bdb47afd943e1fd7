use remote_pass::text::{
    chars_of, find_from, is_white_space, remove_all, starts_at, string_of, string_of_span,
    trimmed_len,
};

fn removed(text: &str, pattern: &str) -> String {
    remove_all(&chars_of(text), &chars_of(pattern)).iter().collect()
}

#[test]
fn characters_of_a_string() {
    assert_eq!(chars_of(""), Vec::<char>::new());
    assert_eq!(chars_of("abc"), vec!['a', 'b', 'c']);
    assert_eq!(chars_of("\u{e9}\u{1f511}z"), vec!['\u{e9}', '\u{1f511}', 'z']);
}

#[test]
fn string_of_characters() {
    assert_eq!(string_of(&vec![]), "");
    assert_eq!(string_of(&vec!['a', 'b', 'c']), "abc");
    assert_eq!(string_of(&vec!['\u{e9}', '\u{1f511}', 'z']), "\u{e9}\u{1f511}z");
    assert_ne!(string_of(&vec!['a']), "");
}

#[test]
fn string_and_characters_go_back_and_forth() {
    for text in ["", "a", "hello world", "line\nline\r\n", "\u{4e2d}\u{6587}\u{1f600}"] {
        assert_eq!(string_of(&chars_of(text)), text);
    }
}

#[test]
fn string_of_a_span() {
    let chars = chars_of("hello");
    assert_eq!(string_of_span(&chars, 0, 5), "hello");
    assert_eq!(string_of_span(&chars, 1, 3), "el");
    assert_eq!(string_of_span(&chars, 2, 2), "");
    assert_eq!(string_of_span(&chars, 5, 5), "");
}

#[test]
fn first_occurrence_is_found() {
    let chars = chars_of("a-b-c");
    assert_eq!(find_from(&chars, '-', 0), 1);
    assert_eq!(find_from(&chars, '-', 1), 1);
    assert_eq!(find_from(&chars, '-', 2), 3);
    assert_eq!(find_from(&chars, '-', 4), 5);
    assert_eq!(find_from(&chars, '-', 5), 5);
    assert_eq!(find_from(&chars, 'x', 0), 5);
    assert_eq!(find_from(&Vec::new(), 'x', 0), 0);
}

#[test]
fn pattern_is_matched_in_place() {
    let chars = chars_of("abcabc");
    assert!(starts_at(&chars, 0, &chars_of("abc")));
    assert!(starts_at(&chars, 3, &chars_of("abc")));
    assert!(!starts_at(&chars, 1, &chars_of("abc")));
    assert!(!starts_at(&chars, 4, &chars_of("abc")));
    assert!(starts_at(&chars, 6, &chars_of("")));
    assert!(!starts_at(&chars, 6, &chars_of("a")));
    assert!(starts_at(&chars, 0, &chars_of("abcabc")));
    assert!(!starts_at(&chars, 0, &chars_of("abcabca")));
}

#[test]
fn occurrences_are_removed_from_the_left() {
    assert_eq!(removed("a.gpg", ".gpg"), "a");
    assert_eq!(removed("aaa", "aa"), "a");
    assert_eq!(removed("ababa", "aba"), "ba");
    assert_eq!(removed("abab", "ab"), "");
    assert_eq!(removed("abc", ""), "abc");
    assert_eq!(removed("", "abc"), "");
    assert_eq!(removed("ab", "abc"), "ab");
    assert_eq!(removed("xaby", "ab"), "xy");
    assert_eq!(removed("aabb", "ab"), "ab");
}

#[test]
fn removal_is_what_the_standard_library_replaces() {
    let alphabet = ['a', 'b', '.'];
    let mut state: u64 = 0x1234_5678_9abc_def1;
    for _ in 0..3000 {
        let mut text = String::new();
        let mut pattern = String::new();
        state = state.wrapping_mul(6364136223846793005).wrapping_add(1442695040888963407);
        let len = (state >> 33) % 16;
        for _ in 0..len {
            state = state.wrapping_mul(6364136223846793005).wrapping_add(1442695040888963407);
            text.push(alphabet[((state >> 33) % 3) as usize]);
        }
        state = state.wrapping_mul(6364136223846793005).wrapping_add(1442695040888963407);
        let len = 1 + (state >> 33) % 3;
        for _ in 0..len {
            state = state.wrapping_mul(6364136223846793005).wrapping_add(1442695040888963407);
            pattern.push(alphabet[((state >> 33) % 3) as usize]);
        }
        assert_eq!(removed(&text, &pattern), text.replace(&pattern, ""), "{:?} {:?}", text, pattern);
    }
}

#[test]
fn white_space_at_the_end_is_measured() {
    assert_eq!(trimmed_len(&chars_of("abc")), 3);
    assert_eq!(trimmed_len(&chars_of("abc  ")), 3);
    assert_eq!(trimmed_len(&chars_of("a c\n")), 3);
    assert_eq!(trimmed_len(&chars_of("   ")), 0);
    assert_eq!(trimmed_len(&chars_of("")), 0);
    assert_eq!(trimmed_len(&chars_of(" a")), 2);
}

#[test]
fn white_space_characters() {
    for c in [' ', '\t', '\n', '\r', '\u{b}', '\u{c}', '\u{85}', '\u{a0}', '\u{1680}', '\u{2000}',
        '\u{200a}', '\u{2028}', '\u{2029}', '\u{202f}', '\u{205f}', '\u{3000}']
    {
        assert!(is_white_space(c), "{:x}", c as u32);
    }
    for c in ['a', '0', '-', '\u{0}', '\u{8}', '\u{e}', '\u{1f}', '\u{200b}', '\u{180e}',
        '\u{feff}', '\u{2060}']
    {
        assert!(!is_white_space(c), "{:x}", c as u32);
    }
    for code in 0u32..=0x10ffff {
        if let Some(c) = char::from_u32(code) {
            assert_eq!(is_white_space(c), c.is_whitespace(), "{:x}", code);
        }
    }
}
