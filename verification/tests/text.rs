use pie::number::{
    pad_left, pad_right, parse_number, write_decimal, write_number, write_two_digits,
};
use pie::path::{extension, file_name, file_stem, join_path};
use pie::text::{chars_of, is_whitespace, next_word, string_of};
use pie::text_map::TextMap;
use std::path::Path;

#[test]
fn white_space_is_that_of_unicode() {
    for c in '\0'..=char::MAX {
        assert_eq!(is_whitespace(c), c.is_whitespace(), "{:x}", c as u32);
    }
}

#[test]
fn words_stand_between_white_space() {
    let text = "\u{a0} one\t\u{2003}two\n";
    let chars = chars_of(text);
    let mut words = Vec::new();
    let mut rest: &[char] = &chars;
    while let Some((word, after)) = next_word(rest) {
        words.push(string_of(word));
        rest = after;
    }
    assert_eq!(words, text.split_whitespace().collect::<Vec<_>>());
}

#[test]
fn numbers_are_written_and_read() {
    for number in [0, 7, 10, 255, u64::MAX] {
        assert_eq!(write_decimal(number), number.to_string());
        assert_eq!(
            parse_number(&chars_of(&number.to_string()), u64::MAX),
            Some(number)
        );
        assert_eq!(write_number(number, 16), format!("{number:x}"));
    }
    assert_eq!(write_two_digits(5), "05");
    assert_eq!(write_two_digits(59), "59");
    assert_eq!(pad_left("é", 3), "  é");
    assert_eq!(pad_right("é", 3), "é  ");
    assert_eq!(pad_left("long", 3), "long");
}

#[test]
fn numbers_are_read_like_integers() {
    for text in [
        "", "+", "-", "-0", "+5", "++5", "05", "4294967295", "4294967296", "1_0", " 1", "٣", "1e3",
    ] {
        assert_eq!(
            parse_number(&chars_of(text), u32::MAX as u64),
            text.parse::<u32>().ok().map(u64::from),
            "{text:?}"
        );
    }
}

#[test]
fn paths_are_taken_apart() {
    for path in [
        "", "/", "a", "a/", "a/b", "/a/b.c", "a/b.tar.gz", ".hidden", "a/.hidden.x", "..", "a/..",
        ".", "a/.", "a//b//", "b.", "a.b/c", "...", "..a", "./a.x", "/..", "a/b/./",
    ] {
        let std = Path::new(path);
        assert_eq!(
            file_name(path).as_deref(),
            std.file_name().map(|part| part.to_str().unwrap()),
            "{path}"
        );
        assert_eq!(
            extension(path).as_deref(),
            std.extension().map(|part| part.to_str().unwrap()),
            "{path}"
        );
        assert_eq!(
            file_stem(path).as_deref(),
            std.file_stem().map(|part| part.to_str().unwrap()),
            "{path}"
        );
        for tail in ["x", "/x", "", "x/y", "../x"] {
            assert_eq!(
                join_path(path, tail),
                std.join(tail).to_str().unwrap(),
                "{path} {tail}"
            );
        }
    }
}

#[test]
fn maps_list_their_entries_in_order() {
    let mut map = TextMap::new();
    for (key, value) in [("b", "1"), ("a", "2"), ("é", "3"), ("b", "4"), ("ab", "5")] {
        map.insert(key.to_string(), value.to_string());
    }
    let copy = map.clone();
    let entries: Vec<(&str, &str)> = copy
        .entries()
        .iter()
        .map(|(key, value)| (key.as_str(), value.as_str()))
        .collect();
    assert_eq!(
        entries,
        vec![("a", "2"), ("ab", "5"), ("b", "4"), ("é", "3")]
    );
    assert_eq!(map.keys(), vec!["a", "ab", "b", "é"]);
    assert_eq!(map.get("b").map(String::as_str), Some("4"));
    assert!(!map.contains_key("c"));
}
