use tv::chars::{chars_of, join, push_decimal, split_words, starts_with, string_of, trim};
use tv::escape::{quoted, text};
use tv::markdown::{title_from_stem, to_title_case};

#[test]
fn literals_escape_quotes_breaks_and_backslashes() {
    assert_eq!(quoted("a\"b\\c\nd\re\tf"), "\"a\\\"b\\\\c\\nd\\re\\tf\"");
    assert_eq!(quoted(""), "\"\"");
}

#[test]
fn literals_leave_out_other_control_codes() {
    assert_eq!(quoted("a\u{7}b\u{85}c\u{7f}d"), "\"abcd\"");
    assert_eq!(quoted("\u{a0}é#[]"), "\"\u{a0}é#[]\"");
}

#[test]
fn text_is_shown_through_a_literal() {
    assert_eq!(text("*not* #markup [at] \"all\""), "#text(\"*not* #markup [at] \\\"all\\\"\")");
}

/// Reads a literal the way Typst does, for the escapes that are written.
fn read_literal(source: &str) -> (String, usize) {
    let letters: Vec<char> = source.chars().collect();
    assert_eq!(letters[0], '"');
    let mut value = String::new();
    let mut i = 1;
    while letters[i] != '"' {
        if letters[i] == '\\' {
            i += 1;
            value.push(match letters[i] {
                'n' => '\n',
                'r' => '\r',
                't' => '\t',
                other => other,
            });
        } else {
            value.push(letters[i]);
        }
        i += 1;
    }
    (value, i + 1)
}

#[test]
fn literals_read_back_what_was_written() {
    for value in ["", "\"", "\\", "\\\"", "a\\nb", "tab\tand\nline", "ends with \\"] {
        let literal = quoted(value);
        let (read, end) = read_literal(&format!("{literal}, \"rest\")"));
        assert_eq!(read, value);
        assert_eq!(end, literal.chars().count());
    }
}

#[test]
fn words_are_split_at_any_white_space() {
    assert_eq!(split_words("  one\ttwo\n\u{2003}three "), vec!["one", "two", "three"]);
    assert!(split_words(" \n ").is_empty());
    assert_eq!(join(&split_words("a  b   c"), " "), "a b c");
    assert_eq!(join(&Vec::new(), " "), "");
}

#[test]
fn trimming_takes_white_space_off_both_ends() {
    assert_eq!(trim(" \u{a0}a b\n"), "a b");
    assert_eq!(trim("\t\n"), "");
}

#[test]
fn numbers_are_written_without_leading_zeros() {
    let mut out = String::from("n=");
    push_decimal(&mut out, 0);
    push_decimal(&mut out, 1907);
    push_decimal(&mut out, u64::MAX);
    assert_eq!(out, "n=0190718446744073709551615");
}

#[test]
fn strings_are_cut_by_characters() {
    let letters = chars_of("aβγd");
    assert_eq!(string_of(&letters, 1, 3), "βγ");
    assert_eq!(string_of(&letters, 2, 2), "");
    assert!(starts_with("βγd", "βγ"));
    assert!(!starts_with("β", "βγ"));
}

#[test]
fn titles_come_from_file_names() {
    assert_eq!(title_from_stem("RESULTS"), "Results");
    assert_eq!(title_from_stem("FINAL_REPORT-2"), "Final Report 2");
    assert_eq!(title_from_stem("my-notes_v2"), "my notes v2");
    assert_eq!(title_from_stem("2024-01"), "2024 01");
    assert_eq!(title_from_stem("ÜBER_UNS"), "Über Uns");
    assert_eq!(title_from_stem("Mixed"), "Mixed");
    assert_eq!(title_from_stem(""), "");
}

#[test]
fn title_case_keeps_the_rest_of_a_word() {
    assert_eq!(to_title_case("one  two"), "One Two");
    assert_eq!(to_title_case("ßharp mcDonald"), "SSharp McDonald");
}

#[test]
fn numbers_read_back() {
    for n in [0, 7, 10, 99, 144, 600, u32::MAX] {
        let mut out = String::new();
        push_decimal(&mut out, u64::from(n));
        assert_eq!(out.parse::<u32>(), Ok(n));
    }
}

#[test]
fn white_space_is_that_of_unicode() {
    let mut found = Vec::new();
    for c in '\0'..='\u{ffff}' {
        if trim(&c.to_string()).is_empty() {
            found.push(c as u32);
        }
    }
    let mut expected: Vec<u32> = (0x9..=0xd).collect();
    expected.extend([0x20, 0x85, 0xa0, 0x1680]);
    expected.extend(0x2000..=0x200a);
    expected.extend([0x2028, 0x2029, 0x202f, 0x205f, 0x3000]);
    assert_eq!(found, expected);
}
