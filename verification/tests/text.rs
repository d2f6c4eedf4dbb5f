use jiminy::extract::{extract_bracketed, extract_span};
use jiminy::text::{
    begins_with_char, char_position, chars_of, ends_with_char, has_char, has_infix, has_prefix,
    has_suffix, matches_at, parse_bounded, parse_u32, parse_u8, position, position_from,
    push_chars, push_decimal, same_text, split_lines, split_on, split_words, string_of, trim_end_of,
    trim_of, trim_start_of, trim_whitespace, CharClass,
};

fn chars(s: &str) -> Vec<char> {
    s.chars().collect()
}

fn strings(parts: Vec<&[char]>) -> Vec<String> {
    parts.into_iter().map(|p| p.iter().collect::<String>()).collect()
}

#[test]
fn whitespace_class_is_the_unicode_property() {
    let mut n: u32 = 0;
    while n <= 0x10ffff {
        if let Some(c) = char::from_u32(n) {
            assert_eq!(CharClass::Whitespace.contains(c), c.is_whitespace(), "U+{:04X}", n);
        }
        n += 1;
    }
}

#[test]
fn exact_class_holds_one_character() {
    assert!(CharClass::Exactly(',').contains(','));
    assert!(!CharClass::Exactly(',').contains('.'));
    assert!(!CharClass::Exactly(',').contains(' '));
}

#[test]
fn trim_agrees_with_the_standard_library() {
    for s in [
        "",
        " ",
        "a",
        "  a  ",
        "\t\r\n owner: signer, \u{a0}\u{3000}",
        "\u{2003}x\u{2003}y\u{2003}",
        "   \t  ",
        "no space",
        "\u{200b}zero width is no space\u{200b}",
    ] {
        let c = chars(s);
        assert_eq!(string_of(trim_whitespace(&c)), s.trim(), "{:?}", s);
        assert_eq!(string_of(trim_start_of(&c, CharClass::Whitespace)), s.trim_start());
        assert_eq!(string_of(trim_end_of(&c, CharClass::Whitespace)), s.trim_end());
    }
}

#[test]
fn trim_of_one_character_agrees_with_the_standard_library() {
    for s in ["", ",", ",,,", "a,", "a,,", ",a,", "\"quoted\"", "\"", "\"\"", "\"a\"b\"", "x{", "x{{", "{"] {
        let c = chars(s);
        for ch in [',', '"', '{'] {
            assert_eq!(string_of(trim_end_of(&c, CharClass::Exactly(ch))), s.trim_end_matches(ch));
            assert_eq!(string_of(trim_start_of(&c, CharClass::Exactly(ch))), s.trim_start_matches(ch));
            assert_eq!(string_of(trim_of(&c, CharClass::Exactly(ch))), s.trim_matches(ch));
        }
    }
}

#[test]
fn prefix_suffix_and_infix_agree_with_the_standard_library() {
    let texts = ["", "a", "accounts: {", "data:", "xdata:", "discriminant: 3,", "desc", "a desc: b", "}"];
    let patterns = ["", "a", "accounts:", "data:", "desc:", "}", "discriminant:", "zzz"];
    for t in texts {
        for p in patterns {
            let (tc, pc) = (chars(t), chars(p));
            assert_eq!(has_prefix(&tc, &pc), t.starts_with(p), "{:?} {:?}", t, p);
            assert_eq!(has_suffix(&tc, &pc), t.ends_with(p), "{:?} {:?}", t, p);
            assert_eq!(has_infix(&tc, &pc), t.contains(p), "{:?} {:?}", t, p);
            assert_eq!(position(&tc, &pc), t.find(p), "{:?} {:?}", t, p);
        }
    }
}

#[test]
fn position_counts_characters() {
    let t = chars("\u{e9}\u{e9}ab");
    assert_eq!(position(&t, &chars("ab")), Some(2));
    assert_eq!(position_from(&t, &chars("ab"), 2), Some(2));
    assert_eq!(position_from(&t, &chars("ab"), 3), None);
    assert_eq!(position_from(&t, &chars(""), 4), Some(4));
    assert_eq!(position_from(&t, &chars(""), 5), None);
}

#[test]
fn position_from_finds_each_occurrence_in_turn() {
    let t = chars("ab ab ab");
    let p = chars("ab");
    assert_eq!(position_from(&t, &p, 0), Some(0));
    assert_eq!(position_from(&t, &p, 1), Some(3));
    assert_eq!(position_from(&t, &p, 4), Some(6));
    assert_eq!(position_from(&t, &p, 7), None);
}

#[test]
fn matches_at_tests_one_index() {
    let t = chars("abcabc");
    let p = chars("bc");
    assert!(matches_at(&t, &p, 1));
    assert!(matches_at(&t, &p, 4));
    assert!(!matches_at(&t, &p, 0));
    assert!(!matches_at(&t, &p, 5));
    assert!(!matches_at(&t, &p, 600));
    assert!(matches_at(&t, &chars(""), 6));
    assert!(!matches_at(&t, &chars(""), 7));
}

#[test]
fn single_characters_are_found() {
    let t = chars("name: type,");
    assert_eq!(char_position(&t, ':'), Some(4));
    assert_eq!(char_position(&t, '='), None);
    assert!(has_char(&t, ','));
    assert!(!has_char(&t, '{'));
    assert!(begins_with_char(&t, 'n'));
    assert!(!begins_with_char(&t, 'a'));
    assert!(ends_with_char(&t, ','));
    assert!(!ends_with_char(&t, 'e'));
    assert!(!begins_with_char(&[], 'a'));
    assert!(!ends_with_char(&[], 'a'));
}

#[test]
fn same_text_compares_characters() {
    assert!(same_text(&chars("pub"), &chars("pub")));
    assert!(!same_text(&chars("pub"), &chars("pub ")));
    assert!(!same_text(&chars("pub"), &chars("pup")));
    assert!(same_text(&[], &[]));
}

#[test]
fn split_agrees_with_the_standard_library() {
    for s in ["", ":", "a", "a:b", "a:b:c", ":a", "a:", "a::b", "::", "owner: signer => writable, desc: \"x\","] {
        let c = chars(s);
        let expected: Vec<String> = s.split(':').map(|p| p.to_string()).collect();
        assert_eq!(strings(split_on(&c, ':')), expected, "{:?}", s);
    }
}

#[test]
fn lines_agree_with_the_standard_library() {
    for s in [
        "",
        "\n",
        "a",
        "a\n",
        "a\nb",
        "a\n\nb",
        "a\r\nb\r\n",
        "a\r",
        "\r",
        "\r\n",
        "a\rb\n",
        "a\r\r\nb",
        "\n\n",
        "one\ntwo\nthree",
    ] {
        let c = chars(s);
        let expected: Vec<String> = s.lines().map(|p| p.to_string()).collect();
        assert_eq!(strings(split_lines(&c)), expected, "{:?}", s);
    }
}

#[test]
fn words_agree_with_the_standard_library() {
    for s in ["", " ", "a", " a ", "pub struct Name {", "pub  struct\tName{", "\u{3000}a\u{a0}b\n", "one"] {
        let c = chars(s);
        let expected: Vec<String> = s.split_whitespace().map(|p| p.to_string()).collect();
        assert_eq!(strings(split_words(&c)), expected, "{:?}", s);
    }
}

#[test]
fn numbers_agree_with_the_standard_library() {
    for s in [
        "",
        "+",
        "-",
        "0",
        "7",
        "+7",
        "-7",
        "++7",
        "007",
        "255",
        "256",
        "6001",
        "4294967295",
        "4294967296",
        "42949672950",
        "99999999999999999999999999",
        "00000000000000000000000001",
        "12a",
        "a12",
        " 1",
        "1 ",
        "1_000",
        "0x10",
        "\u{ff11}",
        "\u{661}",
    ] {
        let c = chars(s);
        assert_eq!(parse_u8(&c), s.parse::<u8>().ok(), "{:?}", s);
        assert_eq!(parse_u32(&c), s.parse::<u32>().ok(), "{:?}", s);
    }
}

#[test]
fn bounded_number_respects_its_bound() {
    assert_eq!(parse_bounded(&chars("10"), 10), Some(10));
    assert_eq!(parse_bounded(&chars("11"), 10), None);
    assert_eq!(parse_bounded(&chars("0"), 0), Some(0));
    assert_eq!(parse_bounded(&chars("1"), 0), None);
}

#[test]
fn decimal_agrees_with_the_standard_library() {
    for n in [0u64, 1, 9, 10, 11, 99, 100, 255, 6001, 4294967295, 4294967296, u64::MAX] {
        let mut out = String::from("x");
        push_decimal(&mut out, n);
        assert_eq!(out, format!("x{}", n));
    }
}

#[test]
fn decimal_is_read_back() {
    for n in [0u32, 5, 10, 255, 256, 6001, u32::MAX] {
        let mut out = String::new();
        push_decimal(&mut out, n as u64);
        assert_eq!(parse_u32(&chars(&out)), Some(n));
    }
}

#[test]
fn strings_and_characters_convert_both_ways() {
    for s in ["", "abc", "\u{e9}t\u{e9}", "a\nb"] {
        assert_eq!(chars_of(s), chars(s));
        assert_eq!(string_of(&chars(s)), s);
    }
    let mut out = String::from("ab");
    push_chars(&mut out, &chars("cd"));
    assert_eq!(out, "abcd");
}

#[test]
fn span_reaches_from_the_first_bracket_to_the_one_that_closes_it() {
    let t = chars("before marker!(a (b) (c (d))) after (e)");
    let span = extract_span(&t, &chars("marker!("), '(', ')').map(string_of);
    assert_eq!(span, Some("(a (b) (c (d)))".to_string()));
}

#[test]
fn span_starts_at_the_first_bracket_after_the_marker() {
    let t = chars("{skipped} define_errors! name { A, { B } } rest }");
    let span = extract_span(&t, &chars("define_errors!"), '{', '}').map(string_of);
    assert_eq!(span, Some("{ A, { B } }".to_string()));
}

#[test]
fn span_of_an_absent_marker_is_none() {
    let t = chars("nothing (here)");
    assert_eq!(extract_span(&t, &chars("marker!("), '(', ')'), None);
}

#[test]
fn span_that_is_never_closed_is_none() {
    let t = chars("marker!(a (b) c");
    assert_eq!(extract_span(&t, &chars("marker!("), '(', ')'), None);
    let t = chars("marker! no bracket at all");
    assert_eq!(extract_span(&t, &chars("marker!"), '(', ')'), None);
}

#[test]
fn span_uses_the_first_marker() {
    let t = chars("m(1) m(2)");
    assert_eq!(extract_span(&t, &chars("m"), '(', ')').map(string_of), Some("(1)".to_string()));
}

#[test]
fn bracketed_ignores_closers_before_the_first_opener() {
    let t = chars(") } (x) ");
    assert_eq!(extract_bracketed(&t, '(', ')', 0).map(string_of), Some("(x)".to_string()));
    assert_eq!(extract_bracketed(&t, '(', ')', 5), None);
    assert_eq!(extract_bracketed(&t, '(', ')', 100), None);
}

#[test]
fn brackets_in_strings_count_like_any_other() {
    let t = chars("m(\"(\" )) tail");
    assert_eq!(extract_span(&t, &chars("m"), '(', ')').map(string_of), Some("(\"(\" ))".to_string()));
}
