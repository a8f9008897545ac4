use zimrs::patterns::{
    compile, compiled, Matchers, BRACKET_REF_PATTERN, HEADING_PATTERN, MULTI_WS_PATTERN, NOISE_PATTERN,
    NON_WORD_PATTERN, RELATION_LABEL_PATTERN, SPLIT_TERMS_PATTERN, TAG_PATTERN, TAG_TOKEN_PATTERN,
};
use zimrs::text::{
    ascii_lowercase, char_len, chars_of, is_whitespace_char, same_text,
    same_text_ignore_ascii_case, slice_bytes, starts_with, strip_prefix, trim,
};

#[test]
fn slices_between_code_points_only() {
    let s = "caf\u{e9}s";
    assert_eq!(slice_bytes(s, 0, 3), Some("caf"));
    assert_eq!(slice_bytes(s, 3, 5), Some("\u{e9}"));
    assert_eq!(slice_bytes(s, 3, 4), None);
    assert_eq!(slice_bytes(s, 4, 6), None);
    assert_eq!(slice_bytes(s, 5, 3), None);
    assert_eq!(slice_bytes(s, 0, 7), None);
    assert_eq!(slice_bytes(s, 6, 6), Some(""));
}

#[test]
fn chars_of_keeps_every_character() {
    assert_eq!(chars_of("a\u{e9}b"), vec!['a', '\u{e9}', 'b']);
    assert_eq!(chars_of(""), Vec::<char>::new());
}

#[test]
fn matchers_hold_the_patterns_of_the_engine() {
    let m = Matchers::new().expect("the engine's patterns compile");
    assert_eq!(
        m.patterns(),
        vec![
            HEADING_PATTERN,
            TAG_PATTERN,
            TAG_TOKEN_PATTERN,
            MULTI_WS_PATTERN,
            RELATION_LABEL_PATTERN,
            NOISE_PATTERN,
            BRACKET_REF_PATTERN,
            SPLIT_TERMS_PATTERN,
            NON_WORD_PATTERN,
        ]
    );
    assert!(m.has_relation_label("see Synonyms below"));
    assert!(!m.has_relation_label("nothing of the kind"));
    assert_eq!(m.blank_tags("a<b>c</b>"), "a c ");
    assert_eq!(m.blank_bracket_refs("x[12]y[a]"), "x y[a]");
    assert_eq!(m.blank_non_words("a--b  c9"), "a b c9");
    assert_eq!(m.split_terms("a, b;c"), vec!["a", "b", "c"]);
}

#[test]
fn a_pattern_that_does_not_compile_is_named_in_the_error() {
    let error = compile("foo(bar").expect_err("an unclosed group");
    assert_eq!(error.pattern, "foo(bar");
    assert!(compile(r"\d+").is_ok());
}

#[test]
fn the_outcome_of_compiling_decides() {
    let refused = compiled("named here", regex::Regex::new("(")).expect_err("refused");
    assert_eq!(refused.pattern, "named here");
    let accepted = compiled("x+", regex::Regex::new("x+")).expect("accepted");
    assert_eq!(accepted.as_str(), "x+");
    assert!(accepted.is_match("axxb"));
}

#[test]
fn text_helpers() {
    assert_eq!(ascii_lowercase("AbC-\u{c9}Z"), "abc-\u{c9}z");
    assert_eq!(char_len("a\u{e9}\u{4e2d}"), 3);
    assert!(same_text("ab", "ab") && !same_text("ab", "abc") && !same_text("ab", "aB"));
    assert!(same_text_ignore_ascii_case("English", "eNGLISH"));
    assert!(!same_text_ignore_ascii_case("\u{c9}", "\u{e9}"));
    assert!(starts_with("abc", "ab") && starts_with("abc", "") && !starts_with("ab", "abc"));
    assert_eq!(strip_prefix("to be", "to "), Some("be"));
    assert_eq!(strip_prefix("to be", "a "), None);
    assert_eq!(trim("\u{2003} a b \n"), "a b");
    for c in ['\t', '\n', '\u{b}', '\u{c}', '\r', ' ', '\u{85}', '\u{a0}', '\u{1680}', '\u{2000}', '\u{200a}', '\u{2028}', '\u{2029}', '\u{202f}', '\u{205f}', '\u{3000}'] {
        assert!(is_whitespace_char(c));
    }
    for c in ['a', '\u{200b}', '\u{feff}', '\u{1c}', '\u{180e}'] {
        assert_eq!(is_whitespace_char(c), c.is_whitespace());
    }
}

#[test]
fn whitespace_agrees_with_the_standard_library_everywhere() {
    for code in 0..=0x10FFFFu32 {
        if let Some(c) = char::from_u32(code) {
            assert_eq!(is_whitespace_char(c), c.is_whitespace(), "U+{code:04X}");
        }
    }
}
