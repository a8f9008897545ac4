use zimrs::patterns::Matchers;
use zimrs::scoring::{clamp_score, count_alphabetic, count_words, score_definition, score_relation};

fn matchers() -> Matchers {
    Matchers::new().expect("the engine's patterns compile")
}

#[test]
fn words_are_runs_between_whitespace() {
    let chars = |s: &str| s.chars().collect::<Vec<char>>();
    assert_eq!(count_words(&chars("")), 0);
    assert_eq!(count_words(&chars("   ")), 0);
    assert_eq!(count_words(&chars("one")), 1);
    assert_eq!(count_words(&chars("  one\ttwo \u{a0} three\n")), 3);
    assert_eq!(count_alphabetic(&chars("a1 \u{e9}-\u{4e2d}?")), 3);
}

#[test]
fn definition_score_adds_up() {
    let m = matchers();
    // one word, 3 characters, unchanged, 3 letters
    assert_eq!(score_definition(&m, "abc", "abc"), 200_000);
    // normalizing changed it
    assert_eq!(score_definition(&m, "abc", "ABC"), 300_000);
    // four words
    assert_eq!(score_definition(&m, "a b c d", "a b c d"), 500_000);
    // four words, 24 characters, 21 letters
    assert_eq!(score_definition(&m, "aaaaaa bbbbbb ccccc dddd", "aaaaaa bbbbbb ccccc dddd"), 900_000);
    // all of it: held at one
    assert_eq!(score_definition(&m, "aaaaaa bbbbbb ccccc dddd", "x"), 1_000_000);
    // eight letters in one word
    assert_eq!(score_definition(&m, "abcdefgh", "abcdefgh"), 350_000);
}

#[test]
fn definition_score_of_long_and_labelled_texts() {
    let m = matchers();
    let long = vec!["w"; 43].join(" ");
    // 43 words: -0.10; 85 characters: +0.25; 43 letters: +0.15
    assert_eq!(score_definition(&m, &long, &long), 500_000);
    // a relation label: 0.2 + 0.15 (8 letters) - 0.35 = 0
    assert_eq!(score_definition(&m, "Synonyms", "Synonyms"), 0);
    // one word, no bonus, a label: below zero, held at zero
    assert_eq!(score_definition(&m, "synonym", "synonym"), 0);
}

#[test]
fn relation_score_adds_up() {
    assert_eq!(score_relation("a", "a"), 500_000);
    assert_eq!(score_relation("ab", "ab"), 800_000);
    assert_eq!(score_relation("ab", "AB"), 900_000);
    assert_eq!(score_relation("12", "12"), 600_000);
    assert_eq!(score_relation("", ""), 300_000);
    let long = "x".repeat(81);
    assert_eq!(score_relation(&long, &long), 500_000);
    let edge = "x".repeat(80);
    assert_eq!(score_relation(&edge, &edge), 800_000);
}

#[test]
fn lengths_are_counted_in_characters() {
    // two characters of two bytes each and one of one
    assert_eq!(score_relation("\u{e9}", "\u{e9}"), 500_000);
    assert_eq!(score_relation("\u{e9}\u{e9}", "\u{e9}\u{e9}"), 800_000);
}

#[test]
fn scores_are_the_same_every_time_and_in_range() {
    let m = matchers();
    for text in ["", "a", "some words here now", "Synonyms and antonyms of a word"] {
        for normalized in ["", "a", "some words here now"] {
            let first = score_definition(&m, text, normalized);
            assert_eq!(first, score_definition(&m, text, normalized));
            assert!(first <= 1_000_000);
            let relation = score_relation(text, normalized);
            assert_eq!(relation, score_relation(text, normalized));
            assert!(relation <= 1_000_000);
        }
    }
}

#[test]
fn clamp_holds_scores_between_zero_and_one() {
    assert_eq!(clamp_score(-1), 0);
    assert_eq!(clamp_score(i64::MIN), 0);
    assert_eq!(clamp_score(0), 0);
    assert_eq!(clamp_score(1_000_000), 1_000_000);
    assert_eq!(clamp_score(1_000_001), 1_000_000);
    assert_eq!(clamp_score(i64::MAX), 1_000_000);
    assert_eq!(clamp_score(123_456), 123_456);
}
