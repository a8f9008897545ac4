use zimrs::config::ExtractionConfig;
use zimrs::normalization::{
    apply_plugin, canonicalize_lemma, cjk_basic, collapse_ws, english_basic, generate_aliases,
    normalize_for_language, romance_basic, Normalizer,
};
use zimrs::patterns::Matchers;

fn matchers() -> Matchers {
    Matchers::new().expect("the engine's patterns compile")
}

#[test]
fn canonicalizes_lemma() {
    let m = matchers();
    assert_eq!(canonicalize_lemma(&m, " Café-au-lait "), "cafe au lait");
}

#[test]
fn english_plugin_strips_prefixes() {
    let m = matchers();
    let value = english_basic(&m, "To The Example");
    assert_eq!(value, "example");
}

#[test]
fn generates_aliases() {
    let m = matchers();
    let cfg = ExtractionConfig::default();
    let aliases = generate_aliases(&m, "Café", Some("English"), &cfg);
    assert!(aliases.iter().any(|v| v == "Café"));
    assert!(aliases.iter().any(|v| v == "café"));
}

#[test]
fn aliases_are_sorted_and_unique() {
    let m = matchers();
    let cfg = ExtractionConfig::default();
    let aliases = generate_aliases(&m, "Café", Some("English"), &cfg);
    assert_eq!(aliases, vec!["Cafe", "Café", "café"]);
    let plain = generate_aliases(&m, "word", None, &cfg);
    assert_eq!(plain, vec!["word"]);
}

#[test]
fn short_titles_give_no_aliases() {
    let m = matchers();
    let cfg = ExtractionConfig::default();
    assert!(generate_aliases(&m, " a ", None, &cfg).is_empty());
}

#[test]
fn collapse_ws_trims_and_squeezes() {
    let m = matchers();
    assert_eq!(collapse_ws(&m, "  a \t\n b\u{a0}\u{2003}c  "), "a b c");
    assert_eq!(collapse_ws(&m, ""), "");
    assert_eq!(collapse_ws(&m, " \n "), "");
}

#[test]
fn english_articles_are_dropped_once() {
    let m = matchers();
    assert_eq!(english_basic(&m, "An Apple"), "apple");
    assert_eq!(english_basic(&m, "a the thing"), "the thing");
    assert_eq!(english_basic(&m, "to a   run"), "run");
    assert_eq!(english_basic(&m, "Together"), "together");
}

#[test]
fn romance_apostrophes_become_plain() {
    let m = matchers();
    assert_eq!(romance_basic(&m, "L\u{2019}Amour  d`ici"), "l'amour d'ici");
}

#[test]
fn cjk_only_collapses_whitespace() {
    let m = matchers();
    assert_eq!(cjk_basic(&m, "  \u{6f22}\u{5b57}  \u{3042} "), "\u{6f22}\u{5b57} \u{3042}");
}

#[test]
fn unknown_plugin_is_identity() {
    let m = matchers();
    assert_eq!(apply_plugin(&m, "no_such_plugin", "  The  Word "), "The Word");
    assert_eq!(apply_plugin(&m, "identity", "  The  Word "), "The Word");
    assert_eq!(apply_plugin(&m, "english_basic", "  The  Word "), "word");
    assert_eq!(Normalizer::from_name("romance_basic"), Normalizer::RomanceBasic);
    assert_eq!(Normalizer::from_name("cjk_basic"), Normalizer::CjkBasic);
    assert_eq!(Normalizer::from_name("English_Basic"), Normalizer::Identity);
}

#[test]
fn language_lookup_ignores_ascii_case_and_takes_the_first_pair() {
    let m = matchers();
    let mut cfg = ExtractionConfig::default();
    cfg.language_normalizers = vec![
        ("english".to_owned(), "english_basic".to_owned()),
        ("ENGLISH".to_owned(), "identity".to_owned()),
        ("French".to_owned(), "romance_basic".to_owned()),
    ];
    assert_eq!(normalize_for_language(&m, "English", "The Word", &cfg), "word");
    assert_eq!(normalize_for_language(&m, "FRENCH", "L\u{2019}Eau", &cfg), "l'eau");
    assert_eq!(normalize_for_language(&m, "German", "Das  Wort", &cfg), "Das Wort");
    cfg.default_normalizer = "english_basic".to_owned();
    assert_eq!(normalize_for_language(&m, "German", "The  Wort", &cfg), "wort");
}
