use zimrs::ordered::insert_sorted;
use zimrs::patterns::Matchers;
use zimrs::relations::{
    build_label_table, lookup_label, normalize_relation_type, relation_ranges,
    relation_terms_from_parts, split_relation_terms,
};
use zimrs::scanner::Heading;
use zimrs::text::{text_less, trim_by};

fn matchers() -> Matchers {
    Matchers::new().expect("the engine's patterns compile")
}

#[test]
fn relation_labels_fold_singular_and_case() {
    let m = matchers();
    assert_eq!(normalize_relation_type(&m, "Synonym"), "synonyms");
    assert_eq!(normalize_relation_type(&m, " <b>SYNONYMS</b> "), "synonyms");
    assert_eq!(normalize_relation_type(&m, "antonym"), "antonyms");
    assert_eq!(normalize_relation_type(&m, "Translation"), "translations");
    assert_eq!(normalize_relation_type(&m, "Derived Terms"), "derived terms");
}

#[test]
fn terms_are_split_trimmed_sorted_and_unique() {
    let m = matchers();
    assert_eq!(split_relation_terms(&m, "alpha, beta; gamma"), vec!["alpha", "beta", "gamma"]);
    assert_eq!(
        split_relation_terms(&m, "zeta | (alpha) / beta \u{2022} alpha \u{2192} delta."),
        vec!["alpha", "beta", "delta", "zeta"]
    );
    assert_eq!(split_relation_terms(&m, "bb, aa, BB"), vec!["BB", "aa", "bb"]);
}

#[test]
fn short_and_labelled_terms_are_dropped() {
    let m = matchers();
    assert_eq!(split_relation_terms(&m, "x, yz, synonyms, see also"), vec!["see also", "yz"]);
}

#[test]
fn sentence_without_terms_gives_none() {
    let m = matchers();
    // every part is too short: there is no term, and no falling back on
    // the sentence
    assert_eq!(split_relation_terms(&m, "a, b"), Vec::<String>::new());
    assert_eq!(split_relation_terms(&m, "a"), Vec::<String>::new());
    assert_eq!(split_relation_terms(&m, ""), Vec::<String>::new());
    assert_eq!(split_relation_terms(&m, "synonyms; antonym"), Vec::<String>::new());
}

#[test]
fn terms_from_given_parts() {
    let m = matchers();
    let parts = vec![" (beta). ".to_owned(), "alpha".to_owned(), "beta".to_owned(), ";".to_owned()];
    assert_eq!(relation_terms_from_parts(&m, &parts), vec!["alpha", "beta"]);
    let none: Vec<String> = Vec::new();
    assert_eq!(relation_terms_from_parts(&m, &none), Vec::<String>::new());
}

#[test]
fn edge_trimming_takes_punctuation_and_whitespace() {
    assert_eq!(trim_by(" .(a.b); ", true), "a.b");
    assert_eq!(trim_by(" .(a.b); ", false), ".(a.b);");
    assert_eq!(trim_by("[:,]", true), "");
    assert_eq!(trim_by("\u{3000}x\u{2009}", false), "x");
}

#[test]
fn strings_are_ordered_by_code_point() {
    assert!(text_less("", "a"));
    assert!(!text_less("a", ""));
    assert!(!text_less("a", "a"));
    assert!(text_less("a", "ab"));
    assert!(text_less("B", "a"));
    assert!(text_less("z", "\u{e9}"));
    assert!(text_less("\u{e9}", "\u{4e2d}"));
    assert!(text_less("\u{ffff}", "\u{10000}"));
    assert_eq!(text_less("\u{ffff}", "\u{10000}"), "\u{ffff}" < "\u{10000}");
}

#[test]
fn sorted_insert_keeps_order_and_skips_what_is_there() {
    let mut v: Vec<String> = Vec::new();
    for s in ["m", "a", "z", "m", "b", "a"] {
        insert_sorted(&mut v, s.to_owned());
    }
    assert_eq!(v, vec!["a", "b", "m", "z"]);
}

#[test]
fn label_table_takes_the_last_entry_of_a_label() {
    let m = matchers();
    let types = vec!["Synonyms".to_owned(), "Derived Terms".to_owned(), "SYNONYM".to_owned()];
    let table = build_label_table(&m, &types);
    assert_eq!(lookup_label(&table, "synonyms"), Some("synonym".to_owned()));
    assert_eq!(lookup_label(&table, "derived terms"), Some("derived terms".to_owned()));
    assert_eq!(lookup_label(&table, "antonyms"), None);
}

#[test]
fn relation_ranges_run_to_the_next_sub_heading() {
    let m = matchers();
    let heading = |start: usize, end: usize, title: &str| Heading {
        start,
        end,
        level: 3,
        title: title.to_owned(),
    };
    let headings = vec![
        heading(0, 10, "Noun"),
        heading(20, 30, "Synonyms"),
        heading(40, 50, "Antonym"),
        heading(50, 60, "Translations"),
    ];
    let types = vec!["synonyms".to_owned(), "antonyms".to_owned(), "translations".to_owned()];
    let table = build_label_table(&m, &types);
    let ranges = relation_ranges(&m, &headings, 60, &table);
    let spans: Vec<(usize, usize, &str)> =
        ranges.iter().map(|r| (r.start, r.end, r.relation_type.as_str())).collect();
    // the last heading ends where the section ends: it has no content
    assert_eq!(spans, vec![(30, 40, "synonyms")]);
    let ranges = relation_ranges(&m, &headings, 70, &table);
    let spans: Vec<(usize, usize, &str)> =
        ranges.iter().map(|r| (r.start, r.end, r.relation_type.as_str())).collect();
    assert_eq!(spans, vec![(30, 40, "synonyms"), (60, 70, "translations")]);
}
