use zimrs::items::{extract_list_items, list_items_from_tokens, Scanner};
use zimrs::patterns::Matchers;
use zimrs::scanner::{
    extract_headings, is_list_tag, is_void_tag, parse_digit, tag_tokens, TagKind, TagToken,
};

fn matchers() -> Matchers {
    Matchers::new().expect("the engine's patterns compile")
}

fn raw_items(html: &str, limit: usize) -> Vec<String> {
    let m = matchers();
    extract_list_items(&m, html, limit).into_iter().map(|f| f.raw_html).collect()
}

#[test]
fn headings_carry_level_span_and_title() {
    let m = matchers();
    let html = "<p>x</p><h2 id=\"a\"><span class=\"mw-headline\">English</span></h2><h3>Noun</h3><h6>no</h6>";
    let headings = extract_headings(&m, html, 2, 5);
    assert_eq!(headings.len(), 2);
    assert_eq!(headings[0].level, 2);
    assert_eq!(headings[0].title, "English");
    assert_eq!(headings[0].start, 8);
    assert_eq!(&html[headings[0].start..headings[0].end], "<h2 id=\"a\"><span class=\"mw-headline\">English</span></h2>");
    assert_eq!(headings[1].level, 3);
    assert_eq!(headings[1].title, "Noun");
    let deeper = extract_headings(&m, html, 3, 5);
    assert_eq!(deeper.len(), 1);
    assert_eq!(deeper[0].title, "Noun");
}

#[test]
fn heading_offsets_are_bytes_after_wide_characters() {
    let m = matchers();
    let html = "\u{e9}\u{e9}<h2>Fran\u{e7}ais</h2>";
    let headings = extract_headings(&m, html, 2, 5);
    assert_eq!(headings.len(), 1);
    assert_eq!(headings[0].start, 4);
    assert_eq!(headings[0].end, html.len());
    assert_eq!(headings[0].title, "Fran\u{e7}ais");
}

#[test]
fn digits_parse_one_at_a_time() {
    assert_eq!(parse_digit("2"), Some(2));
    assert_eq!(parse_digit("9"), Some(9));
    assert_eq!(parse_digit("0"), Some(0));
    assert_eq!(parse_digit("22"), None);
    assert_eq!(parse_digit(""), None);
    assert_eq!(parse_digit("x"), None);
}

#[test]
fn list_and_void_tags_are_told_by_name() {
    assert!(is_list_tag("ol") && is_list_tag("ul") && is_list_tag("dl"));
    assert!(!is_list_tag("li") && !is_list_tag("OL") && !is_list_tag(""));
    for name in ["br", "img", "hr", "meta", "link", "input", "source", "track", "wbr"] {
        assert!(is_void_tag(name));
    }
    assert!(!is_void_tag("div") && !is_void_tag("BR"));
}

#[test]
fn tag_tokens_classify_tags() {
    let m = matchers();
    let html = "<UL class=\"x\"><li>a<br><img src=\"y\" /></LI></ul>";
    let tokens = tag_tokens(&m, html);
    let kinds: Vec<(TagKind, bool, bool)> =
        tokens.iter().map(|t| (t.kind, t.closing, t.self_closing)).collect();
    assert_eq!(
        kinds,
        vec![
            (TagKind::List, false, false),
            (TagKind::ListItem, false, false),
            (TagKind::Other, false, true),
            (TagKind::Other, false, true),
            (TagKind::ListItem, true, false),
            (TagKind::List, true, false),
        ]
    );
    assert_eq!(tokens[0].start, 0);
    assert_eq!(tokens[0].end, 14);
}

#[test]
fn nested_items_stay_inside_their_parent() {
    let items = raw_items("<ol><li>First<ul><li>Nested</li></ul></li><li>Second</li></ol>", 4);
    assert_eq!(items, vec!["First<ul><li>Nested</li></ul>", "Second"]);
}

#[test]
fn items_of_lists_deeper_than_the_limit_are_dropped() {
    let html = "<ul><li>top</li></ul><div><ul><ul><li>deep</li></ul></ul></div>";
    assert_eq!(raw_items(html, 1), vec!["top"]);
    assert_eq!(raw_items(html, 2), vec!["top", "deep"]);
    assert_eq!(raw_items(html, 0), Vec::<String>::new());
}

#[test]
fn depth_limit_holds_for_every_limit() {
    let html = "<ul><li>one</li><ul><li>two</li><ul><li>three</li><ul><li>four</li></ul></ul></ul></ul>";
    let all = ["one", "two", "three", "four"];
    for limit in 1..=5usize {
        let expected: Vec<&str> = all.iter().take(limit.min(4)).copied().collect();
        assert_eq!(raw_items(html, limit), expected);
    }
}

#[test]
fn unbalanced_markup_does_not_panic() {
    assert_eq!(raw_items("</li></ul></ol><li>a</li></li><ul><li>b", 4), vec!["a"]);
    assert_eq!(raw_items("<li>never closed", 4), Vec::<String>::new());
    assert_eq!(raw_items("", 4), Vec::<String>::new());
}

#[test]
fn self_closing_item_opens_no_level_and_gives_no_fragment() {
    assert_eq!(raw_items("<li/>", 4), Vec::<String>::new());
    assert_eq!(raw_items("<ul><li/><li>x</li></ul>", 4), vec!["x"]);
    assert_eq!(raw_items("<ul><li>a<li />b</li></ul>", 4), vec!["a<li />b"]);
    assert_eq!(raw_items("<ul><li>a<ul/><br/>b</li></ul>", 1), vec!["a<ul/><br/>b"]);
    let tag = TagToken { start: 0, end: 5, closing: false, kind: TagKind::ListItem, self_closing: true };
    let (st, found) = Scanner::new().step(&tag, 4);
    assert_eq!((st.list_depth, st.li_depth, st.current_start, found), (0, 0, None, None));
    let list = TagToken { start: 0, end: 5, closing: false, kind: TagKind::List, self_closing: true };
    let (st, found) = st.step(&list, 4);
    assert_eq!((st.list_depth, st.li_depth, found), (0, 0, None));
}

#[test]
fn fragments_lie_in_the_page_in_document_order() {
    let m = matchers();
    let html = "<ul><li>one</li><li>tw\u{f6}</li></ul><ol><li>three<ul><li>in</li></ul></li></ol>";
    let items = extract_list_items(&m, html, 4);
    assert_eq!(items.len(), 3);
    let mut last_end = 0;
    for item in &items {
        assert!(last_end <= item.start && item.start <= item.end && item.end <= html.len());
        assert_eq!(&html[item.start..item.end], item.raw_html);
        last_end = item.end;
    }
}

#[test]
fn spans_that_cut_a_code_point_give_no_fragment() {
    let html = "\u{e9}\u{e9}\u{e9}";
    let open = TagToken { start: 0, end: 1, closing: false, kind: TagKind::ListItem, self_closing: false };
    let close = TagToken { start: 4, end: 5, closing: true, kind: TagKind::ListItem, self_closing: false };
    assert!(list_items_from_tokens(html, &vec![open, close], 4).is_empty());
    let open = TagToken { start: 0, end: 2, closing: false, kind: TagKind::ListItem, self_closing: false };
    let items = list_items_from_tokens(html, &vec![open, close], 4);
    assert_eq!(items.len(), 1);
    assert_eq!(items[0].raw_html, "\u{e9}");
    let late = TagToken { start: 9, end: 10, closing: true, kind: TagKind::ListItem, self_closing: false };
    assert!(list_items_from_tokens(html, &vec![open, late], 4).is_empty());
}

#[test]
fn scanner_counts_depths_and_saturates_at_zero() {
    let list_open = TagToken { start: 0, end: 4, closing: false, kind: TagKind::List, self_closing: false };
    let list_close = TagToken { start: 0, end: 5, closing: true, kind: TagKind::List, self_closing: false };
    let item_open = TagToken { start: 4, end: 8, closing: false, kind: TagKind::ListItem, self_closing: false };
    let item_close = TagToken { start: 9, end: 14, closing: true, kind: TagKind::ListItem, self_closing: false };
    let st = Scanner::new();
    let (st, found) = st.step(&list_close, 4);
    assert_eq!((st.list_depth, st.li_depth, found), (0, 0, None));
    let (st, found) = st.step(&item_close, 4);
    assert_eq!((st.list_depth, st.li_depth, found), (0, 0, None));
    let (st, _) = st.step(&list_open, 4);
    let (st, found) = st.step(&item_open, 4);
    assert_eq!((st.list_depth, st.li_depth, st.current_start, found), (1, 1, Some(8), None));
    let (st, found) = st.step(&item_open, 4);
    assert_eq!((st.li_depth, st.current_start, found), (2, Some(8), None));
    let (st, found) = st.step(&item_close, 4);
    assert_eq!((st.li_depth, found), (1, None));
    let (st, found) = st.step(&item_close, 4);
    assert_eq!((st.li_depth, st.current_start, found), (0, None, Some((8, 9))));
}
