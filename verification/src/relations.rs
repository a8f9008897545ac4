//! Relations: the sub-sections that carry them, the target terms of a
//! sentence, and the scored relations of one sub-section.

use crate::config::ExtractionConfig;
use crate::extractor::{normalize_text, normalized_text, ExtractedRelation, RelationView};
use crate::items::{extract_list_items, list_items_of, ListItemFragment, ListItemView};
use crate::normalization::{language_form, normalize_for_language};
use crate::ordered::{insert_sorted, lemma_sorted_set, sorted_set};
use crate::patterns::{
    regex_is_match, regex_split, Matchers, RELATION_LABEL_PATTERN, SPLIT_TERMS_PATTERN,
};
use crate::scanner::{Heading, HeadingView};
use crate::scoring::{relation_confidence, score_relation};
use crate::sections::language_allowed;
use crate::text::{
    byte_slice, char_len, is_byte_range, lowercase_of, same_text, slice_bytes, trim_by,
    trimmed_by,
};
use vstd::prelude::*;

verus! {

/// The label of a relation kind: the readable text in lower case, the
/// singular of the three known kinds taken as its plural.
pub open spec fn relation_label(label: Seq<char>) -> Seq<char> {
    let lowered = lowercase_of(normalized_text(label));
    if lowered == "synonym"@ || lowered == "synonyms"@ {
        "synonyms"@
    } else if lowered == "antonym"@ || lowered == "antonyms"@ {
        "antonyms"@
    } else if lowered == "translation"@ || lowered == "translations"@ {
        "translations"@
    } else {
        lowered
    }
}

/// The label of a relation kind.
pub fn normalize_relation_type(m: &Matchers, label: &str) -> (out: String)
    ensures
        out@ == relation_label(label@),
{
    let lowered = normalize_text(m, label).as_str().to_lowercase();
    if same_text(lowered.as_str(), "synonym") || same_text(lowered.as_str(), "synonyms") {
        "synonyms".to_owned()
    } else if same_text(lowered.as_str(), "antonym") || same_text(lowered.as_str(), "antonyms") {
        "antonyms".to_owned()
    } else if same_text(lowered.as_str(), "translation") || same_text(
        lowered.as_str(),
        "translations",
    ) {
        "translations".to_owned()
    } else {
        lowered
    }
}

/// Whether a part of a sentence is kept as a target term: two characters
/// or more, and no relation label in it.
pub open spec fn is_term(part: Seq<char>) -> bool {
    part.len() >= 2 && !regex_is_match(RELATION_LABEL_PATTERN@, part)
}

/// The parts of a sentence that are kept as target terms, each with
/// whitespace and edge punctuation trimmed, in the order of the parts.
pub open spec fn term_candidates(parts: Seq<Seq<char>>) -> Seq<Seq<char>>
    decreases parts.len(),
{
    if parts.len() == 0 {
        seq![]
    } else {
        let before = term_candidates(parts.drop_last());
        let item = trimmed_by(parts.last(), true);
        if is_term(item) {
            before.push(item)
        } else {
            before
        }
    }
}

/// The target terms of a sentence, given the parts that its separators
/// delimit: the kept parts, each once, in the order of strings. A
/// sentence of which no part is kept has no target term.
pub open spec fn relation_terms_from(parts: Seq<Seq<char>>) -> Seq<Seq<char>> {
    sorted_set(term_candidates(parts))
}

/// The target terms of a sentence.
pub open spec fn relation_terms_of(text: Seq<char>) -> Seq<Seq<char>> {
    relation_terms_from(regex_split(SPLIT_TERMS_PATTERN@, text))
}

/// Every kept part is a term.
pub proof fn lemma_candidates_are_terms(parts: Seq<Seq<char>>)
    ensures
        forall|i: int|
            0 <= i < term_candidates(parts).len() ==> is_term(#[trigger] term_candidates(parts)[i]),
    decreases parts.len(),
{
    if parts.len() > 0 {
        let before = term_candidates(parts.drop_last());
        let all = term_candidates(parts);
        lemma_candidates_are_terms(parts.drop_last());
        assert forall|i: int| 0 <= i < all.len() implies is_term(#[trigger] all[i]) by {
            if i < before.len() {
                assert(all[i] == before[i]);
            }
        }
    }
}

/// The target terms of a sentence are pairwise different and come in the
/// order of strings; each has two characters or more and holds no
/// relation label.
pub proof fn lemma_terms_are_distinct_terms(parts: Seq<Seq<char>>)
    ensures
        forall|i: int, j: int|
            0 <= i < j < relation_terms_from(parts).len() ==> #[trigger] relation_terms_from(
                parts,
            )[i] != #[trigger] relation_terms_from(parts)[j],
        forall|i: int|
            0 <= i < relation_terms_from(parts).len() ==> is_term(
                #[trigger] relation_terms_from(parts)[i],
            ),
{
    let candidates = term_candidates(parts);
    let terms = relation_terms_from(parts);
    lemma_sorted_set(candidates);
    lemma_candidates_are_terms(parts);
    assert forall|i: int| 0 <= i < terms.len() implies is_term(#[trigger] terms[i]) by {
        assert(terms.contains(terms[i]));
        assert(candidates.contains(terms[i]));
        let k = choose|k: int| 0 <= k < candidates.len() && candidates[k] == terms[i];
        assert(is_term(candidates[k]));
    }
}

/// The target terms of a sentence, given the parts that its separators
/// delimit.
pub fn relation_terms_from_parts(m: &Matchers, parts: &Vec<String>) -> (out: Vec<String>)
    ensures
        out.deep_view() == relation_terms_from(parts.deep_view()),
{
    let mut out: Vec<String> = Vec::new();
    let ghost all = parts.deep_view();
    let mut i: usize = 0;
    assert(all.take(0) =~= Seq::empty());
    assert(out.deep_view() =~= Seq::empty());
    while i < parts.len()
        invariant
            i <= parts.len(),
            all == parts.deep_view(),
            out.deep_view() == sorted_set(term_candidates(all.take(i as int))),
        decreases parts.len() - i,
    {
        proof {
            assert(all.take(i + 1).drop_last() =~= all.take(i as int));
            assert(all.take(i + 1).last() == parts@[i as int]@);
        }
        let item = trim_by(parts[i].as_str(), true);
        if char_len(item) >= 2 && !m.has_relation_label(item) {
            proof {
                let before = term_candidates(all.take(i as int));
                assert(before.push(item@).drop_last() =~= before);
            }
            insert_sorted(&mut out, item.to_owned());
        }
        i += 1;
    }
    assert(all.take(i as int) =~= all);
    out
}

/// The target terms of the sentence `text`: split at commas, semicolons,
/// bars, bullets, slashes and arrows, trimmed of whitespace and edge
/// punctuation, each once, in the order of strings.
pub fn split_relation_terms(m: &Matchers, text: &str) -> (out: Vec<String>)
    ensures
        out.deep_view() == relation_terms_of(text@),
{
    let parts = m.split_terms(text);
    relation_terms_from_parts(m, &parts)
}

/// For each configured relation kind, its label and the name under which
/// its relations are stored.
pub open spec fn label_table(types: Seq<Seq<char>>) -> Seq<(Seq<char>, Seq<char>)> {
    types.map_values(|kind: Seq<char>| (relation_label(kind), lowercase_of(kind)))
}

/// The name that the last entry with the given label gives.
pub open spec fn table_lookup(table: Seq<(Seq<char>, Seq<char>)>, label: Seq<char>) -> Option<
    Seq<char>,
>
    decreases table.len(),
{
    if table.len() == 0 {
        None
    } else if table.last().0 == label {
        Some(table.last().1)
    } else {
        table_lookup(table.drop_last(), label)
    }
}

/// The label table of the configured relation kinds.
pub fn build_label_table(m: &Matchers, types: &Vec<String>) -> (table: Vec<(String, String)>)
    ensures
        table.deep_view() == label_table(types.deep_view()),
{
    let mut table: Vec<(String, String)> = Vec::new();
    let mut i: usize = 0;
    while i < types.len()
        invariant
            i <= types.len(),
            table.len() == i,
            forall|k: int|
                0 <= k < i ==> (#[trigger] table@[k]).0@ == relation_label(types@[k]@)
                    && table@[k].1@ == lowercase_of(types@[k]@),
        decreases types.len() - i,
    {
        let label = normalize_relation_type(m, types[i].as_str());
        let name = types[i].as_str().to_lowercase();
        table.push((label, name));
        i += 1;
    }
    assert(table.deep_view() =~= label_table(types.deep_view()));
    table
}

/// The name that the last entry of `table` with the given label gives.
pub fn lookup_label(table: &Vec<(String, String)>, label: &str) -> (r: Option<String>)
    ensures
        r is Some == table_lookup(table.deep_view(), label@) is Some,
        r matches Some(name) ==> Some(name@) == table_lookup(table.deep_view(), label@),
{
    let ghost all = table.deep_view();
    let mut i: usize = table.len();
    assert(all.take(i as int) =~= all);
    while i > 0
        invariant
            i <= table.len(),
            all == table.deep_view(),
            table_lookup(all, label@) == table_lookup(all.take(i as int), label@),
        decreases i,
    {
        proof {
            assert(all.take(i as int).drop_last() =~= all.take(i - 1));
            assert(all.take(i as int).last() == all[i - 1]);
            assert(all[i - 1].0 == table@[i - 1].0@);
            assert(all[i - 1].1 == table@[i - 1].1@);
        }
        if same_text(table[i - 1].0.as_str(), label) {
            return Some(table[i - 1].1.clone());
        }
        i -= 1;
    }
    None
}

/// A sub-section that carries relations of one kind: the byte span of its
/// content within the language section, and the name of the kind.
#[derive(Debug, Clone)]
pub struct RelationRange {
    pub start: usize,
    pub end: usize,
    pub relation_type: String,
}

/// What a `RelationRange` holds.
pub struct RangeView {
    pub start: usize,
    pub end: usize,
    pub relation_type: Seq<char>,
}

impl View for RelationRange {
    type V = RangeView;

    open spec fn view(&self) -> RangeView {
        RangeView { start: self.start, end: self.end, relation_type: self.relation_type@ }
    }
}

impl DeepView for RelationRange {
    type V = RangeView;

    open spec fn deep_view(&self) -> RangeView {
        self@
    }
}

/// Where the sub-section of the heading at `i` ends: at the start of the
/// next heading, or at the end of the section.
pub open spec fn range_end(headings: Seq<HeadingView>, section_len: usize, i: int) -> usize {
    if i + 1 < headings.len() {
        headings[i + 1].start
    } else {
        section_len
    }
}

/// The relation sub-section that the heading at `i` opens: it has one
/// where the heading's label is that of a configured kind and its content
/// is a span of one byte or more within the section.
pub open spec fn range_at(
    headings: Seq<HeadingView>,
    section_len: usize,
    table: Seq<(Seq<char>, Seq<char>)>,
    i: int,
) -> Option<RangeView> {
    match table_lookup(table, relation_label(headings[i].title)) {
        Some(name) => if headings[i].end < range_end(headings, section_len, i) && range_end(
            headings,
            section_len,
            i,
        ) <= section_len {
            Some(
                RangeView {
                    start: headings[i].end,
                    end: range_end(headings, section_len, i),
                    relation_type: name,
                },
            )
        } else {
            None
        },
        None => None,
    }
}

/// The relation sub-sections that the first `n` headings open.
pub open spec fn ranges_upto(
    headings: Seq<HeadingView>,
    section_len: usize,
    table: Seq<(Seq<char>, Seq<char>)>,
    n: nat,
) -> Seq<RangeView>
    decreases n,
{
    if n == 0 {
        seq![]
    } else {
        let before = ranges_upto(headings, section_len, table, (n - 1) as nat);
        match range_at(headings, section_len, table, n - 1) {
            Some(range) => before.push(range),
            None => before,
        }
    }
}

/// The relation sub-sections of a language section with the given
/// sub-headings, in document order.
pub open spec fn relation_ranges_of(
    headings: Seq<HeadingView>,
    section_len: usize,
    table: Seq<(Seq<char>, Seq<char>)>,
) -> Seq<RangeView> {
    ranges_upto(headings, section_len, table, headings.len())
}

/// The relation sub-sections of a language section of `section_len` bytes
/// with the given sub-headings.
pub fn relation_ranges(
    m: &Matchers,
    headings: &Vec<Heading>,
    section_len: usize,
    table: &Vec<(String, String)>,
) -> (out: Vec<RelationRange>)
    ensures
        out.deep_view() == relation_ranges_of(headings.deep_view(), section_len, table.deep_view()),
{
    let mut out: Vec<RelationRange> = Vec::new();
    let ghost all = headings.deep_view();
    let mut i: usize = 0;
    assert(out.deep_view() =~= Seq::empty());
    while i < headings.len()
        invariant
            i <= headings.len(),
            all == headings.deep_view(),
            out.deep_view() == ranges_upto(all, section_len, table.deep_view(), i as nat),
        decreases headings.len() - i,
    {
        let ghost before = out.deep_view();
        proof {
            assert(all[i as int] == headings@[i as int]@);
            if i + 1 < headings.len() {
                assert(all[i + 1] == headings@[i + 1]@);
            }
        }
        let label = normalize_relation_type(m, headings[i].title.as_str());
        match lookup_label(table, label.as_str()) {
            Some(name) => {
                let end = if i + 1 < headings.len() {
                    headings[i + 1].start
                } else {
                    section_len
                };
                if headings[i].end < end && end <= section_len {
                    let range = RelationRange { start: headings[i].end, end, relation_type: name };
                    out.push(range);
                    assert(out.deep_view() =~= before.push(range@));
                }
            },
            None => {},
        }
        i += 1;
    }
    out
}

/// The number of the given relations that are of the kind and in the
/// language.
pub open spec fn relations_of_kind(
    relations: Seq<RelationView>,
    language: Seq<char>,
    relation_type: Seq<char>,
) -> nat
    decreases relations.len(),
{
    if relations.len() == 0 {
        0
    } else {
        relations_of_kind(relations.drop_last(), language, relation_type) + if relations.last().language
            == language && relations.last().relation_type == relation_type {
            1nat
        } else {
            0nat
        }
    }
}

/// No more relations are of a kind than there are relations, and no fewer
/// in a sequence than in its start.
pub proof fn lemma_kind_count_grows(
    relations: Seq<RelationView>,
    n: int,
    language: Seq<char>,
    relation_type: Seq<char>,
)
    requires
        0 <= n <= relations.len(),
    ensures
        relations_of_kind(relations.take(n), language, relation_type) <= relations_of_kind(
            relations,
            language,
            relation_type,
        ) <= relations.len(),
    decreases relations.len(),
{
    if relations.len() == 0 {
        assert(relations.take(n) =~= relations);
    } else if n == relations.len() {
        assert(relations.take(n) =~= relations);
        lemma_kind_count_grows(relations.drop_last(), n - 1, language, relation_type);
    } else {
        assert(relations.drop_last().take(n) =~= relations.take(n));
        lemma_kind_count_grows(relations.drop_last(), n, language, relation_type);
    }
}

/// The relation that a target term gives at the given place, unless its
/// confidence is below the threshold.
pub open spec fn relation_of_term(
    term: Seq<char>,
    source: Seq<char>,
    language: Seq<char>,
    relation_type: Seq<char>,
    order: usize,
    config: &ExtractionConfig,
) -> Option<RelationView> {
    let normalized = language_form(language, term, config);
    let confidence = relation_confidence(term, normalized);
    if confidence < config.confidence_threshold {
        None
    } else {
        Some(
            RelationView {
                language,
                relation_type,
                order_in_type: order,
                source_text: source,
                target_term: term,
                normalized_target: normalized,
                confidence: confidence as u32,
            },
        )
    }
}

/// The relations `found` so far on the page and those that the terms of
/// one sentence add. The order of a relation is the number of relations
/// of its kind and language before it on the page, and none is added once
/// that number has reached the cap.
pub open spec fn relations_with_terms(
    found: Seq<RelationView>,
    terms: Seq<Seq<char>>,
    source: Seq<char>,
    language: Seq<char>,
    relation_type: Seq<char>,
    config: &ExtractionConfig,
) -> Seq<RelationView>
    decreases terms.len(),
{
    if terms.len() == 0 {
        found
    } else {
        let before = relations_with_terms(
            found,
            terms.drop_last(),
            source,
            language,
            relation_type,
            config,
        );
        let placed = relations_of_kind(before, language, relation_type);
        if placed >= config.max_relations_per_type {
            before
        } else {
            match relation_of_term(
                terms.last(),
                source,
                language,
                relation_type,
                placed as usize,
                config,
            ) {
                Some(relation) => before.push(relation),
                None => before,
            }
        }
    }
}

/// The relations `found` so far on the page and those that the list items
/// of one relation sub-section add. An item whose readable text is
/// shorter than half the minimum length of a definition adds none.
pub open spec fn relations_with_items(
    found: Seq<RelationView>,
    items: Seq<ListItemView>,
    language: Seq<char>,
    relation_type: Seq<char>,
    config: &ExtractionConfig,
) -> Seq<RelationView>
    decreases items.len(),
{
    if items.len() == 0 {
        found
    } else {
        let before = relations_with_items(
            found,
            items.drop_last(),
            language,
            relation_type,
            config,
        );
        let source = normalized_text(items.last().raw_html);
        if source.len() < config.min_definition_chars / 2 {
            before
        } else {
            relations_with_terms(
                before,
                relation_terms_of(source),
                source,
                language,
                relation_type,
                config,
            )
        }
    }
}

/// The relations `found` so far on the page and those that one relation
/// sub-section of a language section adds; it adds none where it is no
/// byte range of the section between code points.
pub open spec fn relations_with_range(
    found: Seq<RelationView>,
    section_html: Seq<char>,
    range: RangeView,
    language: Seq<char>,
    config: &ExtractionConfig,
) -> Seq<RelationView> {
    if is_byte_range(section_html, range.start as int, range.end as int) {
        relations_with_items(
            found,
            list_items_of(
                byte_slice(section_html, range.start as int, range.end as int),
                config.nested_list_depth_limit as nat,
            ),
            language,
            range.relation_type,
            config,
        )
    } else {
        found
    }
}

/// The relations `found` so far on the page and those that the relation
/// sub-sections of a language section add, in the order of the
/// sub-sections.
pub open spec fn relations_with_ranges(
    found: Seq<RelationView>,
    section_html: Seq<char>,
    ranges: Seq<RangeView>,
    language: Seq<char>,
    config: &ExtractionConfig,
) -> Seq<RelationView>
    decreases ranges.len(),
{
    if ranges.len() == 0 {
        found
    } else {
        relations_with_range(
            relations_with_ranges(found, section_html, ranges.drop_last(), language, config),
            section_html,
            ranges.last(),
            language,
            config,
        )
    }
}

/// The number of the relations in `found` that are of the kind and in the
/// language.
pub fn count_of_kind(found: &Vec<ExtractedRelation>, language: &str, relation_type: &str) -> (n:
    usize)
    ensures
        n == relations_of_kind(found.deep_view(), language@, relation_type@),
        n <= found.len(),
{
    let ghost all = found.deep_view();
    let mut n: usize = 0;
    let mut i: usize = 0;
    assert(all.take(0) =~= Seq::empty());
    while i < found.len()
        invariant
            i <= found.len(),
            n <= i,
            all == found.deep_view(),
            n == relations_of_kind(all.take(i as int), language@, relation_type@),
        decreases found.len() - i,
    {
        proof {
            assert(all.take(i + 1).drop_last() =~= all.take(i as int));
            assert(all.take(i + 1).last() == found@[i as int]@);
        }
        if same_text(found[i].language.as_str(), language) && same_text(
            found[i].relation_type.as_str(),
            relation_type,
        ) {
            n += 1;
        }
        i += 1;
    }
    assert(all.take(i as int) =~= all);
    n
}

/// Adds to `found` the relations that the terms of one sentence give.
/// `placed` is the number of relations of the kind and language in
/// `found`; the number after the call is handed back.
fn add_term_relations(
    m: &Matchers,
    found: &mut Vec<ExtractedRelation>,
    placed: usize,
    terms: Vec<String>,
    source: &str,
    language: &str,
    relation_type: &str,
    config: &ExtractionConfig,
) -> (now: usize)
    requires
        placed == relations_of_kind(old(found).deep_view(), language@, relation_type@),
        placed <= old(found).len(),
    ensures
        final(found).deep_view() == relations_with_terms(
            old(found).deep_view(),
            terms.deep_view(),
            source@,
            language@,
            relation_type@,
            config,
        ),
        now == relations_of_kind(final(found).deep_view(), language@, relation_type@),
        now <= final(found).len(),
{
    let ghost start = found.deep_view();
    let ghost all = terms.deep_view();
    let mut placed = placed;
    let mut i: usize = 0;
    assert(all.take(0) =~= Seq::empty());
    while i < terms.len()
        invariant
            i <= terms.len(),
            all == terms.deep_view(),
            placed <= found.len(),
            placed == relations_of_kind(found.deep_view(), language@, relation_type@),
            found.deep_view() == relations_with_terms(
                start,
                all.take(i as int),
                source@,
                language@,
                relation_type@,
                config,
            ),
        decreases terms.len() - i,
    {
        let ghost before = found.deep_view();
        proof {
            assert(all.take(i + 1).drop_last() =~= all.take(i as int));
            assert(all.take(i + 1).last() == terms@[i as int]@);
        }
        if placed < config.max_relations_per_type {
            let term = terms[i].as_str();
            let normalized = normalize_for_language(m, language, term, config);
            let confidence = score_relation(term, normalized.as_str());
            if confidence >= config.confidence_threshold {
                let relation = ExtractedRelation {
                    language: language.to_owned(),
                    relation_type: relation_type.to_owned(),
                    order_in_type: placed,
                    source_text: source.to_owned(),
                    target_term: term.to_owned(),
                    normalized_target: normalized,
                    confidence,
                };
                found.push(relation);
                proof {
                    assert(found.deep_view() =~= before.push(relation@));
                    assert(before.push(relation@).drop_last() =~= before);
                }
                placed += 1;
            }
        }
        i += 1;
    }
    assert(all.take(i as int) =~= all);
    placed
}

/// Adds to `found` the relations that the list items of one relation
/// sub-section give. `placed` is the number of relations of the kind and
/// language in `found`.
fn add_item_relations(
    m: &Matchers,
    found: &mut Vec<ExtractedRelation>,
    placed: usize,
    items: &Vec<ListItemFragment>,
    language: &str,
    relation_type: &str,
    config: &ExtractionConfig,
)
    requires
        placed == relations_of_kind(old(found).deep_view(), language@, relation_type@),
        placed <= old(found).len(),
    ensures
        final(found).deep_view() == relations_with_items(
            old(found).deep_view(),
            items.deep_view(),
            language@,
            relation_type@,
            config,
        ),
{
    let ghost start = found.deep_view();
    let ghost all = items.deep_view();
    let mut placed = placed;
    let mut i: usize = 0;
    assert(all.take(0) =~= Seq::empty());
    while i < items.len()
        invariant
            i <= items.len(),
            all == items.deep_view(),
            placed <= found.len(),
            placed == relations_of_kind(found.deep_view(), language@, relation_type@),
            found.deep_view() == relations_with_items(
                start,
                all.take(i as int),
                language@,
                relation_type@,
                config,
            ),
        decreases items.len() - i,
    {
        proof {
            assert(all.take(i + 1).drop_last() =~= all.take(i as int));
            assert(all.take(i + 1).last() == items@[i as int]@);
        }
        let source = normalize_text(m, items[i].raw_html.as_str());
        if char_len(source.as_str()) >= config.min_definition_chars / 2 {
            let terms = split_relation_terms(m, source.as_str());
            placed = add_term_relations(
                m,
                found,
                placed,
                terms,
                source.as_str(),
                language,
                relation_type,
                config,
            );
        }
        i += 1;
    }
    assert(all.take(i as int) =~= all);
}

/// Adds to `found`, the relations of the page so far, those of one
/// relation sub-section of a language section.
pub fn add_range_relations(
    m: &Matchers,
    found: &mut Vec<ExtractedRelation>,
    section_html: &str,
    range: &RelationRange,
    language: &str,
    config: &ExtractionConfig,
)
    ensures
        final(found).deep_view() == relations_with_range(
            old(found).deep_view(),
            section_html@,
            range@,
            language@,
            config,
        ),
{
    match slice_bytes(section_html, range.start, range.end) {
        Some(subsection) => {
            let items = extract_list_items(m, subsection, config.nested_list_depth_limit);
            let placed = count_of_kind(found, language, range.relation_type.as_str());
            add_item_relations(
                m,
                found,
                placed,
                &items,
                language,
                range.relation_type.as_str(),
                config,
            );
        },
        None => {},
    }
}

/// Adds to `found`, the relations of the page so far, those of all
/// relation sub-sections of a language section.
pub fn add_section_relations(
    m: &Matchers,
    found: &mut Vec<ExtractedRelation>,
    section_html: &str,
    ranges: &Vec<RelationRange>,
    language: &str,
    config: &ExtractionConfig,
)
    ensures
        final(found).deep_view() == relations_with_ranges(
            old(found).deep_view(),
            section_html@,
            ranges.deep_view(),
            language@,
            config,
        ),
{
    let ghost start = found.deep_view();
    let ghost all = ranges.deep_view();
    let mut i: usize = 0;
    assert(all.take(0) =~= Seq::empty());
    while i < ranges.len()
        invariant
            i <= ranges.len(),
            all == ranges.deep_view(),
            found.deep_view() == relations_with_ranges(
                start,
                section_html@,
                all.take(i as int),
                language@,
                config,
            ),
        decreases ranges.len() - i,
    {
        proof {
            assert(all.take(i + 1).drop_last() =~= all.take(i as int));
            assert(all.take(i + 1).last() == ranges@[i as int]@);
        }
        add_range_relations(m, found, section_html, &ranges[i], language, config);
        i += 1;
    }
    assert(all.take(i as int) =~= all);
}

/// Whether the relation at place `j` is one that the configuration lets
/// through: its language passes the allowlist; its order is the number of
/// relations of its kind and language before it, and is below the cap;
/// its confidence is its score and is not below the threshold.
pub open spec fn relation_in_order(
    relations: Seq<RelationView>,
    j: int,
    allowlist: Seq<Seq<char>>,
    config: &ExtractionConfig,
) -> bool {
    &&& language_allowed(relations[j].language, allowlist)
    &&& relations[j].order_in_type == relations_of_kind(
        relations.take(j),
        relations[j].language,
        relations[j].relation_type,
    )
    &&& relations[j].order_in_type < config.max_relations_per_type
    &&& relations[j].confidence >= config.confidence_threshold
    &&& relations[j].confidence == relation_confidence(
        relations[j].target_term,
        relations[j].normalized_target,
    )
}

/// Whether every relation is in order.
pub open spec fn relations_in_order(
    relations: Seq<RelationView>,
    allowlist: Seq<Seq<char>>,
    config: &ExtractionConfig,
) -> bool {
    forall|j: int| 0 <= j < relations.len() ==> relation_in_order(relations, j, allowlist, config)
}

/// Adding the relations of a sentence keeps the relations in order.
pub proof fn lemma_terms_keep_order(
    found: Seq<RelationView>,
    terms: Seq<Seq<char>>,
    source: Seq<char>,
    language: Seq<char>,
    relation_type: Seq<char>,
    allowlist: Seq<Seq<char>>,
    config: &ExtractionConfig,
)
    requires
        relations_in_order(found, allowlist, config),
        language_allowed(language, allowlist),
    ensures
        relations_in_order(
            relations_with_terms(found, terms, source, language, relation_type, config),
            allowlist,
            config,
        ),
    decreases terms.len(),
{
    if terms.len() > 0 {
        let before = relations_with_terms(
            found,
            terms.drop_last(),
            source,
            language,
            relation_type,
            config,
        );
        let all = relations_with_terms(found, terms, source, language, relation_type, config);
        lemma_terms_keep_order(
            found,
            terms.drop_last(),
            source,
            language,
            relation_type,
            allowlist,
            config,
        );
        crate::scoring::lemma_confidence_in_range(
            terms.last(),
            language_form(language, terms.last(), config),
        );
        lemma_kind_count_grows(before, before.len() as int, language, relation_type);
        assert forall|j: int| 0 <= j < all.len() implies relation_in_order(
            all,
            j,
            allowlist,
            config,
        ) by {
            if j < before.len() {
                assert(relation_in_order(before, j, allowlist, config));
                assert(all[j] == before[j]);
                assert(all.take(j) =~= before.take(j));
            } else {
                assert(all.take(j) =~= before);
            }
        }
    }
}

/// Adding the relations of a sub-section's list items keeps the relations
/// in order.
pub proof fn lemma_items_keep_order(
    found: Seq<RelationView>,
    items: Seq<ListItemView>,
    language: Seq<char>,
    relation_type: Seq<char>,
    allowlist: Seq<Seq<char>>,
    config: &ExtractionConfig,
)
    requires
        relations_in_order(found, allowlist, config),
        language_allowed(language, allowlist),
    ensures
        relations_in_order(
            relations_with_items(found, items, language, relation_type, config),
            allowlist,
            config,
        ),
    decreases items.len(),
{
    if items.len() > 0 {
        let before = relations_with_items(found, items.drop_last(), language, relation_type, config);
        let source = normalized_text(items.last().raw_html);
        lemma_items_keep_order(found, items.drop_last(), language, relation_type, allowlist, config);
        lemma_terms_keep_order(
            before,
            relation_terms_of(source),
            source,
            language,
            relation_type,
            allowlist,
            config,
        );
    }
}

/// Adding the relations of a section's sub-sections keeps the relations
/// in order.
pub proof fn lemma_ranges_keep_order(
    found: Seq<RelationView>,
    section_html: Seq<char>,
    ranges: Seq<RangeView>,
    language: Seq<char>,
    allowlist: Seq<Seq<char>>,
    config: &ExtractionConfig,
)
    requires
        relations_in_order(found, allowlist, config),
        language_allowed(language, allowlist),
    ensures
        relations_in_order(
            relations_with_ranges(found, section_html, ranges, language, config),
            allowlist,
            config,
        ),
    decreases ranges.len(),
{
    if ranges.len() > 0 {
        let before = relations_with_ranges(found, section_html, ranges.drop_last(), language, config);
        lemma_ranges_keep_order(
            found,
            section_html,
            ranges.drop_last(),
            language,
            allowlist,
            config,
        );
        if is_byte_range(section_html, ranges.last().start as int, ranges.last().end as int) {
            lemma_items_keep_order(
                before,
                list_items_of(
                    byte_slice(section_html, ranges.last().start as int, ranges.last().end as int),
                    config.nested_list_depth_limit as nat,
                ),
                language,
                ranges.last().relation_type,
                allowlist,
                config,
            );
        }
    }
}

/// Relations in order are no more of a kind in a language than the cap
/// allows.
pub proof fn lemma_ordered_relations_are_capped(
    relations: Seq<RelationView>,
    language: Seq<char>,
    relation_type: Seq<char>,
    allowlist: Seq<Seq<char>>,
    config: &ExtractionConfig,
)
    requires
        relations_in_order(relations, allowlist, config),
    ensures
        relations_of_kind(relations, language, relation_type) <= config.max_relations_per_type,
    decreases relations.len(),
{
    if relations.len() > 0 {
        let init = relations.drop_last();
        let last = relations.len() - 1;
        assert forall|j: int| 0 <= j < init.len() implies relation_in_order(
            init,
            j,
            allowlist,
            config,
        ) by {
            assert(relation_in_order(relations, j, allowlist, config));
            assert(init.take(j) =~= relations.take(j));
        }
        lemma_ordered_relations_are_capped(init, language, relation_type, allowlist, config);
        assert(relation_in_order(relations, last, allowlist, config));
        assert(relations.take(last) =~= init);
    }
}

/// Relations in order have unique keys: no two of one kind in one
/// language have the same order.
pub proof fn lemma_ordered_relations_are_unique(
    relations: Seq<RelationView>,
    i: int,
    j: int,
    allowlist: Seq<Seq<char>>,
    config: &ExtractionConfig,
)
    requires
        relations_in_order(relations, allowlist, config),
        0 <= i < j < relations.len(),
        relations[i].language == relations[j].language,
        relations[i].relation_type == relations[j].relation_type,
    ensures
        relations[i].order_in_type < relations[j].order_in_type,
{
    let language = relations[i].language;
    let kind = relations[i].relation_type;
    assert(relation_in_order(relations, i, allowlist, config));
    assert(relation_in_order(relations, j, allowlist, config));
    let upto = relations.take(j);
    assert(upto.take(i + 1) =~= relations.take(i + 1));
    lemma_kind_count_grows(upto, i + 1, language, kind);
    assert(relations.take(i + 1).drop_last() =~= relations.take(i));
    assert(relations.take(i + 1).last() == relations[i]);
}

} // verus!
