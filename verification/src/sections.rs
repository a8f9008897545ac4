//! Language sections: the part of a page under each level-2 heading, and
//! the scored definitions that its list items give.

use crate::config::ExtractionConfig;
use crate::extractor::{
    normalize_text, normalized_text, DefinitionView, ExtractedDefinition, ExtractedRelation,
    RelationView,
};
use crate::items::{
    extract_list_items, lemma_list_items_open_within_limit, list_items_of, opened_at_top_level,
    ListItemFragment, ListItemView,
};
use crate::normalization::{language_form, normalize_for_language};
use crate::patterns::{regex_is_match, Matchers, RELATION_LABEL_PATTERN};
use crate::relations::{
    add_section_relations, label_table, relation_ranges, relation_ranges_of,
    relations_with_ranges, RangeView, RelationRange,
};
use crate::scanner::{extract_headings, headings_of, tag_tokens_of, Heading, HeadingView};
use crate::scoring::{definition_confidence, score_definition};
use crate::text::{
    byte_len, byte_slice, char_len, is_byte_range, lowercase_of, same_text,
};
use vstd::prelude::*;

verus! {

/// Whether a language passes the allowlist: an empty list lets every
/// language pass, another one those it names, whatever the case of the
/// letters.
pub open spec fn language_allowed(language: Seq<char>, allowlist: Seq<Seq<char>>) -> bool {
    allowlist.len() == 0 || exists|i: int|
        0 <= i < allowlist.len() && lowercase_of(#[trigger] allowlist[i]) == lowercase_of(language)
}

/// Whether a language passes the allowlist.
pub fn is_language_allowed(language: &str, allowlist: &Vec<String>) -> (r: bool)
    ensures
        r == language_allowed(language@, allowlist.deep_view()),
{
    if allowlist.len() == 0 {
        return true;
    }
    let ghost all = allowlist.deep_view();
    let lowered = language.to_lowercase();
    let mut i: usize = 0;
    while i < allowlist.len()
        invariant
            i <= allowlist.len(),
            all == allowlist.deep_view(),
            lowered@ == lowercase_of(language@),
            forall|k: int| 0 <= k < i ==> lowercase_of(#[trigger] all[k]) != lowercase_of(language@),
        decreases allowlist.len() - i,
    {
        assert(all[i as int] == allowlist@[i as int]@);
        let entry = allowlist[i].as_str().to_lowercase();
        if same_text(entry.as_str(), lowered.as_str()) {
            return true;
        }
        i += 1;
    }
    false
}

/// Whether a list item lies within one of the relation sub-sections.
pub open spec fn inside_relation(item: ListItemView, ranges: Seq<RangeView>) -> bool {
    exists|i: int|
        0 <= i < ranges.len() && item.start >= (#[trigger] ranges[i]).start && item.end
            <= ranges[i].end
}

/// Whether a list item lies within one of the relation sub-sections.
pub fn is_inside_relation(item: &ListItemFragment, ranges: &Vec<RelationRange>) -> (r: bool)
    ensures
        r == inside_relation(item@, ranges.deep_view()),
{
    let ghost all = ranges.deep_view();
    let mut i: usize = 0;
    while i < ranges.len()
        invariant
            i <= ranges.len(),
            all == ranges.deep_view(),
            forall|k: int|
                0 <= k < i ==> !(item.start >= (#[trigger] all[k]).start && item.end <= all[k].end),
        decreases ranges.len() - i,
    {
        assert(all[i as int] == ranges@[i as int]@);
        if item.start >= ranges[i].start && item.end <= ranges[i].end {
            return true;
        }
        i += 1;
    }
    false
}

/// The definition that a list item gives at the given place. It gives
/// none where it lies in a relation sub-section, where its readable text
/// is shorter than the minimum or holds a relation label, or where its
/// confidence is below the threshold.
pub open spec fn definition_of_item(
    item: ListItemView,
    ranges: Seq<RangeView>,
    language: Seq<char>,
    order: usize,
    config: &ExtractionConfig,
) -> Option<DefinitionView> {
    let text = normalized_text(item.raw_html);
    let normalized = language_form(language, text, config);
    let confidence = definition_confidence(text, normalized);
    if inside_relation(item, ranges) || text.len() < config.min_definition_chars || regex_is_match(
        RELATION_LABEL_PATTERN@,
        text,
    ) || confidence < config.confidence_threshold {
        None
    } else {
        Some(
            DefinitionView {
                language,
                order_in_language: order,
                text,
                normalized_text: normalized,
                confidence: confidence as u32,
            },
        )
    }
}

/// The number of the given definitions that are in the language.
pub open spec fn definitions_in_language(
    definitions: Seq<DefinitionView>,
    language: Seq<char>,
) -> nat
    decreases definitions.len(),
{
    if definitions.len() == 0 {
        0
    } else {
        definitions_in_language(definitions.drop_last(), language) + if definitions.last().language
            == language {
            1nat
        } else {
            0nat
        }
    }
}

/// No more definitions are in a language than there are definitions, and
/// no fewer in a sequence than in its start.
pub proof fn lemma_language_count_grows(
    definitions: Seq<DefinitionView>,
    n: int,
    language: Seq<char>,
)
    requires
        0 <= n <= definitions.len(),
    ensures
        definitions_in_language(definitions.take(n), language) <= definitions_in_language(
            definitions,
            language,
        ) <= definitions.len(),
    decreases definitions.len(),
{
    if definitions.len() == 0 {
        assert(definitions.take(n) =~= definitions);
    } else if n == definitions.len() {
        assert(definitions.take(n) =~= definitions);
        lemma_language_count_grows(definitions.drop_last(), n - 1, language);
    } else {
        assert(definitions.drop_last().take(n) =~= definitions.take(n));
        lemma_language_count_grows(definitions.drop_last(), n, language);
    }
}

/// The definitions `found` so far on the page and those that the list
/// items of a language section add, in the order of the items. The order
/// of a definition is the number of definitions of its language before it
/// on the page, and none is added once that number has reached the cap.
pub open spec fn definitions_with_items(
    found: Seq<DefinitionView>,
    items: Seq<ListItemView>,
    ranges: Seq<RangeView>,
    language: Seq<char>,
    config: &ExtractionConfig,
) -> Seq<DefinitionView>
    decreases items.len(),
{
    if items.len() == 0 {
        found
    } else {
        let before = definitions_with_items(found, items.drop_last(), ranges, language, config);
        let placed = definitions_in_language(before, language);
        if placed >= config.max_definitions_per_language {
            before
        } else {
            match definition_of_item(items.last(), ranges, language, placed as usize, config) {
                Some(definition) => before.push(definition),
                None => before,
            }
        }
    }
}

/// The definition that a list item gives at the given place.
pub fn definition_from_item(
    m: &Matchers,
    item: &ListItemFragment,
    ranges: &Vec<RelationRange>,
    language: &str,
    order: usize,
    config: &ExtractionConfig,
) -> (r: Option<ExtractedDefinition>)
    ensures
        r is Some == definition_of_item(item@, ranges.deep_view(), language@, order, config) is Some,
        r matches Some(d) ==> Some(d@) == definition_of_item(
            item@,
            ranges.deep_view(),
            language@,
            order,
            config,
        ),
{
    if is_inside_relation(item, ranges) {
        return None;
    }
    let text = normalize_text(m, item.raw_html.as_str());
    if char_len(text.as_str()) < config.min_definition_chars {
        return None;
    }
    if m.has_relation_label(text.as_str()) {
        return None;
    }
    let normalized = normalize_for_language(m, language, text.as_str(), config);
    let confidence = score_definition(m, text.as_str(), normalized.as_str());
    if confidence < config.confidence_threshold {
        return None;
    }
    Some(
        ExtractedDefinition {
            language: language.to_owned(),
            order_in_language: order,
            text,
            normalized_text: normalized,
            confidence,
        },
    )
}

/// The number of the definitions in `found` that are in the language.
pub fn count_in_language(found: &Vec<ExtractedDefinition>, language: &str) -> (n: usize)
    ensures
        n == definitions_in_language(found.deep_view(), language@),
        n <= found.len(),
{
    let ghost all = found.deep_view();
    let mut n: usize = 0;
    let mut i: usize = 0;
    assert(all.take(0) =~= Seq::empty());
    while i < found.len()
        invariant
            i <= found.len(),
            n <= i,
            all == found.deep_view(),
            n == definitions_in_language(all.take(i as int), language@),
        decreases found.len() - i,
    {
        proof {
            assert(all.take(i + 1).drop_last() =~= all.take(i as int));
            assert(all.take(i + 1).last() == found@[i as int]@);
        }
        if same_text(found[i].language.as_str(), language) {
            n += 1;
        }
        i += 1;
    }
    assert(all.take(i as int) =~= all);
    n
}

/// Adds to `found`, the definitions of the page so far, those that the
/// list items of a language section give.
pub fn add_section_definitions(
    m: &Matchers,
    found: &mut Vec<ExtractedDefinition>,
    items: &Vec<ListItemFragment>,
    ranges: &Vec<RelationRange>,
    language: &str,
    config: &ExtractionConfig,
)
    ensures
        final(found).deep_view() == definitions_with_items(
            old(found).deep_view(),
            items.deep_view(),
            ranges.deep_view(),
            language@,
            config,
        ),
{
    let ghost start = found.deep_view();
    let ghost all = items.deep_view();
    let mut placed = count_in_language(found, language);
    let mut i: usize = 0;
    assert(all.take(0) =~= Seq::empty());
    while i < items.len()
        invariant
            i <= items.len(),
            all == items.deep_view(),
            placed <= found.len(),
            placed == definitions_in_language(found.deep_view(), language@),
            found.deep_view() == definitions_with_items(
                start,
                all.take(i as int),
                ranges.deep_view(),
                language@,
                config,
            ),
        decreases items.len() - i,
    {
        let ghost before = found.deep_view();
        proof {
            assert(all.take(i + 1).drop_last() =~= all.take(i as int));
            assert(all.take(i + 1).last() == items@[i as int]@);
        }
        if placed < config.max_definitions_per_language {
            match definition_from_item(m, &items[i], ranges, language, placed, config) {
                Some(definition) => {
                    found.push(definition);
                    proof {
                        assert(found.deep_view() =~= before.push(definition@));
                        assert(before.push(definition@).drop_last() =~= before);
                    }
                    placed += 1;
                },
                None => {},
            }
        }
        i += 1;
    }
    assert(all.take(i as int) =~= all);
}

/// The relation sub-sections of a language section: those that its
/// headings of level 3 to 5 open, none where relations are not parsed.
pub open spec fn section_ranges(section_html: Seq<char>, config: &ExtractionConfig) -> Seq<
    RangeView,
> {
    if config.parse_relations {
        relation_ranges_of(
            headings_of(section_html, 3, 5),
            byte_len(section_html) as usize,
            label_table(config.relation_types.deep_view()),
        )
    } else {
        seq![]
    }
}

/// The definitions `found` so far on the page and those that a language
/// section adds.
pub open spec fn definitions_with_section(
    found: Seq<DefinitionView>,
    section_html: Seq<char>,
    language: Seq<char>,
    config: &ExtractionConfig,
) -> Seq<DefinitionView> {
    definitions_with_items(
        found,
        list_items_of(section_html, config.nested_list_depth_limit as nat),
        section_ranges(section_html, config),
        language,
        config,
    )
}

/// The relations `found` so far on the page and those that a language
/// section adds.
pub open spec fn relations_with_section(
    found: Seq<RelationView>,
    section_html: Seq<char>,
    language: Seq<char>,
    config: &ExtractionConfig,
) -> Seq<RelationView> {
    relations_with_ranges(found, section_html, section_ranges(section_html, config), language, config)
}

/// Adds the definitions and relations of one language section to those
/// of the page so far. `table` is the label table of the configured
/// relation kinds.
pub fn extract_section(
    m: &Matchers,
    definitions: &mut Vec<ExtractedDefinition>,
    relations: &mut Vec<ExtractedRelation>,
    section_html: &str,
    language: &str,
    table: &Vec<(String, String)>,
    config: &ExtractionConfig,
)
    requires
        table.deep_view() == label_table(config.relation_types.deep_view()),
    ensures
        final(definitions).deep_view() == definitions_with_section(
            old(definitions).deep_view(),
            section_html@,
            language@,
            config,
        ),
        final(relations).deep_view() == relations_with_section(
            old(relations).deep_view(),
            section_html@,
            language@,
            config,
        ),
{
    let ranges = if config.parse_relations {
        let headings = extract_headings(m, section_html, 3, 5);
        relation_ranges(m, &headings, section_html.as_bytes().len(), table)
    } else {
        let none: Vec<RelationRange> = Vec::new();
        assert(none.deep_view() =~= Seq::empty());
        none
    };
    let items = extract_list_items(m, section_html, config.nested_list_depth_limit);
    add_section_definitions(m, definitions, &items, &ranges, language, config);
    add_section_relations(m, relations, section_html, &ranges, language, config);
}

/// A language section of a page: its language and its HTML.
pub struct SectionView {
    pub language: Seq<char>,
    pub html: Seq<char>,
}

/// Where the section of the language heading at `i` ends: at the start of
/// the next language heading, or at the end of the page.
pub open spec fn section_end(html: Seq<char>, headings: Seq<HeadingView>, i: int) -> int {
    if i + 1 < headings.len() {
        headings[i + 1].start as int
    } else {
        byte_len(html) as int
    }
}

/// The section of the language heading at `i`. There is none where the
/// heading has no readable title, where its language does not pass the
/// allowlist, or where what follows it up to the next language heading is
/// not a byte range of one byte or more between code points of the page.
pub open spec fn section_at(
    html: Seq<char>,
    headings: Seq<HeadingView>,
    i: int,
    allowlist: Seq<Seq<char>>,
) -> Option<SectionView> {
    let language = normalized_text(headings[i].title);
    let end = section_end(html, headings, i);
    if language.len() == 0 || !language_allowed(language, allowlist) || headings[i].end >= end
        || !is_byte_range(html, headings[i].end as int, end) {
        None
    } else {
        Some(SectionView { language, html: byte_slice(html, headings[i].end as int, end) })
    }
}

/// The headings of level 2 among `headings`, in their order.
pub open spec fn level_two(headings: Seq<HeadingView>) -> Seq<HeadingView>
    decreases headings.len(),
{
    if headings.len() == 0 {
        seq![]
    } else if headings.last().level == 2 {
        level_two(headings.drop_last()).push(headings.last())
    } else {
        level_two(headings.drop_last())
    }
}

/// The language headings of a page: its headings of level 2.
pub open spec fn language_headings_of(html: Seq<char>) -> Seq<HeadingView> {
    level_two(headings_of(html, 2, 5))
}

/// The headings of level 2 among `headings`, in their order.
pub fn language_headings(headings: &Vec<Heading>) -> (out: Vec<Heading>)
    ensures
        out.deep_view() == level_two(headings.deep_view()),
{
    let ghost all = headings.deep_view();
    let mut out: Vec<Heading> = Vec::new();
    assert(out.deep_view() =~= Seq::empty());
    assert(all.take(0) =~= Seq::empty());
    let mut i: usize = 0;
    while i < headings.len()
        invariant
            i <= headings.len(),
            all == headings.deep_view(),
            out.deep_view() == level_two(all.take(i as int)),
        decreases headings.len() - i,
    {
        let ghost before = out.deep_view();
        proof {
            assert(all.take(i + 1).drop_last() =~= all.take(i as int));
            assert(all.take(i + 1).last() == headings@[i as int]@);
        }
        if headings[i].level == 2 {
            let heading = Heading {
                start: headings[i].start,
                end: headings[i].end,
                level: headings[i].level,
                title: headings[i].title.clone(),
            };
            out.push(heading);
            assert(out.deep_view() =~= before.push(heading@));
        }
        i += 1;
    }
    assert(all.take(i as int) =~= all);
    out
}

/// Whether the definition at place `j` is one that the configuration lets
/// through: its language passes the allowlist; its order is the number of
/// definitions of its language before it, and is below the cap; its
/// confidence is its score and is not below the threshold; its text is
/// no shorter than the minimum.
pub open spec fn definition_in_order(
    definitions: Seq<DefinitionView>,
    j: int,
    allowlist: Seq<Seq<char>>,
    config: &ExtractionConfig,
) -> bool {
    &&& language_allowed(definitions[j].language, allowlist)
    &&& definitions[j].order_in_language == definitions_in_language(
        definitions.take(j),
        definitions[j].language,
    )
    &&& definitions[j].order_in_language < config.max_definitions_per_language
    &&& definitions[j].confidence >= config.confidence_threshold
    &&& definitions[j].confidence == definition_confidence(
        definitions[j].text,
        definitions[j].normalized_text,
    )
    &&& definitions[j].text.len() >= config.min_definition_chars
}

/// Whether every definition is in order.
pub open spec fn definitions_in_order(
    definitions: Seq<DefinitionView>,
    allowlist: Seq<Seq<char>>,
    config: &ExtractionConfig,
) -> bool {
    forall|j: int|
        0 <= j < definitions.len() ==> definition_in_order(definitions, j, allowlist, config)
}

/// Adding the definitions of a section's list items keeps the definitions
/// in order, and keeps those that were there.
pub proof fn lemma_items_keep_definitions_in_order(
    found: Seq<DefinitionView>,
    items: Seq<ListItemView>,
    ranges: Seq<RangeView>,
    language: Seq<char>,
    allowlist: Seq<Seq<char>>,
    config: &ExtractionConfig,
)
    requires
        definitions_in_order(found, allowlist, config),
        language_allowed(language, allowlist),
    ensures
        definitions_in_order(
            definitions_with_items(found, items, ranges, language, config),
            allowlist,
            config,
        ),
    decreases items.len(),
{
    if items.len() > 0 {
        let before = definitions_with_items(found, items.drop_last(), ranges, language, config);
        let all = definitions_with_items(found, items, ranges, language, config);
        lemma_items_keep_definitions_in_order(
            found,
            items.drop_last(),
            ranges,
            language,
            allowlist,
            config,
        );
        crate::scoring::lemma_confidence_in_range(
            normalized_text(items.last().raw_html),
            language_form(language, normalized_text(items.last().raw_html), config),
        );
        lemma_language_count_grows(before, before.len() as int, language);
        assert forall|j: int| 0 <= j < all.len() implies definition_in_order(
            all,
            j,
            allowlist,
            config,
        ) by {
            if j < before.len() {
                assert(definition_in_order(before, j, allowlist, config));
                assert(all[j] == before[j]);
                assert(all.take(j) =~= before.take(j));
            } else {
                assert(all.take(j) =~= before);
            }
        }
    }
}

/// Definitions in order are no more in a language than the cap allows.
pub proof fn lemma_ordered_definitions_are_capped(
    definitions: Seq<DefinitionView>,
    language: Seq<char>,
    allowlist: Seq<Seq<char>>,
    config: &ExtractionConfig,
)
    requires
        definitions_in_order(definitions, allowlist, config),
    ensures
        definitions_in_language(definitions, language) <= config.max_definitions_per_language,
    decreases definitions.len(),
{
    if definitions.len() > 0 {
        let init = definitions.drop_last();
        let last = definitions.len() - 1;
        assert forall|j: int| 0 <= j < init.len() implies definition_in_order(
            init,
            j,
            allowlist,
            config,
        ) by {
            assert(definition_in_order(definitions, j, allowlist, config));
            assert(init.take(j) =~= definitions.take(j));
        }
        lemma_ordered_definitions_are_capped(init, language, allowlist, config);
        assert(definition_in_order(definitions, last, allowlist, config));
        assert(definitions.take(last) =~= init);
    }
}

/// Definitions in order have unique keys: of two in one language the
/// later has the greater order.
pub proof fn lemma_ordered_definitions_are_unique(
    definitions: Seq<DefinitionView>,
    i: int,
    j: int,
    allowlist: Seq<Seq<char>>,
    config: &ExtractionConfig,
)
    requires
        definitions_in_order(definitions, allowlist, config),
        0 <= i < j < definitions.len(),
        definitions[i].language == definitions[j].language,
    ensures
        definitions[i].order_in_language < definitions[j].order_in_language,
{
    let language = definitions[i].language;
    assert(definition_in_order(definitions, i, allowlist, config));
    assert(definition_in_order(definitions, j, allowlist, config));
    let upto = definitions.take(j);
    assert(upto.take(i + 1) =~= definitions.take(i + 1));
    lemma_language_count_grows(upto, i + 1, language);
    assert(definitions.take(i + 1).drop_last() =~= definitions.take(i));
    assert(definitions.take(i + 1).last() == definitions[i]);
}

/// The definitions that a section adds stand after those that were there,
/// and each is the readable text of one of the section's list items, and
/// of none that lies in a relation sub-section.
pub proof fn lemma_added_definitions_come_from_items(
    found: Seq<DefinitionView>,
    items: Seq<ListItemView>,
    ranges: Seq<RangeView>,
    language: Seq<char>,
    config: &ExtractionConfig,
)
    ensures
        found.len() <= definitions_with_items(found, items, ranges, language, config).len(),
        definitions_with_items(found, items, ranges, language, config).take(found.len() as int)
            == found,
        forall|j: int|
            found.len() <= j < definitions_with_items(found, items, ranges, language, config).len()
                ==> exists|k: int|
                0 <= k < items.len() && !inside_relation(items[k], ranges) && normalized_text(
                    items[k].raw_html,
                ) == (#[trigger] definitions_with_items(
                    found,
                    items,
                    ranges,
                    language,
                    config,
                )[j]).text,
    decreases items.len(),
{
    let all = definitions_with_items(found, items, ranges, language, config);
    if items.len() == 0 {
        assert(all.take(found.len() as int) =~= found);
    } else {
        let init = items.drop_last();
        let before = definitions_with_items(found, init, ranges, language, config);
        lemma_added_definitions_come_from_items(found, init, ranges, language, config);
        assert(all.take(found.len() as int) =~= before.take(found.len() as int));
        assert forall|j: int| found.len() <= j < all.len() implies exists|k: int|
            0 <= k < items.len() && !inside_relation(items[k], ranges) && normalized_text(
                items[k].raw_html,
            ) == (#[trigger] all[j]).text by {
            if j < before.len() {
                assert(all[j] == before[j]);
                let k = choose|k: int|
                    0 <= k < init.len() && !inside_relation(init[k], ranges) && normalized_text(
                        init[k].raw_html,
                    ) == before[j].text;
                assert(items[k] == init[k]);
            } else {
                let k = items.len() - 1;
                assert(normalized_text(items[k].raw_html) == all[j].text);
            }
        }
    }
}

/// Whether a text is the readable text of a list item of the section that
/// is an outermost item with no more lists open around it than the depth
/// limit allows.
pub open spec fn is_top_level_item_text(
    text: Seq<char>,
    section_html: Seq<char>,
    config: &ExtractionConfig,
) -> bool {
    exists|k: int|
        0 <= k < list_items_of(section_html, config.nested_list_depth_limit as nat).len()
            && normalized_text(
            (#[trigger] list_items_of(section_html, config.nested_list_depth_limit as nat)[k]).raw_html,
        ) == text && opened_at_top_level(
            tag_tokens_of(section_html),
            config.nested_list_depth_limit as nat,
            list_items_of(section_html, config.nested_list_depth_limit as nat)[k].start,
        )
}

/// Depth limiting: every definition that a section adds is the text of an
/// outermost list item with no more lists open around it than the limit
/// allows. What is nested in an item, or in lists deeper than the limit,
/// never becomes a definition of its own.
pub proof fn lemma_definitions_respect_depth_limit(
    found: Seq<DefinitionView>,
    section_html: Seq<char>,
    language: Seq<char>,
    config: &ExtractionConfig,
)
    ensures
        forall|j: int|
            found.len() <= j < definitions_with_section(found, section_html, language, config).len()
                ==> is_top_level_item_text(
                (#[trigger] definitions_with_section(found, section_html, language, config)[j]).text,
                section_html,
                config,
            ),
{
    let limit = config.nested_list_depth_limit as nat;
    let items = list_items_of(section_html, limit);
    let ranges = section_ranges(section_html, config);
    let definitions = definitions_with_section(found, section_html, language, config);
    lemma_added_definitions_come_from_items(found, items, ranges, language, config);
    lemma_list_items_open_within_limit(section_html, tag_tokens_of(section_html), limit);
    assert forall|j: int| found.len() <= j < definitions.len() implies is_top_level_item_text(
        (#[trigger] definitions[j]).text,
        section_html,
        config,
    ) by {
        let k = choose|k: int|
            0 <= k < items.len() && !inside_relation(items[k], ranges) && normalized_text(
                items[k].raw_html,
            ) == definitions[j].text;
        assert(opened_at_top_level(tag_tokens_of(section_html), limit, items[k].start));
    }
}

} // verus!
