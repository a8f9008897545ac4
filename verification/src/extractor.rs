//! The extraction engine: from the HTML of one page to its plain text, its
//! scored definitions and relations, and the aliases of its title.

use crate::config::ExtractionConfig;
use crate::items::list_items_of;
use crate::normalization::{
    alias_candidates, canonical_lemma, canonicalize_lemma, generate_aliases, optional_text,
    title_aliases,
};
use crate::ordered::{lemma_lex_irreflexive, lemma_sorted_set, strictly_sorted};
use crate::patterns::{
    regex_replace_all, Matchers, BRACKET_REF_PATTERN, MULTI_WS_PATTERN, NOISE_PATTERN, TAG_PATTERN,
};
use crate::relations::{
    build_label_table, label_table, lemma_ordered_relations_are_capped,
    lemma_ordered_relations_are_unique, lemma_ranges_keep_order, relation_in_order,
    relations_in_order, relations_of_kind,
};
use crate::scanner::{extract_headings, HeadingView};
use crate::sections::{
    definition_in_order, definitions_in_language, definitions_in_order, definitions_with_section,
    extract_section, is_language_allowed, is_top_level_item_text, language_allowed,
    language_headings, language_headings_of, lemma_added_definitions_come_from_items,
    lemma_definitions_respect_depth_limit, lemma_items_keep_definitions_in_order,
    lemma_ordered_definitions_are_capped, lemma_ordered_definitions_are_unique,
    relations_with_section, section_at, section_ranges,
};
use crate::text::{char_len, lex_less, slice_bytes, text_less, trim, trimmed};
use sha2::{Digest, Sha256};
use vstd::prelude::*;

verus! {

/// A string with its HTML entities decoded
/// (`html_escape::decode_html_entities`).
pub uninterp spec fn html_entities_decoded(s: Seq<char>) -> Seq<char>;

/// The SHA-256 digest of the UTF-8 bytes of a string, in lower-case
/// hexadecimal digits.
pub uninterp spec fn sha256_hex_of(s: Seq<char>) -> Seq<char>;

/// `html_escape::decode_html_entities`, as an owned string: the result is
/// a function of the input alone.
#[verifier::external_body]
fn decode_entities(text: &str) -> (out: String)
    ensures
        out@ == html_entities_decoded(text@),
{
    html_escape::decode_html_entities(text).into_owned()
}

/// The SHA-256 digest of `value` (`sha2::Sha256`: `new`, `update`,
/// `finalize`), in lower-case hexadecimal digits: a function of the input
/// alone.
#[verifier::external_body]
pub fn sha256_hex(value: &str) -> (out: String)
    ensures
        out@ == sha256_hex_of(value@),
{
    let mut hasher = Sha256::new();
    hasher.update(value.as_bytes());
    let output = hasher.finalize();
    format!("{output:x}")
}

/// The readable text of a fragment of HTML: noise elements, tags and
/// bracketed citation markers blanked in that order, entities decoded,
/// whitespace collapsed and trimmed.
pub open spec fn normalized_text(fragment: Seq<char>) -> Seq<char> {
    let without_noise = regex_replace_all(NOISE_PATTERN@, fragment, " "@);
    let without_tags = regex_replace_all(TAG_PATTERN@, without_noise, " "@);
    let without_refs = regex_replace_all(BRACKET_REF_PATTERN@, without_tags, " "@);
    let decoded = html_entities_decoded(without_refs);
    trimmed(regex_replace_all(MULTI_WS_PATTERN@, decoded, " "@))
}

/// The readable text of a fragment of HTML.
pub fn normalize_text(m: &Matchers, fragment: &str) -> (out: String)
    ensures
        out@ == normalized_text(fragment@),
{
    let without_noise = m.blank_noise(fragment);
    let without_tags = m.blank_tags(without_noise.as_str());
    let without_refs = m.blank_bracket_refs(without_tags.as_str());
    let decoded = decode_entities(without_refs.as_str());
    let squeezed = m.squeeze_whitespace(decoded.as_str());
    trim(squeezed.as_str()).to_owned()
}

/// The plain text of a page.
pub fn html_to_plain_text(m: &Matchers, html: &str) -> (out: String)
    ensures
        out@ == normalized_text(html@),
{
    normalize_text(m, html)
}

/// One definition of a page: its language, its place among the
/// definitions of that language section, the text as read and normalized,
/// and its confidence in millionths.
#[derive(Debug, Clone)]
pub struct ExtractedDefinition {
    pub language: String,
    pub order_in_language: usize,
    pub text: String,
    pub normalized_text: String,
    pub confidence: u32,
}

/// What an `ExtractedDefinition` holds.
pub struct DefinitionView {
    pub language: Seq<char>,
    pub order_in_language: usize,
    pub text: Seq<char>,
    pub normalized_text: Seq<char>,
    pub confidence: u32,
}

impl View for ExtractedDefinition {
    type V = DefinitionView;

    open spec fn view(&self) -> DefinitionView {
        DefinitionView {
            language: self.language@,
            order_in_language: self.order_in_language,
            text: self.text@,
            normalized_text: self.normalized_text@,
            confidence: self.confidence,
        }
    }
}

impl DeepView for ExtractedDefinition {
    type V = DefinitionView;

    open spec fn deep_view(&self) -> DefinitionView {
        self@
    }
}

/// One relation of a page: its language, its kind, its place among the
/// relations of that kind's section, the sentence it was read from, the
/// target term as read and normalized, and its confidence in millionths.
#[derive(Debug, Clone)]
pub struct ExtractedRelation {
    pub language: String,
    pub relation_type: String,
    pub order_in_type: usize,
    pub source_text: String,
    pub target_term: String,
    pub normalized_target: String,
    pub confidence: u32,
}

/// What an `ExtractedRelation` holds.
pub struct RelationView {
    pub language: Seq<char>,
    pub relation_type: Seq<char>,
    pub order_in_type: usize,
    pub source_text: Seq<char>,
    pub target_term: Seq<char>,
    pub normalized_target: Seq<char>,
    pub confidence: u32,
}

impl View for ExtractedRelation {
    type V = RelationView;

    open spec fn view(&self) -> RelationView {
        RelationView {
            language: self.language@,
            relation_type: self.relation_type@,
            order_in_type: self.order_in_type,
            source_text: self.source_text@,
            target_term: self.target_term@,
            normalized_target: self.normalized_target@,
            confidence: self.confidence,
        }
    }
}

impl DeepView for ExtractedRelation {
    type V = RelationView;

    open spec fn deep_view(&self) -> RelationView {
        self@
    }
}

/// One alias of a page: another way to write its lemma.
#[derive(Debug, Clone)]
pub struct ExtractedAlias {
    pub language: Option<String>,
    pub alias: String,
    pub normalized_alias: String,
    pub source: String,
}

/// What an `ExtractedAlias` holds.
pub struct AliasView {
    pub language: Option<Seq<char>>,
    pub alias: Seq<char>,
    pub normalized_alias: Seq<char>,
    pub source: Seq<char>,
}

impl View for ExtractedAlias {
    type V = AliasView;

    open spec fn view(&self) -> AliasView {
        AliasView {
            language: match self.language {
                Some(language) => Some(language@),
                None => None,
            },
            alias: self.alias@,
            normalized_alias: self.normalized_alias@,
            source: self.source@,
        }
    }
}

impl DeepView for ExtractedAlias {
    type V = AliasView;

    open spec fn deep_view(&self) -> AliasView {
        self@
    }
}

/// The definitions of the sections of the first `n` language headings of
/// a page, in document order.
pub open spec fn page_definitions(
    html: Seq<char>,
    headings: Seq<HeadingView>,
    n: nat,
    config: &ExtractionConfig,
) -> Seq<DefinitionView>
    decreases n,
{
    if n == 0 {
        seq![]
    } else {
        let before = page_definitions(html, headings, (n - 1) as nat, config);
        match section_at(html, headings, n - 1, config.language_allowlist.deep_view()) {
            Some(section) => definitions_with_section(
                before,
                section.html,
                section.language,
                config,
            ),
            None => before,
        }
    }
}

/// The relations of the sections of the first `n` language headings of a
/// page, in document order.
pub open spec fn page_relations(
    html: Seq<char>,
    headings: Seq<HeadingView>,
    n: nat,
    config: &ExtractionConfig,
) -> Seq<RelationView>
    decreases n,
{
    if n == 0 {
        seq![]
    } else {
        let before = page_relations(html, headings, (n - 1) as nat, config);
        match section_at(html, headings, n - 1, config.language_allowlist.deep_view()) {
            Some(section) => relations_with_section(
                before,
                section.html,
                section.language,
                config,
            ),
            None => before,
        }
    }
}

/// The first language, in the order of strings, among those of the given
/// definitions.
pub open spec fn primary_language(definitions: Seq<DefinitionView>) -> Option<Seq<char>>
    decreases definitions.len(),
{
    if definitions.len() == 0 {
        None
    } else {
        match primary_language(definitions.drop_last()) {
            Some(best) => if lex_less(definitions.last().language, best) {
                Some(definitions.last().language)
            } else {
                Some(best)
            },
            None => Some(definitions.last().language),
        }
    }
}

/// The sum of the confidences of the given definitions.
pub open spec fn definitions_total(definitions: Seq<DefinitionView>) -> nat
    decreases definitions.len(),
{
    if definitions.len() == 0 {
        0
    } else {
        definitions_total(definitions.drop_last()) + definitions.last().confidence as nat
    }
}

/// The sum of the confidences of the given relations.
pub open spec fn relations_total(relations: Seq<RelationView>) -> nat
    decreases relations.len(),
{
    if relations.len() == 0 {
        0
    } else {
        relations_total(relations.drop_last()) + relations.last().confidence as nat
    }
}

/// The mean of the confidences of the given definitions and relations,
/// rounded down to a millionth; 0 where there are none.
pub open spec fn mean_confidence(
    definitions: Seq<DefinitionView>,
    relations: Seq<RelationView>,
) -> nat {
    if definitions.len() + relations.len() == 0 {
        0
    } else {
        (definitions_total(definitions) + relations_total(relations)) / (definitions.len()
            + relations.len())
    }
}

/// The aliases that the given ways to write a title give: each with its
/// canonical form, those left out whose canonical form is shorter than
/// `min_length` characters.
pub open spec fn aliases_from(names: Seq<Seq<char>>, language: Option<Seq<char>>, min_length: usize) -> Seq<
    AliasView,
>
    decreases names.len(),
{
    if names.len() == 0 {
        seq![]
    } else {
        let before = aliases_from(names.drop_last(), language, min_length);
        if canonical_lemma(names.last()).len() < min_length {
            before
        } else {
            before.push(
                AliasView {
                    language,
                    alias: names.last(),
                    normalized_alias: canonical_lemma(names.last()),
                    source: "title"@,
                },
            )
        }
    }
}

/// The aliases of a page with the given title and primary language; none
/// where the title is not to be taken as an alias.
pub open spec fn page_aliases(
    title: Seq<char>,
    language: Option<Seq<char>>,
    config: &ExtractionConfig,
) -> Seq<AliasView> {
    if config.include_title_as_alias {
        aliases_from(title_aliases(title, language, config), language, config.alias_min_length)
    } else {
        seq![]
    }
}

/// What the engine reads from one page.
#[derive(Debug, Clone)]
pub struct HtmlExtraction {
    pub plain_text: Option<String>,
    /// The mean confidence of what was extracted, in millionths.
    pub extraction_confidence: u32,
    pub definitions: Vec<ExtractedDefinition>,
    pub relations: Vec<ExtractedRelation>,
    pub aliases: Vec<ExtractedAlias>,
}

/// What an `HtmlExtraction` holds.
pub struct ExtractionView {
    pub plain_text: Option<Seq<char>>,
    pub extraction_confidence: u32,
    pub definitions: Seq<DefinitionView>,
    pub relations: Seq<RelationView>,
    pub aliases: Seq<AliasView>,
}

impl View for HtmlExtraction {
    type V = ExtractionView;

    open spec fn view(&self) -> ExtractionView {
        ExtractionView {
            plain_text: match self.plain_text {
                Some(text) => Some(text@),
                None => None,
            },
            extraction_confidence: self.extraction_confidence,
            definitions: self.definitions.deep_view(),
            relations: self.relations.deep_view(),
            aliases: self.aliases.deep_view(),
        }
    }
}

/// The definitions of a page: those of its language sections; none where
/// language sections are not parsed.
pub open spec fn definitions_of(html: Seq<char>, config: &ExtractionConfig) -> Seq<DefinitionView> {
    if config.parse_language_sections {
        page_definitions(
            html,
            language_headings_of(html),
            language_headings_of(html).len(),
            config,
        )
    } else {
        seq![]
    }
}

/// The relations of a page: those of its language sections; none where
/// language sections are not parsed.
pub open spec fn relations_of(html: Seq<char>, config: &ExtractionConfig) -> Seq<RelationView> {
    if config.parse_language_sections {
        page_relations(html, language_headings_of(html), language_headings_of(html).len(), config)
    } else {
        seq![]
    }
}

/// What the engine reads from the page with the given title and HTML.
pub open spec fn extraction_of(
    title: Seq<char>,
    html: Seq<char>,
    config: &ExtractionConfig,
) -> ExtractionView {
    ExtractionView {
        plain_text: if config.store_plain_text {
            Some(normalized_text(html))
        } else {
            None
        },
        extraction_confidence: mean_confidence(
            definitions_of(html, config),
            relations_of(html, config),
        ) as u32,
        definitions: definitions_of(html, config),
        relations: relations_of(html, config),
        aliases: page_aliases(title, primary_language(definitions_of(html, config)), config),
    }
}

/// The first language, in the order of strings, among those of the given
/// definitions.
pub fn find_primary_language(definitions: &Vec<ExtractedDefinition>) -> (r: Option<String>)
    ensures
        r is Some == primary_language(definitions.deep_view()) is Some,
        r matches Some(language) ==> Some(language@) == primary_language(definitions.deep_view()),
{
    let ghost all = definitions.deep_view();
    let mut best: Option<usize> = None;
    let mut i: usize = 0;
    assert(all.take(0) =~= Seq::empty());
    while i < definitions.len()
        invariant
            i <= definitions.len(),
            all == definitions.deep_view(),
            match best {
                Some(at) => at < i && primary_language(all.take(i as int)) == Some(
                    all[at as int].language,
                ),
                None => primary_language(all.take(i as int)) is None,
            },
        decreases definitions.len() - i,
    {
        proof {
            assert(all.take(i + 1).drop_last() =~= all.take(i as int));
            assert(all.take(i + 1).last() == definitions@[i as int]@);
        }
        match best {
            Some(at) => {
                assert(all[at as int] == definitions@[at as int]@);
                if text_less(definitions[i].language.as_str(), definitions[at].language.as_str()) {
                    best = Some(i);
                }
            },
            None => {
                best = Some(i);
            },
        }
        i += 1;
    }
    assert(all.take(i as int) =~= all);
    match best {
        Some(at) => {
            assert(all[at as int] == definitions@[at as int]@);
            Some(definitions[at].language.clone())
        },
        None => None,
    }
}

/// The mean of the confidences of the given definitions and relations,
/// rounded down to a millionth; 0 where there are none.
pub fn average_confidence(
    definitions: &Vec<ExtractedDefinition>,
    relations: &Vec<ExtractedRelation>,
) -> (r: u32)
    ensures
        r == mean_confidence(definitions.deep_view(), relations.deep_view()),
{
    let ghost defs = definitions.deep_view();
    let ghost rels = relations.deep_view();
    let mut total: u128 = 0;
    let mut i: usize = 0;
    assert(defs.take(0) =~= Seq::empty());
    while i < definitions.len()
        invariant
            i <= definitions.len(),
            defs == definitions.deep_view(),
            total == definitions_total(defs.take(i as int)),
            total <= i * 0xFFFF_FFFF,
        decreases definitions.len() - i,
    {
        proof {
            assert(defs.take(i + 1).drop_last() =~= defs.take(i as int));
            assert(defs.take(i + 1).last() == definitions@[i as int]@);
            assert(i * 0xFFFF_FFFF + 0xFFFF_FFFF <= 0xFFFF_FFFF_FFFF_FFFF * 0x1_0000_0000)
                by (nonlinear_arith)
                requires
                    i <= 0xFFFF_FFFF_FFFF_FFFF,
            ;
            assert((i + 1) * 0xFFFF_FFFF == i * 0xFFFF_FFFF + 0xFFFF_FFFF) by (nonlinear_arith);
        }
        total = total + definitions[i].confidence as u128;
        i += 1;
    }
    assert(defs.take(i as int) =~= defs);
    let ghost from_definitions = total;
    let mut j: usize = 0;
    assert(rels.take(0) =~= Seq::empty());
    while j < relations.len()
        invariant
            j <= relations.len(),
            i == definitions.len(),
            rels == relations.deep_view(),
            total == from_definitions + relations_total(rels.take(j as int)),
            total <= (i + j) * 0xFFFF_FFFF,
        decreases relations.len() - j,
    {
        proof {
            assert(rels.take(j + 1).drop_last() =~= rels.take(j as int));
            assert(rels.take(j + 1).last() == relations@[j as int]@);
            assert((i + j) * 0xFFFF_FFFF + 0xFFFF_FFFF <= 0x2_0000_0000_0000_0000 * 0x1_0000_0000)
                by (nonlinear_arith)
                requires
                    i <= 0xFFFF_FFFF_FFFF_FFFF,
                    j <= 0xFFFF_FFFF_FFFF_FFFF,
            ;
            assert((i + j + 1) * 0xFFFF_FFFF == (i + j) * 0xFFFF_FFFF + 0xFFFF_FFFF)
                by (nonlinear_arith);
        }
        total = total + relations[j].confidence as u128;
        j += 1;
    }
    assert(rels.take(j as int) =~= rels);
    let count: u128 = definitions.len() as u128 + relations.len() as u128;
    if count == 0 {
        0
    } else {
        proof {
            assert(total / count <= 0xFFFF_FFFF) by (nonlinear_arith)
                requires
                    count > 0,
                    total <= count * 0xFFFF_FFFF,
            ;
        }
        (total / count) as u32
    }
}

/// The aliases of a page with the given title and primary language.
pub fn build_aliases(
    m: &Matchers,
    title: &str,
    primary_language: Option<&str>,
    config: &ExtractionConfig,
) -> (out: Vec<ExtractedAlias>)
    ensures
        out.deep_view() == aliases_from(
            title_aliases(title@, optional_text(primary_language), config),
            optional_text(primary_language),
            config.alias_min_length,
        ),
{
    let names = generate_aliases(m, title, primary_language, config);
    let ghost all = names.deep_view();
    let ghost language = optional_text(primary_language);
    let mut out: Vec<ExtractedAlias> = Vec::new();
    let mut i: usize = 0;
    assert(all.take(0) =~= Seq::empty());
    assert(out.deep_view() =~= Seq::empty());
    while i < names.len()
        invariant
            i <= names.len(),
            all == names.deep_view(),
            language == optional_text(primary_language),
            out.deep_view() == aliases_from(all.take(i as int), language, config.alias_min_length),
        decreases names.len() - i,
    {
        let ghost before = out.deep_view();
        proof {
            assert(all.take(i + 1).drop_last() =~= all.take(i as int));
            assert(all.take(i + 1).last() == names@[i as int]@);
        }
        let normalized_alias = canonicalize_lemma(m, names[i].as_str());
        if char_len(normalized_alias.as_str()) >= config.alias_min_length {
            let alias = ExtractedAlias {
                language: match primary_language {
                    Some(language) => Some(language.to_owned()),
                    None => None,
                },
                alias: names[i].clone(),
                normalized_alias,
                source: "title".to_owned(),
            };
            out.push(alias);
            assert(out.deep_view() =~= before.push(alias@));
        }
        i += 1;
    }
    assert(all.take(i as int) =~= all);
    out
}

/// Reads one page: its plain text where it is to be stored, the
/// definitions and relations of its language sections, their mean
/// confidence, and the aliases of its title.
pub fn extract_from_html(m: &Matchers, title: &str, html: &str, config: &ExtractionConfig) -> (out:
    HtmlExtraction)
    ensures
        out@ == extraction_of(title@, html@, config),
{
    let plain_text = if config.store_plain_text {
        Some(html_to_plain_text(m, html))
    } else {
        None
    };
    let mut definitions: Vec<ExtractedDefinition> = Vec::new();
    let mut relations: Vec<ExtractedRelation> = Vec::new();
    assert(definitions.deep_view() =~= Seq::empty());
    assert(relations.deep_view() =~= Seq::empty());
    if config.parse_language_sections {
        let headings = extract_headings(m, html, 2, 5);
        let languages = language_headings(&headings);
        let table = build_label_table(m, &config.relation_types);
        let ghost all = languages.deep_view();
        let mut i: usize = 0;
        while i < languages.len()
            invariant
                i <= languages.len(),
                all == languages.deep_view(),
                all == language_headings_of(html@),
                table.deep_view() == label_table(config.relation_types.deep_view()),
                definitions.deep_view() == page_definitions(html@, all, i as nat, config),
                relations.deep_view() == page_relations(html@, all, i as nat, config),
            decreases languages.len() - i,
        {
            proof {
                assert(all[i as int] == languages@[i as int]@);
                if i + 1 < languages.len() {
                    assert(all[i + 1] == languages@[i + 1]@);
                }
            }
            let language = normalize_text(m, languages[i].title.as_str());
            let end = if i + 1 < languages.len() {
                languages[i + 1].start
            } else {
                html.as_bytes().len()
            };
            if char_len(language.as_str()) > 0 && is_language_allowed(
                language.as_str(),
                &config.language_allowlist,
            ) && languages[i].end < end {
                match slice_bytes(html, languages[i].end, end) {
                    Some(section_html) => {
                        extract_section(
                            m,
                            &mut definitions,
                            &mut relations,
                            section_html,
                            language.as_str(),
                            &table,
                            config,
                        );
                    },
                    None => {},
                }
            }
            i += 1;
        }
    }
    let aliases = if config.include_title_as_alias {
        match find_primary_language(&definitions) {
            Some(language) => build_aliases(m, title, Some(language.as_str()), config),
            None => build_aliases(m, title, None, config),
        }
    } else {
        let none: Vec<ExtractedAlias> = Vec::new();
        assert(none.deep_view() =~= Seq::empty());
        none
    };
    let extraction_confidence = average_confidence(&definitions, &relations);
    HtmlExtraction { plain_text, extraction_confidence, definitions, relations, aliases }
}

/// The definitions of the sections of a page are in order.
pub proof fn lemma_page_definitions_in_order(
    html: Seq<char>,
    headings: Seq<HeadingView>,
    n: nat,
    config: &ExtractionConfig,
)
    ensures
        definitions_in_order(
            page_definitions(html, headings, n, config),
            config.language_allowlist.deep_view(),
            config,
        ),
    decreases n,
{
    if n > 0 {
        let before = page_definitions(html, headings, (n - 1) as nat, config);
        lemma_page_definitions_in_order(html, headings, (n - 1) as nat, config);
        match section_at(html, headings, n - 1, config.language_allowlist.deep_view()) {
            Some(section) => {
                lemma_items_keep_definitions_in_order(
                    before,
                    list_items_of(section.html, config.nested_list_depth_limit as nat),
                    section_ranges(section.html, config),
                    section.language,
                    config.language_allowlist.deep_view(),
                    config,
                );
            },
            None => {},
        }
    }
}

/// The relations of the sections of a page are in order.
pub proof fn lemma_page_relations_in_order(
    html: Seq<char>,
    headings: Seq<HeadingView>,
    n: nat,
    config: &ExtractionConfig,
)
    ensures
        relations_in_order(
            page_relations(html, headings, n, config),
            config.language_allowlist.deep_view(),
            config,
        ),
    decreases n,
{
    if n > 0 {
        let before = page_relations(html, headings, (n - 1) as nat, config);
        lemma_page_relations_in_order(html, headings, (n - 1) as nat, config);
        match section_at(html, headings, n - 1, config.language_allowlist.deep_view()) {
            Some(section) => {
                lemma_ranges_keep_order(
                    before,
                    section.html,
                    section_ranges(section.html, config),
                    section.language,
                    config.language_allowlist.deep_view(),
                    config,
                );
            },
            None => {},
        }
    }
}

/// What is read from a page is in order: every definition and every
/// relation has a language that passes the allowlist, an order that is
/// its place among those of its language (and kind) on the page and is
/// below the cap, and a confidence that is its score and is not below the
/// threshold.
pub proof fn lemma_extraction_in_order(title: Seq<char>, html: Seq<char>, config: &ExtractionConfig)
    ensures
        definitions_in_order(
            extraction_of(title, html, config).definitions,
            config.language_allowlist.deep_view(),
            config,
        ),
        relations_in_order(
            extraction_of(title, html, config).relations,
            config.language_allowlist.deep_view(),
            config,
        ),
{
    let headings = language_headings_of(html);
    lemma_page_definitions_in_order(html, headings, headings.len(), config);
    lemma_page_relations_in_order(html, headings, headings.len(), config);
}

/// Cap enforcement: a page gives no language more definitions than the
/// cap on definitions of one language allows, and no kind in a language
/// more relations than the cap on relations of one kind allows.
pub proof fn lemma_caps_hold(
    title: Seq<char>,
    html: Seq<char>,
    language: Seq<char>,
    relation_type: Seq<char>,
    config: &ExtractionConfig,
)
    ensures
        definitions_in_language(extraction_of(title, html, config).definitions, language)
            <= config.max_definitions_per_language,
        relations_of_kind(extraction_of(title, html, config).relations, language, relation_type)
            <= config.max_relations_per_type,
{
    let extraction = extraction_of(title, html, config);
    lemma_extraction_in_order(title, html, config);
    lemma_ordered_definitions_are_capped(
        extraction.definitions,
        language,
        config.language_allowlist.deep_view(),
        config,
    );
    lemma_ordered_relations_are_capped(
        extraction.relations,
        language,
        relation_type,
        config.language_allowlist.deep_view(),
        config,
    );
}

/// Uniqueness of keys: no two definitions of a page have the same
/// language and order, and no two relations the same language, kind and
/// order; of two with the same language (and kind) the later has the
/// greater order.
pub proof fn lemma_keys_are_unique(title: Seq<char>, html: Seq<char>, config: &ExtractionConfig)
    ensures
        forall|i: int, j: int|
            0 <= i < j < extraction_of(title, html, config).definitions.len() && (
            #[trigger] extraction_of(title, html, config).definitions[i]).language == (
            #[trigger] extraction_of(title, html, config).definitions[j]).language
                ==> extraction_of(title, html, config).definitions[i].order_in_language
                < extraction_of(title, html, config).definitions[j].order_in_language,
        forall|i: int, j: int|
            0 <= i < j < extraction_of(title, html, config).relations.len() && (
            #[trigger] extraction_of(title, html, config).relations[i]).language == (
            #[trigger] extraction_of(title, html, config).relations[j]).language
                && extraction_of(title, html, config).relations[i].relation_type
                == extraction_of(title, html, config).relations[j].relation_type
                ==> extraction_of(title, html, config).relations[i].order_in_type
                < extraction_of(title, html, config).relations[j].order_in_type,
{
    let definitions = extraction_of(title, html, config).definitions;
    let relations = extraction_of(title, html, config).relations;
    let allowlist = config.language_allowlist.deep_view();
    lemma_extraction_in_order(title, html, config);
    assert forall|i: int, j: int|
        0 <= i < j < definitions.len() && (#[trigger] definitions[i]).language == (
        #[trigger] definitions[j]).language implies definitions[i].order_in_language
        < definitions[j].order_in_language by {
        lemma_ordered_definitions_are_unique(definitions, i, j, allowlist, config);
    }
    assert forall|i: int, j: int|
        0 <= i < j < relations.len() && (#[trigger] relations[i]).language == (
        #[trigger] relations[j]).language && relations[i].relation_type
            == relations[j].relation_type implies relations[i].order_in_type
        < relations[j].order_in_type by {
        lemma_ordered_relations_are_unique(relations, i, j, allowlist, config);
    }
}

/// Cap enforcement: no definition read from a page has an order at or
/// above the cap on definitions of one language, and no relation an order
/// at or above the cap on relations of one kind.
pub proof fn lemma_orders_below_caps(title: Seq<char>, html: Seq<char>, config: &ExtractionConfig)
    ensures
        forall|j: int|
            0 <= j < extraction_of(title, html, config).definitions.len() ==> (
            #[trigger] extraction_of(title, html, config).definitions[j]).order_in_language
                < config.max_definitions_per_language,
        forall|j: int|
            0 <= j < extraction_of(title, html, config).relations.len() ==> (
            #[trigger] extraction_of(title, html, config).relations[j]).order_in_type
                < config.max_relations_per_type,
{
    let definitions = extraction_of(title, html, config).definitions;
    let relations = extraction_of(title, html, config).relations;
    let allowlist = config.language_allowlist.deep_view();
    lemma_extraction_in_order(title, html, config);
    assert forall|j: int| 0 <= j < definitions.len() implies (
    #[trigger] definitions[j]).order_in_language < config.max_definitions_per_language by {
        assert(definition_in_order(definitions, j, allowlist, config));
    }
    assert forall|j: int| 0 <= j < relations.len() implies (#[trigger] relations[j]).order_in_type
        < config.max_relations_per_type by {
        assert(relation_in_order(relations, j, allowlist, config));
    }
}

/// Allowlist filtering: every definition and every relation read from a
/// page is in a language that passes the allowlist.
pub proof fn lemma_languages_pass_allowlist(
    title: Seq<char>,
    html: Seq<char>,
    config: &ExtractionConfig,
)
    ensures
        forall|j: int|
            0 <= j < extraction_of(title, html, config).definitions.len() ==> language_allowed(
                (#[trigger] extraction_of(title, html, config).definitions[j]).language,
                config.language_allowlist.deep_view(),
            ),
        forall|j: int|
            0 <= j < extraction_of(title, html, config).relations.len() ==> language_allowed(
                (#[trigger] extraction_of(title, html, config).relations[j]).language,
                config.language_allowlist.deep_view(),
            ),
{
    let definitions = extraction_of(title, html, config).definitions;
    let relations = extraction_of(title, html, config).relations;
    let allowlist = config.language_allowlist.deep_view();
    lemma_extraction_in_order(title, html, config);
    assert forall|j: int| 0 <= j < definitions.len() implies language_allowed(
        (#[trigger] definitions[j]).language,
        allowlist,
    ) by {
        assert(definition_in_order(definitions, j, allowlist, config));
    }
    assert forall|j: int| 0 <= j < relations.len() implies language_allowed(
        (#[trigger] relations[j]).language,
        allowlist,
    ) by {
        assert(relation_in_order(relations, j, allowlist, config));
    }
}

/// Threshold gating: no definition and no relation read from a page has a
/// confidence below the threshold.
pub proof fn lemma_confidences_reach_threshold(
    title: Seq<char>,
    html: Seq<char>,
    config: &ExtractionConfig,
)
    ensures
        forall|j: int|
            0 <= j < extraction_of(title, html, config).definitions.len() ==> (
            #[trigger] extraction_of(title, html, config).definitions[j]).confidence
                >= config.confidence_threshold,
        forall|j: int|
            0 <= j < extraction_of(title, html, config).relations.len() ==> (
            #[trigger] extraction_of(title, html, config).relations[j]).confidence
                >= config.confidence_threshold,
{
    let definitions = extraction_of(title, html, config).definitions;
    let relations = extraction_of(title, html, config).relations;
    let allowlist = config.language_allowlist.deep_view();
    lemma_extraction_in_order(title, html, config);
    assert forall|j: int| 0 <= j < definitions.len() implies (#[trigger] definitions[j]).confidence
        >= config.confidence_threshold by {
        assert(definition_in_order(definitions, j, allowlist, config));
    }
    assert forall|j: int| 0 <= j < relations.len() implies (#[trigger] relations[j]).confidence
        >= config.confidence_threshold by {
        assert(relation_in_order(relations, j, allowlist, config));
    }
}

/// Whether a text is the readable text of an outermost list item, with no
/// more lists open around it than the depth limit allows, of one of the
/// sections of the first `n` language headings of a page.
pub open spec fn is_item_text_of_page(
    text: Seq<char>,
    html: Seq<char>,
    headings: Seq<HeadingView>,
    n: nat,
    config: &ExtractionConfig,
) -> bool {
    exists|i: int|
        0 <= i < n && (#[trigger] section_at(
            html,
            headings,
            i,
            config.language_allowlist.deep_view(),
        )) is Some && is_top_level_item_text(
            text,
            section_at(html, headings, i, config.language_allowlist.deep_view())->0.html,
            config,
        )
}

/// Depth limiting: every definition of a page is the text of an
/// outermost list item of one of its sections, with no more lists open
/// around it than the limit allows.
pub proof fn lemma_page_definitions_respect_depth_limit(
    html: Seq<char>,
    headings: Seq<HeadingView>,
    n: nat,
    config: &ExtractionConfig,
)
    ensures
        forall|j: int|
            0 <= j < page_definitions(html, headings, n, config).len() ==> is_item_text_of_page(
                (#[trigger] page_definitions(html, headings, n, config)[j]).text,
                html,
                headings,
                n,
                config,
            ),
    decreases n,
{
    if n > 0 {
        let before = page_definitions(html, headings, (n - 1) as nat, config);
        let all = page_definitions(html, headings, n, config);
        let allowlist = config.language_allowlist.deep_view();
        lemma_page_definitions_respect_depth_limit(html, headings, (n - 1) as nat, config);
        match section_at(html, headings, n - 1, allowlist) {
            Some(section) => {
                lemma_definitions_respect_depth_limit(
                    before,
                    section.html,
                    section.language,
                    config,
                );
                lemma_added_definitions_come_from_items(
                    before,
                    list_items_of(section.html, config.nested_list_depth_limit as nat),
                    section_ranges(section.html, config),
                    section.language,
                    config,
                );
            },
            None => {},
        }
        assert forall|j: int| 0 <= j < all.len() implies is_item_text_of_page(
            (#[trigger] all[j]).text,
            html,
            headings,
            n,
            config,
        ) by {
            if j < before.len() {
                assert(all.take(before.len() as int)[j] == all[j]);
                assert(all[j] == before[j]);
                assert(is_item_text_of_page(before[j].text, html, headings, (n - 1) as nat, config));
                let i = choose|i: int|
                    0 <= i < n - 1 && (#[trigger] section_at(html, headings, i, allowlist)) is Some
                        && is_top_level_item_text(
                        before[j].text,
                        section_at(html, headings, i, allowlist)->0.html,
                        config,
                    );
                assert(section_at(html, headings, i, allowlist) is Some);
            } else {
                assert(section_at(html, headings, n - 1, allowlist) is Some);
            }
        }
    }
}

/// One page as it is stored.
#[derive(Debug, Clone)]
pub struct ExtractedPage {
    pub url: String,
    pub title: String,
    pub namespace: String,
    pub mime_type: String,
    pub cluster_idx: Option<u32>,
    pub blob_idx: Option<u32>,
    pub redirect_url: Option<String>,
    pub content_sha256: Option<String>,
    pub raw_html: Option<String>,
    pub plain_text: Option<String>,
    /// The mean confidence of what was extracted, in millionths.
    pub extraction_confidence: u32,
    pub definitions: Vec<ExtractedDefinition>,
    pub relations: Vec<ExtractedRelation>,
    pub aliases: Vec<ExtractedAlias>,
}

/// What an `ExtractedPage` holds.
pub struct PageView {
    pub url: Seq<char>,
    pub title: Seq<char>,
    pub namespace: Seq<char>,
    pub mime_type: Seq<char>,
    pub cluster_idx: Option<u32>,
    pub blob_idx: Option<u32>,
    pub redirect_url: Option<Seq<char>>,
    pub content_sha256: Option<Seq<char>>,
    pub raw_html: Option<Seq<char>>,
    pub plain_text: Option<Seq<char>>,
    pub extraction_confidence: u32,
    pub definitions: Seq<DefinitionView>,
    pub relations: Seq<RelationView>,
    pub aliases: Seq<AliasView>,
}

/// The view of an optional owned string.
pub open spec fn optional_string(text: Option<String>) -> Option<Seq<char>> {
    match text {
        Some(text) => Some(text@),
        None => None,
    }
}

impl View for ExtractedPage {
    type V = PageView;

    open spec fn view(&self) -> PageView {
        PageView {
            url: self.url@,
            title: self.title@,
            namespace: self.namespace@,
            mime_type: self.mime_type@,
            cluster_idx: self.cluster_idx,
            blob_idx: self.blob_idx,
            redirect_url: optional_string(self.redirect_url),
            content_sha256: optional_string(self.content_sha256),
            raw_html: optional_string(self.raw_html),
            plain_text: optional_string(self.plain_text),
            extraction_confidence: self.extraction_confidence,
            definitions: self.definitions.deep_view(),
            relations: self.relations.deep_view(),
            aliases: self.aliases.deep_view(),
        }
    }
}

/// The namespaces of an archive.
#[derive(Debug, Clone, Copy, PartialEq, Eq, Structural)]
pub enum Namespace {
    Layout,
    Articles,
    ArticleMetaData,
    UserContent,
    ImagesFile,
    ImagesText,
    Metadata,
    CategoriesText,
    CategoriesArticleList,
    CategoriesArticle,
    FulltextIndex,
}

/// The one-letter code of a namespace.
pub open spec fn namespace_code_of(namespace: Namespace) -> Seq<char> {
    match namespace {
        Namespace::Layout => "-"@,
        Namespace::Articles => "A"@,
        Namespace::ArticleMetaData => "B"@,
        Namespace::UserContent => "C"@,
        Namespace::ImagesFile => "I"@,
        Namespace::ImagesText => "J"@,
        Namespace::Metadata => "M"@,
        Namespace::CategoriesText => "U"@,
        Namespace::CategoriesArticleList => "V"@,
        Namespace::CategoriesArticle => "W"@,
        Namespace::FulltextIndex => "X"@,
    }
}

/// The one-letter code of a namespace.
pub fn namespace_code(namespace: Namespace) -> (code: &'static str)
    ensures
        code@ == namespace_code_of(namespace),
{
    match namespace {
        Namespace::Layout => "-",
        Namespace::Articles => "A",
        Namespace::ArticleMetaData => "B",
        Namespace::UserContent => "C",
        Namespace::ImagesFile => "I",
        Namespace::ImagesText => "J",
        Namespace::Metadata => "M",
        Namespace::CategoriesText => "U",
        Namespace::CategoriesArticleList => "V",
        Namespace::CategoriesArticle => "W",
        Namespace::FulltextIndex => "X",
    }
}

/// The kind of content of an entry: a MIME type, or one of the markers of
/// an entry without content of its own.
#[derive(Debug, Clone)]
pub enum MimeType {
    Type(String),
    Redirect,
    LinkTarget,
    DeletedEntry,
}

/// The label of a kind of content.
pub open spec fn mime_label_of(mime: MimeType) -> Seq<char> {
    match mime {
        MimeType::Type(raw) => raw@,
        MimeType::Redirect => "redirect"@,
        MimeType::LinkTarget => "link-target"@,
        MimeType::DeletedEntry => "deleted"@,
    }
}

/// The label of a kind of content: the MIME type itself, or the name of
/// the marker.
pub fn mime_type_label(mime: &MimeType) -> (label: String)
    ensures
        label@ == mime_label_of(*mime),
{
    match mime {
        MimeType::Type(raw) => raw.clone(),
        MimeType::Redirect => "redirect".to_owned(),
        MimeType::LinkTarget => "link-target".to_owned(),
        MimeType::DeletedEntry => "deleted".to_owned(),
    }
}

/// The aliases made from a sorted set of names come in the order of their
/// alias strings, each from one of the names.
proof fn lemma_aliases_keep_order(
    names: Seq<Seq<char>>,
    language: Option<Seq<char>>,
    min_length: usize,
)
    requires
        strictly_sorted(names),
    ensures
        forall|i: int, j: int|
            0 <= i < j < aliases_from(names, language, min_length).len() ==> lex_less(
                (#[trigger] aliases_from(names, language, min_length)[i]).alias,
                (#[trigger] aliases_from(names, language, min_length)[j]).alias,
            ),
        forall|i: int|
            0 <= i < aliases_from(names, language, min_length).len() ==> names.contains(
                (#[trigger] aliases_from(names, language, min_length)[i]).alias,
            ),
    decreases names.len(),
{
    if names.len() > 0 {
        let init = names.drop_last();
        let before = aliases_from(init, language, min_length);
        let all = aliases_from(names, language, min_length);
        assert(strictly_sorted(init)) by {
            assert forall|i: int, j: int| 0 <= i < j < init.len() implies lex_less(
                #[trigger] init[i],
                #[trigger] init[j],
            ) by {
                assert(init[i] == names[i]);
                assert(init[j] == names[j]);
            }
        }
        lemma_aliases_keep_order(init, language, min_length);
        assert forall|i: int| 0 <= i < all.len() implies names.contains((#[trigger] all[i]).alias) by {
            if i < before.len() {
                assert(all[i] == before[i]);
                let k = choose|k: int| 0 <= k < init.len() && init[k] == before[i].alias;
                assert(names[k] == before[i].alias);
            } else {
                assert(names[names.len() - 1] == all[i].alias);
            }
        }
        assert forall|i: int, j: int| 0 <= i < j < all.len() implies lex_less(
            (#[trigger] all[i]).alias,
            (#[trigger] all[j]).alias,
        ) by {
            assert(all[i] == before[i]);
            if j < before.len() {
                assert(all[j] == before[j]);
            } else {
                let k = choose|k: int| 0 <= k < init.len() && init[k] == before[i].alias;
                assert(names[k] == before[i].alias);
                assert(all[j].alias == names[names.len() - 1]);
            }
        }
    }
}

/// Uniqueness of aliases: the aliases of a page come in the order of
/// their alias strings, so no two of them have the same alias; each has
/// the same language and the source "title".
pub proof fn lemma_aliases_are_distinct(
    title: Seq<char>,
    language: Option<Seq<char>>,
    config: &ExtractionConfig,
)
    ensures
        forall|i: int, j: int|
            0 <= i < j < page_aliases(title, language, config).len() ==> (
            #[trigger] page_aliases(title, language, config)[i]).alias != (
            #[trigger] page_aliases(title, language, config)[j]).alias,
        forall|i: int|
            0 <= i < page_aliases(title, language, config).len() ==> (
            #[trigger] page_aliases(title, language, config)[i]).language == language
                && page_aliases(title, language, config)[i].source == "title"@
                && page_aliases(title, language, config)[i].normalized_alias.len()
                >= config.alias_min_length,
{
    let all = page_aliases(title, language, config);
    if config.include_title_as_alias {
        let names = title_aliases(title, language, config);
        lemma_sorted_set(alias_candidates(title, language, config));
        lemma_aliases_keep_order(names, language, config.alias_min_length);
        lemma_aliases_fit(names, language, config.alias_min_length);
        assert forall|i: int, j: int| 0 <= i < j < all.len() implies (#[trigger] all[i]).alias != (
        #[trigger] all[j]).alias by {
            lemma_lex_irreflexive(all[i].alias);
        }
    }
}

proof fn lemma_aliases_fit(names: Seq<Seq<char>>, language: Option<Seq<char>>, min_length: usize)
    ensures
        forall|i: int|
            0 <= i < aliases_from(names, language, min_length).len() ==> (
            #[trigger] aliases_from(names, language, min_length)[i]).language == language
                && aliases_from(names, language, min_length)[i].source == "title"@
                && aliases_from(names, language, min_length)[i].normalized_alias.len()
                >= min_length,
    decreases names.len(),
{
    if names.len() > 0 {
        lemma_aliases_fit(names.drop_last(), language, min_length);
    }
}

} // verus!
