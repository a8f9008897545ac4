//! Canonical forms of text: whitespace collapsing, the per-language
//! normalizers, lemma canonicalization and the aliases of a title.

use crate::config::ExtractionConfig;
use crate::ordered::{insert_sorted, sorted_set};
use crate::patterns::{regex_replace_all, Matchers, MULTI_WS_PATTERN, NON_WORD_PATTERN};
use crate::text::{
    char_len, eq_ignore_ascii_case, lowercase_of, same_text, same_text_ignore_ascii_case,
    strip_prefix, trim, trimmed, without_prefix,
};
use vstd::prelude::*;

verus! {

/// The ASCII transliteration of a string (`deunicode::deunicode`).
pub uninterp spec fn ascii_transliteration(s: Seq<char>) -> Seq<char>;

/// `deunicode::deunicode`: the result is a function of the input alone.
pub assume_specification[ deunicode::deunicode ](s: &str) -> (out: String)
    ensures
        out@ == ascii_transliteration(s@),
;

/// `s` without whitespace at its ends and with each run of whitespace
/// inside it as one space.
pub open spec fn collapsed(s: Seq<char>) -> Seq<char> {
    regex_replace_all(MULTI_WS_PATTERN@, trimmed(s), " "@)
}

/// Trims `text` and collapses each run of whitespace in it to one space.
pub fn collapse_ws(m: &Matchers, text: &str) -> (out: String)
    ensures
        out@ == collapsed(text@),
{
    m.squeeze_whitespace(trim(text))
}

/// `s` without `prefix` at its start; `s` itself where it does not start
/// with it.
pub open spec fn prefix_dropped(s: Seq<char>, prefix: Seq<char>) -> Seq<char> {
    match without_prefix(s, prefix) {
        Some(rest) => rest,
        None => s,
    }
}

/// `s` without one leading article: "a ", else "an ", else "the ".
pub open spec fn article_dropped(s: Seq<char>) -> Seq<char> {
    match without_prefix(s, "a "@) {
        Some(rest) => rest,
        None => match without_prefix(s, "an "@) {
            Some(rest) => rest,
            None => prefix_dropped(s, "the "@),
        },
    }
}

/// The English form: lower case, whitespace collapsed, a leading "to "
/// and then a leading article dropped.
pub open spec fn english_form(s: Seq<char>) -> Seq<char> {
    collapsed(article_dropped(prefix_dropped(lowercase_of(collapsed(s)), "to "@)))
}

/// A curly apostrophe or a backtick as the plain apostrophe; any other
/// character as itself.
pub open spec fn plain_apostrophe(c: char) -> char {
    if c == '\u{2019}' || c == '`' {
        '\''
    } else {
        c
    }
}

/// The Romance form: lower case, whitespace collapsed, apostrophes plain.
pub open spec fn romance_form(s: Seq<char>) -> Seq<char> {
    collapsed(lowercase_of(collapsed(s)).map_values(|c: char| plain_apostrophe(c)))
}

/// The normalizers that a language can be given.
#[derive(Debug, Clone, Copy, PartialEq, Eq, Structural)]
pub enum Normalizer {
    Identity,
    EnglishBasic,
    RomanceBasic,
    CjkBasic,
}

impl Normalizer {
    /// The normalizer of a name; a name that is not known is `Identity`.
    pub open spec fn of_name(name: Seq<char>) -> Normalizer {
        if name == "english_basic"@ {
            Normalizer::EnglishBasic
        } else if name == "romance_basic"@ {
            Normalizer::RomanceBasic
        } else if name == "cjk_basic"@ {
            Normalizer::CjkBasic
        } else {
            Normalizer::Identity
        }
    }

    /// What the normalizer makes of a text.
    pub open spec fn normal_form(self, text: Seq<char>) -> Seq<char> {
        match self {
            Normalizer::Identity => collapsed(text),
            Normalizer::EnglishBasic => english_form(text),
            Normalizer::RomanceBasic => romance_form(text),
            Normalizer::CjkBasic => collapsed(text),
        }
    }

    /// The normalizer of a name; a name that is not known is `Identity`.
    pub fn from_name(name: &str) -> (n: Normalizer)
        ensures
            n == Normalizer::of_name(name@),
    {
        if same_text(name, "english_basic") {
            Normalizer::EnglishBasic
        } else if same_text(name, "romance_basic") {
            Normalizer::RomanceBasic
        } else if same_text(name, "cjk_basic") {
            Normalizer::CjkBasic
        } else {
            Normalizer::Identity
        }
    }

    /// Normalizes `text`.
    pub fn apply(&self, m: &Matchers, text: &str) -> (out: String)
        ensures
            out@ == self.normal_form(text@),
    {
        match self {
            Normalizer::Identity => collapse_ws(m, text),
            Normalizer::EnglishBasic => english_basic(m, text),
            Normalizer::RomanceBasic => romance_basic(m, text),
            Normalizer::CjkBasic => cjk_basic(m, text),
        }
    }
}

/// Lower case, whitespace collapsed, a leading "to " and then a leading
/// article dropped.
pub fn english_basic(m: &Matchers, text: &str) -> (out: String)
    ensures
        out@ == english_form(text@),
{
    let lowered = collapse_ws(m, text).as_str().to_lowercase();
    let without_infinitive = match strip_prefix(lowered.as_str(), "to ") {
        Some(rest) => rest,
        None => lowered.as_str(),
    };
    let without_article = match strip_prefix(without_infinitive, "a ") {
        Some(rest) => rest,
        None => match strip_prefix(without_infinitive, "an ") {
            Some(rest) => rest,
            None => match strip_prefix(without_infinitive, "the ") {
                Some(rest) => rest,
                None => without_infinitive,
            },
        },
    };
    collapse_ws(m, without_article)
}

/// Lower case, whitespace collapsed, curly apostrophes and backticks made
/// plain apostrophes.
pub fn romance_basic(m: &Matchers, text: &str) -> (out: String)
    ensures
        out@ == romance_form(text@),
{
    let lowered = collapse_ws(m, text).as_str().to_lowercase();
    let mut plain = String::new();
    for c in it: lowered.as_str().chars()
        invariant
            it.seq() == lowered@,
            plain@ == lowered@.take(it.index() as int).map_values(|c: char| plain_apostrophe(c)),
    {
        let mapped = if c == '\u{2019}' || c == '`' {
            '\''
        } else {
            c
        };
        proof {
            let done = it.index() as int;
            assert(lowered@.take(done + 1).map_values(|c: char| plain_apostrophe(c))
                =~= lowered@.take(done).map_values(|c: char| plain_apostrophe(c)).push(mapped));
        }
        plain.push(mapped);
    }
    assert(lowered@.take(lowered@.len() as int) =~= lowered@);
    collapse_ws(m, plain.as_str())
}

/// Whitespace collapsed, nothing else.
pub fn cjk_basic(m: &Matchers, text: &str) -> (out: String)
    ensures
        out@ == collapsed(text@),
{
    collapse_ws(m, text)
}

/// Normalizes `text` with the normalizer of the given name.
pub fn apply_plugin(m: &Matchers, plugin_name: &str, text: &str) -> (out: String)
    ensures
        out@ == Normalizer::of_name(plugin_name@).normal_form(text@),
{
    Normalizer::from_name(plugin_name).apply(m, text)
}

/// The normalizer name of the first pair whose language is `language` but
/// for ASCII case; `default` where there is none.
pub open spec fn normalizer_name_for(
    pairs: Seq<(Seq<char>, Seq<char>)>,
    language: Seq<char>,
    default: Seq<char>,
) -> Seq<char>
    decreases pairs.len(),
{
    if pairs.len() == 0 {
        default
    } else if eq_ignore_ascii_case(pairs[0].0, language) {
        pairs[0].1
    } else {
        normalizer_name_for(pairs.drop_first(), language, default)
    }
}

/// The form of `text` under the normalizer that `config` gives `language`.
pub open spec fn language_form(
    language: Seq<char>,
    text: Seq<char>,
    config: &ExtractionConfig,
) -> Seq<char> {
    Normalizer::of_name(
        normalizer_name_for(
            config.language_normalizers.deep_view(),
            language,
            config.default_normalizer@,
        ),
    ).normal_form(text)
}

/// Normalizes `text` with the normalizer that `config` gives `language`:
/// that of the first pair that names the language, whatever the case of its
/// ASCII letters, else the default one.
pub fn normalize_for_language(
    m: &Matchers,
    language: &str,
    text: &str,
    config: &ExtractionConfig,
) -> (out: String)
    ensures
        out@ == language_form(language@, text@, config),
{
    let pairs = &config.language_normalizers;
    let ghost all = pairs.deep_view();
    let mut i: usize = 0;
    assert(all.subrange(0, all.len() as int) =~= all);
    while i < pairs.len()
        invariant
            i <= pairs.len(),
            all == pairs.deep_view(),
            all == config.language_normalizers.deep_view(),
            normalizer_name_for(all, language@, config.default_normalizer@) == normalizer_name_for(
                all.subrange(i as int, all.len() as int),
                language@,
                config.default_normalizer@,
            ),
        decreases pairs.len() - i,
    {
        proof {
            let rest = all.subrange(i as int, all.len() as int);
            assert(rest[0] == all[i as int]);
            assert(all[i as int] == pairs@[i as int].deep_view());
            assert(all[i as int].0 == pairs@[i as int].0@);
            assert(all[i as int].1 == pairs@[i as int].1@);
            assert(rest.drop_first() =~= all.subrange(i + 1, all.len() as int));
        }
        if same_text_ignore_ascii_case(pairs[i].0.as_str(), language) {
            return apply_plugin(m, pairs[i].1.as_str(), text);
        }
        i += 1;
    }
    apply_plugin(m, config.default_normalizer.as_str(), text)
}

/// The canonical form of a lemma.
pub open spec fn canonical_lemma(s: Seq<char>) -> Seq<char> {
    collapsed(regex_replace_all(NON_WORD_PATTERN@, lowercase_of(ascii_transliteration(s)), " "@))
}

/// Canonicalizes a lemma: transliterated to ASCII, in lower case, every
/// run of characters that are neither letters nor digits as one space,
/// whitespace collapsed.
pub fn canonicalize_lemma(m: &Matchers, value: &str) -> (out: String)
    ensures
        out@ == canonical_lemma(value@),
{
    let transliterated = deunicode::deunicode(value);
    let lowered = transliterated.as_str().to_lowercase();
    let cleaned = m.blank_non_words(lowered.as_str());
    collapse_ws(m, cleaned.as_str())
}

/// `candidate` alone where it has `min_length` characters or more, else
/// nothing.
pub open spec fn if_long_enough(candidate: Seq<char>, min_length: usize) -> Seq<Seq<char>> {
    if candidate.len() >= min_length {
        seq![candidate]
    } else {
        seq![]
    }
}

/// The ways to write a title that are offered as aliases: where the
/// collapsed title is long enough, that title, its lower-case form and,
/// if long enough, its collapsed transliteration; and, where a language is
/// given, the title's form in that language, if long enough.
pub open spec fn alias_candidates(
    title: Seq<char>,
    language: Option<Seq<char>>,
    config: &ExtractionConfig,
) -> Seq<Seq<char>> {
    let plain = collapsed(title);
    let from_title = if plain.len() >= config.alias_min_length {
        seq![plain, lowercase_of(plain)] + if_long_enough(
            collapsed(ascii_transliteration(plain)),
            config.alias_min_length,
        )
    } else {
        seq![]
    };
    let from_language = match language {
        Some(language) => if_long_enough(
            language_form(language, title, config),
            config.alias_min_length,
        ),
        None => seq![],
    };
    from_title + from_language
}

/// The aliases of a title: its candidates, each once, in the order of
/// strings.
pub open spec fn title_aliases(
    title: Seq<char>,
    language: Option<Seq<char>>,
    config: &ExtractionConfig,
) -> Seq<Seq<char>> {
    sorted_set(alias_candidates(title, language, config))
}

/// The view of an optional string.
pub open spec fn optional_text(text: Option<&str>) -> Option<Seq<char>> {
    match text {
        Some(text) => Some(text@),
        None => None,
    }
}

/// Adds one candidate to a sorted set of strings.
fn add_candidate(out: &mut Vec<String>, candidate: String, Ghost(candidates): Ghost<Seq<Seq<char>>>)
    requires
        old(out).deep_view() == sorted_set(candidates),
    ensures
        final(out).deep_view() == sorted_set(candidates.push(candidate@)),
{
    assert(candidates.push(candidate@).drop_last() =~= candidates);
    insert_sorted(out, candidate);
}

/// The aliases of `title`: the ways to write it, each once, in the order
/// of strings.
pub fn generate_aliases(
    m: &Matchers,
    title: &str,
    language: Option<&str>,
    config: &ExtractionConfig,
) -> (out: Vec<String>)
    ensures
        out.deep_view() == title_aliases(title@, optional_text(language), config),
{
    let mut out: Vec<String> = Vec::new();
    let ghost mut candidates: Seq<Seq<char>> = Seq::empty();
    assert(out.deep_view() =~= sorted_set(candidates));
    let plain = collapse_ws(m, title);
    if char_len(plain.as_str()) >= config.alias_min_length {
        let lowered = plain.as_str().to_lowercase();
        let transliterated = deunicode::deunicode(plain.as_str());
        let transliterated = collapse_ws(m, transliterated.as_str());
        add_candidate(&mut out, plain, Ghost(candidates));
        proof {
            candidates = candidates.push(collapsed(title@));
        }
        add_candidate(&mut out, lowered, Ghost(candidates));
        proof {
            candidates = candidates.push(lowercase_of(collapsed(title@)));
        }
        if char_len(transliterated.as_str()) >= config.alias_min_length {
            add_candidate(&mut out, transliterated, Ghost(candidates));
            proof {
                candidates = candidates.push(transliterated@);
            }
        }
    }
    match language {
        Some(language) => {
            let formed = normalize_for_language(m, language, title, config);
            if char_len(formed.as_str()) >= config.alias_min_length {
                add_candidate(&mut out, formed, Ghost(candidates));
                proof {
                    candidates = candidates.push(formed@);
                }
            }
        },
        None => {},
    }
    assert(candidates =~= alias_candidates(title@, optional_text(language), config));
    out
}

} // verus!
