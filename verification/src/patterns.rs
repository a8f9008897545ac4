//! The regular expressions of the extraction engine and the calls into the
//! `regex` crate. Everything the engine knows about a match it knows through
//! the uninterpreted functions declared here.

use crate::text::is_byte_range;
use regex::Regex;
use vstd::prelude::*;

verus! {

/// `regex::Regex`, a compiled expression; nothing is seen inside it.
#[verifier::external_type_specification]
#[verifier::external_body]
pub struct ExRegex(regex::Regex);

/// `regex::Error`, why a pattern was refused; nothing is seen inside it.
#[verifier::external_type_specification]
#[verifier::external_body]
pub struct ExRegexError(regex::Error);

/// Whether `Regex::new` accepts the pattern.
pub uninterp spec fn regex_accepts(pattern: Seq<char>) -> bool;

/// Whether a compiled expression is one that `Regex::new` made: compiled
/// from its pattern under the options that `Regex::new` compiles with.
pub uninterp spec fn regex_is_plain(re: Regex) -> bool;

/// The pattern a compiled expression was made from (`Regex::as_str`).
pub uninterp spec fn regex_source(re: Regex) -> Seq<char>;

/// Whether the pattern, compiled by `Regex::new`, matches anywhere in the
/// haystack (`Regex::is_match`).
pub uninterp spec fn regex_is_match(pattern: Seq<char>, haystack: Seq<char>) -> bool;

/// The haystack with every non-overlapping match of the pattern, compiled
/// by `Regex::new`, replaced (`Regex::replace_all`).
pub uninterp spec fn regex_replace_all(
    pattern: Seq<char>,
    haystack: Seq<char>,
    replacement: Seq<char>,
) -> Seq<char>;

/// The successive non-overlapping matches of the pattern, compiled by
/// `Regex::new`, in the haystack (`Regex::captures_iter`): for each match its groups in the pattern's
/// order, group 0 being the whole match, each as the byte offsets of its
/// start and end or `None` where the group took no part.
pub uninterp spec fn regex_captures(pattern: Seq<char>, haystack: Seq<char>) -> Seq<
    Seq<Option<(usize, usize)>>,
>;

/// The span of the whole match among the groups of a match.
pub open spec fn whole_span(groups: Seq<Option<(usize, usize)>>) -> (usize, usize) {
    match groups[0] {
        Some(span) => span,
        None => (0usize, 0usize),
    }
}

/// What the `regex` crate says of the matches it finds one after another:
/// each has its group 0, the whole match, which is a byte range of the
/// haystack between code points; and each match ends before the next
/// starts.
pub open spec fn captures_in_order(
    haystack: Seq<char>,
    captures: Seq<Seq<Option<(usize, usize)>>>,
) -> bool {
    &&& forall|i: int|
        0 <= i < captures.len() ==> (#[trigger] captures[i]).len() > 0 && captures[i][0] is Some
            && is_byte_range(
            haystack,
            whole_span(captures[i]).0 as int,
            whole_span(captures[i]).1 as int,
        )
    &&& forall|i: int, j: int|
        0 <= i < j < captures.len() ==> whole_span(#[trigger] captures[i]).1 <= whole_span(
            #[trigger] captures[j],
        ).0
}

/// The parts of the haystack that the matches of the pattern, compiled by
/// `Regex::new`, delimit (`Regex::split`).
pub uninterp spec fn regex_split(pattern: Seq<char>, haystack: Seq<char>) -> Seq<Seq<char>>;

/// `Regex::new`: whether a pattern is accepted depends on the pattern
/// alone; the compiled expression remembers the pattern it was made from
/// and is compiled under the options of `Regex::new`.
pub assume_specification[ regex::Regex::new ](re: &str) -> (r: Result<regex::Regex, regex::Error>)
    ensures
        r is Ok == regex_accepts(re@),
        r matches Ok(compiled) ==> regex_source(compiled) == re@ && regex_is_plain(compiled),
;

/// `Regex::as_str` returns the pattern that the expression was compiled
/// from.
pub assume_specification<'a>[ regex::Regex::as_str ](re: &'a regex::Regex) -> (s: &'a str)
    ensures
        s@ == regex_source(*re),
;

/// `Regex::is_match`: of an expression that `Regex::new` made, the result
/// is a function of the pattern and the haystack.
pub assume_specification[ regex::Regex::is_match ](re: &regex::Regex, haystack: &str) -> (r: bool)
    ensures
        regex_is_plain(*re) ==> r == regex_is_match(regex_source(*re), haystack@),
;

/// `Regex::replace_all` with a string replacement, as an owned string: of
/// an expression that `Regex::new` made, the result is a function of the
/// pattern, the haystack and the replacement alone.
#[verifier::external_body]
fn replace_all(re: &Regex, haystack: &str, replacement: &str) -> (out: String)
    ensures
        regex_is_plain(*re) ==> out@ == regex_replace_all(
            regex_source(*re),
            haystack@,
            replacement@,
        ),
{
    re.replace_all(haystack, replacement).into_owned()
}

/// `Regex::captures_iter`, each match handed out as the byte spans of its
/// groups (`Captures::iter`, `Match::start`, `Match::end`): of an
/// expression that `Regex::new` made, the matches and their spans are a
/// function of the pattern and the haystack alone. Of every expression,
/// the matches are successive and do not overlap, group 0 of each is
/// there, and it starts and ends between code points of the haystack.
#[verifier::external_body]
fn capture_spans(re: &Regex, haystack: &str) -> (out: Vec<Vec<Option<(usize, usize)>>>)
    ensures
        regex_is_plain(*re) ==> out.deep_view() == regex_captures(regex_source(*re), haystack@),
        captures_in_order(haystack@, out.deep_view()),
{
    re.captures_iter(haystack)
        .map(|caps| caps.iter().map(|group| group.map(|m| (m.start(), m.end()))).collect())
        .collect()
}

/// `Regex::split`, each part as an owned string: of an expression that
/// `Regex::new` made, the parts are a function of the pattern and the
/// haystack alone.
#[verifier::external_body]
fn split(re: &Regex, haystack: &str) -> (out: Vec<String>)
    ensures
        regex_is_plain(*re) ==> out.deep_view() == regex_split(regex_source(*re), haystack@),
{
    re.split(haystack).map(|part| part.to_owned()).collect()
}

/// A heading element of level 2 to 5, with or without a headline span
/// around its title. Group 1 is the level, group 2 the title.
pub const HEADING_PATTERN: &'static str =
    r#"(?is)<h(?P<level>[2-5])[^>]*>\s*(?:<span[^>]*class="[^"]*mw-headline[^"]*"[^>]*>\s*)?(?P<title>.*?)(?:</span>)?\s*</h[2-5]>"#;

/// Any tag.
pub const TAG_PATTERN: &'static str = r#"(?is)<[^>]+>"#;

/// An opening, closing or self-closing tag. Group 1 is the slash of a
/// closing tag, group 2 the tag's name, group 3 the text of its attributes.
pub const TAG_TOKEN_PATTERN: &'static str =
    r#"(?is)<\s*(?P<close>/)?\s*(?P<name>[a-zA-Z0-9]+)(?P<attrs>[^>]*)>"#;

/// A run of whitespace.
pub const MULTI_WS_PATTERN: &'static str = r#"\s+"#;

/// A word that labels a relation section.
pub const RELATION_LABEL_PATTERN: &'static str =
    r"(?i)\b(synonyms?|antonyms?|translations?|derived terms?|related terms?)\b";

/// An element that holds a reference, an edit link or a footnote.
pub const NOISE_PATTERN: &'static str =
    r#"(?is)<(?:sup|span|div|small)[^>]*class=\"[^\"]*(?:reference|mw-editsection|noprint|maintenance-line|mw-reflink-text)[^\"]*\"[^>]*>.*?</(?:sup|span|div|small)>"#;

/// A bracketed numeric citation marker.
pub const BRACKET_REF_PATTERN: &'static str = r#"\[[0-9]+\]"#;

/// A separator between the target terms of a relation sentence.
pub const SPLIT_TERMS_PATTERN: &'static str =
    r"\s*(?:,|;|\||•|\u{00B7}|\u{2022}|/|→|\u{2192})\s*";

/// A run of characters that are neither letters nor digits.
pub const NON_WORD_PATTERN: &'static str = r"[^\p{L}\p{N}]+";

/// A pattern that the `regex` crate refused.
#[derive(Debug)]
pub struct PatternError {
    pub pattern: String,
}

/// What becomes of the outcome of compiling `pattern`: the compiled
/// expression where there is one, else an error that names the pattern.
pub fn compiled(pattern: &str, outcome: Result<Regex, regex::Error>) -> (r: Result<
    Regex,
    PatternError,
>)
    ensures
        r is Ok == outcome is Ok,
        r matches Ok(re) ==> outcome == Ok::<Regex, regex::Error>(re),
        r matches Err(e) ==> e.pattern@ == pattern@,
{
    match outcome {
        Ok(re) => Ok(re),
        Err(_) => Err(PatternError { pattern: pattern.to_owned() }),
    }
}

/// Compiles one pattern. It succeeds on every pattern that `Regex::new`
/// accepts and on no other, and the error names the pattern.
pub fn compile(pattern: &str) -> (r: Result<Regex, PatternError>)
    ensures
        r is Ok == regex_accepts(pattern@),
        r matches Ok(re) ==> regex_source(re) == pattern@ && regex_is_plain(re),
        r matches Err(e) ==> e.pattern@ == pattern@,
{
    compiled(pattern, Regex::new(pattern))
}

/// The patterns of the engine.
pub open spec fn engine_patterns() -> Seq<Seq<char>> {
    seq![
        HEADING_PATTERN@,
        TAG_PATTERN@,
        TAG_TOKEN_PATTERN@,
        MULTI_WS_PATTERN@,
        RELATION_LABEL_PATTERN@,
        NOISE_PATTERN@,
        BRACKET_REF_PATTERN@,
        SPLIT_TERMS_PATTERN@,
        NON_WORD_PATTERN@,
    ]
}

/// Whether `Regex::new` accepts every pattern of the engine.
pub open spec fn engine_patterns_accepted() -> bool {
    forall|i: int| 0 <= i < engine_patterns().len() ==> regex_accepts(#[trigger] engine_patterns()[i])
}

/// Whether `pattern` is the first pattern of the engine that `Regex::new`
/// does not accept.
pub open spec fn is_first_refused(pattern: Seq<char>) -> bool {
    exists|i: int|
        0 <= i < engine_patterns().len() && pattern == #[trigger] engine_patterns()[i]
            && !regex_accepts(pattern) && accepted_before(i)
}

/// Whether `Regex::new` accepts the first `n` patterns of the engine.
pub open spec fn accepted_before(n: int) -> bool {
    forall|j: int| 0 <= j < n && j < engine_patterns().len() ==> regex_accepts(
        #[trigger] engine_patterns()[j],
    )
}

/// The patterns of the engine, one by one.
proof fn lemma_engine_patterns()
    ensures
        engine_patterns().len() == 9,
        engine_patterns()[0] == HEADING_PATTERN@,
        engine_patterns()[1] == TAG_PATTERN@,
        engine_patterns()[2] == TAG_TOKEN_PATTERN@,
        engine_patterns()[3] == MULTI_WS_PATTERN@,
        engine_patterns()[4] == RELATION_LABEL_PATTERN@,
        engine_patterns()[5] == NOISE_PATTERN@,
        engine_patterns()[6] == BRACKET_REF_PATTERN@,
        engine_patterns()[7] == SPLIT_TERMS_PATTERN@,
        engine_patterns()[8] == NON_WORD_PATTERN@,
        accepted_before(0),
{
}

/// Where the patterns before the one at `k` are accepted and that one is
/// too, the patterns before the one at `k + 1` are accepted.
proof fn lemma_accepted_one_more(k: int)
    requires
        0 <= k < engine_patterns().len(),
        accepted_before(k),
        regex_accepts(engine_patterns()[k]),
    ensures
        accepted_before(k + 1),
{
    assert forall|j: int| 0 <= j < k + 1 && j < engine_patterns().len() implies regex_accepts(
        #[trigger] engine_patterns()[j],
    ) by {
        if j < k {
            assert(accepted_before(k));
        }
    }
}

/// Compiles the pattern of the engine at place `k`, the ones before it
/// having been accepted.
fn compile_at(pattern: &str, Ghost(k): Ghost<int>) -> (r: Result<Regex, PatternError>)
    requires
        0 <= k < engine_patterns().len(),
        engine_patterns()[k] == pattern@,
        accepted_before(k),
    ensures
        r is Ok == regex_accepts(pattern@),
        r matches Ok(re) ==> regex_source(re) == pattern@ && regex_is_plain(re) && accepted_before(
            k + 1,
        ),
        r matches Err(e) ==> is_first_refused(e.pattern@) && !engine_patterns_accepted(),
{
    let r = compile(pattern);
    proof {
        if r is Ok {
            lemma_accepted_one_more(k);
        }
    }
    r
}

/// The compiled matchers of the engine: built once, then only read.
pub struct Matchers {
    heading: Regex,
    tag: Regex,
    tag_token: Regex,
    multi_ws: Regex,
    relation_label: Regex,
    noise: Regex,
    bracket_ref: Regex,
    split_terms: Regex,
    non_word: Regex,
}

impl Matchers {
    #[verifier::type_invariant]
    spec fn holds_engine_patterns(self) -> bool {
        &&& regex_source(self.heading) == HEADING_PATTERN@
        &&& regex_source(self.tag) == TAG_PATTERN@
        &&& regex_source(self.tag_token) == TAG_TOKEN_PATTERN@
        &&& regex_source(self.multi_ws) == MULTI_WS_PATTERN@
        &&& regex_source(self.relation_label) == RELATION_LABEL_PATTERN@
        &&& regex_source(self.noise) == NOISE_PATTERN@
        &&& regex_source(self.bracket_ref) == BRACKET_REF_PATTERN@
        &&& regex_source(self.split_terms) == SPLIT_TERMS_PATTERN@
        &&& regex_source(self.non_word) == NON_WORD_PATTERN@
        &&& regex_is_plain(self.heading)
        &&& regex_is_plain(self.tag)
        &&& regex_is_plain(self.tag_token)
        &&& regex_is_plain(self.multi_ws)
        &&& regex_is_plain(self.relation_label)
        &&& regex_is_plain(self.noise)
        &&& regex_is_plain(self.bracket_ref)
        &&& regex_is_plain(self.split_terms)
        &&& regex_is_plain(self.non_word)
    }

    /// Compiles the engine's patterns. It succeeds where `Regex::new`
    /// accepts every one of them and nowhere else, and the error names the
    /// first pattern that is not accepted.
    pub fn new() -> (r: Result<Matchers, PatternError>)
        ensures
            r is Ok <==> engine_patterns_accepted(),
            r matches Err(e) ==> is_first_refused(e.pattern@),
    {
        proof {
            lemma_engine_patterns();
        }
        let heading = match compile_at(HEADING_PATTERN, Ghost(0)) {
            Ok(re) => re,
            Err(e) => {
                return Err(e);
            },
        };
        let tag = match compile_at(TAG_PATTERN, Ghost(1)) {
            Ok(re) => re,
            Err(e) => {
                return Err(e);
            },
        };
        let tag_token = match compile_at(TAG_TOKEN_PATTERN, Ghost(2)) {
            Ok(re) => re,
            Err(e) => {
                return Err(e);
            },
        };
        let multi_ws = match compile_at(MULTI_WS_PATTERN, Ghost(3)) {
            Ok(re) => re,
            Err(e) => {
                return Err(e);
            },
        };
        let relation_label = match compile_at(RELATION_LABEL_PATTERN, Ghost(4)) {
            Ok(re) => re,
            Err(e) => {
                return Err(e);
            },
        };
        let noise = match compile_at(NOISE_PATTERN, Ghost(5)) {
            Ok(re) => re,
            Err(e) => {
                return Err(e);
            },
        };
        let bracket_ref = match compile_at(BRACKET_REF_PATTERN, Ghost(6)) {
            Ok(re) => re,
            Err(e) => {
                return Err(e);
            },
        };
        let split_terms = match compile_at(SPLIT_TERMS_PATTERN, Ghost(7)) {
            Ok(re) => re,
            Err(e) => {
                return Err(e);
            },
        };
        let non_word = match compile_at(NON_WORD_PATTERN, Ghost(8)) {
            Ok(re) => re,
            Err(e) => {
                return Err(e);
            },
        };
        Ok(
            Matchers {
                heading,
                tag,
                tag_token,
                multi_ws,
                relation_label,
                noise,
                bracket_ref,
                split_terms,
                non_word,
            },
        )
    }

    /// The patterns that the matchers were compiled from, in the order in
    /// which `engine_patterns` lists them.
    pub fn patterns(&self) -> (out: Vec<String>)
        ensures
            out.deep_view() == engine_patterns(),
    {
        proof {
            use_type_invariant(self);
        }
        let out = vec![
            self.heading.as_str().to_owned(),
            self.tag.as_str().to_owned(),
            self.tag_token.as_str().to_owned(),
            self.multi_ws.as_str().to_owned(),
            self.relation_label.as_str().to_owned(),
            self.noise.as_str().to_owned(),
            self.bracket_ref.as_str().to_owned(),
            self.split_terms.as_str().to_owned(),
            self.non_word.as_str().to_owned(),
        ];
        assert(out.deep_view() =~= engine_patterns());
        out
    }

    /// The matches of the heading pattern in `html`.
    pub fn heading_captures(&self, html: &str) -> (out: Vec<Vec<Option<(usize, usize)>>>)
        ensures
            out.deep_view() == regex_captures(HEADING_PATTERN@, html@),
            captures_in_order(html@, out.deep_view()),
    {
        proof {
            use_type_invariant(self);
        }
        capture_spans(&self.heading, html)
    }

    /// The matches of the tag-token pattern in `html`.
    pub fn tag_token_captures(&self, html: &str) -> (out: Vec<Vec<Option<(usize, usize)>>>)
        ensures
            out.deep_view() == regex_captures(TAG_TOKEN_PATTERN@, html@),
            captures_in_order(html@, out.deep_view()),
    {
        proof {
            use_type_invariant(self);
        }
        capture_spans(&self.tag_token, html)
    }

    /// `text` with every tag replaced by a space.
    pub fn blank_tags(&self, text: &str) -> (out: String)
        ensures
            out@ == regex_replace_all(TAG_PATTERN@, text@, " "@),
    {
        proof {
            use_type_invariant(self);
        }
        replace_all(&self.tag, text, " ")
    }

    /// `text` with every noise element replaced by a space.
    pub fn blank_noise(&self, text: &str) -> (out: String)
        ensures
            out@ == regex_replace_all(NOISE_PATTERN@, text@, " "@),
    {
        proof {
            use_type_invariant(self);
        }
        replace_all(&self.noise, text, " ")
    }

    /// `text` with every bracketed citation marker replaced by a space.
    pub fn blank_bracket_refs(&self, text: &str) -> (out: String)
        ensures
            out@ == regex_replace_all(BRACKET_REF_PATTERN@, text@, " "@),
    {
        proof {
            use_type_invariant(self);
        }
        replace_all(&self.bracket_ref, text, " ")
    }

    /// `text` with every run of whitespace replaced by one space.
    pub fn squeeze_whitespace(&self, text: &str) -> (out: String)
        ensures
            out@ == regex_replace_all(MULTI_WS_PATTERN@, text@, " "@),
    {
        proof {
            use_type_invariant(self);
        }
        replace_all(&self.multi_ws, text, " ")
    }

    /// `text` with every run of characters that are neither letters nor
    /// digits replaced by one space.
    pub fn blank_non_words(&self, text: &str) -> (out: String)
        ensures
            out@ == regex_replace_all(NON_WORD_PATTERN@, text@, " "@),
    {
        proof {
            use_type_invariant(self);
        }
        replace_all(&self.non_word, text, " ")
    }

    /// Whether `text` holds a word that labels a relation section.
    pub fn has_relation_label(&self, text: &str) -> (r: bool)
        ensures
            r == regex_is_match(RELATION_LABEL_PATTERN@, text@),
    {
        proof {
            use_type_invariant(self);
        }
        self.relation_label.is_match(text)
    }

    /// The parts of `text` between the separators of target terms.
    pub fn split_terms(&self, text: &str) -> (out: Vec<String>)
        ensures
            out.deep_view() == regex_split(SPLIT_TERMS_PATTERN@, text@),
    {
        proof {
            use_type_invariant(self);
        }
        split(&self.split_terms, text)
    }
}

} // verus!
