//! The structural scanner: headings and top-level list items of a page,
//! found in one pass over its tags without building a tree.

use crate::extractor::{normalize_text, normalized_text};
use crate::patterns::{
    captures_in_order, regex_captures, whole_span, Matchers, HEADING_PATTERN, TAG_TOKEN_PATTERN,
};
use crate::text::{
    ascii_lowercase, ascii_lowered, byte_slice, chars_of, count_trailing_trimmable, is_byte_range,
    same_text, slice_bytes, trailing_trimmable,
};
use vstd::prelude::*;

verus! {

/// The byte spans of the groups of one match; `None` for a group that took
/// no part in it.
pub type Groups = Vec<Option<(usize, usize)>>;

/// The text of the group at `index`, where the match has that group and
/// its span lies between code points of `html`.
pub open spec fn group_text(
    html: Seq<char>,
    groups: Seq<Option<(usize, usize)>>,
    index: int,
) -> Option<Seq<char>> {
    if 0 <= index < groups.len() {
        match groups[index] {
            Some(span) => if is_byte_range(html, span.0 as int, span.1 as int) {
                Some(byte_slice(html, span.0 as int, span.1 as int))
            } else {
                None
            },
            None => None,
        }
    } else {
        None
    }
}

/// The text of the group at `index`.
pub fn group_str<'a>(html: &'a str, groups: &Groups, index: usize) -> (r: Option<&'a str>)
    ensures
        r is Some == group_text(html@, groups@, index as int) is Some,
        r matches Some(t) ==> Some(t@) == group_text(html@, groups@, index as int),
{
    if index < groups.len() {
        match groups[index] {
            Some((start, end)) => slice_bytes(html, start, end),
            None => None,
        }
    } else {
        None
    }
}

/// The deep view of the groups of a match is their view: they hold plain
/// numbers.
pub proof fn lemma_groups_view(groups: Groups)
    ensures
        groups.deep_view() == groups@,
{
    assert(groups.deep_view() =~= groups@);
}

/// A heading element: the byte span of the whole element, its level and
/// the readable text of its title.
#[derive(Debug, Clone)]
pub struct Heading {
    pub start: usize,
    pub end: usize,
    pub level: u8,
    pub title: String,
}

/// What a `Heading` holds.
pub struct HeadingView {
    pub start: usize,
    pub end: usize,
    pub level: u8,
    pub title: Seq<char>,
}

impl View for Heading {
    type V = HeadingView;

    open spec fn view(&self) -> HeadingView {
        HeadingView { start: self.start, end: self.end, level: self.level, title: self.title@ }
    }
}

impl DeepView for Heading {
    type V = HeadingView;

    open spec fn deep_view(&self) -> HeadingView {
        self@
    }
}

/// The number that a text of one decimal digit writes.
pub open spec fn digit_value(text: Seq<char>) -> Option<u8> {
    if text.len() == 1 && 0x30 <= text[0] as u32 <= 0x39 {
        Some((text[0] as u32 - 0x30) as u8)
    } else {
        None
    }
}

/// The number that a text of one decimal digit writes.
pub fn parse_digit(text: &str) -> (r: Option<u8>)
    ensures
        r == digit_value(text@),
{
    let chars = chars_of(text);
    if chars.len() == 1 {
        let code: u32 = chars[0] as u32;
        if 0x30 <= code && code <= 0x39 {
            return Some((code - 0x30) as u8);
        }
    }
    None
}

/// The heading that one match of the heading pattern stands for: group 0
/// is the element, group 1 its level, group 2 its title. `None` where a
/// group is missing or the level is outside `min_level..=max_level`.
pub open spec fn heading_of_match(
    html: Seq<char>,
    groups: Seq<Option<(usize, usize)>>,
    min_level: u8,
    max_level: u8,
) -> Option<HeadingView> {
    if groups.len() == 0 {
        None
    } else {
        match (groups[0], group_text(html, groups, 1), group_text(html, groups, 2)) {
            (Some(span), Some(level_text), Some(title_text)) => match digit_value(level_text) {
                Some(level) => if min_level <= level <= max_level {
                    Some(
                        HeadingView {
                            start: span.0,
                            end: span.1,
                            level,
                            title: normalized_text(title_text),
                        },
                    )
                } else {
                    None
                },
                None => None,
            },
            _ => None,
        }
    }
}

/// The headings that a sequence of matches stands for, in its order.
pub open spec fn headings_from(
    html: Seq<char>,
    captures: Seq<Seq<Option<(usize, usize)>>>,
    min_level: u8,
    max_level: u8,
) -> Seq<HeadingView>
    decreases captures.len(),
{
    if captures.len() == 0 {
        seq![]
    } else {
        let before = headings_from(html, captures.drop_last(), min_level, max_level);
        match heading_of_match(html, captures.last(), min_level, max_level) {
            Some(heading) => before.push(heading),
            None => before,
        }
    }
}

/// The headings of `html` with a level in `min_level..=max_level`, in
/// document order.
pub open spec fn headings_of(html: Seq<char>, min_level: u8, max_level: u8) -> Seq<HeadingView> {
    headings_from(html, regex_captures(HEADING_PATTERN@, html), min_level, max_level)
}

/// The heading that one match of the heading pattern stands for.
pub fn heading_from_match(
    m: &Matchers,
    html: &str,
    groups: &Groups,
    min_level: u8,
    max_level: u8,
) -> (r: Option<Heading>)
    ensures
        r is Some == heading_of_match(html@, groups@, min_level, max_level) is Some,
        r matches Some(h) ==> Some(h@) == heading_of_match(html@, groups@, min_level, max_level),
{
    if groups.len() == 0 {
        return None;
    }
    let (start, end) = match groups[0] {
        Some(span) => span,
        None => {
            return None;
        },
    };
    let level = match group_str(html, groups, 1) {
        Some(level_text) => match parse_digit(level_text) {
            Some(level) => level,
            None => {
                return None;
            },
        },
        None => {
            return None;
        },
    };
    if level < min_level || level > max_level {
        return None;
    }
    match group_str(html, groups, 2) {
        Some(title_text) => Some(Heading { start, end, level, title: normalize_text(m, title_text) }),
        None => None,
    }
}

/// The headings that the given matches of the heading pattern stand for,
/// in their order.
pub fn headings_from_captures(
    m: &Matchers,
    html: &str,
    captures: &Vec<Groups>,
    min_level: u8,
    max_level: u8,
) -> (out: Vec<Heading>)
    ensures
        out.deep_view() == headings_from(html@, captures.deep_view(), min_level, max_level),
        captures_in_order(html@, captures.deep_view()) ==> headings_in_order(
            html@,
            out.deep_view(),
        ),
{
    proof {
        if captures_in_order(html@, captures.deep_view()) {
            lemma_headings_in_order(html@, captures.deep_view(), min_level, max_level);
        }
    }
    let mut out: Vec<Heading> = Vec::new();
    let ghost all = captures.deep_view();
    let mut i: usize = 0;
    assert(out.deep_view() =~= headings_from(html@, all.take(0), min_level, max_level));
    while i < captures.len()
        invariant
            i <= captures.len(),
            all == captures.deep_view(),
            out.deep_view() == headings_from(html@, all.take(i as int), min_level, max_level),
        decreases captures.len() - i,
    {
        let ghost before = out.deep_view();
        proof {
            lemma_groups_view(captures@[i as int]);
            assert(all.take(i + 1).drop_last() =~= all.take(i as int));
            assert(all.take(i + 1).last() == captures@[i as int]@);
        }
        match heading_from_match(m, html, &captures[i], min_level, max_level) {
            Some(heading) => {
                out.push(heading);
                assert(out.deep_view() =~= before.push(heading@));
            },
            None => {},
        }
        i += 1;
    }
    assert(all.take(i as int) =~= all);
    out
}

/// The headings of `html` with a level in `min_level..=max_level`, in
/// document order.
pub fn extract_headings(m: &Matchers, html: &str, min_level: u8, max_level: u8) -> (out: Vec<
    Heading,
>)
    ensures
        out.deep_view() == headings_of(html@, min_level, max_level),
        headings_in_order(html@, out.deep_view()),
{
    let captures = m.heading_captures(html);
    headings_from_captures(m, html, &captures, min_level, max_level)
}

/// Whether a tag name, in lower case, is that of a list.
pub open spec fn is_list_name(tag: Seq<char>) -> bool {
    tag == "ol"@ || tag == "ul"@ || tag == "dl"@
}

/// Whether a tag name, in lower case, is that of an element that never has
/// content.
pub open spec fn is_void_name(tag: Seq<char>) -> bool {
    ||| tag == "br"@
    ||| tag == "img"@
    ||| tag == "hr"@
    ||| tag == "meta"@
    ||| tag == "link"@
    ||| tag == "input"@
    ||| tag == "source"@
    ||| tag == "track"@
    ||| tag == "wbr"@
}

/// Whether a tag name, in lower case, is that of a list.
pub fn is_list_tag(tag: &str) -> (r: bool)
    ensures
        r == is_list_name(tag@),
{
    same_text(tag, "ol") || same_text(tag, "ul") || same_text(tag, "dl")
}

/// Whether a tag name, in lower case, is that of an element that never has
/// content.
pub fn is_void_tag(tag: &str) -> (r: bool)
    ensures
        r == is_void_name(tag@),
{
    same_text(tag, "br") || same_text(tag, "img") || same_text(tag, "hr") || same_text(tag, "meta")
        || same_text(tag, "link") || same_text(tag, "input") || same_text(tag, "source")
        || same_text(tag, "track") || same_text(tag, "wbr")
}

/// What a tag means to the scanner.
#[derive(Debug, Clone, Copy, PartialEq, Eq, Structural)]
pub enum TagKind {
    ListItem,
    List,
    Other,
}

/// One tag of the page: its byte span, whether it closes an element, its
/// kind, and whether it opens no nesting level.
#[derive(Debug, Clone, Copy, PartialEq, Eq, Structural)]
pub struct TagToken {
    pub start: usize,
    pub end: usize,
    pub closing: bool,
    pub kind: TagKind,
    pub self_closing: bool,
}

/// The kind of a tag with the given name in lower case.
pub open spec fn tag_kind(name: Seq<char>) -> TagKind {
    if name == "li"@ {
        TagKind::ListItem
    } else if is_list_name(name) {
        TagKind::List
    } else {
        TagKind::Other
    }
}

/// Whether the text of a tag's attributes ends with a slash, whitespace
/// after it set aside.
pub open spec fn ends_with_slash(attrs: Seq<char>) -> bool {
    let kept = attrs.len() - trailing_trimmable(attrs, false);
    kept > 0 && attrs[kept - 1] == '/'
}

/// The text of the group at `index`, empty where the group is missing.
pub open spec fn group_text_or_empty(
    html: Seq<char>,
    groups: Seq<Option<(usize, usize)>>,
    index: int,
) -> Seq<char> {
    match group_text(html, groups, index) {
        Some(text) => text,
        None => Seq::empty(),
    }
}

/// The tag that one match of the tag-token pattern stands for: group 0 is
/// the tag, group 1 the slash of a closing tag, group 2 the name, group 3
/// the attributes.
pub open spec fn token_of_match(html: Seq<char>, groups: Seq<Option<(usize, usize)>>) -> Option<
    TagToken,
> {
    if groups.len() == 0 {
        None
    } else {
        match groups[0] {
            Some(span) => {
                let name = ascii_lowered(group_text_or_empty(html, groups, 2));
                Some(
                    TagToken {
                        start: span.0,
                        end: span.1,
                        closing: groups.len() > 1 && groups[1] is Some,
                        kind: tag_kind(name),
                        self_closing: ends_with_slash(group_text_or_empty(html, groups, 3))
                            || is_void_name(name),
                    },
                )
            },
            None => None,
        }
    }
}

/// The tags that a sequence of matches stands for, in its order.
pub open spec fn tokens_from(html: Seq<char>, captures: Seq<Seq<Option<(usize, usize)>>>) -> Seq<
    TagToken,
>
    decreases captures.len(),
{
    if captures.len() == 0 {
        seq![]
    } else {
        let before = tokens_from(html, captures.drop_last());
        match token_of_match(html, captures.last()) {
            Some(token) => before.push(token),
            None => before,
        }
    }
}

/// The tags of `html`, in document order.
pub open spec fn tag_tokens_of(html: Seq<char>) -> Seq<TagToken> {
    tokens_from(html, regex_captures(TAG_TOKEN_PATTERN@, html))
}

/// Whether the text of a tag's attributes ends with a slash, whitespace
/// after it set aside.
pub fn attrs_end_with_slash(attrs: &str) -> (r: bool)
    ensures
        r == ends_with_slash(attrs@),
{
    let chars = chars_of(attrs);
    assert(chars@.subrange(0, chars.len() as int) =~= chars@);
    let dropped = count_trailing_trimmable(&chars, 0, false);
    let kept = chars.len() - dropped;
    kept > 0 && chars[kept - 1] == '/'
}

/// The tag that one match of the tag-token pattern stands for.
pub fn token_from_match(html: &str, groups: &Groups) -> (r: Option<TagToken>)
    ensures
        r == token_of_match(html@, groups@),
{
    if groups.len() == 0 {
        return None;
    }
    let (start, end) = match groups[0] {
        Some(span) => span,
        None => {
            return None;
        },
    };
    let name = match group_str(html, groups, 2) {
        Some(text) => ascii_lowercase(text),
        None => ascii_lowercase(""),
    };
    let attrs = match group_str(html, groups, 3) {
        Some(text) => text,
        None => "",
    };
    proof {
        reveal_strlit("");
        assert(""@ =~= Seq::<char>::empty());
        assert(ascii_lowered(Seq::<char>::empty()) =~= Seq::<char>::empty());
    }
    let closing = groups.len() > 1 && groups[1].is_some();
    let kind = if same_text(name.as_str(), "li") {
        TagKind::ListItem
    } else if is_list_tag(name.as_str()) {
        TagKind::List
    } else {
        TagKind::Other
    };
    let self_closing = attrs_end_with_slash(attrs) || is_void_tag(name.as_str());
    Some(TagToken { start, end, closing, kind, self_closing })
}

/// The tags that the given matches of the tag-token pattern stand for, in
/// their order.
pub fn tokens_from_captures(html: &str, captures: &Vec<Groups>) -> (out: Vec<TagToken>)
    ensures
        out@ == tokens_from(html@, captures.deep_view()),
        captures_in_order(html@, captures.deep_view()) ==> tokens_in_order(out@),
{
    proof {
        if captures_in_order(html@, captures.deep_view()) {
            lemma_tokens_in_order(html@, captures.deep_view());
        }
    }
    let mut out: Vec<TagToken> = Vec::new();
    let ghost all = captures.deep_view();
    let mut i: usize = 0;
    assert(all.take(0) =~= Seq::empty());
    while i < captures.len()
        invariant
            i <= captures.len(),
            all == captures.deep_view(),
            out@ == tokens_from(html@, all.take(i as int)),
        decreases captures.len() - i,
    {
        proof {
            lemma_groups_view(captures@[i as int]);
            assert(all.take(i + 1).drop_last() =~= all.take(i as int));
            assert(all.take(i + 1).last() == captures@[i as int]@);
        }
        match token_from_match(html, &captures[i]) {
            Some(token) => {
                out.push(token);
            },
            None => {},
        }
        i += 1;
    }
    assert(all.take(i as int) =~= all);
    out
}

/// The tags of `html`, in document order.
pub fn tag_tokens(m: &Matchers, html: &str) -> (out: Vec<TagToken>)
    ensures
        out@ == tag_tokens_of(html@),
        tokens_in_order(out@),
{
    let captures = m.tag_token_captures(html);
    tokens_from_captures(html, &captures)
}


/// Whether the headings come in document order: each is a byte range of
/// the page between code points, and each ends before the next starts.
pub open spec fn headings_in_order(html: Seq<char>, headings: Seq<HeadingView>) -> bool {
    &&& forall|i: int|
        0 <= i < headings.len() ==> is_byte_range(
            html,
            (#[trigger] headings[i]).start as int,
            headings[i].end as int,
        )
    &&& forall|i: int, j: int|
        0 <= i < j < headings.len() ==> (#[trigger] headings[i]).end <= (#[trigger] headings[j]).start
}

/// Whether the tags come in document order: each starts before it ends,
/// and each ends before the next starts.
pub open spec fn tokens_in_order(tokens: Seq<TagToken>) -> bool {
    &&& forall|i: int| 0 <= i < tokens.len() ==> (#[trigger] tokens[i]).start <= tokens[i].end
    &&& forall|i: int, j: int|
        0 <= i < j < tokens.len() ==> (#[trigger] tokens[i]).end <= (#[trigger] tokens[j]).start
}

/// Matches in order without their last are in order.
proof fn lemma_earlier_captures_in_order(
    html: Seq<char>,
    captures: Seq<Seq<Option<(usize, usize)>>>,
)
    requires
        captures_in_order(html, captures),
        captures.len() > 0,
    ensures
        captures_in_order(html, captures.drop_last()),
{
    let init = captures.drop_last();
    assert forall|i: int| 0 <= i < init.len() implies (#[trigger] init[i]).len() > 0
        && init[i][0] is Some && is_byte_range(
        html,
        whole_span(init[i]).0 as int,
        whole_span(init[i]).1 as int,
    ) by {
        assert(init[i] == captures[i]);
    }
    assert forall|i: int, j: int| 0 <= i < j < init.len() implies whole_span(
        #[trigger] init[i],
    ).1 <= whole_span(#[trigger] init[j]).0 by {
        assert(init[i] == captures[i]);
        assert(init[j] == captures[j]);
    }
}

/// The headings of matches in order are in order, and none ends after
/// the last match.
pub proof fn lemma_headings_in_order(
    html: Seq<char>,
    captures: Seq<Seq<Option<(usize, usize)>>>,
    min_level: u8,
    max_level: u8,
)
    requires
        captures_in_order(html, captures),
    ensures
        headings_in_order(html, headings_from(html, captures, min_level, max_level)),
        forall|i: int|
            0 <= i < headings_from(html, captures, min_level, max_level).len() ==> (
            #[trigger] headings_from(html, captures, min_level, max_level)[i]).end <= whole_span(
                captures.last(),
            ).1,
    decreases captures.len(),
{
    if captures.len() > 0 {
        let init = captures.drop_last();
        let before = headings_from(html, init, min_level, max_level);
        let all = headings_from(html, captures, min_level, max_level);
        let last = captures.len() - 1;
        lemma_earlier_captures_in_order(html, captures);
        lemma_headings_in_order(html, init, min_level, max_level);
        assert(captures[last].len() > 0);
        if init.len() > 0 {
            assert(init.last() == captures[last - 1]);
            assert(whole_span(captures[last - 1]).1 <= whole_span(captures[last]).0);
        }
        assert forall|i: int| 0 <= i < all.len() implies is_byte_range(
            html,
            (#[trigger] all[i]).start as int,
            all[i].end as int,
        ) && all[i].end <= whole_span(captures.last()).1 by {
            if i < before.len() {
                assert(all[i] == before[i]);
            }
        }
        assert forall|i: int, j: int| 0 <= i < j < all.len() implies (#[trigger] all[i]).end <= (
        #[trigger] all[j]).start by {
            assert(all[i] == before[i]);
            if j < before.len() {
                assert(all[j] == before[j]);
            }
        }
    }
}

/// The tags of matches in order are in order, and none ends after the
/// last match.
pub proof fn lemma_tokens_in_order(html: Seq<char>, captures: Seq<Seq<Option<(usize, usize)>>>)
    requires
        captures_in_order(html, captures),
    ensures
        tokens_in_order(tokens_from(html, captures)),
        forall|i: int|
            0 <= i < tokens_from(html, captures).len() ==> (#[trigger] tokens_from(
                html,
                captures,
            )[i]).end <= whole_span(captures.last()).1,
    decreases captures.len(),
{
    if captures.len() > 0 {
        let init = captures.drop_last();
        let before = tokens_from(html, init);
        let all = tokens_from(html, captures);
        let last = captures.len() - 1;
        lemma_earlier_captures_in_order(html, captures);
        lemma_tokens_in_order(html, init);
        assert(captures[last].len() > 0);
        if init.len() > 0 {
            assert(init.last() == captures[last - 1]);
            assert(whole_span(captures[last - 1]).1 <= whole_span(captures[last]).0);
        }
        assert forall|i: int| 0 <= i < all.len() implies (#[trigger] all[i]).start <= all[i].end
            && all[i].end <= whole_span(captures.last()).1 by {
            if i < before.len() {
                assert(all[i] == before[i]);
            }
        }
        assert forall|i: int, j: int| 0 <= i < j < all.len() implies (#[trigger] all[i]).end <= (
        #[trigger] all[j]).start by {
            assert(all[i] == before[i]);
            if j < before.len() {
                assert(all[j] == before[j]);
            }
        }
    }
}

} // verus!
