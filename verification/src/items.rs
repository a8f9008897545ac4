//! Top-level list items: a state machine over the tags of a page that
//! tracks how deep lists and list items nest, and hands out the content of
//! each outermost item that was opened no deeper than the limit allows.

use crate::patterns::Matchers;
use crate::scanner::{tag_tokens, tag_tokens_of, tokens_in_order, TagKind, TagToken};
use crate::text::{byte_slice, is_byte_range, slice_bytes};
use vstd::prelude::*;

verus! {

/// What the pass over the tags remembers.
pub struct ScanState {
    /// How many lists are open.
    pub list_depth: nat,
    /// How many list items are open.
    pub li_depth: nat,
    /// Where the content of the outermost open item starts.
    pub current_start: Option<usize>,
    /// How many lists were open when the outermost open item was opened.
    pub current_list_depth: nat,
}

/// The span of an item's content as the pass finds it: from the end of
/// the tag that opens the item to the start of the tag that closes it.
pub struct ItemSpan {
    pub start: usize,
    pub end: usize,
}

/// The state before the first tag.
pub open spec fn initial_state() -> ScanState {
    ScanState { list_depth: 0, li_depth: 0, current_start: None, current_list_depth: 0 }
}

/// The state after the opening of `t`.
pub open spec fn opened(st: ScanState, t: TagToken) -> ScanState {
    let list_depth = if t.kind == TagKind::List {
        st.list_depth + 1
    } else {
        st.list_depth
    };
    if t.kind == TagKind::ListItem {
        if st.li_depth == 0 {
            ScanState {
                list_depth,
                li_depth: 1,
                current_start: Some(t.end),
                current_list_depth: list_depth,
            }
        } else {
            ScanState { list_depth, li_depth: st.li_depth + 1, ..st }
        }
    } else {
        ScanState { list_depth, ..st }
    }
}

/// Whether the end of a list item in this state ends an outermost item
/// that was opened no deeper than `limit` lists.
pub open spec fn item_ready(st: ScanState, limit: nat) -> bool {
    st.li_depth == 1 && st.current_list_depth <= limit && st.current_start is Some
}

/// The state after the end of a list item; an end without an open item
/// leaves the depth at zero.
pub open spec fn item_closed(st: ScanState, limit: nat) -> ScanState {
    ScanState {
        li_depth: if st.li_depth > 0 {
            (st.li_depth - 1) as nat
        } else {
            0
        },
        current_start: if item_ready(st, limit) {
            None
        } else {
            st.current_start
        },
        ..st
    }
}

/// The state after the end of a list; an end without an open list leaves
/// the depth at zero.
pub open spec fn list_closed(st: ScanState) -> ScanState {
    ScanState {
        list_depth: if st.list_depth > 0 {
            (st.list_depth - 1) as nat
        } else {
            0
        },
        ..st
    }
}

/// The state after the end of an element of the given kind.
pub open spec fn closed(st: ScanState, kind: TagKind, limit: nat) -> ScanState {
    match kind {
        TagKind::ListItem => item_closed(st, limit),
        TagKind::List => list_closed(st),
        TagKind::Other => st,
    }
}

/// The state after the tag `t`. A self-closing tag opens no level and
/// changes nothing.
pub open spec fn scan_step(st: ScanState, t: TagToken, limit: nat) -> ScanState {
    if t.closing {
        closed(st, t.kind, limit)
    } else if t.self_closing {
        st
    } else {
        opened(st, t)
    }
}

/// The item that the tag `t` completes in state `st`, if it completes one.
pub open spec fn emitted_span(st: ScanState, t: TagToken, limit: nat) -> Option<ItemSpan> {
    if t.kind == TagKind::ListItem && t.closing && item_ready(st, limit) {
        Some(ItemSpan { start: st.current_start->0, end: t.start })
    } else {
        None
    }
}

/// The state after all of `tokens`.
pub open spec fn scan_state(tokens: Seq<TagToken>, limit: nat) -> ScanState
    decreases tokens.len(),
{
    if tokens.len() == 0 {
        initial_state()
    } else {
        scan_step(scan_state(tokens.drop_last(), limit), tokens.last(), limit)
    }
}

/// The items that the pass over `tokens` completes, in the order of the
/// tags that complete them.
pub open spec fn scan_spans(tokens: Seq<TagToken>, limit: nat) -> Seq<ItemSpan>
    decreases tokens.len(),
{
    if tokens.len() == 0 {
        seq![]
    } else {
        let before = scan_spans(tokens.drop_last(), limit);
        match emitted_span(scan_state(tokens.drop_last(), limit), tokens.last(), limit) {
            Some(span) => before.push(span),
            None => before,
        }
    }
}

/// The content of a list item: the byte span between its tags and the
/// HTML in it.
#[derive(Debug, Clone)]
pub struct ListItemFragment {
    pub start: usize,
    pub end: usize,
    pub raw_html: String,
}

/// What a `ListItemFragment` holds.
pub struct ListItemView {
    pub start: usize,
    pub end: usize,
    pub raw_html: Seq<char>,
}

impl View for ListItemFragment {
    type V = ListItemView;

    open spec fn view(&self) -> ListItemView {
        ListItemView { start: self.start, end: self.end, raw_html: self.raw_html@ }
    }
}

impl DeepView for ListItemFragment {
    type V = ListItemView;

    open spec fn deep_view(&self) -> ListItemView {
        self@
    }
}

/// The fragment of a completed item: the HTML of its span; none where the
/// span is no byte range of `html` between code points.
pub open spec fn fragment_of(html: Seq<char>, span: ItemSpan) -> Option<ListItemView> {
    if is_byte_range(html, span.start as int, span.end as int) {
        Some(
            ListItemView {
                start: span.start,
                end: span.end,
                raw_html: byte_slice(html, span.start as int, span.end as int),
            },
        )
    } else {
        None
    }
}

/// The fragments of the given completed items, in their order.
pub open spec fn fragments_of(html: Seq<char>, spans: Seq<ItemSpan>) -> Seq<ListItemView>
    decreases spans.len(),
{
    if spans.len() == 0 {
        seq![]
    } else {
        let before = fragments_of(html, spans.drop_last());
        match fragment_of(html, spans.last()) {
            Some(fragment) => before.push(fragment),
            None => before,
        }
    }
}

/// The top-level list items that the tags `tokens` of `html` delimit, no
/// item opened deeper than `limit` lists among them.
pub open spec fn list_items_from(html: Seq<char>, tokens: Seq<TagToken>, limit: nat) -> Seq<
    ListItemView,
> {
    fragments_of(html, scan_spans(tokens, limit))
}

/// The top-level list items of `html`.
pub open spec fn list_items_of(html: Seq<char>, limit: nat) -> Seq<ListItemView> {
    list_items_from(html, tag_tokens_of(html), limit)
}

/// The counters of the pass, as the machine holds them.
#[derive(Debug, Clone, Copy)]
pub struct Scanner {
    pub list_depth: usize,
    pub li_depth: usize,
    pub current_start: Option<usize>,
    pub current_list_depth: usize,
}

impl View for Scanner {
    type V = ScanState;

    open spec fn view(&self) -> ScanState {
        ScanState {
            list_depth: self.list_depth as nat,
            li_depth: self.li_depth as nat,
            current_start: self.current_start,
            current_list_depth: self.current_list_depth as nat,
        }
    }
}

impl Scanner {
    /// The scanner before the first tag.
    pub fn new() -> (r: Scanner)
        ensures
            r@ == initial_state(),
    {
        Scanner { list_depth: 0, li_depth: 0, current_start: None, current_list_depth: 0 }
    }

    /// Takes one tag: the scanner after it, and the item that the tag
    /// completes, if it completes one.
    pub fn step(self, t: &TagToken, depth_limit: usize) -> (r: (Scanner, Option<(usize, usize)>))
        requires
            self.list_depth < usize::MAX,
            self.li_depth < usize::MAX,
        ensures
            r.0@ == scan_step(self@, *t, depth_limit as nat),
            match r.1 {
                Some(found) => emitted_span(self@, *t, depth_limit as nat) == Some(
                    ItemSpan { start: found.0, end: found.1 },
                ),
                None => emitted_span(self@, *t, depth_limit as nat) is None,
            },
            r.0.list_depth <= self.list_depth + 1,
            r.0.li_depth <= self.li_depth + 1,
    {
        let mut st = self;
        let mut found: Option<(usize, usize)> = None;
        let is_item = match t.kind {
            TagKind::ListItem => true,
            _ => false,
        };
        let is_list = match t.kind {
            TagKind::List => true,
            _ => false,
        };
        if !t.closing {
            if !t.self_closing {
                if is_list {
                    st.list_depth = st.list_depth + 1;
                }
                if is_item {
                    st.li_depth = st.li_depth + 1;
                    if st.li_depth == 1 {
                        st.current_start = Some(t.end);
                        st.current_list_depth = st.list_depth;
                    }
                }
            }
            return (st, None);
        }
        if is_item {
            if st.li_depth == 1 && st.current_list_depth <= depth_limit {
                match st.current_start {
                    Some(start) => {
                        found = Some((start, t.start));
                        st.current_start = None;
                    },
                    None => {},
                }
            }
            if st.li_depth > 0 {
                st.li_depth = st.li_depth - 1;
            }
        }
        if is_list {
            if st.list_depth > 0 {
                st.list_depth = st.list_depth - 1;
            }
        }
        (st, found)
    }
}

/// The fragment of a completed item.
pub fn fragment_from_span(html: &str, start: usize, end: usize) -> (r: Option<ListItemFragment>)
    ensures
        r is Some == fragment_of(html@, ItemSpan { start, end }) is Some,
        r matches Some(f) ==> Some(f@) == fragment_of(html@, ItemSpan { start, end }),
{
    match slice_bytes(html, start, end) {
        Some(raw) => Some(ListItemFragment { start, end, raw_html: raw.to_owned() }),
        None => None,
    }
}

/// The top-level list items that the tags `tokens` of `html` delimit. An
/// item nested in another item is part of that item's content; an item
/// opened deeper than `depth_limit` lists is dropped, and so is one whose
/// span is no byte range of `html` between code points.
pub fn list_items_from_tokens(html: &str, tokens: &Vec<TagToken>, depth_limit: usize) -> (out: Vec<
    ListItemFragment,
>)
    ensures
        out.deep_view() == list_items_from(html@, tokens@, depth_limit as nat),
        tokens_in_order(tokens@) ==> items_in_order(html@, out.deep_view()),
{
    proof {
        if tokens_in_order(tokens@) {
            lemma_list_items_in_order(html@, tokens@, depth_limit as nat);
        }
    }
    let mut out: Vec<ListItemFragment> = Vec::new();
    let mut st = Scanner::new();
    let ghost limit = depth_limit as nat;
    let mut i: usize = 0;
    assert(tokens@.take(0) =~= Seq::empty());
    assert(out.deep_view() =~= Seq::empty());
    while i < tokens.len()
        invariant
            i <= tokens.len(),
            limit == depth_limit as nat,
            st.list_depth <= i,
            st.li_depth <= i,
            st@ == scan_state(tokens@.take(i as int), limit),
            out.deep_view() == fragments_of(html@, scan_spans(tokens@.take(i as int), limit)),
        decreases tokens.len() - i,
    {
        let ghost before = out.deep_view();
        let ghost spans_before = scan_spans(tokens@.take(i as int), limit);
        proof {
            assert(tokens@.take(i + 1).drop_last() =~= tokens@.take(i as int));
            assert(tokens@.take(i + 1).last() == tokens@[i as int]);
        }
        let (next, found) = st.step(&tokens[i], depth_limit);
        st = next;
        match found {
            Some((start, end)) => {
                proof {
                    let span = ItemSpan { start, end };
                    assert(scan_spans(tokens@.take(i + 1), limit) == spans_before.push(span));
                    assert(spans_before.push(span).drop_last() =~= spans_before);
                }
                match fragment_from_span(html, start, end) {
                    Some(fragment) => {
                        out.push(fragment);
                        assert(out.deep_view() =~= before.push(fragment@));
                    },
                    None => {},
                }
            },
            None => {},
        }
        i += 1;
    }
    assert(tokens@.take(i as int) =~= tokens@);
    out
}

/// The top-level list items of `html`, in document order.
pub fn extract_list_items(m: &Matchers, html: &str, depth_limit: usize) -> (out: Vec<
    ListItemFragment,
>)
    ensures
        out.deep_view() == list_items_of(html@, depth_limit as nat),
        items_in_order(html@, out.deep_view()),
{
    let tokens = tag_tokens(m, html);
    list_items_from_tokens(html, &tokens, depth_limit)
}

/// Whether the tag at `k` opens an outermost list item whose content
/// starts at `start`, with no more than `limit` lists open around it.
pub open spec fn opens_top_level_item(tokens: Seq<TagToken>, k: int, limit: nat, start: usize) -> bool {
    &&& 0 <= k < tokens.len()
    &&& !tokens[k].closing
    &&& !tokens[k].self_closing
    &&& tokens[k].kind == TagKind::ListItem
    &&& tokens[k].end == start
    &&& scan_state(tokens.take(k), limit).li_depth == 0
    &&& scan_state(tokens.take(k), limit).list_depth <= limit
}

/// Whether the tag at `k` opened the outermost item that is open in `st`.
pub open spec fn tracks_open_item(tokens: Seq<TagToken>, k: int, limit: nat, st: ScanState) -> bool {
    &&& 0 <= k < tokens.len()
    &&& !tokens[k].closing
    &&& !tokens[k].self_closing
    &&& tokens[k].kind == TagKind::ListItem
    &&& st.current_start == Some(tokens[k].end)
    &&& scan_state(tokens.take(k), limit).li_depth == 0
    &&& scan_state(tokens.take(k), limit).list_depth == st.current_list_depth
}

/// While an item is open, the state remembers the tag that opened the
/// outermost one and how many lists were open around it.
pub proof fn lemma_state_tracks_open_item(tokens: Seq<TagToken>, limit: nat)
    ensures
        scan_state(tokens, limit).li_depth >= 1 ==> exists|k: int|
            tracks_open_item(tokens, k, limit, scan_state(tokens, limit)),
    decreases tokens.len(),
{
    if tokens.len() > 0 {
        let init = tokens.drop_last();
        let t = tokens.last();
        let st = scan_state(init, limit);
        let next = scan_state(tokens, limit);
        lemma_state_tracks_open_item(init, limit);
        if next.li_depth >= 1 {
            if st.li_depth >= 1 {
                let k = choose|k: int| tracks_open_item(init, k, limit, st);
                assert(tokens.take(k) =~= init.take(k));
                assert(tokens[k] == init[k]);
                assert(tracks_open_item(tokens, k, limit, next));
            } else {
                let k = init.len() as int;
                assert(tokens.take(k) =~= init);
                assert(tracks_open_item(tokens, k, limit, next));
            }
        }
    }
}

/// Whether some tag opens an outermost list item whose content starts at
/// `start`, with no more than `limit` lists open around it.
pub open spec fn opened_at_top_level(tokens: Seq<TagToken>, limit: nat, start: usize) -> bool {
    exists|k: int| opens_top_level_item(tokens, k, limit, start)
}

/// Depth limiting: every item that the pass completes is an outermost
/// item, opened with no more than `limit` lists open around it. An item
/// inside another item, or inside a list nested deeper than the limit, is
/// never handed out on its own.
pub proof fn lemma_spans_open_within_limit(tokens: Seq<TagToken>, limit: nat)
    ensures
        forall|j: int|
            0 <= j < scan_spans(tokens, limit).len() ==> opened_at_top_level(
                tokens,
                limit,
                (#[trigger] scan_spans(tokens, limit)[j]).start,
            ),
    decreases tokens.len(),
{
    if tokens.len() > 0 {
        let init = tokens.drop_last();
        let t = tokens.last();
        let st = scan_state(init, limit);
        let before = scan_spans(init, limit);
        let all = scan_spans(tokens, limit);
        lemma_spans_open_within_limit(init, limit);
        lemma_state_tracks_open_item(init, limit);
        assert forall|j: int| 0 <= j < all.len() implies opened_at_top_level(
            tokens,
            limit,
            (#[trigger] all[j]).start,
        ) by {
            if j < before.len() {
                assert(all[j] == before[j]);
                assert(opened_at_top_level(init, limit, before[j].start));
                let k = choose|k: int| opens_top_level_item(init, k, limit, before[j].start);
                assert(tokens.take(k) =~= init.take(k));
                assert(tokens[k] == init[k]);
                assert(opens_top_level_item(tokens, k, limit, all[j].start));
            } else {
                let span = emitted_span(st, t, limit)->0;
                assert(all[j] == span);
                let k = choose|k: int| tracks_open_item(init, k, limit, st);
                assert(tokens.take(k) =~= init.take(k));
                assert(tokens[k] == init[k]);
                assert(opens_top_level_item(tokens, k, limit, all[j].start));
            }
        }
    }
}

/// Each fragment is the fragment of a completed item and starts where that
/// item starts.
pub proof fn lemma_fragment_has_span(html: Seq<char>, spans: Seq<ItemSpan>)
    ensures
        forall|j: int|
            0 <= j < fragments_of(html, spans).len() ==> exists|i: int|
                0 <= i < spans.len() && spans[i].start == (#[trigger] fragments_of(
                    html,
                    spans,
                )[j]).start,
        fragments_of(html, spans).len() <= spans.len(),
    decreases spans.len(),
{
    if spans.len() > 0 {
        let init = spans.drop_last();
        let before = fragments_of(html, init);
        let all = fragments_of(html, spans);
        lemma_fragment_has_span(html, init);
        assert forall|j: int| 0 <= j < all.len() implies exists|i: int|
            0 <= i < spans.len() && spans[i].start == (#[trigger] all[j]).start by {
            if j < before.len() {
                assert(all[j] == before[j]);
                let i = choose|i: int| 0 <= i < init.len() && init[i].start == before[j].start;
                assert(spans[i] == init[i]);
            } else {
                assert(spans[spans.len() - 1].start == all[j].start);
            }
        }
    }
}

/// Depth limiting, of the list items themselves: every list item handed
/// out starts right after the tag that opens an outermost item with no
/// more than `limit` lists open around it.
pub proof fn lemma_list_items_open_within_limit(html: Seq<char>, tokens: Seq<TagToken>, limit: nat)
    ensures
        forall|j: int|
            0 <= j < list_items_from(html, tokens, limit).len() ==> opened_at_top_level(
                tokens,
                limit,
                (#[trigger] list_items_from(html, tokens, limit)[j]).start,
            ),
{
    let spans = scan_spans(tokens, limit);
    let items = list_items_from(html, tokens, limit);
    lemma_fragment_has_span(html, spans);
    lemma_spans_open_within_limit(tokens, limit);
    assert forall|j: int| 0 <= j < items.len() implies opened_at_top_level(
        tokens,
        limit,
        (#[trigger] items[j]).start,
    ) by {
        let i = choose|i: int| 0 <= i < spans.len() && spans[i].start == items[j].start;
        assert(opened_at_top_level(tokens, limit, spans[i].start));
    }
}


/// Every list item handed out is a slice of the page: its span is a byte
/// range of the page between code points, start before end, and its HTML
/// is the part of the page in that span.
pub proof fn lemma_list_items_are_slices(html: Seq<char>, spans: Seq<ItemSpan>)
    ensures
        forall|j: int|
            0 <= j < fragments_of(html, spans).len() ==> is_byte_range(
                html,
                (#[trigger] fragments_of(html, spans)[j]).start as int,
                fragments_of(html, spans)[j].end as int,
            ) && fragments_of(html, spans)[j].raw_html == byte_slice(
                html,
                fragments_of(html, spans)[j].start as int,
                fragments_of(html, spans)[j].end as int,
            ),
    decreases spans.len(),
{
    if spans.len() > 0 {
        let before = fragments_of(html, spans.drop_last());
        let all = fragments_of(html, spans);
        lemma_list_items_are_slices(html, spans.drop_last());
        assert forall|j: int| 0 <= j < all.len() implies is_byte_range(
            html,
            (#[trigger] all[j]).start as int,
            all[j].end as int,
        ) && all[j].raw_html == byte_slice(html, all[j].start as int, all[j].end as int) by {
            if j < before.len() {
                assert(all[j] == before[j]);
            }
        }
    }
}


/// Whether the list items come in document order without overlap: each
/// is a slice of the page between code points, start before end, and
/// each ends before the next starts.
pub open spec fn items_in_order(html: Seq<char>, items: Seq<ListItemView>) -> bool {
    &&& forall|i: int|
        0 <= i < items.len() ==> is_byte_range(
            html,
            (#[trigger] items[i]).start as int,
            items[i].end as int,
        ) && items[i].raw_html == byte_slice(html, items[i].start as int, items[i].end as int)
    &&& forall|i: int, j: int|
        0 <= i < j < items.len() ==> (#[trigger] items[i]).end <= (#[trigger] items[j]).start
}

/// Where the last of the tags ends; 0 where there is none.
pub open spec fn end_of_tags(tokens: Seq<TagToken>) -> int {
    if tokens.len() > 0 {
        tokens.last().end as int
    } else {
        0
    }
}

/// Whether the completed items come in order: each starts before it ends
/// and each ends before the next starts.
pub open spec fn spans_in_order(spans: Seq<ItemSpan>) -> bool {
    &&& forall|i: int| 0 <= i < spans.len() ==> (#[trigger] spans[i]).start <= spans[i].end
    &&& forall|i: int, j: int|
        0 <= i < j < spans.len() ==> (#[trigger] spans[i]).end <= (#[trigger] spans[j]).start
}

/// Over tags in document order the pass completes items in document
/// order: each starts before it ends and ends before the next starts; and
/// the item that is open starts after all that are completed.
pub proof fn lemma_spans_in_order(tokens: Seq<TagToken>, limit: nat)
    requires
        tokens_in_order(tokens),
    ensures
        spans_in_order(scan_spans(tokens, limit)),
        forall|i: int|
            0 <= i < scan_spans(tokens, limit).len() ==> (#[trigger] scan_spans(
                tokens,
                limit,
            )[i]).end <= end_of_tags(tokens),
        scan_state(tokens, limit).current_start is Some ==> scan_state(
            tokens,
            limit,
        ).current_start->0 <= end_of_tags(tokens) && forall|i: int|
            0 <= i < scan_spans(tokens, limit).len() ==> (#[trigger] scan_spans(
                tokens,
                limit,
            )[i]).end <= scan_state(tokens, limit).current_start->0,
    decreases tokens.len(),
{
    if tokens.len() > 0 {
        let init = tokens.drop_last();
        let t = tokens.last();
        let st = scan_state(init, limit);
        let next = scan_state(tokens, limit);
        let before = scan_spans(init, limit);
        let all = scan_spans(tokens, limit);
        let last = tokens.len() - 1;
        assert(tokens_in_order(init)) by {
            assert forall|i: int| 0 <= i < init.len() implies (#[trigger] init[i]).start
                <= init[i].end by {
                assert(init[i] == tokens[i]);
            }
            assert forall|i: int, j: int| 0 <= i < j < init.len() implies (#[trigger] init[i]).end
                <= (#[trigger] init[j]).start by {
                assert(init[i] == tokens[i]);
                assert(init[j] == tokens[j]);
            }
        }
        lemma_spans_in_order(init, limit);
        assert(tokens[last].start <= tokens[last].end);
        assert(end_of_tags(init) <= t.start) by {
            if init.len() > 0 {
                assert(init.last() == tokens[last - 1]);
                assert(tokens[last - 1].end <= tokens[last].start);
            }
        }
        assert forall|i: int| 0 <= i < all.len() implies (#[trigger] all[i]).start <= all[i].end
            && all[i].end <= end_of_tags(tokens) by {
            if i < before.len() {
                assert(all[i] == before[i]);
            }
        }
        assert forall|i: int, j: int| 0 <= i < j < all.len() implies (#[trigger] all[i]).end <= (
        #[trigger] all[j]).start by {
            assert(all[i] == before[i]);
            if j < before.len() {
                assert(all[j] == before[j]);
            }
        }
        if next.current_start is Some {
            assert forall|i: int| 0 <= i < all.len() implies (#[trigger] all[i]).end
                <= next.current_start->0 by {
                if i < before.len() {
                    assert(all[i] == before[i]);
                }
            }
        }
    }
}

/// The fragments of items in order are in order, and none ends after the
/// last item.
pub proof fn lemma_fragments_in_order(html: Seq<char>, spans: Seq<ItemSpan>)
    requires
        spans_in_order(spans),
    ensures
        items_in_order(html, fragments_of(html, spans)),
        forall|i: int|
            0 <= i < fragments_of(html, spans).len() ==> spans.len() > 0 && (
            #[trigger] fragments_of(html, spans)[i]).end <= spans.last().end,
    decreases spans.len(),
{
    if spans.len() > 0 {
        let init = spans.drop_last();
        let before = fragments_of(html, init);
        let all = fragments_of(html, spans);
        let last = spans.len() - 1;
        assert(spans_in_order(init)) by {
            assert forall|i: int| 0 <= i < init.len() implies (#[trigger] init[i]).start
                <= init[i].end by {
                assert(init[i] == spans[i]);
            }
            assert forall|i: int, j: int| 0 <= i < j < init.len() implies (#[trigger] init[i]).end
                <= (#[trigger] init[j]).start by {
                assert(init[i] == spans[i]);
                assert(init[j] == spans[j]);
            }
        }
        lemma_fragments_in_order(html, init);
        lemma_list_items_are_slices(html, spans);
        assert(spans[last].start <= spans[last].end);
        if init.len() > 0 {
            assert(init.last() == spans[last - 1]);
            assert(spans[last - 1].end <= spans[last].start);
        }
        assert forall|i: int| 0 <= i < all.len() implies (#[trigger] all[i]).end
            <= spans.last().end by {
            if i < before.len() {
                assert(all[i] == before[i]);
            }
        }
        assert forall|i: int, j: int| 0 <= i < j < all.len() implies (#[trigger] all[i]).end <= (
        #[trigger] all[j]).start by {
            assert(all[i] == before[i]);
            if j < before.len() {
                assert(all[j] == before[j]);
            }
        }
    }
}

/// Document order: the list items that tags in document order delimit
/// are slices of the page, come in document order and do not overlap.
pub proof fn lemma_list_items_in_order(html: Seq<char>, tokens: Seq<TagToken>, limit: nat)
    requires
        tokens_in_order(tokens),
    ensures
        items_in_order(html, list_items_from(html, tokens, limit)),
{
    lemma_spans_in_order(tokens, limit);
    lemma_fragments_in_order(html, scan_spans(tokens, limit));
}

/// An item that is never closed yields no fragment: the pass completes
/// no more items than the tags hold closing tags of list items.
pub proof fn lemma_items_need_closing_tags(tokens: Seq<TagToken>, limit: nat)
    ensures
        scan_spans(tokens, limit).len() <= closing_item_tags(tokens),
    decreases tokens.len(),
{
    if tokens.len() > 0 {
        lemma_items_need_closing_tags(tokens.drop_last(), limit);
    }
}

/// The number of closing tags of list items among the tags.
pub open spec fn closing_item_tags(tokens: Seq<TagToken>) -> nat
    decreases tokens.len(),
{
    if tokens.len() == 0 {
        0
    } else {
        closing_item_tags(tokens.drop_last()) + if tokens.last().closing && tokens.last().kind
            == TagKind::ListItem {
            1nat
        } else {
            0nat
        }
    }
}

} // verus!
