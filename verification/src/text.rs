//! Text primitives: slicing by byte offsets that never cuts a code point,
//! whitespace and trimming, prefixes, the case of ASCII letters, and the
//! order of strings.

use vstd::prelude::*;
use vstd::string::StringSliceAdditionalSpecFns;
use vstd::utf8::*;

verus! {

/// The characters of `s` whose UTF-8 encoding occupies the bytes `start..end`.
pub open spec fn byte_slice(s: Seq<char>, start: int, end: int) -> Seq<char> {
    decode_utf8(encode_utf8(s).subrange(start, end))
}

/// Whether `start..end` is a byte range of the encoding of `s` that begins
/// and ends between code points.
pub open spec fn is_byte_range(s: Seq<char>, start: int, end: int) -> bool {
    &&& 0 <= start <= end <= encode_utf8(s).len()
    &&& is_char_boundary(encode_utf8(s), start)
    &&& is_char_boundary(encode_utf8(s), end)
}

/// The length of `s` in bytes of UTF-8.
pub open spec fn byte_len(s: Seq<char>) -> nat {
    encode_utf8(s).len()
}

/// The part of `s` between the byte offsets `start` and `end`, or `None`
/// where the range is reversed, runs past the end or cuts a code point.
pub fn slice_bytes<'a>(s: &'a str, start: usize, end: usize) -> (r: Option<&'a str>)
    ensures
        r is Some <==> is_byte_range(s@, start as int, end as int),
        r matches Some(t) ==> t@ == byte_slice(s@, start as int, end as int),
{
    broadcast use {encode_utf8_valid_utf8, encode_utf8_decode_utf8};
    let len = s.as_bytes().len();
    if start <= end && end <= len && s.is_char_boundary(start) && s.is_char_boundary(end) {
        let (head, _) = s.split_at(end);
        proof {
            lemma_boundary_of_prefix(encode_utf8(s@), start as int, end as int);
        }
        let (_, mid) = head.split_at(start);
        assert(mid.spec_bytes() == encode_utf8(s@).subrange(start as int, end as int));
        Some(mid)
    } else {
        None
    }
}

/// A boundary of a byte sequence is a boundary of each prefix that reaches
/// it and itself ends at a boundary.
pub proof fn lemma_boundary_of_prefix(bytes: Seq<u8>, start: int, end: int)
    requires
        valid_utf8(bytes),
        0 <= start <= end <= bytes.len(),
        is_char_boundary(bytes, start),
        is_char_boundary(bytes, end),
    ensures
        valid_utf8(bytes.subrange(0, end)),
        is_char_boundary(bytes.subrange(0, end), start),
{
    valid_utf8_split(bytes, end);
    let head = bytes.subrange(0, end);
    if start < end {
        is_char_boundary_iff_not_is_continuation_byte(bytes, start);
        is_char_boundary_iff_not_is_continuation_byte(head, start);
    } else {
        is_char_boundary_start_end_of_seq(head);
    }
}

/// The characters of `s`, one element each.
pub fn chars_of(s: &str) -> (v: Vec<char>)
    ensures
        v@ == s@,
{
    let mut v: Vec<char> = Vec::new();
    for c in it: s.chars()
        invariant
            it.seq() == s@,
            v@ == s@.take(it.index() as int),
    {
        v.push(c);
    }
    v
}

/// Whether `c` has the Unicode property White_Space.
pub open spec fn is_whitespace(c: char) -> bool {
    let u = c as u32;
    ||| 0x09 <= u <= 0x0D
    ||| u == 0x20
    ||| u == 0x85
    ||| u == 0xA0
    ||| u == 0x1680
    ||| 0x2000 <= u <= 0x200A
    ||| u == 0x2028
    ||| u == 0x2029
    ||| u == 0x202F
    ||| u == 0x205F
    ||| u == 0x3000
}

/// Whether `c` is whitespace.
pub fn is_whitespace_char(c: char) -> (r: bool)
    ensures
        r == is_whitespace(c),
{
    let u: u32 = c as u32;
    (0x09 <= u && u <= 0x0D) || u == 0x20 || u == 0x85 || u == 0xA0 || u == 0x1680 || (0x2000 <= u
        && u <= 0x200A) || u == 0x2028 || u == 0x2029 || u == 0x202F || u == 0x205F || u == 0x3000
}

/// The punctuation that is trimmed from the edges of a target term.
pub open spec fn is_edge_punctuation(c: char) -> bool {
    c == ':' || c == ',' || c == ';' || c == '.' || c == '(' || c == ')' || c == '[' || c == ']'
}

/// What a trim removes: whitespace, and edge punctuation where asked for.
pub open spec fn is_trimmable(c: char, punctuation: bool) -> bool {
    is_whitespace(c) || (punctuation && is_edge_punctuation(c))
}

/// Whether a trim removes `c`.
pub fn is_trimmable_char(c: char, punctuation: bool) -> (r: bool)
    ensures
        r == is_trimmable(c, punctuation),
{
    is_whitespace_char(c) || (punctuation && (c == ':' || c == ',' || c == ';' || c == '.' || c
        == '(' || c == ')' || c == '[' || c == ']'))
}

/// The number of trimmable characters at the start of `s`.
pub open spec fn leading_trimmable(s: Seq<char>, punctuation: bool) -> nat
    decreases s.len(),
{
    if s.len() > 0 && is_trimmable(s[0], punctuation) {
        1 + leading_trimmable(s.drop_first(), punctuation)
    } else {
        0
    }
}

/// The number of trimmable characters at the end of `s`.
pub open spec fn trailing_trimmable(s: Seq<char>, punctuation: bool) -> nat
    decreases s.len(),
{
    if s.len() > 0 && is_trimmable(s.last(), punctuation) {
        1 + trailing_trimmable(s.drop_last(), punctuation)
    } else {
        0
    }
}

/// `s` without the trimmable characters at its start.
pub open spec fn trimmed_start_by(s: Seq<char>, punctuation: bool) -> Seq<char> {
    s.subrange(leading_trimmable(s, punctuation) as int, s.len() as int)
}

/// `s` without the trimmable characters at its end.
pub open spec fn trimmed_end_by(s: Seq<char>, punctuation: bool) -> Seq<char> {
    s.subrange(0, s.len() - trailing_trimmable(s, punctuation))
}

/// `s` without the trimmable characters at either end.
pub open spec fn trimmed_by(s: Seq<char>, punctuation: bool) -> Seq<char> {
    trimmed_end_by(trimmed_start_by(s, punctuation), punctuation)
}

/// `s` without the whitespace at either end.
pub open spec fn trimmed(s: Seq<char>) -> Seq<char> {
    trimmed_by(s, false)
}

/// The number of trimmable characters at the start of `chars`.
pub fn count_leading_trimmable(chars: &Vec<char>, punctuation: bool) -> (n: usize)
    ensures
        n == leading_trimmable(chars@, punctuation),
        n <= chars.len(),
{
    let mut i: usize = 0;
    assert(chars@.subrange(0, chars.len() as int) =~= chars@);
    while i < chars.len() && is_trimmable_char(chars[i], punctuation)
        invariant
            i <= chars.len(),
            leading_trimmable(chars@, punctuation) == i + leading_trimmable(
                chars@.subrange(i as int, chars.len() as int),
                punctuation,
            ),
        decreases chars.len() - i,
    {
        proof {
            let rest = chars@.subrange(i as int, chars.len() as int);
            assert(rest[0] == chars@[i as int]);
            assert(rest.drop_first() =~= chars@.subrange(i + 1, chars.len() as int));
        }
        i += 1;
    }
    proof {
        let rest = chars@.subrange(i as int, chars.len() as int);
        if i < chars.len() {
            assert(rest[0] == chars@[i as int]);
        }
    }
    i
}

/// The number of trimmable characters at the end of `chars[from..]`.
pub fn count_trailing_trimmable(chars: &Vec<char>, from: usize, punctuation: bool) -> (n: usize)
    requires
        from <= chars.len(),
    ensures
        n == trailing_trimmable(chars@.subrange(from as int, chars.len() as int), punctuation),
        from + n <= chars.len(),
{
    let mut end: usize = chars.len();
    while end > from && is_trimmable_char(chars[end - 1], punctuation)
        invariant
            from <= end <= chars.len(),
            trailing_trimmable(chars@.subrange(from as int, chars.len() as int), punctuation)
                == (chars.len() - end) + trailing_trimmable(
                chars@.subrange(from as int, end as int),
                punctuation,
            ),
        decreases end,
    {
        proof {
            let rest = chars@.subrange(from as int, end as int);
            assert(rest.last() == chars@[end - 1]);
            assert(rest.drop_last() =~= chars@.subrange(from as int, end - 1));
        }
        end -= 1;
    }
    proof {
        let rest = chars@.subrange(from as int, end as int);
        if end > from {
            assert(rest.last() == chars@[end - 1]);
        }
    }
    chars.len() - end
}

/// `s` without the trimmable characters at either end.
pub fn trim_by<'a>(s: &'a str, punctuation: bool) -> (r: &'a str)
    ensures
        r@ == trimmed_by(s@, punctuation),
{
    let chars = chars_of(s);
    let start = count_leading_trimmable(&chars, punctuation);
    let dropped = count_trailing_trimmable(&chars, start, punctuation);
    let end = chars.len() - dropped;
    proof {
        let rest = s@.subrange(start as int, s@.len() as int);
        assert(rest.subrange(0, rest.len() - dropped) =~= s@.subrange(start as int, end as int));
    }
    s.substring_char(start, end)
}

/// `s` without the whitespace at either end.
pub fn trim<'a>(s: &'a str) -> (r: &'a str)
    ensures
        r@ == trimmed(s@),
{
    trim_by(s, false)
}

/// Whether two strings hold the same characters.
pub fn same_text(a: &str, b: &str) -> (r: bool)
    ensures
        r == (a@ == b@),
{
    let left = chars_of(a);
    let right = chars_of(b);
    if left.len() != right.len() {
        return false;
    }
    let mut i: usize = 0;
    while i < left.len()
        invariant
            i <= left.len(),
            left.len() == right.len(),
            left@ == a@,
            right@ == b@,
            left@.take(i as int) == right@.take(i as int),
        decreases left.len() - i,
    {
        if left[i] != right[i] {
            return false;
        }
        assert(left@.take(i + 1) =~= left@.take(i as int).push(left@[i as int]));
        assert(right@.take(i + 1) =~= right@.take(i as int).push(right@[i as int]));
        i += 1;
    }
    assert(left@.take(i as int) =~= left@);
    assert(right@.take(i as int) =~= right@);
    true
}

/// The lower-case form of a string (`str::to_lowercase`).
pub uninterp spec fn lowercase_of(s: Seq<char>) -> Seq<char>;

/// Whether a character has the Unicode property Alphabetic
/// (`char::is_alphabetic`).
pub uninterp spec fn char_is_alphabetic(c: char) -> bool;

/// `str::to_lowercase`: the result is a function of the characters alone.
pub assume_specification[ str::to_lowercase ](s: &str) -> (out: String)
    ensures
        out@ == lowercase_of(s@),
;

/// `char::is_alphabetic`: the result is a function of the character alone.
pub assume_specification[ char::is_alphabetic ](c: char) -> (r: bool)
    ensures
        r == char_is_alphabetic(c),
;

/// `String::push` appends one character.
pub assume_specification[ String::push ](s: &mut String, ch: char)
    ensures
        final(s)@ == old(s)@.push(ch),
;

/// The number of characters of `s`.
pub fn char_len(s: &str) -> (n: usize)
    ensures
        n == s@.len(),
{
    s.unicode_len()
}

/// `s` without `prefix` at its start, where it starts with it.
pub open spec fn without_prefix(s: Seq<char>, prefix: Seq<char>) -> Option<Seq<char>> {
    if prefix.is_prefix_of(s) {
        Some(s.subrange(prefix.len() as int, s.len() as int))
    } else {
        None
    }
}

/// Whether `chars` starts with `prefix`.
pub fn starts_with_chars(chars: &Vec<char>, prefix: &Vec<char>) -> (r: bool)
    ensures
        r == prefix@.is_prefix_of(chars@),
{
    if prefix.len() > chars.len() {
        return false;
    }
    let mut i: usize = 0;
    while i < prefix.len()
        invariant
            i <= prefix.len() <= chars.len(),
            prefix@.take(i as int) == chars@.take(i as int),
        decreases prefix.len() - i,
    {
        if prefix[i] != chars[i] {
            assert(prefix@[i as int] != chars@.subrange(0, prefix.len() as int)[i as int]);
            return false;
        }
        assert(prefix@.take(i + 1) =~= prefix@.take(i as int).push(prefix@[i as int]));
        assert(chars@.take(i + 1) =~= chars@.take(i as int).push(chars@[i as int]));
        i += 1;
    }
    assert(prefix@.take(i as int) =~= prefix@);
    assert(chars@.take(i as int) =~= chars@.subrange(0, prefix.len() as int));
    true
}

/// Whether `s` starts with `prefix`.
pub fn starts_with(s: &str, prefix: &str) -> (r: bool)
    ensures
        r == prefix@.is_prefix_of(s@),
{
    let chars = chars_of(s);
    let head = chars_of(prefix);
    starts_with_chars(&chars, &head)
}

/// `s` without `prefix` at its start, or `None` where it does not start
/// with it.
pub fn strip_prefix<'a>(s: &'a str, prefix: &str) -> (r: Option<&'a str>)
    ensures
        r is Some == without_prefix(s@, prefix@) is Some,
        r matches Some(rest) ==> Some(rest@) == without_prefix(s@, prefix@),
{
    let chars = chars_of(s);
    let head = chars_of(prefix);
    if starts_with_chars(&chars, &head) {
        Some(s.substring_char(head.len(), chars.len()))
    } else {
        None
    }
}

/// The order of strings: by code point, a proper prefix before its
/// extensions.
pub open spec fn lex_less(a: Seq<char>, b: Seq<char>) -> bool
    decreases a.len(),
{
    if b.len() == 0 {
        false
    } else if a.len() == 0 {
        true
    } else if a[0] != b[0] {
        (a[0] as u32) < (b[0] as u32)
    } else {
        lex_less(a.drop_first(), b.drop_first())
    }
}

/// Whether `a` comes before `b` in the order of strings.
pub fn text_less(a: &str, b: &str) -> (r: bool)
    ensures
        r == lex_less(a@, b@),
{
    let left = chars_of(a);
    let right = chars_of(b);
    let mut i: usize = 0;
    assert(left@.subrange(0, left.len() as int) =~= left@);
    assert(right@.subrange(0, right.len() as int) =~= right@);
    while i < left.len() && i < right.len()
        invariant
            i <= left.len(),
            i <= right.len(),
            left@ == a@,
            right@ == b@,
            lex_less(a@, b@) == lex_less(
                left@.subrange(i as int, left.len() as int),
                right@.subrange(i as int, right.len() as int),
            ),
        decreases left.len() - i,
    {
        proof {
            let l = left@.subrange(i as int, left.len() as int);
            let r = right@.subrange(i as int, right.len() as int);
            assert(l[0] == left@[i as int]);
            assert(r[0] == right@[i as int]);
            assert(l.drop_first() =~= left@.subrange(i + 1, left.len() as int));
            assert(r.drop_first() =~= right@.subrange(i + 1, right.len() as int));
        }
        if left[i] != right[i] {
            return (left[i] as u32) < (right[i] as u32);
        }
        i += 1;
    }
    i < right.len()
}

/// The code point of `c`, an ASCII capital letter taken as its small
/// letter.
pub open spec fn ascii_lower_code(c: char) -> u32 {
    let u = c as u32;
    if 0x41 <= u <= 0x5A {
        (u + 0x20) as u32
    } else {
        u
    }
}

/// Whether two strings are equal but for the case of their ASCII letters.
pub open spec fn eq_ignore_ascii_case(a: Seq<char>, b: Seq<char>) -> bool {
    &&& a.len() == b.len()
    &&& forall|i: int| 0 <= i < a.len() ==> ascii_lower_code(a[i]) == ascii_lower_code(b[i])
}

/// The code point of `c`, an ASCII capital letter taken as its small
/// letter.
pub fn lower_code(c: char) -> (u: u32)
    ensures
        u == ascii_lower_code(c),
{
    let u: u32 = c as u32;
    if 0x41 <= u && u <= 0x5A {
        u + 0x20
    } else {
        u
    }
}

/// Whether two strings are equal but for the case of their ASCII letters.
pub fn same_text_ignore_ascii_case(a: &str, b: &str) -> (r: bool)
    ensures
        r == eq_ignore_ascii_case(a@, b@),
{
    let left = chars_of(a);
    let right = chars_of(b);
    if left.len() != right.len() {
        return false;
    }
    let mut i: usize = 0;
    while i < left.len()
        invariant
            i <= left.len(),
            left.len() == right.len(),
            left@ == a@,
            right@ == b@,
            forall|k: int| 0 <= k < i ==> ascii_lower_code(a@[k]) == ascii_lower_code(b@[k]),
        decreases left.len() - i,
    {
        if lower_code(left[i]) != lower_code(right[i]) {
            return false;
        }
        i += 1;
    }
    true
}

/// An ASCII capital letter as its small letter; any other character as
/// itself.
pub open spec fn ascii_lower(c: char) -> char {
    if 0x41 <= c as u32 <= 0x5A {
        ((c as u32 + 0x20) as u8) as char
    } else {
        c
    }
}

/// `s` with its ASCII capital letters as small letters.
pub open spec fn ascii_lowered(s: Seq<char>) -> Seq<char> {
    s.map_values(|c: char| ascii_lower(c))
}

/// An ASCII capital letter as its small letter; any other character as
/// itself.
pub fn to_ascii_lower(c: char) -> (r: char)
    ensures
        r == ascii_lower(c),
{
    let code: u32 = c as u32;
    if 0x41 <= code && code <= 0x5A {
        let small: u8 = (code + 0x20) as u8;
        small as char
    } else {
        c
    }
}

/// `s` with its ASCII capital letters as small letters.
pub fn ascii_lowercase(s: &str) -> (out: String)
    ensures
        out@ == ascii_lowered(s@),
{
    let mut out = String::new();
    for c in it: s.chars()
        invariant
            it.seq() == s@,
            out@ == ascii_lowered(s@.take(it.index() as int)),
    {
        proof {
            let done = it.index() as int;
            assert(ascii_lowered(s@.take(done + 1)) =~= ascii_lowered(s@.take(done)).push(
                ascii_lower(c),
            ));
        }
        out.push(to_ascii_lower(c));
    }
    assert(s@.take(s@.len() as int) =~= s@);
    out
}

} // verus!
