//! Confidence scores, counted in millionths: how likely a fragment is a
//! genuine definition or relation target rather than noise.

use crate::config::CONFIDENCE_ONE;
use crate::patterns::{regex_is_match, Matchers, RELATION_LABEL_PATTERN};
use crate::text::{char_is_alphabetic, chars_of, is_whitespace, is_whitespace_char, same_text};
use vstd::prelude::*;

verus! {

/// Whether a word starts at position `i` of `s`.
pub open spec fn starts_word(s: Seq<char>, i: int) -> bool {
    !is_whitespace(s[i]) && (i == 0 || is_whitespace(s[i - 1]))
}

/// The number of words of `s`: of its maximal runs of characters that are
/// not whitespace.
pub open spec fn word_count(s: Seq<char>) -> nat
    decreases s.len(),
{
    if s.len() == 0 {
        0
    } else {
        word_count(s.drop_last()) + if starts_word(s, s.len() - 1) {
            1nat
        } else {
            0nat
        }
    }
}

/// The number of alphabetic characters of `s`.
pub open spec fn alphabetic_count(s: Seq<char>) -> nat
    decreases s.len(),
{
    if s.len() == 0 {
        0
    } else {
        alphabetic_count(s.drop_last()) + if char_is_alphabetic(s.last()) {
            1nat
        } else {
            0nat
        }
    }
}

/// A score held to the range from 0 to 1.
pub open spec fn clamped(score: int) -> nat {
    if score < 0 {
        0
    } else if score > CONFIDENCE_ONE {
        CONFIDENCE_ONE as nat
    } else {
        score as nat
    }
}

/// The score of a definition before it is held to the range: 0.2 to start
/// with; 0.30 more for 4 to 42 words and 0.10 less for more than 42; 0.25
/// more for 24 to 350 characters; 0.10 more where normalizing changed the
/// text; 0.15 more for 8 alphabetic characters or more; 0.35 less where
/// the text holds a relation label.
pub open spec fn definition_points(
    words: nat,
    chars: nat,
    changed: bool,
    alphabetic: nat,
    labelled: bool,
) -> int {
    200_000 + (if 4 <= words <= 42 {
        300_000int
    } else if words > 42 {
        -100_000int
    } else {
        0int
    }) + (if 24 <= chars <= 350 {
        250_000int
    } else {
        0int
    }) + (if changed {
        100_000int
    } else {
        0int
    }) + (if alphabetic >= 8 {
        150_000int
    } else {
        0int
    }) + (if labelled {
        -350_000int
    } else {
        0int
    })
}

/// The confidence of a definition with the given raw and normalized text.
pub open spec fn definition_confidence(text: Seq<char>, normalized: Seq<char>) -> nat {
    clamped(
        definition_points(
            word_count(text),
            text.len(),
            normalized != text,
            alphabetic_count(text),
            regex_is_match(RELATION_LABEL_PATTERN@, text),
        ),
    )
}

/// The score of a relation target before it is held to the range: 0.3 to
/// start with; 0.30 more for 2 to 80 characters; 0.10 more where
/// normalizing changed the text; 0.20 more where it holds an alphabetic
/// character.
pub open spec fn relation_points(chars: nat, changed: bool, alphabetic: nat) -> int {
    300_000 + (if 2 <= chars <= 80 {
        300_000int
    } else {
        0int
    }) + (if changed {
        100_000int
    } else {
        0int
    }) + (if alphabetic > 0 {
        200_000int
    } else {
        0int
    })
}

/// The confidence of a relation target with the given raw and normalized
/// text.
pub open spec fn relation_confidence(text: Seq<char>, normalized: Seq<char>) -> nat {
    clamped(relation_points(text.len(), normalized != text, alphabetic_count(text)))
}

/// Every confidence lies between 0 and 1.
pub proof fn lemma_confidence_in_range(text: Seq<char>, normalized: Seq<char>)
    ensures
        definition_confidence(text, normalized) <= CONFIDENCE_ONE,
        relation_confidence(text, normalized) <= CONFIDENCE_ONE,
{
}

/// The number of words of `chars`.
pub fn count_words(chars: &Vec<char>) -> (n: usize)
    ensures
        n == word_count(chars@),
{
    let mut n: usize = 0;
    let mut in_word = false;
    let mut i: usize = 0;
    assert(chars@.take(0) =~= Seq::empty());
    while i < chars.len()
        invariant
            i <= chars.len(),
            n <= i,
            n == word_count(chars@.take(i as int)),
            in_word == (i > 0 && !is_whitespace(chars@[i - 1])),
        decreases chars.len() - i,
    {
        proof {
            let next = chars@.take(i + 1);
            assert(next.drop_last() =~= chars@.take(i as int));
            assert(next[i as int] == chars@[i as int]);
            if i > 0 {
                assert(next[i - 1] == chars@[i - 1]);
            }
        }
        let space = is_whitespace_char(chars[i]);
        if !space && !in_word {
            n += 1;
        }
        in_word = !space;
        i += 1;
    }
    assert(chars@.take(i as int) =~= chars@);
    n
}

/// The number of alphabetic characters of `chars`.
pub fn count_alphabetic(chars: &Vec<char>) -> (n: usize)
    ensures
        n == alphabetic_count(chars@),
{
    let mut n: usize = 0;
    let mut i: usize = 0;
    assert(chars@.take(0) =~= Seq::empty());
    while i < chars.len()
        invariant
            i <= chars.len(),
            n <= i,
            n == alphabetic_count(chars@.take(i as int)),
        decreases chars.len() - i,
    {
        proof {
            let next = chars@.take(i + 1);
            assert(next.drop_last() =~= chars@.take(i as int));
            assert(next.last() == chars@[i as int]);
        }
        if chars[i].is_alphabetic() {
            n += 1;
        }
        i += 1;
    }
    assert(chars@.take(i as int) =~= chars@);
    n
}

/// A score held to the range from 0 to 1.
pub fn clamp_score(score: i64) -> (r: u32)
    ensures
        r == clamped(score as int),
        r <= CONFIDENCE_ONE,
{
    if score < 0 {
        0
    } else if score > 1_000_000 {
        CONFIDENCE_ONE
    } else {
        score as u32
    }
}

/// The confidence of a definition with the given raw and normalized text.
/// It depends on the two texts alone and lies between 0 and 1.
pub fn score_definition(m: &Matchers, text: &str, normalized: &str) -> (r: u32)
    ensures
        r == definition_confidence(text@, normalized@),
        r <= CONFIDENCE_ONE,
{
    let chars = chars_of(text);
    let words = count_words(&chars);
    let alphabetic = count_alphabetic(&chars);
    let mut score: i64 = 200_000;
    if 4 <= words && words <= 42 {
        score += 300_000;
    } else if words > 42 {
        score -= 100_000;
    }
    if 24 <= chars.len() && chars.len() <= 350 {
        score += 250_000;
    }
    if !same_text(normalized, text) {
        score += 100_000;
    }
    if alphabetic >= 8 {
        score += 150_000;
    }
    if m.has_relation_label(text) {
        score -= 350_000;
    }
    clamp_score(score)
}

/// The confidence of a relation target with the given raw and normalized
/// text. It depends on the two texts alone and lies between 0 and 1.
pub fn score_relation(text: &str, normalized: &str) -> (r: u32)
    ensures
        r == relation_confidence(text@, normalized@),
        r <= CONFIDENCE_ONE,
{
    let chars = chars_of(text);
    let alphabetic = count_alphabetic(&chars);
    let mut score: i64 = 300_000;
    if 2 <= chars.len() && chars.len() <= 80 {
        score += 300_000;
    }
    if !same_text(normalized, text) {
        score += 100_000;
    }
    if alphabetic > 0 {
        score += 200_000;
    }
    clamp_score(score)
}

} // verus!
