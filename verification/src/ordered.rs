//! Sets of strings kept as sorted vectors without repetition.

use crate::text::{lex_less, same_text, text_less};
use vstd::prelude::*;

verus! {

/// No string comes before itself.
pub proof fn lemma_lex_irreflexive(a: Seq<char>)
    ensures
        !lex_less(a, a),
    decreases a.len(),
{
    if a.len() > 0 {
        lemma_lex_irreflexive(a.drop_first());
    }
}

/// Of two different strings one comes before the other.
pub proof fn lemma_lex_total(a: Seq<char>, b: Seq<char>)
    ensures
        a != b ==> lex_less(a, b) || lex_less(b, a),
    decreases a.len(),
{
    if a.len() > 0 && b.len() > 0 && a[0] == b[0] {
        lemma_lex_total(a.drop_first(), b.drop_first());
        if a.drop_first() == b.drop_first() {
            assert(a =~= seq![a[0]] + a.drop_first());
            assert(b =~= seq![b[0]] + b.drop_first());
        }
    } else if a.len() == 0 && b.len() == 0 {
        assert(a =~= b);
    } else if a.len() > 0 && b.len() > 0 {
        vstd::utf8::char_u32_cast(a[0], a[0] as u32);
        vstd::utf8::char_u32_cast(b[0], b[0] as u32);
    }
}

/// The order of strings is transitive.
pub proof fn lemma_lex_transitive(a: Seq<char>, b: Seq<char>, c: Seq<char>)
    requires
        lex_less(a, b),
        lex_less(b, c),
    ensures
        lex_less(a, c),
    decreases a.len(),
{
    if a.len() > 0 && b.len() > 0 && c.len() > 0 && a[0] == b[0] && b[0] == c[0] {
        lemma_lex_transitive(a.drop_first(), b.drop_first(), c.drop_first());
    }
}

/// Each string comes before all that follow it.
pub open spec fn strictly_sorted(s: Seq<Seq<char>>) -> bool {
    forall|i: int, j: int| 0 <= i < j < s.len() ==> lex_less(#[trigger] s[i], #[trigger] s[j])
}

/// The sorted sequence `s` with `x` put in its place, unless `x` is in it
/// already.
pub open spec fn sorted_insert(s: Seq<Seq<char>>, x: Seq<char>) -> Seq<Seq<char>>
    decreases s.len(),
{
    if s.len() == 0 {
        seq![x]
    } else if s[0] == x {
        s
    } else if lex_less(x, s[0]) {
        seq![x] + s
    } else {
        seq![s[0]] + sorted_insert(s.drop_first(), x)
    }
}

/// The strings of `items`, each once, in the order of strings.
pub open spec fn sorted_set(items: Seq<Seq<char>>) -> Seq<Seq<char>>
    decreases items.len(),
{
    if items.len() == 0 {
        seq![]
    } else {
        sorted_insert(sorted_set(items.drop_last()), items.last())
    }
}

/// Inserting keeps a sorted sequence sorted and adds the one string to
/// what it holds.
pub proof fn lemma_sorted_insert(s: Seq<Seq<char>>, x: Seq<char>)
    requires
        strictly_sorted(s),
    ensures
        strictly_sorted(sorted_insert(s, x)),
        forall|y: Seq<char>| #[trigger]
            sorted_insert(s, x).contains(y) <==> (s.contains(y) || y == x),
        s.len() <= sorted_insert(s, x).len() <= s.len() + 1,
    decreases s.len(),
{
    let out = sorted_insert(s, x);
    if s.len() == 0 {
        assert(out[0] == x);
        assert forall|y: Seq<char>| out.contains(y) <==> (s.contains(y) || y == x) by {
            if y == x {
                assert(out[0] == y);
            }
        }
    } else if s[0] == x {
        assert(s.contains(x));
    } else if lex_less(x, s[0]) {
        assert forall|i: int, j: int| 0 <= i < j < out.len() implies lex_less(out[i], out[j]) by {
            if i == 0 {
                assert(out[j] == s[j - 1]);
                if j > 1 {
                    assert(lex_less(s[0], s[j - 1]));
                    lemma_lex_transitive(x, s[0], s[j - 1]);
                }
            } else {
                assert(out[i] == s[i - 1]);
                assert(out[j] == s[j - 1]);
            }
        }
        assert forall|y: Seq<char>| out.contains(y) <==> (s.contains(y) || y == x) by {
            if y == x {
                assert(out[0] == y);
            }
            if s.contains(y) {
                let k = choose|k: int| 0 <= k < s.len() && s[k] == y;
                assert(out[k + 1] == y);
            }
            if out.contains(y) {
                let k = choose|k: int| 0 <= k < out.len() && out[k] == y;
                if k > 0 {
                    assert(s[k - 1] == y);
                }
            }
        }
    } else {
        let rest = s.drop_first();
        let inner = sorted_insert(rest, x);
        assert(strictly_sorted(rest)) by {
            assert forall|i: int, j: int| 0 <= i < j < rest.len() implies lex_less(
                rest[i],
                rest[j],
            ) by {
                assert(rest[i] == s[i + 1]);
                assert(rest[j] == s[j + 1]);
            }
        }
        lemma_sorted_insert(rest, x);
        lemma_lex_total(x, s[0]);
        assert(out == seq![s[0]] + inner);
        assert(out.len() == inner.len() + 1);
        assert forall|i: int, j: int| 0 <= i < j < out.len() implies lex_less(out[i], out[j]) by {
            if i == 0 {
                let y = inner[j - 1];
                assert(out[0] == s[0]);
                assert(out[j] == y);
                assert(inner.contains(y));
                assert(rest.contains(y) || y == x);
                if y == x {
                    assert(lex_less(s[0], x));
                } else {
                    let k = choose|k: int| 0 <= k < rest.len() && rest[k] == y;
                    assert(s[k + 1] == y);
                    assert(lex_less(s[0], s[k + 1]));
                }
            } else {
                assert(out[i] == inner[i - 1]);
                assert(out[j] == inner[j - 1]);
            }
        }
        assert forall|y: Seq<char>| out.contains(y) <==> (s.contains(y) || y == x) by {
            if out.contains(y) {
                let k = choose|k: int| 0 <= k < out.len() && out[k] == y;
                if k > 0 {
                    assert(inner[k - 1] == y);
                    assert(inner.contains(y));
                    if rest.contains(y) {
                        let r = choose|r: int| 0 <= r < rest.len() && rest[r] == y;
                        assert(s[r + 1] == y);
                    }
                } else {
                    assert(s[0] == y);
                }
            }
            if s.contains(y) {
                let k = choose|k: int| 0 <= k < s.len() && s[k] == y;
                if k == 0 {
                    assert(out[0] == y);
                } else {
                    assert(rest[k - 1] == y);
                    assert(rest.contains(y));
                    assert(inner.contains(y));
                    let r = choose|r: int| 0 <= r < inner.len() && inner[r] == y;
                    assert(out[r + 1] == y);
                }
            }
            if y == x {
                assert(inner.contains(y));
                let r = choose|r: int| 0 <= r < inner.len() && inner[r] == y;
                assert(out[r + 1] == y);
            }
        }
    }
}

/// A sorted set is sorted, holds no string twice, and holds exactly the
/// strings it was made from.
pub proof fn lemma_sorted_set(items: Seq<Seq<char>>)
    ensures
        strictly_sorted(sorted_set(items)),
        forall|i: int, j: int|
            0 <= i < j < sorted_set(items).len() ==> #[trigger] sorted_set(items)[i]
                != #[trigger] sorted_set(items)[j],
        forall|y: Seq<char>| #[trigger] sorted_set(items).contains(y) <==> items.contains(y),
        sorted_set(items).len() <= items.len(),
    decreases items.len(),
{
    if items.len() > 0 {
        let init = items.drop_last();
        lemma_sorted_set(init);
        lemma_sorted_insert(sorted_set(init), items.last());
        assert forall|y: Seq<char>| sorted_set(items).contains(y) <==> items.contains(y) by {
            if items.contains(y) {
                let k = choose|k: int| 0 <= k < items.len() && items[k] == y;
                if k < init.len() {
                    assert(init[k] == y);
                    assert(init.contains(y));
                }
            }
            if init.contains(y) {
                let k = choose|k: int| 0 <= k < init.len() && init[k] == y;
                assert(items[k] == y);
            }
            if y == items.last() {
                assert(items[items.len() - 1] == y);
            }
        }
    }
    assert forall|i: int, j: int| 0 <= i < j < sorted_set(items).len() implies #[trigger] sorted_set(
        items,
    )[i] != #[trigger] sorted_set(items)[j] by {
        lemma_lex_irreflexive(sorted_set(items)[i]);
    }
}

/// Puts `x` in its place in the sorted vector `v`, unless `v` holds it
/// already.
pub fn insert_sorted(v: &mut Vec<String>, x: String)
    ensures
        final(v).deep_view() == sorted_insert(old(v).deep_view(), x@),
{
    let ghost all = v.deep_view();
    let mut i: usize = 0;
    assert(all.subrange(0, all.len() as int) =~= all);
    while i < v.len()
        invariant
            i <= v.len(),
            *v == *old(v),
            all == v.deep_view(),
            sorted_insert(all, x@) == all.take(i as int) + sorted_insert(
                all.subrange(i as int, all.len() as int),
                x@,
            ),
        decreases v.len() - i,
    {
        let ghost rest = all.subrange(i as int, all.len() as int);
        proof {
            assert(rest[0] == all[i as int]);
            assert(all[i as int] == v@[i as int]@);
            assert(rest.drop_first() =~= all.subrange(i + 1, all.len() as int));
        }
        if same_text(v[i].as_str(), x.as_str()) {
            proof {
                assert(all.take(i as int) + rest =~= all);
            }
            return ;
        }
        if text_less(x.as_str(), v[i].as_str()) {
            v.insert(i, x);
            proof {
                assert(v.deep_view() =~= all.take(i as int) + (seq![x@] + rest));
            }
            return ;
        }
        proof {
            assert(all.take(i + 1) =~= all.take(i as int) + seq![all[i as int]]);
            assert(all.take(i as int) + (seq![rest[0]] + sorted_insert(rest.drop_first(), x@))
                =~= all.take(i + 1) + sorted_insert(rest.drop_first(), x@));
        }
        i += 1;
    }
    v.push(x);
    proof {
        assert(v.deep_view() =~= all.take(i as int) + seq![x@]);
    }
}

} // verus!
