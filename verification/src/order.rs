//! The order in which links are sorted: texts compared character by character,
//! by code point, a proper prefix before the longer text.

use vstd::prelude::*;

verus! {

/// `a` comes no later than `b`.
pub open spec fn text_le(a: Seq<char>, b: Seq<char>) -> bool
    decreases a.len(),
{
    if a.len() == 0 {
        true
    } else if b.len() == 0 {
        false
    } else if a[0] != b[0] {
        (a[0] as int) < (b[0] as int)
    } else {
        text_le(a.drop_first(), b.drop_first())
    }
}

/// Compares two strings with std's `<=` on `str`. Trusted: std orders strings
/// by their bytes, one after the other, which for valid UTF-8 is the order of
/// their code points, a proper prefix first.
#[verifier::external_body]
pub(crate) fn str_le(a: &str, b: &str) -> (r: bool)
    ensures
        r == text_le(a@, b@),
{
    a <= b
}

/// Every text is placed no later than every text that follows it.
pub open spec fn ascending(s: Seq<Seq<char>>) -> bool {
    forall|i: int, j: int| 0 <= i < j < s.len() ==> text_le(#[trigger] s[i], #[trigger] s[j])
}

/// Every text is placed no earlier than every text that follows it.
pub open spec fn descending(s: Seq<Seq<char>>) -> bool {
    forall|i: int, j: int| 0 <= i < j < s.len() ==> text_le(#[trigger] s[j], #[trigger] s[i])
}

/// Where `x` goes in `s`: behind the last text that comes no later than `x`.
pub open spec fn insert_pos(s: Seq<Seq<char>>, x: Seq<char>) -> nat
    decreases s.len(),
{
    if s.len() > 0 && !text_le(s.last(), x) {
        insert_pos(s.drop_last(), x)
    } else {
        s.len()
    }
}

/// `s` with `x` put in its place.
pub open spec fn insert_text(s: Seq<Seq<char>>, x: Seq<char>) -> Seq<Seq<char>> {
    s.insert(insert_pos(s, x) as int, x)
}

/// The texts of `s` in ascending order, equal texts in the order they had.
pub open spec fn sort_texts(s: Seq<Seq<char>>) -> Seq<Seq<char>>
    decreases s.len(),
{
    if s.len() == 0 {
        s
    } else {
        insert_text(sort_texts(s.drop_last()), s.last())
    }
}

/// Of two texts one comes no later than the other.
pub proof fn lemma_text_le_total(a: Seq<char>, b: Seq<char>)
    ensures
        text_le(a, b) || text_le(b, a),
    decreases a.len(),
{
    if a.len() > 0 && b.len() > 0 {
        if a[0] == b[0] {
            lemma_text_le_total(a.drop_first(), b.drop_first());
        }
    }
}

/// The order passes along a chain of three texts.
pub proof fn lemma_text_le_transitive(a: Seq<char>, b: Seq<char>, c: Seq<char>)
    requires
        text_le(a, b),
        text_le(b, c),
    ensures
        text_le(a, c),
    decreases a.len(),
{
    if a.len() > 0 && b.len() > 0 && c.len() > 0 && a[0] == b[0] && b[0] == c[0] {
        lemma_text_le_transitive(a.drop_first(), b.drop_first(), c.drop_first());
    }
}

/// The place found for `x` lies within `s`, with no later text before it and
/// only later texts from it on, where `s` is ascending.
pub proof fn lemma_insert_pos(s: Seq<Seq<char>>, x: Seq<char>)
    ensures
        insert_pos(s, x) <= s.len(),
        insert_pos(s, x) > 0 ==> text_le(s[insert_pos(s, x) - 1], x),
        forall|k: int| insert_pos(s, x) <= k < s.len() && ascending(s) ==> text_le(x, #[trigger] s[k]),
        forall|k: int| 0 <= k < insert_pos(s, x) && ascending(s) ==> text_le(#[trigger] s[k], x),
    decreases s.len(),
{
    let p = insert_pos(s, x) as int;
    if s.len() > 0 && !text_le(s.last(), x) {
        let t = s.drop_last();
        lemma_insert_pos(t, x);
        lemma_text_le_total(s.last(), x);
        assert forall|k: int| p <= k < s.len() && ascending(s) implies text_le(x, #[trigger] s[k]) by {
            if k < t.len() {
                assert(ascending(t)) by {
                    assert forall|i: int, j: int| 0 <= i < j < t.len() implies text_le(#[trigger] t[i], #[trigger] t[j]) by {
                        assert(t[i] == s[i] && t[j] == s[j]);
                    }
                }
                assert(s[k] == t[k]);
            }
        }
        assert forall|k: int| 0 <= k < p && ascending(s) implies text_le(#[trigger] s[k], x) by {
            assert(ascending(t)) by {
                assert forall|i: int, j: int| 0 <= i < j < t.len() implies text_le(#[trigger] t[i], #[trigger] t[j]) by {
                    assert(t[i] == s[i] && t[j] == s[j]);
                }
            }
            assert(s[k] == t[k]);
        }
    } else if s.len() > 0 {
        assert forall|k: int| 0 <= k < p && ascending(s) implies text_le(#[trigger] s[k], x) by {
            if k < s.len() - 1 {
                lemma_text_le_transitive(s[k], s.last(), x);
            }
        }
    }
}

/// Putting a text in its place keeps an ascending sequence ascending.
pub proof fn lemma_insert_text_ascending(s: Seq<Seq<char>>, x: Seq<char>)
    requires
        ascending(s),
    ensures
        ascending(insert_text(s, x)),
{
    lemma_insert_pos(s, x);
    let p = insert_pos(s, x) as int;
    let r = insert_text(s, x);
    assert forall|i: int, j: int| 0 <= i < j < r.len() implies text_le(#[trigger] r[i], #[trigger] r[j]) by {
        if j == p {
            assert(r[i] == s[i]);
        } else if i == p {
            assert(r[j] == s[j - 1]);
        } else {
            let si = if i < p { i } else { i - 1 };
            let sj = if j < p { j } else { j - 1 };
            assert(r[i] == s[si] && r[j] == s[sj]);
        }
    }
}

/// A sorted sequence is ascending and holds each text as often as the sequence
/// it was made from.
pub proof fn lemma_sort_texts(s: Seq<Seq<char>>)
    ensures
        ascending(sort_texts(s)),
        sort_texts(s).len() == s.len(),
        sort_texts(s).to_multiset() == s.to_multiset(),
    decreases s.len(),
{
    broadcast use vstd::seq_lib::group_to_multiset_ensures;
    if s.len() > 0 {
        let t = s.drop_last();
        lemma_sort_texts(t);
        lemma_insert_pos(sort_texts(t), s.last());
        lemma_insert_text_ascending(sort_texts(t), s.last());
        assert(s =~= t.push(s.last()));
    }
}

/// Putting `x` in its place adds `x` to the texts and nothing else, and brings
/// no text in twice unless `x` was there already.
pub proof fn lemma_insert_text_members(s: Seq<Seq<char>>, x: Seq<char>)
    ensures
        forall|t: Seq<char>| insert_text(s, x).contains(t) <==> (s.contains(t) || t == x),
        s.no_duplicates() && !s.contains(x) ==> insert_text(s, x).no_duplicates(),
{
    lemma_insert_pos(s, x);
    let p = insert_pos(s, x) as int;
    let r = insert_text(s, x);
    assert forall|t: Seq<char>| r.contains(t) <==> (s.contains(t) || t == x) by {
        if r.contains(t) {
            let i = choose|i: int| 0 <= i < r.len() && r[i] == t;
            if i < p {
                assert(s[i] == t);
            } else if i > p {
                assert(s[i - 1] == t);
            }
        }
        if s.contains(t) {
            let k = choose|k: int| 0 <= k < s.len() && s[k] == t;
            if k < p {
                assert(r[k] == t);
            } else {
                assert(r[k + 1] == t);
            }
        }
        if t == x {
            assert(r[p] == t);
        }
    }
    if s.no_duplicates() && !s.contains(x) {
        assert forall|i: int, j: int| 0 <= i < r.len() && 0 <= j < r.len() && i != j implies r[i]
            != r[j] by {
            let si = if i < p { i } else { i - 1 };
            let sj = if j < p { j } else { j - 1 };
            if i == p {
                assert(r[j] == s[sj]);
            } else if j == p {
                assert(r[i] == s[si]);
            } else {
                assert(r[i] == s[si] && r[j] == s[sj]);
            }
        }
    }
}

/// Sorting neither adds nor loses a text, nor brings one in twice.
pub proof fn lemma_sort_texts_members(s: Seq<Seq<char>>)
    ensures
        forall|t: Seq<char>| sort_texts(s).contains(t) <==> s.contains(t),
        s.no_duplicates() ==> sort_texts(s).no_duplicates(),
    decreases s.len(),
{
    if s.len() > 0 {
        let head = s.drop_last();
        let x = s.last();
        lemma_sort_texts_members(head);
        lemma_insert_text_members(sort_texts(head), x);
        assert forall|t: Seq<char>| s.contains(t) <==> (head.contains(t) || t == x) by {
            if s.contains(t) {
                let k = choose|k: int| 0 <= k < s.len() && s[k] == t;
                if k < head.len() {
                    assert(head[k] == t);
                }
            }
            if head.contains(t) {
                let k = choose|k: int| 0 <= k < head.len() && head[k] == t;
                assert(s[k] == t);
            }
            if t == x {
                assert(s[s.len() - 1] == t);
            }
        }
        if s.no_duplicates() {
            assert forall|i: int, j: int| 0 <= i < head.len() && 0 <= j < head.len() && i
                != j implies head[i] != head[j] by {
                assert(head[i] == s[i] && head[j] == s[j]);
            }
            if head.contains(x) {
                let k = choose|k: int| 0 <= k < head.len() && head[k] == x;
                assert(s[k] == s[s.len() - 1]);
            }
        }
    }
}

/// Reversing neither adds nor loses a text, nor brings one in twice, and turns
/// an ascending sequence into a descending one.
pub proof fn lemma_reverse_texts(s: Seq<Seq<char>>)
    ensures
        forall|t: Seq<char>| s.reverse().contains(t) <==> s.contains(t),
        s.no_duplicates() ==> s.reverse().no_duplicates(),
        ascending(s) ==> descending(s.reverse()),
        s.reverse().reverse() == s,
{
    let r = s.reverse();
    assert forall|t: Seq<char>| r.contains(t) <==> s.contains(t) by {
        if r.contains(t) {
            let i = choose|i: int| 0 <= i < r.len() && r[i] == t;
            assert(s[s.len() - 1 - i] == t);
        }
        if s.contains(t) {
            let k = choose|k: int| 0 <= k < s.len() && s[k] == t;
            assert(r[s.len() - 1 - k] == t);
        }
    }
    if s.no_duplicates() {
        assert forall|i: int, j: int| 0 <= i < r.len() && 0 <= j < r.len() && i != j implies r[i]
            != r[j] by {
            assert(r[i] == s[s.len() - 1 - i] && r[j] == s[s.len() - 1 - j]);
        }
    }
    if ascending(s) {
        assert forall|i: int, j: int| 0 <= i < j < r.len() implies text_le(
            #[trigger] r[j],
            #[trigger] r[i],
        ) by {
            assert(r[i] == s[s.len() - 1 - i] && r[j] == s[s.len() - 1 - j]);
        }
    }
    assert(r.reverse() =~= s);
}

} // verus!
