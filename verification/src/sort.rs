//! Sorting lines into the byte-wise lexicographic order.

use crate::lines::{ascending, lemma_lex_total, lex_le};
use crate::merge::{lemma_merge_sorted_ascending, merge_lines};
use vstd::prelude::*;
use vstd::seq_lib::lemma_multiset_commutative;

verus! {

/// `s` holds exactly the lines of `lines`, in ascending order.
pub open spec fn is_sorted_of(s: Seq<Seq<u8>>, lines: Seq<Seq<u8>>) -> bool {
    ascending(s) && s.to_multiset() == lines.to_multiset()
}

/// The lines of `lines` in ascending order.
pub open spec fn sorted(lines: Seq<Seq<u8>>) -> Seq<Seq<u8>> {
    choose|s: Seq<Seq<u8>>| is_sorted_of(s, lines)
}

/// Sorts lines by merging sorted halves.
pub fn sort_lines<'a>(v: &[&'a [u8]]) -> (out: Vec<&'a [u8]>)
    ensures
        out.deep_view() == sorted(v.deep_view()),
    decreases v.len(),
{
    let out = sort_halves(v);
    proof {
        assert(is_sorted_of(out.deep_view(), v.deep_view()));
        lemma_ascending_unique(out.deep_view(), sorted(v.deep_view()));
    }
    out
}

/// Sorts lines by merging sorted halves. The result holds the same lines and
/// is in ascending order.
fn sort_halves<'a>(v: &[&'a [u8]]) -> (out: Vec<&'a [u8]>)
    ensures
        is_sorted_of(out.deep_view(), v.deep_view()),
    decreases v.len(),
{
    if v.len() <= 1 {
        let out = vstd::slice::slice_to_vec(v);
        proof {
            assert(out.deep_view() =~= v.deep_view());
        }
        out
    } else {
        let mid = v.len() / 2;
        let lo = vstd::slice::slice_subrange(v, 0, mid);
        let hi = vstd::slice::slice_subrange(v, mid, v.len());
        let left = sort_halves(lo);
        let right = sort_halves(hi);
        let ghost l = left.deep_view();
        let ghost r = right.deep_view();
        let mut parts: Vec<Vec<&'a [u8]>> = Vec::new();
        parts.push(left);
        parts.push(right);
        let out = merge_lines(&parts);
        proof {
            let both = parts.deep_view();
            assert(both =~= seq![l, r]);
            lemma_merge_sorted_ascending(both);
            assert(both.flatten() =~= l + r) by {
                assert(both =~= seq![l] + seq![r]);
                vstd::seq_lib::lemma_flatten_concat(seq![l], seq![r]);
                seq![l].lemma_flatten_one_element();
                seq![r].lemma_flatten_one_element();
            }
            lemma_multiset_commutative(l, r);
            lemma_multiset_commutative(lo.deep_view(), hi.deep_view());
            assert(v.deep_view() =~= lo.deep_view() + hi.deep_view());
        }
        out
    }
}

/// An ascending sequence is fixed by the lines it holds: two of them with the
/// same lines are the same sequence.
pub proof fn lemma_ascending_unique(a: Seq<Seq<u8>>, b: Seq<Seq<u8>>)
    requires
        ascending(a),
        ascending(b),
        a.to_multiset() == b.to_multiset(),
    ensures
        a == b,
    decreases a.len(),
{
    vstd::seq_lib::to_multiset_len(a);
    vstd::seq_lib::to_multiset_len(b);
    if a.len() == 0 {
        assert(a =~= b);
    } else {
        vstd::seq_lib::to_multiset_contains(a, a[0]);
        vstd::seq_lib::to_multiset_contains(b, a[0]);
        vstd::seq_lib::to_multiset_contains(a, b[0]);
        vstd::seq_lib::to_multiset_contains(b, b[0]);
        assert(a.contains(a[0]));
        assert(b.contains(b[0]));
        let i = choose|i: int| 0 <= i < b.len() && b[i] == a[0];
        let j = choose|j: int| 0 <= j < a.len() && a[j] == b[0];
        assert(lex_le(b[0], a[0])) by {
            if i > 0 {
                assert(lex_le(b[0], b[i]));
            } else {
                crate::lines::lemma_lex_irreflexive(a[0]);
            }
        }
        assert(lex_le(a[0], b[0])) by {
            if j > 0 {
                assert(lex_le(a[0], a[j]));
            } else {
                crate::lines::lemma_lex_irreflexive(b[0]);
            }
        }
        lemma_lex_total(a[0], b[0]);
        assert(a[0] == b[0]);
        vstd::seq_lib::to_multiset_remove(a, 0);
        vstd::seq_lib::to_multiset_remove(b, 0);
        assert(a.remove(0) =~= a.drop_first());
        assert(b.remove(0) =~= b.drop_first());
        assert forall|x: int, y: int| 0 <= x < y < a.drop_first().len() implies lex_le(
            #[trigger] a.drop_first()[x],
            #[trigger] a.drop_first()[y],
        ) by {
            assert(lex_le(a[x + 1], a[y + 1]));
        }
        assert forall|x: int, y: int| 0 <= x < y < b.drop_first().len() implies lex_le(
            #[trigger] b.drop_first()[x],
            #[trigger] b.drop_first()[y],
        ) by {
            assert(lex_le(b[x + 1], b[y + 1]));
        }
        lemma_ascending_unique(a.drop_first(), b.drop_first());
        assert(a =~= seq![a[0]] + a.drop_first());
        assert(b =~= seq![b[0]] + b.drop_first());
    }
}

/// Where a new line goes into an ascending sequence: behind every line that
/// is at most the new one.
proof fn lemma_place(s: Seq<Seq<u8>>, x: Seq<u8>) -> (p: int)
    requires
        ascending(s),
    ensures
        0 <= p <= s.len(),
        forall|j: int| 0 <= j < p ==> lex_le(#[trigger] s[j], x),
        forall|j: int| p <= j < s.len() ==> lex_le(x, #[trigger] s[j]),
    decreases s.len(),
{
    if s.len() == 0 {
        0
    } else if lex_le(s.last(), x) {
        assert forall|j: int| 0 <= j < s.len() implies lex_le(#[trigger] s[j], x) by {
            if j < s.len() - 1 {
                assert(lex_le(s[j], s[s.len() - 1]));
                crate::lines::lemma_lex_le_transitive(s[j], s.last(), x);
            }
        }
        s.len() as int
    } else {
        let init = s.drop_last();
        assert forall|a: int, b: int| 0 <= a < b < init.len() implies lex_le(
            #[trigger] init[a],
            #[trigger] init[b],
        ) by {
            assert(lex_le(s[a], s[b]));
        }
        let p = lemma_place(init, x);
        lemma_lex_total(x, s.last());
        assert forall|j: int| p <= j < s.len() implies lex_le(x, #[trigger] s[j]) by {
            if j < s.len() - 1 {
                assert(s[j] == init[j]);
            }
        }
        assert forall|j: int| 0 <= j < p implies lex_le(#[trigger] s[j], x) by {
            assert(s[j] == init[j]);
        }
        p
    }
}

/// Every sequence of lines has its ascending order: `sorted` holds the same
/// lines and is ascending.
pub proof fn lemma_sorted(lines: Seq<Seq<u8>>)
    ensures
        is_sorted_of(sorted(lines), lines),
    decreases lines.len(),
{
    if lines.len() == 0 {
        assert(is_sorted_of(lines, lines));
    } else {
        let init = lines.drop_last();
        let x = lines.last();
        lemma_sorted(init);
        let s = sorted(init);
        let p = lemma_place(s, x);
        let t = s.insert(p, x);
        vstd::seq_lib::to_multiset_insert(s, p, x);
        vstd::seq_lib::to_multiset_build(init, x);
        assert(lines =~= init.push(x));
        assert forall|a: int, b: int| 0 <= a < b < t.len() implies lex_le(
            #[trigger] t[a],
            #[trigger] t[b],
        ) by {
            if b < p {
                assert(t[a] == s[a] && t[b] == s[b]);
            } else if b == p {
                assert(t[a] == s[a]);
            } else if a < p {
                assert(t[a] == s[a] && t[b] == s[b - 1]);
                if a < b - 1 {
                    assert(lex_le(s[a], s[b - 1]));
                } else {
                    crate::lines::lemma_lex_irreflexive(s[a]);
                }
            } else if a == p {
                assert(t[b] == s[b - 1]);
            } else {
                assert(t[a] == s[a - 1] && t[b] == s[b - 1]);
            }
        }
        assert(is_sorted_of(t, lines));
    }
}

} // verus!
