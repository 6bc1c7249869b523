//! Merging the line sequences of several workers into one.

use crate::lines::{
    ascending, ascending_stepwise, lemma_ascending_stepwise, lemma_lex_le_transitive,
    lemma_lex_lt_le,
    lemma_bytes_deep_view, lemma_lex_total, lemma_lex_transitive, lex_le, lex_lt, line_less,
};
use vstd::multiset::Multiset;
use vstd::prelude::*;
use vstd::seq_lib::lemma_multiset_commutative;

verus! {

/// Cursor `i` holds the smallest current line among the first `k` cursors, and
/// is the first cursor that does.
pub open spec fn leads_among(rem: Seq<Seq<Seq<u8>>>, k: int, i: int) -> bool {
    &&& 0 <= i < k <= rem.len()
    &&& rem[i].len() > 0
    &&& forall|j: int| 0 <= j < i && rem[j].len() > 0 ==> lex_lt(rem[i][0], #[trigger] rem[j][0])
    &&& forall|j: int| i < j < k && rem[j].len() > 0 ==> !lex_lt(#[trigger] rem[j][0], rem[i][0])
}

/// Cursor `i` is the one that a sorted merge takes its next line from: among
/// all cursors with a line left it holds the smallest current line, and of
/// several such cursors it is the first.
pub open spec fn leads(rem: Seq<Seq<Seq<u8>>>, i: int) -> bool {
    leads_among(rem, rem.len() as int, i)
}

/// The cursors after cursor `i` has given up its current line.
pub open spec fn advance(rem: Seq<Seq<Seq<u8>>>, i: int) -> Seq<Seq<Seq<u8>>> {
    rem.update(i, rem[i].drop_first())
}

/// The lines of a sorted merge, in the order in which they are emitted: as
/// long as a cursor has a line left, the current line of the leading cursor
/// comes next and only that cursor moves on.
pub open spec fn merge_sorted(rem: Seq<Seq<Seq<u8>>>) -> Seq<Seq<u8>>
    decreases rem.flatten().len(),
    via merge_sorted_decreases
{
    if exists|i: int| leads(rem, i) {
        let i = choose|i: int| leads(rem, i);
        seq![rem[i][0]] + merge_sorted(advance(rem, i))
    } else {
        Seq::empty()
    }
}

#[via_fn]
proof fn merge_sorted_decreases(rem: Seq<Seq<Seq<u8>>>) {
    if exists|i: int| leads(rem, i) {
        let i = choose|i: int| leads(rem, i);
        lemma_advance_takes_one(rem, i);
    }
}

/// The lines of an unsorted merge: each worker's lines, worker after worker.
pub open spec fn merge_unsorted(rem: Seq<Seq<Seq<u8>>>) -> Seq<Seq<u8>> {
    rem.flatten()
}

/// The lines of a merge in either mode.
pub open spec fn merged(rem: Seq<Seq<Seq<u8>>>, unsorted: bool) -> Seq<Seq<u8>> {
    if unsorted {
        merge_unsorted(rem)
    } else {
        merge_sorted(rem)
    }
}

/// Moving one cursor on removes exactly its current line from what is left.
pub proof fn lemma_advance_takes_one(rem: Seq<Seq<Seq<u8>>>, i: int)
    requires
        0 <= i < rem.len(),
        rem[i].len() > 0,
    ensures
        rem.flatten().to_multiset() == advance(rem, i).flatten().to_multiset().insert(rem[i][0]),
        rem.flatten().len() == advance(rem, i).flatten().len() + 1,
    decreases rem.len(),
{
    let next = advance(rem, i);
    lemma_multiset_commutative(rem.first(), rem.drop_first().flatten());
    lemma_multiset_commutative(next.first(), next.drop_first().flatten());
    if i == 0 {
        assert(next.drop_first() =~= rem.drop_first());
        let line = rem[0];
        assert(line =~= seq![line[0]] + line.drop_first());
        lemma_multiset_commutative(seq![line[0]], line.drop_first());
        assert(seq![line[0]].to_multiset() =~= Multiset::empty().insert(line[0])) by {
            assert(seq![line[0]] =~= Seq::empty().push(line[0]));
            vstd::seq_lib::to_multiset_build(Seq::<Seq<u8>>::empty(), line[0]);
            Seq::<Seq<u8>>::empty().to_multiset_ensures();
        }
        assert(rem.flatten().to_multiset() =~= next.flatten().to_multiset().insert(rem[i][0]));
    } else {
        assert(next.first() == rem.first());
        assert(next.drop_first() =~= advance(rem.drop_first(), i - 1));
        lemma_advance_takes_one(rem.drop_first(), i - 1);
        assert(rem.flatten().to_multiset() =~= next.flatten().to_multiset().insert(rem[i][0]));
    }
    vstd::seq_lib::to_multiset_len(rem.flatten());
    vstd::seq_lib::to_multiset_len(next.flatten());
}

/// No two cursors lead at once.
pub proof fn lemma_leader_unique(rem: Seq<Seq<Seq<u8>>>, i: int, j: int)
    requires
        leads(rem, i),
        leads(rem, j),
    ensures
        i == j,
{
    if i < j {
        assert(lex_lt(rem[j][0], rem[i][0]));
    } else if j < i {
        assert(lex_lt(rem[i][0], rem[j][0]));
    }
}

/// The first cursor with a line left leads among the cursors up to it.
pub proof fn lemma_first_leader(rem: Seq<Seq<Seq<u8>>>, k: int)
    requires
        0 <= k < rem.len(),
        rem[k].len() > 0,
        forall|j: int| 0 <= j < k ==> (#[trigger] rem[j]).len() == 0,
    ensures
        leads_among(rem, k + 1, k),
{
}

/// A cursor whose current line is smaller than the leader's takes the lead.
pub proof fn lemma_next_leader(rem: Seq<Seq<Seq<u8>>>, k: int, m: int)
    requires
        0 <= k < rem.len(),
        leads_among(rem, k, m),
        rem[k].len() > 0,
        lex_lt(rem[k][0], rem[m][0]),
    ensures
        leads_among(rem, k + 1, k),
{
    assert forall|j: int| 0 <= j < k && rem[j].len() > 0 implies lex_lt(
        rem[k][0],
        #[trigger] rem[j][0],
    ) by {
        if j < m {
            lemma_lex_transitive(rem[k][0], rem[m][0], rem[j][0]);
        } else if j > m {
            lemma_lex_lt_le(rem[k][0], rem[m][0], rem[j][0]);
        }
    }
}

/// A cursor that is empty, or whose current line is not smaller than the
/// leader's, leaves the lead where it is.
pub proof fn lemma_keep_leader(rem: Seq<Seq<Seq<u8>>>, k: int, m: int)
    requires
        0 <= k < rem.len(),
        leads_among(rem, k, m),
        rem[k].len() == 0 || !lex_lt(rem[k][0], rem[m][0]),
    ensures
        leads_among(rem, k + 1, m),
{
}

/// Among the first `k` cursors one leads as soon as one has a line left.
pub proof fn lemma_leader_exists(rem: Seq<Seq<Seq<u8>>>, k: int) -> (m: int)
    requires
        0 <= k <= rem.len(),
        exists|j: int| 0 <= j < k && (#[trigger] rem[j]).len() > 0,
    ensures
        leads_among(rem, k, m),
    decreases k,
{
    if exists|j: int| 0 <= j < k - 1 && (#[trigger] rem[j]).len() > 0 {
        let m = lemma_leader_exists(rem, k - 1);
        if rem[k - 1].len() > 0 && lex_lt(rem[k - 1][0], rem[m][0]) {
            lemma_next_leader(rem, k - 1, m);
            k - 1
        } else {
            lemma_keep_leader(rem, k - 1, m);
            m
        }
    } else {
        let j = choose|j: int| 0 <= j < k && (#[trigger] rem[j]).len() > 0;
        assert(j == k - 1);
        lemma_first_leader(rem, k - 1);
        k - 1
    }
}

/// With the leading cursor known, a sorted merge emits its current line and
/// goes on with the cursors after that cursor has moved on.
pub proof fn lemma_merge_sorted_step(rem: Seq<Seq<Seq<u8>>>, i: int)
    requires
        leads(rem, i),
    ensures
        merge_sorted(rem) == seq![rem[i][0]] + merge_sorted(advance(rem, i)),
{
    let c = choose|c: int| leads(rem, c);
    lemma_leader_unique(rem, i, c);
}

/// Where no cursor has a line left, a sorted merge emits nothing.
pub proof fn lemma_merge_sorted_done(rem: Seq<Seq<Seq<u8>>>)
    requires
        forall|j: int| 0 <= j < rem.len() ==> (#[trigger] rem[j]).len() == 0,
    ensures
        merge_sorted(rem) == Seq::<Seq<u8>>::empty(),
{
}

/// A sorted merge emits every line of every worker exactly once: the lines
/// that come out are, as a multiset, the lines that went in.
pub proof fn lemma_merge_sorted_permutes(rem: Seq<Seq<Seq<u8>>>)
    ensures
        merge_sorted(rem).to_multiset() == rem.flatten().to_multiset(),
        merge_sorted(rem).len() == rem.flatten().len(),
    decreases rem.flatten().len(),
{
    if exists|i: int| leads(rem, i) {
        let i = choose|i: int| leads(rem, i);
        lemma_advance_takes_one(rem, i);
        lemma_merge_sorted_permutes(advance(rem, i));
        let rest = merge_sorted(advance(rem, i));
        lemma_multiset_commutative(seq![rem[i][0]], rest);
        lemma_singleton_multiset(rem[i][0]);
        assert(merge_sorted(rem).to_multiset() =~= rem.flatten().to_multiset());
    } else {
        if exists|j: int| 0 <= j < rem.len() && (#[trigger] rem[j]).len() > 0 {
            let m = lemma_leader_exists(rem, rem.len() as int);
            assert(leads(rem, m));
        }
        crate::shard::lemma_flatten_empties(rem);
    }
}

/// The multiset of a one-element sequence holds that element once.
pub proof fn lemma_singleton_multiset(x: Seq<u8>)
    ensures
        seq![x].to_multiset() == Multiset::<Seq<u8>>::empty().insert(x),
{
    assert(seq![x] =~= Seq::<Seq<u8>>::empty().push(x));
    vstd::seq_lib::to_multiset_build(Seq::<Seq<u8>>::empty(), x);
    Seq::<Seq<u8>>::empty().to_multiset_ensures();
    assert(seq![x].to_multiset() =~= Multiset::<Seq<u8>>::empty().insert(x));
}

/// `x` is at most every line that any cursor still holds.
pub open spec fn below_all(x: Seq<u8>, rem: Seq<Seq<Seq<u8>>>) -> bool {
    forall|j: int, t: int|
        0 <= j < rem.len() && 0 <= t < rem[j].len() ==> lex_le(x, #[trigger] rem[j][t])
}

/// What is at most every line that goes in is at most every line that comes out.
pub proof fn lemma_merge_sorted_bound(x: Seq<u8>, rem: Seq<Seq<Seq<u8>>>)
    requires
        below_all(x, rem),
    ensures
        forall|k: int| 0 <= k < merge_sorted(rem).len() ==> lex_le(x, #[trigger] merge_sorted(rem)[k]),
    decreases rem.flatten().len(),
{
    if exists|i: int| leads(rem, i) {
        let i = choose|i: int| leads(rem, i);
        let next = advance(rem, i);
        lemma_advance_takes_one(rem, i);
        assert forall|j: int, t: int| 0 <= j < next.len() && 0 <= t < next[j].len() implies lex_le(
            x,
            #[trigger] next[j][t],
        ) by {
            if j == i {
                assert(next[j][t] == rem[i][t + 1]);
            } else {
                assert(next[j][t] == rem[j][t]);
            }
        }
        lemma_merge_sorted_bound(x, next);
        let rest = merge_sorted(next);
        assert forall|k: int| 0 <= k < merge_sorted(rem).len() implies lex_le(
            x,
            #[trigger] merge_sorted(rem)[k],
        ) by {
            if k == 0 {
                assert(merge_sorted(rem)[0] == rem[i][0]);
            } else {
                assert(merge_sorted(rem)[k] == rest[k - 1]);
            }
        }
    }
}

/// Merging sorted line sequences in sorted mode gives a sorted sequence that
/// holds, as a multiset, exactly the lines of the inputs.
pub proof fn lemma_merge_sorted_ascending(rem: Seq<Seq<Seq<u8>>>)
    requires
        forall|i: int| 0 <= i < rem.len() ==> ascending(#[trigger] rem[i]),
    ensures
        ascending(merge_sorted(rem)),
        ascending_stepwise(merge_sorted(rem)),
        merge_sorted(rem).to_multiset() == rem.flatten().to_multiset(),
    decreases rem.flatten().len(),
{
    lemma_merge_sorted_permutes(rem);
    lemma_ascending_stepwise(merge_sorted(rem));
    if exists|i: int| leads(rem, i) {
        let i = choose|i: int| leads(rem, i);
        let next = advance(rem, i);
        let head = rem[i][0];
        lemma_advance_takes_one(rem, i);
        assert forall|j: int| 0 <= j < next.len() implies ascending(#[trigger] next[j]) by {
            if j == i {
                assert forall|a: int, b: int| 0 <= a < b < next[j].len() implies lex_le(
                    #[trigger] next[j][a],
                    #[trigger] next[j][b],
                ) by {
                    assert(next[j][a] == rem[i][a + 1]);
                    assert(next[j][b] == rem[i][b + 1]);
                }
            } else {
                assert(next[j] == rem[j]);
            }
        }
        lemma_merge_sorted_ascending(next);
        assert forall|j: int, t: int| 0 <= j < next.len() && 0 <= t < next[j].len() implies lex_le(
            head,
            #[trigger] next[j][t],
        ) by {
            if j == i {
                assert(next[j][t] == rem[i][t + 1]);
                assert(lex_le(rem[i][0], rem[i][t + 1]));
            } else {
                assert(next[j][t] == rem[j][t]);
                lemma_lex_total(head, rem[j][0]);
                assert(lex_le(head, rem[j][0]));
                if t > 0 {
                    assert(lex_le(rem[j][0], rem[j][t]));
                    lemma_lex_le_transitive(head, rem[j][0], rem[j][t]);
                }
            }
        }
        lemma_merge_sorted_bound(head, next);
        let rest = merge_sorted(next);
        let out = merge_sorted(rem);
        assert forall|a: int, b: int| 0 <= a < b < out.len() implies lex_le(
            #[trigger] out[a],
            #[trigger] out[b],
        ) by {
            assert(out[b] == rest[b - 1]);
            if a == 0 {
                assert(out[0] == head);
            } else {
                assert(out[a] == rest[a - 1]);
            }
        }
    }
}

/// In unsorted mode the lines come out as the workers' lines put one after
/// the other in shard order, and they are, as a multiset, the lines that
/// sorted mode emits.
pub proof fn lemma_unsorted_same_lines(rem: Seq<Seq<Seq<u8>>>)
    ensures
        merged(rem, true) == rem.flatten(),
        merged(rem, true).to_multiset() == merged(rem, false).to_multiset(),
        merged(rem, true).len() == merged(rem, false).len(),
{
    lemma_merge_sorted_permutes(rem);
}

/// What the cursors at the positions `pos` have left of `lines`.
pub open spec fn remaining(lines: Seq<Seq<Seq<u8>>>, pos: Seq<usize>) -> Seq<Seq<Seq<u8>>> {
    Seq::new(lines.len(), |k: int| lines[k].skip(pos[k] as int))
}

/// Concatenates the workers' lines in shard order.
pub fn concat_lines<'a>(lines: &Vec<Vec<&'a [u8]>>) -> (out: Vec<&'a [u8]>)
    ensures
        out.deep_view() == merge_unsorted(lines.deep_view()),
{
    let mut out: Vec<&'a [u8]> = Vec::new();
    let mut k: usize = 0;
    proof {
        assert(out.deep_view() =~= Seq::empty());
        assert(lines.deep_view().take(0) =~= Seq::empty());
    }
    while k < lines.len()
        invariant
            k <= lines.len(),
            out.deep_view() == lines.deep_view().take(k as int).flatten(),
        decreases lines.len() - k,
    {
        let ghost base = out.deep_view();
        let mut t: usize = 0;
        while t < lines[k].len()
            invariant
                k < lines.len(),
                t <= lines[k as int].len(),
                out.deep_view() == base + lines[k as int].deep_view().take(t as int),
            decreases lines[k as int].len() - t,
        {
            let ghost before = out.deep_view();
            out.push(lines[k][t]);
            proof {
                let cur = lines[k as int].deep_view();
                assert(out.deep_view() =~= before.push(cur[t as int]));
                assert(cur.take(t + 1) =~= cur.take(t as int).push(cur[t as int]));
            }
            t += 1;
        }
        proof {
            let all = lines.deep_view();
            let cur = lines[k as int].deep_view();
            assert(cur.take(cur.len() as int) =~= cur);
            assert(all.take(k + 1) =~= all.take(k as int).push(cur));
            all.take(k as int).lemma_flatten_push(cur);
        }
        k += 1;
    }
    proof {
        assert(lines.deep_view().take(lines.len() as int) =~= lines.deep_view());
    }
    out
}

/// Merges the workers' lines: each next line is the smallest current line of
/// all workers, and of equal lines the one of the worker that comes first.
pub fn merge_lines<'a>(lines: &Vec<Vec<&'a [u8]>>) -> (out: Vec<&'a [u8]>)
    ensures
        out.deep_view() == merge_sorted(lines.deep_view()),
{
    let n = lines.len();
    let ghost all = lines.deep_view();
    let mut pos: Vec<usize> = Vec::new();
    while pos.len() < n
        invariant
            pos.len() <= n,
            forall|k: int| 0 <= k < pos.len() ==> pos[k] == 0,
        decreases n - pos.len(),
    {
        pos.push(0);
    }
    let mut out: Vec<&'a [u8]> = Vec::new();
    proof {
        assert(out.deep_view() =~= Seq::empty());
        assert forall|k: int| 0 <= k < all.len() implies all[k].skip(pos[k] as int) == all[k] by {
            assert(all[k].skip(0) =~= all[k]);
        }
        assert(remaining(all, pos@) =~= all);
    }
    loop
        invariant
            n == lines.len(),
            all == lines.deep_view(),
            pos.len() == n,
            forall|k: int| 0 <= k < n ==> pos[k] <= (#[trigger] lines[k]).len(),
            out.deep_view() + merge_sorted(remaining(all, pos@)) == merge_sorted(all),
        decreases remaining(all, pos@).flatten().len(),
    {
        let ghost rem = remaining(all, pos@);
        let mut min: usize = n;
        let mut k: usize = 0;
        while k < n
            invariant
                n == lines.len(),
                all == lines.deep_view(),
                pos.len() == n,
                rem == remaining(all, pos@),
                forall|j: int| 0 <= j < n ==> pos[j] <= (#[trigger] lines[j]).len(),
                k <= n,
                min <= n,
                min == n ==> forall|j: int| 0 <= j < k ==> (#[trigger] rem[j]).len() == 0,
                min < n ==> leads_among(rem, k as int, min as int),
            decreases n - k,
        {
            if pos[k] < lines[k].len() {
                proof {
                    assert(rem[k as int].len() > 0);
                    assert(rem[k as int][0] == all[k as int][pos[k as int] as int]);
                    lemma_bytes_deep_view(lines[k as int][pos[k as int] as int]);
                }
                if min == n {
                    proof {
                        lemma_first_leader(rem, k as int);
                    }
                    min = k;
                } else {
                    proof {
                        assert(rem[min as int][0] == all[min as int][pos[min as int] as int]);
                        lemma_bytes_deep_view(lines[min as int][pos[min as int] as int]);
                    }
                    if line_less(lines[k][pos[k]], lines[min][pos[min]]) {
                        proof {
                            lemma_next_leader(rem, k as int, min as int);
                        }
                        min = k;
                    } else {
                        proof {
                            lemma_keep_leader(rem, k as int, min as int);
                        }
                    }
                }
            } else {
                proof {
                    assert(rem[k as int].len() == 0);
                    if min < n {
                        lemma_keep_leader(rem, k as int, min as int);
                    }
                }
            }
            k += 1;
        }
        if min == n {
            proof {
                lemma_merge_sorted_done(rem);
                assert(out.deep_view() + Seq::<Seq<u8>>::empty() =~= out.deep_view());
            }
            return out;
        }
        let line = lines[min][pos[min]];
        let ghost before = out.deep_view();
        let ghost old_pos = pos@;
        out.push(line);
        pos.set(min, pos[min] + 1);
        proof {
            assert(leads(rem, min as int));
            lemma_merge_sorted_step(rem, min as int);
            lemma_advance_takes_one(rem, min as int);
            let next = remaining(all, pos@);
            assert forall|j: int| 0 <= j < n implies #[trigger] next[j] == advance(
                rem,
                min as int,
            )[j] by {
                if j == min {
                    assert(all[j].skip(old_pos[j] as int).drop_first() =~= all[j].skip(
                        old_pos[j] as int + 1,
                    ));
                }
            }
            assert(next =~= advance(rem, min as int));
            assert(rem[min as int][0] == all[min as int][old_pos[min as int] as int]);
            assert(out.deep_view() =~= before.push(rem[min as int][0]));
            assert(out.deep_view() + merge_sorted(next) =~= before + merge_sorted(rem));
        }
    }
}

} // verus!
