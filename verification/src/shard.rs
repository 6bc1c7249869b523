//! Dealing an ordered list out to a fixed number of shards, round robin.

use vstd::prelude::*;
use vstd::seq_lib::lemma_multiset_commutative;

verus! {

/// The elements of `list` whose index is congruent to `i` modulo `n`, in the
/// order in which `list` holds them.
pub open spec fn shard_of<A>(list: Seq<A>, n: int, i: int) -> Seq<A>
    decreases list.len(),
{
    if list.len() == 0 {
        Seq::empty()
    } else if (list.len() - 1) % n == i {
        shard_of(list.drop_last(), n, i).push(list.last())
    } else {
        shard_of(list.drop_last(), n, i)
    }
}

/// The `n` shards of `list`.
pub open spec fn shards<A>(list: Seq<A>, n: int) -> Seq<Seq<A>> {
    Seq::new(n as nat, |i: int| shard_of(list, n, i))
}

/// The text that stands for a shard: each path followed by a line feed.
pub open spec fn shard_text(paths: Seq<Seq<char>>) -> Seq<char>
    decreases paths.len(),
{
    if paths.len() == 0 {
        Seq::empty()
    } else {
        shard_text(paths.drop_last()) + paths.last().push('\n')
    }
}

/// The texts of the `n` shards of `list`.
pub open spec fn shard_texts(list: Seq<Seq<char>>, n: int) -> Seq<Seq<char>> {
    Seq::new(n as nat, |i: int| shard_text(shard_of(list, n, i)))
}

/// Element `k` of shard `i` is the element of the list at the index `i + k * n`.
pub open spec fn from_stride<A>(list: Seq<A>, n: int, i: int, k: int) -> bool {
    &&& 0 <= i + k * n < list.len()
    &&& shard_of(list, n, i)[k] == list[i + k * n]
}

/// Shard `i` holds exactly the elements at the indices `i`, `i + n`,
/// `i + 2n`, ... of the list, in that order.
pub proof fn lemma_shard_indices<A>(list: Seq<A>, n: int, i: int)
    requires
        n >= 1,
        0 <= i < n,
    ensures
        forall|k: int|
            0 <= k < shard_of(list, n, i).len() ==> #[trigger] from_stride(list, n, i, k),
        list.len() <= i + shard_of(list, n, i).len() * n,
    decreases list.len(),
{
    if list.len() > 0 {
        let init = list.drop_last();
        let before = shard_of(init, n, i);
        let last = list.len() - 1;
        let m = before.len() as int;
        lemma_shard_indices(init, n, i);
        assert forall|k: int| 0 <= k < m implies #[trigger] from_stride(list, n, i, k) by {
            assert(from_stride(init, n, i, k));
        }
        if last % n == i {
            let q = last / n;
            assert(last == n * q + i) by {
                vstd::arithmetic::div_mod::lemma_fundamental_div_mod(last, n);
            }
            assert(q >= 0) by (nonlinear_arith)
                requires
                    last == n * q + i,
                    last >= 0,
                    0 <= i < n,
            ;
            assert(q <= m) by (nonlinear_arith)
                requires
                    last == n * q + i,
                    last <= i + m * n,
                    n >= 1,
            ;
            if m > 0 {
                assert(from_stride(init, n, i, m - 1));
                assert(q >= m) by (nonlinear_arith)
                    requires
                        last == n * q + i,
                        i + (m - 1) * n < last,
                        n >= 1,
                ;
            }
            assert(last == i + m * n) by (nonlinear_arith)
                requires
                    last == n * q + i,
                    q == m,
            ;
            assert(list.len() <= i + (m + 1) * n) by (nonlinear_arith)
                requires
                    list.len() - 1 == i + m * n,
                    n >= 1,
            ;
            assert(from_stride(list, n, i, m));
        } else {
            if last == i + m * n {
                assert((i + m * n) % n == i) by {
                    vstd::arithmetic::div_mod::lemma_mod_multiples_vanish(m, i, n);
                    vstd::arithmetic::div_mod::lemma_small_mod(i as nat, n as nat);
                    assert(n * m + i == i + m * n) by (nonlinear_arith);
                }
            }
        }
    }
}

/// Pushing an element onto one of several sequences adds it once to the
/// elements of all of them taken together.
pub proof fn lemma_flatten_push_into<A>(parts: Seq<Seq<A>>, r: int, x: A)
    requires
        0 <= r < parts.len(),
    ensures
        parts.update(r, parts[r].push(x)).flatten().to_multiset() == parts.flatten().to_multiset().insert(
            x,
        ),
    decreases parts.len(),
{
    let next = parts.update(r, parts[r].push(x));
    lemma_multiset_commutative(parts.first(), parts.drop_first().flatten());
    lemma_multiset_commutative(next.first(), next.drop_first().flatten());
    if r == 0 {
        assert(next.drop_first() =~= parts.drop_first());
        vstd::seq_lib::to_multiset_build(parts[0], x);
    } else {
        assert(next.first() == parts.first());
        assert(next.drop_first() =~= parts.drop_first().update(r - 1, parts[r].push(x)));
        lemma_flatten_push_into(parts.drop_first(), r - 1, x);
    }
    assert(next.flatten().to_multiset() =~= parts.flatten().to_multiset().insert(x));
}

/// Sequences without elements hold nothing when taken together.
pub proof fn lemma_flatten_empties<A>(parts: Seq<Seq<A>>)
    requires
        forall|i: int| 0 <= i < parts.len() ==> (#[trigger] parts[i]).len() == 0,
    ensures
        parts.flatten() == Seq::<A>::empty(),
    decreases parts.len(),
{
    if parts.len() > 0 {
        assert forall|i: int| 0 <= i < parts.drop_first().len() implies (
        #[trigger] parts.drop_first()[i]).len() == 0 by {
            assert(parts.drop_first()[i] == parts[i + 1]);
        }
        lemma_flatten_empties(parts.drop_first());
        assert(parts.first().len() == 0);
        assert(parts.flatten() =~= Seq::<A>::empty());
    }
}

/// The shards share out the list: taken together they hold, as a multiset,
/// exactly the elements of the list.
pub proof fn lemma_shards_partition<A>(list: Seq<A>, n: int)
    requires
        n >= 1,
    ensures
        shards(list, n).flatten().to_multiset() == list.to_multiset(),
    decreases list.len(),
{
    if list.len() == 0 {
        lemma_flatten_empties(shards(list, n));
        assert(list =~= Seq::<A>::empty());
    } else {
        let init = list.drop_last();
        let r = (list.len() - 1) % n;
        lemma_shards_partition(init, n);
        assert(0 <= r < n) by {
            vstd::arithmetic::div_mod::lemma_mod_bound(list.len() - 1, n);
        }
        let before = shards(init, n);
        let after = shards(list, n);
        assert(before.len() == n);
        assert forall|i: int| 0 <= i < n implies #[trigger] after[i] == before.update(
            r,
            before[r].push(list.last()),
        )[i] by {
            assert(after[i] == shard_of(list, n, i));
            assert(before[i] == shard_of(init, n, i));
        }
        assert(after =~= before.update(r, before[r].push(list.last())));
        lemma_flatten_push_into(before, r, list.last());
        assert(list =~= init.push(list.last()));
        vstd::seq_lib::to_multiset_build(init, list.last());
    }
}

} // verus!
