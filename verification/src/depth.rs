//! Depth ordering of shape indices by distance to a reference viewpoint.
//!
//! Blended (`Alpha`) shapes must be drawn farthest-to-nearest for correct
//! compositing, while opaque shapes profit from nearest-first submission.
//! [`zsort`] reorders a sequence of indices into a table of encoded
//! distances, nearest first or farthest first.
//!
//! A distance enters this module as a `u64` whose integer order agrees with
//! the order of the underlying distances; callers that measure distances as
//! non-negative IEEE-754 values can use the value's bit pattern, which is
//! order-preserving there. The sort is stable: indices at equal distances
//! keep their relative order.

use vstd::multiset::Multiset;
use vstd::prelude::*;

verus! {

/// Distance `a` precedes or equals distance `b` in the requested direction:
/// nearest first when `nr` is true, farthest first when `nr` is false.
pub open spec fn dist_le(a: u64, b: u64, nr: bool) -> bool {
    if nr {
        a <= b
    } else {
        a >= b
    }
}

/// Every entry of `s` names a position in a distance table of length `n`.
pub open spec fn indices_in_range(s: Seq<u32>, n: nat) -> bool {
    forall|i: int| 0 <= i < s.len() ==> (#[trigger] s[i]) < n
}

/// The indices of `s` are ordered for direction `nr`: the distances they
/// name are pairwise non-decreasing when `nr` is true and pairwise
/// non-increasing when `nr` is false.
pub open spec fn sorted_for(s: Seq<u32>, dist: Seq<u64>, nr: bool) -> bool {
    forall|i: int, j: int| #![trigger s[i], s[j]]
        0 <= i <= j < s.len() ==> dist_le(dist[s[i] as int], dist[s[j] as int], nr)
}

/// Insert index `x` into `s` behind every index whose distance precedes or
/// equals the distance of `x`: the insertion step of a stable sort.
pub open spec fn insert_ordered(x: u32, s: Seq<u32>, dist: Seq<u64>, nr: bool) -> Seq<u32>
    decreases s.len(),
{
    if s.len() == 0 {
        seq![x]
    } else if dist_le(dist[s[0] as int], dist[x as int], nr) {
        seq![s[0]] + insert_ordered(x, s.drop_first(), dist, nr)
    } else {
        seq![x] + s
    }
}

/// The stable sort of the index sequence `s` by the distances in `dist`,
/// in the direction selected by `nr`.
pub open spec fn sort_indices(s: Seq<u32>, dist: Seq<u64>, nr: bool) -> Seq<u32>
    decreases s.len(),
{
    if s.len() == 0 {
        Seq::empty()
    } else {
        insert_ordered(s.last(), sort_indices(s.drop_last(), dist, nr), dist, nr)
    }
}

proof fn lemma_insert_ordered(x: u32, s: Seq<u32>, dist: Seq<u64>, nr: bool)
    ensures
        insert_ordered(x, s, dist, nr).len() == s.len() + 1,
        insert_ordered(x, s, dist, nr).to_multiset() =~= s.to_multiset().insert(x),
        forall|j: int|
            0 <= j < insert_ordered(x, s, dist, nr).len()
                ==> (#[trigger] insert_ordered(x, s, dist, nr)[j]) == x
                || s.contains(insert_ordered(x, s, dist, nr)[j]),
        sorted_for(s, dist, nr) ==> sorted_for(insert_ordered(x, s, dist, nr), dist, nr),
    decreases s.len(),
{
    broadcast use vstd::seq_lib::group_to_multiset_ensures;

    let r = insert_ordered(x, s, dist, nr);
    if s.len() == 0 {
        assert(r =~= Seq::empty().push(x));
    } else if dist_le(dist[s[0] as int], dist[x as int], nr) {
        let rest = s.drop_first();
        let ins = insert_ordered(x, rest, dist, nr);
        lemma_insert_ordered(x, rest, dist, nr);
        // Multiset bookkeeping: r = [s[0]] + ins.
        vstd::seq_lib::lemma_multiset_commutative(seq![s[0]], ins);
        vstd::seq_lib::lemma_multiset_commutative(seq![s[0]], rest);
        assert(seq![s[0]] + rest =~= s);
        assert(seq![s[0]].to_multiset() =~= Multiset::empty().insert(s[0]));
        assert(r.to_multiset() =~= s.to_multiset().insert(x));
        // Every entry of r is x or an entry of s.
        assert forall|j: int| 0 <= j < r.len() implies (#[trigger] r[j]) == x
            || s.contains(r[j]) by {
            if j == 0 {
                assert(s.contains(s[0]));
            } else {
                assert(r[j] == ins[j - 1]);
                if ins[j - 1] != x {
                    assert(rest.contains(ins[j - 1]));
                    let w = choose|w: int| 0 <= w < rest.len() && rest[w] == ins[j - 1];
                    assert(s[w + 1] == rest[w]);
                }
            }
        }
        // Order: the head precedes everything behind it.
        if sorted_for(s, dist, nr) {
            assert forall|i: int| 0 <= i < rest.len() implies (#[trigger] rest[i]) == s[i + 1] by {}
            assert(sorted_for(rest, dist, nr));
            assert forall|i: int, j: int| #![trigger r[i], r[j]]
                0 <= i <= j < r.len() implies dist_le(
                dist[r[i] as int],
                dist[r[j] as int],
                nr,
            ) by {
                if i == 0 {
                    if j > 0 {
                        let e = r[j];
                        assert(e == ins[j - 1]);
                        if e == x {
                            assert(dist_le(dist[s[0] as int], dist[x as int], nr));
                        } else {
                            assert(rest.contains(e));
                            let w = choose|w: int| 0 <= w < rest.len() && rest[w] == e;
                            assert(s[w + 1] == e);
                            assert(dist_le(dist[s[0] as int], dist[e as int], nr));
                        }
                    }
                } else {
                    assert(r[i] == ins[i - 1]);
                    assert(r[j] == ins[j - 1]);
                }
            }
        }
    } else {
        // r = [x] + s, and the distance of x strictly precedes that of s[0].
        assert(r.to_multiset() =~= s.to_multiset().insert(x)) by {
            vstd::seq_lib::lemma_multiset_commutative(seq![x], s);
            assert(seq![x].to_multiset() =~= Multiset::empty().insert(x));
        }
        if sorted_for(s, dist, nr) {
            assert forall|i: int, j: int| #![trigger r[i], r[j]]
                0 <= i <= j < r.len() implies dist_le(
                dist[r[i] as int],
                dist[r[j] as int],
                nr,
            ) by {
                if i == 0 && j > 0 {
                    assert(r[j] == s[j - 1]);
                    assert(dist_le(dist[s[0] as int], dist[s[j - 1] as int], nr));
                    assert(dist_le(dist[x as int], dist[s[0] as int], nr));
                }
            }
        }
    }
}

proof fn lemma_insert_ordered_at(x: u32, s: Seq<u32>, dist: Seq<u64>, nr: bool, p: int)
    requires
        0 <= p <= s.len(),
        forall|i: int| 0 <= i < p ==> dist_le(dist[(#[trigger] s[i]) as int], dist[x as int], nr),
        p < s.len() ==> !dist_le(dist[s[p] as int], dist[x as int], nr),
    ensures
        insert_ordered(x, s, dist, nr) == s.insert(p, x),
    decreases s.len(),
{
    let r = insert_ordered(x, s, dist, nr);
    if s.len() == 0 {
        assert(r =~= s.insert(0, x));
    } else if p == 0 {
        assert(r =~= s.insert(0, x));
    } else {
        let rest = s.drop_first();
        assert(dist_le(dist[s[0] as int], dist[x as int], nr));
        assert forall|i: int| 0 <= i < p - 1 implies dist_le(
            dist[(#[trigger] rest[i]) as int],
            dist[x as int],
            nr,
        ) by {
            assert(rest[i] == s[i + 1]);
        }
        assert(p - 1 < rest.len() ==> rest[p - 1] == s[p]);
        lemma_insert_ordered_at(x, rest, dist, nr, p - 1);
        assert(seq![s[0]] + rest.insert(p - 1, x) =~= s.insert(p, x));
    }
}

/// The ordering law of the depth sort: for every index sequence and every
/// distance table, the sorted sequence is a permutation of the input whose
/// distances are pairwise non-decreasing when `nr` is true and pairwise
/// non-increasing when `nr` is false.
pub proof fn lemma_sort_indices_ensures(s: Seq<u32>, dist: Seq<u64>, nr: bool)
    ensures
        sort_indices(s, dist, nr).len() == s.len(),
        sort_indices(s, dist, nr).to_multiset() =~= s.to_multiset(),
        sorted_for(sort_indices(s, dist, nr), dist, nr),
        forall|j: int|
            0 <= j < sort_indices(s, dist, nr).len()
                ==> s.contains(#[trigger] sort_indices(s, dist, nr)[j]),
    decreases s.len(),
{
    broadcast use vstd::seq_lib::group_to_multiset_ensures;

    let r = sort_indices(s, dist, nr);
    if s.len() > 0 {
        let front = s.drop_last();
        let sorted_front = sort_indices(front, dist, nr);
        lemma_sort_indices_ensures(front, dist, nr);
        lemma_insert_ordered(s.last(), sorted_front, dist, nr);
        assert(front.push(s.last()) =~= s);
        assert(r.to_multiset() =~= s.to_multiset());
        assert forall|j: int| 0 <= j < r.len() implies s.contains(#[trigger] r[j]) by {
            if r[j] == s.last() {
                assert(s[s.len() - 1] == s.last());
            } else {
                assert(sorted_front.contains(r[j]));
                let w = choose|w: int| 0 <= w < sorted_front.len() && sorted_front[w] == r[j];
                assert(front.contains(sorted_front[w]));
                let v = choose|v: int| 0 <= v < front.len() && front[v] == r[j];
                assert(s[v] == front[v]);
            }
        }
    }
}

/// Idempotence of the depth sort: a sequence whose indices are already in
/// order comes back unchanged.
pub proof fn lemma_sort_indices_already_sorted(s: Seq<u32>, dist: Seq<u64>, nr: bool)
    requires
        sorted_for(s, dist, nr),
    ensures
        sort_indices(s, dist, nr) == s,
    decreases s.len(),
{
    if s.len() > 0 {
        let front = s.drop_last();
        assert forall|i: int, j: int| #![trigger front[i], front[j]]
            0 <= i <= j < front.len() implies dist_le(
            dist[front[i] as int],
            dist[front[j] as int],
            nr,
        ) by {
            assert(front[i] == s[i] && front[j] == s[j]);
        }
        lemma_sort_indices_already_sorted(front, dist, nr);
        assert forall|i: int| 0 <= i < front.len() implies dist_le(
            dist[(#[trigger] front[i]) as int],
            dist[s.last() as int],
            nr,
        ) by {
            assert(front[i] == s[i] && s.last() == s[s.len() - 1]);
        }
        lemma_insert_ordered_at(s.last(), front, dist, nr, front.len() as int);
        assert(front.insert(front.len() as int, s.last()) =~= s);
    }
}

/// With all distances equal, the depth sort makes no reordering at all: the
/// result is the input itself, not merely some permutation of it.
pub proof fn lemma_sort_indices_all_equal(s: Seq<u32>, dist: Seq<u64>, nr: bool)
    requires
        forall|i: int, j: int| #![trigger s[i], s[j]]
            0 <= i < s.len() && 0 <= j < s.len()
                ==> dist[s[i] as int] == dist[s[j] as int],
    ensures
        sort_indices(s, dist, nr) == s,
{
    assert forall|i: int, j: int| #![trigger s[i], s[j]]
        0 <= i <= j < s.len() implies dist_le(dist[s[i] as int], dist[s[j] as int], nr) by {
        assert(dist[s[i] as int] == dist[s[j] as int]);
    }
    lemma_sort_indices_already_sorted(s, dist, nr);
}

fn dist_le_exec(a: u64, b: u64, nr: bool) -> (r: bool)
    ensures
        r == dist_le(a, b, nr),
{
    if nr {
        a <= b
    } else {
        a >= b
    }
}

/// Sort by distance. `nr` selects near sort (`true`) or far sort (`false`).
///
/// `sorted` holds indices into the distance table `dist`; on return it holds
/// the same indices, stably reordered so that the distances they name are
/// non-decreasing for a near sort and non-increasing for a far sort.
pub fn zsort(sorted: &mut Vec<u32>, dist: &Vec<u64>, nr: bool)
    requires
        indices_in_range(old(sorted)@, dist@.len()),
    ensures
        final(sorted)@ == sort_indices(old(sorted)@, dist@, nr),
        final(sorted)@.to_multiset() == old(sorted)@.to_multiset(),
        final(sorted)@.len() == old(sorted)@.len(),
        sorted_for(final(sorted)@, dist@, nr),
{
    let n = sorted.len();
    let mut out: Vec<u32> = Vec::new();
    let mut k: usize = 0;
    while k < n
        invariant
            sorted@ == old(sorted)@,
            n == sorted@.len(),
            k <= n,
            indices_in_range(sorted@, dist@.len()),
            out@ == sort_indices(sorted@.take(k as int), dist@, nr),
        decreases n - k,
    {
        proof {
            assert(sorted@[k as int] < dist@.len());
        }
        let x = sorted[k];
        proof {
            lemma_sort_indices_ensures(sorted@.take(k as int), dist@, nr);
            assert forall|i: int| 0 <= i < out@.len() implies (#[trigger] out@[i])
                < dist@.len() by {
                assert(sorted@.take(k as int).contains(out@[i]));
                let w = choose|w: int|
                    0 <= w < sorted@.take(k as int).len() && sorted@.take(k as int)[w] == out@[i];
                assert(sorted@.take(k as int)[w] == sorted@[w]);
            }
        }
        let mut p: usize = 0;
        while p < out.len() && dist_le_exec(dist[out[p] as usize], dist[x as usize], nr)
            invariant
                sorted@ == old(sorted)@,
                indices_in_range(sorted@, dist@.len()),
                indices_in_range(out@, dist@.len()),
                out@ == sort_indices(sorted@.take(k as int), dist@, nr),
                x == sorted@[k as int],
                k < sorted@.len(),
                p <= out.len(),
                forall|i: int|
                    0 <= i < p ==> dist_le(
                        dist@[(#[trigger] out@[i]) as int],
                        dist@[x as int],
                        nr,
                    ),
            decreases out.len() - p,
        {
            p += 1;
        }
        proof {
            lemma_insert_ordered_at(x, out@, dist@, nr, p as int);
            assert(sorted@.take(k + 1).drop_last() =~= sorted@.take(k as int));
            assert(sorted@.take(k + 1).last() == sorted@[k as int]);
        }
        out.insert(p, x);
        k += 1;
    }
    proof {
        assert(sorted@.take(n as int) =~= sorted@);
        lemma_sort_indices_ensures(sorted@, dist@, nr);
    }
    *sorted = out;
}

} // verus!
