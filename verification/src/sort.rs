//! Defensive ordering of fetched streams: the data hub does not promise to
//! return samples in time order, so every stream is sorted ascending by
//! timestamp before it reaches the merge-join or the export layer.

use vstd::prelude::*;
use vstd::seq_lib::group_to_multiset_ensures;
use crate::data::ShipData;

verus! {

/// Ascending (not necessarily strict) order by timestamp.
pub open spec fn sorted_by_time(s: Seq<ShipData>) -> bool {
    forall|i: int, j: int| 0 <= i <= j < s.len() ==> s[i].time <= s[j].time
}

/// `x` placed into `r` from the right, after every element whose timestamp
/// is at most `x.time`. On a sorted sequence this is the stable insertion
/// step: an incoming sample lands after earlier samples of the same instant.
pub open spec fn insert_by_time(r: Seq<ShipData>, x: ShipData) -> Seq<ShipData>
    decreases r.len(),
{
    if r.len() == 0 {
        seq![x]
    } else if r.last().time <= x.time {
        r.push(x)
    } else {
        insert_by_time(r.drop_last(), x).push(r.last())
    }
}

/// The ascending-by-time reordering of `s`: each sample inserted in turn by
/// [`insert_by_time`], which makes the sort stable.
pub open spec fn sort_samples(s: Seq<ShipData>) -> Seq<ShipData>
    decreases s.len(),
{
    if s.len() == 0 {
        Seq::empty()
    } else {
        insert_by_time(sort_samples(s.drop_last()), s.last())
    }
}

/// Inserting a sample adds exactly that sample: the multiset of samples
/// grows by `x` and nothing else.
pub proof fn lemma_insert_by_time_multiset(r: Seq<ShipData>, x: ShipData)
    ensures
        insert_by_time(r, x).to_multiset() == r.to_multiset().insert(x),
    decreases r.len(),
{
    broadcast use group_to_multiset_ensures;
    broadcast use vstd::multiset::group_multiset_axioms;

    if r.len() == 0 {
        assert(seq![x] =~= r.push(x));
    } else if r.last().time <= x.time {
        // push handled by the multiset lemmas directly
    } else {
        lemma_insert_by_time_multiset(r.drop_last(), x);
        assert(r.drop_last().push(r.last()) =~= r);
        assert(r.drop_last().to_multiset().insert(x).insert(r.last()) =~= r.drop_last()
            .to_multiset()
            .insert(r.last())
            .insert(x));
    }
}

/// Every element of `insert_by_time(r, x)` is `x` or an element of `r`.
pub proof fn lemma_insert_by_time_elems(r: Seq<ShipData>, x: ShipData)
    ensures
        insert_by_time(r, x).len() == r.len() + 1,
        forall|k: int|
            0 <= k < insert_by_time(r, x).len() ==> insert_by_time(r, x)[k] == x || r.contains(
                insert_by_time(r, x)[k],
            ),
    decreases r.len(),
{
    if r.len() == 0 {
    } else if r.last().time <= x.time {
        assert(forall|k: int| 0 <= k < r.len() ==> r.push(x)[k] == r[k] && r.contains(r[k]));
    } else {
        lemma_insert_by_time_elems(r.drop_last(), x);
        let out = insert_by_time(r, x);
        assert forall|k: int| 0 <= k < out.len() implies out[k] == x || r.contains(out[k]) by {
            if k < out.len() - 1 {
                if out[k] != x {
                    let inner = insert_by_time(r.drop_last(), x);
                    assert(out[k] == inner[k]);
                    let i = choose|i: int|
                        0 <= i < r.drop_last().len() && r.drop_last()[i] == inner[k];
                    assert(r[i] == out[k]);
                }
            } else {
                assert(out[k] == r.last());
                assert(r[r.len() - 1] == r.last());
            }
        }
    }
}

/// Insertion keeps the sequence sorted.
pub proof fn lemma_insert_by_time_sorted(r: Seq<ShipData>, x: ShipData)
    requires
        sorted_by_time(r),
    ensures
        sorted_by_time(insert_by_time(r, x)),
    decreases r.len(),
{
    if r.len() == 0 {
    } else if r.last().time <= x.time {
    } else {
        assert(sorted_by_time(r.drop_last()));
        lemma_insert_by_time_sorted(r.drop_last(), x);
        lemma_insert_by_time_elems(r.drop_last(), x);
        let inner = insert_by_time(r.drop_last(), x);
        // every element of the inner insertion is at most r.last() in time
        assert forall|k: int| 0 <= k < inner.len() implies inner[k].time <= r.last().time by {
            if inner[k] != x {
                let i = choose|i: int| 0 <= i < r.drop_last().len() && r.drop_last()[i] == inner[k];
                assert(r[i].time <= r[r.len() - 1].time);
            }
        }
        assert(sorted_by_time(inner.push(r.last())));
    }
}

/// The sorted reordering is sorted and holds exactly the input samples.
pub proof fn lemma_sort_samples_ensures(s: Seq<ShipData>)
    ensures
        sorted_by_time(sort_samples(s)),
        sort_samples(s).to_multiset() == s.to_multiset(),
        sort_samples(s).len() == s.len(),
    decreases s.len(),
{
    broadcast use group_to_multiset_ensures;

    if s.len() == 0 {
        assert(sort_samples(s).to_multiset() =~= s.to_multiset());
    } else {
        lemma_sort_samples_ensures(s.drop_last());
        lemma_insert_by_time_sorted(sort_samples(s.drop_last()), s.last());
        lemma_insert_by_time_multiset(sort_samples(s.drop_last()), s.last());
        assert(s.drop_last().push(s.last()) =~= s);
        assert(sort_samples(s).len() == sort_samples(s).to_multiset().len());
        assert(s.len() == s.to_multiset().len());
    }
}

/// The samples measured at instant `t`.
pub open spec fn at_instant(t: i64) -> spec_fn(ShipData) -> bool {
    |x: ShipData| x.time == t
}

/// Inserting a sample of another instant leaves an instant's samples alone;
/// inserting one of the same instant appends it to them.
proof fn lemma_insert_by_time_stable(r: Seq<ShipData>, x: ShipData, t: i64)
    requires
        sorted_by_time(r),
    ensures
        x.time == t ==> insert_by_time(r, x).filter(at_instant(t)) == r.filter(
            at_instant(t),
        ).push(x),
        x.time != t ==> insert_by_time(r, x).filter(at_instant(t)) == r.filter(at_instant(t)),
    decreases r.len(),
{
    reveal(Seq::filter);
    let p = at_instant(t);
    if r.len() == 0 {
        assert(seq![x].drop_last() =~= Seq::<ShipData>::empty());
        assert(seq![x].last() == x);
        assert(r =~= Seq::<ShipData>::empty());
    } else if r.last().time <= x.time {
        assert(r.push(x).drop_last() =~= r);
    } else {
        assert(sorted_by_time(r.drop_last()));
        lemma_insert_by_time_stable(r.drop_last(), x, t);
        let inner = insert_by_time(r.drop_last(), x);
        assert(inner.push(r.last()).drop_last() =~= inner);
        assert(r.drop_last().push(r.last()) =~= r);
        if x.time == t {
            // the inserted sample sorts before r.last(), which is of a
            // strictly later instant and so never in the filtered view
            assert(!p(r.last()));
            assert(insert_by_time(r, x).filter(p) == inner.filter(p));
            assert(r.filter(p) == r.drop_last().filter(p));
        }
    }
}

/// The sort is stable: for each instant, the sorted stream carries exactly
/// the input's samples of that instant, in their arrival order — the policy
/// the merge-join's duplicate handling rests on.
pub proof fn lemma_sort_samples_stable(s: Seq<ShipData>, t: i64)
    ensures
        sort_samples(s).filter(at_instant(t)) == s.filter(at_instant(t)),
    decreases s.len(),
{
    reveal(Seq::filter);
    let p = at_instant(t);
    if s.len() == 0 {
    } else {
        lemma_sort_samples_stable(s.drop_last(), t);
        lemma_sort_samples_ensures(s.drop_last());
        lemma_insert_by_time_stable(sort_samples(s.drop_last()), s.last(), t);
        assert(s.drop_last().push(s.last()) =~= s);
        assert(s.filter(p) == if p(s.last()) {
            s.drop_last().filter(p).push(s.last())
        } else {
            s.drop_last().filter(p)
        });
    }
}

/// Where the scanned insertion point `k` lies, the functional insertion and
/// the positional one agree.
proof fn lemma_insert_by_time_at(r: Seq<ShipData>, x: ShipData, k: int)
    requires
        0 <= k <= r.len(),
        forall|idx: int| k <= idx < r.len() ==> r[idx].time > x.time,
        k > 0 ==> r[k - 1].time <= x.time,
    ensures
        insert_by_time(r, x) == r.insert(k, x),
    decreases r.len(),
{
    if r.len() == 0 {
        assert(insert_by_time(r, x) =~= r.insert(0, x));
    } else if k == r.len() {
        assert(r.last().time <= x.time);
        assert(r.push(x) =~= r.insert(k, x));
    } else {
        assert(r[r.len() - 1].time > x.time);
        lemma_insert_by_time_at(r.drop_last(), x, k);
        assert(r.drop_last().insert(k, x).push(r.last()) =~= r.insert(k, x));
    }
}

/// Sorts a fetched stream ascending by timestamp (stable: samples sharing
/// an instant keep their arrival order), defensively restoring the order
/// the remote source may not have preserved.
pub fn sort_by_time(data: Vec<ShipData>) -> (r: Vec<ShipData>)
    ensures
        r@ == sort_samples(data@),
        sorted_by_time(r@),
        r@.to_multiset() == data@.to_multiset(),
        r@.len() == data@.len(),
{
    let mut r: Vec<ShipData> = Vec::new();
    let mut i: usize = 0;
    while i < data.len()
        invariant
            i <= data@.len(),
            r@ == sort_samples(data@.subrange(0, i as int)),
        decreases data@.len() - i,
    {
        let x = data[i];
        let mut k: usize = r.len();
        while k > 0 && r[k - 1].time > x.time
            invariant
                k <= r@.len(),
                forall|idx: int| k <= idx < r@.len() ==> r@[idx].time > x.time,
            decreases k,
        {
            k = k - 1;
        }
        proof {
            lemma_insert_by_time_at(r@, x, k as int);
            assert(data@.subrange(0, i + 1 as int).drop_last() =~= data@.subrange(0, i as int));
            assert(data@.subrange(0, i + 1 as int).last() == data@[i as int]);
        }
        r.insert(k, x);
        i = i + 1;
    }
    proof {
        assert(data@.subrange(0, data@.len() as int) =~= data@);
        lemma_sort_samples_ensures(data@);
    }
    r
}

} // verus!
