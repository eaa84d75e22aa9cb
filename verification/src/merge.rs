//! Position merge-join: pairing a longitude stream and a latitude stream on
//! exact timestamp equality with an ordered two-pointer merge.

use vstd::prelude::*;
use crate::data::{Position, ShipData};
use crate::sort::sorted_by_time;

verus! {

/// The timestamps occurring in a sample stream.
pub open spec fn times_of(s: Seq<ShipData>) -> Set<i64> {
    Set::new(|t: i64| exists|i: int| 0 <= i < s.len() && s[i].time == t)
}

/// The timestamps occurring in a merged position stream.
pub open spec fn position_times(s: Seq<Position>) -> Set<i64> {
    Set::new(|t: i64| exists|i: int| 0 <= i < s.len() && s[i].time == t)
}

/// Strict ascending order by timestamp: sorted and free of duplicate
/// instants.
pub open spec fn strictly_ascending(s: Seq<ShipData>) -> bool {
    forall|i: int, j: int| 0 <= i < j < s.len() ==> s[i].time < s[j].time
}

/// Strict ascending order of a merged position stream.
pub open spec fn strictly_ascending_positions(s: Seq<Position>) -> bool {
    forall|i: int, j: int| 0 <= i < j < s.len() ==> s[i].time < s[j].time
}

/// The ordered merge-join of a longitude stream `a` and a latitude stream
/// `b`, both ascending by time: one [`Position`] per exact timestamp match,
/// with the earlier unmatched sample dropped at every step. Should a stream
/// carry several samples of one instant, each pairs with the corresponding
/// occurrence on the other side in arrival order, both cursors advancing
/// together on a match.
pub open spec fn merge_join(a: Seq<ShipData>, b: Seq<ShipData>) -> Seq<Position>
    decreases a.len() + b.len(),
{
    if a.len() == 0 || b.len() == 0 {
        Seq::empty()
    } else if a[0].time < b[0].time {
        merge_join(a.drop_first(), b)
    } else if b[0].time < a[0].time {
        merge_join(a, b.drop_first())
    } else {
        seq![
            Position { time: a[0].time, longitude: a[0].value, latitude: b[0].value },
        ] + merge_join(a.drop_first(), b.drop_first())
    }
}

/// Pairs longitude and latitude samples measured at the exact same instant
/// into position records, one linear pass over both streams. Samples whose
/// timestamp occurs on one side only are dropped silently; a sensor may
/// stop reporting earlier than the other.
///
/// Both inputs are expected ascending by time (the fetch pipeline sorts
/// every stream first); the result then enjoys the properties of
/// [`lemma_merge_join_times`] and [`lemma_merge_join_ascending`].
pub fn pair_longitude_latitude(longitude: Vec<ShipData>, latitude: Vec<ShipData>) -> (r: Vec<
    Position,
>)
    ensures
        r@ == merge_join(longitude@, latitude@),
{
    let mut positions: Vec<Position> = Vec::new();
    let mut i: usize = 0;
    let mut j: usize = 0;
    proof {
        assert(longitude@.skip(0) =~= longitude@);
        assert(latitude@.skip(0) =~= latitude@);
        assert(Seq::<Position>::empty() + merge_join(longitude@, latitude@) =~= merge_join(
            longitude@,
            latitude@,
        ));
    }
    while i < longitude.len() && j < latitude.len()
        invariant
            i <= longitude@.len(),
            j <= latitude@.len(),
            positions@ + merge_join(longitude@.skip(i as int), latitude@.skip(j as int))
                == merge_join(longitude@, latitude@),
        decreases longitude@.len() - i + latitude@.len() - j,
    {
        let lng = longitude[i];
        let lat = latitude[j];
        let ghost sa = longitude@.skip(i as int);
        let ghost sb = latitude@.skip(j as int);
        proof {
            assert(sa[0] == longitude@[i as int]);
            assert(sb[0] == latitude@[j as int]);
            assert(sa.drop_first() =~= longitude@.skip(i + 1 as int));
            assert(sb.drop_first() =~= latitude@.skip(j + 1 as int));
        }
        if lng.time < lat.time {
            i = i + 1;
        } else if lat.time < lng.time {
            j = j + 1;
        } else {
            let p = Position::new(lng.time, lng.value, lat.value);
            proof {
                assert(merge_join(sa, sb) == seq![p] + merge_join(
                    sa.drop_first(),
                    sb.drop_first(),
                ));
                assert(positions@.push(p) + merge_join(sa.drop_first(), sb.drop_first())
                    =~= positions@ + merge_join(sa, sb));
            }
            positions.push(p);
            i = i + 1;
            j = j + 1;
        }
    }
    proof {
        assert(merge_join(longitude@.skip(i as int), latitude@.skip(j as int))
            =~= Seq::<Position>::empty());
        assert(positions@ + Seq::<Position>::empty() =~= positions@);
    }
    positions
}

/// Empty-input handling: if either stream is empty, the merge-join is
/// empty.
pub proof fn lemma_merge_join_empty(a: Seq<ShipData>, b: Seq<ShipData>)
    requires
        a.len() == 0 || b.len() == 0,
    ensures
        merge_join(a, b) == Seq::<Position>::empty(),
{
}

/// The merge-join emits at most one position per sample of either side.
pub proof fn lemma_merge_join_len(a: Seq<ShipData>, b: Seq<ShipData>)
    ensures
        merge_join(a, b).len() <= a.len(),
        merge_join(a, b).len() <= b.len(),
    decreases a.len() + b.len(),
{
    if a.len() == 0 || b.len() == 0 {
    } else if a[0].time < b[0].time {
        lemma_merge_join_len(a.drop_first(), b);
    } else if b[0].time < a[0].time {
        lemma_merge_join_len(a, b.drop_first());
    } else {
        lemma_merge_join_len(a.drop_first(), b.drop_first());
    }
}

/// Every merged position takes its timestamp and longitude from a sample of
/// `a` and its timestamp and latitude from a sample of `b`.
pub proof fn lemma_merge_join_provenance(a: Seq<ShipData>, b: Seq<ShipData>)
    ensures
        forall|k: int|
            0 <= k < merge_join(a, b).len() ==> a.contains(
                ShipData { time: merge_join(a, b)[k].time, value: merge_join(a, b)[k].longitude },
            ) && b.contains(
                ShipData { time: merge_join(a, b)[k].time, value: merge_join(a, b)[k].latitude },
            ),
    decreases a.len() + b.len(),
{
    let out = merge_join(a, b);
    if a.len() == 0 || b.len() == 0 {
    } else if a[0].time < b[0].time {
        lemma_merge_join_provenance(a.drop_first(), b);
        let tail = merge_join(a.drop_first(), b);
        assert(out == tail);
        assert forall|k: int|
            0 <= k < out.len() implies a.contains(
            ShipData { time: out[k].time, value: out[k].longitude },
        ) && b.contains(ShipData { time: out[k].time, value: out[k].latitude }) by {
            assert(out[k] == tail[k]);
            assert(a.drop_first().contains(ShipData { time: tail[k].time, value: tail[k].longitude }));
            lemma_contains_drop_first(a, ShipData { time: out[k].time, value: out[k].longitude });
        }
    } else if b[0].time < a[0].time {
        lemma_merge_join_provenance(a, b.drop_first());
        let tail = merge_join(a, b.drop_first());
        assert(out == tail);
        assert forall|k: int|
            0 <= k < out.len() implies a.contains(
            ShipData { time: out[k].time, value: out[k].longitude },
        ) && b.contains(ShipData { time: out[k].time, value: out[k].latitude }) by {
            assert(out[k] == tail[k]);
            assert(b.drop_first().contains(ShipData { time: tail[k].time, value: tail[k].latitude }));
            lemma_contains_drop_first(b, ShipData { time: out[k].time, value: out[k].latitude });
        }
    } else {
        lemma_merge_join_provenance(a.drop_first(), b.drop_first());
        assert forall|k: int|
            0 <= k < out.len() implies a.contains(
            ShipData { time: out[k].time, value: out[k].longitude },
        ) && b.contains(ShipData { time: out[k].time, value: out[k].latitude }) by {
            if k == 0 {
                assert(a[0] == ShipData { time: out[0].time, value: out[0].longitude });
                assert(b[0] == ShipData { time: out[0].time, value: out[0].latitude });
            } else {
                let tail = merge_join(a.drop_first(), b.drop_first());
                assert(out[k] == tail[k - 1]);
                assert(a.drop_first().contains(
                    ShipData { time: tail[k - 1].time, value: tail[k - 1].longitude },
                ));
                assert(b.drop_first().contains(
                    ShipData { time: tail[k - 1].time, value: tail[k - 1].latitude },
                ));
                lemma_contains_drop_first(
                    a,
                    ShipData { time: out[k].time, value: out[k].longitude },
                );
                lemma_contains_drop_first(
                    b,
                    ShipData { time: out[k].time, value: out[k].latitude },
                );
            }
        }
    }
}

/// An element of the tail of a sequence is an element of the sequence.
proof fn lemma_contains_drop_first(s: Seq<ShipData>, x: ShipData)
    requires
        s.len() > 0,
        s.drop_first().contains(x),
    ensures
        s.contains(x),
{
    let i = choose|i: int| 0 <= i < s.drop_first().len() && s.drop_first()[i] == x;
    assert(s[i + 1] == x);
}

/// Merge-join correctness over sorted inputs: the merged stream holds a
/// position for exactly the timestamps present in both inputs — every
/// shared instant appears, and no one-sided instant does.
pub proof fn lemma_merge_join_times(a: Seq<ShipData>, b: Seq<ShipData>)
    requires
        sorted_by_time(a),
        sorted_by_time(b),
    ensures
        position_times(merge_join(a, b)) == times_of(a).intersect(times_of(b)),
    decreases a.len() + b.len(),
{
    let out = merge_join(a, b);
    if a.len() == 0 || b.len() == 0 {
        assert(position_times(out) =~= times_of(a).intersect(times_of(b)));
    } else if a[0].time < b[0].time {
        assert(sorted_by_time(a.drop_first()));
        lemma_merge_join_times(a.drop_first(), b);
        assert(position_times(out) =~= times_of(a).intersect(times_of(b))) by {
            assert forall|t: i64| times_of(a).intersect(times_of(b)).contains(t) implies times_of(
                a.drop_first(),
            ).intersect(times_of(b)).contains(t) by {
                let i = choose|i: int| 0 <= i < a.len() && a[i].time == t;
                let j = choose|j: int| 0 <= j < b.len() && b[j].time == t;
                // b is sorted, so t is at least b[0].time, which exceeds a[0].time
                assert(b[0].time <= b[j].time);
                assert(i > 0);
                assert(a.drop_first()[i - 1].time == t);
            }
            assert forall|t: i64|
                times_of(a.drop_first()).intersect(times_of(b)).contains(t) implies times_of(
                a,
            ).intersect(times_of(b)).contains(t) by {
                let i = choose|i: int|
                    0 <= i < a.drop_first().len() && a.drop_first()[i].time == t;
                assert(a[i + 1].time == t);
            }
        }
    } else if b[0].time < a[0].time {
        assert(sorted_by_time(b.drop_first()));
        lemma_merge_join_times(a, b.drop_first());
        assert(position_times(out) =~= times_of(a).intersect(times_of(b))) by {
            assert forall|t: i64| times_of(a).intersect(times_of(b)).contains(t) implies times_of(
                a,
            ).intersect(times_of(b.drop_first())).contains(t) by {
                let i = choose|i: int| 0 <= i < a.len() && a[i].time == t;
                let j = choose|j: int| 0 <= j < b.len() && b[j].time == t;
                assert(a[0].time <= a[i].time);
                assert(j > 0);
                assert(b.drop_first()[j - 1].time == t);
            }
            assert forall|t: i64|
                times_of(a).intersect(times_of(b.drop_first())).contains(t) implies times_of(
                a,
            ).intersect(times_of(b)).contains(t) by {
                let j = choose|j: int|
                    0 <= j < b.drop_first().len() && b.drop_first()[j].time == t;
                assert(b[j + 1].time == t);
            }
        }
    } else {
        let t0 = a[0].time;
        assert(sorted_by_time(a.drop_first()));
        assert(sorted_by_time(b.drop_first()));
        lemma_merge_join_times(a.drop_first(), b.drop_first());
        let tail = merge_join(a.drop_first(), b.drop_first());
        assert(position_times(out) =~= times_of(a).intersect(times_of(b))) by {
            assert forall|t: i64| position_times(out).contains(t) implies times_of(a).intersect(
                times_of(b),
            ).contains(t) by {
                let k = choose|k: int| 0 <= k < out.len() && out[k].time == t;
                if k == 0 {
                    assert(a[0].time == t && b[0].time == t);
                } else {
                    assert(tail[k - 1].time == t);
                    assert(position_times(tail).contains(t));
                    let i = choose|i: int|
                        0 <= i < a.drop_first().len() && a.drop_first()[i].time == t;
                    let j = choose|j: int|
                        0 <= j < b.drop_first().len() && b.drop_first()[j].time == t;
                    assert(a[i + 1].time == t);
                    assert(b[j + 1].time == t);
                }
            }
            assert forall|t: i64|
                times_of(a).intersect(times_of(b)).contains(t) implies position_times(
                out,
            ).contains(t) by {
                if t == t0 {
                    assert(out[0].time == t);
                } else {
                    let i = choose|i: int| 0 <= i < a.len() && a[i].time == t;
                    let j = choose|j: int| 0 <= j < b.len() && b[j].time == t;
                    assert(i > 0 && j > 0);
                    assert(a.drop_first()[i - 1].time == t);
                    assert(b.drop_first()[j - 1].time == t);
                    assert(position_times(tail).contains(t));
                    let k = choose|k: int| 0 <= k < tail.len() && tail[k].time == t;
                    assert(out[k + 1].time == t);
                }
            }
        }
    }
}

/// Merge-join order: over strictly ascending inputs the merged stream is
/// itself strictly ascending — each shared timestamp yields exactly one
/// position, consumed once from each side, with no duplicates. Every
/// position's timestamp is also bounded below by both input heads.
pub proof fn lemma_merge_join_ascending(a: Seq<ShipData>, b: Seq<ShipData>)
    requires
        strictly_ascending(a),
        strictly_ascending(b),
    ensures
        strictly_ascending_positions(merge_join(a, b)),
        forall|k: int|
            0 <= k < merge_join(a, b).len() ==> merge_join(a, b)[k].time >= a[0].time && merge_join(
                a,
                b,
            )[k].time >= b[0].time,
    decreases a.len() + b.len(),
{
    let out = merge_join(a, b);
    if a.len() == 0 || b.len() == 0 {
    } else if a[0].time < b[0].time {
        assert(strictly_ascending(a.drop_first()));
        lemma_merge_join_ascending(a.drop_first(), b);
        assert forall|k: int|
            0 <= k < out.len() implies out[k].time >= a[0].time && out[k].time >= b[0].time by {
            assert(a.drop_first().len() > 0) by {
                lemma_merge_join_len(a.drop_first(), b);
            }
            assert(a.drop_first()[0] == a[1]);
        }
    } else if b[0].time < a[0].time {
        assert(strictly_ascending(b.drop_first()));
        lemma_merge_join_ascending(a, b.drop_first());
        assert forall|k: int|
            0 <= k < out.len() implies out[k].time >= a[0].time && out[k].time >= b[0].time by {
            assert(b.drop_first().len() > 0) by {
                lemma_merge_join_len(a, b.drop_first());
            }
            assert(b.drop_first()[0] == b[1]);
        }
    } else {
        assert(strictly_ascending(a.drop_first()));
        assert(strictly_ascending(b.drop_first()));
        lemma_merge_join_ascending(a.drop_first(), b.drop_first());
        let tail = merge_join(a.drop_first(), b.drop_first());
        assert forall|k: int|
            0 <= k < out.len() implies out[k].time >= a[0].time && out[k].time >= b[0].time by {
            if k > 0 {
                assert(out[k] == tail[k - 1]);
                assert(tail.len() > 0);
                assert(a.drop_first().len() > 0 && b.drop_first().len() > 0) by {
                    lemma_merge_join_len(a.drop_first(), b.drop_first());
                }
                assert(tail[k - 1].time >= a.drop_first()[0].time);
                assert(a.drop_first()[0] == a[1]);
            }
        }
        assert forall|k: int, l: int| 0 <= k < l < out.len() implies out[k].time < out[l].time by {
            assert(out[l] == tail[l - 1]);
            assert(a.drop_first().len() > 0 && b.drop_first().len() > 0) by {
                lemma_merge_join_len(a.drop_first(), b.drop_first());
            }
            if k == 0 {
                assert(tail[l - 1].time >= a.drop_first()[0].time);
                assert(a.drop_first()[0] == a[1]);
                assert(a[0].time < a[1].time);
            } else {
                assert(out[k] == tail[k - 1]);
            }
        }
    }
}

/// No duplicate positions: over strictly ascending inputs, each shared
/// timestamp yields exactly one merged position.
pub proof fn lemma_merge_join_unique(a: Seq<ShipData>, b: Seq<ShipData>, k: int, l: int)
    requires
        strictly_ascending(a),
        strictly_ascending(b),
        0 <= k < merge_join(a, b).len(),
        0 <= l < merge_join(a, b).len(),
        merge_join(a, b)[k].time == merge_join(a, b)[l].time,
    ensures
        k == l,
{
    lemma_merge_join_ascending(a, b);
}

/// No-overlap handling: streams that share no timestamp merge to nothing,
/// whatever their order.
pub proof fn lemma_merge_join_disjoint(a: Seq<ShipData>, b: Seq<ShipData>)
    requires
        times_of(a).disjoint(times_of(b)),
    ensures
        merge_join(a, b).len() == 0,
    decreases a.len() + b.len(),
{
    if a.len() == 0 || b.len() == 0 {
    } else {
        assert(times_of(a).contains(a[0].time));
        assert(times_of(b).contains(b[0].time));
        assert(a[0].time != b[0].time);
        if a[0].time < b[0].time {
            assert(times_of(a.drop_first()).disjoint(times_of(b))) by {
                assert forall|t: i64| times_of(a.drop_first()).contains(t) implies !times_of(
                    b,
                ).contains(t) by {
                    let i = choose|i: int|
                        0 <= i < a.drop_first().len() && a.drop_first()[i].time == t;
                    assert(a[i + 1].time == t);
                    assert(times_of(a).contains(t));
                }
            }
            lemma_merge_join_disjoint(a.drop_first(), b);
        } else {
            assert(times_of(b.drop_first()).disjoint(times_of(a))) by {
                assert forall|t: i64| times_of(b.drop_first()).contains(t) implies !times_of(
                    a,
                ).contains(t) by {
                    let j = choose|j: int|
                        0 <= j < b.drop_first().len() && b.drop_first()[j].time == t;
                    assert(b[j + 1].time == t);
                    assert(times_of(b).contains(t));
                }
            }
            assert(times_of(a).disjoint(times_of(b.drop_first()))) by {
                assert forall|t: i64| times_of(a).contains(t) implies !times_of(
                    b.drop_first(),
                ).contains(t) by {
                    if times_of(b.drop_first()).contains(t) {
                        let j = choose|j: int|
                            0 <= j < b.drop_first().len() && b.drop_first()[j].time == t;
                        assert(b[j + 1].time == t);
                        assert(times_of(b).contains(t));
                    }
                }
            }
            lemma_merge_join_disjoint(a, b.drop_first());
        }
    }
}

} // verus!
