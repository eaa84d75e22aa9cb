//! Fan-out fetch orchestration, the computational half: which parameter
//! streams a day-fetch requests, and how a batch of concurrent fetch
//! results is turned into either a partitioned set of streams or a single
//! fatal error. The surrounding application performs the concurrent network
//! fetches themselves and hands their results here in issuance order.

use vstd::prelude::*;
use vstd::seq_lib::group_to_multiset_ensures;
use crate::data::{FetchError, Parameter, Position, ShipData};
use crate::merge::{merge_join, pair_longitude_latitude};
use crate::sort::{sort_by_time, sort_samples, sorted_by_time};

verus! {

/// A fetched stream: the parameter it was requested for, with its samples.
pub type ParameterAndData = (Parameter, Vec<ShipData>);

/// The non-positional parameters, in the order a day-fetch requests them:
/// every enumerated parameter except latitude and longitude.
pub open spec fn non_positional_seq() -> Seq<Parameter> {
    seq![
        Parameter::Speed,
        Parameter::SteeringOrder,
        Parameter::SteeringAngle,
        Parameter::Heading,
        Parameter::Course,
        Parameter::FuelConsumption,
        Parameter::RudderOrder,
        Parameter::RudderAngle,
    ]
}

/// The parameters a non-positional day-fetch requests, in issuance order.
pub fn non_positional_parameters() -> (r: Vec<Parameter>)
    ensures
        r@ == non_positional_seq(),
{
    let mut r: Vec<Parameter> = Vec::new();
    r.push(Parameter::Speed);
    r.push(Parameter::SteeringOrder);
    r.push(Parameter::SteeringAngle);
    r.push(Parameter::Heading);
    r.push(Parameter::Course);
    r.push(Parameter::FuelConsumption);
    r.push(Parameter::RudderOrder);
    r.push(Parameter::RudderAngle);
    proof {
        assert(r@ =~= non_positional_seq());
    }
    r
}

/// The non-positional request set is eight pairwise distinct parameters and
/// excludes the two coordinate parameters.
pub proof fn lemma_non_positional_parameters()
    ensures
        non_positional_seq().len() == 8,
        forall|i: int, j: int|
            0 <= i < j < non_positional_seq().len() ==> non_positional_seq()[i]
                != non_positional_seq()[j],
        forall|i: int|
            0 <= i < non_positional_seq().len() ==> non_positional_seq()[i] != Parameter::Latitude
                && non_positional_seq()[i] != Parameter::Longitude,
{
}

/// The per-fetch preparation step: a stream sorted ascending by time,
/// paired with the parameter it was requested for.
pub fn prepare_stream(parameter: Parameter, data: Vec<ShipData>) -> (r: ParameterAndData)
    ensures
        r.0 == parameter,
        r.1@ == sort_samples(data@),
        sorted_by_time(r.1@),
        r.1@.to_multiset() == data@.to_multiset(),
{
    (parameter, sort_by_time(data))
}

/// The first error of a fetch batch, in issuance order, if any.
pub open spec fn first_fetch_error(rs: Seq<Result<ParameterAndData, FetchError>>) -> Option<
    FetchError,
>
    decreases rs.len(),
{
    if rs.len() == 0 {
        None
    } else {
        match rs[0] {
            Result::Err(e) => Some(e),
            Result::Ok(_) => first_fetch_error(rs.drop_first()),
        }
    }
}

/// The streams of a fully successful batch, in issuance order.
pub open spec fn fetched_streams(rs: Seq<Result<ParameterAndData, FetchError>>) -> Seq<
    ParameterAndData,
>
    decreases rs.len(),
{
    if rs.len() == 0 {
        Seq::empty()
    } else {
        let rest = fetched_streams(rs.drop_last());
        match rs.last() {
            Result::Ok(s) => rest.push(s),
            Result::Err(_) => rest,
        }
    }
}

/// The parameters whose streams came back without a single sample, in
/// issuance order: legitimately unrecorded that day, reported as a notice.
pub open spec fn empty_parameters(ss: Seq<ParameterAndData>) -> Seq<Parameter>
    decreases ss.len(),
{
    if ss.len() == 0 {
        Seq::empty()
    } else {
        let rest = empty_parameters(ss.drop_last());
        if ss.last().1@.len() == 0 {
            rest.push(ss.last().0)
        } else {
            rest
        }
    }
}

/// The streams that came back with at least one sample, in issuance order.
pub open spec fn non_empty_streams(ss: Seq<ParameterAndData>) -> Seq<ParameterAndData>
    decreases ss.len(),
{
    if ss.len() == 0 {
        Seq::empty()
    } else {
        let rest = non_empty_streams(ss.drop_last());
        if ss.last().1@.len() > 0 {
            rest.push(ss.last())
        } else {
            rest
        }
    }
}

/// What the fan-in of a non-positional fetch batch returns: on any failed
/// fetch, the first error and nothing else; on full success, the empty
/// parameters (one notice each) and the non-empty streams, both in issuance
/// order.
pub open spec fn collect_relation(
    rs: Seq<Result<ParameterAndData, FetchError>>,
    out: Result<(Vec<Parameter>, Vec<ParameterAndData>), FetchError>,
) -> bool {
    match out {
        Result::Ok(pair) => first_fetch_error(rs) is None && pair.0@ == empty_parameters(
            fetched_streams(rs),
        ) && pair.1@ == non_empty_streams(fetched_streams(rs)),
        Result::Err(e) => first_fetch_error(rs) == Some(e),
    }
}

/// Fan-in of a non-positional fetch batch, results given in issuance order.
/// Fails as a whole if any single fetch failed — there is no partial
/// success; otherwise partitions the batch into the parameters that
/// recorded nothing that day and the non-empty streams.
pub fn collect_other_data(results: Vec<Result<ParameterAndData, FetchError>>) -> (out: Result<
    (Vec<Parameter>, Vec<ParameterAndData>),
    FetchError,
>)
    ensures
        collect_relation(results@, out),
{
    let ghost orig = results@;
    let mut rest = results;
    let ghost processed: int = 0;
    let mut empties: Vec<Parameter> = Vec::new();
    let mut non_empty: Vec<ParameterAndData> = Vec::new();
    proof {
        assert(orig.skip(0) =~= orig);
        assert(orig.subrange(0, 0) =~= Seq::<Result<ParameterAndData, FetchError>>::empty());
    }
    while rest.len() > 0
        invariant
            orig == results@,
            0 <= processed <= orig.len(),
            rest@ == orig.skip(processed),
            first_fetch_error(orig) == first_fetch_error(orig.skip(processed)),
            empties@ == empty_parameters(fetched_streams(orig.subrange(0, processed))),
            non_empty@ == non_empty_streams(fetched_streams(orig.subrange(0, processed))),
        decreases rest@.len(),
    {
        let r = rest.remove(0);
        proof {
            assert(orig.skip(processed)[0] == orig[processed]);
            assert(orig.skip(processed).drop_first() =~= orig.skip(processed + 1));
            assert(rest@ =~= orig.skip(processed + 1));
            assert(orig.subrange(0, processed + 1).drop_last() =~= orig.subrange(0, processed));
            assert(orig.subrange(0, processed + 1).last() == orig[processed]);
        }
        match r {
            Result::Err(e) => {
                proof {
                    assert(first_fetch_error(orig.skip(processed)) == Some(e));
                }
                return Result::Err(e);
            },
            Result::Ok((p, data)) => {
                let ghost prev = fetched_streams(orig.subrange(0, processed));
                proof {
                    assert(fetched_streams(orig.subrange(0, processed + 1)) == prev.push(
                        (p, data),
                    ));
                    assert(prev.push((p, data)).drop_last() =~= prev);
                }
                if data.len() == 0 {
                    empties.push(p);
                } else {
                    non_empty.push((p, data));
                }
                proof {
                    processed = processed + 1;
                }
            },
        }
    }
    proof {
        assert(orig.subrange(0, processed) =~= orig);
    }
    Result::Ok((empties, non_empty))
}

/// What a positional fetch returns: the first failure of the two coordinate
/// fetches, if any, else the merge-join of the longitude and latitude
/// streams, their parameter tags discarded.
pub open spec fn position_relation(
    lon: Result<ParameterAndData, FetchError>,
    lat: Result<ParameterAndData, FetchError>,
    out: Result<Vec<Position>, FetchError>,
) -> bool {
    match lon {
        Result::Err(e) => out is Err && out->Err_0 == e,
        Result::Ok(l) => match lat {
            Result::Err(e) => out is Err && out->Err_0 == e,
            Result::Ok(t) => out is Ok && out->Ok_0@ == merge_join(l.1@, t.1@),
        },
    }
}

/// Fan-in of the positional pair of fetches: fails as a whole if either
/// coordinate fetch failed, else discards the parameter tags and merge-joins
/// the longitude stream with the latitude stream.
pub fn collect_position_data(
    longitude: Result<ParameterAndData, FetchError>,
    latitude: Result<ParameterAndData, FetchError>,
) -> (out: Result<Vec<Position>, FetchError>)
    ensures
        position_relation(longitude, latitude, out),
{
    match longitude {
        Result::Err(e) => Result::Err(e),
        Result::Ok((_, lon_data)) => match latitude {
            Result::Err(e) => Result::Err(e),
            Result::Ok((_, lat_data)) => Result::Ok(pair_longitude_latitude(lon_data, lat_data)),
        },
    }
}

/// A fetch batch has no first error exactly when every fetch succeeded.
pub proof fn lemma_no_error_all_ok(rs: Seq<Result<ParameterAndData, FetchError>>)
    ensures
        first_fetch_error(rs) is None <==> forall|i: int| 0 <= i < rs.len() ==> rs[i] is Ok,
    decreases rs.len(),
{
    if rs.len() == 0 {
    } else {
        lemma_no_error_all_ok(rs.drop_first());
        if rs[0] is Ok {
            assert forall|i: int| 0 <= i < rs.drop_first().len() implies rs.drop_first()[i]
                == rs[i + 1] by {}
            if first_fetch_error(rs) is None {
                assert forall|i: int| 0 <= i < rs.len() implies rs[i] is Ok by {
                    if i > 0 {
                        assert(rs.drop_first()[i - 1] is Ok);
                    }
                }
            }
        }
    }
}

/// Fatal propagation: if any one fetch of a batch fails, the fan-in yields
/// an error — and by [`collect_relation`], no partial streams.
pub proof fn lemma_fatal_propagation(rs: Seq<Result<ParameterAndData, FetchError>>, i: int)
    requires
        0 <= i < rs.len(),
        rs[i] is Err,
    ensures
        first_fetch_error(rs) is Some,
{
    lemma_no_error_all_ok(rs);
}

/// The error a failed batch surfaces is the earliest one in issuance order.
pub proof fn lemma_first_error_is_earliest(rs: Seq<Result<ParameterAndData, FetchError>>, i: int)
    requires
        0 <= i < rs.len(),
        rs[i] is Err,
        forall|j: int| 0 <= j < i ==> rs[j] is Ok,
    ensures
        first_fetch_error(rs) == Some(rs[i]->Err_0),
    decreases i,
{
    if i == 0 {
    } else {
        assert forall|j: int| 0 <= j < i - 1 implies rs.drop_first()[j] is Ok by {
            assert(rs.drop_first()[j] == rs[j + 1]);
        }
        assert(rs.drop_first()[i - 1] == rs[i]);
        lemma_first_error_is_earliest(rs.drop_first(), i - 1);
    }
}

/// Some stream of `ss` is tagged `p` and recorded no sample.
pub open spec fn has_empty_source(ss: Seq<ParameterAndData>, p: Parameter) -> bool {
    exists|i: int| 0 <= i < ss.len() && (#[trigger] ss[i]).0 == p && ss[i].1@.len() == 0
}

/// The fan-in partition is exact: every stream of a successful batch lands
/// in exactly one side — a notice for each parameter that recorded nothing,
/// the stream itself otherwise — and nothing else appears.
pub proof fn lemma_partition_exact(ss: Seq<ParameterAndData>)
    ensures
        empty_parameters(ss).len() + non_empty_streams(ss).len() == ss.len(),
        forall|k: int|
            0 <= k < non_empty_streams(ss).len() ==> (#[trigger] non_empty_streams(
                ss,
            )[k]).1@.len() > 0 && ss.contains(non_empty_streams(ss)[k]),
        forall|k: int|
            0 <= k < empty_parameters(ss).len() ==> has_empty_source(
                ss,
                #[trigger] empty_parameters(ss)[k],
            ),
        forall|i: int|
            0 <= i < ss.len() ==> ((#[trigger] ss[i]).1@.len() > 0 ==> non_empty_streams(
                ss,
            ).contains(ss[i])) && (ss[i].1@.len() == 0 ==> empty_parameters(ss).contains(
                ss[i].0,
            )),
    decreases ss.len(),
{
    if ss.len() == 0 {
    } else {
        lemma_partition_exact(ss.drop_last());
        let dl = ss.drop_last();
        let last = ss.last();
        assert forall|k: int|
            0 <= k < non_empty_streams(ss).len() implies (#[trigger] non_empty_streams(
            ss,
        )[k]).1@.len() > 0 && ss.contains(non_empty_streams(ss)[k]) by {
            if last.1@.len() > 0 && k == non_empty_streams(ss).len() - 1 {
                assert(non_empty_streams(ss)[k] == last);
                assert(ss[ss.len() - 1] == last);
            } else {
                assert(non_empty_streams(ss)[k] == non_empty_streams(dl)[k]);
                assert((non_empty_streams(dl)[k]).1@.len() > 0 && dl.contains(
                    non_empty_streams(dl)[k],
                ));
                let i = choose|i: int| 0 <= i < dl.len() && dl[i] == non_empty_streams(dl)[k];
                assert(ss[i] == non_empty_streams(ss)[k]);
            }
        }
        assert forall|k: int|
            0 <= k < empty_parameters(ss).len() implies has_empty_source(
            ss,
            #[trigger] empty_parameters(ss)[k],
        ) by {
            if last.1@.len() == 0 && k == empty_parameters(ss).len() - 1 {
                assert((ss[ss.len() - 1]).0 == empty_parameters(ss)[k] && ss[ss.len()
                    - 1].1@.len() == 0);
            } else {
                assert(empty_parameters(ss)[k] == empty_parameters(dl)[k]);
                assert(has_empty_source(dl, empty_parameters(dl)[k]));
                let i = choose|i: int|
                    0 <= i < dl.len() && (#[trigger] dl[i]).0 == empty_parameters(dl)[k]
                        && dl[i].1@.len() == 0;
                assert((ss[i]).0 == empty_parameters(ss)[k] && ss[i].1@.len() == 0);
            }
        }
        assert forall|i: int|
            0 <= i < ss.len() implies ((#[trigger] ss[i]).1@.len() > 0 ==> non_empty_streams(
            ss,
        ).contains(ss[i])) && (ss[i].1@.len() == 0 ==> empty_parameters(ss).contains(
            ss[i].0,
        )) by {
            if i == ss.len() - 1 {
                if last.1@.len() > 0 {
                    assert(non_empty_streams(ss).last() == last);
                } else {
                    assert(empty_parameters(ss).last() == last.0);
                }
            } else {
                assert(dl[i] == ss[i]);
                if ss[i].1@.len() > 0 {
                    assert(non_empty_streams(dl).contains(dl[i]));
                    let k = choose|k: int|
                        0 <= k < non_empty_streams(dl).len() && non_empty_streams(dl)[k] == dl[i];
                    assert(non_empty_streams(ss)[k] == dl[i]);
                } else {
                    assert(empty_parameters(dl).contains(dl[i].0));
                    let k = choose|k: int|
                        0 <= k < empty_parameters(dl).len() && empty_parameters(dl)[k] == dl[i].0;
                    assert(empty_parameters(ss)[k] == dl[i].0);
                }
            }
        }
    }
}

/// Pairwise distinct parameter tags across a batch of streams.
pub open spec fn distinct_parameters(ss: Seq<ParameterAndData>) -> bool {
    forall|i: int, j: int| 0 <= i < j < ss.len() ==> ss[i].0 != ss[j].0
}

/// A batch of tagged streams read as a map from parameter to its samples.
pub open spec fn stream_map(ss: Seq<ParameterAndData>) -> Map<Parameter, Seq<ShipData>>
    decreases ss.len(),
{
    if ss.len() == 0 {
        Map::empty()
    } else {
        stream_map(ss.drop_last()).insert(ss.last().0, ss.last().1@)
    }
}

/// With distinct tags, the stream map holds exactly the tagged streams.
proof fn lemma_stream_map_characterize(ss: Seq<ParameterAndData>)
    requires
        distinct_parameters(ss),
    ensures
        forall|p: Parameter|
            stream_map(ss).dom().contains(p) <==> exists|i: int| 0 <= i < ss.len() && ss[i].0 == p,
        forall|i: int|
            0 <= i < ss.len() ==> stream_map(ss).contains_pair(#[trigger] ss[i].0, ss[i].1@),
    decreases ss.len(),
{
    if ss.len() == 0 {
    } else {
        let dl = ss.drop_last();
        assert(distinct_parameters(dl)) by {
            assert(forall|i: int, j: int| 0 <= i < j < dl.len() ==> dl[i] == ss[i] && dl[j] == ss[j]);
        }
        lemma_stream_map_characterize(dl);
        assert forall|p: Parameter| stream_map(ss).dom().contains(p) implies exists|i: int|
            0 <= i < ss.len() && ss[i].0 == p by {
            if p != ss.last().0 {
                assert(stream_map(dl).dom().contains(p));
                let i = choose|i: int| 0 <= i < dl.len() && dl[i].0 == p;
                assert(ss[i].0 == p);
            } else {
                assert(ss[ss.len() - 1].0 == p);
            }
        }
        assert forall|p: Parameter|
            (exists|i: int| 0 <= i < ss.len() && ss[i].0 == p) implies stream_map(
            ss,
        ).dom().contains(p) by {
            let i = choose|i: int| 0 <= i < ss.len() && ss[i].0 == p;
            if i < ss.len() - 1 {
                assert(dl[i].0 == p);
                assert(stream_map(dl).dom().contains(p));
            }
        }
        assert forall|i: int|
            0 <= i < ss.len() implies stream_map(ss).contains_pair(
            #[trigger] ss[i].0,
            ss[i].1@,
        ) by {
            if i < ss.len() - 1 {
                assert(dl[i] == ss[i]);
                assert(stream_map(dl).contains_pair(dl[i].0, dl[i].1@));
                assert(ss[i].0 != ss.last().0);
            }
        }
    }
}

/// Order independence of fan-in: two batches holding the same tagged
/// results — whatever order the fetches completed in — induce the same
/// parameter-to-stream map, provided each batch tags its streams with
/// pairwise distinct parameters, as the day-fetch does.
pub proof fn lemma_fan_in_order_independent(ss1: Seq<ParameterAndData>, ss2: Seq<ParameterAndData>)
    requires
        ss1.to_multiset() == ss2.to_multiset(),
        distinct_parameters(ss1),
        distinct_parameters(ss2),
    ensures
        stream_map(ss1) == stream_map(ss2),
{
    broadcast use group_to_multiset_ensures;

    lemma_stream_map_characterize(ss1);
    lemma_stream_map_characterize(ss2);
    assert forall|p: Parameter| stream_map(ss1).dom().contains(p) implies stream_map(
        ss2,
    ).dom().contains(p) && stream_map(ss2)[p] == stream_map(ss1)[p] by {
        let i = choose|i: int| 0 <= i < ss1.len() && ss1[i].0 == p;
        assert(ss1.contains(ss1[i]));
        assert(ss1.to_multiset().count(ss1[i]) > 0);
        assert(ss2.contains(ss1[i]));
        let j = choose|j: int| 0 <= j < ss2.len() && ss2[j] == ss1[i];
        assert(stream_map(ss2).contains_pair(ss2[j].0, ss2[j].1@));
        assert(stream_map(ss1).contains_pair(ss1[i].0, ss1[i].1@));
    }
    assert forall|p: Parameter| stream_map(ss2).dom().contains(p) implies stream_map(
        ss1,
    ).dom().contains(p) by {
        let j = choose|j: int| 0 <= j < ss2.len() && ss2[j].0 == p;
        assert(ss2.contains(ss2[j]));
        assert(ss2.to_multiset().count(ss2[j]) > 0);
        assert(ss1.contains(ss2[j]));
        let i = choose|i: int| 0 <= i < ss1.len() && ss1[i] == ss2[j];
    }
    assert(stream_map(ss1) =~= stream_map(ss2));
}

/// Idempotence of the fan-in: two runs over the same batch of results agree
/// on everything — the same error, or the same notices and the same
/// streams.
pub proof fn lemma_collect_deterministic(
    rs: Seq<Result<ParameterAndData, FetchError>>,
    out1: Result<(Vec<Parameter>, Vec<ParameterAndData>), FetchError>,
    out2: Result<(Vec<Parameter>, Vec<ParameterAndData>), FetchError>,
)
    requires
        collect_relation(rs, out1),
        collect_relation(rs, out2),
    ensures
        out1 is Ok <==> out2 is Ok,
        out1 is Ok ==> out1->Ok_0.0@ == out2->Ok_0.0@ && out1->Ok_0.1@ == out2->Ok_0.1@,
        out1 is Err ==> out1->Err_0 == out2->Err_0,
{
}

/// Idempotence of the positional fan-in: two runs over the same pair of
/// coordinate fetch results agree on the error or on every merged position.
pub proof fn lemma_position_deterministic(
    lon: Result<ParameterAndData, FetchError>,
    lat: Result<ParameterAndData, FetchError>,
    out1: Result<Vec<Position>, FetchError>,
    out2: Result<Vec<Position>, FetchError>,
)
    requires
        position_relation(lon, lat, out1),
        position_relation(lon, lat, out2),
    ensures
        out1 is Ok <==> out2 is Ok,
        out1 is Ok ==> out1->Ok_0@ == out2->Ok_0@,
        out1 is Err ==> out1->Err_0 == out2->Err_0,
{
}

} // verus!
