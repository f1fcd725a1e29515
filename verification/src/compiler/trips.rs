//! Building the trips table.

use vstd::prelude::*;
use vstd::utf8::encode_utf8;

use crate::compiler::feed::{add_text, lemma_sum_of_take, opt_len, sum_of, text_run, utf8, RawTrip};
use crate::compiler::ids::{build_ids, ids_assigned, ids_buildable};
use crate::compiler::stops::lemma_text_run_kept;
use crate::models::idx::{RouteIdx, ServiceIdx, TripIdx};
use crate::models::opt::Opt;
use crate::models::sentinel::Sentinel;
use crate::models::slice::{ShapeSlice, StopTimeSlice, StringSlice, TripIdSlice};
use crate::models::slice_builder::SliceBuilder;
use crate::models::trip::Trip;
use crate::text_map::TextMap;

verus! {

/// The bytes of text that a trip adds to the strings buffer, at most.
pub open spec fn trip_text_len(t: RawTrip) -> nat {
    opt_len(t.trip_headsign) + opt_len(t.trip_short_name)
}

/// The rows of `raw` whose route is known; the others are left out.
pub open spec fn kept_trips(raw: Seq<RawTrip>, routes: &TextMap<RouteIdx>) -> Seq<RawTrip> {
    raw.filter(|t: RawTrip| routes.spec_get(utf8(t.route_id)) is Some)
}

/// The identifiers of `trips`, as bytes.
pub open spec fn trip_ids_of(trips: Seq<RawTrip>) -> Seq<Seq<u8>> {
    trips.map_values(|t: RawTrip| utf8(t.id))
}

/// The position of every trip, as an index.
pub open spec fn trip_positions(n: nat) -> Seq<TripIdx> {
    Seq::new(n, |j: int| TripIdx(j as u32))
}

/// The texts of `t` have runs in `b`.
pub open spec fn trip_texts_added(b: &SliceBuilder<StringSlice>, t: RawTrip) -> bool {
    &&& t.trip_headsign is Some ==> b.spec_lookup(utf8(t.trip_headsign->0)) is Some
    &&& t.trip_short_name is Some ==> b.spec_lookup(utf8(t.trip_short_name->0)) is Some
}

/// The shape of `t`, found by its identifier.
pub open spec fn shape_of(t: RawTrip, shapes: &TextMap<ShapeSlice>) -> Opt<ShapeSlice> {
    match t.shape_id {
        Some(s) => match shapes.spec_get(utf8(s)) {
            Some(x) => Opt(x),
            None => Opt(ShapeSlice::spec_none()),
        },
        None => Opt(ShapeSlice::spec_none()),
    }
}

/// The service of `t`, found by its identifier; the reserved index where it
/// is unknown.
pub open spec fn service_of(t: RawTrip, services: &TextMap<ServiceIdx>) -> ServiceIdx {
    match services.spec_get(utf8(t.service_id)) {
        Some(x) => x,
        None => ServiceIdx::spec_none(),
    }
}

/// The trip built from the kept row `t`, the `i`-th kept one.
pub open spec fn trip_of(
    t: RawTrip,
    i: int,
    routes: &TextMap<RouteIdx>,
    services: &TextMap<ServiceIdx>,
    shapes: &TextMap<ShapeSlice>,
    b: &SliceBuilder<StringSlice>,
) -> Trip {
    Trip {
        id: TripIdSlice::spec_none(),
        headsign: text_run(b, t.trip_headsign),
        short_name: text_run(b, t.trip_short_name),
        shape: shape_of(t, shapes),
        stop_times: StopTimeSlice::spec_none(),
        idx: TripIdx(i as u32),
        route_idx: routes.spec_get(utf8(t.route_id))->0,
        service_idx: service_of(t, services),
    }
}

/// Builds the trips table, and the map from trip identifiers to trips. Rows
/// whose route is unknown are left out; the others become trips in order,
/// linked to their route, service and shape by identifier.
pub fn build_trips(
    raw_trips: &[RawTrip],
    route_map: &TextMap<RouteIdx>,
    service_map: &TextMap<ServiceIdx>,
    shape_map: &TextMap<ShapeSlice>,
    slice_builder: &mut SliceBuilder<StringSlice>,
) -> (r: (Vec<Trip>, TextMap<TripIdx>))
    requires
        route_map.wf(),
        service_map.wf(),
        shape_map.wf(),
        old(slice_builder).wf(),
        old(slice_builder).text().len() + sum_of(raw_trips@, |t: RawTrip| trip_text_len(t))
            <= usize::MAX,
        raw_trips@.len() < u32::MAX,
    ensures
        final(slice_builder).wf(),
        final(slice_builder).extends(&*old(slice_builder)),
        final(slice_builder).text().len() <= old(slice_builder).text().len() + sum_of(raw_trips@, |t: RawTrip| trip_text_len(t)),
        r.1.wf(),
        r.1.indexes(
            trip_ids_of(kept_trips(raw_trips@, route_map)),
            trip_positions(kept_trips(raw_trips@, route_map).len()),
        ),
        r.0@.len() == kept_trips(raw_trips@, route_map).len(),
        forall|i: int|
            0 <= i < r.0@.len() ==> trip_texts_added(
                &*final(slice_builder),
                #[trigger] kept_trips(raw_trips@, route_map)[i],
            ),
        forall|i: int|
            0 <= i < r.0@.len() ==> #[trigger] r.0@[i] == trip_of(
                kept_trips(raw_trips@, route_map)[i],
                i,
                route_map,
                service_map,
                shape_map,
                &*final(slice_builder),
            ),
{
    let ghost f = |t: RawTrip| trip_text_len(t);
    let ghost pred = |t: RawTrip| route_map.spec_get(utf8(t.route_id)) is Some;
    let mut id_map: TextMap<TripIdx> = TextMap::new();
    let mut trips: Vec<Trip> = Vec::new();
    proof {
        id_map.lemma_indexes_empty();
        slice_builder.lemma_extends_refl();
        reveal(Seq::filter);
        assert(raw_trips@.take(0) =~= Seq::<RawTrip>::empty());
        assert(trip_ids_of(raw_trips@.take(0).filter(pred)) =~= Seq::<Seq<u8>>::empty());
        assert(trip_positions(0) =~= Seq::<TripIdx>::empty());
    }
    let mut i: usize = 0;
    while i < raw_trips.len()
        invariant
            i <= raw_trips@.len() < u32::MAX,
            f == (|t: RawTrip| trip_text_len(t)),
            pred == (|t: RawTrip| route_map.spec_get(utf8(t.route_id)) is Some),
            route_map.wf(),
            service_map.wf(),
            shape_map.wf(),
            slice_builder.wf(),
            slice_builder.extends(&*old(slice_builder)),
            slice_builder.text().len() <= old(slice_builder).text().len() + sum_of(
                raw_trips@.take(i as int),
                f,
            ),
            old(slice_builder).wf(),
            old(slice_builder).text().len() + sum_of(raw_trips@, f) <= usize::MAX,
            id_map.wf(),
            id_map.indexes(
                trip_ids_of(raw_trips@.take(i as int).filter(pred)),
                trip_positions(raw_trips@.take(i as int).filter(pred).len()),
            ),
            trips@.len() == raw_trips@.take(i as int).filter(pred).len(),
            trips@.len() <= i,
            forall|j: int|
                0 <= j < trips@.len() ==> trip_texts_added(
                    &*slice_builder,
                    #[trigger] raw_trips@.take(i as int).filter(pred)[j],
                ),
            forall|j: int|
                0 <= j < trips@.len() ==> #[trigger] trips@[j] == trip_of(
                    raw_trips@.take(i as int).filter(pred)[j],
                    j,
                    route_map,
                    service_map,
                    shape_map,
                    &*slice_builder,
                ),
        decreases raw_trips@.len() - i,
    {
        let trip = &raw_trips[i];
        let ghost kept = raw_trips@.take(i as int).filter(pred);
        proof {
            lemma_sum_of_take(raw_trips@, f, i as int);
            assert(f(raw_trips@[i as int]) == trip_text_len(*trip));
            reveal(Seq::filter);
            assert(raw_trips@.take(i + 1).drop_last() =~= raw_trips@.take(i as int));
            assert(raw_trips@.take(i + 1).last() == *trip);
        }
        match route_map.get(trip.route_id.as_str().as_bytes()) {
            Some(route_idx) => {
                let route_idx = *route_idx;
                let idx = TripIdx::from_usize(trips.len());
                let ghost map0 = id_map;
                id_map.insert(trip.id.as_str(), idx);
                proof {
                    assert(raw_trips@.take(i + 1).filter(pred) == kept.push(*trip));
                    id_map.lemma_indexes_insert(
                        &map0,
                        trip_ids_of(kept),
                        trip_positions(kept.len()),
                        utf8(trip.id),
                        idx,
                    );
                    assert(trip_ids_of(kept).push(utf8(trip.id)) =~= trip_ids_of(kept.push(*trip)));
                    assert(trip_positions(kept.len()).push(idx) =~= trip_positions(kept.len() + 1));
                }
                let service_idx = match service_map.get(trip.service_id.as_str().as_bytes()) {
                    Some(s) => *s,
                    None => ServiceIdx::none(),
                };
                let shape = match &trip.shape_id {
                    Some(shape_id) => match shape_map.get(shape_id.as_str().as_bytes()) {
                        Some(s) => Opt::new(*s),
                        None => Opt::new(ShapeSlice::none()),
                    },
                    None => Opt::new(ShapeSlice::none()),
                };
                let ghost b0 = *slice_builder;
                let headsign = add_text(slice_builder, &trip.trip_headsign);
                let ghost b1 = *slice_builder;
                let short_name = add_text(slice_builder, &trip.trip_short_name);
                trips.push(Trip {
                    id: TripIdSlice::none(),
                    headsign,
                    short_name,
                    shape,
                    stop_times: StopTimeSlice::none(),
                    idx,
                    route_idx,
                    service_idx,
                });
                proof {
                    let kept1 = raw_trips@.take(i + 1).filter(pred);
                    slice_builder.lemma_extends_trans(&b1, &b0);
                    slice_builder.lemma_extends_trans(&b0, &*old(slice_builder));
                    lemma_text_run_kept(&*slice_builder, &b1, trip.trip_headsign);
                    assert forall|j: int| 0 <= j < trips@.len() implies trip_texts_added(
                        &*slice_builder,
                        #[trigger] kept1[j],
                    ) && trips@[j] == trip_of(kept1[j], j, route_map, service_map, shape_map, &*slice_builder) by {
                        if j < kept.len() {
                            assert(kept1[j] == kept[j]);
                            lemma_text_run_kept(&*slice_builder, &b0, kept[j].trip_headsign);
                            lemma_text_run_kept(&*slice_builder, &b0, kept[j].trip_short_name);
                        } else {
                            assert(kept1[j] == *trip);
                        }
                    }
                }
            },
            None => {
                proof {
                    assert(raw_trips@.take(i + 1).filter(pred) == kept);
                }
            },
        }
        i = i + 1;
    }
    proof {
        assert(raw_trips@.take(i as int) =~= raw_trips@);
    }
    (trips, id_map)
}

/// Packs the trip identifiers into one text, gives each trip the run of its
/// identifier, and orders the trips by identifier.
pub fn build_trip_ids(trips: &mut Vec<Trip>, trip_map: &TextMap<TripIdx>) -> (r: (Vec<TripIdx>, String))
    requires
        ids_buildable(trip_map, old(trips)@),
    ensures
        ids_assigned(trip_map, old(trips)@, final(trips)@, r.0@, encode_utf8(r.1@)),
{
    build_ids(trips, trip_map)
}

} // verus!
