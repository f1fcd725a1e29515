//! Building the routes table and the tables that hang off routes.

use vstd::multiset::Multiset;
use vstd::prelude::*;
use vstd::utf8::encode_utf8;

use crate::compiler::feed::{add_text, lemma_sum_of_take, opt_len, sum_of, text_run, utf8, RawRoute};
use crate::compiler::ids::{build_ids, ids_assigned, ids_buildable};
use crate::compiler::runs::{group_pairs, grouped_multiset};
use crate::compiler::stops::lemma_text_run_kept;
use crate::models::idx::{RouteIdx, TripIdx};
use crate::models::route::Route;
use crate::models::route_type::{route_type_bits, RouteType};
use crate::models::sentinel::Sentinel;
use crate::models::slice::{RouteIdSlice, StringSlice, TripSlice};
use crate::models::slice_builder::SliceBuilder;
use crate::models::trip::Trip;
use crate::text_map::TextMap;

verus! {

/// The bytes of text that a route adds to the strings buffer, at most.
pub open spec fn route_text_len(r: RawRoute) -> nat {
    opt_len(r.long_name) + opt_len(r.short_name) + opt_len(r.desc)
}

/// The identifiers of `raw`, as bytes.
pub open spec fn route_ids_of(raw: Seq<RawRoute>) -> Seq<Seq<u8>> {
    raw.map_values(|r: RawRoute| utf8(r.id))
}

/// The position of every route, as an index.
pub open spec fn route_positions(n: nat) -> Seq<RouteIdx> {
    Seq::new(n, |j: int| RouteIdx(j as u32))
}

/// The texts of `r` have runs in `b`.
pub open spec fn route_texts_added(b: &SliceBuilder<StringSlice>, r: RawRoute) -> bool {
    &&& r.long_name is Some ==> b.spec_lookup(utf8(r.long_name->0)) is Some
    &&& r.short_name is Some ==> b.spec_lookup(utf8(r.short_name->0)) is Some
    &&& r.desc is Some ==> b.spec_lookup(utf8(r.desc->0)) is Some
}

/// The route built from row `i`, `r`.
pub open spec fn route_of(r: RawRoute, i: int, b: &SliceBuilder<StringSlice>) -> Route {
    Route {
        id: RouteIdSlice::spec_none(),
        long_name: text_run(b, r.long_name),
        short_name: text_run(b, r.short_name),
        description: text_run(b, r.desc),
        idx: RouteIdx(i as u32),
        route_type: RouteType(route_type_bits(r.route_type)),
    }
}

/// Builds the routes table, and the map from route identifiers to routes.
/// Row `i` becomes route `i`; its texts go into the strings buffer.
pub fn build_routes(raw_routes: &[RawRoute], slice_builder: &mut SliceBuilder<StringSlice>) -> (r: (
    Vec<Route>,
    TextMap<RouteIdx>,
))
    requires
        old(slice_builder).wf(),
        old(slice_builder).text().len() + sum_of(raw_routes@, |r: RawRoute| route_text_len(r))
            <= usize::MAX,
        raw_routes@.len() < u32::MAX,
    ensures
        final(slice_builder).wf(),
        final(slice_builder).extends(&*old(slice_builder)),
        final(slice_builder).text().len() <= old(slice_builder).text().len() + sum_of(raw_routes@, |r: RawRoute| route_text_len(r)),
        r.1.wf(),
        r.1.indexes(route_ids_of(raw_routes@), route_positions(raw_routes@.len())),
        r.0@.len() == raw_routes@.len(),
        forall|i: int|
            0 <= i < raw_routes@.len() ==> route_texts_added(&*final(slice_builder), #[trigger] raw_routes@[i]),
        forall|i: int|
            0 <= i < raw_routes@.len() ==> #[trigger] r.0@[i] == route_of(
                raw_routes@[i],
                i,
                &*final(slice_builder),
            ),
{
    let ghost f = |r: RawRoute| route_text_len(r);
    let ghost ids = route_ids_of(raw_routes@);
    let ghost pos = route_positions(raw_routes@.len());
    let mut id_map: TextMap<RouteIdx> = TextMap::new();
    let mut routes: Vec<Route> = Vec::new();
    proof {
        id_map.lemma_indexes_empty();
        slice_builder.lemma_extends_refl();
        assert(ids.take(0) =~= Seq::<Seq<u8>>::empty());
        assert(pos.take(0) =~= Seq::<RouteIdx>::empty());
        assert(raw_routes@.take(0) =~= Seq::<RawRoute>::empty());
    }
    let mut i: usize = 0;
    while i < raw_routes.len()
        invariant
            i <= raw_routes@.len() < u32::MAX,
            ids == route_ids_of(raw_routes@),
            pos == route_positions(raw_routes@.len()),
            f == (|r: RawRoute| route_text_len(r)),
            slice_builder.wf(),
            slice_builder.extends(&*old(slice_builder)),
            slice_builder.text().len() <= old(slice_builder).text().len() + sum_of(
                raw_routes@.take(i as int),
                f,
            ),
            old(slice_builder).wf(),
            old(slice_builder).text().len() + sum_of(raw_routes@, f) <= usize::MAX,
            id_map.wf(),
            id_map.indexes(ids.take(i as int), pos.take(i as int)),
            routes@.len() == i,
            forall|j: int| 0 <= j < i ==> route_texts_added(&*slice_builder, #[trigger] raw_routes@[j]),
            forall|j: int|
                0 <= j < i ==> #[trigger] routes@[j] == route_of(raw_routes@[j], j, &*slice_builder),
        decreases raw_routes@.len() - i,
    {
        let route = &raw_routes[i];
        proof {
            lemma_sum_of_take(raw_routes@, f, i as int);
            assert(f(raw_routes@[i as int]) == route_text_len(*route));
        }
        let idx = RouteIdx::from_usize(i);
        let ghost map0 = id_map;
        id_map.insert(route.id.as_str(), idx);
        proof {
            id_map.lemma_indexes_insert(&map0, ids.take(i as int), pos.take(i as int), utf8(route.id), idx);
            assert(ids.take(i as int).push(utf8(route.id)) =~= ids.take(i + 1));
            assert(pos.take(i as int).push(idx) =~= pos.take(i + 1));
        }
        let ghost b0 = *slice_builder;
        let long_name = add_text(slice_builder, &route.long_name);
        let ghost b1 = *slice_builder;
        let short_name = add_text(slice_builder, &route.short_name);
        let ghost b2 = *slice_builder;
        let description = add_text(slice_builder, &route.desc);
        let route_type = RouteType::from_gtfs(route.route_type);
        routes.push(Route { id: RouteIdSlice::none(), long_name, short_name, description, idx, route_type });
        proof {
            b2.lemma_extends_trans(&b1, &b0);
            slice_builder.lemma_extends_trans(&b2, &b1);
            slice_builder.lemma_extends_trans(&b2, &b0);
            slice_builder.lemma_extends_trans(&b0, &*old(slice_builder));
            lemma_text_run_kept(&*slice_builder, &b1, route.long_name);
            lemma_text_run_kept(&*slice_builder, &b2, route.short_name);
            assert forall|j: int| 0 <= j < i implies route_texts_added(&*slice_builder, #[trigger] raw_routes@[j])
                && routes@[j] == route_of(raw_routes@[j], j, &*slice_builder) by {
                let rj = raw_routes@[j];
                lemma_text_run_kept(&*slice_builder, &b0, rj.long_name);
                lemma_text_run_kept(&*slice_builder, &b0, rj.short_name);
                lemma_text_run_kept(&*slice_builder, &b0, rj.desc);
            }
        }
        i = i + 1;
    }
    proof {
        assert(ids.take(i as int) =~= ids);
        assert(pos.take(i as int) =~= pos);
        assert(raw_routes@.take(i as int) =~= raw_routes@);
    }
    (routes, id_map)
}

/// Packs the route identifiers into one text, gives each route the run of its
/// identifier, and orders the routes by identifier.
pub fn build_route_ids(routes: &mut Vec<Route>, route_map: &TextMap<RouteIdx>) -> (r: (Vec<RouteIdx>, String))
    requires
        ids_buildable(route_map, old(routes)@),
    ensures
        ids_assigned(route_map, old(routes)@, final(routes)@, r.0@, encode_utf8(r.1@)),
{
    build_ids(routes, route_map)
}

/// The (route, trip) pairs of the trips.
pub open spec fn route_trip_pairs(trips: Seq<Trip>) -> Multiset<(u32, u32)> {
    trips.map_values(|t: Trip| (t.route_idx.0, t.idx.0)).to_multiset()
}

/// Builds, for each route, its trips in increasing order, grouped by route;
/// the lookup holds each route's run, the reserved run for a route without
/// trips.
pub fn build_route_to_trips(trips: &[Trip], routes: &[Route]) -> (r: (Vec<TripIdx>, Vec<TripSlice>))
    requires
        trips@.len() <= u32::MAX,
        forall|k: int| 0 <= k < trips@.len() ==> (#[trigger] trips@[k]).route_idx.0 < routes@.len(),
    ensures
        grouped_multiset(route_trip_pairs(trips@), r.0@, r.1@, routes@.len()),
{
    let mut pairs: Vec<(u32, u32)> = Vec::new();
    let mut i: usize = 0;
    while i < trips.len()
        invariant
            i <= trips@.len(),
            pairs@ == trips@.take(i as int).map_values(|t: Trip| (t.route_idx.0, t.idx.0)),
        decreases trips@.len() - i,
    {
        pairs.push((trips[i].route_idx.0, trips[i].idx.0));
        assert(trips@.take(i + 1).map_values(|t: Trip| (t.route_idx.0, t.idx.0)) =~= trips@.take(
            i as int,
        ).map_values(|t: Trip| (t.route_idx.0, t.idx.0)).push(
            (trips@[i as int].route_idx.0, trips@[i as int].idx.0),
        ));
        i = i + 1;
    }
    assert(trips@.take(i as int) =~= trips@);
    group_pairs::<TripIdx, TripSlice>(pairs, routes.len())
}

} // verus!
