//! Grouping trips into trip patterns: trips that call at the same stops in
//! the same order.

use vstd::multiset::Multiset;
use vstd::prelude::*;

use crate::codec::{lemma_words_at_appended, lemma_words_to_bytes_len, push_words, words_to_bytes};
use crate::compiler::feed::{lemma_sum_of_reordered, lemma_sum_of_take, sum_of};
use crate::compiler::runs::{
    group_pairs, grouped_multiset, lemma_grouped_items_below, lemma_occurrences_all, lemma_occurrences_append,
    lemma_occurrences_zero, occurrences, run_of,
};
use crate::compiler::stop_times::{is_permutation, lemma_permutation_onto};
use crate::consumer::lookup::all_below;
use crate::models::idx::Idx;
use crate::models::idx::{StopIdx, TripIdx, TripPatternIdx};
use crate::models::sentinel::Sentinel;
use crate::models::slice::{Slice, StopSlice, TripPatternSlice, TripSlice};
use crate::models::stop::Stop;
use crate::models::stoptime::StopTime;
use crate::models::trip::Trip;
use crate::models::trip_pattern::TripPattern;
use crate::order::{lemma_lex_asymmetric, lemma_lex_irreflexive, lemma_lex_transitive, lex_lt};
use crate::sorting::{lemma_reordered_positions, par_sort, Ordered, RankedText};
use crate::text_map::bytes_equal;

verus! {

/// The stops a trip calls at, in order.
pub open spec fn trip_stop_seq(trip: Trip, stop_times: Seq<StopTime>) -> Seq<u32> {
    stop_times.subrange(
        trip.stop_times.start as int,
        trip.stop_times.start + trip.stop_times.count,
    ).map_values(|st: StopTime| st.stop_idx.0)
}

/// The stops of a pattern, in order.
pub open spec fn pattern_seq(p: TripPattern, stop_sequences: Seq<StopIdx>) -> Seq<u32> {
    stop_sequences.subrange(p.stops.start as int, p.stops.start + p.stops.count).map_values(
        |s: StopIdx| s.0,
    )
}

/// The pattern of each listed trip.
pub open spec fn pattern_keys(trips_in_sequences: Seq<TripIdx>, trip_to_trip_pattern: Seq<TripPatternIdx>) -> Seq<u32> {
    trips_in_sequences.map_values(|t: TripIdx| trip_to_trip_pattern[t.0 as int].0)
}

/// For each entry of the stop sequences, the pattern it belongs to.
pub open spec fn stop_labels(patterns: Seq<TripPattern>) -> Seq<u32>
    decreases patterns.len(),
{
    if patterns.len() == 0 {
        Seq::empty()
    } else {
        stop_labels(patterns.drop_last()) + Seq::new(
            patterns.last().stops.count as nat,
            |k: int| (patterns.len() - 1) as u32,
        )
    }
}

/// Each pattern's stops sit where the labels put that pattern: the labels
/// cover the stop sequences, and every entry of a pattern's run is labelled
/// with that pattern, so each run starts after the runs of all earlier
/// patterns.
pub open spec fn stops_laid_out(patterns: Seq<TripPattern>, stop_sequences: Seq<StopIdx>) -> bool {
    &&& stop_labels(patterns).len() == stop_sequences.len()
    &&& forall|g: int|
        0 <= g < patterns.len() ==> (#[trigger] patterns[g]).stops.start + patterns[g].stops.count
            <= stop_sequences.len()
    &&& forall|g: int, k: int|
        #![trigger patterns[g], stop_labels(patterns)[k]]
        0 <= g < patterns.len() && patterns[g].stops.start <= k < patterns[g].stops.start + patterns[g].stops.count
            ==> stop_labels(patterns)[k] == g
}

/// The (stop, pattern) pair of every entry of the stop sequences.
pub open spec fn pattern_stop_pairs(patterns: Seq<TripPattern>, stop_sequences: Seq<StopIdx>) -> Multiset<(u32, u32)> {
    Seq::new(stop_sequences.len(), |k: int| (stop_sequences[k].0, stop_labels(patterns)[k])).to_multiset()
}

/// The trip patterns of a network.
pub struct BuildTripPatternsResult(
    pub Vec<TripPattern>,
    pub Vec<StopIdx>,
    pub Vec<TripIdx>,
    pub Vec<TripPatternIdx>,
    pub Vec<TripPatternIdx>,
    pub Vec<TripPatternSlice>,
);

/// The stops of `trip`, in order.
fn stops_of_trip(trip: &Trip, stop_times: &[StopTime]) -> (r: Vec<u32>)
    requires
        trip.stop_times.start + trip.stop_times.count <= stop_times@.len(),
    ensures
        r@ == trip_stop_seq(*trip, stop_times@),
{
    let len = stop_times.len();
    let start = trip.stop_times.start as usize;
    let end = start + trip.stop_times.count as usize;
    let mut r: Vec<u32> = Vec::new();
    let mut k = start;
    while k < end
        invariant
            start <= k <= end <= stop_times@.len(),
            r@ == stop_times@.subrange(start as int, k as int).map_values(|st: StopTime| st.stop_idx.0),
        decreases end - k,
    {
        r.push(stop_times[k].stop_idx.0);
        assert(stop_times@.subrange(start as int, k + 1).map_values(|st: StopTime| st.stop_idx.0)
            =~= stop_times@.subrange(start as int, k as int).map_values(|st: StopTime| st.stop_idx.0).push(
            stop_times@[k as int].stop_idx.0,
        ));
        k = k + 1;
    }
    r
}

/// Equal word encodings come from equal words.
proof fn lemma_words_to_bytes_injective(a: Seq<u32>, b: Seq<u32>)
    requires
        words_to_bytes(a) == words_to_bytes(b),
    ensures
        a == b,
{
    lemma_words_to_bytes_len(a);
    lemma_words_to_bytes_len(b);
    lemma_words_at_appended(Seq::<u8>::empty(), a);
    lemma_words_at_appended(Seq::<u8>::empty(), b);
    assert(Seq::<u8>::empty() + words_to_bytes(a) =~= words_to_bytes(a));
    assert(Seq::<u8>::empty() + words_to_bytes(b) =~= words_to_bytes(b));
}

/// Sums that agree item by item are equal.
proof fn lemma_sum_of_pointwise<A, B>(a: Seq<A>, b: Seq<B>, f: spec_fn(A) -> nat, g: spec_fn(B) -> nat)
    requires
        a.len() == b.len(),
        forall|k: int| 0 <= k < a.len() ==> f(#[trigger] a[k]) == g(b[k]),
    ensures
        sum_of(a, f) == sum_of(b, g),
    decreases a.len(),
{
    if a.len() > 0 {
        lemma_sum_of_pointwise(a.drop_last(), b.drop_last(), f, g);
        assert(f(a[a.len() - 1]) == g(b[b.len() - 1]));
    }
}

/// The sorted keys of the trips: each is the key of the trip at its position,
/// positions do not repeat, and the keys are in order.
pub open spec fn keys_ok(
    keys: Seq<RankedText>,
    before: Seq<RankedText>,
    trips: Seq<Trip>,
    stop_times: Seq<StopTime>,
    n_stops: nat,
    key_count: spec_fn(RankedText) -> nat,
) -> bool {
    &&& keys.len() == before.len() == trips.len() < u32::MAX
    &&& forall|t2: int| 0 <= t2 < trips.len() ==> (#[trigger] trips[t2]).idx.0 == t2
    &&& forall|t2: int|
        0 <= t2 < trips.len() ==> (#[trigger] trips[t2]).stop_times.start + trips[t2].stop_times.count
            <= stop_times.len()
    &&& forall|k: int| 0 <= k < stop_times.len() ==> (#[trigger] stop_times[k]).stop_idx.0 < n_stops
    &&& forall|q: int|
        0 <= q < before.len() ==> (#[trigger] before[q]).position == q && before[q].text@ == words_to_bytes(
            trip_stop_seq(trips[q], stop_times),
        )
    &&& forall|q: int|
        0 <= q < keys.len() ==> 0 <= (#[trigger] keys[q]).position < before.len() && keys[q]
            == before[keys[q].position as int]
    &&& forall|a: int, b: int| 0 <= a < b < keys.len() ==> keys[a].position != keys[b].position
    &&& forall|a: int, b: int| 0 <= a < b < keys.len() ==> keys[a].le(keys[b])
    &&& key_count == (|k: RankedText| if k.position < trips.len() {
        trips[k.position as int].stop_times.count as nat
    } else {
        0nat
    })
    &&& sum_of(keys, key_count) <= u32::MAX
}

/// The patterns built from the first `m` sorted keys.
#[verifier::opaque]
pub open spec fn walk_ok(
    keys: Seq<RankedText>,
    trips: Seq<Trip>,
    stop_times: Seq<StopTime>,
    n_stops: nat,
    key_count: spec_fn(RankedText) -> nat,
    m: int,
    gk: Seq<u32>,
    patterns: Seq<TripPattern>,
    stop_sequences: Seq<StopIdx>,
    trips_in_sequences: Seq<TripIdx>,
    trip_to_trip_pattern: Seq<TripPatternIdx>,
    pairs: Seq<(u32, u32)>,
) -> bool {
    &&& stop_sequences.len() <= sum_of(keys.take(m), key_count)
    &&& patterns.len() <= m
    &&& gk.len() == m
    &&& trips_in_sequences.len() == m
    &&& forall|q: int| 0 <= q < m ==> #[trigger] trips_in_sequences[q] == TripIdx(keys[q].position)
    &&& forall|q: int| 0 <= q < m ==> #[trigger] gk[q] < patterns.len()
    &&& forall|a: int, b: int| 0 <= a < b < m ==> gk[a] <= gk[b]
    &&& forall|q: int| 0 <= q < m ==> (#[trigger] keys[q]).text@ == keys[patterns[gk[q] as int].trips.start as int].text@
    &&& forall|g: int|
        0 <= g < patterns.len() ==> {
            &&& (#[trigger] patterns[g]).idx == TripPatternIdx(g as u32)
            &&& patterns[g].trips.count > 0
            &&& patterns[g].trips.start + patterns[g].trips.count <= m
            &&& forall|q: int| 0 <= q < m ==> (gk[q] == g <==> patterns[g].trips.start <= q < patterns[g].trips.start
                + patterns[g].trips.count)
            &&& patterns[g].stops.start + patterns[g].stops.count <= stop_sequences.len()
            &&& pattern_seq(patterns[g], stop_sequences) == trip_stop_seq(
                trips[keys[patterns[g].trips.start as int].position as int],
                stop_times,
            )
        }
    &&& forall|g1: int, g2: int|
        0 <= g1 < g2 < patterns.len() ==> lex_lt(
            keys[patterns[g1].trips.start as int].text@,
            keys[patterns[g2].trips.start as int].text@,
        )
    &&& patterns.len() > 0 ==> patterns.last().trips.start + patterns.last().trips.count == m
    &&& patterns.len() > 0 && m < keys.len() ==> keys[m].text@ != keys[patterns.last().trips.start as int].text@
    &&& patterns.len() == 0 ==> m == 0
    &&& stops_laid_out(patterns, stop_sequences)
    &&& pairs == Seq::new(stop_sequences.len(), |k: int| (stop_sequences[k].0, stop_labels(patterns)[k]))
    &&& forall|k: int| 0 <= k < stop_sequences.len() ==> (#[trigger] stop_sequences[k]).0 < n_stops
    &&& trip_to_trip_pattern.len() == keys.len()
    &&& forall|q: int| 0 <= q < m ==> #[trigger] trip_to_trip_pattern[keys[q].position as int] == TripPatternIdx(gk[q])
}

/// Appending the stops of pattern `g` keeps the earlier patterns' stops and
/// the labelled pairs in step.
proof fn lemma_append_pattern_stops(
    pats0: Seq<TripPattern>,
    patterns: Seq<TripPattern>,
    ss0: Seq<StopIdx>,
    ss: Seq<StopIdx>,
    pairs0: Seq<(u32, u32)>,
    pairs: Seq<(u32, u32)>,
    seq: Seq<u32>,
    g: int,
    n_stops: nat,
)
    requires
        g == pats0.len() < u32::MAX,
        patterns.len() == g + 1,
        patterns.drop_last() == pats0,
        patterns[g].stops.start == ss0.len(),
        patterns[g].stops.count == seq.len(),
        ss.len() == ss0.len() + seq.len(),
        ss.subrange(0, ss0.len() as int) == ss0,
        forall|y: int| 0 <= y < seq.len() ==> #[trigger] ss[ss0.len() + y] == StopIdx(seq[y]),
        pairs.len() == pairs0.len() + seq.len(),
        pairs.subrange(0, pairs0.len() as int) == pairs0,
        forall|y: int| 0 <= y < seq.len() ==> #[trigger] pairs[pairs0.len() + y] == (seq[y], g as u32),
        stops_laid_out(pats0, ss0),
        pairs0 == Seq::new(ss0.len(), |k: int| (ss0[k].0, stop_labels(pats0)[k])),
        forall|k: int| 0 <= k < ss0.len() ==> (#[trigger] ss0[k]).0 < n_stops,
        forall|y: int| 0 <= y < seq.len() ==> #[trigger] seq[y] < n_stops,
        forall|gg: int| 0 <= gg < g ==> (#[trigger] pats0[gg]).stops.start + pats0[gg].stops.count <= ss0.len(),
    ensures
        stops_laid_out(patterns, ss),
        pairs == Seq::new(ss.len(), |k: int| (ss[k].0, stop_labels(patterns)[k])),
        forall|k: int| 0 <= k < ss.len() ==> (#[trigger] ss[k]).0 < n_stops,
        pattern_seq(patterns[g], ss) == seq,
        forall|gg: int| 0 <= gg < g ==> pattern_seq(#[trigger] patterns[gg], ss) == pattern_seq(pats0[gg], ss0),
        forall|gg: int| 0 <= gg <= g ==> (#[trigger] patterns[gg]).stops.start + patterns[gg].stops.count <= ss.len(),
{
    assert(stop_labels(patterns) == stop_labels(pats0) + Seq::new(seq.len(), |x: int| g as u32));
    assert forall|gg: int, k: int|
        #![trigger patterns[gg], stop_labels(patterns)[k]]
        0 <= gg < patterns.len() && patterns[gg].stops.start <= k < patterns[gg].stops.start
            + patterns[gg].stops.count implies stop_labels(patterns)[k] == gg by {
        if gg < g {
            assert(patterns[gg] == pats0[gg]);
            assert(stop_labels(patterns)[k] == stop_labels(pats0)[k]);
        }
    }
    assert forall|x: int| 0 <= x < ss.len() implies #[trigger] pairs[x] == (ss[x].0, stop_labels(patterns)[x]) by {
        if x < ss0.len() {
            assert(pairs.subrange(0, pairs0.len() as int)[x] == pairs0[x]);
            assert(ss.subrange(0, ss0.len() as int)[x] == ss0[x]);
            assert(stop_labels(patterns)[x] == stop_labels(pats0)[x]);
        } else {
            let y = x - ss0.len();
            assert(pairs[pairs0.len() + y] == (seq[y], g as u32));
            assert(ss[ss0.len() + y] == StopIdx(seq[y]));
        }
    }
    assert(pairs =~= Seq::new(ss.len(), |k: int| (ss[k].0, stop_labels(patterns)[k])));
    assert forall|x: int| 0 <= x < ss.len() implies (#[trigger] ss[x]).0 < n_stops by {
        if x >= ss0.len() {
            assert(ss[ss0.len() + (x - ss0.len())] == StopIdx(seq[x - ss0.len()]));
        } else {
            assert(ss.subrange(0, ss0.len() as int)[x] == ss0[x]);
        }
    }
    assert forall|y: int| 0 <= y < seq.len() implies #[trigger] pattern_seq(patterns[g], ss)[y] == seq[y] by {
        assert(ss[ss0.len() + y] == StopIdx(seq[y]));
    }
    assert(pattern_seq(patterns[g], ss) =~= seq);
    assert forall|gg: int| 0 <= gg < g implies pattern_seq(#[trigger] patterns[gg], ss) == pattern_seq(pats0[gg], ss0) by {
        assert(patterns[gg] == pats0[gg]);
        assert forall|x: int| 0 <= x < ss0.len() implies #[trigger] ss[x] == ss0[x] by {
            assert(ss.subrange(0, ss0.len() as int)[x] == ss0[x]);
        }
        assert(pattern_seq(patterns[gg], ss) =~= pattern_seq(pats0[gg], ss0));
    }
    assert forall|gg: int| 0 <= gg <= g implies (#[trigger] patterns[gg]).stops.start + patterns[gg].stops.count <= ss.len() by {
        if gg < g {
            assert(patterns[gg] == pats0[gg]);
        }
    }
}

/// The trips of the run `s..m` join pattern `g`; the earlier trips keep
/// their patterns.
proof fn lemma_append_pattern_members(
    keys: Seq<RankedText>,
    gk: Seq<u32>,
    gk2: Seq<u32>,
    s: int,
    m: int,
    g: int,
    tis0: Seq<TripIdx>,
    tis: Seq<TripIdx>,
    ttp0: Seq<TripPatternIdx>,
    ttp: Seq<TripPatternIdx>,
)
    requires
        0 <= s < m <= keys.len(),
        0 <= g < u32::MAX,
        gk.len() == s,
        gk2 == gk + Seq::new((m - s) as nat, |x: int| g as u32),
        tis0.len() == s,
        tis.len() == m,
        tis.subrange(0, s) == tis0,
        forall|q: int| 0 <= q < s ==> #[trigger] tis0[q] == TripIdx(keys[q].position),
        forall|q: int| s <= q < m ==> #[trigger] tis[q] == TripIdx(keys[q].position),
        forall|a: int, b: int| 0 <= a < b < keys.len() ==> keys[a].position != keys[b].position,
        forall|q: int| 0 <= q < keys.len() ==> 0 <= (#[trigger] keys[q]).position < keys.len(),
        ttp0.len() == keys.len(),
        ttp.len() == keys.len(),
        forall|q: int| 0 <= q < s ==> #[trigger] ttp0[keys[q].position as int] == TripPatternIdx(gk[q]),
        forall|x: int|
            0 <= x < keys.len() && !(exists|q: int| s <= q < m && keys[q].position == x) ==> #[trigger] ttp[x]
                == ttp0[x],
        forall|q: int| s <= q < m ==> #[trigger] ttp[keys[q].position as int] == TripPatternIdx(g as u32),
    ensures
        gk2.len() == m,
        forall|q: int| 0 <= q < m ==> #[trigger] tis[q] == TripIdx(keys[q].position),
        forall|q: int| 0 <= q < m ==> #[trigger] ttp[keys[q].position as int] == TripPatternIdx(gk2[q]),
        forall|q: int| s <= q < m ==> #[trigger] gk2[q] == g,
        forall|q: int| 0 <= q < s ==> #[trigger] gk2[q] == gk[q],
{
    assert forall|q: int| 0 <= q < m implies #[trigger] ttp[keys[q].position as int] == TripPatternIdx(gk2[q]) by {
        if q < s {
            if exists|q2: int| s <= q2 < m && keys[q2].position == keys[q].position {
                let q2 = choose|q2: int| s <= q2 < m && keys[q2].position == keys[q].position;
                assert(keys[q].position != keys[q2].position);
            }
        }
    }
    assert forall|q: int| 0 <= q < m implies #[trigger] tis[q] == TripIdx(keys[q].position) by {
        if q < s {
            assert(tis.subrange(0, s)[q] == tis0[q]);
        }
    }
}

/// Adds the pattern of the run of equal keys starting at `m`, and returns
/// where the next run starts.
#[verifier::rlimit(100)]
fn add_pattern(
    trips: &[Trip],
    stop_times: &[StopTime],
    keys: &Vec<RankedText>,
    m: usize,
    patterns: &mut Vec<TripPattern>,
    stop_sequences: &mut Vec<StopIdx>,
    trips_in_sequences: &mut Vec<TripIdx>,
    trip_to_trip_pattern: &mut Vec<TripPatternIdx>,
    pairs: &mut Vec<(u32, u32)>,
    Ghost(before): Ghost<Seq<RankedText>>,
    Ghost(gk): Ghost<Seq<u32>>,
    Ghost(n_stops): Ghost<nat>,
    Ghost(key_count): Ghost<spec_fn(RankedText) -> nat>,
) -> (r: (usize, Ghost<Seq<u32>>))
    requires
        m < keys@.len(),
        keys_ok(keys@, before, trips@, stop_times@, n_stops, key_count),
        walk_ok(
            keys@,
            trips@,
            stop_times@,
            n_stops,
            key_count,
            m as int,
            gk,
            old(patterns)@,
            old(stop_sequences)@,
            old(trips_in_sequences)@,
            old(trip_to_trip_pattern)@,
            old(pairs)@,
        ),
    ensures
        m < r.0 <= keys@.len(),
        walk_ok(
            keys@,
            trips@,
            stop_times@,
            n_stops,
            key_count,
            r.0 as int,
            r.1@,
            final(patterns)@,
            final(stop_sequences)@,
            final(trips_in_sequences)@,
            final(trip_to_trip_pattern)@,
            final(pairs)@,
        ),
{
    proof {
        reveal(walk_ok);
    }
    let n = keys.len();
    let s = m;
    let mut m = m;
    let g = patterns.len();
    let rep = keys[s].position as usize;
    let seq = stops_of_trip(&trips[rep], stop_times);
    let ghost ss0 = stop_sequences@;
    let ghost pats0 = patterns@;
    let ghost pairs0 = pairs@;
    let ghost tis0 = trips_in_sequences@;
    let ghost ttp0 = trip_to_trip_pattern@;
    let stops_start = stop_sequences.len();
    proof {
        lemma_sum_of_take(keys@, key_count, s as int);
        assert(key_count(keys@[s as int]) == seq@.len());
    }
    let mut k: usize = 0;
    while k < seq.len()
        invariant
            k <= seq@.len(),
            stop_sequences@.len() == ss0.len() + k,
            stop_sequences@.subrange(0, ss0.len() as int) == ss0,
            forall|x: int| 0 <= x < k ==> #[trigger] stop_sequences@[ss0.len() + x] == StopIdx(seq@[x]),
            pairs@.len() == pairs0.len() + k,
            pairs@.subrange(0, pairs0.len() as int) == pairs0,
            forall|x: int| 0 <= x < k ==> #[trigger] pairs@[pairs0.len() + x] == (seq@[x], g as u32),
            pairs0.len() == ss0.len(),
        decreases seq@.len() - k,
    {
        stop_sequences.push(StopIdx(seq[k]));
        pairs.push((seq[k], g as u32));
        proof {
            assert(stop_sequences@.subrange(0, ss0.len() as int) =~= ss0);
            assert(pairs@.subrange(0, pairs0.len() as int) =~= pairs0);
        }
        k = k + 1;
    }
    let ghost text_s = keys@[s as int].text@;
    while m < n && bytes_equal(keys[m].text.as_slice(), keys[s].text.as_slice())
        invariant
            s <= m <= n == keys@.len(),
            text_s == keys@[s as int].text@,
            forall|q: int| s <= q < m ==> (#[trigger] keys@[q]).text@ == text_s,
            trips_in_sequences@.len() == m,
            trips_in_sequences@.subrange(0, s as int) == tis0,
            tis0.len() == s,
            forall|q: int| s <= q < m ==> #[trigger] trips_in_sequences@[q] == TripIdx(keys@[q].position),
            trip_to_trip_pattern@.len() == n,
            forall|q: int| 0 <= q < keys@.len() ==> 0 <= (#[trigger] keys@[q]).position < n,
            forall|a: int, b: int| 0 <= a < b < keys@.len() ==> keys@[a].position != keys@[b].position,
            forall|x: int|
                0 <= x < n && !(exists|q: int| s <= q < m && keys@[q].position == x) ==> #[trigger] trip_to_trip_pattern@[x]
                    == ttp0[x],
            forall|q: int| s <= q < m ==> #[trigger] trip_to_trip_pattern@[keys@[q].position as int] == TripPatternIdx(g as u32),
            ttp0.len() == n,
        decreases n - m,
    {
        let ghost before_set = trip_to_trip_pattern@;
        trips_in_sequences.push(TripIdx(keys[m].position));
        trip_to_trip_pattern.set(keys[m].position as usize, TripPatternIdx(g as u32));
        proof {
            assert(trips_in_sequences@.subrange(0, s as int) =~= tis0);
            assert forall|x: int|
                0 <= x < n && !(exists|q: int| s <= q < m + 1 && keys@[q].position == x) implies #[trigger] trip_to_trip_pattern@[x]
                    == ttp0[x] by {
                assert(x != keys@[m as int].position);
            }
            assert forall|q: int| s <= q < m + 1 implies #[trigger] trip_to_trip_pattern@[keys@[q].position as int] == TripPatternIdx(g as u32) by {
                if q < m {
                    assert(keys@[q].position != keys@[m as int].position);
                }
            }
        }
        m = m + 1;
    }
    let trips_slice = TripSlice::from_usize(s, m - s);
    let stops_slice = StopSlice::from_usize(stops_start, seq.len());
    patterns.push(TripPattern { stops: stops_slice, trips: trips_slice, idx: TripPatternIdx(g as u32) });
    let ghost gk2 = gk + Seq::new((m - s) as nat, |x: int| g as u32);
    proof {
        assert(m > s) by {
            assert(keys@[s as int].text@ == keys@[s as int].text@);
        }
        lemma_sum_of_take(keys@, key_count, s as int);
        lemma_sum_of_monotone(keys@, key_count, s + 1, m as int);
        assert(patterns@[g as int].stops.start == ss0.len());
        assert(patterns@[g as int].stops.count == seq@.len());
        assert(patterns@.drop_last() =~= pats0);
        assert forall|y: int| 0 <= y < seq@.len() implies #[trigger] seq@[y] < n_stops by {
            let tr = trips@[rep as int];
            assert(seq@[y] == stop_times@.subrange(tr.stop_times.start as int, tr.stop_times.start + tr.stop_times.count)[y].stop_idx.0);
            assert(stop_times@.subrange(tr.stop_times.start as int, tr.stop_times.start + tr.stop_times.count)[y] == stop_times@[tr.stop_times.start + y]);
        }
        lemma_append_pattern_stops(pats0, patterns@, ss0, stop_sequences@, pairs0, pairs@, seq@, g as int, n_stops);
        if g > 0 {
            let prev = pats0[g - 1].trips.start as int;
            assert(keys@[s - 1].le(keys@[s as int]));
            assert(keys@[s - 1].text@ == keys@[prev].text@);
            lemma_lex_asymmetric(keys@[s - 1].text@, text_s);
            assert forall|g1: int| 0 <= g1 < g implies lex_lt(keys@[patterns@[g1].trips.start as int].text@, text_s) by {
                if g1 < g - 1 {
                    lemma_lex_transitive(keys@[patterns@[g1].trips.start as int].text@, keys@[prev].text@, text_s);
                }
            }
        }
        lemma_append_pattern_members(keys@, gk, gk2, s as int, m as int, g as int, tis0, trips_in_sequences@, ttp0, trip_to_trip_pattern@);
        reveal(walk_ok);
    }
    (m, Ghost(gk2))
}

/// Groups trips by the stops they call at. Each pattern lists its stops once,
/// right after the stops of the pattern before it, and its trips in
/// increasing order; every trip belongs to exactly one pattern, patterns have
/// distinct stop sequences, and each stop has the run of the patterns calling
/// at it, a pattern once per call.
pub fn build_trip_patterns(trips: &[Trip], stops: &[Stop], stop_times: &[StopTime]) -> (r:
    BuildTripPatternsResult)
    requires
        trips@.len() < u32::MAX,
        forall|t: int| 0 <= t < trips@.len() ==> (#[trigger] trips@[t]).idx.0 == t,
        forall|t: int|
            0 <= t < trips@.len() ==> (#[trigger] trips@[t]).stop_times.start + trips@[t].stop_times.count
                <= stop_times@.len(),
        forall|k: int| 0 <= k < stop_times@.len() ==> (#[trigger] stop_times@[k]).stop_idx.0 < stops@.len(),
        sum_of(trips@, |t: Trip| t.stop_times.count as nat) <= u32::MAX,
    ensures
        forall|g: int| 0 <= g < r.0@.len() ==> (#[trigger] r.0@[g]).idx == TripPatternIdx(g as u32),
        r.2@.len() == trips@.len(),
        is_permutation(r.2@.map_values(|t: TripIdx| t.0 as int), trips@.len()),
        r.3@.len() == trips@.len(),
        forall|m: int| 0 <= m < r.2@.len() ==> (#[trigger] pattern_keys(r.2@, r.3@)[m]) < r.0@.len(),
        forall|g: int| 0 <= g < r.0@.len() ==> run_of(pattern_keys(r.2@, r.3@), g, (#[trigger] r.0@[g]).trips),
        forall|g: int|
            0 <= g < r.0@.len() ==> (#[trigger] r.0@[g]).stops.start + r.0@[g].stops.count <= r.1@.len(),
        forall|m: int|
            0 <= m < r.2@.len() ==> trip_stop_seq(trips@[(#[trigger] r.2@[m]).0 as int], stop_times@)
                == pattern_seq(r.0@[pattern_keys(r.2@, r.3@)[m] as int], r.1@),
        forall|g1: int, g2: int|
            0 <= g1 < g2 < r.0@.len() ==> pattern_seq(r.0@[g1], r.1@) != pattern_seq(r.0@[g2], r.1@),
        forall|a: int, b: int|
            0 <= a < b < r.2@.len() && pattern_keys(r.2@, r.3@)[a] == pattern_keys(r.2@, r.3@)[b] ==> r.2@[a].0
                < r.2@[b].0,
        grouped_multiset(pattern_stop_pairs(r.0@, r.1@), r.4@, r.5@, stops@.len()),
        all_below(r.1@, stops@.len()),
        all_below(r.3@, r.0@.len()),
        all_below(r.4@, r.0@.len()),
        forall|g: int| 0 <= g < r.0@.len() ==> (#[trigger] r.0@[g]).trips.count > 0,
        stops_laid_out(r.0@, r.1@),
{
    let n = trips.len();
    let ghost count_of = |t: Trip| t.stop_times.count as nat;
    let ghost key_count = |k: RankedText| if k.position < trips@.len() {
        trips@[k.position as int].stop_times.count as nat
    } else {
        0nat
    };
    // Key each trip by the encoding of its stops.
    let mut keys: Vec<RankedText> = Vec::new();
    let mut t: usize = 0;
    while t < n
        invariant
            n == trips@.len() < u32::MAX,
            t <= n,
            keys@.len() == t,
            forall|t2: int|
                0 <= t2 < trips@.len() ==> (#[trigger] trips@[t2]).stop_times.start + trips@[t2].stop_times.count
                    <= stop_times@.len(),
            forall|q: int|
                0 <= q < t ==> (#[trigger] keys@[q]).position == q && keys@[q].text@ == words_to_bytes(
                    trip_stop_seq(trips@[q], stop_times@),
                ),
        decreases n - t,
    {
        let seq = stops_of_trip(&trips[t], stop_times);
        let mut text: Vec<u8> = Vec::new();
        push_words(&mut text, seq.as_slice());
        assert(Seq::<u8>::empty() + words_to_bytes(seq@) =~= words_to_bytes(seq@));
        keys.push(RankedText { text, position: t as u32 });
        t = t + 1;
    }
    let ghost before = keys@;
    par_sort(&mut keys);
    proof {
        lemma_reordered_positions(before, keys@, |k: RankedText| k.position as int);
        lemma_sum_of_reordered(keys@, before, key_count);
        lemma_sum_of_pointwise(before, trips@, key_count, count_of);
    }
    // Walk the sorted keys, one pattern per run of equal stop sequences.
    let mut patterns: Vec<TripPattern> = Vec::new();
    let mut stop_sequences: Vec<StopIdx> = Vec::new();
    let mut trips_in_sequences: Vec<TripIdx> = Vec::new();
    let mut trip_to_trip_pattern: Vec<TripPatternIdx> = Vec::new();
    let mut z: usize = 0;
    while z < n
        invariant
            z <= n,
            trip_to_trip_pattern@.len() == z,
            forall|q: int| 0 <= q < z ==> #[trigger] trip_to_trip_pattern@[q] == TripPatternIdx::spec_none(),
        decreases n - z,
    {
        trip_to_trip_pattern.push(TripPatternIdx::none());
        z = z + 1;
    }
    let mut pairs: Vec<(u32, u32)> = Vec::new();
    let ghost mut gk: Seq<u32> = Seq::empty();
    proof {
        assert(keys_ok(keys@, before, trips@, stop_times@, stops@.len(), key_count));
        assert(stop_labels(patterns@) =~= Seq::<u32>::empty());
        assert(pairs@ =~= Seq::new(stop_sequences@.len(), |k: int| (stop_sequences@[k].0, stop_labels(patterns@)[k])));
        assert(keys@.take(0) =~= Seq::<RankedText>::empty());
        reveal(walk_ok);
    }
    let mut m: usize = 0;
    while m < n
        invariant
            n == trips@.len() == keys@.len() == before.len() < u32::MAX,
            m <= n,
            keys_ok(keys@, before, trips@, stop_times@, stops@.len(), key_count),
            walk_ok(
                keys@,
                trips@,
                stop_times@,
                stops@.len(),
                key_count,
                m as int,
                gk,
                patterns@,
                stop_sequences@,
                trips_in_sequences@,
                trip_to_trip_pattern@,
                pairs@,
            ),
        decreases n - m,
    {
        let (next, Ghost(gk2)) = add_pattern(
            trips,
            stop_times,
            &keys,
            m,
            &mut patterns,
            &mut stop_sequences,
            &mut trips_in_sequences,
            &mut trip_to_trip_pattern,
            &mut pairs,
            Ghost(before),
            Ghost(gk),
            Ghost(stops@.len()),
            Ghost(key_count),
        );
        proof {
            gk = gk2;
        }
        m = next;
    }
    proof {
        reveal(walk_ok);
        assert(keys@.take(m as int) =~= keys@);
    }
    let ghost pairs_v = pairs@;
    let (stop_to_trip_pattern, stop_to_trip_pattern_lookup) = group_pairs::<TripPatternIdx, TripPatternSlice>(pairs, stops.len());
    proof {
        // Every trip was placed: positions are a permutation.
        let perm = trips_in_sequences@.map_values(|t: TripIdx| t.0 as int);
        assert forall|x: int| 0 <= x < n implies 0 <= #[trigger] perm[x] < n by {
            assert(trips_in_sequences@[x] == TripIdx(keys@[x].position));
        }
        assert forall|a: int, b: int| 0 <= a < b < n implies perm[a] != perm[b] by {
            assert(trips_in_sequences@[a] == TripIdx(keys@[a].position));
            assert(trips_in_sequences@[b] == TripIdx(keys@[b].position));
        }
        let pk = pattern_keys(trips_in_sequences@, trip_to_trip_pattern@);
        assert forall|x: int| 0 <= x < n implies #[trigger] pk[x] == gk[x] by {
            assert(trips_in_sequences@[x] == TripIdx(keys@[x].position));
        }
        assert(pk =~= gk);
        assert forall|g: int| 0 <= g < patterns@.len() implies run_of(pk, g, (#[trigger] patterns@[g]).trips) by {
            assert(pk[patterns@[g].trips.start as int] == g);
        }
        assert forall|x: int| 0 <= x < n implies trip_stop_seq(trips@[(#[trigger] trips_in_sequences@[x]).0 as int], stop_times@)
            == pattern_seq(patterns@[pk[x] as int], stop_sequences@) by {
            let g = gk[x] as int;
            let st = patterns@[g].trips.start as int;
            assert(keys@[x].text@ == keys@[st].text@);
            let p = keys@[x].position as int;
            let ps = keys@[st].position as int;
            assert(keys@[x] == before[p]);
            assert(keys@[st] == before[ps]);
            lemma_words_to_bytes_injective(trip_stop_seq(trips@[p], stop_times@), trip_stop_seq(trips@[ps], stop_times@));
        }
        assert forall|g1: int, g2: int| 0 <= g1 < g2 < patterns@.len() implies pattern_seq(patterns@[g1], stop_sequences@)
            != pattern_seq(patterns@[g2], stop_sequences@) by {
            let p1 = keys@[patterns@[g1].trips.start as int].position as int;
            let p2 = keys@[patterns@[g2].trips.start as int].position as int;
            assert(keys@[patterns@[g1].trips.start as int] == before[p1]);
            assert(keys@[patterns@[g2].trips.start as int] == before[p2]);
            lemma_lex_irreflexive(keys@[patterns@[g1].trips.start as int].text@);
        }
        assert forall|a: int, b: int| 0 <= a < b < n && pk[a] == pk[b] implies trips_in_sequences@[a].0 < trips_in_sequences@[b].0 by {
            assert(keys@[a].le(keys@[b]));
            assert(trips_in_sequences@[a] == TripIdx(keys@[a].position));
            assert(trips_in_sequences@[b] == TripIdx(keys@[b].position));
            assert(gk[a] == gk[b]);
            assert(keys@[a].text@ == keys@[patterns@[gk[a] as int].trips.start as int].text@);
            assert(keys@[b].text@ == keys@[patterns@[gk[b] as int].trips.start as int].text@);
            lemma_lex_irreflexive(keys@[a].text@);
        }
    }
    proof {
        reveal(walk_ok);
        assert forall|g: int| 0 <= g < patterns@.len() implies (#[trigger] patterns@[g]).trips.count > 0 by {
        }
        assert forall|k: int| 0 <= k < stop_sequences@.len() implies (#[trigger] stop_sequences@[k]).spec_index()
            < stops@.len() by {
        }
        let perm = trips_in_sequences@.map_values(|t: TripIdx| t.0 as int);
        lemma_permutation_onto(perm, n as nat);
        assert forall|t: int| 0 <= t < trip_to_trip_pattern@.len() implies (
        #[trigger] trip_to_trip_pattern@[t]).spec_index() < patterns@.len() by {
            assert(perm.contains(t));
            let m = choose|m: int| 0 <= m < perm.len() && perm[m] == t;
            assert(trips_in_sequences@[m] == TripIdx(keys@[m].position));
        }
        lemma_stop_labels_below(patterns@);
        assert forall|k: int| 0 <= k < pairs_v.len() implies (#[trigger] pairs_v[k]).1 < patterns@.len() by {
            assert(pairs_v[k].1 == stop_labels(patterns@)[k]);
        }
        lemma_grouped_items_below(
            pairs_v,
            stop_to_trip_pattern@,
            stop_to_trip_pattern_lookup@,
            stops@.len() as nat,
            patterns@.len(),
        );
    }
    BuildTripPatternsResult(
        patterns,
        stop_sequences,
        trips_in_sequences,
        trip_to_trip_pattern,
        stop_to_trip_pattern,
        stop_to_trip_pattern_lookup,
    )
}

/// Pattern `g` labels as many entries as it has stops.
proof fn lemma_label_count(patterns: Seq<TripPattern>, g: int)
    requires
        0 <= g < patterns.len() <= u32::MAX + 1,
    ensures
        occurrences(stop_labels(patterns), g as u32) == patterns[g].stops.count,
    decreases patterns.len(),
{
    let front = patterns.drop_last();
    let last = (patterns.len() - 1) as u32;
    let block = Seq::new(patterns.last().stops.count as nat, |k: int| last);
    lemma_occurrences_append(stop_labels(front), block, g as u32);
    if g < patterns.len() - 1 {
        lemma_label_count(front, g);
        lemma_occurrences_zero(block, g as u32);
        assert(front[g] == patterns[g]);
    } else {
        lemma_stop_labels_below(front);
        lemma_occurrences_zero(stop_labels(front), g as u32);
        lemma_occurrences_all(block, g as u32);
    }
}

/// Where the stops are laid out, the entries that pattern `g` labels are
/// exactly its run.
pub proof fn lemma_labels_are_runs(patterns: Seq<TripPattern>, stop_sequences: Seq<StopIdx>, g: int)
    requires
        stops_laid_out(patterns, stop_sequences),
        0 <= g < patterns.len() <= u32::MAX + 1,
    ensures
        forall|k: int|
            0 <= k < stop_sequences.len() ==> (#[trigger] stop_labels(patterns)[k] == g as u32 <==> patterns[g].stops.start
                <= k < patterns[g].stops.start + patterns[g].stops.count),
{
    let labels = stop_labels(patterns);
    let a = patterns[g].stops.start as int;
    let b = a + patterns[g].stops.count;
    lemma_label_count(patterns, g);
    let front = labels.subrange(0, a);
    let mid = labels.subrange(a, b);
    let back = labels.subrange(b, labels.len() as int);
    assert(labels =~= front + mid + back);
    lemma_occurrences_append(front + mid, back, g as u32);
    lemma_occurrences_append(front, mid, g as u32);
    assert forall|k: int| 0 <= k < mid.len() implies mid[k] == g as u32 by {
        assert(labels[a + k] == g);
    }
    lemma_occurrences_all(mid, g as u32);
    lemma_occurrences_zero(front, g as u32);
    lemma_occurrences_zero(back, g as u32);
    assert forall|k: int| 0 <= k < stop_sequences.len() implies (#[trigger] labels[k] == g as u32 <==> a <= k < b) by {
        if k < a {
            assert(front[k] == labels[k]);
        } else if k >= b {
            assert(back[k - b] == labels[k]);
        } else {
            assert(labels[k] == g);
        }
    }
}

/// Every stop of the sequences is labelled with a pattern.
proof fn lemma_stop_labels_below(patterns: Seq<TripPattern>)
    ensures
        forall|k: int| 0 <= k < stop_labels(patterns).len() ==> #[trigger] stop_labels(patterns)[k] < patterns.len(),
    decreases patterns.len(),
{
    if patterns.len() > 0 {
        lemma_stop_labels_below(patterns.drop_last());
        let front = stop_labels(patterns.drop_last());
        assert forall|k: int| 0 <= k < stop_labels(patterns).len() implies #[trigger] stop_labels(patterns)[k]
            < patterns.len() by {
            if k < front.len() {
                assert(stop_labels(patterns)[k] == front[k]);
            }
        }
    }
}

/// Sums over longer prefixes are no smaller.
proof fn lemma_sum_of_monotone<T>(s: Seq<T>, f: spec_fn(T) -> nat, i: int, j: int)
    requires
        0 <= i <= j <= s.len(),
    ensures
        sum_of(s.take(i), f) <= sum_of(s.take(j), f),
    decreases j - i,
{
    if i < j {
        lemma_sum_of_take(s, f, j - 1);
        lemma_sum_of_monotone(s, f, i, j - 1);
    }
}

} // verus!
