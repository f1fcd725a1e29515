//! Packing identifiers into one text, and ordering records by identifier.

use vstd::prelude::*;
use vstd::string::StringSliceAdditionalSpecFns;
use vstd::utf8::encode_utf8;

use crate::models::idx::Idx;
use crate::models::route::Route;
use crate::models::service::Service;
use crate::models::slice::{RouteIdSlice, ServiceIdSlice, Slice, StopIdSlice, TripIdSlice};
use crate::models::stop::Stop;
use crate::models::trip::Trip;
use crate::models::slice_builder::SliceBuilder;
use crate::order::lex_le;
use crate::sorting::{par_sort, Ordered, TextKey};
use crate::text_map::{distinct, TextMap};

verus! {

/// The texts of `ts`, one after the other.
pub open spec fn concat(ts: Seq<Seq<u8>>) -> Seq<u8>
    decreases ts.len(),
{
    if ts.len() == 0 {
        Seq::empty()
    } else {
        concat(ts.drop_last()) + ts.last()
    }
}

/// The run that packing gives text `p` of `ts`: where it starts in
/// `concat(ts)` and its length, or the reserved run where either does not fit
/// in 32 bits.
pub open spec fn packed_run<S: Slice>(ts: Seq<Seq<u8>>, p: int, s: S) -> bool {
    if concat(ts.take(p)).len() <= u32::MAX && ts[p].len() <= u32::MAX {
        &&& s.spec_start() == concat(ts.take(p)).len()
        &&& s.spec_count() == ts[p].len()
    } else {
        s == S::spec_none()
    }
}

/// The text of `text` that the run `s` names; empty where it lies outside.
pub open spec fn run_text<S: Slice>(text: Seq<u8>, s: S) -> Seq<u8> {
    text.subrange(s.spec_start() as int, s.spec_start() + s.spec_count())
}

/// Concatenation grows text by text, and lengths add up.
pub proof fn lemma_concat_take(ts: Seq<Seq<u8>>, p: int)
    requires
        0 <= p < ts.len(),
    ensures
        concat(ts.take(p + 1)) == concat(ts.take(p)) + ts[p],
        concat(ts.take(p)).len() + ts[p].len() <= concat(ts).len(),
    decreases ts.len() - p,
{
    assert(ts.take(p + 1).drop_last() =~= ts.take(p));
    if p + 1 < ts.len() {
        lemma_concat_take(ts, p + 1);
    } else {
        assert(ts.take(p + 1) =~= ts);
    }
}

/// Packs the keys of `map`, in order, into one text; entry `p` of the result
/// is the run of key `p`.
pub fn pack_texts<S: Slice, V>(map: &TextMap<V>) -> (r: (Vec<S>, String))
    requires
        map.wf(),
        concat(map.keys()).len() <= usize::MAX,
    ensures
        encode_utf8(r.1@) == concat(map.keys()),
        r.0@.len() == map.keys().len(),
        forall|p: int| 0 <= p < map.keys().len() ==> packed_run(map.keys(), p, #[trigger] r.0@[p]),
{
    let n = map.len();
    proof {
        map.lemma_wf();
    }
    let capacity = if n < usize::MAX / 36 {
        36 * n
    } else {
        n
    };
    let mut builder: SliceBuilder<S> = SliceBuilder::with_capacity(capacity);
    let mut runs: Vec<S> = Vec::new();
    let ghost keys = map.keys();
    proof {
        assert(keys.take(0) =~= Seq::<Seq<u8>>::empty());
    }
    let mut p: usize = 0;
    while p < n
        invariant
            n == keys.len(),
            keys == map.keys(),
            distinct(keys),
            map.wf(),
            p <= n,
            concat(keys).len() <= usize::MAX,
            builder.wf(),
            builder.texts() == keys.take(p as int),
            builder.text() == concat(keys.take(p as int)),
            runs@.len() == p,
            forall|q: int| 0 <= q < p ==> packed_run(keys, q, #[trigger] runs@[q]),
        decreases n - p,
    {
        let key = map.key_at(p);
        proof {
            lemma_concat_take(keys, p as int);
            if builder.spec_lookup(key.spec_bytes()) is Some {
                let q = crate::text_map::find(builder.texts(), key.spec_bytes())->0;
                assert(keys[q] == keys[p as int]);
            }
        }
        let s = builder.add(key);
        runs.push(s);
        proof {
            assert(keys.take(p as int).push(keys[p as int]) =~= keys.take(p + 1));
        }
        p = p + 1;
    }
    proof {
        assert(keys.take(n as int) =~= keys);
    }
    (runs, builder.take())
}

/// The text of a run of `text`, as a vector; empty where the run does not lie
/// within `text`.
fn run_bytes<S: Slice>(text: &[u8], s: S) -> (r: Vec<u8>)
    ensures
        s.spec_start() + s.spec_count() <= text@.len() ==> r@ == run_text(text@, s),
{
    let mut r: Vec<u8> = Vec::new();
    let (start, count) = s.parts();
    if start as usize <= text.len() && count as usize <= text.len() - start as usize {
        let end = start as usize + count as usize;
        let mut i = start as usize;
        while i < end
            invariant
                start <= i <= end <= text@.len(),
                end == start + count,
                r@ == text@.subrange(start as int, i as int),
            decreases end - i,
        {
            r.push(text[i]);
            assert(r@ =~= text@.subrange(start as int, i + 1));
            i = i + 1;
        }
    }
    r
}

/// The positions `0..runs.len()`, ordered by the text each run names in
/// `text`.
pub fn order_by_text<S: Slice>(runs: &Vec<S>, text: &[u8]) -> (r: Vec<u32>)
    requires
        runs@.len() <= u32::MAX,
        forall|j: int| 0 <= j < runs@.len() ==> (#[trigger] runs@[j]).spec_start() + runs@[j].spec_count()
            <= text@.len(),
    ensures
        r@.len() == runs@.len(),
        forall|m: int| 0 <= m < r@.len() ==> #[trigger] r@[m] < runs@.len(),
        forall|a: int, b: int| 0 <= a < b < r@.len() ==> r@[a] != r@[b],
        forall|a: int, b: int|
            0 <= a < b < r@.len() ==> lex_le(
                run_text(text@, runs@[r@[a] as int]),
                run_text(text@, runs@[r@[b] as int]),
            ),
{
    let mut keys: Vec<TextKey> = Vec::new();
    let mut j: usize = 0;
    while j < runs.len()
        invariant
            j <= runs@.len() <= u32::MAX,
            keys@.len() == j,
            forall|k: int|
                0 <= k < runs@.len() ==> (#[trigger] runs@[k]).spec_start() + runs@[k].spec_count()
                    <= text@.len(),
            forall|k: int|
                0 <= k < j ==> (#[trigger] keys@[k]).position == k && keys@[k].text@ == run_text(
                    text@,
                    runs@[k],
                ),
        decreases runs@.len() - j,
    {
        let t = run_bytes(text, runs[j]);
        keys.push(TextKey { text: t, position: j as u32 });
        j = j + 1;
    }
    let ghost before = keys@;
    par_sort(&mut keys);
    let mut r: Vec<u32> = Vec::new();
    let mut k: usize = 0;
    while k < keys.len()
        invariant
            k <= keys@.len(),
            r@.len() == k,
            forall|m: int| 0 <= m < k ==> r@[m] == (#[trigger] keys@[m]).position,
        decreases keys@.len() - k,
    {
        r.push(keys[k].position);
        k = k + 1;
    }
    proof {
        vstd::seq_lib::to_multiset_len(keys@);
        vstd::seq_lib::to_multiset_len(before);
        assert forall|m: int| 0 <= m < keys@.len() implies (#[trigger] keys@[m]).position < runs@.len()
            && keys@[m].text@ == run_text(text@, runs@[keys@[m].position as int]) by {
            vstd::seq_lib::to_multiset_contains(keys@, keys@[m]);
            vstd::seq_lib::to_multiset_contains(before, keys@[m]);
            let w = choose|w: int| 0 <= w < before.len() && before[w] == keys@[m];
        }
        assert forall|m: int| 0 <= m < r@.len() implies #[trigger] r@[m] < runs@.len() by {
            assert(keys@[m].position < runs@.len());
        }
        assert forall|a: int, b: int| 0 <= a < b < r@.len() implies lex_le(
            run_text(text@, runs@[r@[a] as int]),
            run_text(text@, runs@[r@[b] as int]),
        ) by {
            assert(keys@[a].le(keys@[b]));
        }
        assert forall|a: int, b: int| 0 <= a < b < r@.len() implies r@[a] != r@[b] by {
            if r@[a] == r@[b] {
                let x = keys@[a];
                let p = x.position as int;
                vstd::seq_lib::to_multiset_contains(keys@, keys@[a]);
                vstd::seq_lib::to_multiset_contains(before, keys@[a]);
                vstd::seq_lib::to_multiset_contains(keys@, keys@[b]);
                vstd::seq_lib::to_multiset_contains(before, keys@[b]);
                let w = choose|w: int| 0 <= w < before.len() && before[w] == keys@[a];
                let w2 = choose|w: int| 0 <= w < before.len() && before[w] == keys@[b];
                assert(w == p);
                assert(w2 == p);
                lemma_count_two(keys@, a, b);
                lemma_count_one(before, p);
            }
        }
    }
    r
}

/// A value at two positions of `s` is counted twice.
proof fn lemma_count_two<A>(s: Seq<A>, a: int, b: int)
    requires
        0 <= a < b < s.len(),
        s[a] == s[b],
    ensures
        s.to_multiset().count(s[a]) >= 2,
{
    broadcast use vstd::multiset::group_multiset_axioms;

    vstd::seq_lib::to_multiset_remove(s, b);
    assert(s.remove(b)[a] == s[a]);
    vstd::seq_lib::to_multiset_contains(s.remove(b), s[a]);
    vstd::seq_lib::to_multiset_contains(s, s[a]);
}

/// In a table of keys whose positions are their indexes, each key is counted
/// once.
proof fn lemma_count_one(s: Seq<TextKey>, p: int)
    requires
        0 <= p < s.len(),
        forall|k: int| 0 <= k < s.len() ==> (#[trigger] s[k]).position == k,
    ensures
        s.to_multiset().count(s[p]) == 1,
{
    broadcast use vstd::multiset::group_multiset_axioms;

    vstd::seq_lib::to_multiset_remove(s, p);
    vstd::seq_lib::to_multiset_contains(s, s[p]);
    assert forall|k: int| 0 <= k < s.remove(p).len() implies s.remove(p)[k] != s[p] by {
        if k < p {
            assert(s.remove(p)[k] == s[k]);
        } else {
            assert(s.remove(p)[k] == s[k + 1]);
        }
    }
    vstd::seq_lib::to_multiset_contains(s.remove(p), s[p]);
}

/// A record that carries its own identifier as a run of an identifier text.
pub trait Keyed: Sized + Copy {
    /// The kind of run that names the identifier.
    type Id: Slice;

    /// The identifier run.
    spec fn spec_id(self) -> Self::Id;

    /// The record with another identifier run.
    spec fn spec_with_id(self, id: Self::Id) -> Self;

    /// Setting an identifier run is seen by `spec_id`, replaces any earlier
    /// one, and setting the run a record has changes nothing.
    proof fn lemma_with_id(self, a: Self::Id, b: Self::Id)
        ensures
            self.spec_with_id(a).spec_id() == a,
            self.spec_with_id(a).spec_with_id(b) == self.spec_with_id(b),
            self.spec_with_id(self.spec_id()) == self,
    ;

    /// The identifier run.
    fn id(&self) -> (r: Self::Id)
        ensures
            r == self.spec_id(),
    ;

    /// The record with another identifier run.
    fn with_id(self, id: Self::Id) -> (r: Self)
        ensures
            r == self.spec_with_id(id),
            r.spec_id() == id,
    ;
}

impl Keyed for Stop {
    type Id = StopIdSlice;

    open spec fn spec_id(self) -> StopIdSlice {
        self.id
    }

    open spec fn spec_with_id(self, id: StopIdSlice) -> Self {
        Stop {
            coordinate: self.coordinate,
            id,
            code: self.code,
            name: self.name,
            desc: self.desc,
            idx: self.idx,
            parent_idx: self.parent_idx,
            location_type: self.location_type,
        }
    }

    proof fn lemma_with_id(self, a: StopIdSlice, b: StopIdSlice) {
    }

    fn id(&self) -> (r: StopIdSlice) {
        self.id
    }

    fn with_id(self, id: StopIdSlice) -> (r: Self) {
        Stop { id, ..self }
    }
}

impl Keyed for Route {
    type Id = RouteIdSlice;

    open spec fn spec_id(self) -> RouteIdSlice {
        self.id
    }

    open spec fn spec_with_id(self, id: RouteIdSlice) -> Self {
        Route {
            id,
            long_name: self.long_name,
            short_name: self.short_name,
            description: self.description,
            idx: self.idx,
            route_type: self.route_type,
        }
    }

    proof fn lemma_with_id(self, a: RouteIdSlice, b: RouteIdSlice) {
    }

    fn id(&self) -> (r: RouteIdSlice) {
        self.id
    }

    fn with_id(self, id: RouteIdSlice) -> (r: Self) {
        Route { id, ..self }
    }
}

impl Keyed for Trip {
    type Id = TripIdSlice;

    open spec fn spec_id(self) -> TripIdSlice {
        self.id
    }

    open spec fn spec_with_id(self, id: TripIdSlice) -> Self {
        Trip {
            id,
            headsign: self.headsign,
            short_name: self.short_name,
            shape: self.shape,
            stop_times: self.stop_times,
            idx: self.idx,
            route_idx: self.route_idx,
            service_idx: self.service_idx,
        }
    }

    proof fn lemma_with_id(self, a: TripIdSlice, b: TripIdSlice) {
    }

    fn id(&self) -> (r: TripIdSlice) {
        self.id
    }

    fn with_id(self, id: TripIdSlice) -> (r: Self) {
        Trip { id, ..self }
    }
}

impl Keyed for Service {
    type Id = ServiceIdSlice;

    open spec fn spec_id(self) -> ServiceIdSlice {
        self.id
    }

    open spec fn spec_with_id(self, id: ServiceIdSlice) -> Self {
        Service {
            id,
            active_mask: self.active_mask,
            idx: self.idx,
            start_date: self.start_date,
            end_date: self.end_date,
            weekdays: self.weekdays,
        }
    }

    proof fn lemma_with_id(self, a: ServiceIdSlice, b: ServiceIdSlice) {
    }

    fn id(&self) -> (r: ServiceIdSlice) {
        self.id
    }

    fn with_id(self, id: ServiceIdSlice) -> (r: Self) {
        Service { id, ..self }
    }
}

/// The last position of `a` in `s`.
pub open spec fn last_position<A>(s: Seq<A>, a: A) -> Option<int>
    decreases s.len(),
{
    if s.len() == 0 {
        None
    } else if s.last() == a {
        Some(s.len() - 1)
    } else {
        last_position(s.drop_last(), a)
    }
}

/// Record `j` after identifiers are assigned: the run of the last key of `keys`
/// whose value names `j`, or its old identifier where no value does.
pub open spec fn assigned_id<R: Keyed, I: Idx>(
    keys: Seq<Seq<u8>>,
    vals: Seq<I>,
    runs: Seq<R::Id>,
    old_record: R,
    j: int,
) -> R::Id {
    match last_position(vals.map_values(|v: I| v.spec_index() as int), j) {
        Some(p) => runs[p],
        None => old_record.spec_id(),
    }
}

/// Whether some value of `map` names record `j`.
pub open spec fn names_record<I: Idx>(map: &TextMap<I>, j: int) -> bool {
    exists|p: int| 0 <= p < map.values().len() && (#[trigger] map.values()[p]).spec_index() == j
}

/// `map` names records of `records` only, its keys fit in memory, and a
/// record that no value names, and so keeps its identifier run, carries a
/// run that lies within the packed keys.
pub open spec fn ids_buildable<R: Keyed, I: Idx>(map: &TextMap<I>, records: Seq<R>) -> bool {
    &&& map.wf()
    &&& concat(map.keys()).len() <= usize::MAX
    &&& records.len() <= u32::MAX
    &&& forall|p: int| 0 <= p < map.values().len() ==> (#[trigger] map.values()[p]).spec_index() < records.len()
    &&& forall|j: int|
        0 <= j < records.len() && !names_record(map, j) ==> (#[trigger] records[j]).spec_id().spec_start()
            + records[j].spec_id().spec_count() <= concat(map.keys()).len()
}

/// `text` holds the keys of `map` one after the other; each record named by a
/// value of `map` carries the run of the last key naming it, the others keep
/// their runs; `lookup` lists every record once, ordered by identifier text.
pub open spec fn ids_assigned<R: Keyed, I: Idx>(
    map: &TextMap<I>,
    old_records: Seq<R>,
    new_records: Seq<R>,
    lookup: Seq<I>,
    text: Seq<u8>,
) -> bool {
    &&& text == concat(map.keys())
    &&& new_records.len() == old_records.len()
    &&& exists|runs: Seq<R::Id>|
        {
            &&& runs.len() == map.keys().len()
            &&& forall|p: int| 0 <= p < runs.len() ==> packed_run(map.keys(), p, #[trigger] runs[p])
            &&& forall|j: int|
                0 <= j < old_records.len() ==> #[trigger] new_records[j] == old_records[j].spec_with_id(
                    assigned_id(map.keys(), map.values(), runs, old_records[j], j),
                )
        }
    &&& lookup.len() == old_records.len()
    &&& forall|m: int| 0 <= m < lookup.len() ==> (#[trigger] lookup[m]).spec_index() < old_records.len()
    &&& forall|a: int, b: int| 0 <= a < b < lookup.len() ==> lookup[a] != lookup[b]
    &&& forall|a: int, b: int|
        0 <= a < b < lookup.len() ==> lex_le(
            run_text(text, new_records[lookup[a].spec_index() as int].spec_id()),
            run_text(text, new_records[lookup[b].spec_index() as int].spec_id()),
        )
}

/// Packs the identifiers of `map` into one text and gives each record named
/// by a value of `map` the run of its identifier; then orders all records by
/// identifier text. Where a record is named twice, the later key wins.
pub fn build_ids<R: Keyed, I: Idx>(records: &mut Vec<R>, map: &TextMap<I>) -> (r: (Vec<I>, String))
    requires
        ids_buildable(map, old(records)@),
    ensures
        ids_assigned(map, old(records)@, final(records)@, r.0@, encode_utf8(r.1@)),
{
    proof {
        map.lemma_wf();
    }
    let ghost old_records = records@;
    let (runs, text) = pack_texts::<R::Id, I>(map);
    let ghost keys = map.keys();
    let ghost vals = map.values().map_values(|v: I| v.spec_index() as int);
    let n = map.len();
    proof {
        assert forall|j: int| 0 <= j < old(records)@.len() implies #[trigger] records@[j]
            == old(records)@[j].spec_with_id(
            assigned_id(keys.take(0), map.values().take(0), runs@, old(records)@[j], j),
        ) by {
            assert(map.values().take(0).map_values(|v: I| v.spec_index() as int) =~= Seq::<int>::empty());
            old(records)@[j].lemma_with_id(old(records)@[j].spec_id(), old(records)@[j].spec_id());
        }
    }
    let mut p: usize = 0;
    while p < n
        invariant
            n == keys.len() == map.values().len(),
            keys == map.keys(),
            vals == map.values().map_values(|v: I| v.spec_index() as int),
            map.wf(),
            p <= n,
            runs@.len() == n,
            records@.len() == old(records)@.len(),
            forall|q: int| 0 <= q < map.values().len() ==> (#[trigger] map.values()[q]).spec_index() < old(records)@.len(),
            forall|j: int|
                0 <= j < old(records)@.len() ==> #[trigger] records@[j] == old(records)@[j].spec_with_id(
                    assigned_id(keys.take(p as int), map.values().take(p as int), runs@, old(records)@[j], j),
                ),
        decreases n - p,
    {
        let target = map.value_at(p).index() as usize;
        let updated = records[target].with_id(runs[p]);
        let ghost before = records@;
        records.set(target, updated);
        proof {
            let vp = map.values().take(p as int).map_values(|v: I| v.spec_index() as int);
            let vp1 = map.values().take(p + 1).map_values(|v: I| v.spec_index() as int);
            assert(vp1.drop_last() =~= vp);
            assert(vp1.last() == target as int);
            assert forall|j: int| 0 <= j < old(records)@.len() implies #[trigger] records@[j]
                == old(records)@[j].spec_with_id(
                assigned_id(keys.take(p + 1), map.values().take(p + 1), runs@, old(records)@[j], j),
            ) by {
                let oj = old(records)@[j];
                if j == target {
                    assert(last_position(vp1, j) == Some(p as int));
                    oj.lemma_with_id(assigned_id(keys.take(p as int), map.values().take(p as int), runs@, oj, j), runs@[p as int]);
                } else {
                    assert(last_position(vp1, j) == last_position(vp, j));
                }
            }
        }
        p = p + 1;
    }
    let ghost final_runs = runs@;
    proof {
        assert(map.values().take(n as int) =~= map.values());
        assert(keys.take(n as int) =~= keys);
        assert forall|j: int| 0 <= j < old(records)@.len() implies (#[trigger] records@[j]).spec_id().spec_start()
            + records@[j].spec_id().spec_count() <= concat(keys).len() by {
            let oj = old(records)@[j];
            oj.lemma_with_id(assigned_id(keys, map.values(), runs@, oj, j), oj.spec_id());
            match last_position(vals, j) {
                Some(q) => {
                    lemma_last_position(vals, j);
                    lemma_concat_take(keys, q);
                    R::Id::lemma_none_is_empty();
                    assert(packed_run(keys, q, runs@[q]));
                },
                None => {
                    lemma_last_position(vals, j);
                    if names_record(map, j) {
                        let q = choose|q: int| 0 <= q < map.values().len() && (#[trigger] map.values()[q]).spec_index() == j;
                        assert(vals[q] == j);
                    }
                },
            }
        }
    }
    let mut id_runs: Vec<R::Id> = Vec::new();
    let mut k: usize = 0;
    while k < records.len()
        invariant
            k <= records@.len() <= u32::MAX,
            id_runs@.len() == k,
            forall|m: int| 0 <= m < k ==> #[trigger] id_runs@[m] == records@[m].spec_id(),
        decreases records@.len() - k,
    {
        id_runs.push(records[k].id());
        k = k + 1;
    }
    let order = order_by_text(&id_runs, text.as_str().as_bytes());
    let mut lookup: Vec<I> = Vec::new();
    let mut m: usize = 0;
    while m < order.len()
        invariant
            m <= order@.len(),
            lookup@.len() == m,
            forall|q: int| 0 <= q < m ==> (#[trigger] lookup@[q]).spec_index() == order@[q],
        decreases order@.len() - m,
    {
        lookup.push(I::from_index(order[m]));
        m = m + 1;
    }
    proof {
        assert forall|a: int, b: int| 0 <= a < b < lookup@.len() implies lookup@[a] != lookup@[b] by {
            assert(lookup@[a].spec_index() == order@[a]);
            assert(lookup@[b].spec_index() == order@[b]);
        }
        assert forall|a: int, b: int| 0 <= a < b < lookup@.len() implies lex_le(
            run_text(concat(keys), records@[lookup@[a].spec_index() as int].spec_id()),
            run_text(concat(keys), records@[lookup@[b].spec_index() as int].spec_id()),
        ) by {
            assert(lookup@[a].spec_index() == order@[a]);
            assert(lookup@[b].spec_index() == order@[b]);
            assert(id_runs@[order@[a] as int] == records@[order@[a] as int].spec_id());
            assert(id_runs@[order@[b] as int] == records@[order@[b] as int].spec_id());
        }
        assert(ids_assigned(map, old_records, records@, lookup@, encode_utf8(text@)));
    }
    (lookup, text)
}

/// What `last_position` gives: a position holding `a`, after which `a` does
/// not occur.
pub proof fn lemma_last_position<A>(s: Seq<A>, a: A)
    ensures
        match last_position(s, a) {
            Some(j) => 0 <= j < s.len() && s[j] == a,
            None => forall|m: int| 0 <= m < s.len() ==> s[m] != a,
        },
    decreases s.len(),
{
    if s.len() > 0 {
        lemma_last_position(s.drop_last(), a);
        if s.last() != a {
            match last_position(s.drop_last(), a) {
                Some(j) => {
                    assert(s[j] == s.drop_last()[j]);
                },
                None => {
                    assert forall|m: int| 0 <= m < s.len() implies s[m] != a by {
                        if m < s.len() - 1 {
                            assert(s[m] == s.drop_last()[m]);
                        }
                    }
                },
            }
        }
    }
}

} // verus!
