//! Building the services table and the bit mask of the days each service runs.

use vstd::prelude::*;
use vstd::utf8::encode_utf8;

use crate::bits::{bits_into_bytes, bits_len, bits_replace, bits_repeat, bits_resize, mask_bits, mask_head, msb_bit, ActiveMask};
use crate::compiler::feed::{utf8, RawCalendar, RawCalendarDate};
use crate::compiler::ids::{build_ids, ids_assigned, ids_buildable};
use crate::models::date::Date;
use crate::models::idx::ServiceIdx;
use crate::models::sentinel::Sentinel;
use crate::models::service::Service;
use crate::models::slice::{ServiceBinarySlice, ServiceIdSlice};
use crate::models::weekday::Weekday;
use crate::text_map::{find, first_seen, last_index, lemma_find_unique, lemma_first_seen, lemma_last_index, TextMap};

verus! {

/// The service identifiers of the calendar rows.
pub open spec fn calendar_ids(cal: Seq<RawCalendar>) -> Seq<Seq<u8>> {
    cal.map_values(|c: RawCalendar| utf8(c.id))
}

/// The service identifiers of the calendar dates.
pub open spec fn date_ids(dates: Seq<RawCalendarDate>) -> Seq<Seq<u8>> {
    dates.map_values(|d: RawCalendarDate| utf8(d.service_id))
}

/// The identifiers of calendar dates whose service has no calendar row, each
/// once, in the order of first occurrence.
pub open spec fn extra_ids(cal: Seq<RawCalendar>, dates: Seq<RawCalendarDate>) -> Seq<Seq<u8>> {
    first_seen(date_ids(dates).filter(|x: Seq<u8>| !calendar_ids(cal).contains(x)))
}

/// The identifier of every service: the calendar rows, then the services
/// known only from calendar dates.
pub open spec fn service_ids_of(cal: Seq<RawCalendar>, dates: Seq<RawCalendarDate>) -> Seq<Seq<u8>> {
    calendar_ids(cal) + extra_ids(cal, dates)
}

/// The service that identifier `x` names: the last one carrying it.
pub open spec fn service_index(cal: Seq<RawCalendar>, dates: Seq<RawCalendarDate>, x: Seq<u8>) -> Option<int> {
    last_index(service_ids_of(cal, dates), x)
}

/// The days of the week of a calendar row, Monday the lowest bit.
pub open spec fn weekdays_of(c: RawCalendar) -> Weekday {
    Weekday(
        ((if c.monday { 1int } else { 0 }) + (if c.tuesday { 2int } else { 0 }) + (if c.wednesday {
            4int
        } else {
            0
        }) + (if c.thursday { 8int } else { 0 }) + (if c.friday { 16int } else { 0 }) + (if c.saturday {
            32int
        } else {
            0
        }) + (if c.sunday { 64int } else { 0 })) as u8,
    )
}

/// The weekdays of a calendar row hold day `d` (0 is Monday, 6 is Sunday)
/// exactly where the row runs on that day of the week, and no other day.
pub proof fn lemma_weekdays_of_days(c: RawCalendar)
    ensures
        weekdays_of(c).has_day(0) == c.monday,
        weekdays_of(c).has_day(1) == c.tuesday,
        weekdays_of(c).has_day(2) == c.wednesday,
        weekdays_of(c).has_day(3) == c.thursday,
        weekdays_of(c).has_day(4) == c.friday,
        weekdays_of(c).has_day(5) == c.saturday,
        weekdays_of(c).has_day(6) == c.sunday,
        !weekdays_of(c).has_day(7),
{
    let (a, b, d, e, f, g, h) = (c.monday, c.tuesday, c.wednesday, c.thursday, c.friday, c.saturday, c.sunday);
    let x: u8 = weekdays_of(c).0;
    let v: u8 = (if a { 1u8 } else { 0u8 }) | (if b { 2u8 } else { 0u8 }) | (if d { 4u8 } else { 0u8 }) | (if e {
        8u8
    } else {
        0u8
    }) | (if f { 16u8 } else { 0u8 }) | (if g { 32u8 } else { 0u8 }) | (if h { 64u8 } else { 0u8 });
    assert(x == v) by {
        assert((if a { 1u8 } else { 0u8 }) + (if b { 2u8 } else { 0u8 }) + (if d { 4u8 } else { 0u8 }) + (if e {
            8u8
        } else {
            0u8
        }) + (if f { 16u8 } else { 0u8 }) + (if g { 32u8 } else { 0u8 }) + (if h { 64u8 } else { 0u8 }) == v)
            by (bit_vector)
            requires
                v == (if a { 1u8 } else { 0u8 }) | (if b { 2u8 } else { 0u8 }) | (if d { 4u8 } else { 0u8 }) | (if e {
                    8u8
                } else {
                    0u8
                }) | (if f { 16u8 } else { 0u8 }) | (if g { 32u8 } else { 0u8 }) | (if h { 64u8 } else { 0u8 }),
        ;
    }
    assert((v & (1u8 << 0u8)) != 0 <==> a) by (bit_vector)
        requires v == (if a { 1u8 } else { 0u8 }) | (if b { 2u8 } else { 0u8 }) | (if d { 4u8 } else { 0u8 }) | (if e { 8u8 } else { 0u8 }) | (if f { 16u8 } else { 0u8 }) | (if g { 32u8 } else { 0u8 }) | (if h { 64u8 } else { 0u8 });
    assert((v & (1u8 << 1u8)) != 0 <==> b) by (bit_vector)
        requires v == (if a { 1u8 } else { 0u8 }) | (if b { 2u8 } else { 0u8 }) | (if d { 4u8 } else { 0u8 }) | (if e { 8u8 } else { 0u8 }) | (if f { 16u8 } else { 0u8 }) | (if g { 32u8 } else { 0u8 }) | (if h { 64u8 } else { 0u8 });
    assert((v & (1u8 << 2u8)) != 0 <==> d) by (bit_vector)
        requires v == (if a { 1u8 } else { 0u8 }) | (if b { 2u8 } else { 0u8 }) | (if d { 4u8 } else { 0u8 }) | (if e { 8u8 } else { 0u8 }) | (if f { 16u8 } else { 0u8 }) | (if g { 32u8 } else { 0u8 }) | (if h { 64u8 } else { 0u8 });
    assert((v & (1u8 << 3u8)) != 0 <==> e) by (bit_vector)
        requires v == (if a { 1u8 } else { 0u8 }) | (if b { 2u8 } else { 0u8 }) | (if d { 4u8 } else { 0u8 }) | (if e { 8u8 } else { 0u8 }) | (if f { 16u8 } else { 0u8 }) | (if g { 32u8 } else { 0u8 }) | (if h { 64u8 } else { 0u8 });
    assert((v & (1u8 << 4u8)) != 0 <==> f) by (bit_vector)
        requires v == (if a { 1u8 } else { 0u8 }) | (if b { 2u8 } else { 0u8 }) | (if d { 4u8 } else { 0u8 }) | (if e { 8u8 } else { 0u8 }) | (if f { 16u8 } else { 0u8 }) | (if g { 32u8 } else { 0u8 }) | (if h { 64u8 } else { 0u8 });
    assert((v & (1u8 << 5u8)) != 0 <==> g) by (bit_vector)
        requires v == (if a { 1u8 } else { 0u8 }) | (if b { 2u8 } else { 0u8 }) | (if d { 4u8 } else { 0u8 }) | (if e { 8u8 } else { 0u8 }) | (if f { 16u8 } else { 0u8 }) | (if g { 32u8 } else { 0u8 }) | (if h { 64u8 } else { 0u8 });
    assert((v & (1u8 << 6u8)) != 0 <==> h) by (bit_vector)
        requires v == (if a { 1u8 } else { 0u8 }) | (if b { 2u8 } else { 0u8 }) | (if d { 4u8 } else { 0u8 }) | (if e { 8u8 } else { 0u8 }) | (if f { 16u8 } else { 0u8 }) | (if g { 32u8 } else { 0u8 }) | (if h { 64u8 } else { 0u8 });
    assert((v & (1u8 << 7u8)) == 0) by (bit_vector)
        requires v == (if a { 1u8 } else { 0u8 }) | (if b { 2u8 } else { 0u8 }) | (if d { 4u8 } else { 0u8 }) | (if e { 8u8 } else { 0u8 }) | (if f { 16u8 } else { 0u8 }) | (if g { 32u8 } else { 0u8 }) | (if h { 64u8 } else { 0u8 });
}

/// The first and last day of service `k`, as its calendar row gives them and
/// as the dates of `dates` that name it extend them.
pub open spec fn date_range(
    cal: Seq<RawCalendar>,
    all_dates: Seq<RawCalendarDate>,
    dates: Seq<RawCalendarDate>,
    k: int,
) -> Option<(u32, u32)>
    decreases dates.len(),
{
    if dates.len() == 0 {
        if 0 <= k < cal.len() {
            Some((cal[k].start_date.0, cal[k].end_date.0))
        } else {
            None
        }
    } else {
        let prev = date_range(cal, all_dates, dates.drop_last(), k);
        let cd = dates.last();
        if service_index(cal, all_dates, utf8(cd.service_id)) == Some(k) {
            match prev {
                None => Some((cd.date.0, cd.date.0)),
                Some(r) => if cd.date.0 < r.0 {
                    Some((cd.date.0, r.1))
                } else if r.1 < cd.date.0 {
                    Some((r.0, cd.date.0))
                } else {
                    Some(r)
                },
            }
        } else {
            prev
        }
    }
}

/// Service `k` before its bit mask is placed.
pub open spec fn collected_service(cal: Seq<RawCalendar>, dates: Seq<RawCalendarDate>, k: int) -> Service {
    let r = date_range(cal, dates, dates, k)->0;
    Service {
        id: ServiceIdSlice::spec_none(),
        active_mask: ServiceBinarySlice::spec_none(),
        idx: ServiceIdx(k as u32),
        start_date: Date(r.0),
        end_date: Date(r.1),
        weekdays: if 0 <= k < cal.len() {
            weekdays_of(cal[k])
        } else {
            Weekday(0)
        },
    }
}

/// The range a calendar row gives its service before any date: its own, or
/// an empty one for a service known only from dates.
pub open spec fn base_bounds_of(cal: Seq<RawCalendar>, k: int) -> (Date, Date) {
    if 0 <= k < cal.len() {
        (cal[k].start_date, cal[k].end_date)
    } else {
        (Date(u32::MAX), Date(0))
    }
}

/// The position of every service, as an index.
pub open spec fn service_positions(n: nat) -> Seq<ServiceIdx> {
    Seq::new(n, |j: int| ServiceIdx(j as u32))
}

/// The days of the week of a calendar row.
fn weekdays_from(c: &RawCalendar) -> (r: Weekday)
    ensures
        r == weekdays_of(*c),
{
    let mut v: u8 = 0;
    if c.monday {
        v = v + 1;
    }
    if c.tuesday {
        v = v + 2;
    }
    if c.wednesday {
        v = v + 4;
    }
    if c.thursday {
        v = v + 8;
    }
    if c.friday {
        v = v + 16;
    }
    if c.saturday {
        v = v + 32;
    }
    if c.sunday {
        v = v + 64;
    }
    Weekday(v)
}

/// The identifiers of calendar dates, one more date at a time: the known
/// identifiers stay in place, and an identifier not yet known is added last.
proof fn lemma_service_ids_step(cal: Seq<RawCalendar>, dates: Seq<RawCalendarDate>, n: int)
    requires
        0 <= n < dates.len(),
    ensures
        ({
            let ids0 = service_ids_of(cal, dates.take(n));
            let ids1 = service_ids_of(cal, dates.take(n + 1));
            let x = utf8(dates[n].service_id);
            if ids0.contains(x) {
                ids1 == ids0
            } else {
                ids1 == ids0.push(x)
            }
        }),
{
    let x = utf8(dates[n].service_id);
    let pred = |y: Seq<u8>| !calendar_ids(cal).contains(y);
    assert(date_ids(dates.take(n + 1)) =~= date_ids(dates.take(n)).push(x));
    reveal(Seq::filter);
    let f0 = date_ids(dates.take(n)).filter(pred);
    assert(date_ids(dates.take(n + 1)).drop_last() =~= date_ids(dates.take(n)));
    let f1 = date_ids(dates.take(n + 1)).filter(pred);
    assert(f1 == if pred(x) { f0.push(x) } else { f0 });
    assert(f0.push(x).drop_last() =~= f0);
    lemma_first_seen(f0);
    let ids0 = service_ids_of(cal, dates.take(n));
    if ids0.contains(x) {
        if calendar_ids(cal).contains(x) {
        } else {
            let i = choose|i: int| 0 <= i < ids0.len() && ids0[i] == x;
            if i < calendar_ids(cal).len() {
                assert(calendar_ids(cal)[i] == x);
            }
            assert(first_seen(f0)[i - calendar_ids(cal).len()] == x);
            assert(first_seen(f0).contains(x));
        }
    } else {
        if calendar_ids(cal).contains(x) {
            let i = choose|i: int| 0 <= i < calendar_ids(cal).len() && calendar_ids(cal)[i] == x;
            assert(ids0[i] == x);
        }
        if first_seen(f0).contains(x) {
            let i = choose|i: int| 0 <= i < first_seen(f0).len() && first_seen(f0)[i] == x;
            assert(ids0[calendar_ids(cal).len() + i] == x);
        }
        assert(service_ids_of(cal, dates.take(n + 1)) =~= ids0.push(x));
    }
}

/// Every calendar date names a service.
proof fn lemma_date_ids_known(cal: Seq<RawCalendar>, dates: Seq<RawCalendarDate>, j: int)
    requires
        0 <= j < dates.len(),
    ensures
        service_ids_of(cal, dates).contains(utf8(dates[j].service_id)),
{
    let x = utf8(dates[j].service_id);
    let pred = |y: Seq<u8>| !calendar_ids(cal).contains(y);
    let ids = service_ids_of(cal, dates);
    if calendar_ids(cal).contains(x) {
        let i = choose|i: int| 0 <= i < calendar_ids(cal).len() && calendar_ids(cal)[i] == x;
        assert(ids[i] == x);
    } else {
        let di = date_ids(dates);
        assert(di[j] == x);
        di.filter_lemma(pred);
        assert(di.filter(pred).contains(x)) by {
            assert(pred(di[j]));
        }
        lemma_first_seen(di.filter(pred));
        let i = choose|i: int| 0 <= i < extra_ids(cal, dates).len() && extra_ids(cal, dates)[i] == x;
        assert(ids[calendar_ids(cal).len() + i] == x);
    }
}

/// Adding a text after all others does not move the last place of another.
proof fn lemma_last_index_push(ids: Seq<Seq<u8>>, y: Seq<u8>, x: Seq<u8>)
    ensures
        last_index(ids.push(y), x) == if x == y {
            Some(ids.len() as int)
        } else {
            last_index(ids, x)
        },
{
    assert(ids.push(y).drop_last() =~= ids);
}

/// Ranges only depend on where the dates' identifiers lead.
proof fn lemma_date_range_agree(
    cal: Seq<RawCalendar>,
    a1: Seq<RawCalendarDate>,
    a2: Seq<RawCalendarDate>,
    p: Seq<RawCalendarDate>,
    k: int,
)
    requires
        forall|j: int|
            0 <= j < p.len() ==> service_index(cal, a1, utf8((#[trigger] p[j]).service_id)) == service_index(
                cal,
                a2,
                utf8(p[j].service_id),
            ),
    ensures
        date_range(cal, a1, p, k) == date_range(cal, a2, p, k),
    decreases p.len(),
{
    if p.len() > 0 {
        assert forall|j: int| 0 <= j < p.drop_last().len() implies service_index(
            cal,
            a1,
            utf8((#[trigger] p.drop_last()[j]).service_id),
        ) == service_index(cal, a2, utf8(p.drop_last()[j].service_id)) by {
            assert(p.drop_last()[j] == p[j]);
        }
        lemma_date_range_agree(cal, a1, a2, p.drop_last(), k);
        assert(p.last() == p[p.len() - 1]);
    }
}

/// A service known only from dates has no range before a date names it.
proof fn lemma_date_range_unnamed(cal: Seq<RawCalendar>, a: Seq<RawCalendarDate>, p: Seq<RawCalendarDate>, k: int)
    requires
        k >= cal.len(),
        forall|j: int| 0 <= j < p.len() ==> service_index(cal, a, utf8((#[trigger] p[j]).service_id)) != Some(k),
    ensures
        date_range(cal, a, p, k) is None,
    decreases p.len(),
{
    if p.len() > 0 {
        assert forall|j: int| 0 <= j < p.drop_last().len() implies service_index(
            cal,
            a,
            utf8((#[trigger] p.drop_last()[j]).service_id),
        ) != Some(k) by {
            assert(p.drop_last()[j] == p[j]);
        }
        lemma_date_range_unnamed(cal, a, p.drop_last(), k);
        assert(p.last() == p[p.len() - 1]);
    }
}

/// Collects the services: one per calendar row, then one per service known
/// only from calendar dates; each date widens the range of its service.
#[verifier::rlimit(40)]
#[verifier::spinoff_prover]
fn collect_services(cal: &[RawCalendar], dates: &[RawCalendarDate]) -> (r: (
    Vec<Service>,
    TextMap<ServiceIdx>,
    Vec<(Date, Date)>,
))
    requires
        cal@.len() + dates@.len() < u32::MAX,
    ensures
        r.1.wf(),
        r.1.indexes(service_ids_of(cal@, dates@), service_positions(service_ids_of(cal@, dates@).len())),
        r.0@.len() == service_ids_of(cal@, dates@).len(),
        r.0@.len() <= cal@.len() + dates@.len(),
        r.2@.len() == r.0@.len(),
        forall|k: int| 0 <= k < r.0@.len() ==> date_range(cal@, dates@, dates@, k) is Some,
        forall|k: int| 0 <= k < r.0@.len() ==> #[trigger] r.0@[k] == collected_service(cal@, dates@, k),
        forall|k: int| 0 <= k < r.2@.len() ==> #[trigger] r.2@[k] == base_bounds_of(cal@, k),
{
    let ghost cids = calendar_ids(cal@);
    let ghost pos = service_positions((cal@.len() + dates@.len()) as nat);
    let mut id_map: TextMap<ServiceIdx> = TextMap::new();
    let mut services: Vec<Service> = Vec::new();
    let mut base_bounds: Vec<(Date, Date)> = Vec::new();
    proof {
        id_map.lemma_indexes_empty();
        assert(cids.take(0) =~= Seq::<Seq<u8>>::empty());
        assert(pos.take(0) =~= Seq::<ServiceIdx>::empty());
    }
    let mut i: usize = 0;
    while i < cal.len()
        invariant
            i <= cal@.len(),
            cal@.len() + dates@.len() < u32::MAX,
            cids == calendar_ids(cal@),
            pos == service_positions((cal@.len() + dates@.len()) as nat),
            id_map.wf(),
            id_map.indexes(cids.take(i as int), pos.take(i as int)),
            services@.len() == i,
            base_bounds@.len() == i,
            forall|k: int| 0 <= k < i ==> #[trigger] services@[k] == (Service {
                id: ServiceIdSlice::spec_none(),
                active_mask: ServiceBinarySlice::spec_none(),
                idx: ServiceIdx(k as u32),
                start_date: cal@[k].start_date,
                end_date: cal@[k].end_date,
                weekdays: weekdays_of(cal@[k]),
            }),
            forall|k: int| 0 <= k < i ==> #[trigger] base_bounds@[k] == base_bounds_of(cal@, k),
        decreases cal@.len() - i,
    {
        let c = &cal[i];
        let idx = ServiceIdx(i as u32);
        let ghost map0 = id_map;
        id_map.insert(c.id.as_str(), idx);
        proof {
            id_map.lemma_indexes_insert(&map0, cids.take(i as int), pos.take(i as int), utf8(c.id), idx);
            assert(cids.take(i as int).push(utf8(c.id)) =~= cids.take(i + 1));
            assert(pos.take(i as int).push(idx) =~= pos.take(i + 1));
        }
        base_bounds.push((c.start_date, c.end_date));
        services.push(Service {
            id: ServiceIdSlice::none(),
            active_mask: ServiceBinarySlice::none(),
            idx,
            start_date: c.start_date,
            end_date: c.end_date,
            weekdays: weekdays_from(c),
        });
        i = i + 1;
    }
    proof {
        assert(cids.take(i as int) =~= cids);
        assert(dates@.take(0) =~= Seq::<RawCalendarDate>::empty());
        reveal(Seq::filter);
        assert(date_ids(Seq::<RawCalendarDate>::empty()) =~= Seq::<Seq<u8>>::empty());
        assert(extra_ids(cal@, dates@.take(0)) =~= Seq::<Seq<u8>>::empty());
        assert(service_ids_of(cal@, dates@.take(0)) =~= cids);
        assert(service_positions(cids.len()) =~= pos.take(cids.len() as int));
        assert forall|k: int| 0 <= k < services@.len() implies date_range(cal@, dates@.take(0), dates@.take(0), k)
            == Some((cal@[k].start_date.0, cal@[k].end_date.0)) by {
        }
    }
    let mut n: usize = 0;
    while n < dates.len()
        invariant
            n <= dates@.len(),
            cal@.len() + dates@.len() < u32::MAX,
            id_map.wf(),
            id_map.indexes(
                service_ids_of(cal@, dates@.take(n as int)),
                service_positions(service_ids_of(cal@, dates@.take(n as int)).len()),
            ),
            services@.len() == service_ids_of(cal@, dates@.take(n as int)).len(),
            services@.len() <= cal@.len() + n,
            base_bounds@.len() == services@.len(),
            forall|k: int| 0 <= k < base_bounds@.len() ==> #[trigger] base_bounds@[k] == base_bounds_of(cal@, k),
            forall|k: int|
                0 <= k < services@.len() ==> #[trigger] services@[k] == collected_service(
                    cal@,
                    dates@.take(n as int),
                    k,
                ) && date_range(cal@, dates@.take(n as int), dates@.take(n as int), k) is Some,
        decreases dates@.len() - n,
    {
        let cd = &dates[n];
        let ghost a0 = dates@.take(n as int);
        let ghost a1 = dates@.take(n + 1);
        let ghost ids0 = service_ids_of(cal@, a0);
        let ghost x = utf8(cd.service_id);
        proof {
            lemma_service_ids_step(cal@, dates@, n as int);
            assert(a1.drop_last() =~= a0);
            assert(a1.last() == *cd);
            assert forall|j: int| 0 <= j < a0.len() implies service_index(cal@, a1, utf8((#[trigger] a0[j]).service_id))
                == service_index(cal@, a0, utf8(a0[j].service_id)) by {
                lemma_date_ids_known(cal@, a0, j);
                lemma_last_index_push(ids0, x, utf8(a0[j].service_id));
            }
        }
        let ghost services0 = services@;
        match id_map.get(cd.service_id.as_str().as_bytes()) {
            Some(idx) => {
                let k = idx.0 as usize;
                proof {
                    lemma_last_index(ids0, x);
                    assert(service_index(cal@, a0, x) == Some(k as int));
                }
                let mut service = services[k];
                if cd.date.0 < service.start_date.0 {
                    service.start_date = cd.date;
                } else if service.end_date.0 < cd.date.0 {
                    service.end_date = cd.date;
                }
                services.set(k, service);
                proof {
                    assert forall|q: int| 0 <= q < services@.len() implies date_range(cal@, a1, a1, q) is Some
                        && #[trigger] services@[q] == collected_service(cal@, a1, q) by {
                        lemma_date_range_agree(cal@, a1, a0, a0, q);
                        if q < services0.len() {
                            assert(services0[q] == collected_service(cal@, a0, q));
                        }
                    }
                }
            },
            None => {
                let k = services.len();
                let idx = ServiceIdx(k as u32);
                let ghost map0 = id_map;
                id_map.insert(cd.service_id.as_str(), idx);
                proof {
                    lemma_last_index(ids0, x);
                    assert(!ids0.contains(x));
                    id_map.lemma_indexes_insert(&map0, ids0, service_positions(ids0.len()), x, idx);
                    assert(service_positions(ids0.len()).push(idx) =~= service_positions(ids0.len() + 1));
                    lemma_last_index_push(ids0, x, x);
                }
                base_bounds.push((Date(u32::MAX), Date(0)));
                services.push(Service {
                    id: ServiceIdSlice::none(),
                    active_mask: ServiceBinarySlice::none(),
                    idx,
                    start_date: cd.date,
                    end_date: cd.date,
                    weekdays: Weekday(0),
                });
                proof {
                    assert forall|j: int| 0 <= j < a0.len() implies service_index(cal@, a1, utf8((#[trigger] a0[j]).service_id))
                        != Some(k as int) by {
                        lemma_date_ids_known(cal@, a0, j);
                        lemma_last_index(ids0, utf8(a0[j].service_id));
                    }
                    lemma_date_range_unnamed(cal@, a1, a0, k as int);
                    assert forall|q: int| 0 <= q < services@.len() implies date_range(cal@, a1, a1, q) is Some
                        && #[trigger] services@[q] == collected_service(cal@, a1, q) by {
                        lemma_date_range_agree(cal@, a1, a0, a0, q);
                        if q < services0.len() {
                            assert(services0[q] == collected_service(cal@, a0, q));
                        }
                    }
                }
            },
        }
        proof {
            assert(forall|q: int| 0 <= q < services@.len() ==> #[trigger] services@[q] == collected_service(cal@, a1, q)
                && date_range(cal@, a1, a1, q) is Some);
        }
        n = n + 1;
    }
    proof {
        assert(dates@.take(n as int) =~= dates@);
        assert forall|k: int| 0 <= k < services@.len() implies date_range(cal@, dates@, dates@, k) is Some by {
            assert(services@[k] == collected_service(cal@, dates@, k));
        }
    }
    (services, id_map, base_bounds)
}

/// The number of days from the first to the last day of `s`.
pub open spec fn days_of(s: Service) -> nat {
    (s.end_date.0 - s.start_date.0 + 1) as nat
}

/// The bits that a service with `days` days takes when its bits start at
/// `start`: its days, then zeros up to a multiple of 8 bits, at least one.
pub open spec fn padded_len(start: nat, days: nat) -> nat {
    days + (8 - (start + days) % 8) as nat
}

/// Where the bits of service `k` start: after two zero bits and the bits of
/// all earlier services.
pub open spec fn mask_offset(services: Seq<Service>, k: int) -> nat
    decreases k,
{
    if k <= 0 {
        2
    } else {
        let p = mask_offset(services, k - 1);
        p + padded_len(p, days_of(services[k - 1]))
    }
}

/// A service runs on day `d` before calendar dates are applied: `d` lies
/// within its calendar row's range and its weekday is one of the row's.
pub open spec fn base_runs(bounds: (Date, Date), weekdays: Weekday, d: int) -> bool {
    &&& bounds.0.0 <= d <= bounds.1.0
    &&& weekdays.has_day(((d + 3) % 7) as u8)
}

/// The last calendar date of `dates` that names service `k` on day `d`:
/// whether it adds or removes service.
pub open spec fn last_override(dates: Seq<RawCalendarDate>, map: &TextMap<ServiceIdx>, k: int, d: int) -> Option<bool>
    decreases dates.len(),
{
    if dates.len() == 0 {
        None
    } else {
        let cd = dates.last();
        if map.spec_get(utf8(cd.service_id)) == Some(ServiceIdx(k as u32)) && cd.date.0 == d {
            Some(cd.added)
        } else {
            last_override(dates.drop_last(), map, k, d)
        }
    }
}

/// Service `k` runs on day `d`: as the last calendar date naming it on that
/// day says, or else as its calendar row says.
pub open spec fn runs_on(
    s: Service,
    bounds: (Date, Date),
    dates: Seq<RawCalendarDate>,
    map: &TextMap<ServiceIdx>,
    k: int,
    d: int,
) -> bool {
    match last_override(dates, map, k, d) {
        Some(b) => b,
        None => base_runs(bounds, s.weekdays, d),
    }
}

/// `s` with its run of mask bits.
pub open spec fn with_mask(s: Service, m: ServiceBinarySlice) -> Service {
    Service {
        id: s.id,
        active_mask: m,
        idx: s.idx,
        start_date: s.start_date,
        end_date: s.end_date,
        weekdays: s.weekdays,
    }
}

/// The bits of services `0..k` lie one after the other.
pub proof fn lemma_mask_offset_grows(services: Seq<Service>, j: int, k: int)
    requires
        0 <= j < k,
    ensures
        mask_offset(services, j) + padded_len(mask_offset(services, j), days_of(services[j]))
            <= mask_offset(services, k),
    decreases k - j,
{
    if j < k - 1 {
        lemma_mask_offset_grows(services, j, k - 1);
    }
}

/// Lays out the bits of all services: two zero bits, then for each service
/// the days from its first to its last, padded with zeros to a multiple of
/// 8 bits; a bit is set where the service runs on that day.
#[verifier::rlimit(60)]
#[verifier::spinoff_prover]
fn build_mask(
    services: &mut Vec<Service>,
    base_bounds: &Vec<(Date, Date)>,
    dates: &[RawCalendarDate],
    id_map: &TextMap<ServiceIdx>,
) -> (r: ActiveMask)
    requires
        old(services)@.len() == base_bounds@.len() < u32::MAX,
        forall|k: int|
            0 <= k < old(services)@.len() ==> (#[trigger] old(services)@[k]).start_date.0 <= old(services)@[k].end_date.0
                && old(services)@[k].end_date.0 + 3 <= u32::MAX,
        mask_offset(old(services)@, old(services)@.len() as int) <= u32::MAX,
        mask_offset(old(services)@, old(services)@.len() as int) <= usize::MAX / 8,
        id_map.wf(),
        forall|p: int| 0 <= p < id_map.values().len() ==> (#[trigger] id_map.values()[p]).0 < old(services)@.len(),
        forall|j: int, k: int|
            #![trigger dates@[j], old(services)@[k]]
            0 <= j < dates@.len() && 0 <= k < old(services)@.len() && id_map.spec_get(
                utf8(dates@[j].service_id),
            ) == Some(ServiceIdx(k as u32)) ==> old(services)@[k].start_date.0 <= dates@[j].date.0
                <= old(services)@[k].end_date.0,
    ensures
        final(services)@.len() == old(services)@.len(),
        forall|k: int|
            0 <= k < old(services)@.len() ==> #[trigger] final(services)@[k] == with_mask(
                old(services)@[k],
                ServiceBinarySlice {
                    start: mask_offset(old(services)@, k) as u32,
                    count: padded_len(mask_offset(old(services)@, k), days_of(old(services)@[k])) as u32,
                },
            ),
        mask_head(r) == 0,
        mask_bits(r).len() == mask_offset(old(services)@, old(services)@.len() as int),
        !mask_bits(r)[0],
        !mask_bits(r)[1],
        forall|k: int, o: int|
            #![trigger mask_bits(r)[mask_offset(old(services)@, k) + o], old(services)@[k]]
            0 <= k < old(services)@.len() && 0 <= o < padded_len(
                mask_offset(old(services)@, k),
                days_of(old(services)@[k]),
            ) ==> mask_bits(r)[mask_offset(old(services)@, k) + o] == (o < days_of(old(services)@[k])
                && runs_on(
                old(services)@[k],
                base_bounds@[k],
                dates@,
                id_map,
                k,
                old(services)@[k].start_date.0 + o,
            )),
{
    let ghost svc = old(services)@;
    let count = services.len();
    let mut mask = bits_repeat(false, 2);
    let mut k: usize = 0;
    while k < count
        invariant
            count == svc.len() == services@.len() == base_bounds@.len() < u32::MAX,
            k <= count,
            forall|q: int|
                0 <= q < svc.len() ==> (#[trigger] svc[q]).start_date.0 <= svc[q].end_date.0 && svc[q].end_date.0
                    + 3 <= u32::MAX,
            mask_offset(svc, svc.len() as int) <= u32::MAX,
            mask_offset(svc, svc.len() as int) <= usize::MAX / 8,
            mask_head(mask) == 0,
            mask_bits(mask).len() == mask_offset(svc, k as int),
            !mask_bits(mask)[0],
            !mask_bits(mask)[1],
            forall|q: int|
                0 <= q < k ==> #[trigger] services@[q] == with_mask(
                    svc[q],
                    ServiceBinarySlice {
                        start: mask_offset(svc, q) as u32,
                        count: padded_len(mask_offset(svc, q), days_of(svc[q])) as u32,
                    },
                ),
            forall|q: int| k <= q < count ==> #[trigger] services@[q] == svc[q],
            forall|q: int, o: int|
                #![trigger mask_bits(mask)[mask_offset(svc, q) + o], svc[q]]
                0 <= q < k && 0 <= o < padded_len(mask_offset(svc, q), days_of(svc[q])) ==> mask_bits(mask)[mask_offset(
                    svc,
                    q,
                ) + o] == (o < days_of(svc[q]) && base_runs(base_bounds@[q], svc[q].weekdays, svc[q].start_date.0 + o)),
        decreases count - k,
    {
        let service = services[k];
        proof {
            if k + 1 < count {
                lemma_mask_offset_grows(svc, k as int, count as int);
            }
            assert(mask_offset(svc, k + 1) == mask_offset(svc, k as int) + padded_len(
                mask_offset(svc, k as int),
                days_of(svc[k as int]),
            ));
            if k + 1 == count {
            } else {
                lemma_mask_offset_grows(svc, k as int, count as int);
            }
        }
        let days = (service.end_date.0 - service.start_date.0) as usize + 1;
        let start = bits_len(&mask);
        let padding = 8 - ((start + days) % 8);
        let ghost before_resize = mask_bits(mask);
        bits_resize(&mut mask, start + days + padding, false);
        let (base_start, base_end) = base_bounds[k];
        let first = service.start_date.0;
        let last = service.end_date.0;
        let mut d = first;
        while d <= last
            invariant
                first <= d <= last + 1,
                last + 3 <= u32::MAX,
                start == before_resize.len(),
                days == last - first + 1,
                start + days + padding <= u32::MAX,
                mask_head(mask) == 0,
                mask_bits(mask).len() == start + days + padding,
                mask_bits(mask).subrange(0, start as int) == before_resize,
                forall|o: int|
                    0 <= o < days + padding ==> #[trigger] mask_bits(mask)[start + o] == (o < d - first
                        && base_runs((base_start, base_end), service.weekdays, first + o)),
            decreases last + 1 - d,
        {
            let runs_today = if d >= base_start.0 && d <= base_end.0 {
                service.weekdays.get_day(Date(d).get_day_of_week())
            } else {
                false
            };
            let ghost b0 = mask_bits(mask);
            bits_replace(&mut mask, start + (d - first) as usize, runs_today);
            proof {
                assert(mask_bits(mask).subrange(0, start as int) =~= before_resize) by {
                    assert(b0.subrange(0, start as int) == before_resize);
                }
            }
            d = d + 1;
        }
        let mut s = service;
        s.active_mask = ServiceBinarySlice { start: start as u32, count: (days + padding) as u32 };
        services.set(k, s);
        proof {
            let bits = mask_bits(mask);
            assert forall|q: int, o: int|
                #![trigger mask_bits(mask)[mask_offset(svc, q) + o], svc[q]]
                0 <= q < k + 1 && 0 <= o < padded_len(mask_offset(svc, q), days_of(svc[q])) implies mask_bits(mask)[mask_offset(
                    svc,
                    q,
                ) + o] == (o < days_of(svc[q]) && base_runs(base_bounds@[q], svc[q].weekdays, svc[q].start_date.0 + o)) by {
                if q < k {
                    lemma_mask_offset_grows(svc, q, k as int);
                    assert(bits.subrange(0, start as int)[mask_offset(svc, q) + o] == before_resize[mask_offset(svc, q) + o]);
                } else {
                    assert(bits[start + o] == (o < d - first && base_runs((base_start, base_end), service.weekdays, first + o)));
                }
            }
            assert(bits.subrange(0, start as int)[0] == before_resize[0]);
            assert(bits.subrange(0, start as int)[1] == before_resize[1]);
        }
        k = k + 1;
    }
    proof {
        assert(dates@.take(0) =~= Seq::<RawCalendarDate>::empty());
    }
    let mut n: usize = 0;
    while n < dates.len()
        invariant
            n <= dates@.len(),
            count == svc.len() == services@.len() == base_bounds@.len() < u32::MAX,
            forall|q: int|
                0 <= q < svc.len() ==> (#[trigger] svc[q]).start_date.0 <= svc[q].end_date.0 && svc[q].end_date.0
                    + 3 <= u32::MAX,
            mask_offset(svc, svc.len() as int) <= u32::MAX,
            id_map.wf(),
            forall|p: int| 0 <= p < id_map.values().len() ==> (#[trigger] id_map.values()[p]).0 < svc.len(),
            forall|j: int, q: int|
                #![trigger dates@[j], svc[q]]
                0 <= j < dates@.len() && 0 <= q < svc.len() && id_map.spec_get(utf8(dates@[j].service_id))
                    == Some(ServiceIdx(q as u32)) ==> svc[q].start_date.0 <= dates@[j].date.0 <= svc[q].end_date.0,
            mask_head(mask) == 0,
            mask_bits(mask).len() == mask_offset(svc, count as int),
            !mask_bits(mask)[0],
            !mask_bits(mask)[1],
            forall|q: int|
                0 <= q < count ==> #[trigger] services@[q] == with_mask(
                    svc[q],
                    ServiceBinarySlice {
                        start: mask_offset(svc, q) as u32,
                        count: padded_len(mask_offset(svc, q), days_of(svc[q])) as u32,
                    },
                ),
            forall|q: int, o: int|
                #![trigger mask_bits(mask)[mask_offset(svc, q) + o], svc[q]]
                0 <= q < count && 0 <= o < padded_len(mask_offset(svc, q), days_of(svc[q])) ==> mask_bits(mask)[mask_offset(
                    svc,
                    q,
                ) + o] == (o < days_of(svc[q]) && runs_on(
                    svc[q],
                    base_bounds@[q],
                    dates@.take(n as int),
                    id_map,
                    q,
                    svc[q].start_date.0 + o,
                )),
        decreases dates@.len() - n,
    {
        let cd = &dates[n];
        let ghost m0 = mask;
        let ghost b0 = mask_bits(mask);
        let ghost dn = dates@.take(n as int);
        let ghost dn1 = dates@.take(n + 1);
        proof {
            assert(dn1.drop_last() =~= dn);
            assert(dn1.last() == *cd);
        }
        match id_map.get(cd.service_id.as_str().as_bytes()) {
            Some(idx) => {
                let q = idx.0 as usize;
                proof {
                    id_map.lemma_wf();
                    let fi = find(id_map.keys(), utf8(cd.service_id))->0;
                    assert(id_map.values()[fi].0 < svc.len());
                    assert(dates@[n as int] == *cd);
                    assert(svc[q as int].start_date.0 <= cd.date.0 <= svc[q as int].end_date.0);
                    if q + 1 < count {
                        lemma_mask_offset_grows(svc, q as int, count as int);
                    }
                    assert(mask_offset(svc, q + 1) == mask_offset(svc, q as int) + padded_len(
                        mask_offset(svc, q as int),
                        days_of(svc[q as int]),
                    ));
                }
                let s = services[q];
                let bit = (s.active_mask.start + (cd.date.0 - s.start_date.0)) as usize;
                bits_replace(&mut mask, bit, cd.added);
                proof {
                    assert(bit == mask_offset(svc, q as int) + (cd.date.0 - svc[q as int].start_date.0));
                    assert(id_map.spec_get(utf8(cd.service_id)) == Some(ServiceIdx(q as u32)));
                    assert forall|q2: int, o: int|
                        #![trigger mask_bits(mask)[mask_offset(svc, q2) + o], svc[q2]]
                        0 <= q2 < count && 0 <= o < padded_len(mask_offset(svc, q2), days_of(svc[q2])) implies mask_bits(mask)[mask_offset(
                            svc,
                            q2,
                        ) + o] == (o < days_of(svc[q2]) && runs_on(
                            svc[q2],
                            base_bounds@[q2],
                            dn1,
                            id_map,
                            q2,
                            svc[q2].start_date.0 + o,
                        )) by {
                        let d2 = svc[q2].start_date.0 + o;
                        let at = mask_offset(svc, q2) + o;
                        assert(mask_bits(m0)[at] == (o < days_of(svc[q2]) && runs_on(
                            svc[q2],
                            base_bounds@[q2],
                            dn,
                            id_map,
                            q2,
                            d2,
                        )));
                        if q2 == q && d2 == cd.date.0 {
                            assert(at == bit);
                            assert(last_override(dn1, id_map, q2, d2) == Some(cd.added));
                            assert(mask_bits(mask)[at] == cd.added);
                            assert(o < days_of(svc[q2]));
                        } else {
                            if q2 < q {
                                lemma_mask_offset_grows(svc, q2, q as int);
                            } else if q2 > q {
                                lemma_mask_offset_grows(svc, q as int, q2);
                            }
                            assert(at != bit);
                            if q2 + 1 < count {
                                lemma_mask_offset_grows(svc, q2, count as int);
                            }
                            assert(mask_offset(svc, q2 + 1) == mask_offset(svc, q2) + padded_len(
                                mask_offset(svc, q2),
                                days_of(svc[q2]),
                            ));
                            assert(0 <= at < mask_bits(m0).len());
                            assert(ServiceIdx(q2 as u32) != ServiceIdx(q as u32) || d2 != cd.date.0);
                            assert(last_override(dn1, id_map, q2, d2) == last_override(dn, id_map, q2, d2));
                            assert(mask_bits(mask)[at] == mask_bits(m0)[at]);
                            assert(runs_on(svc[q2], base_bounds@[q2], dn1, id_map, q2, d2) == runs_on(
                                svc[q2],
                                base_bounds@[q2],
                                dn,
                                id_map,
                                q2,
                                d2,
                            ));
                        }
                    }
                }
            },
            None => {
                proof {
                    assert forall|q2: int, o: int|
                        #![trigger mask_bits(mask)[mask_offset(svc, q2) + o], svc[q2]]
                        0 <= q2 < count && 0 <= o < padded_len(mask_offset(svc, q2), days_of(svc[q2])) implies mask_bits(mask)[mask_offset(
                            svc,
                            q2,
                        ) + o] == (o < days_of(svc[q2]) && runs_on(
                            svc[q2],
                            base_bounds@[q2],
                            dn1,
                            id_map,
                            q2,
                            svc[q2].start_date.0 + o,
                        )) by {
                        assert(mask_bits(m0)[mask_offset(svc, q2) + o] == (o < days_of(svc[q2]) && runs_on(
                            svc[q2],
                            base_bounds@[q2],
                            dn,
                            id_map,
                            q2,
                            svc[q2].start_date.0 + o,
                        )));
                    }
                }
            },
        }
        n = n + 1;
    }
    proof {
        assert(dates@.take(n as int) =~= dates@);
    }
    mask
}

/// The last calendar date of `p` that names service `k` on day `d`, as the
/// identifiers of `all` resolve: whether it adds or removes service.
pub open spec fn exception_on(
    cal: Seq<RawCalendar>,
    all: Seq<RawCalendarDate>,
    p: Seq<RawCalendarDate>,
    k: int,
    d: int,
) -> Option<bool>
    decreases p.len(),
{
    if p.len() == 0 {
        None
    } else {
        let cd = p.last();
        if service_index(cal, all, utf8(cd.service_id)) == Some(k) && cd.date.0 == d {
            Some(cd.added)
        } else {
            exception_on(cal, all, p.drop_last(), k, d)
        }
    }
}

/// Every service, before its bit mask is placed.
pub open spec fn collected_services(cal: Seq<RawCalendar>, dates: Seq<RawCalendarDate>) -> Seq<Service> {
    Seq::new(service_ids_of(cal, dates).len(), |k: int| collected_service(cal, dates, k))
}

/// Service `k` runs on day `d`: as the last calendar date naming it on that
/// day says, or else as its calendar row says.
pub open spec fn service_runs(cal: Seq<RawCalendar>, dates: Seq<RawCalendarDate>, k: int, d: int) -> bool {
    match exception_on(cal, dates, dates, k, d) {
        Some(b) => b,
        None => base_runs(base_bounds_of(cal, k), collected_service(cal, dates, k).weekdays, d),
    }
}

/// Every service ends early enough for its days to be counted, and the bits
/// of all of them can be indexed.
pub open spec fn mask_fits(services: Seq<Service>) -> bool {
    &&& forall|k: int| 0 <= k < services.len() ==> (#[trigger] services[k]).end_date.0 + 3 <= u32::MAX
    &&& mask_offset(services, services.len() as int) <= u32::MAX
    &&& mask_offset(services, services.len() as int) <= usize::MAX / 8
}

/// Bit `i` of `bytes`, counting from the most significant bit of the first.
pub open spec fn byte_bit(bytes: Seq<u8>, i: int) -> bool {
    msb_bit(bytes[i / 8], i % 8)
}

/// What `build_services` gives: the services, each with its run of mask
/// bits; the map from identifier to service; and the mask bytes, two zero
/// bits, then each service's days in order, padded to whole bytes.
pub open spec fn services_built(
    cal: Seq<RawCalendar>,
    dates: Seq<RawCalendarDate>,
    services: Seq<Service>,
    map: &TextMap<ServiceIdx>,
    bytes: Seq<u8>,
) -> bool {
    let cs = collected_services(cal, dates);
    &&& map.wf()
    &&& map.indexes(service_ids_of(cal, dates), service_positions(cs.len()))
    &&& services.len() == cs.len()
    &&& forall|k: int|
        0 <= k < cs.len() ==> #[trigger] services[k] == with_mask(
            cs[k],
            ServiceBinarySlice {
                start: mask_offset(cs, k) as u32,
                count: padded_len(mask_offset(cs, k), days_of(cs[k])) as u32,
            },
        )
    &&& bytes.len() == (mask_offset(cs, cs.len() as int) + 7) / 8
    &&& !byte_bit(bytes, 0)
    &&& !byte_bit(bytes, 1)
    &&& forall|k: int, o: int|
        #![trigger byte_bit(bytes, mask_offset(cs, k) + o), cs[k]]
        0 <= k < cs.len() && 0 <= o < padded_len(mask_offset(cs, k), days_of(cs[k])) ==> byte_bit(
            bytes,
            mask_offset(cs, k) + o,
        ) == (o < days_of(cs[k]) && service_runs(cal, dates, k, cs[k].start_date.0 + o))
}

/// Where the map resolves identifiers as `service_index` does, the last
/// calendar date naming a service on a day is the same either way.
proof fn lemma_override_is_exception(
    cal: Seq<RawCalendar>,
    all: Seq<RawCalendarDate>,
    p: Seq<RawCalendarDate>,
    map: &TextMap<ServiceIdx>,
    k: int,
    d: int,
)
    requires
        map.indexes(service_ids_of(cal, all), service_positions(service_ids_of(cal, all).len())),
        service_ids_of(cal, all).len() <= u32::MAX,
        0 <= k < service_ids_of(cal, all).len(),
    ensures
        last_override(p, map, k, d) == exception_on(cal, all, p, k, d),
    decreases p.len(),
{
    if p.len() > 0 {
        let x = utf8(p.last().service_id);
        let ids = service_ids_of(cal, all);
        lemma_last_index(ids, x);
        assert(map.spec_get(x) == match last_index(ids, x) {
            Some(j) => Some(service_positions(ids.len())[j]),
            None => None::<ServiceIdx>,
        });
        lemma_override_is_exception(cal, all, p.drop_last(), map, k, d);
    }
}

/// The calendar can be laid out day by day: once its dates widen it, every
/// service's range runs forward and holds every date that names the service.
pub open spec fn calendar_ordered(cal: Seq<RawCalendar>, dates: Seq<RawCalendarDate>) -> bool {
    let cs = collected_services(cal, dates);
    &&& forall|k: int| 0 <= k < cs.len() ==> (#[trigger] cs[k]).start_date.0 <= cs[k].end_date.0
    &&& forall|j: int|
        0 <= j < dates.len() ==> match service_index(cal, dates, utf8((#[trigger] dates[j]).service_id)) {
            Some(k) => cs[k].start_date.0 <= dates[j].date.0 <= cs[k].end_date.0,
            None => true,
        }
}

/// Whether the calendar can be laid out day by day: once its dates widen
/// them, every service's range runs forward and holds the dates that name
/// the service.
pub fn calendar_fits(calendar: &[RawCalendar], dates: &[RawCalendarDate]) -> (r: bool)
    requires
        calendar@.len() + dates@.len() < u32::MAX,
    ensures
        r == calendar_ordered(calendar@, dates@),
{
    let ghost cal = calendar@;
    let (services, id_map, _bounds) = collect_services(calendar, dates);
    let ghost cs = collected_services(cal, dates@);
    let ghost ids = service_ids_of(cal, dates@);
    proof {
        assert(services@ =~= cs);
    }
    let mut k: usize = 0;
    while k < services.len()
        invariant
            services@ == cs,
            cal == calendar@,
            cs == collected_services(calendar@, dates@),
            k <= cs.len(),
            forall|q: int| 0 <= q < k ==> (#[trigger] cs[q]).start_date.0 <= cs[q].end_date.0,
        decreases cs.len() - k,
    {
        if services[k].start_date.0 > services[k].end_date.0 {
            proof {
                assert(!(cs[k as int].start_date.0 <= cs[k as int].end_date.0));
            }
            return false;
        }
        k = k + 1;
    }
    let mut j: usize = 0;
    while j < dates.len()
        invariant
            services@ == cs,
            cal == calendar@,
            cs == collected_services(cal, dates@),
            ids == service_ids_of(cal, dates@),
            cs.len() == ids.len(),
            ids.len() < u32::MAX,
            id_map.wf(),
            id_map.indexes(ids, service_positions(ids.len())),
            j <= dates@.len(),
            forall|q: int| 0 <= q < cs.len() ==> (#[trigger] cs[q]).start_date.0 <= cs[q].end_date.0,
            forall|i: int|
                0 <= i < j ==> match service_index(cal, dates@, utf8((#[trigger] dates@[i]).service_id)) {
                    Some(q) => cs[q].start_date.0 <= dates@[i].date.0 <= cs[q].end_date.0,
                    None => true,
                },
        decreases dates@.len() - j,
    {
        let d = &dates[j];
        let ghost x = utf8(d.service_id);
        proof {
            lemma_last_index(ids, x);
            assert(id_map.spec_get(x) == match last_index(ids, x) {
                Some(i) => Some(service_positions(ids.len())[i]),
                None => None::<ServiceIdx>,
            });
        }
        match id_map.get(d.service_id.as_str().as_bytes()) {
            Some(idx) => {
                let q = idx.0 as usize;
                proof {
                    let li = last_index(ids, x)->0;
                    assert(service_positions(ids.len())[li] == ServiceIdx(li as u32));
                    assert(li == q);
                    assert(service_index(cal, dates@, x) == Some(q as int));
                }
                let s = services[q];
                if d.date.0 < s.start_date.0 || d.date.0 > s.end_date.0 {
                    proof {
                        assert(dates@[j as int] == *d);
                    }
                    return false;
                }
            },
            None => {},
        }
        proof {
            assert(dates@[j as int] == *d);
            if let Some(li) = last_index(ids, x) {
                assert(service_positions(ids.len())[li] == ServiceIdx(li as u32));
            }
        }
        j = j + 1;
    }
    true
}

/// Builds the services of a calendar and its calendar dates: one service per
/// calendar row, then one per service known only from calendar dates, each
/// date widening the range of its service; then the mask of the days each
/// service runs, which a calendar date adding or removing service on a day
/// overrides. `None` where the mask would hold more bits than can be indexed,
/// or a service ends too close to the last representable day.
pub fn build_services(calendar: &[RawCalendar], dates: &[RawCalendarDate]) -> (r: Option<
    (Vec<Service>, TextMap<ServiceIdx>, Vec<u8>),
>)
    requires
        calendar@.len() + dates@.len() < u32::MAX,
        calendar_ordered(calendar@, dates@),
    ensures
        match r {
            None => !mask_fits(collected_services(calendar@, dates@)),
            Some(built) => mask_fits(collected_services(calendar@, dates@)) && services_built(
                calendar@,
                dates@,
                built.0@,
                &built.1,
                built.2@,
            ) && built.0@.len() <= calendar@.len() + dates@.len(),
        },
{
    let ghost cal = calendar@;
    let (mut services, id_map, base_bounds) = collect_services(calendar, dates);
    let ghost cs = collected_services(cal, dates@);
    proof {
        assert(services@ =~= cs);
    }
    let count = services.len();
    let mut total: u64 = 2;
    let mut k: usize = 0;
    while k < count
        invariant
            count == cs.len() == services@.len(),
            services@ == cs,
            cs == collected_services(calendar@, dates@),
            k <= count,
            total == mask_offset(cs, k as int),
            total <= u32::MAX,
            total <= usize::MAX / 8,
            forall|q: int| 0 <= q < cs.len() ==> (#[trigger] cs[q]).start_date.0 <= cs[q].end_date.0,
            forall|q: int| 0 <= q < k ==> (#[trigger] cs[q]).end_date.0 + 3 <= u32::MAX,
        decreases count - k,
    {
        let s = services[k];
        if s.end_date.0 > u32::MAX - 3 {
            proof {
                assert(cs[k as int].end_date.0 + 3 > u32::MAX);
            }
            return None;
        }
        let days: u64 = (s.end_date.0 - s.start_date.0) as u64 + 1;
        let next: u64 = total + days + (8 - (total + days) % 8);
        proof {
            assert(days == days_of(cs[k as int]));
            assert(mask_offset(cs, k + 1) == next);
            if k + 1 < count {
                lemma_mask_offset_grows(cs, k as int, count as int);
            }
            assert(mask_offset(cs, count as int) >= next);
        }
        if next > 0xffff_ffff || next > (usize::MAX / 8) as u64 {
            return None;
        }
        total = next;
        k = k + 1;
    }
    proof {
        lemma_map_values_bounded(&id_map, service_ids_of(cal, dates@));
        assert forall|j: int, q: int|
            #![trigger dates@[j], services@[q]]
            0 <= j < dates@.len() && 0 <= q < services@.len() && id_map.spec_get(utf8(dates@[j].service_id))
                == Some(ServiceIdx(q as u32)) implies services@[q].start_date.0 <= dates@[j].date.0
                <= services@[q].end_date.0 by {
            let x = utf8(dates@[j].service_id);
            let ids = service_ids_of(cal, dates@);
            lemma_date_ids_known(cal, dates@, j);
            lemma_last_index(ids, x);
            let si = last_index(ids, x)->0;
            assert(id_map.spec_get(x) == Some(service_positions(ids.len())[si]));
            assert(si == q);
            assert(service_index(cal, dates@, x) == Some(q));
            assert(services@[q] == cs[q]);
        }
    }
    let mask = build_mask(&mut services, &base_bounds, dates, &id_map);
    let ghost bits = mask_bits(mask);
    let bytes = bits_into_bytes(mask);
    proof {
        let ids = service_ids_of(cal, dates@);
        assert(byte_bit(bytes@, 0) == bits[0]);
        assert(byte_bit(bytes@, 1) == bits[1]);
        assert forall|q: int, o: int|
            #![trigger byte_bit(bytes@, mask_offset(cs, q) + o), cs[q]]
            0 <= q < cs.len() && 0 <= o < padded_len(mask_offset(cs, q), days_of(cs[q])) implies byte_bit(
                bytes@,
                mask_offset(cs, q) + o,
            ) == (o < days_of(cs[q]) && service_runs(cal, dates@, q, cs[q].start_date.0 + o)) by {
            let at = mask_offset(cs, q) + o;
            if q + 1 < cs.len() {
                lemma_mask_offset_grows(cs, q, cs.len() as int);
            }
            assert(mask_offset(cs, q + 1) == mask_offset(cs, q) + padded_len(mask_offset(cs, q), days_of(cs[q])));
            assert(0 <= at < bits.len());
            assert(byte_bit(bytes@, at) == bits[at]);
            assert(bits[at] == (o < days_of(cs[q]) && runs_on(
                cs[q],
                base_bounds@[q],
                dates@,
                &id_map,
                q,
                cs[q].start_date.0 + o,
            )));
            lemma_override_is_exception(cal, dates@, dates@, &id_map, q, cs[q].start_date.0 + o);
            assert(base_bounds@[q] == base_bounds_of(cal, q));
        }
    }
    Some((services, id_map, bytes))
}

/// A map that resolves identifiers to their positions holds only positions
/// below their count.
proof fn lemma_map_values_bounded(map: &TextMap<ServiceIdx>, ids: Seq<Seq<u8>>)
    requires
        map.wf(),
        map.indexes(ids, service_positions(ids.len())),
        ids.len() <= u32::MAX,
    ensures
        forall|p: int| 0 <= p < map.values().len() ==> (#[trigger] map.values()[p]).0 < ids.len(),
{
    map.lemma_wf();
    lemma_first_seen(ids);
    assert forall|p: int| 0 <= p < map.values().len() implies (#[trigger] map.values()[p]).0 < ids.len() by {
        let key = map.keys()[p];
        lemma_find_unique(map.keys(), key, p);
        assert(first_seen(ids).contains(key));
        lemma_last_index(ids, key);
        assert(map.spec_get(key) == Some(map.values()[p]));
    }
}

/// Packs the service identifiers into one text, gives each service the run
/// of its identifier, and orders the services by identifier text.
pub fn build_service_ids(services: &mut Vec<Service>, service_map: &TextMap<ServiceIdx>) -> (r: (
    Vec<ServiceIdx>,
    String,
))
    requires
        ids_buildable(service_map, old(services)@),
    ensures
        ids_assigned(service_map, old(services)@, final(services)@, r.0@, encode_utf8(r.1@)),
{
    build_ids(services, service_map)
}

} // verus!
