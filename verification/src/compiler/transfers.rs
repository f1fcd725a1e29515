//! Building the transfers table and its lookups by stop.

use vstd::prelude::*;

use crate::compiler::feed::{utf8, RawTransfer};
use crate::compiler::runs::{group_runs, is_lookup};
use crate::compiler::stop_times::is_permutation;
use crate::models::idx::{StopIdx, TransferIdx};
use crate::models::opt::Opt;
use crate::models::sentinel::Sentinel;
use crate::models::slice::TransferSlice;
use crate::models::time::Duration;
use crate::models::transfer::Transfer;
use crate::sorting::{lemma_reordered_positions, par_sort, Ordered};
use crate::text_map::TextMap;

verus! {

/// The rows of `raw` whose two stops are both known; the others are left out.
pub open spec fn kept_transfers(raw: Seq<RawTransfer>, stops: &TextMap<StopIdx>) -> Seq<RawTransfer> {
    raw.filter(
        |t: RawTransfer|
            stops.spec_get(utf8(t.from_stop_id)) is Some && stops.spec_get(utf8(t.to_stop_id)) is Some,
    )
}

/// The transfer built from the kept row `t`.
pub open spec fn transfer_of(t: RawTransfer, stops: &TextMap<StopIdx>) -> Transfer {
    Transfer {
        from_stop_idx: stops.spec_get(utf8(t.from_stop_id))->0,
        to_stop_idx: stops.spec_get(utf8(t.to_stop_id))->0,
        min_transfer_time: match t.min_transfer_time {
            Some(v) => Opt(Duration(v)),
            None => Opt(Duration::spec_none()),
        },
        transfer_type: t.transfer_type,
    }
}

/// The stop each transfer leaves.
pub open spec fn from_keys(ts: Seq<Transfer>) -> Seq<u32> {
    ts.map_values(|t: Transfer| t.from_stop_idx.0)
}

/// The stop each listed transfer reaches.
pub open spec fn to_keys(ts: Seq<Transfer>, order: Seq<TransferIdx>) -> Seq<u32> {
    order.map_values(|i: TransferIdx| ts[i.0 as int].to_stop_idx.0)
}

/// Pairs each value of `keys` with its position, in order.
fn keyed_positions(keys: &Vec<u32>) -> (r: Vec<(u32, u32)>)
    requires
        keys@.len() <= u32::MAX,
    ensures
        r@.len() == keys@.len(),
        forall|m: int| 0 <= m < keys@.len() ==> #[trigger] r@[m] == (keys@[m], m as u32),
{
    let mut r: Vec<(u32, u32)> = Vec::new();
    let mut i: usize = 0;
    while i < keys.len()
        invariant
            i <= keys@.len() <= u32::MAX,
            r@.len() == i,
            forall|m: int| 0 <= m < i ==> #[trigger] r@[m] == (keys@[m], m as u32),
        decreases keys@.len() - i,
    {
        r.push((keys[i], i as u32));
        i = i + 1;
    }
    r
}

/// The positions `0..keys.len()`, ordered by key, and the keys in that order.
fn order_by_key(keys: &Vec<u32>) -> (r: (Vec<u32>, Vec<u32>))
    requires
        keys@.len() <= u32::MAX,
    ensures
        is_permutation(r.0@.map_values(|p: u32| p as int), keys@.len()),
        r.1@.len() == keys@.len(),
        forall|m: int| 0 <= m < r.1@.len() ==> #[trigger] r.1@[m] == keys@[r.0@[m] as int],
        forall|a: int, b: int| 0 <= a < b < r.1@.len() ==> r.1@[a] <= r.1@[b],
{
    let mut pairs = keyed_positions(keys);
    let ghost before = pairs@;
    par_sort(&mut pairs);
    proof {
        lemma_reordered_positions(before, pairs@, |q: (u32, u32)| q.1 as int);
    }
    let mut order: Vec<u32> = Vec::new();
    let mut sorted_keys: Vec<u32> = Vec::new();
    let mut i: usize = 0;
    while i < pairs.len()
        invariant
            i <= pairs@.len(),
            order@.len() == i,
            sorted_keys@.len() == i,
            forall|m: int| 0 <= m < i ==> #[trigger] order@[m] == pairs@[m].1,
            forall|m: int| 0 <= m < i ==> #[trigger] sorted_keys@[m] == pairs@[m].0,
        decreases pairs@.len() - i,
    {
        order.push(pairs[i].1);
        sorted_keys.push(pairs[i].0);
        i = i + 1;
    }
    proof {
        let perm = order@.map_values(|p: u32| p as int);
        assert forall|a: int, b: int| 0 <= a < b < perm.len() implies perm[a] != perm[b] by {
            assert(perm[a] == pairs@[a].1 as int);
            assert(perm[b] == pairs@[b].1 as int);
        }
        assert forall|m: int| 0 <= m < perm.len() implies 0 <= #[trigger] perm[m] < keys@.len() by {
            assert(perm[m] == pairs@[m].1 as int);
        }
        assert forall|m: int| 0 <= m < sorted_keys@.len() implies #[trigger] sorted_keys@[m] == keys@[order@[m] as int] by {
            assert(pairs@[m] == before[pairs@[m].1 as int]);
        }
        assert forall|a: int, b: int| 0 <= a < b < sorted_keys@.len() implies sorted_keys@[a] <= sorted_keys@[b] by {
            assert(pairs@[a].le(pairs@[b]));
        }
    }
    (order, sorted_keys)
}

/// A witness that the transfers are the kept rows in the order `perm`.
proof fn lemma_placed_transfers(ts: Seq<Transfer>, raw: Seq<RawTransfer>, perm: Seq<int>, stop_map: &TextMap<StopIdx>)
    requires
        is_permutation(perm, ts.len()),
        forall|m: int|
            0 <= m < ts.len() ==> #[trigger] ts[m] == transfer_of(kept_transfers(raw, stop_map)[perm[m]], stop_map),
    ensures
        exists|p: Seq<int>|
            #![trigger is_permutation(p, ts.len())]
            {
                &&& is_permutation(p, ts.len())
                &&& forall|m: int|
                    0 <= m < ts.len() ==> #[trigger] ts[m] == transfer_of(kept_transfers(raw, stop_map)[p[m]], stop_map)
            },
{
}

/// The transfers built from the rows whose two stops are known, in the
/// order of the rows.
fn collect_transfers(raw_transfers: &[RawTransfer], stop_map: &TextMap<StopIdx>, stop_count: usize) -> (built: Vec<
    Transfer,
>)
    requires
        stop_map.wf(),
        raw_transfers@.len() <= u32::MAX,
        forall|j: int|
            0 <= j < kept_transfers(raw_transfers@, stop_map).len() ==> transfer_of(
                #[trigger] kept_transfers(raw_transfers@, stop_map)[j],
                stop_map,
            ).from_stop_idx.0 < stop_count && transfer_of(
                kept_transfers(raw_transfers@, stop_map)[j],
                stop_map,
            ).to_stop_idx.0 < stop_count,
    ensures
        built@.len() == kept_transfers(raw_transfers@, stop_map).len(),
        forall|j: int|
            0 <= j < built@.len() ==> #[trigger] built@[j] == transfer_of(kept_transfers(raw_transfers@, stop_map)[j], stop_map),
        forall|j: int|
            0 <= j < built@.len() ==> (#[trigger] built@[j]).from_stop_idx.0 < stop_count && built@[j].to_stop_idx.0
                < stop_count,
{
    let ghost pred = |t: RawTransfer|
        stop_map.spec_get(utf8(t.from_stop_id)) is Some && stop_map.spec_get(utf8(t.to_stop_id)) is Some;
    let mut built: Vec<Transfer> = Vec::new();
    proof {
        reveal(Seq::filter);
        assert(raw_transfers@.take(0) =~= Seq::<RawTransfer>::empty());
    }
    let mut i: usize = 0;
    while i < raw_transfers.len()
        invariant
            i <= raw_transfers@.len() <= u32::MAX,
            pred == (|t: RawTransfer|
                stop_map.spec_get(utf8(t.from_stop_id)) is Some && stop_map.spec_get(utf8(t.to_stop_id)) is Some),
            stop_map.wf(),
            built@.len() == raw_transfers@.take(i as int).filter(pred).len(),
            built@.len() <= i,
            forall|j: int|
                0 <= j < built@.len() ==> #[trigger] built@[j] == transfer_of(
                    raw_transfers@.take(i as int).filter(pred)[j],
                    stop_map,
                ),
        decreases raw_transfers@.len() - i,
    {
        let t = &raw_transfers[i];
        let ghost kept = raw_transfers@.take(i as int).filter(pred);
        proof {
            reveal(Seq::filter);
            assert(raw_transfers@.take(i + 1).drop_last() =~= raw_transfers@.take(i as int));
            assert(raw_transfers@.take(i + 1).last() == *t);
        }
        let from = stop_map.get(t.from_stop_id.as_str().as_bytes());
        let to = stop_map.get(t.to_stop_id.as_str().as_bytes());
        if let (Some(from), Some(to)) = (from, to) {
            let min_transfer_time = match t.min_transfer_time {
                Some(v) => Opt::new(Duration(v)),
                None => Opt::new(Duration::none()),
            };
            built.push(Transfer {
                from_stop_idx: *from,
                to_stop_idx: *to,
                min_transfer_time,
                transfer_type: t.transfer_type,
            });
            proof {
                assert(raw_transfers@.take(i + 1).filter(pred) == kept.push(*t));
            }
        } else {
            proof {
                assert(raw_transfers@.take(i + 1).filter(pred) == kept);
            }
        }
        i = i + 1;
    }
    proof {
        assert(raw_transfers@.take(i as int) =~= raw_transfers@);
        assert forall|j: int| 0 <= j < built@.len() implies (#[trigger] built@[j]).from_stop_idx.0 < stop_count
            && built@[j].to_stop_idx.0 < stop_count by {
            assert(kept_transfers(raw_transfers@, stop_map)[j] == raw_transfers@.filter(pred)[j]);
        }
    }
    built
}

/// `built` ordered by the stop each transfer leaves, and the run of each
/// stop's outbound transfers.
fn order_outbound(built: &Vec<Transfer>, stop_count: usize) -> (r: (Vec<Transfer>, Vec<TransferSlice>))
    requires
        built@.len() <= u32::MAX,
        forall|j: int| 0 <= j < built@.len() ==> (#[trigger] built@[j]).from_stop_idx.0 < stop_count,
    ensures
        r.0@.len() == built@.len(),
        exists|perm: Seq<int>|
            #![trigger is_permutation(perm, built@.len())]
            is_permutation(perm, built@.len()) && forall|m: int|
                0 <= m < built@.len() ==> #[trigger] r.0@[m] == built@[perm[m]],
        forall|a: int, b: int| 0 <= a < b < r.0@.len() ==> r.0@[a].from_stop_idx.0 <= r.0@[b].from_stop_idx.0,
        is_lookup(from_keys(r.0@), r.1@, stop_count as nat),
{
    let mut from_stops: Vec<u32> = Vec::new();
    let mut k: usize = 0;
    while k < built.len()
        invariant
            k <= built@.len(),
            from_stops@.len() == k,
            forall|m: int| 0 <= m < k ==> #[trigger] from_stops@[m] == built@[m].from_stop_idx.0,
        decreases built@.len() - k,
    {
        from_stops.push(built[k].from_stop_idx.0);
        k = k + 1;
    }
    let (out_order, out_keys) = order_by_key(&from_stops);
    let mut transfers: Vec<Transfer> = Vec::new();
    let mut m: usize = 0;
    while m < out_order.len()
        invariant
            m <= out_order@.len() == built@.len(),
            is_permutation(out_order@.map_values(|p: u32| p as int), built@.len()),
            transfers@.len() == m,
            forall|q: int| 0 <= q < m ==> #[trigger] transfers@[q] == built@[out_order@[q] as int],
        decreases out_order@.len() - m,
    {
        assert(out_order@.map_values(|p: u32| p as int)[m as int] == out_order@[m as int] as int);
        transfers.push(built[out_order[m] as usize]);
        m = m + 1;
    }
    let ghost perm = out_order@.map_values(|p: u32| p as int);
    proof {
        assert forall|x: int| 0 <= x < transfers@.len() implies #[trigger] from_keys(transfers@)[x] == out_keys@[x] by {
            assert(perm[x] == out_order@[x] as int);
            assert(transfers@[x] == built@[out_order@[x] as int]);
            assert(from_stops@[out_order@[x] as int] == built@[out_order@[x] as int].from_stop_idx.0);
        }
        assert(from_keys(transfers@) =~= out_keys@);
        assert forall|x: int| 0 <= x < out_keys@.len() implies out_keys@[x] < stop_count by {
            assert(perm[x] == out_order@[x] as int);
        }
        assert forall|a: int, b: int| 0 <= a < b < transfers@.len() implies transfers@[a].from_stop_idx.0
            <= transfers@[b].from_stop_idx.0 by {
            assert(out_keys@[a] <= out_keys@[b]);
        }
        assert forall|x: int| 0 <= x < built@.len() implies #[trigger] transfers@[x] == built@[perm[x]] by {
            assert(perm[x] == out_order@[x] as int);
        }
        assert(is_permutation(perm, built@.len()));
    }
    let out_lookup = group_runs::<TransferSlice>(out_keys.as_slice(), stop_count);
    (transfers, out_lookup)
}

/// The positions of `transfers` ordered by the stop each reaches, and the
/// run of each stop's inbound transfers in that order.
fn order_inbound(transfers: &Vec<Transfer>, stop_count: usize) -> (r: (Vec<TransferIdx>, Vec<TransferSlice>))
    requires
        transfers@.len() <= u32::MAX,
        forall|j: int| 0 <= j < transfers@.len() ==> (#[trigger] transfers@[j]).to_stop_idx.0 < stop_count,
    ensures
        is_permutation(r.0@.map_values(|i: TransferIdx| i.0 as int), transfers@.len()),
        forall|a: int, b: int|
            0 <= a < b < r.0@.len() ==> transfers@[r.0@[a].0 as int].to_stop_idx.0 <= transfers@[r.0@[b].0 as int].to_stop_idx.0,
        is_lookup(to_keys(transfers@, r.0@), r.1@, stop_count as nat),
{
    let mut to_stops: Vec<u32> = Vec::new();
    let mut k2: usize = 0;
    while k2 < transfers.len()
        invariant
            k2 <= transfers@.len(),
            to_stops@.len() == k2,
            forall|q: int| 0 <= q < k2 ==> #[trigger] to_stops@[q] == transfers@[q].to_stop_idx.0,
        decreases transfers@.len() - k2,
    {
        to_stops.push(transfers[k2].to_stop_idx.0);
        k2 = k2 + 1;
    }
    let (in_order, in_keys) = order_by_key(&to_stops);
    let mut inbound: Vec<TransferIdx> = Vec::new();
    let mut q: usize = 0;
    while q < in_order.len()
        invariant
            q <= in_order@.len(),
            inbound@.len() == q,
            forall|x: int| 0 <= x < q ==> #[trigger] inbound@[x] == TransferIdx(in_order@[x]),
        decreases in_order@.len() - q,
    {
        inbound.push(TransferIdx(in_order[q]));
        q = q + 1;
    }
    proof {
        assert(inbound@.map_values(|i: TransferIdx| i.0 as int) =~= in_order@.map_values(|p: u32| p as int));
        assert forall|x: int| 0 <= x < inbound@.len() implies #[trigger] to_keys(transfers@, inbound@)[x] == in_keys@[x] by {
            assert(in_order@.map_values(|p: u32| p as int)[x] == in_order@[x] as int);
            assert(inbound@[x] == TransferIdx(in_order@[x]));
            assert(to_stops@[in_order@[x] as int] == transfers@[in_order@[x] as int].to_stop_idx.0);
        }
        assert(to_keys(transfers@, inbound@) =~= in_keys@);
        assert forall|x: int| 0 <= x < in_keys@.len() implies in_keys@[x] < stop_count by {
            assert(in_order@.map_values(|p: u32| p as int)[x] == in_order@[x] as int);
        }
        assert forall|a: int, b: int| 0 <= a < b < inbound@.len() implies transfers@[inbound@[a].0 as int].to_stop_idx.0
            <= transfers@[inbound@[b].0 as int].to_stop_idx.0 by {
            assert(in_keys@[a] <= in_keys@[b]);
            assert(to_keys(transfers@, inbound@)[a] == in_keys@[a]);
            assert(to_keys(transfers@, inbound@)[b] == in_keys@[b]);
        }
    }
    let in_lookup = group_runs::<TransferSlice>(in_keys.as_slice(), stop_count);
    (inbound, in_lookup)
}

/// Builds the transfers table: rows whose stops are known become transfers,
/// ordered by the stop they leave; then the run of each stop's outbound
/// transfers, the transfers ordered by the stop they reach, and the run of each
/// stop's inbound transfers in that order.
pub fn build_transfers(
    raw_transfers: &[RawTransfer],
    stop_map: &TextMap<StopIdx>,
    stop_count: usize,
) -> (r: (Vec<Transfer>, Vec<TransferSlice>, Vec<TransferIdx>, Vec<TransferSlice>))
    requires
        stop_map.wf(),
        raw_transfers@.len() <= u32::MAX,
        forall|j: int|
            0 <= j < kept_transfers(raw_transfers@, stop_map).len() ==> transfer_of(
                #[trigger] kept_transfers(raw_transfers@, stop_map)[j],
                stop_map,
            ).from_stop_idx.0 < stop_count && transfer_of(
                kept_transfers(raw_transfers@, stop_map)[j],
                stop_map,
            ).to_stop_idx.0 < stop_count,
    ensures
        r.0@.len() == kept_transfers(raw_transfers@, stop_map).len(),
        exists|perm: Seq<int>|
            #![trigger is_permutation(perm, r.0@.len())]
            {
                &&& is_permutation(perm, r.0@.len())
                &&& forall|m: int|
                    0 <= m < r.0@.len() ==> #[trigger] r.0@[m] == transfer_of(
                        kept_transfers(raw_transfers@, stop_map)[perm[m]],
                        stop_map,
                    )
            },
        forall|a: int, b: int| 0 <= a < b < r.0@.len() ==> r.0@[a].from_stop_idx.0 <= r.0@[b].from_stop_idx.0,
        is_lookup(from_keys(r.0@), r.1@, stop_count as nat),
        is_permutation(r.2@.map_values(|i: TransferIdx| i.0 as int), r.0@.len()),
        forall|a: int, b: int|
            0 <= a < b < r.2@.len() ==> r.0@[r.2@[a].0 as int].to_stop_idx.0 <= r.0@[r.2@[b].0 as int].to_stop_idx.0,
        is_lookup(to_keys(r.0@, r.2@), r.3@, stop_count as nat),
{
    let built = collect_transfers(raw_transfers, stop_map, stop_count);
    let (transfers, out_lookup) = order_outbound(&built, stop_count);
    proof {
        let perm = choose|perm: Seq<int>|
            #![trigger is_permutation(perm, built@.len())]
            is_permutation(perm, built@.len()) && forall|m: int|
                0 <= m < built@.len() ==> #[trigger] transfers@[m] == built@[perm[m]];
        assert forall|m: int| 0 <= m < transfers@.len() implies #[trigger] transfers@[m] == transfer_of(
            kept_transfers(raw_transfers@, stop_map)[perm[m]],
            stop_map,
        ) by {
            assert(transfers@[m] == built@[perm[m]]);
        }
        assert forall|j: int| 0 <= j < transfers@.len() implies (#[trigger] transfers@[j]).to_stop_idx.0 < stop_count by {
            assert(transfers@[j] == built@[perm[j]]);
        }
        lemma_placed_transfers(transfers@, raw_transfers@, perm, stop_map);
    }
    let (inbound, in_lookup) = order_inbound(&transfers, stop_count);
    (transfers, out_lookup, inbound, in_lookup)
}

} // verus!
