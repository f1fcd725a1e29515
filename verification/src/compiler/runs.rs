//! Runs of equal keys in sorted tables, and the lookups that find them.

use vstd::multiset::Multiset;
use vstd::prelude::*;

use crate::compiler::feed::{lemma_sum_of_take, sum_of};
use crate::models::slice::Slice;
use crate::models::idx::Idx;
use crate::sorting::{par_sort, sorted, Ordered};

verus! {

/// `keys` never decreases.
pub open spec fn nondecreasing(keys: Seq<u32>) -> bool {
    forall|i: int, j: int| 0 <= i < j < keys.len() ==> keys[i] <= keys[j]
}

/// `g` occurs among `keys`.
pub open spec fn has_key(keys: Seq<u32>, g: int) -> bool {
    exists|k: int| 0 <= k < keys.len() && keys[k] == g
}

/// `s` is the lookup entry for key `g`: the run of positions holding `g`, which
/// lies within `keys`, or the reserved run where no position does.
pub open spec fn run_of<S: Slice>(keys: Seq<u32>, g: int, s: S) -> bool {
    if has_key(keys, g) {
        &&& s.spec_count() > 0
        &&& s.spec_start() + s.spec_count() <= keys.len()
        &&& forall|k: int|
            0 <= k < keys.len() ==> (#[trigger] keys[k] == g <==> s.spec_start() <= k < s.spec_start()
                + s.spec_count())
    } else {
        s == S::spec_none()
    }
}

/// For each key below `n`, the run of positions of `keys` that hold it.
pub open spec fn is_lookup<S: Slice>(keys: Seq<u32>, lookup: Seq<S>, n: nat) -> bool {
    &&& lookup.len() == n
    &&& forall|g: int| 0 <= g < n ==> run_of(keys, g, #[trigger] lookup[g])
}

/// Builds the lookup of the runs of a sorted table: entry `g` is the run of
/// positions holding `g`, or the reserved run where there is none.
pub fn group_runs<S: Slice>(keys: &[u32], n: usize) -> (r: Vec<S>)
    requires
        nondecreasing(keys@),
        forall|k: int| 0 <= k < keys@.len() ==> keys@[k] < n,
        keys@.len() <= u32::MAX,
    ensures
        is_lookup(keys@, r@, n as nat),
{
    proof {
        S::lemma_none_is_empty();
    }
    let mut lookup: Vec<S> = Vec::new();
    let mut g: usize = 0;
    while g < n
        invariant
            g <= n,
            lookup@.len() == g,
            forall|h: int| 0 <= h < g ==> #[trigger] lookup@[h] == S::spec_none(),
        decreases n - g,
    {
        lookup.push(S::none());
        g = g + 1;
    }
    let len = keys.len();
    let mut i: usize = 0;
    while i < len
        invariant
            len == keys@.len() <= u32::MAX,
            i <= len,
            nondecreasing(keys@),
            forall|k: int| 0 <= k < keys@.len() ==> keys@[k] < n,
            S::spec_none().spec_count() == 0,
            lookup@.len() == n,
            0 < i < len ==> keys@[i - 1] < keys@[i as int],
            forall|h: int|
                0 <= h < n ==> #[trigger] lookup@[h] == (if has_key(keys@.take(i as int), h) {
                    lookup@[h]
                } else {
                    S::spec_none()
                }),
            forall|h: int|
                0 <= h < n && has_key(keys@.take(i as int), h) ==> run_of(keys@, h, #[trigger] lookup@[h]),
        decreases len - i,
    {
        let key = keys[i];
        let start = i;
        while i < len && keys[i] == key
            invariant
                len == keys@.len(),
                start <= i <= len,
                start < len,
                keys@[start as int] == key,
                forall|k: int| start <= k < i ==> keys@[k] == key,
            decreases len - i,
        {
            i = i + 1;
        }
        let ghost old_lookup = lookup@;
        let slice = S::from_usize(start, i - start);
        lookup.set(key as usize, slice);
        proof {
            assert forall|k: int| 0 <= k < keys@.len() implies (#[trigger] keys@[k] == key <==> start
                <= k < i) by {
                if k < start {
                    assert(keys@[start - 1] < keys@[start as int]);
                    assert(keys@[k] <= keys@[start - 1]);
                } else if k >= i {
                    assert(keys@[i as int] != key);
                    assert(keys@[start as int] <= keys@[i as int]);
                    assert(keys@[i as int] <= keys@[k]);
                }
            }
            assert(has_key(keys@, key as int));
            assert forall|h: int| 0 <= h < n implies #[trigger] lookup@[h] == (if has_key(
                keys@.take(i as int),
                h,
            ) {
                lookup@[h]
            } else {
                S::spec_none()
            }) && (has_key(keys@.take(i as int), h) ==> run_of(keys@, h, lookup@[h])) by {
                if h == key {
                    assert(keys@.take(i as int)[start as int] == key);
                } else {
                    assert(lookup@[h] == old_lookup[h]);
                    if has_key(keys@.take(i as int), h) {
                        let k = choose|k: int| 0 <= k < keys@.take(i as int).len() && keys@.take(i as int)[k] == h;
                        assert(keys@[k] == h);
                        if k >= start {
                            assert(false);
                        }
                        assert(keys@.take(start as int)[k] == h);
                    } else {
                        if has_key(keys@.take(start as int), h) {
                            let k = choose|k: int| 0 <= k < keys@.take(start as int).len() && keys@.take(start as int)[k] == h;
                            assert(keys@.take(i as int)[k] == h);
                        }
                    }
                }
            }
        }
    }
    proof {
        assert(keys@.take(len as int) =~= keys@);
        assert forall|g: int| 0 <= g < n implies run_of(keys@, g, #[trigger] lookup@[g]) by {
        }
    }
    lookup
}

/// `s` is strictly increasing.
pub open spec fn strictly_increasing(s: Seq<(u32, u32)>) -> bool {
    forall|i: int, j: int|
        0 <= i < j < s.len() ==> s[i].0 < s[j].0 || (s[i].0 == s[j].0 && s[i].1 < s[j].1)
}

/// Removes repeated pairs from a sorted table.
pub fn dedup_sorted(v: &Vec<(u32, u32)>) -> (r: Vec<(u32, u32)>)
    requires
        forall|i: int, j: int|
            0 <= i < j < v@.len() ==> v@[i].0 < v@[j].0 || (v@[i].0 == v@[j].0 && v@[i].1
                <= v@[j].1),
    ensures
        strictly_increasing(r@),
        r@.to_set() == v@.to_set(),
        r@.len() <= v@.len(),
{
    let mut r: Vec<(u32, u32)> = Vec::new();
    let mut i: usize = 0;
    while i < v.len()
        invariant
            i <= v@.len(),
            forall|a: int, b: int|
                0 <= a < b < v@.len() ==> v@[a].0 < v@[b].0 || (v@[a].0 == v@[b].0 && v@[a].1
                    <= v@[b].1),
            strictly_increasing(r@),
            r@.to_set() == v@.take(i as int).to_set(),
            r@.len() <= i,
            i > 0 ==> r@.len() > 0 && r@.last() == v@[i - 1],
        decreases v@.len() - i,
    {
        let p = v[i];
        let ghost before = r@;
        if r.len() == 0 || r[r.len() - 1].0 != p.0 || r[r.len() - 1].1 != p.1 {
            r.push(p);
            proof {
                if before.len() > 0 {
                    assert forall|a: int, b: int| 0 <= a < b < r@.len() implies r@[a].0 < r@[b].0 || (
                    r@[a].0 == r@[b].0 && r@[a].1 < r@[b].1) by {
                        if b == r@.len() - 1 && a < b {
                            if a < before.len() - 1 {
                                assert(before[a].0 < before.last().0 || (before[a].0 == before.last().0
                                    && before[a].1 < before.last().1));
                            }
                        }
                    }
                }
            }
        }
        proof {
            assert(v@.take(i + 1) =~= v@.take(i as int).push(p));
            v@.take(i as int).lemma_push_to_set_commute(p);
            if r@.len() == before.len() {
                assert(r@ == before);
                assert(before[before.len() - 1] == p);
                assert(before.to_set().contains(p));
                assert(before.to_set().insert(p) =~= before.to_set());
            } else {
                before.lemma_push_to_set_commute(p);
                assert(r@ == before.push(p));
            }
        }
        i = i + 1;
    }
    proof {
        assert(v@.take(i as int) =~= v@);
    }
    r
}

/// The distinct pairs of `pairs`, in increasing order.
pub fn sorted_unique_pairs(pairs: Vec<(u32, u32)>) -> (r: Vec<(u32, u32)>)
    ensures
        strictly_increasing(r@),
        r@.to_set() == pairs@.to_set(),
        r@.len() <= pairs@.len(),
{
    let mut sorted_pairs = pairs;
    par_sort(&mut sorted_pairs);
    proof {
        assert forall|a: (u32, u32)| sorted_pairs@.to_set().contains(a) == pairs@.to_set().contains(a) by {
            vstd::seq_lib::to_multiset_contains(sorted_pairs@, a);
            vstd::seq_lib::to_multiset_contains(pairs@, a);
        }
        assert(sorted_pairs@.to_set() =~= pairs@.to_set());
        assert(sorted_pairs@.len() == pairs@.len()) by {
            vstd::seq_lib::to_multiset_len(sorted_pairs@);
            vstd::seq_lib::to_multiset_len(pairs@);
        }
        assert forall|i: int, j: int| 0 <= i < j < sorted_pairs@.len() implies sorted_pairs@[i].0
            < sorted_pairs@[j].0 || (sorted_pairs@[i].0 == sorted_pairs@[j].0 && sorted_pairs@[i].1
            <= sorted_pairs@[j].1) by {
            assert(sorted_pairs@[i].le(sorted_pairs@[j]));
        }
    }
    dedup_sorted(&sorted_pairs)
}

/// The first halves of `pairs`.
pub open spec fn firsts(pairs: Seq<(u32, u32)>) -> Seq<u32> {
    pairs.map_values(|q: (u32, u32)| q.0)
}

/// The first half of each pair.
pub fn first_of_pairs(pairs: &Vec<(u32, u32)>) -> (r: Vec<u32>)
    ensures
        r@ == firsts(pairs@),
{
    let mut r: Vec<u32> = Vec::new();
    let mut i: usize = 0;
    while i < pairs.len()
        invariant
            i <= pairs@.len(),
            r@ == firsts(pairs@.take(i as int)),
        decreases pairs@.len() - i,
    {
        r.push(pairs[i].0);
        assert(firsts(pairs@.take(i + 1)) =~= firsts(pairs@.take(i as int)).push(pairs@[i as int].0));
        i = i + 1;
    }
    assert(pairs@.take(i as int) =~= pairs@);
    r
}

/// `items` are the second halves of `pairs`, as indexes.
pub open spec fn seconds_of<I: Idx>(items: Seq<I>, pairs: Seq<(u32, u32)>) -> bool {
    &&& items.len() == pairs.len()
    &&& forall|m: int| 0 <= m < items.len() ==> (#[trigger] items[m]).spec_index() == pairs[m].1
}

/// `items` and `lookup` list the distinct pairs of `pairs` in increasing
/// order, grouped by their first halves: `items` holds the second halves, and
/// `lookup` the run of each first half below `n`.
pub open spec fn grouped_set<I: Idx, S: Slice>(pairs: Set<(u32, u32)>, items: Seq<I>, lookup: Seq<S>, n: nat) -> bool {
    exists|p: Seq<(u32, u32)>|
        {
            &&& strictly_increasing(p)
            &&& p.to_set() == pairs
            &&& seconds_of(items, p)
            &&& is_lookup(firsts(p), lookup, n)
        }
}

/// `items` and `lookup` list every pair of `pairs` in order, grouped by their
/// first halves, as `grouped_set` does, keeping repeated pairs.
pub open spec fn grouped_multiset<I: Idx, S: Slice>(pairs: Multiset<(u32, u32)>, items: Seq<I>, lookup: Seq<S>, n: nat) -> bool {
    exists|p: Seq<(u32, u32)>|
        {
            &&& sorted(p)
            &&& p.to_multiset() == pairs
            &&& seconds_of(items, p)
            &&& is_lookup(firsts(p), lookup, n)
        }
}

/// Where every pair's second half is below `bound`, so is every item of a
/// grouping of the pairs.
pub proof fn lemma_grouped_items_below<I: Idx, S: Slice>(
    pairs: Seq<(u32, u32)>,
    items: Seq<I>,
    lookup: Seq<S>,
    n: nat,
    bound: nat,
)
    requires
        grouped_multiset(pairs.to_multiset(), items, lookup, n),
        forall|k: int| 0 <= k < pairs.len() ==> (#[trigger] pairs[k]).1 < bound,
    ensures
        forall|m: int| 0 <= m < items.len() ==> (#[trigger] items[m]).spec_index() < bound,
{
    let p = choose|p: Seq<(u32, u32)>|
        {
            &&& sorted(p)
            &&& p.to_multiset() == pairs.to_multiset()
            &&& seconds_of(items, p)
            &&& is_lookup(firsts(p), lookup, n)
        };
    assert forall|m: int| 0 <= m < items.len() implies (#[trigger] items[m]).spec_index() < bound by {
        vstd::seq_lib::to_multiset_contains(p, p[m]);
        vstd::seq_lib::to_multiset_contains(pairs, p[m]);
        assert(p.contains(p[m]));
        assert(pairs.contains(p[m]));
        let k = choose|k: int| 0 <= k < pairs.len() && pairs[k] == p[m];
        assert(pairs[k].1 < bound);
    }
}

/// The second half of each pair, as an index.
pub fn seconds_of_pairs<I: Idx>(pairs: &Vec<(u32, u32)>) -> (r: Vec<I>)
    ensures
        seconds_of(r@, pairs@),
{
    let mut r: Vec<I> = Vec::new();
    let mut i: usize = 0;
    while i < pairs.len()
        invariant
            i <= pairs@.len(),
            r@.len() == i,
            forall|m: int| 0 <= m < i ==> (#[trigger] r@[m]).spec_index() == pairs@[m].1,
        decreases pairs@.len() - i,
    {
        r.push(I::from_index(pairs[i].1));
        i = i + 1;
    }
    r
}

/// Groups pairs by their first halves, keeping each pair once.
pub fn group_unique_pairs<I: Idx, S: Slice>(pairs: Vec<(u32, u32)>, n: usize) -> (r: (Vec<I>, Vec<S>))
    requires
        forall|k: int| 0 <= k < pairs@.len() ==> pairs@[k].0 < n,
        pairs@.len() <= u32::MAX,
    ensures
        grouped_set(pairs@.to_set(), r.0@, r.1@, n as nat),
{
    let ghost input = pairs@;
    let unique = sorted_unique_pairs(pairs);
    let keys = first_of_pairs(&unique);
    proof {
        assert forall|k: int| 0 <= k < keys@.len() implies keys@[k] < n by {
            assert(unique@.to_set().contains(unique@[k]));
            assert(input.to_set().contains(unique@[k]));
            let m = choose|m: int| 0 <= m < input.len() && input[m] == unique@[k];
        }
    }
    let lookup = group_runs::<S>(keys.as_slice(), n);
    let items = seconds_of_pairs::<I>(&unique);
    proof {
        assert(strictly_increasing(unique@) && unique@.to_set() == input.to_set() && seconds_of(items@, unique@)
            && is_lookup(firsts(unique@), lookup@, n as nat));
    }
    (items, lookup)
}

/// Groups pairs by their first halves, keeping repeated pairs.
pub fn group_pairs<I: Idx, S: Slice>(pairs: Vec<(u32, u32)>, n: usize) -> (r: (Vec<I>, Vec<S>))
    requires
        forall|k: int| 0 <= k < pairs@.len() ==> pairs@[k].0 < n,
        pairs@.len() <= u32::MAX,
    ensures
        grouped_multiset(pairs@.to_multiset(), r.0@, r.1@, n as nat),
{
    let ghost input = pairs@;
    let mut sorted_pairs = pairs;
    par_sort(&mut sorted_pairs);
    let keys = first_of_pairs(&sorted_pairs);
    proof {
        vstd::seq_lib::to_multiset_len(sorted_pairs@);
        vstd::seq_lib::to_multiset_len(input);
        assert forall|k: int| 0 <= k < keys@.len() implies keys@[k] < n by {
            vstd::seq_lib::to_multiset_contains(sorted_pairs@, sorted_pairs@[k]);
            vstd::seq_lib::to_multiset_contains(input, sorted_pairs@[k]);
            let m = choose|m: int| 0 <= m < input.len() && input[m] == sorted_pairs@[k];
        }
        assert forall|i: int, j: int| 0 <= i < j < keys@.len() implies keys@[i] <= keys@[j] by {
            assert(sorted_pairs@[i].le(sorted_pairs@[j]));
        }
    }
    let lookup = group_runs::<S>(keys.as_slice(), n);
    let items = seconds_of_pairs::<I>(&sorted_pairs);
    proof {
        assert(sorted(sorted_pairs@) && sorted_pairs@.to_multiset() == input.to_multiset() && seconds_of(items@, sorted_pairs@) && is_lookup(firsts(sorted_pairs@), lookup@, n as nat));
    }
    (items, lookup)
}

/// The number of positions of `keys` holding a key below `n`.
pub open spec fn count_below(keys: Seq<u32>, n: int) -> nat
    decreases keys.len(),
{
    if keys.len() == 0 {
        0
    } else {
        count_below(keys.drop_last(), n) + if keys.last() < n {
            1nat
        } else {
            0nat
        }
    }
}

/// The number of positions of `keys` holding `t`.
pub open spec fn count_eq(keys: Seq<u32>, t: int) -> nat
    decreases keys.len(),
{
    if keys.len() == 0 {
        0
    } else {
        count_eq(keys.drop_last(), t) + if keys.last() == t {
            1nat
        } else {
            0nat
        }
    }
}

/// No more positions hold a key below `n` than there are positions.
pub proof fn lemma_count_below_le(keys: Seq<u32>, n: int)
    ensures
        count_below(keys, n) <= keys.len(),
    decreases keys.len(),
{
    if keys.len() > 0 {
        lemma_count_below_le(keys.drop_last(), n);
    }
}

/// The positions below `n + 1` are those below `n` and those holding `n`.
pub proof fn lemma_count_below_step(keys: Seq<u32>, n: int)
    ensures
        count_below(keys, n + 1) == count_below(keys, n) + count_eq(keys, n),
    decreases keys.len(),
{
    if keys.len() > 0 {
        lemma_count_below_step(keys.drop_last(), n);
    }
}

/// A stretch of positions all holding `t` is counted among those holding `t`.
pub proof fn lemma_count_eq_stretch(keys: Seq<u32>, t: int, a: int, b: int)
    requires
        0 <= a <= b <= keys.len(),
        forall|k: int| a <= k < b ==> keys[k] == t,
    ensures
        count_eq(keys, t) >= b - a,
    decreases keys.len(),
{
    if keys.len() > 0 {
        let d = keys.drop_last();
        if b == keys.len() && a < b {
            assert forall|k: int| a <= k < b - 1 implies d[k] == t by {
                assert(d[k] == keys[k]);
            }
            lemma_count_eq_stretch(d, t, a, b - 1);
        } else if b < keys.len() {
            assert forall|k: int| a <= k < b implies d[k] == t by {
                assert(d[k] == keys[k]);
            }
            lemma_count_eq_stretch(d, t, a, b);
        }
    }
}

/// The runs of the keys below `n` together hold no more positions than hold
/// a key below `n`.
pub proof fn lemma_runs_total<S: Slice>(keys: Seq<u32>, runs: Seq<S>, n: int)
    requires
        0 <= n <= runs.len(),
        forall|t: int| 0 <= t < runs.len() ==> run_of(keys, t, #[trigger] runs[t]),
    ensures
        sum_of(runs.take(n), |s: S| s.spec_count() as nat) <= count_below(keys, n),
    decreases n,
{
    S::lemma_none_is_empty();
    if n > 0 {
        let f = |s: S| s.spec_count() as nat;
        lemma_runs_total(keys, runs, n - 1);
        lemma_sum_of_take(runs, f, n - 1);
        lemma_count_below_step(keys, n - 1);
        let r = runs[n - 1];
        assert(run_of(keys, n - 1, r));
        if has_key(keys, n - 1) {
            assert forall|k: int| r.spec_start() <= k < r.spec_start() + r.spec_count() implies keys[k] == n - 1 by {
            }
            lemma_count_eq_stretch(keys, n - 1, r.spec_start() as int, r.spec_start() + r.spec_count());
        }
    }
}

/// How many times `x` occurs in `s`.
pub open spec fn occurrences<A>(s: Seq<A>, x: A) -> nat
    decreases s.len(),
{
    if s.len() == 0 {
        0
    } else {
        occurrences(s.drop_last(), x) + if s.last() == x {
            1nat
        } else {
            0nat
        }
    }
}

/// A sequence's multiset counts each value as often as it occurs.
pub proof fn lemma_occurrences_multiset<A>(s: Seq<A>, x: A)
    ensures
        s.to_multiset().count(x) == occurrences(s, x),
    decreases s.len(),
{
    broadcast use vstd::multiset::group_multiset_axioms;
    s.to_multiset_ensures();
    if s.len() > 0 {
        lemma_occurrences_multiset(s.drop_last(), x);
        s.drop_last().to_multiset_ensures();
        assert(s.drop_last().push(s.last()) =~= s);
    } else {
        assert(!s.contains(x));
    }
}

/// Occurrences add up over a concatenation.
pub proof fn lemma_occurrences_append<A>(a: Seq<A>, b: Seq<A>, x: A)
    ensures
        occurrences(a + b, x) == occurrences(a, x) + occurrences(b, x),
    decreases b.len(),
{
    if b.len() > 0 {
        lemma_occurrences_append(a, b.drop_last(), x);
        assert((a + b).drop_last() =~= a + b.drop_last());
    } else {
        assert(a + b =~= a);
    }
}

/// A value occurs nowhere exactly where it occurs no time.
pub proof fn lemma_occurrences_zero<A>(s: Seq<A>, x: A)
    ensures
        occurrences(s, x) == 0 <==> forall|k: int| 0 <= k < s.len() ==> s[k] != x,
    decreases s.len(),
{
    if s.len() > 0 {
        lemma_occurrences_zero(s.drop_last(), x);
        if occurrences(s, x) == 0 {
            assert forall|k: int| 0 <= k < s.len() implies s[k] != x by {
                if k < s.len() - 1 {
                    assert(s[k] == s.drop_last()[k]);
                }
            }
        } else if s.last() != x {
            let k = choose|k: int| 0 <= k < s.drop_last().len() && s.drop_last()[k] == x;
            assert(s[k] == x);
        }
    }
}

/// A value that fills a sequence occurs once per entry.
pub proof fn lemma_occurrences_all<A>(s: Seq<A>, x: A)
    requires
        forall|k: int| 0 <= k < s.len() ==> s[k] == x,
    ensures
        occurrences(s, x) == s.len(),
    decreases s.len(),
{
    if s.len() > 0 {
        assert forall|k: int| 0 <= k < s.drop_last().len() implies s.drop_last()[k] == x by {
            assert(s.drop_last()[k] == s[k]);
        }
        lemma_occurrences_all(s.drop_last(), x);
    }
}

/// Two sequences of one length, holding `x` and `y` at the same positions,
/// hold them equally often.
pub proof fn lemma_occurrences_pointwise<A, B>(u: Seq<A>, v: Seq<B>, x: A, y: B)
    requires
        u.len() == v.len(),
        forall|k: int| 0 <= k < u.len() ==> (u[k] == x <==> v[k] == y),
    ensures
        occurrences(u, x) == occurrences(v, y),
    decreases u.len(),
{
    if u.len() > 0 {
        assert forall|k: int| 0 <= k < u.drop_last().len() implies (u.drop_last()[k] == x <==> v.drop_last()[k] == y) by {
            assert(u.drop_last()[k] == u[k]);
            assert(v.drop_last()[k] == v[k]);
        }
        lemma_occurrences_pointwise(u.drop_last(), v.drop_last(), x, y);
        assert(u.last() == x <==> v.last() == y);
    }
}

/// Occurrences of `x` in `s` are those in the part `a..b` where `x` occurs
/// nowhere else.
pub proof fn lemma_occurrences_within<A>(s: Seq<A>, x: A, a: int, b: int)
    requires
        0 <= a <= b <= s.len(),
        forall|k: int| 0 <= k < s.len() && !(a <= k < b) ==> s[k] != x,
    ensures
        occurrences(s, x) == occurrences(s.subrange(a, b), x),
{
    let front = s.subrange(0, a);
    let mid = s.subrange(a, b);
    let back = s.subrange(b, s.len() as int);
    assert(s =~= front + mid + back);
    lemma_occurrences_append(front + mid, back, x);
    lemma_occurrences_append(front, mid, x);
    lemma_occurrences_zero(front, x);
    lemma_occurrences_zero(back, x);
    assert forall|k: int| 0 <= k < back.len() implies back[k] != x by {
        assert(back[k] == s[b + k]);
    }
}

} // verus!
