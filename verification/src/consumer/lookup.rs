//! Finding records by identifier text, and reading runs of a section.

use vstd::prelude::*;
use vstd::slice::slice_subrange;
use vstd::string::StringSliceAdditionalSpecFns;
use vstd::utf8::valid_utf8;

use crate::compiler::ids::{run_text, Keyed};
use crate::models::idx::Idx;
use crate::models::slice::Slice;
use crate::order::{compare_sign, lemma_lex_asymmetric, lemma_lex_irreflexive, lemma_lex_transitive, lex_le, lex_lt};

verus! {

/// Every record's identifier run lies within `text`.
pub open spec fn runs_within<R: Keyed>(records: Seq<R>, text: Seq<u8>) -> bool {
    forall|j: int|
        0 <= j < records.len() ==> (#[trigger] records[j]).spec_id().spec_start() + records[j].spec_id().spec_count()
            <= text.len()
}

/// Every entry of `lookup` names a record.
pub open spec fn lookup_valid<R, I: Idx>(records: Seq<R>, lookup: Seq<I>) -> bool {
    forall|m: int| 0 <= m < lookup.len() ==> (#[trigger] lookup[m]).spec_index() < records.len()
}

/// The identifier text of the record that entry `m` of `lookup` names.
pub open spec fn key_at<R: Keyed, I: Idx>(records: Seq<R>, lookup: Seq<I>, text: Seq<u8>, m: int) -> Seq<u8> {
    run_text(text, records[lookup[m].spec_index() as int].spec_id())
}

/// The entries of `lookup` are in increasing order of identifier text.
pub open spec fn lookup_sorted<R: Keyed, I: Idx>(records: Seq<R>, lookup: Seq<I>, text: Seq<u8>) -> bool {
    forall|a: int, b: int|
        0 <= a < b < lookup.len() ==> lex_le(key_at(records, lookup, text, a), key_at(records, lookup, text, b))
}

/// The entries of `s` that the run `run` covers.
pub open spec fn run_entries<T, S: Slice>(s: Seq<T>, run: S) -> Seq<T> {
    s.subrange(run.spec_start() as int, run.spec_start() + run.spec_count())
}

/// The run `run` lies within `s`.
pub open spec fn run_fits<T, S: Slice>(s: Seq<T>, run: S) -> bool {
    run.spec_start() + run.spec_count() <= s.len()
}

/// The entries of `s` that `run` covers.
pub fn entries<T, S: Slice + Copy>(s: &[T], run: S) -> (r: &[T])
    requires
        run_fits(s@, run),
    ensures
        r@ == run_entries(s@, run),
{
    let (start, count) = run.parts();
    let _n = s.len();
    slice_subrange(s, start as usize, start as usize + count as usize)
}

/// `std::str::from_utf8`: the text that `bytes` encode, where they are valid
/// UTF-8, and nothing otherwise.
#[verifier::external_body]
pub(crate) fn text_of(bytes: &[u8]) -> (r: Option<&str>)
    ensures
        r is Some <==> valid_utf8(bytes@),
        r matches Some(s) ==> s.spec_bytes() == bytes@,
{
    std::str::from_utf8(bytes).ok()
}

/// Finds an entry of `lookup` whose record has identifier `key`, by halving
/// the entries; where `lookup` is sorted by identifier, none is missed.
pub fn search_by_id<R: Keyed, I: Idx>(records: &[R], lookup: &[I], text: &[u8], key: &[u8]) -> (r: Option<usize>)
    requires
        runs_within(records@, text@),
        lookup_valid(records@, lookup@),
    ensures
        match r {
            Some(m) => m < lookup@.len() && key_at(records@, lookup@, text@, m as int) == key@,
            None => lookup_sorted(records@, lookup@, text@) ==> forall|m: int|
                0 <= m < lookup@.len() ==> key_at(records@, lookup@, text@, m) != key@,
        },
{
    let mut lo: usize = 0;
    let mut hi: usize = lookup.len();
    let text_len = text.len();
    while lo < hi
        invariant
            lo <= hi <= lookup@.len(),
            text_len == text@.len(),
            runs_within(records@, text@),
            lookup_valid(records@, lookup@),
            lookup_sorted(records@, lookup@, text@) ==> forall|m: int|
                0 <= m < lo ==> lex_lt(#[trigger] key_at(records@, lookup@, text@, m), key@),
            lookup_sorted(records@, lookup@, text@) ==> forall|m: int|
                hi <= m < lookup@.len() ==> lex_lt(key@, #[trigger] key_at(records@, lookup@, text@, m)),
        decreases hi - lo,
    {
        let mid = lo + (hi - lo) / 2;
        let i = lookup[mid].index() as usize;
        let (start, count) = records[i].id().parts();
        proof {
            assert(records@[i as int].spec_id().spec_start() + records@[i as int].spec_id().spec_count() <= text@.len());
        }
        let t = slice_subrange(text, start as usize, start as usize + count as usize);
        let c = compare_sign(t, key);
        let ghost km = key_at(records@, lookup@, text@, mid as int);
        proof {
            assert(t@ == km);
        }
        if c == 0 {
            return Some(mid);
        } else if c < 0 {
            proof {
                if lookup_sorted(records@, lookup@, text@) {
                    assert forall|m: int| 0 <= m < mid + 1 implies lex_lt(
                        #[trigger] key_at(records@, lookup@, text@, m),
                        key@,
                    ) by {
                        if m < mid {
                            let km2 = key_at(records@, lookup@, text@, m);
                            assert(lex_le(km2, km));
                            if km2 != km {
                                lemma_lex_transitive(km2, km, key@);
                            }
                        }
                    }
                }
            }
            lo = mid + 1;
        } else {
            proof {
                if lookup_sorted(records@, lookup@, text@) {
                    assert forall|m: int| mid <= m < lookup@.len() implies lex_lt(
                        key@,
                        #[trigger] key_at(records@, lookup@, text@, m),
                    ) by {
                        if m > mid {
                            let km2 = key_at(records@, lookup@, text@, m);
                            assert(lex_le(km, km2));
                            if km2 != km {
                                lemma_lex_transitive(key@, km, km2);
                            }
                        }
                    }
                }
            }
            hi = mid;
        }
    }
    proof {
        if lookup_sorted(records@, lookup@, text@) {
            assert forall|m: int| 0 <= m < lookup@.len() implies key_at(records@, lookup@, text@, m) != key@ by {
                lemma_lex_irreflexive(key@);
            }
        }
    }
    None
}

/// Every index of `idxs` names an entry of a table of `n` entries.
pub open spec fn all_below<I: Idx>(idxs: Seq<I>, n: nat) -> bool {
    forall|m: int| 0 <= m < idxs.len() ==> (#[trigger] idxs[m]).spec_index() < n
}

/// The entries of `table` that `idxs` name, in order.
pub open spec fn gathered<T, I: Idx>(table: Seq<T>, idxs: Seq<I>) -> Seq<T> {
    idxs.map_values(|i: I| table[i.spec_index() as int])
}

/// The entries of `table` that `idxs` name, in order.
pub fn gather<T: Copy, I: Idx + Copy>(table: &[T], idxs: &[I]) -> (r: Vec<T>)
    requires
        all_below(idxs@, table@.len()),
    ensures
        r@ == gathered(table@, idxs@),
{
    let mut out: Vec<T> = Vec::new();
    let mut m: usize = 0;
    while m < idxs.len()
        invariant
            m <= idxs@.len(),
            all_below(idxs@, table@.len()),
            out@ == gathered(table@, idxs@.take(m as int)),
        decreases idxs@.len() - m,
    {
        let i = idxs[m].index() as usize;
        out.push(table[i]);
        proof {
            assert(idxs@.take(m + 1) =~= idxs@.take(m as int).push(idxs@[m as int]));
            assert(gathered(table@, idxs@.take(m + 1)) =~= gathered(table@, idxs@.take(m as int)).push(
                table@[i as int],
            ));
        }
        m = m + 1;
    }
    proof {
        assert(idxs@.take(m as int) =~= idxs@);
    }
    out
}

/// Identifiers can be read and found: every record's identifier run lies
/// within `text`, and `lookup` names records in increasing order of
/// identifier.
pub open spec fn ids_ok<R: Keyed, I: Idx>(records: Seq<R>, text: Seq<u8>, lookup: Seq<I>) -> bool {
    &&& runs_within(records, text)
    &&& lookup_valid(records, lookup)
    &&& lookup_sorted(records, lookup, text)
}

/// Whether every record's identifier run lies within `text`.
pub fn check_runs_within<R: Keyed>(records: &[R], text: &[u8]) -> (r: bool)
    ensures
        r == runs_within(records@, text@),
{
    let mut j: usize = 0;
    while j < records.len()
        invariant
            j <= records@.len(),
            forall|q: int|
                0 <= q < j ==> (#[trigger] records@[q]).spec_id().spec_start() + records@[q].spec_id().spec_count()
                    <= text@.len(),
        decreases records@.len() - j,
    {
        let (start, count) = records[j].id().parts();
        if start as u64 + count as u64 > text.len() as u64 {
            return false;
        }
        j = j + 1;
    }
    true
}

/// Whether every entry of `idxs` lies below `n`.
pub fn check_all_below<I: Idx>(idxs: &[I], n: usize) -> (r: bool)
    ensures
        r == all_below(idxs@, n as nat),
{
    let mut m: usize = 0;
    while m < idxs.len()
        invariant
            m <= idxs@.len(),
            forall|q: int| 0 <= q < m ==> (#[trigger] idxs@[q]).spec_index() < n,
        decreases idxs@.len() - m,
    {
        if idxs[m].index() as usize >= n {
            return false;
        }
        m = m + 1;
    }
    true
}

/// Whether the records are in increasing order of identifier through
/// `lookup`, whose entries name records whose runs lie within `text`.
fn check_lookup_sorted<R: Keyed, I: Idx>(records: &[R], text: &[u8], lookup: &[I]) -> (r: bool)
    requires
        runs_within(records@, text@),
        lookup_valid(records@, lookup@),
    ensures
        r == lookup_sorted(records@, lookup@, text@),
{
    if lookup.len() == 0 {
        return true;
    }
    let tl = text.len();
    let mut m: usize = 1;
    while m < lookup.len()
        invariant
            1 <= m <= lookup@.len(),
            tl == text@.len(),
            runs_within(records@, text@),
            lookup_valid(records@, lookup@),
            forall|a: int, b: int|
                0 <= a < b < m ==> lex_le(key_at(records@, lookup@, text@, a), key_at(records@, lookup@, text@, b)),
        decreases lookup@.len() - m,
    {
        let i0 = lookup[m - 1].index() as usize;
        let i1 = lookup[m].index() as usize;
        let (s0, c0) = records[i0].id().parts();
        let (s1, c1) = records[i1].id().parts();
        proof {
            assert(records@[i0 as int].spec_id().spec_start() + records@[i0 as int].spec_id().spec_count() <= text@.len());
            assert(records@[i1 as int].spec_id().spec_start() + records@[i1 as int].spec_id().spec_count() <= text@.len());
        }
        let t0 = slice_subrange(text, s0 as usize, s0 as usize + c0 as usize);
        let t1 = slice_subrange(text, s1 as usize, s1 as usize + c1 as usize);
        let c = compare_sign(t0, t1);
        let ghost k0 = key_at(records@, lookup@, text@, m - 1);
        let ghost k1 = key_at(records@, lookup@, text@, m as int);
        proof {
            assert(t0@ == k0);
            assert(t1@ == k1);
        }
        if c == 1 {
            proof {
                lemma_lex_asymmetric(k0, k1);
                lemma_lex_irreflexive(k0);
                assert(!lex_le(k0, k1));
            }
            return false;
        }
        proof {
            assert forall|a: int, b: int| 0 <= a < b < m + 1 implies lex_le(
                key_at(records@, lookup@, text@, a),
                key_at(records@, lookup@, text@, b),
            ) by {
                if b == m && a < m - 1 {
                    let ka = key_at(records@, lookup@, text@, a);
                    assert(lex_le(ka, k0));
                    if ka != k0 && k0 != k1 {
                        lemma_lex_transitive(ka, k0, k1);
                    }
                }
            }
        }
        m = m + 1;
    }
    true
}

/// Whether the identifier runs of `records` lie within `text`, `lookup`
/// names records, and it lists them in order of identifier.
pub fn check_ids<R: Keyed, I: Idx>(records: &[R], text: &[u8], lookup: &[I]) -> (r: bool)
    ensures
        r == ids_ok(records@, text@, lookup@),
{
    if !check_runs_within(records, text) {
        return false;
    }
    if !check_all_below(lookup, records.len()) {
        return false;
    }
    check_lookup_sorted(records, text, lookup)
}

/// Whether `lookup` has `n` entries, each a run within `table`.
pub fn check_lookup_runs<T, S: Slice>(lookup: &[S], table: &[T], n: usize) -> (r: bool)
    ensures
        r == lookup_runs(lookup@, table@, n as nat),
{
    if lookup.len() != n {
        return false;
    }
    let mut g: usize = 0;
    while g < lookup.len()
        invariant
            g <= lookup@.len() == n,
            forall|q: int| 0 <= q < g ==> run_fits(table@, #[trigger] lookup@[q]),
        decreases lookup@.len() - g,
    {
        let (start, count) = lookup[g].parts();
        if start as u64 + count as u64 > table.len() as u64 {
            return false;
        }
        g = g + 1;
    }
    true
}

/// `lookup` has one run of `table` for each of `n` keys, each within `table`.
pub open spec fn lookup_runs<T, S: Slice>(lookup: Seq<S>, table: Seq<T>, n: nat) -> bool {
    &&& lookup.len() == n
    &&& forall|g: int| 0 <= g < n ==> run_fits(table, #[trigger] lookup[g])
}

} // verus!
