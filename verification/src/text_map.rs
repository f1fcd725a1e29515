//! A map keyed by byte strings, remembering the order in which keys arrived.

use std::collections::hash_map::DefaultHasher;
use std::collections::HashMap;
use std::hash::Hasher;

use vstd::prelude::*;
use vstd::std_specs::hash::DefaultHasherAdditionalSpecFns;
use vstd::string::StringSliceAdditionalSpecFns;
use vstd::utf8::encode_utf8;

use crate::order::compare_sign;

verus! {

broadcast use vstd::std_specs::hash::group_hash_axioms;

/// The hash of a text under the standard library's default hasher.
pub open spec fn text_hash(key: Seq<u8>) -> u64 {
    DefaultHasher::spec_finish(Seq::<Seq<u8>>::empty().push(key))
}

/// Hashes a text with the standard library's default hasher.
fn hash_text(key: &[u8]) -> (h: u64)
    ensures
        h == text_hash(key@),
{
    let mut hasher = DefaultHasher::new();
    hasher.write(key);
    hasher.finish()
}

/// The two byte strings are equal.
pub fn bytes_equal(a: &[u8], b: &[u8]) -> (r: bool)
    ensures
        r == (a@ == b@),
{
    compare_sign(a, b) == 0
}

/// The position of `k` in `keys`, where it occurs.
pub open spec fn find(keys: Seq<Seq<u8>>, k: Seq<u8>) -> Option<int> {
    if exists|i: int| 0 <= i < keys.len() && keys[i] == k {
        Some(choose|i: int| 0 <= i < keys.len() && keys[i] == k)
    } else {
        None
    }
}

/// No key occurs twice.
pub open spec fn distinct(keys: Seq<Seq<u8>>) -> bool {
    forall|i: int, j: int| 0 <= i < keys.len() && 0 <= j < keys.len() && i != j ==> keys[i] != keys[j]
}

/// The last position of `k` in `ids`.
pub open spec fn last_index(ids: Seq<Seq<u8>>, k: Seq<u8>) -> Option<int>
    decreases ids.len(),
{
    if ids.len() == 0 {
        None
    } else if ids.last() == k {
        Some(ids.len() - 1)
    } else {
        last_index(ids.drop_last(), k)
    }
}

/// The distinct texts of `ids`, in the order of their first occurrence.
pub open spec fn first_seen(ids: Seq<Seq<u8>>) -> Seq<Seq<u8>>
    decreases ids.len(),
{
    if ids.len() == 0 {
        Seq::empty()
    } else {
        let d = first_seen(ids.drop_last());
        if d.contains(ids.last()) {
            d
        } else {
            d.push(ids.last())
        }
    }
}

/// What `last_index` gives: a position holding `k`, after which `k` does not
/// occur.
pub proof fn lemma_last_index(ids: Seq<Seq<u8>>, k: Seq<u8>)
    ensures
        match last_index(ids, k) {
            Some(j) => 0 <= j < ids.len() && ids[j] == k && forall|m: int|
                j < m < ids.len() ==> ids[m] != k,
            None => forall|m: int| 0 <= m < ids.len() ==> ids[m] != k,
        },
    decreases ids.len(),
{
    if ids.len() > 0 {
        let d = ids.drop_last();
        lemma_last_index(d, k);
        if ids.last() != k {
            match last_index(d, k) {
                Some(j) => {
                    assert(ids[j] == d[j]);
                    assert forall|m: int| j < m < ids.len() implies ids[m] != k by {
                        if m < d.len() {
                            assert(ids[m] == d[m]);
                        }
                    }
                },
                None => {
                    assert forall|m: int| 0 <= m < ids.len() implies ids[m] != k by {
                        if m < d.len() {
                            assert(ids[m] == d[m]);
                        }
                    }
                },
            }
        }
    }
}

/// Adding a text that `first_seen` has not yet seen appends it; adding one it
/// has seen changes nothing.
pub proof fn lemma_first_seen_push(ids: Seq<Seq<u8>>, k: Seq<u8>)
    ensures
        first_seen(ids.push(k)) == if first_seen(ids).contains(k) {
            first_seen(ids)
        } else {
            first_seen(ids).push(k)
        },
{
    assert(ids.push(k).drop_last() =~= ids);
}

/// Keeping each identifier once leaves no more identifiers than there were.
pub proof fn lemma_first_seen_len(ids: Seq<Seq<u8>>)
    ensures
        first_seen(ids).len() <= ids.len(),
    decreases ids.len(),
{
    if ids.len() > 0 {
        lemma_first_seen_len(ids.drop_last());
    }
}

/// A text occurs in `first_seen(ids)` exactly when it occurs in `ids`, and
/// `first_seen` holds no text twice.
pub proof fn lemma_first_seen(ids: Seq<Seq<u8>>)
    ensures
        distinct(first_seen(ids)),
        forall|k: Seq<u8>| first_seen(ids).contains(k) <==> ids.contains(k),
    decreases ids.len(),
{
    if ids.len() > 0 {
        let p = ids.drop_last();
        let last = ids.last();
        lemma_first_seen(p);
        let d = first_seen(p);
        let fs = first_seen(ids);
        assert(fs == if d.contains(last) { d } else { d.push(last) });
        assert forall|k: Seq<u8>| #[trigger] fs.contains(k) <==> ids.contains(k) by {
            assert(d.contains(k) <==> p.contains(k));
            if fs.contains(k) {
                let i = choose|i: int| 0 <= i < fs.len() && fs[i] == k;
                if i < d.len() {
                    assert(d[i] == k);
                    assert(d.contains(k));
                    let m = choose|m: int| 0 <= m < p.len() && p[m] == k;
                    assert(ids[m] == k);
                } else {
                    assert(k == last);
                    assert(ids[ids.len() - 1] == k);
                }
            }
            if ids.contains(k) {
                let m = choose|m: int| 0 <= m < ids.len() && ids[m] == k;
                if m < ids.len() - 1 {
                    assert(p[m] == k);
                    assert(p.contains(k));
                    let i = choose|i: int| 0 <= i < d.len() && d[i] == k;
                    assert(fs[i] == k);
                } else if d.contains(last) {
                    assert(fs.contains(k));
                } else {
                    assert(fs[d.len() as int] == k);
                }
            }
        }
    }
}

/// Where `k` occurs once in `keys`, `find` names that position.
pub proof fn lemma_find_unique(keys: Seq<Seq<u8>>, k: Seq<u8>, i: int)
    requires
        distinct(keys),
        0 <= i < keys.len(),
        keys[i] == k,
    ensures
        find(keys, k) == Some(i),
{
}

/// A map from texts to values. Keys are kept in the order in which they were
/// first inserted; a hash index finds them.
pub struct TextMap<V> {
    keys: Vec<String>,
    values: Vec<V>,
    buckets: HashMap<u64, Vec<usize>>,
}

impl<V> TextMap<V> {
    /// The keys, in the order in which they were first inserted.
    pub closed spec fn keys(&self) -> Seq<Seq<u8>> {
        self.keys@.map_values(|k: String| encode_utf8(k@))
    }

    /// The value of each key, position by position.
    pub closed spec fn values(&self) -> Seq<V> {
        self.values@
    }

    /// The value stored for `k`, if any.
    pub open spec fn spec_get(&self, k: Seq<u8>) -> Option<V> {
        match find(self.keys(), k) {
            Some(i) => Some(self.values()[i]),
            None => None,
        }
    }

    /// `self` is `old` after storing `value` for `key`.
    pub open spec fn inserted(&self, old: &Self, key: Seq<u8>, value: V) -> bool {
        match find(old.keys(), key) {
            Some(i) => self.keys() == old.keys() && self.values() == old.values().update(i, value),
            None => self.keys() == old.keys().push(key) && self.values() == old.values().push(value),
        }
    }

    /// The map holds the texts of `ids` in the order of their first
    /// occurrence, each with the value at its last occurrence in `vals`.
    pub open spec fn indexes(&self, ids: Seq<Seq<u8>>, vals: Seq<V>) -> bool {
        &&& self.keys() == first_seen(ids)
        &&& forall|k: Seq<u8>| #[trigger]
            self.spec_get(k) == match last_index(ids, k) {
                Some(j) => Some(vals[j]),
                None => None::<V>,
            }
    }

    /// The keys are distinct, each has a value, and the hash index lists
    /// exactly where each key lies.
    pub closed spec fn wf(&self) -> bool {
        &&& self.keys@.len() == self.values@.len()
        &&& distinct(self.keys())
        &&& forall|i: int|
            0 <= i < self.keys@.len() ==> #[trigger] self.buckets@.contains_key(text_hash(encode_utf8(self.keys@[i]@)))
                && self.buckets@[text_hash(encode_utf8(self.keys@[i]@))]@.contains(i as usize)
        &&& forall|h: u64, j: usize|
            #![trigger self.buckets@[h]@.contains(j)]
            self.buckets@.contains_key(h) && self.buckets@[h]@.contains(j) ==> j < self.keys@.len()
                && text_hash(encode_utf8(self.keys@[j as int]@)) == h
    }

    /// Keys and values have the same length.
    pub proof fn lemma_wf(&self)
        requires
            self.wf(),
        ensures
            self.keys().len() == self.values().len(),
            distinct(self.keys()),
    {
    }

    /// An empty map.
    pub fn new() -> (r: Self)
        ensures
            r.wf(),
            r.keys() == Seq::<Seq<u8>>::empty(),
            r.values() == Seq::<V>::empty(),
    {
        let r = TextMap { keys: Vec::new(), values: Vec::new(), buckets: HashMap::new() };
        assert(r.keys() =~= Seq::<Seq<u8>>::empty());
        r
    }

    /// The number of keys.
    pub fn len(&self) -> (r: usize)
        requires
            self.wf(),
        ensures
            r == self.keys().len(),
    {
        self.keys.len()
    }

    /// The key at position `i`.
    pub fn key_at(&self, i: usize) -> (r: &str)
        requires
            self.wf(),
            i < self.keys().len(),
        ensures
            r.spec_bytes() == self.keys()[i as int],
    {
        self.keys[i].as_str()
    }

    /// The value at position `i`.
    pub fn value_at(&self, i: usize) -> (r: &V)
        requires
            self.wf(),
            i < self.keys().len(),
        ensures
            *r == self.values()[i as int],
    {
        &self.values[i]
    }

    /// Where `key` lies among the keys, if it is one.
    pub fn position(&self, key: &[u8]) -> (r: Option<usize>)
        requires
            self.wf(),
        ensures
            match r {
                Some(j) => find(self.keys(), key@) == Some(j as int),
                None => find(self.keys(), key@) is None,
            },
    {
        let n = self.keys.len();
        let h = hash_text(key);
        match self.buckets.get(&h) {
            Some(bucket) => {
                let mut k: usize = 0;
                while k < bucket.len()
                    invariant
                        self.wf(),
                        n == self.keys@.len(),
                        self.buckets@.contains_key(h),
                        *bucket == self.buckets@[h],
                        h == text_hash(key@),
                        k <= bucket@.len(),
                        forall|m: int| 0 <= m < k ==> #[trigger] encode_utf8(self.keys@[bucket@[m] as int]@) != key@,
                    decreases bucket@.len() - k,
                {
                    let j = bucket[k];
                    assert(self.buckets@[h]@.contains(j));
                    if bytes_equal(self.keys[j].as_str().as_bytes(), key) {
                        proof {
                            assert(self.keys()[j as int] == encode_utf8(self.keys@[j as int]@));
                            lemma_find_unique(self.keys(), key@, j as int);
                        }
                        return Some(j);
                    }
                    k = k + 1;
                }
                proof {
                    if exists|i: int| 0 <= i < self.keys().len() && self.keys()[i] == key@ {
                        let i = choose|i: int| 0 <= i < self.keys().len() && self.keys()[i] == key@;
                        assert(self.keys()[i] == encode_utf8(self.keys@[i]@));
                        assert(self.buckets@.contains_key(text_hash(encode_utf8(self.keys@[i]@))));
                        assert(self.buckets@[h]@.contains(i as usize));
                        let m = choose|m: int| 0 <= m < bucket@.len() && bucket@[m] == i as usize;
                        assert(encode_utf8(self.keys@[bucket@[m] as int]@) != key@);
                    }
                }
                None
            },
            None => {
                proof {
                    if exists|i: int| 0 <= i < self.keys().len() && self.keys()[i] == key@ {
                        let i = choose|i: int| 0 <= i < self.keys().len() && self.keys()[i] == key@;
                        assert(self.keys()[i] == encode_utf8(self.keys@[i]@));
                        assert(self.buckets@.contains_key(text_hash(encode_utf8(self.keys@[i]@))));
                    }
                }
                None
            },
        }
    }

    /// The value stored for `key`, if any.
    pub fn get(&self, key: &[u8]) -> (r: Option<&V>)
        requires
            self.wf(),
        ensures
            match r {
                Some(v) => self.spec_get(key@) == Some(*v),
                None => self.spec_get(key@) is None,
            },
    {
        match self.position(key) {
            Some(i) => Some(&self.values[i]),
            None => None,
        }
    }

    /// Stores `value` for `key`. A new key goes after all others; a known key
    /// keeps its place and takes the new value.
    pub fn insert(&mut self, key: &str, value: V)
        requires
            old(self).wf(),
        ensures
            final(self).wf(),
            final(self).inserted(&*old(self), key.spec_bytes(), value),
    {
        let key_bytes = key.as_bytes();
        match self.position(key_bytes) {
            Some(i) => {
                self.values.set(i, value);
            },
            None => {
                let ghost old_keys = self.keys@;
                let pos = self.keys.len();
                let h = hash_text(key_bytes);
                let mut bucket = match self.buckets.remove(&h) {
                    Some(b) => b,
                    None => Vec::new(),
                };
                bucket.push(pos);
                self.buckets.insert(h, bucket);
                let owned: String = key.to_owned();
                self.keys.push(owned);
                self.values.push(value);
                assert(self.keys() =~= old(self).keys().push(key_bytes@));
                assert forall|i: int|
                    0 <= i < self.keys@.len() implies #[trigger] self.buckets@.contains_key(
                    text_hash(encode_utf8(self.keys@[i]@)),
                ) && self.buckets@[text_hash(encode_utf8(self.keys@[i]@))]@.contains(i as usize) by {
                    if i < pos {
                        assert(self.keys@[i] == old_keys[i]);
                        assert(old(self).keys()[i] == encode_utf8(old_keys[i]@));
                        if text_hash(encode_utf8(old_keys[i]@)) != h {
                            assert(old(self).buckets@.contains_key(text_hash(encode_utf8(old_keys[i]@))));
                        } else {
                            assert(old(self).buckets@[h]@.contains(i as usize));
                            assert(bucket@.contains(i as usize) || bucket@.last() == pos);
                            let m = choose|m: int| 0 <= m < old(self).buckets@[h]@.len() && old(self).buckets@[h]@[m] == i as usize;
                            assert(bucket@[m] == i as usize);
                        }
                    } else {
                        assert(bucket@[bucket@.len() - 1] == pos);
                    }
                }
                assert forall|hh: u64, j: usize|
                    #![trigger self.buckets@[hh]@.contains(j)]
                    self.buckets@.contains_key(hh) && self.buckets@[hh]@.contains(j) implies j
                    < self.keys@.len() && text_hash(encode_utf8(self.keys@[j as int]@)) == hh by {
                    if hh != h {
                        assert(old(self).buckets@[hh]@.contains(j));
                    } else {
                        let m = choose|m: int| 0 <= m < bucket@.len() && bucket@[m] == j;
                        if m < bucket@.len() - 1 {
                            assert(old(self).buckets@.contains_key(h));
                            assert(old(self).buckets@[h]@[m] == j);
                            assert(old(self).buckets@[h]@.contains(j));
                        }
                    }
                }
            },
        }
    }

    /// An empty map indexes no texts.
    pub proof fn lemma_indexes_empty(&self)
        requires
            self.keys() == Seq::<Seq<u8>>::empty(),
        ensures
            self.indexes(Seq::empty(), Seq::empty()),
    {
        assert(first_seen(Seq::<Seq<u8>>::empty()) =~= Seq::<Seq<u8>>::empty());
        assert forall|k: Seq<u8>| #[trigger] self.spec_get(k) == None::<V> by {
        }
    }

    /// Storing `v` for `k` extends what the map indexes by one more text.
    pub proof fn lemma_indexes_insert(&self, old: &Self, ids: Seq<Seq<u8>>, vals: Seq<V>, k: Seq<u8>, v: V)
        requires
            old.wf(),
            self.wf(),
            ids.len() == vals.len(),
            old.indexes(ids, vals),
            self.inserted(old, k, v),
        ensures
            self.indexes(ids.push(k), vals.push(v)),
    {
        let ids2 = ids.push(k);
        let vals2 = vals.push(v);
        old.lemma_wf();
        self.lemma_wf();
        assert(ids2.drop_last() =~= ids);
        assert(ids2.last() == k);
        lemma_first_seen(ids);
        assert(first_seen(ids).contains(k) <==> ids.contains(k));
        if first_seen(ids).contains(k) {
            let i = choose|i: int| 0 <= i < first_seen(ids).len() && first_seen(ids)[i] == k;
            assert(old.keys()[i] == k);
        }
        assert(self.keys() == first_seen(ids2));
        assert forall|q: Seq<u8>| #[trigger]
            self.spec_get(q) == match last_index(ids2, q) {
                Some(j) => Some(vals2[j]),
                None => None::<V>,
            } by {
            assert(old.spec_get(q) == match last_index(ids, q) {
                Some(j) => Some(vals[j]),
                None => None::<V>,
            });
            lemma_last_index(ids, q);
            if q == k {
                assert(last_index(ids2, q) == Some(ids.len() as int));
                match find(old.keys(), k) {
                    Some(i) => {
                        lemma_find_unique(self.keys(), k, i);
                    },
                    None => {
                        lemma_find_unique(self.keys(), k, old.keys().len() as int);
                    },
                }
            } else {
                assert(last_index(ids2, q) == last_index(ids, q));
                match find(old.keys(), q) {
                    Some(i) => {
                        lemma_find_unique(self.keys(), q, i);
                        match find(old.keys(), k) {
                            Some(ik) => {
                                assert(ik != i);
                            },
                            None => {},
                        }
                    },
                    None => {
                        if exists|i: int| 0 <= i < self.keys().len() && self.keys()[i] == q {
                            let i = choose|i: int| 0 <= i < self.keys().len() && self.keys()[i] == q;
                            assert(old.keys()[i] == q);
                        }
                    },
                }
            }
        }
    }
}

} // verus!
