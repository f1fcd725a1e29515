use vstd::prelude::*;
use vstd::string::StringExecFns;
use vstd::string::StringSliceAdditionalSpecFns;
use vstd::utf8::encode_utf8;

use crate::models::slice::Slice;
use crate::compiler::ids::concat;
use crate::text_map::{distinct, find, first_seen, lemma_first_seen, lemma_first_seen_push, TextMap};

verus! {

/// Encoding two runs of characters one after the other gives the two
/// encodings one after the other.
pub proof fn lemma_encode_utf8_append(a: Seq<char>, b: Seq<char>)
    ensures
        encode_utf8(a + b) == encode_utf8(a) + encode_utf8(b),
    decreases a.len(),
{
    if a.len() == 0 {
        assert(a + b =~= b);
        assert(encode_utf8(a) =~= Seq::<u8>::empty());
        assert(encode_utf8(a) + encode_utf8(b) =~= encode_utf8(b));
    } else {
        lemma_encode_utf8_append(a.drop_first(), b);
        assert((a + b).drop_first() =~= a.drop_first() + b);
        assert((a + b)[0] == a[0]);
        assert(encode_utf8(a + b) =~= vstd::utf8::encode_scalar(a[0] as u32) + encode_utf8(
            a.drop_first() + b,
        ));
    }
}

/// `s` names the run `text[start..start + count]`, and that run is `value`.
pub open spec fn locates<T: Slice>(text: Seq<u8>, s: T, value: Seq<u8>) -> bool {
    &&& s.spec_start() + s.spec_count() <= text.len()
    &&& text.subrange(s.spec_start() as int, s.spec_start() + s.spec_count()) == value
}

/// An empty string with room for `capacity` bytes.
#[verifier::external_body]
fn string_with_capacity(capacity: usize) -> (r: String)
    ensures
        r@ == Seq::<char>::empty(),
{
    String::with_capacity(capacity)
}

/// Packs texts into one buffer, each distinct text once, and hands out where
/// each text lies.
pub struct SliceBuilder<T: Slice> {
    buffer: String,
    map: TextMap<T>,
}

impl<T: Slice> SliceBuilder<T> {
    /// The bytes of the buffer.
    pub closed spec fn text(&self) -> Seq<u8> {
        encode_utf8(self.buffer@)
    }

    /// The texts added so far, in the order in which they first arrived.
    pub closed spec fn texts(&self) -> Seq<Seq<u8>> {
        self.map.keys()
    }

    /// The run handed out for each text, position by position.
    pub closed spec fn runs(&self) -> Seq<T> {
        self.map.values()
    }

    /// The run handed out for `value`, if it was added.
    pub open spec fn spec_lookup(&self, value: Seq<u8>) -> Option<T> {
        match find(self.texts(), value) {
            Some(i) => Some(self.runs()[i]),
            None => None,
        }
    }

    /// `self` is `old` with more texts added: every text, run and byte of
    /// `old` is still in place.
    pub open spec fn extends(&self, old: &Self) -> bool {
        &&& old.texts().len() <= self.texts().len()
        &&& old.texts() == self.texts().take(old.texts().len() as int)
        &&& old.runs().len() <= self.runs().len()
        &&& old.runs() == self.runs().take(old.runs().len() as int)
        &&& old.text().len() <= self.text().len()
        &&& old.text() == self.text().take(old.text().len() as int)
    }

    /// Adding texts never changes the run handed out for an earlier text.
    pub proof fn lemma_lookup_kept(&self, old: &Self, v: Seq<u8>)
        requires
            old.wf(),
            self.wf(),
            self.extends(old),
            old.spec_lookup(v) is Some,
        ensures
            self.spec_lookup(v) == old.spec_lookup(v),
    {
        self.map.lemma_wf();
        old.map.lemma_wf();
        let i = find(old.texts(), v)->0;
        assert(self.texts()[i] == old.texts()[i]);
        crate::text_map::lemma_find_unique(self.texts(), v, i);
        assert(self.runs()[i] == old.runs()[i]);
    }

    /// Every builder extends itself.
    pub proof fn lemma_extends_refl(&self)
        ensures
            self.extends(self),
    {
        assert(self.texts().take(self.texts().len() as int) =~= self.texts());
        assert(self.runs().take(self.runs().len() as int) =~= self.runs());
        assert(self.text().take(self.text().len() as int) =~= self.text());
    }

    /// `extends` is transitive.
    pub proof fn lemma_extends_trans(&self, mid: &Self, old: &Self)
        requires
            self.extends(mid),
            mid.extends(old),
        ensures
            self.extends(old),
    {
        assert(old.texts() =~= self.texts().take(old.texts().len() as int));
        assert(old.runs() =~= self.runs().take(old.runs().len() as int));
        assert(old.text() =~= self.text().take(old.text().len() as int));
    }

    /// The buffer is the texts added, one after another; every run handed
    /// out names its text in the buffer, unless the text lay beyond the reach
    /// of 32-bit positions, where the run is the reserved one.
    pub closed spec fn wf(&self) -> bool {
        &&& self.map.wf()
        &&& self.text() == concat(self.map.keys())
        &&& self.text().len() <= usize::MAX
        &&& forall|i: int|
            0 <= i < self.map.keys().len() ==> (#[trigger] self.map.values()[i] == T::spec_none() && self.text().len()
                > u32::MAX) || locates(self.text(), self.map.values()[i], self.map.keys()[i])
    }

    /// What `wf` gives a caller.
    pub proof fn lemma_wf(&self)
        requires
            self.wf(),
        ensures
            self.texts().len() == self.runs().len(),
            self.text().len() <= usize::MAX,
            forall|v: Seq<u8>| #[trigger]
                self.spec_lookup(v) is Some ==> (self.spec_lookup(v)->0 == T::spec_none() && self.text().len()
                    > u32::MAX) || locates(self.text(), self.spec_lookup(v)->0, v),
    {
        self.map.lemma_wf();
        assert forall|v: Seq<u8>| #[trigger] self.spec_lookup(v) is Some implies (self.spec_lookup(v)->0
            == T::spec_none() && self.text().len() > u32::MAX) || locates(self.text(), self.spec_lookup(v)->0, v) by {
            let i = find(self.texts(), v)->0;
            assert((self.map.values()[i] == T::spec_none() && self.text().len() > u32::MAX) || locates(
                self.text(),
                self.map.values()[i],
                self.map.keys()[i],
            ));
        }
    }

    /// An empty builder.
    pub fn new() -> (r: Self)
        ensures
            r.wf(),
            r.text() == Seq::<u8>::empty(),
            r.texts() == Seq::<Seq<u8>>::empty(),
    {
        let r = SliceBuilder { buffer: String::new(), map: TextMap::new() };
        assert(encode_utf8(Seq::<char>::empty()) =~= Seq::<u8>::empty());
        r
    }

    /// An empty builder whose buffer has room for `capacity` bytes.
    pub fn with_capacity(capacity: usize) -> (r: Self)
        ensures
            r.wf(),
            r.text() == Seq::<u8>::empty(),
            r.texts() == Seq::<Seq<u8>>::empty(),
    {
        let r = SliceBuilder { buffer: string_with_capacity(capacity), map: TextMap::new() };
        assert(encode_utf8(Seq::<char>::empty()) =~= Seq::<u8>::empty());
        r
    }

    /// Returns where in the buffer `value` lies. A text already added is not
    /// added again: its first run is returned. A new text is appended; where
    /// its start or length do not fit in 32 bits, the reserved run is returned.
    pub fn add(&mut self, value: &str) -> (r: T)
        requires
            old(self).wf(),
            old(self).text().len() + value.spec_bytes().len() <= usize::MAX,
        ensures
            Self::added(*old(self), value.spec_bytes(), r, *final(self)),
            final(self).wf(),
            final(self).extends(&*old(self)),
            final(self).spec_lookup(value.spec_bytes()) == Some(r),
            match old(self).spec_lookup(value.spec_bytes()) {
                Some(s) => {
                    &&& r == s
                    &&& final(self).text() == old(self).text()
                    &&& final(self).texts() == old(self).texts()
                    &&& final(self).runs() == old(self).runs()
                },
                None => {
                    &&& final(self).text() == old(self).text() + value.spec_bytes()
                    &&& final(self).texts() == old(self).texts().push(value.spec_bytes())
                    &&& final(self).runs() == old(self).runs().push(r)
                    &&& if old(self).text().len() <= u32::MAX && value.spec_bytes().len()
                        <= u32::MAX {
                        &&& r.spec_start() == old(self).text().len()
                        &&& r.spec_count() == value.spec_bytes().len()
                    } else {
                        r == T::spec_none()
                    }
                },
            },
    {
        let bytes = value.as_bytes();
        proof {
            self.map.lemma_wf();
        }
        match self.map.get(bytes) {
            Some(s) => {
                assert(self.texts().take(self.texts().len() as int) =~= self.texts());
                assert(self.runs().take(self.runs().len() as int) =~= self.runs());
                assert(self.text().take(self.text().len() as int) =~= self.text());
                *s
            },
            None => {
                let start = self.buffer.as_str().len();
                let count = bytes.len();
                let ghost old_text = self.text();
                self.buffer.append(value);
                proof {
                    lemma_encode_utf8_append(old(self).buffer@, value@);
                }
                let slice = T::from_usize(start, count);
                self.map.insert(value, slice);
                proof {
                    self.map.lemma_wf();
                    assert(self.text() == old_text + bytes@);
                    assert forall|i: int|
                        0 <= i < self.map.keys().len() implies (#[trigger] self.map.values()[i]
                        == T::spec_none() && self.text().len() > u32::MAX) || locates(
                        self.text(),
                        self.map.values()[i],
                        self.map.keys()[i],
                    ) by {
                        if i < old(self).map.keys().len() {
                            assert((old(self).map.values()[i] == T::spec_none() && old_text.len() > u32::MAX) || locates(
                                old_text,
                                old(self).map.values()[i],
                                old(self).map.keys()[i],
                            ));
                            let s = self.map.values()[i];
                            if locates(old_text, s, old(self).map.keys()[i]) {
                                assert(self.text().subrange(
                                    s.spec_start() as int,
                                    s.spec_start() + s.spec_count(),
                                ) =~= old_text.subrange(
                                    s.spec_start() as int,
                                    s.spec_start() + s.spec_count(),
                                ));
                            }
                        } else {
                            if start <= u32::MAX && count <= u32::MAX {
                                assert(self.text().subrange(start as int, start + count)
                                    =~= bytes@);
                            }
                        }
                    }
                }
                proof {
                    assert(self.map.keys().drop_last() =~= old(self).map.keys());
                    assert(old(self).texts() =~= self.texts().take(old(self).texts().len() as int));
                    assert(old(self).runs() =~= self.runs().take(old(self).runs().len() as int));
                    assert(old_text =~= self.text().take(old_text.len() as int));
                    crate::text_map::lemma_find_unique(self.texts(), bytes@, old(self).texts().len() as int);
                }
                slice
            },
        }
    }

    /// One call of `add`: `after` is `before` with `v` added, the call having
    /// returned `r`. A text already added keeps its run and leaves the buffer
    /// as it was; a new one is appended, and its run starts at the old length
    /// where both fit in 32 bits.
    pub open spec fn added(before: Self, v: Seq<u8>, r: T, after: Self) -> bool {
        &&& after.wf()
        &&& after.extends(&before)
        &&& after.spec_lookup(v) == Some(r)
        &&& match before.spec_lookup(v) {
            Some(s) => {
                &&& r == s
                &&& after.text() == before.text()
                &&& after.texts() == before.texts()
                &&& after.runs() == before.runs()
            },
            None => {
                &&& after.text() == before.text() + v
                &&& after.texts() == before.texts().push(v)
                &&& after.runs() == before.runs().push(r)
                &&& if before.text().len() <= u32::MAX && v.len() <= u32::MAX {
                    &&& r.spec_start() == before.text().len()
                    &&& r.spec_count() == v.len()
                } else {
                    r == T::spec_none()
                }
            },
        }
    }

    /// `bs[i + 1]` is `bs[i]` after `add(vs[i])` returned `rs[i]`, call by
    /// call, starting from an empty builder.
    pub open spec fn add_calls(bs: Seq<Self>, vs: Seq<Seq<u8>>, rs: Seq<T>) -> bool {
        &&& bs.len() == vs.len() + 1
        &&& rs.len() == vs.len()
        &&& bs[0].wf()
        &&& bs[0].texts() == Seq::<Seq<u8>>::empty()
        &&& forall|i: int| 0 <= i < vs.len() ==> #[trigger] Self::added(bs[i], vs[i], rs[i], bs[i + 1])
    }

    /// After calls of `add`, the builder holds the distinct texts added, in
    /// order of first addition, and its buffer is those texts one after
    /// another, so `take` gives exactly them.
    pub proof fn lemma_calls_texts(bs: Seq<Self>, vs: Seq<Seq<u8>>, rs: Seq<T>, i: int)
        requires
            Self::add_calls(bs, vs, rs),
            0 <= i <= vs.len(),
        ensures
            bs[i].wf(),
            bs[i].texts() == first_seen(vs.take(i)),
            bs[i].text() == concat(first_seen(vs.take(i))),
        decreases i,
    {
        if i == 0 {
            assert(vs.take(0) =~= Seq::<Seq<u8>>::empty());
            bs[0].map.lemma_wf();
        } else {
            Self::lemma_calls_texts(bs, vs, rs, i - 1);
            let b0 = bs[i - 1];
            let v = vs[i - 1];
            let k = i - 1;
            assert(Self::added(bs[k], vs[k], rs[k], bs[k + 1]));
            assert(bs[k + 1] == bs[i]);
            assert(vs.take(i) =~= vs.take(i - 1).push(v));
            lemma_first_seen_push(vs.take(i - 1), v);
            assert(b0.spec_lookup(v) is Some <==> b0.texts().contains(v));
            bs[i].lemma_text_is_texts();
        }
    }

    /// Later calls of `add` only extend the builder.
    pub proof fn lemma_calls_extend(bs: Seq<Self>, vs: Seq<Seq<u8>>, rs: Seq<T>, i: int, j: int)
        requires
            Self::add_calls(bs, vs, rs),
            0 <= i <= j <= vs.len(),
        ensures
            bs[j].extends(&bs[i]),
        decreases j - i,
    {
        if i == j {
            bs[i].lemma_extends_refl();
        } else {
            Self::lemma_calls_extend(bs, vs, rs, i, j - 1);
            let k = j - 1;
            assert(Self::added(bs[k], vs[k], rs[k], bs[k + 1]));
            assert(bs[k + 1] == bs[j]);
            bs[j].lemma_extends_trans(&bs[j - 1], &bs[i]);
        }
    }

    /// A run that `add` handed out keeps naming its text in the buffer
    /// through every later call, where the buffer and the text together fit
    /// in 32-bit positions when the run is handed out.
    pub proof fn lemma_calls_runs_kept(bs: Seq<Self>, vs: Seq<Seq<u8>>, rs: Seq<T>, i: int, j: int)
        requires
            Self::add_calls(bs, vs, rs),
            0 <= i < j <= vs.len(),
            bs[i].text().len() + vs[i].len() <= u32::MAX,
        ensures
            locates(bs[j].text(), rs[i], vs[i]),
    {
        let b = bs[i + 1];
        assert(Self::added(bs[i], vs[i], rs[i], b));
        b.lemma_extends_refl();
        b.lemma_run_kept(&b, vs[i], rs[i]);
        Self::lemma_calls_extend(bs, vs, rs, i + 1, j);
        let start = rs[i].spec_start() as int;
        let end = start + rs[i].spec_count();
        assert(bs[j].text().subrange(start, end) =~= b.text().subrange(start, end)) by {
            assert forall|x: int| start <= x < end implies bs[j].text()[x] == b.text()[x] by {
                assert(b.text()[x] == bs[j].text().take(b.text().len() as int)[x]);
            }
        }
    }

    /// `add` gives a text added by an earlier call the run that call gave; a
    /// text not added before gets a run starting at the buffer's old length,
    /// which is the length of the distinct earlier texts, where both fit in
    /// 32 bits.
    pub proof fn lemma_calls_runs(bs: Seq<Self>, vs: Seq<Seq<u8>>, rs: Seq<T>, j: int)
        requires
            Self::add_calls(bs, vs, rs),
            0 <= j < vs.len(),
        ensures
            forall|i: int| 0 <= i < j && vs[i] == vs[j] ==> rs[j] == #[trigger] rs[i],
            !vs.take(j).contains(vs[j]) ==> {
                let before = concat(first_seen(vs.take(j)));
                &&& bs[j + 1].text() == before + vs[j]
                &&& (before.len() <= u32::MAX && vs[j].len() <= u32::MAX) ==> rs[j].spec_start() == before.len()
                    && rs[j].spec_count() == vs[j].len()
            },
    {
        Self::lemma_calls_texts(bs, vs, rs, j);
        assert(Self::added(bs[j], vs[j], rs[j], bs[j + 1]));
        lemma_first_seen(vs.take(j));
        assert forall|i: int| 0 <= i < j && vs[i] == vs[j] implies rs[j] == #[trigger] rs[i] by {
            assert(Self::added(bs[i], vs[i], rs[i], bs[i + 1]));
            Self::lemma_calls_extend(bs, vs, rs, i + 1, j);
            Self::lemma_calls_texts(bs, vs, rs, i + 1);
            bs[j].lemma_lookup_kept(&bs[i + 1], vs[i]);
        }
        if !vs.take(j).contains(vs[j]) {
            assert(!bs[j].texts().contains(vs[j]));
            assert(bs[j].spec_lookup(vs[j]) is None);
        }
    }

    /// The buffer holds each text added exactly once, in the order in which
    /// the texts first arrived, one after another.
    pub proof fn lemma_text_is_texts(&self)
        requires
            self.wf(),
        ensures
            self.text() == concat(self.texts()),
            distinct(self.texts()),
    {
        self.map.lemma_wf();
    }

    /// A run that `add` handed out for `v` still names `v` in the buffer
    /// after any further texts, while the buffer fits in 32-bit positions.
    pub proof fn lemma_run_kept(&self, old: &Self, v: Seq<u8>, r: T)
        requires
            old.wf(),
            self.wf(),
            self.extends(old),
            old.spec_lookup(v) == Some(r),
            self.text().len() <= u32::MAX,
        ensures
            locates(self.text(), r, v),
    {
        self.lemma_lookup_kept(old, v);
        self.lemma_wf();
        assert(self.spec_lookup(v) is Some);
    }

    /// The buffer, holding every text added.
    pub fn take(self) -> (r: String)
        ensures
            encode_utf8(r@) == self.text(),
    {
        self.buffer
    }
}

} // verus!
