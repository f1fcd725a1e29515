//! The byte encoding of the compiled format: every record is a fixed number
//! of 32-bit words, each stored little-endian.

use vstd::prelude::*;

verus! {

/// The four little-endian bytes of `w`.
pub open spec fn le_bytes(w: u32) -> Seq<u8> {
    seq![(w % 256) as u8, ((w / 256) % 256) as u8, ((w / 65536) % 256) as u8, (w / 16777216) as u8]
}

/// The word whose little-endian bytes are the four bytes of `b`.
pub open spec fn le_word(b: Seq<u8>) -> u32 {
    (b[0] + 256 * b[1] + 65536 * b[2] + 16777216 * b[3]) as u32
}

/// The bytes of a sequence of words, each little-endian, one after the other.
pub open spec fn words_to_bytes(ws: Seq<u32>) -> Seq<u8>
    decreases ws.len(),
{
    if ws.len() == 0 {
        Seq::empty()
    } else {
        words_to_bytes(ws.drop_last()) + le_bytes(ws.last())
    }
}

/// The `n` words stored in `b` from byte `pos` on.
pub open spec fn words_at(b: Seq<u8>, pos: int, n: nat) -> Seq<u32> {
    Seq::new(n, |k: int| le_word(b.subrange(pos + 4 * k, pos + 4 * k + 4)))
}

pub proof fn lemma_le_roundtrip(w: u32)
    ensures
        le_word(le_bytes(w)) == w,
        le_bytes(w).len() == 4,
{
    let b = le_bytes(w);
    assert(b[0] + 256 * b[1] + 65536 * b[2] + 16777216 * b[3] == w) by (nonlinear_arith)
        requires
            b[0] == w % 256,
            b[1] == (w / 256) % 256,
            b[2] == (w / 65536) % 256,
            b[3] == w / 16777216,
            w <= 0xffff_ffff,
    ;
}

pub proof fn lemma_words_to_bytes_len(ws: Seq<u32>)
    ensures
        words_to_bytes(ws).len() == 4 * ws.len(),
    decreases ws.len(),
{
    if ws.len() > 0 {
        lemma_words_to_bytes_len(ws.drop_last());
    }
}

/// Bytes past the end of `b0` leave the words stored within it unchanged.
pub proof fn lemma_words_at_prefix(b0: Seq<u8>, b1: Seq<u8>, pos: int, n: nat)
    requires
        0 <= pos,
        pos + 4 * n <= b0.len(),
        b0.len() <= b1.len(),
        b1.subrange(0, b0.len() as int) == b0,
    ensures
        words_at(b1, pos, n) == words_at(b0, pos, n),
{
    assert forall|k: int| 0 <= k < n implies #[trigger] words_at(b1, pos, n)[k] == words_at(
        b0,
        pos,
        n,
    )[k] by {
        assert forall|j: int| 0 <= j < b0.len() implies #[trigger] b1[j] == b0[j] by {
            assert(b1.subrange(0, b0.len() as int)[j] == b1[j]);
        }
        assert(b1.subrange(pos + 4 * k, pos + 4 * k + 4) =~= b0.subrange(
            pos + 4 * k,
            pos + 4 * k + 4,
        ));
    }
    assert(words_at(b1, pos, n) =~= words_at(b0, pos, n));
}

/// Words appended after `b0` are read back from where they were written.
pub proof fn lemma_words_at_appended(b0: Seq<u8>, ws: Seq<u32>)
    ensures
        words_at(b0 + words_to_bytes(ws), b0.len() as int, ws.len()) == ws,
    decreases ws.len(),
{
    let b1 = b0 + words_to_bytes(ws);
    if ws.len() > 0 {
        let init = ws.drop_last();
        lemma_words_at_appended(b0, init);
        lemma_words_to_bytes_len(init);
        lemma_words_to_bytes_len(ws);
        let bi = b0 + words_to_bytes(init);
        assert(b1 =~= bi + le_bytes(ws.last()));
        assert(b1.subrange(0, bi.len() as int) =~= bi);
        lemma_words_at_prefix(bi, b1, b0.len() as int, init.len());
        lemma_le_roundtrip(ws.last());
        let p = (b0.len() + 4 * init.len()) as int;
        assert(b1.subrange(p, p + 4) =~= le_bytes(ws.last()));
        assert forall|k: int| 0 <= k < ws.len() implies #[trigger] words_at(
            b1,
            b0.len() as int,
            ws.len(),
        )[k] == ws[k] by {
            if k < init.len() {
                assert(words_at(b1, b0.len() as int, init.len())[k] == init[k]);
            }
        }
        assert(words_at(b1, b0.len() as int, ws.len()) =~= ws);
    } else {
        assert(words_at(b1, b0.len() as int, 0) =~= ws);
    }
}

/// A value stored as a fixed number of words.
pub trait Record: Sized {
    /// The number of words of every value.
    spec fn spec_word_count() -> nat;

    /// The words that store the value.
    spec fn spec_words(&self) -> Seq<u32>;

    /// The value that a run of words stores.
    spec fn spec_from_words(ws: Seq<u32>) -> Self;

    /// Every value is stored in its number of words and read back unchanged.
    proof fn lemma_words_roundtrip(&self)
        ensures
            self.spec_words().len() == Self::spec_word_count(),
            Self::spec_from_words(self.spec_words()) == *self,
    ;

    /// The number of bytes of every value.
    fn byte_size() -> (r: usize)
        ensures
            r == 4 * Self::spec_word_count(),
    ;

    /// Appends the bytes of the value.
    fn write_to(&self, buf: &mut Vec<u8>)
        ensures
            final(buf)@ == old(buf)@ + words_to_bytes(self.spec_words()),
    ;

    /// Reads the value stored from byte `pos` on.
    fn read_from(b: &[u8], pos: usize) -> (r: Self)
        requires
            pos + 4 * Self::spec_word_count() <= b@.len(),
        ensures
            r == Self::spec_from_words(words_at(b@, pos as int, Self::spec_word_count())),
    ;
}

/// The value of type `T` stored in `b` from byte `pos` on.
pub open spec fn record_at<T: Record>(b: Seq<u8>, pos: int) -> T {
    T::spec_from_words(words_at(b, pos, T::spec_word_count()))
}

/// The `count` values of type `T` stored one after another in `b` from byte
/// `pos` on.
pub open spec fn records_at<T: Record>(b: Seq<u8>, pos: int, count: nat) -> Seq<T> {
    Seq::new(count, |i: int| record_at::<T>(b, pos + i * (4 * T::spec_word_count())))
}

/// The bytes of a sequence of values, one after another.
pub open spec fn records_to_bytes<T: Record>(items: Seq<T>) -> Seq<u8>
    decreases items.len(),
{
    if items.len() == 0 {
        Seq::empty()
    } else {
        records_to_bytes(items.drop_last()) + words_to_bytes(items.last().spec_words())
    }
}

/// Values appended after `b0` are read back from where they were written,
/// and take their number of bytes.
pub proof fn lemma_records_appended<T: Record>(b0: Seq<u8>, items: Seq<T>)
    ensures
        records_to_bytes(items).len() == items.len() * (4 * T::spec_word_count()),
        records_at::<T>(b0 + records_to_bytes(items), b0.len() as int, items.len()) == items,
    decreases items.len(),
{
    let size = 4 * T::spec_word_count();
    let b1 = b0 + records_to_bytes(items);
    if items.len() > 0 {
        let init = items.drop_last();
        let last = items.last();
        lemma_records_appended(b0, init);
        let bi = b0 + records_to_bytes(init);
        last.lemma_words_roundtrip();
        lemma_words_to_bytes_len(last.spec_words());
        assert(b1 =~= bi + words_to_bytes(last.spec_words()));
        lemma_words_at_appended(bi, last.spec_words());
        assert(items.len() * size == init.len() * size + size) by (nonlinear_arith)
            requires
                items.len() == init.len() + 1,
        ;
        assert forall|i: int| 0 <= i < items.len() implies #[trigger] records_at::<T>(
            b1,
            b0.len() as int,
            items.len(),
        )[i] == items[i] by {
            let p = b0.len() + i * size;
            if i < init.len() {
                assert(i * size + size <= init.len() * size) by (nonlinear_arith)
                    requires
                        i < init.len(),
                        size >= 0,
                ;
                assert(b1.subrange(0, bi.len() as int) =~= bi);
                assert(i * size >= 0) by (nonlinear_arith)
                    requires
                        i >= 0,
                        size >= 0,
                ;
                lemma_words_at_prefix(bi, b1, p, T::spec_word_count());
                assert(records_at::<T>(bi, b0.len() as int, init.len())[i] == init[i]);
            } else {
                assert(i * size == init.len() * size);
            }
        }
        assert(records_at::<T>(b1, b0.len() as int, items.len()) =~= items);
    } else {
        assert(records_at::<T>(b1, b0.len() as int, 0) =~= items);
    }
}

/// Bytes past the end of `b0` leave the values stored within it unchanged.
pub proof fn lemma_records_prefix<T: Record>(b0: Seq<u8>, b1: Seq<u8>, pos: int, count: nat)
    requires
        0 <= pos,
        pos + count * (4 * T::spec_word_count()) <= b0.len(),
        b0.len() <= b1.len(),
        b1.subrange(0, b0.len() as int) == b0,
    ensures
        records_at::<T>(b1, pos, count) == records_at::<T>(b0, pos, count),
{
    let size = 4 * T::spec_word_count();
    assert forall|i: int| 0 <= i < count implies #[trigger] records_at::<T>(b1, pos, count)[i]
        == records_at::<T>(b0, pos, count)[i] by {
        assert(i * size + size <= count * size && i * size >= 0) by (nonlinear_arith)
            requires
                0 <= i < count,
                size >= 0,
        ;
        lemma_words_at_prefix(b0, b1, pos + i * size, T::spec_word_count());
    }
    assert(records_at::<T>(b1, pos, count) =~= records_at::<T>(b0, pos, count));
}

/// Changing bytes before `pos` leaves the values stored from `pos` on unchanged.
pub proof fn lemma_records_suffix<T: Record>(b0: Seq<u8>, b1: Seq<u8>, pos: int, count: nat)
    requires
        0 <= pos,
        pos + count * (4 * T::spec_word_count()) <= b0.len(),
        b0.len() == b1.len(),
        b1.skip(pos) == b0.skip(pos),
    ensures
        records_at::<T>(b1, pos, count) == records_at::<T>(b0, pos, count),
{
    let size = 4 * T::spec_word_count();
    assert forall|j: int| pos <= j < b0.len() implies #[trigger] b1[j] == b0[j] by {
        assert(b1.skip(pos)[j - pos] == b0.skip(pos)[j - pos]);
    }
    assert forall|i: int| 0 <= i < count implies #[trigger] records_at::<T>(b1, pos, count)[i]
        == records_at::<T>(b0, pos, count)[i] by {
        assert(i * size + size <= count * size && i * size >= 0) by (nonlinear_arith)
            requires
                0 <= i < count,
                size >= 0,
        ;
        let q = pos + i * size;
        assert forall|k: int| 0 <= k < T::spec_word_count() implies #[trigger] words_at(
            b1,
            q,
            T::spec_word_count(),
        )[k] == words_at(b0, q, T::spec_word_count())[k] by {
            assert(b1.subrange(q + 4 * k, q + 4 * k + 4) =~= b0.subrange(q + 4 * k, q + 4 * k + 4));
        }
        assert(words_at(b1, q, T::spec_word_count()) =~= words_at(b0, q, T::spec_word_count()));
    }
    assert(records_at::<T>(b1, pos, count) =~= records_at::<T>(b0, pos, count));
}

/// Appends the little-endian bytes of `w`.
pub fn push_word(buf: &mut Vec<u8>, w: u32)
    ensures
        final(buf)@ == old(buf)@ + le_bytes(w),
{
    buf.push((w % 256) as u8);
    buf.push(((w / 256) % 256) as u8);
    buf.push(((w / 65536) % 256) as u8);
    buf.push((w / 16777216) as u8);
    assert(buf@ =~= old(buf)@ + le_bytes(w));
}

/// Appends the words of `ws`, each little-endian.
pub fn push_words(buf: &mut Vec<u8>, ws: &[u32])
    ensures
        final(buf)@ == old(buf)@ + words_to_bytes(ws@),
{
    let mut i: usize = 0;
    while i < ws.len()
        invariant
            i <= ws.len(),
            buf@ == old(buf)@ + words_to_bytes(ws@.take(i as int)),
        decreases ws.len() - i,
    {
        push_word(buf, ws[i]);
        assert(ws@.take(i + 1).drop_last() =~= ws@.take(i as int));
        assert(buf@ =~= old(buf)@ + words_to_bytes(ws@.take(i + 1)));
        i = i + 1;
    }
    assert(ws@.take(i as int) =~= ws@);
}

/// Reads the little-endian word at byte `pos`.
pub fn read_word(b: &[u8], pos: usize) -> (r: u32)
    requires
        pos + 4 <= b@.len(),
    ensures
        r == le_word(b@.subrange(pos as int, pos + 4)),
{
    let r = b[pos] as u32 + 256 * (b[pos + 1] as u32) + 65536 * (b[pos + 2] as u32) + 16777216 * (
    b[pos + 3] as u32);
    r
}

/// Reads the `n` words stored from byte `pos` on.
pub fn read_words(b: &[u8], pos: usize, n: usize) -> (r: Vec<u32>)
    requires
        pos + 4 * n <= b@.len(),
    ensures
        r@ == words_at(b@, pos as int, n as nat),
{
    let _len = b.len();
    let mut ws: Vec<u32> = Vec::new();
    let mut k: usize = 0;
    while k < n
        invariant
            k <= n,
            pos + 4 * n <= b@.len(),
            _len == b@.len(),
            ws@ == words_at(b@, pos as int, n as nat).take(k as int),
        decreases n - k,
    {
        ws.push(read_word(b, pos + 4 * k));
        assert(ws@ =~= words_at(b@, pos as int, n as nat).take(k + 1));
        k = k + 1;
    }
    assert(ws@ =~= words_at(b@, pos as int, n as nat));
    ws
}

/// Two's complement bits of a signed word.
pub open spec fn i32_bits(v: i32) -> u32 {
    v as u32
}

/// The signed word of two's complement bits.
pub open spec fn bits_i32(w: u32) -> i32 {
    w as i32
}

pub proof fn lemma_i32_bits(v: i32)
    ensures
        bits_i32(i32_bits(v)) == v,
{
    assert((v as u32) as i32 == v) by (bit_vector);
}

} // verus!
