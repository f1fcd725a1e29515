use vstd::prelude::*;

use crate::codec::{lemma_records_appended, records_at, records_to_bytes, Record};
use crate::models::header::Section;

verus! {

/// The zero bytes that bring `len` up to a multiple of 8.
pub open spec fn align_padding(len: nat) -> nat {
    if len % 8 == 0 {
        0
    } else {
        (8 - len % 8) as nat
    }
}

/// Padding brings a length to a multiple of 8.
pub proof fn lemma_padded_aligned(len: nat)
    ensures
        (len + align_padding(len)) % 8 == 0,
{
}

/// `a` is the beginning of `b`.
pub open spec fn is_prefix(a: Seq<u8>, b: Seq<u8>) -> bool {
    a.len() <= b.len() && b.subrange(0, a.len() as int) == a
}

/// `n` zero bytes.
pub open spec fn zeros(n: nat) -> Seq<u8> {
    Seq::new(n, |_i: int| 0u8)
}

/// Builds a compiled file: tables are appended one after another, each
/// starting at a multiple of 8 bytes.
#[derive(Clone, Debug)]
pub struct BinaryWriter {
    buffer: Vec<u8>,
}

impl View for BinaryWriter {
    type V = Seq<u8>;

    closed spec fn view(&self) -> Seq<u8> {
        self.buffer@
    }
}

impl BinaryWriter {
    /// An empty writer.
    pub fn new() -> (r: Self)
        ensures
            r@ == Seq::<u8>::empty(),
    {
        BinaryWriter { buffer: Vec::new() }
    }

    /// An empty writer with room for `capacity` bytes.
    pub fn with_capacity(capacity: usize) -> (r: Self)
        ensures
            r@ == Seq::<u8>::empty(),
    {
        BinaryWriter { buffer: Vec::with_capacity(capacity) }
    }

    /// Appends `size` zero bytes, then pads to a multiple of 8.
    pub fn resize(self, size: usize) -> (r: Self)
        requires
            self@.len() + size <= usize::MAX,
        ensures
            r@ == self@ + zeros(size as nat) + zeros(align_padding((self@.len() + size) as nat)),
    {
        let mut this = self;
        let mut i: usize = 0;
        while i < size
            invariant
                i <= size,
                this.buffer@ == self@ + zeros(i as nat),
            decreases size - i,
        {
            this.buffer.push(0);
            assert(this.buffer@ =~= self@ + zeros((i + 1) as nat));
            i = i + 1;
        }
        this.align();
        this
    }

    /// Pads with zeros to a multiple of 8 bytes.
    fn align(&mut self)
        ensures
            final(self)@ == old(self)@ + zeros(align_padding(old(self)@.len())),
    {
        let ghost start = self.buffer@;
        while self.buffer.len() % 8 != 0
            invariant
                start.len() <= self.buffer@.len() <= start.len() + align_padding(start.len()),
                self.buffer@ == start + zeros((self.buffer@.len() - start.len()) as nat),
                start.len() % 8 != 0 ==> self.buffer@.len() % 8 == 0 || (self.buffer@.len() - start.len()) < align_padding(start.len()),
                start.len() % 8 == 0 ==> self.buffer@.len() == start.len(),
            decreases start.len() + align_padding(start.len()) - self.buffer@.len(),
        {
            let ghost before = self.buffer@;
            self.buffer.push(0);
            assert(self.buffer@ =~= start + zeros((self.buffer@.len() - start.len()) as nat));
        }
    }

    /// Appends the values of `items`, pads to a multiple of 8, and returns where
    /// they lie.
    pub fn write_section<T: Record>(&mut self, items: &[T]) -> (r: Section)
        ensures
            final(self)@ == old(self)@ + records_to_bytes(items@) + zeros(
                align_padding((old(self)@.len() + records_to_bytes(items@).len()) as nat),
            ),
            is_prefix(old(self)@, final(self)@),
            final(self)@.len() % 8 == 0,
            r.offset == old(self)@.len(),
            r.count == items@.len(),
            r.offset + r.count * (4 * T::spec_word_count()) <= final(self)@.len(),
            records_at::<T>(final(self)@, r.offset as int, r.count as nat) == items@,
    {
        let offset = self.buffer.len() as u64;
        let count = items.len() as u64;
        let ghost start = self.buffer@;
        let mut i: usize = 0;
        while i < items.len()
            invariant
                i <= items@.len(),
                self.buffer@ == start + records_to_bytes(items@.take(i as int)),
            decreases items@.len() - i,
        {
            items[i].write_to(&mut self.buffer);
            assert(items@.take(i + 1).drop_last() =~= items@.take(i as int));
            i = i + 1;
        }
        assert(items@.take(i as int) =~= items@);
        let ghost written = self.buffer@;
        let ghost pre = self.buffer@;
        self.align();
        proof {
            lemma_padded_aligned(pre.len());
        }
        assert(self.buffer@.subrange(0, start.len() as int) =~= start);
        proof {
            lemma_records_appended(start, items@);
            assert(self.buffer@.subrange(0, written.len() as int) =~= written);
            crate::codec::lemma_records_prefix::<T>(
                written,
                self.buffer@,
                start.len() as int,
                items@.len(),
            );
            assert(self.buffer@.subrange(0, written.len() as int) =~= written);
        }
        Section { offset, count }
    }

    /// Appends raw bytes, pads to a multiple of 8, and returns where they lie.
    pub fn write_bytes(&mut self, bytes: &[u8]) -> (r: Section)
        ensures
            final(self)@ == old(self)@ + bytes@ + zeros(align_padding((old(self)@.len() + bytes@.len()) as nat)),
            is_prefix(old(self)@, final(self)@),
            final(self)@.len() % 8 == 0,
            r.offset == old(self)@.len(),
            r.count == bytes@.len(),
            r.offset + r.count <= final(self)@.len(),
            final(self)@.subrange(r.offset as int, r.offset + r.count) == bytes@,
    {
        let offset = self.buffer.len() as u64;
        let count = bytes.len() as u64;
        let ghost start = self.buffer@;
        let mut i: usize = 0;
        while i < bytes.len()
            invariant
                i <= bytes@.len(),
                self.buffer@ == start + bytes@.take(i as int),
            decreases bytes@.len() - i,
        {
            self.buffer.push(bytes[i]);
            assert(self.buffer@ =~= start + bytes@.take(i + 1));
            i = i + 1;
        }
        assert(bytes@.take(i as int) =~= bytes@);
        let ghost pre = self.buffer@;
        self.align();
        proof {
            lemma_padded_aligned(pre.len());
        }
        assert(self.buffer@.subrange(offset as int, offset + count) =~= bytes@);
        assert(self.buffer@.subrange(0, start.len() as int) =~= start);
        Section { offset, count }
    }

    /// Replaces the bytes from `offset` on with `bytes`.
    pub fn overwrite(&mut self, offset: usize, bytes: &[u8])
        requires
            offset + bytes@.len() <= old(self)@.len(),
        ensures
            final(self)@ == old(self)@.subrange(0, offset as int) + bytes@ + old(self)@.subrange(
                offset + bytes@.len(),
                old(self)@.len() as int,
            ),
    {
        let ghost start = self.buffer@;
        let _len = self.buffer.len();
        let mut i: usize = 0;
        while i < bytes.len()
            invariant
                i <= bytes@.len(),
                offset + bytes@.len() <= start.len(),
                _len == start.len(),
                self.buffer@ == start.subrange(0, offset as int) + bytes@.take(i as int)
                    + start.subrange(offset + i, start.len() as int),
            decreases bytes@.len() - i,
        {
            self.buffer.set(offset + i, bytes[i]);
            assert(self.buffer@ =~= start.subrange(0, offset as int) + bytes@.take(i + 1)
                + start.subrange(offset + i + 1, start.len() as int));
            i = i + 1;
        }
        assert(bytes@.take(i as int) =~= bytes@);
    }

    /// The written bytes.
    pub fn take(self) -> (r: Vec<u8>)
        ensures
            r@ == self@,
    {
        self.buffer
    }
}

} // verus!
