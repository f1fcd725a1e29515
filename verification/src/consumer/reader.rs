use vstd::prelude::*;

use crate::codec::{records_at, Record};
use crate::models::header::Section;
use crate::Error;

verus! {

/// A table of values of type `T` at section `s` lies within `len` bytes.
pub open spec fn fits<T: Record>(s: Section, len: nat) -> bool {
    s.offset + s.count * (4 * T::spec_word_count()) <= len
}

/// A section of raw bytes lies within `len` bytes.
pub open spec fn fits_bytes(s: Section, len: nat) -> bool {
    s.offset + s.count <= len
}

/// The values of type `T` stored in section `s` of `b`.
pub open spec fn table_at<T: Record>(b: Seq<u8>, s: Section) -> Seq<T> {
    records_at::<T>(b, s.offset as int, s.count as nat)
}

/// The raw bytes of section `s` of `b`.
pub open spec fn bytes_in(b: Seq<u8>, s: Section) -> Seq<u8> {
    b.subrange(s.offset as int, s.offset + s.count)
}

/// Reads the tables of a compiled file.
pub struct Reader<'a> {
    bytes: &'a [u8],
}

impl<'a> Reader<'a> {
    /// The bytes being read.
    pub closed spec fn bytes(&self) -> Seq<u8> {
        self.bytes@
    }

    /// A reader of `bytes`.
    pub fn new(bytes: &'a [u8]) -> (r: Self)
        ensures
            r.bytes() == bytes@,
    {
        Reader { bytes }
    }

    /// The raw bytes of a section, or `SectionOutOfBound` where it does not lie
    /// within the file.
    pub fn get_bytes(&self, section: Section) -> (r: Result<Vec<u8>, Error>)
        ensures
            match r {
                Ok(v) => fits_bytes(section, self.bytes().len()) && v@ == bytes_in(
                    self.bytes(),
                    section,
                ),
                Err(e) => !fits_bytes(section, self.bytes().len()) && e == Error::SectionOutOfBound,
            },
    {
        let len = self.bytes.len() as u64;
        if section.offset > len || section.count > len - section.offset {
            return Err(Error::SectionOutOfBound);
        }
        let start = section.offset as usize;
        let end = start + section.count as usize;
        let mut v: Vec<u8> = Vec::new();
        let mut i = start;
        while i < end
            invariant
                start <= i <= end <= self.bytes@.len(),
                v@ == self.bytes@.subrange(start as int, i as int),
            decreases end - i,
        {
            v.push(self.bytes[i]);
            assert(v@ =~= self.bytes@.subrange(start as int, i + 1));
            i = i + 1;
        }
        Ok(v)
    }

    /// The values of a section, or `SectionOutOfBound` where it does not lie
    /// within the file.
    pub fn cast_slice<T: Record>(&self, section: Section) -> (r: Result<Vec<T>, Error>)
        requires
            T::spec_word_count() > 0,
        ensures
            match r {
                Ok(v) => fits::<T>(section, self.bytes().len()) && v@ == table_at::<T>(
                    self.bytes(),
                    section,
                ),
                Err(e) => !fits::<T>(section, self.bytes().len()) && e == Error::SectionOutOfBound,
            },
    {
        let blen = self.bytes.len();
        let len = blen as u64;
        let size = T::byte_size() as u64;
        if section.offset > len {
            return Err(Error::SectionOutOfBound);
        }
        let room = len - section.offset;
        if section.count > room / size {
            assert(section.count * size > room) by (nonlinear_arith)
                requires
                    section.count > room / size,
                    size > 0,
            ;
            return Err(Error::SectionOutOfBound);
        }
        assert(section.count * size <= room && section.count <= room) by (nonlinear_arith)
            requires
                section.count <= room / size,
                size > 0,
        ;
        let count = section.count as usize;
        let size_u = T::byte_size();
        let mut pos = section.offset as usize;
        let mut v: Vec<T> = Vec::new();
        let mut i: usize = 0;
        while i < count
            invariant
                i <= count,
                count == section.count,
                blen == self.bytes@.len(),
                size_u == 4 * T::spec_word_count(),
                pos == section.offset + i * size_u,
                section.offset + count * size_u <= self.bytes@.len(),
                v@ == records_at::<T>(self.bytes@, section.offset as int, section.count as nat).take(i as int),
            decreases count - i,
        {
            assert(pos + size_u <= self.bytes@.len()) by (nonlinear_arith)
                requires
                    pos == section.offset + i * size_u,
                    i < count,
                    section.offset + count * size_u <= self.bytes@.len(),
            ;
            let item = T::read_from(self.bytes, pos);
            v.push(item);
            assert(v@ =~= records_at::<T>(self.bytes@, section.offset as int, section.count as nat).take(i + 1));
            pos = pos + size_u;
            i = i + 1;
            assert(pos == section.offset + i * size_u) by (nonlinear_arith)
                requires
                    pos == section.offset + (i - 1) * size_u + size_u,
            ;
        }
        assert(v@ =~= records_at::<T>(self.bytes@, section.offset as int, section.count as nat));
        Ok(v)
    }
}

} // verus!
