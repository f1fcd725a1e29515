use vstd::prelude::*;

use crate::codec::{bits_i32, i32_bits, lemma_i32_bits, push_words, read_word, Record};
use crate::models::opt::Opt;
use crate::models::sentinel::Sentinel;

verus! {

/// A geographic point with latitude and longitude stored as integers,
/// scaled by 10,000,000 and rounded: about 1.1 cm of precision in 8 bytes.
#[derive(Debug, Default, Clone, Copy, PartialEq, Eq, Structural)]
pub struct Coordinate {
    /// Latitude times 10,000,000, rounded.
    pub packed_latitude: i32,
    /// Longitude times 10,000,000, rounded.
    pub packed_longitude: i32,
}

impl Coordinate {
    /// The coordinate of already scaled integers.
    pub fn from_packed(packed_latitude: i32, packed_longitude: i32) -> (r: Self)
        ensures
            r.packed_latitude == packed_latitude,
            r.packed_longitude == packed_longitude,
    {
        Coordinate { packed_latitude, packed_longitude }
    }
}

impl Sentinel for Coordinate {
    open spec fn spec_none() -> Self {
        Coordinate { packed_latitude: i32::MAX, packed_longitude: i32::MAX }
    }

    fn none() -> (r: Self) {
        Coordinate { packed_latitude: i32::MAX, packed_longitude: i32::MAX }
    }

    fn is_none(self) -> (b: bool) {
        self.packed_latitude == i32::MAX && self.packed_longitude == i32::MAX
    }

    fn is_some(self) -> (b: bool) {
        !(self.packed_latitude == i32::MAX && self.packed_longitude == i32::MAX)
    }

    fn as_option(self) -> (o: Option<Self>) {
        if self.packed_latitude == i32::MAX && self.packed_longitude == i32::MAX {
            None
        } else {
            Some(self)
        }
    }
}

/// A distance along a shape, stored as the bits of a 32-bit float.
#[derive(Debug, Clone, Copy, PartialEq, Eq, Structural)]
pub struct Distance(pub u32);

impl Sentinel for Distance {
    /// The bits of `f32::MAX`.
    open spec fn spec_none() -> Self {
        Distance(0x7f7f_ffff)
    }

    fn none() -> (r: Self) {
        Distance(0x7f7f_ffff)
    }

    fn is_none(self) -> (b: bool) {
        self.0 == 0x7f7f_ffff
    }

    fn is_some(self) -> (b: bool) {
        self.0 != 0x7f7f_ffff
    }

    fn as_option(self) -> (o: Option<Self>) {
        if self.0 == 0x7f7f_ffff {
            None
        } else {
            Some(self)
        }
    }
}

impl Default for Distance {
    /// The bits of `f32::MIN`.
    fn default() -> (r: Self)
        ensures
            r.0 == 0xff7f_ffff,
    {
        Distance(0xff7f_ffff)
    }
}

/// One point of a shape.
#[derive(Debug, Clone, Copy)]
pub struct Shape {
    /// The geographic point.
    pub coordinate: Coordinate,
    /// Distance traveled along the shape from its first point.
    pub distance_traveled: Opt<Distance>,
}

impl Record for Shape {
    open spec fn spec_word_count() -> nat {
        3
    }

    open spec fn spec_words(&self) -> Seq<u32> {
        seq![
            i32_bits(self.coordinate.packed_latitude),
            i32_bits(self.coordinate.packed_longitude),
            self.distance_traveled.0.0,
        ]
    }

    open spec fn spec_from_words(ws: Seq<u32>) -> Self {
        Shape {
            coordinate: Coordinate { packed_latitude: bits_i32(ws[0]), packed_longitude: bits_i32(ws[1]) },
            distance_traveled: Opt(Distance(ws[2])),
        }
    }

    proof fn lemma_words_roundtrip(&self) {
        lemma_i32_bits(self.coordinate.packed_latitude);
        lemma_i32_bits(self.coordinate.packed_longitude);
    }

    fn byte_size() -> (r: usize) {
        12
    }

    fn write_to(&self, buf: &mut Vec<u8>) {
        let ws: [u32; 3] = [
            (self.coordinate.packed_latitude as u32),
            (self.coordinate.packed_longitude as u32),
            self.distance_traveled.0.0,
        ];
        assert(ws@ =~= self.spec_words());
        push_words(buf, &ws);
    }

    fn read_from(b: &[u8], pos: usize) -> (r: Self) {
        let _n = b.len();
        Shape {
            coordinate: Coordinate { packed_latitude: (read_word(b, pos + 0) as i32), packed_longitude: (read_word(b, pos + 4) as i32) },
            distance_traveled: Opt(Distance(read_word(b, pos + 8))),
        }
    }
}

} // verus!
