use vstd::prelude::*;

use crate::codec::{push_words, read_word, Record};
use crate::models::sentinel::Sentinel;

verus! {

/// A position in one of the tables of a compiled network; `u32::MAX` is
/// reserved for "no position".
pub trait Idx: Sentinel {
    /// The position as a number.
    spec fn spec_index(&self) -> u32;

    /// The position as a number.
    fn index(&self) -> (r: u32)
        ensures
            r == self.spec_index(),
    ;

    /// The index of position `i`.
    fn from_index(i: u32) -> (r: Self)
        ensures
            r.spec_index() == i,
    ;

    /// Two indexes of the same position are the same.
    proof fn lemma_index_injective(a: Self, b: Self)
        requires
            a.spec_index() == b.spec_index(),
        ensures
            a == b,
    ;
}

/// Index of a stop in the stops table.
#[derive(Debug, Clone, Copy, PartialEq, Eq, Structural, Hash, PartialOrd, Ord)]
pub struct StopIdx(pub u32);

impl Sentinel for StopIdx {
    open spec fn spec_none() -> Self {
        StopIdx(u32::MAX)
    }

    fn none() -> (r: Self) {
        StopIdx(u32::MAX)
    }

    fn is_none(self) -> (b: bool) {
        self.0 == u32::MAX
    }

    fn is_some(self) -> (b: bool) {
        self.0 != u32::MAX
    }

    fn as_option(self) -> (o: Option<Self>) {
        if self.0 == u32::MAX {
            None
        } else {
            Some(self)
        }
    }
}

impl Record for StopIdx {
    open spec fn spec_word_count() -> nat {
        1
    }

    open spec fn spec_words(&self) -> Seq<u32> {
        seq![self.0]
    }

    open spec fn spec_from_words(ws: Seq<u32>) -> Self {
        StopIdx(ws[0])
    }

    proof fn lemma_words_roundtrip(&self) {
    }

    fn byte_size() -> (r: usize) {
        4
    }

    fn write_to(&self, buf: &mut Vec<u8>) {
        let ws: [u32; 1] = [self.0];
        assert(ws@ =~= self.spec_words());
        push_words(buf, &ws);
    }

    fn read_from(b: &[u8], pos: usize) -> (r: Self) {
        let _n = b.len();
        StopIdx(read_word(b, pos))
    }
}

impl Idx for StopIdx {
    open spec fn spec_index(&self) -> u32 {
        self.0
    }

    fn index(&self) -> (r: u32) {
        self.0
    }

    fn from_index(i: u32) -> (r: Self) {
        StopIdx(i)
    }

    proof fn lemma_index_injective(a: Self, b: Self) {
    }
}

impl Default for StopIdx {
    fn default() -> (r: Self)
        ensures
            r == Self::spec_none(),
    {
        StopIdx(u32::MAX)
    }
}

impl StopIdx {
    /// The index as a `usize`.
    pub fn to_usize(&self) -> (r: usize)
        ensures
            r == self.0,
    {
        self.0 as usize
    }

    /// The index as a `usize`.
    pub fn as_usize(&self) -> (r: usize)
        ensures
            r == self.0,
    {
        self.0 as usize
    }

    /// The index of position `i`.
    pub fn from_usize(i: usize) -> (r: Self)
        requires
            i <= u32::MAX,
        ensures
            r.0 == i,
    {
        StopIdx(i as u32)
    }
}


/// Index of a trip in the trips table.
#[derive(Debug, Clone, Copy, PartialEq, Eq, Structural, Hash, PartialOrd, Ord)]
pub struct TripIdx(pub u32);

impl Sentinel for TripIdx {
    open spec fn spec_none() -> Self {
        TripIdx(u32::MAX)
    }

    fn none() -> (r: Self) {
        TripIdx(u32::MAX)
    }

    fn is_none(self) -> (b: bool) {
        self.0 == u32::MAX
    }

    fn is_some(self) -> (b: bool) {
        self.0 != u32::MAX
    }

    fn as_option(self) -> (o: Option<Self>) {
        if self.0 == u32::MAX {
            None
        } else {
            Some(self)
        }
    }
}

impl Record for TripIdx {
    open spec fn spec_word_count() -> nat {
        1
    }

    open spec fn spec_words(&self) -> Seq<u32> {
        seq![self.0]
    }

    open spec fn spec_from_words(ws: Seq<u32>) -> Self {
        TripIdx(ws[0])
    }

    proof fn lemma_words_roundtrip(&self) {
    }

    fn byte_size() -> (r: usize) {
        4
    }

    fn write_to(&self, buf: &mut Vec<u8>) {
        let ws: [u32; 1] = [self.0];
        assert(ws@ =~= self.spec_words());
        push_words(buf, &ws);
    }

    fn read_from(b: &[u8], pos: usize) -> (r: Self) {
        let _n = b.len();
        TripIdx(read_word(b, pos))
    }
}

impl Idx for TripIdx {
    open spec fn spec_index(&self) -> u32 {
        self.0
    }

    fn index(&self) -> (r: u32) {
        self.0
    }

    fn from_index(i: u32) -> (r: Self) {
        TripIdx(i)
    }

    proof fn lemma_index_injective(a: Self, b: Self) {
    }
}

impl Default for TripIdx {
    fn default() -> (r: Self)
        ensures
            r == Self::spec_none(),
    {
        TripIdx(u32::MAX)
    }
}

impl TripIdx {
    /// The index as a `usize`.
    pub fn to_usize(&self) -> (r: usize)
        ensures
            r == self.0,
    {
        self.0 as usize
    }

    /// The index as a `usize`.
    pub fn as_usize(&self) -> (r: usize)
        ensures
            r == self.0,
    {
        self.0 as usize
    }

    /// The index of position `i`.
    pub fn from_usize(i: usize) -> (r: Self)
        requires
            i <= u32::MAX,
        ensures
            r.0 == i,
    {
        TripIdx(i as u32)
    }
}


/// Index of a route in the routes table.
#[derive(Debug, Clone, Copy, PartialEq, Eq, Structural, Hash, PartialOrd, Ord)]
pub struct RouteIdx(pub u32);

impl Sentinel for RouteIdx {
    open spec fn spec_none() -> Self {
        RouteIdx(u32::MAX)
    }

    fn none() -> (r: Self) {
        RouteIdx(u32::MAX)
    }

    fn is_none(self) -> (b: bool) {
        self.0 == u32::MAX
    }

    fn is_some(self) -> (b: bool) {
        self.0 != u32::MAX
    }

    fn as_option(self) -> (o: Option<Self>) {
        if self.0 == u32::MAX {
            None
        } else {
            Some(self)
        }
    }
}

impl Record for RouteIdx {
    open spec fn spec_word_count() -> nat {
        1
    }

    open spec fn spec_words(&self) -> Seq<u32> {
        seq![self.0]
    }

    open spec fn spec_from_words(ws: Seq<u32>) -> Self {
        RouteIdx(ws[0])
    }

    proof fn lemma_words_roundtrip(&self) {
    }

    fn byte_size() -> (r: usize) {
        4
    }

    fn write_to(&self, buf: &mut Vec<u8>) {
        let ws: [u32; 1] = [self.0];
        assert(ws@ =~= self.spec_words());
        push_words(buf, &ws);
    }

    fn read_from(b: &[u8], pos: usize) -> (r: Self) {
        let _n = b.len();
        RouteIdx(read_word(b, pos))
    }
}

impl Idx for RouteIdx {
    open spec fn spec_index(&self) -> u32 {
        self.0
    }

    fn index(&self) -> (r: u32) {
        self.0
    }

    fn from_index(i: u32) -> (r: Self) {
        RouteIdx(i)
    }

    proof fn lemma_index_injective(a: Self, b: Self) {
    }
}

impl Default for RouteIdx {
    fn default() -> (r: Self)
        ensures
            r == Self::spec_none(),
    {
        RouteIdx(u32::MAX)
    }
}

impl RouteIdx {
    /// The index as a `usize`.
    pub fn to_usize(&self) -> (r: usize)
        ensures
            r == self.0,
    {
        self.0 as usize
    }

    /// The index as a `usize`.
    pub fn as_usize(&self) -> (r: usize)
        ensures
            r == self.0,
    {
        self.0 as usize
    }

    /// The index of position `i`.
    pub fn from_usize(i: usize) -> (r: Self)
        requires
            i <= u32::MAX,
        ensures
            r.0 == i,
    {
        RouteIdx(i as u32)
    }
}


/// Index of a stop time in the stop times table.
#[derive(Debug, Clone, Copy, PartialEq, Eq, Structural, Hash, PartialOrd, Ord)]
pub struct StopTimeIdx(pub u32);

impl Sentinel for StopTimeIdx {
    open spec fn spec_none() -> Self {
        StopTimeIdx(u32::MAX)
    }

    fn none() -> (r: Self) {
        StopTimeIdx(u32::MAX)
    }

    fn is_none(self) -> (b: bool) {
        self.0 == u32::MAX
    }

    fn is_some(self) -> (b: bool) {
        self.0 != u32::MAX
    }

    fn as_option(self) -> (o: Option<Self>) {
        if self.0 == u32::MAX {
            None
        } else {
            Some(self)
        }
    }
}

impl Record for StopTimeIdx {
    open spec fn spec_word_count() -> nat {
        1
    }

    open spec fn spec_words(&self) -> Seq<u32> {
        seq![self.0]
    }

    open spec fn spec_from_words(ws: Seq<u32>) -> Self {
        StopTimeIdx(ws[0])
    }

    proof fn lemma_words_roundtrip(&self) {
    }

    fn byte_size() -> (r: usize) {
        4
    }

    fn write_to(&self, buf: &mut Vec<u8>) {
        let ws: [u32; 1] = [self.0];
        assert(ws@ =~= self.spec_words());
        push_words(buf, &ws);
    }

    fn read_from(b: &[u8], pos: usize) -> (r: Self) {
        let _n = b.len();
        StopTimeIdx(read_word(b, pos))
    }
}

impl Idx for StopTimeIdx {
    open spec fn spec_index(&self) -> u32 {
        self.0
    }

    fn index(&self) -> (r: u32) {
        self.0
    }

    fn from_index(i: u32) -> (r: Self) {
        StopTimeIdx(i)
    }

    proof fn lemma_index_injective(a: Self, b: Self) {
    }
}

impl Default for StopTimeIdx {
    fn default() -> (r: Self)
        ensures
            r == Self::spec_none(),
    {
        StopTimeIdx(u32::MAX)
    }
}

impl StopTimeIdx {
    /// The index as a `usize`.
    pub fn to_usize(&self) -> (r: usize)
        ensures
            r == self.0,
    {
        self.0 as usize
    }

    /// The index as a `usize`.
    pub fn as_usize(&self) -> (r: usize)
        ensures
            r == self.0,
    {
        self.0 as usize
    }

    /// The index of position `i`.
    pub fn from_usize(i: usize) -> (r: Self)
        requires
            i <= u32::MAX,
        ensures
            r.0 == i,
    {
        StopTimeIdx(i as u32)
    }
}


/// Index of a service in the services table.
#[derive(Debug, Clone, Copy, PartialEq, Eq, Structural, Hash, PartialOrd, Ord)]
pub struct ServiceIdx(pub u32);

impl Sentinel for ServiceIdx {
    open spec fn spec_none() -> Self {
        ServiceIdx(u32::MAX)
    }

    fn none() -> (r: Self) {
        ServiceIdx(u32::MAX)
    }

    fn is_none(self) -> (b: bool) {
        self.0 == u32::MAX
    }

    fn is_some(self) -> (b: bool) {
        self.0 != u32::MAX
    }

    fn as_option(self) -> (o: Option<Self>) {
        if self.0 == u32::MAX {
            None
        } else {
            Some(self)
        }
    }
}

impl Record for ServiceIdx {
    open spec fn spec_word_count() -> nat {
        1
    }

    open spec fn spec_words(&self) -> Seq<u32> {
        seq![self.0]
    }

    open spec fn spec_from_words(ws: Seq<u32>) -> Self {
        ServiceIdx(ws[0])
    }

    proof fn lemma_words_roundtrip(&self) {
    }

    fn byte_size() -> (r: usize) {
        4
    }

    fn write_to(&self, buf: &mut Vec<u8>) {
        let ws: [u32; 1] = [self.0];
        assert(ws@ =~= self.spec_words());
        push_words(buf, &ws);
    }

    fn read_from(b: &[u8], pos: usize) -> (r: Self) {
        let _n = b.len();
        ServiceIdx(read_word(b, pos))
    }
}

impl Idx for ServiceIdx {
    open spec fn spec_index(&self) -> u32 {
        self.0
    }

    fn index(&self) -> (r: u32) {
        self.0
    }

    fn from_index(i: u32) -> (r: Self) {
        ServiceIdx(i)
    }

    proof fn lemma_index_injective(a: Self, b: Self) {
    }
}

impl Default for ServiceIdx {
    fn default() -> (r: Self)
        ensures
            r == Self::spec_none(),
    {
        ServiceIdx(u32::MAX)
    }
}

impl ServiceIdx {
    /// The index as a `usize`.
    pub fn to_usize(&self) -> (r: usize)
        ensures
            r == self.0,
    {
        self.0 as usize
    }

    /// The index as a `usize`.
    pub fn as_usize(&self) -> (r: usize)
        ensures
            r == self.0,
    {
        self.0 as usize
    }

    /// The index of position `i`.
    pub fn from_usize(i: usize) -> (r: Self)
        requires
            i <= u32::MAX,
        ensures
            r.0 == i,
    {
        ServiceIdx(i as u32)
    }
}


/// Index of a transfer in the transfers table.
#[derive(Debug, Clone, Copy, PartialEq, Eq, Structural, Hash, PartialOrd, Ord)]
pub struct TransferIdx(pub u32);

impl Sentinel for TransferIdx {
    open spec fn spec_none() -> Self {
        TransferIdx(u32::MAX)
    }

    fn none() -> (r: Self) {
        TransferIdx(u32::MAX)
    }

    fn is_none(self) -> (b: bool) {
        self.0 == u32::MAX
    }

    fn is_some(self) -> (b: bool) {
        self.0 != u32::MAX
    }

    fn as_option(self) -> (o: Option<Self>) {
        if self.0 == u32::MAX {
            None
        } else {
            Some(self)
        }
    }
}

impl Record for TransferIdx {
    open spec fn spec_word_count() -> nat {
        1
    }

    open spec fn spec_words(&self) -> Seq<u32> {
        seq![self.0]
    }

    open spec fn spec_from_words(ws: Seq<u32>) -> Self {
        TransferIdx(ws[0])
    }

    proof fn lemma_words_roundtrip(&self) {
    }

    fn byte_size() -> (r: usize) {
        4
    }

    fn write_to(&self, buf: &mut Vec<u8>) {
        let ws: [u32; 1] = [self.0];
        assert(ws@ =~= self.spec_words());
        push_words(buf, &ws);
    }

    fn read_from(b: &[u8], pos: usize) -> (r: Self) {
        let _n = b.len();
        TransferIdx(read_word(b, pos))
    }
}

impl Idx for TransferIdx {
    open spec fn spec_index(&self) -> u32 {
        self.0
    }

    fn index(&self) -> (r: u32) {
        self.0
    }

    fn from_index(i: u32) -> (r: Self) {
        TransferIdx(i)
    }

    proof fn lemma_index_injective(a: Self, b: Self) {
    }
}

impl Default for TransferIdx {
    fn default() -> (r: Self)
        ensures
            r == Self::spec_none(),
    {
        TransferIdx(u32::MAX)
    }
}

impl TransferIdx {
    /// The index as a `usize`.
    pub fn to_usize(&self) -> (r: usize)
        ensures
            r == self.0,
    {
        self.0 as usize
    }

    /// The index as a `usize`.
    pub fn as_usize(&self) -> (r: usize)
        ensures
            r == self.0,
    {
        self.0 as usize
    }

    /// The index of position `i`.
    pub fn from_usize(i: usize) -> (r: Self)
        requires
            i <= u32::MAX,
        ensures
            r.0 == i,
    {
        TransferIdx(i as u32)
    }
}


/// Index of an entry of the stop search table.
#[derive(Debug, Clone, Copy, PartialEq, Eq, Structural, Hash, PartialOrd, Ord)]
pub struct SearchIdx(pub u32);

impl Sentinel for SearchIdx {
    open spec fn spec_none() -> Self {
        SearchIdx(u32::MAX)
    }

    fn none() -> (r: Self) {
        SearchIdx(u32::MAX)
    }

    fn is_none(self) -> (b: bool) {
        self.0 == u32::MAX
    }

    fn is_some(self) -> (b: bool) {
        self.0 != u32::MAX
    }

    fn as_option(self) -> (o: Option<Self>) {
        if self.0 == u32::MAX {
            None
        } else {
            Some(self)
        }
    }
}

impl Record for SearchIdx {
    open spec fn spec_word_count() -> nat {
        1
    }

    open spec fn spec_words(&self) -> Seq<u32> {
        seq![self.0]
    }

    open spec fn spec_from_words(ws: Seq<u32>) -> Self {
        SearchIdx(ws[0])
    }

    proof fn lemma_words_roundtrip(&self) {
    }

    fn byte_size() -> (r: usize) {
        4
    }

    fn write_to(&self, buf: &mut Vec<u8>) {
        let ws: [u32; 1] = [self.0];
        assert(ws@ =~= self.spec_words());
        push_words(buf, &ws);
    }

    fn read_from(b: &[u8], pos: usize) -> (r: Self) {
        let _n = b.len();
        SearchIdx(read_word(b, pos))
    }
}

impl Idx for SearchIdx {
    open spec fn spec_index(&self) -> u32 {
        self.0
    }

    fn index(&self) -> (r: u32) {
        self.0
    }

    fn from_index(i: u32) -> (r: Self) {
        SearchIdx(i)
    }

    proof fn lemma_index_injective(a: Self, b: Self) {
    }
}

impl Default for SearchIdx {
    fn default() -> (r: Self)
        ensures
            r == Self::spec_none(),
    {
        SearchIdx(u32::MAX)
    }
}

impl SearchIdx {
    /// The index as a `usize`.
    pub fn to_usize(&self) -> (r: usize)
        ensures
            r == self.0,
    {
        self.0 as usize
    }

    /// The index as a `usize`.
    pub fn as_usize(&self) -> (r: usize)
        ensures
            r == self.0,
    {
        self.0 as usize
    }

    /// The index of position `i`.
    pub fn from_usize(i: usize) -> (r: Self)
        requires
            i <= u32::MAX,
        ensures
            r.0 == i,
    {
        SearchIdx(i as u32)
    }
}


/// Index of a trip pattern in the trip patterns table.
#[derive(Debug, Clone, Copy, PartialEq, Eq, Structural, Hash, PartialOrd, Ord)]
pub struct TripPatternIdx(pub u32);

impl Sentinel for TripPatternIdx {
    open spec fn spec_none() -> Self {
        TripPatternIdx(u32::MAX)
    }

    fn none() -> (r: Self) {
        TripPatternIdx(u32::MAX)
    }

    fn is_none(self) -> (b: bool) {
        self.0 == u32::MAX
    }

    fn is_some(self) -> (b: bool) {
        self.0 != u32::MAX
    }

    fn as_option(self) -> (o: Option<Self>) {
        if self.0 == u32::MAX {
            None
        } else {
            Some(self)
        }
    }
}

impl Record for TripPatternIdx {
    open spec fn spec_word_count() -> nat {
        1
    }

    open spec fn spec_words(&self) -> Seq<u32> {
        seq![self.0]
    }

    open spec fn spec_from_words(ws: Seq<u32>) -> Self {
        TripPatternIdx(ws[0])
    }

    proof fn lemma_words_roundtrip(&self) {
    }

    fn byte_size() -> (r: usize) {
        4
    }

    fn write_to(&self, buf: &mut Vec<u8>) {
        let ws: [u32; 1] = [self.0];
        assert(ws@ =~= self.spec_words());
        push_words(buf, &ws);
    }

    fn read_from(b: &[u8], pos: usize) -> (r: Self) {
        let _n = b.len();
        TripPatternIdx(read_word(b, pos))
    }
}

impl Idx for TripPatternIdx {
    open spec fn spec_index(&self) -> u32 {
        self.0
    }

    fn index(&self) -> (r: u32) {
        self.0
    }

    fn from_index(i: u32) -> (r: Self) {
        TripPatternIdx(i)
    }

    proof fn lemma_index_injective(a: Self, b: Self) {
    }
}

impl Default for TripPatternIdx {
    fn default() -> (r: Self)
        ensures
            r == Self::spec_none(),
    {
        TripPatternIdx(u32::MAX)
    }
}

impl TripPatternIdx {
    /// The index as a `usize`.
    pub fn to_usize(&self) -> (r: usize)
        ensures
            r == self.0,
    {
        self.0 as usize
    }

    /// The index as a `usize`.
    pub fn as_usize(&self) -> (r: usize)
        ensures
            r == self.0,
    {
        self.0 as usize
    }

    /// The index of position `i`.
    pub fn from_usize(i: usize) -> (r: Self)
        requires
            i <= u32::MAX,
        ensures
            r.0 == i,
    {
        TripPatternIdx(i as u32)
    }
}


/// Index of an area in the areas table.
#[derive(Debug, Clone, Copy, PartialEq, Eq, Structural, Hash, PartialOrd, Ord)]
pub struct AreaIdx(pub u32);

impl Sentinel for AreaIdx {
    open spec fn spec_none() -> Self {
        AreaIdx(u32::MAX)
    }

    fn none() -> (r: Self) {
        AreaIdx(u32::MAX)
    }

    fn is_none(self) -> (b: bool) {
        self.0 == u32::MAX
    }

    fn is_some(self) -> (b: bool) {
        self.0 != u32::MAX
    }

    fn as_option(self) -> (o: Option<Self>) {
        if self.0 == u32::MAX {
            None
        } else {
            Some(self)
        }
    }
}

impl Record for AreaIdx {
    open spec fn spec_word_count() -> nat {
        1
    }

    open spec fn spec_words(&self) -> Seq<u32> {
        seq![self.0]
    }

    open spec fn spec_from_words(ws: Seq<u32>) -> Self {
        AreaIdx(ws[0])
    }

    proof fn lemma_words_roundtrip(&self) {
    }

    fn byte_size() -> (r: usize) {
        4
    }

    fn write_to(&self, buf: &mut Vec<u8>) {
        let ws: [u32; 1] = [self.0];
        assert(ws@ =~= self.spec_words());
        push_words(buf, &ws);
    }

    fn read_from(b: &[u8], pos: usize) -> (r: Self) {
        let _n = b.len();
        AreaIdx(read_word(b, pos))
    }
}

impl Idx for AreaIdx {
    open spec fn spec_index(&self) -> u32 {
        self.0
    }

    fn index(&self) -> (r: u32) {
        self.0
    }

    fn from_index(i: u32) -> (r: Self) {
        AreaIdx(i)
    }

    proof fn lemma_index_injective(a: Self, b: Self) {
    }
}

impl Default for AreaIdx {
    fn default() -> (r: Self)
        ensures
            r == Self::spec_none(),
    {
        AreaIdx(u32::MAX)
    }
}

impl AreaIdx {
    /// The index as a `usize`.
    pub fn to_usize(&self) -> (r: usize)
        ensures
            r == self.0,
    {
        self.0 as usize
    }

    /// The index as a `usize`.
    pub fn as_usize(&self) -> (r: usize)
        ensures
            r == self.0,
    {
        self.0 as usize
    }

    /// The index of position `i`.
    pub fn from_usize(i: usize) -> (r: Self)
        requires
            i <= u32::MAX,
        ensures
            r.0 == i,
    {
        AreaIdx(i as u32)
    }
}


} // verus!
