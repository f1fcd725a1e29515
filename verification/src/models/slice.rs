use vstd::prelude::*;
use core::ops::Range;

use crate::codec::{push_words, read_word, Record};
use crate::models::sentinel::Sentinel;

verus! {

/// A run of `count` consecutive entries of a section, starting at `start`.
/// The empty run at 0 is reserved for "no run".
pub trait Slice: Sentinel {
    /// First entry of the run.
    spec fn spec_start(&self) -> u32;
    /// Number of entries in the run.
    spec fn spec_count(&self) -> u32;

    /// The reserved run is the empty run at 0.
    proof fn lemma_none_is_empty()
        ensures
            Self::spec_none().spec_start() == 0,
            Self::spec_none().spec_count() == 0,
    ;

    /// The first entry and the number of entries.
    fn parts(&self) -> (r: (u32, u32))
        ensures
            r.0 == self.spec_start(),
            r.1 == self.spec_count(),
    ;

    /// The run of `count` entries from `start`.
    fn new(start: u32, count: u32) -> (r: Self)
        ensures
            r.spec_start() == start,
            r.spec_count() == count,
    ;

    /// The run of `count` entries from `start`, or the reserved run when either
    /// does not fit in 32 bits.
    fn from_usize(start: usize, count: usize) -> (r: Self)
        ensures
            start <= u32::MAX && count <= u32::MAX ==> r.spec_start() == start && r.spec_count() == count,
            !(start <= u32::MAX && count <= u32::MAX) ==> r == Self::spec_none(),
    ;

    /// The positions `start..start + count`.
    fn range(self) -> (r: Range<usize>)
        requires
            self.spec_start() + self.spec_count() <= usize::MAX,
        ensures
            r.start == self.spec_start(),
            r.end == self.spec_start() + self.spec_count(),
    ;
}

/// A run of text in the strings section.
#[derive(Debug, Clone, Copy, PartialEq, Eq, Structural, Hash, PartialOrd, Ord)]
pub struct StringSlice {
    pub start: u32,
    pub count: u32,
}

impl Sentinel for StringSlice {
    open spec fn spec_none() -> Self {
        StringSlice { start: 0, count: 0 }
    }

    fn none() -> (r: Self) {
        StringSlice { start: 0, count: 0 }
    }

    fn is_none(self) -> (b: bool) {
        self.start == 0 && self.count == 0
    }

    fn is_some(self) -> (b: bool) {
        !(self.start == 0 && self.count == 0)
    }

    fn as_option(self) -> (o: Option<Self>) {
        if self.start == 0 && self.count == 0 {
            None
        } else {
            Some(self)
        }
    }
}

impl Slice for StringSlice {
    open spec fn spec_start(&self) -> u32 {
        self.start
    }

    open spec fn spec_count(&self) -> u32 {
        self.count
    }

    proof fn lemma_none_is_empty() {
    }

    fn parts(&self) -> (r: (u32, u32)) {
        (self.start, self.count)
    }

    fn new(start: u32, count: u32) -> (r: Self) {
        StringSlice { start, count }
    }

    fn from_usize(start: usize, count: usize) -> (r: Self) {
        if start <= 0xffff_ffffusize && count <= 0xffff_ffffusize {
            StringSlice { start: start as u32, count: count as u32 }
        } else {
            StringSlice { start: 0, count: 0 }
        }
    }

    fn range(self) -> (r: Range<usize>) {
        let start = self.start as usize;
        let end = start + self.count as usize;
        start..end
    }
}

impl Default for StringSlice {
    fn default() -> (r: Self)
        ensures
            r == Self::spec_none(),
    {
        StringSlice { start: 0, count: 0 }
    }
}

impl Record for StringSlice {
    open spec fn spec_word_count() -> nat {
        2
    }

    open spec fn spec_words(&self) -> Seq<u32> {
        seq![self.start, self.count]
    }

    open spec fn spec_from_words(ws: Seq<u32>) -> Self {
        StringSlice { start: ws[0], count: ws[1] }
    }

    proof fn lemma_words_roundtrip(&self) {
    }

    fn byte_size() -> (r: usize) {
        8
    }

    fn write_to(&self, buf: &mut Vec<u8>) {
        let ws: [u32; 2] = [self.start, self.count];
        assert(ws@ =~= self.spec_words());
        push_words(buf, &ws);
    }

    fn read_from(b: &[u8], pos: usize) -> (r: Self) {
        let _n = b.len();
        StringSlice { start: read_word(b, pos), count: read_word(b, pos + 4) }
    }
}


/// A run of a stop identifier in the stop ids section.
#[derive(Debug, Clone, Copy, PartialEq, Eq, Structural, Hash, PartialOrd, Ord)]
pub struct StopIdSlice {
    pub start: u32,
    pub count: u32,
}

impl Sentinel for StopIdSlice {
    open spec fn spec_none() -> Self {
        StopIdSlice { start: 0, count: 0 }
    }

    fn none() -> (r: Self) {
        StopIdSlice { start: 0, count: 0 }
    }

    fn is_none(self) -> (b: bool) {
        self.start == 0 && self.count == 0
    }

    fn is_some(self) -> (b: bool) {
        !(self.start == 0 && self.count == 0)
    }

    fn as_option(self) -> (o: Option<Self>) {
        if self.start == 0 && self.count == 0 {
            None
        } else {
            Some(self)
        }
    }
}

impl Slice for StopIdSlice {
    open spec fn spec_start(&self) -> u32 {
        self.start
    }

    open spec fn spec_count(&self) -> u32 {
        self.count
    }

    proof fn lemma_none_is_empty() {
    }

    fn parts(&self) -> (r: (u32, u32)) {
        (self.start, self.count)
    }

    fn new(start: u32, count: u32) -> (r: Self) {
        StopIdSlice { start, count }
    }

    fn from_usize(start: usize, count: usize) -> (r: Self) {
        if start <= 0xffff_ffffusize && count <= 0xffff_ffffusize {
            StopIdSlice { start: start as u32, count: count as u32 }
        } else {
            StopIdSlice { start: 0, count: 0 }
        }
    }

    fn range(self) -> (r: Range<usize>) {
        let start = self.start as usize;
        let end = start + self.count as usize;
        start..end
    }
}

impl Default for StopIdSlice {
    fn default() -> (r: Self)
        ensures
            r == Self::spec_none(),
    {
        StopIdSlice { start: 0, count: 0 }
    }
}

impl Record for StopIdSlice {
    open spec fn spec_word_count() -> nat {
        2
    }

    open spec fn spec_words(&self) -> Seq<u32> {
        seq![self.start, self.count]
    }

    open spec fn spec_from_words(ws: Seq<u32>) -> Self {
        StopIdSlice { start: ws[0], count: ws[1] }
    }

    proof fn lemma_words_roundtrip(&self) {
    }

    fn byte_size() -> (r: usize) {
        8
    }

    fn write_to(&self, buf: &mut Vec<u8>) {
        let ws: [u32; 2] = [self.start, self.count];
        assert(ws@ =~= self.spec_words());
        push_words(buf, &ws);
    }

    fn read_from(b: &[u8], pos: usize) -> (r: Self) {
        let _n = b.len();
        StopIdSlice { start: read_word(b, pos), count: read_word(b, pos + 4) }
    }
}


/// A run of a route identifier in the route ids section.
#[derive(Debug, Clone, Copy, PartialEq, Eq, Structural, Hash, PartialOrd, Ord)]
pub struct RouteIdSlice {
    pub start: u32,
    pub count: u32,
}

impl Sentinel for RouteIdSlice {
    open spec fn spec_none() -> Self {
        RouteIdSlice { start: 0, count: 0 }
    }

    fn none() -> (r: Self) {
        RouteIdSlice { start: 0, count: 0 }
    }

    fn is_none(self) -> (b: bool) {
        self.start == 0 && self.count == 0
    }

    fn is_some(self) -> (b: bool) {
        !(self.start == 0 && self.count == 0)
    }

    fn as_option(self) -> (o: Option<Self>) {
        if self.start == 0 && self.count == 0 {
            None
        } else {
            Some(self)
        }
    }
}

impl Slice for RouteIdSlice {
    open spec fn spec_start(&self) -> u32 {
        self.start
    }

    open spec fn spec_count(&self) -> u32 {
        self.count
    }

    proof fn lemma_none_is_empty() {
    }

    fn parts(&self) -> (r: (u32, u32)) {
        (self.start, self.count)
    }

    fn new(start: u32, count: u32) -> (r: Self) {
        RouteIdSlice { start, count }
    }

    fn from_usize(start: usize, count: usize) -> (r: Self) {
        if start <= 0xffff_ffffusize && count <= 0xffff_ffffusize {
            RouteIdSlice { start: start as u32, count: count as u32 }
        } else {
            RouteIdSlice { start: 0, count: 0 }
        }
    }

    fn range(self) -> (r: Range<usize>) {
        let start = self.start as usize;
        let end = start + self.count as usize;
        start..end
    }
}

impl Default for RouteIdSlice {
    fn default() -> (r: Self)
        ensures
            r == Self::spec_none(),
    {
        RouteIdSlice { start: 0, count: 0 }
    }
}

impl Record for RouteIdSlice {
    open spec fn spec_word_count() -> nat {
        2
    }

    open spec fn spec_words(&self) -> Seq<u32> {
        seq![self.start, self.count]
    }

    open spec fn spec_from_words(ws: Seq<u32>) -> Self {
        RouteIdSlice { start: ws[0], count: ws[1] }
    }

    proof fn lemma_words_roundtrip(&self) {
    }

    fn byte_size() -> (r: usize) {
        8
    }

    fn write_to(&self, buf: &mut Vec<u8>) {
        let ws: [u32; 2] = [self.start, self.count];
        assert(ws@ =~= self.spec_words());
        push_words(buf, &ws);
    }

    fn read_from(b: &[u8], pos: usize) -> (r: Self) {
        let _n = b.len();
        RouteIdSlice { start: read_word(b, pos), count: read_word(b, pos + 4) }
    }
}


/// A run of a trip identifier in the trip ids section.
#[derive(Debug, Clone, Copy, PartialEq, Eq, Structural, Hash, PartialOrd, Ord)]
pub struct TripIdSlice {
    pub start: u32,
    pub count: u32,
}

impl Sentinel for TripIdSlice {
    open spec fn spec_none() -> Self {
        TripIdSlice { start: 0, count: 0 }
    }

    fn none() -> (r: Self) {
        TripIdSlice { start: 0, count: 0 }
    }

    fn is_none(self) -> (b: bool) {
        self.start == 0 && self.count == 0
    }

    fn is_some(self) -> (b: bool) {
        !(self.start == 0 && self.count == 0)
    }

    fn as_option(self) -> (o: Option<Self>) {
        if self.start == 0 && self.count == 0 {
            None
        } else {
            Some(self)
        }
    }
}

impl Slice for TripIdSlice {
    open spec fn spec_start(&self) -> u32 {
        self.start
    }

    open spec fn spec_count(&self) -> u32 {
        self.count
    }

    proof fn lemma_none_is_empty() {
    }

    fn parts(&self) -> (r: (u32, u32)) {
        (self.start, self.count)
    }

    fn new(start: u32, count: u32) -> (r: Self) {
        TripIdSlice { start, count }
    }

    fn from_usize(start: usize, count: usize) -> (r: Self) {
        if start <= 0xffff_ffffusize && count <= 0xffff_ffffusize {
            TripIdSlice { start: start as u32, count: count as u32 }
        } else {
            TripIdSlice { start: 0, count: 0 }
        }
    }

    fn range(self) -> (r: Range<usize>) {
        let start = self.start as usize;
        let end = start + self.count as usize;
        start..end
    }
}

impl Default for TripIdSlice {
    fn default() -> (r: Self)
        ensures
            r == Self::spec_none(),
    {
        TripIdSlice { start: 0, count: 0 }
    }
}

impl Record for TripIdSlice {
    open spec fn spec_word_count() -> nat {
        2
    }

    open spec fn spec_words(&self) -> Seq<u32> {
        seq![self.start, self.count]
    }

    open spec fn spec_from_words(ws: Seq<u32>) -> Self {
        TripIdSlice { start: ws[0], count: ws[1] }
    }

    proof fn lemma_words_roundtrip(&self) {
    }

    fn byte_size() -> (r: usize) {
        8
    }

    fn write_to(&self, buf: &mut Vec<u8>) {
        let ws: [u32; 2] = [self.start, self.count];
        assert(ws@ =~= self.spec_words());
        push_words(buf, &ws);
    }

    fn read_from(b: &[u8], pos: usize) -> (r: Self) {
        let _n = b.len();
        TripIdSlice { start: read_word(b, pos), count: read_word(b, pos + 4) }
    }
}


/// A run of a service identifier in the service ids section.
#[derive(Debug, Clone, Copy, PartialEq, Eq, Structural, Hash, PartialOrd, Ord)]
pub struct ServiceIdSlice {
    pub start: u32,
    pub count: u32,
}

impl Sentinel for ServiceIdSlice {
    open spec fn spec_none() -> Self {
        ServiceIdSlice { start: 0, count: 0 }
    }

    fn none() -> (r: Self) {
        ServiceIdSlice { start: 0, count: 0 }
    }

    fn is_none(self) -> (b: bool) {
        self.start == 0 && self.count == 0
    }

    fn is_some(self) -> (b: bool) {
        !(self.start == 0 && self.count == 0)
    }

    fn as_option(self) -> (o: Option<Self>) {
        if self.start == 0 && self.count == 0 {
            None
        } else {
            Some(self)
        }
    }
}

impl Slice for ServiceIdSlice {
    open spec fn spec_start(&self) -> u32 {
        self.start
    }

    open spec fn spec_count(&self) -> u32 {
        self.count
    }

    proof fn lemma_none_is_empty() {
    }

    fn parts(&self) -> (r: (u32, u32)) {
        (self.start, self.count)
    }

    fn new(start: u32, count: u32) -> (r: Self) {
        ServiceIdSlice { start, count }
    }

    fn from_usize(start: usize, count: usize) -> (r: Self) {
        if start <= 0xffff_ffffusize && count <= 0xffff_ffffusize {
            ServiceIdSlice { start: start as u32, count: count as u32 }
        } else {
            ServiceIdSlice { start: 0, count: 0 }
        }
    }

    fn range(self) -> (r: Range<usize>) {
        let start = self.start as usize;
        let end = start + self.count as usize;
        start..end
    }
}

impl Default for ServiceIdSlice {
    fn default() -> (r: Self)
        ensures
            r == Self::spec_none(),
    {
        ServiceIdSlice { start: 0, count: 0 }
    }
}

impl Record for ServiceIdSlice {
    open spec fn spec_word_count() -> nat {
        2
    }

    open spec fn spec_words(&self) -> Seq<u32> {
        seq![self.start, self.count]
    }

    open spec fn spec_from_words(ws: Seq<u32>) -> Self {
        ServiceIdSlice { start: ws[0], count: ws[1] }
    }

    proof fn lemma_words_roundtrip(&self) {
    }

    fn byte_size() -> (r: usize) {
        8
    }

    fn write_to(&self, buf: &mut Vec<u8>) {
        let ws: [u32; 2] = [self.start, self.count];
        assert(ws@ =~= self.spec_words());
        push_words(buf, &ws);
    }

    fn read_from(b: &[u8], pos: usize) -> (r: Self) {
        let _n = b.len();
        ServiceIdSlice { start: read_word(b, pos), count: read_word(b, pos + 4) }
    }
}


/// A run of an area identifier.
#[derive(Debug, Clone, Copy, PartialEq, Eq, Structural, Hash, PartialOrd, Ord)]
pub struct AreaIdSlice {
    pub start: u32,
    pub count: u32,
}

impl Sentinel for AreaIdSlice {
    open spec fn spec_none() -> Self {
        AreaIdSlice { start: 0, count: 0 }
    }

    fn none() -> (r: Self) {
        AreaIdSlice { start: 0, count: 0 }
    }

    fn is_none(self) -> (b: bool) {
        self.start == 0 && self.count == 0
    }

    fn is_some(self) -> (b: bool) {
        !(self.start == 0 && self.count == 0)
    }

    fn as_option(self) -> (o: Option<Self>) {
        if self.start == 0 && self.count == 0 {
            None
        } else {
            Some(self)
        }
    }
}

impl Slice for AreaIdSlice {
    open spec fn spec_start(&self) -> u32 {
        self.start
    }

    open spec fn spec_count(&self) -> u32 {
        self.count
    }

    proof fn lemma_none_is_empty() {
    }

    fn parts(&self) -> (r: (u32, u32)) {
        (self.start, self.count)
    }

    fn new(start: u32, count: u32) -> (r: Self) {
        AreaIdSlice { start, count }
    }

    fn from_usize(start: usize, count: usize) -> (r: Self) {
        if start <= 0xffff_ffffusize && count <= 0xffff_ffffusize {
            AreaIdSlice { start: start as u32, count: count as u32 }
        } else {
            AreaIdSlice { start: 0, count: 0 }
        }
    }

    fn range(self) -> (r: Range<usize>) {
        let start = self.start as usize;
        let end = start + self.count as usize;
        start..end
    }
}

impl Default for AreaIdSlice {
    fn default() -> (r: Self)
        ensures
            r == Self::spec_none(),
    {
        AreaIdSlice { start: 0, count: 0 }
    }
}

impl Record for AreaIdSlice {
    open spec fn spec_word_count() -> nat {
        2
    }

    open spec fn spec_words(&self) -> Seq<u32> {
        seq![self.start, self.count]
    }

    open spec fn spec_from_words(ws: Seq<u32>) -> Self {
        AreaIdSlice { start: ws[0], count: ws[1] }
    }

    proof fn lemma_words_roundtrip(&self) {
    }

    fn byte_size() -> (r: usize) {
        8
    }

    fn write_to(&self, buf: &mut Vec<u8>) {
        let ws: [u32; 2] = [self.start, self.count];
        assert(ws@ =~= self.spec_words());
        push_words(buf, &ws);
    }

    fn read_from(b: &[u8], pos: usize) -> (r: Self) {
        let _n = b.len();
        AreaIdSlice { start: read_word(b, pos), count: read_word(b, pos + 4) }
    }
}


/// A run of trip indices.
#[derive(Debug, Clone, Copy, PartialEq, Eq, Structural, Hash, PartialOrd, Ord)]
pub struct TripSlice {
    pub start: u32,
    pub count: u32,
}

impl Sentinel for TripSlice {
    open spec fn spec_none() -> Self {
        TripSlice { start: 0, count: 0 }
    }

    fn none() -> (r: Self) {
        TripSlice { start: 0, count: 0 }
    }

    fn is_none(self) -> (b: bool) {
        self.start == 0 && self.count == 0
    }

    fn is_some(self) -> (b: bool) {
        !(self.start == 0 && self.count == 0)
    }

    fn as_option(self) -> (o: Option<Self>) {
        if self.start == 0 && self.count == 0 {
            None
        } else {
            Some(self)
        }
    }
}

impl Slice for TripSlice {
    open spec fn spec_start(&self) -> u32 {
        self.start
    }

    open spec fn spec_count(&self) -> u32 {
        self.count
    }

    proof fn lemma_none_is_empty() {
    }

    fn parts(&self) -> (r: (u32, u32)) {
        (self.start, self.count)
    }

    fn new(start: u32, count: u32) -> (r: Self) {
        TripSlice { start, count }
    }

    fn from_usize(start: usize, count: usize) -> (r: Self) {
        if start <= 0xffff_ffffusize && count <= 0xffff_ffffusize {
            TripSlice { start: start as u32, count: count as u32 }
        } else {
            TripSlice { start: 0, count: 0 }
        }
    }

    fn range(self) -> (r: Range<usize>) {
        let start = self.start as usize;
        let end = start + self.count as usize;
        start..end
    }
}

impl Default for TripSlice {
    fn default() -> (r: Self)
        ensures
            r == Self::spec_none(),
    {
        TripSlice { start: 0, count: 0 }
    }
}

impl Record for TripSlice {
    open spec fn spec_word_count() -> nat {
        2
    }

    open spec fn spec_words(&self) -> Seq<u32> {
        seq![self.start, self.count]
    }

    open spec fn spec_from_words(ws: Seq<u32>) -> Self {
        TripSlice { start: ws[0], count: ws[1] }
    }

    proof fn lemma_words_roundtrip(&self) {
    }

    fn byte_size() -> (r: usize) {
        8
    }

    fn write_to(&self, buf: &mut Vec<u8>) {
        let ws: [u32; 2] = [self.start, self.count];
        assert(ws@ =~= self.spec_words());
        push_words(buf, &ws);
    }

    fn read_from(b: &[u8], pos: usize) -> (r: Self) {
        let _n = b.len();
        TripSlice { start: read_word(b, pos), count: read_word(b, pos + 4) }
    }
}


/// A run of trip pattern indices.
#[derive(Debug, Clone, Copy, PartialEq, Eq, Structural, Hash, PartialOrd, Ord)]
pub struct TripPatternSlice {
    pub start: u32,
    pub count: u32,
}

impl Sentinel for TripPatternSlice {
    open spec fn spec_none() -> Self {
        TripPatternSlice { start: 0, count: 0 }
    }

    fn none() -> (r: Self) {
        TripPatternSlice { start: 0, count: 0 }
    }

    fn is_none(self) -> (b: bool) {
        self.start == 0 && self.count == 0
    }

    fn is_some(self) -> (b: bool) {
        !(self.start == 0 && self.count == 0)
    }

    fn as_option(self) -> (o: Option<Self>) {
        if self.start == 0 && self.count == 0 {
            None
        } else {
            Some(self)
        }
    }
}

impl Slice for TripPatternSlice {
    open spec fn spec_start(&self) -> u32 {
        self.start
    }

    open spec fn spec_count(&self) -> u32 {
        self.count
    }

    proof fn lemma_none_is_empty() {
    }

    fn parts(&self) -> (r: (u32, u32)) {
        (self.start, self.count)
    }

    fn new(start: u32, count: u32) -> (r: Self) {
        TripPatternSlice { start, count }
    }

    fn from_usize(start: usize, count: usize) -> (r: Self) {
        if start <= 0xffff_ffffusize && count <= 0xffff_ffffusize {
            TripPatternSlice { start: start as u32, count: count as u32 }
        } else {
            TripPatternSlice { start: 0, count: 0 }
        }
    }

    fn range(self) -> (r: Range<usize>) {
        let start = self.start as usize;
        let end = start + self.count as usize;
        start..end
    }
}

impl Default for TripPatternSlice {
    fn default() -> (r: Self)
        ensures
            r == Self::spec_none(),
    {
        TripPatternSlice { start: 0, count: 0 }
    }
}

impl Record for TripPatternSlice {
    open spec fn spec_word_count() -> nat {
        2
    }

    open spec fn spec_words(&self) -> Seq<u32> {
        seq![self.start, self.count]
    }

    open spec fn spec_from_words(ws: Seq<u32>) -> Self {
        TripPatternSlice { start: ws[0], count: ws[1] }
    }

    proof fn lemma_words_roundtrip(&self) {
    }

    fn byte_size() -> (r: usize) {
        8
    }

    fn write_to(&self, buf: &mut Vec<u8>) {
        let ws: [u32; 2] = [self.start, self.count];
        assert(ws@ =~= self.spec_words());
        push_words(buf, &ws);
    }

    fn read_from(b: &[u8], pos: usize) -> (r: Self) {
        let _n = b.len();
        TripPatternSlice { start: read_word(b, pos), count: read_word(b, pos + 4) }
    }
}


/// A run of route indices.
#[derive(Debug, Clone, Copy, PartialEq, Eq, Structural, Hash, PartialOrd, Ord)]
pub struct RouteSlice {
    pub start: u32,
    pub count: u32,
}

impl Sentinel for RouteSlice {
    open spec fn spec_none() -> Self {
        RouteSlice { start: 0, count: 0 }
    }

    fn none() -> (r: Self) {
        RouteSlice { start: 0, count: 0 }
    }

    fn is_none(self) -> (b: bool) {
        self.start == 0 && self.count == 0
    }

    fn is_some(self) -> (b: bool) {
        !(self.start == 0 && self.count == 0)
    }

    fn as_option(self) -> (o: Option<Self>) {
        if self.start == 0 && self.count == 0 {
            None
        } else {
            Some(self)
        }
    }
}

impl Slice for RouteSlice {
    open spec fn spec_start(&self) -> u32 {
        self.start
    }

    open spec fn spec_count(&self) -> u32 {
        self.count
    }

    proof fn lemma_none_is_empty() {
    }

    fn parts(&self) -> (r: (u32, u32)) {
        (self.start, self.count)
    }

    fn new(start: u32, count: u32) -> (r: Self) {
        RouteSlice { start, count }
    }

    fn from_usize(start: usize, count: usize) -> (r: Self) {
        if start <= 0xffff_ffffusize && count <= 0xffff_ffffusize {
            RouteSlice { start: start as u32, count: count as u32 }
        } else {
            RouteSlice { start: 0, count: 0 }
        }
    }

    fn range(self) -> (r: Range<usize>) {
        let start = self.start as usize;
        let end = start + self.count as usize;
        start..end
    }
}

impl Default for RouteSlice {
    fn default() -> (r: Self)
        ensures
            r == Self::spec_none(),
    {
        RouteSlice { start: 0, count: 0 }
    }
}

impl Record for RouteSlice {
    open spec fn spec_word_count() -> nat {
        2
    }

    open spec fn spec_words(&self) -> Seq<u32> {
        seq![self.start, self.count]
    }

    open spec fn spec_from_words(ws: Seq<u32>) -> Self {
        RouteSlice { start: ws[0], count: ws[1] }
    }

    proof fn lemma_words_roundtrip(&self) {
    }

    fn byte_size() -> (r: usize) {
        8
    }

    fn write_to(&self, buf: &mut Vec<u8>) {
        let ws: [u32; 2] = [self.start, self.count];
        assert(ws@ =~= self.spec_words());
        push_words(buf, &ws);
    }

    fn read_from(b: &[u8], pos: usize) -> (r: Self) {
        let _n = b.len();
        RouteSlice { start: read_word(b, pos), count: read_word(b, pos + 4) }
    }
}


/// A run of stop times.
#[derive(Debug, Clone, Copy, PartialEq, Eq, Structural, Hash, PartialOrd, Ord)]
pub struct StopTimeSlice {
    pub start: u32,
    pub count: u32,
}

impl Sentinel for StopTimeSlice {
    open spec fn spec_none() -> Self {
        StopTimeSlice { start: 0, count: 0 }
    }

    fn none() -> (r: Self) {
        StopTimeSlice { start: 0, count: 0 }
    }

    fn is_none(self) -> (b: bool) {
        self.start == 0 && self.count == 0
    }

    fn is_some(self) -> (b: bool) {
        !(self.start == 0 && self.count == 0)
    }

    fn as_option(self) -> (o: Option<Self>) {
        if self.start == 0 && self.count == 0 {
            None
        } else {
            Some(self)
        }
    }
}

impl Slice for StopTimeSlice {
    open spec fn spec_start(&self) -> u32 {
        self.start
    }

    open spec fn spec_count(&self) -> u32 {
        self.count
    }

    proof fn lemma_none_is_empty() {
    }

    fn parts(&self) -> (r: (u32, u32)) {
        (self.start, self.count)
    }

    fn new(start: u32, count: u32) -> (r: Self) {
        StopTimeSlice { start, count }
    }

    fn from_usize(start: usize, count: usize) -> (r: Self) {
        if start <= 0xffff_ffffusize && count <= 0xffff_ffffusize {
            StopTimeSlice { start: start as u32, count: count as u32 }
        } else {
            StopTimeSlice { start: 0, count: 0 }
        }
    }

    fn range(self) -> (r: Range<usize>) {
        let start = self.start as usize;
        let end = start + self.count as usize;
        start..end
    }
}

impl Default for StopTimeSlice {
    fn default() -> (r: Self)
        ensures
            r == Self::spec_none(),
    {
        StopTimeSlice { start: 0, count: 0 }
    }
}

impl Record for StopTimeSlice {
    open spec fn spec_word_count() -> nat {
        2
    }

    open spec fn spec_words(&self) -> Seq<u32> {
        seq![self.start, self.count]
    }

    open spec fn spec_from_words(ws: Seq<u32>) -> Self {
        StopTimeSlice { start: ws[0], count: ws[1] }
    }

    proof fn lemma_words_roundtrip(&self) {
    }

    fn byte_size() -> (r: usize) {
        8
    }

    fn write_to(&self, buf: &mut Vec<u8>) {
        let ws: [u32; 2] = [self.start, self.count];
        assert(ws@ =~= self.spec_words());
        push_words(buf, &ws);
    }

    fn read_from(b: &[u8], pos: usize) -> (r: Self) {
        let _n = b.len();
        StopTimeSlice { start: read_word(b, pos), count: read_word(b, pos + 4) }
    }
}


/// A run of stop indices.
#[derive(Debug, Clone, Copy, PartialEq, Eq, Structural, Hash, PartialOrd, Ord)]
pub struct StopSlice {
    pub start: u32,
    pub count: u32,
}

impl Sentinel for StopSlice {
    open spec fn spec_none() -> Self {
        StopSlice { start: 0, count: 0 }
    }

    fn none() -> (r: Self) {
        StopSlice { start: 0, count: 0 }
    }

    fn is_none(self) -> (b: bool) {
        self.start == 0 && self.count == 0
    }

    fn is_some(self) -> (b: bool) {
        !(self.start == 0 && self.count == 0)
    }

    fn as_option(self) -> (o: Option<Self>) {
        if self.start == 0 && self.count == 0 {
            None
        } else {
            Some(self)
        }
    }
}

impl Slice for StopSlice {
    open spec fn spec_start(&self) -> u32 {
        self.start
    }

    open spec fn spec_count(&self) -> u32 {
        self.count
    }

    proof fn lemma_none_is_empty() {
    }

    fn parts(&self) -> (r: (u32, u32)) {
        (self.start, self.count)
    }

    fn new(start: u32, count: u32) -> (r: Self) {
        StopSlice { start, count }
    }

    fn from_usize(start: usize, count: usize) -> (r: Self) {
        if start <= 0xffff_ffffusize && count <= 0xffff_ffffusize {
            StopSlice { start: start as u32, count: count as u32 }
        } else {
            StopSlice { start: 0, count: 0 }
        }
    }

    fn range(self) -> (r: Range<usize>) {
        let start = self.start as usize;
        let end = start + self.count as usize;
        start..end
    }
}

impl Default for StopSlice {
    fn default() -> (r: Self)
        ensures
            r == Self::spec_none(),
    {
        StopSlice { start: 0, count: 0 }
    }
}

impl Record for StopSlice {
    open spec fn spec_word_count() -> nat {
        2
    }

    open spec fn spec_words(&self) -> Seq<u32> {
        seq![self.start, self.count]
    }

    open spec fn spec_from_words(ws: Seq<u32>) -> Self {
        StopSlice { start: ws[0], count: ws[1] }
    }

    proof fn lemma_words_roundtrip(&self) {
    }

    fn byte_size() -> (r: usize) {
        8
    }

    fn write_to(&self, buf: &mut Vec<u8>) {
        let ws: [u32; 2] = [self.start, self.count];
        assert(ws@ =~= self.spec_words());
        push_words(buf, &ws);
    }

    fn read_from(b: &[u8], pos: usize) -> (r: Self) {
        let _n = b.len();
        StopSlice { start: read_word(b, pos), count: read_word(b, pos + 4) }
    }
}


/// A run of stop indices of a search entry.
#[derive(Debug, Clone, Copy, PartialEq, Eq, Structural, Hash, PartialOrd, Ord)]
pub struct SearchSlice {
    pub start: u32,
    pub count: u32,
}

impl Sentinel for SearchSlice {
    open spec fn spec_none() -> Self {
        SearchSlice { start: 0, count: 0 }
    }

    fn none() -> (r: Self) {
        SearchSlice { start: 0, count: 0 }
    }

    fn is_none(self) -> (b: bool) {
        self.start == 0 && self.count == 0
    }

    fn is_some(self) -> (b: bool) {
        !(self.start == 0 && self.count == 0)
    }

    fn as_option(self) -> (o: Option<Self>) {
        if self.start == 0 && self.count == 0 {
            None
        } else {
            Some(self)
        }
    }
}

impl Slice for SearchSlice {
    open spec fn spec_start(&self) -> u32 {
        self.start
    }

    open spec fn spec_count(&self) -> u32 {
        self.count
    }

    proof fn lemma_none_is_empty() {
    }

    fn parts(&self) -> (r: (u32, u32)) {
        (self.start, self.count)
    }

    fn new(start: u32, count: u32) -> (r: Self) {
        SearchSlice { start, count }
    }

    fn from_usize(start: usize, count: usize) -> (r: Self) {
        if start <= 0xffff_ffffusize && count <= 0xffff_ffffusize {
            SearchSlice { start: start as u32, count: count as u32 }
        } else {
            SearchSlice { start: 0, count: 0 }
        }
    }

    fn range(self) -> (r: Range<usize>) {
        let start = self.start as usize;
        let end = start + self.count as usize;
        start..end
    }
}

impl Default for SearchSlice {
    fn default() -> (r: Self)
        ensures
            r == Self::spec_none(),
    {
        SearchSlice { start: 0, count: 0 }
    }
}

impl Record for SearchSlice {
    open spec fn spec_word_count() -> nat {
        2
    }

    open spec fn spec_words(&self) -> Seq<u32> {
        seq![self.start, self.count]
    }

    open spec fn spec_from_words(ws: Seq<u32>) -> Self {
        SearchSlice { start: ws[0], count: ws[1] }
    }

    proof fn lemma_words_roundtrip(&self) {
    }

    fn byte_size() -> (r: usize) {
        8
    }

    fn write_to(&self, buf: &mut Vec<u8>) {
        let ws: [u32; 2] = [self.start, self.count];
        assert(ws@ =~= self.spec_words());
        push_words(buf, &ws);
    }

    fn read_from(b: &[u8], pos: usize) -> (r: Self) {
        let _n = b.len();
        SearchSlice { start: read_word(b, pos), count: read_word(b, pos + 4) }
    }
}


/// A run of transfers or transfer indices.
#[derive(Debug, Clone, Copy, PartialEq, Eq, Structural, Hash, PartialOrd, Ord)]
pub struct TransferSlice {
    pub start: u32,
    pub count: u32,
}

impl Sentinel for TransferSlice {
    open spec fn spec_none() -> Self {
        TransferSlice { start: 0, count: 0 }
    }

    fn none() -> (r: Self) {
        TransferSlice { start: 0, count: 0 }
    }

    fn is_none(self) -> (b: bool) {
        self.start == 0 && self.count == 0
    }

    fn is_some(self) -> (b: bool) {
        !(self.start == 0 && self.count == 0)
    }

    fn as_option(self) -> (o: Option<Self>) {
        if self.start == 0 && self.count == 0 {
            None
        } else {
            Some(self)
        }
    }
}

impl Slice for TransferSlice {
    open spec fn spec_start(&self) -> u32 {
        self.start
    }

    open spec fn spec_count(&self) -> u32 {
        self.count
    }

    proof fn lemma_none_is_empty() {
    }

    fn parts(&self) -> (r: (u32, u32)) {
        (self.start, self.count)
    }

    fn new(start: u32, count: u32) -> (r: Self) {
        TransferSlice { start, count }
    }

    fn from_usize(start: usize, count: usize) -> (r: Self) {
        if start <= 0xffff_ffffusize && count <= 0xffff_ffffusize {
            TransferSlice { start: start as u32, count: count as u32 }
        } else {
            TransferSlice { start: 0, count: 0 }
        }
    }

    fn range(self) -> (r: Range<usize>) {
        let start = self.start as usize;
        let end = start + self.count as usize;
        start..end
    }
}

impl Default for TransferSlice {
    fn default() -> (r: Self)
        ensures
            r == Self::spec_none(),
    {
        TransferSlice { start: 0, count: 0 }
    }
}

impl Record for TransferSlice {
    open spec fn spec_word_count() -> nat {
        2
    }

    open spec fn spec_words(&self) -> Seq<u32> {
        seq![self.start, self.count]
    }

    open spec fn spec_from_words(ws: Seq<u32>) -> Self {
        TransferSlice { start: ws[0], count: ws[1] }
    }

    proof fn lemma_words_roundtrip(&self) {
    }

    fn byte_size() -> (r: usize) {
        8
    }

    fn write_to(&self, buf: &mut Vec<u8>) {
        let ws: [u32; 2] = [self.start, self.count];
        assert(ws@ =~= self.spec_words());
        push_words(buf, &ws);
    }

    fn read_from(b: &[u8], pos: usize) -> (r: Self) {
        let _n = b.len();
        TransferSlice { start: read_word(b, pos), count: read_word(b, pos + 4) }
    }
}


/// A run of bits of the active-day mask.
#[derive(Debug, Clone, Copy, PartialEq, Eq, Structural, Hash, PartialOrd, Ord)]
pub struct ServiceBinarySlice {
    pub start: u32,
    pub count: u32,
}

impl Sentinel for ServiceBinarySlice {
    open spec fn spec_none() -> Self {
        ServiceBinarySlice { start: 0, count: 0 }
    }

    fn none() -> (r: Self) {
        ServiceBinarySlice { start: 0, count: 0 }
    }

    fn is_none(self) -> (b: bool) {
        self.start == 0 && self.count == 0
    }

    fn is_some(self) -> (b: bool) {
        !(self.start == 0 && self.count == 0)
    }

    fn as_option(self) -> (o: Option<Self>) {
        if self.start == 0 && self.count == 0 {
            None
        } else {
            Some(self)
        }
    }
}

impl Slice for ServiceBinarySlice {
    open spec fn spec_start(&self) -> u32 {
        self.start
    }

    open spec fn spec_count(&self) -> u32 {
        self.count
    }

    proof fn lemma_none_is_empty() {
    }

    fn parts(&self) -> (r: (u32, u32)) {
        (self.start, self.count)
    }

    fn new(start: u32, count: u32) -> (r: Self) {
        ServiceBinarySlice { start, count }
    }

    fn from_usize(start: usize, count: usize) -> (r: Self) {
        if start <= 0xffff_ffffusize && count <= 0xffff_ffffusize {
            ServiceBinarySlice { start: start as u32, count: count as u32 }
        } else {
            ServiceBinarySlice { start: 0, count: 0 }
        }
    }

    fn range(self) -> (r: Range<usize>) {
        let start = self.start as usize;
        let end = start + self.count as usize;
        start..end
    }
}

impl Default for ServiceBinarySlice {
    fn default() -> (r: Self)
        ensures
            r == Self::spec_none(),
    {
        ServiceBinarySlice { start: 0, count: 0 }
    }
}

impl Record for ServiceBinarySlice {
    open spec fn spec_word_count() -> nat {
        2
    }

    open spec fn spec_words(&self) -> Seq<u32> {
        seq![self.start, self.count]
    }

    open spec fn spec_from_words(ws: Seq<u32>) -> Self {
        ServiceBinarySlice { start: ws[0], count: ws[1] }
    }

    proof fn lemma_words_roundtrip(&self) {
    }

    fn byte_size() -> (r: usize) {
        8
    }

    fn write_to(&self, buf: &mut Vec<u8>) {
        let ws: [u32; 2] = [self.start, self.count];
        assert(ws@ =~= self.spec_words());
        push_words(buf, &ws);
    }

    fn read_from(b: &[u8], pos: usize) -> (r: Self) {
        let _n = b.len();
        ServiceBinarySlice { start: read_word(b, pos), count: read_word(b, pos + 4) }
    }
}


/// A run of shape points.
#[derive(Debug, Clone, Copy, PartialEq, Eq, Structural, Hash, PartialOrd, Ord)]
pub struct ShapeSlice {
    pub start: u32,
    pub count: u32,
}

impl Sentinel for ShapeSlice {
    open spec fn spec_none() -> Self {
        ShapeSlice { start: 0, count: 0 }
    }

    fn none() -> (r: Self) {
        ShapeSlice { start: 0, count: 0 }
    }

    fn is_none(self) -> (b: bool) {
        self.start == 0 && self.count == 0
    }

    fn is_some(self) -> (b: bool) {
        !(self.start == 0 && self.count == 0)
    }

    fn as_option(self) -> (o: Option<Self>) {
        if self.start == 0 && self.count == 0 {
            None
        } else {
            Some(self)
        }
    }
}

impl Slice for ShapeSlice {
    open spec fn spec_start(&self) -> u32 {
        self.start
    }

    open spec fn spec_count(&self) -> u32 {
        self.count
    }

    proof fn lemma_none_is_empty() {
    }

    fn parts(&self) -> (r: (u32, u32)) {
        (self.start, self.count)
    }

    fn new(start: u32, count: u32) -> (r: Self) {
        ShapeSlice { start, count }
    }

    fn from_usize(start: usize, count: usize) -> (r: Self) {
        if start <= 0xffff_ffffusize && count <= 0xffff_ffffusize {
            ShapeSlice { start: start as u32, count: count as u32 }
        } else {
            ShapeSlice { start: 0, count: 0 }
        }
    }

    fn range(self) -> (r: Range<usize>) {
        let start = self.start as usize;
        let end = start + self.count as usize;
        start..end
    }
}

impl Default for ShapeSlice {
    fn default() -> (r: Self)
        ensures
            r == Self::spec_none(),
    {
        ShapeSlice { start: 0, count: 0 }
    }
}

impl Record for ShapeSlice {
    open spec fn spec_word_count() -> nat {
        2
    }

    open spec fn spec_words(&self) -> Seq<u32> {
        seq![self.start, self.count]
    }

    open spec fn spec_from_words(ws: Seq<u32>) -> Self {
        ShapeSlice { start: ws[0], count: ws[1] }
    }

    proof fn lemma_words_roundtrip(&self) {
    }

    fn byte_size() -> (r: usize) {
        8
    }

    fn write_to(&self, buf: &mut Vec<u8>) {
        let ws: [u32; 2] = [self.start, self.count];
        assert(ws@ =~= self.spec_words());
        push_words(buf, &ws);
    }

    fn read_from(b: &[u8], pos: usize) -> (r: Self) {
        let _n = b.len();
        ShapeSlice { start: read_word(b, pos), count: read_word(b, pos + 4) }
    }
}


} // verus!
