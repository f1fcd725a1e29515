use vstd::prelude::*;

verus! {

/// A set of flags that can be joined and tested for inclusion.
pub trait BitMask: Sized {
    /// The flags as a bit pattern.
    spec fn spec_bits(self) -> u32;

    /// The union of both flag sets.
    fn join(self, other: Self) -> (r: Self)
        ensures
            r.spec_bits() == (self.spec_bits() | other.spec_bits()),
    ;

    /// Every flag of `other` is set in `self`.
    fn contains(self, other: Self) -> (r: bool)
        ensures
            r == ((self.spec_bits() & other.spec_bits()) == other.spec_bits()),
    ;
}

/// A union of two flag sets contains each of them, and containment passes
/// through: a set that contains a second contains all that the second does.
pub proof fn lemma_join_contains<M: BitMask>(a: M, b: M, c: M)
    ensures
        ((a.spec_bits() | b.spec_bits()) & a.spec_bits()) == a.spec_bits(),
        ((a.spec_bits() | b.spec_bits()) & b.spec_bits()) == b.spec_bits(),
        (a.spec_bits() & b.spec_bits()) == b.spec_bits() && (b.spec_bits() & c.spec_bits()) == c.spec_bits() ==> (
        a.spec_bits() & c.spec_bits()) == c.spec_bits(),
{
    let (x, y, z) = (a.spec_bits(), b.spec_bits(), c.spec_bits());
    assert(((x | y) & x) == x && ((x | y) & y) == y) by (bit_vector);
    assert((x & y) == y && (y & z) == z ==> (x & z) == z) by (bit_vector);
}

/// A set of days of the week, one bit per day, Monday in the lowest bit.
#[derive(Debug, Default, Clone, Copy, PartialEq, Eq, Structural, Hash)]
pub struct Weekday(pub u8);

impl Weekday {
    /// The set holding only Monday.
    pub fn monday() -> (r: Self)
        ensures
            r.0 == 1,
    {
        Weekday(1)
    }

    /// The set holding only Tuesday.
    pub fn tuesday() -> (r: Self)
        ensures
            r.0 == 2,
    {
        Weekday(2)
    }

    /// The set holding only Wednesday.
    pub fn wednesday() -> (r: Self)
        ensures
            r.0 == 4,
    {
        Weekday(4)
    }

    /// The set holding only Thursday.
    pub fn thursday() -> (r: Self)
        ensures
            r.0 == 8,
    {
        Weekday(8)
    }

    /// The set holding only Friday.
    pub fn friday() -> (r: Self)
        ensures
            r.0 == 16,
    {
        Weekday(16)
    }

    /// The set holding only Saturday.
    pub fn saturday() -> (r: Self)
        ensures
            r.0 == 32,
    {
        Weekday(32)
    }

    /// The set holding only Sunday.
    pub fn sunday() -> (r: Self)
        ensures
            r.0 == 64,
    {
        Weekday(64)
    }


    /// The set holding only day `value` (0 is Monday, 6 is Sunday).
    pub fn from_day(value: u8) -> (r: Self)
        requires
            value < 8,
        ensures
            r.0 == (1u8 << value),
    {
        Weekday(1u8 << value)
    }

    /// Adds or removes day `day` (0 is Monday) as `runs` says.
    pub fn with_day(self, day: u8, runs: bool) -> (r: Self)
        requires
            day < 7,
        ensures
            r.has_day(day) == runs,
            forall|d: u8| d < 7 && d != day ==> r.has_day(d) == self.has_day(d),
    {
        let bit: u8 = 1u8 << day;
        let r = if runs { Weekday(self.0 | bit) } else { Weekday(self.0 & !bit) };
        assert forall|d: u8| d < 7 implies r.has_day(d) == (if d == day { runs } else {
            self.has_day(d)
        }) by {
            let x = self.0;
            assert(bit == 1u8 << day);
            if runs {
                assert(((x | bit) & (1u8 << d)) != 0 <==> (if d == day { true } else { (x & (1u8
                    << d)) != 0 })) by (bit_vector)
                    requires
                        d < 7,
                        day < 7,
                        bit == 1u8 << day,
                ;
            } else {
                assert(((x & !bit) & (1u8 << d)) != 0 <==> (if d == day { false } else { (x & (1u8
                    << d)) != 0 })) by (bit_vector)
                    requires
                        d < 7,
                        day < 7,
                        bit == 1u8 << day,
                ;
            }
        }
        r
    }

    /// Day `day` (0 is Monday) is in the set.
    pub open spec fn has_day(self, day: u8) -> bool {
        (self.0 & (1u8 << day)) != 0
    }

    /// Day `day` (0 is Monday) is in the set.
    pub fn get_day(self, day: u8) -> (r: bool)
        requires
            day < 7,
        ensures
            r == self.has_day(day),
    {
        (self.0 & (1u8 << day)) != 0
    }
}

impl BitMask for Weekday {
    open spec fn spec_bits(self) -> u32 {
        self.0 as u32
    }

    fn join(self, other: Self) -> (r: Self) {
        let r = Weekday(self.0 | other.0);
        let (a, b) = (self.0, other.0);
        assert((a | b) as u32 == ((a as u32) | (b as u32))) by (bit_vector);
        r
    }

    fn contains(self, other: Self) -> (r: bool) {
        let (a, b) = (self.0, other.0);
        assert(((a & b) == b) == (((a as u32) & (b as u32)) == (b as u32))) by (bit_vector);
        self.0 & other.0 == other.0
    }
}

} // verus!
