use vstd::prelude::*;

verus! {

/// A type with one reserved value, `NONE`, that stands for "no value", so that
/// optional fields take no more room than the value itself.
pub trait Sentinel: Sized + Copy {
    /// The reserved value.
    spec fn spec_none() -> Self;

    /// Returns the reserved value.
    fn none() -> (r: Self)
        ensures
            r == Self::spec_none(),
    ;

    /// The value is the reserved one.
    fn is_none(self) -> (b: bool)
        ensures
            b == (self == Self::spec_none()),
    ;

    /// The value is not the reserved one.
    fn is_some(self) -> (b: bool)
        ensures
            b == (self != Self::spec_none()),
    ;

    /// `None` for the reserved value, the value itself otherwise.
    fn as_option(self) -> (o: Option<Self>)
        ensures
            o == (if self == Self::spec_none() { None } else { Some(self) }),
    ;
}

} // verus!
