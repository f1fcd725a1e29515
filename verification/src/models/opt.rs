use vstd::prelude::*;

use crate::models::sentinel::Sentinel;

verus! {

/// An optional value that takes no more room than the value itself: the
/// reserved value of `T` stands for "absent".
#[derive(Debug, Clone, Copy)]
pub struct Opt<T: Sentinel>(pub T);

impl<T: Sentinel> Opt<T> {
    /// The stored value, the reserved one included.
    pub open spec fn inner(self) -> T {
        self.0
    }

    /// The value as an `Option`.
    pub open spec fn spec_option(self) -> Option<T> {
        if self.inner() == T::spec_none() {
            None
        } else {
            Some(self.inner())
        }
    }

    /// Wraps `value`; the reserved value makes an absent `Opt`.
    pub fn new(value: T) -> (r: Self)
        ensures
            r.inner() == value,
    {
        Opt(value)
    }

    /// An absent value.
    pub fn none() -> (r: Self)
        ensures
            r.inner() == T::spec_none(),
            r.spec_option() is None,
    {
        Opt(T::none())
    }

    /// Wraps an `Option`, storing the reserved value for `None`.
    pub fn from_option(value: Option<T>) -> (r: Self)
        ensures
            value is None ==> r.inner() == T::spec_none(),
            value matches Some(v) ==> r.inner() == v,
    {
        match value {
            Some(v) => Opt(v),
            None => Opt(T::none()),
        }
    }

    /// The stored value, reserved or not.
    pub fn value(self) -> (r: T)
        ensures
            r == self.inner(),
    {
        self.0
    }

    /// The value, if present.
    pub fn get(self) -> (r: Option<T>)
        ensures
            r == self.spec_option(),
    {
        self.0.as_option()
    }

    /// Forces the caller to handle the absent case.
    pub fn as_option(self) -> (r: Option<T>)
        ensures
            r == self.spec_option(),
    {
        self.0.as_option()
    }

    /// A value is present.
    pub fn is_some(self) -> (b: bool)
        ensures
            b == (self.spec_option() is Some),
    {
        self.0.is_some()
    }

    /// No value is present.
    pub fn is_none(self) -> (b: bool)
        ensures
            b == (self.spec_option() is None),
    {
        self.0.is_none()
    }
}

} // verus!
