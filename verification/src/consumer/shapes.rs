//! Queries on shapes.

use vstd::prelude::*;

use crate::consumer::lookup::{entries, run_entries, run_fits};
use crate::consumer::Consumer;
use crate::models::slice::ShapeSlice;
use crate::models::Shape;

verus! {

impl Consumer {
    /// The points of the shape run `slice`.
    pub fn shapes(&self, slice: ShapeSlice) -> (r: &[Shape])
        requires
            run_fits(self.shapes@, slice),
        ensures
            r@ == run_entries(self.shapes@, slice),
    {
        entries(self.shapes.as_slice(), slice)
    }
}

} // verus!
