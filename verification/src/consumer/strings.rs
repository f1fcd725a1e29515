//! Reading texts of the strings section.

use vstd::prelude::*;
use vstd::string::StringSliceAdditionalSpecFns;
use vstd::utf8::valid_utf8;

use crate::consumer::lookup::{entries, run_entries, run_fits, text_of};
use crate::consumer::Consumer;
use crate::models::slice::StringSlice;

verus! {

impl Consumer {
    /// The text of `slice` in the strings section, where it is valid UTF-8.
    pub fn string(&self, slice: StringSlice) -> (r: Option<&str>)
        requires
            run_fits(self.strings@, slice),
        ensures
            r is Some <==> valid_utf8(run_entries(self.strings@, slice)),
            r matches Some(s) ==> s.spec_bytes() == run_entries(self.strings@, slice),
    {
        text_of(entries(self.strings.as_slice(), slice))
    }
}

} // verus!
