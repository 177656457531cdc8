//! What every Makefile generator offers.

use vstd::prelude::*;
use crate::error::MakeError;

verus! {

/// A maker creates a Makefile from a list of files.
pub trait Maker {
    /// Whether the maker is new: nothing has been built with it yet.
    spec fn fresh(&self) -> bool;

    /// The text of the Makefile as far as it has been rendered.
    spec fn text(&self) -> Seq<char>;

    /// Builds the Makefile. A build that fails leaves no text behind.
    fn build(&mut self) -> (r: Result<(), MakeError>)
        requires
            old(self).fresh(),
        ensures
            r is Err ==> final(self).text() == Seq::<char>::empty(),
    ;

    /// The Makefile as a string.
    fn dump(&self) -> (s: String)
        ensures
            s@ == self.text(),
    ;
}

} // verus!
