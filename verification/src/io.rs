//! Writing values in the two notations.
use vstd::prelude::*;

verus! {

/// A value that can be written in SFEN notation.
pub trait ToSfen {
    /// Returns the SFEN text.
    fn to_sfen(&self) -> String;
}

/// A value that can be written in CSA notation.
pub trait ToCSA {
    /// Returns the CSA text.
    fn to_csa(&self) -> String;
}

} // verus!
