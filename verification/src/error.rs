//! Why a model could not be loaded.

use vstd::prelude::*;

verus! {

/// The ways in which loading a model fails.
#[derive(Clone, Copy, Debug, PartialEq, Eq, Structural)]
pub enum LoadError {
    /// The byte source itself failed.
    Io,
    /// The first four bytes are not the tag of a model file.
    BadMagic,
    /// The resolution is out of range, or bytes follow the end of the grid.
    BadResolution,
    /// An entry of the scale axis is smaller than the one before it, or one of
    /// the two is not a number.
    NonMonotonicScale,
    /// The bytes end before the header, the scale axis or the grid is complete.
    UnexpectedEof,
}

} // verus!
