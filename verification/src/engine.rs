//! The evaluation engine: a model as the `rgb2spec` crate holds it.
//!
//! The engine interpolates coefficients and evaluates reflectances, in floating
//! point. This library builds it from a file that it has checked and hands it
//! to its callers. Nothing in this file is proved: the contracts say what the
//! source of `rgb2spec` shows.

use crate::format::{file_len, grid_len, tag};
use crate::wire::{word_at, words_at};
use vstd::prelude::*;

verus! {

/// The engine of `rgb2spec`. Its fields are private to that crate.
#[verifier::external_type_specification]
#[verifier::external_body]
pub struct ExEngine(rgb2spec::RGB2Spec);

/// The error of `std::io`, which the engine's reader returns.
#[verifier::external_type_specification]
#[verifier::external_body]
pub struct ExReadError(std::io::Error);

/// The resolution that an engine was built with.
pub uninterp spec fn engine_resolution(engine: rgb2spec::RGB2Spec) -> nat;

/// The values that an engine holds, each by its bit pattern: the entries of its
/// scale axis, then its coefficients, in the order of the file.
pub uninterp spec fn engine_tables(engine: rgb2spec::RGB2Spec) -> Seq<u32>;

/// `RGB2Spec::from_reader` on a slice of bytes. It reads the tag, the
/// resolution, then as many scale entries and coefficients as the resolution
/// asks for, turning every four bytes into one value, least significant byte
/// first. It refuses a wrong tag, a resolution above 65535 and bytes that end
/// early; the contract leaves these out and says that on all other bytes an
/// engine comes back that holds the resolution and the values of the file.
#[verifier::external_body]
pub(crate) fn read_engine(bytes: &[u8]) -> (r: Result<rgb2spec::RGB2Spec, std::io::Error>)
    requires
        bytes@.len() >= 8,
        bytes@.subrange(0, 4) == tag(),
        word_at(bytes@, 4) <= 0xFFFF,
        bytes@.len() >= file_len(word_at(bytes@, 4) as nat),
    ensures
        r is Ok,
        engine_resolution(r->Ok_0) == word_at(bytes@, 4),
        engine_tables(r->Ok_0) == words_at(
            bytes@,
            8,
            word_at(bytes@, 4) as nat + grid_len(word_at(bytes@, 4) as nat),
        ),
{
    let mut source: &[u8] = bytes;
    rgb2spec::RGB2Spec::from_reader(&mut source)
}

} // verus!
