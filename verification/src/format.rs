//! The model file, as a relation between bytes and tables.
//!
//! A file is the tag `SPEC`, the resolution `n` as one word, the `n` entries of
//! the scale axis and the `9 * n * n * n` coefficients of the three grids, each
//! entry and coefficient a single-precision value in one word.

use crate::binary32::at_most;
use crate::error::LoadError;
use crate::wire::{bytes_of, lemma_bytes_of_words, lemma_words_of_bytes, word_at, words_at};
use vstd::prelude::*;

verus! {

/// The smallest resolution: a grid needs two planes along each axis to have a cell.
pub const MIN_RESOLUTION: u32 = 2;

/// The largest resolution. Up to it the offset of every cell of the three grids
/// fits 32 bits, which is what the evaluation engine computes offsets in.
pub const MAX_RESOLUTION: u32 = 1127;

/// The four bytes that open a model file, `SPEC` in ASCII.
pub open spec fn tag() -> Seq<u8> {
    seq![0x53u8, 0x50u8, 0x45u8, 0x43u8]
}

/// The number of coefficients in a file of resolution `n`: three grids of
/// `n * n * n` cells with three coefficients each.
pub open spec fn grid_len(n: nat) -> nat {
    9 * n * n * n
}

/// Where the coefficients start in a file of resolution `n`.
pub open spec fn grid_start(n: nat) -> int {
    (8 + 4 * n) as int
}

/// The length in bytes of a file of resolution `n`.
pub open spec fn file_len(n: nat) -> nat {
    8 + 4 * n + 4 * grid_len(n)
}

/// Whether every entry of `scale` is at most every later one. An axis with a
/// NaN beside another entry is not nondecreasing.
pub open spec fn nondecreasing(scale: Seq<u32>) -> bool {
    forall|i: int, j: int|
        0 <= i < j < scale.len() ==> at_most(#[trigger] scale[i], #[trigger] scale[j])
}

/// What a model holds.
pub struct Tables {
    /// The edge length of each grid.
    pub resolution: nat,
    /// The positions of the grid planes along the axis of the largest channel.
    pub scale: Seq<u32>,
    /// The coefficients, with the coefficient index running fastest, then the
    /// first and the second of the smaller channels, then the scale axis, then
    /// the grid.
    pub grid: Seq<u32>,
}

impl Tables {
    /// What holds of every model that was loaded.
    pub open spec fn wf(self) -> bool {
        &&& MIN_RESOLUTION <= self.resolution <= MAX_RESOLUTION
        &&& self.scale.len() == self.resolution
        &&& self.grid.len() == grid_len(self.resolution)
        &&& nondecreasing(self.scale)
    }
}

/// The file that holds `tables`.
pub open spec fn serialize(tables: Tables) -> Seq<u8> {
    tag() + bytes_of(seq![tables.resolution as u32]) + bytes_of(tables.scale) + bytes_of(
        tables.grid,
    )
}

/// The tables that `bytes` hold, or the first reason why they hold none. The
/// checks come in the order of the file: tag, resolution, scale axis, grid.
/// Bytes that are missing are an early end where they are needed; bytes beyond
/// the grid make the resolution wrong.
pub open spec fn parse(bytes: Seq<u8>) -> Result<Tables, LoadError> {
    if bytes.len() < 4 {
        Err(LoadError::UnexpectedEof)
    } else if bytes.subrange(0, 4) != tag() {
        Err(LoadError::BadMagic)
    } else if bytes.len() < 8 {
        Err(LoadError::UnexpectedEof)
    } else {
        let n = word_at(bytes, 4) as nat;
        if n < MIN_RESOLUTION || n > MAX_RESOLUTION || bytes.len() > file_len(n) {
            Err(LoadError::BadResolution)
        } else if bytes.len() < grid_start(n) {
            Err(LoadError::UnexpectedEof)
        } else if !nondecreasing(words_at(bytes, 8, n)) {
            Err(LoadError::NonMonotonicScale)
        } else if bytes.len() < file_len(n) {
            Err(LoadError::UnexpectedEof)
        } else {
            Ok(
                Tables {
                    resolution: n,
                    scale: words_at(bytes, 8, n),
                    grid: words_at(bytes, grid_start(n), grid_len(n)),
                },
            )
        }
    }
}

/// The position of a coefficient in the grid: `coef` runs fastest, then `u`,
/// then `v`, then `z`, then `major`.
pub open spec fn flat_index(n: nat, major: int, z: int, v: int, u: int, coef: int) -> int {
    ((((major * n + z) * n + v) * n + u) * 3) + coef
}

/// Whether the five indices name a coefficient of a grid of resolution `n`.
pub open spec fn in_grid(n: nat, major: int, z: int, v: int, u: int, coef: int) -> bool {
    &&& 0 <= major < 3
    &&& 0 <= z < n
    &&& 0 <= v < n
    &&& 0 <= u < n
    &&& 0 <= coef < 3
}

/// Every coefficient has a place within the grid.
pub proof fn lemma_flat_index_bounds(n: nat, major: int, z: int, v: int, u: int, coef: int)
    requires
        in_grid(n, major, z, v, u, coef),
    ensures
        0 <= flat_index(n, major, z, v, u, coef) < grid_len(n),
{
    let a = major * n + z;
    assert(0 <= a <= 3 * n - 1) by (nonlinear_arith)
        requires
            0 <= major <= 2,
            0 <= z <= n - 1,
            a == major * n + z,
    ;
    let b = a * n + v;
    assert(0 <= b <= 3 * n * n - 1) by (nonlinear_arith)
        requires
            0 <= a <= 3 * n - 1,
            0 <= v <= n - 1,
            b == a * n + v,
    ;
    let c = b * n + u;
    assert(0 <= c <= 3 * n * n * n - 1) by (nonlinear_arith)
        requires
            0 <= b <= 3 * n * n - 1,
            0 <= u <= n - 1,
            c == b * n + u,
    ;
    assert(9 * n * n * n == 3 * (3 * n * n * n)) by (nonlinear_arith);
}

/// A quotient and a remainder are determined by what they stand for.
proof fn lemma_digits(q1: int, r1: int, q2: int, r2: int, base: int)
    requires
        0 <= r1 < base,
        0 <= r2 < base,
        q1 * base + r1 == q2 * base + r2,
    ensures
        q1 == q2,
        r1 == r2,
{
    assert(q1 == q2) by (nonlinear_arith)
        requires
            0 <= r1 < base,
            0 <= r2 < base,
            q1 * base + r1 == q2 * base + r2,
    ;
}

/// No two coefficients share a place.
pub proof fn lemma_flat_index_injective(
    n: nat,
    major: int,
    z: int,
    v: int,
    u: int,
    coef: int,
    major2: int,
    z2: int,
    v2: int,
    u2: int,
    coef2: int,
)
    requires
        in_grid(n, major, z, v, u, coef),
        in_grid(n, major2, z2, v2, u2, coef2),
        flat_index(n, major, z, v, u, coef) == flat_index(n, major2, z2, v2, u2, coef2),
    ensures
        major == major2,
        z == z2,
        v == v2,
        u == u2,
        coef == coef2,
{
    let row = (major * n + z) * n + v;
    let row2 = (major2 * n + z2) * n + v2;
    lemma_digits(row * n + u, coef, row2 * n + u2, coef2, 3);
    lemma_digits(row, u, row2, u2, n as int);
    lemma_digits(major * n + z, v, major2 * n + z2, v2, n as int);
    lemma_digits(major, z, major2, z2, n as int);
}

/// Tables that come out of a file are well formed, and the file has the length
/// that its resolution gives it.
pub proof fn lemma_parse_wf(bytes: Seq<u8>)
    requires
        parse(bytes) is Ok,
    ensures
        parse(bytes)->Ok_0.wf(),
        bytes.len() == file_len(parse(bytes)->Ok_0.resolution),
{
}

/// Writing tables out and loading them again gives the same tables, equal in
/// every entry of every field.
pub proof fn lemma_round_trip(tables: Tables)
    requires
        tables.wf(),
    ensures
        parse(serialize(tables)) == Ok::<Tables, LoadError>(tables),
{
    let n = tables.resolution;
    let head = tag();
    let count = bytes_of(seq![n as u32]);
    let scale = bytes_of(tables.scale);
    let grid = bytes_of(tables.grid);
    let bytes = serialize(tables);
    let empty = Seq::<u8>::empty();
    assert(bytes.len() == file_len(n));
    assert(bytes.subrange(0, 4) =~= head);
    assert(bytes =~= head + count + (scale + grid));
    lemma_words_of_bytes(head, seq![n as u32], scale + grid);
    assert(words_at(bytes, 4, 1)[0] == n as u32);
    assert(bytes =~= (head + count) + scale + grid);
    lemma_words_of_bytes(head + count, tables.scale, grid);
    assert(bytes =~= (head + count + scale) + grid + empty);
    lemma_words_of_bytes(head + count + scale, tables.grid, empty);
    let loaded = parse(bytes)->Ok_0;
    assert(loaded.scale == tables.scale);
    assert(loaded.grid == tables.grid);
}

/// Loading a file and writing the tables out again gives the same file, byte
/// for byte.
pub proof fn lemma_parse_serialize(bytes: Seq<u8>)
    requires
        parse(bytes) is Ok,
    ensures
        serialize(parse(bytes)->Ok_0) == bytes,
{
    let tables = parse(bytes)->Ok_0;
    let n = tables.resolution;
    lemma_bytes_of_words(bytes, 4, 1);
    assert(words_at(bytes, 4, 1) =~= seq![n as u32]);
    lemma_bytes_of_words(bytes, 8, n);
    lemma_bytes_of_words(bytes, grid_start(n), grid_len(n));
    let start = grid_start(n);
    assert(serialize(tables) =~= bytes.subrange(0, 4) + bytes.subrange(4, 8) + bytes.subrange(
        8,
        start,
    ) + bytes.subrange(start, start + 4 * grid_len(n)));
    assert(serialize(tables) =~= bytes);
}

} // verus!
