//! The model: the tables of a file that passed every check, with the evaluation
//! engine built from the same bytes.

use crate::binary32::{
    at_most, finite, is_finite, le, lemma_at_most_transitive, rank, ONE,
};
use crate::engine::{engine_resolution, engine_tables, read_engine};
use crate::error::LoadError;
use crate::format::{
    file_len, flat_index, grid_len, in_grid, lemma_flat_index_bounds, lemma_parse_serialize,
    lemma_parse_wf, lemma_round_trip, nondecreasing, parse, serialize, tag, Tables,
    MAX_RESOLUTION, MIN_RESOLUTION,
};
use crate::wire::{append_word, append_words, read_word, read_words, words_at};
use vstd::prelude::*;

verus! {

/// A loaded model. It does not change after it was loaded.
pub struct SpectralModel {
    resolution: u32,
    scale: Vec<u32>,
    grid: Vec<u32>,
    engine: rgb2spec::RGB2Spec,
}

impl View for SpectralModel {
    type V = Tables;

    closed spec fn view(&self) -> Tables {
        Tables { resolution: self.resolution as nat, scale: self.scale@, grid: self.grid@ }
    }
}

/// Whether every entry of `scale` is at most every later one.
pub fn is_nondecreasing(scale: &[u32]) -> (r: bool)
    ensures
        r == nondecreasing(scale@),
{
    let mut i: usize = 1;
    while i < scale.len()
        invariant
            1 <= i,
            forall|j: int, k: int|
                0 <= j < k < i && k < scale@.len() ==> at_most(
                    #[trigger] scale@[j],
                    #[trigger] scale@[k],
                ),
        decreases scale@.len() - i,
    {
        if !le(scale[i - 1], scale[i]) {
            return false;
        }
        assert forall|j: int| 0 <= j < i implies at_most(#[trigger] scale@[j], scale@[i as int]) by {
            if j < i - 1 {
                lemma_at_most_transitive(scale@[j], scale@[i - 1], scale@[i as int]);
            }
        }
        i = i + 1;
    }
    true
}

impl SpectralModel {
    #[verifier::type_invariant]
    pub(crate) closed spec fn holds(self) -> bool {
        &&& self@.wf()
        &&& engine_resolution(self.engine) == self.resolution
        &&& engine_tables(self.engine) == self.scale@ + self.grid@
    }

    /// The engine inside the model.
    pub closed spec fn engine_view(&self) -> rgb2spec::RGB2Spec {
        self.engine
    }

    /// Loads a model from the bytes of a file. It succeeds exactly on the bytes
    /// that hold tables, with those tables, and else fails for the first reason
    /// that the file gives.
    pub fn load(bytes: &[u8]) -> (r: Result<SpectralModel, LoadError>)
        ensures
            match parse(bytes@) {
                Ok(tables) => r is Ok && r->Ok_0@ == tables,
                Err(e) => r is Err && r->Err_0 == e,
            },
            r is Ok ==> r->Ok_0@.wf() && serialize(r->Ok_0@) == bytes@,
            r is Ok ==> engine_resolution(r->Ok_0.engine_view()) == r->Ok_0@.resolution
                && engine_tables(r->Ok_0.engine_view()) == r->Ok_0@.scale + r->Ok_0@.grid,
    {
        proof {
            if parse(bytes@) is Ok {
                lemma_parse_wf(bytes@);
                lemma_parse_serialize(bytes@);
            }
        }
        let len: usize = bytes.len();
        if len < 4 {
            return Err(LoadError::UnexpectedEof);
        }
        let tagged: bool = bytes[0] == 0x53 && bytes[1] == 0x50 && bytes[2] == 0x45 && bytes[3]
            == 0x43;
        proof {
            let head = bytes@.subrange(0, 4);
            if tagged {
                assert(head =~= tag());
            } else {
                assert(head[0] == bytes@[0] && head[1] == bytes@[1] && head[2] == bytes@[2]
                    && head[3] == bytes@[3]);
            }
        }
        if !tagged {
            return Err(LoadError::BadMagic);
        }
        if len < 8 {
            return Err(LoadError::UnexpectedEof);
        }
        let n: u32 = read_word(bytes, 4);
        if n < MIN_RESOLUTION || n > MAX_RESOLUTION {
            return Err(LoadError::BadResolution);
        }
        let wide: u64 = n as u64;
        assert(wide * wide <= 1127 * 1127 && wide * wide * wide <= 1127 * 1127 * 1127)
            by (nonlinear_arith)
            requires
                wide <= 1127,
        ;
        let square: u64 = wide * wide;
        let cube: u64 = square * wide;
        let start: u64 = 8 + 4 * wide;
        let need: u64 = start + 36 * cube;
        assert(need == file_len(n as nat) && 9 * cube == grid_len(n as nat)) by (nonlinear_arith)
            requires
                need == 8 + 4 * wide + 36 * cube,
                cube == square * wide,
                square == wide * wide,
                wide == n,
                file_len(n as nat) == 8 + 4 * n + 4 * grid_len(n as nat),
                grid_len(n as nat) == 9 * n * n * n,
        ;
        let have: u64 = len as u64;
        if have > need {
            return Err(LoadError::BadResolution);
        }
        if have < start {
            return Err(LoadError::UnexpectedEof);
        }
        let scale: Vec<u32> = read_words(bytes, 8, n as usize);
        if !is_nondecreasing(scale.as_slice()) {
            return Err(LoadError::NonMonotonicScale);
        }
        if have < need {
            return Err(LoadError::UnexpectedEof);
        }
        let count: usize = (9 * cube) as usize;
        let grid: Vec<u32> = read_words(bytes, start as usize, count);
        assert(words_at(bytes@, 8, n as nat + grid_len(n as nat)) =~= scale@ + grid@);
        match read_engine(bytes) {
            Ok(engine) => Ok(SpectralModel { resolution: n, scale, grid, engine }),
            Err(_) => Err(LoadError::Io),
        }
    }

    /// The bytes of the file that holds this model.
    pub fn to_bytes(&self) -> (out: Vec<u8>)
        ensures
            out@ == serialize(self@),
            parse(out@) == Ok::<Tables, LoadError>(self@),
            self@.wf(),
    {
        proof {
            use_type_invariant(self);
            lemma_round_trip(self@);
        }
        let mut out: Vec<u8> = Vec::new();
        out.push(0x53);
        out.push(0x50);
        out.push(0x45);
        out.push(0x43);
        assert(out@ =~= tag());
        append_word(&mut out, self.resolution);
        append_words(&mut out, self.scale.as_slice());
        append_words(&mut out, self.grid.as_slice());
        out
    }

    /// The edge length of each grid.
    pub fn resolution(&self) -> (n: u32)
        ensures
            n == self@.resolution,
            self@.wf(),
    {
        proof {
            use_type_invariant(self);
        }
        self.resolution
    }

    /// The scale axis.
    pub fn scale(&self) -> (scale: &[u32])
        ensures
            scale@ == self@.scale,
            self@.wf(),
    {
        proof {
            use_type_invariant(self);
        }
        self.scale.as_slice()
    }

    /// All coefficients, in the order of the file.
    pub fn grid(&self) -> (grid: &[u32])
        ensures
            grid@ == self@.grid,
            self@.wf(),
    {
        proof {
            use_type_invariant(self);
        }
        self.grid.as_slice()
    }

    /// The engine that interpolates and evaluates. It holds the tables of this
    /// model, and it looks a colour up by its own rules, which are not those
    /// of [`SpectralModel::locate`] everywhere: where two channels are equal
    /// and largest, the engine reads the grid of the later one, and for the
    /// value zero on an axis that starts with equal entries it reads the last
    /// of their planes.
    pub fn engine(&self) -> (engine: &rgb2spec::RGB2Spec)
        ensures
            *engine == self.engine_view(),
            engine_resolution(*engine) == self@.resolution,
            engine_tables(*engine) == self@.scale + self@.grid,
    {
        proof {
            use_type_invariant(self);
        }
        &self.engine
    }

    /// The offset in the grid of the first coefficient at the grid point
    /// `(z, v, u)` of grid `major`.
    pub(crate) fn grid_offset(&self, major: usize, z: usize, v: usize, u: usize) -> (offset: usize)
        requires
            in_grid(self@.resolution, major as int, z as int, v as int, u as int, 0),
        ensures
            offset == flat_index(self@.resolution, major as int, z as int, v as int, u as int, 0),
            offset + 2 < self@.grid.len(),
    {
        proof {
            use_type_invariant(self);
        }
        let n: usize = self.resolution as usize;
        let total: usize = self.grid.len();
        proof {
            lemma_flat_index_bounds(n as nat, major as int, z as int, v as int, u as int, 2);
            assert(major * n <= 2 * 1127 && (major * n + z) * n <= 3 * 1127 * 1127 && ((major * n
                + z) * n + v) * n <= 3 * 1127 * 1127 * 1127) by (nonlinear_arith)
                requires
                    major <= 2,
                    n <= 1127,
                    z < n,
                    v < n,
            ;
        }
        let plane: usize = major * n + z;
        let row: usize = plane * n + v;
        let cell: usize = row * n + u;
        assert(cell * 3 + 2 == flat_index(n as nat, major as int, z as int, v as int, u as int, 2));
        assert(cell * 3 + 2 < total);
        cell * 3
    }

    /// Coefficient `coef` at the grid point `(z, v, u)` of grid `major`, or
    /// `None` if one of the five indices is out of range.
    pub fn coefficient(&self, major: usize, z: usize, v: usize, u: usize, coef: usize) -> (r:
        Option<u32>)
        ensures
            in_grid(self@.resolution, major as int, z as int, v as int, u as int, coef as int)
                ==> r == Some(
                self@.grid[flat_index(
                    self@.resolution,
                    major as int,
                    z as int,
                    v as int,
                    u as int,
                    coef as int,
                )],
            ),
            !in_grid(self@.resolution, major as int, z as int, v as int, u as int, coef as int)
                ==> r is None,
    {
        let n: usize = self.resolution as usize;
        if major >= 3 || z >= n || v >= n || u >= n || coef >= 3 {
            return None;
        }
        let offset: usize = self.grid_offset(major, z, v, u);
        let total: usize = self.grid.len();
        assert(offset + coef < total);
        Some(self.grid[offset + coef])
    }

    /// Whether the scale axis starts at zero and ends at one.
    pub fn covers_unit_interval(&self) -> (r: bool)
        ensures
            r == (rank(self@.scale[0]) == 0 && self@.scale[self@.resolution - 1] == ONE),
    {
        proof {
            use_type_invariant(self);
        }
        let first: u32 = self.scale[0];
        let last: u32 = self.scale[self.scale.len() - 1];
        proof {
            assert(at_most(self.scale@[0], self.scale@[1]));
        }
        (first == 0 || first == 0x8000_0000) && last == ONE
    }

    /// Whether every coefficient is a finite number.
    pub fn is_finite(&self) -> (r: bool)
        ensures
            r == (forall|i: int| 0 <= i < self@.grid.len() ==> finite(#[trigger] self@.grid[i])),
    {
        let mut i: usize = 0;
        while i < self.grid.len()
            invariant
                forall|j: int| 0 <= j < i && j < self.grid@.len() ==> finite(#[trigger] self.grid@[j]),
            decreases self.grid@.len() - i,
        {
            if !is_finite(self.grid[i]) {
                assert(!finite(self@.grid[i as int]));
                return false;
            }
            i = i + 1;
        }
        true
    }
}

} // verus!
