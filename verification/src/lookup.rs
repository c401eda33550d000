//! Where a colour is looked up: which of the three grids, and which cell of it.
//!
//! The largest channel of the colour picks the grid and, through the scale
//! axis, the plane of cells. The two other channels, divided by the largest,
//! pick the cell in that plane. Those divisions and the interpolation between
//! the eight corners of the cell are the caller's; what is decided on the bit
//! patterns alone is decided here.
//!
//! The evaluation engine decides the same questions for itself when it
//! interpolates, and nothing here is proved of it. Its answers differ from
//! these in two places. Where two channels are equal and largest, the engine
//! reads the grid of the later channel and this module names the earlier one.
//! For the value zero on an axis that starts with equal entries, the engine
//! reads the last plane of those entries and this module names the first.

use crate::binary32::{
    at_most, clamp_unit, le, lemma_at_most_total, lemma_at_most_transitive, magnitude, unit, ONE,
    SIGN, ZERO,
};
use crate::format::{flat_index, nondecreasing};
use crate::model::SpectralModel;
use vstd::prelude::*;

verus! {

/// The grid for a colour: the index of its largest channel after clamping, the
/// smaller index where two channels are equal.
pub open spec fn major_of(r: u32, g: u32, b: u32) -> int {
    if unit(r) >= unit(g) && unit(r) >= unit(b) {
        0
    } else if unit(g) >= unit(b) {
        1
    } else {
        2
    }
}

/// Whether `k` is the plane of cells for the value `z`. For zero it is the
/// first plane. For any other value it is the last plane but one at the most,
/// and of those the last one whose scale entry is at most `z`, or the first
/// plane if there is none.
pub open spec fn is_interval(scale: Seq<u32>, z: u32, k: int) -> bool {
    &&& 0 <= k <= scale.len() - 2
    &&& if magnitude(z) == 0 {
        k == 0
    } else {
        &&& k == 0 || at_most(scale[k], z)
        &&& forall|j: int| k < j <= scale.len() - 2 ==> !at_most(#[trigger] scale[j], z)
    }
}

/// The cell along one of the two smaller channels, for the whole part `floor`
/// of the channel's grid coordinate: the last cell takes the upper edge in.
pub open spec fn cell_of(n: nat, floor: u32) -> int {
    if floor <= n - 2 {
        floor as int
    } else {
        n - 2
    }
}

/// What is decided of a lookup before any arithmetic.
#[derive(Clone, Copy, Debug, PartialEq, Eq)]
pub struct Lookup {
    /// The grid: the index of the largest channel.
    pub major: usize,
    /// The largest channel, clamped.
    pub z: u32,
    /// The channel after the largest one, cyclically, clamped.
    pub first: u32,
    /// The channel before the largest one, cyclically, clamped.
    pub second: u32,
    /// The plane of cells along the scale axis.
    pub interval: usize,
}

/// The chosen channel is the largest, and the channels before it are smaller.
pub proof fn lemma_major_is_largest(r: u32, g: u32, b: u32)
    ensures
        ({
            let c = seq![unit(r), unit(g), unit(b)];
            let i = major_of(r, g, b);
            &&& 0 <= i < 3
            &&& forall|j: int| 0 <= j < 3 ==> #[trigger] c[j] <= c[i]
            &&& forall|j: int| 0 <= j < i ==> #[trigger] c[j] < c[i]
        }),
{
}

/// A value has one plane of cells, whatever the scale axis holds.
pub proof fn lemma_interval_unique(scale: Seq<u32>, z: u32, k: int, l: int)
    requires
        is_interval(scale, z, k),
        is_interval(scale, z, l),
    ensures
        k == l,
{
    if magnitude(z) != 0 {
        if k < l {
            assert(!at_most(scale[l], z));
        } else if l < k {
            assert(!at_most(scale[k], z));
        }
    }
}

/// On a nondecreasing axis, a value between the two ends of the axis lies
/// between the two planes that bound its cell; zero does so on an axis that
/// starts at zero.
pub proof fn lemma_interval_bounds(scale: Seq<u32>, z: u32, k: int)
    requires
        scale.len() >= 2,
        nondecreasing(scale),
        is_interval(scale, z, k),
        at_most(scale[0], z),
        at_most(z, scale[scale.len() - 1]),
        magnitude(z) == 0 ==> at_most(z, scale[0]),
    ensures
        at_most(scale[k], z),
        at_most(z, scale[k + 1]),
{
    if magnitude(z) == 0 {
        assert(at_most(scale[0], scale[1]));
        lemma_at_most_transitive(z, scale[0], scale[1]);
    } else if k + 1 <= scale.len() - 2 {
        assert(!at_most(scale[k + 1], z));
        assert(at_most(scale[0], scale[k + 1]));
        lemma_at_most_total(scale[k + 1], z);
    }
}

/// At the ends of a nondecreasing axis: zero, and a value that no plane after
/// the first is at most, have the first plane; a value other than zero that
/// the last plane but one is at most has that plane, as the upper end of the
/// axis does.
pub proof fn lemma_interval_ends(scale: Seq<u32>, z: u32, k: int)
    requires
        scale.len() >= 2,
        nondecreasing(scale),
        is_interval(scale, z, k),
    ensures
        magnitude(z) == 0 ==> k == 0,
        !at_most(scale[1], z) ==> k == 0,
        magnitude(z) != 0 && at_most(scale[scale.len() - 2], z) ==> k == scale.len() - 2,
{
    if magnitude(z) != 0 && !at_most(scale[1], z) && k > 0 {
        if k > 1 {
            assert(at_most(scale[1], scale[k]));
            lemma_at_most_transitive(scale[1], scale[k], z);
        }
    }
}

/// The grid for a colour.
pub fn major_component(rgb: [u32; 3]) -> (major: usize)
    ensures
        major == major_of(rgb[0], rgb[1], rgb[2]),
{
    let r: u32 = clamp_unit(rgb[0]);
    let g: u32 = clamp_unit(rgb[1]);
    let b: u32 = clamp_unit(rgb[2]);
    if r >= g && r >= b {
        0
    } else if g >= b {
        1
    } else {
        2
    }
}

impl SpectralModel {
    /// The plane of cells for the value `z`: the first plane for zero, else
    /// found by bisection. A value between the two ends of the axis lies
    /// between the two planes that bound the cell; zero does so on an axis that
    /// starts at zero.
    pub fn interval(&self, z: u32) -> (k: usize)
        ensures
            is_interval(self@.scale, z, k as int),
            magnitude(z) == 0 ==> k == 0,
            at_most(self@.scale[0], z) && at_most(z, self@.scale[self@.resolution - 1]) && (
            magnitude(z) == 0 ==> at_most(z, self@.scale[0])) ==> at_most(
                self@.scale[k as int],
                z,
            ) && at_most(z, self@.scale[k + 1]),
            self@.wf(),
    {
        let scale: &[u32] = self.scale();
        if z == ZERO || z == SIGN {
            proof {
                if at_most(scale@[0], z) && at_most(z, scale@[0]) {
                    lemma_interval_bounds(scale@, z, 0);
                }
            }
            return 0;
        }
        let mut low: usize = 0;
        let mut high: usize = scale.len() - 2;
        while low < high
            invariant
                magnitude(z) != 0,
                scale@.len() >= 2,
                nondecreasing(scale@),
                low <= high <= scale@.len() - 2,
                low == 0 || at_most(scale@[low as int], z),
                forall|j: int| high < j <= scale@.len() - 2 ==> !at_most(#[trigger] scale@[j], z),
            decreases high - low,
        {
            let middle: usize = high - (high - low) / 2;
            if le(scale[middle], z) {
                low = middle;
            } else {
                assert forall|j: int| middle <= j <= scale@.len() - 2 implies !at_most(
                    #[trigger] scale@[j],
                    z,
                ) by {
                    if middle < j {
                        assert(at_most(scale@[middle as int], scale@[j]));
                        if at_most(scale@[j], z) {
                            lemma_at_most_transitive(scale@[middle as int], scale@[j], z);
                        }
                    }
                }
                high = middle - 1;
            }
        }
        proof {
            if at_most(scale@[0], z) && at_most(z, scale@[scale@.len() - 1]) {
                lemma_interval_bounds(scale@, z, low as int);
            }
        }
        low
    }

    /// The cell along one of the two smaller channels, for the whole part
    /// `floor` of the channel's grid coordinate.
    pub fn cell(&self, floor: u32) -> (k: usize)
        ensures
            k == cell_of(self@.resolution, floor),
            k + 2 <= self@.resolution,
            self@.wf(),
    {
        let n: u32 = self.resolution();
        if floor <= n - 2 {
            floor as usize
        } else {
            (n - 2) as usize
        }
    }

    /// What is decided of the lookup of `rgb`: the channels are clamped, the
    /// largest picks the grid and the plane, and none of the two others
    /// exceeds it.
    pub fn locate(&self, rgb: [u32; 3]) -> (at: Lookup)
        ensures
            at.major == major_of(rgb[0], rgb[1], rgb[2]),
            at.z == unit(rgb[at.major as int]),
            at.first == unit(rgb[(at.major + 1) % 3]),
            at.second == unit(rgb[(at.major + 2) % 3]),
            at.first <= at.z <= ONE,
            at.second <= at.z,
            is_interval(self@.scale, at.z, at.interval as int),
            at.z == ZERO ==> at.interval == 0,
            at_most(self@.scale[0], at.z) && at_most(at.z, self@.scale[self@.resolution - 1]) && (
            at.z == ZERO ==> at_most(at.z, self@.scale[0])) ==> at_most(
                self@.scale[at.interval as int],
                at.z,
            ) && at_most(at.z, self@.scale[at.interval + 1]),
            self@.wf(),
    {
        let major: usize = major_component(rgb);
        let z: u32 = clamp_unit(rgb[major]);
        let first: u32 = clamp_unit(rgb[(major + 1) % 3]);
        let second: u32 = clamp_unit(rgb[(major + 2) % 3]);
        let interval: usize = self.interval(z);
        Lookup { major, z, first, second, interval }
    }

    /// The offset in the grid of the first coefficient at one corner of the
    /// cell `(z, v, u)` of grid `major`, the upper corner along each axis for
    /// which the flag is set; the two other coefficients follow it. `None` if
    /// there is no such cell.
    pub fn corner(
        &self,
        major: usize,
        z: usize,
        v: usize,
        u: usize,
        upper_z: bool,
        upper_v: bool,
        upper_u: bool,
    ) -> (r: Option<usize>)
        ensures
            self@.wf(),
            (major < 3 && z + 2 <= self@.resolution && v + 2 <= self@.resolution && u + 2
                <= self@.resolution) ==> r is Some && r->Some_0 == flat_index(
                self@.resolution,
                major as int,
                z + (if upper_z { 1int } else { 0int }),
                v + (if upper_v { 1int } else { 0int }),
                u + (if upper_u { 1int } else { 0int }),
                0,
            ) && r->Some_0 + 2 < self@.grid.len(),
            !(major < 3 && z + 2 <= self@.resolution && v + 2 <= self@.resolution && u + 2
                <= self@.resolution) ==> r is None,
    {
        let n: usize = self.resolution() as usize;
        if major >= 3 || z > n - 2 || v > n - 2 || u > n - 2 {
            return None;
        }
        let zc: usize = if upper_z { z + 1 } else { z };
        let vc: usize = if upper_v { v + 1 } else { v };
        let uc: usize = if upper_u { u + 1 } else { u };
        Some(self.grid_offset(major, zc, vc, uc))
    }
}

} // verus!
