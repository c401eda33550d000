//! The wavelengths at which a reflectance is sampled, in nanometres.

use vstd::prelude::*;

verus! {

/// The number of bands.
pub const BAND_COUNT: usize = 31;

/// The wavelength of the first band.
pub const FIRST_BAND: u32 = 380;

/// The distance from one band to the next.
pub const BAND_STEP: u32 = 10;

/// The shortest wavelength that a model covers.
pub const RANGE_START: u32 = 360;

/// The longest wavelength that a model covers.
pub const RANGE_END: u32 = 830;

/// The wavelength of band `band`.
pub open spec fn band_wavelength(band: int) -> int {
    FIRST_BAND + BAND_STEP * band
}

/// Whether a model covers the wavelength.
pub open spec fn in_range(wavelength: int) -> bool {
    RANGE_START <= wavelength <= RANGE_END
}

/// The bands run from 380 to 680, each longer than the one before, and a model
/// covers them all.
pub proof fn lemma_bands(band: int)
    requires
        0 <= band < BAND_COUNT,
    ensures
        in_range(band_wavelength(band)),
        band_wavelength(0) == 380,
        band_wavelength(BAND_COUNT - 1) == 680,
        band > 0 ==> band_wavelength(band) == band_wavelength(band - 1) + BAND_STEP,
{
}

/// The wavelength of band `band`, or `None` if there is no such band.
pub fn wavelength(band: usize) -> (r: Option<u32>)
    ensures
        band < BAND_COUNT ==> r == Some(band_wavelength(band as int) as u32),
        band >= BAND_COUNT ==> r is None,
{
    if band < BAND_COUNT {
        Some(FIRST_BAND + BAND_STEP * (band as u32))
    } else {
        None
    }
}

/// Whether a model covers the wavelength.
pub fn covers(wavelength: u32) -> (r: bool)
    ensures
        r == in_range(wavelength as int),
{
    RANGE_START <= wavelength && wavelength <= RANGE_END
}

/// The wavelengths of all bands, in their order.
pub fn band_grid() -> (grid: Vec<u32>)
    ensures
        grid@.len() == BAND_COUNT,
        forall|band: int| 0 <= band < BAND_COUNT ==> #[trigger] grid@[band] == band_wavelength(band),
        forall|band: int| 0 <= band < BAND_COUNT ==> in_range(#[trigger] grid@[band] as int),
{
    let mut grid: Vec<u32> = Vec::new();
    let mut band: usize = 0;
    while band < BAND_COUNT
        invariant
            band <= BAND_COUNT,
            grid@.len() == band,
            forall|k: int| 0 <= k < band ==> #[trigger] grid@[k] == band_wavelength(k),
        decreases BAND_COUNT - band,
    {
        grid.push(FIRST_BAND + BAND_STEP * (band as u32));
        band = band + 1;
    }
    grid
}

} // verus!
