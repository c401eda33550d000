//! The spectral cube of an image: one reflectance sample for each pixel and
//! band, pixels row by row from the top left, the bands of a pixel together.

use crate::bands::BAND_COUNT;
use crate::wire::{bytes_of, encode_words};
use vstd::prelude::*;

verus! {

/// The number of samples in the cube of an image.
pub open spec fn cube_len(width: nat, height: nat) -> nat {
    width * height * BAND_COUNT as nat
}

/// The position in the cube of the sample of band `band` at column `x` of row
/// `y`.
pub open spec fn sample_index(width: nat, x: int, y: int, band: int) -> int {
    (y * width + x) * BAND_COUNT as int + band
}

/// What a cube holds.
pub struct CubeView {
    /// The number of pixels in a row.
    pub width: nat,
    /// The number of rows.
    pub height: nat,
    /// The samples written so far.
    pub samples: Seq<u32>,
}

impl CubeView {
    /// What holds of every cube: it holds whole pixels, and no more of them
    /// than the image has.
    pub open spec fn wf(self) -> bool {
        &&& self.samples.len() % BAND_COUNT as nat == 0
        &&& self.samples.len() <= cube_len(self.width, self.height)
        &&& cube_len(self.width, self.height) <= usize::MAX
    }

    /// The number of pixels written so far.
    pub open spec fn pixels(self) -> nat {
        self.samples.len() / BAND_COUNT as nat
    }

    /// Whether every pixel of the image was written.
    pub open spec fn complete(self) -> bool {
        self.samples.len() == cube_len(self.width, self.height)
    }
}

/// A cube under construction. Pixels are appended in their order; each brings
/// the samples of all its bands.
pub struct SpectralCube {
    width: u32,
    height: u32,
    samples: Vec<u32>,
}

impl View for SpectralCube {
    type V = CubeView;

    closed spec fn view(&self) -> CubeView {
        CubeView { width: self.width as nat, height: self.height as nat, samples: self.samples@ }
    }
}

/// Within an image every pixel and band has a place in the cube, and the
/// places follow the rows, then the columns, then the bands.
pub proof fn lemma_sample_index(width: nat, height: nat, x: int, y: int, band: int)
    requires
        0 <= x < width,
        0 <= y < height,
        0 <= band < BAND_COUNT,
    ensures
        0 <= sample_index(width, x, y, band) < cube_len(width, height),
        band + 1 < BAND_COUNT ==> sample_index(width, x, y, band + 1) == sample_index(
            width,
            x,
            y,
            band,
        ) + 1,
        x + 1 < width ==> sample_index(width, x + 1, y, 0) == sample_index(
            width,
            x,
            y,
            BAND_COUNT - 1,
        ) + 1,
        y + 1 < height ==> sample_index(width, 0, y + 1, 0) == sample_index(
            width,
            width - 1,
            y,
            BAND_COUNT - 1,
        ) + 1,
{
    assert(0 <= y * width + x < width * height) by (nonlinear_arith)
        requires
            0 <= x < width,
            0 <= y < height,
    ;
    assert((y + 1) * width == y * width + width) by (nonlinear_arith);
    assert(width * height * 31 == (width * height) * 31) by (nonlinear_arith);
}

fn append_all(target: &mut Vec<u32>, items: &[u32])
    ensures
        final(target)@ == old(target)@ + items@,
{
    let mut i: usize = 0;
    while i < items.len()
        invariant
            i <= items@.len(),
            target@ == old(target)@ + items@.take(i as int),
        decreases items@.len() - i,
    {
        target.push(items[i]);
        i = i + 1;
        assert(target@ =~= old(target)@ + items@.take(i as int));
    }
    assert(items@.take(i as int) =~= items@);
}

impl SpectralCube {
    #[verifier::type_invariant]
    spec fn holds(self) -> bool {
        self@.wf()
    }

    /// An empty cube for an image of the given size, or `None` if the number
    /// of its samples is beyond what a vector can hold.
    pub fn new(width: u32, height: u32) -> (r: Option<SpectralCube>)
        ensures
            cube_len(width as nat, height as nat) <= usize::MAX ==> r is Some && r->Some_0@ == (
            CubeView { width: width as nat, height: height as nat, samples: Seq::empty() }),
            cube_len(width as nat, height as nat) > usize::MAX ==> r is None,
    {
        let w: u128 = width as u128;
        let h: u128 = height as u128;
        assert(w * h <= 0xffff_ffff * 0xffff_ffff && w * h * 31 == cube_len(
            width as nat,
            height as nat,
        )) by (nonlinear_arith)
            requires
                w == width,
                h == height,
                w <= 0xffff_ffff,
                h <= 0xffff_ffff,
                cube_len(width as nat, height as nat) == width * height * 31,
        ;
        let len: u128 = w * h * 31;
        if len > usize::MAX as u128 {
            None
        } else {
            Some(SpectralCube { width, height, samples: Vec::new() })
        }
    }

    /// The number of pixels in a row.
    pub fn width(&self) -> (w: u32)
        ensures
            w == self@.width,
    {
        self.width
    }

    /// The number of rows.
    pub fn height(&self) -> (h: u32)
        ensures
            h == self@.height,
    {
        self.height
    }

    /// The number of samples written so far.
    pub fn len(&self) -> (n: usize)
        ensures
            n == self@.samples.len(),
            self@.wf(),
    {
        proof {
            use_type_invariant(self);
        }
        self.samples.len()
    }

    /// The number of samples of the whole image.
    pub fn capacity(&self) -> (n: usize)
        ensures
            n == cube_len(self@.width, self@.height),
            self@.wf(),
    {
        proof {
            use_type_invariant(self);
            assert(self.width * self.height <= usize::MAX) by (nonlinear_arith)
                requires
                    self.width * self.height * 31 <= usize::MAX,
                    self.width >= 0,
                    self.height >= 0,
            ;
        }
        (self.width as usize) * (self.height as usize) * BAND_COUNT
    }

    /// Whether every pixel of the image was written.
    pub fn is_complete(&self) -> (r: bool)
        ensures
            r == self@.complete(),
            self@.wf(),
    {
        self.len() == self.capacity()
    }

    /// The samples written so far.
    pub fn samples(&self) -> (samples: &[u32])
        ensures
            samples@ == self@.samples,
            self@.wf(),
    {
        proof {
            use_type_invariant(self);
        }
        self.samples.as_slice()
    }

    /// Appends the samples of the next pixel, unless the cube is complete:
    /// then it stays as it is and the result is `false`.
    pub fn push_spectrum(&mut self, spectrum: &[u32; 31]) -> (stored: bool)
        ensures
            stored == !old(self)@.complete(),
            stored ==> final(self)@ == (CubeView {
                samples: old(self)@.samples + spectrum@,
                ..old(self)@
            }),
            !stored ==> final(self)@ == old(self)@,
            final(self)@.wf(),
    {
        proof {
            use_type_invariant(&*self);
        }
        if self.is_complete() {
            return false;
        }
        let mut samples: Vec<u32> = Vec::new();
        core::mem::swap(&mut self.samples, &mut samples);
        append_all(&mut samples, spectrum.as_slice());
        core::mem::swap(&mut self.samples, &mut samples);
        true
    }

    /// The sample of band `band` at column `x` of row `y`, or `None` if the
    /// image has no such pixel, there is no such band, or that pixel was not
    /// written yet.
    pub fn sample(&self, x: u32, y: u32, band: usize) -> (r: Option<u32>)
        ensures
            self@.wf(),
            (x < self@.width && y < self@.height && band < BAND_COUNT && sample_index(
                self@.width,
                x as int,
                y as int,
                band as int,
            ) < self@.samples.len()) ==> r == Some(
                self@.samples[sample_index(self@.width, x as int, y as int, band as int)],
            ),
            !(x < self@.width && y < self@.height && band < BAND_COUNT && sample_index(
                self@.width,
                x as int,
                y as int,
                band as int,
            ) < self@.samples.len()) ==> r is None,
    {
        proof {
            use_type_invariant(self);
        }
        if x >= self.width || y >= self.height || band >= BAND_COUNT {
            return None;
        }
        proof {
            lemma_sample_index(
                self.width as nat,
                self.height as nat,
                x as int,
                y as int,
                band as int,
            );
            lemma_sample_index(self.width as nat, self.height as nat, 0, y as int, 0);
            lemma_sample_index(self.width as nat, self.height as nat, x as int, y as int, 0);
        }
        let pixel: usize = (y as usize) * (self.width as usize) + (x as usize);
        let index: usize = pixel * BAND_COUNT + band;
        if index < self.samples.len() {
            Some(self.samples[index])
        } else {
            None
        }
    }

    /// The cube as the bytes of its file: every sample in four bytes, least
    /// significant byte first, with nothing before or between them.
    pub fn to_le_bytes(&self) -> (out: Vec<u8>)
        ensures
            out@ == bytes_of(self@.samples),
    {
        encode_words(self.samples.as_slice())
    }
}

} // verus!
