use rgb_spectra::bands::BAND_COUNT;
use rgb_spectra::cube::SpectralCube;

fn spectrum_of(pixel: u32) -> [u32; 31] {
    let mut spectrum = [0_u32; 31];
    for (band, sample) in spectrum.iter_mut().enumerate() {
        *sample = (pixel as f32 + band as f32 / 100.0).to_bits();
    }
    spectrum
}

#[test]
fn new_cube_is_empty() {
    let cube = SpectralCube::new(3, 2).expect("a small image");
    assert_eq!(cube.width(), 3);
    assert_eq!(cube.height(), 2);
    assert_eq!(cube.len(), 0);
    assert_eq!(cube.capacity(), 3 * 2 * 31);
    assert!(!cube.is_complete());
    assert_eq!(cube.sample(0, 0, 0), None);
    assert_eq!(cube.to_le_bytes(), Vec::<u8>::new());
}

#[test]
fn cube_of_an_image_without_pixels_is_complete() {
    let mut cube = SpectralCube::new(0, 5).expect("an empty image");
    assert!(cube.is_complete());
    assert_eq!(cube.capacity(), 0);
    assert!(!cube.push_spectrum(&spectrum_of(0)));
    assert_eq!(cube.len(), 0);
}

#[test]
fn cube_too_large_for_memory_is_refused() {
    assert!(SpectralCube::new(u32::MAX, u32::MAX).is_none());
    assert!(SpectralCube::new(1 << 31, 1 << 30).is_none());
    if usize::BITS == 64 {
        assert!(SpectralCube::new(u32::MAX, 1 << 27).is_some());
        assert!(SpectralCube::new(1 << 30, 1 << 30).is_none());
        assert_eq!(
            SpectralCube::new(65536, 65536).map(|cube| cube.capacity()),
            Some(65536 * 65536 * 31)
        );
    }
}

#[test]
fn pixels_are_stored_row_by_row_with_bands_together() {
    let mut cube = SpectralCube::new(3, 2).expect("a small image");
    for pixel in 0..6 {
        assert!(!cube.is_complete());
        assert!(cube.push_spectrum(&spectrum_of(pixel)));
        assert_eq!(cube.len(), (pixel as usize + 1) * BAND_COUNT);
    }
    assert!(cube.is_complete());
    for y in 0..2 {
        for x in 0..3 {
            for band in 0..31 {
                let expected = spectrum_of(y * 3 + x)[band];
                assert_eq!(cube.sample(x, y, band), Some(expected));
                let index = ((y * 3 + x) as usize) * 31 + band;
                assert_eq!(cube.samples()[index], expected);
            }
        }
    }
}

#[test]
fn complete_cube_takes_no_more_pixels() {
    let mut cube = SpectralCube::new(1, 2).expect("a small image");
    assert!(cube.push_spectrum(&spectrum_of(0)));
    assert!(cube.push_spectrum(&spectrum_of(1)));
    let before = cube.samples().to_vec();
    assert!(!cube.push_spectrum(&spectrum_of(2)));
    assert_eq!(cube.samples(), before.as_slice());
    assert!(cube.is_complete());
}

#[test]
fn samples_outside_the_image_or_not_yet_written_are_none() {
    let mut cube = SpectralCube::new(2, 2).expect("a small image");
    assert!(cube.push_spectrum(&spectrum_of(0)));
    assert_eq!(cube.sample(0, 0, 30), Some(spectrum_of(0)[30]));
    assert_eq!(cube.sample(0, 0, 31), None);
    assert_eq!(cube.sample(1, 0, 0), None);
    assert_eq!(cube.sample(0, 1, 0), None);
    assert_eq!(cube.sample(2, 0, 0), None);
    assert_eq!(cube.sample(0, 2, 0), None);
    assert_eq!(cube.sample(u32::MAX, u32::MAX, usize::MAX), None);
}

#[test]
fn bytes_are_the_samples_in_little_endian() {
    let mut cube = SpectralCube::new(2, 1).expect("a small image");
    assert!(cube.push_spectrum(&spectrum_of(0)));
    assert!(cube.push_spectrum(&spectrum_of(1)));
    let mut expected: Vec<u8> = Vec::new();
    for pixel in 0..2 {
        for sample in spectrum_of(pixel) {
            expected.extend_from_slice(&f32::from_bits(sample).to_le_bytes());
        }
    }
    let bytes = cube.to_le_bytes();
    assert_eq!(bytes.len(), 2 * 31 * 4);
    assert_eq!(bytes, expected);
    assert_eq!(&bytes[..4], &0.0_f32.to_le_bytes());
    assert_eq!(&bytes[4 * 31..4 * 32], &1.0_f32.to_le_bytes());
}

#[test]
fn cube_of_reflectances_of_a_model() {
    let mut file: Vec<u8> = Vec::new();
    file.extend_from_slice(b"SPEC");
    file.extend_from_slice(&2_u32.to_le_bytes());
    file.extend_from_slice(&0.0_f32.to_le_bytes());
    file.extend_from_slice(&1.0_f32.to_le_bytes());
    for _ in 0..72 {
        file.extend_from_slice(&0.0_f32.to_le_bytes());
    }
    let model = rgb_spectra::model::SpectralModel::load(&file).expect("a valid file");
    let mut cube = SpectralCube::new(1, 1).expect("a small image");
    let coefficients = model.engine().fetch([0.5, 0.5, 0.5]);
    let mut spectrum = [0_u32; 31];
    for (band, nm) in rgb_spectra::bands::band_grid().into_iter().enumerate() {
        spectrum[band] = rgb2spec::eval_precise(coefficients, nm as f32).to_bits();
    }
    assert!(cube.push_spectrum(&spectrum));
    assert!(cube.is_complete());
    for band in 0..31 {
        assert_eq!(cube.sample(0, 0, band), Some(0.5_f32.to_bits()));
    }
}
