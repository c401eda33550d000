use rgb_spectra::bands::{
    band_grid, covers, wavelength, BAND_COUNT, BAND_STEP, FIRST_BAND, RANGE_END, RANGE_START,
};

#[test]
fn grid_runs_from_380_to_680_in_steps_of_10() {
    let expected: Vec<u32> = (0..31).map(|band| 380 + 10 * band).collect();
    assert_eq!(band_grid(), expected);
    assert_eq!(BAND_COUNT, 31);
    assert_eq!(FIRST_BAND, 380);
    assert_eq!(BAND_STEP, 10);
    assert_eq!(band_grid().first(), Some(&380));
    assert_eq!(band_grid().last(), Some(&680));
}

#[test]
fn wavelength_of_each_band() {
    assert_eq!(wavelength(0), Some(380));
    assert_eq!(wavelength(1), Some(390));
    assert_eq!(wavelength(17), Some(550));
    assert_eq!(wavelength(30), Some(680));
    assert_eq!(wavelength(31), None);
    assert_eq!(wavelength(usize::MAX), None);
}

#[test]
fn every_band_is_covered_by_a_model() {
    assert_eq!((RANGE_START, RANGE_END), (360, 830));
    for nm in band_grid() {
        assert!(covers(nm));
    }
    assert!(covers(360));
    assert!(covers(830));
    assert!(!covers(359));
    assert!(!covers(831));
    assert!(!covers(0));
    assert_eq!(RANGE_START as f64, rgb2spec::LAMBDA_MIN);
    assert_eq!(RANGE_END as f64, rgb2spec::LAMBDA_MAX);
}
