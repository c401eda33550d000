use rgb_spectra::lookup::{major_component, Lookup};
use rgb_spectra::model::SpectralModel;

fn bits_of(rgb: [f32; 3]) -> [u32; 3] {
    rgb.map(f32::to_bits)
}

fn model_with_scale(scale: &[f32]) -> SpectralModel {
    let n = scale.len();
    let mut bytes: Vec<u8> = Vec::new();
    bytes.extend_from_slice(b"SPEC");
    bytes.extend_from_slice(&(n as u32).to_le_bytes());
    for value in scale {
        bytes.extend_from_slice(&value.to_le_bytes());
    }
    for j in 0..9 * n * n * n {
        bytes.extend_from_slice(&(j as f32).to_le_bytes());
    }
    SpectralModel::load(&bytes).expect("a valid file")
}

#[test]
fn largest_channel_selects_the_grid() {
    assert_eq!(major_component(bits_of([1.0, 0.5, 0.5])), 0);
    assert_eq!(major_component(bits_of([0.5, 1.0, 0.5])), 1);
    assert_eq!(major_component(bits_of([0.5, 0.5, 1.0])), 2);
    assert_eq!(major_component(bits_of([0.7, 0.7, 0.2])), 0);
}

#[test]
fn ties_select_the_smaller_index() {
    assert_eq!(major_component(bits_of([0.0, 0.0, 0.0])), 0);
    assert_eq!(major_component(bits_of([1.0, 1.0, 1.0])), 0);
    assert_eq!(major_component(bits_of([0.2, 0.7, 0.7])), 1);
    assert_eq!(major_component(bits_of([0.7, 0.2, 0.7])), 0);
    assert_eq!(major_component(bits_of([0.1, 0.2, 0.3])), 2);
}

#[test]
fn channels_are_clamped_before_they_are_compared() {
    assert_eq!(major_component(bits_of([2.0, 3.0, 0.5])), 0);
    assert_eq!(major_component(bits_of([-1.0, -0.5, -3.0])), 0);
    assert_eq!(major_component(bits_of([-1.0, 0.1, -3.0])), 1);
    assert_eq!(major_component(bits_of([f32::NAN, 0.1, 0.05])), 1);
    assert_eq!(major_component(bits_of([f32::NAN, f32::NAN, f32::NAN])), 0);
    assert_eq!(major_component(bits_of([0.5, f32::INFINITY, 1.0])), 1);
    assert_eq!(major_component(bits_of([0.5, f32::NEG_INFINITY, 0.6])), 2);
}

#[test]
fn interval_is_the_last_plane_at_most_the_value() {
    let model = model_with_scale(&[0.0, 0.25, 0.5, 1.0]);
    assert_eq!(model.interval(0.0_f32.to_bits()), 0);
    assert_eq!(model.interval(0.1_f32.to_bits()), 0);
    assert_eq!(model.interval(0.25_f32.to_bits()), 1);
    assert_eq!(model.interval(0.3_f32.to_bits()), 1);
    assert_eq!(model.interval(0.5_f32.to_bits()), 2);
    assert_eq!(model.interval(0.75_f32.to_bits()), 2);
    assert_eq!(model.interval(1.0_f32.to_bits()), 2);
}

#[test]
fn interval_of_values_off_the_axis() {
    let model = model_with_scale(&[0.25, 0.5, 0.75]);
    assert_eq!(model.interval(0.0_f32.to_bits()), 0);
    assert_eq!(model.interval(1.0_f32.to_bits()), 1);
    assert_eq!(model.interval(f32::NAN.to_bits()), 0);
    assert_eq!(model.interval((-1.0_f32).to_bits()), 0);
    let flat = model_with_scale(&[0.0, 0.0, 0.0, 1.0, 1.0]);
    assert_eq!(flat.interval(1.0e-45_f32.to_bits()), 2);
    assert_eq!(flat.interval(0.5_f32.to_bits()), 2);
    assert_eq!(flat.interval(1.0_f32.to_bits()), 3);
}

#[test]
fn interval_of_zero_is_the_first_plane() {
    let flat = model_with_scale(&[0.0, 0.0, 0.0, 1.0, 1.0]);
    assert_eq!(flat.interval(0.0_f32.to_bits()), 0);
    assert_eq!(flat.interval((-0.0_f32).to_bits()), 0);
    assert_eq!(flat.locate(bits_of([0.0, 0.0, 0.0])).interval, 0);
    let short = model_with_scale(&[0.0, 0.0, 1.0]);
    assert_eq!(short.interval(0.0_f32.to_bits()), 0);
    let below = model_with_scale(&[-1.0, -0.5, 0.0, 1.0]);
    assert_eq!(below.interval(0.0_f32.to_bits()), 0);
    assert_eq!(below.interval((-0.5_f32).to_bits()), 1);
    let even = model_with_scale(&[0.0, 0.25, 0.5, 1.0]);
    assert_eq!(even.interval(0.0_f32.to_bits()), 0);
}

/// A model whose every coefficient is `mark(grid, plane)`.
fn marked_model(scale: &[f32], mark: fn(usize, usize) -> f32) -> SpectralModel {
    let n = scale.len();
    let mut bytes: Vec<u8> = Vec::new();
    bytes.extend_from_slice(b"SPEC");
    bytes.extend_from_slice(&(n as u32).to_le_bytes());
    for value in scale {
        bytes.extend_from_slice(&value.to_le_bytes());
    }
    for major in 0..3 {
        for plane in 0..n {
            for _ in 0..3 * n * n {
                bytes.extend_from_slice(&mark(major, plane).to_le_bytes());
            }
        }
    }
    SpectralModel::load(&bytes).expect("a valid file")
}

#[test]
fn on_a_tie_the_engine_reads_the_later_grid() {
    let model = marked_model(&[0.0, 1.0], |major, _| major as f32);
    for (rgb, earlier, later) in [
        ([0.7_f32, 0.7, 0.2], 0_usize, 1.0_f32),
        ([0.7, 0.2, 0.7], 0, 2.0),
        ([0.2, 0.7, 0.7], 1, 2.0),
        ([0.7, 0.7, 0.7], 0, 2.0),
    ] {
        assert_eq!(model.locate(bits_of(rgb)).major, earlier, "{rgb:?}");
        assert_eq!(major_component(bits_of(rgb)), earlier, "{rgb:?}");
        assert_eq!(model.engine().fetch(rgb), [later; 3], "{rgb:?}");
    }
}

#[test]
fn without_a_tie_the_engine_reads_the_grid_that_locate_names() {
    let model = marked_model(&[0.0, 1.0], |major, _| major as f32);
    for rgb in [[1.0_f32, 0.5, 0.5], [0.5, 1.0, 0.5], [0.5, 0.5, 1.0], [0.3, 0.2, 0.1]] {
        let major = model.locate(bits_of(rgb)).major;
        assert_eq!(model.engine().fetch(rgb), [major as f32; 3], "{rgb:?}");
    }
}

#[test]
fn at_zero_the_engine_reads_the_last_of_the_equal_planes() {
    let model = marked_model(&[0.0, 0.0, 1.0], |_, plane| plane as f32);
    assert_eq!(model.locate(bits_of([0.0, 0.0, 0.0])).interval, 0);
    assert_eq!(model.engine().fetch([0.0, 0.0, 0.0]), [1.0; 3]);
    let strict = marked_model(&[0.0, 0.5, 1.0], |_, plane| plane as f32);
    assert_eq!(strict.locate(bits_of([0.0, 0.0, 0.0])).interval, 0);
    assert_eq!(strict.engine().fetch([0.0, 0.0, 0.0]), [0.0; 3]);
}

#[test]
fn interval_on_every_plane_of_a_long_axis() {
    let scale: Vec<f32> = (0..64).map(|k| k as f32 / 63.0).collect();
    let model = model_with_scale(&scale);
    for (k, value) in scale.iter().enumerate() {
        assert_eq!(model.interval(value.to_bits()), k.min(62));
    }
    for k in 0..63 {
        let between = (scale[k] + scale[k + 1]) / 2.0;
        assert_eq!(model.interval(between.to_bits()), k);
    }
}

#[test]
fn cell_keeps_the_upper_edge_in_the_last_cell() {
    let model = model_with_scale(&[0.0, 0.25, 0.5, 1.0]);
    assert_eq!(model.cell(0), 0);
    assert_eq!(model.cell(1), 1);
    assert_eq!(model.cell(2), 2);
    assert_eq!(model.cell(3), 2);
    assert_eq!(model.cell(u32::MAX), 2);
}

#[test]
fn locate_clamps_and_orders_the_channels() {
    let model = model_with_scale(&[0.0, 0.25, 0.5, 1.0]);
    let at = model.locate(bits_of([0.2, 0.6, 0.4]));
    assert_eq!(
        at,
        Lookup {
            major: 1,
            z: 0.6_f32.to_bits(),
            first: 0.4_f32.to_bits(),
            second: 0.2_f32.to_bits(),
            interval: 2,
        }
    );
    let at = model.locate(bits_of([-3.0, f32::NAN, 7.0]));
    assert_eq!(
        at,
        Lookup { major: 2, z: 1.0_f32.to_bits(), first: 0, second: 0, interval: 2 }
    );
    let at = model.locate(bits_of([0.0, -0.0, 0.0]));
    assert_eq!(at, Lookup { major: 0, z: 0, first: 0, second: 0, interval: 0 });
}

#[test]
fn locate_twice_gives_the_same_cell() {
    let model = model_with_scale(&[0.0, 0.25, 0.5, 1.0]);
    let rgb = bits_of([0.31, 0.32, 0.33]);
    assert_eq!(model.locate(rgb), model.locate(rgb));
}

#[test]
fn corners_are_the_eight_grid_points_of_a_cell() {
    let model = model_with_scale(&[0.0, 0.5, 1.0]);
    assert_eq!(model.corner(0, 0, 0, 0, false, false, false), Some(0));
    assert_eq!(model.corner(0, 0, 0, 0, false, false, true), Some(3));
    assert_eq!(model.corner(0, 0, 0, 0, false, true, false), Some(9));
    assert_eq!(model.corner(0, 0, 0, 0, true, false, false), Some(27));
    assert_eq!(model.corner(0, 0, 0, 0, true, true, true), Some(39));
    assert_eq!(model.corner(1, 0, 0, 0, false, false, false), Some(81));
    assert_eq!(model.corner(2, 1, 1, 1, true, true, true), Some(240));
    assert_eq!(model.corner(3, 0, 0, 0, false, false, false), None);
    assert_eq!(model.corner(0, 2, 0, 0, false, false, false), None);
    assert_eq!(model.corner(0, 0, 2, 0, false, false, false), None);
    assert_eq!(model.corner(0, 0, 0, 2, false, false, false), None);
}

#[test]
fn corner_offsets_lead_to_the_coefficients() {
    let model = model_with_scale(&[0.0, 0.5, 1.0]);
    let offset = model.corner(1, 1, 0, 1, true, false, true).expect("a cell of the grid");
    for coef in 0..3 {
        assert_eq!(Some(model.grid()[offset + coef]), model.coefficient(1, 2, 0, 2, coef));
    }
}

#[test]
fn engine_agrees_with_the_corners_at_grid_points() {
    let model = model_with_scale(&[0.0, 1.0]);
    let at = model.locate(bits_of([1.0, 0.0, 0.0]));
    assert_eq!(at.major, 0);
    let offset = model
        .corner(at.major, at.interval, model.cell(0), model.cell(0), true, false, false)
        .expect("a cell of the grid");
    let expected: Vec<f32> =
        model.grid()[offset..offset + 3].iter().map(|bits| f32::from_bits(*bits)).collect();
    assert_eq!(model.engine().fetch([1.0, 0.0, 0.0]).to_vec(), expected);
}
