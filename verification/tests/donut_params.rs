use donut::donut::{ConfigError, Donut, Sample, TorusParameters, FULL, STEP};
use donut::scalar::Scalar;

fn s(x: f64) -> Scalar {
    Scalar::from_bits(x.to_bits())
}

fn triple(a: f64, b: f64, c: f64) -> [Scalar; 3] {
    [s(a), s(b), s(c)]
}

fn build(
    major: f64,
    minor: f64,
    zoom: f64,
    speed: [f64; 3],
    angle: [f64; 3],
    granularity: i64,
    screen: [i64; 2],
) -> Result<Donut, ConfigError> {
    Donut::new(
        s(major),
        s(minor),
        s(zoom),
        triple(speed[0], speed[1], speed[2]),
        triple(angle[0], angle[1], angle[2]),
        granularity,
        screen,
    )
}

fn good() -> Donut {
    build(40.0, 5.0, 200.0, [0.0; 3], [0.0; 3], 100, [100, 200]).unwrap()
}

fn at(x: f64, y: f64, z: f64) -> Sample {
    Sample { x: s(x), y: s(y), z: s(z) }
}

#[test]
fn valid_parameters_are_kept_as_given() {
    let d = build(40.0, 5.0, 200.0, [0.0, 0.5, 1.0], [-6.0, 0.0, 6.0], 100, [100, 200]).unwrap();
    let p: TorusParameters = d.params();
    assert_eq!(p.major_radius, s(40.0));
    assert_eq!(p.minor_radius, s(5.0));
    assert_eq!(p.zoom, s(200.0));
    assert_eq!(p.rotation_speed, triple(0.0, 0.5, 1.0));
    assert_eq!(p.rotation_angle, triple(-6.0, 0.0, 6.0));
    assert_eq!(p.granularity, 100);
    assert_eq!(p.screen_size, [100, 200]);
    assert_eq!(d.rows(), 100);
    assert_eq!(d.cols(), 200);
}

#[test]
fn a_light_vector_is_carried_along() {
    let d = good();
    assert_eq!(d.params().light_vector, None);
    let lit = d.with_light_vector(triple(0.5, 0.25, 1.0));
    assert_eq!(lit.params().light_vector, Some(triple(0.5, 0.25, 1.0)));
    assert_eq!(lit.params().major_radius, s(40.0));
    assert_eq!(lit.params().screen_size, [100, 200]);
    assert_eq!(lit.render(&Vec::new()), good().render(&Vec::new()));
}

#[test]
fn rejects_major_radius_zero() {
    let r = build(0.0, 5.0, 200.0, [0.0; 3], [0.0; 3], 100, [100, 200]);
    assert_eq!(r.err(), Some(ConfigError::MajorRadius(s(0.0))));
}

#[test]
fn rejects_minor_radius_negative() {
    let r = build(40.0, -1.0, 200.0, [0.0; 3], [0.0; 3], 100, [100, 200]);
    assert_eq!(r.err(), Some(ConfigError::MinorRadius(s(-1.0))));
}

#[test]
fn rejects_zoom_zero() {
    let r = build(40.0, 5.0, 0.0, [0.0; 3], [0.0; 3], 100, [100, 200]);
    assert_eq!(r.err(), Some(ConfigError::Zoom(s(0.0))));
}

#[test]
fn rejects_granularity_zero() {
    let r = build(40.0, 5.0, 200.0, [0.0; 3], [0.0; 3], 0, [100, 200]);
    assert_eq!(r.err(), Some(ConfigError::Granularity(0)));
}

#[test]
fn rejects_screen_without_rows() {
    let r = build(40.0, 5.0, 200.0, [0.0; 3], [0.0; 3], 100, [0, 10]);
    assert_eq!(r.err(), Some(ConfigError::ScreenSize(0, 10)));
    let r = build(40.0, 5.0, 200.0, [0.0; 3], [0.0; 3], 100, [10, -3]);
    assert_eq!(r.err(), Some(ConfigError::ScreenSize(10, -3)));
}

#[test]
fn rejects_rotation_speed_above_one_on_each_axis() {
    for k in 0..3 {
        let mut speed = [0.0; 3];
        speed[k] = 1.5;
        let r = build(40.0, 5.0, 200.0, speed, [0.0; 3], 100, [100, 200]);
        assert_eq!(r.err(), Some(ConfigError::RotationSpeed(k, s(1.5))));
    }
    let r = build(40.0, 5.0, 200.0, [0.0, -0.25, 0.0], [0.0; 3], 100, [100, 200]);
    assert_eq!(r.err(), Some(ConfigError::RotationSpeed(1, s(-0.25))));
}

#[test]
fn rejects_rotation_angle_beyond_a_full_turn_on_each_axis() {
    for k in 0..3 {
        let mut angle = [0.0; 3];
        angle[k] = 7.0;
        let r = build(40.0, 5.0, 200.0, [0.0; 3], angle, 100, [100, 200]);
        assert_eq!(r.err(), Some(ConfigError::RotationAngle(k, s(7.0))));
    }
    let r = build(40.0, 5.0, 200.0, [0.0; 3], [0.0, 0.0, -7.0], 100, [100, 200]);
    assert_eq!(r.err(), Some(ConfigError::RotationAngle(2, s(-7.0))));
}

#[test]
fn bounds_themselves_are_accepted() {
    let turn = 2.0 * std::f64::consts::PI;
    assert!(build(40.0, 5.0, 200.0, [0.0, 1.0, -0.0], [turn, -turn, 0.0], 1, [1, 1]).is_ok());
    assert!(build(1e-300, f64::INFINITY, 200.0, [0.0; 3], [0.0; 3], 1, [1, 1]).is_ok());
}

#[test]
fn the_first_broken_rule_is_the_one_reported() {
    let r = build(-1.0, -1.0, -1.0, [2.0; 3], [9.0; 3], -1, [-1, -1]);
    assert_eq!(r.err(), Some(ConfigError::MajorRadius(s(-1.0))));
    let r = build(1.0, 1.0, 1.0, [2.0; 3], [9.0; 3], 1, [1, 1]);
    assert_eq!(r.err(), Some(ConfigError::RotationSpeed(0, s(2.0))));
    let r = build(1.0, 1.0, 1.0, [0.0; 3], [9.0; 3], 1, [1, 0]);
    assert_eq!(r.err(), Some(ConfigError::ScreenSize(1, 0)));
}

#[test]
fn what_is_not_a_number_is_rejected() {
    let nan = f64::NAN;
    assert!(matches!(
        build(nan, 5.0, 200.0, [0.0; 3], [0.0; 3], 100, [100, 200]),
        Err(ConfigError::MajorRadius(_))
    ));
    assert!(matches!(
        build(40.0, 5.0, 200.0, [0.0, nan, 0.0], [0.0; 3], 100, [100, 200]),
        Err(ConfigError::RotationSpeed(1, _))
    ));
    assert!(matches!(
        build(40.0, 5.0, 200.0, [0.0; 3], [0.0, 0.0, nan], 100, [100, 200]),
        Err(ConfigError::RotationAngle(2, _))
    ));
}

#[test]
fn each_error_names_its_field() {
    let z = s(0.0);
    assert_eq!(ConfigError::MajorRadius(z).message(), "Major radius must be greater than 0");
    assert_eq!(ConfigError::MinorRadius(z).message(), "Minor radius must be greater than 0");
    assert_eq!(ConfigError::Zoom(z).message(), "Zoom must be greater than 0");
    assert_eq!(ConfigError::Granularity(0).message(), "Granularity must be greater than 0");
    assert_eq!(ConfigError::ScreenSize(0, 10).message(), "Screen size must be greater than 0");
    assert_eq!(
        ConfigError::RotationSpeed(0, z).message(),
        "Rotation speed must be between 0.0 and 1.0"
    );
    assert_eq!(
        ConfigError::RotationAngle(0, z).message(),
        "Rotation angle must be between -2 * PI and 2 * PI"
    );
    assert_eq!(ConfigError::GlyphRamp.message(), "Glyph ramp must not be empty");
    assert_eq!(ConfigError::FrameRate.message(), "Frame rate must be greater than 0");
}

#[test]
fn check_agrees_with_new() {
    let p = good().params();
    assert_eq!(p.check(), None);
    let bad = TorusParameters { granularity: -5, ..p };
    assert_eq!(bad.check(), Some(ConfigError::Granularity(-5)));
}

#[test]
fn render_without_samples_is_dark() {
    let d = build(40.0, 5.0, 200.0, [0.0; 3], [0.0; 3], 10, [3, 4]).unwrap();
    assert_eq!(d.render(&Vec::new()), vec![vec![0u8; 4]; 3]);
}

#[test]
fn render_plots_a_sample_into_its_cell() {
    let d = build(40.0, 5.0, 200.0, [0.0; 3], [0.0; 3], 10, [3, 4]).unwrap();
    let field = d.render(&vec![at(1.7, 2.2, 5.0)]);
    let mut expected = vec![vec![0u8; 4]; 3];
    expected[1][2] = STEP;
    assert_eq!(field, expected);
}

#[test]
fn render_ignores_samples_off_the_screen() {
    let d = build(40.0, 5.0, 200.0, [0.0; 3], [0.0; 3], 10, [3, 4]).unwrap();
    let samples = vec![
        at(-0.5, 1.0, 5.0),
        at(1.0, -0.5, 5.0),
        at(3.0, 1.0, 5.0),
        at(1.0, 4.0, 5.0),
        at(f64::NAN, 1.0, 5.0),
        at(1.0, f64::INFINITY, 5.0),
    ];
    assert_eq!(d.render(&samples), vec![vec![0u8; 4]; 3]);
}

#[test]
fn render_ignores_samples_that_are_not_nearer() {
    let d = build(40.0, 5.0, 200.0, [0.0; 3], [0.0; 3], 10, [2, 2]).unwrap();
    // depth starts at zero: a sample at depth zero, below it, or without a depth is hidden
    let hidden = vec![at(0.0, 0.0, 0.0), at(0.0, 0.0, -1.0), at(0.0, 0.0, f64::NAN)];
    assert_eq!(d.render(&hidden), vec![vec![0u8; 2]; 2]);
    // nearer, farther, equal, nearer again
    let samples = vec![at(0.0, 1.0, 2.0), at(0.9, 1.9, 1.0), at(0.5, 1.5, 2.0), at(0.0, 1.0, 2.5)];
    assert_eq!(d.render(&samples), vec![vec![0, 2 * STEP], vec![0, 0]]);
}

#[test]
fn render_holds_brightness_at_the_ceiling() {
    let d = build(40.0, 5.0, 200.0, [0.0; 3], [0.0; 3], 10, [1, 1]).unwrap();
    let mut samples = Vec::new();
    let mut expected = vec![3u8, 6, 9, 10, 10, 10];
    expected.reverse();
    for k in 1..=6 {
        samples.push(at(0.5, 0.5, k as f64));
        assert_eq!(d.render(&samples), vec![vec![expected.pop().unwrap()]]);
    }
    assert_eq!(d.render(&samples)[0][0], FULL);
}

#[test]
fn render_depends_on_the_order_of_samples() {
    let d = build(40.0, 5.0, 200.0, [0.0; 3], [0.0; 3], 10, [1, 1]).unwrap();
    let rising = vec![at(0.0, 0.0, 1.0), at(0.0, 0.0, 2.0)];
    let falling = vec![at(0.0, 0.0, 2.0), at(0.0, 0.0, 1.0)];
    assert_eq!(d.render(&rising), vec![vec![6u8]]);
    assert_eq!(d.render(&falling), vec![vec![3u8]]);
}

#[test]
fn sample_grid_closes_the_seam() {
    let d = build(40.0, 5.0, 200.0, [0.0; 3], [0.0; 3], 2, [3, 4]).unwrap();
    assert_eq!(d.sample_grid(), vec![(0, 0), (0, 1), (0, 2), (1, 0), (1, 1), (1, 2)]);
    let d = build(40.0, 5.0, 200.0, [0.0; 3], [0.0; 3], 1, [3, 4]).unwrap();
    assert_eq!(d.sample_grid(), vec![(0, 0), (0, 1)]);
    assert_eq!(good().sample_grid().len(), 100 * 101);
}

#[test]
fn update_replaces_the_angles_and_nothing_else() {
    let mut d = good();
    let before = d.params();
    d.update(triple(1.0, 2.0, 30.0));
    let after = d.params();
    assert_eq!(after.rotation_angle, triple(1.0, 2.0, 30.0));
    assert_eq!(after.rotation_speed, before.rotation_speed);
    assert_eq!(after.major_radius, before.major_radius);
    assert_eq!(after.minor_radius, before.minor_radius);
    assert_eq!(after.zoom, before.zoom);
    assert_eq!(after.granularity, before.granularity);
    assert_eq!(after.screen_size, before.screen_size);
}
