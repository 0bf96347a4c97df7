use donut::donut::{Donut, Sample, FULL};
use donut::scalar::Scalar;
use ndarray::{Array1, Array2};
use std::f64::consts::PI;

fn s(x: f64) -> Scalar {
    Scalar::from_bits(x.to_bits())
}

fn number(x: Scalar) -> f64 {
    f64::from_bits(x.to_bits())
}

fn torus(speed: [f64; 3], angle: [f64; 3], granularity: i64, screen: [i64; 2]) -> Donut {
    Donut::new(
        s(40.0),
        s(5.0),
        s(200.0),
        [s(speed[0]), s(speed[1]), s(speed[2])],
        [s(angle[0]), s(angle[1]), s(angle[2])],
        granularity,
        screen,
    )
    .unwrap()
}

/// The projected surface points as numbers: row coordinate, column coordinate, depth.
fn project(d: &Donut) -> Vec<[f64; 3]> {
    let p = d.params();
    let major = number(p.major_radius);
    let minor = number(p.minor_radius);
    let zoom = number(p.zoom);
    let a = [
        number(p.rotation_angle[0]),
        number(p.rotation_angle[1]),
        number(p.rotation_angle[2]),
    ];
    let distance = 2.0 * major + minor;
    let rx = Array2::from(vec![
        [1.0, 0.0, 0.0],
        [0.0, a[0].cos(), -a[0].sin()],
        [0.0, a[0].sin(), a[0].cos()],
    ]);
    let ry = Array2::from(vec![
        [a[1].cos(), 0.0, a[1].sin()],
        [0.0, 1.0, 0.0],
        [-a[1].sin(), 0.0, a[1].cos()],
    ]);
    let rz = Array2::from(vec![
        [a[2].cos(), -a[2].sin(), 0.0],
        [a[2].sin(), a[2].cos(), 0.0],
        [0.0, 0.0, 1.0],
    ]);
    let rotation = rx.dot(&ry).dot(&rz);
    let mut points = Vec::new();
    for (i, j) in d.sample_grid() {
        let phi = i as f64 * 2.0 * PI / p.granularity as f64;
        let theta = j as f64 * 2.0 * PI / p.granularity as f64;
        let sweep = Array2::from(vec![
            [phi.cos(), -phi.sin(), 0.0],
            [phi.sin(), phi.cos(), 0.0],
            [0.0, 0.0, 1.0],
        ]);
        let v = Array1::from(vec![major + minor * theta.cos(), 0.0, minor * theta.sin()]);
        let r = sweep.dot(&v).dot(&rotation);
        let z = r[2] + distance;
        let x = (zoom * r[0]) / (zoom + z) + p.screen_size[0] as f64 / 2.0;
        let y = (zoom * r[1]) / (zoom + z) * 2.0 + p.screen_size[1] as f64 / 2.0;
        points.push([x, y, z]);
    }
    points
}

fn samples(points: &Vec<[f64; 3]>) -> Vec<Sample> {
    points.iter().map(|p| Sample { x: s(p[0]), y: s(p[1]), z: s(p[2]) }).collect()
}

/// Depth test and brightness in numbers, cell by cell.
fn shade(points: &Vec<[f64; 3]>, rows: usize, cols: usize) -> Vec<Vec<f64>> {
    let mut depth = vec![vec![0.0f64; cols]; rows];
    let mut screen = vec![vec![0.0f64; cols]; rows];
    for p in points {
        if p[0] >= 0.0 && p[0] < rows as f64 && p[1] >= 0.0 && p[1] < cols as f64 {
            let (i, j) = (p[0] as usize, p[1] as usize);
            if depth[i][j] < p[2] {
                depth[i][j] = p[2];
                screen[i][j] += 0.3;
                if screen[i][j] >= 1.0 {
                    screen[i][j] = 1.0;
                }
            }
        }
    }
    screen
}

fn advanced(d: &Donut) -> [Scalar; 3] {
    let p = d.params();
    let mut next = [s(0.0); 3];
    for k in 0..3 {
        next[k] = s(number(p.rotation_angle[k]) + number(p.rotation_speed[k]) * 2.0 * PI);
    }
    next
}

#[test]
fn render_has_the_size_of_the_screen_and_stays_in_range() {
    for screen in [[100i64, 200i64], [24, 80], [1, 1], [7, 3]] {
        let d = torus([0.0; 3], [0.3, 1.1, -2.0], 60, screen);
        let field = d.render(&samples(&project(&d)));
        assert_eq!(field.len(), screen[0] as usize);
        for row in field.iter() {
            assert_eq!(row.len(), screen[1] as usize);
            for &level in row.iter() {
                assert!(level <= FULL);
            }
        }
    }
}

#[test]
fn two_renders_without_rotation_are_identical() {
    let d = torus([0.0; 3], [0.0; 3], 100, [100, 200]);
    let first = d.render(&samples(&project(&d)));
    let second = d.render(&samples(&project(&d)));
    assert_eq!(first, second);
    assert!(first.iter().any(|row| row.iter().any(|&level| level > 0)));
}

#[test]
fn render_agrees_with_shading_in_numbers() {
    for angle in [[0.0, 0.0, 0.0], [0.7, -1.3, 2.9], [-6.0, 6.0, 3.1]] {
        let d = torus([0.0; 3], angle, 100, [100, 200]);
        let points = project(&d);
        let levels = d.render(&samples(&points));
        let shades = shade(&points, 100, 200);
        let mut lit = 0;
        for i in 0..100 {
            for j in 0..200 {
                let level = levels[i][j] as f64 / 10.0;
                assert!((level - shades[i][j]).abs() < 1e-9, "cell {} {}", i, j);
                if levels[i][j] > 0 {
                    lit += 1;
                }
            }
        }
        assert!(lit > 100);
    }
}

#[test]
fn rotation_accumulates_by_speed_times_a_full_turn() {
    let speed = 0.013;
    let start = 0.4;
    let mut d = torus([speed, 0.0, 0.0], [start, 0.0, 0.0], 10, [10, 10]);
    let turns = 500;
    for _ in 0..turns {
        let next = advanced(&d);
        d.update(next);
    }
    let reached = number(d.params().rotation_angle[0]);
    let expected = start + turns as f64 * speed * 2.0 * PI;
    assert!((reached.cos() - expected.cos()).abs() < 1e-9);
    assert!((reached.sin() - expected.sin()).abs() < 1e-9);
    assert_eq!(number(d.params().rotation_angle[1]), 0.0);
    assert_eq!(number(d.params().rotation_angle[2]), 0.0);
}
