use particle_background::config::{Config, Damping, Viewport};
use particle_background::draw::alpha_of;
use particle_background::motion::advance_point;
use particle_background::point::{Point, Position};
use particle_background::resolve::connection_opacity;
use rand::Rng;
use rand::SeedableRng;
use rand_chacha::ChaCha20Rng;

const UNIT: f64 = 1_000_000.0;

fn fixed(value: f64) -> i64 {
    (value * UNIT).round() as i64
}

fn float(value: i64) -> f64 {
    value as f64 / UNIT
}

/// The distance between two coordinates on a circle of the given length.
fn around(a: f64, b: f64, length: f64) -> f64 {
    let d = (a - b).rem_euclid(length);
    d.min(length - d)
}

/// An elastic collision between equal masses, computed with the unit vector
/// from one point to the other and the unit vector across it.
fn collide(p: [f64; 4], q: [f64; 4]) -> ([f64; 2], [f64; 2]) {
    let (dx, dy) = (q[0] - p[0], q[1] - p[1]);
    let dist = (dx * dx + dy * dy).sqrt();
    let (nx, ny) = (dx / dist, dy / dist);
    let (tx, ty) = (-ny, nx);
    let v1n = nx * p[2] + ny * p[3];
    let v1t = tx * p[2] + ty * p[3];
    let v2n = nx * q[2] + ny * q[3];
    let v2t = tx * q[2] + ty * q[3];
    (
        [v2n * nx + v1t * tx, v2n * ny + v1t * ty],
        [v1n * nx + v2t * tx, v1n * ny + v2t * ty],
    )
}

#[test]
fn a_collision_exchanges_the_parts_along_the_unit_normal() {
    let mut rng = ChaCha20Rng::seed_from_u64(31);
    for _ in 0..2000 {
        let p = [
            rng.gen_range(0.0..800.0),
            rng.gen_range(0.0..600.0),
            rng.gen_range(-20.0..20.0),
            rng.gen_range(-20.0..20.0),
        ];
        let q = [
            p[0] + rng.gen_range(0.5..5.0) * if rng.gen_bool(0.5) { 1.0 } else { -1.0 },
            p[1] + rng.gen_range(-5.0..5.0),
            rng.gen_range(-20.0..20.0),
            rng.gen_range(-20.0..20.0),
        ];
        let mut a = Point { x: fixed(p[0]), y: fixed(p[1]), xv: fixed(p[2]), yv: fixed(p[3]) };
        let mut b = Point { x: fixed(q[0]), y: fixed(q[1]), xv: fixed(q[2]), yv: fixed(q[3]) };
        let (va, vb) = collide(
            [float(a.x), float(a.y), float(a.xv), float(a.yv)],
            [float(b.x), float(b.y), float(b.xv), float(b.yv)],
        );
        Point::elastic_collision(&mut a, &mut b);
        assert!((float(a.xv) - va[0]).abs() < 1e-5);
        assert!((float(a.yv) - va[1]).abs() < 1e-5);
        assert!((float(b.xv) - vb[0]).abs() < 1e-5);
        assert!((float(b.yv) - vb[1]).abs() < 1e-5);
    }
}

#[test]
fn a_collision_changes_the_energy_by_the_rounding_only() {
    let mut rng = ChaCha20Rng::seed_from_u64(35);
    for _ in 0..5000 {
        let mut a = Point {
            x: rng.gen_range(-1000i64..1000),
            y: rng.gen_range(-1000i64..1000),
            xv: rng.gen_range(-20_000_000i64..=20_000_000),
            yv: rng.gen_range(-20_000_000i64..=20_000_000),
        };
        let mut b = Point {
            x: rng.gen_range(-1000i64..1000),
            y: rng.gen_range(-1000i64..1000),
            xv: rng.gen_range(-20_000_000i64..=20_000_000),
            yv: rng.gen_range(-20_000_000i64..=20_000_000),
        };
        let energy = |p: &Point, q: &Point| -> i128 {
            let square = |v: i64| (v as i128) * (v as i128);
            square(p.xv) + square(p.yv) + square(q.xv) + square(q.yv)
        };
        let sum = (a.xv + b.xv, a.yv + b.yv);
        let relative = ((a.xv - b.xv).abs() + (a.yv - b.yv).abs()) as i128;
        let before = energy(&a, &b);
        Point::elastic_collision(&mut a, &mut b);
        assert!((energy(&a, &b) - before).abs() <= 4 + 4 * relative);
        assert_eq!((a.xv + b.xv, a.yv + b.yv), sum);
    }
}

#[test]
fn a_collision_keeps_the_energy() {
    let mut rng = ChaCha20Rng::seed_from_u64(32);
    for _ in 0..2000 {
        let mut a = Point {
            x: rng.gen_range(0i64..800_000_000),
            y: rng.gen_range(0i64..600_000_000),
            xv: rng.gen_range(-20_000_000i64..=20_000_000),
            yv: rng.gen_range(-20_000_000i64..=20_000_000),
        };
        let mut b = Point {
            x: a.x + rng.gen_range(1i64..5_000_000),
            y: a.y + rng.gen_range(-5_000_000i64..5_000_000),
            xv: rng.gen_range(-20_000_000i64..=20_000_000),
            yv: rng.gen_range(-20_000_000i64..=20_000_000),
        };
        let energy = |p: &Point, q: &Point| {
            float(p.xv).powi(2) + float(p.yv).powi(2) + float(q.xv).powi(2) + float(q.yv).powi(2)
        };
        let before = energy(&a, &b);
        Point::elastic_collision(&mut a, &mut b);
        assert!((energy(&a, &b) - before).abs() < 1e-3);
    }
}

/// One frame of one point, computed in floating point.
fn step(p: [f64; 4], cursor: Option<[f64; 2]>, size: [f64; 2], dt: f64) -> [f64; 4] {
    let [mut x, mut y, mut xv, mut yv] = p;
    x += xv * dt * 10.0;
    y += yv * dt * 10.0;
    yv += 9.8 * dt;
    if let Some([cx, cy]) = cursor {
        let (dx, dy) = (x - cx, y - cy);
        let dist = (dx * dx + dy * dy).sqrt();
        if dist < 60.0 && dist > 0.0 {
            xv += dx / dist * 30.0;
            yv += dy / dist * 30.0;
        }
    }
    xv *= 0.999;
    yv *= 0.999;
    [x.rem_euclid(size[0]), y.rem_euclid(size[1]), xv, yv]
}

#[test]
fn a_frame_agrees_with_floating_point() {
    let view = Viewport { width: 800_000_000, height: 600_000_000 };
    let config = Config::physical();
    let mut rng = ChaCha20Rng::seed_from_u64(33);
    let mut pushed = 0;
    for _ in 0..5000 {
        let p = Point {
            x: rng.gen_range(0i64..800_000_000),
            y: rng.gen_range(0i64..600_000_000),
            xv: rng.gen_range(-20_000_000i64..=20_000_000),
            yv: rng.gen_range(-20_000_000i64..=20_000_000),
        };
        let near: bool = rng.gen_bool(0.5);
        let cursor = Position {
            x: if near { p.x + rng.gen_range(-50_000_000i64..50_000_000) } else { rng.gen_range(0i64..800_000_000) },
            y: if near { p.y + rng.gen_range(-50_000_000i64..50_000_000) } else { rng.gen_range(0i64..600_000_000) },
        };
        let dt: i64 = rng.gen_range(1_000i64..3_000_000);
        let expected = step(
            [float(p.x), float(p.y), float(p.xv), float(p.yv)],
            Some([float(cursor.x), float(cursor.y)]),
            [800.0, 600.0],
            float(dt),
        );
        let moved_x = float(p.x) + float(p.xv) * float(dt) * 10.0 - float(cursor.x);
        let moved_y = float(p.y) + float(p.yv) * float(dt) * 10.0 - float(cursor.y);
        let reach = (moved_x * moved_x + moved_y * moved_y).sqrt();
        if (reach - 60.0).abs() < 1e-3 || reach < 1e-3 {
            continue;
        }
        if reach < 60.0 {
            pushed += 1;
        }
        let r = advance_point(&p, Some(cursor), &view, dt, &config);
        assert!(around(float(r.x), expected[0], 800.0) < 1e-4);
        assert!(around(float(r.y), expected[1], 600.0) < 1e-4);
        assert!((float(r.xv) - expected[2]).abs() < 1e-4);
        assert!((float(r.yv) - expected[3]).abs() < 1e-4);
    }
    assert!(pushed > 100);
}

#[test]
fn conditional_damping_agrees_with_floating_point() {
    let view = Viewport { width: 800_000_000, height: 600_000_000 };
    let mut config = Config::physical();
    config.gravity = None;
    config.damping = Damping::Conditional { threshold: 10_000_000, factor: 990_000 };
    let mut rng = ChaCha20Rng::seed_from_u64(34);
    for _ in 0..2000 {
        let p = Point {
            x: 400_000_000,
            y: 300_000_000,
            xv: rng.gen_range(-20_000_000i64..=20_000_000),
            yv: rng.gen_range(-20_000_000i64..=20_000_000),
        };
        let r = advance_point(&p, None, &view, 16_667, &config);
        let damp = |v: f64| if v.abs() > 10.0 { v * 0.99 } else { v };
        assert!((float(r.xv) - damp(float(p.xv))).abs() < 2e-6);
        assert!((float(r.yv) - damp(float(p.yv))).abs() < 2e-6);
    }
}

#[test]
fn opacity_and_alpha_agree_with_floating_point() {
    let mut distance: i64 = 0;
    while distance < 120_000_000 {
        let opacity = connection_opacity(distance, 120_000_000);
        let expected = (120.0 - float(distance)) / 120.0;
        assert!((float(opacity) - expected).abs() < 2e-6);
        let alpha = alpha_of(opacity) as f64;
        assert!((alpha - (expected * 127.5).floor()).abs() <= 1.0);
        distance += 777_777;
    }
    assert_eq!(alpha_of(connection_opacity(60_000_000, 120_000_000)), (0.5f64 * 127.5) as u8);
}
