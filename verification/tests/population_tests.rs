use particle_background::config::{Config, Viewport};
use particle_background::fixed::LIMIT;
use particle_background::point::Point;
use particle_background::population::{count_points, initialize};
use rand::SeedableRng;
use rand_chacha::ChaCha20Rng;

fn screen() -> Viewport {
    Viewport { width: 800_000_000, height: 600_000_000 }
}

#[test]
fn one_point_for_each_full_spacing() {
    assert_eq!(count_points(800_000_000, 6_000_000), 133);
    assert_eq!(count_points(600_000_000, 6_000_000), 100);
    assert_eq!(count_points(599_999_999, 6_000_000), 99);
    assert_eq!(count_points(6_000_000, 6_000_000), 1);
}

#[test]
fn a_narrow_viewport_holds_no_point() {
    assert_eq!(count_points(5_999_999, 6_000_000), 0);
    assert_eq!(count_points(1, LIMIT), 0);
}

#[test]
fn the_height_does_not_count() {
    let mut rng = ChaCha20Rng::seed_from_u64(5);
    let low = Viewport { width: 60_000_000, height: 1 };
    let high = Viewport { width: 60_000_000, height: LIMIT };
    assert_eq!(initialize(&mut rng, &low, &Config::physical()).len(), 10);
    assert_eq!(initialize(&mut rng, &high, &Config::physical()).len(), 10);
}

#[test]
fn initialize_gives_the_counted_number_of_points() {
    let mut rng = ChaCha20Rng::seed_from_u64(1);
    assert_eq!(initialize(&mut rng, &screen(), &Config::physical()).len(), 133);
    let narrow = Viewport { width: 5_000_000, height: 600_000_000 };
    assert_eq!(initialize(&mut rng, &narrow, &Config::physical()), Vec::new());
}

#[test]
fn initialize_places_every_point_in_the_viewport() {
    for seed in 0..20u64 {
        let mut rng = ChaCha20Rng::seed_from_u64(seed);
        for p in initialize(&mut rng, &screen(), &Config::physical()) {
            assert!(0 <= p.x && p.x < 800_000_000);
            assert!(0 <= p.y && p.y < 600_000_000);
            assert!(p.is_valid());
        }
    }
}

#[test]
fn initialize_keeps_the_velocities_in_their_range() {
    for seed in 0..20u64 {
        let mut rng = ChaCha20Rng::seed_from_u64(seed);
        for p in initialize(&mut rng, &screen(), &Config::physical()) {
            assert!(-20_000_000 <= p.xv && p.xv <= 20_000_000);
            assert!(-20_000_000 <= p.yv && p.yv <= 20_000_000);
        }
    }
}

#[test]
fn initialize_with_a_velocity_range_of_zero_gives_points_at_rest() {
    let mut c = Config::physical();
    c.velocity_range = 0;
    let mut rng = ChaCha20Rng::seed_from_u64(9);
    for p in initialize(&mut rng, &screen(), &c) {
        assert_eq!((p.xv, p.yv), (0, 0));
    }
}

#[test]
fn initialize_in_the_smallest_viewport() {
    let mut c = Config::physical();
    c.point_spacing = 1;
    c.velocity_range = LIMIT;
    let tiny = Viewport { width: 3, height: 1 };
    let mut rng = ChaCha20Rng::seed_from_u64(9);
    let points = initialize(&mut rng, &tiny, &c);
    assert_eq!(points.len(), 3);
    for p in points {
        assert!(0 <= p.x && p.x < 3);
        assert_eq!(p.y, 0);
        assert!(p.is_valid());
    }
}

#[test]
fn initialize_scatters_the_points() {
    let mut rng = ChaCha20Rng::seed_from_u64(3);
    let points = initialize(&mut rng, &screen(), &Config::physical());
    let first: Point = points[0];
    assert!(points.iter().any(|p| p.x != first.x));
    assert!(points.iter().any(|p| p.y != first.y));
    assert!(points.iter().any(|p| p.xv != first.xv));
    assert!(points.iter().any(|p| p.yv != first.yv));
    assert!(points.iter().any(|p| p.x != 0 && p.x != 800_000_000));
    assert!(points.iter().any(|p| p.xv != -20_000_000 && p.xv != 20_000_001));
    assert!(points.iter().any(|p| p.xv < 0));
    assert!(points.iter().any(|p| p.xv > 0));
}

#[test]
fn initialize_with_one_seed_gives_one_population() {
    let mut first = ChaCha20Rng::seed_from_u64(77);
    let mut second = ChaCha20Rng::seed_from_u64(77);
    assert_eq!(
        initialize(&mut first, &screen(), &Config::physical()),
        initialize(&mut second, &screen(), &Config::physical())
    );
}

#[test]
fn initialize_goes_on_in_the_stream_of_the_generator() {
    let mut rng = ChaCha20Rng::seed_from_u64(77);
    let first = initialize(&mut rng, &screen(), &Config::physical());
    let second = initialize(&mut rng, &screen(), &Config::physical());
    assert_ne!(first, second);
}
