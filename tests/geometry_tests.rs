use flocking::bird::Bird;
use flocking::bird_config::BirdConfig;
use flocking::spatial::SpatialIndex;
use flocking::vector::{ceil_sqrt_of, clamp_magnitude, Vec2};

fn config(size: i64) -> BirdConfig {
    BirdConfig::new(50_000, 20_000, 1_000, 1_000, 1_000, 10_000, 5_000, size, 0, 0, 0)
}

fn bird_at(x: i64, y: i64, vx: i64, vy: i64) -> Bird {
    Bird {
        position: Vec2::new(x, y),
        velocity: Vec2::new(vx, vy),
        acceleration: Vec2::new(0, 0),
        config_id: "x".to_string(),
    }
}

#[test]
fn ceil_sqrt_rounds_up() {
    assert_eq!(ceil_sqrt_of(0), 0);
    assert_eq!(ceil_sqrt_of(1), 1);
    assert_eq!(ceil_sqrt_of(10), 4);
    assert_eq!(ceil_sqrt_of(16), 4);
    assert_eq!(ceil_sqrt_of(17), 5);
    assert_eq!(ceil_sqrt_of(1_000_000_000_000), 1_000_000);
}

#[test]
fn clamp_magnitude_keeps_direction() {
    let mut v = Vec2::new(3_000, 4_000);
    clamp_magnitude(&mut v, 1_000);
    assert_eq!(v, Vec2::new(600, 800));
    let mut w = Vec2::new(-300, 400);
    clamp_magnitude(&mut w, 1_000);
    assert_eq!(w, Vec2::new(-300, 400));
    let mut z = Vec2::new(0, 0);
    clamp_magnitude(&mut z, 0);
    assert_eq!(z, Vec2::new(0, 0));
}

#[test]
fn with_length_rescales_and_keeps_zero() {
    assert_eq!(Vec2::new(0, -5).with_length(1_000), Vec2::new(0, -1_000));
    assert_eq!(Vec2::new(1, 1).with_length(1_000), Vec2::new(706, 706));
    assert_eq!(Vec2::new(0, 0).with_length(1_000), Vec2::new(0, 0));
}

#[test]
fn radius_query_includes_the_boundary() {
    let pts = vec![Vec2::new(0, 0), Vec2::new(3, 4), Vec2::new(6, 8), Vec2::new(-3, -4), Vec2::new(0, 6)];
    let index = SpatialIndex::build(&pts);
    let mut found = index.within_radius(Vec2::new(0, 0), 5);
    found.sort();
    assert_eq!(found, vec![0, 1, 3]);
    let mut near_far = index.within_radius(Vec2::new(6, 8), 0);
    near_far.sort();
    assert_eq!(near_far, vec![2]);
    assert!(index.within_radius(Vec2::new(100, 100), 10).is_empty());
}

#[test]
fn vertices_turn_with_the_heading() {
    let cfg = config(1_000);
    let up = bird_at(0, 0, 0, 1_000).get_vertices(&cfg);
    assert_eq!(up, vec![Vec2::new(0, 578), Vec2::new(-500, -289), Vec2::new(500, -289), Vec2::new(0, 578)]);
    let right = bird_at(10, 20, 1_000, 0).get_vertices(&cfg);
    assert_eq!(
        right,
        vec![Vec2::new(588, 20), Vec2::new(-279, 520), Vec2::new(-279, -480), Vec2::new(588, 20)]
    );
    // the apex leads: for a velocity along -x it lies on the -x side
    let left = bird_at(0, 0, -1_000, 0).get_vertices(&cfg);
    assert_eq!(left[0], Vec2::new(-578, 0));
    let still = bird_at(0, 0, 0, 0).get_vertices(&cfg);
    assert_eq!(still, up);
}

#[test]
fn borders_wrap_each_edge() {
    let cfg = config(10_000); // margin 15
    let mut right = bird_at(80_000, 0, 0, 0);
    right.borders(&cfg, 100_000, 100_000); // half extent 55
    assert_eq!(right.position, Vec2::new(-40_000, 0));
    let mut left = bird_at(-71_000, 0, 0, 0);
    left.borders(&cfg, 100_000, 100_000);
    assert_eq!(left.position, Vec2::new(40_000, 0));
    let mut top = bird_at(0, 56_000, 0, 0);
    top.borders(&cfg, 100_000, 100_000);
    assert_eq!(top.position, Vec2::new(0, -40_000));
    let mut inside = bird_at(54_000, -60_000, 0, 0);
    inside.borders(&cfg, 100_000, 100_000);
    assert_eq!(inside.position, Vec2::new(54_000, -60_000));
}
