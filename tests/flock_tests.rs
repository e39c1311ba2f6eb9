use flocking::{Bird, BirdConfig, EvictionPolicy, Flock, FlockError, Vec2};

fn species() -> BirdConfig {
    // neighbour distance 50, separation 20, multipliers 1.5 / 1 / 1,
    // max speed 10, max force 5, size 10
    BirdConfig::new(50_000, 20_000, 1_500, 1_000, 1_000, 10_000, 5_000, 10_000, 1_000, 500, 0)
}

fn flock_with(capacity: usize, policy: EvictionPolicy) -> Flock {
    let mut flock = Flock::new(capacity, 42, policy);
    flock.add_bird_config("x".to_string(), species());
    flock
}

fn put(flock: &mut Flock, x: i64, y: i64, vx: i64, vy: i64) {
    let r = flock.add_bird_with_motion("x".to_string(), Vec2::new(x, y), Vec2::new(vx, vy), Vec2::new(0, 0));
    assert_eq!(r, Ok(()));
}

fn positions(flock: &Flock) -> Vec<(i64, i64)> {
    flock.birds().iter().map(|b: &Bird| (b.position.x, b.position.y)).collect()
}

#[test]
fn oldest_first_evicts_the_first_inserted() {
    let mut flock = flock_with(2, EvictionPolicy::OldestFirst);
    put(&mut flock, 1_000, 0, 0, 0);
    put(&mut flock, 2_000, 0, 0, 0);
    put(&mut flock, 3_000, 0, 0, 0);
    assert_eq!(positions(&flock), vec![(2_000, 0), (3_000, 0)]);
    assert_eq!(flock.get_current_flock_size(), 2);
}

#[test]
fn single_agent_moves_by_velocity_times_step() {
    let mut flock = flock_with(10, EvictionPolicy::OldestFirst);
    put(&mut flock, 0, 0, 1_000, 0);
    let (verts, colors) = flock.update(10_000_000, 10_000_000, 1_000);
    let b = &flock.birds()[0];
    assert_eq!((b.acceleration.x, b.acceleration.y), (0, 0));
    assert_eq!((b.position.x, b.position.y), (1_000, 0));
    assert_eq!((b.velocity.x, b.velocity.y), (1_000, 0));
    assert_eq!(verts.len(), 12);
    assert_eq!(colors.len(), 12);
}

#[test]
fn size_never_exceeds_capacity() {
    for policy in [EvictionPolicy::OldestFirst, EvictionPolicy::UniformRandom] {
        let mut flock = flock_with(3, policy);
        for i in 0..10 {
            put(&mut flock, i * 1_000, 0, 0, 0);
            assert!(flock.get_current_flock_size() <= 3);
        }
        assert_eq!(flock.get_current_flock_size(), 3);
    }
}

#[test]
fn zero_capacity_keeps_the_flock_empty() {
    let mut flock = flock_with(0, EvictionPolicy::UniformRandom);
    put(&mut flock, 0, 0, 0, 0);
    assert_eq!(flock.get_current_flock_size(), 0);
}

#[test]
fn unknown_species_is_rejected_without_change() {
    let mut flock = flock_with(5, EvictionPolicy::OldestFirst);
    put(&mut flock, 0, 0, 0, 0);
    let r = flock.add_bird("y".to_string(), 5_000, 5_000);
    assert_eq!(r, Err(FlockError::UnknownSpecies));
    assert_eq!(flock.get_current_flock_size(), 1);
    let r = flock.add_bird_with_motion("y".to_string(), Vec2::new(0, 0), Vec2::new(0, 0), Vec2::new(0, 0));
    assert_eq!(r, Err(FlockError::UnknownSpecies));
    let r = flock.add_bird_at_random_position("y".to_string(), 100_000, 100_000);
    assert_eq!(r, Err(FlockError::UnknownSpecies));
    assert_eq!(positions(&flock), vec![(0, 0)]);
}

#[test]
fn update_of_missing_config_is_not_found() {
    let mut flock = flock_with(5, EvictionPolicy::OldestFirst);
    assert_eq!(flock.update_bird_config("y".to_string(), species()), Err(FlockError::NotFound));
    assert!(flock.config(&"y".to_string()).is_none());
    let mut faster = species();
    faster.max_speed = 20_000;
    assert_eq!(flock.update_bird_config("x".to_string(), faster), Ok(()));
    assert_eq!(flock.config(&"x".to_string()).unwrap().max_speed, 20_000);
}

#[test]
fn adding_a_config_twice_replaces_it() {
    let mut flock = flock_with(5, EvictionPolicy::OldestFirst);
    let mut other = species();
    other.color_r = 7;
    flock.add_bird_config("x".to_string(), other);
    flock.add_bird_config("x".to_string(), other);
    assert_eq!(flock.config(&"x".to_string()).unwrap().color_r, 7);
}

#[test]
fn removing_a_species_removes_its_agents() {
    let mut flock = flock_with(10, EvictionPolicy::OldestFirst);
    flock.add_bird_config("y".to_string(), species());
    put(&mut flock, 1_000, 0, 0, 0);
    flock.add_bird_with_motion("y".to_string(), Vec2::new(2_000, 0), Vec2::new(0, 0), Vec2::new(0, 0)).unwrap();
    put(&mut flock, 3_000, 0, 0, 0);
    flock.remove_bird_config("x".to_string());
    assert_eq!(positions(&flock), vec![(2_000, 0)]);
    assert!(flock.config(&"x".to_string()).is_none());
    assert_eq!(flock.add_bird("x".to_string(), 0, 0), Err(FlockError::UnknownSpecies));
}

#[test]
fn shrinking_capacity_evicts_oldest_first() {
    let mut flock = flock_with(5, EvictionPolicy::OldestFirst);
    for i in 0..5 {
        put(&mut flock, i * 1_000, 0, 0, 0);
    }
    flock.set_max_flock_size(2);
    assert_eq!(positions(&flock), vec![(3_000, 0), (4_000, 0)]);
    assert_eq!(flock.max_flock_size(), 2);
    flock.set_max_flock_size(4);
    assert_eq!(flock.get_current_flock_size(), 2);
}

#[test]
fn shrinking_capacity_at_random_keeps_a_subset() {
    let mut flock = flock_with(6, EvictionPolicy::UniformRandom);
    for i in 0..6 {
        put(&mut flock, i * 1_000, 0, 0, 0);
    }
    flock.set_max_flock_size(3);
    let kept = positions(&flock);
    assert_eq!(kept.len(), 3);
    for p in &kept {
        assert!(p.1 == 0 && p.0 % 1_000 == 0 && p.0 >= 0 && p.0 < 6_000);
    }
    assert!(kept.windows(2).all(|w| w[0].0 < w[1].0));
}

#[test]
fn random_agents_get_motion_in_the_unit_ranges() {
    let mut flock = flock_with(10, EvictionPolicy::OldestFirst);
    for _ in 0..5 {
        flock.add_bird("x".to_string(), 0, 0).unwrap();
        flock.add_bird_at_random_position("x".to_string(), 100_000, 50_000).unwrap();
    }
    for b in flock.birds() {
        assert!(-1_000 < b.velocity.x && b.velocity.x <= 0);
        assert!(0 <= b.velocity.y && b.velocity.y < 1_000);
        assert!(-1_000 < b.acceleration.x && b.acceleration.x <= 0);
        assert!(0 <= b.acceleration.y && b.acceleration.y < 1_000);
        assert!(-50_000 <= b.position.x && b.position.x <= 50_000);
        assert!(-25_000 <= b.position.y && b.position.y <= 25_000);
    }
}

#[test]
fn same_seed_gives_the_same_flock() {
    let mut a = flock_with(10, EvictionPolicy::UniformRandom);
    let mut b = flock_with(10, EvictionPolicy::UniformRandom);
    for _ in 0..4 {
        a.add_bird_at_random_position("x".to_string(), 100_000, 100_000).unwrap();
        b.add_bird_at_random_position("x".to_string(), 100_000, 100_000).unwrap();
    }
    assert_eq!(positions(&a), positions(&b));
}

#[test]
fn tick_result_does_not_depend_on_processing_order() {
    let mut ab = flock_with(10, EvictionPolicy::OldestFirst);
    put(&mut ab, 0, 0, 1_000, 0);
    put(&mut ab, 10_000, 5_000, 0, 2_000);
    let mut ba = flock_with(10, EvictionPolicy::OldestFirst);
    put(&mut ba, 10_000, 5_000, 0, 2_000);
    put(&mut ba, 0, 0, 1_000, 0);
    ab.update(1_000_000, 1_000_000, 1_000);
    ba.update(1_000_000, 1_000_000, 1_000);
    let a1 = &ab.birds()[0];
    let a2 = &ba.birds()[1];
    assert_eq!((a1.position.x, a1.position.y), (a2.position.x, a2.position.y));
    assert_eq!((a1.velocity.x, a1.velocity.y), (a2.velocity.x, a2.velocity.y));
    let b1 = &ab.birds()[1];
    let b2 = &ba.birds()[0];
    assert_eq!((b1.position.x, b1.position.y), (b2.position.x, b2.position.y));
    // the two interact: each has moved off its inertial path
    assert_ne!((a1.position.x, a1.position.y), (1_000, 0));
}

#[test]
fn isolated_agent_moves_in_a_straight_line() {
    let mut flock = flock_with(10, EvictionPolicy::OldestFirst);
    put(&mut flock, 0, 0, 3_000, -4_000);
    put(&mut flock, 400_000, 400_000, 0, 0);
    for step in 1..=3 {
        flock.update(10_000_000, 10_000_000, 500);
        let b = &flock.birds()[0];
        assert_eq!((b.position.x, b.position.y), (1_500 * step, -2_000 * step));
        assert_eq!((b.velocity.x, b.velocity.y), (3_000, -4_000));
    }
}

#[test]
fn two_close_agents_separate() {
    // only separation acts: no neighbours for alignment or cohesion
    let cfg = BirdConfig::new(0, 2_000, 1_000, 0, 0, 2_000, 1_000, 1_000, 0, 0, 0);
    let mut flock = Flock::new(4, 1, EvictionPolicy::OldestFirst);
    flock.add_bird_config("s".to_string(), cfg);
    let z = Vec2::new(0, 0);
    flock.add_bird_with_motion("s".to_string(), Vec2::new(0, 0), z, z).unwrap();
    flock.add_bird_with_motion("s".to_string(), Vec2::new(1_000, 0), z, z).unwrap();
    flock.update(1_000_000, 1_000_000, 1_000);
    let a = &flock.birds()[0];
    let b = &flock.birds()[1];
    assert_eq!((a.position.x, a.position.y), (-500, 0));
    assert_eq!((a.velocity.x, a.velocity.y), (-500, 0));
    assert_eq!((b.position.x, b.position.y), (1_500, 0));
    assert_eq!((b.velocity.x, b.velocity.y), (500, 0));
}

#[test]
fn tick_buffers_hold_corners_and_colors() {
    let mut flock = flock_with(10, EvictionPolicy::OldestFirst);
    put(&mut flock, 0, 0, 0, 1_000);
    put(&mut flock, 900_000, 0, 0, 1_000);
    let (verts, colors) = flock.update(10_000_000, 10_000_000, 0);
    assert_eq!(verts.len(), 24);
    assert_eq!(colors.len(), 24);
    // size 10: inradius 2.89, apex at twice that, heading along (0, 1)
    assert_eq!(&verts[0..12], &[0, 5_780, 0, -5_000, -2_890, 0, 5_000, -2_890, 0, 0, 5_780, 0]);
    assert_eq!(&verts[12..15], &[900_000, 5_780, 0]);
    assert_eq!(&colors[0..6], &[1_000, 500, 0, 1_000, 500, 0]);
}

#[test]
fn agent_past_the_right_edge_reappears_on_the_left() {
    let mut flock = flock_with(10, EvictionPolicy::OldestFirst);
    // width 100: half extent 55, margin 15
    put(&mut flock, 80_000, 0, 0, 0);
    flock.update(100_000, 100_000, 0);
    let b = &flock.birds()[0];
    assert_eq!((b.position.x, b.position.y), (-40_000, 0));
}

#[test]
fn opposite_unit_pushes_cancel() {
    // neighbours at distance 1 and 2 on either side: their unit away-vectors cancel
    let cfg = BirdConfig::new(0, 5_000, 1_000, 0, 0, 2_000, 1_000, 1_000, 0, 0, 0);
    let mut flock = Flock::new(4, 1, EvictionPolicy::OldestFirst);
    flock.add_bird_config("s".to_string(), cfg);
    let z = Vec2::new(0, 0);
    flock.add_bird_with_motion("s".to_string(), Vec2::new(0, 0), z, z).unwrap();
    flock.add_bird_with_motion("s".to_string(), Vec2::new(1_000, 0), z, z).unwrap();
    flock.add_bird_with_motion("s".to_string(), Vec2::new(-2_000, 0), z, z).unwrap();
    flock.update(1_000_000, 1_000_000, 1_000);
    let a = &flock.birds()[0];
    assert_eq!((a.position.x, a.position.y), (0, 0));
    assert_eq!((a.velocity.x, a.velocity.y), (0, 0));
}
