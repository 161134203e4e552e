use exercises::contact::{box_contact, circle_contact, nearest_feature, BoxFeature};
use exercises::fixed::{Vec2, SCALE};
use exercises::world::{Particle, World};

fn units(x: i64) -> i64 {
    x * SCALE
}

fn at(x: i64, y: i64) -> Vec2 {
    Vec2::new(units(x), units(y))
}

fn still_world(substeps: u32) -> World {
    World::new(Vec2::zero(), 64, substeps)
}

#[test]
fn inverse_mass_weighting_moves_the_lighter_body_more() {
    let mut w = still_world(1);
    let a = w.spawn(Particle::dynamic_circle(at(0, 0), Vec2::zero(), units(1), units(10), 0));
    let b = w.spawn(Particle::dynamic_circle(at(16, 0), Vec2::zero(), units(3), units(10), 0));
    w.collect_collision_pairs();
    assert_eq!(w.collision_pairs.0, vec![(a, b)]);
    w.solve_pos();
    // Overlap of 4: A moves back by 3, B forward by 1.
    assert_eq!(w.particles[a].pos, at(-3, 0));
    assert_eq!(w.particles[b].pos, at(17, 0));
    assert_eq!(w.particles[b].pos.x - w.particles[a].pos.x, units(20));
    assert_eq!(w.contacts.0.len(), 1);
    assert_eq!(w.contacts.0[0].normal, Vec2::new(SCALE, 0));
}

#[test]
fn head_on_elastic_collision_exchanges_velocities() {
    let mut w = still_world(10);
    let a = w.spawn(Particle::dynamic_circle(at(-100, 0), Vec2::new(units(60), 0), units(1), units(10), SCALE));
    let b = w.spawn(Particle::dynamic_circle(at(100, 0), Vec2::new(-units(60), 0), units(1), units(10), SCALE));
    let mut hit_tick = 0;
    for tick in 1..=200 {
        w.step();
        if !w.contacts.0.is_empty() {
            hit_tick = tick;
            break;
        }
    }
    assert_eq!(hit_tick, 97);
    assert_eq!(w.particles[a].vel, Vec2::new(-units(60), 0));
    assert_eq!(w.particles[b].vel, Vec2::new(units(60), 0));
}

#[test]
fn equal_masses_keep_momentum_through_restitution() {
    let mut w = still_world(1);
    let a = w.spawn(Particle::dynamic_circle(at(0, 0), Vec2::new(units(5), units(2)), units(2), units(10), SCALE));
    let b = w.spawn(Particle::dynamic_circle(at(15, 3), Vec2::new(-units(7), units(1)), units(2), units(10), SCALE));
    w.collect_collision_pairs();
    w.solve_pos();
    assert_eq!(w.contacts.0.len(), 1);
    let before = (
        w.particles[a].vel.x + w.particles[b].vel.x,
        w.particles[a].vel.y + w.particles[b].vel.y,
    );
    w.solve_vel();
    let after = (
        w.particles[a].vel.x + w.particles[b].vel.x,
        w.particles[a].vel.y + w.particles[b].vel.y,
    );
    assert_eq!(before, after);
    assert_ne!(w.particles[a].vel, Vec2::new(units(5), units(2)));
}

#[test]
fn circle_above_a_box_meets_its_top_face() {
    let size = at(40, 40);
    let centre = at(3, 25);
    assert!(matches!(
        nearest_feature(centre, units(10), Vec2::zero(), size),
        Some(BoxFeature::HorizontalEdge)
    ));
    assert_eq!(box_contact(centre, units(10), Vec2::zero(), size), Some((Vec2::new(0, -SCALE), units(5))));
    let below = at(-19, -28);
    assert_eq!(box_contact(below, units(10), Vec2::zero(), size), Some((Vec2::new(0, SCALE), units(2))));
}

#[test]
fn circle_near_a_box_corner_and_side() {
    let size = at(40, 40);
    assert!(matches!(nearest_feature(at(23, 24), units(10), Vec2::zero(), size), Some(BoxFeature::Corner)));
    // Corner at (20, 20), centre (23, 24): distance 5, depth 5, normal towards the box.
    assert_eq!(
        box_contact(at(23, 24), units(10), Vec2::zero(), size),
        Some((Vec2::new(-SCALE * 3 / 5, -SCALE * 4 / 5), units(5)))
    );
    assert!(box_contact(at(28, 28), units(10), Vec2::zero(), size).is_none());
    assert!(nearest_feature(at(31, 0), units(10), Vec2::zero(), size).is_none());
    assert_eq!(box_contact(at(-26, 2), units(10), Vec2::zero(), size), Some((Vec2::new(SCALE, 0), units(4))));
}

#[test]
fn coincident_centres_give_no_contact() {
    assert!(circle_contact(at(5, 5), units(1), at(5, 5), units(1)).is_none());
    assert!(circle_contact(at(0, 0), units(1), at(2, 0), units(1)).is_none());
    assert_eq!(circle_contact(at(0, 0), units(2), at(0, 3), units(2)), Some((Vec2::new(0, SCALE), units(1))));
}

#[test]
fn statics_never_move() {
    let mut w = World::new(Vec2::new(0, -643_000), 64, 10);
    let floor = w.spawn(Particle::static_box(at(0, -50), at(200, 100), SCALE / 2));
    let post = w.spawn(Particle::static_circle(at(30, 20), units(10), SCALE / 2));
    w.spawn(Particle::dynamic_circle(at(0, 30), Vec2::new(units(40), 0), units(1), units(10), SCALE / 3));
    w.spawn(Particle::dynamic_circle(at(25, 60), Vec2::zero(), units(2), units(10), SCALE / 3));
    let floor_before = w.particles[floor];
    let post_before = w.particles[post];
    for _ in 0..300 {
        w.step();
        assert_eq!(w.particles[floor], floor_before);
        assert_eq!(w.particles[post], post_before);
    }
    w.run(50);
    assert_eq!(w.particles[floor], floor_before);
    assert_eq!(w.particles[post], post_before);
}

#[test]
fn distant_pairs_are_never_candidates() {
    let mut w = still_world(4);
    w.spawn(Particle::dynamic_circle(at(0, 0), Vec2::new(units(1), 0), units(1), units(10), 0));
    w.spawn(Particle::dynamic_circle(at(60, 0), Vec2::zero(), units(1), units(10), 0));
    w.spawn(Particle::dynamic_circle(Vec2::new(0, units(20) + 1000), Vec2::zero(), units(1), units(10), 0));
    w.spawn(Particle::dynamic_circle(Vec2::new(units(60), units(20) + 3000), Vec2::zero(), units(1), units(10), 0));
    w.step();
    // The margin is 2 * (1 / 64) * 1 unit, 2048 raw: only the pair 1000 raw beyond touching
    // is listed, and it does not touch after the tick either.
    assert_eq!(w.collision_pairs.0, vec![(0, 2)]);
    assert!(w.contacts.0.is_empty());
}

#[test]
fn stacked_circles_come_to_rest_on_the_floor() {
    let mut w = World::new(Vec2::new(0, -642_908), 64, 10);
    w.spawn(Particle::static_box(at(0, -50), at(200, 100), SCALE * 3 / 10));
    let balls: Vec<usize> = (0..3)
        .map(|i| w.spawn(Particle::dynamic_circle(at(0, 10 + 20 * i), Vec2::zero(), units(1), units(10), SCALE * 3 / 10)))
        .collect();
    for _ in 0..640 {
        w.step();
        for &b in &balls {
            assert!(w.particles[b].pos.y > 0, "a ball sank through the floor");
        }
    }
    let tolerance = SCALE / 10;
    assert!(w.particles[balls[0]].pos.y >= units(10) - tolerance);
    for pair in balls.windows(2) {
        let gap = w.particles[pair[1]].pos.y - w.particles[pair[0]].pos.y;
        assert!(gap >= units(20) - tolerance);
    }
    for &b in &balls {
        assert!(w.particles[b].vel.y.abs() < SCALE);
        assert!(w.particles[b].vel.x.abs() < SCALE);
    }
}

#[test]
fn sync_interpolates_between_positions() {
    let mut w = still_world(1);
    w.spawn(Particle::dynamic_circle(at(0, 0), Vec2::new(units(64), -units(128)), units(1), units(1), 0));
    w.step();
    assert_eq!(w.sync_transforms(SCALE), vec![at(1, -2)]);
    assert_eq!(w.sync_transforms(0), vec![at(0, 0)]);
    assert_eq!(w.sync_transforms(SCALE / 2), vec![Vec2::new(SCALE / 2, -SCALE)]);
}

#[test]
fn integration_applies_gravity_before_moving() {
    let mut w = World::new(Vec2::new(0, -units(64)), 64, 1);
    let p = w.spawn(Particle::dynamic_circle(at(0, 0), Vec2::zero(), units(3), units(1), 0));
    w.integrate();
    assert_eq!(w.particles[p].vel, Vec2::new(0, -units(1)));
    assert_eq!(w.particles[p].pre_solve_vel, Vec2::new(0, -units(1)));
    assert_eq!(w.particles[p].pos, Vec2::new(0, -SCALE / 64));
    assert_eq!(w.particles[p].prev_pos, at(0, 0));
    w.update_vel();
    assert_eq!(w.particles[p].vel, Vec2::new(0, -units(1)));
}

#[test]
fn run_matches_repeated_steps_and_keeps_the_last_lists() {
    let build = || {
        let mut w = World::new(Vec2::new(0, -642_908), 64, 10);
        w.spawn(Particle::static_box(at(0, -50), at(200, 100), SCALE / 2));
        w.spawn(Particle::dynamic_circle(at(0, 12), Vec2::new(units(3), 0), units(1), units(10), SCALE / 3));
        w.spawn(Particle::dynamic_circle(at(5, 31), Vec2::zero(), units(2), units(10), SCALE / 3));
        w
    };
    let mut stepped = build();
    for _ in 0..60 {
        stepped.step();
    }
    let mut ran = build();
    ran.run(60);
    assert_eq!(ran.particles, stepped.particles);
    assert_eq!(ran.collision_pairs.0, stepped.collision_pairs.0);
    assert_eq!(ran.contacts.0, stepped.contacts.0);
    assert_eq!(ran.static_contacts.0, stepped.static_contacts.0);
    assert!(!ran.static_contacts.0.is_empty());
    let before = ran.particles.clone();
    let pairs = ran.collision_pairs.0.clone();
    ran.run(0);
    assert_eq!(ran.particles, before);
    assert_eq!(ran.collision_pairs.0, pairs);
}

#[test]
fn zero_radius_circle_meets_nothing() {
    assert!(circle_contact(at(0, 0), 0, at(0, 0), 0).is_none());
    assert_eq!(circle_contact(at(0, 0), 0, at(1, 0), units(2)), Some((Vec2::new(SCALE, 0), units(1))));
}
