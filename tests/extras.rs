use exercises::fixed::{Vec2, SCALE, LIMIT};
use exercises::minigrep::Config;
use exercises::world::{BoxCollider, CircleCollider, Gravity, Mass, Particle, Restitution};

#[test]
fn component_defaults() {
    assert_eq!(Mass::default(), Mass(SCALE));
    assert_eq!(Restitution::default(), Restitution(19660));
    assert_eq!(CircleCollider::default().radius, 25 * SCALE);
    assert_eq!(BoxCollider::default().size, Vec2::new(50 * SCALE, 50 * SCALE));
    assert_eq!(Gravity::default(), Gravity(Vec2::new(0, -642908)));
}

#[test]
fn config_needs_exactly_two_arguments() {
    let args = vec![String::from("minigrep"), String::from("to"), String::from("poem.txt")];
    let c = Config::build(&args, true).ok().unwrap();
    assert_eq!(c.query, "to");
    assert_eq!(c.filename, "poem.txt");
    assert!(c.ignore_case);
    assert_eq!(
        Config::build(&args[..2], false).err(),
        Some("You must provide exactly two arguments: <query> <filename>")
    );
}

#[test]
fn particle_validity() {
    assert!(Particle::dynamic_circle(Vec2::zero(), Vec2::zero(), SCALE, SCALE, SCALE).is_valid());
    assert!(!Particle::dynamic_circle(Vec2::zero(), Vec2::zero(), 0, SCALE, SCALE).is_valid());
    assert!(!Particle::dynamic_circle(Vec2::new(LIMIT + 1, 0), Vec2::zero(), SCALE, SCALE, SCALE).is_valid());
    assert!(!Particle::static_circle(Vec2::zero(), SCALE, SCALE + 1).is_valid());
    assert!(!Particle::static_box(Vec2::zero(), Vec2::new(-1, 1), 0).is_valid());
    assert!(Particle::static_circle(Vec2::zero(), 0, 0).is_valid());
}
