use particle_life::particle::{
    Particle, ParticleTypes, Vector, FORCE_LIMIT, MAX_REPULSION_FORCE, UNIT, WORLD_HEIGHT,
    WORLD_WIDTH,
};
use particle_life::simulation::{random_population, seed_particle, step};

fn at(kind: ParticleTypes, x: i64, y: i64) -> Particle {
    Particle {
        particle_type: kind,
        position: Vector { x: x * UNIT, y: y * UNIT },
        velocity: Vector { x: 0, y: 0 },
    }
}

fn squared_distance(a: &Particle, b: &Particle) -> i128 {
    let dx = (a.position.x - b.position.x) as i128;
    let dy = (a.position.y - b.position.y) as i128;
    dx * dx + dy * dy
}

#[test]
fn kinds_round_trip_through_ordinals() {
    for n in 0..4usize {
        assert_eq!(ParticleTypes::from_repr(n).unwrap().index(), n);
    }
    assert_eq!(ParticleTypes::from_repr(4), None);
    assert_eq!(ParticleTypes::from_repr(3), Some(ParticleTypes::YELLOW));
}

#[test]
fn coefficients_and_damping() {
    let red = at(ParticleTypes::Red, 0, 0);
    let blue = at(ParticleTypes::Blue, 0, 0);
    assert_eq!(red.force_coeff(&ParticleTypes::Red), UNIT);
    assert_eq!(blue.force_coeff(&ParticleTypes::Green), -UNIT / 2);
    assert_eq!(red.force_coeff(&ParticleTypes::Blue), 0);
    assert_eq!(red.damping(), UNIT / 2);
}

#[test]
fn distance_points_to_the_other() {
    let a = at(ParticleTypes::Red, 10, 20);
    let b = at(ParticleTypes::Red, 13, 16);
    assert_eq!(a.distance(&b), Vector { x: 3 * UNIT, y: -4 * UNIT });
}

#[test]
fn coincident_particles_exert_no_force() {
    let a = at(ParticleTypes::Red, 50, 50);
    assert_eq!(a.calc_force(&a), Vector { x: 0, y: 0 });
}

#[test]
fn force_along_an_axis() {
    // At 100 units the interaction term of two red particles is
    // 1 - 100 / 200.1 of a unit, and the repulsion term is zero.
    let a = at(ParticleTypes::Red, 100, 300);
    let b = at(ParticleTypes::Red, 200, 300);
    let f = a.calc_force(&b);
    assert_eq!(f.y, 0);
    assert_eq!(f.x, 32784);
    assert_eq!(b.calc_force(&a).x, -32784);
}

#[test]
fn repulsion_term_near_contact() {
    // One unit apart, with no interaction between the kinds, the repulsion
    // term alone pushes the particle away from the other.
    let a = at(ParticleTypes::Blue, 100, 100);
    let b = at(ParticleTypes::Red, 100, 101);
    let f = a.calc_force(&b);
    assert_eq!(f.x, 0);
    assert_eq!(f.y, -117977);
    assert!(f.y < -MAX_REPULSION_FORCE / 2);
    assert!(f.y >= -FORCE_LIMIT);
    assert_eq!(b.calc_force(&a).y, 117977);
}

#[test]
fn step_attracts_same_kind() {
    let mut ps = vec![at(ParticleTypes::Red, 100, 300), at(ParticleTypes::Red, 200, 300)];
    let before = squared_distance(&ps[0], &ps[1]);
    step(&mut ps, UNIT / 60);
    assert_eq!(ps.len(), 2);
    assert!(squared_distance(&ps[0], &ps[1]) < before);
    assert!(ps[0].velocity.x > 0);
    assert!(ps[1].velocity.x < 0);
}

#[test]
fn step_repels_by_negative_coefficient() {
    // A blue particle is pushed away from a green one.
    let mut ps = vec![at(ParticleTypes::Blue, 100, 300), at(ParticleTypes::Green, 200, 300)];
    step(&mut ps, UNIT / 60);
    assert!(ps[0].velocity.x < 0);
    assert!(ps[0].position.x < 100 * UNIT);
}

#[test]
fn step_wraps_across_the_edge() {
    let mut p = at(ParticleTypes::Red, 799, 0);
    p.velocity = Vector { x: 4 * UNIT, y: -4 * UNIT };
    let mut ps = vec![p];
    step(&mut ps, UNIT);
    // Damped to two units per unit of time, then moved by two units.
    assert_eq!(ps[0].velocity, Vector { x: 2 * UNIT, y: -2 * UNIT });
    assert_eq!(ps[0].position, Vector { x: UNIT, y: 598 * UNIT });
}

#[test]
fn step_is_deterministic() {
    let start = random_population(40);
    let mut first = start.clone();
    let mut second = start.clone();
    step(&mut first, UNIT / 60);
    step(&mut second, UNIT / 60);
    assert_eq!(first, second);
}

#[test]
fn step_keeps_population_size() {
    let mut empty: Vec<Particle> = Vec::new();
    step(&mut empty, UNIT);
    assert!(empty.is_empty());
    let mut ps = random_population(17);
    step(&mut ps, UNIT);
    assert_eq!(ps.len(), 17);
}

#[test]
fn seeded_particles_rest_inside_the_world() {
    let p = seed_particle(2, 799, 599);
    assert_eq!(p.particle_type, ParticleTypes::Blue);
    assert_eq!(p.position, Vector { x: 799 * UNIT, y: 599 * UNIT });
    let ps = random_population(300);
    assert_eq!(ps.len(), 300);
    for p in &ps {
        assert_eq!(p.position.x % UNIT, 0);
        assert!(0 <= p.position.x && p.position.x < WORLD_WIDTH);
        assert!(0 <= p.position.y && p.position.y < WORLD_HEIGHT);
        assert_eq!(p.velocity, Vector { x: 0, y: 0 });
    }
    assert!(ps.iter().any(|p| p.position.x != ps[0].position.x));
}

#[test]
fn long_run_stays_in_the_world() {
    let mut ps = random_population(300);
    for _ in 0..1000 {
        step(&mut ps, UNIT / 60);
        assert_eq!(ps.len(), 300);
        for p in &ps {
            assert!(0 <= p.position.x && p.position.x < WORLD_WIDTH);
            assert!(0 <= p.position.y && p.position.y < WORLD_HEIGHT);
        }
    }
}
