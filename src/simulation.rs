use rand::Rng;
use vstd::prelude::*;
use crate::math::{abs, div_toward_zero, div_trunc, lemma_div_toward_zero_bound, wrap};
use crate::particle::{
    damping_of, ParticleTypes, PARTICLE_TYPE_COUNT, lemma_force_bounded, Particle, Vector, FORCE_LIMIT, UNIT, WORLD_HEIGHT,
    WORLD_WIDTH,
};

verus! {

/// Largest population that `step` takes.
pub const MAX_PARTICLES: usize = 4096;

/// Longest time delta that `step` takes: four units.
pub const MAX_DT: i64 = 262144;

/// Bound on each velocity component, kept by every step.
pub const MAX_SPEED: i64 = 6442450944;

/// A particle in the state that the stepper keeps: inside the world, with a
/// bounded velocity.
pub open spec fn well_formed(p: Particle) -> bool {
    p.in_world() && abs(p.velocity.x as int) <= MAX_SPEED && abs(p.velocity.y as int) <= MAX_SPEED
}

pub open spec fn population_well_formed(ps: Seq<Particle>) -> bool {
    forall|i: int| 0 <= i < ps.len() ==> well_formed(#[trigger] ps[i])
}

/// Net force on particle `i` from the particles before `k`, itself excluded.
pub open spec fn partial_force(ps: Seq<Particle>, i: int, k: int) -> (int, int)
    decreases k,
{
    if k <= 0 {
        (0, 0)
    } else {
        let prev = partial_force(ps, i, k - 1);
        if k - 1 == i {
            prev
        } else {
            let f = ps[i].force_from(ps[k - 1]);
            (prev.0 + f.0, prev.1 + f.1)
        }
    }
}

/// Net force on particle `i` from all the others.
pub open spec fn total_force(ps: Seq<Particle>, i: int) -> (int, int) {
    partial_force(ps, i, ps.len() as int)
}

/// A velocity component after one tick: damped, then pushed by the force.
pub open spec fn next_velocity(v: int, damping: int, f: int, dt: int) -> int {
    div_toward_zero((UNIT - damping) * v, UNIT as int) + div_toward_zero(f * dt, UNIT as int)
}

/// A coordinate after one tick, wrapped around the world's extent.
pub open spec fn next_coordinate(p: int, v: int, dt: int, extent: int) -> int {
    (p + div_toward_zero(v * dt, UNIT as int)) % extent
}

/// `after` is `before` advanced by one tick of length `dt` under force `f`.
pub open spec fn advanced(before: Particle, after: Particle, f: (int, int), dt: int) -> bool {
    let damping = damping_of(before.particle_type);
    &&& after.particle_type == before.particle_type
    &&& after.velocity.x == next_velocity(before.velocity.x as int, damping, f.0, dt)
    &&& after.velocity.y == next_velocity(before.velocity.y as int, damping, f.1, dt)
    &&& after.position.x == next_coordinate(
        before.position.x as int,
        after.velocity.x as int,
        dt,
        WORLD_WIDTH as int,
    )
    &&& after.position.y == next_coordinate(
        before.position.y as int,
        after.velocity.y as int,
        dt,
        WORLD_HEIGHT as int,
    )
}

/// `after` is the whole population `before` advanced by one tick, every force
/// taken from the state at the start of the tick.
pub open spec fn stepped(before: Seq<Particle>, after: Seq<Particle>, dt: int) -> bool {
    &&& after.len() == before.len()
    &&& forall|i: int|
        0 <= i < before.len() ==> advanced(before[i], #[trigger] after[i], total_force(before, i), dt)
}

proof fn lemma_partial_force_bounded(ps: Seq<Particle>, i: int, k: int)
    requires
        0 <= k,
    ensures
        abs(partial_force(ps, i, k).0) <= k * FORCE_LIMIT,
        abs(partial_force(ps, i, k).1) <= k * FORCE_LIMIT,
    decreases k,
{
    if k > 0 {
        lemma_partial_force_bounded(ps, i, k - 1);
        lemma_force_bounded(ps[i], ps[k - 1]);
    }
}

/// Advances one particle by a tick under force `f`.
fn advance(p: Particle, f: Vector, dt: i64) -> (r: Particle)
    requires
        well_formed(p),
        abs(f.x as int) <= MAX_PARTICLES * FORCE_LIMIT,
        abs(f.y as int) <= MAX_PARTICLES * FORCE_LIMIT,
        0 <= dt <= MAX_DT,
    ensures
        advanced(p, r, (f.x as int, f.y as int), dt as int),
        well_formed(r),
{
    let keep = UNIT - p.damping();
    let vx = next_velocity_exec(p.velocity.x, keep, f.x, dt);
    let vy = next_velocity_exec(p.velocity.y, keep, f.y, dt);
    let px = next_coordinate_exec(p.position.x, vx, dt, WORLD_WIDTH);
    let py = next_coordinate_exec(p.position.y, vy, dt, WORLD_HEIGHT);
    Particle {
        particle_type: p.particle_type,
        position: Vector { x: px, y: py },
        velocity: Vector { x: vx, y: vy },
    }
}

fn next_velocity_exec(v: i64, keep: i64, f: i64, dt: i64) -> (r: i64)
    requires
        keep == UNIT / 2,
        abs(v as int) <= MAX_SPEED,
        abs(f as int) <= MAX_PARTICLES * FORCE_LIMIT,
        0 <= dt <= MAX_DT,
    ensures
        r == next_velocity(v as int, UNIT - keep, f as int, dt as int),
        abs(r as int) <= MAX_SPEED,
{
    proof {
        assert(abs(keep * v) <= (MAX_SPEED / 2) * UNIT) by (nonlinear_arith)
            requires keep == 32768, abs(v as int) <= MAX_SPEED, MAX_SPEED == 6442450944;
        assert(abs(f * dt) <= (MAX_SPEED / 2) * UNIT) by (nonlinear_arith)
            requires abs(f as int) <= 805306368, 0 <= dt <= 262144, MAX_SPEED == 6442450944;
        lemma_div_toward_zero_bound(keep * v, UNIT as int, MAX_SPEED / 2);
        lemma_div_toward_zero_bound(f * dt, UNIT as int, MAX_SPEED / 2);
    }
    div_trunc(keep * v, UNIT) + div_trunc(f * dt, UNIT)
}

fn next_coordinate_exec(p: i64, v: i64, dt: i64, extent: i64) -> (r: i64)
    requires
        0 <= p < extent <= WORLD_WIDTH,
        abs(v as int) <= MAX_SPEED,
        0 <= dt <= MAX_DT,
    ensures
        r == next_coordinate(p as int, v as int, dt as int, extent as int),
        0 <= r < extent,
{
    proof {
        assert(abs(v * dt) <= MAX_SPEED * MAX_DT) by (nonlinear_arith)
            requires abs(v as int) <= MAX_SPEED, 0 <= dt <= MAX_DT;
        lemma_div_toward_zero_bound(v * dt, UNIT as int, MAX_SPEED * (MAX_DT / UNIT));
    }
    wrap(p + div_trunc(v * dt, UNIT), extent)
}

/// Advances the whole population by one tick of length `dt`. Every force is
/// computed from the state at the start of the tick, so the result does not
/// depend on the order of the particles' updates.
pub fn step(particles: &mut Vec<Particle>, dt: i64)
    requires
        old(particles)@.len() <= MAX_PARTICLES,
        0 <= dt <= MAX_DT,
        population_well_formed(old(particles)@),
    ensures
        stepped(old(particles)@, final(particles)@, dt as int),
        final(particles)@.len() == old(particles)@.len(),
        population_well_formed(final(particles)@),
{
    let ghost before = particles@;
    let n = particles.len();
    let mut forces: Vec<Vector> = Vec::new();
    let mut i: usize = 0;
    while i < n
        invariant
            particles@ == before,
            n == before.len(),
            n <= MAX_PARTICLES,
            i <= n,
            population_well_formed(before),
            forces@.len() == i,
            forall|k: int| 0 <= k < i ==> (#[trigger] forces@[k]).x == total_force(before, k).0
                && forces@[k].y == total_force(before, k).1,
        decreases n - i,
    {
        let mut fx: i64 = 0;
        let mut fy: i64 = 0;
        let mut j: usize = 0;
        while j < n
            invariant
                particles@ == before,
                n == before.len(),
                n <= MAX_PARTICLES,
                i < n,
                j <= n,
                population_well_formed(before),
                fx == partial_force(before, i as int, j as int).0,
                fy == partial_force(before, i as int, j as int).1,
            decreases n - j,
        {
            proof {
                lemma_partial_force_bounded(before, i as int, j as int);
                lemma_force_bounded(before[i as int], before[j as int]);
            }
            if j != i {
                let f = particles[i].calc_force(&particles[j]);
                fx = fx + f.x;
                fy = fy + f.y;
            }
            j = j + 1;
        }
        forces.push(Vector { x: fx, y: fy });
        i = i + 1;
    }
    let mut i: usize = 0;
    while i < n
        invariant
            n == before.len(),
            n <= MAX_PARTICLES,
            0 <= dt <= MAX_DT,
            i <= n,
            particles@.len() == n,
            population_well_formed(before),
            forces@.len() == n,
            forall|k: int| 0 <= k < n ==> (#[trigger] forces@[k]).x == total_force(before, k).0
                && forces@[k].y == total_force(before, k).1,
            forall|k: int| i <= k < n ==> #[trigger] particles@[k] == before[k],
            forall|k: int| 0 <= k < i ==>
                advanced(before[k], #[trigger] particles@[k], total_force(before, k), dt as int)
                && well_formed(particles@[k]),
        decreases n - i,
    {
        proof {
            lemma_partial_force_bounded(before, i as int, n as int);
        }
        let next = advance(particles[i], forces[i], dt);
        particles.set(i, next);
        i = i + 1;
    }
}

/// A step's result is a function of the population and the time delta alone:
/// two results of stepping the same population by the same delta are equal.
pub proof fn lemma_step_deterministic(
    before: Seq<Particle>,
    first: Seq<Particle>,
    second: Seq<Particle>,
    dt: int,
)
    requires
        stepped(before, first, dt),
        stepped(before, second, dt),
    ensures
        first == second,
{
    assert forall|i: int| 0 <= i < first.len() implies first[i] == second[i] by {
        assert(advanced(before[i], first[i], total_force(before, i), dt));
        assert(advanced(before[i], second[i], total_force(before, i), dt));
    }
    assert(first =~= second);
}

/// Relies on rand's `Rng::gen_range` over `0..bound`, drawn from the
/// thread-local generator: a value in `[0, bound)`. It panics on an empty
/// range, which `requires` leaves out.
#[verifier::external_body]
fn random_below(bound: u64) -> (r: u64)
    requires
        bound > 0,
    ensures
        r < bound,
{
    rand::thread_rng().gen_range(0..bound)
}

/// A particle of the given kind at rest at whole-unit coordinates `(x, y)`.
pub open spec fn seeded(p: Particle, kind: nat, x: int, y: int) -> bool {
    &&& p.particle_type.ordinal() == kind
    &&& p.position.x == x * UNIT
    &&& p.position.y == y * UNIT
    &&& p.velocity == (Vector { x: 0, y: 0 })
}

/// A particle at rest, of some kind, at whole-unit coordinates inside the world.
pub open spec fn freshly_seeded(p: Particle) -> bool {
    exists|kind: nat, x: int, y: int|
        kind < PARTICLE_TYPE_COUNT && 0 <= x < 800 && 0 <= y < 600 && #[trigger] seeded(p, kind, x, y)
}

/// The particle that `random_population` makes from three drawn numbers: the
/// kind's ordinal and the whole-unit coordinates.
pub fn seed_particle(kind: u64, x: u64, y: u64) -> (r: Particle)
    requires
        kind < PARTICLE_TYPE_COUNT,
        x < 800,
        y < 600,
    ensures
        seeded(r, kind as nat, x as int, y as int),
        well_formed(r),
{
    let particle_type = match ParticleTypes::from_repr(kind as usize) {
        Some(t) => t,
        None => ParticleTypes::Red,
    };
    Particle {
        particle_type,
        position: Vector { x: x as i64 * UNIT, y: y as i64 * UNIT },
        velocity: Vector { x: 0, y: 0 },
    }
}

/// `count` particles at rest, each of a random kind at a random whole-unit
/// position inside the world.
pub fn random_population(count: usize) -> (r: Vec<Particle>)
    ensures
        r@.len() == count,
        population_well_formed(r@),
        forall|i: int| 0 <= i < count ==> freshly_seeded(#[trigger] r@[i]),
{
    let mut particles: Vec<Particle> = Vec::new();
    let mut i: usize = 0;
    while i < count
        invariant
            i <= count,
            particles@.len() == i,
            population_well_formed(particles@),
            forall|k: int| 0 <= k < i ==> freshly_seeded(#[trigger] particles@[k]),
        decreases count - i,
    {
        let kind = random_below(PARTICLE_TYPE_COUNT as u64);
        let x = random_below(800);
        let y = random_below(600);
        let p = seed_particle(kind, x, y);
        particles.push(p);
        proof {
            assert(seeded(particles@[i as int], kind as nat, x as int, y as int));
            assert(freshly_seeded(particles@[i as int]));
        }
        i = i + 1;
    }
    particles
}

} // verus!
