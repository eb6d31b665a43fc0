use vstd::prelude::*;
use crate::math::{
    abs, clipped_interpolate, clipped_interpolation, div_toward_zero, div_trunc, int_sqrt, isqrt,
    lemma_clipped_interpolation_in_range, lemma_div_toward_zero_bound, lemma_int_sqrt_covers,
    max,
};

verus! {

/// Fixed-point scale: one unit of length, time, speed or force is `UNIT` raw steps.
pub const UNIT: i64 = 65536;

/// Floor on the distance between two particles, a tenth of a unit.
pub const MIN_DISTANCE: i64 = 6554;

/// Repulsion at distance zero: two units of force.
pub const MAX_REPULSION_FORCE: i64 = 131072;

/// Radius of the repulsion zone, ten and a hundredth units.
pub const R_REPULSION: i64 = 656015;

/// Radius of the interaction zone, two hundred and a tenth units.
pub const R_INTERACTION: i64 = 13113754;

/// Largest magnitude of one component of the force between two particles.
pub const FORCE_LIMIT: i64 = 196608;

/// Width of the world, eight hundred units.
pub const WORLD_WIDTH: i64 = 52428800;

/// Height of the world, six hundred units.
pub const WORLD_HEIGHT: i64 = 39321600;

/// A two-dimensional vector in fixed point.
#[derive(Clone, Copy, Debug, PartialEq, Eq, Structural)]
pub struct Vector {
    pub x: i64,
    pub y: i64,
}

/// The kinds of particle.
#[derive(Clone, Copy, Debug, PartialEq, Eq, Structural)]
pub enum ParticleTypes {
    Red,
    Green,
    Blue,
    YELLOW,
}

/// Number of particle kinds.
pub const PARTICLE_TYPE_COUNT: usize = 4;

impl ParticleTypes {
    pub open spec fn ordinal(self) -> nat {
        match self {
            ParticleTypes::Red => 0,
            ParticleTypes::Green => 1,
            ParticleTypes::Blue => 2,
            ParticleTypes::YELLOW => 3,
        }
    }

    /// The kind with the given ordinal, if there is one.
    pub fn from_repr(n: usize) -> (r: Option<ParticleTypes>)
        ensures
            r.is_some() <==> n < PARTICLE_TYPE_COUNT,
            r.is_some() ==> r.unwrap().ordinal() == n,
    {
        if n == 0 {
            Some(ParticleTypes::Red)
        } else if n == 1 {
            Some(ParticleTypes::Green)
        } else if n == 2 {
            Some(ParticleTypes::Blue)
        } else if n == 3 {
            Some(ParticleTypes::YELLOW)
        } else {
            None
        }
    }

    /// The ordinal of this kind.
    pub fn index(&self) -> (r: usize)
        ensures
            r == self.ordinal(),
            r < PARTICLE_TYPE_COUNT,
    {
        match self {
            ParticleTypes::Red => 0,
            ParticleTypes::Green => 1,
            ParticleTypes::Blue => 2,
            ParticleTypes::YELLOW => 3,
        }
    }
}

/// How strongly a particle of kind `of` is drawn toward one of kind `to`
/// (negative: pushed away), in fixed point.
pub open spec fn coefficient(of: ParticleTypes, to: ParticleTypes) -> int {
    match (of, to) {
        (ParticleTypes::Red, ParticleTypes::Red) => 65536,
        (ParticleTypes::Red, ParticleTypes::Green) => 19661,
        (ParticleTypes::Green, ParticleTypes::Green) => 26214,
        (ParticleTypes::Green, ParticleTypes::Blue) => 19661,
        (ParticleTypes::Blue, ParticleTypes::Green) => -32768,
        (ParticleTypes::Blue, ParticleTypes::Blue) => 45875,
        (ParticleTypes::Blue, ParticleTypes::YELLOW) => 19661,
        (ParticleTypes::YELLOW, ParticleTypes::Red) => 19661,
        (ParticleTypes::YELLOW, ParticleTypes::YELLOW) => 65536,
        _ => 0,
    }
}

/// Fraction of its velocity that a particle of the kind loses each tick, in
/// fixed point: a half for every kind.
pub open spec fn damping_of(kind: ParticleTypes) -> int {
    32768
}

/// Signed size of the force that a particle at distance `dist` feels along
/// the direction toward the other particle: positive pulls it toward the
/// other, negative pushes it away. The interaction term follows the kinds'
/// coefficient; the repulsion term pushes apart whatever the kinds.
pub open spec fn force_magnitude(dist: int, coeff: int) -> int {
    clipped_interpolate(dist, R_INTERACTION as int, 0, 0, coeff)
        - clipped_interpolate(dist, R_REPULSION as int, 0, 0, MAX_REPULSION_FORCE as int)
}

/// The distance used by the force model: the integer length of `(dx, dy)`,
/// never below `MIN_DISTANCE`.
pub open spec fn floored_distance(dx: int, dy: int) -> int {
    max(int_sqrt((dx * dx + dy * dy) as nat) as int, MIN_DISTANCE as int)
}

/// One component of the force: the unit direction's component, scaled by the
/// magnitude.
pub open spec fn force_component(d: int, dist: int, magnitude: int) -> int {
    div_toward_zero(div_toward_zero(d * UNIT, dist) * magnitude, UNIT as int)
}

/// A particle of the simulation.
#[derive(Clone, Copy, Debug, PartialEq, Eq, Structural)]
pub struct Particle {
    pub particle_type: ParticleTypes,
    pub position: Vector,
    pub velocity: Vector,
}

impl Particle {
    /// The position lies inside the world.
    pub open spec fn in_world(self) -> bool {
        0 <= self.position.x < WORLD_WIDTH && 0 <= self.position.y < WORLD_HEIGHT
    }

    /// The force that `to` exerts on `self`, as its two components: the unit
    /// direction from `self` to `to`, scaled by `force_magnitude`.
    pub open spec fn force_from(self, to: Particle) -> (int, int) {
        let dx = to.position.x - self.position.x;
        let dy = to.position.y - self.position.y;
        let dist = floored_distance(dx, dy);
        let m = force_magnitude(dist, coefficient(self.particle_type, to.particle_type));
        (force_component(dx, dist, m), force_component(dy, dist, m))
    }

    /// The vector from `self` to `to`.
    pub fn distance(&self, to: &Particle) -> (r: Vector)
        requires
            self.in_world(),
            to.in_world(),
        ensures
            r.x == to.position.x - self.position.x,
            r.y == to.position.y - self.position.y,
    {
        Vector { x: to.position.x - self.position.x, y: to.position.y - self.position.y }
    }

    /// The fraction of its velocity that this particle loses each tick.
    pub fn damping(&self) -> (r: i64)
        ensures
            r == damping_of(self.particle_type),
            0 <= r < UNIT,
    {
        match self.particle_type {
            ParticleTypes::Red => 32768,
            ParticleTypes::Green => 32768,
            ParticleTypes::Blue => 32768,
            ParticleTypes::YELLOW => 32768,
        }
    }

    /// The interaction coefficient of this particle's kind toward `to`.
    pub fn force_coeff(&self, to: &ParticleTypes) -> (r: i64)
        ensures
            r == coefficient(self.particle_type, *to),
    {
        match (self.particle_type, *to) {
            (ParticleTypes::Red, ParticleTypes::Red) => 65536,
            (ParticleTypes::Red, ParticleTypes::Green) => 19661,
            (ParticleTypes::Green, ParticleTypes::Green) => 26214,
            (ParticleTypes::Green, ParticleTypes::Blue) => 19661,
            (ParticleTypes::Blue, ParticleTypes::Green) => -32768,
            (ParticleTypes::Blue, ParticleTypes::Blue) => 45875,
            (ParticleTypes::Blue, ParticleTypes::YELLOW) => 19661,
            (ParticleTypes::YELLOW, ParticleTypes::Red) => 19661,
            (ParticleTypes::YELLOW, ParticleTypes::YELLOW) => 65536,
            _ => 0,
        }
    }

    /// The force that `to` exerts on this particle.
    pub fn calc_force(&self, to: &Particle) -> (r: Vector)
        requires
            self.in_world(),
            to.in_world(),
        ensures
            (r.x as int, r.y as int) == self.force_from(*to),
    {
        let diff = self.distance(to);
        proof {
            assert(diff.x * diff.x <= 0x10_0000_0000_0000) by (nonlinear_arith)
                requires -0x400_0000 <= diff.x <= 0x400_0000;
            assert(diff.y * diff.y <= 0x10_0000_0000_0000) by (nonlinear_arith)
                requires -0x400_0000 <= diff.y <= 0x400_0000;
            assert(diff.x * diff.x >= 0 && diff.y * diff.y >= 0) by (nonlinear_arith);
        }
        let squared = (diff.x * diff.x + diff.y * diff.y) as u64;
        let root = isqrt(squared);
        proof {
            lemma_int_sqrt_covers(diff.x as int, diff.y as int);
            assert(int_sqrt(squared as nat) <= squared) by {
                if int_sqrt(squared as nat) > squared {
                    crate::math::lemma_int_sqrt_bounds(squared as nat);
                    assert(int_sqrt(squared as nat) * int_sqrt(squared as nat) > squared)
                        by (nonlinear_arith)
                        requires int_sqrt(squared as nat) > squared, squared >= 0;
                }
            }
        }
        let dist = if root as i64 > MIN_DISTANCE { root as i64 } else { MIN_DISTANCE };
        let repulsion = clipped_interpolation(dist, R_REPULSION, 0, 0, MAX_REPULSION_FORCE);
        let coeff = self.force_coeff(&to.particle_type);
        let interaction = clipped_interpolation(dist, R_INTERACTION, 0, 0, coeff);
        let magnitude = interaction - repulsion;
        let dir_x = div_trunc(diff.x * UNIT, dist);
        let dir_y = div_trunc(diff.y * UNIT, dist);
        proof {
            lemma_unit_direction(diff.x as int, diff.y as int, dist as int);
            lemma_unit_direction(diff.y as int, diff.x as int, dist as int);
            assert(diff.y * diff.y + diff.x * diff.x == diff.x * diff.x + diff.y * diff.y);
            assert(abs(dir_x * magnitude) <= UNIT * FORCE_LIMIT) by (nonlinear_arith)
                requires abs(dir_x as int) <= UNIT, abs(magnitude as int) <= FORCE_LIMIT;
            assert(abs(dir_y * magnitude) <= UNIT * FORCE_LIMIT) by (nonlinear_arith)
                requires abs(dir_y as int) <= UNIT, abs(magnitude as int) <= FORCE_LIMIT;
        }
        Vector { x: div_trunc(dir_x * magnitude, UNIT), y: div_trunc(dir_y * magnitude, UNIT) }
    }
}

/// A component of the unit direction, in fixed point, never exceeds one unit.
proof fn lemma_unit_direction(a: int, b: int, dist: int)
    requires
        dist == floored_distance(a, b),
    ensures
        abs(div_toward_zero(a * UNIT, dist)) <= UNIT,
{
    lemma_int_sqrt_covers(a, b);
    assert(abs(a * UNIT) <= UNIT * dist) by (nonlinear_arith)
        requires abs(a) <= dist;
    lemma_div_toward_zero_bound(a * UNIT, dist, UNIT as int);
}

/// The force between any two particles, coincident ones included, is bounded
/// in each component by `FORCE_LIMIT`; coincident particles exert none.
pub proof fn lemma_force_bounded(a: Particle, b: Particle)
    ensures
        abs(a.force_from(b).0) <= FORCE_LIMIT,
        abs(a.force_from(b).1) <= FORCE_LIMIT,
        a.position == b.position ==> a.force_from(b) == (0int, 0int),
{
    let dx = b.position.x - a.position.x;
    let dy = b.position.y - a.position.y;
    let dist = floored_distance(dx, dy);
    let c = coefficient(a.particle_type, b.particle_type);
    lemma_clipped_interpolation_in_range(dist, R_REPULSION as int, 0, 0, MAX_REPULSION_FORCE as int);
    lemma_clipped_interpolation_in_range(dist, R_INTERACTION as int, 0, 0, c);
    let m = force_magnitude(dist, c);
    assert(abs(m) <= FORCE_LIMIT);
    lemma_unit_direction(dx, dy, dist);
    assert(dy * dy + dx * dx == dx * dx + dy * dy);
    lemma_unit_direction(dy, dx, dist);
    let ux = div_toward_zero(dx * UNIT, dist);
    let uy = div_toward_zero(dy * UNIT, dist);
    assert(abs(ux * m) <= FORCE_LIMIT * UNIT) by (nonlinear_arith)
        requires abs(ux) <= UNIT, abs(m) <= FORCE_LIMIT;
    assert(abs(uy * m) <= FORCE_LIMIT * UNIT) by (nonlinear_arith)
        requires abs(uy) <= UNIT, abs(m) <= FORCE_LIMIT;
    lemma_div_toward_zero_bound(ux * m, UNIT as int, FORCE_LIMIT as int);
    lemma_div_toward_zero_bound(uy * m, UNIT as int, FORCE_LIMIT as int);
    if a.position == b.position {
        assert(dist > 0);
        assert(abs(0 * UNIT) / abs(dist) == 0);
        assert(0 * m == 0);
    }
}

/// The repulsion term never pulls: the force along the direction toward the
/// other particle is at most the interaction term, and between kinds with no
/// interaction it is never toward the other particle.
pub proof fn lemma_repulsion_pushes_apart(dist: int, coeff: int)
    ensures
        force_magnitude(dist, coeff) <= clipped_interpolate(dist, R_INTERACTION as int, 0, 0, coeff),
        coeff == 0 ==> force_magnitude(dist, coeff) <= 0,
{
    lemma_clipped_interpolation_in_range(dist, R_REPULSION as int, 0, 0, MAX_REPULSION_FORCE as int);
    lemma_clipped_interpolation_in_range(dist, R_INTERACTION as int, 0, 0, coeff);
}

} // verus!
