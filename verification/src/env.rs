//! What the simulation takes from its surroundings: random draws and the
//! sine and cosine of an angle. Neither can be computed on integers alone,
//! so the caller supplies both. Nothing is assumed of a random draw; of a
//! sine and cosine only that the source gives the same for the same angle.
use crate::fixed::{clamp, clamped, is_unit, ONE};
use vstd::prelude::*;

verus! {

/// A source of random 64-bit values.
pub trait RandomSource {
    /// The next value. Any value is acceptable.
    fn next_raw(&mut self) -> u64;
}

/// A source of sines and cosines. A sine is a function of the angle
/// alone: what a source gives for an angle has a name, and contracts
/// speak of the sine and cosine by it. Nothing else is assumed of the
/// values. A source outside verified code writes `sine_of` and
/// `cosine_of` as ordinary functions, and `sin_cos` so that it returns
/// what they return.
pub trait Trig {
    /// The sine that the source gives for an angle in microradians, in
    /// millionths.
    spec fn sine_of(&self, angle: i64) -> i64;

    /// The cosine that the source gives for an angle in microradians, in
    /// millionths.
    spec fn cosine_of(&self, angle: i64) -> i64;

    /// `(sin, cos)` of an angle in microradians, each in millionths. Values
    /// outside `[-ONE, ONE]` are limited to it by the caller.
    fn sin_cos(&self, angle: i64) -> (pair: (i64, i64))
        ensures
            pair.0 == self.sine_of(angle),
            pair.1 == self.cosine_of(angle),
    ;
}

/// The direction that a source gives for an angle: its sine and cosine,
/// each limited to `[-ONE, ONE]`.
pub closed spec fn heading_of<T: Trig>(trig: &T, angle: i64) -> Direction {
    Direction {
        sin: clamped(trig.sine_of(angle) as int, -ONE as int, ONE as int) as i64,
        cos: clamped(trig.cosine_of(angle) as int, -ONE as int, ONE as int) as i64,
    }
}

/// The sine and cosine of the direction that a source gives for an angle.
pub proof fn lemma_heading_of<T: Trig>(trig: &T, angle: i64)
    ensures
        heading_of(trig, angle).sine() == clamped(trig.sine_of(angle) as int, -ONE as int, ONE as int),
        heading_of(trig, angle).cosine() == clamped(
            trig.cosine_of(angle) as int,
            -ONE as int,
            ONE as int,
        ),
        is_unit(heading_of(trig, angle).sine()),
        is_unit(heading_of(trig, angle).cosine()),
{
}

/// A direction is its sine and cosine.
pub proof fn lemma_direction_is_its_components(a: Direction, b: Direction)
    requires
        a.sine() == b.sine(),
        a.cosine() == b.cosine(),
    ensures
        a == b,
{
}

/// How many values a raw draw is folded onto: the scalars from -1.0 to 1.0.
pub const UNIT_STEPS: u64 = 2_000_001;

/// The scalar in `[-1.0, 1.0]` that a raw draw stands for.
pub open spec fn unit_from_raw(raw: u64) -> int {
    (raw % UNIT_STEPS) - ONE
}

/// The scalar in `[-1.0, 1.0]` that a raw draw stands for.
pub fn unit_of(raw: u64) -> (r: i64)
    ensures
        r == unit_from_raw(raw),
        is_unit(r as int),
{
    ((raw % UNIT_STEPS) as i64) - ONE
}

/// A random scalar in `[-1.0, 1.0]`.
pub fn random_unit<R: RandomSource>(rng: &mut R) -> (r: i64)
    ensures
        is_unit(r as int),
{
    let raw: u64 = rng.next_raw();
    unit_of(raw)
}

/// The sine and cosine of a heading, each between -1.0 and 1.0.
#[derive(Debug, Clone, Copy, PartialEq, Eq, Structural)]
pub struct Direction {
    sin: i64,
    cos: i64,
}

impl Direction {
    #[verifier::type_invariant]
    spec fn in_range(self) -> bool {
        is_unit(self.sin as int) && is_unit(self.cos as int)
    }

    /// The sine.
    pub closed spec fn sine(self) -> int {
        self.sin as int
    }

    /// The cosine.
    pub closed spec fn cosine(self) -> int {
        self.cos as int
    }

    /// The direction with the given sine and cosine, each limited to
    /// `[-ONE, ONE]`.
    pub fn new(sin: i64, cos: i64) -> (dir: Self)
        ensures
            dir.sine() == clamped(sin as int, -ONE as int, ONE as int),
            dir.cosine() == clamped(cos as int, -ONE as int, ONE as int),
    {
        Direction { sin: clamp(sin, -ONE, ONE), cos: clamp(cos, -ONE, ONE) }
    }

    /// Heading 0: straight up the road.
    pub fn up() -> (dir: Self)
        ensures
            dir.sine() == 0,
            dir.cosine() == ONE,
    {
        Direction { sin: 0, cos: ONE }
    }

    /// The direction of an angle, as the source gives it: the sine and
    /// the cosine that the source returns for the angle, each limited to
    /// `[-ONE, ONE]`.
    pub fn of<T: Trig>(trig: &T, angle: i64) -> (dir: Self)
        ensures
            dir == heading_of(trig, angle),
            dir.sine() == clamped(trig.sine_of(angle) as int, -ONE as int, ONE as int),
            dir.cosine() == clamped(trig.cosine_of(angle) as int, -ONE as int, ONE as int),
            is_unit(dir.sine()),
            is_unit(dir.cosine()),
    {
        let pair = trig.sin_cos(angle);
        Direction::new(pair.0, pair.1)
    }

    /// The sine, in millionths.
    pub fn sin(&self) -> (r: i64)
        ensures
            r == self.sine(),
            is_unit(r as int),
    {
        proof {
            use_type_invariant(self);
        }
        self.sin
    }

    /// The cosine, in millionths.
    pub fn cos(&self) -> (r: i64)
        ensures
            r == self.cosine(),
            is_unit(r as int),
    {
        proof {
            use_type_invariant(self);
        }
        self.cos
    }
}

/// A small seeded generator, for runs that must repeat: a 64-bit linear
/// congruential step, of which the upper half is handed out.
#[derive(Debug, Clone, Copy)]
pub struct Lcg {
    state: u64,
}

/// The multiplier of the generator's step.
pub const LCG_MULTIPLIER: u64 = 6364136223846793005;

/// The increment of the generator's step.
pub const LCG_INCREMENT: u64 = 1442695040888963407;

/// The state that follows `state`.
pub open spec fn lcg_step(state: u64) -> u64 {
    ((state * LCG_MULTIPLIER + LCG_INCREMENT) % 0x1_0000_0000_0000_0000) as u64
}

impl Lcg {
    /// The generator's state.
    pub closed spec fn state(&self) -> u64 {
        self.state
    }

    /// A generator started from `seed`.
    pub fn new(seed: u64) -> (rng: Self)
        ensures
            rng.state() == seed,
    {
        Lcg { state: seed }
    }

    /// Steps the generator and hands out the upper half of the new state.
    pub fn next(&mut self) -> (raw: u64)
        ensures
            final(self).state() == lcg_step(old(self).state()),
            raw == final(self).state() / 0x1_0000_0000,
    {
        assert((self.state as int) * (LCG_MULTIPLIER as int) <= 0xffff_ffff_ffff_ffff
            * 6364136223846793005) by (nonlinear_arith)
            requires
                0 <= self.state <= 0xffff_ffff_ffff_ffff,
                LCG_MULTIPLIER == 6364136223846793005,
        ;
        let wide: u128 = (self.state as u128) * (LCG_MULTIPLIER as u128) + (LCG_INCREMENT as u128);
        self.state = (wide % 0x1_0000_0000_0000_0000) as u64;
        self.state / 0x1_0000_0000
    }
}

impl RandomSource for Lcg {
    /// Steps the generator and hands out the upper half of the new state.
    fn next_raw(&mut self) -> (raw: u64)
        ensures
            final(self).state() == lcg_step(old(self).state()),
            raw == final(self).state() / 0x1_0000_0000,
    {
        self.next()
    }
}

} // verus!
