//! The noise field: a bank of seeded generators whose evaluations at one
//! point are averaged into one noise value.
//!
//! The generators are Perlin generators of the `noise` crate. This module
//! builds and seeds them, so that each carries the seed that the field
//! records for it, and averages what they return. An evaluation
//! enters as a fixed-point number: a whole number of steps of which
//! `SAMPLE_ONE` make up 1.

use vstd::prelude::*;
use noise::{Perlin, Seedable};
use std::time::{Duration, SystemTime, SystemTimeError};
use crate::shade::{NoiseValue, Ratio};

verus! {

/// The number of generators of a field that is seeded from the clock.
pub const SAMPLES: usize = 50;

/// The fixed-point number that stands for 1.
pub const SAMPLE_ONE: i64 = 0x10_0000_0000_0000;

/// The generator type of the `noise` crate, `noise::Perlin`. Of what a
/// value holds only the seed has a name, `generator_seed`.
#[verifier::external_type_specification]
#[verifier::external_body]
pub struct ExPerlin(noise::Perlin);

/// A point in time as `std::time::SystemTime` holds it. Nothing is known of
/// what a value holds.
#[verifier::external_type_specification]
#[verifier::external_body]
pub struct ExSystemTime(std::time::SystemTime);

/// The error of `std::time::SystemTime::elapsed`. Nothing is known of what
/// a value holds.
#[verifier::external_type_specification]
#[verifier::external_body]
pub struct ExSystemTimeError(std::time::SystemTimeError);

/// Calls `std::time::SystemTime::now`. Nothing is claimed of the time that
/// it returns.
#[verifier::external_body]
fn clock_now() -> SystemTime {
    SystemTime::now()
}

/// Calls `std::time::SystemTime::elapsed`. Nothing is claimed of the
/// result: the clock decides whether there is a duration, and which.
#[verifier::external_body]
fn clock_elapsed(start: &SystemTime) -> Result<Duration, SystemTimeError> {
    start.elapsed()
}

/// Calls `std::time::Duration::as_nanos`. Nothing is claimed of the number:
/// a duration is opaque here.
#[verifier::external_body]
fn duration_nanos(elapsed: &Duration) -> u128 {
    elapsed.as_nanos()
}

/// Calls `noise::Perlin::new`. Nothing is claimed of the generator.
#[verifier::external_body]
fn new_generator() -> Perlin {
    Perlin::new()
}

/// The seed that a generator carries: what `noise::Seedable::seed` returns
/// for it.
pub uninterp spec fn generator_seed(generator: Perlin) -> u32;

/// Calls `noise::Seedable::set_seed` on a Perlin generator. The generator
/// that comes back carries `seed`: the crate hands back the one it was
/// given where that carries `seed` already, and builds one with `seed`
/// where it does not.
#[verifier::external_body]
fn seeded(generator: Perlin, seed: u32) -> (made: Perlin)
    ensures
        generator_seed(made) == seed,
{
    generator.set_seed(seed)
}

/// Calls `noise::Seedable::seed` on a Perlin generator: the seed that the
/// generator carries.
#[verifier::external_body]
fn carried_seed(generator: &Perlin) -> (seed: u32)
    ensures
        seed == generator_seed(*generator),
{
    generator.seed()
}

/// The seed that belongs to a clock reading of `nanos` nanoseconds: a
/// quarter of the reading, cut to its lowest 32 bits.
pub open spec fn seed_of(nanos: u128) -> u32 {
    ((nanos / 4) % 0x1_0000_0000) as u32
}

/// The seed that belongs to a clock reading of `nanos` nanoseconds.
pub fn seed_from_nanos(nanos: u128) -> (seed: u32)
    ensures
        seed == seed_of(nanos),
{
    ((nanos / 4) % 0x1_0000_0000) as u32
}

/// The sum of a sequence of evaluations.
pub open spec fn total(evaluations: Seq<i64>) -> int
    decreases evaluations.len(),
{
    if evaluations.len() == 0 {
        0
    } else {
        total(evaluations.drop_last()) + evaluations.last()
    }
}

/// The arithmetic mean of a sequence of fixed-point evaluations, as an
/// exact fraction.
pub open spec fn mean_of(evaluations: Seq<i64>) -> Ratio {
    Ratio { numer: total(evaluations), denom: evaluations.len() * SAMPLE_ONE }
}

/// The sum of evaluations that lie between `-SAMPLE_ONE` and `SAMPLE_ONE`
/// lies between as many times the two: their mean lies between -1 and 1.
pub proof fn lemma_mean_within_range(evaluations: Seq<i64>)
    requires
        forall|i: int|
            0 <= i < evaluations.len() ==> -SAMPLE_ONE <= #[trigger] evaluations[i]
                <= SAMPLE_ONE,
    ensures
        -mean_of(evaluations).denom <= mean_of(evaluations).numer <= mean_of(evaluations).denom,
    decreases evaluations.len(),
{
    if evaluations.len() > 0 {
        lemma_mean_within_range(evaluations.drop_last());
        assert(evaluations.len() * SAMPLE_ONE == (evaluations.len() - 1) * SAMPLE_ONE + SAMPLE_ONE)
            by (nonlinear_arith);
    }
}

/// The system clock could not be read.
#[derive(Debug)]
pub struct ClockError {
    /// What the clock reported.
    pub source: SystemTimeError,
}

/// A bank of generators, each carrying its seed. There is at least one.
/// A field stands for the sequence of the seeds that its generators carry.
pub struct OurNoise {
    seeds: Vec<u32>,
    noise: Vec<Perlin>,
}

impl View for OurNoise {
    type V = Seq<u32>;

    /// The seeds of the generators, in their order.
    closed spec fn view(&self) -> Seq<u32> {
        self.seeds@
    }
}

impl OurNoise {
    #[verifier::type_invariant]
    spec fn one_generator_per_seed(self) -> bool {
        &&& self.seeds.len() >= 1
        &&& self.noise.len() == self.seeds.len()
        &&& forall|i: int|
            0 <= i < self.noise.len() ==> generator_seed(#[trigger] self.noise@[i])
                == self.seeds@[i]
    }

    /// A field of `SAMPLES` generators. Each is seeded from the time that
    /// has passed since the call began, read anew for each of them.
    pub fn new() -> (field: Result<OurNoise, ClockError>)
        ensures
            field matches Ok(f) ==> f@.len() == SAMPLES,
    {
        let now = clock_now();
        let mut readings: Vec<u128> = Vec::new();
        let mut i: usize = 0;
        while i < SAMPLES
            invariant
                i <= SAMPLES,
                readings.len() == i,
            decreases SAMPLES - i,
        {
            match clock_elapsed(&now) {
                Ok(elapsed) => {
                    readings.push(duration_nanos(&elapsed));
                },
                Err(source) => {
                    return Err(ClockError { source });
                },
            }
            i = i + 1;
        }
        let field = OurNoise::seeded_from(&readings);
        Ok(field.unwrap())
    }

    /// A field with one generator for each of `readings`, in their order:
    /// each is seeded with the seed that belongs to its clock reading.
    /// There is none without a reading.
    pub fn seeded_from(readings: &Vec<u128>) -> (field: Option<OurNoise>)
        ensures
            field.is_some() <==> readings.len() >= 1,
            field matches Some(f) ==> f@ == readings@.map_values(|nanos: u128| seed_of(nanos)),
    {
        let mut seeds: Vec<u32> = Vec::new();
        let mut i: usize = 0;
        while i < readings.len()
            invariant
                i <= readings.len(),
                seeds@ == readings@.take(i as int).map_values(|nanos: u128| seed_of(nanos)),
            decreases readings.len() - i,
        {
            seeds.push(seed_from_nanos(readings[i]));
            assert(readings@.take(i + 1) =~= readings@.take(i as int).push(readings@[i as int]));
            assert(seeds@ =~= readings@.take(i + 1).map_values(|nanos: u128| seed_of(nanos)));
            i = i + 1;
        }
        assert(readings@.take(i as int) =~= readings@);
        OurNoise::with_seeds(seeds)
    }

    /// A field with one generator for each of `seeds`, in their order.
    /// There is none without a generator.
    pub fn with_seeds(seeds: Vec<u32>) -> (field: Option<OurNoise>)
        ensures
            field.is_some() <==> seeds.len() >= 1,
            field matches Some(f) ==> f@ == seeds@,
    {
        if seeds.len() == 0 {
            return None;
        }
        let mut noise: Vec<Perlin> = Vec::new();
        let mut i: usize = 0;
        while i < seeds.len()
            invariant
                i <= seeds.len(),
                noise.len() == i,
                forall|k: int| 0 <= k < i ==> generator_seed(#[trigger] noise@[k]) == seeds@[k],
            decreases seeds.len() - i,
        {
            noise.push(seeded(new_generator(), seeds[i]));
            i = i + 1;
        }
        Some(OurNoise { seeds, noise })
    }

    /// The number of generators.
    pub fn len(&self) -> (n: usize)
        ensures
            n == self@.len(),
            n >= 1,
    {
        proof {
            use_type_invariant(self);
        }
        self.seeds.len()
    }

    /// The seed that generator `index` carries, read from the generator, if
    /// there is such a generator.
    pub fn seed(&self, index: usize) -> (seed: Option<u32>)
        ensures
            seed == if index < self@.len() {
                Some(self@[index as int])
            } else {
                None
            },
    {
        proof {
            use_type_invariant(self);
        }
        if index < self.noise.len() {
            Some(carried_seed(&self.noise[index]))
        } else {
            None
        }
    }

    /// Generator `index`, if there is such a generator. It carries seed
    /// `index` of the field.
    pub fn generator(&self, index: usize) -> (generator: Option<&Perlin>)
        ensures
            generator.is_some() <==> index < self@.len(),
            generator matches Some(g) ==> generator_seed(*g) == self@[index as int],
    {
        proof {
            use_type_invariant(self);
        }
        if index < self.noise.len() {
            Some(&self.noise[index])
        } else {
            None
        }
    }

    /// The noise value at a point: the mean of what the generators return
    /// there. `evaluations` holds one fixed-point evaluation for each
    /// generator; with any other number of them there is no value.
    pub fn at(&self, evaluations: &Vec<i64>) -> (mean: Option<NoiseValue>)
        ensures
            mean.is_some() <==> evaluations.len() == self@.len(),
            mean matches Some(value) ==> value@ == mean_of(evaluations@),
    {
        proof {
            use_type_invariant(self);
        }
        if evaluations.len() != self.seeds.len() {
            return None;
        }
        let mut sum: i128 = 0;
        let mut i: usize = 0;
        assert(evaluations@.take(0) =~= Seq::<i64>::empty());
        while i < evaluations.len()
            invariant
                i <= evaluations.len(),
                sum == total(evaluations@.take(i as int)),
                -0x8000_0000_0000_0000 * i <= sum <= 0x7fff_ffff_ffff_ffff * i,
            decreases evaluations.len() - i,
        {
            assert(evaluations@.take(i + 1).drop_last() =~= evaluations@.take(i as int));
            sum = sum + evaluations[i] as i128;
            i = i + 1;
        }
        assert(evaluations@.take(i as int) =~= evaluations@);
        let denom: i128 = evaluations.len() as i128 * SAMPLE_ONE as i128;
        NoiseValue::new(sum, denom)
    }
}

} // verus!
