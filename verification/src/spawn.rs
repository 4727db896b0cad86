//! Population bookkeeping: how many particles enter per time slice.
//!
//! Particles enter at a fixed rate per second while the population is
//! below its capacity. Time advances in equal slices, a whole number of
//! them per second, so the credit that a slice leaves over is kept exactly:
//! it is a count of particles times slices-per-second, never a rounded
//! fraction. Particles are never removed, so the index of a particle is
//! also the order in which it entered.

use vstd::prelude::*;
use vstd::arithmetic::div_mod::{lemma_hoist_over_denominator, lemma_fundamental_div_mod, lemma_mod_multiples_vanish};
use crate::config::ConfigError;

verus! {

/// The abstract state of the bookkeeping.
pub struct SpawnerView {
    /// The most particles that may exist.
    pub capacity: nat,
    /// The particles that exist.
    pub population: nat,
    /// Particles that enter per second.
    pub rate: nat,
    /// Time slices per second.
    pub steps_per_second: nat,
    /// What earlier slices left over, in particles times `steps_per_second`.
    pub credit: nat,
}

impl SpawnerView {
    /// The credit is less than one particle and the population within its
    /// capacity.
    pub open spec fn wf(self) -> bool {
        &&& self.steps_per_second >= 1
        &&& self.credit < self.steps_per_second
        &&& self.population <= self.capacity
    }

    /// The whole particles that the credit holds once one more slice has
    /// been added to it.
    pub open spec fn matured(self) -> nat {
        (self.credit + self.rate) / self.steps_per_second
    }

    /// How many of `requested` particles there is room for.
    pub open spec fn granted(self, requested: nat) -> nat {
        if requested <= self.capacity - self.population {
            requested
        } else {
            (self.capacity - self.population) as nat
        }
    }

    /// The state after as many of `requested` particles entered as there
    /// is room for.
    pub open spec fn after_spawn(self, requested: nat) -> SpawnerView {
        SpawnerView { population: self.population + self.granted(requested), ..self }
    }

    /// The state after one time slice: the matured particles enter as far
    /// as there is room, and what is less than a particle stays as credit.
    pub open spec fn after_tick(self) -> SpawnerView {
        SpawnerView {
            credit: (self.credit + self.rate) % self.steps_per_second,
            ..self
        }.after_spawn(self.matured())
    }

    /// The state after `slices` time slices.
    pub open spec fn after_ticks(self, slices: nat) -> SpawnerView
        decreases slices,
    {
        if slices == 0 {
            self
        } else {
            self.after_ticks((slices - 1) as nat).after_tick()
        }
    }

    /// After any number of slices the population has grown by the whole
    /// particles in the elapsed time's worth of credit, or stands at the
    /// capacity if that is less, and the credit is the exact remainder.
    pub proof fn lemma_after_ticks(self, slices: nat)
        requires
            self.wf(),
        ensures
            self.after_ticks(slices).wf(),
            self.after_ticks(slices).capacity == self.capacity,
            self.after_ticks(slices).rate == self.rate,
            self.after_ticks(slices).steps_per_second == self.steps_per_second,
            self.after_ticks(slices).credit == (self.credit + slices * self.rate)
                % self.steps_per_second,
            self.after_ticks(slices).population == if self.population + (self.credit + slices
                * self.rate) / self.steps_per_second <= self.capacity {
                self.population + (self.credit + slices * self.rate) / self.steps_per_second
            } else {
                self.capacity
            },
        decreases slices,
    {
        let s = self.steps_per_second as int;
        if slices == 0 {
            vstd::arithmetic::div_mod::lemma_small_mod(self.credit, self.steps_per_second);
            vstd::arithmetic::div_mod::lemma_basic_div(self.credit as int, s);
        } else {
            self.lemma_after_ticks((slices - 1) as nat);
            let total = self.credit + (slices - 1) * self.rate;
            assert(total + self.rate == self.credit + slices * self.rate) by (nonlinear_arith)
                requires
                    total == self.credit + (slices - 1) * self.rate,
            ;
            assert(total >= 0) by (nonlinear_arith)
                requires
                    total == self.credit + (slices - 1) * self.rate,
                    slices >= 1,
            ;
            lemma_quotient_and_remainder_step(total, self.rate as int, s);
        }
    }

    /// Accumulation loses no particle: from a state without credit, and
    /// with room for all of them, `slices` time slices let in exactly the
    /// whole part of `slices * rate / steps_per_second` particles, however
    /// the rate divides the slices.
    pub proof fn lemma_accumulation_is_exact(self, slices: nat)
        requires
            self.wf(),
            self.credit == 0,
            self.population + (slices * self.rate) / self.steps_per_second <= self.capacity,
        ensures
            self.after_ticks(slices).population == self.population + (slices * self.rate)
                / self.steps_per_second,
    {
        self.lemma_after_ticks(slices);
    }

    /// The capacity caps the population: no request, however large, and no
    /// number of time slices, whatever the credit, takes the population
    /// beyond the capacity.
    pub proof fn lemma_population_is_capped(self, requested: nat, slices: nat)
        requires
            self.wf(),
        ensures
            self.after_spawn(requested).population <= self.capacity,
            self.after_ticks(slices).population <= self.capacity,
    {
        self.lemma_after_ticks(slices);
    }
}

/// Adding to a number splits into what its quotient and what its
/// remainder take up.
proof fn lemma_quotient_and_remainder_step(total: int, gain: int, d: int)
    requires
        d >= 1,
        total >= 0,
        gain >= 0,
    ensures
        (total + gain) / d == total / d + (total % d + gain) / d,
        (total + gain) % d == (total % d + gain) % d,
        total / d >= 0,
        (total % d + gain) / d >= 0,
{
    lemma_fundamental_div_mod(total, d);
    lemma_hoist_over_denominator(total % d + gain, total / d, d as nat);
    lemma_mod_multiples_vanish(total / d, total % d + gain, d);
    assert(total % d + gain + (total / d) * d == total + gain) by (nonlinear_arith)
        requires
            total == d * (total / d) + total % d,
    ;
    vstd::arithmetic::div_mod::lemma_div_pos_is_pos(total, d);
    vstd::arithmetic::div_mod::lemma_mod_bound(total, d);
    vstd::arithmetic::div_mod::lemma_div_pos_is_pos(total % d + gain, d);
}

/// Decides how many particles enter in each time slice.
pub struct Spawner {
    capacity: usize,
    population: usize,
    rate: u64,
    steps_per_second: u64,
    credit: u64,
}

impl View for Spawner {
    type V = SpawnerView;

    closed spec fn view(&self) -> SpawnerView {
        SpawnerView {
            capacity: self.capacity as nat,
            population: self.population as nat,
            rate: self.rate as nat,
            steps_per_second: self.steps_per_second as nat,
            credit: self.credit as nat,
        }
    }
}

impl Spawner {
    /// The credit is less than one particle and the population within its
    /// capacity.
    pub open spec fn wf(&self) -> bool {
        self@.wf()
    }

    /// Bookkeeping for at most `capacity` particles that enter at `rate`
    /// per second, with time cut into `steps_per_second` slices per second.
    /// It starts empty and without credit.
    pub fn new(capacity: usize, rate: u64, steps_per_second: u64) -> (made: Result<
        Spawner,
        ConfigError,
    >)
        ensures
            match made {
                Ok(spawner) => {
                    &&& steps_per_second != 0
                    &&& spawner.wf()
                    &&& spawner@ == SpawnerView {
                        capacity: capacity as nat,
                        population: 0,
                        rate: rate as nat,
                        steps_per_second: steps_per_second as nat,
                        credit: 0,
                    }
                },
                Err(fault) => steps_per_second == 0 && fault == ConfigError::ZeroStepRate,
            },
    {
        if steps_per_second == 0 {
            return Err(ConfigError::ZeroStepRate);
        }
        Ok(Spawner { capacity, population: 0, rate, steps_per_second, credit: 0 })
    }

    /// The most particles that may exist.
    pub fn capacity(&self) -> (capacity: usize)
        ensures
            capacity == self@.capacity,
    {
        self.capacity
    }

    /// The particles that exist. The next particle to enter gets this
    /// number as its index.
    pub fn population(&self) -> (population: usize)
        ensures
            population == self@.population,
    {
        self.population
    }

    /// Lets `count` particles enter, as far as there is room, and returns
    /// how many entered. They take the indices from the old population on.
    /// At capacity nothing enters.
    pub fn spawn_particles(&mut self, count: usize) -> (entered: usize)
        requires
            old(self).wf(),
        ensures
            final(self).wf(),
            entered == old(self)@.granted(count as nat),
            final(self)@ == old(self)@.after_spawn(count as nat),
            final(self)@.population <= final(self)@.capacity,
    {
        let room: usize = self.capacity - self.population;
        let entered: usize = if count <= room {
            count
        } else {
            room
        };
        self.population = self.population + entered;
        entered
    }

    /// Advances one time slice: adds the slice's share of the rate to the
    /// credit, lets the whole particles in it enter as far as there is room,
    /// and returns how many entered.
    pub fn tick(&mut self) -> (entered: usize)
        requires
            old(self).wf(),
        ensures
            final(self).wf(),
            entered == old(self)@.granted(old(self)@.matured()),
            final(self)@ == old(self)@.after_tick(),
            final(self)@.population <= final(self)@.capacity,
    {
        let sum: u128 = self.credit as u128 + self.rate as u128;
        let slices: u128 = self.steps_per_second as u128;
        let matured: u128 = sum / slices;
        let left: u128 = sum % slices;
        self.credit = left as u64;
        let room: usize = self.capacity - self.population;
        let count: usize = if matured <= room as u128 {
            matured as usize
        } else {
            room
        };
        self.spawn_particles(count)
    }
}

} // verus!
