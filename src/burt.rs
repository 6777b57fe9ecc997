//! A single Gaussian guesser: its identity, its distribution parameters and
//! its last guess and score.
use vstd::prelude::*;

use crate::random::{fair_coin, uniform_below};
use crate::text::{shown, shown_string};
use crate::UNIT;

verus! {

/// How far `guess` lies from `target`.
pub open spec fn distance(target: u32, guess: u32) -> u32 {
    if target >= guess {
        (target - guess) as u32
    } else {
        (guess - target) as u32
    }
}

/// `x` brought into `[0, hi]`.
pub open spec fn clamp(x: int, hi: int) -> int {
    if x < 0 {
        0
    } else if x > hi {
        hi
    } else {
        x
    }
}

/// `v` moved up or down by `step`, then brought into `[0, hi]`.
pub open spec fn shifted(v: u64, step: u64, up: bool, hi: u64) -> u64 {
    if up {
        clamp(v + step, hi as int) as u64
    } else {
        clamp(v - step, hi as int) as u64
    }
}

/// The largest mean or standard deviation allowed under `range`, in
/// millionths.
pub open spec fn param_limit(range: u32) -> u64 {
    (range * UNIT) as u64
}

/// The exclusive bound of one mutation step under `range` and
/// `mutation_rate` (parts per million), in millionths: `range * rate`.
pub open spec fn step_bound(range: u32, mutation_rate: u32) -> u64 {
    (range * mutation_rate) as u64
}

/// `b` with its mean and standard deviation each moved by its own step, up
/// or down, and brought back into `[0, range]`.
pub open spec fn mutation_of(b: Burt, mu_step: u64, mu_up: bool, sigma_step: u64, sigma_up: bool, range: u32) -> Burt {
    Burt {
        mu: shifted(b.mu, mu_step, mu_up, param_limit(range)),
        sigma: shifted(b.sigma, sigma_step, sigma_up, param_limit(range)),
        ..b
    }
}

/// What becomes of one raw draw of the sampler.
#[derive(PartialEq, Eq, Structural, Clone, Copy, Debug)]
pub enum DrawOutcome {
    /// The draw is taken: this is the guess.
    Accept(u32),
    /// The draw lies above the range: draw again.
    Retry,
}

/// The number of raw draws after which the sampler gives up and answers the
/// top of the range.
pub const MAX_DRAWS: u32 = 1000;

/// The guess that an accepted draw (in millionths) stands for: its integer
/// part, or 0 for a negative draw.
pub open spec fn guess_of(draw: i64) -> u32 {
    if draw < 0 {
        0
    } else {
        (draw as int / UNIT as int) as u32
    }
}

/// What the sampler makes of the raw draw number `attempt` (from 0).
pub open spec fn draw_outcome(draw: i64, range: u32, attempt: u32) -> DrawOutcome {
    if draw <= range * UNIT {
        DrawOutcome::Accept(guess_of(draw))
    } else if attempt + 1 < MAX_DRAWS {
        DrawOutcome::Retry
    } else {
        DrawOutcome::Accept(range)
    }
}

/// The sampler's decision on one raw Gaussian draw, given in millionths:
/// a draw at most `range` is taken and truncated to a guess (negative draws
/// give 0); a larger one is drawn again, until `MAX_DRAWS` draws have been
/// made, when the guess falls back to `range` itself.
pub fn judge_draw(draw: i64, range: u32, attempt: u32) -> (r: DrawOutcome)
    ensures
        r == draw_outcome(draw, range, attempt),
{
    let limit: i64 = range as i64 * 1_000_000;
    if draw <= limit {
        if draw < 0 {
            DrawOutcome::Accept(0)
        } else {
            let g: i64 = draw / 1_000_000;
            assert(g <= range) by (nonlinear_arith)
                requires
                    g == draw / 1_000_000,
                    0 <= draw <= range * 1_000_000,
            ;
            DrawOutcome::Accept(g as u32)
        }
    } else if attempt < MAX_DRAWS - 1 {
        DrawOutcome::Retry
    } else {
        DrawOutcome::Accept(range)
    }
}

/// How far `guess` lies from `target`.
pub fn distance_from(target: u32, guess: u32) -> (r: u32)
    ensures
        r == distance(target, guess),
{
    if target >= guess {
        target - guess
    } else {
        guess - target
    }
}

/// One guesser. `mu` and `sigma` are the mean and standard deviation of its
/// Gaussian, in millionths; `guess` and `score` are both absent before its
/// first evaluation and both present after.
#[derive(Clone, Copy, Debug)]
pub struct Burt {
    pub id: u32,
    pub score: Option<u32>,
    pub guess: Option<u32>,
    pub mu: u64,
    pub sigma: u64,
}

impl Burt {
    /// A fresh guesser whose mean and standard deviation are drawn uniformly
    /// from `[0, range)`.
    pub fn new(id: u32, range: u32, rng: &mut rand::rngs::StdRng) -> (r: Burt)
        requires
            range > 0,
        ensures
            r.id == id,
            r.score.is_none(),
            r.guess.is_none(),
            r.mu < param_limit(range),
            r.sigma < param_limit(range),
    {
        let limit = range as u64 * UNIT;
        let mu = uniform_below(rng, limit);
        let sigma = uniform_below(rng, limit);
        Burt { id, score: None, guess: None, mu, sigma }
    }

    pub fn get_id(&self) -> (r: u32)
        ensures
            r == self.id,
    {
        self.id
    }

    /// The mean, in millionths.
    pub fn get_mu(&self) -> (r: u64)
        ensures
            r == self.mu,
    {
        self.mu
    }

    /// The standard deviation, in millionths.
    pub fn get_sigma(&self) -> (r: u64)
        ensures
            r == self.sigma,
    {
        self.sigma
    }

    pub fn get_score(&self) -> (r: Option<u32>)
        ensures
            r == self.score,
    {
        self.score
    }

    pub fn get_guess(&self) -> (r: Option<u32>)
        ensures
            r == self.guess,
    {
        self.guess
    }

    /// The last score in decimal, or `?` before the first evaluation.
    pub fn get_score_display(&self) -> (r: String)
        ensures
            r@ == shown(self.score),
    {
        shown_string(self.score)
    }

    /// The last guess in decimal, or `?` before the first evaluation.
    pub fn get_guess_display(&self) -> (r: String)
        ensures
            r@ == shown(self.guess),
    {
        shown_string(self.guess)
    }

    /// Records an evaluation: the guess that the sampler produced, and its
    /// score, the distance to `target`. Returns both.
    pub fn training_think(&mut self, target: u32, guess: u32) -> (r: (u32, u32))
        ensures
            r == (guess, distance(target, guess)),
            *final(self) == (Burt { guess: Some(guess), score: Some(r.1), ..*old(self) }),
    {
        let score = distance_from(target, guess);
        self.score = Some(score);
        self.guess = Some(guess);
        (guess, score)
    }

    /// Takes over a teacher's mean and standard deviation.
    pub fn reeducate(&mut self, mu: u64, sigma: u64)
        ensures
            *final(self) == (Burt { mu, sigma, ..*old(self) }),
    {
        self.mu = mu;
        self.sigma = sigma;
    }

    /// Moves the mean and standard deviation halfway toward a teacher's
    /// (rounding down).
    pub fn reeducate_average(&mut self, mu: u64, sigma: u64)
        ensures
            final(self).mu == (old(self).mu + mu) / 2,
            final(self).sigma == (old(self).sigma + sigma) / 2,
            *final(self) == (Burt { mu: final(self).mu, sigma: final(self).sigma, ..*old(self) }),
    {
        self.mu = (self.mu / 2 + mu / 2) + (self.mu % 2 + mu % 2) / 2;
        self.sigma = (self.sigma / 2 + sigma / 2) + (self.sigma % 2 + sigma % 2) / 2;
    }

    /// Moves the mean and the standard deviation each by its own step, up or
    /// down, and brings each back into `[0, range]`.
    pub fn apply_mutation(&mut self, mu_step: u64, mu_up: bool, sigma_step: u64, sigma_up: bool, range: u32)
        ensures
            *final(self) == mutation_of(*old(self), mu_step, mu_up, sigma_step, sigma_up, range),
    {
        let hi = range as u64 * UNIT;
        self.mu = shift(self.mu, mu_step, mu_up, hi);
        self.sigma = shift(self.sigma, sigma_step, sigma_up, hi);
    }

    /// Perturbs the mean and the standard deviation by independent steps
    /// drawn from `[0, range * mutation_rate)`, each added or subtracted on a
    /// fair coin, then brought back into `[0, range]`.
    pub fn mutate(&mut self, mutation_rate: u32, range: u32, rng: &mut rand::rngs::StdRng)
        requires
            range > 0,
            mutation_rate > 0,
        ensures
            exists|mu_step: u64, mu_up: bool, sigma_step: u64, sigma_up: bool|
                mu_step < step_bound(range, mutation_rate) && sigma_step < step_bound(range, mutation_rate)
                    && *final(self) == #[trigger] mutation_of(*old(self), mu_step, mu_up, sigma_step, sigma_up, range),
    {
        assert(range * mutation_rate <= u32::MAX * u32::MAX) by (nonlinear_arith)
            requires
                range <= u32::MAX,
                mutation_rate <= u32::MAX,
        ;
        let bound = range as u64 * mutation_rate as u64;
        assert(bound > 0) by (nonlinear_arith)
            requires
                bound == range * mutation_rate,
                range > 0,
                mutation_rate > 0,
        ;
        let mu_step = uniform_below(rng, bound);
        let mu_up = fair_coin(rng);
        let sigma_step = uniform_below(rng, bound);
        let sigma_up = fair_coin(rng);
        self.apply_mutation(mu_step, mu_up, sigma_step, sigma_up, range);
    }
}

/// `v` moved by `step` and brought into `[0, hi]`.
fn shift(v: u64, step: u64, up: bool, hi: u64) -> (r: u64)
    ensures
        r == shifted(v, step, up, hi),
{
    if up {
        if v > hi || step > hi - v {
            hi
        } else {
            v + step
        }
    } else if step >= v {
        0
    } else if v - step > hi {
        hi
    } else {
        v - step
    }
}

} // verus!
