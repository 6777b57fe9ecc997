//! The population and its generation step: evaluate, rank, select teachers,
//! transfer parameters, mutate. Agents stay in their slots (slot `i` holds
//! the agent with id `i`); ranking works on a separate list of slots.
use vstd::prelude::*;

use crate::burt::{distance, mutation_of, param_limit, step_bound, Burt};
use crate::random::{fair_coin, uniform_below};
use crate::ranking::{is_ranking, lemma_push_contains, lemma_ranking_unique, rank, ranking_of};
use crate::text::{shown, shown_string};
use crate::RATE_ONE;

verus! {

/// Which agents learn from the top of the ranking each generation.
#[derive(PartialEq, Eq, Structural, Clone, Copy, Debug)]
pub enum Policy {
    /// Everyone below the survivors learns and mutates; survivors are left
    /// alone.
    Baseline,
    /// Everyone with a nonzero score learns; mutation stops once all but one
    /// agent score zero; agents scoring zero are left alone.
    Sticky,
}

/// The random choices that one generation may make for one slot: which of
/// the top-ranked agents teaches it, and the two mutation steps.
#[derive(Clone, Copy, Debug)]
pub struct TrainingDraw {
    /// Position of the teacher in the ranking, among the first
    /// `survivor_count` positions.
    pub pick: u64,
    pub mu_step: u64,
    pub mu_up: bool,
    pub sigma_step: u64,
    pub sigma_up: bool,
}

/// Why a configuration is refused.
#[derive(PartialEq, Eq, Structural, Clone, Copy, Debug)]
pub enum ConfigError {
    EmptyPopulation,
    ZeroRange,
    SurvivalRateOutOfRange,
    MutationRateOutOfRange,
    /// The agent in some slot `i` does not have id `i`.
    MisnumberedBurt,
}

/// An index past the last agent.
#[derive(PartialEq, Eq, Structural, Clone, Copy, Debug)]
pub struct IndexOutOfRange {
    pub index: usize,
    pub len: usize,
}

/// A rate strictly between 0 and 1 (in parts per million).
pub open spec fn rate_ok(rate: u32) -> bool {
    0 < rate < RATE_ONE
}

/// The first problem of a configuration, if any, in the order checked.
pub open spec fn config_problem(n: nat, range: u32, survival_rate: u32, mutation_rate: u32) -> Option<ConfigError> {
    if n == 0 {
        Some(ConfigError::EmptyPopulation)
    } else if range == 0 {
        Some(ConfigError::ZeroRange)
    } else if !rate_ok(survival_rate) {
        Some(ConfigError::SurvivalRateOutOfRange)
    } else if !rate_ok(mutation_rate) {
        Some(ConfigError::MutationRateOutOfRange)
    } else {
        None
    }
}

/// Slot `i` holds the agent with id `i`.
pub open spec fn slots_numbered(burts: Seq<Burt>) -> bool {
    forall|i: int| 0 <= i < burts.len() ==> #[trigger] burts[i].id == i
}

/// How many of `n` ranked agents survive, or teach, at `survival_rate`
/// (parts per million): `n * rate` rounded down, but at least one.
pub open spec fn survivor_count(n: nat, survival_rate: u32) -> nat {
    let k = n * (survival_rate as nat) / (RATE_ONE as nat);
    if k < 1 {
        1
    } else {
        k
    }
}

/// The sum of a list of counts.
pub open spec fn sum_of(s: Seq<u32>) -> nat
    decreases s.len(),
{
    if s.len() == 0 {
        0
    } else {
        sum_of(s.drop_last()) + s.last() as nat
    }
}

/// The number of zero scores: the perfect agents, which lead the ranking.
pub open spec fn perfect_count(scores: Seq<u32>) -> nat
    decreases scores.len(),
{
    if scores.len() == 0 {
        0
    } else {
        perfect_count(scores.drop_last()) + if scores.last() == 0 {
            1nat
        } else {
            0nat
        }
    }
}

/// The score of each guess.
pub open spec fn score_list(guesses: Seq<u32>, target: u32) -> Seq<u32> {
    Seq::new(guesses.len(), |i: int| distance(target, guesses[i]))
}

/// The agents with their new guesses and scores recorded.
pub open spec fn scored(burts: Seq<Burt>, guesses: Seq<u32>, target: u32) -> Seq<Burt> {
    Seq::new(
        burts.len(),
        |i: int| Burt { guess: Some(guesses[i]), score: Some(distance(target, guesses[i])), ..burts[i] },
    )
}

/// Slot `s` learns this generation.
pub open spec fn is_learner(policy: Policy, scores: Seq<u32>, ranked: Seq<usize>, pool: nat, s: int) -> bool {
    match policy {
        Policy::Baseline => !ranked.take(pool as int).contains(s as usize),
        Policy::Sticky => scores[s] != 0,
    }
}

/// Learners are mutated this generation: always under the baseline policy;
/// under the sticky one unless all but one agent score zero.
pub open spec fn mutates(policy: Policy, scores: Seq<u32>) -> bool {
    !(policy == Policy::Sticky && perfect_count(scores) + 1 == scores.len())
}

/// `b` with its teacher's mean and standard deviation.
pub open spec fn taught(b: Burt, teacher: Burt) -> Burt {
    Burt { mu: teacher.mu, sigma: teacher.sigma, ..b }
}

/// A learner after transfer from `teacher` and, if `mutate`, mutation by `d`.
pub open spec fn trained(b: Burt, teacher: Burt, d: TrainingDraw, mutate: bool, range: u32) -> Burt {
    if mutate {
        mutation_of(taught(b, teacher), d.mu_step, d.mu_up, d.sigma_step, d.sigma_up, range)
    } else {
        taught(b, teacher)
    }
}

/// The teacher that slot `s` draws: the agent ranked at position `pick`.
pub open spec fn teacher_of(scored: Seq<Burt>, ranked: Seq<usize>, d: TrainingDraw) -> Burt {
    scored[ranked[d.pick as int] as int]
}

/// The agents after selection, transfer and mutation, from the scored
/// agents, their ranking and the draws of each slot. Teachers are read as
/// they stood before the transfer.
pub open spec fn next_burts(
    scored: Seq<Burt>,
    scores: Seq<u32>,
    ranked: Seq<usize>,
    pool: nat,
    policy: Policy,
    draws: Seq<TrainingDraw>,
    range: u32,
) -> Seq<Burt> {
    Seq::new(
        scored.len(),
        |s: int|
            if is_learner(policy, scores, ranked, pool, s) {
                trained(
                    scored[s],
                    teacher_of(scored, ranked, draws[s]),
                    draws[s],
                    mutates(policy, scores),
                    range,
                )
            } else {
                scored[s]
            },
    )
}

/// The agents after one generation: evaluated by `guesses`, ranked, and
/// trained under `policy` with the draws of each slot.
pub open spec fn generation_result(
    burts: Seq<Burt>,
    guesses: Seq<u32>,
    target: u32,
    range: u32,
    survival_rate: u32,
    policy: Policy,
    draws: Seq<TrainingDraw>,
) -> Seq<Burt> {
    let scores = score_list(guesses, target);
    next_burts(
        scored(burts, guesses, target),
        scores,
        ranking_of(scores),
        survivor_count(burts.len(), survival_rate),
        policy,
        draws,
        range,
    )
}

/// Draws usable by a generation of `n` agents: one per slot, teachers among
/// the first `pool` ranked, steps below `bound`.
pub open spec fn draws_valid(draws: Seq<TrainingDraw>, n: nat, pool: nat, bound: u64) -> bool {
    &&& draws.len() == n
    &&& forall|i: int|
        0 <= i < n ==> (#[trigger] draws[i]).pick < pool && draws[i].mu_step < bound
            && draws[i].sigma_step < bound
}

/// The population: agents in slots by id, and the configuration.
/// `survival_rate` and `mutation_rate` are in parts per million.
pub struct BurtGang {
    burts: Vec<Burt>,
    range: u32,
    target: u32,
    generations: u32,
    current_generation: u32,
    survival_rate: u32,
    mutation_rate: u32,
    average_guess: Option<u32>,
    average_score: Option<u32>,
}

fn survivors(n: usize, survival_rate: u32) -> (r: usize)
    requires
        1 <= n <= u32::MAX as nat + 1,
        rate_ok(survival_rate),
    ensures
        r == survivor_count(n as nat, survival_rate),
        1 <= r <= n,
{
    proof {
        assert(n * survival_rate <= n * RATE_ONE) by (nonlinear_arith)
            requires
                survival_rate < RATE_ONE,
                n >= 1,
        ;
        assert(n * survival_rate / RATE_ONE as int <= n) by (nonlinear_arith)
            requires
                n * survival_rate <= n * RATE_ONE,
                0 <= n * survival_rate,
        ;
    }
    let k: u64 = n as u64 * survival_rate as u64 / RATE_ONE as u64;
    if k < 1 {
        1
    } else {
        k as usize
    }
}

fn draw_training(rng: &mut rand::rngs::StdRng, n: usize, pool: u64, bound: u64) -> (r: Vec<TrainingDraw>)
    requires
        pool > 0,
        bound > 0,
    ensures
        draws_valid(r@, n as nat, pool as nat, bound),
{
    let mut r: Vec<TrainingDraw> = Vec::new();
    let mut i: usize = 0;
    while i < n
        invariant
            i <= n,
            pool > 0,
            bound > 0,
            r.len() == i,
            forall|k: int|
                0 <= k < i ==> (#[trigger] r@[k]).pick < pool && r@[k].mu_step < bound
                    && r@[k].sigma_step < bound,
        decreases n - i,
    {
        let pick = uniform_below(rng, pool);
        let mu_step = uniform_below(rng, bound);
        let mu_up = fair_coin(rng);
        let sigma_step = uniform_below(rng, bound);
        let sigma_up = fair_coin(rng);
        r.push(TrainingDraw { pick, mu_step, mu_up, sigma_step, sigma_up });
        i = i + 1;
    }
    r
}

/// What a population holds, as the contracts speak of it.
pub struct GangView {
    pub burts: Seq<Burt>,
    pub range: u32,
    pub target: u32,
    pub generations: u32,
    pub current_generation: u32,
    pub survival_rate: u32,
    pub mutation_rate: u32,
    pub average_guess: Option<u32>,
    pub average_score: Option<u32>,
}

impl GangView {
    /// Agents in slots by id, at least one, and a valid configuration.
    pub open spec fn wf(self) -> bool {
        &&& 1 <= self.burts.len() <= u32::MAX as nat + 1
        &&& slots_numbered(self.burts)
        &&& config_problem(self.burts.len(), self.range, self.survival_rate, self.mutation_rate) is None
    }
}

impl View for BurtGang {
    type V = GangView;

    closed spec fn view(&self) -> GangView {
        GangView {
            burts: self.burts@,
            range: self.range,
            target: self.target,
            generations: self.generations,
            current_generation: self.current_generation,
            survival_rate: self.survival_rate,
            mutation_rate: self.mutation_rate,
            average_guess: self.average_guess,
            average_score: self.average_score,
        }
    }
}

impl BurtGang {
    /// The population is usable (see `GangView::wf`).
    pub open spec fn wf(&self) -> bool {
        self@.wf()
    }
}


/// The first problem of a population and configuration, if any: the
/// configuration's, then the numbering of the slots.
pub open spec fn gang_problem(
    burts: Seq<Burt>,
    range: u32,
    survival_rate: u32,
    mutation_rate: u32,
) -> Option<ConfigError> {
    match config_problem(burts.len(), range, survival_rate, mutation_rate) {
        Some(e) => Some(e),
        None => if slots_numbered(burts) {
            None
        } else {
            Some(ConfigError::MisnumberedBurt)
        },
    }
}

fn check_config(n: usize, range: u32, survival_rate: u32, mutation_rate: u32) -> (r: Option<ConfigError>)
    ensures
        r == config_problem(n as nat, range, survival_rate, mutation_rate),
{
    if n == 0 {
        Some(ConfigError::EmptyPopulation)
    } else if range == 0 {
        Some(ConfigError::ZeroRange)
    } else if survival_rate == 0 || survival_rate >= RATE_ONE {
        Some(ConfigError::SurvivalRateOutOfRange)
    } else if mutation_rate == 0 || mutation_rate >= RATE_ONE {
        Some(ConfigError::MutationRateOutOfRange)
    } else {
        None
    }
}

/// `burt_count` fresh agents with ids `0, 1, ...` in matching slots, each
/// with mean and standard deviation drawn uniformly from `[0, range)`.
pub fn populate_burts(burt_count: u32, range: u32, rng: &mut rand::rngs::StdRng) -> (r: Vec<Burt>)
    requires
        range > 0,
    ensures
        r.len() == burt_count,
        slots_numbered(r@),
        forall|i: int|
            0 <= i < r.len() ==> (#[trigger] r@[i]).mu < param_limit(range) && r@[i].sigma < param_limit(
                range,
            ) && r@[i].guess is None && r@[i].score is None,
{
    let mut r: Vec<Burt> = Vec::new();
    let mut x: u32 = 0;
    while x < burt_count
        invariant
            x <= burt_count,
            range > 0,
            r.len() == x,
            slots_numbered(r@),
            forall|i: int|
                0 <= i < r.len() ==> (#[trigger] r@[i]).mu < param_limit(range) && r@[i].sigma
                    < param_limit(range) && r@[i].guess is None && r@[i].score is None,
        decreases burt_count - x,
    {
        r.push(Burt::new(x, range, rng));
        x = x + 1;
    }
    r
}

impl BurtGang {
    /// A population from agents already made, with its configuration; the
    /// generation counter starts at 0 and the averages are unknown. Refused
    /// with the first problem that `gang_problem` finds.
    pub fn new(
        burts: Vec<Burt>,
        range: u32,
        target: u32,
        generations: u32,
        survival_rate: u32,
        mutation_rate: u32,
    ) -> (r: Result<BurtGang, ConfigError>)
        ensures
            r is Err <==> gang_problem(burts@, range, survival_rate, mutation_rate) is Some,
            r matches Err(e) ==> gang_problem(burts@, range, survival_rate, mutation_rate) == Some(e),
            r matches Ok(g) ==> g.wf() && g@.burts == burts@ && g@.range == range && g@.target == target
                && g@.generations == generations && g@.survival_rate == survival_rate
                && g@.mutation_rate == mutation_rate && g@.current_generation == 0
                && g@.average_guess is None && g@.average_score is None,
    {
        if let Some(e) = check_config(burts.len(), range, survival_rate, mutation_rate) {
            return Err(e);
        }
        let mut i: usize = 0;
        while i < burts.len()
            invariant
                i <= burts.len(),
                config_problem(burts@.len(), range, survival_rate, mutation_rate) is None,
                forall|k: int| 0 <= k < i ==> #[trigger] burts@[k].id == k,
            decreases burts.len() - i,
        {
            if burts[i].id as usize != i {
                assert(burts@[i as int].id != i as int);
                return Err(ConfigError::MisnumberedBurt);
            }
            i = i + 1;
        }
        assert(burts@[burts.len() - 1].id == burts.len() - 1);
        Ok(BurtGang {
            burts,
            range,
            target,
            generations,
            current_generation: 0,
            survival_rate,
            mutation_rate,
            average_guess: None,
            average_score: None,
        })
    }

    /// A fresh population of `population_size` agents (see `populate_burts`)
    /// with its configuration; refused with the first problem that
    /// `config_problem` finds.
    pub fn construct(
        population_size: u32,
        range: u32,
        target: u32,
        generations: u32,
        survival_rate: u32,
        mutation_rate: u32,
        rng: &mut rand::rngs::StdRng,
    ) -> (r: Result<BurtGang, ConfigError>)
        ensures
            r is Err <==> config_problem(population_size as nat, range, survival_rate, mutation_rate) is Some,
            r matches Err(e) ==> config_problem(population_size as nat, range, survival_rate, mutation_rate)
                == Some(e),
            r matches Ok(g) ==> g.wf() && g@.burts.len() == population_size && g@.range == range
                && g@.target == target && g@.generations == generations
                && g@.survival_rate == survival_rate && g@.mutation_rate == mutation_rate
                && g@.current_generation == 0 && g@.average_guess is None && g@.average_score is None
                && forall|i: int|
                0 <= i < g@.burts.len() ==> (#[trigger] g@.burts[i]).mu < param_limit(range)
                    && g@.burts[i].sigma < param_limit(range) && g@.burts[i].guess is None
                    && g@.burts[i].score is None,
    {
        if let Some(e) = check_config(population_size as usize, range, survival_rate, mutation_rate) {
            return Err(e);
        }
        let burts = populate_burts(population_size, range, rng);
        BurtGang::new(burts, range, target, generations, survival_rate, mutation_rate)
    }

    /// The number of agents.
    pub fn len(&self) -> (r: usize)
        ensures
            r == self@.burts.len(),
    {
        self.burts.len()
    }

    /// The agent in slot `x`, which has id `x`.
    pub fn get(&self, x: usize) -> (r: Result<&Burt, IndexOutOfRange>)
        ensures
            r matches Ok(b) ==> x < self@.burts.len() && *b == self@.burts[x as int],
            r matches Err(e) ==> x >= self@.burts.len() && e == (IndexOutOfRange {
                index: x,
                len: self@.burts.len() as usize,
            }),
    {
        if x < self.burts.len() {
            Ok(&self.burts[x])
        } else {
            Err(IndexOutOfRange { index: x, len: self.burts.len() })
        }
    }

    /// The agents in slot order.
    pub fn iter(&self) -> (r: &[Burt])
        ensures
            r@ == self@.burts,
    {
        self.burts.as_slice()
    }

    pub fn range(&self) -> (r: u32)
        ensures
            r == self@.range,
    {
        self.range
    }

    pub fn target(&self) -> (r: u32)
        ensures
            r == self@.target,
    {
        self.target
    }

    /// The generation limit.
    pub fn generations(&self) -> (r: u32)
        ensures
            r == self@.generations,
    {
        self.generations
    }

    /// The generations run so far.
    pub fn current_generation(&self) -> (r: u32)
        ensures
            r == self@.current_generation,
    {
        self.current_generation
    }

    /// In parts per million.
    pub fn survival_rate(&self) -> (r: u32)
        ensures
            r == self@.survival_rate,
    {
        self.survival_rate
    }

    /// In parts per million.
    pub fn mutation_rate(&self) -> (r: u32)
        ensures
            r == self@.mutation_rate,
    {
        self.mutation_rate
    }

    /// The average guess of the last generation, if one has run.
    pub fn average_guess(&self) -> (r: Option<u32>)
        ensures
            r == self@.average_guess,
    {
        self.average_guess
    }

    /// The average score of the last generation, if one has run.
    pub fn average_score(&self) -> (r: Option<u32>)
        ensures
            r == self@.average_score,
    {
        self.average_score
    }

    /// The average guess in decimal, or `?` before the first generation.
    pub fn av_guess_display(&self) -> (r: String)
        ensures
            r@ == shown(self@.average_guess),
    {
        shown_string(self.average_guess)
    }

    /// The average score in decimal, or `?` before the first generation.
    pub fn av_score_display(&self) -> (r: String)
        ensures
            r@ == shown(self@.average_score),
    {
        shown_string(self.average_score)
    }

    /// Changes the range; existing agents are not rescaled. Refuses 0.
    pub fn set_range(&mut self, range: u32) -> (r: Result<(), ConfigError>)
        requires
            old(self).wf(),
        ensures
            final(self).wf(),
            range == 0 ==> r == Err::<(), ConfigError>(ConfigError::ZeroRange) && final(self)@ == old(self)@,
            range != 0 ==> r is Ok && final(self)@ == (GangView { range, ..old(self)@ }),
    {
        if range == 0 {
            return Err(ConfigError::ZeroRange);
        }
        self.range = range;
        Ok(())
    }

    pub fn set_target(&mut self, target: u32)
        requires
            old(self).wf(),
        ensures
            final(self).wf(),
            final(self)@ == (GangView { target, ..old(self)@ }),
    {
        self.target = target;
    }

    /// Changes the generation limit.
    pub fn set_generations(&mut self, generations: u32)
        requires
            old(self).wf(),
        ensures
            final(self).wf(),
            final(self)@ == (GangView { generations, ..old(self)@ }),
    {
        self.generations = generations;
    }

    /// Changes the survival rate (parts per million); refuses one outside
    /// `(0, 1)`.
    pub fn set_survival_rate(&mut self, rate: u32) -> (r: Result<(), ConfigError>)
        requires
            old(self).wf(),
        ensures
            final(self).wf(),
            !rate_ok(rate) ==> r == Err::<(), ConfigError>(ConfigError::SurvivalRateOutOfRange)
                && final(self)@ == old(self)@,
            rate_ok(rate) ==> r is Ok && final(self)@ == (GangView { survival_rate: rate, ..old(self)@ }),
    {
        if rate == 0 || rate >= RATE_ONE {
            return Err(ConfigError::SurvivalRateOutOfRange);
        }
        self.survival_rate = rate;
        Ok(())
    }

    /// Changes the mutation rate (parts per million); refuses one outside
    /// `(0, 1)`.
    pub fn set_mutation_rate(&mut self, rate: u32) -> (r: Result<(), ConfigError>)
        requires
            old(self).wf(),
        ensures
            final(self).wf(),
            !rate_ok(rate) ==> r == Err::<(), ConfigError>(ConfigError::MutationRateOutOfRange)
                && final(self)@ == old(self)@,
            rate_ok(rate) ==> r is Ok && final(self)@ == (GangView { mutation_rate: rate, ..old(self)@ }),
    {
        if rate == 0 || rate >= RATE_ONE {
            return Err(ConfigError::MutationRateOutOfRange);
        }
        self.mutation_rate = rate;
        Ok(())
    }
}


proof fn lemma_sum_bound(s: Seq<u32>)
    ensures
        sum_of(s) <= s.len() * (u32::MAX as nat),
    decreases s.len(),
{
    if s.len() > 0 {
        lemma_sum_bound(s.drop_last());
    }
}

proof fn lemma_average_fits(total: nat, n: nat)
    requires
        1 <= n,
        total <= n * (u32::MAX as nat),
    ensures
        total / n <= u32::MAX,
{
    assert(total / n <= u32::MAX as nat) by (nonlinear_arith)
        requires
            1 <= n,
            total <= n * (u32::MAX as nat),
    ;
}

impl BurtGang {
    /// One generation with its random choices given: every agent records its
    /// guess from `guesses` (slot by slot) and the score of it, the averages
    /// of both are kept (rounded down), the counter goes up by one, and the
    /// agents are ranked and trained under `policy` with `draws` (see
    /// `generation_result`). Agents stay in their slots.
    pub fn run_generation_with(&mut self, guesses: &Vec<u32>, policy: Policy, draws: &Vec<TrainingDraw>)
        requires
            old(self).wf(),
            guesses.len() == old(self)@.burts.len(),
            old(self)@.current_generation < u32::MAX,
            draws_valid(
                draws@,
                old(self)@.burts.len(),
                survivor_count(old(self)@.burts.len(), old(self)@.survival_rate),
                step_bound(old(self)@.range, old(self)@.mutation_rate),
            ),
        ensures
            final(self).wf(),
            final(self)@ == (GangView {
                burts: generation_result(
                    old(self)@.burts,
                    guesses@,
                    old(self)@.target,
                    old(self)@.range,
                    old(self)@.survival_rate,
                    policy,
                    draws@,
                ),
                current_generation: (old(self)@.current_generation + 1) as u32,
                average_guess: Some((sum_of(guesses@) / guesses.len() as nat) as u32),
                average_score: Some(
                    (sum_of(score_list(guesses@, old(self)@.target)) / guesses.len() as nat) as u32,
                ),
                ..old(self)@
            }),
    {
        let ghost before = self.burts@;
        let n = self.burts.len();
        let target = self.target;
        let range = self.range;
        let ghost all_scores = score_list(guesses@, target);

        // Evaluation: record each guess and its score.
        let mut total_guess: u64 = 0;
        let mut total_score: u64 = 0;
        let mut scores: Vec<u32> = Vec::new();
        let mut i: usize = 0;
        while i < n
            invariant
                i <= n,
                n == self.burts.len(),
                n == guesses.len(),
                n <= u32::MAX as nat + 1,
                before.len() == n,
                before == old(self)@.burts,
                old(self).wf(),
                self@ == (GangView { burts: self.burts@, ..old(self)@ }),
                target == self.target,
                all_scores == score_list(guesses@, target),
                scores@ == all_scores.take(i as int),
                forall|k: int| 0 <= k < i ==> #[trigger] self.burts@[k] == scored(before, guesses@, target)[k],
                forall|k: int| i <= k < n ==> #[trigger] self.burts@[k] == before[k],
                total_guess == sum_of(guesses@.take(i as int)),
                total_score == sum_of(all_scores.take(i as int)),
            decreases n - i,
        {
            proof {
                lemma_sum_bound(guesses@.take(i as int));
                lemma_sum_bound(all_scores.take(i as int));
                assert(i * (u32::MAX as nat) <= u32::MAX as nat * (u32::MAX as nat)) by (nonlinear_arith)
                    requires
                        i <= u32::MAX as nat,
                ;
            }
            let mut b = self.burts[i];
            let (g, sc) = b.training_think(target, guesses[i]);
            self.burts[i] = b;
            total_guess = total_guess + g as u64;
            total_score = total_score + sc as u64;
            scores.push(sc);
            proof {
                assert(guesses@.take(i + 1).drop_last() =~= guesses@.take(i as int));
                assert(all_scores.take(i + 1).drop_last() =~= all_scores.take(i as int));
                assert(scores@ =~= all_scores.take(i + 1));
            }
            i = i + 1;
        }
        proof {
            assert(guesses@.take(n as int) =~= guesses@);
            assert(all_scores.take(n as int) =~= all_scores);
            assert(scores@ =~= all_scores);
            assert(self.burts@ =~= scored(before, guesses@, target));
            lemma_sum_bound(guesses@);
            lemma_sum_bound(all_scores);
            lemma_average_fits(total_guess as nat, n as nat);
            lemma_average_fits(total_score as nat, n as nat);
        }
        self.average_guess = Some((total_guess / n as u64) as u32);
        self.average_score = Some((total_score / n as u64) as u32);
        self.current_generation = self.current_generation + 1;

        // Ranking.
        let ranked = rank(&scores);
        proof {
            assert(is_ranking(all_scores, ranked@));
            lemma_ranking_unique(all_scores, ranked@, ranking_of(all_scores));
        }

        // Selection: the first `pool` ranked survive, or teach.
        let pool = survivors(n, self.survival_rate);
        let mut survivor: Vec<bool> = Vec::new();
        let mut k: usize = 0;
        while k < n
            invariant
                k <= n,
                survivor.len() == k,
                forall|x: int| 0 <= x < k ==> !(#[trigger] survivor@[x]),
            decreases n - k,
        {
            survivor.push(false);
            k = k + 1;
        }
        let mut p: usize = 0;
        while p < pool
            invariant
                p <= pool <= n,
                ranked.len() == n,
                survivor.len() == n,
                is_ranking(all_scores, ranked@),
                all_scores.len() == n,
                forall|x: int|
                    0 <= x < n ==> (#[trigger] survivor@[x] <==> ranked@.take(p as int).contains(
                        x as usize,
                    )),
            decreases pool - p,
        {
            let slot = ranked[p];
            survivor[slot] = true;
            proof {
                lemma_push_contains(ranked@.take(p as int), slot);
                assert(ranked@.take(p + 1) =~= ranked@.take(p as int).push(slot));
            }
            p = p + 1;
        }

        // All but one perfect under the sticky policy: stop mutating.
        let mut zeros: usize = 0;
        let mut z: usize = 0;
        while z < n
            invariant
                z <= n,
                scores@ == all_scores,
                all_scores.len() == n,
                zeros <= z,
                zeros == perfect_count(all_scores.take(z as int)),
            decreases n - z,
        {
            if scores[z] == 0 {
                zeros = zeros + 1;
            }
            proof {
                assert(all_scores.take(z + 1).drop_last() =~= all_scores.take(z as int));
            }
            z = z + 1;
        }
        proof {
            assert(all_scores.take(n as int) =~= all_scores);
        }
        let mutate = match policy {
            Policy::Baseline => true,
            Policy::Sticky => zeros != n - 1,
        };

        // Transfer and mutation, reading teachers as they stood.
        let ghost evaluated = self.burts@;
        let ghost model = next_burts(evaluated, all_scores, ranked@, pool as nat, policy, draws@, range);
        let mut next: Vec<Burt> = Vec::new();
        let mut t: usize = 0;
        while t < n
            invariant
                t <= n,
                n == self.burts.len(),
                evaluated == self.burts@,
                evaluated.len() == n,
                range == self.range,
                ranked.len() == n,
                is_ranking(all_scores, ranked@),
                all_scores.len() == n,
                scores@ == all_scores,
                survivor.len() == n,
                pool <= n,
                forall|x: int|
                    0 <= x < n ==> (#[trigger] survivor@[x] <==> ranked@.take(pool as int).contains(
                        x as usize,
                    )),
                mutate == mutates(policy, all_scores),
                model == next_burts(evaluated, all_scores, ranked@, pool as nat, policy, draws@, range),
                draws_valid(draws@, n as nat, pool as nat, step_bound(range, self.mutation_rate)),
                next.len() == t,
                forall|x: int| 0 <= x < t ==> #[trigger] next@[x] == model[x],
            decreases n - t,
        {
            let b = self.burts[t];
            let learns = match policy {
                Policy::Baseline => !survivor[t],
                Policy::Sticky => scores[t] != 0,
            };
            if learns {
                let d = draws[t];
                assert(draws@[t as int].pick < pool);
                let teacher = self.burts[ranked[d.pick as usize]];
                let mut c = b;
                c.reeducate(teacher.mu, teacher.sigma);
                if mutate {
                    c.apply_mutation(d.mu_step, d.mu_up, d.sigma_step, d.sigma_up, range);
                }
                next.push(c);
            } else {
                next.push(b);
            }
            t = t + 1;
        }
        proof {
            assert(next@ =~= model);
            assert forall|x: int| 0 <= x < n implies #[trigger] next@[x].id == x by {
                assert(next@[x] == model[x]);
                assert(evaluated[x].id == before[x].id);
            }
        }
        self.burts = next;
    }
}

impl BurtGang {
    /// One generation: as `run_generation_with`, with each slot's teacher
    /// drawn uniformly from the first `survivor_count` ranked agents and each
    /// mutation step drawn uniformly from `[0, range * mutation_rate)` with a
    /// fair coin for its sign, all from `rng`.
    pub fn run_generation(&mut self, guesses: &Vec<u32>, policy: Policy, rng: &mut rand::rngs::StdRng)
        requires
            old(self).wf(),
            guesses.len() == old(self)@.burts.len(),
            old(self)@.current_generation < u32::MAX,
        ensures
            final(self).wf(),
            exists|draws: Seq<TrainingDraw>|
                draws_valid(
                    draws,
                    old(self)@.burts.len(),
                    survivor_count(old(self)@.burts.len(), old(self)@.survival_rate),
                    step_bound(old(self)@.range, old(self)@.mutation_rate),
                ) && final(self)@ == (GangView {
                    burts: #[trigger] generation_result(
                        old(self)@.burts,
                        guesses@,
                        old(self)@.target,
                        old(self)@.range,
                        old(self)@.survival_rate,
                        policy,
                        draws,
                    ),
                    current_generation: (old(self)@.current_generation + 1) as u32,
                    average_guess: Some((sum_of(guesses@) / guesses.len() as nat) as u32),
                    average_score: Some(
                        (sum_of(score_list(guesses@, old(self)@.target)) / guesses.len() as nat) as u32,
                    ),
                    ..old(self)@
                }),
    {
        let n = self.burts.len();
        let pool = survivors(n, self.survival_rate);
        proof {
            assert(self.range * self.mutation_rate <= u32::MAX * u32::MAX) by (nonlinear_arith)
                requires
                    self.range <= u32::MAX,
                    self.mutation_rate <= u32::MAX,
            ;
            assert(self.range * self.mutation_rate > 0) by (nonlinear_arith)
                requires
                    self.range > 0,
                    self.mutation_rate > 0,
            ;
        }
        let bound = self.range as u64 * self.mutation_rate as u64;
        let draws = draw_training(rng, n, pool as u64, bound);
        self.run_generation_with(guesses, policy, &draws);
    }
}

} // verus!
