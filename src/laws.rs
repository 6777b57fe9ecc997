//! Properties of the generation step, stated over its model
//! `generation_result` and proved.
use vstd::prelude::*;

use crate::burt::{mutation_of, param_limit, shifted, Burt};
use crate::gang::{
    generation_result, is_learner, perfect_count, rate_ok, score_list, scored, slots_numbered,
    survivor_count, taught, Policy, TrainingDraw,
};
use crate::ranking::{is_ranking, lemma_ranking_exists, ranking_of};
use crate::RATE_ONE;

verus! {

/// Every mean and standard deviation lies in `[0, range]`.
pub open spec fn params_within(burts: Seq<Burt>, range: u32) -> bool {
    forall|i: int|
        0 <= i < burts.len() ==> (#[trigger] burts[i]).mu <= param_limit(range) && burts[i].sigma
            <= param_limit(range)
}

/// One draw per slot, each teacher among the first `survivor_count` ranked.
pub open spec fn picks_valid(draws: Seq<TrainingDraw>, n: nat, survival_rate: u32) -> bool {
    &&& draws.len() == n
    &&& forall|i: int| 0 <= i < n ==> (#[trigger] draws[i]).pick < survivor_count(n, survival_rate)
}

/// A population of `n` agents that slots can hold, with a guess for each.
pub open spec fn round_shape(n: nat, guesses: Seq<u32>) -> bool {
    &&& 1 <= n <= u32::MAX as nat + 1
    &&& guesses.len() == n
}

/// The agents after the generations of `rounds`, each a list of guesses and
/// a list of draws, under a fixed configuration.
pub open spec fn evolve(
    burts: Seq<Burt>,
    target: u32,
    range: u32,
    survival_rate: u32,
    policy: Policy,
    rounds: Seq<(Seq<u32>, Seq<TrainingDraw>)>,
) -> Seq<Burt>
    decreases rounds.len(),
{
    if rounds.len() == 0 {
        burts
    } else {
        let before = evolve(burts, target, range, survival_rate, policy, rounds.drop_last());
        generation_result(
            before,
            rounds.last().0,
            target,
            range,
            survival_rate,
            policy,
            rounds.last().1,
        )
    }
}

/// However many generations run, the number of agents stays the same.
pub proof fn lemma_population_size_kept(
    burts: Seq<Burt>,
    target: u32,
    range: u32,
    survival_rate: u32,
    policy: Policy,
    rounds: Seq<(Seq<u32>, Seq<TrainingDraw>)>,
)
    ensures
        evolve(burts, target, range, survival_rate, policy, rounds).len() == burts.len(),
    decreases rounds.len(),
{
    if rounds.len() > 0 {
        lemma_population_size_kept(burts, target, range, survival_rate, policy, rounds.drop_last());
    }
}

/// However many generations run, slot `i` holds the agent it held before,
/// so agents stay in ascending id order.
pub proof fn lemma_slots_kept(
    burts: Seq<Burt>,
    target: u32,
    range: u32,
    survival_rate: u32,
    policy: Policy,
    rounds: Seq<(Seq<u32>, Seq<TrainingDraw>)>,
)
    ensures
        evolve(burts, target, range, survival_rate, policy, rounds).len() == burts.len(),
        forall|i: int|
            0 <= i < burts.len() ==> #[trigger] evolve(
                burts,
                target,
                range,
                survival_rate,
                policy,
                rounds,
            )[i].id == burts[i].id,
        slots_numbered(burts) ==> slots_numbered(
            evolve(burts, target, range, survival_rate, policy, rounds),
        ),
    decreases rounds.len(),
{
    lemma_population_size_kept(burts, target, range, survival_rate, policy, rounds);
    if rounds.len() > 0 {
        lemma_slots_kept(burts, target, range, survival_rate, policy, rounds.drop_last());
    }
}

/// Two runs from the same agents, under the same configuration, with the
/// same guesses and draws in every generation, end with the same agents.
pub proof fn lemma_runs_agree(
    a: Seq<Burt>,
    b: Seq<Burt>,
    target: u32,
    range: u32,
    survival_rate: u32,
    policy: Policy,
    rounds: Seq<(Seq<u32>, Seq<TrainingDraw>)>,
)
    requires
        a == b,
    ensures
        evolve(a, target, range, survival_rate, policy, rounds) == evolve(
            b,
            target,
            range,
            survival_rate,
            policy,
            rounds,
        ),
{
}

/// At least one agent survives (and teaches), and no more than there are:
/// a population of one keeps its one agent.
pub proof fn lemma_survivor_count_bounds(n: nat, survival_rate: u32)
    requires
        n >= 1,
        rate_ok(survival_rate),
    ensures
        1 <= survivor_count(n, survival_rate) <= n,
        n == 1 ==> survivor_count(n, survival_rate) == 1,
{
    assert(n * survival_rate / RATE_ONE as int <= n) by (nonlinear_arith)
        requires
            n >= 1,
            0 < survival_rate < RATE_ONE,
    ;
}

proof fn lemma_teacher_in_bounds(
    burts: Seq<Burt>,
    guesses: Seq<u32>,
    target: u32,
    survival_rate: u32,
    draws: Seq<TrainingDraw>,
    s: int,
)
    requires
        round_shape(burts.len(), guesses),
        rate_ok(survival_rate),
        picks_valid(draws, burts.len(), survival_rate),
        0 <= s < burts.len(),
    ensures
        is_ranking(score_list(guesses, target), ranking_of(score_list(guesses, target))),
        draws[s].pick < survivor_count(burts.len(), survival_rate) <= burts.len(),
        ranking_of(score_list(guesses, target))[draws[s].pick as int] < burts.len(),
{
    let scores = score_list(guesses, target);
    lemma_ranking_exists(scores);
    lemma_survivor_count_bounds(burts.len(), survival_rate);
    assert(draws[s].pick < survivor_count(burts.len(), survival_rate));
    assert(ranking_of(scores)[draws[s].pick as int] < scores.len());
}

/// After a generation, every mean and standard deviation lies in
/// `[0, range]`, given that they did before.
pub proof fn lemma_bounds_kept(
    burts: Seq<Burt>,
    guesses: Seq<u32>,
    target: u32,
    range: u32,
    survival_rate: u32,
    policy: Policy,
    draws: Seq<TrainingDraw>,
)
    requires
        round_shape(burts.len(), guesses),
        rate_ok(survival_rate),
        picks_valid(draws, burts.len(), survival_rate),
        params_within(burts, range),
    ensures
        params_within(generation_result(burts, guesses, target, range, survival_rate, policy, draws), range),
{
    let after = generation_result(burts, guesses, target, range, survival_rate, policy, draws);
    let sc = scored(burts, guesses, target);
    let scores = score_list(guesses, target);
    let ranked = ranking_of(scores);
    let hi = param_limit(range);
    assert forall|i: int| 0 <= i < after.len() implies (#[trigger] after[i]).mu <= hi
        && after[i].sigma <= hi by {
        lemma_teacher_in_bounds(burts, guesses, target, survival_rate, draws, i);
        let t = ranked[draws[i].pick as int] as int;
        assert(burts[t].mu <= hi && burts[t].sigma <= hi);
        assert(burts[i].mu <= hi && burts[i].sigma <= hi);
        let d = draws[i];
        let tb = taught(sc[i], sc[t]);
        assert(shifted(tb.mu, d.mu_step, d.mu_up, hi) <= hi);
        assert(shifted(tb.sigma, d.sigma_step, d.sigma_up, hi) <= hi);
    }
}

/// Under the baseline policy, every learner ends the generation as a
/// survivor's pre-round mean and standard deviation, then mutated by its
/// draws; survivors keep theirs.
pub proof fn lemma_baseline_transfer(
    burts: Seq<Burt>,
    guesses: Seq<u32>,
    target: u32,
    range: u32,
    survival_rate: u32,
    draws: Seq<TrainingDraw>,
)
    requires
        round_shape(burts.len(), guesses),
        rate_ok(survival_rate),
        picks_valid(draws, burts.len(), survival_rate),
    ensures
        ({
            let after = generation_result(burts, guesses, target, range, survival_rate, Policy::Baseline, draws);
            let scores = score_list(guesses, target);
            let ranked = ranking_of(scores);
            let pool = survivor_count(burts.len(), survival_rate);
            forall|s: int|
                0 <= s < burts.len() ==> (is_learner(Policy::Baseline, scores, ranked, pool, s) ==> exists|
                    t: int,
                |
                    0 <= t < burts.len() && !is_learner(Policy::Baseline, scores, ranked, pool, t)
                        && after[s] == mutation_of(
                        Burt { mu: (#[trigger] burts[t]).mu, sigma: burts[t].sigma, ..scored(burts, guesses, target)[s] },
                        draws[s].mu_step,
                        draws[s].mu_up,
                        draws[s].sigma_step,
                        draws[s].sigma_up,
                        range,
                    )) && (!is_learner(Policy::Baseline, scores, ranked, pool, s) ==> after[s].mu
                    == burts[s].mu && after[s].sigma == burts[s].sigma)
        }),
{
    let after = generation_result(burts, guesses, target, range, survival_rate, Policy::Baseline, draws);
    let scores = score_list(guesses, target);
    let ranked = ranking_of(scores);
    let pool = survivor_count(burts.len(), survival_rate);
    let sc = scored(burts, guesses, target);
    assert forall|s: int| 0 <= s < burts.len() && is_learner(Policy::Baseline, scores, ranked, pool, s) implies exists|
        t: int,
    |
        0 <= t < burts.len() && !is_learner(Policy::Baseline, scores, ranked, pool, t) && after[s]
            == mutation_of(
            Burt { mu: (#[trigger] burts[t]).mu, sigma: burts[t].sigma, ..sc[s] },
            draws[s].mu_step,
            draws[s].mu_up,
            draws[s].sigma_step,
            draws[s].sigma_up,
            range,
        ) by {
        lemma_teacher_in_bounds(burts, guesses, target, survival_rate, draws, s);
        let p = draws[s].pick as int;
        let t = ranked[p] as int;
        assert(ranked.take(pool as int)[p] == ranked[p]);
        assert(ranked.take(pool as int).contains(t as usize));
        assert(taught(sc[s], sc[t]) == (Burt { mu: burts[t].mu, sigma: burts[t].sigma, ..sc[s] }));
    }
}

/// Under the sticky policy, an agent that scored zero keeps its mean and
/// standard deviation: perfect agents are never re-educated or mutated.
pub proof fn lemma_sticky_keeps_perfect(
    burts: Seq<Burt>,
    guesses: Seq<u32>,
    target: u32,
    range: u32,
    survival_rate: u32,
    draws: Seq<TrainingDraw>,
)
    requires
        round_shape(burts.len(), guesses),
    ensures
        forall|s: int|
            0 <= s < burts.len() && score_list(guesses, target)[s] == 0 ==> ({
                let after = #[trigger] generation_result(
                    burts,
                    guesses,
                    target,
                    range,
                    survival_rate,
                    Policy::Sticky,
                    draws,
                )[s];
                after.mu == burts[s].mu && after.sigma == burts[s].sigma
            }),
{
}

/// `b` has the mean and standard deviation of `teacher`.
pub open spec fn same_params(b: Burt, teacher: Burt) -> bool {
    b.mu == teacher.mu && b.sigma == teacher.sigma
}

/// Under the sticky policy, once all but one agent score zero, that one
/// agent takes over the mean and standard deviation that one of the first
/// `survivor_count` ranked agents held before the round, unmutated.
pub proof fn lemma_sticky_converged(
    burts: Seq<Burt>,
    guesses: Seq<u32>,
    target: u32,
    range: u32,
    survival_rate: u32,
    draws: Seq<TrainingDraw>,
)
    requires
        round_shape(burts.len(), guesses),
        rate_ok(survival_rate),
        picks_valid(draws, burts.len(), survival_rate),
        perfect_count(score_list(guesses, target)) + 1 == burts.len(),
    ensures
        forall|s: int|
            0 <= s < burts.len() && score_list(guesses, target)[s] != 0 ==> exists|p: int|
                0 <= p < survivor_count(burts.len(), survival_rate)
                    && #[trigger] ranking_of(score_list(guesses, target))[p] < burts.len() && same_params(
                    generation_result(burts, guesses, target, range, survival_rate, Policy::Sticky, draws)[s],
                    burts[ranking_of(score_list(guesses, target))[p] as int],
                ),
{
    let scores = score_list(guesses, target);
    let ranked = ranking_of(scores);
    let after = generation_result(burts, guesses, target, range, survival_rate, Policy::Sticky, draws);
    assert forall|s: int| 0 <= s < burts.len() && scores[s] != 0 implies exists|p: int|
        0 <= p < survivor_count(burts.len(), survival_rate) && #[trigger] ranked[p] < burts.len()
            && same_params(after[s], burts[ranked[p] as int]) by {
        lemma_teacher_in_bounds(burts, guesses, target, survival_rate, draws, s);
        let p = draws[s].pick as int;
        assert(ranked[p] < burts.len());
    }
}

} // verus!
