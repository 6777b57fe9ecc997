use malb::{
    judge_draw, rank, Burt, BurtGang, DrawOutcome, Policy, TrainingDraw, UNIT,
};
use rand::rngs::StdRng;
use rand::SeedableRng;
use rand_distr::{Distribution, Normal};

fn burt(id: u32, mu: u64, sigma: u64) -> Burt {
    Burt { id, score: None, guess: None, mu, sigma }
}

fn draw(pick: u64, mu_step: u64, mu_up: bool, sigma_step: u64, sigma_up: bool) -> TrainingDraw {
    TrainingDraw { pick, mu_step, mu_up, sigma_step, sigma_up }
}

/// Four agents with parameters 1, 2, 3 and 4 units.
fn four(survival_rate: u32) -> BurtGang {
    let burts = vec![
        burt(0, UNIT, UNIT),
        burt(1, 2 * UNIT, 2 * UNIT),
        burt(2, 3 * UNIT, 3 * UNIT),
        burt(3, 4 * UNIT, 4 * UNIT),
    ];
    BurtGang::new(burts, 10, 5, 100, survival_rate, 250_000).unwrap()
}

fn params(g: &BurtGang) -> Vec<(u64, u64)> {
    g.iter().iter().map(|b| (b.get_mu(), b.get_sigma())).collect()
}

/// A guess drawn from the agent's Gaussian, through the library's sampler
/// decisions.
fn sample_guess(b: &Burt, range: u32, rng: &mut StdRng) -> u32 {
    let normal = Normal::new(b.get_mu() as f64 / 1e6, b.get_sigma() as f64 / 1e6).unwrap();
    let mut attempt = 0;
    loop {
        let x: f64 = normal.sample(rng);
        match judge_draw((x * 1e6).round() as i64, range, attempt) {
            DrawOutcome::Accept(g) => return g,
            DrawOutcome::Retry => attempt += 1,
        }
    }
}

fn guesses_for(g: &BurtGang, rng: &mut StdRng) -> Vec<u32> {
    let range = g.range();
    g.iter().iter().map(|b| sample_guess(b, range, rng)).collect()
}

#[test]
fn rank_orders_by_score_then_slot() {
    assert_eq!(rank(&vec![3, 1, 3, 0, 1]), vec![3, 1, 4, 0, 2]);
    assert_eq!(rank(&vec![]), Vec::<usize>::new());
    assert_eq!(rank(&vec![2, 2, 2]), vec![0, 1, 2]);
    assert_eq!(rank(&vec![5, 4, 3, 2, 1, 0]), vec![5, 4, 3, 2, 1, 0]);
}

#[test]
fn rank_keeps_equal_scores_in_prior_order() {
    let scores: Vec<u32> = (0..100u32).map(|i| (i * 7919) % 5).collect();
    let r = rank(&scores);
    assert_eq!(r.len(), 100);
    for w in r.windows(2) {
        let (a, b) = (w[0], w[1]);
        assert!(scores[a] < scores[b] || (scores[a] == scores[b] && a < b));
    }
}

#[test]
fn baseline_generation_exact() {
    let mut g = four(500_000);
    let draws = vec![
        draw(0, 1, true, 1, true),
        draw(1, 500_000, true, 1_000_000, false),
        draw(1, 1, true, 1, true),
        draw(0, 2_000_000, false, 400_000, true),
    ];
    g.run_generation_with(&vec![5, 7, 5, 9], Policy::Baseline, &draws);
    assert_eq!(
        params(&g),
        vec![(UNIT, UNIT), (3_500_000, 2_000_000), (3 * UNIT, 3 * UNIT), (0, 1_400_000)]
    );
    let scored: Vec<(Option<u32>, Option<u32>)> =
        g.iter().iter().map(|b| (b.get_guess(), b.get_score())).collect();
    assert_eq!(scored, vec![(Some(5), Some(0)), (Some(7), Some(2)), (Some(5), Some(0)), (Some(9), Some(4))]);
    assert_eq!(g.current_generation(), 1);
    assert_eq!(g.average_guess(), Some(6));
    assert_eq!(g.average_score(), Some(1));
    assert_eq!(g.av_guess_display(), "6");
    assert_eq!(g.av_score_display(), "1");
}

#[test]
fn baseline_learners_copy_a_survivor_before_mutation() {
    let mut g = four(500_000);
    let picks = vec![draw(0, 0, true, 0, false), draw(0, 0, true, 0, false), draw(1, 0, false, 0, true), draw(1, 0, false, 0, true)];
    let before = params(&g);
    g.run_generation_with(&vec![8, 4, 6, 1], Policy::Baseline, &picks);
    // scores 3, 1, 1, 4: ranking 1, 2, 0, 3; survivors are slots 1 and 2
    let after = params(&g);
    assert_eq!(after[1], before[1]);
    assert_eq!(after[2], before[2]);
    assert_eq!(after[0], before[1]);
    assert_eq!(after[3], before[2]);
}

#[test]
fn sticky_skips_mutation_when_all_but_one_perfect() {
    let mut g = four(500_000);
    let mut draws = vec![draw(0, 900_000, true, 900_000, true); 4];
    draws[3] = draw(1, 900_000, true, 900_000, true);
    g.run_generation_with(&vec![5, 5, 5, 9], Policy::Sticky, &draws);
    assert_eq!(
        params(&g),
        vec![(UNIT, UNIT), (2 * UNIT, 2 * UNIT), (3 * UNIT, 3 * UNIT), (2 * UNIT, 2 * UNIT)]
    );
}

#[test]
fn sticky_never_touches_perfect_agents() {
    // pool of one: under the baseline policy perfect agents outside it learn
    let draws = vec![draw(0, 300_000, true, 300_000, true); 4];
    let mut sticky = four(250_000);
    sticky.run_generation_with(&vec![5, 5, 5, 0], Policy::Sticky, &draws);
    assert_eq!(
        params(&sticky)[..3],
        [(UNIT, UNIT), (2 * UNIT, 2 * UNIT), (3 * UNIT, 3 * UNIT)]
    );
    let mut sticky2 = four(250_000);
    sticky2.run_generation_with(&vec![5, 5, 9, 0], Policy::Sticky, &draws);
    assert_eq!(params(&sticky2)[..2], [(UNIT, UNIT), (2 * UNIT, 2 * UNIT)]);
    assert_eq!(params(&sticky2)[2], (1_300_000, 1_300_000));
    let mut baseline = four(250_000);
    baseline.run_generation_with(&vec![5, 5, 5, 0], Policy::Baseline, &draws);
    assert_eq!(params(&baseline)[1], (1_300_000, 1_300_000));
}

#[test]
fn population_of_one_survives_itself() {
    let mut g = BurtGang::new(vec![burt(0, 2 * UNIT, UNIT)], 10, 5, 10, 500_000, 250_000).unwrap();
    let mut rng = StdRng::seed_from_u64(3);
    for _ in 0..20 {
        let guesses = guesses_for(&g, &mut rng);
        g.run_generation(&guesses, Policy::Baseline, &mut rng);
        assert_eq!(params(&g), vec![(2 * UNIT, UNIT)]);
        g.run_generation(&guesses, Policy::Sticky, &mut rng);
    }
    assert_eq!(g.len(), 1);
    assert_eq!(g.current_generation(), 40);
}

#[test]
fn many_generations_keep_size_order_and_bounds() {
    let mut rng = StdRng::seed_from_u64(11);
    let mut g = BurtGang::construct(30, 20, 13, 200, 200_000, 300_000, &mut rng).unwrap();
    for gen in 0..200u32 {
        let guesses = guesses_for(&g, &mut rng);
        let policy = if gen % 2 == 0 { Policy::Baseline } else { Policy::Sticky };
        g.run_generation(&guesses, policy, &mut rng);
        assert_eq!(g.len(), 30);
        for (i, b) in g.iter().iter().enumerate() {
            assert_eq!(b.get_id() as usize, i);
            assert!(b.get_mu() <= 20 * UNIT && b.get_sigma() <= 20 * UNIT);
            assert_eq!(b.get_guess(), Some(guesses[i]));
        }
    }
    assert_eq!(g.current_generation(), 200);
}

fn run_seeded(seed: u64, generations: usize) -> Vec<Vec<(Option<u32>, Option<u32>)>> {
    let mut rng = StdRng::seed_from_u64(seed);
    let mut g = BurtGang::construct(25, 10, 5, 100, 500_000, 250_000, &mut rng).unwrap();
    let mut history = Vec::new();
    for _ in 0..generations {
        let guesses = guesses_for(&g, &mut rng);
        g.run_generation(&guesses, Policy::Sticky, &mut rng);
        history.push(g.iter().iter().map(|b| (b.get_guess(), b.get_score())).collect());
    }
    history
}

#[test]
fn same_seed_same_run() {
    assert_eq!(run_seeded(42, 60), run_seeded(42, 60));
}

#[test]
fn convergence_scenario() {
    let mut rng = StdRng::seed_from_u64(2022);
    let mut g = BurtGang::construct(50, 10, 5, 500, 500_000, 250_000, &mut rng).unwrap();
    let mut reached_zero = false;
    for _ in 0..500 {
        let before = params(&g);
        let guesses = guesses_for(&g, &mut rng);
        g.run_generation(&guesses, Policy::Sticky, &mut rng);
        let after = params(&g);
        let mut min_score = u32::MAX;
        for (i, b) in g.iter().iter().enumerate() {
            let score = b.get_score().unwrap();
            min_score = min_score.min(score);
            if score == 0 {
                assert_eq!(after[i], before[i]);
            }
        }
        if min_score == 0 {
            reached_zero = true;
        }
    }
    assert!(reached_zero);
    assert_eq!(g.current_generation(), 500);
}
