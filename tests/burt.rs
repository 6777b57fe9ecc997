use malb::text::decimal_string;
use malb::{distance_from, judge_draw, Burt, DrawOutcome, MAX_DRAWS, UNIT};
use rand::rngs::StdRng;
use rand::SeedableRng;

fn burt(id: u32, mu: u64, sigma: u64) -> Burt {
    Burt { id, score: None, guess: None, mu, sigma }
}

#[test]
fn distance_from_either_side() {
    assert_eq!(distance_from(5, 2), 3);
    assert_eq!(distance_from(2, 5), 3);
    assert_eq!(distance_from(7, 7), 0);
    assert_eq!(distance_from(0, u32::MAX), u32::MAX);
}

#[test]
fn judge_draw_accepts_within_range() {
    assert_eq!(judge_draw(2_500_000, 10, 0), DrawOutcome::Accept(2));
    assert_eq!(judge_draw(10_000_000, 10, 0), DrawOutcome::Accept(10));
    assert_eq!(judge_draw(999_999, 10, 3), DrawOutcome::Accept(0));
}

#[test]
fn judge_draw_negative_draw_guesses_zero() {
    assert_eq!(judge_draw(-300, 10, 0), DrawOutcome::Accept(0));
    assert_eq!(judge_draw(-7_000_000, 10, 0), DrawOutcome::Accept(0));
}

#[test]
fn judge_draw_retries_then_falls_back() {
    assert_eq!(judge_draw(10_000_001, 10, 0), DrawOutcome::Retry);
    assert_eq!(judge_draw(10_000_001, 10, MAX_DRAWS - 2), DrawOutcome::Retry);
    assert_eq!(judge_draw(10_000_001, 10, MAX_DRAWS - 1), DrawOutcome::Accept(10));
}

#[test]
fn new_burt_within_range() {
    let mut rng = StdRng::seed_from_u64(1);
    for id in 0..200 {
        let b = Burt::new(id, 3, &mut rng);
        assert_eq!(b.get_id(), id);
        assert!(b.get_mu() < 3 * UNIT);
        assert!(b.get_sigma() < 3 * UNIT);
        assert_eq!(b.get_guess(), None);
        assert_eq!(b.get_score(), None);
    }
}

#[test]
fn training_think_records_guess_and_score() {
    let mut b = burt(4, 2 * UNIT, UNIT);
    assert_eq!(b.training_think(5, 9), (9, 4));
    assert_eq!(b.get_guess(), Some(9));
    assert_eq!(b.get_score(), Some(4));
    assert_eq!(b.get_id(), 4);
    assert_eq!(b.get_mu(), 2 * UNIT);
}

#[test]
fn displays_unknown_then_digits() {
    let mut b = burt(0, 0, 0);
    assert_eq!(b.get_score_display(), "?");
    assert_eq!(b.get_guess_display(), "?");
    b.training_think(1000, 3234);
    assert_eq!(b.get_score_display(), "2234");
    assert_eq!(b.get_guess_display(), "3234");
    b.training_think(7, 7);
    assert_eq!(b.get_score_display(), "0");
}

#[test]
fn decimal_string_exact() {
    assert_eq!(decimal_string(0), "0");
    assert_eq!(decimal_string(10), "10");
    assert_eq!(decimal_string(u32::MAX), "4294967295");
}

#[test]
fn reeducate_copies_teacher() {
    let mut b = burt(1, 5, 6);
    b.reeducate(70, 80);
    assert_eq!((b.get_mu(), b.get_sigma(), b.get_id()), (70, 80, 1));
}

#[test]
fn reeducate_average_matches_fields() {
    let mut b = burt(1, 3, 5);
    b.reeducate_average(4, 8);
    assert_eq!((b.get_mu(), b.get_sigma()), (3, 6));
    let mut c = burt(2, u64::MAX, u64::MAX - 1);
    c.reeducate_average(u64::MAX, u64::MAX);
    assert_eq!((c.get_mu(), c.get_sigma()), (u64::MAX, u64::MAX - 1));
}

#[test]
fn apply_mutation_clamps_to_range() {
    let mut b = burt(0, 9_500_000, 300_000);
    b.apply_mutation(1_000_000, true, 500_000, false, 10);
    assert_eq!((b.get_mu(), b.get_sigma()), (10 * UNIT, 0));
    let mut c = burt(0, 4 * UNIT, 4 * UNIT);
    c.apply_mutation(250_000, false, 750_000, true, 10);
    assert_eq!((c.get_mu(), c.get_sigma()), (3_750_000, 4_750_000));
    let mut d = burt(0, 20 * UNIT, 20 * UNIT);
    d.apply_mutation(UNIT, false, 0, true, 10);
    assert_eq!((d.get_mu(), d.get_sigma()), (10 * UNIT, 10 * UNIT));
}

#[test]
fn mutate_stays_within_range_and_step() {
    let mut rng = StdRng::seed_from_u64(9);
    let mut b = burt(0, 5 * UNIT, 5 * UNIT);
    let mut moved = false;
    for _ in 0..100 {
        let before = b;
        b.mutate(250_000, 10, &mut rng);
        assert!(b.get_mu() <= 10 * UNIT && b.get_sigma() <= 10 * UNIT);
        assert!(b.get_mu().abs_diff(before.get_mu()) < 2_500_000);
        assert!(b.get_sigma().abs_diff(before.get_sigma()) < 2_500_000);
        if b.get_mu() != before.get_mu() {
            moved = true;
        }
    }
    assert!(moved);
}
