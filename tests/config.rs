use malb::{get_in_range, populate_burts, Burt, BurtGang, ConfigError, IndexOutOfRange, MenuItem, UNIT};
use rand::rngs::StdRng;
use rand::SeedableRng;

fn burt(id: u32) -> Burt {
    Burt { id, score: None, guess: None, mu: UNIT, sigma: UNIT }
}

fn numbered(n: u32) -> Vec<Burt> {
    (0..n).map(burt).collect()
}

#[test]
fn new_refuses_each_problem() {
    assert_eq!(BurtGang::new(vec![], 10, 5, 1, 500_000, 250_000).err(), Some(ConfigError::EmptyPopulation));
    assert_eq!(BurtGang::new(numbered(3), 0, 5, 1, 500_000, 250_000).err(), Some(ConfigError::ZeroRange));
    assert_eq!(BurtGang::new(numbered(3), 10, 5, 1, 0, 250_000).err(), Some(ConfigError::SurvivalRateOutOfRange));
    assert_eq!(BurtGang::new(numbered(3), 10, 5, 1, 1_000_000, 250_000).err(), Some(ConfigError::SurvivalRateOutOfRange));
    assert_eq!(BurtGang::new(numbered(3), 10, 5, 1, 500_000, 0).err(), Some(ConfigError::MutationRateOutOfRange));
    assert_eq!(BurtGang::new(numbered(3), 10, 5, 1, 500_000, 1_000_000).err(), Some(ConfigError::MutationRateOutOfRange));
    assert_eq!(BurtGang::new(vec![burt(0), burt(2)], 10, 5, 1, 500_000, 250_000).err(), Some(ConfigError::MisnumberedBurt));
    assert_eq!(BurtGang::new(vec![], 0, 5, 1, 0, 0).err(), Some(ConfigError::EmptyPopulation));
}

#[test]
fn new_keeps_configuration() {
    let g = BurtGang::new(numbered(3), 10, 5, 7, 1, 999_999).unwrap();
    assert_eq!(g.len(), 3);
    assert_eq!((g.range(), g.target(), g.generations()), (10, 5, 7));
    assert_eq!((g.survival_rate(), g.mutation_rate()), (1, 999_999));
    assert_eq!(g.current_generation(), 0);
    assert_eq!(g.average_guess(), None);
    assert_eq!(g.average_score(), None);
    assert_eq!(g.av_guess_display(), "?");
    assert_eq!(g.av_score_display(), "?");
}

#[test]
fn construct_draws_initial_parameters_below_range() {
    let mut rng = StdRng::seed_from_u64(5);
    let g = BurtGang::construct(100, 4, 2, 10, 500_000, 250_000, &mut rng).unwrap();
    assert_eq!(g.len(), 100);
    for (i, b) in g.iter().iter().enumerate() {
        assert_eq!(b.get_id() as usize, i);
        assert!(b.get_mu() < 4 * UNIT && b.get_sigma() < 4 * UNIT);
        assert_eq!(b.get_guess(), None);
    }
    let mut rng = StdRng::seed_from_u64(5);
    assert_eq!(BurtGang::construct(0, 4, 2, 10, 500_000, 250_000, &mut rng).err(), Some(ConfigError::EmptyPopulation));
    assert_eq!(BurtGang::construct(3, 4, 2, 10, 500_000, 2_000_000, &mut rng).err(), Some(ConfigError::MutationRateOutOfRange));
}

#[test]
fn populate_numbers_slots() {
    let mut rng = StdRng::seed_from_u64(8);
    let burts = populate_burts(12, 1, &mut rng);
    assert_eq!(burts.len(), 12);
    for (i, b) in burts.iter().enumerate() {
        assert_eq!(b.get_id() as usize, i);
        assert!(b.get_mu() < UNIT && b.get_sigma() < UNIT);
    }
}

#[test]
fn get_past_the_end_is_an_error() {
    let g = BurtGang::new(numbered(3), 10, 5, 1, 500_000, 250_000).unwrap();
    assert_eq!(g.get(2).unwrap().get_id(), 2);
    assert_eq!(g.get(3).err(), Some(IndexOutOfRange { index: 3, len: 3 }));
}

#[test]
fn setters_check_rates_and_range() {
    let mut g = BurtGang::new(numbered(2), 10, 5, 1, 500_000, 250_000).unwrap();
    assert_eq!(g.set_range(0), Err(ConfigError::ZeroRange));
    assert_eq!(g.range(), 10);
    assert_eq!(g.set_range(3), Ok(()));
    assert_eq!(g.range(), 3);
    assert_eq!(g.get(0).unwrap().get_mu(), UNIT);
    assert_eq!(g.set_survival_rate(1_000_000), Err(ConfigError::SurvivalRateOutOfRange));
    assert_eq!(g.set_survival_rate(100_000), Ok(()));
    assert_eq!(g.survival_rate(), 100_000);
    assert_eq!(g.set_mutation_rate(0), Err(ConfigError::MutationRateOutOfRange));
    assert_eq!(g.set_mutation_rate(10), Ok(()));
    assert_eq!(g.mutation_rate(), 10);
    g.set_target(1);
    g.set_generations(99);
    assert_eq!((g.target(), g.generations()), (1, 99));
}

#[test]
fn get_in_range_checks_bounds() {
    assert_eq!(get_in_range(5, 0..10), Ok(5));
    assert_eq!(get_in_range(0, 0..1), Ok(0));
    assert_eq!(get_in_range(10, 0..10), Err(String::from("Invalid number: Expected a number between 0 and 9!")));
    assert_eq!(get_in_range(2, 3..120), Err(String::from("Invalid number: Expected a number between 3 and 119!")));
    assert_eq!(get_in_range(2, 5..0), Err(String::from("Invalid number: Expected a number between 5 and -1!")));
}

#[test]
fn menu_items_map_to_tabs() {
    assert_eq!(usize::from(MenuItem::Home), 0);
    assert_eq!(usize::from(MenuItem::Burts), 1);
    let l: usize = MenuItem::Log.into();
    assert_eq!(l, 2);
}
