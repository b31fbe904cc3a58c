use powerball_generator::criteria::Criteria;
use powerball_generator::draw::{criteria_filtered_ticket, pattern_ticket, request_ticket, uniform_ticket, Mode};
use powerball_generator::sampler::{compute_total, draw, select, EmptyDomainError};
use powerball_generator::weights::{main_table, special_table, uniform_table, ConfigError, Tier, WeightTable};

fn hot_set() -> Vec<u32> {
    vec![28, 5, 51, 58, 8, 18, 19, 53, 6, 21]
}

fn cold_set() -> Vec<u32> {
    vec![61, 65, 12, 13, 17, 38, 41, 42, 45, 67]
}

fn assert_valid_main_numbers(main: &[u32]) {
    assert_eq!(main.len(), 5);
    for w in main.windows(2) {
        assert!(w[0] < w[1], "main numbers not strictly ascending: {:?}", main);
    }
    for &n in main {
        assert!((1..=69).contains(&n), "main number out of range: {}", n);
    }
}

#[test]
fn build_assigns_tier_weights() {
    let tiers = vec![Tier { members: vec![2, 3], weight: 5 }];
    let t = WeightTable::build(1, 10, &tiers, 7).unwrap();
    assert_eq!(t.weights, vec![7, 5, 5, 7, 7, 7, 7, 7, 7, 7]);
}

#[test]
fn build_first_tier_wins() {
    let tiers = vec![
        Tier { members: vec![4], weight: 2 },
        Tier { members: vec![4, 5], weight: 9 },
    ];
    let t = WeightTable::build(1, 5, &tiers, 1).unwrap();
    assert_eq!(t.weights, vec![1, 1, 1, 2, 9]);
}

#[test]
fn build_rejects_malformed_tiers() {
    let zero = vec![Tier { members: vec![2], weight: 0 }];
    assert!(matches!(WeightTable::build(1, 10, &zero, 7), Err(ConfigError::MalformedTier)));
    let outside = vec![Tier { members: vec![11], weight: 3 }];
    assert!(matches!(WeightTable::build(1, 10, &outside, 7), Err(ConfigError::MalformedTier)));
    let no_tiers: Vec<Tier> = Vec::new();
    assert!(matches!(WeightTable::build(1, 10, &no_tiers, 0), Err(ConfigError::MalformedTier)));
}

#[test]
fn build_rejects_overflowing_weights() {
    let no_tiers: Vec<Tier> = Vec::new();
    assert!(matches!(
        WeightTable::build(1, 2, &no_tiers, u64::MAX),
        Err(ConfigError::WeightOverflow)
    ));
}

#[test]
fn main_table_weights() {
    let t = main_table();
    assert_eq!(t.weights.len(), 69);
    for &h in &hot_set() {
        assert_eq!(t.weights[(h - 1) as usize], 30, "hot number {}", h);
    }
    for &c in &cold_set() {
        assert_eq!(t.weights[(c - 1) as usize], 5, "cold number {}", c);
    }
    assert_eq!(t.weights[0], 10); // number 1 is neutral
}

#[test]
fn special_table_weights() {
    let t = special_table();
    assert_eq!(t.weights.len(), 26);
    assert_eq!(t.weights[1], 50); // number 2
    assert_eq!(t.weights[2], 20); // number 3
    assert_eq!(t.weights[3], 15); // number 4
    assert_eq!(t.weights[4], 12); // number 5
    for n in 22..=26u32 {
        assert_eq!(t.weights[(n - 1) as usize], 1, "very cold special {}", n);
    }
    assert_eq!(t.weights[0], 8); // number 1
    assert_eq!(t.weights[5], 8); // number 6
}

#[test]
fn totals_reflect_exclusion() {
    let t = uniform_table(1, 69);
    let none: Vec<u32> = Vec::new();
    assert_eq!(compute_total(&t, &none), 690);
    let some = vec![1, 2, 3];
    assert_eq!(compute_total(&t, &some), 660);
}

#[test]
fn select_walks_in_ascending_order() {
    let t = uniform_table(1, 3);
    let none: Vec<u32> = Vec::new();
    assert_eq!(select(&t, &none, 0), 1);
    assert_eq!(select(&t, &none, 9), 1);
    assert_eq!(select(&t, &none, 10), 2);
    assert_eq!(select(&t, &none, 29), 3);
    let ex = vec![1];
    assert_eq!(select(&t, &ex, 0), 2);
    assert_eq!(select(&t, &ex, 10), 3);
}

#[test]
fn draw_fails_exactly_on_empty_candidates() {
    let t = uniform_table(1, 5);
    let all: Vec<u32> = (1..=5).collect();
    assert_eq!(draw(&t, &all), Err(EmptyDomainError));
    let almost: Vec<u32> = (1..=4).collect();
    assert_eq!(draw(&t, &almost), Ok(5));
}

#[test]
fn draw_respects_exclusion() {
    let t = main_table();
    let excluded: Vec<u32> = (1..=10).collect();
    for _ in 0..1000 {
        let n = draw(&t, &excluded).unwrap();
        assert!(!excluded.contains(&n));
        assert!((1..=69).contains(&n));
    }
}

#[test]
fn draw_frequencies_follow_weights() {
    // special table: number 2 holds 50/238 of the weight, number 22 only
    // 1/238; over many draws their frequencies must sit far apart
    let t = special_table();
    let none: Vec<u32> = Vec::new();
    let mut count2 = 0u32;
    let mut count22 = 0u32;
    let rounds = 100_000;
    for _ in 0..rounds {
        match draw(&t, &none).unwrap() {
            2 => count2 += 1,
            22 => count22 += 1,
            _ => {}
        }
    }
    // expectation: about 21_000 and about 420
    assert!(count2 > 15_000, "number 2 drawn only {} times", count2);
    assert!(count2 < 28_000, "number 2 drawn {} times", count2);
    assert!(count22 < 2_000, "number 22 drawn {} times", count22);
    assert!(count2 > 5 * count22);
}

#[test]
fn uniform_ticket_is_valid() {
    let t = uniform_ticket();
    assert_valid_main_numbers(&t.main_numbers);
    assert!((1..=26).contains(&t.special));
}

#[test]
fn pattern_ticket_is_valid_and_mixed() {
    for _ in 0..100 {
        let t = pattern_ticket();
        assert_valid_main_numbers(&t.main_numbers);
        assert!((1..=26).contains(&t.special));
        let hot = t.main_numbers.iter().filter(|n| hot_set().contains(n)).count();
        let cold = t.main_numbers.iter().filter(|n| cold_set().contains(n)).count();
        assert!(hot >= 2, "ticket holds {} hot numbers: {:?}", hot, t.main_numbers);
        assert!(cold >= 1, "ticket holds {} cold numbers: {:?}", cold, t.main_numbers);
    }
}

#[test]
fn pattern_tickets_favour_hot_numbers() {
    let mut with_hot = 0u32;
    let mut with_neutral = 0u32;
    for _ in 0..100 {
        let t = pattern_ticket();
        if t.main_numbers.contains(&28) {
            with_hot += 1;
        }
        if t.main_numbers.contains(&1) {
            with_neutral += 1;
        }
    }
    assert!(
        with_hot > with_neutral,
        "28 appeared in {} tickets, 1 in {}",
        with_hot,
        with_neutral
    );
}

#[test]
fn criteria_filtered_within_budget() {
    match criteria_filtered_ticket(&Criteria::default(), 100_000) {
        Ok((t, attempts)) => {
            assert_valid_main_numbers(&t.main_numbers);
            let sum: u32 = t.main_numbers.iter().sum();
            let spread = t.main_numbers[4] - t.main_numbers[0];
            assert!((134..=218).contains(&sum));
            assert!((41..=51).contains(&spread));
            assert!((1..=100_000).contains(&attempts));
        }
        Err(_) => {
            // allowed by the contract, though wildly improbable
        }
    }
}

#[test]
fn criteria_filtered_succeeds_when_criteria_admit_everything() {
    // every valid ticket has sum <= 345 and spread <= 68, so these
    // criteria admit all of them and one attempt must succeed
    let loose = Criteria { sum_lo: 0, sum_hi: 1000, spread_lo: 0, spread_hi: 100 };
    let (t, attempts) = criteria_filtered_ticket(&loose, 1).unwrap();
    assert_valid_main_numbers(&t.main_numbers);
    assert_eq!(attempts, 1);
}

#[test]
fn criteria_filtered_gives_up_on_impossible_criteria() {
    let impossible = Criteria { sum_lo: 1, sum_hi: 0, spread_lo: 41, spread_hi: 51 };
    assert!(criteria_filtered_ticket(&impossible, 50).is_err());
    assert!(criteria_filtered_ticket(&Criteria::default(), 0).is_err());
}

#[test]
fn request_ticket_dispatches() {
    let (t, attempts) = request_ticket(Mode::Uniform, 0).unwrap();
    assert_valid_main_numbers(&t.main_numbers);
    assert_eq!(attempts, 1);
    let (t, attempts) = request_ticket(Mode::Pattern, 0).unwrap();
    assert_valid_main_numbers(&t.main_numbers);
    assert_eq!(attempts, 1);
    if let Ok((t, attempts)) = request_ticket(Mode::CriteriaFiltered, 100_000) {
        let sum: u32 = t.main_numbers.iter().sum();
        assert!((134..=218).contains(&sum));
        assert!(attempts >= 1);
    }
    assert!(request_ticket(Mode::CriteriaFiltered, 0).is_err());
}
