use powerball_generator::criteria::Criteria;
use powerball_generator::ticket::PowerBallGame;

fn ticket(main: Vec<u32>, special: u32) -> PowerBallGame {
    match PowerBallGame::from_numbers(main, special) {
        Some(t) => t,
        None => panic!("expected a valid ticket"),
    }
}

#[test]
fn ticket_new_sorts_and_validates() {
    let t = ticket(vec![51, 10, 22, 31, 20], 5);
    assert_eq!(t.main_numbers, vec![10, 20, 22, 31, 51]);
    assert_eq!(t.special, 5);
}

#[test]
fn ticket_new_rejects_bad_proposals() {
    assert!(PowerBallGame::from_numbers(vec![1, 2, 3, 4], 5).is_none());
    assert!(PowerBallGame::from_numbers(vec![1, 2, 3, 4, 5, 6], 5).is_none());
    assert!(PowerBallGame::from_numbers(vec![1, 2, 3, 4, 4], 5).is_none());
    assert!(PowerBallGame::from_numbers(vec![1, 2, 3, 4, 70], 5).is_none());
    assert!(PowerBallGame::from_numbers(vec![0, 2, 3, 4, 5], 5).is_none());
    assert!(PowerBallGame::from_numbers(vec![1, 2, 3, 4, 5], 0).is_none());
    assert!(PowerBallGame::from_numbers(vec![1, 2, 3, 4, 5], 27).is_none());
    assert!(PowerBallGame::from_numbers(vec![1, 2, 3, 4, 5], 26).is_some());
}

#[test]
fn sum_and_spread_are_exact() {
    let t = ticket(vec![10, 20, 22, 31, 51], 5);
    assert_eq!(t.sum(), 134);
    assert_eq!(t.spread(), 41);
}

#[test]
fn criteria_boundaries_on_sum() {
    // spread fixed at 41, inside its range
    assert!(ticket(vec![10, 20, 22, 31, 51], 1).meets_criteria()); // sum 134
    assert!(!ticket(vec![10, 20, 22, 30, 51], 1).meets_criteria()); // sum 133
    assert!(ticket(vec![28, 31, 40, 50, 69], 1).meets_criteria()); // sum 218
    assert!(!ticket(vec![28, 32, 40, 50, 69], 1).meets_criteria()); // sum 219
}

#[test]
fn criteria_boundaries_on_spread() {
    // sums inside [134, 218]
    assert!(ticket(vec![10, 20, 30, 40, 61], 1).meets_criteria()); // spread 51
    assert!(!ticket(vec![10, 30, 40, 50, 62], 1).meets_criteria()); // spread 52
    assert!(ticket(vec![20, 25, 30, 40, 61], 1).meets_criteria()); // spread 41, sum 176
    assert!(!ticket(vec![20, 30, 40, 50, 60], 1).meets_criteria()); // spread 40
}

#[test]
fn custom_criteria_satisfies() {
    let loose = Criteria { sum_lo: 0, sum_hi: 1000, spread_lo: 0, spread_hi: 100 };
    let tight = Criteria { sum_lo: 15, sum_hi: 15, spread_lo: 4, spread_hi: 4 };
    let t = ticket(vec![1, 2, 3, 4, 5], 1);
    assert!(loose.satisfies(&t));
    assert!(tight.satisfies(&t)); // sum 15, spread 4
    let off = Criteria { sum_lo: 16, sum_hi: 20, spread_lo: 4, spread_hi: 4 };
    assert!(!off.satisfies(&t));
}

#[test]
fn default_criteria_values() {
    let c = Criteria::default();
    assert_eq!(c.sum_lo, 134);
    assert_eq!(c.sum_hi, 218);
    assert_eq!(c.spread_lo, 41);
    assert_eq!(c.spread_hi, 51);
}
