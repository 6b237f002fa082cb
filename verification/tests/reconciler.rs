use ledger_sync::date::Date;
use ledger_sync::reconcile::{reconcile, TransferCandidate};

fn candidate(account: &str, cents: i64, date: Date, text: &str) -> TransferCandidate {
    TransferCandidate {
        account_external_id: account.to_string(),
        amount_cents: cents,
        date,
        text: text.to_string(),
        type_code: "OVFNETTB".to_string(),
    }
}

fn march1() -> Date {
    Date { year: 2021, month: 3, day: 1 }
}

#[test]
fn empty_input_yields_nothing() {
    let r = reconcile(&Vec::new());
    assert!(r.pairs.is_empty());
    assert!(r.leftovers.is_empty());
}

#[test]
fn one_debit_and_credit_pair_up() {
    let cands = vec![
        candidate("A", -50000, march1(), "Til: Savings"),
        candidate("B", 50000, march1(), "Til: Savings"),
    ];
    let r = reconcile(&cands);
    assert_eq!(r.pairs, vec![(0usize, 1usize)]);
    assert!(r.leftovers.is_empty());
}

#[test]
fn credit_listed_before_debit_still_pairs() {
    let cands = vec![
        candidate("B", 50000, march1(), "Til: Savings"),
        candidate("A", -50000, march1(), "Til: Savings"),
    ];
    let r = reconcile(&cands);
    assert_eq!(r.pairs, vec![(1usize, 0usize)]);
    assert!(r.leftovers.is_empty());
}

#[test]
fn uneven_group_reports_leftover() {
    // two transfer groups with identical (abs, date, text) but one debit
    // and two credits: one matched pair, one leftover credit
    let cands = vec![
        candidate("A", -30000, march1(), "overføring"),
        candidate("B", 30000, march1(), "overføring"),
        candidate("C", 30000, march1(), "overføring"),
    ];
    let r = reconcile(&cands);
    assert_eq!(r.pairs, vec![(0usize, 1usize)]);
    assert_eq!(r.leftovers, vec![2usize]);
}

#[test]
fn different_dates_do_not_pair() {
    let cands = vec![
        candidate("A", -30000, march1(), "x"),
        candidate("B", 30000, Date { year: 2021, month: 3, day: 2 }, "x"),
    ];
    let r = reconcile(&cands);
    assert!(r.pairs.is_empty());
    assert_eq!(r.leftovers, vec![0usize, 1usize]);
}

#[test]
fn different_texts_do_not_pair() {
    let cands = vec![
        candidate("A", -30000, march1(), "x"),
        candidate("B", 30000, march1(), "y"),
    ];
    let r = reconcile(&cands);
    assert!(r.pairs.is_empty());
    assert_eq!(r.leftovers, vec![0usize, 1usize]);
}

#[test]
fn different_amounts_do_not_pair() {
    let cands = vec![
        candidate("A", -30000, march1(), "x"),
        candidate("B", 29900, march1(), "x"),
    ];
    let r = reconcile(&cands);
    assert!(r.pairs.is_empty());
    assert_eq!(r.leftovers, vec![0usize, 1usize]);
}

#[test]
fn same_sign_legs_never_pair() {
    let cands = vec![
        candidate("A", -30000, march1(), "x"),
        candidate("B", -30000, march1(), "x"),
    ];
    let r = reconcile(&cands);
    assert!(r.pairs.is_empty());
    assert_eq!(r.leftovers, vec![0usize, 1usize]);
}

#[test]
fn legs_pair_by_rank_within_their_group() {
    // three same-valued transfers clustered by sign: i-th debit pairs
    // with i-th credit, everything matched
    let cands = vec![
        candidate("A", -10000, march1(), "t"),
        candidate("A", -10000, march1(), "t"),
        candidate("A", -10000, march1(), "t"),
        candidate("B", 10000, march1(), "t"),
        candidate("B", 10000, march1(), "t"),
        candidate("B", 10000, march1(), "t"),
    ];
    let r = reconcile(&cands);
    assert_eq!(r.pairs, vec![(0usize, 3usize), (1usize, 4usize), (2usize, 5usize)]);
    assert!(r.leftovers.is_empty());
}

#[test]
fn groups_are_independent() {
    let cands = vec![
        candidate("A", -10000, march1(), "t"),
        candidate("A", -20000, march1(), "t"),
        candidate("B", 20000, march1(), "t"),
        candidate("B", 10000, march1(), "t"),
    ];
    let r = reconcile(&cands);
    assert_eq!(r.pairs, vec![(0usize, 3usize), (1usize, 2usize)]);
    assert!(r.leftovers.is_empty());
}

#[test]
fn matched_pair_count_is_min_of_sides() {
    let cands = vec![
        candidate("A", -10000, march1(), "t"),
        candidate("A", -10000, march1(), "t"),
        candidate("B", 10000, march1(), "t"),
    ];
    let r = reconcile(&cands);
    assert_eq!(r.pairs.len(), 1);
    assert_eq!(r.pairs, vec![(0usize, 2usize)]);
    assert_eq!(r.leftovers, vec![1usize]);
}

#[test]
fn every_candidate_lands_in_exactly_one_place() {
    let cands = vec![
        candidate("A", -10000, march1(), "t"),
        candidate("B", 10000, march1(), "t"),
        candidate("C", -99900, march1(), "u"),
        candidate("D", 42, march1(), "v"),
    ];
    let r = reconcile(&cands);
    let mut seen = vec![false; cands.len()];
    for (i, j) in &r.pairs {
        assert!(!seen[*i] && !seen[*j]);
        seen[*i] = true;
        seen[*j] = true;
    }
    for l in &r.leftovers {
        assert!(!seen[*l]);
        seen[*l] = true;
    }
    assert!(seen.iter().all(|x| *x));
}
