use oracle_settle::resolution::try_resolve;

#[test]
fn no_consensus_below_three_reports() {
    assert_eq!(try_resolve(&vec![]), None);
    assert_eq!(try_resolve(&vec![1000]), None);
    assert_eq!(try_resolve(&vec![1000, 1000]), None);
}

#[test]
fn consensus_within_one_percent_returns_mean() {
    // spread = (10100 - 10000) / 10000 = 1%, right at the tolerance
    assert_eq!(try_resolve(&vec![10000, 10050, 10100]), Some(10050));
}

#[test]
fn consensus_mean_rounds_down() {
    // sum = 3001, mean = 1000.33..
    assert_eq!(try_resolve(&vec![1000, 1000, 1001]), Some(1000));
}

#[test]
fn no_consensus_beyond_one_percent() {
    // spread = 101 / 10000 > 1%
    assert_eq!(try_resolve(&vec![10000, 10050, 10101]), None);
}

#[test]
fn no_consensus_on_wide_spread_four_reports() {
    // values 99.0, 100.0, 100.3, 101.0 at one decimal of fixed point:
    // spread = (1010 - 990) / 990 is about 2%, over the tolerance
    assert_eq!(try_resolve(&vec![990, 1000, 1003, 1010]), None);
}

#[test]
fn zero_minimum_never_converges() {
    assert_eq!(try_resolve(&vec![0, 0, 0]), None);
    assert_eq!(try_resolve(&vec![0, 1, 1]), None);
}

#[test]
fn order_does_not_matter() {
    assert_eq!(try_resolve(&vec![10100, 10000, 10050]), Some(10050));
}
