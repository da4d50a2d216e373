use finance_ledger::add;
use finance_ledger::Counter;

#[test]
fn it_works() {
    let result = add(2, 2);
    assert_eq!(result, 4);
}

#[test]
fn counter_counts_from_zero() {
    let mut counter = Counter::new();
    assert_eq!(counter.increment(), 1);
    assert_eq!(counter.increment(), 2);
}

#[test]
fn counter_shows_its_tally() {
    let mut counter = Counter::new();
    assert_eq!(counter.current(), 0);
    counter.increment();
    assert_eq!(counter.current(), 1);
}

#[test]
fn add_at_the_limit() {
    assert_eq!(add(u64::MAX - 1, 1), u64::MAX);
    assert_eq!(add(0, 0), 0);
}
