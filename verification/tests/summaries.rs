use finance_ledger::summary::summarize;
use finance_ledger::{GetTotalEarnedVsSpent, Ratio, RustDataframe, Transaction};

fn entry(amount: i64) -> Transaction {
    Transaction {
        date: "not a date".to_string(),
        transaction: "t".to_string(),
        amount,
        tags: None,
        id: None,
        remarks: None,
    }
}

#[test]
fn totals_of_a_mixed_set() {
    let records: Vec<Transaction> = [100_000, -50_000, 0, 2_550, -1].iter().map(|a| entry(*a)).collect();
    assert_eq!(
        summarize(&records),
        GetTotalEarnedVsSpent {
            total_earned: 102_550,
            total_spent: -50_001,
            net_income: 52_549,
            lifetime_savings_decimal: Some(Ratio { numerator: 52_549, denominator: 102_550 }),
        }
    );
}

#[test]
fn totals_of_nothing() {
    assert_eq!(
        summarize(&Vec::new()),
        GetTotalEarnedVsSpent {
            total_earned: 0,
            total_spent: 0,
            net_income: 0,
            lifetime_savings_decimal: None,
        }
    );
    let mut engine = RustDataframe::new();
    assert_eq!(engine.get_total_earned_vs_spent(), summarize(&Vec::new()));
}

#[test]
fn ratio_is_undefined_where_nothing_was_earned() {
    let records = vec![entry(-500), entry(0)];
    let summary = summarize(&records);
    assert_eq!(summary.total_earned, 0);
    assert_eq!(summary.total_spent, -500);
    assert_eq!(summary.net_income, -500);
    assert_eq!(summary.lifetime_savings_decimal, None);
}

#[test]
fn signs_and_net_hold_on_many_sets() {
    let mut seed: u64 = 7;
    for round in 0..50 {
        let mut records = Vec::new();
        for _ in 0..round {
            seed = seed.wrapping_mul(6364136223846793005).wrapping_add(1442695040888963407);
            records.push(entry((seed >> 20) as i64 % 1_000_000 - 500_000));
        }
        let summary = summarize(&records);
        assert!(summary.total_earned >= 0);
        assert!(summary.total_spent <= 0);
        assert_eq!(summary.net_income, summary.total_earned + summary.total_spent);
        let earned: i128 = records.iter().filter(|r| r.amount > 0).map(|r| r.amount as i128).sum();
        assert_eq!(summary.total_earned, earned);
    }
}

#[test]
fn totals_do_not_overflow_at_the_limits() {
    let records = vec![entry(i64::MAX), entry(i64::MAX), entry(i64::MIN), entry(i64::MIN), entry(i64::MIN)];
    let summary = summarize(&records);
    assert_eq!(summary.total_earned, 2 * (i64::MAX as i128));
    assert_eq!(summary.total_spent, 3 * (i64::MIN as i128));
    assert_eq!(summary.net_income, 2 * (i64::MAX as i128) + 3 * (i64::MIN as i128));
}

#[test]
fn summary_counts_records_without_a_readable_date() {
    let mut engine = RustDataframe::new();
    engine
        .parse_csv("date,transaction,amount,tags,id,remarks\nsomeday,a,10,,,\n\"January 1, 2024\",b,-4,,,\n")
        .unwrap();
    let summary = engine.get_total_earned_vs_spent();
    assert_eq!(summary.total_earned, 1_000);
    assert_eq!(summary.total_spent, -400);
    assert_eq!(summary.net_income, 600);
    assert_eq!(
        summary.lifetime_savings_decimal,
        Some(Ratio { numerator: 600, denominator: 1_000 })
    );
}

#[test]
fn summary_twice_is_the_same() {
    let mut engine = RustDataframe::new();
    engine.parse_csv("date,transaction,amount,tags,id,remarks\nx,a,10,,,\nx,b,-4,,,\n").unwrap();
    let before = engine.records();
    let first = engine.get_total_earned_vs_spent();
    let second = engine.get_total_earned_vs_spent();
    assert_eq!(first, second);
    assert_eq!(engine.records(), before);
}
