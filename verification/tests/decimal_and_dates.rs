use ledger_utils::Date;
use ledger_utils::DateTime;
use ledger_utils::Decimal;
use ledger_utils::decimal::UNIT;
use ledger_utils::strutil::split_colon_exec;
use ledger_utils::strutil::starts_with_exec;

#[test]
fn decimal_new_scales_mantissa() {
    assert_eq!(Decimal::new(120, 2).units, 1_200_000_000);
    assert_eq!(Decimal::new(-4, 0).units, -4 * UNIT);
    assert_eq!(Decimal::new(500, 2).units, 5 * UNIT);
    assert_eq!(Decimal::new(123_456_789, 9).units, 123_456_789);
}

#[test]
fn decimal_add_and_neg_are_exact() {
    let a = Decimal::new(110, 2);
    let b = Decimal::new(-10, 1);
    assert_eq!(a.add(&b).units, 100_000_000);
    assert_eq!(a.neg().units, -1_100_000_000);
    assert!(a.add(&a.neg()).is_zero());
}

#[test]
fn decimal_mul_rounds_at_fixed_scale() {
    let hundred = Decimal::new(100, 0);
    let rate = Decimal::new(110, 2);
    assert_eq!(hundred.mul(&rate).units, 110 * UNIT);
    // 1 / 3 at nine digits, half away from zero
    let third = Decimal::new(1, 0).div(&Decimal::new(3, 0));
    assert_eq!(third.units, 333_333_333);
    let neg_third = Decimal::new(-1, 0).div(&Decimal::new(3, 0));
    assert_eq!(neg_third.units, -333_333_333);
}

#[test]
fn decimal_round_dp_half_away_from_zero() {
    assert_eq!(Decimal::new(2345, 3).round_dp(2).units, 2_350_000_000);
    assert_eq!(Decimal::new(-2345, 3).round_dp(2).units, -2_350_000_000);
    assert_eq!(Decimal::new(2344, 3).round_dp(2).units, 2_340_000_000);
    // precision at or above the fixed scale changes nothing
    assert_eq!(Decimal::new(2345, 3).round_dp(9).units, 2_345_000_000);
    assert_eq!(Decimal::new(2345, 3).round_dp(12).units, 2_345_000_000);
}

#[test]
fn date_ordering_is_chronological() {
    let a = Date::new(2022, 12, 31);
    let b = Date::new(2023, 1, 1);
    let c = Date::new(2023, 1, 2);
    assert!(a.le(&b));
    assert!(a.lt(&b));
    assert!(b.le(&b));
    assert!(!c.le(&b));
    let am = DateTime { date: a, seconds: 86_399 };
    let bm = DateTime { date: b, seconds: 0 };
    assert!(am.le(&bm));
    assert!(!bm.le(&am));
}

#[test]
fn split_colon_splits_account_paths() {
    let segs = split_colon_exec("Assets:Bank:Checking");
    let segs: Vec<&str> = segs.iter().map(|s| s.as_str()).collect();
    assert_eq!(segs, vec!["Assets", "Bank", "Checking"]);
    let single = split_colon_exec("Assets");
    assert_eq!(single.len(), 1);
    assert_eq!(single[0], "Assets");
    let empty = split_colon_exec("");
    assert_eq!(empty.len(), 1);
    assert_eq!(empty[0], "");
}

#[test]
fn starts_with_is_raw_prefix() {
    assert!(starts_with_exec("Assets:Bank", "Assets"));
    assert!(starts_with_exec("AssetsOther", "Assets"));
    assert!(!starts_with_exec("Assets:Bank", "Assets:Bank:Checking"));
    assert!(starts_with_exec("anything", ""));
}
