use ledger_utils::AccountBalance;
use ledger_utils::Amount;
use ledger_utils::Balance;
use ledger_utils::Commodity;
use ledger_utils::CommodityPosition;
use ledger_utils::CommodityPrice;
use ledger_utils::Date;
use ledger_utils::DateTime;
use ledger_utils::Decimal;
use ledger_utils::Ledger;
use ledger_utils::Posting;
use ledger_utils::Prices;
use ledger_utils::PricesError;
use ledger_utils::Reality;
use ledger_utils::Transaction;
use ledger_utils::decimal::UNIT;

fn amt(quantity: Decimal, name: &str) -> Amount {
    Amount {
        quantity,
        commodity: Commodity { name: name.to_string(), position: CommodityPosition::Right },
    }
}

fn posting(account: &str, quantity: Decimal, name: &str, date: Date) -> Posting {
    Posting {
        date,
        effective_date: date,
        account: account.to_string(),
        reality: Reality::Real,
        amount: amt(quantity, name),
        status: None,
        comment: None,
        tags: vec![],
    }
}

fn txn(date: Date, postings: Vec<Posting>) -> Transaction {
    Transaction {
        comment: None,
        date,
        effective_date: date,
        status: None,
        code: None,
        description: String::new(),
        postings,
    }
}

/// The (commodity, units) entries of an account balance, sorted.
fn flat_ab(ab: &AccountBalance) -> Vec<(String, i128)> {
    let mut out: Vec<(String, i128)> = ab
        .amounts
        .iter()
        .map(|a| (a.commodity.name.clone(), a.quantity.units))
        .collect();
    out.sort();
    out
}

/// The (account, commodity, units) entries of a balance, sorted.
fn flat(b: &Balance) -> Vec<(String, String, i128)> {
    let mut out: Vec<(String, String, i128)> = Vec::new();
    for (account, ab) in &b.account_balances {
        for a in &ab.amounts {
            out.push((account.clone(), a.commodity.name.clone(), a.quantity.units));
        }
    }
    out.sort();
    out
}

#[test]
fn merge_adds_per_commodity_and_prunes_exact_zero() {
    let mut a = AccountBalance::new();
    a.add_amount(&amt(Decimal::new(5, 0), "EUR"));
    a.add_amount(&amt(Decimal::new(3, 0), "USD"));
    let mut b = AccountBalance::new();
    b.add_amount(&amt(Decimal::new(-5, 0), "EUR"));
    b.add_amount(&amt(Decimal::new(2, 0), "USD"));
    a.add_account_balance(&b);
    // EUR summed to exactly zero and is gone; USD remains
    assert_eq!(flat_ab(&a), vec![("USD".to_string(), 5 * UNIT)]);
}

#[test]
fn subtraction_is_merge_with_negated_operand() {
    let mut a = AccountBalance::new();
    a.add_amount(&amt(Decimal::new(5, 0), "EUR"));
    let mut b = AccountBalance::new();
    b.add_amount(&amt(Decimal::new(2, 0), "EUR"));
    b.add_amount(&amt(Decimal::new(7, 0), "USD"));
    a.sub_account_balance(&b);
    assert_eq!(
        flat_ab(&a),
        vec![("EUR".to_string(), 3 * UNIT), ("USD".to_string(), -7 * UNIT)]
    );
}

#[test]
fn is_zero_sees_only_exact_zero() {
    let mut a = AccountBalance::new();
    assert!(a.is_zero());
    a.add_amount(&amt(Decimal::new(1, 9), "EUR"));
    assert!(!a.is_zero());
    a.add_amount(&amt(Decimal::new(-1, 9), "EUR"));
    assert!(a.is_zero());
}

#[test]
fn balance_update_prunes_emptied_accounts() {
    let date = Date::new(2023, 1, 5);
    let mut balance = Balance::new();
    balance.update_with_transaction(&txn(
        date,
        vec![
            posting("Assets:Bank", Decimal::new(10, 0), "USD", date),
            posting("Income:Salary", Decimal::new(-10, 0), "USD", date),
        ],
    ));
    balance.update_with_transaction(&txn(
        date,
        vec![
            posting("Assets:Bank", Decimal::new(-10, 0), "USD", date),
            posting("Expenses:Rent", Decimal::new(10, 0), "USD", date),
        ],
    ));
    // Assets:Bank went back to exactly zero and is gone entirely
    assert_eq!(
        flat(&balance),
        vec![
            ("Expenses:Rent".to_string(), "USD".to_string(), 10 * UNIT),
            ("Income:Salary".to_string(), "USD".to_string(), -10 * UNIT),
        ]
    );
}

#[test]
fn balance_merge_is_commutative_on_values() {
    let date = Date::new(2023, 1, 5);
    let t1 = txn(date, vec![posting("A", Decimal::new(1, 0), "USD", date)]);
    let t2 = txn(date, vec![posting("B", Decimal::new(2, 0), "EUR", date)]);
    let a = Balance::from_transaction(&t1);
    let b = Balance::from_transaction(&t2);
    let mut ab = a.duplicate();
    ab.add_balance(&b);
    let mut ba = b.duplicate();
    ba.add_balance(&a);
    assert_eq!(flat(&ab), flat(&ba));
}

#[test]
fn get_account_balance_matches_raw_prefixes_once() {
    let date = Date::new(2023, 1, 5);
    let mut balance = Balance::new();
    balance.add_amount("Assets:Bank", &amt(Decimal::new(5, 0), "USD"));
    balance.add_amount("AssetsOther", &amt(Decimal::new(3, 0), "USD"));
    balance.add_amount("Income:Salary", &amt(Decimal::new(-9, 0), "USD"));
    let _ = date;
    // raw string prefix: "Assets" also catches "AssetsOther"
    let loose = balance.get_account_balance(&vec!["Assets".to_string()]);
    assert_eq!(flat_ab(&loose), vec![("USD".to_string(), 8 * UNIT)]);
    // a trailing separator keeps the match segment-exact
    let tight = balance.get_account_balance(&vec!["Assets:".to_string()]);
    assert_eq!(flat_ab(&tight), vec![("USD".to_string(), 5 * UNIT)]);
    // several prefixes count a doubly-matched account only once
    let both = balance.get_account_balance(&vec![
        "Assets:".to_string(),
        "Assets:Bank".to_string(),
    ]);
    assert_eq!(flat_ab(&both), vec![("USD".to_string(), 5 * UNIT)]);
}

#[test]
fn value_in_commodity_converts_everything_foreign() {
    let ledger = Ledger {
        commodity_prices: vec![CommodityPrice {
            datetime: DateTime { date: Date::new(2023, 1, 1), seconds: 0 },
            commodity_name: "EUR".to_string(),
            amount: amt(Decimal::new(110, 2), "USD"),
        }],
        transactions: vec![],
    };
    let prices = Prices::load(&ledger);
    let mut ab = AccountBalance::new();
    ab.add_amount(&amt(Decimal::new(100, 0), "EUR"));
    ab.add_amount(&amt(Decimal::new(10, 0), "USD"));
    let value = ab.value_in_commodity("USD", Date::new(2023, 1, 2), &prices).unwrap();
    assert_eq!(value.units, 120 * UNIT);
    // a held commodity with no recorded pair fails the whole valuation
    ab.add_amount(&amt(Decimal::new(1, 0), "GBP"));
    assert!(matches!(
        ab.value_in_commodity("USD", Date::new(2023, 1, 2), &prices),
        Err(PricesError::NoSuchCommoditiesPair(_))
    ));
}

#[test]
fn value_in_commodity_rounded_rounds_half_away() {
    let ledger = Ledger {
        commodity_prices: vec![CommodityPrice {
            datetime: DateTime { date: Date::new(2023, 1, 1), seconds: 0 },
            commodity_name: "EUR".to_string(),
            amount: amt(Decimal::new(1115, 3), "USD"),
        }],
        transactions: vec![],
    };
    let prices = Prices::load(&ledger);
    let mut ab = AccountBalance::new();
    ab.add_amount(&amt(Decimal::new(1, 0), "EUR"));
    // 1.115 rounded to two digits, half away from zero
    let rounded = ab.value_in_commodity_rounded("USD", 2, Date::new(2023, 1, 2), &prices);
    assert_eq!(rounded.units, 1_120_000_000);
}

#[test]
fn account_merge_is_commutative_and_associative_on_values() {
    let mk = |pairs: &[(&str, i64)]| {
        let mut ab = AccountBalance::new();
        for (name, units) in pairs {
            ab.add_amount(&amt(Decimal::new(*units, 0), name));
        }
        ab
    };
    let a = mk(&[("EUR", 5), ("USD", 1)]);
    let b = mk(&[("EUR", -5), ("GBP", 2)]);
    let c = mk(&[("GBP", -2), ("JPY", 9)]);

    let mut ab = a.duplicate();
    ab.add_account_balance(&b);
    let mut ba = b.duplicate();
    ba.add_account_balance(&a);
    assert_eq!(flat_ab(&ab), flat_ab(&ba));

    let mut ab_c = ab.duplicate();
    ab_c.add_account_balance(&c);
    let mut bc = b.duplicate();
    bc.add_account_balance(&c);
    let mut a_bc = a.duplicate();
    a_bc.add_account_balance(&bc);
    assert_eq!(flat_ab(&ab_c), flat_ab(&a_bc));
}

#[test]
fn balance_subtraction_negates_even_missing_accounts() {
    let date = Date::new(2023, 1, 5);
    let t1 = txn(date, vec![posting("A", Decimal::new(5, 0), "USD", date)]);
    let t2 = txn(
        date,
        vec![
            posting("A", Decimal::new(2, 0), "USD", date),
            posting("B", Decimal::new(3, 0), "EUR", date),
        ],
    );
    let mut a = Balance::from_transaction(&t1);
    let b = Balance::from_transaction(&t2);
    a.sub_balance(&b);
    assert_eq!(
        flat(&a),
        vec![
            ("A".to_string(), "USD".to_string(), 3 * UNIT),
            ("B".to_string(), "EUR".to_string(), -3 * UNIT),
        ]
    );
}

#[test]
fn balance_merge_is_associative_on_values() {
    let date = Date::new(2023, 1, 5);
    let a = Balance::from_transaction(&txn(
        date,
        vec![posting("X", Decimal::new(4, 0), "USD", date)],
    ));
    let b = Balance::from_transaction(&txn(
        date,
        vec![posting("X", Decimal::new(-4, 0), "USD", date)],
    ));
    let c = Balance::from_transaction(&txn(
        date,
        vec![posting("Y", Decimal::new(1, 0), "EUR", date)],
    ));
    let mut left = a.duplicate();
    left.add_balance(&b);
    left.add_balance(&c);
    let mut bc = b.duplicate();
    bc.add_balance(&c);
    let mut right = a.duplicate();
    right.add_balance(&bc);
    assert_eq!(flat(&left), flat(&right));
    // the zeroed account is gone on both sides
    assert_eq!(flat(&left), vec![("Y".to_string(), "EUR".to_string(), UNIT)]);
}
