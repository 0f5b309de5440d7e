use ledger_utils::Amount;
use ledger_utils::Balance;
use ledger_utils::Commodity;
use ledger_utils::CommodityPosition;
use ledger_utils::CommodityPrice;
use ledger_utils::Date;
use ledger_utils::DateTime;
use ledger_utils::Decimal;
use ledger_utils::Ledger;
use ledger_utils::MonthlyReport;
use ledger_utils::Posting;
use ledger_utils::Reality;
use ledger_utils::Transaction;
use ledger_utils::TreeBalanceNode;
use ledger_utils::decimal::UNIT;
use ledger_utils::join_ledgers;

fn amt(quantity: Decimal, name: &str) -> Amount {
    Amount {
        quantity,
        commodity: Commodity { name: name.to_string(), position: CommodityPosition::Right },
    }
}

fn posting(account: &str, quantity: Decimal, name: &str, date: Date) -> Posting {
    Posting {
        date,
        effective_date: date,
        account: account.to_string(),
        reality: Reality::Real,
        amount: amt(quantity, name),
        status: None,
        comment: None,
        tags: vec![],
    }
}

fn txn(date: Date, postings: Vec<Posting>) -> Transaction {
    Transaction {
        comment: None,
        date,
        effective_date: date,
        status: None,
        code: None,
        description: String::new(),
        postings,
    }
}

fn txn_named(date: Date, description: &str) -> Transaction {
    Transaction {
        comment: None,
        date,
        effective_date: date,
        status: None,
        code: None,
        description: description.to_string(),
        postings: vec![posting("Assets:Bank", Decimal::new(1, 0), "USD", date)],
    }
}

/// The (account, commodity, units) entries of a balance, sorted.
fn flat(b: &Balance) -> Vec<(String, String, i128)> {
    let mut out: Vec<(String, String, i128)> = Vec::new();
    for (account, ab) in &b.account_balances {
        for a in &ab.amounts {
            out.push((account.clone(), a.commodity.name.clone(), a.quantity.units));
        }
    }
    out.sort();
    out
}

#[test]
fn monthly_report_buckets_per_month() {
    let t1 = txn(
        Date::new(2023, 1, 5),
        vec![posting("Assets:Bank", Decimal::new(10, 0), "USD", Date::new(2023, 1, 5))],
    );
    let t2 = txn(
        Date::new(2023, 1, 20),
        vec![posting("Assets:Bank", Decimal::new(5, 0), "USD", Date::new(2023, 1, 20))],
    );
    let t3 = txn(
        Date::new(2023, 2, 1),
        vec![posting("Assets:Bank", Decimal::new(7, 0), "USD", Date::new(2023, 2, 1))],
    );
    let ledger = Ledger { commodity_prices: vec![], transactions: vec![t1, t2, t3] };
    let report = MonthlyReport::from_ledger(&ledger);
    assert_eq!(report.monthly_balances.len(), 2);
    let first = &report.monthly_balances[0];
    assert_eq!((first.year, first.month), (2023, 1));
    assert_eq!(
        flat(&first.monthly_change),
        vec![("Assets:Bank".to_string(), "USD".to_string(), 15 * UNIT)]
    );
    assert_eq!(
        flat(&first.total),
        vec![("Assets:Bank".to_string(), "USD".to_string(), 15 * UNIT)]
    );
    let second = &report.monthly_balances[1];
    assert_eq!((second.year, second.month), (2023, 2));
    assert_eq!(
        flat(&second.monthly_change),
        vec![("Assets:Bank".to_string(), "USD".to_string(), 7 * UNIT)]
    );
    assert_eq!(
        flat(&second.total),
        vec![("Assets:Bank".to_string(), "USD".to_string(), 22 * UNIT)]
    );
}

#[test]
fn monthly_report_reopens_a_month_after_a_gap() {
    // unsorted input: a later transaction falling back into an earlier,
    // already sealed month opens a new bucket, not the old one
    let jan_a = txn(
        Date::new(2023, 1, 5),
        vec![posting("A", Decimal::new(1, 0), "USD", Date::new(2023, 1, 5))],
    );
    let feb = txn(
        Date::new(2023, 2, 5),
        vec![posting("A", Decimal::new(2, 0), "USD", Date::new(2023, 2, 5))],
    );
    let jan_b = txn(
        Date::new(2023, 1, 9),
        vec![posting("A", Decimal::new(4, 0), "USD", Date::new(2023, 1, 9))],
    );
    let ledger = Ledger { commodity_prices: vec![], transactions: vec![jan_a, feb, jan_b] };
    let report = MonthlyReport::from_ledger(&ledger);
    assert_eq!(report.monthly_balances.len(), 3);
    assert_eq!(
        (report.monthly_balances[0].year, report.monthly_balances[0].month),
        (2023, 1)
    );
    assert_eq!(
        (report.monthly_balances[1].year, report.monthly_balances[1].month),
        (2023, 2)
    );
    assert_eq!(
        (report.monthly_balances[2].year, report.monthly_balances[2].month),
        (2023, 1)
    );
    assert_eq!(
        flat(&report.monthly_balances[2].monthly_change),
        vec![("A".to_string(), "USD".to_string(), 4 * UNIT)]
    );
    assert_eq!(
        flat(&report.monthly_balances[2].total),
        vec![("A".to_string(), "USD".to_string(), 7 * UNIT)]
    );
}

#[test]
fn tree_accumulates_full_balance_along_the_path() {
    let mut balance = Balance::new();
    balance.add_amount("A:B:C", &amt(Decimal::new(7, 0), "USD"));
    let root = TreeBalanceNode::from_balance(&balance);
    let expected = vec![("USD".to_string(), 7 * UNIT)];
    let flat_node = |n: &TreeBalanceNode| -> Vec<(String, i128)> {
        n.balance
            .amounts
            .iter()
            .map(|a| (a.commodity.name.clone(), a.quantity.units))
            .collect()
    };
    assert_eq!(flat_node(&root), expected);
    let a = &root.children.iter().find(|c| c.0 == "A").unwrap().1;
    assert_eq!(flat_node(a), expected);
    let b = &a.children.iter().find(|c| c.0 == "B").unwrap().1;
    assert_eq!(flat_node(b), expected);
    let c = &b.children.iter().find(|c| c.0 == "C").unwrap().1;
    assert_eq!(flat_node(c), expected);
    assert!(c.children.is_empty());
}

#[test]
fn tree_splits_siblings_under_common_parent() {
    let mut balance = Balance::new();
    balance.add_amount("A:B", &amt(Decimal::new(3, 0), "USD"));
    balance.add_amount("A:C", &amt(Decimal::new(4, 0), "USD"));
    let root = TreeBalanceNode::from_balance(&balance);
    assert_eq!(root.balance.amounts[0].quantity.units, 7 * UNIT);
    let a = &root.children.iter().find(|c| c.0 == "A").unwrap().1;
    assert_eq!(a.balance.amounts[0].quantity.units, 7 * UNIT);
    assert_eq!(a.children.len(), 2);
    let b = &a.children.iter().find(|c| c.0 == "B").unwrap().1;
    assert_eq!(b.balance.amounts[0].quantity.units, 3 * UNIT);
    let c = &a.children.iter().find(|c| c.0 == "C").unwrap().1;
    assert_eq!(c.balance.amounts[0].quantity.units, 4 * UNIT);
}

#[test]
fn join_ledgers_sorts_by_date_and_keeps_equal_dates_stable() {
    let l1 = Ledger {
        commodity_prices: vec![CommodityPrice {
            datetime: DateTime { date: Date::new(2023, 5, 1), seconds: 10 },
            commodity_name: "EUR".to_string(),
            amount: amt(Decimal::new(1, 0), "USD"),
        }],
        transactions: vec![
            txn_named(Date::new(2023, 3, 1), "third"),
            txn_named(Date::new(2023, 1, 1), "first-a"),
        ],
    };
    let l2 = Ledger {
        commodity_prices: vec![CommodityPrice {
            datetime: DateTime { date: Date::new(2023, 4, 1), seconds: 0 },
            commodity_name: "GBP".to_string(),
            amount: amt(Decimal::new(1, 0), "USD"),
        }],
        transactions: vec![txn_named(Date::new(2023, 1, 1), "first-b")],
    };
    let joined = join_ledgers(vec![l1, l2]);
    let names: Vec<&str> = joined.transactions.iter().map(|t| t.description.as_str()).collect();
    // sorted by date; the two equal dates keep concatenation order
    assert_eq!(names, vec!["first-a", "first-b", "third"]);
    let price_names: Vec<&str> =
        joined.commodity_prices.iter().map(|p| p.commodity_name.as_str()).collect();
    assert_eq!(price_names, vec!["GBP", "EUR"]);
}
