use ledger_utils::Amount;
use ledger_utils::Balance;
use ledger_utils::Commodity;
use ledger_utils::CommodityPosition;
use ledger_utils::CommodityPrice;
use ledger_utils::Date;
use ledger_utils::DateTime;
use ledger_utils::Decimal;
use ledger_utils::Ledger;
use ledger_utils::Posting;
use ledger_utils::PrefixClassifier;
use ledger_utils::Prices;
use ledger_utils::PricesError;
use ledger_utils::Reality;
use ledger_utils::Transaction;
use ledger_utils::decimal::UNIT;
use ledger_utils::handle_foreign_currencies;

fn amt(quantity: Decimal, name: &str) -> Amount {
    Amount {
        quantity,
        commodity: Commodity { name: name.to_string(), position: CommodityPosition::Right },
    }
}

fn posting(account: &str, quantity: Decimal, name: &str, date: Date) -> Posting {
    Posting {
        date,
        effective_date: date,
        account: account.to_string(),
        reality: Reality::Real,
        amount: amt(quantity, name),
        status: None,
        comment: None,
        tags: vec![],
    }
}

fn txn(date: Date, postings: Vec<Posting>) -> Transaction {
    Transaction {
        comment: None,
        date,
        effective_date: date,
        status: None,
        code: None,
        description: String::new(),
        postings,
    }
}

fn classifier() -> PrefixClassifier {
    PrefixClassifier {
        asset_prefixes: vec!["Assets".to_string()],
        income_prefixes: vec!["Income".to_string()],
        expense_prefixes: vec!["Expenses".to_string()],
    }
}

fn eur_usd_prices() -> Prices {
    let ledger = Ledger {
        commodity_prices: vec![CommodityPrice {
            datetime: DateTime { date: Date::new(2023, 1, 1), seconds: 0 },
            commodity_name: "EUR".to_string(),
            amount: amt(Decimal::new(110, 2), "USD"),
        }],
        transactions: vec![],
    };
    Prices::load(&ledger)
}

/// The (commodity, units) entries of the trading account, sorted.
fn trading_balance(ledger: &Ledger) -> Vec<(String, i128)> {
    let balance = Balance::from_ledger(ledger);
    let trading = balance.get_account_balance(&vec!["Trading:Exchange".to_string()]);
    let mut out: Vec<(String, i128)> = trading
        .amounts
        .iter()
        .map(|a| (a.commodity.name.clone(), a.quantity.units))
        .collect();
    out.sort();
    out
}

#[test]
fn income_pass_freezes_foreign_income_in_main_commodity() {
    let date = Date::new(2023, 1, 15);
    let mut ledger = Ledger {
        commodity_prices: vec![],
        transactions: vec![txn(
            date,
            vec![posting("Income:Salary", Decimal::new(100, 0), "EUR", date)],
        )],
    };
    let prices = eur_usd_prices();
    let r = handle_foreign_currencies(&mut ledger, &classifier(), "USD", 2, &prices);
    assert!(r.is_ok());
    let postings = &ledger.transactions[0].postings;
    assert_eq!(postings.len(), 3);
    // the income leg now carries 110.00 USD
    assert_eq!(postings[0].account, "Income:Salary");
    assert_eq!(postings[0].amount.commodity.name, "USD");
    assert_eq!(postings[0].amount.quantity.units, 110 * UNIT);
    // the trading account absorbs the negated converted amount and the
    // original foreign amount
    assert_eq!(postings[1].account, "Trading:Exchange");
    assert_eq!(postings[1].amount.commodity.name, "USD");
    assert_eq!(postings[1].amount.quantity.units, -110 * UNIT);
    assert_eq!(postings[1].comment.as_deref(), Some("Auto-generated"));
    assert_eq!(postings[2].account, "Trading:Exchange");
    assert_eq!(postings[2].amount.commodity.name, "EUR");
    assert_eq!(postings[2].amount.quantity.units, 100 * UNIT);
    assert_eq!(
        trading_balance(&ledger),
        vec![("EUR".to_string(), 100 * UNIT), ("USD".to_string(), -110 * UNIT)]
    );
}

#[test]
fn expense_pass_mirrors_foreign_expenses() {
    let date = Date::new(2023, 2, 1);
    let mut ledger = Ledger {
        commodity_prices: vec![],
        transactions: vec![txn(
            date,
            vec![posting("Expenses:Food", Decimal::new(50, 0), "EUR", date)],
        )],
    };
    let prices = eur_usd_prices();
    let r = handle_foreign_currencies(&mut ledger, &classifier(), "USD", 2, &prices);
    assert!(r.is_ok());
    let postings = &ledger.transactions[0].postings;
    assert_eq!(postings.len(), 3);
    assert_eq!(postings[0].amount.commodity.name, "USD");
    assert_eq!(postings[0].amount.quantity.units, 55 * UNIT);
    assert_eq!(postings[1].amount.quantity.units, -55 * UNIT);
    assert_eq!(postings[2].amount.quantity.units, 50 * UNIT);
}

#[test]
fn exchange_pass_mirrors_two_posting_asset_exchanges() {
    let date = Date::new(2023, 3, 1);
    let mut ledger = Ledger {
        commodity_prices: vec![],
        transactions: vec![txn(
            date,
            vec![
                posting("Assets:Cash", Decimal::new(-100, 0), "USD", date),
                posting("Assets:Eur", Decimal::new(90, 0), "EUR", date),
            ],
        )],
    };
    let prices = eur_usd_prices();
    let r = handle_foreign_currencies(&mut ledger, &classifier(), "USD", 2, &prices);
    assert!(r.is_ok());
    let postings = &ledger.transactions[0].postings;
    assert_eq!(postings.len(), 4);
    assert_eq!(postings[2].account, "Trading:Exchange");
    assert_eq!(postings[2].amount.commodity.name, "USD");
    assert_eq!(postings[2].amount.quantity.units, 100 * UNIT);
    assert_eq!(postings[3].amount.commodity.name, "EUR");
    assert_eq!(postings[3].amount.quantity.units, -90 * UNIT);
}

#[test]
fn exchange_pass_skips_three_posting_transactions() {
    let date = Date::new(2023, 3, 1);
    let mut ledger = Ledger {
        commodity_prices: vec![],
        transactions: vec![txn(
            date,
            vec![
                posting("Assets:Cash", Decimal::new(-100, 0), "USD", date),
                posting("Assets:Eur", Decimal::new(45, 0), "EUR", date),
                posting("Assets:Eur2", Decimal::new(45, 0), "EUR", date),
            ],
        )],
    };
    let prices = eur_usd_prices();
    let r = handle_foreign_currencies(&mut ledger, &classifier(), "USD", 2, &prices);
    assert!(r.is_ok());
    // two of the three legs exchange different commodities on asset
    // accounts, yet nothing is appended
    assert_eq!(ledger.transactions[0].postings.len(), 3);
}

#[test]
fn conversion_failure_leaves_the_transaction_untouched() {
    let date = Date::new(2023, 1, 15);
    let mut ledger = Ledger {
        commodity_prices: vec![],
        transactions: vec![txn(
            date,
            vec![posting("Income:Salary", Decimal::new(100, 0), "GBP", date)],
        )],
    };
    let prices = eur_usd_prices();
    let r = handle_foreign_currencies(&mut ledger, &classifier(), "USD", 2, &prices);
    assert!(matches!(r, Err(PricesError::NoSuchCommoditiesPair(_))));
    let postings = &ledger.transactions[0].postings;
    assert_eq!(postings.len(), 1);
    assert_eq!(postings[0].amount.commodity.name, "GBP");
    assert_eq!(postings[0].amount.quantity.units, 100 * UNIT);
}

#[test]
fn income_in_main_commodity_is_left_alone() {
    let date = Date::new(2023, 1, 15);
    let mut ledger = Ledger {
        commodity_prices: vec![],
        transactions: vec![txn(
            date,
            vec![posting("Income:Salary", Decimal::new(100, 0), "USD", date)],
        )],
    };
    let prices = eur_usd_prices();
    let r = handle_foreign_currencies(&mut ledger, &classifier(), "USD", 2, &prices);
    assert!(r.is_ok());
    assert_eq!(ledger.transactions[0].postings.len(), 1);
    assert_eq!(ledger.transactions[0].postings[0].amount.quantity.units, 100 * UNIT);
}

#[test]
fn rounding_in_income_pass_is_half_away_from_zero() {
    // rate 1.115 USD per EUR: 1 EUR income becomes 1.12 USD at precision 2
    let date = Date::new(2023, 1, 15);
    let ledger_prices = Ledger {
        commodity_prices: vec![CommodityPrice {
            datetime: DateTime { date: Date::new(2023, 1, 1), seconds: 0 },
            commodity_name: "EUR".to_string(),
            amount: amt(Decimal::new(1115, 3), "USD"),
        }],
        transactions: vec![],
    };
    let prices = Prices::load(&ledger_prices);
    let mut ledger = Ledger {
        commodity_prices: vec![],
        transactions: vec![txn(
            date,
            vec![posting("Income:Salary", Decimal::new(1, 0), "EUR", date)],
        )],
    };
    let r = handle_foreign_currencies(&mut ledger, &classifier(), "USD", 2, &prices);
    assert!(r.is_ok());
    assert_eq!(ledger.transactions[0].postings[0].amount.quantity.units, 1_120_000_000);
}
