use ledger_utils::Amount;
use ledger_utils::Commodity;
use ledger_utils::CommodityPosition;
use ledger_utils::CommodityPrice;
use ledger_utils::Date;
use ledger_utils::DateTime;
use ledger_utils::Decimal;
use ledger_utils::Ledger;
use ledger_utils::Posting;
use ledger_utils::Prices;
use ledger_utils::PricesError;
use ledger_utils::Reality;
use ledger_utils::Transaction;
use ledger_utils::decimal::UNIT;

fn amt(quantity: Decimal, name: &str) -> Amount {
    Amount {
        quantity,
        commodity: Commodity { name: name.to_string(), position: CommodityPosition::Right },
    }
}

fn price(y: i32, m: u32, d: u32, from: &str, quantity: Decimal, to: &str) -> CommodityPrice {
    CommodityPrice {
        datetime: DateTime { date: Date::new(y, m, d), seconds: 0 },
        commodity_name: from.to_string(),
        amount: amt(quantity, to),
    }
}

fn posting(account: &str, quantity: Decimal, name: &str, date: Date) -> Posting {
    Posting {
        date,
        effective_date: date,
        account: account.to_string(),
        reality: Reality::Real,
        amount: amt(quantity, name),
        status: None,
        comment: None,
        tags: vec![],
    }
}

fn txn(date: Date, postings: Vec<Posting>) -> Transaction {
    Transaction {
        comment: None,
        date,
        effective_date: date,
        status: None,
        code: None,
        description: String::new(),
        postings,
    }
}

#[test]
fn convert_uses_forward_rate_and_stored_reciprocal() {
    let ledger = Ledger {
        commodity_prices: vec![price(2023, 1, 1, "EUR", Decimal::new(110, 2), "USD")],
        transactions: vec![],
    };
    let prices = Prices::load(&ledger);
    let one = Decimal::new(1, 0);
    let forward = prices.convert(one, "EUR", "USD", Date::new(2023, 1, 1)).unwrap();
    assert_eq!(forward.units, 1_100_000_000);
    // the reverse direction answers from the stored reciprocal of 1.10,
    // not from a runtime division of the forward rate
    let back = prices.convert(one, "USD", "EUR", Date::new(2023, 1, 1)).unwrap();
    assert_eq!(back.units, 909_090_909);
    let back_rate = prices.get_rate("USD", "EUR", Date::new(2023, 1, 1)).unwrap();
    assert_eq!(back_rate.units, 909_090_909);
}

#[test]
fn rate_lookup_is_a_step_function() {
    let ledger = Ledger {
        commodity_prices: vec![
            price(2023, 1, 1, "EUR", Decimal::new(110, 2), "USD"),
            price(2023, 3, 1, "EUR", Decimal::new(120, 2), "USD"),
        ],
        transactions: vec![],
    };
    let prices = Prices::load(&ledger);
    let early = prices.get_rate("EUR", "USD", Date::new(2022, 12, 31));
    assert!(matches!(early, Err(PricesError::DateTooEarly(_))));
    assert_eq!(prices.get_rate("EUR", "USD", Date::new(2023, 1, 1)).unwrap().units, 1_100_000_000);
    assert_eq!(prices.get_rate("EUR", "USD", Date::new(2023, 2, 15)).unwrap().units, 1_100_000_000);
    assert_eq!(prices.get_rate("EUR", "USD", Date::new(2023, 3, 1)).unwrap().units, 1_200_000_000);
    assert_eq!(prices.get_rate("EUR", "USD", Date::new(2023, 6, 30)).unwrap().units, 1_200_000_000);
}

#[test]
fn same_date_rate_is_overwritten_by_later_ingestion() {
    let ledger = Ledger {
        commodity_prices: vec![
            price(2023, 1, 1, "EUR", Decimal::new(110, 2), "USD"),
            price(2023, 1, 1, "EUR", Decimal::new(115, 2), "USD"),
        ],
        transactions: vec![],
    };
    let prices = Prices::load(&ledger);
    assert_eq!(prices.get_rate("EUR", "USD", Date::new(2023, 1, 5)).unwrap().units, 1_150_000_000);
}

#[test]
fn unknown_pair_is_reported_with_the_pair() {
    let ledger = Ledger { commodity_prices: vec![], transactions: vec![] };
    let prices = Prices::load(&ledger);
    match prices.get_rate("EUR", "USD", Date::new(2023, 1, 1)) {
        Err(PricesError::NoSuchCommoditiesPair(pair)) => {
            assert_eq!(pair.src_commodity_name, "EUR");
            assert_eq!(pair.dst_commodity_name, "USD");
        },
        _ => panic!("expected a missing-pair error"),
    }
}

#[test]
fn two_posting_exchange_implies_a_rate() {
    let date = Date::new(2022, 2, 19);
    let ledger = Ledger {
        commodity_prices: vec![],
        transactions: vec![
            txn(
                date,
                vec![
                    posting("DollarAccount", Decimal::new(100, 2), "$", date),
                    posting("PLNAccount", Decimal::new(-400, 2), "PLN", date),
                ],
            ),
        ],
    };
    let prices = Prices::load(&ledger);
    // implied: 1 $ = -(-4.00)/1.00 = 4 PLN, and the reciprocal 0.25
    let one = Decimal::new(1, 0);
    assert_eq!(prices.convert(one, "$", "PLN", date).unwrap().units, 4 * UNIT);
    assert_eq!(prices.convert(one, "PLN", "$", date).unwrap().units, 250_000_000);
}

#[test]
fn three_posting_transactions_imply_no_rate() {
    let date = Date::new(2022, 2, 19);
    let ledger = Ledger {
        commodity_prices: vec![],
        transactions: vec![
            txn(
                date,
                vec![
                    posting("A", Decimal::new(1, 0), "$", date),
                    posting("B", Decimal::new(-2, 0), "PLN", date),
                    posting("C", Decimal::new(-2, 0), "PLN", date),
                ],
            ),
        ],
    };
    let prices = Prices::load(&ledger);
    assert!(matches!(
        prices.get_rate("$", "PLN", date),
        Err(PricesError::NoSuchCommoditiesPair(_))
    ));
}
