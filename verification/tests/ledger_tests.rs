use ledger_utils::Amount;
use ledger_utils::Commodity;
use ledger_utils::CommodityPosition;
use ledger_utils::Date;
use ledger_utils::Decimal;
use ledger_utils::OptionalDatePosting;
use ledger_utils::Posting;
use ledger_utils::Reality;
use ledger_utils::Transaction;

fn amt(quantity: Decimal, name: &str) -> Amount {
    Amount {
        quantity,
        commodity: Commodity { name: name.to_string(), position: CommodityPosition::Right },
    }
}

fn opt_posting(date: Option<Date>, effective_date: Option<Date>) -> OptionalDatePosting {
    OptionalDatePosting {
        date,
        effective_date,
        account: "Assets:Bank".to_string(),
        reality: Reality::Real,
        amount: amt(Decimal::new(1, 0), "USD"),
        status: None,
        comment: None,
        tags: vec![],
    }
}

#[test]
fn fill_dates_inherits_missing_dates_in_order() {
    let td = Date::new(2023, 5, 1);
    let te = Date::new(2023, 5, 9);
    let own = Date::new(2023, 5, 3);
    let own_eff = Date::new(2023, 5, 4);

    // both elided: the transaction's date and effective date step in
    let p = opt_posting(None, None).fill_dates(td, Some(te));
    assert_eq!((p.date, p.effective_date), (td, te));

    // no transaction effective date: the transaction date covers both
    let p = opt_posting(None, None).fill_dates(td, None);
    assert_eq!((p.date, p.effective_date), (td, td));

    // an own date also stands in for a missing effective date
    let p = opt_posting(Some(own), None).fill_dates(td, Some(te));
    assert_eq!((p.date, p.effective_date), (own, own));

    // explicit dates always win
    let p = opt_posting(Some(own), Some(own_eff)).fill_dates(td, Some(te));
    assert_eq!((p.date, p.effective_date), (own, own_eff));
}

#[test]
fn elide_dates_drops_what_a_writer_can_infer() {
    let td = Date::new(2023, 5, 1);
    let te = Date::new(2023, 5, 9);
    let txn = Transaction {
        comment: None,
        date: td,
        effective_date: te,
        status: None,
        code: None,
        description: String::new(),
        postings: vec![],
    };

    // posting dates equal to the inferable ones are elided
    let p = Posting {
        date: td,
        effective_date: te,
        account: "Assets:Bank".to_string(),
        reality: Reality::Real,
        amount: amt(Decimal::new(1, 0), "USD"),
        status: None,
        comment: None,
        tags: vec![],
    };
    let e = p.elide_dates(&txn);
    assert_eq!((e.date, e.effective_date), (None, None));

    // an own posting date changes what the effective date is compared to
    let own = Date::new(2023, 5, 3);
    let p2 = Posting { date: own, effective_date: own, ..p };
    let e2 = p2.elide_dates(&txn);
    assert_eq!(e2.date, Some(own));
    assert_eq!(e2.effective_date, None);
}

#[test]
fn fill_and_elide_round_trip() {
    let td = Date::new(2023, 5, 1);
    let te = Date::new(2023, 5, 9);
    let txn = Transaction {
        comment: None,
        date: td,
        effective_date: te,
        status: None,
        code: None,
        description: String::new(),
        postings: vec![],
    };
    let original = opt_posting(Some(Date::new(2023, 5, 3)), None);
    let filled = original.fill_dates(td, Some(te));
    let elided = filled.elide_dates(&txn);
    let refilled = elided.fill_dates(td, Some(te));
    assert_eq!((filled.date, filled.effective_date), (refilled.date, refilled.effective_date));
}
