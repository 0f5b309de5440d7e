//! Monthly balance report: per-month balance deltas and running totals.
//!
//! Transactions are walked in the order given and bucketed per contiguous
//! run of one (year, month): a later transaction falling back into an
//! earlier, already sealed month opens a new bucket rather than reopening
//! the old one. Callers who want one bucket per calendar month hand the
//! report a date-sorted transaction list.

use vstd::prelude::*;

use crate::balance::Balance;
use crate::balance::bal_txn;
use crate::balance::bal_txn_fits;
use crate::ledger::Ledger;
use crate::ledger::TransactionV;

verus! {

/// One sealed month: its delta and the running total at its end.
#[derive(Debug)]
pub struct MonthlyBalance {
    pub year: i32,
    pub month: u32,
    pub monthly_change: Balance,
    pub total: Balance,
}

/// The report: sealed months in order of appearance.
#[derive(Debug)]
pub struct MonthlyReport {
    pub monthly_balances: Vec<MonthlyBalance>,
}

pub struct MonthlyBalanceV {
    pub year: i32,
    pub month: u32,
    pub change: Map<Seq<char>, Map<Seq<char>, int>>,
    pub total: Map<Seq<char>, Map<Seq<char>, int>>,
}

impl View for MonthlyBalance {
    type V = MonthlyBalanceV;

    open spec fn view(&self) -> MonthlyBalanceV {
        MonthlyBalanceV {
            year: self.year,
            month: self.month,
            change: self.monthly_change.as_map(),
            total: self.total.as_map(),
        }
    }
}

impl MonthlyReport {
    /// The sealed months as mathematical values.
    pub open spec fn months(self) -> Seq<MonthlyBalanceV> {
        self.monthly_balances@.map_values(|mb: MonthlyBalance| mb@)
    }
}

/// A transaction applied whole to a balance map.
pub open spec fn bal_txn_full(
    b: Map<Seq<char>, Map<Seq<char>, int>>,
    t: TransactionV,
) -> Map<Seq<char>, Map<Seq<char>, int>> {
    bal_txn(b, t, t.postings.len() as int)
}

/// The walker's state after the first `n` transactions: the open bucket's
/// (year, month) if one is open, its delta, the running total, and the
/// sealed months so far.
pub open spec fn monthly_state(ts: Seq<TransactionV>, n: int) -> (
    Option<(i32, u32)>,
    Map<Seq<char>, Map<Seq<char>, int>>,
    Map<Seq<char>, Map<Seq<char>, int>>,
    Seq<MonthlyBalanceV>,
)
    decreases n,
{
    if n <= 0 {
        (None, Map::empty(), Map::empty(), Seq::empty())
    } else {
        let prev = monthly_state(ts, n - 1);
        let open = prev.0;
        let delta = prev.1;
        let total = prev.2;
        let out = prev.3;
        let t = ts[n - 1];
        let ym = (t.date.year, t.date.month);
        if open == Some(ym) {
            (open, bal_txn_full(delta, t), bal_txn_full(total, t), out)
        } else {
            let out2 = match open {
                None => out,
                Some(pm) => out.push(
                    MonthlyBalanceV { year: pm.0, month: pm.1, change: delta, total },
                ),
            };
            (
                Some(ym),
                bal_txn_full(Map::empty(), t),
                bal_txn_full(total, t),
                out2,
            )
        }
    }
}

/// The whole report: the walk's sealed months, with the still-open bucket
/// sealed at the end.
pub open spec fn monthly_report_spec(ts: Seq<TransactionV>) -> Seq<MonthlyBalanceV> {
    let st = monthly_state(ts, ts.len() as int);
    match st.0 {
        None => st.3,
        Some(pm) => st.3.push(
            MonthlyBalanceV { year: pm.0, month: pm.1, change: st.1, total: st.2 },
        ),
    }
}

/// Every balance update of the walk stays in machine range.
pub open spec fn monthly_fits(ts: Seq<TransactionV>) -> bool {
    forall|n: int|
        0 <= n < ts.len() ==> {
            let prev = #[trigger] monthly_state(ts, n);
            let t = ts[n];
            let ym = (t.date.year, t.date.month);
            &&& bal_txn_fits(prev.2, t)
            &&& if prev.0 == Some(ym) {
                bal_txn_fits(prev.1, t)
            } else {
                bal_txn_fits(Map::empty(), t)
            }
        }
}

impl MonthlyBalance {
    /// A fresh, still-empty bucket for one month.
    pub fn new(year: i32, month: u32) -> (r: MonthlyBalance)
        ensures
            r.year == year,
            r.month == month,
            r.monthly_change.as_map() == Map::<Seq<char>, Map<Seq<char>, int>>::empty(),
            r.total.as_map() == Map::<Seq<char>, Map<Seq<char>, int>>::empty(),
    {
        MonthlyBalance { year, month, monthly_change: Balance::new(), total: Balance::new() }
    }
}

impl MonthlyReport {
    /// The empty report.
    pub fn new() -> (r: MonthlyReport)
        ensures
            r.months() == Seq::<MonthlyBalanceV>::empty(),
    {
        let r = MonthlyReport { monthly_balances: Vec::new() };
        proof {
            assert(r.months() =~= Seq::<MonthlyBalanceV>::empty());
        }
        r
    }

    /// Walk a ledger's transactions in order, sealing a bucket whenever the
    /// (year, month) changes and once more at the end.
    pub fn from_ledger(ledger: &Ledger) -> (r: MonthlyReport)
        requires
            ledger@.wf(),
            monthly_fits(ledger@.transactions),
        ensures
            r.months() == monthly_report_spec(ledger@.transactions),
    {
        let ghost ts = ledger@.transactions;
        let mut report = MonthlyReport::new();
        let mut current: Option<(i32, u32)> = None;
        let mut monthly_balance = Balance::new();
        let mut total_balance = Balance::new();
        let mut i: usize = 0;
        while i < ledger.transactions.len()
            invariant
                0 <= i <= ledger.transactions@.len(),
                ts == ledger@.transactions,
                ts.len() == ledger.transactions@.len(),
                ledger@.wf(),
                monthly_fits(ts),
                monthly_balance.wf(),
                total_balance.wf(),
                monthly_state(ts, i as int) == (
                    current,
                    monthly_balance.as_map(),
                    total_balance.as_map(),
                    report.months(),
                ),
            decreases ledger.transactions@.len() - i,
        {
            let t = &ledger.transactions[i];
            proof {
                assert(ts[i as int] == t@);
                assert(ts[i as int].wf());
            }
            let ghost out0 = report.months();
            let same = match current {
                Some(pm) => pm.0 == t.date.year && pm.1 == t.date.month,
                None => false,
            };
            if !same {
                match current {
                    Some(pm) => {
                        let sealed = MonthlyBalance {
                            year: pm.0,
                            month: pm.1,
                            monthly_change: monthly_balance.duplicate(),
                            total: total_balance.duplicate(),
                        };
                        report.monthly_balances.push(sealed);
                        proof {
                            assert(report.months() =~= out0.push(
                                MonthlyBalanceV {
                                    year: pm.0,
                                    month: pm.1,
                                    change: monthly_balance.as_map(),
                                    total: total_balance.as_map(),
                                },
                            ));
                        }
                    },
                    None => {},
                }
                current = Some((t.date.year, t.date.month));
                monthly_balance = Balance::new();
            }
            monthly_balance.update_with_transaction(t);
            total_balance.update_with_transaction(t);
            i += 1;
        }
        match current {
            Some(pm) => {
                let ghost out0 = report.months();
                let sealed = MonthlyBalance {
                    year: pm.0,
                    month: pm.1,
                    monthly_change: monthly_balance,
                    total: total_balance,
                };
                report.monthly_balances.push(sealed);
                proof {
                    assert(report.months() =~= monthly_report_spec(ts));
                }
            },
            None => {},
        }
        report
    }
}

} // verus!
