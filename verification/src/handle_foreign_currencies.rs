//! Foreign-currency synthesis: rewrite every transaction in three ordered
//! passes so that foreign-currency value is frozen in a main commodity and
//! the offsetting legs land on the fixed account `"Trading:Exchange"`.
//!
//! Passes, in order, each observing what earlier ones appended: the income
//! pass converts foreign income legs; the exchange pass mirrors two-posting
//! exchanges between asset accounts; the expense pass converts foreign
//! expense legs. A transaction is rewritten atomically: on a conversion
//! failure it is left untouched and the failure propagates, leaving every
//! earlier transaction fully rewritten and every later one untouched.

use vstd::prelude::*;

use crate::balance::matches_any;
use crate::balance::any_prefix;
use crate::decimal::UNIT;
use crate::decimal::fits_i128;
use crate::decimal::round_dp_spec;
use crate::ledger::Amount;
use crate::ledger::AmountV;
use crate::ledger::Commodity;
use crate::ledger::CommodityPosition;
use crate::ledger::Ledger;
use crate::ledger::Posting;
use crate::ledger::PostingV;
use crate::ledger::Reality;
use crate::ledger::TagV;
use crate::ledger::Transaction;
use crate::ledger::TransactionStatus;
use crate::ledger::TransactionV;
use crate::prices::PairV;
use crate::prices::Prices;
use crate::prices::PricesError;
use crate::prices::PricesErrorV;
use crate::prices::convert_fits;
use crate::prices::convert_result;

verus! {

/// Caller-supplied account classification: three predicates over the full
/// account-path string, each with its mathematical meaning.
pub trait AccountClassifier {
    /// What the asset test means.
    spec fn is_asset_spec(&self, account: Seq<char>) -> bool;

    /// What the income test means.
    spec fn is_income_spec(&self, account: Seq<char>) -> bool;

    /// What the expense test means.
    spec fn is_expense_spec(&self, account: Seq<char>) -> bool;

    /// Is the account an asset account?
    fn is_asset_account(&self, account: &str) -> (r: bool)
        ensures
            r == self.is_asset_spec(account@),
    ;

    /// Is the account an income account?
    fn is_income_account(&self, account: &str) -> (r: bool)
        ensures
            r == self.is_income_spec(account@),
    ;

    /// Is the account an expense account?
    fn is_expense_account(&self, account: &str) -> (r: bool)
        ensures
            r == self.is_expense_spec(account@),
    ;
}

/// A classifier that matches each class by raw account-path prefixes.
pub struct PrefixClassifier {
    pub asset_prefixes: Vec<String>,
    pub income_prefixes: Vec<String>,
    pub expense_prefixes: Vec<String>,
}

impl AccountClassifier for PrefixClassifier {
    open spec fn is_asset_spec(&self, account: Seq<char>) -> bool {
        any_prefix(self.asset_prefixes@.map_values(|s: String| s@), account)
    }

    open spec fn is_income_spec(&self, account: Seq<char>) -> bool {
        any_prefix(self.income_prefixes@.map_values(|s: String| s@), account)
    }

    open spec fn is_expense_spec(&self, account: Seq<char>) -> bool {
        any_prefix(self.expense_prefixes@.map_values(|s: String| s@), account)
    }

    fn is_asset_account(&self, account: &str) -> (r: bool) {
        matches_any(&self.asset_prefixes, &account.to_owned())
    }

    fn is_income_account(&self, account: &str) -> (r: bool) {
        matches_any(&self.income_prefixes, &account.to_owned())
    }

    fn is_expense_account(&self, account: &str) -> (r: bool) {
        matches_any(&self.expense_prefixes, &account.to_owned())
    }
}

// --- the pass model -------------------------------------------------------

/// A synthesized posting on the fixed trading account: no date of its
/// own — it inherits the transaction's date and effective date — and a
/// fixed auto-generated comment marker.
pub open spec fn trading_posting(
    date: crate::date::Date,
    effective_date: crate::date::Date,
    amount: AmountV,
    status: Option<TransactionStatus>,
    tags: Seq<TagV>,
) -> PostingV {
    PostingV {
        date,
        effective_date,
        account: "Trading:Exchange"@,
        reality: Reality::Real,
        amount,
        status,
        comment: Some("Auto-generated"@),
        tags,
    }
}

/// A conversion to the main commodity rounded to the configured precision,
/// half away from zero.
pub open spec fn conv_round(
    tables: Seq<(PairV, Seq<(crate::date::Date, int)>)>,
    q: int,
    src: Seq<char>,
    main: Seq<char>,
    date: crate::date::Date,
    dp: u32,
) -> Result<int, PricesErrorV> {
    match convert_result(tables, q, src, main, date) {
        Ok(v) => Ok(round_dp_spec(v, dp)),
        Err(e) => Err(e),
    }
}

/// The conversion, its rounding and the negation all stay in machine range.
pub open spec fn conv_round_fits(
    tables: Seq<(PairV, Seq<(crate::date::Date, int)>)>,
    q: int,
    src: Seq<char>,
    main: Seq<char>,
    date: crate::date::Date,
    dp: u32,
) -> bool {
    convert_fits(tables, q, src, main, date) && match convert_result(tables, q, src, main, date) {
        Err(_) => true,
        Ok(v) => fits_i128(v + UNIT) && fits_i128(-v + UNIT) && fits_i128(
            -round_dp_spec(v, dp),
        ),
    }
}

/// Does the income pass rewrite this posting?
pub open spec fn income_applies<C: AccountClassifier>(
    c: &C,
    p: PostingV,
    main: Seq<char>,
) -> bool {
    c.is_income_spec(p.account) && p.amount.name != main
}

/// Does the expense pass rewrite this posting?
pub open spec fn expense_applies<C: AccountClassifier>(
    c: &C,
    p: PostingV,
    main: Seq<char>,
) -> bool {
    c.is_expense_spec(p.account) && p.amount.name != main
}

/// The income pass over the first `n` postings: the rewritten postings in
/// place and the postings to append, or the first conversion failure.
pub open spec fn income_step<C: AccountClassifier>(
    c: &C,
    postings: Seq<PostingV>,
    date: crate::date::Date,
    edate: crate::date::Date,
    main: Seq<char>,
    dp: u32,
    tables: Seq<(PairV, Seq<(crate::date::Date, int)>)>,
    n: int,
) -> Result<(Seq<PostingV>, Seq<PostingV>), PricesErrorV>
    decreases n,
{
    if n <= 0 {
        Ok((Seq::empty(), Seq::empty()))
    } else {
        match income_step(c, postings, date, edate, main, dp, tables, n - 1) {
            Err(e) => Err(e),
            Ok((rep, app)) => {
                let p = postings[n - 1];
                if income_applies(c, p, main) {
                    match conv_round(tables, p.amount.q, p.amount.name, main, date, dp) {
                        Err(e) => Err(e),
                        Ok(rq) => {
                            let main_amount = AmountV {
                                name: main,
                                q: rq,
                                pos: CommodityPosition::Right,
                            };
                            let neg_amount = AmountV {
                                name: main,
                                q: -rq,
                                pos: CommodityPosition::Right,
                            };
                            Ok(
                                (
                                    rep.push(PostingV { amount: main_amount, ..p }),
                                    app + seq![
                                        trading_posting(date, edate, neg_amount, None, Seq::empty()),
                                        trading_posting(date, edate, p.amount, None, Seq::empty()),
                                    ],
                                ),
                            )
                        },
                    }
                } else {
                    Ok((rep.push(p), app))
                }
            },
        }
    }
}

/// The income pass over a whole transaction.
pub open spec fn income_pass_spec<C: AccountClassifier>(
    c: &C,
    t: TransactionV,
    main: Seq<char>,
    dp: u32,
    tables: Seq<(PairV, Seq<(crate::date::Date, int)>)>,
) -> Result<TransactionV, PricesErrorV> {
    match income_step(c, t.postings, t.date, t.effective_date, main, dp, tables, t.postings.len() as int) {
        Err(e) => Err(e),
        Ok((rep, app)) => Ok(TransactionV { postings: rep + app, ..t }),
    }
}

/// Every conversion the income pass takes stays in machine range.
pub open spec fn income_fits<C: AccountClassifier>(
    c: &C,
    t: TransactionV,
    main: Seq<char>,
    dp: u32,
    tables: Seq<(PairV, Seq<(crate::date::Date, int)>)>,
) -> bool {
    forall|n: int|
        0 <= n < t.postings.len() ==> (income_applies(c, #[trigger] t.postings[n], main)
            ==> conv_round_fits(tables, t.postings[n].amount.q, t.postings[n].amount.name, main,
            t.date, dp))
}

/// Does the exchange pass apply: exactly two postings, both on asset
/// accounts, in two different commodities?
pub open spec fn exchange_applies<C: AccountClassifier>(c: &C, t: TransactionV) -> bool {
    &&& t.postings.len() == 2
    &&& c.is_asset_spec(t.postings[0].account)
    &&& c.is_asset_spec(t.postings[1].account)
    &&& t.postings[0].amount.name != t.postings[1].amount.name
}

/// The exchange pass: where it applies, append the negation of each of the
/// two original amounts on the trading account.
pub open spec fn exchange_pass_spec<C: AccountClassifier>(c: &C, t: TransactionV) -> TransactionV {
    if exchange_applies(c, t) {
        let p0 = t.postings[0];
        let p1 = t.postings[1];
        TransactionV {
            postings: t.postings + seq![
                trading_posting(
                    t.date,
                    t.effective_date,
                    AmountV { name: p0.amount.name, q: -p0.amount.q, pos: p0.amount.pos },
                    p0.status,
                    p0.tags,
                ),
                trading_posting(
                    t.date,
                    t.effective_date,
                    AmountV { name: p1.amount.name, q: -p1.amount.q, pos: p1.amount.pos },
                    p1.status,
                    p1.tags,
                ),
            ],
            ..t
        }
    } else {
        t
    }
}

/// The exchange pass's negations stay in machine range.
pub open spec fn exchange_fits<C: AccountClassifier>(c: &C, t: TransactionV) -> bool {
    exchange_applies(c, t) ==> fits_i128(-t.postings[0].amount.q) && fits_i128(
        -t.postings[1].amount.q,
    )
}

/// The expense pass over the first `n` postings; unlike the income pass its
/// synthesized postings carry the matched posting's status and tags.
pub open spec fn expense_step<C: AccountClassifier>(
    c: &C,
    postings: Seq<PostingV>,
    date: crate::date::Date,
    edate: crate::date::Date,
    main: Seq<char>,
    dp: u32,
    tables: Seq<(PairV, Seq<(crate::date::Date, int)>)>,
    n: int,
) -> Result<(Seq<PostingV>, Seq<PostingV>), PricesErrorV>
    decreases n,
{
    if n <= 0 {
        Ok((Seq::empty(), Seq::empty()))
    } else {
        match expense_step(c, postings, date, edate, main, dp, tables, n - 1) {
            Err(e) => Err(e),
            Ok((rep, app)) => {
                let p = postings[n - 1];
                if expense_applies(c, p, main) {
                    match conv_round(tables, p.amount.q, p.amount.name, main, date, dp) {
                        Err(e) => Err(e),
                        Ok(rq) => {
                            let main_amount = AmountV {
                                name: main,
                                q: rq,
                                pos: CommodityPosition::Right,
                            };
                            let neg_amount = AmountV {
                                name: main,
                                q: -rq,
                                pos: CommodityPosition::Right,
                            };
                            Ok(
                                (
                                    rep.push(PostingV { amount: main_amount, ..p }),
                                    app + seq![
                                        trading_posting(date, edate, neg_amount, p.status, p.tags),
                                        trading_posting(date, edate, p.amount, p.status, p.tags),
                                    ],
                                ),
                            )
                        },
                    }
                } else {
                    Ok((rep.push(p), app))
                }
            },
        }
    }
}

/// The expense pass over a whole transaction.
pub open spec fn expense_pass_spec<C: AccountClassifier>(
    c: &C,
    t: TransactionV,
    main: Seq<char>,
    dp: u32,
    tables: Seq<(PairV, Seq<(crate::date::Date, int)>)>,
) -> Result<TransactionV, PricesErrorV> {
    match expense_step(c, t.postings, t.date, t.effective_date, main, dp, tables, t.postings.len() as int) {
        Err(e) => Err(e),
        Ok((rep, app)) => Ok(TransactionV { postings: rep + app, ..t }),
    }
}

/// Every conversion the expense pass takes stays in machine range.
pub open spec fn expense_fits<C: AccountClassifier>(
    c: &C,
    t: TransactionV,
    main: Seq<char>,
    dp: u32,
    tables: Seq<(PairV, Seq<(crate::date::Date, int)>)>,
) -> bool {
    forall|n: int|
        0 <= n < t.postings.len() ==> (expense_applies(c, #[trigger] t.postings[n], main)
            ==> conv_round_fits(tables, t.postings[n].amount.q, t.postings[n].amount.name, main,
            t.date, dp))
}

/// One transaction through all three passes, in their fixed order.
pub open spec fn synth_txn_spec<C: AccountClassifier>(
    c: &C,
    t: TransactionV,
    main: Seq<char>,
    dp: u32,
    tables: Seq<(PairV, Seq<(crate::date::Date, int)>)>,
) -> Result<TransactionV, PricesErrorV> {
    match income_pass_spec(c, t, main, dp, tables) {
        Err(e) => Err(e),
        Ok(t1) => {
            let t2 = exchange_pass_spec(c, t1);
            expense_pass_spec(c, t2, main, dp, tables)
        },
    }
}

/// Every arithmetic step of the three passes stays in machine range.
pub open spec fn synth_txn_fits<C: AccountClassifier>(
    c: &C,
    t: TransactionV,
    main: Seq<char>,
    dp: u32,
    tables: Seq<(PairV, Seq<(crate::date::Date, int)>)>,
) -> bool {
    income_fits(c, t, main, dp, tables) && match income_pass_spec(c, t, main, dp, tables) {
        Err(_) => true,
        Ok(t1) => exchange_fits(c, t1) && expense_fits(
            c,
            exchange_pass_spec(c, t1),
            main,
            dp,
            tables,
        ),
    }
}

/// The whole ledger's transactions through the synthesizer, first `n` of
/// them: the resulting transaction list and whether a pass failed. After
/// the first failure every remaining transaction is left untouched.
pub open spec fn synth_fold<C: AccountClassifier>(
    c: &C,
    ts: Seq<TransactionV>,
    main: Seq<char>,
    dp: u32,
    tables: Seq<(PairV, Seq<(crate::date::Date, int)>)>,
    n: int,
) -> (Seq<TransactionV>, Result<(), PricesErrorV>)
    decreases n,
{
    if n <= 0 {
        (Seq::empty(), Ok(()))
    } else {
        let prev = synth_fold(c, ts, main, dp, tables, n - 1);
        match prev.1 {
            Err(e) => (prev.0.push(ts[n - 1]), Err(e)),
            Ok(u) => match synth_txn_spec(c, ts[n - 1], main, dp, tables) {
                Ok(t2) => (prev.0.push(t2), Ok(())),
                Err(e) => (prev.0.push(ts[n - 1]), Err(e)),
            },
        }
    }
}

/// Fitting is owed of each transaction the fold actually reaches intact.
pub open spec fn synth_fold_fits<C: AccountClassifier>(
    c: &C,
    ts: Seq<TransactionV>,
    main: Seq<char>,
    dp: u32,
    tables: Seq<(PairV, Seq<(crate::date::Date, int)>)>,
) -> bool {
    forall|k: int|
        0 <= k < ts.len() ==> ((#[trigger] synth_fold(c, ts, main, dp, tables, k)).1 is Ok
            ==> synth_txn_fits(c, ts[k], main, dp, tables))
}

// --- error persistence ----------------------------------------------------

/// A failed income step decides every longer one.
proof fn lemma_income_err_persists<C: AccountClassifier>(
    c: &C,
    postings: Seq<PostingV>,
    date: crate::date::Date,
    edate: crate::date::Date,
    main: Seq<char>,
    dp: u32,
    tables: Seq<(PairV, Seq<(crate::date::Date, int)>)>,
    j: int,
    n: int,
)
    requires
        0 <= j <= n,
        income_step(c, postings, date, edate, main, dp, tables, j) is Err,
    ensures
        income_step(c, postings, date, edate, main, dp, tables, n) == income_step(
            c,
            postings,
            date,
            edate,
            main,
            dp,
            tables,
            j,
        ),
    decreases n - j,
{
    if n > j {
        lemma_income_err_persists(c, postings, date, edate, main, dp, tables, j, n - 1);
    }
}

/// A failed expense step decides every longer one.
proof fn lemma_expense_err_persists<C: AccountClassifier>(
    c: &C,
    postings: Seq<PostingV>,
    date: crate::date::Date,
    edate: crate::date::Date,
    main: Seq<char>,
    dp: u32,
    tables: Seq<(PairV, Seq<(crate::date::Date, int)>)>,
    j: int,
    n: int,
)
    requires
        0 <= j <= n,
        expense_step(c, postings, date, edate, main, dp, tables, j) is Err,
    ensures
        expense_step(c, postings, date, edate, main, dp, tables, n) == expense_step(
            c,
            postings,
            date,
            edate,
            main,
            dp,
            tables,
            j,
        ),
    decreases n - j,
{
    if n > j {
        lemma_expense_err_persists(c, postings, date, edate, main, dp, tables, j, n - 1);
    }
}

/// The fold keeps one output transaction per input transaction.
proof fn lemma_synth_fold_len<C: AccountClassifier>(
    c: &C,
    ts: Seq<TransactionV>,
    main: Seq<char>,
    dp: u32,
    tables: Seq<(PairV, Seq<(crate::date::Date, int)>)>,
    n: int,
)
    requires
        0 <= n,
    ensures
        synth_fold(c, ts, main, dp, tables, n).0.len() == n,
    decreases n,
{
    if n > 0 {
        lemma_synth_fold_len(c, ts, main, dp, tables, n - 1);
    }
}

/// After a failure the fold carries every remaining transaction through
/// untouched.
proof fn lemma_synth_fold_err<C: AccountClassifier>(
    c: &C,
    ts: Seq<TransactionV>,
    main: Seq<char>,
    dp: u32,
    tables: Seq<(PairV, Seq<(crate::date::Date, int)>)>,
    j: int,
    n: int,
)
    requires
        0 <= j <= n <= ts.len(),
        synth_fold(c, ts, main, dp, tables, j).1 is Err,
    ensures
        synth_fold(c, ts, main, dp, tables, n).0 == synth_fold(c, ts, main, dp, tables, j).0
            + ts.subrange(j, n),
        synth_fold(c, ts, main, dp, tables, n).1 == synth_fold(c, ts, main, dp, tables, j).1,
    decreases n - j,
{
    if n == j {
        assert(synth_fold(c, ts, main, dp, tables, j).0 + ts.subrange(j, j) =~= synth_fold(
            c,
            ts,
            main,
            dp,
            tables,
            j,
        ).0);
    } else {
        lemma_synth_fold_err(c, ts, main, dp, tables, j, n - 1);
        assert(synth_fold(c, ts, main, dp, tables, n).0 =~= synth_fold(
            c,
            ts,
            main,
            dp,
            tables,
            j,
        ).0 + ts.subrange(j, n));
    }
}

// --- the passes ------------------------------------------------------------

/// The income pass: replace each foreign income leg by its value in the
/// main commodity, frozen at the transaction's date, and append the two
/// offsetting trading-account postings.
fn income_pass_exec<C: AccountClassifier>(
    transaction: &mut Transaction,
    classifier: &C,
    main_commodity: &str,
    dp: u32,
    prices: &Prices,
) -> (r: Result<(), PricesError>)
    requires
        old(transaction)@.wf(),
        prices.wf(),
        income_fits(classifier, old(transaction)@, main_commodity@, dp, prices.tables()),
    ensures
        match r {
            Ok(u) => income_pass_spec(
                classifier,
                old(transaction)@,
                main_commodity@,
                dp,
                prices.tables(),
            ) == Ok::<TransactionV, PricesErrorV>(final(transaction)@) && final(transaction)@.wf(),
            Err(e) => income_pass_spec(
                classifier,
                old(transaction)@,
                main_commodity@,
                dp,
                prices.tables(),
            ) == Err::<TransactionV, PricesErrorV>(e@),
        },
{
    let ghost t0 = transaction@;
    let ghost ps = t0.postings;
    let ghost tables = prices.tables();
    let ghost main = main_commodity@;
    let main_string = main_commodity.to_owned();
    let mut new_postings: Vec<Posting> = Vec::new();
    let mut appended: Vec<Posting> = Vec::new();
    proof {
        assert(new_postings@.map_values(|p: Posting| p@) =~= Seq::<PostingV>::empty());
        assert(appended@.map_values(|p: Posting| p@) =~= Seq::<PostingV>::empty());
    }
    let mut i: usize = 0;
    while i < transaction.postings.len()
        invariant
            0 <= i <= transaction.postings@.len(),
            transaction@ == t0,
            ps == t0.postings,
            ps.len() == transaction.postings@.len(),
            t0.wf(),
            prices.wf(),
            tables == prices.tables(),
            main == main_string@,
            main == main_commodity@,
            income_fits(classifier, t0, main, dp, tables),
            income_step(classifier, ps, t0.date, t0.effective_date, main, dp, tables, i as int)
                == Ok::<(Seq<PostingV>, Seq<PostingV>), PricesErrorV>(
                (
                    new_postings@.map_values(|p: Posting| p@),
                    appended@.map_values(|p: Posting| p@),
                ),
            ),
            forall|j: int| 0 <= j < new_postings@.len() ==> (#[trigger] new_postings@[j])@.wf(),
            forall|j: int| 0 <= j < appended@.len() ==> (#[trigger] appended@[j])@.wf(),
        decreases transaction.postings@.len() - i,
    {
        let ghost rep0 = new_postings@.map_values(|p: Posting| p@);
        let ghost app0 = appended@.map_values(|p: Posting| p@);
        let p = &transaction.postings[i];
        proof {
            assert(ps[i as int] == p@);
            assert(ps[i as int].wf());
        }
        let is_income = classifier.is_income_account(p.account.as_str());
        let foreign = !(p.amount.commodity.name == main_string);
        if is_income && foreign {
            proof {
                assert(income_applies(classifier, ps[i as int], main));
            }
            match prices.convert(
                p.amount.quantity,
                p.amount.commodity.name.as_str(),
                main_commodity,
                transaction.date,
            ) {
                Err(e) => {
                    proof {
                        lemma_income_err_persists(
                            classifier,
                            ps,
                            t0.date,
                            t0.effective_date,
                            main,
                            dp,
                            tables,
                            i + 1,
                            ps.len() as int,
                        );
                    }
                    return Err(e);
                },
                Ok(v) => {
                    let rounded = v.round_dp(dp);
                    let neg_q = rounded.neg();
                    let replaced = Posting {
                        date: p.date,
                        effective_date: p.effective_date,
                        account: p.account.clone(),
                        reality: p.reality,
                        amount: Amount {
                            quantity: rounded,
                            commodity: Commodity {
                                name: main_string.clone(),
                                position: CommodityPosition::Right,
                            },
                        },
                        status: p.status,
                        comment: crate::ledger::duplicate_opt_string(&p.comment),
                        tags: crate::ledger::duplicate_tags(&p.tags),
                    };
                    let trading1 = Posting {
                        date: transaction.date,
                        effective_date: transaction.effective_date,
                        account: "Trading:Exchange".to_owned(),
                        reality: Reality::Real,
                        amount: Amount {
                            quantity: neg_q,
                            commodity: Commodity {
                                name: main_string.clone(),
                                position: CommodityPosition::Right,
                            },
                        },
                        status: None,
                        comment: Some("Auto-generated".to_owned()),
                        tags: Vec::new(),
                    };
                    let trading2 = Posting {
                        date: transaction.date,
                        effective_date: transaction.effective_date,
                        account: "Trading:Exchange".to_owned(),
                        reality: Reality::Real,
                        amount: p.amount.duplicate(),
                        status: None,
                        comment: Some("Auto-generated".to_owned()),
                        tags: Vec::new(),
                    };
                    proof {
                        let rq = rounded@;
                        assert(trading1@.tags =~= Seq::<TagV>::empty());
                        assert(trading2@.tags =~= Seq::<TagV>::empty());
                        assert(replaced@ == (PostingV {
                            amount: AmountV { name: main, q: rq, pos: CommodityPosition::Right },
                            ..ps[i as int]
                        }));
                        assert(trading1@ == trading_posting(
                            t0.date,
                            t0.effective_date,
                            AmountV { name: main, q: -rq, pos: CommodityPosition::Right },
                            None,
                            Seq::empty(),
                        ));
                        assert(trading2@ == trading_posting(
                            t0.date,
                            t0.effective_date,
                            ps[i as int].amount,
                            None,
                            Seq::empty(),
                        ));
                    }
                    new_postings.push(replaced);
                    appended.push(trading1);
                    appended.push(trading2);
                    proof {
                        assert(new_postings@.map_values(|q2: Posting| q2@) =~= rep0.push(
                            replaced@,
                        ));
                        assert(appended@.map_values(|q2: Posting| q2@) =~= app0 + seq![
                            trading1@,
                            trading2@,
                        ]);
                    }
                },
            }
        } else {
            proof {
                assert(!income_applies(classifier, ps[i as int], main));
            }
            let dup = p.duplicate();
            new_postings.push(dup);
            proof {
                assert(new_postings@.map_values(|q2: Posting| q2@) =~= rep0.push(ps[i as int]));
            }
        }
        i += 1;
    }
    let ghost rep = new_postings@.map_values(|p: Posting| p@);
    let ghost app = appended@.map_values(|p: Posting| p@);
    new_postings.append(&mut appended);
    proof {
        assert(new_postings@.map_values(|p: Posting| p@) =~= rep + app);
    }
    let ghost rep_app = new_postings@.map_values(|p: Posting| p@);
    proof {
        assert forall|j: int| 0 <= j < rep_app.len() implies (#[trigger] rep_app[j]).wf() by {
            assert(rep_app[j] == new_postings@[j]@);
        }
    }
    transaction.postings = new_postings;
    proof {
        assert(transaction@.postings =~= rep_app);
        assert(transaction@ == (TransactionV { postings: rep_app, ..t0 }));
    }
    Ok(())
}

/// The exchange pass: a two-posting transaction between asset accounts in
/// two different commodities gets both amounts mirrored, negated, on the
/// trading account. Any other transaction is left untouched.
fn exchange_pass_exec<C: AccountClassifier>(transaction: &mut Transaction, classifier: &C)
    requires
        old(transaction)@.wf(),
        exchange_fits(classifier, old(transaction)@),
    ensures
        final(transaction)@ == exchange_pass_spec(classifier, old(transaction)@),
        final(transaction)@.wf(),
{
    let ghost t0 = transaction@;
    if transaction.postings.len() != 2 {
        proof {
            assert(!exchange_applies(classifier, t0));
        }
        return ;
    }
    proof {
        assert(t0.postings[0] == transaction.postings@[0]@);
        assert(t0.postings[1] == transaction.postings@[1]@);
    }
    let asset0 = classifier.is_asset_account(transaction.postings[0].account.as_str());
    let asset1 = classifier.is_asset_account(transaction.postings[1].account.as_str());
    if !asset0 || !asset1 {
        proof {
            assert(!exchange_applies(classifier, t0));
        }
        return ;
    }
    if transaction.postings[0].amount.commodity.name
        == transaction.postings[1].amount.commodity.name {
        proof {
            assert(!exchange_applies(classifier, t0));
        }
        return ;
    }
    proof {
        assert(exchange_applies(classifier, t0));
    }
    let mut new_postings: Vec<Posting> = Vec::new();
    let mut j: usize = 0;
    while j < 2
        invariant
            0 <= j <= 2,
            transaction@ == t0,
            t0.postings.len() == 2,
            t0.wf(),
            exchange_applies(classifier, t0),
            exchange_fits(classifier, t0),
            new_postings@.len() == j,
            forall|k: int|
                0 <= k < j ==> (#[trigger] new_postings@[k])@ == trading_posting(
                    t0.date,
                    t0.effective_date,
                    AmountV {
                        name: t0.postings[k].amount.name,
                        q: -t0.postings[k].amount.q,
                        pos: t0.postings[k].amount.pos,
                    },
                    t0.postings[k].status,
                    t0.postings[k].tags,
                ),
        decreases 2 - j,
    {
        let p = &transaction.postings[j];
        proof {
            assert(t0.postings[j as int] == p@);
            if j == 0 {
                assert(fits_i128(-t0.postings[0].amount.q));
            } else {
                assert(fits_i128(-t0.postings[1].amount.q));
            }
        }
        let mirrored = Posting {
            date: transaction.date,
            effective_date: transaction.effective_date,
            account: "Trading:Exchange".to_owned(),
            reality: Reality::Real,
            amount: Amount {
                quantity: p.amount.quantity.neg(),
                commodity: p.amount.commodity.duplicate(),
            },
            status: p.status,
            comment: Some("Auto-generated".to_owned()),
            tags: crate::ledger::duplicate_tags(&p.tags),
        };
        new_postings.push(mirrored);
        j += 1;
    }
    let ghost added = new_postings@.map_values(|p: Posting| p@);
    transaction.postings.append(&mut new_postings);
    proof {
        assert(transaction@.postings =~= t0.postings + added);
        assert(added =~= seq![
            trading_posting(
                t0.date,
                t0.effective_date,
                AmountV {
                    name: t0.postings[0].amount.name,
                    q: -t0.postings[0].amount.q,
                    pos: t0.postings[0].amount.pos,
                },
                t0.postings[0].status,
                t0.postings[0].tags,
            ),
            trading_posting(
                t0.date,
                t0.effective_date,
                AmountV {
                    name: t0.postings[1].amount.name,
                    q: -t0.postings[1].amount.q,
                    pos: t0.postings[1].amount.pos,
                },
                t0.postings[1].status,
                t0.postings[1].tags,
            ),
        ]);
        assert(transaction@ == exchange_pass_spec(classifier, t0));
    }
}

/// The expense pass: like the income pass, but for expense accounts, and
/// its synthesized postings carry the matched posting's status and tags.
fn expense_pass_exec<C: AccountClassifier>(
    transaction: &mut Transaction,
    classifier: &C,
    main_commodity: &str,
    dp: u32,
    prices: &Prices,
) -> (r: Result<(), PricesError>)
    requires
        old(transaction)@.wf(),
        prices.wf(),
        expense_fits(classifier, old(transaction)@, main_commodity@, dp, prices.tables()),
    ensures
        match r {
            Ok(u) => expense_pass_spec(
                classifier,
                old(transaction)@,
                main_commodity@,
                dp,
                prices.tables(),
            ) == Ok::<TransactionV, PricesErrorV>(final(transaction)@) && final(transaction)@.wf(),
            Err(e) => expense_pass_spec(
                classifier,
                old(transaction)@,
                main_commodity@,
                dp,
                prices.tables(),
            ) == Err::<TransactionV, PricesErrorV>(e@),
        },
{
    let ghost t0 = transaction@;
    let ghost ps = t0.postings;
    let ghost tables = prices.tables();
    let ghost main = main_commodity@;
    let main_string = main_commodity.to_owned();
    let mut new_postings: Vec<Posting> = Vec::new();
    let mut appended: Vec<Posting> = Vec::new();
    proof {
        assert(new_postings@.map_values(|p: Posting| p@) =~= Seq::<PostingV>::empty());
        assert(appended@.map_values(|p: Posting| p@) =~= Seq::<PostingV>::empty());
    }
    let mut i: usize = 0;
    while i < transaction.postings.len()
        invariant
            0 <= i <= transaction.postings@.len(),
            transaction@ == t0,
            ps == t0.postings,
            ps.len() == transaction.postings@.len(),
            t0.wf(),
            prices.wf(),
            tables == prices.tables(),
            main == main_string@,
            main == main_commodity@,
            expense_fits(classifier, t0, main, dp, tables),
            expense_step(classifier, ps, t0.date, t0.effective_date, main, dp, tables, i as int)
                == Ok::<(Seq<PostingV>, Seq<PostingV>), PricesErrorV>(
                (
                    new_postings@.map_values(|p: Posting| p@),
                    appended@.map_values(|p: Posting| p@),
                ),
            ),
            forall|j: int| 0 <= j < new_postings@.len() ==> (#[trigger] new_postings@[j])@.wf(),
            forall|j: int| 0 <= j < appended@.len() ==> (#[trigger] appended@[j])@.wf(),
        decreases transaction.postings@.len() - i,
    {
        let ghost rep0 = new_postings@.map_values(|p: Posting| p@);
        let ghost app0 = appended@.map_values(|p: Posting| p@);
        let p = &transaction.postings[i];
        proof {
            assert(ps[i as int] == p@);
            assert(ps[i as int].wf());
        }
        let is_expense = classifier.is_expense_account(p.account.as_str());
        let foreign = !(p.amount.commodity.name == main_string);
        if is_expense && foreign {
            proof {
                assert(expense_applies(classifier, ps[i as int], main));
            }
            match prices.convert(
                p.amount.quantity,
                p.amount.commodity.name.as_str(),
                main_commodity,
                transaction.date,
            ) {
                Err(e) => {
                    proof {
                        lemma_expense_err_persists(
                            classifier,
                            ps,
                            t0.date,
                            t0.effective_date,
                            main,
                            dp,
                            tables,
                            i + 1,
                            ps.len() as int,
                        );
                    }
                    return Err(e);
                },
                Ok(v) => {
                    let rounded = v.round_dp(dp);
                    let neg_q = rounded.neg();
                    let replaced = Posting {
                        date: p.date,
                        effective_date: p.effective_date,
                        account: p.account.clone(),
                        reality: p.reality,
                        amount: Amount {
                            quantity: rounded,
                            commodity: Commodity {
                                name: main_string.clone(),
                                position: CommodityPosition::Right,
                            },
                        },
                        status: p.status,
                        comment: crate::ledger::duplicate_opt_string(&p.comment),
                        tags: crate::ledger::duplicate_tags(&p.tags),
                    };
                    let trading1 = Posting {
                        date: transaction.date,
                        effective_date: transaction.effective_date,
                        account: "Trading:Exchange".to_owned(),
                        reality: Reality::Real,
                        amount: Amount {
                            quantity: neg_q,
                            commodity: Commodity {
                                name: main_string.clone(),
                                position: CommodityPosition::Right,
                            },
                        },
                        status: p.status,
                        comment: Some("Auto-generated".to_owned()),
                        tags: crate::ledger::duplicate_tags(&p.tags),
                    };
                    let trading2 = Posting {
                        date: transaction.date,
                        effective_date: transaction.effective_date,
                        account: "Trading:Exchange".to_owned(),
                        reality: Reality::Real,
                        amount: p.amount.duplicate(),
                        status: p.status,
                        comment: Some("Auto-generated".to_owned()),
                        tags: crate::ledger::duplicate_tags(&p.tags),
                    };
                    proof {
                        let rq = rounded@;
                        assert(replaced@ == (PostingV {
                            amount: AmountV { name: main, q: rq, pos: CommodityPosition::Right },
                            ..ps[i as int]
                        }));
                        assert(trading1@ == trading_posting(
                            t0.date,
                            t0.effective_date,
                            AmountV { name: main, q: -rq, pos: CommodityPosition::Right },
                            ps[i as int].status,
                            ps[i as int].tags,
                        ));
                        assert(trading2@ == trading_posting(
                            t0.date,
                            t0.effective_date,
                            ps[i as int].amount,
                            ps[i as int].status,
                            ps[i as int].tags,
                        ));
                    }
                    new_postings.push(replaced);
                    appended.push(trading1);
                    appended.push(trading2);
                    proof {
                        assert(new_postings@.map_values(|q2: Posting| q2@) =~= rep0.push(
                            replaced@,
                        ));
                        assert(appended@.map_values(|q2: Posting| q2@) =~= app0 + seq![
                            trading1@,
                            trading2@,
                        ]);
                    }
                },
            }
        } else {
            proof {
                assert(!expense_applies(classifier, ps[i as int], main));
            }
            let dup = p.duplicate();
            new_postings.push(dup);
            proof {
                assert(new_postings@.map_values(|q2: Posting| q2@) =~= rep0.push(ps[i as int]));
            }
        }
        i += 1;
    }
    let ghost rep = new_postings@.map_values(|p: Posting| p@);
    let ghost app = appended@.map_values(|p: Posting| p@);
    new_postings.append(&mut appended);
    proof {
        assert(new_postings@.map_values(|p: Posting| p@) =~= rep + app);
    }
    let ghost rep_app = new_postings@.map_values(|p: Posting| p@);
    proof {
        assert forall|j: int| 0 <= j < rep_app.len() implies (#[trigger] rep_app[j]).wf() by {
            assert(rep_app[j] == new_postings@[j]@);
        }
    }
    transaction.postings = new_postings;
    proof {
        assert(transaction@.postings =~= rep_app);
        assert(transaction@ == (TransactionV { postings: rep_app, ..t0 }));
    }
    Ok(())
}

/// Rewrite every transaction of the ledger through the three passes, in
/// order. Each transaction is rewritten atomically: on the first failing
/// conversion the failing transaction and every later one are left
/// untouched and the error propagates.
pub fn handle_foreign_currencies<C: AccountClassifier>(
    ledger: &mut Ledger,
    classifier: &C,
    main_commodity: &str,
    main_commodity_decimal_points: u32,
    prices: &Prices,
) -> (r: Result<(), PricesError>)
    requires
        old(ledger)@.wf(),
        prices.wf(),
        synth_fold_fits(
            classifier,
            old(ledger)@.transactions,
            main_commodity@,
            main_commodity_decimal_points,
            prices.tables(),
        ),
    ensures
        final(ledger)@.commodity_prices == old(ledger)@.commodity_prices,
        final(ledger)@.transactions == synth_fold(
            classifier,
            old(ledger)@.transactions,
            main_commodity@,
            main_commodity_decimal_points,
            prices.tables(),
            old(ledger)@.transactions.len() as int,
        ).0,
        match r {
            Ok(u) => synth_fold(
                classifier,
                old(ledger)@.transactions,
                main_commodity@,
                main_commodity_decimal_points,
                prices.tables(),
                old(ledger)@.transactions.len() as int,
            ).1 is Ok,
            Err(e) => synth_fold(
                classifier,
                old(ledger)@.transactions,
                main_commodity@,
                main_commodity_decimal_points,
                prices.tables(),
                old(ledger)@.transactions.len() as int,
            ).1 == Err::<(), PricesErrorV>(e@),
        },
{
    let ghost ts = ledger@.transactions;
    let ghost tables = prices.tables();
    let ghost main = main_commodity@;
    let dp = main_commodity_decimal_points;
    proof {
        assert(ledger@.transactions =~= synth_fold(classifier, ts, main, dp, tables, 0).0
            + ts.skip(0));
    }
    let mut i: usize = 0;
    while i < ledger.transactions.len()
        invariant
            0 <= i <= ledger.transactions@.len(),
            ts.len() == ledger.transactions@.len(),
            ts == old(ledger)@.transactions,
            ledger@.commodity_prices == old(ledger)@.commodity_prices,
            old(ledger)@.wf(),
            prices.wf(),
            tables == prices.tables(),
            main == main_commodity@,
            dp == main_commodity_decimal_points,
            synth_fold_fits(classifier, ts, main, dp, tables),
            synth_fold(classifier, ts, main, dp, tables, i as int).1 is Ok,
            ledger@.transactions == synth_fold(classifier, ts, main, dp, tables, i as int).0
                + ts.skip(i as int),
        decreases ledger.transactions@.len() - i,
    {
        proof {
            lemma_synth_fold_len(classifier, ts, main, dp, tables, i as int);
            assert(ts.skip(i as int)[0] == ts[i as int]);
            assert(ledger@.transactions[i as int] == ts[i as int]);
            assert(ts[i as int] == old(ledger)@.transactions[i as int]);
            assert(ts[i as int].wf());
            assert(synth_txn_fits(classifier, ts[i as int], main, dp, tables));
        }
        let mut work = ledger.transactions[i].duplicate();
        let ghost t0 = ts[i as int];
        match income_pass_exec(&mut work, classifier, main_commodity, dp, prices) {
            Err(e) => {
                proof {
                    assert(synth_txn_spec(classifier, t0, main, dp, tables) == Err::<
                        TransactionV,
                        PricesErrorV,
                    >(e@));
                    assert(synth_fold(classifier, ts, main, dp, tables, i + 1).1 == Err::<
                        (),
                        PricesErrorV,
                    >(e@));
                    lemma_synth_fold_err(classifier, ts, main, dp, tables, i + 1, ts.len() as int);
                    assert(synth_fold(classifier, ts, main, dp, tables, ts.len() as int).0
                        =~= synth_fold(classifier, ts, main, dp, tables, i as int).0 + ts.skip(
                        i as int,
                    ));
                }
                return Err(e);
            },
            Ok(_) => {},
        }
        exchange_pass_exec(&mut work, classifier);
        match expense_pass_exec(&mut work, classifier, main_commodity, dp, prices) {
            Err(e) => {
                proof {
                    assert(synth_txn_spec(classifier, t0, main, dp, tables) == Err::<
                        TransactionV,
                        PricesErrorV,
                    >(e@));
                    assert(synth_fold(classifier, ts, main, dp, tables, i + 1).1 == Err::<
                        (),
                        PricesErrorV,
                    >(e@));
                    lemma_synth_fold_err(classifier, ts, main, dp, tables, i + 1, ts.len() as int);
                    assert(synth_fold(classifier, ts, main, dp, tables, ts.len() as int).0
                        =~= synth_fold(classifier, ts, main, dp, tables, i as int).0 + ts.skip(
                        i as int,
                    ));
                }
                return Err(e);
            },
            Ok(_) => {},
        }
        let ghost before = ledger@.transactions;
        ledger.transactions.set(i, work);
        proof {
            assert(synth_txn_spec(classifier, t0, main, dp, tables) == Ok::<
                TransactionV,
                PricesErrorV,
            >(work@));
            assert(ledger@.transactions =~= before.update(i as int, work@));
            assert(ledger@.transactions =~= synth_fold(classifier, ts, main, dp, tables, i + 1).0
                + ts.skip(i + 1));
        }
        i += 1;
    }
    proof {
        assert(ts.skip(ts.len() as int) =~= Seq::<TransactionV>::empty());
        assert(ledger@.transactions =~= synth_fold(
            classifier,
            ts,
            main,
            dp,
            tables,
            ts.len() as int,
        ).0);
    }
    Ok(())
}

} // verus!
