//! The foreign-exchange rate store.
//!
//! Rates are ingested as dated price points — explicit price records and
//! rates implied by two-posting exchanges — and every point is stored in
//! both directions, the reverse one as an independently computed
//! reciprocal. A conversion query answers with a step function: the entry
//! with the greatest date at or before the requested date wins, and among
//! entries of one date the latest ingested wins.

use vstd::prelude::*;

use crate::date::Date;
use crate::date::DateTime;
use crate::decimal::Decimal;
use crate::decimal::UNIT;
use crate::decimal::dec_div_spec;
use crate::decimal::div_away;
use crate::decimal::fits_i128;
use crate::ledger::Amount;
use crate::ledger::CommodityPrice;
use crate::ledger::CommodityPriceV;
use crate::ledger::Ledger;
use crate::ledger::TransactionV;

verus! {

/// A conversion query that cannot be answered.
#[derive(Debug)]
pub enum PricesError {
    /// No rate was ever recorded for the requested direction.
    NoSuchCommoditiesPair(CommoditiesPair),
    /// The pair has rates, but none on or before the requested date.
    DateTooEarly(Date),
}

/// An ordered (source, destination) commodity-name pair; each direction is
/// its own lookup key.
#[derive(Debug)]
pub struct CommoditiesPair {
    pub src_commodity_name: String,
    pub dst_commodity_name: String,
}

/// The dated rate entries recorded for one pair, in ingestion order.
#[derive(Debug)]
pub struct RatesTable {
    pub table: Vec<(Date, Decimal)>,
}

/// The rate store: one table per recorded pair direction.
#[derive(Debug)]
pub struct Prices {
    pub rates: Vec<(CommoditiesPair, RatesTable)>,
}

// --- views ---------------------------------------------------------------

pub struct PairV {
    pub src: Seq<char>,
    pub dst: Seq<char>,
}

pub enum PricesErrorV {
    NoSuchCommoditiesPair(PairV),
    DateTooEarly(Date),
}

/// One ingested price point: one unit of `src` was worth `rate` units of
/// `dst` from `date` on.
pub struct RatePoint {
    pub src: Seq<char>,
    pub dst: Seq<char>,
    pub date: Date,
    pub rate: int,
}

impl View for CommoditiesPair {
    type V = PairV;

    open spec fn view(&self) -> PairV {
        PairV { src: self.src_commodity_name@, dst: self.dst_commodity_name@ }
    }
}

impl View for PricesError {
    type V = PricesErrorV;

    open spec fn view(&self) -> PricesErrorV {
        match self {
            PricesError::NoSuchCommoditiesPair(p) => PricesErrorV::NoSuchCommoditiesPair(p@),
            PricesError::DateTooEarly(d) => PricesErrorV::DateTooEarly(*d),
        }
    }
}

impl View for RatesTable {
    type V = Seq<(Date, int)>;

    open spec fn view(&self) -> Seq<(Date, int)> {
        self.table@.map_values(|e: (Date, Decimal)| (e.0, e.1@))
    }
}

impl Prices {
    /// The store as an association list from pair to entry sequence.
    pub open spec fn tables(self) -> Seq<(PairV, Seq<(Date, int)>)> {
        self.rates@.map_values(|e: (CommoditiesPair, RatesTable)| (e.0@, e.1@))
    }

    /// Every recorded date is a well-formed calendar date.
    pub open spec fn wf(self) -> bool {
        forall|i: int, j: int|
            0 <= i < self.tables().len() && 0 <= j < self.tables()[i].1.len()
                ==> (#[trigger] self.tables()[i].1[j]).0.wf()
    }
}

// --- the rate model ------------------------------------------------------

/// First table recorded for the pair, if any.
pub open spec fn pair_lookup(
    s: Seq<(PairV, Seq<(Date, int)>)>,
    src: Seq<char>,
    dst: Seq<char>,
) -> Option<Seq<(Date, int)>>
    decreases s.len(),
{
    if s.len() == 0 {
        None
    } else if s[0].0.src == src && s[0].0.dst == dst {
        Some(s[0].1)
    } else {
        pair_lookup(s.skip(1), src, dst)
    }
}

/// The winning entry for a query date: greatest entry date at or before the
/// query, later-ingested entries winning ties.
pub open spec fn best_rate(t: Seq<(Date, int)>, d: Date) -> Option<(Date, int)>
    decreases t.len(),
{
    if t.len() == 0 {
        None
    } else {
        let prev = best_rate(t.drop_last(), d);
        let last = t.last();
        if last.0.key() <= d.key() {
            match prev {
                None => Some(last),
                Some(pe) => if pe.0.key() <= last.0.key() {
                    Some(last)
                } else {
                    prev
                },
            }
        } else {
            prev
        }
    }
}

/// What a rate query returns, as a function of the store's tables.
pub open spec fn rate_result(
    tables: Seq<(PairV, Seq<(Date, int)>)>,
    src: Seq<char>,
    dst: Seq<char>,
    date: Date,
) -> Result<int, PricesErrorV> {
    match pair_lookup(tables, src, dst) {
        None => Err(PricesErrorV::NoSuchCommoditiesPair(PairV { src, dst })),
        Some(t) => match best_rate(t, date) {
            None => Err(PricesErrorV::DateTooEarly(date)),
            Some(e) => Ok(e.1),
        },
    }
}

/// What a conversion returns: the amount times the looked-up rate, at the
/// fixed scale.
pub open spec fn convert_result(
    tables: Seq<(PairV, Seq<(Date, int)>)>,
    q: int,
    src: Seq<char>,
    dst: Seq<char>,
    date: Date,
) -> Result<int, PricesErrorV> {
    match rate_result(tables, src, dst, date) {
        Ok(v) => Ok(div_away(q * v, UNIT as int)),
        Err(e) => Err(e),
    }
}

/// The product taken by a conversion stays within machine range.
pub open spec fn convert_fits(
    tables: Seq<(PairV, Seq<(Date, int)>)>,
    q: int,
    src: Seq<char>,
    dst: Seq<char>,
    date: Date,
) -> bool {
    match rate_result(tables, src, dst, date) {
        Ok(v) => fits_i128(q * v + UNIT) && fits_i128(-(q * v) + UNIT),
        Err(_) => true,
    }
}

/// Does an executable rate or conversion result agree with the model's?
pub open spec fn rate_result_matches(
    r: Result<Decimal, PricesError>,
    s: Result<int, PricesErrorV>,
) -> bool {
    match (r, s) {
        (Ok(d), Ok(v)) => d@ == v,
        (Err(e), Err(ev)) => e@ == ev,
        _ => false,
    }
}

// --- ingestion model ------------------------------------------------------

/// The two points one price record contributes: the forward rate and its
/// independently stored reciprocal.
pub open spec fn price_points(p: CommodityPriceV) -> Seq<RatePoint> {
    seq![
        RatePoint {
            src: p.commodity_name,
            dst: p.amount.name,
            date: p.datetime.date,
            rate: p.amount.q,
        },
        RatePoint {
            src: p.amount.name,
            dst: p.commodity_name,
            date: p.datetime.date,
            rate: dec_div_spec(UNIT as int, p.amount.q),
        },
    ]
}

/// All points contributed by a price-record sequence, in order.
pub open spec fn explicit_points(ps: Seq<CommodityPriceV>) -> Seq<RatePoint>
    decreases ps.len(),
{
    if ps.len() == 0 {
        Seq::empty()
    } else {
        explicit_points(ps.drop_last()) + price_points(ps.last())
    }
}

/// Does a transaction imply a rate: exactly two postings, in two different
/// commodities, both with nonzero quantities?
pub open spec fn implies_price(t: TransactionV) -> bool {
    &&& t.postings.len() == 2
    &&& t.postings[0].amount.name != t.postings[1].amount.name
    &&& t.postings[0].amount.q != 0
    &&& t.postings[1].amount.q != 0
}

/// The price record implied by a qualifying transaction, dated midnight of
/// the transaction's date: one unit of the first posting's commodity is
/// worth `-q2/q1` of the second's.
pub open spec fn implied_price(t: TransactionV) -> CommodityPriceV {
    CommodityPriceV {
        datetime: DateTime { date: t.date, seconds: 0 },
        commodity_name: t.postings[0].amount.name,
        amount: crate::ledger::AmountV {
            name: t.postings[1].amount.name,
            q: dec_div_spec(-t.postings[1].amount.q, t.postings[0].amount.q),
            pos: t.postings[1].amount.pos,
        },
    }
}

/// The price records implied by a transaction sequence, in order.
pub open spec fn implied_prices(ts: Seq<TransactionV>) -> Seq<CommodityPriceV>
    decreases ts.len(),
{
    if ts.len() == 0 {
        Seq::empty()
    } else {
        let rest = implied_prices(ts.drop_last());
        if implies_price(ts.last()) {
            rest.push(implied_price(ts.last()))
        } else {
            rest
        }
    }
}

/// Every point the whole ledger contributes, in ingestion order: explicit
/// price records first, transaction-implied ones after.
pub open spec fn ledger_points(l: crate::ledger::LedgerV) -> Seq<RatePoint> {
    explicit_points(l.commodity_prices) + explicit_points(implied_prices(l.transactions))
}

/// The entries a pair's table holds once a point sequence is ingested.
pub open spec fn points_table(points: Seq<RatePoint>, src: Seq<char>, dst: Seq<char>) -> Seq<
    (Date, int),
> {
    points.filter(|p: RatePoint| p.src == src && p.dst == dst).map_values(
        |p: RatePoint| (p.date, p.rate),
    )
}

/// The full store contents determined by a point sequence.
pub open spec fn tables_match_points(
    tables: Seq<(PairV, Seq<(Date, int)>)>,
    points: Seq<RatePoint>,
) -> bool {
    forall|src: Seq<char>, dst: Seq<char>|
        #[trigger] pair_lookup(tables, src, dst) == (if points_table(points, src, dst).len() > 0 {
            Some(points_table(points, src, dst))
        } else {
            None::<Seq<(Date, int)>>
        })
}

/// A price record the store can ingest without overflowing: a nonzero,
/// machine-range quantity (its reciprocal is taken).
pub open spec fn price_ok(p: CommodityPriceV) -> bool {
    &&& p.amount.q != 0
    &&& -i128::MAX <= p.amount.q
    &&& p.datetime.date.wf()
}

/// A transaction whose implied rate, if any, can be computed and ingested
/// within machine range.
pub open spec fn implied_ok(t: TransactionV) -> bool {
    implies_price(t) ==> {
        let q1 = t.postings[0].amount.q;
        let q2 = t.postings[1].amount.q;
        &&& fits_i128(-q2)
        &&& -i128::MAX <= q1
        &&& -i128::MAX <= (-q2) * UNIT <= i128::MAX
        &&& price_ok(implied_price(t))
    }
}

// --- lookup lemmas -------------------------------------------------------

/// A first match at `i` decides the lookup.
proof fn lemma_pair_lookup_at(
    s: Seq<(PairV, Seq<(Date, int)>)>,
    src: Seq<char>,
    dst: Seq<char>,
    i: int,
)
    requires
        0 <= i < s.len(),
        s[i].0.src == src && s[i].0.dst == dst,
        forall|j: int| 0 <= j < i ==> !((#[trigger] s[j]).0.src == src && s[j].0.dst == dst),
    ensures
        pair_lookup(s, src, dst) == Some(s[i].1),
    decreases i,
{
    if i > 0 {
        lemma_pair_lookup_at(s.skip(1), src, dst, i - 1);
    }
}

/// With no match anywhere the lookup is empty.
proof fn lemma_pair_lookup_none(s: Seq<(PairV, Seq<(Date, int)>)>, src: Seq<char>, dst: Seq<char>)
    requires
        forall|j: int| 0 <= j < s.len() ==> !((#[trigger] s[j]).0.src == src && s[j].0.dst == dst),
    ensures
        pair_lookup(s, src, dst) == None::<Seq<(Date, int)>>,
    decreases s.len(),
{
    if s.len() > 0 {
        lemma_pair_lookup_none(s.skip(1), src, dst);
    }
}

/// Replacing the table at a first-match index changes exactly that pair's
/// lookup.
proof fn lemma_pair_lookup_update(
    s: Seq<(PairV, Seq<(Date, int)>)>,
    i: int,
    newtab: Seq<(Date, int)>,
)
    requires
        0 <= i < s.len(),
        forall|j: int|
            0 <= j < i ==> !((#[trigger] s[j]).0.src == s[i].0.src && s[j].0.dst == s[i].0.dst),
    ensures
        forall|a: Seq<char>, b: Seq<char>|
            #[trigger] pair_lookup(s.update(i, (s[i].0, newtab)), a, b) == (if s[i].0.src == a
                && s[i].0.dst == b {
                Some(newtab)
            } else {
                pair_lookup(s, a, b)
            }),
    decreases i,
{
    let s2 = s.update(i, (s[i].0, newtab));
    if i == 0 {
        assert(s2.skip(1) =~= s.skip(1));
        assert forall|a: Seq<char>, b: Seq<char>|
            #[trigger] pair_lookup(s2, a, b) == (if s[i].0.src == a && s[i].0.dst == b {
                Some(newtab)
            } else {
                pair_lookup(s, a, b)
            }) by {}
    } else {
        lemma_pair_lookup_update(s.skip(1), i - 1, newtab);
        assert(s2.skip(1) =~= s.skip(1).update(i - 1, (s.skip(1)[i - 1].0, newtab)));
        assert forall|a: Seq<char>, b: Seq<char>|
            #[trigger] pair_lookup(s2, a, b) == (if s[i].0.src == a && s[i].0.dst == b {
                Some(newtab)
            } else {
                pair_lookup(s, a, b)
            }) by {
            assert(pair_lookup(s.skip(1).update(i - 1, (s.skip(1)[i - 1].0, newtab)), a, b) == (
            if s[i].0.src == a && s[i].0.dst == b {
                Some(newtab)
            } else {
                pair_lookup(s.skip(1), a, b)
            }));
        }
    }
}

/// Appending a table for an unseen pair changes exactly that pair's lookup.
proof fn lemma_pair_lookup_push(
    s: Seq<(PairV, Seq<(Date, int)>)>,
    pair: PairV,
    tab: Seq<(Date, int)>,
)
    requires
        forall|j: int|
            0 <= j < s.len() ==> !((#[trigger] s[j]).0.src == pair.src && s[j].0.dst == pair.dst),
    ensures
        forall|a: Seq<char>, b: Seq<char>|
            #[trigger] pair_lookup(s.push((pair, tab)), a, b) == (if pair.src == a && pair.dst == b {
                Some(tab)
            } else {
                pair_lookup(s, a, b)
            }),
    decreases s.len(),
{
    if s.len() == 0 {
        assert forall|a: Seq<char>, b: Seq<char>|
            #[trigger] pair_lookup(s.push((pair, tab)), a, b) == (if pair.src == a && pair.dst == b {
                Some(tab)
            } else {
                pair_lookup(s, a, b)
            }) by {
            assert(s.push((pair, tab))[0] == (pair, tab));
            assert(s.push((pair, tab)).skip(1) =~= s);
        }
    } else {
        lemma_pair_lookup_push(s.skip(1), pair, tab);
        assert forall|a: Seq<char>, b: Seq<char>|
            #[trigger] pair_lookup(s.push((pair, tab)), a, b) == (if pair.src == a && pair.dst == b {
                Some(tab)
            } else {
                pair_lookup(s, a, b)
            }) by {
            assert(s.push((pair, tab)).skip(1) =~= s.skip(1).push((pair, tab)));
            assert(pair_lookup(s.skip(1).push((pair, tab)), a, b) == (if pair.src == a && pair.dst
                == b {
                Some(tab)
            } else {
                pair_lookup(s.skip(1), a, b)
            }));
        }
    }
}

/// One ingested point extends exactly its pair's filtered table.
proof fn lemma_points_table_push(pts: Seq<RatePoint>, p: RatePoint, a: Seq<char>, b: Seq<char>)
    ensures
        points_table(pts.push(p), a, b) == points_table(pts, a, b) + (if p.src == a && p.dst == b {
            seq![(p.date, p.rate)]
        } else {
            Seq::<(Date, int)>::empty()
        }),
{
    reveal(Seq::filter);
    let pred = |q: RatePoint| q.src == a && q.dst == b;
    assert(pts.push(p).drop_last() =~= pts);
    if pred(p) {
        assert(pts.push(p).filter(pred) == pts.filter(pred).push(p));
        assert(points_table(pts.push(p), a, b) =~= points_table(pts, a, b) + seq![
            (p.date, p.rate),
        ]);
    } else {
        assert(pts.push(p).filter(pred) == pts.filter(pred));
        assert(points_table(pts.push(p), a, b) =~= points_table(pts, a, b) + Seq::<(
            Date,
            int,
        )>::empty());
    }
}

/// A store step that records exactly one point keeps matching the point
/// history.
proof fn lemma_ingest_step(
    t_old: Seq<(PairV, Seq<(Date, int)>)>,
    t_new: Seq<(PairV, Seq<(Date, int)>)>,
    pts: Seq<RatePoint>,
    p: RatePoint,
)
    requires
        tables_match_points(t_old, pts),
        forall|a: Seq<char>, b: Seq<char>|
            #[trigger] pair_lookup(t_new, a, b) == (if p.src == a && p.dst == b {
                Some(
                    (match pair_lookup(t_old, a, b) {
                        Some(t) => t,
                        None => Seq::empty(),
                    }) + seq![(p.date, p.rate)],
                )
            } else {
                pair_lookup(t_old, a, b)
            }),
    ensures
        tables_match_points(t_new, pts.push(p)),
{
    assert forall|a: Seq<char>, b: Seq<char>|
        #[trigger] pair_lookup(t_new, a, b) == (if points_table(pts.push(p), a, b).len() > 0 {
            Some(points_table(pts.push(p), a, b))
        } else {
            None::<Seq<(Date, int)>>
        }) by {
        lemma_points_table_push(pts, p, a, b);
        assert(pair_lookup(t_old, a, b) == (if points_table(pts, a, b).len() > 0 {
            Some(points_table(pts, a, b))
        } else {
            None::<Seq<(Date, int)>>
        }));
        if p.src == a && p.dst == b {
            if points_table(pts, a, b).len() == 0 {
                assert(Seq::<(Date, int)>::empty() + seq![(p.date, p.rate)] =~= points_table(
                    pts,
                    a,
                    b,
                ) + seq![(p.date, p.rate)]);
            }
        }
    }
}

/// The price records a ledger's two-posting exchange transactions imply.
fn implied_prices_exec(ledger: &Ledger) -> (r: Vec<CommodityPrice>)
    requires
        ledger@.wf(),
        forall|i: int|
            0 <= i < ledger@.transactions.len() ==> implied_ok(#[trigger] ledger@.transactions[i]),
    ensures
        r@.map_values(|p: CommodityPrice| p@) == implied_prices(ledger@.transactions),
        forall|i: int| 0 <= i < r@.len() ==> price_ok((#[trigger] r@[i])@),
{
    let ghost ts = ledger@.transactions;
    let mut out: Vec<CommodityPrice> = Vec::new();
    proof {
        assert(ts.take(0) =~= Seq::<TransactionV>::empty());
        assert(out@.map_values(|p: CommodityPrice| p@) =~= implied_prices(ts.take(0)));
    }
    let mut i: usize = 0;
    while i < ledger.transactions.len()
        invariant
            0 <= i <= ledger.transactions@.len(),
            ts == ledger@.transactions,
            ts.len() == ledger.transactions@.len(),
            ledger@.wf(),
            forall|j: int| 0 <= j < ts.len() ==> implied_ok(#[trigger] ts[j]),
            out@.map_values(|p: CommodityPrice| p@) == implied_prices(ts.take(i as int)),
            forall|j: int| 0 <= j < out@.len() ==> price_ok((#[trigger] out@[j])@),
        decreases ledger.transactions@.len() - i,
    {
        let t = &ledger.transactions[i];
        proof {
            assert(ts[i as int] == t@);
        }
        let mut took = false;
        if t.postings.len() == 2 {
            let different = !(t.postings[0].amount.commodity.name
                == t.postings[1].amount.commodity.name);
            let nonzero = !t.postings[0].amount.quantity.is_zero()
                && !t.postings[1].amount.quantity.is_zero();
            if different && nonzero {
                proof {
                    assert(t@.postings[0] == t.postings@[0]@);
                    assert(t@.postings[1] == t.postings@[1]@);
                    assert(implies_price(t@));
                }
                let rate = t.postings[1].amount.quantity.neg().div(&t.postings[0].amount.quantity);
                let price = CommodityPrice {
                    datetime: DateTime::midnight(t.date),
                    commodity_name: t.postings[0].amount.commodity.name.clone(),
                    amount: Amount {
                        quantity: rate,
                        commodity: t.postings[1].amount.commodity.duplicate(),
                    },
                };
                proof {
                    assert(price@ == implied_price(t@));
                    assert(implied_ok(ts[i as int]));
                    assert(price_ok(price@));
                }
                out.push(price);
                took = true;
            }
        }
        proof {
            assert(ts.take(i + 1).drop_last() =~= ts.take(i as int));
            assert(ts.take(i + 1).last() == ts[i as int]);
            assert(t@.postings.len() == t.postings@.len());
            if t.postings@.len() == 2 {
                assert(t@.postings[0] == t.postings@[0]@);
                assert(t@.postings[1] == t.postings@[1]@);
            }
            if took {
                assert(implies_price(ts[i as int]));
                assert(out@.map_values(|p: CommodityPrice| p@) =~= implied_prices(ts.take(i + 1)));
            } else {
                assert(!implies_price(ts[i as int]));
                assert(out@.map_values(|p: CommodityPrice| p@) =~= implied_prices(ts.take(i + 1)));
            }
        }
        i += 1;
    }
    proof {
        assert(ts.take(ts.len() as int) =~= ts);
    }
    out
}

// --- executable store -----------------------------------------------------

impl CommoditiesPair {
    /// A pair naming a conversion direction.
    pub fn new(src_commodity_name: &str, dst_commodity_name: &str) -> (r: CommoditiesPair)
        ensures
            r@ == (PairV { src: src_commodity_name@, dst: dst_commodity_name@ }),
    {
        CommoditiesPair {
            src_commodity_name: src_commodity_name.to_owned(),
            dst_commodity_name: dst_commodity_name.to_owned(),
        }
    }

    /// A copy equal to the original.
    pub fn duplicate(&self) -> (r: CommoditiesPair)
        ensures
            r@ == self@,
    {
        CommoditiesPair {
            src_commodity_name: self.src_commodity_name.clone(),
            dst_commodity_name: self.dst_commodity_name.clone(),
        }
    }
}

impl RatesTable {
    fn new() -> (r: RatesTable)
        ensures
            r@ == Seq::<(Date, int)>::empty(),
    {
        let r = RatesTable { table: Vec::new() };
        proof {
            assert(r@ =~= Seq::<(Date, int)>::empty());
        }
        r
    }

    /// The step-function lookup: the entry with the greatest date at or
    /// before `date` wins, later-ingested entries winning ties.
    fn get_rate(&self, date: Date) -> (r: Result<Decimal, PricesError>)
        requires
            date.wf(),
            forall|j: int| 0 <= j < self@.len() ==> (#[trigger] self@[j]).0.wf(),
        ensures
            match best_rate(self@, date) {
                Some(e) => r is Ok && r->Ok_0@ == e.1,
                None => r is Err && r->Err_0@ == PricesErrorV::DateTooEarly(date),
            },
    {
        let mut best: Option<(Date, Decimal)> = None;
        let mut i: usize = 0;
        proof {
            assert(self@.take(0) =~= Seq::<(Date, int)>::empty());
        }
        while i < self.table.len()
            invariant
                0 <= i <= self.table@.len(),
                self@.len() == self.table@.len(),
                date.wf(),
                forall|j: int| 0 <= j < self@.len() ==> (#[trigger] self@[j]).0.wf(),
                forall|j: int| 0 <= j < self@.len() ==> self@[j] == (self.table@[j].0, self.table@[j].1@),
                match (best, best_rate(self@.take(i as int), date)) {
                    (None, None) => true,
                    (Some(b), Some(e)) => b.0 == e.0 && b.1@ == e.1 && b.0.wf(),
                    _ => false,
                },
            decreases self.table@.len() - i,
        {
            let e = self.table[i];
            proof {
                assert(self@[i as int].0 == e.0 && self@[i as int].0.wf());
            }
            let take_it = e.0.le(&date) && (match best {
                None => true,
                Some(b) => b.0.le(&e.0),
            });
            proof {
                assert(self@.take(i + 1).drop_last() =~= self@.take(i as int));
                assert(self@.take(i + 1).last() == self@[i as int]);
            }
            if take_it {
                best = Some(e);
            }
            i += 1;
        }
        proof {
            assert(self@.take(self@.len() as int) =~= self@);
        }
        match best {
            Some(b) => Ok(b.1),
            None => Err(PricesError::DateTooEarly(date)),
        }
    }
}

impl Prices {
    /// The index of the first table recorded for the pair.
    fn find_pair(&self, pair: &CommoditiesPair) -> (r: Option<usize>)
        ensures
            match r {
                Some(i) => i < self.tables().len() && self.tables()[i as int].0.src == pair@.src
                    && self.tables()[i as int].0.dst == pair@.dst && forall|j: int|
                    0 <= j < i ==> !((#[trigger] self.tables()[j]).0.src == pair@.src
                        && self.tables()[j].0.dst == pair@.dst),
                None => forall|j: int|
                    0 <= j < self.tables().len() ==> !((#[trigger] self.tables()[j]).0.src
                        == pair@.src && self.tables()[j].0.dst == pair@.dst),
            },
    {
        let mut i: usize = 0;
        while i < self.rates.len()
            invariant
                0 <= i <= self.rates@.len(),
                self.tables().len() == self.rates@.len(),
                forall|j: int|
                    0 <= j < i ==> !((#[trigger] self.tables()[j]).0.src == pair@.src
                        && self.tables()[j].0.dst == pair@.dst),
            decreases self.rates@.len() - i,
        {
            let candidate = &self.rates[i].0;
            if candidate.src_commodity_name == pair.src_commodity_name
                && candidate.dst_commodity_name == pair.dst_commodity_name {
                return Some(i);
            }
            i += 1;
        }
        None
    }

    /// The table recorded for the pair, or the error naming the pair.
    fn get_rates_table(&self, pair: &CommoditiesPair) -> (r: Result<&RatesTable, PricesError>)
        ensures
            match r {
                Ok(t) => pair_lookup(self.tables(), pair@.src, pair@.dst) == Some(t@) && (self.wf()
                    ==> forall|j: int| 0 <= j < t@.len() ==> (#[trigger] t@[j]).0.wf()),
                Err(e) => pair_lookup(self.tables(), pair@.src, pair@.dst) is None && e@
                    == PricesErrorV::NoSuchCommoditiesPair(pair@),
            },
    {
        match self.find_pair(pair) {
            Some(i) => {
                proof {
                    lemma_pair_lookup_at(self.tables(), pair@.src, pair@.dst, i as int);
                }
                Ok(&self.rates[i].1)
            },
            None => {
                proof {
                    lemma_pair_lookup_none(self.tables(), pair@.src, pair@.dst);
                }
                Err(PricesError::NoSuchCommoditiesPair(pair.duplicate()))
            },
        }
    }

    /// The recorded rate for the pair at the date: the step function over
    /// everything ingested for that direction.
    pub fn get_rate(&self, src_commodity_name: &str, dst_commodity_name: &str, date: Date) -> (r:
        Result<Decimal, PricesError>)
        requires
            self.wf(),
            date.wf(),
        ensures
            rate_result_matches(r, rate_result(self.tables(), src_commodity_name@,
                dst_commodity_name@, date)),
    {
        let commodities_pair = CommoditiesPair::new(src_commodity_name, dst_commodity_name);
        match self.get_rates_table(&commodities_pair) {
            Ok(t) => t.get_rate(date),
            Err(e) => Err(e),
        }
    }

    /// Build the whole rate store of a ledger: every explicit price record
    /// first, then every transaction-implied rate, each in both directions.
    /// Afterwards each pair direction's table holds exactly the ledger's
    /// points for it, in ingestion order.
    pub fn load(ledger: &Ledger) -> (r: Prices)
        requires
            ledger@.wf(),
            forall|i: int|
                0 <= i < ledger@.commodity_prices.len() ==> price_ok(
                    #[trigger] ledger@.commodity_prices[i],
                ),
            forall|i: int|
                0 <= i < ledger@.transactions.len() ==> implied_ok(
                    #[trigger] ledger@.transactions[i],
                ),
        ensures
            r.wf(),
            tables_match_points(r.tables(), ledger_points(ledger@)),
    {
        let mut result = Prices { rates: Vec::new() };
        proof {
            reveal(Seq::filter);
            assert(result.tables() =~= Seq::<(PairV, Seq<(Date, int)>)>::empty());
            assert forall|a: Seq<char>, b: Seq<char>|
                #[trigger] pair_lookup(result.tables(), a, b) == (if points_table(
                    Seq::<RatePoint>::empty(),
                    a,
                    b,
                ).len() > 0 {
                    Some(points_table(Seq::<RatePoint>::empty(), a, b))
                } else {
                    None::<Seq<(Date, int)>>
                }) by {
                assert(Seq::<RatePoint>::empty().filter(|p: RatePoint| p.src == a && p.dst == b)
                    =~= Seq::<RatePoint>::empty());
            }
        }
        proof {
            assert forall|i: int|
                0 <= i < ledger.commodity_prices@.len() implies price_ok(
                (#[trigger] ledger.commodity_prices@[i])@,
            ) by {
                assert(ledger@.commodity_prices[i] == ledger.commodity_prices@[i]@);
            }
        }
        result.add_prices(&ledger.commodity_prices, Ghost(Seq::empty()));
        let implied = implied_prices_exec(ledger);
        result.add_prices(&implied, Ghost(explicit_points(ledger@.commodity_prices)));
        proof {
            assert(implied@.map_values(|p: CommodityPrice| p@) == implied_prices(
                ledger@.transactions,
            ));
            assert(Seq::<RatePoint>::empty() + explicit_points(ledger@.commodity_prices)
                =~= explicit_points(ledger@.commodity_prices));
            assert(explicit_points(ledger@.commodity_prices) + explicit_points(
                implied_prices(ledger@.transactions),
            ) =~= ledger_points(ledger@));
        }
        result
    }

    /// Record one dated rate for one pair direction, appended after
    /// everything recorded so far.
    fn add_price(&mut self, src_commodity_name: &str, dst_commodity_name: &str, rate: Decimal,
        date: Date)
        requires
            old(self).wf(),
            date.wf(),
        ensures
            final(self).wf(),
            forall|a: Seq<char>, b: Seq<char>|
                #[trigger] pair_lookup(final(self).tables(), a, b) == (if src_commodity_name@ == a
                    && dst_commodity_name@ == b {
                    Some(
                        (match pair_lookup(old(self).tables(), a, b) {
                            Some(t) => t,
                            None => Seq::empty(),
                        }) + seq![(date, rate@)],
                    )
                } else {
                    pair_lookup(old(self).tables(), a, b)
                }),
    {
        let pair = CommoditiesPair::new(src_commodity_name, dst_commodity_name);
        let ghost old_tables = self.tables();
        match self.find_pair(&pair) {
            Some(i) => {
                proof {
                    lemma_pair_lookup_at(old_tables, pair@.src, pair@.dst, i as int);
                }
                let mut entry = self.rates.remove(i);
                entry.1.table.push((date, rate));
                self.rates.insert(i, entry);
                proof {
                    let newtab = old_tables[i as int].1 + seq![(date, rate@)];
                    assert(self.tables() =~~= old_tables.update(
                        i as int,
                        (old_tables[i as int].0, newtab),
                    ));
                    lemma_pair_lookup_update(old_tables, i as int, newtab);
                }
            },
            None => {
                proof {
                    lemma_pair_lookup_none(old_tables, pair@.src, pair@.dst);
                    lemma_pair_lookup_push(old_tables, pair@, seq![(date, rate@)]);
                }
                let mut fresh = RatesTable::new();
                fresh.table.push((date, rate));
                self.rates.push((pair, fresh));
                proof {
                    assert(self.tables() =~~= old_tables.push(
                        (PairV { src: src_commodity_name@, dst: dst_commodity_name@ }, seq![
                            (date, rate@),
                        ]),
                    ));
                    assert(Seq::<(Date, int)>::empty() + seq![(date, rate@)] =~= seq![
                        (date, rate@),
                    ]);
                }
            },
        }
    }

    /// Record a batch of price records, each in both directions: the
    /// forward rate, then its reciprocal.
    fn add_prices(&mut self, prices: &Vec<CommodityPrice>, Ghost(pts0): Ghost<Seq<RatePoint>>)
        requires
            old(self).wf(),
            tables_match_points(old(self).tables(), pts0),
            forall|i: int|
                0 <= i < prices@.len() ==> price_ok((#[trigger] prices@[i])@),
        ensures
            final(self).wf(),
            tables_match_points(
                final(self).tables(),
                pts0 + explicit_points(prices@.map_values(|p: CommodityPrice| p@)),
            ),
    {
        let ghost psv = prices@.map_values(|p: CommodityPrice| p@);
        proof {
            assert(explicit_points(psv.take(0)) =~= Seq::<RatePoint>::empty());
            assert(pts0 + Seq::<RatePoint>::empty() =~= pts0);
        }
        let mut i: usize = 0;
        while i < prices.len()
            invariant
                0 <= i <= prices@.len(),
                psv == prices@.map_values(|p: CommodityPrice| p@),
                forall|j: int|
                    0 <= j < prices@.len() ==> price_ok((#[trigger] prices@[j])@),
                self.wf(),
                tables_match_points(self.tables(), pts0 + explicit_points(psv.take(i as int))),
            decreases prices@.len() - i,
        {
            let p = &prices[i];
            proof {
                assert(psv[i as int] == p@);
            }
            let ghost pts_before = pts0 + explicit_points(psv.take(i as int));
            let ghost forward = RatePoint {
                src: p@.commodity_name,
                dst: p@.amount.name,
                date: p@.datetime.date,
                rate: p@.amount.q,
            };
            let ghost backward = RatePoint {
                src: p@.amount.name,
                dst: p@.commodity_name,
                date: p@.datetime.date,
                rate: dec_div_spec(UNIT as int, p@.amount.q),
            };
            let ghost t0 = self.tables();
            self.add_price(
                p.commodity_name.as_str(),
                p.amount.commodity.name.as_str(),
                p.amount.quantity,
                p.datetime.date,
            );
            proof {
                lemma_ingest_step(t0, self.tables(), pts_before, forward);
            }
            let one = Decimal::from_units(UNIT);
            let recip = one.div(&p.amount.quantity);
            let ghost t1 = self.tables();
            self.add_price(
                p.amount.commodity.name.as_str(),
                p.commodity_name.as_str(),
                recip,
                p.datetime.date,
            );
            proof {
                lemma_ingest_step(t1, self.tables(), pts_before.push(forward), backward);
                assert(psv.take(i + 1).drop_last() =~= psv.take(i as int));
                assert(explicit_points(psv.take(i + 1)) == explicit_points(psv.take(i as int))
                    + price_points(psv[i as int]));
                assert(pts0 + explicit_points(psv.take(i + 1)) =~= pts_before.push(forward).push(
                    backward,
                ));
            }
            i += 1;
        }
        proof {
            assert(psv.take(prices@.len() as int) =~= psv);
        }
    }

    /// The amount converted at the recorded rate for the pair and date.
    pub fn convert(&self, amount: Decimal, src_commodity_name: &str, dst_commodity_name: &str,
        date: Date) -> (r: Result<Decimal, PricesError>)
        requires
            self.wf(),
            date.wf(),
            convert_fits(self.tables(), amount@, src_commodity_name@, dst_commodity_name@, date),
        ensures
            rate_result_matches(r, convert_result(self.tables(), amount@, src_commodity_name@,
                dst_commodity_name@, date)),
    {
        match self.get_rate(src_commodity_name, dst_commodity_name, date) {
            Ok(rate) => Ok(amount.mul(&rate)),
            Err(e) => Err(e),
        }
    }
}

} // verus!
