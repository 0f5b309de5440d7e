//! Joining several ledgers into one: concatenate their price records and
//! transactions, then sort each list by date, keeping the order of equal
//! dates as concatenated (a stable insertion sort).

use vstd::prelude::*;

use crate::ledger::CommodityPrice;
use crate::ledger::CommodityPriceV;
use crate::ledger::Ledger;
use crate::ledger::LedgerV;
use crate::ledger::TransactionV;

verus! {

/// A transaction placed after every element dated at or before it: the
/// insertion step of a stable sort by date.
pub open spec fn insert_txn(sorted: Seq<TransactionV>, x: TransactionV) -> Seq<TransactionV>
    decreases sorted.len(),
{
    if sorted.len() == 0 {
        seq![x]
    } else if sorted.last().date.key() <= x.date.key() {
        sorted.push(x)
    } else {
        insert_txn(sorted.drop_last(), x).push(sorted.last())
    }
}

/// Stable insertion sort of transactions by date.
pub open spec fn sort_txns(s: Seq<TransactionV>) -> Seq<TransactionV>
    decreases s.len(),
{
    if s.len() == 0 {
        Seq::empty()
    } else {
        insert_txn(sort_txns(s.drop_last()), s.last())
    }
}

/// A price record placed after every element whose day-time is at or
/// before its own.
pub open spec fn insert_price(sorted: Seq<CommodityPriceV>, x: CommodityPriceV) -> Seq<
    CommodityPriceV,
>
    decreases sorted.len(),
{
    if sorted.len() == 0 {
        seq![x]
    } else if sorted.last().datetime.key() <= x.datetime.key() {
        sorted.push(x)
    } else {
        insert_price(sorted.drop_last(), x).push(sorted.last())
    }
}

/// Stable insertion sort of price records by day-time.
pub open spec fn sort_prices(s: Seq<CommodityPriceV>) -> Seq<CommodityPriceV>
    decreases s.len(),
{
    if s.len() == 0 {
        Seq::empty()
    } else {
        insert_price(sort_prices(s.drop_last()), s.last())
    }
}

/// All transactions of a ledger sequence, in order.
pub open spec fn all_txns(ls: Seq<LedgerV>) -> Seq<TransactionV>
    decreases ls.len(),
{
    if ls.len() == 0 {
        Seq::empty()
    } else {
        all_txns(ls.drop_last()) + ls.last().transactions
    }
}

/// All price records of a ledger sequence, in order.
pub open spec fn all_prices(ls: Seq<LedgerV>) -> Seq<CommodityPriceV>
    decreases ls.len(),
{
    if ls.len() == 0 {
        Seq::empty()
    } else {
        all_prices(ls.drop_last()) + ls.last().commodity_prices
    }
}

/// Transactions in ascending date order.
pub open spec fn sorted_by_date(s: Seq<TransactionV>) -> bool {
    forall|i: int, j: int|
        0 <= i < j < s.len() ==> (#[trigger] s[i]).date.key() <= (#[trigger] s[j]).date.key()
}

/// Price records in ascending day-time order.
pub open spec fn sorted_by_datetime(s: Seq<CommodityPriceV>) -> bool {
    forall|i: int, j: int|
        0 <= i < j < s.len() ==> (#[trigger] s[i]).datetime.key() <= (
        #[trigger] s[j]).datetime.key()
}

/// Inserting into a date-ordered list keeps it ordered, and adds nothing
/// but the inserted element.
proof fn lemma_insert_txn_sorted(sorted: Seq<TransactionV>, x: TransactionV)
    requires
        sorted_by_date(sorted),
    ensures
        sorted_by_date(insert_txn(sorted, x)),
        insert_txn(sorted, x).len() == sorted.len() + 1,
        forall|i: int|
            0 <= i < insert_txn(sorted, x).len() ==> (#[trigger] insert_txn(sorted, x)[i]) == x
                || sorted.contains(insert_txn(sorted, x)[i]),
    decreases sorted.len(),
{
    let r = insert_txn(sorted, x);
    if sorted.len() == 0 {
        assert(r[0] == x);
    } else if sorted.last().date.key() <= x.date.key() {
        assert forall|i: int| 0 <= i < r.len() implies (#[trigger] r[i]) == x || sorted.contains(
            r[i],
        ) by {
            if i < sorted.len() {
                assert(sorted[i] == r[i]);
            }
        }
    } else {
        lemma_insert_txn_sorted(sorted.drop_last(), x);
        let r0 = insert_txn(sorted.drop_last(), x);
        assert forall|i: int| 0 <= i < r.len() implies (#[trigger] r[i]) == x || sorted.contains(
            r[i],
        ) by {
            if i < r0.len() {
                assert(r[i] == r0[i]);
                if r0[i] != x {
                    let j = choose|j: int|
                        0 <= j < sorted.drop_last().len() && sorted.drop_last()[j] == r0[i];
                    assert(sorted[j] == r0[i]);
                }
            } else {
                assert(r[i] == sorted.last());
                assert(sorted[sorted.len() - 1] == sorted.last());
            }
        }
        assert forall|i: int, j: int|
            0 <= i < j < r.len() implies (#[trigger] r[i]).date.key() <= (
        #[trigger] r[j]).date.key() by {
            if j == r.len() - 1 {
                assert(r[j] == sorted.last());
                assert(r[i] == r0[i]);
                if r0[i] != x {
                    let m = choose|m: int|
                        0 <= m < sorted.drop_last().len() && sorted.drop_last()[m] == r0[i];
                    assert(sorted[m] == r0[i]);
                    assert(sorted[m].date.key() <= sorted.last().date.key());
                }
            }
        }
    }
}

/// The stable sort's result is in ascending date order.
pub proof fn lemma_sort_txns_sorted(s: Seq<TransactionV>)
    ensures
        sorted_by_date(sort_txns(s)),
    decreases s.len(),
{
    if s.len() > 0 {
        lemma_sort_txns_sorted(s.drop_last());
        lemma_insert_txn_sorted(sort_txns(s.drop_last()), s.last());
    }
}

/// Inserting into a day-time-ordered list keeps it ordered, and adds
/// nothing but the inserted element.
proof fn lemma_insert_price_sorted(sorted: Seq<CommodityPriceV>, x: CommodityPriceV)
    requires
        sorted_by_datetime(sorted),
    ensures
        sorted_by_datetime(insert_price(sorted, x)),
        insert_price(sorted, x).len() == sorted.len() + 1,
        forall|i: int|
            0 <= i < insert_price(sorted, x).len() ==> (#[trigger] insert_price(sorted, x)[i]) == x
                || sorted.contains(insert_price(sorted, x)[i]),
    decreases sorted.len(),
{
    let r = insert_price(sorted, x);
    if sorted.len() == 0 {
        assert(r[0] == x);
    } else if sorted.last().datetime.key() <= x.datetime.key() {
        assert forall|i: int| 0 <= i < r.len() implies (#[trigger] r[i]) == x || sorted.contains(
            r[i],
        ) by {
            if i < sorted.len() {
                assert(sorted[i] == r[i]);
            }
        }
    } else {
        lemma_insert_price_sorted(sorted.drop_last(), x);
        let r0 = insert_price(sorted.drop_last(), x);
        assert forall|i: int| 0 <= i < r.len() implies (#[trigger] r[i]) == x || sorted.contains(
            r[i],
        ) by {
            if i < r0.len() {
                assert(r[i] == r0[i]);
                if r0[i] != x {
                    let j = choose|j: int|
                        0 <= j < sorted.drop_last().len() && sorted.drop_last()[j] == r0[i];
                    assert(sorted[j] == r0[i]);
                }
            } else {
                assert(r[i] == sorted.last());
                assert(sorted[sorted.len() - 1] == sorted.last());
            }
        }
        assert forall|i: int, j: int|
            0 <= i < j < r.len() implies (#[trigger] r[i]).datetime.key() <= (
        #[trigger] r[j]).datetime.key() by {
            if j == r.len() - 1 {
                assert(r[j] == sorted.last());
                assert(r[i] == r0[i]);
                if r0[i] != x {
                    let m = choose|m: int|
                        0 <= m < sorted.drop_last().len() && sorted.drop_last()[m] == r0[i];
                    assert(sorted[m] == r0[i]);
                    assert(sorted[m].datetime.key() <= sorted.last().datetime.key());
                }
            }
        }
    }
}

/// The stable sort's result is in ascending day-time order.
pub proof fn lemma_sort_prices_sorted(s: Seq<CommodityPriceV>)
    ensures
        sorted_by_datetime(sort_prices(s)),
    decreases s.len(),
{
    if s.len() > 0 {
        lemma_sort_prices_sorted(s.drop_last());
        lemma_insert_price_sorted(sort_prices(s.drop_last()), s.last());
    }
}

/// Where the insertion scan stops, the insertion splits the list there.
proof fn lemma_insert_txn_at(sorted: Seq<TransactionV>, x: TransactionV, pos: int)
    requires
        0 <= pos <= sorted.len(),
        forall|j: int| pos <= j < sorted.len() ==> (#[trigger] sorted[j]).date.key() > x.date.key(),
        pos > 0 ==> sorted[pos - 1].date.key() <= x.date.key(),
    ensures
        insert_txn(sorted, x) == sorted.take(pos) + seq![x] + sorted.skip(pos),
    decreases sorted.len(),
{
    if sorted.len() == 0 {
        assert(insert_txn(sorted, x) =~= sorted.take(0) + seq![x] + sorted.skip(0));
    } else if pos == sorted.len() {
        assert(sorted.take(pos) =~= sorted);
        assert(insert_txn(sorted, x) =~= sorted.take(pos) + seq![x] + sorted.skip(pos));
    } else {
        lemma_insert_txn_at(sorted.drop_last(), x, pos);
        assert(sorted.drop_last().take(pos) =~= sorted.take(pos));
        assert(insert_txn(sorted, x) =~= (sorted.take(pos) + seq![x] + sorted.drop_last().skip(
            pos,
        )).push(sorted.last()));
        assert((sorted.take(pos) + seq![x] + sorted.drop_last().skip(pos)).push(sorted.last())
            =~= sorted.take(pos) + seq![x] + sorted.skip(pos));
    }
}

/// Where the insertion scan stops, the insertion splits the list there.
proof fn lemma_insert_price_at(sorted: Seq<CommodityPriceV>, x: CommodityPriceV, pos: int)
    requires
        0 <= pos <= sorted.len(),
        forall|j: int|
            pos <= j < sorted.len() ==> (#[trigger] sorted[j]).datetime.key() > x.datetime.key(),
        pos > 0 ==> sorted[pos - 1].datetime.key() <= x.datetime.key(),
    ensures
        insert_price(sorted, x) == sorted.take(pos) + seq![x] + sorted.skip(pos),
    decreases sorted.len(),
{
    if sorted.len() == 0 {
        assert(insert_price(sorted, x) =~= sorted.take(0) + seq![x] + sorted.skip(0));
    } else if pos == sorted.len() {
        assert(sorted.take(pos) =~= sorted);
        assert(insert_price(sorted, x) =~= sorted.take(pos) + seq![x] + sorted.skip(pos));
    } else {
        lemma_insert_price_at(sorted.drop_last(), x, pos);
        assert(sorted.drop_last().take(pos) =~= sorted.take(pos));
        assert(insert_price(sorted, x) =~= (sorted.take(pos) + seq![x] + sorted.drop_last().skip(
            pos,
        )).push(sorted.last()));
        assert((sorted.take(pos) + seq![x] + sorted.drop_last().skip(pos)).push(sorted.last())
            =~= sorted.take(pos) + seq![x] + sorted.skip(pos));
    }
}

/// Insert a transaction after every element dated at or before it.
fn insert_txn_exec(sorted: &mut Vec<crate::ledger::Transaction>, x: crate::ledger::Transaction)
    requires
        x@.wf(),
        forall|j: int|
            0 <= j < old(sorted)@.len() ==> (#[trigger] old(sorted)@[j])@.wf(),
    ensures
        final(sorted)@.map_values(|t: crate::ledger::Transaction| t@) == insert_txn(
            old(sorted)@.map_values(|t: crate::ledger::Transaction| t@),
            x@,
        ),
        forall|j: int| 0 <= j < final(sorted)@.len() ==> (#[trigger] final(sorted)@[j])@.wf(),
{
    let ghost s0 = sorted@.map_values(|t: crate::ledger::Transaction| t@);
    let mut pos: usize = sorted.len();
    let mut found = false;
    while pos > 0 && !found
        invariant
            0 <= pos <= sorted@.len(),
            s0 == sorted@.map_values(|t: crate::ledger::Transaction| t@),
            s0.len() == sorted@.len(),
            x@.wf(),
            forall|j: int| 0 <= j < sorted@.len() ==> (#[trigger] sorted@[j])@.wf(),
            forall|j: int| pos <= j < s0.len() ==> (#[trigger] s0[j]).date.key() > x@.date.key(),
            found ==> 0 < pos && s0[pos - 1].date.key() <= x@.date.key(),
        decreases pos, (if found { 0int } else { 1int }),
    {
        proof {
            assert(s0[pos - 1] == sorted@[pos - 1]@);
        }
        if sorted[pos - 1].date.le(&x.date) {
            found = true;
        } else {
            pos -= 1;
        }
    }
    proof {
        lemma_insert_txn_at(s0, x@, pos as int);
    }
    sorted.insert(pos, x);
    proof {
        assert(sorted@.map_values(|t: crate::ledger::Transaction| t@) =~= s0.take(pos as int)
            + seq![x@] + s0.skip(pos as int));
    }
}

/// Insert a price record after every element timed at or before it.
fn insert_price_exec(
    sorted: &mut Vec<CommodityPrice>,
    x: CommodityPrice,
)
    requires
        x@.wf(),
        forall|j: int|
            0 <= j < old(sorted)@.len() ==> (#[trigger] old(sorted)@[j])@.wf(),
    ensures
        final(sorted)@.map_values(|p: CommodityPrice| p@) == insert_price(
            old(sorted)@.map_values(|p: CommodityPrice| p@),
            x@,
        ),
        forall|j: int| 0 <= j < final(sorted)@.len() ==> (#[trigger] final(sorted)@[j])@.wf(),
{
    let ghost s0 = sorted@.map_values(|p: CommodityPrice| p@);
    let mut pos: usize = sorted.len();
    let mut found = false;
    while pos > 0 && !found
        invariant
            0 <= pos <= sorted@.len(),
            s0 == sorted@.map_values(|p: CommodityPrice| p@),
            s0.len() == sorted@.len(),
            x@.wf(),
            forall|j: int| 0 <= j < sorted@.len() ==> (#[trigger] sorted@[j])@.wf(),
            forall|j: int|
                pos <= j < s0.len() ==> (#[trigger] s0[j]).datetime.key() > x@.datetime.key(),
            found ==> 0 < pos && s0[pos - 1].datetime.key() <= x@.datetime.key(),
        decreases pos, (if found { 0int } else { 1int }),
    {
        proof {
            assert(s0[pos - 1] == sorted@[pos - 1]@);
        }
        if sorted[pos - 1].datetime.le(&x.datetime) {
            found = true;
        } else {
            pos -= 1;
        }
    }
    proof {
        lemma_insert_price_at(s0, x@, pos as int);
    }
    sorted.insert(pos, x);
    proof {
        assert(sorted@.map_values(|p: CommodityPrice| p@) =~= s0.take(pos as int) + seq![x@]
            + s0.skip(pos as int));
    }
}

/// Join several ledgers: concatenate, then sort prices by day-time and
/// transactions by date, each with a stable sort.
pub fn join_ledgers(ledgers: Vec<Ledger>) -> (r: Ledger)
    requires
        forall|i: int| 0 <= i < ledgers@.len() ==> (#[trigger] ledgers@[i])@.wf(),
    ensures
        r@.transactions == sort_txns(all_txns(ledgers@.map_values(|l: Ledger| l@))),
        r@.commodity_prices == sort_prices(all_prices(ledgers@.map_values(|l: Ledger| l@))),
        r@.wf(),
{
    let ghost lv = ledgers@.map_values(|l: Ledger| l@);
    let mut commodity_prices: Vec<CommodityPrice> = Vec::new();
    let mut transactions: Vec<crate::ledger::Transaction> = Vec::new();
    proof {
        assert(commodity_prices@.map_values(|p: CommodityPrice| p@) =~= sort_prices(
            all_prices(lv.take(0)),
        ));
        assert(transactions@.map_values(|t: crate::ledger::Transaction| t@) =~= sort_txns(
            all_txns(lv.take(0)),
        ));
    }
    let mut i: usize = 0;
    while i < ledgers.len()
        invariant
            0 <= i <= ledgers@.len(),
            lv == ledgers@.map_values(|l: Ledger| l@),
            lv.len() == ledgers@.len(),
            forall|j: int| 0 <= j < lv.len() ==> (#[trigger] lv[j]).wf(),
            commodity_prices@.map_values(|p: CommodityPrice| p@) == sort_prices(
                all_prices(lv.take(i as int)),
            ),
            transactions@.map_values(|t: crate::ledger::Transaction| t@) == sort_txns(
                all_txns(lv.take(i as int)),
            ),
            forall|j: int|
                0 <= j < commodity_prices@.len() ==> (#[trigger] commodity_prices@[j])@.wf(),
            forall|j: int| 0 <= j < transactions@.len() ==> (#[trigger] transactions@[j])@.wf(),
        decreases ledgers@.len() - i,
    {
        let src = &ledgers[i];
        proof {
            assert(lv[i as int] == src@);
        }
        let mut j: usize = 0;
        while j < src.commodity_prices.len()
            invariant
                0 <= j <= src.commodity_prices@.len(),
                lv[i as int] == src@,
                0 <= (i as int) < lv.len(),
                forall|k: int| 0 <= k < lv.len() ==> (#[trigger] lv[k]).wf(),
                src@.commodity_prices.len() == src.commodity_prices@.len(),
                commodity_prices@.map_values(|p: CommodityPrice| p@) == sort_prices(
                    all_prices(lv.take(i as int)) + src@.commodity_prices.take(j as int),
                ),
                forall|k: int|
                    0 <= k < commodity_prices@.len() ==> (#[trigger] commodity_prices@[k])@.wf(),
            decreases src.commodity_prices@.len() - j,
        {
            let p = &src.commodity_prices[j];
            proof {
                assert(src@.commodity_prices[j as int] == p@);
                assert(p@.wf());
                lemma_sort_prices_step(
                    all_prices(lv.take(i as int)),
                    src@.commodity_prices,
                    j as int,
                );
            }
            insert_price_exec(&mut commodity_prices, p.duplicate());
            j += 1;
        }
        let mut j2: usize = 0;
        while j2 < src.transactions.len()
            invariant
                0 <= j2 <= src.transactions@.len(),
                lv[i as int] == src@,
                0 <= (i as int) < lv.len(),
                forall|k: int| 0 <= k < lv.len() ==> (#[trigger] lv[k]).wf(),
                src@.transactions.len() == src.transactions@.len(),
                transactions@.map_values(|t: crate::ledger::Transaction| t@) == sort_txns(
                    all_txns(lv.take(i as int)) + src@.transactions.take(j2 as int),
                ),
                forall|k: int|
                    0 <= k < transactions@.len() ==> (#[trigger] transactions@[k])@.wf(),
            decreases src.transactions@.len() - j2,
        {
            let t = &src.transactions[j2];
            proof {
                assert(src@.transactions[j2 as int] == t@);
                assert(t@.wf());
                lemma_sort_txns_step(all_txns(lv.take(i as int)), src@.transactions, j2 as int);
            }
            insert_txn_exec(&mut transactions, t.duplicate());
            j2 += 1;
        }
        proof {
            assert(lv.take(i + 1).drop_last() =~= lv.take(i as int));
            assert(lv.take(i + 1).last() == lv[i as int]);
            assert(src@.commodity_prices.take(src@.commodity_prices.len() as int)
                =~= src@.commodity_prices);
            assert(src@.transactions.take(src@.transactions.len() as int) =~= src@.transactions);
            assert(all_prices(lv.take(i + 1)) =~= all_prices(lv.take(i as int))
                + src@.commodity_prices);
            assert(all_txns(lv.take(i + 1)) =~= all_txns(lv.take(i as int)) + src@.transactions);
        }
        i += 1;
    }
    proof {
        assert(lv.take(lv.len() as int) =~= lv);
    }
    let r = Ledger { commodity_prices, transactions };
    proof {
        lemma_sorted_wf(r);
    }
    r
}

/// Appending the next element extends the sorted prefix by one insertion.
proof fn lemma_sort_prices_step(base: Seq<CommodityPriceV>, s: Seq<CommodityPriceV>, j: int)
    requires
        0 <= j < s.len(),
    ensures
        sort_prices(base + s.take(j + 1)) == insert_price(sort_prices(base + s.take(j)), s[j]),
{
    assert((base + s.take(j + 1)).drop_last() =~= base + s.take(j));
    assert((base + s.take(j + 1)).last() == s[j]);
    assert((base + s.take(j + 1)).len() > 0);
}

/// Appending the next element extends the sorted prefix by one insertion.
proof fn lemma_sort_txns_step(base: Seq<TransactionV>, s: Seq<TransactionV>, j: int)
    requires
        0 <= j < s.len(),
    ensures
        sort_txns(base + s.take(j + 1)) == insert_txn(sort_txns(base + s.take(j)), s[j]),
{
    assert((base + s.take(j + 1)).drop_last() =~= base + s.take(j));
    assert((base + s.take(j + 1)).last() == s[j]);
    assert((base + s.take(j + 1)).len() > 0);
}

/// A ledger whose element views are all well-formed is well-formed.
proof fn lemma_sorted_wf(l: Ledger)
    requires
        forall|j: int|
            0 <= j < l.commodity_prices@.len() ==> (#[trigger] l.commodity_prices@[j])@.wf(),
        forall|j: int| 0 <= j < l.transactions@.len() ==> (#[trigger] l.transactions@[j])@.wf(),
    ensures
        l@.wf(),
{
    assert forall|j: int|
        0 <= j < l@.commodity_prices.len() implies (#[trigger] l@.commodity_prices[j]).wf() by {
        assert(l@.commodity_prices[j] == l.commodity_prices@[j]@);
    }
    assert forall|j: int|
        0 <= j < l@.transactions.len() implies (#[trigger] l@.transactions[j]).wf() by {
        assert(l@.transactions[j] == l.transactions@[j]@);
    }
}

} // verus!
