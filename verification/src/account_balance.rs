//! Balance of a single account: a mapping from commodity name to quantity.
//!
//! The invariant of the type is exact-zero pruning: no held commodity ever
//! has quantity zero. Combination is per-commodity addition; subtraction is
//! combination with the negated operand.

use vstd::prelude::*;

use crate::date::Date;
use crate::decimal::Decimal;
use crate::decimal::UNIT;
use crate::decimal::div_away;
use crate::decimal::fits_i128;
use crate::decimal::round_dp_spec;
use crate::ledger::Amount;
use crate::ledger::AmountV;
use crate::prices::PairV;
use crate::prices::Prices;
use crate::prices::PricesError;
use crate::prices::PricesErrorV;
use crate::prices::convert_fits;
use crate::prices::convert_result;
use crate::prices::rate_result_matches;

verus! {

/// Balance of a single account: one amount per held commodity.
#[derive(Debug)]
pub struct AccountBalance {
    pub amounts: Vec<Amount>,
}

/// The value at a key, or zero where the key is absent.
pub open spec fn lookup0(m: Map<Seq<char>, int>, k: Seq<char>) -> int {
    if m.dom().contains(k) {
        m[k]
    } else {
        0
    }
}

/// The commodity map of an entry sequence: later entries win, though a
/// well-formed balance never repeats a commodity.
pub open spec fn ab_map_of(s: Seq<AmountV>) -> Map<Seq<char>, int>
    decreases s.len(),
{
    if s.len() == 0 {
        Map::empty()
    } else {
        ab_map_of(s.drop_last()).insert(s.last().name, s.last().q)
    }
}

/// One commodity added into a balance map, with exact-zero pruning.
pub open spec fn ab_add(m: Map<Seq<char>, int>, name: Seq<char>, q: int) -> Map<Seq<char>, int> {
    if lookup0(m, name) + q == 0 {
        m.remove(name)
    } else {
        m.insert(name, lookup0(m, name) + q)
    }
}

/// Two balance maps combined: per-commodity addition, exact zeroes pruned.
pub open spec fn ab_merge(a: Map<Seq<char>, int>, b: Map<Seq<char>, int>) -> Map<Seq<char>, int> {
    Map::new(
        |k: Seq<char>|
            (a.dom().contains(k) || b.dom().contains(k)) && lookup0(a, k) + lookup0(b, k) != 0,
        |k: Seq<char>| lookup0(a, k) + lookup0(b, k),
    )
}

/// A balance map with every quantity negated.
pub open spec fn map_neg(m: Map<Seq<char>, int>) -> Map<Seq<char>, int> {
    Map::new(|k: Seq<char>| m.dom().contains(k), |k: Seq<char>| -m[k])
}

/// Every per-commodity sum of two balance maps stays in machine range.
pub open spec fn ab_merge_fits(a: Map<Seq<char>, int>, b: Map<Seq<char>, int>) -> bool {
    forall|k: Seq<char>|
        #[trigger] b.dom().contains(k) ==> fits_i128(lookup0(a, k) + b[k])
}

impl AccountBalance {
    /// The held amounts as mathematical values.
    pub open spec fn entries(self) -> Seq<AmountV> {
        self.amounts@.map_values(|a: Amount| a@)
    }

    /// The commodity map the balance denotes.
    pub open spec fn as_map(self) -> Map<Seq<char>, int> {
        ab_map_of(self.entries())
    }

    /// Well-formed: no commodity twice, no exact-zero quantity.
    pub open spec fn wf(self) -> bool {
        &&& forall|i: int, j: int|
            0 <= i < j < self.entries().len() ==> (#[trigger] self.entries()[i]).name != (
            #[trigger] self.entries()[j]).name
        &&& forall|i: int| 0 <= i < self.entries().len() ==> (#[trigger] self.entries()[i]).q != 0
    }
}

// --- assoc-list-to-map lemmas --------------------------------------------

/// In a well-formed entry sequence every entry is its commodity's map
/// value, and every mapped commodity has an entry.
pub proof fn lemma_ab_map_index(s: Seq<AmountV>)
    requires
        forall|i: int, j: int|
            0 <= i < j < s.len() ==> (#[trigger] s[i]).name != (#[trigger] s[j]).name,
    ensures
        forall|i: int|
            0 <= i < s.len() ==> ab_map_of(s).dom().contains((#[trigger] s[i]).name) && ab_map_of(
                s,
            )[s[i].name] == s[i].q,
        forall|k: Seq<char>|
            #[trigger] ab_map_of(s).dom().contains(k) ==> exists|i: int|
                0 <= i < s.len() && (#[trigger] s[i]).name == k,
    decreases s.len(),
{
    if s.len() > 0 {
        lemma_ab_map_index(s.drop_last());
        assert forall|i: int|
            0 <= i < s.len() implies ab_map_of(s).dom().contains((#[trigger] s[i]).name)
            && ab_map_of(s)[s[i].name] == s[i].q by {
            if i < s.len() - 1 {
                assert(s.drop_last()[i] == s[i]);
                assert(s[i].name != s[s.len() - 1].name);
            }
        }
        assert forall|k: Seq<char>| #[trigger]
            ab_map_of(s).dom().contains(k) implies exists|i: int|
            0 <= i < s.len() && (#[trigger] s[i]).name == k by {
            if k == s.last().name {
                assert(s[s.len() - 1].name == k);
            } else {
                assert(ab_map_of(s.drop_last()).dom().contains(k));
                let i = choose|i: int| 0 <= i < s.drop_last().len() && (#[trigger] s.drop_last()[i]).name == k;
                assert(s[i].name == k);
            }
        }
    }
}

/// A well-formed balance's map holds no zero value.
pub proof fn lemma_ab_map_nonzero(s: Seq<AmountV>)
    requires
        forall|i: int, j: int|
            0 <= i < j < s.len() ==> (#[trigger] s[i]).name != (#[trigger] s[j]).name,
        forall|i: int| 0 <= i < s.len() ==> (#[trigger] s[i]).q != 0,
    ensures
        forall|k: Seq<char>| #[trigger] ab_map_of(s).dom().contains(k) ==> ab_map_of(s)[k] != 0,
{
    lemma_ab_map_index(s);
    assert forall|k: Seq<char>| #[trigger]
        ab_map_of(s).dom().contains(k) implies ab_map_of(s)[k] != 0 by {
        let i = choose|i: int| 0 <= i < s.len() && (#[trigger] s[i]).name == k;
        assert(ab_map_of(s)[s[i].name] == s[i].q);
    }
}

/// A commodity named by no entry is absent from the map.
pub proof fn lemma_ab_map_absent(s: Seq<AmountV>, k: Seq<char>)
    requires
        forall|i: int| 0 <= i < s.len() ==> (#[trigger] s[i]).name != k,
    ensures
        !ab_map_of(s).dom().contains(k),
    decreases s.len(),
{
    if s.len() > 0 {
        lemma_ab_map_absent(s.drop_last(), k);
    }
}

/// Replacing an entry's quantity updates its commodity alone.
proof fn lemma_ab_map_update(s: Seq<AmountV>, i: int, x: AmountV)
    requires
        0 <= i < s.len(),
        x.name == s[i].name,
        forall|a: int, b: int|
            0 <= a < b < s.len() ==> (#[trigger] s[a]).name != (#[trigger] s[b]).name,
    ensures
        ab_map_of(s.update(i, x)) == ab_map_of(s).insert(x.name, x.q),
    decreases s.len(),
{
    if i == s.len() - 1 {
        assert(s.update(i, x).drop_last() =~= s.drop_last());
        assert(ab_map_of(s.update(i, x)) =~= ab_map_of(s).insert(x.name, x.q));
    } else {
        assert(s.update(i, x).drop_last() =~= s.drop_last().update(i, x));
        lemma_ab_map_update(s.drop_last(), i, x);
        assert(s.update(i, x).last() == s.last());
        assert(x.name != s.last().name);
        assert(ab_map_of(s.update(i, x)) =~= ab_map_of(s).insert(x.name, x.q));
    }
}

/// Removing an entry removes its commodity alone.
proof fn lemma_ab_map_remove(s: Seq<AmountV>, i: int)
    requires
        0 <= i < s.len(),
        forall|a: int, b: int|
            0 <= a < b < s.len() ==> (#[trigger] s[a]).name != (#[trigger] s[b]).name,
    ensures
        ab_map_of(s.remove(i)) == ab_map_of(s).remove(s[i].name),
    decreases s.len(),
{
    if i == s.len() - 1 {
        assert(s.remove(i) =~= s.drop_last());
        assert(forall|j: int| 0 <= j < s.drop_last().len() ==> (#[trigger] s.drop_last()[j]).name
            != s[i].name);
        lemma_ab_map_absent(s.drop_last(), s[i].name);
        assert(ab_map_of(s.remove(i)) =~= ab_map_of(s).remove(s[i].name));
    } else {
        assert(s.remove(i).drop_last() =~= s.drop_last().remove(i));
        lemma_ab_map_remove(s.drop_last(), i);
        assert(s.remove(i).last() == s.last());
        assert(s[i].name != s.last().name);
        assert(s.drop_last()[i] == s[i]);
        assert(ab_map_of(s.remove(i)) =~= ab_map_of(s).remove(s[i].name));
    }
}

impl Default for AccountBalance {
    /// The empty balance.
    fn default() -> (r: AccountBalance)
        ensures
            r.as_map() == Map::<Seq<char>, int>::empty(),
            r.wf(),
            r.entries().len() == 0,
    {
        AccountBalance::new()
    }
}

impl AccountBalance {
    /// The empty balance.
    pub fn new() -> (r: AccountBalance)
        ensures
            r.as_map() == Map::<Seq<char>, int>::empty(),
            r.wf(),
            r.entries().len() == 0,
    {
        let r = AccountBalance { amounts: Vec::new() };
        proof {
            assert(r.entries() =~= Seq::<AmountV>::empty());
        }
        r
    }

    /// The index of the commodity's entry, if held.
    fn find_commodity(&self, name: &String) -> (r: Option<usize>)
        ensures
            match r {
                Some(i) => i < self.entries().len() && self.entries()[i as int].name == name@
                    && forall|j: int|
                    0 <= j < i ==> (#[trigger] self.entries()[j]).name != name@,
                None => forall|j: int|
                    0 <= j < self.entries().len() ==> (#[trigger] self.entries()[j]).name != name@,
            },
    {
        let mut i: usize = 0;
        while i < self.amounts.len()
            invariant
                0 <= i <= self.amounts@.len(),
                self.entries().len() == self.amounts@.len(),
                forall|j: int| 0 <= j < i ==> (#[trigger] self.entries()[j]).name != name@,
            decreases self.amounts@.len() - i,
        {
            if self.amounts[i].commodity.name == *name {
                proof {
                    assert(self.entries()[i as int] == self.amounts@[i as int]@);
                }
                return Some(i);
            }
            proof {
                assert(self.entries()[i as int] == self.amounts@[i as int]@);
            }
            i += 1;
        }
        None
    }

    /// Add one amount into the balance; an exact-zero result prunes the
    /// commodity.
    pub fn add_amount(&mut self, amount: &Amount)
        requires
            old(self).wf(),
            fits_i128(lookup0(old(self).as_map(), amount@.name) + amount@.q),
        ensures
            final(self).wf(),
            final(self).as_map() == ab_add(old(self).as_map(), amount@.name, amount@.q),
    {
        proof {
            lemma_ab_map_index(self.entries());
        }
        match self.find_commodity(&amount.commodity.name) {
            Some(i) => {
                let ghost s0 = self.entries();
                let mut e = self.amounts.remove(i);
                let newq = e.quantity.add(&amount.quantity);
                proof {
                    assert(s0[i as int] == e@);
                }
                if newq.is_zero() {
                    proof {
                        lemma_ab_map_remove(s0, i as int);
                        assert(self.entries() =~= s0.remove(i as int));
                    }
                } else {
                    e.quantity = newq;
                    self.amounts.insert(i, e);
                    proof {
                        assert(self.entries() =~= s0.update(i as int, e@));
                        lemma_ab_map_update(s0, i as int, e@);
                    }
                }
            },
            None => {
                proof {
                    lemma_ab_map_absent(self.entries(), amount@.name);
                }
                if !amount.quantity.is_zero() {
                    let ghost s0 = self.entries();
                    self.amounts.push(amount.duplicate());
                    proof {
                        assert(self.entries() =~= s0.push(amount@));
                        assert(self.entries().drop_last() =~= s0);
                    }
                } else {
                    proof {
                        assert(ab_add(self.as_map(), amount@.name, amount@.q) =~= self.as_map());
                    }
                }
            },
        }
    }

    /// Subtract one amount: addition of its negation.
    pub fn sub_amount(&mut self, amount: &Amount)
        requires
            old(self).wf(),
            fits_i128(-amount@.q),
            fits_i128(lookup0(old(self).as_map(), amount@.name) - amount@.q),
        ensures
            final(self).wf(),
            final(self).as_map() == ab_add(old(self).as_map(), amount@.name, -amount@.q),
    {
        let negated = Amount {
            quantity: amount.quantity.neg(),
            commodity: amount.commodity.duplicate(),
        };
        self.add_amount(&negated);
    }

    /// Combine another balance into this one, commodity by commodity.
    pub fn add_account_balance(&mut self, other: &AccountBalance)
        requires
            old(self).wf(),
            other.wf(),
            ab_merge_fits(old(self).as_map(), other.as_map()),
        ensures
            final(self).wf(),
            final(self).as_map() == ab_merge(old(self).as_map(), other.as_map()),
    {
        let ghost a = self.as_map();
        let ghost os = other.entries();
        proof {
            lemma_ab_map_index(os);
            lemma_ab_map_nonzero(self.entries());
            assert(ab_map_of(os.take(0)) =~= Map::<Seq<char>, int>::empty());
            assert(self.as_map() =~= ab_merge(a, ab_map_of(os.take(0))));
        }
        let mut i: usize = 0;
        while i < other.amounts.len()
            invariant
                0 <= i <= other.amounts@.len(),
                os == other.entries(),
                os.len() == other.amounts@.len(),
                other.wf(),
                ab_merge_fits(a, other.as_map()),
                self.wf(),
                self.as_map() == ab_merge(a, ab_map_of(os.take(i as int))),
            decreases other.amounts@.len() - i,
        {
            let amt = &other.amounts[i];
            proof {
                assert(os[i as int] == amt@);
                lemma_ab_map_index(os);
                lemma_ab_map_absent(os.take(i as int), amt@.name);
                assert(lookup0(self.as_map(), amt@.name) == lookup0(a, amt@.name));
                assert(other.as_map().dom().contains(amt@.name) && other.as_map()[amt@.name]
                    == amt@.q);
            }
            self.add_amount(amt);
            proof {
                assert(os.take(i + 1).drop_last() =~= os.take(i as int));
                assert(os.take(i + 1).last() == os[i as int]);
                lemma_merge_step(a, ab_map_of(os.take(i as int)), amt@.name, amt@.q);
            }
            i += 1;
        }
        proof {
            assert(os.take(os.len() as int) =~= os);
        }
    }

    /// Subtract another balance: combination with its negation.
    pub fn sub_account_balance(&mut self, other: &AccountBalance)
        requires
            old(self).wf(),
            other.wf(),
            forall|i: int|
                0 <= i < other.entries().len() ==> fits_i128(-(#[trigger] other.entries()[i]).q),
            ab_merge_fits(old(self).as_map(), map_neg(other.as_map())),
        ensures
            final(self).wf(),
            final(self).as_map() == ab_merge(old(self).as_map(), map_neg(other.as_map())),
    {
        let ghost a = self.as_map();
        let ghost os = other.entries();
        proof {
            lemma_ab_map_index(os);
            lemma_ab_map_nonzero(self.entries());
            assert(ab_map_of(os.take(0)) =~= Map::<Seq<char>, int>::empty());
            assert(map_neg(ab_map_of(os.take(0))) =~= Map::<Seq<char>, int>::empty());
            assert(self.as_map() =~= ab_merge(a, map_neg(ab_map_of(os.take(0)))));
        }
        let mut i: usize = 0;
        while i < other.amounts.len()
            invariant
                0 <= i <= other.amounts@.len(),
                os == other.entries(),
                os.len() == other.amounts@.len(),
                other.wf(),
                forall|j: int| 0 <= j < os.len() ==> fits_i128(-(#[trigger] os[j]).q),
                ab_merge_fits(a, map_neg(other.as_map())),
                self.wf(),
                self.as_map() == ab_merge(a, map_neg(ab_map_of(os.take(i as int)))),
            decreases other.amounts@.len() - i,
        {
            let amt = &other.amounts[i];
            proof {
                assert(os[i as int] == amt@);
                lemma_ab_map_index(os);
                lemma_ab_map_absent(os.take(i as int), amt@.name);
                assert(!map_neg(ab_map_of(os.take(i as int))).dom().contains(amt@.name));
                assert(lookup0(self.as_map(), amt@.name) == lookup0(a, amt@.name));
                assert(map_neg(other.as_map()).dom().contains(amt@.name) && map_neg(
                    other.as_map(),
                )[amt@.name] == -amt@.q);
            }
            self.sub_amount(amt);
            proof {
                assert(os.take(i + 1).drop_last() =~= os.take(i as int));
                assert(os.take(i + 1).last() == os[i as int]);
                lemma_merge_step(a, map_neg(ab_map_of(os.take(i as int))), amt@.name, -amt@.q);
                assert(map_neg(ab_map_of(os.take(i + 1))) =~= map_neg(
                    ab_map_of(os.take(i as int)),
                ).insert(amt@.name, -amt@.q));
            }
            i += 1;
        }
        proof {
            assert(os.take(os.len() as int) =~= os);
        }
    }

    /// A copy equal to the original.
    pub fn duplicate(&self) -> (r: AccountBalance)
        ensures
            r.entries() == self.entries(),
            r.as_map() == self.as_map(),
    {
        let mut amounts: Vec<Amount> = Vec::new();
        let mut i: usize = 0;
        while i < self.amounts.len()
            invariant
                0 <= i <= self.amounts@.len(),
                amounts@.len() == i,
                forall|j: int| 0 <= j < i ==> (#[trigger] amounts@[j])@ == self.amounts@[j]@,
            decreases self.amounts@.len() - i,
        {
            amounts.push(self.amounts[i].duplicate());
            i += 1;
        }
        let r = AccountBalance { amounts };
        proof {
            assert(r.entries() =~= self.entries());
        }
        r
    }

    /// Are all held quantities exactly zero? For a well-formed balance this
    /// means nothing is held at all.
    pub fn is_zero(&self) -> (r: bool)
        ensures
            r == (forall|i: int| 0 <= i < self.entries().len() ==> (#[trigger] self.entries()[i]).q
                == 0),
    {
        let mut i: usize = 0;
        while i < self.amounts.len()
            invariant
                0 <= i <= self.amounts@.len(),
                self.entries().len() == self.amounts@.len(),
                forall|j: int| 0 <= j < i ==> (#[trigger] self.entries()[j]).q == 0,
            decreases self.amounts@.len() - i,
        {
            proof {
                assert(self.entries()[i as int] == self.amounts@[i as int]@);
            }
            if !self.amounts[i].quantity.is_zero() {
                return false;
            }
            i += 1;
        }
        true
    }
}

/// The value of an entry sequence in one commodity: quantities of the
/// target pass through, every other commodity is converted at the date's
/// rate, and the first conversion failure is the result.
pub open spec fn vic_spec(
    entries: Seq<AmountV>,
    target: Seq<char>,
    date: Date,
    tables: Seq<(PairV, Seq<(Date, int)>)>,
) -> Result<int, PricesErrorV>
    decreases entries.len(),
{
    if entries.len() == 0 {
        Ok(0)
    } else {
        match vic_spec(entries.drop_last(), target, date, tables) {
            Err(e) => Err(e),
            Ok(acc) => {
                let a = entries.last();
                if a.name == target {
                    Ok(acc + a.q)
                } else {
                    match convert_result(tables, a.q, a.name, target, date) {
                        Err(e) => Err(e),
                        Ok(v) => Ok(acc + v),
                    }
                }
            },
        }
    }
}

/// Every partial sum and conversion product of the valuation stays in
/// machine range.
pub open spec fn vic_fits(
    entries: Seq<AmountV>,
    target: Seq<char>,
    date: Date,
    tables: Seq<(PairV, Seq<(Date, int)>)>,
) -> bool
    decreases entries.len(),
{
    if entries.len() == 0 {
        true
    } else {
        vic_fits(entries.drop_last(), target, date, tables) && match vic_spec(
            entries.drop_last(),
            target,
            date,
            tables,
        ) {
            Err(_) => true,
            Ok(acc) => {
                let a = entries.last();
                if a.name == target {
                    fits_i128(acc + a.q)
                } else {
                    convert_fits(tables, a.q, a.name, target, date) && match convert_result(
                        tables,
                        a.q,
                        a.name,
                        target,
                        date,
                    ) {
                        Err(_) => true,
                        Ok(v) => fits_i128(acc + v),
                    }
                }
            },
        }
    }
}

/// Fitting holds of every prefix.
proof fn lemma_vic_fits_take(
    entries: Seq<AmountV>,
    target: Seq<char>,
    date: Date,
    tables: Seq<(PairV, Seq<(Date, int)>)>,
    j: int,
)
    requires
        vic_fits(entries, target, date, tables),
        0 <= j <= entries.len(),
    ensures
        vic_fits(entries.take(j), target, date, tables),
    decreases entries.len() - j,
{
    if j == entries.len() {
        assert(entries.take(j) =~= entries);
    } else {
        lemma_vic_fits_take(entries, target, date, tables, j + 1);
        assert(entries.take(j + 1).drop_last() =~= entries.take(j));
    }
}

/// A failed prefix decides the whole valuation.
proof fn lemma_vic_err_persists(
    entries: Seq<AmountV>,
    target: Seq<char>,
    date: Date,
    tables: Seq<(PairV, Seq<(Date, int)>)>,
    j: int,
)
    requires
        0 <= j <= entries.len(),
        vic_spec(entries.take(j), target, date, tables) is Err,
    ensures
        vic_spec(entries, target, date, tables) == vic_spec(entries.take(j), target, date, tables),
    decreases entries.len() - j,
{
    if j == entries.len() {
        assert(entries.take(j) =~= entries);
    } else {
        assert(entries.take(j + 1).drop_last() =~= entries.take(j));
        lemma_vic_err_persists(entries, target, date, tables, j + 1);
    }
}

impl AccountBalance {
    /// The whole balance valued in one commodity at a date, through the
    /// rate store; the first conversion failure propagates.
    pub fn value_in_commodity(&self, commodity_name: &str, date: Date, prices: &Prices) -> (r:
        Result<Decimal, PricesError>)
        requires
            prices.wf(),
            date.wf(),
            vic_fits(self.entries(), commodity_name@, date, prices.tables()),
        ensures
            rate_result_matches(
                r,
                vic_spec(self.entries(), commodity_name@, date, prices.tables()),
            ),
    {
        let ghost s = self.entries();
        let ghost target = commodity_name@;
        let ghost tables = prices.tables();
        let target_string = commodity_name.to_owned();
        let mut result = Decimal::zero();
        proof {
            assert(s.take(0) =~= Seq::<AmountV>::empty());
        }
        let mut i: usize = 0;
        while i < self.amounts.len()
            invariant
                0 <= i <= self.amounts@.len(),
                s == self.entries(),
                s.len() == self.amounts@.len(),
                target == target_string@,
                target == commodity_name@,
                tables == prices.tables(),
                prices.wf(),
                date.wf(),
                vic_fits(s, target, date, tables),
                vic_spec(s.take(i as int), target, date, tables) == Ok::<int, PricesErrorV>(
                    result@,
                ),
            decreases self.amounts@.len() - i,
        {
            let a = &self.amounts[i];
            proof {
                assert(s[i as int] == a@);
                lemma_vic_fits_take(s, target, date, tables, i + 1);
                assert(s.take(i + 1).drop_last() =~= s.take(i as int));
                assert(s.take(i + 1).last() == s[i as int]);
            }
            if a.commodity.name == target_string {
                result = result.add(&a.quantity);
            } else {
                match prices.convert(a.quantity, a.commodity.name.as_str(), commodity_name, date) {
                    Ok(v) => {
                        result = result.add(&v);
                    },
                    Err(e) => {
                        proof {
                            lemma_vic_err_persists(s, target, date, tables, i + 1);
                        }
                        return Err(e);
                    },
                }
            }
            i += 1;
        }
        proof {
            assert(s.take(s.len() as int) =~= s);
        }
        Ok(result)
    }

    /// The valuation rounded to the given precision, half away from zero.
    /// Callers owe a balance whose valuation succeeds.
    pub fn value_in_commodity_rounded(&self, commodity_name: &str, decimal_points: u32, date: Date,
        prices: &Prices) -> (r: Decimal)
        requires
            prices.wf(),
            date.wf(),
            vic_fits(self.entries(), commodity_name@, date, prices.tables()),
            vic_spec(self.entries(), commodity_name@, date, prices.tables()) is Ok,
            fits_i128(
                vic_spec(self.entries(), commodity_name@, date, prices.tables())->Ok_0 + UNIT,
            ),
            fits_i128(
                -vic_spec(self.entries(), commodity_name@, date, prices.tables())->Ok_0 + UNIT,
            ),
        ensures
            r@ == round_dp_spec(
                vic_spec(self.entries(), commodity_name@, date, prices.tables())->Ok_0,
                decimal_points,
            ),
    {
        match self.value_in_commodity(commodity_name, date, prices) {
            Ok(value) => value.round_dp(decimal_points),
            Err(_) => vstd::pervasive::unreached(),
        }
    }
}

/// Merging the empty map changes nothing, for maps free of zero values.
pub proof fn lemma_ab_merge_empty(x: Map<Seq<char>, int>)
    requires
        forall|k: Seq<char>| #[trigger] x.dom().contains(k) ==> x[k] != 0,
    ensures
        ab_merge(x, Map::empty()) == x,
        ab_merge(Map::empty(), x) == x,
{
    assert(ab_merge(x, Map::empty()) =~= x);
    assert(ab_merge(Map::empty(), x) =~= x);
}

impl AccountBalance {
    /// The balance with every quantity negated.
    pub fn negated(&self) -> (r: AccountBalance)
        requires
            self.wf(),
            forall|i: int|
                0 <= i < self.entries().len() ==> fits_i128(-(#[trigger] self.entries()[i]).q),
        ensures
            r.wf(),
            r.as_map() == map_neg(self.as_map()),
            r.entries().len() == self.entries().len(),
    {
        let ghost s = self.entries();
        let mut amounts: Vec<Amount> = Vec::new();
        let mut i: usize = 0;
        while i < self.amounts.len()
            invariant
                0 <= i <= self.amounts@.len(),
                s == self.entries(),
                s.len() == self.amounts@.len(),
                forall|j: int| 0 <= j < s.len() ==> fits_i128(-(#[trigger] s[j]).q),
                amounts@.len() == i,
                forall|j: int|
                    0 <= j < i ==> (#[trigger] amounts@[j])@ == (AmountV {
                        name: s[j].name,
                        q: -s[j].q,
                        pos: s[j].pos,
                    }),
            decreases self.amounts@.len() - i,
        {
            let a = &self.amounts[i];
            proof {
                assert(s[i as int] == a@);
            }
            amounts.push(
                Amount { quantity: a.quantity.neg(), commodity: a.commodity.duplicate() },
            );
            i += 1;
        }
        let r = AccountBalance { amounts };
        proof {
            lemma_ab_map_neg_of(s, r.entries());
        }
        r
    }
}

/// An entry-wise negated sequence maps to the negated map.
proof fn lemma_ab_map_neg_of(s: Seq<AmountV>, s2: Seq<AmountV>)
    requires
        s2.len() == s.len(),
        forall|j: int|
            0 <= j < s.len() ==> (#[trigger] s2[j]) == (AmountV {
                name: s[j].name,
                q: -s[j].q,
                pos: s[j].pos,
            }),
    ensures
        ab_map_of(s2) == map_neg(ab_map_of(s)),
    decreases s.len(),
{
    if s.len() == 0 {
        assert(ab_map_of(s2) =~= map_neg(ab_map_of(s)));
    } else {
        lemma_ab_map_neg_of(s.drop_last(), s2.drop_last());
        assert(s2.drop_last().len() == s.drop_last().len());
        assert(s2.last() == (AmountV {
            name: s.last().name,
            q: -s.last().q,
            pos: s.last().pos,
        }));
        assert(ab_map_of(s2) =~= map_neg(ab_map_of(s)));
    }
}

/// Adding one fresh commodity of a batch keeps the merge shape.
proof fn lemma_merge_step(a: Map<Seq<char>, int>, pm: Map<Seq<char>, int>, name: Seq<char>, q: int)
    requires
        !pm.dom().contains(name),
    ensures
        ab_add(ab_merge(a, pm), name, q) == ab_merge(a, pm.insert(name, q)),
{
    let lhs = ab_add(ab_merge(a, pm), name, q);
    let rhs = ab_merge(a, pm.insert(name, q));
    assert(lookup0(ab_merge(a, pm), name) == lookup0(a, name)) by {
        assert(lookup0(pm, name) == 0);
    }
    assert(lhs =~= rhs);
}

} // verus!
