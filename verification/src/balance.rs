//! Balance of one or more accounts: a mapping from account path to that
//! account's multi-commodity balance.
//!
//! The invariant is cascading exact-zero pruning: no account's balance ever
//! holds a zero quantity, and no account with an empty balance is kept.

use vstd::prelude::*;

use crate::account_balance::AccountBalance;
use crate::account_balance::ab_add;
use crate::account_balance::ab_merge;
use crate::account_balance::ab_merge_fits;
use crate::account_balance::lemma_ab_map_index;
use crate::account_balance::lemma_ab_map_nonzero;
use crate::account_balance::lookup0;
use crate::account_balance::map_neg;
use crate::decimal::fits_i128;
use crate::ledger::Amount;
use crate::ledger::Ledger;
use crate::ledger::Transaction;
use crate::ledger::TransactionV;
use crate::strutil::starts_with;
use crate::strutil::starts_with_exec;

verus! {

/// Balance of one or more accounts.
#[derive(Debug)]
pub struct Balance {
    pub account_balances: Vec<(String, AccountBalance)>,
}

/// An account's commodity map, or the empty map where the account is not
/// tracked.
pub open spec fn blookup0(m: Map<Seq<char>, Map<Seq<char>, int>>, k: Seq<char>) -> Map<
    Seq<char>,
    int,
> {
    if m.dom().contains(k) {
        m[k]
    } else {
        Map::empty()
    }
}

/// The account map of an entry sequence.
pub open spec fn bal_map_of(s: Seq<(Seq<char>, Map<Seq<char>, int>)>) -> Map<
    Seq<char>,
    Map<Seq<char>, int>,
>
    decreases s.len(),
{
    if s.len() == 0 {
        Map::empty()
    } else {
        bal_map_of(s.drop_last()).insert(s.last().0, s.last().1)
    }
}

/// One amount added into a balance, both pruning levels cascading: a
/// zeroed commodity leaves its account, an emptied account leaves the
/// balance.
pub open spec fn bal_add_amount(
    b: Map<Seq<char>, Map<Seq<char>, int>>,
    account: Seq<char>,
    name: Seq<char>,
    q: int,
) -> Map<Seq<char>, Map<Seq<char>, int>> {
    let ab2 = ab_add(blookup0(b, account), name, q);
    if ab2 == Map::<Seq<char>, int>::empty() {
        b.remove(account)
    } else {
        b.insert(account, ab2)
    }
}

/// Two balances combined: per-account merge, empty results pruned.
pub open spec fn bal_merge(
    a: Map<Seq<char>, Map<Seq<char>, int>>,
    b: Map<Seq<char>, Map<Seq<char>, int>>,
) -> Map<Seq<char>, Map<Seq<char>, int>> {
    Map::new(
        |k: Seq<char>|
            (a.dom().contains(k) || b.dom().contains(k)) && ab_merge(
                blookup0(a, k),
                blookup0(b, k),
            ) != Map::<Seq<char>, int>::empty(),
        |k: Seq<char>| ab_merge(blookup0(a, k), blookup0(b, k)),
    )
}

/// A balance with every quantity negated.
pub open spec fn bal_map_neg(m: Map<Seq<char>, Map<Seq<char>, int>>) -> Map<
    Seq<char>,
    Map<Seq<char>, int>,
> {
    Map::new(|k: Seq<char>| m.dom().contains(k), |k: Seq<char>| map_neg(m[k]))
}

/// Every per-commodity sum of two balances stays in machine range.
pub open spec fn bal_merge_fits(
    a: Map<Seq<char>, Map<Seq<char>, int>>,
    b: Map<Seq<char>, Map<Seq<char>, int>>,
) -> bool {
    forall|k: Seq<char>|
        #[trigger] b.dom().contains(k) ==> ab_merge_fits(blookup0(a, k), b[k])
}

/// One account merged into a balance map.
pub open spec fn bal_add_account(
    b: Map<Seq<char>, Map<Seq<char>, int>>,
    account: Seq<char>,
    abm: Map<Seq<char>, int>,
) -> Map<Seq<char>, Map<Seq<char>, int>> {
    let merged = ab_merge(blookup0(b, account), abm);
    if merged == Map::<Seq<char>, int>::empty() {
        b.remove(account)
    } else {
        b.insert(account, merged)
    }
}

impl Balance {
    /// The tracked accounts as mathematical values, in storage order.
    pub open spec fn accounts(self) -> Seq<(Seq<char>, Map<Seq<char>, int>)> {
        self.account_balances@.map_values(
            |e: (String, AccountBalance)| (e.0@, e.1.as_map()),
        )
    }

    /// The account map the balance denotes.
    pub open spec fn as_map(self) -> Map<Seq<char>, Map<Seq<char>, int>> {
        bal_map_of(self.accounts())
    }

    /// Well-formed: no account twice, every account balance well-formed and
    /// nonempty.
    pub open spec fn wf(self) -> bool {
        &&& forall|i: int, j: int|
            0 <= i < j < self.accounts().len() ==> (#[trigger] self.accounts()[i]).0 != (
            #[trigger] self.accounts()[j]).0
        &&& forall|i: int|
            0 <= i < self.account_balances@.len() ==> (#[trigger] self.account_balances@[i]).1.wf()
        &&& forall|i: int|
            0 <= i < self.account_balances@.len()
                ==> (#[trigger] self.account_balances@[i]).1.entries().len() > 0
    }
}

// --- account-list-to-map lemmas ------------------------------------------

/// In a well-formed account sequence every entry is its account's map
/// value, and every mapped account has an entry.
pub proof fn lemma_bal_map_index(s: Seq<(Seq<char>, Map<Seq<char>, int>)>)
    requires
        forall|i: int, j: int|
            0 <= i < j < s.len() ==> (#[trigger] s[i]).0 != (#[trigger] s[j]).0,
    ensures
        forall|i: int|
            0 <= i < s.len() ==> bal_map_of(s).dom().contains((#[trigger] s[i]).0) && bal_map_of(
                s,
            )[s[i].0] == s[i].1,
        forall|k: Seq<char>|
            #[trigger] bal_map_of(s).dom().contains(k) ==> exists|i: int|
                0 <= i < s.len() && (#[trigger] s[i]).0 == k,
    decreases s.len(),
{
    if s.len() > 0 {
        lemma_bal_map_index(s.drop_last());
        assert forall|i: int|
            0 <= i < s.len() implies bal_map_of(s).dom().contains((#[trigger] s[i]).0)
            && bal_map_of(s)[s[i].0] == s[i].1 by {
            if i < s.len() - 1 {
                assert(s.drop_last()[i] == s[i]);
                assert(s[i].0 != s[s.len() - 1].0);
            }
        }
        assert forall|k: Seq<char>| #[trigger]
            bal_map_of(s).dom().contains(k) implies exists|i: int|
            0 <= i < s.len() && (#[trigger] s[i]).0 == k by {
            if k == s.last().0 {
                assert(s[s.len() - 1].0 == k);
            } else {
                assert(bal_map_of(s.drop_last()).dom().contains(k));
                let i = choose|i: int|
                    0 <= i < s.drop_last().len() && (#[trigger] s.drop_last()[i]).0 == k;
                assert(s[i].0 == k);
            }
        }
    }
}

/// An account named by no entry is absent from the map.
pub proof fn lemma_bal_map_absent(s: Seq<(Seq<char>, Map<Seq<char>, int>)>, k: Seq<char>)
    requires
        forall|i: int| 0 <= i < s.len() ==> (#[trigger] s[i]).0 != k,
    ensures
        !bal_map_of(s).dom().contains(k),
    decreases s.len(),
{
    if s.len() > 0 {
        lemma_bal_map_absent(s.drop_last(), k);
    }
}

/// Replacing an entry's balance updates its account alone.
pub proof fn lemma_bal_map_update(
    s: Seq<(Seq<char>, Map<Seq<char>, int>)>,
    i: int,
    x: (Seq<char>, Map<Seq<char>, int>),
)
    requires
        0 <= i < s.len(),
        x.0 == s[i].0,
        forall|a: int, b: int|
            0 <= a < b < s.len() ==> (#[trigger] s[a]).0 != (#[trigger] s[b]).0,
    ensures
        bal_map_of(s.update(i, x)) == bal_map_of(s).insert(x.0, x.1),
    decreases s.len(),
{
    if i == s.len() - 1 {
        assert(s.update(i, x).drop_last() =~= s.drop_last());
        assert(bal_map_of(s.update(i, x)) =~= bal_map_of(s).insert(x.0, x.1));
    } else {
        assert(s.update(i, x).drop_last() =~= s.drop_last().update(i, x));
        lemma_bal_map_update(s.drop_last(), i, x);
        assert(s.update(i, x).last() == s.last());
        assert(x.0 != s.last().0);
        assert(bal_map_of(s.update(i, x)) =~= bal_map_of(s).insert(x.0, x.1));
    }
}

/// Removing an entry removes its account alone.
pub proof fn lemma_bal_map_remove(s: Seq<(Seq<char>, Map<Seq<char>, int>)>, i: int)
    requires
        0 <= i < s.len(),
        forall|a: int, b: int|
            0 <= a < b < s.len() ==> (#[trigger] s[a]).0 != (#[trigger] s[b]).0,
    ensures
        bal_map_of(s.remove(i)) == bal_map_of(s).remove(s[i].0),
    decreases s.len(),
{
    if i == s.len() - 1 {
        assert(s.remove(i) =~= s.drop_last());
        assert(forall|j: int|
            0 <= j < s.drop_last().len() ==> (#[trigger] s.drop_last()[j]).0 != s[i].0);
        lemma_bal_map_absent(s.drop_last(), s[i].0);
        assert(bal_map_of(s.remove(i)) =~= bal_map_of(s).remove(s[i].0));
    } else {
        assert(s.remove(i).drop_last() =~= s.drop_last().remove(i));
        lemma_bal_map_remove(s.drop_last(), i);
        assert(s.remove(i).last() == s.last());
        assert(s[i].0 != s.last().0);
        assert(s.drop_last()[i] == s[i]);
        assert(bal_map_of(s.remove(i)) =~= bal_map_of(s).remove(s[i].0));
    }
}

impl Default for Balance {
    /// The empty balance.
    fn default() -> (r: Balance)
        ensures
            r.as_map() == Map::<Seq<char>, Map<Seq<char>, int>>::empty(),
            r.wf(),
            r.accounts().len() == 0,
    {
        Balance::new()
    }
}

impl Balance {
    /// The empty balance.
    pub fn new() -> (r: Balance)
        ensures
            r.as_map() == Map::<Seq<char>, Map<Seq<char>, int>>::empty(),
            r.wf(),
            r.accounts().len() == 0,
    {
        let r = Balance { account_balances: Vec::new() };
        proof {
            assert(r.accounts() =~= Seq::<(Seq<char>, Map<Seq<char>, int>)>::empty());
        }
        r
    }

    /// A copy equal to the original.
    pub fn duplicate(&self) -> (r: Balance)
        ensures
            r.accounts() == self.accounts(),
            r.as_map() == self.as_map(),
            self.wf() ==> r.wf(),
    {
        let mut account_balances: Vec<(String, AccountBalance)> = Vec::new();
        let mut i: usize = 0;
        while i < self.account_balances.len()
            invariant
                0 <= i <= self.account_balances@.len(),
                account_balances@.len() == i,
                forall|j: int|
                    0 <= j < i ==> (#[trigger] account_balances@[j]).0@
                        == self.account_balances@[j].0@ && account_balances@[j].1.entries()
                        == self.account_balances@[j].1.entries(),
            decreases self.account_balances@.len() - i,
        {
            let entry = &self.account_balances[i];
            account_balances.push((entry.0.clone(), entry.1.duplicate()));
            i += 1;
        }
        let r = Balance { account_balances };
        proof {
            assert(r.accounts() =~= self.accounts());
            assert forall|j: int|
                0 <= j < self.account_balances@.len() implies (
            #[trigger] r.account_balances@[j]).1.wf() == self.account_balances@[j].1.wf() && (
            r.account_balances@[j]).1.entries().len()
                == self.account_balances@[j].1.entries().len() by {}
        }
        r
    }

    /// The index of the account's entry, if tracked.
    fn find_account(&self, name: &String) -> (r: Option<usize>)
        ensures
            match r {
                Some(i) => i < self.accounts().len() && self.accounts()[i as int].0 == name@
                    && forall|j: int| 0 <= j < i ==> (#[trigger] self.accounts()[j]).0 != name@,
                None => forall|j: int|
                    0 <= j < self.accounts().len() ==> (#[trigger] self.accounts()[j]).0 != name@,
            },
    {
        let mut i: usize = 0;
        while i < self.account_balances.len()
            invariant
                0 <= i <= self.account_balances@.len(),
                self.accounts().len() == self.account_balances@.len(),
                forall|j: int| 0 <= j < i ==> (#[trigger] self.accounts()[j]).0 != name@,
            decreases self.account_balances@.len() - i,
        {
            proof {
                assert(self.accounts()[i as int].0 == self.account_balances@[i as int].0@);
            }
            if self.account_balances[i].0 == *name {
                return Some(i);
            }
            i += 1;
        }
        None
    }

    /// Add one amount to one account, with both pruning levels cascading.
    pub fn add_amount(&mut self, account: &str, amount: &Amount)
        requires
            old(self).wf(),
            fits_i128(
                lookup0(blookup0(old(self).as_map(), account@), amount@.name) + amount@.q,
            ),
        ensures
            final(self).wf(),
            final(self).as_map() == bal_add_amount(
                old(self).as_map(),
                account@,
                amount@.name,
                amount@.q,
            ),
    {
        let account_string = account.to_owned();
        proof {
            lemma_bal_map_index(self.accounts());
        }
        match self.find_account(&account_string) {
            Some(i) => {
                let ghost s0 = self.accounts();
                let mut e = self.account_balances.remove(i);
                proof {
                    assert(s0[i as int] == (e.0@, e.1.as_map()));
                    assert(blookup0(bal_map_of(s0), account@) == e.1.as_map());
                }
                e.1.add_amount(amount);
                if e.1.amounts.len() == 0 {
                    proof {
                        assert(e.1.entries() =~= Seq::<crate::ledger::AmountV>::empty());
                        assert(e.1.as_map() =~= Map::<Seq<char>, int>::empty());
                        assert(self.accounts() =~= s0.remove(i as int));
                        lemma_bal_map_remove(s0, i as int);
                    }
                } else {
                    let ghost s1 = self.accounts();
                    self.account_balances.insert(i, e);
                    proof {
                        assert(e.1.entries().len() > 0);
                        assert(e.1.as_map().dom().contains(e.1.entries().last().name));
                        assert(e.1.as_map() != Map::<Seq<char>, int>::empty());
                        assert(s1 =~= s0.remove(i as int));
                        assert(self.accounts() =~= s0.update(i as int, (e.0@, e.1.as_map())));
                        lemma_bal_map_update(s0, i as int, (e.0@, e.1.as_map()));
                    }
                }
            },
            None => {
                proof {
                    lemma_bal_map_absent(self.accounts(), account@);
                    assert(blookup0(self.as_map(), account@) =~= Map::<Seq<char>, int>::empty());
                }
                let mut fresh = AccountBalance::new();
                fresh.add_amount(amount);
                if fresh.amounts.len() == 0 {
                    proof {
                        assert(fresh.entries() =~= Seq::<crate::ledger::AmountV>::empty());
                        assert(fresh.as_map() =~= Map::<Seq<char>, int>::empty());
                        assert(bal_add_amount(self.as_map(), account@, amount@.name, amount@.q)
                            =~= self.as_map());
                    }
                } else {
                    let ghost s0 = self.accounts();
                    self.account_balances.push((account_string, fresh));
                    proof {
                        assert(fresh.as_map().dom().contains(fresh.entries().last().name));
                        assert(fresh.as_map() != Map::<Seq<char>, int>::empty());
                        assert(self.accounts() =~= s0.push((account@, fresh.as_map())));
                        assert(self.accounts().drop_last() =~= s0);
                    }
                }
            },
        }
    }
}

// --- merge machinery ------------------------------------------------------

/// Inner maps all free of zero values and nonempty, as every well-formed
/// balance's are.
pub open spec fn bal_wf_map(m: Map<Seq<char>, Map<Seq<char>, int>>) -> bool {
    forall|k: Seq<char>|
        #[trigger] m.dom().contains(k) ==> m[k] != Map::<Seq<char>, int>::empty() && (forall|
            c: Seq<char>,
        |
            #[trigger] m[k].dom().contains(c) ==> m[k][c] != 0)
}

/// Every quantity's negation stays in machine range.
pub open spec fn bal_neg_fits(m: Map<Seq<char>, Map<Seq<char>, int>>) -> bool {
    forall|k: Seq<char>, c: Seq<char>|
        #[trigger] m.dom().contains(k) && #[trigger] m[k].dom().contains(c) ==> fits_i128(
            -m[k][c],
        )
}

/// A well-formed balance denotes a map with nonempty, zero-free accounts.
pub proof fn lemma_balance_wf_map(b: Balance)
    requires
        b.wf(),
    ensures
        bal_wf_map(b.as_map()),
{
    lemma_bal_map_index(b.accounts());
    assert forall|k: Seq<char>| #[trigger]
        b.as_map().dom().contains(k) implies b.as_map()[k] != Map::<Seq<char>, int>::empty() && (
    forall|c: Seq<char>|
        #[trigger] b.as_map()[k].dom().contains(c) ==> b.as_map()[k][c] != 0) by {
        let i = choose|i: int| 0 <= i < b.accounts().len() && (#[trigger] b.accounts()[i]).0 == k;
        let inner = b.account_balances@[i].1;
        assert(b.accounts()[i] == (b.account_balances@[i].0@, inner.as_map()));
        assert(b.as_map()[k] == inner.as_map());
        lemma_ab_map_nonzero(inner.entries());
        lemma_ab_map_index(inner.entries());
        assert(inner.entries().len() > 0);
        assert(inner.as_map().dom().contains(inner.entries()[0].name));
    }
}

/// At a key the batch has not touched, a merge looks up the left side.
proof fn lemma_bal_merge_lookup_fresh(
    a: Map<Seq<char>, Map<Seq<char>, int>>,
    pm: Map<Seq<char>, Map<Seq<char>, int>>,
    name: Seq<char>,
)
    requires
        bal_wf_map(a),
        !pm.dom().contains(name),
    ensures
        blookup0(bal_merge(a, pm), name) == blookup0(a, name),
{
    if a.dom().contains(name) {
        crate::account_balance::lemma_ab_merge_empty(a[name]);
        assert(ab_merge(blookup0(a, name), blookup0(pm, name)) == a[name]);
        assert(a[name] != Map::<Seq<char>, int>::empty());
    } else {
        assert(ab_merge(blookup0(a, name), blookup0(pm, name)) =~= Map::<Seq<char>, int>::empty());
    }
}

/// Merging one fresh account of a batch keeps the merge shape.
proof fn lemma_bal_merge_step(
    a: Map<Seq<char>, Map<Seq<char>, int>>,
    pm: Map<Seq<char>, Map<Seq<char>, int>>,
    name: Seq<char>,
    abm: Map<Seq<char>, int>,
)
    requires
        bal_wf_map(a),
        !pm.dom().contains(name),
    ensures
        bal_add_account(bal_merge(a, pm), name, abm) == bal_merge(a, pm.insert(name, abm)),
{
    lemma_bal_merge_lookup_fresh(a, pm, name);
    let lhs = bal_add_account(bal_merge(a, pm), name, abm);
    let rhs = bal_merge(a, pm.insert(name, abm));
    assert forall|k: Seq<char>| #[trigger]
        lhs.dom().contains(k) == rhs.dom().contains(k) && (lhs.dom().contains(k) ==> lhs[k]
        == rhs[k]) by {
        if k != name {
            assert(blookup0(pm.insert(name, abm), k) == blookup0(pm, k));
        }
    }
    assert(lhs =~~= rhs);
}

impl Balance {
    /// Merge one account's balance in, with cascading pruning.
    fn merge_account(&mut self, account: &String, ab: &AccountBalance)
        requires
            old(self).wf(),
            ab.wf(),
            ab_merge_fits(blookup0(old(self).as_map(), account@), ab.as_map()),
        ensures
            final(self).wf(),
            final(self).as_map() == bal_add_account(old(self).as_map(), account@, ab.as_map()),
    {
        proof {
            lemma_bal_map_index(self.accounts());
        }
        match self.find_account(account) {
            Some(i) => {
                let ghost s0 = self.accounts();
                let mut e = self.account_balances.remove(i);
                proof {
                    assert(s0[i as int] == (e.0@, e.1.as_map()));
                    assert(blookup0(bal_map_of(s0), account@) == e.1.as_map());
                }
                e.1.add_account_balance(ab);
                if e.1.amounts.len() == 0 {
                    proof {
                        assert(e.1.entries() =~= Seq::<crate::ledger::AmountV>::empty());
                        assert(e.1.as_map() =~= Map::<Seq<char>, int>::empty());
                        assert(self.accounts() =~= s0.remove(i as int));
                        lemma_bal_map_remove(s0, i as int);
                    }
                } else {
                    self.account_balances.insert(i, e);
                    proof {
                        assert(e.1.entries().len() > 0);
                        assert(e.1.as_map().dom().contains(e.1.entries().last().name));
                        assert(e.1.as_map() != Map::<Seq<char>, int>::empty());
                        assert(self.accounts() =~= s0.update(i as int, (e.0@, e.1.as_map())));
                        lemma_bal_map_update(s0, i as int, (e.0@, e.1.as_map()));
                    }
                }
            },
            None => {
                proof {
                    lemma_bal_map_absent(self.accounts(), account@);
                    assert(blookup0(self.as_map(), account@) =~= Map::<Seq<char>, int>::empty());
                    crate::account_balance::lemma_ab_map_nonzero(ab.entries());
                    crate::account_balance::lemma_ab_merge_empty(ab.as_map());
                }
                if ab.amounts.len() == 0 {
                    proof {
                        assert(ab.entries() =~= Seq::<crate::ledger::AmountV>::empty());
                        assert(ab.as_map() =~= Map::<Seq<char>, int>::empty());
                        assert(bal_add_account(self.as_map(), account@, ab.as_map())
                            =~~= self.as_map());
                    }
                } else {
                    let ghost s0 = self.accounts();
                    let dup = ab.duplicate();
                    self.account_balances.push((account.clone(), dup));
                    proof {
                        crate::account_balance::lemma_ab_map_index(ab.entries());
                        assert(ab.as_map().dom().contains(ab.entries().last().name));
                        assert(ab.as_map() != Map::<Seq<char>, int>::empty());
                        assert(self.accounts() =~= s0.push((account@, ab.as_map())));
                        assert(self.accounts().drop_last() =~= s0);
                    }
                }
            },
        }
    }

    /// Combine another balance into this one, account by account, both
    /// pruning levels cascading.
    pub fn add_balance(&mut self, other: &Balance)
        requires
            old(self).wf(),
            other.wf(),
            bal_merge_fits(old(self).as_map(), other.as_map()),
        ensures
            final(self).wf(),
            final(self).as_map() == bal_merge(old(self).as_map(), other.as_map()),
    {
        let ghost a = self.as_map();
        let ghost os = other.accounts();
        proof {
            lemma_bal_map_index(os);
            lemma_balance_wf_map(*self);
            assert(bal_map_of(os.take(0)) =~= Map::<Seq<char>, Map<Seq<char>, int>>::empty());
            assert forall|k: Seq<char>| #[trigger]
                bal_merge(a, bal_map_of(os.take(0))).dom().contains(k) == a.dom().contains(k) && (
            a.dom().contains(k) ==> bal_merge(a, bal_map_of(os.take(0)))[k] == a[k]) by {
                if a.dom().contains(k) {
                    crate::account_balance::lemma_ab_merge_empty(a[k]);
                } else {
                    assert(ab_merge(
                        Map::<Seq<char>, int>::empty(),
                        Map::<Seq<char>, int>::empty(),
                    ) =~= Map::<Seq<char>, int>::empty());
                }
            }
            assert(self.as_map() =~~= bal_merge(a, bal_map_of(os.take(0))));
        }
        let mut i: usize = 0;
        while i < other.account_balances.len()
            invariant
                0 <= i <= other.account_balances@.len(),
                os == other.accounts(),
                os.len() == other.account_balances@.len(),
                other.wf(),
                bal_wf_map(a),
                bal_merge_fits(a, other.as_map()),
                self.wf(),
                self.as_map() == bal_merge(a, bal_map_of(os.take(i as int))),
            decreases other.account_balances@.len() - i,
        {
            let entry = &other.account_balances[i];
            proof {
                assert(os[i as int] == (entry.0@, entry.1.as_map()));
                lemma_bal_map_index(os);
                lemma_bal_map_absent(os.take(i as int), entry.0@);
                lemma_bal_merge_lookup_fresh(a, bal_map_of(os.take(i as int)), entry.0@);
                assert(other.as_map().dom().contains(entry.0@) && other.as_map()[entry.0@]
                    == entry.1.as_map());
            }
            self.merge_account(&entry.0, &entry.1);
            proof {
                assert(os.take(i + 1).drop_last() =~= os.take(i as int));
                assert(os.take(i + 1).last() == os[i as int]);
                lemma_bal_merge_step(a, bal_map_of(os.take(i as int)), entry.0@, entry.1.as_map());
            }
            i += 1;
        }
        proof {
            assert(os.take(os.len() as int) =~= os);
        }
    }

    /// The balance with every quantity negated.
    pub fn negated(&self) -> (r: Balance)
        requires
            self.wf(),
            bal_neg_fits(self.as_map()),
        ensures
            r.wf(),
            r.as_map() == bal_map_neg(self.as_map()),
    {
        let ghost s = self.accounts();
        proof {
            lemma_bal_map_index(s);
        }
        let mut account_balances: Vec<(String, AccountBalance)> = Vec::new();
        let mut i: usize = 0;
        while i < self.account_balances.len()
            invariant
                0 <= i <= self.account_balances@.len(),
                s == self.accounts(),
                s.len() == self.account_balances@.len(),
                self.wf(),
                bal_neg_fits(self.as_map()),
                forall|j: int|
                    0 <= j < s.len() ==> bal_map_of(s).dom().contains((#[trigger] s[j]).0)
                        && bal_map_of(s)[s[j].0] == s[j].1,
                account_balances@.len() == i,
                forall|j: int|
                    0 <= j < i ==> (#[trigger] account_balances@[j]).0@ == s[j].0 && (
                    account_balances@[j]).1.as_map() == map_neg(s[j].1) && (
                    account_balances@[j]).1.wf() && (account_balances@[j]).1.entries().len() > 0,
            decreases self.account_balances@.len() - i,
        {
            let entry = &self.account_balances[i];
            proof {
                assert(s[i as int] == (entry.0@, entry.1.as_map()));
                crate::account_balance::lemma_ab_map_index(entry.1.entries());
                assert forall|j: int|
                    0 <= j < entry.1.entries().len() implies fits_i128(
                    -(#[trigger] entry.1.entries()[j]).q,
                ) by {
                    let nm = entry.1.entries()[j].name;
                    assert(entry.1.as_map().dom().contains(nm));
                    assert(bal_map_of(s).dom().contains(s[i as int].0));
                }
            }
            let neg = entry.1.negated();
            proof {
                assert(entry.1.entries().len() > 0);
            }
            account_balances.push((entry.0.clone(), neg));
            i += 1;
        }
        let r = Balance { account_balances };
        proof {
            lemma_bal_map_neg_of(s, r.accounts());
        }
        r
    }

    /// Subtract another balance: combination with its negation.
    pub fn sub_balance(&mut self, other: &Balance)
        requires
            old(self).wf(),
            other.wf(),
            bal_neg_fits(other.as_map()),
            bal_merge_fits(old(self).as_map(), bal_map_neg(other.as_map())),
        ensures
            final(self).wf(),
            final(self).as_map() == bal_merge(old(self).as_map(), bal_map_neg(other.as_map())),
    {
        let negated = other.negated();
        self.add_balance(&negated);
    }
}

// --- transactions and ledgers ---------------------------------------------

/// A balance after the first `n` postings of a transaction.
pub open spec fn bal_txn(
    b: Map<Seq<char>, Map<Seq<char>, int>>,
    t: TransactionV,
    n: int,
) -> Map<Seq<char>, Map<Seq<char>, int>>
    decreases n,
{
    if n <= 0 {
        b
    } else {
        let p = t.postings[n - 1];
        bal_add_amount(bal_txn(b, t, n - 1), p.account, p.amount.name, p.amount.q)
    }
}

/// Every partial sum along a transaction's postings stays in machine range.
pub open spec fn bal_txn_fits(b: Map<Seq<char>, Map<Seq<char>, int>>, t: TransactionV) -> bool {
    forall|n: int|
        0 <= n < t.postings.len() ==> fits_i128(
            lookup0(
                blookup0(#[trigger] bal_txn(b, t, n), t.postings[n].account),
                t.postings[n].amount.name,
            ) + t.postings[n].amount.q,
        )
}

/// A balance after the first `n` transactions of a sequence.
pub open spec fn bal_after(
    b: Map<Seq<char>, Map<Seq<char>, int>>,
    ts: Seq<TransactionV>,
    n: int,
) -> Map<Seq<char>, Map<Seq<char>, int>>
    decreases n,
{
    if n <= 0 {
        b
    } else {
        bal_txn(bal_after(b, ts, n - 1), ts[n - 1], ts[n - 1].postings.len() as int)
    }
}

/// Every partial sum along a transaction sequence stays in machine range.
pub open spec fn bal_after_fits(
    b: Map<Seq<char>, Map<Seq<char>, int>>,
    ts: Seq<TransactionV>,
) -> bool {
    forall|n: int|
        0 <= n < ts.len() ==> bal_txn_fits(#[trigger] bal_after(b, ts, n), ts[n])
}

/// Does any prefix of the list match the account path, character for
/// character?
pub open spec fn any_prefix(prefixes: Seq<Seq<char>>, account: Seq<char>) -> bool {
    exists|i: int| 0 <= i < prefixes.len() && starts_with(account, #[trigger] prefixes[i])
}

/// The accumulated balance of every account matching some prefix, in
/// storage order.
pub open spec fn gab_spec(
    accounts: Seq<(Seq<char>, Map<Seq<char>, int>)>,
    prefixes: Seq<Seq<char>>,
) -> Map<Seq<char>, int>
    decreases accounts.len(),
{
    if accounts.len() == 0 {
        Map::empty()
    } else {
        let rest = gab_spec(accounts.drop_last(), prefixes);
        if any_prefix(prefixes, accounts.last().0) {
            ab_merge(rest, accounts.last().1)
        } else {
            rest
        }
    }
}

/// Every partial sum of the prefix accumulation stays in machine range.
pub open spec fn gab_fits(
    accounts: Seq<(Seq<char>, Map<Seq<char>, int>)>,
    prefixes: Seq<Seq<char>>,
) -> bool
    decreases accounts.len(),
{
    if accounts.len() == 0 {
        true
    } else {
        gab_fits(accounts.drop_last(), prefixes) && (any_prefix(prefixes, accounts.last().0)
            ==> ab_merge_fits(gab_spec(accounts.drop_last(), prefixes), accounts.last().1))
    }
}

/// Fitting holds of every prefix of the accumulation.
proof fn lemma_gab_fits_take(
    accounts: Seq<(Seq<char>, Map<Seq<char>, int>)>,
    prefixes: Seq<Seq<char>>,
    j: int,
)
    requires
        gab_fits(accounts, prefixes),
        0 <= j <= accounts.len(),
    ensures
        gab_fits(accounts.take(j), prefixes),
    decreases accounts.len() - j,
{
    if j == accounts.len() {
        assert(accounts.take(j) =~= accounts);
    } else {
        lemma_gab_fits_take(accounts, prefixes, j + 1);
        assert(accounts.take(j + 1).drop_last() =~= accounts.take(j));
    }
}

/// Does any of the prefixes start the account path?
pub fn matches_any(prefixes: &Vec<String>, account: &String) -> (r: bool)
    ensures
        r == any_prefix(prefixes@.map_values(|s: String| s@), account@),
{
    let ghost pv = prefixes@.map_values(|s: String| s@);
    let mut i: usize = 0;
    while i < prefixes.len()
        invariant
            0 <= i <= prefixes@.len(),
            pv == prefixes@.map_values(|s: String| s@),
            pv.len() == prefixes@.len(),
            forall|j: int| 0 <= j < i ==> !starts_with(account@, #[trigger] pv[j]),
        decreases prefixes@.len() - i,
    {
        proof {
            assert(pv[i as int] == prefixes@[i as int]@);
        }
        if starts_with_exec(account.as_str(), prefixes[i].as_str()) {
            return true;
        }
        i += 1;
    }
    false
}

impl Balance {
    /// Apply every posting of a transaction, in order, with cascading
    /// pruning.
    pub fn update_with_transaction(&mut self, transaction: &Transaction)
        requires
            old(self).wf(),
            bal_txn_fits(old(self).as_map(), transaction@),
        ensures
            final(self).wf(),
            final(self).as_map() == bal_txn(
                old(self).as_map(),
                transaction@,
                transaction@.postings.len() as int,
            ),
    {
        let ghost b0 = self.as_map();
        let ghost tv = transaction@;
        let mut i: usize = 0;
        while i < transaction.postings.len()
            invariant
                0 <= i <= transaction.postings@.len(),
                tv == transaction@,
                tv.postings.len() == transaction.postings@.len(),
                bal_txn_fits(b0, tv),
                self.wf(),
                self.as_map() == bal_txn(b0, tv, i as int),
            decreases transaction.postings@.len() - i,
        {
            let p = &transaction.postings[i];
            proof {
                assert(tv.postings[i as int] == p@);
            }
            self.add_amount(p.account.as_str(), &p.amount);
            i += 1;
        }
    }

    /// The balance of a whole transaction list, built transaction by
    /// transaction on an empty balance.
    pub fn from_ledger(ledger: &Ledger) -> (r: Balance)
        requires
            bal_after_fits(
                Map::<Seq<char>, Map<Seq<char>, int>>::empty(),
                ledger@.transactions,
            ),
        ensures
            r.wf(),
            r.as_map() == bal_after(
                Map::<Seq<char>, Map<Seq<char>, int>>::empty(),
                ledger@.transactions,
                ledger@.transactions.len() as int,
            ),
    {
        let ghost ts = ledger@.transactions;
        let mut balance = Balance::new();
        let mut i: usize = 0;
        while i < ledger.transactions.len()
            invariant
                0 <= i <= ledger.transactions@.len(),
                ts == ledger@.transactions,
                ts.len() == ledger.transactions@.len(),
                bal_after_fits(Map::<Seq<char>, Map<Seq<char>, int>>::empty(), ts),
                balance.wf(),
                balance.as_map() == bal_after(
                    Map::<Seq<char>, Map<Seq<char>, int>>::empty(),
                    ts,
                    i as int,
                ),
            decreases ledger.transactions@.len() - i,
        {
            let t = &ledger.transactions[i];
            proof {
                assert(ts[i as int] == t@);
            }
            balance.update_with_transaction(t);
            i += 1;
        }
        balance
    }

    /// The balance of a single transaction on an empty balance.
    pub fn from_transaction(transaction: &Transaction) -> (r: Balance)
        requires
            bal_txn_fits(Map::<Seq<char>, Map<Seq<char>, int>>::empty(), transaction@),
        ensures
            r.wf(),
            r.as_map() == bal_txn(
                Map::<Seq<char>, Map<Seq<char>, int>>::empty(),
                transaction@,
                transaction@.postings.len() as int,
            ),
    {
        let mut balance = Balance::new();
        balance.update_with_transaction(transaction);
        balance
    }

    /// One account balance accumulating every tracked account whose path
    /// starts with any supplied prefix; each matching account counts once.
    /// Matching is raw string prefix, not segment-aware.
    pub fn get_account_balance(&self, account_prefixes: &Vec<String>) -> (r: AccountBalance)
        requires
            self.wf(),
            gab_fits(self.accounts(), account_prefixes@.map_values(|s: String| s@)),
        ensures
            r.wf(),
            r.as_map() == gab_spec(self.accounts(), account_prefixes@.map_values(|s: String| s@)),
    {
        let ghost pv = account_prefixes@.map_values(|s: String| s@);
        let ghost s = self.accounts();
        let mut balance = AccountBalance::new();
        proof {
            assert(s.take(0) =~= Seq::<(Seq<char>, Map<Seq<char>, int>)>::empty());
        }
        let mut i: usize = 0;
        while i < self.account_balances.len()
            invariant
                0 <= i <= self.account_balances@.len(),
                pv == account_prefixes@.map_values(|s2: String| s2@),
                s == self.accounts(),
                s.len() == self.account_balances@.len(),
                self.wf(),
                gab_fits(s, pv),
                balance.wf(),
                balance.as_map() == gab_spec(s.take(i as int), pv),
            decreases self.account_balances@.len() - i,
        {
            let entry = &self.account_balances[i];
            proof {
                assert(s[i as int] == (entry.0@, entry.1.as_map()));
                lemma_gab_fits_take(s, pv, i + 1);
                assert(s.take(i + 1).drop_last() =~= s.take(i as int));
                assert(s.take(i + 1).last() == s[i as int]);
            }
            if matches_any(account_prefixes, &entry.0) {
                balance.add_account_balance(&entry.1);
            }
            i += 1;
        }
        proof {
            assert(s.take(s.len() as int) =~= s);
        }
        balance
    }
}

/// An entry-wise negated account sequence maps to the negated balance.
proof fn lemma_bal_map_neg_of(
    s: Seq<(Seq<char>, Map<Seq<char>, int>)>,
    s2: Seq<(Seq<char>, Map<Seq<char>, int>)>,
)
    requires
        s2.len() == s.len(),
        forall|j: int|
            0 <= j < s.len() ==> (#[trigger] s2[j]).0 == s[j].0 && s2[j].1 == map_neg(s[j].1),
    ensures
        bal_map_of(s2) == bal_map_neg(bal_map_of(s)),
    decreases s.len(),
{
    if s.len() == 0 {
        assert(bal_map_of(s2) =~~= bal_map_neg(bal_map_of(s)));
    } else {
        lemma_bal_map_neg_of(s.drop_last(), s2.drop_last());
        assert(s2.last().0 == s.last().0 && s2.last().1 == map_neg(s.last().1));
        assert(bal_map_of(s2) =~~= bal_map_neg(bal_map_of(s)));
    }
}

} // verus!
