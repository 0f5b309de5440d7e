//! The library's general laws, each proved once and for all: merge
//! commutativity and associativity, exact-zero pruning, the step-function
//! shape of rate lookup, the exchange pass's applicability bound, and tree
//! aggregation of a single account.

use vstd::prelude::*;

use crate::account_balance::ab_merge;
use crate::account_balance::lookup0;
use crate::balance::bal_merge;
use crate::balance::blookup0;
use crate::date::Date;
use crate::handle_foreign_currencies::AccountClassifier;
use crate::handle_foreign_currencies::exchange_pass_spec;
use crate::ledger::TransactionV;
use crate::prices::best_rate;
use crate::strutil::split_colon;
use crate::tree_balance::TreeV;
use crate::tree_balance::child_lookup;
use crate::tree_balance::empty_tree;
use crate::tree_balance::tree_add_at;
use crate::tree_balance::tree_of;

verus! {

/// A merged balance looks up to the sum of its operands' entries.
pub proof fn lemma_lookup0_merge(a: Map<Seq<char>, int>, b: Map<Seq<char>, int>, k: Seq<char>)
    ensures
        lookup0(ab_merge(a, b), k) == lookup0(a, k) + lookup0(b, k),
{
}

/// Combining account balances is commutative.
pub proof fn lemma_ab_merge_commutative(a: Map<Seq<char>, int>, b: Map<Seq<char>, int>)
    ensures
        ab_merge(a, b) == ab_merge(b, a),
{
    assert(ab_merge(a, b) =~= ab_merge(b, a));
}

/// Combining account balances is associative.
pub proof fn lemma_ab_merge_associative(
    a: Map<Seq<char>, int>,
    b: Map<Seq<char>, int>,
    c: Map<Seq<char>, int>,
)
    ensures
        ab_merge(ab_merge(a, b), c) == ab_merge(a, ab_merge(b, c)),
{
    assert forall|k: Seq<char>|
        #[trigger] ab_merge(ab_merge(a, b), c).dom().contains(k) == ab_merge(
            a,
            ab_merge(b, c),
        ).dom().contains(k) && (ab_merge(ab_merge(a, b), c).dom().contains(k) ==> ab_merge(
            ab_merge(a, b),
            c,
        )[k] == ab_merge(a, ab_merge(b, c))[k]) by {
        lemma_lookup0_merge(a, b, k);
        lemma_lookup0_merge(b, c, k);
    }
    assert(ab_merge(ab_merge(a, b), c) =~= ab_merge(a, ab_merge(b, c)));
}

/// A merged balance's account entry is the merge of its operands'.
pub proof fn lemma_blookup0_merge(
    a: Map<Seq<char>, Map<Seq<char>, int>>,
    b: Map<Seq<char>, Map<Seq<char>, int>>,
    k: Seq<char>,
)
    ensures
        blookup0(bal_merge(a, b), k) == ab_merge(blookup0(a, k), blookup0(b, k)),
{
    if !bal_merge(a, b).dom().contains(k) {
        if a.dom().contains(k) || b.dom().contains(k) {
            assert(ab_merge(blookup0(a, k), blookup0(b, k)) == Map::<Seq<char>, int>::empty());
        } else {
            assert(ab_merge(blookup0(a, k), blookup0(b, k)) =~= Map::<Seq<char>, int>::empty());
        }
        assert(blookup0(bal_merge(a, b), k) =~= Map::<Seq<char>, int>::empty());
    }
}

/// Combining whole balances is commutative.
pub proof fn lemma_bal_merge_commutative(
    a: Map<Seq<char>, Map<Seq<char>, int>>,
    b: Map<Seq<char>, Map<Seq<char>, int>>,
)
    ensures
        bal_merge(a, b) == bal_merge(b, a),
{
    assert forall|k: Seq<char>|
        #[trigger] bal_merge(a, b).dom().contains(k) == bal_merge(b, a).dom().contains(k) && (
        bal_merge(a, b).dom().contains(k) ==> bal_merge(a, b)[k] == bal_merge(b, a)[k]) by {
        lemma_ab_merge_commutative(blookup0(a, k), blookup0(b, k));
    }
    assert(bal_merge(a, b) =~~= bal_merge(b, a));
}

/// Combining whole balances is associative.
pub proof fn lemma_bal_merge_associative(
    a: Map<Seq<char>, Map<Seq<char>, int>>,
    b: Map<Seq<char>, Map<Seq<char>, int>>,
    c: Map<Seq<char>, Map<Seq<char>, int>>,
)
    ensures
        bal_merge(bal_merge(a, b), c) == bal_merge(a, bal_merge(b, c)),
{
    assert forall|k: Seq<char>|
        #[trigger] bal_merge(bal_merge(a, b), c).dom().contains(k) == bal_merge(
            a,
            bal_merge(b, c),
        ).dom().contains(k) && (bal_merge(bal_merge(a, b), c).dom().contains(k) ==> bal_merge(
            bal_merge(a, b),
            c,
        )[k] == bal_merge(a, bal_merge(b, c))[k]) by {
        let la = blookup0(a, k);
        let lb = blookup0(b, k);
        let lc = blookup0(c, k);
        lemma_blookup0_merge(a, b, k);
        lemma_blookup0_merge(b, c, k);
        lemma_ab_merge_associative(la, lb, lc);
        let x = ab_merge(la, ab_merge(lb, lc));
        assert(ab_merge(blookup0(bal_merge(a, b), k), lc) == x);
        assert(ab_merge(la, blookup0(bal_merge(b, c), k)) == x);
        if x != Map::<Seq<char>, int>::empty() {
            if !c.dom().contains(k) {
                if ab_merge(la, lb) == Map::<Seq<char>, int>::empty() {
                    assert(x =~= Map::<Seq<char>, int>::empty());
                }
            }
            if !a.dom().contains(k) {
                if ab_merge(lb, lc) == Map::<Seq<char>, int>::empty() {
                    assert(x =~= Map::<Seq<char>, int>::empty());
                }
            }
            if !a.dom().contains(k) && !b.dom().contains(k) && !c.dom().contains(k) {
                assert(x =~= Map::<Seq<char>, int>::empty());
            }
        }
    }
    assert(bal_merge(bal_merge(a, b), c) =~~= bal_merge(a, bal_merge(b, c)));
}

/// After any merge, no commodity with an exact-zero quantity remains.
pub proof fn lemma_ab_merge_prunes_zero(a: Map<Seq<char>, int>, b: Map<Seq<char>, int>)
    ensures
        forall|k: Seq<char>| #[trigger] ab_merge(a, b).dom().contains(k) ==> ab_merge(a, b)[k] != 0,
{
}

/// After any merge, no account with an empty balance remains.
pub proof fn lemma_bal_merge_prunes_empty(
    a: Map<Seq<char>, Map<Seq<char>, int>>,
    b: Map<Seq<char>, Map<Seq<char>, int>>,
)
    ensures
        forall|k: Seq<char>|
            #[trigger] bal_merge(a, b).dom().contains(k) ==> bal_merge(a, b)[k] != Map::<
                Seq<char>,
                int,
            >::empty(),
{
}

/// A store loaded from a point history answers every query from the
/// history alone: an unrecorded direction fails by name, and a recorded
/// one answers with the winning entry of its filtered point sequence.
pub proof fn lemma_loaded_rate_result(
    tables: Seq<(crate::prices::PairV, Seq<(Date, int)>)>,
    pts: Seq<crate::prices::RatePoint>,
    src: Seq<char>,
    dst: Seq<char>,
    date: Date,
)
    requires
        crate::prices::tables_match_points(tables, pts),
    ensures
        crate::prices::rate_result(tables, src, dst, date) == (if crate::prices::points_table(
            pts,
            src,
            dst,
        ).len() == 0 {
            Err::<int, crate::prices::PricesErrorV>(
                crate::prices::PricesErrorV::NoSuchCommoditiesPair(
                    crate::prices::PairV { src, dst },
                ),
            )
        } else {
            match best_rate(crate::prices::points_table(pts, src, dst), date) {
                None => Err(crate::prices::PricesErrorV::DateTooEarly(date)),
                Some(e) => Ok(e.1),
            }
        }),
{
    assert(crate::prices::pair_lookup(tables, src, dst) == (if crate::prices::points_table(
        pts,
        src,
        dst,
    ).len() > 0 {
        Some(crate::prices::points_table(pts, src, dst))
    } else {
        None::<Seq<(Date, int)>>
    }));
}

/// The rate lookup is the step function over a table: the winning entry is
/// dated at or before the query and no entry dated at or before the query
/// is later than it; with no entry at or before the query there is no
/// answer.
pub proof fn lemma_best_rate_step(t: Seq<(Date, int)>, d: Date)
    ensures
        best_rate(t, d) is None ==> forall|i: int|
            0 <= i < t.len() ==> (#[trigger] t[i]).0.key() > d.key(),
        best_rate(t, d) matches Some(e) ==> e.0.key() <= d.key() && (exists|i: int|
            0 <= i < t.len() && t[i] == e) && (forall|i: int|
            0 <= i < t.len() && (#[trigger] t[i]).0.key() <= d.key() ==> t[i].0.key()
                <= e.0.key()),
    decreases t.len(),
{
    if t.len() > 0 {
        lemma_best_rate_step(t.drop_last(), d);
        match best_rate(t, d) {
            None => {
                assert forall|i: int|
                    0 <= i < t.len() implies (#[trigger] t[i]).0.key() > d.key() by {
                    if i < t.len() - 1 {
                        assert(t.drop_last()[i] == t[i]);
                    }
                }
            },
            Some(e) => {
                if e == t.last() {
                    assert(t[t.len() - 1] == e);
                    assert forall|i: int|
                        0 <= i < t.len() && (#[trigger] t[i]).0.key() <= d.key() implies t[i].0.key()
                        <= e.0.key() by {
                        if i < t.len() - 1 {
                            assert(t.drop_last()[i] == t[i]);
                        }
                    }
                } else {
                    let j = choose|j: int|
                        0 <= j < t.drop_last().len() && t.drop_last()[j] == e;
                    assert(t[j] == e);
                    assert forall|i: int|
                        0 <= i < t.len() && (#[trigger] t[i]).0.key() <= d.key() implies t[i].0.key()
                        <= e.0.key() by {
                        if i < t.len() - 1 {
                            assert(t.drop_last()[i] == t[i]);
                        }
                    }
                }
            },
        }
    }
}

/// With two rates at D1 < D2, a query before D1 has no answer, one in
/// [D1, D2) takes the D1 rate, and one at or after D2 takes the D2 rate.
pub proof fn lemma_two_rate_step(d1: Date, r1: int, d2: Date, r2: int, q: Date)
    requires
        d1.key() < d2.key(),
    ensures
        q.key() < d1.key() ==> best_rate(seq![(d1, r1), (d2, r2)], q) is None,
        d1.key() <= q.key() < d2.key() ==> best_rate(seq![(d1, r1), (d2, r2)], q) == Some(
            (d1, r1),
        ),
        d2.key() <= q.key() ==> best_rate(seq![(d1, r1), (d2, r2)], q) == Some((d2, r2)),
{
    let t = seq![(d1, r1), (d2, r2)];
    let t1 = seq![(d1, r1)];
    assert(t.drop_last() =~= t1);
    assert(t1.drop_last() =~= Seq::<(Date, int)>::empty());
    assert(t1.last() == (d1, r1));
    assert(t.last() == (d2, r2));
    assert(best_rate(Seq::<(Date, int)>::empty(), q) is None);
    if q.key() < d1.key() {
        assert(best_rate(t1, q) is None);
        assert(best_rate(t, q) is None);
    } else if q.key() < d2.key() {
        assert(best_rate(t1, q) == Some((d1, r1)));
        assert(best_rate(t, q) == Some((d1, r1)));
    } else {
        assert(best_rate(t, q) == Some((d2, r2)));
    }
}

/// The exchange pass leaves any transaction without exactly two postings
/// untouched, whatever its accounts and commodities.
pub proof fn lemma_exchange_pass_skips_other_sizes<C: AccountClassifier>(c: &C, t: TransactionV)
    requires
        t.postings.len() != 2,
    ensures
        exchange_pass_spec(c, t) == t,
{
}

/// The node reached by descending the given segments, if the path exists.
pub open spec fn node_at(t: TreeV, segs: Seq<Seq<char>>) -> Option<TreeV>
    decreases segs.len(),
{
    if segs.len() == 0 {
        Some(t)
    } else {
        match child_lookup(t.children, segs[0]) {
            None => None,
            Some(child) => node_at(child, segs.skip(1)),
        }
    }
}

/// Descending any prefix of the inserted path finds a node whose balance
/// is the one accumulated along it.
proof fn lemma_tree_path(segs: Seq<Seq<char>>, abm: Map<Seq<char>, int>, j: int)
    requires
        0 <= j <= segs.len(),
    ensures
        node_at(tree_add_at(empty_tree(), segs, abm), segs.take(j)) matches Some(n)
            && n.bal == ab_merge(Map::empty(), abm),
    decreases j,
{
    let t = tree_add_at(empty_tree(), segs, abm);
    if j == 0 {
        assert(segs.take(0) =~= Seq::<Seq<char>>::empty());
    } else {
        let rec = tree_add_at(empty_tree(), segs.skip(1), abm);
        assert(t.children == crate::tree_balance::child_update(
            Seq::empty(),
            segs[0],
            rec,
        ));
        assert(t.children =~= seq![(segs[0], rec)]);
        assert(child_lookup(t.children, segs.take(j)[0]) == Some(rec));
        lemma_tree_path(segs.skip(1), abm, j - 1);
        assert(segs.take(j).skip(1) =~= segs.skip(1).take(j - 1));
    }
}

/// Tree aggregation of a single account: its full balance, free of zero
/// quantities, stands unchanged at the root and at every node along its
/// path down to the leaf.
pub proof fn lemma_tree_single_account(account: Seq<char>, abm: Map<Seq<char>, int>, j: int)
    requires
        forall|k: Seq<char>| #[trigger] abm.dom().contains(k) ==> abm[k] != 0,
        0 <= j <= split_colon(account).len(),
    ensures
        node_at(tree_of(seq![(account, abm)]), split_colon(account).take(j)) matches Some(n)
            && n.bal == abm,
{
    let accounts = seq![(account, abm)];
    assert(accounts.drop_last() =~= Seq::<(Seq<char>, Map<Seq<char>, int>)>::empty());
    assert(accounts.last() == (account, abm));
    assert(tree_of(accounts.drop_last()) == empty_tree());
    assert(tree_of(accounts) == tree_add_at(empty_tree(), split_colon(account), abm));
    lemma_tree_path(split_colon(account), abm, j);
    crate::account_balance::lemma_ab_merge_empty(abm);
}

} // verus!
