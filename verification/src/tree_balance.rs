//! Hierarchical balance tree: every account path is split on `':'`, and
//! the account's full balance is added at the root and at every node along
//! the path, so each node's balance is the sum of its entire subtree.

use vstd::prelude::*;

use crate::account_balance::AccountBalance;
use crate::account_balance::ab_merge;
use crate::account_balance::ab_merge_fits;
use crate::balance::Balance;
use crate::strutil::split_colon;
use crate::strutil::split_colon_exec;

verus! {

/// A node of the balance tree.
#[derive(Debug)]
pub struct TreeBalanceNode {
    pub balance: AccountBalance,
    pub children: Vec<(String, TreeBalanceNode)>,
}

/// The mathematical shape of a tree node.
#[verifier::ext_equal]
pub struct TreeV {
    pub bal: Map<Seq<char>, int>,
    pub children: Seq<(Seq<char>, TreeV)>,
}

impl TreeBalanceNode {
    /// Every balance in the tree is well-formed.
    pub open spec fn wf(self) -> bool
        decreases self,
    {
        self.balance.wf() && forall|i: int|
            0 <= i < self.children@.len() ==> (#[trigger] self.children@[i]).1.wf()
    }

    /// The node as a mathematical tree.
    pub open spec fn as_tree(self) -> TreeV
        decreases self,
    {
        TreeV {
            bal: self.balance.as_map(),
            children: Seq::new(
                self.children@.len(),
                |i: int|
                    (
                        self.children@[i].0@,
                        if 0 <= i < self.children@.len() {
                            self.children@[i].1.as_tree()
                        } else {
                            TreeV { bal: Map::empty(), children: Seq::empty() }
                        },
                    ),
            ),
        }
    }
}

/// The empty tree.
pub open spec fn empty_tree() -> TreeV {
    TreeV { bal: Map::empty(), children: Seq::empty() }
}

/// The first child under the name, if any.
pub open spec fn child_lookup(cs: Seq<(Seq<char>, TreeV)>, name: Seq<char>) -> Option<TreeV>
    decreases cs.len(),
{
    if cs.len() == 0 {
        None
    } else if cs[0].0 == name {
        Some(cs[0].1)
    } else {
        child_lookup(cs.skip(1), name)
    }
}

/// The child list with the first child of the name replaced, or the new
/// child appended where none exists.
pub open spec fn child_update(cs: Seq<(Seq<char>, TreeV)>, name: Seq<char>, v: TreeV) -> Seq<
    (Seq<char>, TreeV),
>
    decreases cs.len(),
{
    if cs.len() == 0 {
        seq![(name, v)]
    } else if cs[0].0 == name {
        seq![(name, v)] + cs.skip(1)
    } else {
        seq![cs[0]] + child_update(cs.skip(1), name, v)
    }
}

/// One account's balance accumulated at this node and at every node along
/// the remaining path segments.
pub open spec fn tree_add_at(t: TreeV, segs: Seq<Seq<char>>, ab: Map<Seq<char>, int>) -> TreeV
    decreases segs.len(),
{
    let merged = ab_merge(t.bal, ab);
    if segs.len() == 0 {
        TreeV { bal: merged, children: t.children }
    } else {
        let child = match child_lookup(t.children, segs[0]) {
            Some(c) => c,
            None => empty_tree(),
        };
        let child2 = tree_add_at(child, segs.skip(1), ab);
        TreeV { bal: merged, children: child_update(t.children, segs[0], child2) }
    }
}

/// Every merge the accumulation takes stays in machine range.
pub open spec fn tree_add_fits(t: TreeV, segs: Seq<Seq<char>>, ab: Map<Seq<char>, int>) -> bool
    decreases segs.len(),
{
    ab_merge_fits(t.bal, ab) && (segs.len() > 0 ==> tree_add_fits(
        match child_lookup(t.children, segs[0]) {
            Some(c) => c,
            None => empty_tree(),
        },
        segs.skip(1),
        ab,
    ))
}

/// The whole tree of a balance: each account's full balance added at every
/// node from the root to its leaf, accounts in storage order.
pub open spec fn tree_of(accounts: Seq<(Seq<char>, Map<Seq<char>, int>)>) -> TreeV
    decreases accounts.len(),
{
    if accounts.len() == 0 {
        empty_tree()
    } else {
        tree_add_at(
            tree_of(accounts.drop_last()),
            split_colon(accounts.last().0),
            accounts.last().1,
        )
    }
}

/// Every merge of the whole build stays in machine range.
pub open spec fn tree_of_fits(accounts: Seq<(Seq<char>, Map<Seq<char>, int>)>) -> bool
    decreases accounts.len(),
{
    if accounts.len() == 0 {
        true
    } else {
        tree_of_fits(accounts.drop_last()) && tree_add_fits(
            tree_of(accounts.drop_last()),
            split_colon(accounts.last().0),
            accounts.last().1,
        )
    }
}

/// A first matching child index decides the lookup and pins the update.
proof fn lemma_child_at(cs: Seq<(Seq<char>, TreeV)>, name: Seq<char>, i: int, v: TreeV)
    requires
        0 <= i < cs.len(),
        cs[i].0 == name,
        forall|j: int| 0 <= j < i ==> (#[trigger] cs[j]).0 != name,
    ensures
        child_lookup(cs, name) == Some(cs[i].1),
        child_update(cs, name, v) =~= cs.update(i, (name, v)),
    decreases i,
{
    if i == 0 {
        assert(seq![(name, v)] + cs.skip(1) =~= cs.update(0, (name, v)));
    } else {
        lemma_child_at(cs.skip(1), name, i - 1, v);
        assert(seq![cs[0]] + cs.skip(1).update(i - 1, (name, v)) =~= cs.update(i, (name, v)));
    }
}

/// With no matching child the lookup is empty and the update appends.
proof fn lemma_child_none(cs: Seq<(Seq<char>, TreeV)>, name: Seq<char>, v: TreeV)
    requires
        forall|j: int| 0 <= j < cs.len() ==> (#[trigger] cs[j]).0 != name,
    ensures
        child_lookup(cs, name) is None,
        child_update(cs, name, v) =~= cs.push((name, v)),
    decreases cs.len(),
{
    if cs.len() == 0 {
        assert(child_update(cs, name, v) =~= cs.push((name, v)));
    } else {
        lemma_child_none(cs.skip(1), name, v);
        assert(seq![cs[0]] + cs.skip(1).push((name, v)) =~= cs.push((name, v)));
    }
}

impl Default for TreeBalanceNode {
    /// A leaf with nothing accumulated.
    fn default() -> (r: TreeBalanceNode)
        ensures
            r.as_tree() == empty_tree(),
            r.wf(),
    {
        TreeBalanceNode::new()
    }
}

impl TreeBalanceNode {
    /// A leaf with nothing accumulated.
    pub fn new() -> (r: TreeBalanceNode)
        ensures
            r.as_tree() == empty_tree(),
            r.wf(),
    {
        let r = TreeBalanceNode { balance: AccountBalance::new(), children: Vec::new() };
        proof {
            assert(r.as_tree().children =~= Seq::<(Seq<char>, TreeV)>::empty());
            assert(r.as_tree() =~~= empty_tree());
        }
        r
    }

    /// The index of the first child under the name, if any.
    fn find_child(&self, name: &String) -> (r: Option<usize>)
        ensures
            match r {
                Some(i) => i < self.children@.len() && self.children@[i as int].0@ == name@
                    && forall|j: int|
                    0 <= j < i ==> (#[trigger] self.children@[j]).0@ != name@,
                None => forall|j: int|
                    0 <= j < self.children@.len() ==> (#[trigger] self.children@[j]).0@ != name@,
            },
    {
        let mut i: usize = 0;
        while i < self.children.len()
            invariant
                0 <= i <= self.children@.len(),
                forall|j: int| 0 <= j < i ==> (#[trigger] self.children@[j]).0@ != name@,
            decreases self.children@.len() - i,
        {
            if self.children[i].0 == *name {
                return Some(i);
            }
            i += 1;
        }
        None
    }

    /// Accumulate one account's full balance here and along the remaining
    /// path segments.
    fn add_at(&mut self, segs: &Vec<String>, idx: usize, ab: &AccountBalance)
        requires
            idx <= segs@.len(),
            ab.wf(),
            old(self).wf(),
            tree_add_fits(
                old(self).as_tree(),
                segs@.map_values(|s: String| s@).skip(idx as int),
                ab.as_map(),
            ),
        ensures
            final(self).wf(),
            final(self).as_tree() == tree_add_at(
                old(self).as_tree(),
                segs@.map_values(|s: String| s@).skip(idx as int),
                ab.as_map(),
            ),
        decreases segs@.len() - idx,
    {
        let ghost rest = segs@.map_values(|s: String| s@).skip(idx as int);
        let ghost t0 = self.as_tree();
        self.balance.add_account_balance(ab);
        proof {
            assert(self.as_tree().bal == ab_merge(t0.bal, ab.as_map()));
            assert(self.as_tree().children =~= t0.children);
        }
        if idx < segs.len() {
            proof {
                assert(rest[0] == segs@[idx as int]@);
            }
            let ghost t1 = self.as_tree();
            match self.find_child(&segs[idx]) {
                Some(i) => {
                    proof {
                        assert forall|j: int|
                            0 <= j < i implies (#[trigger] t1.children[j]).0 != rest[0] by {
                            assert(t1.children[j].0 == self.children@[j].0@);
                        }
                        assert(t1.children[i as int] == (
                            self.children@[i as int].0@,
                            self.children@[i as int].1.as_tree(),
                        ));
                        lemma_child_at(
                            t1.children,
                            rest[0],
                            i as int,
                            tree_add_at(
                                self.children@[i as int].1.as_tree(),
                                rest.skip(1),
                                ab.as_map(),
                            ),
                        );
                    }
                    let ghost cs_before = self.children@;
                    let mut entry = self.children.remove(i);
                    proof {
                        assert(segs@.map_values(|s: String| s@).skip(idx + 1) =~= rest.skip(1));
                        assert(entry == cs_before[i as int]);
                        assert(entry.1.wf());
                        assert(entry.1.as_tree() == t1.children[i as int].1);
                    }
                    entry.1.add_at(segs, idx + 1, ab);
                    let ghost entryv = (entry.0@, entry.1.as_tree());
                    self.children.insert(i, entry);
                    proof {
                        assert(self.as_tree().children =~= t1.children.update(
                            i as int,
                            (rest[0], entryv.1),
                        ));
                        assert(self.as_tree() =~~= tree_add_at(t0, rest, ab.as_map()));
                    }
                },
                None => {
                    proof {
                        assert forall|j: int|
                            0 <= j < t1.children.len() implies (#[trigger] t1.children[j]).0
                            != rest[0] by {
                            assert(t1.children[j].0 == self.children@[j].0@);
                        }
                        lemma_child_none(
                            t1.children,
                            rest[0],
                            tree_add_at(empty_tree(), rest.skip(1), ab.as_map()),
                        );
                    }
                    let mut child = TreeBalanceNode::new();
                    proof {
                        assert(segs@.map_values(|s: String| s@).skip(idx + 1) =~= rest.skip(1));
                    }
                    child.add_at(segs, idx + 1, ab);
                    let ghost childv = child.as_tree();
                    let name = segs[idx].clone();
                    self.children.push((name, child));
                    proof {
                        assert(self.as_tree().children =~= t1.children.push((rest[0], childv)));
                        assert(self.as_tree() =~~= tree_add_at(t0, rest, ab.as_map()));
                    }
                },
            }
        } else {
            proof {
                assert(rest =~= Seq::<Seq<char>>::empty());
                assert(self.as_tree() =~~= tree_add_at(t0, rest, ab.as_map()));
            }
        }
    }

    /// Build the whole tree of a balance: every account's full balance is
    /// accumulated at the root and at each node along its path.
    pub fn from_balance(balance: &Balance) -> (r: TreeBalanceNode)
        requires
            balance.wf(),
            tree_of_fits(balance.accounts()),
        ensures
            r.as_tree() == tree_of(balance.accounts()),
            r.wf(),
    {
        let ghost accounts = balance.accounts();
        let mut root = TreeBalanceNode::new();
        proof {
            assert(accounts.take(0) =~= Seq::<(Seq<char>, Map<Seq<char>, int>)>::empty());
        }
        let mut i: usize = 0;
        while i < balance.account_balances.len()
            invariant
                0 <= i <= balance.account_balances@.len(),
                accounts == balance.accounts(),
                accounts.len() == balance.account_balances@.len(),
                balance.wf(),
                tree_of_fits(accounts),
                root.wf(),
                root.as_tree() == tree_of(accounts.take(i as int)),
            decreases balance.account_balances@.len() - i,
        {
            let entry = &balance.account_balances[i];
            proof {
                assert(accounts[i as int] == (entry.0@, entry.1.as_map()));
                lemma_tree_of_fits_take(accounts, i + 1);
                assert(accounts.take(i + 1).drop_last() =~= accounts.take(i as int));
                assert(accounts.take(i + 1).last() == accounts[i as int]);
            }
            let segs = split_colon_exec(entry.0.as_str());
            proof {
                assert(segs@.map_values(|s: String| s@).skip(0) =~= split_colon(entry.0@));
            }
            root.add_at(&segs, 0, &entry.1);
            i += 1;
        }
        proof {
            assert(accounts.take(accounts.len() as int) =~= accounts);
        }
        root
    }
}

/// Fitting holds of every prefix of the build.
proof fn lemma_tree_of_fits_take(accounts: Seq<(Seq<char>, Map<Seq<char>, int>)>, j: int)
    requires
        tree_of_fits(accounts),
        0 <= j <= accounts.len(),
    ensures
        tree_of_fits(accounts.take(j)),
    decreases accounts.len() - j,
{
    if j == accounts.len() {
        assert(accounts.take(j) =~= accounts);
    } else {
        lemma_tree_of_fits_take(accounts, j + 1);
        assert(accounts.take(j + 1).drop_last() =~= accounts.take(j));
    }
}

} // verus!
