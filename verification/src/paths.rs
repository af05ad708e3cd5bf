//! What a folded value means: it is what the way that is taken brings.
use crate::diamonds::{
    brought, diamond_fold, last_root, leads_on, leaf_value, remembered, root_fold, DiamondV,
};
use crate::expr::ExprV;
use crate::meaning::{truth, value, Valuation};
use crate::sim::TermV;
use vstd::prelude::*;

verus! {

/// Block `x` is one of the predecessors of the merge block.
pub open spec fn is_predecessor(d: DiamondV, x: usize) -> bool {
    exists|i: int| 0 <= i < d.known.len() && (#[trigger] d.known[i]).0 == x
}

/// The predecessor that control comes to from block `x` within `n` steps: a block that ends
/// in a condition goes on to its second successor where the condition is true and to its
/// first one where it is not, and any other to the one that it has.
pub open spec fn walked(d: DiamondV, w: Valuation, x: usize, n: nat) -> Option<usize>
    decreases n,
{
    if is_predecessor(d, x) {
        Some(x)
    } else if n == 0 || x >= d.blocks.len() || x >= d.results.len() {
        None
    } else {
        let succ = d.blocks[x as int].succ;
        match d.results[x as int].term {
            TermV::Cond { cond } => if succ.len() != 2 {
                None
            } else if truth(value(w, cond)) {
                walked(d, w, succ[1], (n - 1) as nat)
            } else {
                walked(d, w, succ[0], (n - 1) as nat)
            },
            TermV::Fallthrough | TermV::Goto => if succ.len() == 1 {
                walked(d, w, succ[0], (n - 1) as nat)
            } else {
                None
            },
            _ => None,
        }
    }
}

/// Predecessor `p` leaves the value `v` on top of its stack.
pub open spec fn leaves(d: DiamondV, w: Valuation, p: usize, v: int) -> bool {
    exists|i: int|
        0 <= i < d.known.len() && (#[trigger] d.known[i]).0 == p && value(w, d.known[i].1.last())
            == v
}

/// From block `x` control comes to a predecessor that leaves `v`.
pub open spec fn brings(d: DiamondV, w: Valuation, x: usize, v: int) -> bool {
    exists|n: nat|
        (#[trigger] walked(d, w, x, n)) is Some && leaves(d, w, walked(d, w, x, n).unwrap(), v)
}

/// What is remembered of a block is what it brings.
pub open spec fn remembers(d: DiamondV, w: Valuation, memo: Seq<(usize, ExprV)>) -> bool {
    forall|i: int|
        0 <= i < memo.len() ==> brings(d, w, (#[trigger] memo[i]).0, value(w, memo[i].1))
}

/// The value of a predecessor is what it leaves.
proof fn lemma_leaf(known: Seq<(usize, Seq<ExprV>)>, x: usize)
    ensures
        match leaf_value(known, x) {
            Some(v) => exists|i: int|
                0 <= i < known.len() && (#[trigger] known[i]).0 == x && known[i].1.last() == v,
            None => forall|i: int| 0 <= i < known.len() ==> (#[trigger] known[i]).0 != x,
        },
    decreases known.len(),
{
    if known.len() > 0 {
        let front = known.drop_last();
        lemma_leaf(front, x);
        if known.last().0 == x {
            assert(known[known.len() - 1].0 == x);
        } else {
            match leaf_value(front, x) {
                Some(v) => {
                    let i = choose|i: int|
                        0 <= i < front.len() && (#[trigger] front[i]).0 == x && front[i].1.last()
                            == v;
                    assert(known[i] == front[i]);
                },
                None => {
                    assert forall|i: int| 0 <= i < known.len() implies (#[trigger] known[i]).0
                        != x by {
                        if i < front.len() {
                            assert(front[i] == known[i]);
                        }
                    }
                },
            }
        }
    }
}

/// A remembered value stands in the list.
proof fn lemma_remembered(memo: Seq<(usize, ExprV)>, x: usize)
    ensures
        remembered(memo, x) matches Some(v) ==> exists|i: int|
            0 <= i < memo.len() && #[trigger] memo[i] == (x, v),
    decreases memo.len(),
{
    if memo.len() > 0 {
        lemma_remembered(memo.drop_last(), x);
        if memo.last().0 == x {
            assert(memo[memo.len() - 1] == (x, memo.last().1));
        } else if let Some(v) = remembered(memo.drop_last(), x) {
            let i = choose|i: int|
                0 <= i < memo.len() - 1 && #[trigger] memo.drop_last()[i] == (x, v);
            assert(memo[i] == (x, v));
        }
    }
}

/// What is found for a block is what it brings.
#[verifier::spinoff_prover]
proof fn lemma_brought(
    d: DiamondV,
    w: Valuation,
    x: usize,
    depth: nat,
    vis: Seq<usize>,
    memo: Seq<(usize, ExprV)>,
)
    requires
        remembers(d, w, memo),
    ensures
        brought(d, x, depth, vis, memo) matches Some(found) ==> {
            &&& brings(d, w, x, value(w, found.value))
            &&& remembers(d, w, found.memo)
        },
    decreases 17 - depth,
{
    lemma_leaf(d.known, x);
    lemma_remembered(memo, x);
    if let Some(found) = brought(d, x, depth, vis, memo) {
        if let Some(v) = leaf_value(d.known, x) {
            let i = choose|i: int|
                0 <= i < d.known.len() && (#[trigger] d.known[i]).0 == x && d.known[i].1.last()
                    == v;
            assert(d.known[i].0 == x);
            assert(walked(d, w, x, 0) == Some(x));
            assert(leaves(d, w, x, value(w, v)));
        } else if let Some(v) = remembered(memo, x) {
            let i = choose|i: int| 0 <= i < memo.len() && #[trigger] memo[i] == (x, v);
            assert(brings(d, w, memo[i].0, value(w, memo[i].1)));
        } else {
            assert(!is_predecessor(d, x));
            let succ = d.blocks[x as int].succ;
            let vis1 = vis.push(x);
            if let TermV::Cond { cond } = d.results[x as int].term {
                lemma_brought(d, w, succ[1], depth + 1, vis1, memo);
                let t = brought(d, succ[1], depth + 1, vis1, memo).unwrap();
                lemma_brought(d, w, succ[0], depth + 1, t.vis, t.memo);
                let f = brought(d, succ[0], depth + 1, t.vis, t.memo).unwrap();
                let next = if truth(value(w, cond)) {
                    succ[1]
                } else {
                    succ[0]
                };
                let part = if truth(value(w, cond)) {
                    t.value
                } else {
                    f.value
                };
                assert(value(w, found.value) == value(w, part));
                lemma_one_more(d, w, x, next, value(w, part));
                assert forall|i: int| 0 <= i < found.memo.len() implies brings(
                    d,
                    w,
                    (#[trigger] found.memo[i]).0,
                    value(w, found.memo[i].1),
                ) by {
                    if i < f.memo.len() {
                        assert(found.memo[i] == f.memo[i]);
                    }
                }
            } else {
                assert(leads_on(d, x));
                lemma_brought(d, w, succ[0], depth + 1, vis1, memo);
                lemma_one_more(d, w, x, succ[0], value(w, found.value));
            }
        }
    }
}

/// A block brings what the block after it brings.
proof fn lemma_one_more(d: DiamondV, w: Valuation, x: usize, next: usize, v: int)
    requires
        brings(d, w, next, v),
        !is_predecessor(d, x),
        x < d.blocks.len(),
        x < d.results.len(),
        match d.results[x as int].term {
            TermV::Cond { cond } => d.blocks[x as int].succ.len() == 2 && next == if truth(
                value(w, cond),
            ) {
                d.blocks[x as int].succ[1]
            } else {
                d.blocks[x as int].succ[0]
            },
            TermV::Fallthrough | TermV::Goto => d.blocks[x as int].succ.len() == 1 && next
                == d.blocks[x as int].succ[0],
            _ => false,
        },
    ensures
        brings(d, w, x, v),
{
    let n = choose|n: nat|
        (#[trigger] walked(d, w, next, n)) is Some && leaves(
            d,
            w,
            walked(d, w, next, n).unwrap(),
            v,
        );
    assert(walked(d, w, x, n + 1) == walked(d, w, next, n));
}

/// A way leads to one predecessor, however many steps it is given.
proof fn lemma_one_way(d: DiamondV, w: Valuation, x: usize, m: nat, n: nat)
    requires
        walked(d, w, x, m) is Some,
        walked(d, w, x, n) is Some,
    ensures
        walked(d, w, x, m) == walked(d, w, x, n),
    decreases m,
{
    if !is_predecessor(d, x) {
        let succ = d.blocks[x as int].succ;
        match d.results[x as int].term {
            TermV::Cond { cond } => {
                if truth(value(w, cond)) {
                    lemma_one_way(d, w, succ[1], (m - 1) as nat, (n - 1) as nat);
                } else {
                    lemma_one_way(d, w, succ[0], (m - 1) as nat, (n - 1) as nat);
                }
            },
            _ => {
                lemma_one_way(d, w, succ[0], (m - 1) as nat, (n - 1) as nat);
            },
        }
    }
}

/// A root that folds is one whose value was found.
proof fn lemma_last_root(d: DiamondV, idom: Seq<usize>, order: Seq<usize>)
    ensures
        last_root(d, idom, order) matches Some((h, found)) ==> root_fold(d, idom, h) == Some(found),
    decreases order.len(),
{
    if order.len() > 0 {
        lemma_last_root(d, idom, order.drop_last());
    }
}

/// Every predecessor leaves one value more than all of them share, and the folded value
/// stands for it: whatever the conditions on the way evaluate to, control comes from the
/// root to a predecessor, and the value is the one that this predecessor leaves.
pub proof fn law_fold_takes_the_way(
    d: DiamondV,
    idom: Seq<usize>,
    order: Seq<usize>,
    w: Valuation,
)
    ensures
        diamond_fold(d, idom, order) matches Some((stack, root, vis)) ==> {
            &&& forall|i: int|
                0 <= i < d.known.len() ==> (#[trigger] d.known[i]).1.len() == stack.len()
            &&& stack.drop_last() == d.known[0].1.drop_last()
            &&& exists|n: nat| (#[trigger] walked(d, w, root, n)) is Some
            &&& forall|n: nat|
                (#[trigger] walked(d, w, root, n)) matches Some(p) ==> leaves(
                    d,
                    w,
                    p,
                    value(w, stack.last()),
                )
        },
{
    if let Some((stack, root, vis)) = diamond_fold(d, idom, order) {
        lemma_last_root(d, idom, order);
        let found = last_root(d, idom, order).unwrap().1;
        lemma_brought(d, w, root, 0, seq![], seq![]);
        let k = d.known[0].1.len() - 1;
        assert(stack.drop_last() =~= d.known[0].1.take(k));
        assert(d.known[0].1.drop_last() =~= d.known[0].1.take(k));
        assert(stack.last() == found.value);
        let m = choose|n: nat|
            (#[trigger] walked(d, w, root, n)) is Some && leaves(
                d,
                w,
                walked(d, w, root, n).unwrap(),
                value(w, stack.last()),
            );
        assert(walked(d, w, root, m) is Some);
        assert forall|n: nat|
            (#[trigger] walked(d, w, root, n)) matches Some(p) implies leaves(
                d,
                w,
                walked(d, w, root, n).unwrap(),
                value(w, stack.last()),
            ) by {
            lemma_one_way(d, w, root, m, n);
        }
    }
}

} // verus!
