//! Orders of blocks in a control flow graph.
use crate::block::{is_graph, Cfg, CfgV};
use crate::diamonds::holds;
use vstd::prelude::*;

verus! {

/// Model of a list of lists.
pub open spec fn rows(v: Seq<Vec<usize>>) -> Seq<Seq<usize>> {
    Seq::new(v.len(), |i: int| v[i]@)
}

/// The successors of every block.
pub open spec fn edges(c: CfgV) -> Seq<Seq<usize>> {
    Seq::new(c.blocks.len(), |i: int| c.blocks[i].succ)
}

/// What `jdc_core::structure::reverse_postorder` finds from block `entry` in the graph
/// with these successors.
pub uninterp spec fn reverse_postorder_of(succ: Seq<Seq<usize>>, entry: usize) -> Seq<usize>;

/// What `jdc_core::structure::compute_dominators` finds from block `entry` in the graph
/// with these successors: the immediate dominator of each block.
pub uninterp spec fn dominators_of(succ: Seq<Seq<usize>>, entry: usize) -> Seq<usize>;

/// Calls `jdc_core::structure::reverse_postorder` from `entry` over all blocks of the
/// graph that `jdc_core::cfg::Cfg::from_blocks` makes of the successors; the result
/// depends on the successors and the entry alone.
#[verifier::external_body]
fn core_order(succ: &Vec<Vec<usize>>, entry: usize) -> (r: Vec<usize>)
    requires
        entry < succ.len(),
        forall|i: int, k: int|
            0 <= i < succ.len() && 0 <= k < succ@[i].len()
                ==> (#[trigger] succ@[i]@[k]) < succ.len(),
    ensures
        r@ == reverse_postorder_of(rows(succ@), entry),
{
    let block = |(id, s): (usize, &Vec<usize>)| jdc_core::cfg::Block {
        id, start: id as u32, end: id as u32, ins_len: 1, succ: s.clone(), pred: vec![],
        handlers: vec![],
    };
    let blocks = succ.iter().enumerate().map(block).collect();
    let graph = jdc_core::cfg::Cfg::from_blocks(blocks, entry, vec![]);
    let all = (0..succ.len()).collect();
    jdc_core::structure::reverse_postorder(&graph, entry, &all)
}

/// Calls `jdc_core::structure::compute_dominators` from `entry` over all blocks of the
/// graph that `jdc_core::cfg::Cfg::from_blocks` makes of the successors; the result
/// depends on the successors and the entry alone.
#[verifier::external_body]
fn core_dominators(succ: &Vec<Vec<usize>>, entry: usize) -> (r: Vec<usize>)
    requires
        entry < succ.len(),
        forall|i: int, k: int|
            0 <= i < succ.len() && 0 <= k < succ@[i].len()
                ==> (#[trigger] succ@[i]@[k]) < succ.len(),
    ensures
        r@ == dominators_of(rows(succ@), entry),
{
    let block = |(id, s): (usize, &Vec<usize>)| jdc_core::cfg::Block {
        id, start: id as u32, end: id as u32, ins_len: 1, succ: s.clone(), pred: vec![],
        handlers: vec![],
    };
    let blocks = succ.iter().enumerate().map(block).collect();
    let graph = jdc_core::cfg::Cfg::from_blocks(blocks, entry, vec![]);
    let all = (0..succ.len()).collect();
    jdc_core::structure::compute_dominators(&graph, &all, entry).idom
}

/// A copy of a list of block ids.
pub fn clone_ids(v: &Vec<usize>) -> (r: Vec<usize>)
    ensures
        r@ == v@,
{
    let mut r: Vec<usize> = Vec::new();
    let mut i: usize = 0;
    while i < v.len()
        invariant
            i <= v.len(),
            r@ == v@.take(i as int),
        decreases v.len() - i,
    {
        r.push(v[i]);
        i += 1;
        assert(r@ =~= v@.take(i as int));
    }
    assert(v@.take(i as int) =~= v@);
    r
}

/// The successors of every block.
fn successors(c: &Cfg) -> (r: Vec<Vec<usize>>)
    ensures
        rows(r@) == edges(c@),
        r.len() == c.blocks.len(),
        forall|i: int| 0 <= i < r.len() ==> (#[trigger] r@[i])@ == c@.blocks[i].succ,
{
    let mut r: Vec<Vec<usize>> = Vec::new();
    let mut i: usize = 0;
    while i < c.blocks.len()
        invariant
            i <= c.blocks.len(),
            r.len() == i,
            forall|j: int| 0 <= j < i ==> (#[trigger] r@[j])@ == c@.blocks[j].succ,
        decreases c.blocks.len() - i,
    {
        assert(c@.blocks[i as int] == c.blocks@[i as int]@);
        r.push(clone_ids(&c.blocks[i].succ));
        i += 1;
    }
    assert(rows(r@) =~= edges(c@));
    r
}

/// The blocks in reverse postorder.
pub fn reverse_postorder(c: &Cfg) -> (r: Vec<usize>)
    requires
        is_graph(c@),
    ensures
        r@ == reverse_postorder_of(edges(c@), c.entry),
{
    let succ = successors(c);
    assert forall|i: int, k: int| 0 <= i < succ.len() && 0 <= k < succ@[i].len() implies (
    #[trigger] succ@[i]@[k]) < succ.len() by {
        assert(c@.blocks[i].succ[k] < c@.blocks.len());
    }
    core_order(&succ, c.entry)
}

/// The immediate dominator of each block.
pub fn immediate_dominators(c: &Cfg) -> (r: Vec<usize>)
    requires
        is_graph(c@),
    ensures
        r@ == dominators_of(edges(c@), c.entry),
{
    let succ = successors(c);
    assert forall|i: int, k: int| 0 <= i < succ.len() && 0 <= k < succ@[i].len() implies (
    #[trigger] succ@[i]@[k]) < succ.len() by {
        assert(c@.blocks[i].succ[k] < c@.blocks.len());
    }
    core_dominators(&succ, c.entry)
}

/// `order` with the blocks below `n` that it leaves out, in ascending order.
pub open spec fn completed(order: Seq<usize>, n: nat) -> Seq<usize>
    decreases n,
{
    if n == 0 {
        order
    } else {
        let front = completed(order, (n - 1) as nat);
        if order.contains((n - 1) as usize) {
            front
        } else {
            front.push((n - 1) as usize)
        }
    }
}

/// Adds the blocks below `n` that `order` leaves out.
#[verifier::loop_isolation(false)]
pub fn complete(order: &Vec<usize>, n: usize) -> (r: Vec<usize>)
    ensures
        r@ == completed(order@, n as nat),
{
    let mut r = clone_ids(order);
    let mut i: usize = 0;
    while i < n
        invariant
            i <= n,
            r@ == completed(order@, i as nat),
        decreases n - i,
    {
        if !holds(order, i) {
            r.push(i);
        }
        i += 1;
    }
    r
}

/// Every block is visited.
pub proof fn law_order_is_complete(order: Seq<usize>, n: nat, b: usize)
    requires
        b < n,
    ensures
        completed(order, n).contains(b),
    decreases n,
{
    let front = completed(order, (n - 1) as nat);
    if b == n - 1 {
        if order.contains(b) {
            lemma_keeps_order(order, n);
            let k = choose|k: int| 0 <= k < order.len() && order[k] == b;
            assert(completed(order, n)[k] == b);
        } else {
            assert(completed(order, n)[front.len() as int] == b);
        }
    } else {
        law_order_is_complete(order, (n - 1) as nat, b);
        let k = choose|k: int| 0 <= k < front.len() && front[k] == b;
        assert(completed(order, n)[k] == b);
    }
}

/// The order given comes first.
proof fn lemma_keeps_order(order: Seq<usize>, n: nat)
    ensures
        completed(order, n).len() >= order.len(),
        forall|k: int| 0 <= k < order.len() ==> #[trigger] completed(order, n)[k] == order[k],
    decreases n,
{
    if n > 0 {
        lemma_keeps_order(order, (n - 1) as nat);
    }
}

} // verus!
