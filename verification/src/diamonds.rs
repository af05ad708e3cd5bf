//! Values that reach a block over several pure paths, folded into one conditional.
use crate::assigns::{declared_is, stmt_assigns, stmt_assigns_var};
use crate::block::{block_list, Block, BlockV};
use crate::builder::{BlockResult, BlockResultV};
use crate::expr::{
    clone_expr, concat_parts, expr_eq, exprs, opt_box, opt_exprs, same_expr, ConcatPart,
    ConcatPartV, Expr, ExprV, LambdaExpr, LambdaExprV,
};
use crate::sim::{Term, TermV};
use crate::stmt::{stmts, Stmt, StmtV};
use vstd::prelude::*;

verus! {

/// Model of a list of block results.
pub open spec fn result_list(v: Seq<BlockResult>) -> Seq<BlockResultV> {
    Seq::new(v.len(), |i: int| v[i]@)
}

/// Model of predecessors with the stacks that they leave.
pub open spec fn known_outs(v: Seq<(usize, Vec<Expr>)>) -> Seq<(usize, Seq<ExprV>)> {
    Seq::new(v.len(), |i: int| (v[i].0, exprs(v[i].1@)))
}

// ---------------------------------------------------------------------
// Variables.

/// The variables that `e` reads, in order.
pub open spec fn locals_in(e: ExprV) -> Seq<u32>
    decreases e,
{
    match e {
        ExprV::Local { var, .. } => seq![var],
        ExprV::Field { owner, .. } => locals_in_opt(owner),
        ExprV::Method { owner, args, .. } => locals_in_opt(owner) + locals_in_exprs(args),
        ExprV::ArrayIndex { array, index } => locals_in(*array) + locals_in(*index),
        ExprV::Cast { e, .. } => locals_in(*e),
        ExprV::InstanceOf { e, .. } => locals_in(*e),
        ExprV::Un { e, .. } => locals_in(*e),
        ExprV::Bin { l, r, .. } => locals_in(*l) + locals_in(*r),
        ExprV::Cond { c, t, f } => locals_in(*c) + locals_in(*t) + locals_in(*f),
        ExprV::Assign { target, value, .. } => locals_in(*target) + locals_in(*value),
        ExprV::PreIncDec { e, .. } => locals_in(*e),
        ExprV::PostIncDec { e, .. } => locals_in(*e),
        ExprV::New { args, .. } => locals_in_exprs(args),
        ExprV::NewArray { dims, init, .. } => locals_in_exprs(dims) + locals_in_oexprs(init),
        ExprV::NewMultiArray { dims, .. } => locals_in_exprs(dims),
        ExprV::Lambda(l) => locals_in_captures(*l),
        ExprV::StringConcat(parts) => locals_in_parts(parts),
        ExprV::Invokedynamic { args, .. } => locals_in_exprs(args),
        ExprV::AnonNew { args, .. } => locals_in_exprs(args),
        _ => seq![],
    }
}

/// [`locals_in`] where there is a value.
pub open spec fn locals_in_oexprs(o: Option<Seq<ExprV>>) -> Seq<u32>
    decreases o,
{
    match o {
        Some(x) => locals_in_exprs(x),
        None => seq![],
    }
}

/// [`locals_in`] inside the captures of a lambda.
pub open spec fn locals_in_captures(l: LambdaExprV) -> Seq<u32>
    decreases l,
{
    locals_in_exprs(l.captures)
}

/// [`locals_in`] inside a concatenation piece.
pub open spec fn locals_in_part(p: ConcatPartV) -> Seq<u32>
    decreases p,
{
    match p {
        ConcatPartV::Str(e) => locals_in(e),
        ConcatPartV::Const(_) => seq![],
    }
}

/// [`locals_in`] over a list.
pub open spec fn locals_in_parts(l: Seq<ConcatPartV>) -> Seq<u32>
    decreases l,
{
    if l.len() == 0 {
        seq![]
    } else {
        locals_in_parts(l.drop_last()) + locals_in_part(l.last())
    }
}

/// [`locals_in`] where there is a value.
pub open spec fn locals_in_opt(o: Option<Box<ExprV>>) -> Seq<u32>
    decreases o,
{
    match o {
        Some(x) => locals_in(*x),
        None => seq![],
    }
}

/// [`locals_in`] over a list.
pub open spec fn locals_in_exprs(l: Seq<ExprV>) -> Seq<u32>
    decreases l,
{
    if l.len() == 0 {
        seq![]
    } else {
        locals_in_exprs(l.drop_last()) + locals_in(l.last())
    }
}

/// Adds the variables that `e` reads to `out`.
pub fn collect_expr_locals(e: &Expr, out: &mut Vec<u32>)
    ensures
        final(out)@ == old(out)@ + locals_in(e@),
    decreases e,
{
    match e {
        Expr::Local { var, .. } => { out.push(*var); assert(out@ =~= old(out)@ + locals_in(e@)); },
        Expr::Field { owner, .. } => { collect_expr_locals_opt(owner, out); },
        Expr::Method { owner, args, .. } => {
            collect_expr_locals_opt(owner, out);
            collect_expr_locals_exprs(args, out);
            assert(out@ =~= old(out)@ + locals_in(e@));
        },
        Expr::ArrayIndex { array, index } => {
            collect_expr_locals(array, out);
            collect_expr_locals(index, out);
            assert(out@ =~= old(out)@ + locals_in(e@));
        },
        Expr::Cast { e, .. } => { collect_expr_locals(e, out); },
        Expr::InstanceOf { e, .. } => { collect_expr_locals(e, out); },
        Expr::Un { e, .. } => { collect_expr_locals(e, out); },
        Expr::Bin { l, r, .. } => {
            collect_expr_locals(l, out);
            collect_expr_locals(r, out);
            assert(out@ =~= old(out)@ + locals_in(e@));
        },
        Expr::Cond { c, t, f } => {
            collect_expr_locals(c, out);
            collect_expr_locals(t, out);
            collect_expr_locals(f, out);
            assert(out@ =~= old(out)@ + locals_in(e@));
        },
        Expr::Assign { target, value, .. } => {
            collect_expr_locals(target, out);
            collect_expr_locals(value, out);
            assert(out@ =~= old(out)@ + locals_in(e@));
        },
        Expr::PreIncDec { e, .. } => { collect_expr_locals(e, out); },
        Expr::PostIncDec { e, .. } => { collect_expr_locals(e, out); },
        Expr::New { args, .. } => { collect_expr_locals_exprs(args, out); },
        Expr::NewArray { dims, init, .. } => {
            collect_expr_locals_exprs(dims, out);
            collect_expr_locals_oexprs(init, out);
            assert(out@ =~= old(out)@ + locals_in(e@));
        },
        Expr::NewMultiArray { dims, .. } => { collect_expr_locals_exprs(dims, out); },
        Expr::Lambda(l) => { collect_expr_locals_captures(l, out); },
        Expr::StringConcat(parts) => { collect_expr_locals_parts(parts, out); },
        Expr::Invokedynamic { args, .. } => { collect_expr_locals_exprs(args, out); },
        Expr::AnonNew { args, .. } => { collect_expr_locals_exprs(args, out); },
        _ => {},
    }
}

/// `collect_expr_locals` where there is a value.
pub fn collect_expr_locals_oexprs(o: &Option<Vec<Expr>>, out: &mut Vec<u32>)
    ensures
        final(out)@ == old(out)@ + locals_in_oexprs(opt_exprs(*o)),
    decreases o,
{
    if let Some(x) = o {
        collect_expr_locals_exprs(x, out);
    }
}

/// `collect_expr_locals` inside the captures of a lambda.
pub fn collect_expr_locals_captures(l: &LambdaExpr, out: &mut Vec<u32>)
    ensures
        final(out)@ == old(out)@ + locals_in_captures(l@),
    decreases l,
{
    collect_expr_locals_exprs(&l.captures, out);
}

/// `collect_expr_locals` inside a concatenation piece.
pub fn collect_expr_locals_part(p: &ConcatPart, out: &mut Vec<u32>)
    ensures
        final(out)@ == old(out)@ + locals_in_part(p@),
    decreases p,
{
    match p {
        ConcatPart::Str(e) => collect_expr_locals(e, out),
        ConcatPart::Const(_) => {},
    }
}

/// `collect_expr_locals` over a list.
#[verifier::loop_isolation(false)]
pub fn collect_expr_locals_parts(l: &Vec<ConcatPart>, out: &mut Vec<u32>)
    ensures
        final(out)@ == old(out)@ + locals_in_parts(concat_parts(l@)),
    decreases l,
{
    let ghost all = concat_parts(l@);
    let mut i: usize = 0;
    while i < l.len()
        invariant
            i <= l.len(),
            out@ == old(out)@ + locals_in_parts(all.take(i as int)),
        decreases l.len() - i,
    {
        assert(decreases_to!(l => l@[i as int]));
        assert(all.take(i + 1).drop_last() =~= all.take(i as int));
        collect_expr_locals_part(&l[i], out);
        i += 1;
        assert(out@ =~= old(out)@ + locals_in_parts(all.take(i as int)));
    }
    assert(all.take(i as int) =~= all);
}

/// `collect_expr_locals` where there is a value.
pub fn collect_expr_locals_opt(o: &Option<Box<Expr>>, out: &mut Vec<u32>)
    ensures
        final(out)@ == old(out)@ + locals_in_opt(opt_box(*o)),
    decreases o,
{
    if let Some(x) = o {
        collect_expr_locals(x, out);
    }
}

/// `collect_expr_locals` over a list.
#[verifier::loop_isolation(false)]
pub fn collect_expr_locals_exprs(l: &Vec<Expr>, out: &mut Vec<u32>)
    ensures
        final(out)@ == old(out)@ + locals_in_exprs(exprs(l@)),
    decreases l,
{
    let ghost all = exprs(l@);
    let mut i: usize = 0;
    while i < l.len()
        invariant
            i <= l.len(),
            out@ == old(out)@ + locals_in_exprs(all.take(i as int)),
        decreases l.len() - i,
    {
        assert(decreases_to!(l => l@[i as int]));
        assert(all.take(i + 1).drop_last() =~= all.take(i as int));
        collect_expr_locals(&l[i], out);
        i += 1;
        assert(out@ =~= old(out)@ + locals_in_exprs(all.take(i as int)));
    }
    assert(all.take(i as int) =~= all);
}

/// `s` gives `v` a value: it declares it, or it assigns or increments it anywhere.
pub open spec fn gives_value(s: StmtV, v: u32) -> bool {
    stmt_assigns(s, v) || (s matches StmtV::LocalDef { var, .. } && var == v)
}

/// Some statement of a list gives `v` a value.
pub open spec fn assigned_in(l: Seq<StmtV>, v: u32) -> bool {
    exists|i: int| 0 <= i < l.len() && gives_value(#[trigger] l[i], v)
}

/// Whether some statement of a list gives `v` a value.
fn assigns_one(l: &Vec<Stmt>, v: u32) -> (r: bool)
    ensures
        r == assigned_in(stmts(l@), v),
{
    let mut i: usize = 0;
    while i < l.len()
        invariant
            i <= l.len(),
            forall|j: int| 0 <= j < i ==> !gives_value(#[trigger] stmts(l@)[j], v),
        decreases l.len() - i,
    {
        assert(stmts(l@)[i as int] == l@[i as int]@);
        if stmt_assigns_var(&l[i], v) || declared_is(&l[i], v) {
            return true;
        }
        i += 1;
    }
    false
}

// ---------------------------------------------------------------------
// Dominance.

/// `a` is met on the way from `cur` up the immediate dominators, in at most `steps`
/// steps.
pub open spec fn met_above(idom: Seq<usize>, a: usize, cur: usize, steps: nat) -> bool
    decreases steps,
{
    if cur >= idom.len() {
        false
    } else if cur == a {
        true
    } else if steps == 0 || idom[cur as int] == cur {
        false
    } else {
        met_above(idom, a, idom[cur as int], (steps - 1) as nat)
    }
}

/// Block `a` dominates block `b`.
pub open spec fn dominates(idom: Seq<usize>, a: usize, b: usize) -> bool {
    a < idom.len() && met_above(idom, a, b, idom.len() + 2)
}

/// Whether `a` is met on the way from `cur` up the immediate dominators.
fn meets_above(idom: &Vec<usize>, a: usize, cur: usize, steps: u128) -> (r: bool)
    ensures
        r == met_above(idom@, a, cur, steps as nat),
    decreases steps,
{
    if cur >= idom.len() {
        false
    } else if cur == a {
        true
    } else if steps == 0 || idom[cur] == cur {
        false
    } else {
        meets_above(idom, a, idom[cur], steps - 1)
    }
}

/// Whether block `a` dominates all blocks of `leaves`.
#[verifier::loop_isolation(false)]
fn dominates_all(idom: &Vec<usize>, a: usize, known: &Vec<(usize, Vec<Expr>)>) -> (r: bool)
    ensures
        r == (forall|i: int|
            0 <= i < known.len() ==> dominates(idom@, a, (#[trigger] known_outs(known@)[i]).0)),
{
    let ghost all = known_outs(known@);
    let mut i: usize = 0;
    while i < known.len()
        invariant
            i <= known.len(),
            forall|j: int| 0 <= j < i ==> dominates(idom@, a, (#[trigger] all[j]).0),
        decreases known.len() - i,
    {
        assert(all[i as int] == (known@[i as int].0, exprs(known@[i as int].1@)));
        if !(a < idom.len() && meets_above(idom, a, known[i].0, idom.len() as u128 + 2)) {
            assert(!dominates(idom@, a, all[i as int].0));
            return false;
        }
        i += 1;
    }
    true
}

// ---------------------------------------------------------------------
// One value from one root.

/// The value that predecessor `x` leaves on top.
pub open spec fn leaf_value(known: Seq<(usize, Seq<ExprV>)>, x: usize) -> Option<ExprV>
    decreases known.len(),
{
    if known.len() == 0 {
        None
    } else if known.last().0 == x {
        Some(known.last().1.last())
    } else {
        leaf_value(known.drop_last(), x)
    }
}

/// The value found for block `x` before.
pub open spec fn remembered(memo: Seq<(usize, ExprV)>, x: usize) -> Option<ExprV>
    decreases memo.len(),
{
    if memo.len() == 0 {
        None
    } else if memo.last().0 == x {
        Some(memo.last().1)
    } else {
        remembered(memo.drop_last(), x)
    }
}

/// Model of remembered values.
pub open spec fn memo_list(v: Seq<(usize, Expr)>) -> Seq<(usize, ExprV)> {
    Seq::new(v.len(), |i: int| (v[i].0, v[i].1@))
}

/// `vis` with `x`.
pub open spec fn with_block(vis: Seq<usize>, x: usize) -> Seq<usize> {
    if vis.contains(x) {
        vis
    } else {
        vis.push(x)
    }
}

/// The graph in which values are folded: the blocks, what each one became, the merge
/// block and its predecessors with the stacks that they leave.
pub ghost struct DiamondV {
    pub blocks: Seq<BlockV>,
    pub results: Seq<BlockResultV>,
    pub merge: usize,
    pub known: Seq<(usize, Seq<ExprV>)>,
}

/// A value with the blocks visited on the way to it and the values remembered.
pub ghost struct FoundV {
    pub value: ExprV,
    pub vis: Seq<usize>,
    pub memo: Seq<(usize, ExprV)>,
}

/// A block that only leads on.
pub open spec fn leads_on(d: DiamondV, x: usize) -> bool {
    &&& d.results[x as int].term is Fallthrough || d.results[x as int].term is Goto
    &&& d.results[x as int].stmts.len() == 0
    &&& d.results[x as int].out_stack.len() == 0
    &&& d.blocks[x as int].succ.len() == 1
}

/// The value that block `x` brings to the merge block: that of a predecessor, a
/// conditional of what both branches bring, or that of the next block.
pub open spec fn brought(
    d: DiamondV,
    x: usize,
    depth: nat,
    vis: Seq<usize>,
    memo: Seq<(usize, ExprV)>,
) -> Option<FoundV>
    decreases 17 - depth,
{
    match leaf_value(d.known, x) {
        Some(value) => Some(FoundV { value, vis: with_block(vis, x), memo }),
        None => match remembered(memo, x) {
            Some(value) => Some(FoundV { value, vis: with_block(vis, x), memo }),
            None => if depth > 16 || vis.contains(x) || x >= d.blocks.len()
                || x >= d.results.len() {
                None
            } else {
                let succ = d.blocks[x as int].succ;
                let vis1 = vis.push(x);
                match d.results[x as int].term {
                    TermV::Cond { cond } => if succ.len() == 2 {
                        match brought(d, succ[1], depth + 1, vis1, memo) {
                            Some(t) => match brought(d, succ[0], depth + 1, t.vis, t.memo) {
                                Some(f) => {
                                    let value = ExprV::Cond {
                                        c: Box::new(cond),
                                        t: Box::new(t.value),
                                        f: Box::new(f.value),
                                    };
                                    Some(
                                        FoundV { value, vis: f.vis, memo: f.memo.push((x, value)) }
                                    )
                                },
                                None => None,
                            },
                            None => None,
                        }
                    } else {
                        None
                    },
                    _ => if leads_on(d, x) && succ[0] != d.merge {
                        brought(d, succ[0], depth + 1, vis1, memo)
                    } else {
                        None
                    },
                }
            },
        },
    }
}

/// The graph in which values are folded.
pub struct Diamond<'a> {
    pub blocks: &'a Vec<Block>,
    pub results: &'a Vec<BlockResult>,
    pub merge: usize,
    pub known: &'a Vec<(usize, Vec<Expr>)>,
}

impl<'a> Diamond<'a> {
    pub open spec fn view(&self) -> DiamondV {
        DiamondV {
            blocks: block_list(self.blocks@),
            results: result_list(self.results@),
            merge: self.merge,
            known: known_outs(self.known@),
        }
    }
}

/// Every predecessor leaves a value.
pub open spec fn all_leave(known: Seq<(usize, Seq<ExprV>)>) -> bool {
    forall|i: int| 0 <= i < known.len() ==> (#[trigger] known[i]).1.len() > 0
}

/// Model of an optional expression by value.
pub open spec fn opt_owned(o: Option<Expr>) -> Option<ExprV> {
    match o {
        Some(e) => Some(e@),
        None => None,
    }
}

/// The value that predecessor `x` leaves on top.
#[verifier::loop_isolation(false)]
fn find_leaf(known: &Vec<(usize, Vec<Expr>)>, x: usize) -> (r: Option<Expr>)
    requires
        all_leave(known_outs(known@)),
    ensures
        opt_owned(r) == leaf_value(known_outs(known@), x),
{
    let ghost all = known_outs(known@);
    let mut i: usize = known.len();
    assert(all.take(i as int) =~= all);
    while i > 0
        invariant
            i <= known.len(),
            leaf_value(all.take(i as int), x) == leaf_value(all, x),
        decreases i,
    {
        i -= 1;
        assert(all.take(i + 1).drop_last() =~= all.take(i as int));
        assert(all.take(i + 1).last() == (known@[i as int].0, exprs(known@[i as int].1@)));
        if known[i].0 == x {
            let o = &known[i].1;
            assert(all[i as int].1.len() > 0);
            assert(exprs(o@).len() == o@.len());
            let k = o.len() - 1;
            assert(exprs(o@)[k as int] == o@[k as int]@);
            return Some(clone_expr(&o[k]));
        }
    }
    None
}

/// The value found for block `x` before.
#[verifier::loop_isolation(false)]
fn find_memo(memo: &Vec<(usize, Expr)>, x: usize) -> (r: Option<Expr>)
    ensures
        opt_owned(r) == remembered(memo_list(memo@), x),
{
    let ghost all = memo_list(memo@);
    let mut i: usize = memo.len();
    assert(all.take(i as int) =~= all);
    while i > 0
        invariant
            i <= memo.len(),
            remembered(all.take(i as int), x) == remembered(all, x),
        decreases i,
    {
        i -= 1;
        assert(all.take(i + 1).drop_last() =~= all.take(i as int));
        assert(all.take(i + 1).last() == (memo@[i as int].0, memo@[i as int].1@));
        if memo[i].0 == x {
            return Some(clone_expr(&memo[i].1));
        }
    }
    None
}

/// Whether `x` is one of `list`.
pub fn holds(list: &Vec<usize>, x: usize) -> (r: bool)
    ensures
        r == list@.contains(x),
{
    let mut i: usize = 0;
    while i < list.len()
        invariant
            i <= list.len(),
            forall|j: int| 0 <= j < i ==> list@[j] != x,
        decreases list.len() - i,
    {
        if list[i] == x {
            return true;
        }
        i += 1;
    }
    false
}

/// Adds `x` to `vis`.
fn visit(vis: &mut Vec<usize>, x: usize)
    ensures
        final(vis)@ == with_block(old(vis)@, x),
{
    if !holds(vis, x) {
        vis.push(x);
    }
}

/// Whether a block only leads on.
fn passes_on(d: &Diamond, x: usize) -> (r: bool)
    requires
        x < d.blocks.len(),
        x < d.results.len(),
    ensures
        r == leads_on(d@, x),
{
    let res = &d.results[x];
    assert(d@.results[x as int] == res@);
    assert(d@.blocks[x as int] == d.blocks@[x as int]@);
    assert(stmts(res.stmts@).len() == res.stmts@.len());
    assert(exprs(res.out_stack@).len() == res.out_stack@.len());
    let open = match res.term {
        Term::Fallthrough => true,
        Term::Goto => true,
        _ => false,
    };
    open && res.stmts.len() == 0 && res.out_stack.len() == 0 && d.blocks[x].succ.len() == 1
}

/// The value that block `x` brings to the merge block.
#[verifier::spinoff_prover]
fn resolve(
    d: &Diamond,
    x: usize,
    depth: u32,
    vis: &mut Vec<usize>,
    memo: &mut Vec<(usize, Expr)>,
) -> (r: Option<Expr>)
    requires
        all_leave(d@.known),
        depth <= 17,
    ensures
        match r {
            Some(e) => brought(d@, x, depth as nat, old(vis)@, memo_list(old(memo)@)) == Some(
                FoundV { value: e@, vis: final(vis)@, memo: memo_list(final(memo)@) },
            ),
            None => brought(d@, x, depth as nat, old(vis)@, memo_list(old(memo)@)) is None,
        },
    decreases 17 - depth,
{
    if let Some(e) = find_leaf(d.known, x) {
        visit(vis, x);
        return Some(e);
    }
    if let Some(e) = find_memo(memo, x) {
        visit(vis, x);
        return Some(e);
    }
    if depth > 16 || holds(vis, x) || x >= d.blocks.len() || x >= d.results.len() {
        return None;
    }
    vis.push(x);
    let succ = &d.blocks[x].succ;
    assert(d@.blocks[x as int] == d.blocks@[x as int]@);
    assert(d@.results[x as int] == d.results@[x as int]@);
    if let Term::Cond { cond } = &d.results[x].term {
        if succ.len() != 2 {
            return None;
        }
        let t = match resolve(d, succ[1], depth + 1, vis, memo) {
            Some(t) => t,
            None => {
                return None;
            },
        };
        let f = match resolve(d, succ[0], depth + 1, vis, memo) {
            Some(f) => f,
            None => {
                return None;
            },
        };
        let e = Expr::Cond { c: Box::new(clone_expr(cond)), t: Box::new(t), f: Box::new(f) };
        let ghost before = memo_list(memo@);
        memo.push((x, clone_expr(&e)));
        assert(memo_list(memo@) =~= before.push((x, e@)));
        return Some(e);
    }
    if passes_on(d, x) && succ[0] != d.merge {
        return resolve(d, succ[0], depth + 1, vis, memo);
    }
    None
}

// ---------------------------------------------------------------------
// The best root.

/// The visited blocks are entered only from among themselves, but for the root.
pub open spec fn is_single_entry(d: DiamondV, root: usize, vis: Seq<usize>) -> bool {
    forall|b: int| 0 <= b < d.blocks.len() ==> entered_inside(d, root, vis, #[trigger] d.blocks[b])
}

/// Block `b` is outside, or it is entered only from visited blocks.
pub open spec fn entered_inside(d: DiamondV, root: usize, vis: Seq<usize>, b: BlockV) -> bool {
    b.id == root || b.id == d.merge || !vis.contains(b.id) || forall|k: int|
        0 <= k < b.pred.len() ==> vis.contains(#[trigger] b.pred[k]) || b.pred[k] == root
}

/// No variable that `e` reads is assigned in a visited block other than the root.
pub open spec fn is_clean(d: DiamondV, root: usize, vis: Seq<usize>, e: ExprV) -> bool {
    forall|i: int|
        0 <= i < vis.len() ==> block_clean(d, root, #[trigger] vis[i], e)
}

/// No variable that `e` reads is assigned in block `b`, unless that is the root.
pub open spec fn block_clean(d: DiamondV, root: usize, b: usize, e: ExprV) -> bool {
    b == root || b >= d.results.len() || forall|k: int|
        0 <= k < locals_in(e).len() ==> !assigned_in(
            d.results[b as int].stmts,
            #[trigger] locals_in(e)[k],
        )
}

/// All predecessors are visited.
pub open spec fn covers(known: Seq<(usize, Seq<ExprV>)>, vis: Seq<usize>) -> bool {
    forall|i: int| 0 <= i < known.len() ==> vis.contains((#[trigger] known[i]).0)
}

/// Root `h` folds all values: it branches, dominates the predecessors, and its value can
/// be had without entering in between or losing an assignment.
pub open spec fn root_fold(d: DiamondV, idom: Seq<usize>, h: usize) -> Option<FoundV> {
    if h < d.results.len() && d.results[h as int].term is Cond && (forall|i: int|
        0 <= i < d.known.len() ==> dominates(idom, h, (#[trigger] d.known[i]).0)) {
        match brought(d, h, 0, seq![], seq![]) {
            Some(found) => if is_single_entry(d, h, found.vis) && is_clean(
                d,
                h,
                found.vis,
                found.value,
            ) && covers(d.known, found.vis) {
                Some(found)
            } else {
                None
            },
            None => None,
        }
    } else {
        None
    }
}

/// The last root in `order` that folds all values, with its fold.
pub open spec fn last_root(
    d: DiamondV,
    idom: Seq<usize>,
    order: Seq<usize>,
) -> Option<(usize, FoundV)>
    decreases order.len(),
{
    if order.len() == 0 {
        None
    } else {
        match root_fold(d, idom, order.last()) {
            Some(found) => Some((order.last(), found)),
            None => last_root(d, idom, order.drop_last()),
        }
    }
}

/// Block `p` only leaves a value for the merge block.
pub open spec fn is_pure(d: DiamondV, p: usize) -> bool {
    &&& p < d.results.len()
    &&& p < d.blocks.len()
    &&& d.results[p as int].stmts.len() == 0
    &&& !(d.results[p as int].term is Return)
    &&& !(d.results[p as int].term is Throw)
    &&& d.blocks[p as int].succ.len() > 0
    &&& d.blocks[p as int].succ[0] == d.merge
}

/// All stacks have depth `k + 1`, agree below `k` and not at `k`.
pub open spec fn one_value_each(known: Seq<(usize, Seq<ExprV>)>, k: int) -> bool {
    &&& k >= 0
    &&& forall|i: int| 0 <= i < known.len() ==> (#[trigger] known[i]).1.len() == k + 1
    &&& forall|i: int| 1 <= i < known.len() ==> agrees_with_first(known, #[trigger] known[i].1, k)
    &&& exists|i: int|
        1 <= i < known.len() && !same_expr((#[trigger] known[i]).1[k], known[0].1[k])
}

/// A stack agrees with the first one below depth `k`.
pub open spec fn agrees_with_first(known: Seq<(usize, Seq<ExprV>)>, o: Seq<ExprV>, k: int) -> bool {
    forall|j: int| 0 <= j < k ==> same_expr(#[trigger] o[j], known[0].1[j])
}

/// The stack of the merge block with the values of all predecessors folded into one,
/// the root of the fold and the blocks that it takes in.
pub open spec fn diamond_fold(d: DiamondV, idom: Seq<usize>, order: Seq<usize>) -> Option<
    (Seq<ExprV>, usize, Seq<usize>),
> {
    let k = d.known[0].1.len() - 1;
    if d.known.len() >= 2 && (forall|i: int|
        0 <= i < d.known.len() ==> is_pure(d, (#[trigger] d.known[i]).0)) && one_value_each(
        d.known,
        k,
    ) {
        match last_root(d, idom, order) {
            Some((root, found)) => Some((d.known[0].1.take(k).push(found.value), root, found.vis)),
            None => None,
        }
    } else {
        None
    }
}

/// Whether every predecessor only leaves a value for the merge block.
#[verifier::loop_isolation(false)]
fn all_pure(d: &Diamond) -> (r: bool)
    ensures
        r == (forall|i: int| 0 <= i < d@.known.len() ==> is_pure(d@, (#[trigger] d@.known[i]).0)),
{
    let mut i: usize = 0;
    while i < d.known.len()
        invariant
            i <= d.known.len(),
            forall|j: int| 0 <= j < i ==> is_pure(d@, (#[trigger] d@.known[j]).0),
        decreases d.known.len() - i,
    {
        let p = d.known[i].0;
        assert(d@.known[i as int].0 == p);
        if p >= d.results.len() || p >= d.blocks.len() {
            assert(!is_pure(d@, d@.known[i as int].0));
            return false;
        }
        let res = &d.results[p];
        assert(d@.results[p as int] == res@);
        assert(d@.blocks[p as int] == d.blocks@[p as int]@);
        assert(stmts(res.stmts@).len() == res.stmts@.len());
        let goes_on = match res.term {
            Term::Return(_) => false,
            Term::Throw(_) => false,
            _ => true,
        };
        let succ = &d.blocks[p].succ;
        if !(res.stmts.len() == 0 && goes_on && succ.len() > 0 && succ[0] == d.merge) {
            assert(!is_pure(d@, d@.known[i as int].0));
            return false;
        }
        i += 1;
    }
    true
}

/// Whether stack `o` agrees with `first` below depth `k`.
#[verifier::loop_isolation(false)]
fn agrees(o: &Vec<Expr>, first: &Vec<Expr>, k: usize) -> (r: bool)
    requires
        k <= o.len(),
        k <= first.len(),
    ensures
        r == (forall|j: int| 0 <= j < k ==> same_expr(#[trigger] exprs(o@)[j], exprs(first@)[j])),
{
    let mut j: usize = 0;
    while j < k
        invariant
            j <= k,
            forall|i: int| 0 <= i < j ==> same_expr(#[trigger] exprs(o@)[i], exprs(first@)[i]),
        decreases k - j,
    {
        assert(exprs(o@)[j as int] == o@[j as int]@);
        assert(exprs(first@)[j as int] == first@[j as int]@);
        if !expr_eq(&o[j], &first[j]) {
            return false;
        }
        j += 1;
    }
    true
}

/// Whether each stack adds one value to what all of them share.
#[verifier::loop_isolation(false)]
#[verifier::spinoff_prover]
fn adds_one(known: &Vec<(usize, Vec<Expr>)>) -> (r: bool)
    requires
        known.len() >= 2,
    ensures
        r == one_value_each(known_outs(known@), known_outs(known@)[0].1.len() - 1),
{
    let ghost all = known_outs(known@);
    let first = &known[0].1;
    assert(all[0].1 == exprs(first@));
    assert(exprs(first@).len() == first@.len());
    if first.len() == 0 {
        return false;
    }
    let k = first.len() - 1;
    assert(exprs(first@)[k as int] == first@[k as int]@);
    let mut differs = false;
    let mut i: usize = 1;
    while i < known.len()
        invariant
            1 <= i <= known.len(),
            forall|j: int| 0 <= j < i ==> (#[trigger] all[j]).1.len() == k + 1,
            forall|j: int| 1 <= j < i ==> agrees_with_first(all, #[trigger] all[j].1, k as int),
            differs == exists|j: int|
                1 <= j < i && !same_expr((#[trigger] all[j]).1[k as int], all[0].1[k as int]),
        decreases known.len() - i,
    {
        let o = &known[i].1;
        assert(all[i as int].1 == exprs(o@));
        assert(exprs(o@).len() == o@.len());
        if o.len() != k + 1 {
            assert(all[i as int].1.len() != k + 1);
            return false;
        }
        if !agrees(o, first, k) {
            assert(!agrees_with_first(all, all[i as int].1, k as int));
            return false;
        }
        assert(exprs(o@)[k as int] == o@[k as int]@);
        if !expr_eq(&o[k], &first[k]) {
            assert(!same_expr(all[i as int].1[k as int], all[0].1[k as int]));
            differs = true;
        }
        i += 1;
    }
    differs
}

/// Whether the visited blocks are entered only from among themselves.
#[verifier::loop_isolation(false)]
fn single_entry(d: &Diamond, root: usize, vis: &Vec<usize>) -> (r: bool)
    ensures
        r == is_single_entry(d@, root, vis@),
{
    let mut b: usize = 0;
    while b < d.blocks.len()
        invariant
            b <= d.blocks.len(),
            forall|j: int| 0 <= j < b ==> entered_inside(d@, root, vis@, #[trigger] d@.blocks[j]),
        decreases d.blocks.len() - b,
    {
        let x = &d.blocks[b];
        assert(d@.blocks[b as int] == x@);
        if !(x.id == root || x.id == d.merge || !holds(vis, x.id)) {
            let mut k: usize = 0;
            while k < x.pred.len()
                invariant
                    k <= x.pred.len(),
                    forall|j: int|
                        0 <= j < k ==> vis@.contains(#[trigger] x@.pred[j]) || x@.pred[j] == root,
                decreases x.pred.len() - k,
            {
                let p = x.pred[k];
                assert(x@.pred[k as int] == p);
                if !(p == root || holds(vis, p)) {
                    assert(!entered_inside(d@, root, vis@, d@.blocks[b as int]));
                    return false;
                }
                k += 1;
            }
        }
        b += 1;
    }
    true
}

/// Whether no variable that `e` reads is assigned in a visited block other than the root.
#[verifier::loop_isolation(false)]
fn clean(d: &Diamond, root: usize, vis: &Vec<usize>, e: &Expr) -> (r: bool)
    ensures
        r == is_clean(d@, root, vis@, e@),
{
    let mut read: Vec<u32> = Vec::new();
    collect_expr_locals(e, &mut read);
    assert(read@ =~= locals_in(e@));
    let mut i: usize = 0;
    while i < vis.len()
        invariant
            i <= vis.len(),
            forall|j: int| 0 <= j < i ==> block_clean(d@, root, #[trigger] vis@[j], e@),
        decreases vis.len() - i,
    {
        let b = vis[i];
        if b != root && b < d.results.len() {
            assert(d@.results[b as int] == d.results@[b as int]@);
            let mut k: usize = 0;
            while k < read.len()
                invariant
                    k <= read.len(),
                    forall|j: int|
                        0 <= j < k ==> !assigned_in(
                            d@.results[b as int].stmts,
                            #[trigger] locals_in(e@)[j],
                        ),
                decreases read.len() - k,
            {
                assert(locals_in(e@)[k as int] == read@[k as int]);
                if assigns_one(&d.results[b].stmts, read[k]) {
                    assert(!block_clean(d@, root, vis@[i as int], e@));
                    return false;
                }
                k += 1;
            }
        }
        i += 1;
    }
    true
}

/// Whether all predecessors are visited.
#[verifier::loop_isolation(false)]
fn covered(known: &Vec<(usize, Vec<Expr>)>, vis: &Vec<usize>) -> (r: bool)
    ensures
        r == covers(known_outs(known@), vis@),
{
    let ghost all = known_outs(known@);
    let mut i: usize = 0;
    while i < known.len()
        invariant
            i <= known.len(),
            forall|j: int| 0 <= j < i ==> vis@.contains((#[trigger] all[j]).0),
        decreases known.len() - i,
    {
        assert(all[i as int].0 == known@[i as int].0);
        if !holds(vis, known[i].0) {
            return false;
        }
        i += 1;
    }
    true
}

/// The fold from root `h`.
#[verifier::spinoff_prover]
fn fold_from(d: &Diamond, idom: &Vec<usize>, h: usize) -> (r: Option<(Expr, Vec<usize>)>)
    requires
        all_leave(d@.known),
    ensures
        match r {
            Some((e, vis)) => root_fold(d@, idom@, h) matches Some(f) && (f.value == e@ && f.vis
                == vis@),
            None => root_fold(d@, idom@, h) is None,
        },
{
    if h >= d.results.len() {
        return None;
    }
    assert(d@.results[h as int] == d.results@[h as int]@);
    let branches = match &d.results[h].term {
        Term::Cond { .. } => true,
        _ => false,
    };
    if !branches || !dominates_all(idom, h, d.known) {
        return None;
    }
    let mut vis: Vec<usize> = Vec::new();
    let mut memo: Vec<(usize, Expr)> = Vec::new();
    assert(vis@ =~= seq![]);
    assert(memo_list(memo@) =~= seq![]);
    let e = match resolve(d, h, 0, &mut vis, &mut memo) {
        Some(e) => e,
        None => {
            return None;
        },
    };
    if single_entry(d, h, &vis) && clean(d, h, &vis, &e) && covered(d.known, &vis) {
        Some((e, vis))
    } else {
        None
    }
}

/// Model of a fold.
pub open spec fn opt_fold(o: Option<(Vec<Expr>, usize, Vec<usize>)>) -> Option<
    (Seq<ExprV>, usize, Seq<usize>),
> {
    match o {
        Some((v, root, vis)) => Some((exprs(v@), root, vis@)),
        None => None,
    }
}

/// All but the last of a list of expressions.
#[verifier::loop_isolation(false)]
fn front(v: &Vec<Expr>) -> (r: Vec<Expr>)
    requires
        v.len() > 0,
    ensures
        exprs(r@) == exprs(v@).take(v.len() - 1),
{
    let ghost all = exprs(v@);
    let mut r: Vec<Expr> = Vec::new();
    let mut i: usize = 0;
    while i < v.len() - 1
        invariant
            i <= v.len() - 1,
            r.len() == i,
            forall|j: int| 0 <= j < i ==> (#[trigger] r@[j])@ == all[j],
        decreases v.len() - i,
    {
        assert(all[i as int] == v@[i as int]@);
        r.push(clone_expr(&v[i]));
        i += 1;
    }
    assert(exprs(r@) =~= all.take(v.len() - 1));
    r
}

/// Folds the values that the predecessors of a merge block leave into one conditional.
/// `order` is a reverse postorder of the blocks, `idom` their immediate dominators.
#[verifier::loop_isolation(false)]
pub fn try_diamond_fold(
    merge: usize,
    known: &Vec<(usize, Vec<Expr>)>,
    results: &Vec<BlockResult>,
    blocks: &Vec<Block>,
    idom: &Vec<usize>,
    order: &Vec<usize>,
) -> (r: Option<(Vec<Expr>, usize, Vec<usize>)>)
    ensures
        opt_fold(r) == diamond_fold(
            DiamondV {
                blocks: block_list(blocks@),
                results: result_list(results@),
                merge,
                known: known_outs(known@),
            },
            idom@,
            order@,
        ),
{
    if known.len() < 2 {
        return None;
    }
    let d = Diamond { blocks, results, merge, known };
    if !all_pure(&d) || !adds_one(known) {
        return None;
    }
    let ghost all = known_outs(known@);
    assert(all_leave(all)) by {
        assert forall|i: int| 0 <= i < all.len() implies (#[trigger] all[i]).1.len() > 0 by {}
    }
    let mut i: usize = order.len();
    assert(order@.take(i as int) =~= order@);
    while i > 0
        invariant
            i <= order.len(),
            last_root(d@, idom@, order@.take(i as int)) == last_root(d@, idom@, order@),
        decreases i,
    {
        i -= 1;
        assert(order@.take(i + 1).drop_last() =~= order@.take(i as int));
        assert(order@.take(i + 1).last() == order@[i as int]);
        if let Some((e, vis)) = fold_from(&d, idom, order[i]) {
            let first = &known[0].1;
            assert(all[0].1 == exprs(first@));
            assert(exprs(first@).len() == first@.len());
            let mut folded = front(first);
            let ghost prefix = exprs(folded@);
            folded.push(e);
            assert(exprs(folded@) =~= prefix.push(e@));
            return Some((folded, order[i], vis));
        }
    }
    None
}

} // verus!
