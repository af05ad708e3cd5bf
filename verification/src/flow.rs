//! Operand stacks carried from block to block.
use crate::block::{containing, Cfg, CfgV};
use crate::builder::{built, is_sound, BlockResult, BlockResultV, Builder, FrameV};
use crate::classes::{ClassPool, ClassPoolV, PoolClass, PoolClassV};
use crate::diamonds::{diamond_fold, known_outs, result_list, try_diamond_fold, DiamondV};
use crate::expr::{
    clone_expr, clone_exprs, expr_eq, exprs, exprs_eq, opt_exprs, same_expr, same_exprs, type_of,
    ConstVal, ConstValV, Expr, ExprV,
};
use crate::forward::{Forwards, ForwardsV};
use crate::infer::{join_types, joined};
use crate::sim::{BuildError, Term, TermV};
use crate::stmt::{clone_stmts, stmts, Stmt, StmtV};
use crate::text::{append_decimal, decimal};
use crate::types::{
    erase, java_types, object, object_type, opt_str, JType, JTypeV, MethodDescriptor, TypeRef,
    TypeRefV,
};
use crate::var::{next_id, var_type, with_var, VarTable, VarTableV};
use vstd::prelude::*;

verus! {

// ---------------------------------------------------------------------
// State.

/// What a merge block finds at one depth of its stack: a variable that each predecessor
/// sets, or the value that all of them leave.
#[derive(Debug)]
pub enum MergeSlot {
    Var(u32),
    Pass(Expr),
}

/// Model of [`MergeSlot`].
pub ghost enum MergeSlotV {
    Var(u32),
    Pass(ExprV),
}

impl MergeSlot {
    pub open spec fn view(&self) -> MergeSlotV {
        match self {
            MergeSlot::Var(v) => MergeSlotV::Var(*v),
            MergeSlot::Pass(e) => MergeSlotV::Pass(e@),
        }
    }
}

/// Model of the slots of a merge block.
pub open spec fn slot_list(v: Seq<MergeSlot>) -> Seq<MergeSlotV> {
    Seq::new(v.len(), |i: int| v[i]@)
}

/// Model of the slots of every block.
pub open spec fn opt_slots(v: Seq<Option<Vec<MergeSlot>>>) -> Seq<Option<Seq<MergeSlotV>>> {
    Seq::new(
        v.len(),
        |i: int|
            match v[i] {
                Some(s) => Some(slot_list(s@)),
                None => None,
            },
    )
}

/// Model of optional stacks.
pub open spec fn opt_stacks(v: Seq<Option<Vec<Expr>>>) -> Seq<Option<Seq<ExprV>>> {
    Seq::new(v.len(), |i: int| opt_exprs(v[i]))
}

/// Model of stacks.
pub open spec fn stacks(v: Seq<Vec<Expr>>) -> Seq<Seq<ExprV>> {
    Seq::new(v.len(), |i: int| exprs(v[i]@))
}

/// Model of statement lists.
pub open spec fn stmt_lists(v: Seq<Vec<Stmt>>) -> Seq<Seq<StmtV>> {
    Seq::new(v.len(), |i: int| stmts(v[i]@))
}

/// Model of the regions of every block.
pub open spec fn opt_regions(
    v: Seq<Option<(usize, Vec<usize>)>>,
) -> Seq<Option<(usize, Seq<usize>)>> {
    Seq::new(
        v.len(),
        |i: int|
            match v[i] {
                Some((root, vis)) => Some((root, vis@)),
                None => None,
            },
    )
}

/// Model of optional texts.
pub open spec fn opt_texts(v: Seq<Option<String>>) -> Seq<Option<Seq<char>>> {
    Seq::new(v.len(), |i: int| opt_str(v[i]))
}

/// What is known of each block: what it became, the stacks at its exit and entry,
/// whether it was built, the stack folded for it, its slots, the region folded for it,
/// the stores that it owes to merge blocks, and why it could not be built. Also the
/// variables, and the numbers for the next one.
#[derive(Debug)]
pub struct Flow {
    pub results: Vec<BlockResult>,
    pub outs: Vec<Option<Vec<Expr>>>,
    pub entries: Vec<Vec<Expr>>,
    pub done: Vec<bool>,
    pub folds: Vec<Option<Vec<Expr>>>,
    pub slots: Vec<Option<Vec<MergeSlot>>>,
    pub regions: Vec<Option<(usize, Vec<usize>)>>,
    pub appends: Vec<Vec<Stmt>>,
    pub errors: Vec<Option<String>>,
    pub vt: VarTable,
    pub counter: u16,
    pub next_name: u64,
}

/// Model of [`Flow`].
#[verifier::ext_equal]
pub ghost struct FlowV {
    pub results: Seq<BlockResultV>,
    pub outs: Seq<Option<Seq<ExprV>>>,
    pub entries: Seq<Seq<ExprV>>,
    pub done: Seq<bool>,
    pub folds: Seq<Option<Seq<ExprV>>>,
    pub slots: Seq<Option<Seq<MergeSlotV>>>,
    pub regions: Seq<Option<(usize, Seq<usize>)>>,
    pub appends: Seq<Seq<StmtV>>,
    pub errors: Seq<Option<Seq<char>>>,
    pub vt: VarTableV,
    pub counter: u16,
    pub next_name: u64,
}

impl Flow {
    pub open spec fn view(&self) -> FlowV {
        FlowV {
            results: result_list(self.results@),
            outs: opt_stacks(self.outs@),
            entries: stacks(self.entries@),
            done: self.done@,
            folds: opt_stacks(self.folds@),
            slots: opt_slots(self.slots@),
            regions: opt_regions(self.regions@),
            appends: stmt_lists(self.appends@),
            errors: opt_texts(self.errors@),
            vt: self.vt@,
            counter: self.counter,
            next_name: self.next_name,
        }
    }

    /// There is one entry for each of `n` blocks.
    pub open spec fn covers(&self, n: nat) -> bool {
        &&& self.results.len() == n
        &&& self.outs.len() == n
        &&& self.entries.len() == n
        &&& self.done.len() == n
        &&& self.folds.len() == n
        &&& self.slots.len() == n
        &&& self.regions.len() == n
        &&& self.appends.len() == n
        &&& self.errors.len() == n
    }
}

/// What the stacks are carried through.
pub struct Route<'a> {
    pub pc: &'a PoolClass,
    pub pool: &'a ClassPool,
    pub desc: &'a MethodDescriptor,
    pub is_static: bool,
    pub max_locals: u16,
    pub cfg: &'a Cfg,
    /// Reverse postorder of the blocks that the entry reaches.
    pub reached: &'a Vec<usize>,
    /// The order in which all blocks are built.
    pub order: &'a Vec<usize>,
    /// Immediate dominators.
    pub idom: &'a Vec<usize>,
    pub fwd: &'a Forwards,
}

/// Model of [`Route`].
pub ghost struct RouteV {
    pub pc: PoolClassV,
    pub pool: ClassPoolV,
    pub is_static: bool,
    pub max_locals: u16,
    pub cfg: CfgV,
    pub reached: Seq<usize>,
    pub order: Seq<usize>,
    pub idom: Seq<usize>,
    pub fwd: ForwardsV,
}

impl<'a> Route<'a> {
    pub open spec fn view(&self) -> RouteV {
        RouteV {
            pc: self.pc@,
            pool: self.pool@,
            is_static: self.is_static,
            max_locals: self.max_locals,
            cfg: self.cfg@,
            reached: self.reached@,
            order: self.order@,
            idom: self.idom@,
            fwd: self.fwd@,
        }
    }
}

// ---------------------------------------------------------------------
// Stacks of predecessors.

/// The predecessors that leave a stack, each with it.
pub open spec fn known_of(
    pred: Seq<usize>,
    outs: Seq<Option<Seq<ExprV>>>,
) -> Seq<(usize, Seq<ExprV>)>
    decreases pred.len(),
{
    if pred.len() == 0 {
        seq![]
    } else {
        let front = known_of(pred.drop_last(), outs);
        let p = pred.last();
        if p < outs.len() {
            match outs[p as int] {
                Some(o) => front.push((p, o)),
                None => front,
            }
        } else {
            front
        }
    }
}

/// The predecessors that leave a stack, each with it.
#[verifier::loop_isolation(false)]
fn find_known(pred: &Vec<usize>, outs: &Vec<Option<Vec<Expr>>>) -> (r: Vec<(usize, Vec<Expr>)>)
    ensures
        known_outs(r@) == known_of(pred@, opt_stacks(outs@)),
{
    let ghost all = opt_stacks(outs@);
    let mut r: Vec<(usize, Vec<Expr>)> = Vec::new();
    let mut i: usize = 0;
    assert(known_outs(r@) =~= known_of(pred@.take(0), all));
    while i < pred.len()
        invariant
            i <= pred.len(),
            known_outs(r@) == known_of(pred@.take(i as int), all),
        decreases pred.len() - i,
    {
        let ghost before = known_outs(r@);
        assert(pred@.take(i + 1).drop_last() =~= pred@.take(i as int));
        let p = pred[i];
        if p < outs.len() {
            assert(all[p as int] == opt_exprs(outs@[p as int]));
            if let Some(o) = &outs[p] {
                r.push((p, clone_exprs(o)));
                assert(known_outs(r@) =~= before.push((p, exprs(o@))));
            }
        }
        i += 1;
    }
    assert(pred@.take(i as int) =~= pred@);
    r
}

/// All predecessors leave the same stack.
pub open spec fn all_same(known: Seq<(usize, Seq<ExprV>)>) -> bool {
    forall|i: int| 0 <= i < known.len() ==> same_exprs((#[trigger] known[i]).1, known[0].1)
}

/// Whether all predecessors leave the same stack.
#[verifier::loop_isolation(false)]
fn same_outs(known: &Vec<(usize, Vec<Expr>)>) -> (r: bool)
    ensures
        r == all_same(known_outs(known@)),
{
    let ghost all = known_outs(known@);
    let mut i: usize = 0;
    while i < known.len()
        invariant
            i <= known.len(),
            forall|j: int| 0 <= j < i ==> same_exprs((#[trigger] all[j]).1, all[0].1),
        decreases known.len() - i,
    {
        assert(all[i as int].1 == exprs(known@[i as int].1@));
        assert(all[0].1 == exprs(known@[0].1@));
        if !exprs_eq(&known[i].1, &known[0].1) {
            return false;
        }
        i += 1;
    }
    true
}

/// The least depth among the stacks.
pub open spec fn least_depth(known: Seq<(usize, Seq<ExprV>)>) -> nat
    decreases known.len(),
{
    if known.len() == 0 {
        0
    } else if known.len() == 1 {
        known[0].1.len()
    } else {
        let front = least_depth(known.drop_last());
        if known.last().1.len() < front {
            known.last().1.len()
        } else {
            front
        }
    }
}

/// No stack is less deep.
proof fn lemma_least_depth(known: Seq<(usize, Seq<ExprV>)>)
    ensures
        forall|i: int| 0 <= i < known.len() ==> least_depth(known) <= (#[trigger] known[i]).1.len(),
    decreases known.len(),
{
    if known.len() > 1 {
        lemma_least_depth(known.drop_last());
        assert forall|i: int| 0 <= i < known.len() implies least_depth(known) <= (
        #[trigger] known[i]).1.len() by {
            if i < known.len() - 1 {
                assert(known.drop_last()[i] == known[i]);
            }
        }
    }
}

/// The least depth among the stacks.
#[verifier::loop_isolation(false)]
fn find_depth(known: &Vec<(usize, Vec<Expr>)>) -> (r: usize)
    ensures
        r == least_depth(known_outs(known@)),
{
    let ghost all = known_outs(known@);
    if known.len() == 0 {
        return 0;
    }
    assert(exprs(known@[0].1@).len() == known@[0].1@.len());
    let mut least = known[0].1.len();
    let mut i: usize = 1;
    assert(all.take(1).len() == 1);
    while i < known.len()
        invariant
            1 <= i <= known.len(),
            least == least_depth(all.take(i as int)),
        decreases known.len() - i,
    {
        assert(all.take(i + 1).drop_last() =~= all.take(i as int));
        assert(all.take(i + 1).last() == (known@[i as int].0, exprs(known@[i as int].1@)));
        assert(exprs(known@[i as int].1@).len() == known@[i as int].1@.len());
        if known[i].1.len() < least {
            least = known[i].1.len();
        }
        i += 1;
    }
    assert(all.take(i as int) =~= all);
    least
}

// ---------------------------------------------------------------------
// Types of merge variables.

/// All stacks hold the same value at depth `d`.
pub open spec fn shared_at(known: Seq<(usize, Seq<ExprV>)>, d: int) -> bool {
    forall|i: int| 0 <= i < known.len() ==> same_expr((#[trigger] known[i]).1[d], known[0].1[d])
}

/// The type that a value brings to a merge; `null` brings none.
pub open spec fn side_type(pc: PoolClassV, e: ExprV) -> Option<JTypeV> {
    match e {
        ExprV::Const(ConstValV::Null) => None,
        ExprV::This => Some(JTypeV::Object(pc.internal_name)),
        _ => Some(erase(type_of(e))),
    }
}

/// A value whose type is generic, or `Object`.
pub open spec fn is_open(e: ExprV) -> bool {
    e != ExprV::Const(ConstValV::Null) && !(e is This) && (type_of(e) is G || erase(type_of(e))
        == object_type())
}

/// The types that the values at depth `d` bring.
pub open spec fn side_types(pc: PoolClassV, known: Seq<(usize, Seq<ExprV>)>, d: int) -> Seq<JTypeV>
    decreases known.len(),
{
    if known.len() == 0 {
        seq![]
    } else {
        match side_type(pc, known.last().1[d]) {
            Some(t) => side_types(pc, known.drop_last(), d).push(t),
            None => side_types(pc, known.drop_last(), d),
        }
    }
}

/// A primitive type that holds a value.
pub open spec fn is_primitive(t: JTypeV) -> bool {
    t is Boolean || t is Byte || t is Char || t is Short || t is Int || t is Long || t is Float || t
        is Double
}

/// The join of all types.
pub open spec fn joined_all(types: Seq<JTypeV>) -> JTypeV
    decreases types.len(),
{
    if types.len() <= 1 {
        types[0]
    } else {
        joined(joined_all(types.drop_last()), types.last())
    }
}

/// The type of the variable for depth `d`, and whether it must take any value: primitives
/// are joined, equal types stay, and everything else meets in `Object`.
pub open spec fn merge_type(
    pc: PoolClassV,
    known: Seq<(usize, Seq<ExprV>)>,
    d: int,
) -> (JTypeV, bool) {
    let types = side_types(pc, known, d);
    let open = exists|i: int| 0 <= i < known.len() && is_open((#[trigger] known[i]).1[d]);
    if types.len() == 0 {
        (object_type(), false)
    } else if forall|i: int| 0 <= i < types.len() ==> is_primitive(#[trigger] types[i]) {
        (joined_all(types), false)
    } else if forall|i: int| 0 <= i < types.len() ==> #[trigger] types[i] == types[0] {
        (types[0], open)
    } else {
        (object_type(), true)
    }
}

/// Whether all stacks hold the same value at depth `d`.
#[verifier::loop_isolation(false)]
fn is_shared(known: &Vec<(usize, Vec<Expr>)>, d: usize) -> (r: bool)
    requires
        known.len() > 0,
        forall|i: int| 0 <= i < known.len() ==> d < (#[trigger] known_outs(known@)[i]).1.len(),
    ensures
        r == shared_at(known_outs(known@), d as int),
{
    let ghost all = known_outs(known@);
    let mut i: usize = 0;
    assert(all[0].1 == exprs(known@[0].1@));
    assert(exprs(known@[0].1@)[d as int] == known@[0].1@[d as int]@);
    while i < known.len()
        invariant
            i <= known.len(),
            forall|j: int|
                0 <= j < i ==> same_expr((#[trigger] all[j]).1[d as int], all[0].1[d as int]),
        decreases known.len() - i,
    {
        assert(all[i as int].1 == exprs(known@[i as int].1@));
        assert(exprs(known@[i as int].1@).len() == known@[i as int].1@.len());
        assert(exprs(known@[i as int].1@)[d as int] == known@[i as int].1@[d as int]@);
        if !expr_eq(&known[i].1[d], &known[0].1[d]) {
            assert(!same_expr(all[i as int].1[d as int], all[0].1[d as int]));
            return false;
        }
        i += 1;
    }
    true
}

/// The type that a value brings to a merge, and whether it is generic or `Object`.
fn side(pc: &PoolClass, e: &Expr) -> (r: (Option<JType>, bool))
    ensures
        crate::signatures::opt_java(r.0) == side_type(pc@, e@),
        r.1 == is_open(e@),
{
    match e {
        Expr::Const(ConstVal::Null) => (None, false),
        Expr::This => (Some(JType::Object(pc.internal_name.clone())), false),
        other => {
            let t = other.type_ref();
            let er = t.erased();
            let open = matches!(t, TypeRef::G(_)) || er.is_object("java/lang/Object");
            (Some(er), open)
        },
    }
}

/// Whether a type is a primitive that holds a value.
fn primitive(t: &JType) -> (r: bool)
    ensures
        r == is_primitive(t@),
{
    match t {
        JType::Boolean => true,
        JType::Byte => true,
        JType::Char => true,
        JType::Short => true,
        JType::Int => true,
        JType::Long => true,
        JType::Float => true,
        JType::Double => true,
        _ => false,
    }
}

/// The join of all types.
#[verifier::loop_isolation(false)]
fn join_all(types: &Vec<JType>) -> (r: JType)
    requires
        types.len() > 0,
    ensures
        r@ == joined_all(java_types(types@)),
{
    let ghost all = java_types(types@);
    let mut t = types[0].clone();
    assert(all[0] == types@[0]@);
    assert(all.take(1)[0] == all[0]);
    let mut i: usize = 1;
    while i < types.len()
        invariant
            1 <= i <= types.len(),
            t@ == joined_all(all.take(i as int)),
        decreases types.len() - i,
    {
        assert(all.take(i + 1).drop_last() =~= all.take(i as int));
        assert(all.take(i + 1).last() == types@[i as int]@);
        t = join_types(&t, &types[i]);
        i += 1;
    }
    assert(all.take(i as int) =~= all);
    t
}

/// Whether all types are primitives.
#[verifier::loop_isolation(false)]
fn all_primitive(types: &Vec<JType>) -> (r: bool)
    ensures
        r == (forall|i: int|
            0 <= i < java_types(types@).len() ==> is_primitive(#[trigger] java_types(types@)[i])),
{
    let ghost all = java_types(types@);
    let mut i: usize = 0;
    while i < types.len()
        invariant
            i <= types.len(),
            forall|j: int| 0 <= j < i ==> is_primitive(#[trigger] all[j]),
        decreases types.len() - i,
    {
        assert(all[i as int] == types@[i as int]@);
        if !primitive(&types[i]) {
            return false;
        }
        i += 1;
    }
    true
}

/// Whether all types are the first one.
#[verifier::loop_isolation(false)]
fn all_equal(types: &Vec<JType>) -> (r: bool)
    requires
        types.len() > 0,
    ensures
        r == (forall|i: int|
            0 <= i < java_types(types@).len() ==> #[trigger] java_types(types@)[i] == java_types(
                types@,
            )[0]),
{
    let ghost all = java_types(types@);
    let mut i: usize = 0;
    assert(all[0] == types@[0]@);
    while i < types.len()
        invariant
            i <= types.len(),
            forall|j: int| 0 <= j < i ==> #[trigger] all[j] == all[0],
        decreases types.len() - i,
    {
        assert(all[i as int] == types@[i as int]@);
        if !types[i].same(&types[0]) {
            return false;
        }
        i += 1;
    }
    true
}

/// The type of the variable for depth `d`, and whether it must take any value.
#[verifier::loop_isolation(false)]
#[verifier::spinoff_prover]
fn find_merge_type(pc: &PoolClass, known: &Vec<(usize, Vec<Expr>)>, d: usize) -> (r: (JType, bool))
    requires
        forall|i: int| 0 <= i < known.len() ==> d < (#[trigger] known_outs(known@)[i]).1.len(),
    ensures
        (r.0@, r.1) == merge_type(pc@, known_outs(known@), d as int),
{
    let ghost all = known_outs(known@);
    let mut types: Vec<JType> = Vec::new();
    let mut open = false;
    let mut i: usize = 0;
    assert(java_types(types@) =~= side_types(pc@, all.take(0), d as int));
    while i < known.len()
        invariant
            i <= known.len(),
            java_types(types@) == side_types(pc@, all.take(i as int), d as int),
            open == exists|j: int| 0 <= j < i && is_open((#[trigger] all[j]).1[d as int]),
        decreases known.len() - i,
    {
        let ghost before = java_types(types@);
        assert(all.take(i + 1).drop_last() =~= all.take(i as int));
        assert(all.take(i + 1).last() == all[i as int]);
        assert(all[i as int].1 == exprs(known@[i as int].1@));
        assert(exprs(known@[i as int].1@).len() == known@[i as int].1@.len());
        assert(exprs(known@[i as int].1@)[d as int] == known@[i as int].1@[d as int]@);
        let (t, o) = side(pc, &known[i].1[d]);
        if o {
            assert(is_open(all[i as int].1[d as int]));
            open = true;
        }
        if let Some(t) = t {
            types.push(t);
            assert(java_types(types@) =~= before.push(t@));
        }
        i += 1;
    }
    assert(all.take(i as int) =~= all);
    assert(java_types(types@).len() == types@.len());
    if types.len() == 0 {
        return (object("java/lang/Object"), false);
    }
    if all_primitive(&types) {
        return (join_all(&types), false);
    }
    if all_equal(&types) {
        assert(java_types(types@)[0] == types@[0]@);
        return (types[0].clone(), open);
    }
    (object("java/lang/Object"), true)
}

// ---------------------------------------------------------------------
// Merge variables.

/// The slot of the next merge variable.
pub open spec fn merge_slot_no(max_locals: u16, counter: u16) -> u16 {
    if max_locals + 100 + counter <= u16::MAX {
        (max_locals + 100 + counter) as u16
    } else {
        u16::MAX
    }
}

/// The state with one more merge variable, which is its latest.
pub open spec fn with_merge_var(st: FlowV, max_locals: u16, ty: JTypeV, open: bool) -> FlowV {
    let v = next_id(st.vt);
    let vt = with_var(
        st.vt,
        merge_slot_no(max_locals, st.counter),
        "stack"@ + decimal(st.next_name as nat),
        TypeRefV::J(ty),
    );
    FlowV {
        vt: VarTableV {
            stack_vars: st.vt.stack_vars.push(v),
            wide_stack_vars: if open {
                st.vt.wide_stack_vars.insert(v)
            } else {
                st.vt.wide_stack_vars
            },
            ..vt
        },
        counter: if st.counter < u16::MAX {
            (st.counter + 1) as u16
        } else {
            st.counter
        },
        next_name: st.next_name.wrapping_add(1),
        ..st
    }
}

/// Slots for the first `d` depths, and the state after their variables are made.
pub open spec fn new_slots(
    pc: PoolClassV,
    max_locals: u16,
    known: Seq<(usize, Seq<ExprV>)>,
    d: nat,
    st: FlowV,
) -> (Seq<MergeSlotV>, FlowV)
    decreases d,
{
    if d == 0 {
        (seq![], st)
    } else {
        let (front, st1) = new_slots(pc, max_locals, known, (d - 1) as nat, st);
        if shared_at(known, d - 1) {
            (front.push(MergeSlotV::Pass(known[0].1[d - 1])), st1)
        } else {
            let (ty, open) = merge_type(pc, known, d - 1);
            (
                front.push(MergeSlotV::Var(next_id(st1.vt))),
                with_merge_var(st1, max_locals, ty, open),
            )
        }
    }
}

/// Makes a merge variable.
fn add_merge_var(st: &mut Flow, max_locals: u16, ty: JType, open: bool) -> (r: u32)
    ensures
        r == next_id(old(st)@.vt),
        final(st)@ == with_merge_var(old(st)@, max_locals, ty@, open),
        forall|n: nat| old(st).covers(n) ==> final(st).covers(n),
{
    broadcast use vstd::std_specs::hash::group_hash_axioms;

    let slot = if max_locals as u32 + 100 + st.counter as u32 <= 65535 {
        max_locals + 100 + st.counter
    } else {
        65535
    };
    let mut name: String = "stack".to_owned();
    append_decimal(&mut name, st.next_name as u128);
    let v = st.vt.add_stack_var(slot, name, TypeRef::J(ty));
    if open {
        st.vt.wide_stack_vars.insert(v);
    }
    if st.counter < 65535 {
        st.counter = st.counter + 1;
    }
    st.next_name = st.next_name.wrapping_add(1);
    v
}

/// Makes slots for the first `d` depths.
fn make_slots(
    pc: &PoolClass,
    max_locals: u16,
    known: &Vec<(usize, Vec<Expr>)>,
    d: usize,
    st: &mut Flow,
) -> (r: Vec<MergeSlot>)
    requires
        known.len() > 0,
        forall|i: int| 0 <= i < known.len() ==> d <= (#[trigger] known_outs(known@)[i]).1.len(),
    ensures
        (slot_list(r@), final(st)@) == new_slots(
            pc@,
            max_locals,
            known_outs(known@),
            d as nat,
            old(st)@,
        ),
        forall|n: nat| old(st).covers(n) ==> final(st).covers(n),
    decreases d,
{
    if d == 0 {
        let none: Vec<MergeSlot> = Vec::new();
        assert(slot_list(none@) =~= seq![]);
        return none;
    }
    let mut r = make_slots(pc, max_locals, known, d - 1, st);
    let ghost front = slot_list(r@);
    if is_shared(known, d - 1) {
        let o = &known[0].1;
        assert(known_outs(known@)[0].1 == exprs(o@));
        assert(exprs(o@).len() == o@.len());
        assert(exprs(o@)[d - 1] == o@[d - 1]@);
        r.push(MergeSlot::Pass(clone_expr(&o[d - 1])));
        assert(slot_list(r@) =~= front.push(MergeSlotV::Pass(o@[d - 1]@)));
    } else {
        let (ty, open) = find_merge_type(pc, known, d - 1);
        let v = add_merge_var(st, max_locals, ty, open);
        r.push(MergeSlot::Var(v));
        assert(slot_list(r@) =~= front.push(MergeSlotV::Var(v)));
    }
    r
}

/// The values that slots stand for.
pub open spec fn slot_values(v: Seq<MergeSlotV>, vt: VarTableV) -> Seq<ExprV> {
    Seq::new(
        v.len(),
        |i: int|
            match v[i] {
                MergeSlotV::Var(x) => ExprV::Local { var: x, ty: var_type(vt, x) },
                MergeSlotV::Pass(e) => e,
            },
    )
}

/// The values that slots stand for.
#[verifier::loop_isolation(false)]
fn values_of(v: &Vec<MergeSlot>, vt: &VarTable) -> (r: Vec<Expr>)
    ensures
        exprs(r@) == slot_values(slot_list(v@), vt@),
{
    let ghost goal = slot_values(slot_list(v@), vt@);
    let mut r: Vec<Expr> = Vec::new();
    let mut i: usize = 0;
    while i < v.len()
        invariant
            i <= v.len(),
            r.len() == i,
            forall|j: int| 0 <= j < i ==> (#[trigger] r@[j])@ == goal[j],
        decreases v.len() - i,
    {
        let e = match &v[i] {
            MergeSlot::Var(x) => Expr::Local { var: *x, ty: vt.var_type(*x) },
            MergeSlot::Pass(e) => clone_expr(e),
        };
        r.push(e);
        i += 1;
    }
    assert(exprs(r@) =~= goal);
    r
}

/// The stores of stack `o` to the variables among slots.
pub open spec fn slot_stores(v: Seq<MergeSlotV>, o: Seq<ExprV>) -> Seq<StmtV>
    decreases v.len(),
{
    if v.len() == 0 {
        seq![]
    } else {
        let front = slot_stores(v.drop_last(), o);
        match v.last() {
            MergeSlotV::Var(x) => if v.len() - 1 < o.len() {
                front.push(
                    StmtV::LocalDef {
                        var: x,
                        init: Some(o[v.len() - 1]),
                        is_final: false,
                        force_type: true,
                    },
                )
            } else {
                front
            },
            MergeSlotV::Pass(_) => front,
        }
    }
}

/// Adds the stores of stack `o` to the variables among slots to `out`.
#[verifier::loop_isolation(false)]
fn push_stores(v: &Vec<MergeSlot>, o: &Vec<Expr>, out: &mut Vec<Stmt>)
    ensures
        stmts(final(out)@) == stmts(old(out)@) + slot_stores(slot_list(v@), exprs(o@)),
{
    let ghost all = slot_list(v@);
    let ghost xs = exprs(o@);
    assert(xs.len() == o@.len());
    let mut i: usize = 0;
    assert(stmts(out@) =~= stmts(old(out)@) + slot_stores(all.take(0), xs));
    while i < v.len()
        invariant
            i <= v.len(),
            stmts(out@) == stmts(old(out)@) + slot_stores(all.take(i as int), xs),
        decreases v.len() - i,
    {
        let ghost before = stmts(out@);
        assert(all.take(i + 1).drop_last() =~= all.take(i as int));
        assert(all.take(i + 1).last() == v@[i as int]@);
        if let MergeSlot::Var(x) = &v[i] {
            if i < o.len() {
                assert(xs[i as int] == o@[i as int]@);
                let s = Stmt::LocalDef {
                    var: *x,
                    init: Some(clone_expr(&o[i])),
                    is_final: false,
                    force_type: true,
                };
                out.push(s);
                assert(stmts(out@) =~= before.push(s@));
            }
        }
        i += 1;
        assert(stmts(out@) =~= stmts(old(out)@) + slot_stores(all.take(i as int), xs));
    }
    assert(all.take(i as int) =~= all);
}

/// The stores that blocks owe, with those of the predecessors to slots.
pub open spec fn with_stores(
    appends: Seq<Seq<StmtV>>,
    known: Seq<(usize, Seq<ExprV>)>,
    v: Seq<MergeSlotV>,
) -> Seq<Seq<StmtV>>
    decreases known.len(),
{
    if known.len() == 0 {
        appends
    } else {
        let front = with_stores(appends, known.drop_last(), v);
        let (p, o) = known.last();
        if p < front.len() {
            front.update(p as int, front[p as int] + slot_stores(v, o))
        } else {
            front
        }
    }
}

/// Adds the stores of the predecessors to slots to what the blocks owe.
#[verifier::loop_isolation(false)]
fn owe_stores(appends: &mut Vec<Vec<Stmt>>, known: &Vec<(usize, Vec<Expr>)>, v: &Vec<MergeSlot>)
    ensures
        stmt_lists(final(appends)@) == with_stores(
            stmt_lists(old(appends)@),
            known_outs(known@),
            slot_list(v@),
        ),
        final(appends).len() == old(appends).len(),
{
    let ghost start = stmt_lists(appends@);
    let ghost all = known_outs(known@);
    let ghost vs = slot_list(v@);
    let mut i: usize = 0;
    assert(all.take(0) =~= seq![]);
    while i < known.len()
        invariant
            i <= known.len(),
            appends.len() == old(appends).len(),
            stmt_lists(appends@) == with_stores(start, all.take(i as int), vs),
        decreases known.len() - i,
    {
        let ghost before = stmt_lists(appends@);
        assert(all.take(i + 1).drop_last() =~= all.take(i as int));
        assert(all.take(i + 1).last() == (known@[i as int].0, exprs(known@[i as int].1@)));
        let p = known[i].0;
        if p < appends.len() {
            assert(before[p as int] == stmts(appends@[p as int]@));
            push_stores(v, &known[i].1, &mut appends[p]);
            assert(stmt_lists(appends@) =~= before.update(
                p as int,
                before[p as int] + slot_stores(vs, all[i as int].1),
            ));
        }
        i += 1;
    }
    assert(all.take(i as int) =~= all);
}

// ---------------------------------------------------------------------
// The stack at the entry of a block.

/// Block `b` is where a handler begins.
pub open spec fn is_head(c: CfgV, b: usize) -> bool {
    exists|i: int|
        0 <= i < c.exc_ranges.len() && containing(c, (#[trigger] c.exc_ranges[i]).handler)
            == Some(b as nat)
}

/// Whether block `b` is where a handler begins.
#[verifier::loop_isolation(false)]
fn heads_handler(c: &Cfg, b: usize) -> (r: bool)
    ensures
        r == is_head(c@, b),
{
    let mut i: usize = 0;
    while i < c.exc_ranges.len()
        invariant
            i <= c.exc_ranges.len(),
            forall|j: int|
                0 <= j < i
                    ==> containing(c@, (#[trigger] c@.exc_ranges[j]).handler) != Some(
                    b as nat,
                ),
        decreases c.exc_ranges.len() - i,
    {
        assert(c@.exc_ranges[i as int] == c.exc_ranges@[i as int]@);
        if let Some(h) = c.block_at(c.exc_ranges[i].handler) {
            if h == b {
                return true;
            }
        }
        i += 1;
    }
    false
}

/// The stack of a merge block whose predecessors leave different ones that do not fold:
/// variables, and the state once they are made and set.
pub open spec fn split_stack(rt: RouteV, st: FlowV, b: usize, known: Seq<(usize, Seq<ExprV>)>) -> (
    Seq<ExprV>,
    FlowV,
) {
    let (vs, st1) = new_slots(rt.pc, rt.max_locals, known, least_depth(known), st);
    let st2 = FlowV {
        appends: with_stores(st1.appends.update(b as int, seq![]), known, vs),
        slots: st1.slots.update(b as int, Some(vs)),
        ..st1
    };
    (slot_values(vs, st2.vt), st2)
}

/// The stack of a block that is neither entry nor handler, when nothing was decided for
/// it yet: that of its predecessors where they agree, their values folded into one where
/// that can be, else variables.
pub open spec fn merged_stack(rt: RouteV, st: FlowV, b: usize) -> (Seq<ExprV>, FlowV) {
    let known = known_of(rt.cfg.blocks[b as int].pred, st.outs);
    if known.len() == 0 {
        (seq![], st)
    } else if known.len() == 1 || all_same(known) {
        (known[0].1, st)
    } else {
        let d = DiamondV { blocks: rt.cfg.blocks, results: st.results, merge: b, known };
        match diamond_fold(d, rt.idom, rt.reached) {
            Some((stack, root, vis)) => (
                stack,
                FlowV {
                    folds: st.folds.update(b as int, Some(stack)),
                    regions: st.regions.update(b as int, Some((root, vis))),
                    ..st
                },
            ),
            None => split_stack(rt, st, b, known),
        }
    }
}

/// The stack at the entry of block `b`, and the state once it is decided.
pub open spec fn entry_stack(rt: RouteV, st: FlowV, b: usize) -> (Seq<ExprV>, FlowV) {
    if b == rt.cfg.entry {
        (seq![], st)
    } else if is_head(rt.cfg, b) {
        (seq![ExprV::Const(ConstValV::Null)], st)
    } else {
        match st.folds[b as int] {
            Some(stack) => (stack, st),
            None => match st.slots[b as int] {
                Some(vs) => (slot_values(vs, st.vt), st),
                None => merged_stack(rt, st, b),
            },
        }
    }
}

/// The stack of a merge block whose predecessors leave different ones that do not fold.
#[verifier::spinoff_prover]
fn make_split(
    rt: &Route,
    st: &mut Flow,
    b: usize,
    known: &Vec<(usize, Vec<Expr>)>,
) -> (r: Vec<Expr>)
    requires
        known.len() > 0,
        old(st).covers(rt.cfg.blocks.len() as nat),
        b < rt.cfg.blocks.len(),
    ensures
        (exprs(r@), final(st)@) == split_stack(rt@, old(st)@, b, known_outs(known@)),
        final(st).covers(rt.cfg.blocks.len() as nat),
{
    proof {
        lemma_least_depth(known_outs(known@));
    }
    let d = find_depth(known);
    let vs = make_slots(rt.pc, rt.max_locals, known, d, st);
    let ghost st1 = st@;
    st.appends[b] = Vec::new();
    assert(stmts(st.appends@[b as int]@) =~= seq![]);
    assert(stmt_lists(st.appends@) =~= st1.appends.update(b as int, seq![]));
    owe_stores(&mut st.appends, known, &vs);
    let r = values_of(&vs, &st.vt);
    let ghost made = slot_list(vs@);
    st.slots[b] = Some(vs);
    assert(opt_slots(st.slots@) =~= st1.slots.update(b as int, Some(made)));
    r
}

/// The stack of a block when nothing was decided for it yet.
#[verifier::spinoff_prover]
fn merge_stack(rt: &Route, st: &mut Flow, b: usize) -> (r: Vec<Expr>)
    requires
        old(st).covers(rt.cfg.blocks.len() as nat),
        b < rt.cfg.blocks.len(),
    ensures
        (exprs(r@), final(st)@) == merged_stack(rt@, old(st)@, b),
        final(st).covers(rt.cfg.blocks.len() as nat),
{
    assert(rt@.cfg.blocks[b as int] == rt.cfg.blocks@[b as int]@);
    let known = find_known(&rt.cfg.blocks[b].pred, &st.outs);
    let ghost all = known_outs(known@);
    assert(all.len() == known@.len());
    if known.len() == 0 {
        let none: Vec<Expr> = Vec::new();
        assert(exprs(none@) =~= seq![]);
        return none;
    }
    assert(all[0].1 == exprs(known@[0].1@));
    if known.len() == 1 || same_outs(&known) {
        return clone_exprs(&known[0].1);
    }
    match try_diamond_fold(b, &known, &st.results, &rt.cfg.blocks, rt.idom, rt.reached) {
        Some((stack, root, vis)) => {
            let ghost start = st@;
            let copy = clone_exprs(&stack);
            st.folds[b] = Some(copy);
            assert(opt_stacks(st.folds@) =~= start.folds.update(b as int, Some(exprs(stack@))));
            st.regions[b] = Some((root, vis));
            assert(opt_regions(st.regions@) =~= start.regions.update(
                b as int,
                Some((root, vis@)),
            ));
            stack
        },
        None => make_split(rt, st, b, &known),
    }
}

/// The stack at the entry of block `b`.
#[verifier::spinoff_prover]
fn find_entry(rt: &Route, st: &mut Flow, b: usize) -> (r: Vec<Expr>)
    requires
        old(st).covers(rt.cfg.blocks.len() as nat),
        b < rt.cfg.blocks.len(),
    ensures
        (exprs(r@), final(st)@) == entry_stack(rt@, old(st)@, b),
        final(st).covers(rt.cfg.blocks.len() as nat),
{
    if b == rt.cfg.entry {
        let none: Vec<Expr> = Vec::new();
        assert(exprs(none@) =~= seq![]);
        return none;
    }
    if heads_handler(rt.cfg, b) {
        let mut v: Vec<Expr> = Vec::new();
        v.push(Expr::Const(ConstVal::Null));
        assert(exprs(v@) =~= seq![ExprV::Const(ConstValV::Null)]);
        return v;
    }
    assert(st@.folds[b as int] == opt_exprs(st.folds@[b as int]));
    if let Some(stack) = &st.folds[b] {
        return clone_exprs(stack);
    }
    if let Some(vs) = &st.slots[b] {
        assert(st@.slots[b as int] == Some(slot_list(vs@)));
        return values_of(vs, &st.vt);
    }
    assert(st@.slots[b as int] is None);
    merge_stack(rt, st, b)
}

// ---------------------------------------------------------------------
// Rounds.

/// What the blocks are built against.
pub open spec fn frame_of(rt: RouteV, vt: VarTableV) -> FrameV {
    FrameV { pc: rt.pc, pool: rt.pool, vt, is_static: rt.is_static, fwd: rt.fwd }
}

/// What stands for a block that cannot be built.
pub open spec fn failed_block(text: Seq<char>) -> BlockResultV {
    BlockResultV {
        stmts: seq![StmtV::Comment("$JCDC-BLOCK-ERROR: "@ + text)],
        out_stack: seq![],
        term: TermV::Return(None),
    }
}

/// The stack that a block leaves; none where control does not go on.
pub open spec fn left_stack(r: BlockResultV) -> Option<Seq<ExprV>> {
    if r.term is Return || r.term is Throw {
        None
    } else {
        Some(r.out_stack)
    }
}

/// The state once block `b` became `r`.
pub open spec fn with_result(st: FlowV, b: usize, r: Result<BlockResultV, Seq<char>>) -> FlowV {
    match r {
        Ok(x) => FlowV {
            results: st.results.update(b as int, x),
            outs: st.outs.update(b as int, left_stack(x)),
            done: st.done.update(b as int, true),
            errors: st.errors.update(b as int, None),
            ..st
        },
        Err(text) => FlowV {
            results: st.results.update(b as int, failed_block(text)),
            outs: st.outs.update(b as int, Some(seq![])),
            done: st.done.update(b as int, true),
            errors: st.errors.update(b as int, Some(text)),
            ..st
        },
    }
}

/// The state once block `b` is looked at, and whether it was built: a block is built
/// again only when the stack at its entry changed.
pub open spec fn visited(rt: RouteV, st: FlowV, b: usize) -> (FlowV, bool) {
    if b >= rt.cfg.blocks.len() {
        (st, false)
    } else {
        let (stack, st1) = entry_stack(rt, st, b);
        let due = !st1.done[b as int] || !same_exprs(st1.entries[b as int], stack);
        let st2 = FlowV { entries: st1.entries.update(b as int, stack), ..st1 };
        if due {
            (
                with_result(
                    st2,
                    b,
                    built(frame_of(rt, st2.vt), rt.cfg.blocks[b as int].ins, stack),
                ),
                true,
            )
        } else {
            (st2, false)
        }
    }
}

/// The state once the first `k` blocks in order are looked at, and whether one of them
/// was built.
pub open spec fn round(rt: RouteV, st: FlowV, k: nat) -> (FlowV, bool)
    decreases k,
{
    if k == 0 {
        (st, false)
    } else {
        let (st1, changed) = round(rt, st, (k - 1) as nat);
        let (st2, now) = visited(rt, st1, rt.order[k - 1]);
        (st2, changed || now)
    }
}

/// The state after rounds until nothing changes, at most `n`.
pub open spec fn rounds(rt: RouteV, st: FlowV, n: nat) -> FlowV
    decreases n,
{
    if n == 0 {
        st
    } else {
        let (st1, changed) = round(rt, st, rt.order.len());
        if changed {
            rounds(rt, st1, (n - 1) as nat)
        } else {
            st1
        }
    }
}

/// A block with the stores that it owes.
pub open spec fn with_owed(r: BlockResultV, owed: Seq<StmtV>) -> BlockResultV {
    BlockResultV { stmts: r.stmts + owed, ..r }
}

/// The state before the first round, for `n` blocks.
pub open spec fn fresh_flow(n: nat, vt: VarTableV, next_name: u64) -> FlowV {
    FlowV {
        results: Seq::new(
            n,
            |i: int|
                BlockResultV { stmts: seq![], out_stack: seq![], term: TermV::Return(None) },
        ),
        outs: Seq::new(n, |i: int| None),
        entries: Seq::new(n, |i: int| seq![]),
        done: Seq::new(n, |i: int| false),
        folds: Seq::new(n, |i: int| None),
        slots: Seq::new(n, |i: int| None),
        regions: Seq::new(n, |i: int| None),
        appends: Seq::new(n, |i: int| seq![]),
        errors: Seq::new(n, |i: int| None),
        vt,
        counter: 0,
        next_name,
    }
}

/// The blocks of a method once stacks are carried through it: a fixed point within the
/// first 32 rounds, then the stores that blocks owe.
pub open spec fn carried(rt: RouteV, vt: VarTableV, next_name: u64) -> FlowV {
    let st = rounds(rt, fresh_flow(rt.cfg.blocks.len(), vt, next_name), 32);
    FlowV {
        results: Seq::new(
            st.results.len(),
            |i: int| with_owed(st.results[i], st.appends[i]),
        ),
        ..st
    }
}

/// A copy of cancelling stores and loads.
fn clone_forwards(f: &Forwards) -> (r: Forwards)
    ensures
        r@ == f@,
{
    let mut loads: Vec<(u16, u16)> = Vec::new();
    let mut i: usize = 0;
    while i < f.loads.len()
        invariant
            i <= f.loads.len(),
            loads@ == f.loads@.take(i as int),
        decreases f.loads.len() - i,
    {
        loads.push(f.loads[i]);
        i += 1;
        assert(loads@ =~= f.loads@.take(i as int));
    }
    assert(f.loads@.take(i as int) =~= f.loads@);
    Forwards { stores: crate::block::clone_pcs(&f.stores), loads }
}

/// What stands for a block that cannot be built.
fn make_failed(text: &str) -> (r: BlockResult)
    ensures
        r@ == failed_block(text@),
{
    let mut s: String = "$JCDC-BLOCK-ERROR: ".to_owned();
    s.append(text);
    let mut v: Vec<Stmt> = Vec::new();
    v.push(Stmt::Comment(s));
    assert(stmts(v@) =~= seq![StmtV::Comment("$JCDC-BLOCK-ERROR: "@ + text@)]);
    let none: Vec<Expr> = Vec::new();
    assert(exprs(none@) =~= seq![]);
    BlockResult { stmts: v, out_stack: none, term: Term::Return(None) }
}

/// The stack that a block leaves.
fn find_left(r: &BlockResult) -> (o: Option<Vec<Expr>>)
    ensures
        opt_exprs(o) == left_stack(r@),
{
    match r.term {
        Term::Return(_) => None,
        Term::Throw(_) => None,
        _ => {
            let v = clone_exprs(&r.out_stack);
            assert(opt_exprs(Some(v)) == Some(exprs(v@)));
            Some(v)
        },
    }
}

/// All instructions of the graph can be followed.
pub open spec fn all_sound(c: CfgV) -> bool {
    forall|b: int, i: int|
        0 <= b < c.blocks.len() && 0 <= i < c.blocks[b].ins.len() ==> is_sound(
            #[trigger] c.blocks[b].ins[i],
        )
}

/// Builds block `b` and keeps what it became.
#[verifier::spinoff_prover]
fn build_one(rt: &Route, st: &mut Flow, b: usize, stack: Vec<Expr>)
    requires
        old(st).covers(rt.cfg.blocks.len() as nat),
        b < rt.cfg.blocks.len(),
        all_sound(rt.cfg@),
    ensures
        final(st)@ == with_result(
            old(st)@,
            b,
            built(frame_of(rt@, old(st)@.vt), rt@.cfg.blocks[b as int].ins, exprs(stack@)),
        ),
        final(st).covers(rt.cfg.blocks.len() as nat),
{
    let ghost start = st@;
    assert(rt@.cfg.blocks[b as int] == rt.cfg.blocks@[b as int]@);
    let ins = &rt.cfg.blocks[b].ins;
    assert forall|i: int| 0 <= i < ins.len() implies is_sound(#[trigger] ins@[i]@) by {
        assert(rt.cfg@.blocks[b as int].ins[i] == ins@[i]@);
    }
    let mut builder = Builder::new(rt.pc, rt.pool, &st.vt, rt.desc, rt.is_static).with_fwd(
        clone_forwards(rt.fwd),
    );
    let ghost fr = builder.frame();
    assert(fr == frame_of(rt@, start.vt));
    assert(builder.declared@ =~= seq![]);
    let built_block = builder.build_block(ins, stack);
    st.done[b] = true;
    match built_block {
        Ok(r) => {
            let left = find_left(&r);
            st.outs[b] = left;
            assert(opt_stacks(st.outs@) =~= start.outs.update(b as int, left_stack(r@)));
            st.results[b] = r;
            assert(result_list(st.results@) =~= start.results.update(b as int, r@));
            st.errors[b] = None;
            assert(opt_texts(st.errors@) =~= start.errors.update(b as int, None));
        },
        Err(BuildError(text)) => {
            let failed = make_failed(text.as_str());
            let none: Vec<Expr> = Vec::new();
            assert(exprs(none@) =~= seq![]);
            assert(opt_exprs(Some(none)) == Some(exprs(none@)));
            st.outs[b] = Some(none);
            assert(opt_stacks(st.outs@) =~= start.outs.update(b as int, Some(seq![])));
            st.results[b] = failed;
            assert(result_list(st.results@) =~= start.results.update(
                b as int,
                failed_block(text@),
            ));
            st.errors[b] = Some(text);
            assert(opt_texts(st.errors@) =~= start.errors.update(b as int, Some(text@)));
        },
    }
}

/// Looks at block `b`; whether it was built.
#[verifier::spinoff_prover]
fn visit(rt: &Route, st: &mut Flow, b: usize) -> (r: bool)
    requires
        old(st).covers(rt.cfg.blocks.len() as nat),
        all_sound(rt.cfg@),
    ensures
        (final(st)@, r) == visited(rt@, old(st)@, b),
        final(st).covers(rt.cfg.blocks.len() as nat),
{
    if b >= rt.cfg.blocks.len() {
        return false;
    }
    let stack = find_entry(rt, st, b);
    let ghost st1 = st@;
    assert(st1.entries[b as int] == exprs(st.entries@[b as int]@));
    let due = !st.done[b] || !exprs_eq(&st.entries[b], &stack);
    let copy = clone_exprs(&stack);
    st.entries[b] = copy;
    assert(stacks(st.entries@) =~= st1.entries.update(b as int, exprs(stack@)));
    if due {
        build_one(rt, st, b, stack);
    }
    due
}

/// Looks at all blocks in order; whether one was built.
#[verifier::loop_isolation(false)]
fn run_round(rt: &Route, st: &mut Flow) -> (r: bool)
    requires
        old(st).covers(rt.cfg.blocks.len() as nat),
        all_sound(rt.cfg@),
    ensures
        (final(st)@, r) == round(rt@, old(st)@, rt@.order.len()),
        final(st).covers(rt.cfg.blocks.len() as nat),
{
    let mut changed = false;
    let mut k: usize = 0;
    while k < rt.order.len()
        invariant
            k <= rt.order.len(),
            (st@, changed) == round(rt@, old(st)@, k as nat),
            st.covers(rt.cfg.blocks.len() as nat),
        decreases rt.order.len() - k,
    {
        let now = visit(rt, st, rt.order[k]);
        changed = changed || now;
        k += 1;
    }
    changed
}

/// Runs rounds until nothing changes, at most `n`.
fn run_rounds(rt: &Route, st: &mut Flow, n: u32)
    requires
        old(st).covers(rt.cfg.blocks.len() as nat),
        all_sound(rt.cfg@),
    ensures
        final(st)@ == rounds(rt@, old(st)@, n as nat),
        final(st).covers(rt.cfg.blocks.len() as nat),
    decreases n,
{
    if n == 0 {
        return ;
    }
    let changed = run_round(rt, st);
    if changed {
        run_rounds(rt, st, n - 1);
    }
}

/// The state before the first round.
#[verifier::loop_isolation(false)]
fn make_flow(n: usize, vt: VarTable, next_name: u64) -> (r: Flow)
    ensures
        r@ == fresh_flow(n as nat, vt@, next_name),
        r.covers(n as nat),
{
    let mut f = Flow {
        results: Vec::new(),
        outs: Vec::new(),
        entries: Vec::new(),
        done: Vec::new(),
        folds: Vec::new(),
        slots: Vec::new(),
        regions: Vec::new(),
        appends: Vec::new(),
        errors: Vec::new(),
        vt,
        counter: 0,
        next_name,
    };
    let mut i: usize = 0;
    while i < n
        invariant
            i <= n,
            f.covers(i as nat),
            f.vt == vt,
            f.counter == 0,
            f.next_name == next_name,
            forall|j: int|
                0 <= j < i ==> (#[trigger] f.results@[j])@ == (BlockResultV {
                    stmts: seq![],
                    out_stack: seq![],
                    term: TermV::Return(None),
                }),
            forall|j: int| 0 <= j < i ==> #[trigger] f.outs@[j] is None,
            forall|j: int| 0 <= j < i ==> (#[trigger] f.entries@[j])@.len() == 0,
            forall|j: int| 0 <= j < i ==> !#[trigger] f.done@[j],
            forall|j: int| 0 <= j < i ==> #[trigger] f.folds@[j] is None,
            forall|j: int| 0 <= j < i ==> #[trigger] f.slots@[j] is None,
            forall|j: int| 0 <= j < i ==> #[trigger] f.regions@[j] is None,
            forall|j: int| 0 <= j < i ==> (#[trigger] f.appends@[j])@.len() == 0,
            forall|j: int| 0 <= j < i ==> #[trigger] f.errors@[j] is None,
        decreases n - i,
    {
        let empty = BlockResult {
            stmts: Vec::new(),
            out_stack: Vec::new(),
            term: Term::Return(None),
        };
        assert(stmts(empty.stmts@) =~= seq![]);
        assert(exprs(empty.out_stack@) =~= seq![]);
        f.results.push(empty);
        f.outs.push(None);
        f.entries.push(Vec::new());
        f.done.push(false);
        f.folds.push(None);
        f.slots.push(None);
        f.regions.push(None);
        f.appends.push(Vec::new());
        f.errors.push(None);
        i += 1;
    }
    let ghost goal = fresh_flow(n as nat, vt@, next_name);
    assert(f@.results =~= goal.results);
    assert(f@.outs =~= goal.outs);
    assert forall|j: int| 0 <= j < n implies f@.entries[j] == goal.entries[j] by {
        assert(exprs(f.entries@[j]@) =~= seq![]);
    }
    assert(f@.entries =~= goal.entries);
    assert(f@.done =~= goal.done);
    assert(f@.folds =~= goal.folds);
    assert(f@.slots =~= goal.slots);
    assert(f@.regions =~= goal.regions);
    assert forall|j: int| 0 <= j < n implies f@.appends[j] == goal.appends[j] by {
        assert(stmts(f.appends@[j]@) =~= seq![]);
    }
    assert(f@.appends =~= goal.appends);
    assert(f@.errors =~= goal.errors);
    f
}

/// Adds the stores that blocks owe to them.
#[verifier::loop_isolation(false)]
fn pay_stores(st: &mut Flow, n: usize)
    requires
        old(st).covers(n as nat),
    ensures
        final(st)@ == (FlowV {
            results: Seq::new(
                old(st)@.results.len(),
                |i: int| with_owed(old(st)@.results[i], old(st)@.appends[i]),
            ),
            ..old(st)@
        }),
        final(st).covers(n as nat),
{
    let ghost start = st@;
    let mut i: usize = 0;
    while i < n
        invariant
            i <= n,
            st.covers(n as nat),
            st@ == (FlowV { results: st@.results, ..start }),
            forall|j: int|
                0 <= j < i ==> (#[trigger] st.results@[j])@ == with_owed(
                    start.results[j],
                    start.appends[j],
                ),
            forall|j: int| i <= j < n ==> (#[trigger] st.results@[j])@ == start.results[j],
        decreases n - i,
    {
        assert(start.appends[i as int] == stmts(st.appends@[i as int]@));
        let mut owed = clone_stmts(&st.appends[i]);
        let ghost xs = stmts(owed@);
        let ghost before = stmts(st.results@[i as int].stmts@);
        st.results[i].stmts.append(&mut owed);
        assert(stmts(st.results@[i as int].stmts@) =~= before + xs);
        i += 1;
    }
    assert(result_list(st.results@) =~= Seq::new(
        start.results.len(),
        |i: int| with_owed(start.results[i], start.appends[i]),
    ));
}

/// Carries operand stacks through a method and builds its blocks. Where predecessors
/// leave different stacks, their values are folded into a conditional, or a variable is
/// made that each of them sets. `next_name` numbers those variables.
pub fn carry(rt: &Route, vt: VarTable, next_name: u64) -> (r: Flow)
    requires
        all_sound(rt.cfg@),
    ensures
        r@ == carried(rt@, vt@, next_name),
        r.covers(rt.cfg.blocks.len() as nat),
{
    let n = rt.cfg.blocks.len();
    let mut st = make_flow(n, vt, next_name);
    run_rounds(rt, &mut st, 32);
    pay_stores(&mut st, n);
    st
}

} // verus!
