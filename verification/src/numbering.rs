//! What holds of the numbers in the names of variables for stack slots.
use crate::builder::{
    addition_ahead, at_entry, built, declares_here, enters_monitor, followed, increment_ahead,
    incremented, inlined_store, is_this, local, op_check_cast, op_dup, op_get_field, op_get_static,
    op_inc, op_instance_of, op_ldc, op_ldc2, op_load, op_new, op_new_multi, op_new_objects,
    op_put_field, op_put_static, op_store, pc_after, plain_step, range_starts, step, stored,
    stored_var, stores_to, FrameV,
};
use crate::bytecode::{low16, operation_of, InstructionV, Operation};
use crate::classes::PoolClassV;
use crate::expr::ExprV;
use crate::flow::{
    carried, entry_stack, frame_of, fresh_flow, known_of, least_depth, merge_type, merged_stack,
    new_slots, round, rounds, slot_values, split_stack, visited, with_merge_var, FlowV, RouteV,
};
use crate::sim::SimV;
use crate::text::decimal;
use crate::types::JTypeV;
use crate::var::{is_param, is_synthetic, var_at, var_slot, var_type, VarInfoV, VarTableV};
use vstd::prelude::*;

verus! {

/// A name for a stack slot.
pub open spec fn is_slot_name(s: Seq<char>) -> bool {
    exists|n: nat| s == "stack"@ + #[trigger] decimal(n)
}

/// Two variables that are the same but for the number in the name of a stack slot.
pub open spec fn same_but_number(a: VarInfoV, b: VarInfoV) -> bool {
    &&& a == (VarInfoV { name: a.name, ..b })
    &&& a.name == b.name || (is_slot_name(a.name) && is_slot_name(b.name))
}

/// Two tables that are the same but for the numbers in the names of stack slots.
pub open spec fn alike(a: VarTableV, b: VarTableV) -> bool {
    &&& a == (VarTableV { vars: a.vars, ..b })
    &&& a.vars.len() == b.vars.len()
    &&& forall|i: int|
        #![trigger a.vars[i]]
        #![trigger b.vars[i]]
        0 <= i < a.vars.len() ==> same_but_number(a.vars[i], b.vars[i])
}

/// A name for a stack slot is not `this`.
proof fn lemma_not_this(s: Seq<char>)
    requires
        is_slot_name(s),
    ensures
        s != "this"@,
{
    reveal_strlit("stack");
    reveal_strlit("this");
    let n = choose|n: nat| s == "stack"@ + #[trigger] decimal(n);
    assert(s[0] == 's');
}

/// What is read from tables that are alike is the same.
proof fn lemma_reads(a: VarTableV, b: VarTableV)
    requires
        alike(a, b),
    ensures
        forall|v: u32| #[trigger] var_type(a, v) == var_type(b, v),
        forall|v: u32| #[trigger] var_slot(a, v) == var_slot(b, v),
        forall|v: u32| #[trigger] is_param(a, v) == is_param(b, v),
        forall|v: u32| #[trigger] is_synthetic(a, v) == is_synthetic(b, v),
        forall|v: u32| #[trigger] is_this(a, v) == is_this(b, v),
        forall|v: u32| #[trigger] local(a, v) == local(b, v),
        forall|v: u32, pc: u16| #[trigger] range_starts(a, v, pc) == range_starts(b, v, pc),
        forall|slot: u16, pc: u16| #[trigger] var_at(a, slot, pc) == var_at(b, slot, pc),
{
    assert forall|v: u32| #[trigger] is_this(a, v) == is_this(b, v) by {
        if v < a.vars.len() {
            assert(same_but_number(a.vars[v as int], b.vars[v as int]));
            if is_slot_name(a.vars[v as int].name) {
                lemma_not_this(a.vars[v as int].name);
            }
            if is_slot_name(b.vars[v as int].name) {
                lemma_not_this(b.vars[v as int].name);
            }
        }
    }
}

/// Frames that differ only in the numbers of stack slots.
pub open spec fn same_frame(f: FrameV, g: FrameV) -> bool {
    f == (FrameV { vt: f.vt, ..g }) && alike(f.vt, g.vt)
}

/// A store does the same.
proof fn lemma_store(
    st: SimV,
    f: FrameV,
    g: FrameV,
    slot: u16,
    at_pc: u16,
    next_pc: u16,
    monitor: bool,
)
    requires
        same_frame(f, g),
    ensures
        op_store(st, f, slot, at_pc, next_pc, monitor) == op_store(
            st,
            g,
            slot,
            at_pc,
            next_pc,
            monitor,
        ),
{
    lemma_reads(f.vt, g.vt);
    assert(stored_var(f.vt, slot, at_pc, next_pc) == stored_var(g.vt, slot, at_pc, next_pc));
    assert forall|s: SimV, val: ExprV|
        #[trigger] inlined_store(s, f, slot, at_pc, next_pc, val) == inlined_store(
            s,
            g,
            slot,
            at_pc,
            next_pc,
            val,
        ) by {}
    assert forall|s: SimV, val: ExprV|
        #[trigger] stored(s, f, slot, at_pc, next_pc, val) == stored(
            s,
            g,
            slot,
            at_pc,
            next_pc,
            val,
        ) by {
        if let Some(v) = stored_var(f.vt, slot, at_pc, next_pc) {
            assert(declares_here(f.vt, v, at_pc, next_pc, s.declared) == declares_here(
                g.vt,
                v,
                at_pc,
                next_pc,
                s.declared,
            ));
        }
    }
}

/// `dup` does the same.
proof fn lemma_dup(st: SimV, f: FrameV, g: FrameV, ins: Seq<InstructionV>, at: int)
    requires
        same_frame(f, g),
    ensures
        op_dup(st, f, ins, at) == op_dup(st, g, ins, at),
{
    lemma_reads(f.vt, g.vt);
    if let Some(n) = increment_ahead(ins, at) {
        assert(incremented(st, f, ins, at, n) == incremented(st, g, ins, at, n));
    }
    if st.stack.len() > 0 && at + 2 < ins.len() {
        assert(stores_to(f, ins[at + 2], st.stack.last()) == stores_to(
            g,
            ins[at + 2],
            st.stack.last(),
        ));
    }
    assert(addition_ahead(f, ins, at, st.stack) == addition_ahead(g, ins, at, st.stack));
}

/// `iinc` does the same.
proof fn lemma_inc(
    st: SimV,
    f: FrameV,
    g: FrameV,
    i: InstructionV,
    ins: Seq<InstructionV>,
    at: int,
)
    requires
        same_frame(f, g),
    ensures
        op_inc(st, f, i, ins, at) == op_inc(st, g, i, ins, at),
{
    lemma_reads(f.vt, g.vt);
}

/// A load does the same.
proof fn lemma_load(st: SimV, f: FrameV, g: FrameV, slot: u16, pc: u16)
    requires
        same_frame(f, g),
    ensures
        op_load(st, f, slot, pc) == op_load(st, g, slot, pc),
{
    lemma_reads(f.vt, g.vt);
}

/// What reads the constant pool does the same.
proof fn lemma_pool_ops(st: SimV, f: FrameV, g: FrameV, idx: u16, n: nat)
    requires
        same_frame(f, g),
    ensures
        op_ldc(st, f, idx) == op_ldc(st, g, idx),
        op_ldc2(st, f, idx) == op_ldc2(st, g, idx),
        op_get_static(st, f, idx) == op_get_static(st, g, idx),
        op_put_static(st, f, idx) == op_put_static(st, g, idx),
        op_get_field(st, f, idx) == op_get_field(st, g, idx),
        op_put_field(st, f, idx) == op_put_field(st, g, idx),
        op_new(st, f, idx) == op_new(st, g, idx),
        op_new_objects(st, f, idx) == op_new_objects(st, g, idx),
        op_new_multi(st, f, idx, n) == op_new_multi(st, g, idx, n),
        op_check_cast(st, f, idx) == op_check_cast(st, g, idx),
        op_instance_of(st, f, idx) == op_instance_of(st, g, idx),
{
}

/// An instruction that needs no other one does the same.
#[verifier::spinoff_prover]
proof fn lemma_plain_step(st: SimV, f: FrameV, g: FrameV, i: InstructionV)
    requires
        same_frame(f, g),
    ensures
        plain_step(st, f, i) == plain_step(st, g, i),
{
    lemma_pool_ops(st, f, g, low16(i.a), i.b as nat);
    match operation_of(i) {
        Operation::Ldc(idx) => { lemma_pool_ops(st, f, g, idx, 0); },
        Operation::Ldc2(idx) => { lemma_pool_ops(st, f, g, idx, 0); },
        Operation::Load(slot) => { lemma_load(st, f, g, slot, i.pc); },
        _ => {},
    }
}

/// An instruction does the same.
proof fn lemma_step(st: SimV, f: FrameV, g: FrameV, ins: Seq<InstructionV>, i: int)
    requires
        same_frame(f, g),
    ensures
        step(st, f, ins, i) == step(st, g, ins, i),
{
    match operation_of(ins[i]) {
        Operation::Dup => { lemma_dup(st, f, g, ins, i + 1); },
        Operation::Inc => { lemma_inc(st, f, g, ins[i], ins, i + 1); },
        Operation::Store(slot, reference) => {
            lemma_store(
                st,
                f,
                g,
                slot,
                ins[i].pc,
                pc_after(ins[i]),
                reference && enters_monitor(ins, i + 1),
            );
        },
        _ => { lemma_plain_step(st, f, g, ins[i]); },
    }
}

/// Instructions do the same.
proof fn lemma_followed(st: SimV, f: FrameV, g: FrameV, ins: Seq<InstructionV>, i: int)
    requires
        same_frame(f, g),
    ensures
        followed(st, f, ins, i) == followed(st, g, ins, i),
    decreases ins.len() - i,
{
    if 0 <= i < ins.len() {
        lemma_step(st, f, g, ins, i);
        if let Ok((st1, n)) = step(st, f, ins, i) {
            lemma_followed(st1, f, g, ins, i + 1 + n);
        }
    }
}

/// A block becomes the same.
proof fn lemma_built(f: FrameV, g: FrameV, ins: Seq<InstructionV>, stack: Seq<ExprV>)
    requires
        same_frame(f, g),
    ensures
        built(f, ins, stack) == built(g, ins, stack),
{
    lemma_followed(at_entry(stack, seq![]), f, g, ins, 0);
}

/// States that are the same but for the numbers of stack slots.
pub open spec fn same_flow(a: FlowV, b: FlowV) -> bool {
    a == (FlowV { vt: a.vt, next_name: a.next_name, ..b }) && alike(a.vt, b.vt)
}

/// One more variable keeps states alike.
proof fn lemma_merge_var(a: FlowV, b: FlowV, max_locals: u16, ty: JTypeV, open: bool)
    requires
        same_flow(a, b),
    ensures
        same_flow(
            with_merge_var(a, max_locals, ty, open),
            with_merge_var(b, max_locals, ty, open),
        ),
{
    let x = with_merge_var(a, max_locals, ty, open);
    let y = with_merge_var(b, max_locals, ty, open);
    let n = a.vt.vars.len() as int;
    assert(x.vt.vars[n].name == "stack"@ + decimal(a.next_name as nat));
    assert(y.vt.vars[n].name == "stack"@ + decimal(b.next_name as nat));
    assert(is_slot_name(x.vt.vars[n].name));
    assert(is_slot_name(y.vt.vars[n].name));
    assert forall|i: int| 0 <= i < x.vt.vars.len() implies same_but_number(
        #[trigger] x.vt.vars[i],
        y.vt.vars[i],
    ) by {
        if i < n {
            assert(same_but_number(a.vt.vars[i], b.vt.vars[i]));
        }
    }
    assert(x.vt.by_slot == y.vt.by_slot);
}

/// Slots are the same.
proof fn lemma_new_slots(
    pc: PoolClassV,
    max_locals: u16,
    known: Seq<(usize, Seq<ExprV>)>,
    d: nat,
    a: FlowV,
    b: FlowV,
)
    requires
        same_flow(a, b),
    ensures
        new_slots(pc, max_locals, known, d, a).0 == new_slots(pc, max_locals, known, d, b).0,
        same_flow(
            new_slots(pc, max_locals, known, d, a).1,
            new_slots(pc, max_locals, known, d, b).1,
        ),
    decreases d,
{
    if d > 0 {
        lemma_new_slots(pc, max_locals, known, (d - 1) as nat, a, b);
        let (ty, open) = merge_type(pc, known, d - 1);
        lemma_merge_var(
            new_slots(pc, max_locals, known, (d - 1) as nat, a).1,
            new_slots(pc, max_locals, known, (d - 1) as nat, b).1,
            max_locals,
            ty,
            open,
        );
    }
}

/// The stack at the entry of a block is the same.
proof fn lemma_entry_stack(rt: RouteV, a: FlowV, b: FlowV, k: usize)
    requires
        same_flow(a, b),
    ensures
        entry_stack(rt, a, k).0 == entry_stack(rt, b, k).0,
        same_flow(entry_stack(rt, a, k).1, entry_stack(rt, b, k).1),
{
    lemma_reads(a.vt, b.vt);
    if let Some(vs) = a.slots[k as int] {
        assert(slot_values(vs, a.vt) =~= slot_values(vs, b.vt));
    }
    let known = known_of(rt.cfg.blocks[k as int].pred, a.outs);
    let d = least_depth(known);
    lemma_new_slots(rt.pc, rt.max_locals, known, d, a, b);
    let (vs, a1) = new_slots(rt.pc, rt.max_locals, known, d, a);
    let b1 = new_slots(rt.pc, rt.max_locals, known, d, b).1;
    lemma_reads(a1.vt, b1.vt);
    assert(slot_values(vs, a1.vt) =~= slot_values(vs, b1.vt));
    assert(split_stack(rt, a, k, known).0 == split_stack(rt, b, k, known).0);
    assert(same_flow(split_stack(rt, a, k, known).1, split_stack(rt, b, k, known).1));
    assert(merged_stack(rt, a, k).0 == merged_stack(rt, b, k).0);
    assert(same_flow(merged_stack(rt, a, k).1, merged_stack(rt, b, k).1));
}

/// A block that is looked at becomes the same.
proof fn lemma_visited(rt: RouteV, a: FlowV, b: FlowV, k: usize)
    requires
        same_flow(a, b),
    ensures
        visited(rt, a, k).1 == visited(rt, b, k).1,
        same_flow(visited(rt, a, k).0, visited(rt, b, k).0),
{
    if k < rt.cfg.blocks.len() {
        lemma_entry_stack(rt, a, b, k);
        let (stack, a1) = entry_stack(rt, a, k);
        let b1 = entry_stack(rt, b, k).1;
        lemma_built(
            frame_of(rt, a1.vt),
            frame_of(rt, b1.vt),
            rt.cfg.blocks[k as int].ins,
            stack,
        );
    }
}

/// A round ends in the same state.
proof fn lemma_round(rt: RouteV, a: FlowV, b: FlowV, k: nat)
    requires
        same_flow(a, b),
    ensures
        round(rt, a, k).1 == round(rt, b, k).1,
        same_flow(round(rt, a, k).0, round(rt, b, k).0),
    decreases k,
{
    if k > 0 {
        lemma_round(rt, a, b, (k - 1) as nat);
        lemma_visited(
            rt,
            round(rt, a, (k - 1) as nat).0,
            round(rt, b, (k - 1) as nat).0,
            rt.order[k - 1],
        );
    }
}

/// Rounds end in the same state.
proof fn lemma_rounds(rt: RouteV, a: FlowV, b: FlowV, n: nat)
    requires
        same_flow(a, b),
    ensures
        same_flow(rounds(rt, a, n), rounds(rt, b, n)),
    decreases n,
{
    if n > 0 {
        lemma_round(rt, a, b, rt.order.len());
        let (a1, changed) = round(rt, a, rt.order.len());
        let b1 = round(rt, b, rt.order.len()).0;
        if changed {
            lemma_rounds(rt, a1, b1, (n - 1) as nat);
        }
    }
}

/// Where the numbers of stack slots start makes no difference but to their names: the
/// blocks, stacks, folds and errors of a method, and its variables otherwise, are the
/// same.
pub proof fn law_numbers_only_name(rt: RouteV, vt: VarTableV, m: u64, n: u64)
    ensures
        same_flow(carried(rt, vt, m), carried(rt, vt, n)),
{
    let a = fresh_flow(rt.cfg.blocks.len(), vt, m);
    let b = fresh_flow(rt.cfg.blocks.len(), vt, n);
    lemma_rounds(rt, a, b, 32);
}

} // verus!
