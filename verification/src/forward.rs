//! Locals that only carry a value to the next instruction.
use crate::block::{block_list, Block, BlockV};
use crate::bytecode::{
    instructions, low16, operation_of, to_u16, Instruction, InstructionV, Operation,
};
use crate::indy::slot_after;
use crate::types::{java_types, JType, JTypeV};
use vstd::prelude::*;

verus! {

/// Stores and loads that cancel out: the pcs of the stores, and those of the loads with
/// their slots.
#[derive(Debug)]
pub struct Forwards {
    pub stores: Vec<u16>,
    pub loads: Vec<(u16, u16)>,
}

/// Model of [`Forwards`].
#[verifier::ext_equal]
pub ghost struct ForwardsV {
    pub stores: Seq<u16>,
    pub loads: Seq<(u16, u16)>,
}

impl Forwards {
    pub open spec fn view(&self) -> ForwardsV {
        ForwardsV { stores: self.stores@, loads: self.loads@ }
    }

    /// No pair.
    pub fn none() -> (r: Forwards)
        ensures
            r@ == no_forwards(),
    {
        let r = Forwards { stores: Vec::new(), loads: Vec::new() };
        assert(r@ =~= no_forwards());
        r
    }

    /// Whether the store at `pc` is one of them.
    pub fn drops_store(&self, pc: u16) -> (r: bool)
        ensures
            r == self@.stores.contains(pc),
    {
        let mut i: usize = 0;
        while i < self.stores.len()
            invariant
                i <= self.stores.len(),
                forall|j: int| 0 <= j < i ==> self.stores@[j] != pc,
            decreases self.stores.len() - i,
        {
            if self.stores[i] == pc {
                return true;
            }
            i += 1;
        }
        false
    }

    /// Whether the load at `pc` is one of them.
    pub fn drops_load(&self, pc: u16) -> (r: bool)
        ensures
            r == forwards_load(self@, pc),
    {
        let mut i: usize = 0;
        while i < self.loads.len()
            invariant
                i <= self.loads.len(),
                forall|j: int| 0 <= j < i ==> (#[trigger] self@.loads[j]).0 != pc,
            decreases self.loads.len() - i,
        {
            assert(self@.loads[i as int] == self.loads@[i as int]);
            if self.loads[i].0 == pc {
                return true;
            }
            i += 1;
        }
        false
    }
}

/// No pair.
pub open spec fn no_forwards() -> ForwardsV {
    ForwardsV { stores: seq![], loads: seq![] }
}

/// The load at `pc` is one of them.
pub open spec fn forwards_load(f: ForwardsV, pc: u16) -> bool {
    exists|i: int| 0 <= i < f.loads.len() && (#[trigger] f.loads[i]).0 == pc
}

/// The slot that an instruction writes.
pub open spec fn written_slot(i: InstructionV) -> Option<u16> {
    match operation_of(i) {
        Operation::Store(slot, _) => Some(slot),
        Operation::Inc => Some(low16(i.a)),
        _ => None,
    }
}

/// The slot that an instruction reads.
pub open spec fn read_slot(i: InstructionV) -> Option<u16> {
    match operation_of(i) {
        Operation::Load(slot) => Some(slot),
        Operation::Inc => Some(low16(i.a)),
        _ => None,
    }
}

/// How many of the instructions write `slot`.
pub open spec fn writes_in(ins: Seq<InstructionV>, slot: u16) -> nat
    decreases ins.len(),
{
    if ins.len() == 0 {
        0
    } else {
        writes_in(ins.drop_last(), slot) + if written_slot(ins.last()) == Some(slot) {
            1nat
        } else {
            0nat
        }
    }
}

/// How many of the instructions read `slot`.
pub open spec fn reads_in(ins: Seq<InstructionV>, slot: u16) -> nat
    decreases ins.len(),
{
    if ins.len() == 0 {
        0
    } else {
        reads_in(ins.drop_last(), slot) + if read_slot(ins.last()) == Some(slot) {
            1nat
        } else {
            0nat
        }
    }
}

/// How many instructions of the blocks write `slot`.
pub open spec fn writes(blocks: Seq<BlockV>, slot: u16) -> nat
    decreases blocks.len(),
{
    if blocks.len() == 0 {
        0
    } else {
        writes(blocks.drop_last(), slot) + writes_in(blocks.last().ins, slot)
    }
}

/// How many instructions of the blocks read `slot`.
pub open spec fn reads(blocks: Seq<BlockV>, slot: u16) -> nat
    decreases blocks.len(),
{
    if blocks.len() == 0 {
        0
    } else {
        reads(blocks.drop_last(), slot) + reads_in(blocks.last().ins, slot)
    }
}

/// Instructions `a` and, right after it, `b` store a slot and load it again, and no
/// other instruction touches it. Parameters, which take the slots below `first`, do not
/// count.
pub open spec fn is_forward(
    blocks: Seq<BlockV>,
    a: InstructionV,
    b: InstructionV,
    first: int,
    max_locals: u16,
) -> bool {
    match written_slot(a) {
        Some(slot) => {
            &&& read_slot(b) == Some(slot)
            &&& first <= slot < max_locals
            &&& writes(blocks, slot) == 1
            &&& reads(blocks, slot) == 1
            &&& a.pc + a.size == b.pc
        },
        None => false,
    }
}

/// The pairs among the first `n` instructions of a block.
pub open spec fn forwards_in(
    blocks: Seq<BlockV>,
    ins: Seq<InstructionV>,
    n: nat,
    first: int,
    max_locals: u16,
) -> ForwardsV
    decreases n,
{
    if n <= 1 {
        no_forwards()
    } else {
        let f = forwards_in(blocks, ins, (n - 1) as nat, first, max_locals);
        let a = ins[n - 2];
        let b = ins[n - 1];
        if is_forward(blocks, a, b, first, max_locals) {
            ForwardsV {
                stores: f.stores.push(a.pc),
                loads: f.loads.push((b.pc, written_slot(a).unwrap())),
            }
        } else {
            f
        }
    }
}

/// The pairs of the first `n` blocks.
pub open spec fn forwards_upto(
    blocks: Seq<BlockV>,
    n: nat,
    first: int,
    max_locals: u16,
) -> ForwardsV
    decreases n,
{
    if n == 0 {
        no_forwards()
    } else {
        let f = forwards_upto(blocks, (n - 1) as nat, first, max_locals);
        let ins = blocks[n - 1].ins;
        let g = forwards_in(blocks, ins, ins.len(), first, max_locals);
        ForwardsV { stores: f.stores + g.stores, loads: f.loads + g.loads }
    }
}

/// The pairs of a method.
pub open spec fn forwards_of(
    blocks: Seq<BlockV>,
    is_static: bool,
    args: Seq<JTypeV>,
    max_locals: u16,
) -> ForwardsV {
    let first = slot_after(
        args,
        if is_static {
            0
        } else {
            1
        },
    );
    forwards_upto(blocks, blocks.len(), first, max_locals)
}

/// The slot that an instruction writes.
fn slot_written(i: &Instruction) -> (r: Option<u16>)
    ensures
        r == written_slot(i@),
{
    match i.operation() {
        Operation::Store(slot, _) => Some(slot),
        Operation::Inc => Some(to_u16(i.a)),
        _ => None,
    }
}

/// The slot that an instruction reads.
fn slot_read(i: &Instruction) -> (r: Option<u16>)
    ensures
        r == read_slot(i@),
{
    match i.operation() {
        Operation::Load(slot) => Some(slot),
        Operation::Inc => Some(to_u16(i.a)),
        _ => None,
    }
}

/// Whether a slot is the given one.
fn is_slot(o: Option<u16>, slot: u16) -> (r: bool)
    ensures
        r == (o == Some(slot)),
{
    match o {
        Some(s) => s == slot,
        None => false,
    }
}

/// How many instructions write and read `slot`, counted up to two.
#[verifier::loop_isolation(false)]
fn count_in(ins: &Vec<Instruction>, slot: u16) -> (r: (usize, usize))
    ensures
        r.0 == if writes_in(instructions(ins@), slot) < 2 {
            writes_in(instructions(ins@), slot)
        } else {
            2
        },
        r.1 == if reads_in(instructions(ins@), slot) < 2 {
            reads_in(instructions(ins@), slot)
        } else {
            2
        },
{
    let ghost all = instructions(ins@);
    let mut w: usize = 0;
    let mut r: usize = 0;
    let mut i: usize = 0;
    assert(all.take(0) =~= seq![]);
    while i < ins.len()
        invariant
            i <= ins.len(),
            w == if writes_in(all.take(i as int), slot) < 2 {
                writes_in(all.take(i as int), slot)
            } else {
                2
            },
            r == if reads_in(all.take(i as int), slot) < 2 {
                reads_in(all.take(i as int), slot)
            } else {
                2
            },
        decreases ins.len() - i,
    {
        assert(all.take(i + 1).drop_last() =~= all.take(i as int));
        assert(all.take(i + 1).last() == ins@[i as int]@);
        if w < 2 && is_slot(slot_written(&ins[i]), slot) {
            w += 1;
        }
        if r < 2 && is_slot(slot_read(&ins[i]), slot) {
            r += 1;
        }
        i += 1;
    }
    assert(all.take(i as int) =~= all);
    (w, r)
}

/// Whether exactly one instruction writes and exactly one reads `slot`.
#[verifier::loop_isolation(false)]
fn used_once(blocks: &Vec<Block>, slot: u16) -> (r: bool)
    ensures
        r == (writes(block_list(blocks@), slot) == 1 && reads(block_list(blocks@), slot) == 1),
{
    let ghost all = block_list(blocks@);
    let mut w: usize = 0;
    let mut r: usize = 0;
    let mut i: usize = 0;
    assert(all.take(0) =~= seq![]);
    while i < blocks.len()
        invariant
            i <= blocks.len(),
            w <= 2,
            r <= 2,
            w == if writes(all.take(i as int), slot) < 2 {
                writes(all.take(i as int), slot)
            } else {
                2
            },
            r == if reads(all.take(i as int), slot) < 2 {
                reads(all.take(i as int), slot)
            } else {
                2
            },
        decreases blocks.len() - i,
    {
        assert(all.take(i + 1).drop_last() =~= all.take(i as int));
        assert(all.take(i + 1).last() == blocks@[i as int]@);
        let (x, y) = count_in(&blocks[i].ins, slot);
        w = if w + x < 2 {
            w + x
        } else {
            2
        };
        r = if r + y < 2 {
            r + y
        } else {
            2
        };
        i += 1;
    }
    assert(all.take(i as int) =~= all);
    w == 1 && r == 1
}

/// The slot after the parameters.
#[verifier::loop_isolation(false)]
fn first_free(is_static: bool, args: &Vec<JType>) -> (r: u128)
    ensures
        r == slot_after(
            java_types(args@),
            if is_static {
                0
            } else {
                1
            },
        ),
{
    let ghost all = java_types(args@);
    let ghost base: int = if is_static {
        0
    } else {
        1
    };
    let mut slot: u128 = if is_static {
        0
    } else {
        1
    };
    let mut i: usize = 0;
    assert(all.take(0) =~= seq![]);
    while i < args.len()
        invariant
            i <= args.len(),
            slot <= 1 + 2 * i,
            slot == slot_after(all.take(i as int), base),
        decreases args.len() - i,
    {
        assert(all.take(i + 1).drop_last() =~= all.take(i as int));
        assert(all.take(i + 1).last() == args@[i as int]@);
        slot = slot + args[i].slot_size() as u128;
        i += 1;
    }
    assert(all.take(i as int) =~= all);
    slot
}

/// The slot that two instructions store and load again, where nothing else touches it.
fn forwarded(
    blocks: &Vec<Block>,
    a: &Instruction,
    b: &Instruction,
    first: u128,
    max_locals: u16,
) -> (r:
    Option<u16>)
    ensures
        match r {
            Some(slot) => is_forward(block_list(blocks@), a@, b@, first as int, max_locals)
                && written_slot(a@) == Some(slot),
            None => !is_forward(block_list(blocks@), a@, b@, first as int, max_locals),
        },
{
    let slot = match slot_written(a) {
        Some(slot) => slot,
        None => {
            return None;
        },
    };
    if is_slot(slot_read(b), slot) && first <= slot as u128 && slot < max_locals && a.pc as u32
        + a.size as u32 == b.pc as u32 && used_once(blocks, slot) {
        Some(slot)
    } else {
        None
    }
}

/// Adds the pairs of a block.
#[verifier::loop_isolation(false)]
fn push_forwards(
    blocks: &Vec<Block>,
    ins: &Vec<Instruction>,
    first: u128,
    max_locals: u16,
    out: &mut Forwards,
)
    ensures
        ({
            let g = forwards_in(
                block_list(blocks@),
                instructions(ins@),
                ins.len() as nat,
                first as int,
                max_locals,
            );
            final(out)@ == (ForwardsV {
                stores: old(out)@.stores + g.stores,
                loads: old(out)@.loads + g.loads,
            })
        }),
{
    let ghost all = instructions(ins@);
    let ghost bs = block_list(blocks@);
    let ghost start = out@;
    assert(start.stores + seq![] =~= start.stores);
    assert(start.loads + seq![] =~= start.loads);
    if ins.len() == 0 {
        assert(out@ =~= ForwardsV { stores: start.stores, loads: start.loads });
        return ;
    }
    let mut i: usize = 1;
    while i < ins.len()
        invariant
            1 <= i <= ins.len(),
            out@.stores
                == start.stores + forwards_in(bs, all, i as nat, first as int, max_locals).stores,
            out@.loads
                == start.loads + forwards_in(bs, all, i as nat, first as int, max_locals).loads,
        decreases ins.len() - i,
    {
        let ghost g = forwards_in(bs, all, i as nat, first as int, max_locals);
        assert(all[i - 1] == ins@[i - 1]@);
        assert(all[i as int] == ins@[i as int]@);
        if let Some(slot) = forwarded(blocks, &ins[i - 1], &ins[i], first, max_locals) {
            out.stores.push(ins[i - 1].pc);
            out.loads.push((ins[i].pc, slot));
            assert(out@.stores =~= start.stores + g.stores.push(ins@[i - 1].pc));
            assert(out@.loads =~= start.loads + g.loads.push((ins@[i as int].pc, slot)));
        }
        i += 1;
    }
    assert(out@ =~= ForwardsV { stores: out@.stores, loads: out@.loads });
}

/// The pairs of a method.
#[verifier::loop_isolation(false)]
pub fn find_forwards(
    blocks: &Vec<Block>,
    is_static: bool,
    args: &Vec<JType>,
    max_locals: u16,
) -> (r:
    Forwards)
    ensures
        r@ == forwards_of(block_list(blocks@), is_static, java_types(args@), max_locals),
{
    let first = first_free(is_static, args);
    let ghost bs = block_list(blocks@);
    let mut out = Forwards::none();
    let mut i: usize = 0;
    while i < blocks.len()
        invariant
            i <= blocks.len(),
            out@ == forwards_upto(bs, i as nat, first as int, max_locals),
        decreases blocks.len() - i,
    {
        assert(bs[i as int] == blocks@[i as int]@);
        assert(bs[i as int].ins.len() == blocks@[i as int].ins.len());
        push_forwards(blocks, &blocks[i].ins, first, max_locals, &mut out);
        i += 1;
        assert(out@ =~= forwards_upto(bs, i as nat, first as int, max_locals));
    }
    out
}

/// A slot that only a store and a load right after it touch, and that is no parameter.
pub open spec fn is_temporary(blocks: Seq<BlockV>, slot: u16, first: int, max_locals: u16) -> bool {
    first <= slot < max_locals && writes(blocks, slot) == 1 && reads(blocks, slot) == 1
}

/// The loads are of temporaries, one for each store.
proof fn lemma_forwards_in(
    blocks: Seq<BlockV>,
    ins: Seq<InstructionV>,
    n: nat,
    first: int,
    max_locals: u16,
)
    ensures
        ({
            let f = forwards_in(blocks, ins, n, first, max_locals);
            &&& f.stores.len() == f.loads.len()
            &&& forall|i: int|
                0 <= i < f.loads.len() ==> is_temporary(
                    blocks,
                    (#[trigger] f.loads[i]).1,
                    first,
                    max_locals,
                )
        }),
    decreases n,
{
    if n > 1 {
        lemma_forwards_in(blocks, ins, (n - 1) as nat, first, max_locals);
    }
}

/// [`lemma_forwards_in`] over the first `n` blocks.
proof fn lemma_forwards_upto(blocks: Seq<BlockV>, n: nat, first: int, max_locals: u16)
    ensures
        ({
            let f = forwards_upto(blocks, n, first, max_locals);
            &&& f.stores.len() == f.loads.len()
            &&& forall|i: int|
                0 <= i < f.loads.len() ==> is_temporary(
                    blocks,
                    (#[trigger] f.loads[i]).1,
                    first,
                    max_locals,
                )
        }),
    decreases n,
{
    if n > 0 {
        lemma_forwards_upto(blocks, (n - 1) as nat, first, max_locals);
        let ins = blocks[n - 1].ins;
        lemma_forwards_in(blocks, ins, ins.len(), first, max_locals);
    }
}

/// Every forwarded slot is a temporary: it is no parameter, one instruction stores it and
/// one loads it. There is one load for each store.
pub proof fn law_forwarded_slots_are_temporaries(
    blocks: Seq<BlockV>,
    is_static: bool,
    args: Seq<JTypeV>,
    max_locals: u16,
    i: int,
)
    ensures
        ({
            let f = forwards_of(blocks, is_static, args, max_locals);
            let first = slot_after(
                args,
                if is_static {
                    0
                } else {
                    1
                },
            );
            &&& f.stores.len() == f.loads.len()
            &&& 0 <= i < f.loads.len() ==> is_temporary(blocks, f.loads[i].1, first, max_locals)
        }),
{
    let first = slot_after(
        args,
        if is_static {
            0
        } else {
            1
        },
    );
    lemma_forwards_upto(blocks, blocks.len(), first, max_locals);
}

} // verus!
