//! Basic block splitting and control flow graph construction.
use crate::bytecode::{instructions, low16, to_u16, Instruction, InstructionV, Opcode, SwitchData};
use crate::classes::{class_name_at, PoolClass, PoolClassV};
use crate::types::opt_str;
use vstd::prelude::*;

verus! {

/// A basic block.
#[derive(Debug)]
pub struct Block {
    pub id: usize,
    /// First pc (inclusive).
    pub start: u16,
    /// End pc (exclusive).
    pub end: u16,
    pub ins: Vec<Instruction>,
    /// Successor block ids. For a conditional jump the fallthrough comes first.
    pub succ: Vec<usize>,
    pub pred: Vec<usize>,
    /// Exception ranges whose handler is this block.
    pub handlers: Vec<usize>,
}

/// Model of [`Block`].
#[verifier::ext_equal]
pub ghost struct BlockV {
    pub id: usize,
    pub start: u16,
    pub end: u16,
    pub ins: Seq<InstructionV>,
    pub succ: Seq<usize>,
    pub pred: Seq<usize>,
    pub handlers: Seq<usize>,
}

impl Block {
    pub open spec fn view(&self) -> BlockV {
        BlockV {
            id: self.id,
            start: self.start,
            end: self.end,
            ins: instructions(self.ins@),
            succ: self.succ@,
            pred: self.pred@,
            handlers: self.handlers@,
        }
    }

    /// The last instruction.
    pub fn last(&self) -> (r: Option<&Instruction>)
        ensures
            match r {
                Some(i) => self@.ins.len() > 0 && self@.ins.last() == i@,
                None => self@.ins.len() == 0,
            },
    {
        if self.ins.len() == 0 {
            None
        } else {
            Some(&self.ins[self.ins.len() - 1])
        }
    }

    /// Whether the block ends with a conditional jump (two successors).
    pub fn ends_cond(&self) -> (r: bool)
        ensures
            r == (self@.succ.len() == 2),
    {
        self.succ.len() == 2
    }

    /// Whether the block has no successor.
    pub fn is_exit(&self) -> (r: bool)
        ensures
            r == (self@.succ.len() == 0),
    {
        self.succ.len() == 0
    }
}

/// An edge from a protected block to its handler.
#[derive(Debug, Clone, Copy, PartialEq, Eq, Structural)]
pub struct ExcEdge {
    /// Index into the exception ranges.
    pub range: usize,
    pub from: usize,
    pub to: usize,
}

/// A protected range of code.
#[derive(Debug)]
pub struct ExcRange {
    pub start: u16,
    pub end: u16,
    pub handler: u16,
    /// `None` catches everything (`finally`).
    pub catch_type: Option<String>,
}

/// Model of [`ExcRange`].
pub ghost struct ExcRangeV {
    pub start: u16,
    pub end: u16,
    pub handler: u16,
    pub catch_type: Option<Seq<char>>,
}

impl ExcRange {
    pub open spec fn view(&self) -> ExcRangeV {
        ExcRangeV {
            start: self.start,
            end: self.end,
            handler: self.handler,
            catch_type: opt_str(self.catch_type),
        }
    }
}

/// Model of a list of ranges.
pub open spec fn exc_ranges(v: Seq<ExcRange>) -> Seq<ExcRangeV> {
    Seq::new(v.len(), |i: int| v[i]@)
}

/// A control flow graph.
#[derive(Debug)]
pub struct Cfg {
    pub blocks: Vec<Block>,
    pub entry: usize,
    pub exc_edges: Vec<ExcEdge>,
    pub exc_ranges: Vec<ExcRange>,
    /// Block start pcs in ascending order.
    pub starts: Vec<u16>,
}

/// Model of [`Cfg`].
#[verifier::ext_equal]
pub ghost struct CfgV {
    pub blocks: Seq<BlockV>,
    pub entry: usize,
    pub exc_edges: Seq<ExcEdge>,
    pub exc_ranges: Seq<ExcRangeV>,
    pub starts: Seq<u16>,
}

/// Model of a list of blocks.
pub open spec fn block_list(v: Seq<Block>) -> Seq<BlockV> {
    Seq::new(v.len(), |i: int| v[i]@)
}

impl Cfg {
    pub open spec fn view(&self) -> CfgV {
        CfgV {
            blocks: block_list(self.blocks@),
            entry: self.entry,
            exc_edges: self.exc_edges@,
            exc_ranges: exc_ranges(self.exc_ranges@),
            starts: self.starts@,
        }
    }
}

// ---------------------------------------------------------------------
// Where blocks start.

/// A block starts at `p` because of instruction `i`: `p` is a target of it, or the
/// place after a jump.
pub open spec fn starts_for(i: InstructionV, p: int) -> bool {
    (i.is_jump && i.pc + i.size == p) || exists|k: int|
        0 <= k < i.targets.len() && #[trigger] i.targets[k] == p
}

/// A block starts at `p` because of an exception table entry: its range begins or
/// ends there, or its handler does.
pub open spec fn bounds_at(e: (u16, u16, u16, u16), p: int) -> bool {
    e.0 == p || e.1 == p || e.2 == p
}

/// A block starts at `p`.
pub open spec fn is_leader(
    p: int,
    all: Seq<InstructionV>,
    table: Seq<(u16, u16, u16, u16)>,
) -> bool {
    ||| p == 0
    ||| exists|i: int| 0 <= i < all.len() && starts_for(#[trigger] all[i], p)
    ||| exists|i: int| 0 <= i < table.len() && bounds_at(#[trigger] table[i], p)
}

/// The pcs below `n` at which a block starts, in ascending order.
pub open spec fn leaders_below(
    n: nat,
    all: Seq<InstructionV>,
    table: Seq<(u16, u16, u16, u16)>,
) -> Seq<u16>
    decreases n,
{
    if n == 0 {
        seq![]
    } else {
        let front = leaders_below((n - 1) as nat, all, table);
        if is_leader(n - 1, all, table) {
            front.push((n - 1) as u16)
        } else {
            front
        }
    }
}

/// The pcs at which a block starts. Empty code has one block.
pub open spec fn leaders(
    code_len: u16,
    all: Seq<InstructionV>,
    table: Seq<(u16, u16, u16, u16)>,
) -> Seq<u16> {
    if code_len == 0 {
        seq![0u16]
    } else {
        leaders_below(code_len as nat, all, table)
    }
}

/// The index of the last start at or before `p`.
pub open spec fn start_index(starts: Seq<u16>, p: u16) -> Option<nat>
    decreases starts.len(),
{
    if starts.len() == 0 {
        None
    } else if starts.last() <= p {
        Some((starts.len() - 1) as nat)
    } else {
        start_index(starts.drop_last(), p)
    }
}

/// The index of the block that contains the pc `p`; none does from the end of the code
/// on.
pub open spec fn within(starts: Seq<u16>, code_len: u16, p: u16) -> Option<nat> {
    if p < code_len {
        start_index(starts, p)
    } else {
        None
    }
}

/// The block of `c` that contains the pc `p`; none does from the end of the code on.
pub open spec fn containing(c: CfgV, p: u16) -> Option<nat> {
    match start_index(c.starts, p) {
        Some(b) => if b < c.blocks.len() && p < c.blocks[b as int].end {
            Some(b)
        } else {
            None
        },
        None => None,
    }
}

/// The index of the last start at or before `p`.
#[verifier::loop_isolation(false)]
fn index_of(starts: &Vec<u16>, p: u16) -> (r: Option<usize>)
    ensures
        match r {
            Some(i) => start_index(starts@, p) == Some(i as nat) && i < starts.len(),
            None => start_index(starts@, p) is None,
        },
{
    let mut i: usize = starts.len();
    assert(starts@.take(i as int) =~= starts@);
    while i > 0
        invariant
            i <= starts.len(),
            start_index(starts@.take(i as int), p) == start_index(starts@, p),
        decreases i,
    {
        i -= 1;
        assert(starts@.take(i + 1).drop_last() =~= starts@.take(i as int));
        if starts[i] <= p {
            return Some(i);
        }
    }
    None
}

/// The index of the block that contains the pc `p`.
fn index_within(starts: &Vec<u16>, code_len: u16, p: u16) -> (r: Option<usize>)
    ensures
        match r {
            Some(i) => within(starts@, code_len, p) == Some(i as nat) && i < starts.len(),
            None => within(starts@, code_len, p) is None,
        },
{
    if p < code_len {
        index_of(starts, p)
    } else {
        None
    }
}

/// Marks `p`, where it is in range.
fn mark(flags: &mut Vec<bool>, p: u16)
    ensures
        final(flags).len() == old(flags).len(),
        forall|q: int|
            0 <= q < final(flags).len() ==> #[trigger] final(flags)@[q] == (old(flags)@[q] || q
                == p),
{
    if (p as usize) < flags.len() {
        flags.set(p as usize, true);
    }
}

/// Marks the pcs at which a block starts because of one instruction.
#[verifier::loop_isolation(false)]
fn mark_instruction(flags: &mut Vec<bool>, i: &Instruction)
    ensures
        final(flags).len() == old(flags).len(),
        forall|q: int|
            0 <= q < final(flags).len() ==> #[trigger] final(flags)@[q] == (old(flags)@[q]
                || (q <= u16::MAX && starts_for(i@, q))),
{
    if i.is_jump && i.pc as u32 + i.size as u32 <= 65535 {
        mark(flags, i.pc + i.size);
    }
    let ghost start = flags@;
    let mut k: usize = 0;
    while k < i.targets.len()
        invariant
            k <= i.targets.len(),
            flags.len() == start.len(),
            forall|q: int|
                0 <= q < flags.len() ==> #[trigger] flags@[q] == (start[q] || exists|j: int|
                    0 <= j < k && #[trigger] i@.targets[j] == q),
        decreases i.targets.len() - k,
    {
        let ghost before = flags@;
        mark(flags, i.targets[k]);
        assert(i@.targets[k as int] == i.targets@[k as int]);
        assert forall|q: int| 0 <= q < flags.len() implies #[trigger] flags@[q] == (start[q]
            || exists|j: int| 0 <= j < k + 1 && #[trigger] i@.targets[j] == q) by {
            assert(flags@[q] == (before[q] || q == i@.targets[k as int]));
        }
        k += 1;
    }
}

/// The pcs at which a block starts.
#[verifier::loop_isolation(false)]
fn find_leaders(
    code_len: u16,
    all: &Vec<Instruction>,
    table: &Vec<(u16, u16, u16, u16)>,
) -> (r: Vec<u16>)
    ensures
        r@ == leaders(code_len, instructions(all@), table@),
{
    let ghost ins = instructions(all@);
    let mut starts: Vec<u16> = Vec::new();
    if code_len == 0 {
        starts.push(0);
        assert(starts@ =~= seq![0u16]);
        return starts;
    }
    let mut flags: Vec<bool> = Vec::new();
    let mut i: usize = 0;
    while i < code_len as usize
        invariant
            i <= code_len,
            flags.len() == i,
            forall|q: int| 0 <= q < i ==> #[trigger] flags@[q] == (q == 0),
        decreases code_len - i,
    {
        flags.push(i == 0);
        i += 1;
    }
    let mut i: usize = 0;
    while i < all.len()
        invariant
            i <= all.len(),
            flags.len() == code_len,
            forall|q: int|
                0 <= q < code_len ==> #[trigger] flags@[q] == (q == 0 || exists|j: int|
                    0 <= j < i && starts_for(#[trigger] ins[j], q)),
        decreases all.len() - i,
    {
        assert(ins[i as int] == all@[i as int]@);
        mark_instruction(&mut flags, &all[i]);
        i += 1;
    }
    let mut k: usize = 0;
    while k < table.len()
        invariant
            k <= table.len(),
            flags.len() == code_len,
            forall|q: int|
                0 <= q < code_len ==> #[trigger] flags@[q] == (q == 0 || (exists|j: int|
                    0 <= j < ins.len() && starts_for(#[trigger] ins[j], q)) || exists|j: int|
                    0 <= j < k && bounds_at(#[trigger] table@[j], q)),
        decreases table.len() - k,
    {
        let e = table[k];
        mark(&mut flags, e.0);
        mark(&mut flags, e.1);
        mark(&mut flags, e.2);
        assert forall|q: int| 0 <= q < code_len implies #[trigger] flags@[q] == (q == 0 || (exists|
            j: int,
        | 0 <= j < ins.len() && starts_for(#[trigger] ins[j], q)) || exists|j: int|
            0 <= j < k + 1 && bounds_at(#[trigger] table@[j], q)) by {
            assert(bounds_at(table@[k as int], q) == (e.0 == q || e.1 == q || e.2 == q));
        }
        k += 1;
    }
    let mut p: u16 = 0;
    while p < code_len
        invariant
            p <= code_len,
            starts@ == leaders_below(p as nat, ins, table@),
        decreases code_len - p,
    {
        assert(flags@[p as int] == is_leader(p as int, ins, table@));
        if flags[p as usize] {
            starts.push(p);
        }
        p += 1;
    }
    starts
}

// ---------------------------------------------------------------------
// Blocks.

/// The end of block `i`: the next start, or the end of the code.
pub open spec fn block_end(starts: Seq<u16>, i: int, code_len: u16) -> u16 {
    let e = if i + 1 < starts.len() {
        starts[i + 1]
    } else {
        code_len
    };
    if e < starts[i] {
        starts[i]
    } else {
        e
    }
}

/// The instructions of `all` that lie between `start` and `end`.
pub open spec fn between(all: Seq<InstructionV>, start: u16, end: u16) -> Seq<InstructionV>
    decreases all.len(),
{
    if all.len() == 0 {
        seq![]
    } else {
        let front = between(all.drop_last(), start, end);
        let i = all.last();
        if i.pc >= start && i.pc + i.size <= end {
            front.push(i)
        } else {
            front
        }
    }
}

/// The blocks that the pcs lie in.
pub open spec fn blocks_of(starts: Seq<u16>, code_len: u16, pcs: Seq<u16>) -> Seq<usize>
    decreases pcs.len(),
{
    if pcs.len() == 0 {
        seq![]
    } else {
        let front = blocks_of(starts, code_len, pcs.drop_last());
        match within(starts, code_len, pcs.last()) {
            Some(b) => if front.contains(b as usize) {
                front
            } else {
                front.push(b as usize)
            },
            None => front,
        }
    }
}

/// The pcs that control goes to after `last`.
pub open spec fn next_pcs(last: InstructionV) -> Seq<u16> {
    match last.op {
        Opcode::Goto => seq![low16(last.a)],
        Opcode::GotoW => seq![low16(last.a)],
        Opcode::Jsr => seq![low16(last.a)],
        Opcode::JsrW => seq![low16(last.a)],
        Opcode::Tableswitch => last.targets,
        Opcode::Lookupswitch => last.targets,
        Opcode::Ret => seq![],
        _ => if last.is_terminal {
            seq![]
        } else if last.is_jump {
            seq![(last.pc + last.size) as u16, low16(last.a)]
        } else {
            seq![(last.pc + last.size) as u16]
        },
    }
}

/// The successors of a block with these instructions, each once.
pub open spec fn successors(
    starts: Seq<u16>,
    code_len: u16,
    ins: Seq<InstructionV>,
) -> Seq<usize> {
    if ins.len() == 0 {
        seq![]
    } else {
        blocks_of(starts, code_len, next_pcs(ins.last()))
    }
}

/// A copy of an instruction.
fn clone_instruction(i: &Instruction) -> (r: Instruction)
    ensures
        r@ == i@,
{
    let switch_data = match &i.switch_data {
        Some(d) => Some(
            match d {
                SwitchData::Table { low, targets } => SwitchData::Table {
                    low: *low,
                    targets: clone_pcs(targets),
                },
                SwitchData::Lookup { pairs } => SwitchData::Lookup { pairs: clone_pairs(pairs) },
            },
        ),
        None => None,
    };
    Instruction {
        pc: i.pc,
        size: i.size,
        op: i.op,
        name: i.name.clone(),
        a: i.a,
        b: i.b,
        switch_data,
        is_jump: i.is_jump,
        is_terminal: i.is_terminal,
        targets: clone_pcs(&i.targets),
    }
}

/// A copy of a list of pcs.
pub fn clone_pcs(v: &Vec<u16>) -> (r: Vec<u16>)
    ensures
        r@ == v@,
{
    let mut r: Vec<u16> = Vec::new();
    let mut i: usize = 0;
    while i < v.len()
        invariant
            i <= v.len(),
            r@ == v@.take(i as int),
        decreases v.len() - i,
    {
        r.push(v[i]);
        i += 1;
        assert(r@ =~= v@.take(i as int));
    }
    assert(v@.take(i as int) =~= v@);
    r
}

/// A copy of a list of keys with targets.
pub fn clone_pairs(v: &Vec<(i32, u16)>) -> (r: Vec<(i32, u16)>)
    ensures
        r@ == v@,
{
    let mut r: Vec<(i32, u16)> = Vec::new();
    let mut i: usize = 0;
    while i < v.len()
        invariant
            i <= v.len(),
            r@ == v@.take(i as int),
        decreases v.len() - i,
    {
        r.push(v[i]);
        i += 1;
        assert(r@ =~= v@.take(i as int));
    }
    assert(v@.take(i as int) =~= v@);
    r
}

/// The instructions that lie between `start` and `end`.
#[verifier::loop_isolation(false)]
fn slice(all: &Vec<Instruction>, start: u16, end: u16) -> (r: Vec<Instruction>)
    ensures
        instructions(r@) == between(instructions(all@), start, end),
{
    let ghost ins = instructions(all@);
    let mut r: Vec<Instruction> = Vec::new();
    let mut i: usize = 0;
    assert(instructions(r@) =~= between(ins.take(0), start, end));
    while i < all.len()
        invariant
            i <= all.len(),
            instructions(r@) == between(ins.take(i as int), start, end),
        decreases all.len() - i,
    {
        let ghost before = instructions(r@);
        assert(ins.take(i + 1).drop_last() =~= ins.take(i as int));
        assert(ins.take(i + 1).last() == all@[i as int]@);
        let x = &all[i];
        if x.pc >= start && x.pc as u32 + x.size as u32 <= end as u32 {
            r.push(clone_instruction(x));
            assert(instructions(r@) =~= before.push(x@));
        }
        i += 1;
    }
    assert(ins.take(i as int) =~= ins);
    r
}

/// Whether `x` is one of `list`.
fn holds(list: &Vec<usize>, x: usize) -> (r: bool)
    ensures
        r == list@.contains(x),
{
    let mut i: usize = 0;
    while i < list.len()
        invariant
            i <= list.len(),
            forall|j: int| 0 <= j < i ==> list@[j] != x,
        decreases list.len() - i,
    {
        if list[i] == x {
            return true;
        }
        i += 1;
    }
    false
}

/// The blocks that the pcs lie in.
#[verifier::loop_isolation(false)]
fn find_blocks(starts: &Vec<u16>, code_len: u16, pcs: &Vec<u16>) -> (r: Vec<usize>)
    ensures
        r@ == blocks_of(starts@, code_len, pcs@),
{
    let mut r: Vec<usize> = Vec::new();
    let mut i: usize = 0;
    while i < pcs.len()
        invariant
            i <= pcs.len(),
            r@ == blocks_of(starts@, code_len, pcs@.take(i as int)),
        decreases pcs.len() - i,
    {
        assert(pcs@.take(i + 1).drop_last() =~= pcs@.take(i as int));
        if let Some(b) = index_within(starts, code_len, pcs[i]) {
            if !holds(&r, b) {
                r.push(b);
            }
        }
        i += 1;
    }
    assert(pcs@.take(i as int) =~= pcs@);
    r
}

/// The pcs that control goes to after `last`.
fn jump_pcs(last: &Instruction) -> (r: Vec<u16>)
    requires
        last.pc + last.size <= u16::MAX,
    ensures
        r@ == next_pcs(last@),
{
    let next = last.pc + last.size;
    let far = to_u16(last.a);
    let mut r: Vec<u16> = Vec::new();
    match last.op {
        Opcode::Goto | Opcode::GotoW | Opcode::Jsr | Opcode::JsrW => {
            r.push(far);
            assert(r@ =~= seq![far]);
        },
        Opcode::Tableswitch | Opcode::Lookupswitch => {
            r = clone_pcs(&last.targets);
        },
        Opcode::Ret => {},
        _ => {
            if last.is_terminal {
            } else if last.is_jump {
                r.push(next);
                r.push(far);
                assert(r@ =~= seq![next, far]);
            } else {
                r.push(next);
                assert(r@ =~= seq![next]);
            }
        },
    }
    assert(r@ =~= next_pcs(last@));
    r
}

/// Instructions that lie between two pcs end there.
proof fn lemma_between(all: Seq<InstructionV>, start: u16, end: u16, k: int)
    requires
        0 <= k < between(all, start, end).len(),
    ensures
        between(all, start, end)[k].pc + between(all, start, end)[k].size <= end,
    decreases all.len(),
{
    let front = between(all.drop_last(), start, end);
    if k < front.len() {
        lemma_between(all.drop_last(), start, end, k);
    }
}

/// Block `i` without predecessors and handlers.
pub open spec fn bare_block(
    starts: Seq<u16>,
    i: int,
    code_len: u16,
    all: Seq<InstructionV>,
) -> BlockV {
    let end = block_end(starts, i, code_len);
    let ins = between(all, starts[i], end);
    BlockV {
        id: i as usize,
        start: starts[i],
        end,
        ins,
        succ: successors(starts, code_len, ins),
        pred: seq![],
        handlers: seq![],
    }
}

/// All blocks without predecessors and handlers.
pub open spec fn bare_blocks(starts: Seq<u16>, code_len: u16, all: Seq<InstructionV>) -> Seq<
    BlockV,
> {
    Seq::new(starts.len(), |i: int| bare_block(starts, i, code_len, all))
}

/// The first `n` blocks that lead to block `b`.
pub open spec fn predecessors(blocks: Seq<BlockV>, b: usize, n: nat) -> Seq<usize>
    decreases n,
{
    if n == 0 {
        seq![]
    } else {
        let front = predecessors(blocks, b, (n - 1) as nat);
        if blocks[n - 1].succ.contains(b) {
            front.push((n - 1) as usize)
        } else {
            front
        }
    }
}

/// Of the first `n` ranges those whose handler is block `b`.
pub open spec fn handled_by(
    starts: Seq<u16>,
    code_len: u16,
    ranges: Seq<ExcRangeV>,
    b: usize,
    n: nat,
) -> Seq<usize>
    decreases n,
{
    if n == 0 {
        seq![]
    } else {
        let front = handled_by(starts, code_len, ranges, b, (n - 1) as nat);
        if within(starts, code_len, ranges[n - 1].handler) == Some(b as nat) {
            front.push((n - 1) as usize)
        } else {
            front
        }
    }
}

/// A block whose first instruction lies in a range.
pub open spec fn is_protected(b: BlockV, r: ExcRangeV) -> bool {
    b.start >= r.start && b.start < r.end && b.ins.len() > 0
}

/// The edges from the first `n` blocks to the handler of range `ri`.
pub open spec fn range_edges(
    starts: Seq<u16>,
    code_len: u16,
    blocks: Seq<BlockV>,
    r: ExcRangeV,
    ri: nat,
    n: nat,
) -> Seq<ExcEdge>
    decreases n,
{
    if n == 0 {
        seq![]
    } else {
        let front = range_edges(starts, code_len, blocks, r, ri, (n - 1) as nat);
        match within(starts, code_len, r.handler) {
            Some(h) => if is_protected(blocks[n - 1], r) {
                front.push(ExcEdge { range: ri as usize, from: (n - 1) as usize, to: h as usize })
            } else {
                front
            },
            None => front,
        }
    }
}

/// The edges of the first `n` ranges.
pub open spec fn all_edges(
    starts: Seq<u16>,
    code_len: u16,
    blocks: Seq<BlockV>,
    ranges: Seq<ExcRangeV>,
    n: nat,
) -> Seq<ExcEdge>
    decreases n,
{
    if n == 0 {
        seq![]
    } else {
        all_edges(starts, code_len, blocks, ranges, (n - 1) as nat) + range_edges(
            starts,
            code_len,
            blocks,
            ranges[n - 1],
            (n - 1) as nat,
            blocks.len(),
        )
    }
}

/// The range of an exception table entry.
pub open spec fn range_of(pc: PoolClassV, e: (u16, u16, u16, u16)) -> ExcRangeV {
    ExcRangeV {
        start: e.0,
        end: e.1,
        handler: e.2,
        catch_type: if e.3 == 0 {
            None
        } else {
            class_name_at(pc, e.3)
        },
    }
}

/// The ranges of an exception table.
pub open spec fn ranges_of(pc: PoolClassV, table: Seq<(u16, u16, u16, u16)>) -> Seq<ExcRangeV> {
    Seq::new(table.len(), |i: int| range_of(pc, table[i]))
}

/// The control flow graph of a method body.
pub open spec fn cfg_of(
    pc: PoolClassV,
    all: Seq<InstructionV>,
    code_len: u16,
    table: Seq<(u16, u16, u16, u16)>,
) -> CfgV {
    let starts = leaders(code_len, all, table);
    let bare = bare_blocks(starts, code_len, all);
    let ranges = ranges_of(pc, table);
    CfgV {
        blocks: Seq::new(
            bare.len(),
            |i: int|
                BlockV {
                    pred: predecessors(bare, i as usize, bare.len()),
                    handlers: handled_by(starts, code_len, ranges, i as usize, ranges.len()),
                    ..bare[i]
                },
        ),
        entry: 0,
        exc_edges: all_edges(starts, code_len, bare, ranges, ranges.len()),
        exc_ranges: ranges,
        starts,
    }
}

/// There is an entry, blocks are numbered in order, and edges lead to blocks.
pub open spec fn is_graph(c: CfgV) -> bool {
    &&& c.entry < c.blocks.len()
    &&& forall|i: int| 0 <= i < c.blocks.len() ==> (#[trigger] c.blocks[i]).id == i
    &&& forall|i: int, k: int|
        0 <= i < c.blocks.len() && 0 <= k < c.blocks[i].succ.len() ==> (
        #[trigger] c.blocks[i].succ[k]) < c.blocks.len()
}

/// All blocks without predecessors and handlers.
#[verifier::loop_isolation(false)]
fn split(starts: &Vec<u16>, code_len: u16, all: &Vec<Instruction>) -> (r: Vec<Block>)
    ensures
        block_list(r@) == bare_blocks(starts@, code_len, instructions(all@)),
{
    let ghost ins = instructions(all@);
    let mut r: Vec<Block> = Vec::new();
    let mut i: usize = 0;
    while i < starts.len()
        invariant
            i <= starts.len(),
            r.len() == i,
            forall|j: int| 0 <= j < i ==> (#[trigger] r@[j])@ == bare_block(
                starts@,
                j,
                code_len,
                ins,
            ),
        decreases starts.len() - i,
    {
        let start = starts[i];
        let next = if i + 1 < starts.len() {
            starts[i + 1]
        } else {
            code_len
        };
        let end = if next < start {
            start
        } else {
            next
        };
        let own = slice(all, start, end);
        let succ = if own.len() == 0 {
            Vec::new()
        } else {
            let last = own.len() - 1;
            proof {
                lemma_between(ins, start, end, last as int);
                assert(instructions(own@)[last as int] == own@[last as int]@);
            }
            let pcs = jump_pcs(&own[last]);
            find_blocks(starts, code_len, &pcs)
        };
        let block = Block {
            id: i,
            start,
            end,
            ins: own,
            succ,
            pred: Vec::new(),
            handlers: Vec::new(),
        };
        assert(block@ =~= bare_block(starts@, i as int, code_len, ins));
        r.push(block);
        i += 1;
    }
    assert(block_list(r@) =~= bare_blocks(starts@, code_len, ins));
    r
}

/// The blocks that lead to block `b`.
#[verifier::loop_isolation(false)]
fn find_predecessors(blocks: &Vec<Block>, b: usize) -> (r: Vec<usize>)
    ensures
        r@ == predecessors(block_list(blocks@), b, blocks.len() as nat),
{
    let ghost all = block_list(blocks@);
    let mut r: Vec<usize> = Vec::new();
    let mut i: usize = 0;
    while i < blocks.len()
        invariant
            i <= blocks.len(),
            r@ == predecessors(all, b, i as nat),
        decreases blocks.len() - i,
    {
        assert(all[i as int] == blocks@[i as int]@);
        if holds(&blocks[i].succ, b) {
            r.push(i);
        }
        i += 1;
    }
    r
}

/// The ranges whose handler is block `b`.
#[verifier::loop_isolation(false)]
fn find_handled(
    starts: &Vec<u16>,
    code_len: u16,
    ranges: &Vec<ExcRange>,
    b: usize,
) -> (r: Vec<usize>)
    ensures
        r@ == handled_by(starts@, code_len, exc_ranges(ranges@), b, ranges.len() as nat),
{
    let ghost all = exc_ranges(ranges@);
    let mut r: Vec<usize> = Vec::new();
    let mut i: usize = 0;
    while i < ranges.len()
        invariant
            i <= ranges.len(),
            r@ == handled_by(starts@, code_len, all, b, i as nat),
        decreases ranges.len() - i,
    {
        assert(all[i as int] == ranges@[i as int]@);
        if let Some(h) = index_within(starts, code_len, ranges[i].handler) {
            if h == b {
                r.push(i);
            }
        }
        i += 1;
    }
    r
}

/// Adds the edges to the handler of range `ri` to `out`.
#[verifier::loop_isolation(false)]
fn push_edges(
    starts: &Vec<u16>,
    code_len: u16,
    blocks: &Vec<Block>,
    r: &ExcRange,
    ri: usize,
    out: &mut Vec<ExcEdge>,
)
    ensures
        final(out)@ == old(out)@ + range_edges(
            starts@,
            code_len,
            block_list(blocks@),
            r@,
            ri as nat,
            blocks.len() as nat,
        ),
{
    let ghost all = block_list(blocks@);
    let hb = index_within(starts, code_len, r.handler);
    let mut i: usize = 0;
    assert(out@ =~= old(out)@ + range_edges(starts@, code_len, all, r@, ri as nat, 0));
    while i < blocks.len()
        invariant
            i <= blocks.len(),
            out@ == old(out)@ + range_edges(starts@, code_len, all, r@, ri as nat, i as nat),
        decreases blocks.len() - i,
    {
        let b = &blocks[i];
        assert(all[i as int] == b@);
        if let Some(h) = hb {
            if b.start >= r.start && b.start < r.end && b.ins.len() > 0 {
                out.push(ExcEdge { range: ri, from: i, to: h });
            }
        }
        i += 1;
        assert(out@ =~= old(out)@ + range_edges(starts@, code_len, all, r@, ri as nat, i as nat));
    }
}

impl Cfg {
    /// Builds the control flow graph of a method body from its decoded instructions,
    /// its length and its exception table (start, end, handler and catch type).
    #[verifier::loop_isolation(false)]
    pub fn build(
        pc: &PoolClass,
        all: &Vec<Instruction>,
        code_len: u16,
        exception_table: &Vec<(u16, u16, u16, u16)>,
    ) -> (r: Cfg)
        ensures
            r@ == cfg_of(pc@, instructions(all@), code_len, exception_table@),
            is_graph(r@),
    {
        proof {
            law_edges_agree(pc@, instructions(all@), code_len, exception_table@);
            lemma_leaders_below(code_len as nat, instructions(all@), exception_table@);
        }
        let ghost ins = instructions(all@);
        let starts = find_leaders(code_len, all, exception_table);
        let mut ranges: Vec<ExcRange> = Vec::new();
        let mut i: usize = 0;
        while i < exception_table.len()
            invariant
                i <= exception_table.len(),
                ranges.len() == i,
                forall|j: int| 0 <= j < i ==> (#[trigger] ranges@[j])@ == range_of(
                    pc@,
                    exception_table@[j],
                ),
            decreases exception_table.len() - i,
        {
            let e = exception_table[i];
            let catch_type = if e.3 == 0 {
                None
            } else {
                match pc.class_name(e.3) {
                    Some(n) => Some(n.to_owned()),
                    None => None,
                }
            };
            ranges.push(ExcRange { start: e.0, end: e.1, handler: e.2, catch_type });
            i += 1;
        }
        assert(exc_ranges(ranges@) =~= ranges_of(pc@, exception_table@));
        let mut blocks = split(&starts, code_len, all);
        let ghost bare = block_list(blocks@);
        let mut exc_edges: Vec<ExcEdge> = Vec::new();
        let mut i: usize = 0;
        while i < ranges.len()
            invariant
                i <= ranges.len(),
                exc_edges@ == all_edges(starts@, code_len, bare, exc_ranges(ranges@), i as nat),
            decreases ranges.len() - i,
        {
            assert(exc_ranges(ranges@)[i as int] == ranges@[i as int]@);
            push_edges(&starts, code_len, &blocks, &ranges[i], i, &mut exc_edges);
            i += 1;
        }
        let ghost rs = exc_ranges(ranges@);
        let mut preds: Vec<Vec<usize>> = Vec::new();
        let mut i: usize = 0;
        while i < blocks.len()
            invariant
                i <= blocks.len(),
                preds.len() == i,
                forall|j: int| 0 <= j < i ==> (#[trigger] preds@[j])@ == predecessors(
                    bare,
                    j as usize,
                    bare.len(),
                ),
            decreases blocks.len() - i,
        {
            preds.push(find_predecessors(&blocks, i));
            i += 1;
        }
        let mut i: usize = blocks.len();
        while i > 0
            invariant
                i <= blocks.len(),
                preds.len() == i,
                blocks.len() == bare.len(),
                forall|j: int| 0 <= j < i ==> (#[trigger] preds@[j])@ == predecessors(
                    bare,
                    j as usize,
                    bare.len(),
                ),
                forall|j: int| 0 <= j < i ==> (#[trigger] blocks@[j])@ == bare[j],
                forall|j: int| i <= j < blocks.len() ==> (#[trigger] blocks@[j])@ == (BlockV {
                    pred: predecessors(bare, j as usize, bare.len()),
                    handlers: handled_by(starts@, code_len, rs, j as usize, rs.len()),
                    ..bare[j]
                }),
            decreases i,
        {
            i -= 1;
            let handlers = find_handled(&starts, code_len, &ranges, i);
            if let Some(pred) = preds.pop() {
                blocks[i].pred = pred;
                blocks[i].handlers = handlers;
            }
        }
        let r = Cfg { blocks, entry: 0, exc_edges, exc_ranges: ranges, starts };
        assert(r@ =~= cfg_of(pc@, ins, code_len, exception_table@));
        r
    }

    /// The block that contains a pc.
    pub fn block_at(&self, p: u16) -> (r: Option<usize>)
        ensures
            match r {
                Some(b) => containing(self@, p) == Some(b as nat),
                None => containing(self@, p) is None,
            },
    {
        match index_of(&self.starts, p) {
            Some(b) => {
                assert(self@.blocks.len() == self.blocks@.len());
                if b < self.blocks.len() && p < self.blocks[b].end {
                    Some(b)
                } else {
                    None
                }
            },
            None => None,
        }
    }

    /// Number of blocks.
    pub fn len(&self) -> (r: usize)
        ensures
            r == self@.blocks.len(),
    {
        self.blocks.len()
    }

    /// Whether there is no block.
    pub fn is_empty(&self) -> (r: bool)
        ensures
            r == (self@.blocks.len() == 0),
    {
        self.blocks.len() == 0
    }
}

// ---------------------------------------------------------------------
// Laws.

/// Every index found is that of a start at or before the pc.
proof fn lemma_start_index(starts: Seq<u16>, p: u16)
    ensures
        start_index(starts, p) matches Some(i) ==> i < starts.len() && starts[i as int] <= p,
        starts.len() > 0 && starts[0] <= p ==> start_index(starts, p) is Some,
    decreases starts.len(),
{
    if starts.len() > 0 && starts.last() > p {
        lemma_start_index(starts.drop_last(), p);
    }
}

/// The starts ascend, lie below `n` and are exactly the leaders there.
proof fn lemma_leaders_below(n: nat, all: Seq<InstructionV>, table: Seq<(u16, u16, u16, u16)>)
    requires
        n <= 65536,
    ensures
        forall|i: int|
            0 <= i < leaders_below(n, all, table).len() ==> #[trigger] leaders_below(
                n,
                all,
                table,
            )[i] < n,
        forall|i: int, j: int|
            0 <= i < j < leaders_below(n, all, table).len() ==> #[trigger] leaders_below(
                n,
                all,
                table,
            )[i] < #[trigger] leaders_below(n, all, table)[j],
        n > 0 ==> leaders_below(n, all, table).len() > 0 && leaders_below(n, all, table)[0] == 0,
    decreases n,
{
    if n > 0 {
        lemma_leaders_below((n - 1) as nat, all, table);
        if n == 1 {
            assert(leaders_below(0, all, table).len() == 0);
            assert(is_leader(0, all, table));
        }
    }
}

/// Blocks ascend, and the first one starts at the first pc.
pub proof fn law_starts_ascend(
    pc: PoolClassV,
    all: Seq<InstructionV>,
    code_len: u16,
    table: Seq<(u16, u16, u16, u16)>,
)
    ensures
        ({
            let starts = cfg_of(pc, all, code_len, table).starts;
            &&& starts.len() > 0
            &&& starts[0] == 0
            &&& forall|i: int, j: int| 0 <= i < j < starts.len() ==> starts[i] < starts[j]
        }),
{
    lemma_leaders_below(code_len as nat, all, table);
}

/// The blocks cover the code without gaps: each ends where the next one starts, the
/// last one at the end of the code.
pub proof fn law_blocks_tile(
    pc: PoolClassV,
    all: Seq<InstructionV>,
    code_len: u16,
    table: Seq<(u16, u16, u16, u16)>,
)
    ensures
        ({
            let blocks = cfg_of(pc, all, code_len, table).blocks;
            &&& blocks.len() > 0
            &&& blocks[0].start == 0
            &&& blocks.last().end == code_len
            &&& forall|i: int| 0 <= i < blocks.len() - 1 ==> (#[trigger] blocks[i]).end == blocks[i
                + 1].start
        }),
{
    lemma_leaders_below(code_len as nat, all, table);
    let c = cfg_of(pc, all, code_len, table);
    assert forall|i: int| 0 <= i < c.blocks.len() - 1 implies (#[trigger] c.blocks[i]).end
        == c.blocks[i + 1].start by {
        assert(c.starts[i] < c.starts[i + 1]);
    }
}

/// The start found is the last one at or before the pc.
proof fn lemma_start_last(starts: Seq<u16>, p: u16, i: int)
    requires
        0 <= i < starts.len(),
        starts[i] <= p,
        forall|j: int| i < j < starts.len() ==> #[trigger] starts[j] > p,
    ensures
        start_index(starts, p) == Some(i as nat),
    decreases starts.len(),
{
    if i < starts.len() - 1 {
        assert(starts[starts.len() - 1] > p);
        lemma_start_last(starts.drop_last(), p, i);
    }
}

/// The block found for a pc is the one block that contains it, and none is found
/// from the end of the code on. Edges go by the same rule.
pub proof fn law_block_at_contains(
    pc: PoolClassV,
    all: Seq<InstructionV>,
    code_len: u16,
    table: Seq<(u16, u16, u16, u16)>,
    p: u16,
    i: nat,
)
    ensures
        ({
            let c = cfg_of(pc, all, code_len, table);
            &&& containing(c, p) == Some(i) <==> i < c.blocks.len() && c.blocks[i as int].start <= p
                < c.blocks[i as int].end
            &&& containing(c, p) is Some <==> p < code_len
            &&& containing(c, p) == within(c.starts, code_len, p)
        }),
{
    law_starts_ascend(pc, all, code_len, table);
    law_blocks_tile(pc, all, code_len, table);
    let c = cfg_of(pc, all, code_len, table);
    let starts = c.starts;
    lemma_leaders_below(code_len as nat, all, table);
    lemma_start_index(starts, p);
    assert forall|k: int| 0 <= k < c.blocks.len() && c.blocks[k].start <= p < (
    #[trigger] c.blocks[k]).end implies start_index(starts, p) == Some(k as nat) by {
        assert forall|j: int| k < j < starts.len() implies #[trigger] starts[j] > p by {
            assert(c.blocks[k].end == c.blocks[k + 1].start);
            assert(starts[k + 1] <= starts[j]);
        }
        lemma_start_last(starts, p, k);
    }
    if let Some(b) = start_index(starts, p) {
        let k = b as int;
        assert(starts[k] == c.blocks[k].start);
        if p < code_len && k < starts.len() - 1 {
            assert(c.blocks[k].end == c.blocks[k + 1].start);
            if p >= c.blocks[k].end {
                lemma_start_monotone(starts, p, k + 1);
            }
        }
        if p < c.blocks[k].end && k < starts.len() - 1 {
            assert(c.blocks[k].end == c.blocks[k + 1].start);
            assert(starts[k + 1] < code_len);
        }
    }
}

/// A start at or before the pc is not past the one found.
proof fn lemma_start_monotone(starts: Seq<u16>, p: u16, i: int)
    requires
        0 <= i < starts.len(),
        starts[i] <= p,
    ensures
        start_index(starts, p) matches Some(b) && b >= i,
    decreases starts.len(),
{
    if starts.last() > p {
        lemma_start_monotone(starts.drop_last(), p, i);
    }
}

/// Blocks found are blocks.
proof fn lemma_blocks_of(starts: Seq<u16>, code_len: u16, pcs: Seq<u16>)
    requires
        starts.len() <= usize::MAX,
    ensures
        forall|i: int|
            0 <= i < blocks_of(starts, code_len, pcs).len()
                ==> #[trigger] blocks_of(starts, code_len, pcs)[i]
                < starts.len(),
    decreases pcs.len(),
{
    if pcs.len() > 0 {
        lemma_blocks_of(starts, code_len, pcs.drop_last());
        lemma_start_index(starts, pcs.last());
        let front = blocks_of(starts, code_len, pcs.drop_last());
        assert forall|i: int|
            0 <= i < blocks_of(starts, code_len, pcs).len() implies #[trigger] blocks_of(
            starts,
            code_len,
            pcs,
        )[i] < starts.len() by {
            if i < front.len() {
                assert(front[i] < starts.len());
            }
        }
    }
}

/// The predecessors of a block are the blocks that have it as a successor.
proof fn lemma_predecessors(blocks: Seq<BlockV>, b: usize, n: nat)
    requires
        n <= blocks.len() <= usize::MAX,
    ensures
        forall|p: usize| #[trigger]
            predecessors(blocks, b, n).contains(p) <==> p < n && blocks[p as int].succ.contains(b),
    decreases n,
{
    if n > 0 {
        lemma_predecessors(blocks, b, (n - 1) as nat);
        let front = predecessors(blocks, b, (n - 1) as nat);
        assert forall|p: usize| #[trigger]
            predecessors(blocks, b, n).contains(p)
                <==> p < n && blocks[p as int].succ.contains(b) by {
            let x = (n - 1) as usize;
            if blocks[n - 1].succ.contains(b) {
                assert(predecessors(blocks, b, n) == front.push(x));
                if front.contains(p) {
                    let k = choose|k: int| 0 <= k < front.len() && front[k] == p;
                    assert(front.push(x)[k] == p);
                }
                if p == x {
                    assert(front.push(x)[front.len() as int] == p);
                }
                if front.push(x).contains(p) && p != x {
                    let k = choose|k: int| 0 <= k < front.push(x).len() && front.push(x)[k] == p;
                    assert(front[k] == p);
                }
            }
        }
    }
}

/// Successors are blocks of the graph, and block `p` is a predecessor of block `b`
/// exactly where `b` is a successor of `p`.
pub proof fn law_edges_agree(
    pc: PoolClassV,
    all: Seq<InstructionV>,
    code_len: u16,
    table: Seq<(u16, u16, u16, u16)>,
)
    ensures
        ({
            let blocks = cfg_of(pc, all, code_len, table).blocks;
            &&& forall|i: int, k: int|
                0 <= i < blocks.len() && 0 <= k < blocks[i].succ.len()
                    ==> (#[trigger] blocks[i].succ[k])
                    < blocks.len()
            &&& forall|b: int, p: int|
                0 <= b < blocks.len() && 0 <= p < blocks.len()
                    ==> (#[trigger] blocks[b].pred.contains(
                    p as usize,
                ) <==> #[trigger] blocks[p].succ.contains(b as usize))
        }),
{
    let c = cfg_of(pc, all, code_len, table);
    let starts = c.starts;
    let bare = bare_blocks(starts, code_len, all);
    lemma_leaders_len(code_len as nat, all, table);
    assert forall|i: int, k: int|
        0 <= i < c.blocks.len() && 0 <= k < c.blocks[i].succ.len() implies (
    #[trigger] c.blocks[i].succ[k]) < c.blocks.len() by {
        let ins = bare[i].ins;
        if ins.len() > 0 {
            lemma_blocks_of(starts, code_len, next_pcs(ins.last()));
        }
    }
    assert forall|b: int, p: int|
        0 <= b < c.blocks.len() && 0 <= p < c.blocks.len() implies (
    #[trigger] c.blocks[b].pred.contains(p as usize) <==> #[trigger] c.blocks[p].succ.contains(
        b as usize,
    )) by {
        lemma_predecessors(bare, b as usize, bare.len());
        assert(
            predecessors(bare, b as usize, bare.len()).contains(p as usize)
                <==> bare[p].succ.contains(b as usize)
        );
    }
}

/// There are no more starts than pcs.
proof fn lemma_leaders_len(n: nat, all: Seq<InstructionV>, table: Seq<(u16, u16, u16, u16)>)
    ensures
        leaders_below(n, all, table).len() <= n,
    decreases n,
{
    if n > 0 {
        lemma_leaders_len((n - 1) as nat, all, table);
    }
}

} // verus!
