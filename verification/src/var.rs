//! The table of local variables of a method.
use crate::types::{JType, JTypeV, TypeRef, TypeRefV};
use std::collections::HashSet;
use vstd::prelude::*;

verus! {

/// A local variable: its slot, name and type, and the code range it lives in.
#[derive(Debug, PartialEq)]
pub struct VarInfo {
    pub id: u32,
    pub slot: u16,
    pub name: String,
    pub ty: TypeRef,
    pub is_param: bool,
    pub range_start: u16,
    pub range_end: u16,
    /// The name was made up (no debug information).
    pub synthetic_name: bool,
}

/// Model of [`VarInfo`].
pub ghost struct VarInfoV {
    pub id: u32,
    pub slot: u16,
    pub name: Seq<char>,
    pub ty: TypeRefV,
    pub is_param: bool,
    pub range_start: u16,
    pub range_end: u16,
    pub synthetic_name: bool,
}

/// All local variables of a method. A variable's id is its index in `vars`.
#[derive(Debug)]
pub struct VarTable {
    pub vars: Vec<VarInfo>,
    /// Per slot: `(start, end, id)` of each live range, in order.
    pub by_slot: Vec<Vec<(u16, u16, u32)>>,
    pub has_lvt: bool,
    pub stack_vars: Vec<u32>,
    pub wide_stack_vars: HashSet<u32>,
    pub handler_starts: Vec<u16>,
}

/// Model of [`VarTable`].
pub ghost struct VarTableV {
    pub vars: Seq<VarInfoV>,
    pub by_slot: Seq<Seq<(u16, u16, u32)>>,
    pub has_lvt: bool,
    pub stack_vars: Seq<u32>,
    pub wide_stack_vars: Set<u32>,
    pub handler_starts: Seq<u16>,
}

impl VarInfo {
    pub open spec fn view(&self) -> VarInfoV {
        VarInfoV {
            id: self.id,
            slot: self.slot,
            name: self.name@,
            ty: self.ty@,
            is_param: self.is_param,
            range_start: self.range_start,
            range_end: self.range_end,
            synthetic_name: self.synthetic_name,
        }
    }
}

/// Model of the list of variables.
pub open spec fn var_infos(v: Seq<VarInfo>) -> Seq<VarInfoV> {
    Seq::new(v.len(), |i: int| v[i]@)
}

/// Model of the ranges of every slot.
pub open spec fn slot_ranges(v: Seq<Vec<(u16, u16, u32)>>) -> Seq<Seq<(u16, u16, u32)>> {
    Seq::new(v.len(), |i: int| v[i]@)
}

impl VarTable {
    pub open spec fn view(&self) -> VarTableV {
        VarTableV {
            vars: var_infos(self.vars@),
            by_slot: slot_ranges(self.by_slot@),
            has_lvt: self.has_lvt,
            stack_vars: self.stack_vars@,
            wide_stack_vars: self.wide_stack_vars@,
            handler_starts: self.handler_starts@,
        }
    }
}

/// `id` names a variable of the table.
pub open spec fn has_var(vt: VarTableV, id: u32) -> bool {
    id < vt.vars.len()
}

/// Whether `id` is a parameter; an unknown id is not.
pub open spec fn is_param(vt: VarTableV, id: u32) -> bool {
    has_var(vt, id) && vt.vars[id as int].is_param
}

/// Whether the name of `id` was made up; that of an unknown id was.
pub open spec fn is_synthetic(vt: VarTableV, id: u32) -> bool {
    has_var(vt, id) ==> vt.vars[id as int].synthetic_name
}

/// Type of `id`; `int` for an unknown id.
pub open spec fn var_type(vt: VarTableV, id: u32) -> TypeRefV {
    if has_var(vt, id) {
        vt.vars[id as int].ty
    } else {
        TypeRefV::J(JTypeV::Int)
    }
}

/// Slot of `id`; the largest slot for an unknown id.
pub open spec fn var_slot(vt: VarTableV, id: u32) -> u16 {
    if has_var(vt, id) {
        vt.vars[id as int].slot
    } else {
        u16::MAX
    }
}

/// A range that begins at a handler, or one or two past it: where the caught
/// exception is stored.
pub open spec fn starts_at_handler(handlers: Seq<u16>, start: u16) -> bool {
    exists|i: int| 0 <= i < handlers.len() && start - 2 <= #[trigger] handlers[i] <= start
}

/// Range `r` holds `pc`.
pub open spec fn holds_pc(r: (u16, u16, u32), pc: u16) -> bool {
    r.0 <= pc < r.1
}

/// Range `r` begins at most eight past `pc`, not at a handler.
pub open spec fn begins_soon(r: (u16, u16, u32), pc: u16, handlers: Seq<u16>) -> bool {
    pc < r.0 <= pc + 8 && !starts_at_handler(handlers, r.0)
}

/// Index of the first element that satisfies `p`.
pub open spec fn first_index<T>(s: Seq<T>, p: spec_fn(T) -> bool) -> Option<int>
    decreases s.len(),
{
    if s.len() == 0 {
        None
    } else {
        match first_index(s.drop_last(), p) {
            Some(i) => Some(i),
            None => if p(s.last()) {
                Some(s.len() - 1)
            } else {
                None
            },
        }
    }
}

/// Index of the last element that satisfies `p`.
pub open spec fn last_index<T>(s: Seq<T>, p: spec_fn(T) -> bool) -> Option<int>
    decreases s.len(),
{
    if s.len() == 0 {
        None
    } else if p(s.last()) {
        Some(s.len() - 1)
    } else {
        last_index(s.drop_last(), p)
    }
}

/// The variable of `slot` at `pc`: the first range that holds `pc`; else the first
/// that begins soon after it (debug ranges start just past the initialising
/// store) but not at a handler; else the last one begun before; else the first.
pub open spec fn var_at(vt: VarTableV, slot: u16, pc: u16) -> Option<u32> {
    if slot >= vt.by_slot.len() {
        None
    } else {
        let rs = vt.by_slot[slot as int];
        match first_index(rs, |r: (u16, u16, u32)| holds_pc(r, pc)) {
            Some(i) => Some(rs[i].2),
            None => match first_index(
                rs,
                |r: (u16, u16, u32)| begins_soon(r, pc, vt.handler_starts),
            ) {
                Some(i) => Some(rs[i].2),
                None => match last_index(rs, |r: (u16, u16, u32)| r.0 <= pc) {
                    Some(i) => Some(rs[i].2),
                    None => if rs.len() > 0 {
                        Some(rs[0].2)
                    } else {
                        None
                    },
                },
            },
        }
    }
}

/// The id that the next variable gets: ids wrap at 32 bits.
pub open spec fn next_id(vt: VarTableV) -> u32 {
    (vt.vars.len() % 0x1_0000_0000) as u32
}

/// A variable added without debug information, alive everywhere.
pub open spec fn made_up(vt: VarTableV, slot: u16, name: Seq<char>, ty: TypeRefV) -> VarInfoV {
    VarInfoV {
        id: next_id(vt),
        slot,
        name,
        ty,
        is_param: false,
        range_start: 0,
        range_end: u16::MAX,
        synthetic_name: true,
    }
}

/// The ranges of every slot, with room for `slot`.
pub open spec fn padded(by_slot: Seq<Seq<(u16, u16, u32)>>, slot: u16) -> Seq<
    Seq<(u16, u16, u32)>,
> {
    Seq::new(
        if by_slot.len() <= slot {
            slot as nat + 1
        } else {
            by_slot.len()
        },
        |i: int|
            if i < by_slot.len() {
                by_slot[i]
            } else {
                seq![]
            },
    )
}

/// The table with a made-up variable on `slot`.
pub open spec fn with_var(vt: VarTableV, slot: u16, name: Seq<char>, ty: TypeRefV) -> VarTableV {
    let rows = padded(vt.by_slot, slot);
    VarTableV {
        vars: vt.vars.push(made_up(vt, slot, name, ty)),
        by_slot: rows.update(slot as int, rows[slot as int].push((0, u16::MAX, next_id(vt)))),
        ..vt
    }
}

/// The table with variable `id` given type `ty`.
pub open spec fn with_type(vt: VarTableV, id: u32, ty: TypeRefV) -> VarTableV {
    VarTableV {
        vars: vt.vars.update(id as int, VarInfoV { ty, ..vt.vars[id as int] }),
        ..vt
    }
}

/// What [`first_index`] finds.
pub proof fn lemma_first_index<T>(s: Seq<T>, p: spec_fn(T) -> bool)
    ensures
        match first_index(s, p) {
            Some(i) => 0 <= i < s.len() && p(s[i]) && forall|j: int|
                0 <= j < i ==> !p(#[trigger] s[j]),
            None => forall|j: int| 0 <= j < s.len() ==> !p(#[trigger] s[j]),
        },
    decreases s.len(),
{
    if s.len() > 0 {
        lemma_first_index(s.drop_last(), p);
        assert forall|j: int| 0 <= j < s.len() - 1 implies s.drop_last()[j] == #[trigger] s[j] by {}
    }
}

/// What [`last_index`] finds.
pub proof fn lemma_last_index<T>(s: Seq<T>, p: spec_fn(T) -> bool)
    ensures
        match last_index(s, p) {
            Some(i) => 0 <= i < s.len() && p(s[i]) && forall|j: int|
                i < j < s.len() ==> !p(#[trigger] s[j]),
            None => forall|j: int| 0 <= j < s.len() ==> !p(#[trigger] s[j]),
        },
    decreases s.len(),
{
    if s.len() > 0 {
        lemma_last_index(s.drop_last(), p);
        assert forall|j: int| 0 <= j < s.len() - 1 implies s.drop_last()[j] == #[trigger] s[j] by {}
    }
}

impl VarTable {
    /// The variable of `slot` at `pc`.
    #[verifier::loop_isolation(false)]
    pub fn at(&self, slot: u16, pc: u16) -> (r: Option<u32>)
        ensures
            r == var_at(self@, slot, pc),
    {
        if slot as usize >= self.by_slot.len() {
            return None;
        }
        let rs = &self.by_slot[slot as usize];
        let ghost holds = |r: (u16, u16, u32)| holds_pc(r, pc);
        let ghost soon = |r: (u16, u16, u32)| begins_soon(r, pc, self.handler_starts@);
        let ghost begun = |r: (u16, u16, u32)| r.0 <= pc;
        assert(self@.by_slot[slot as int] == rs@);
        proof {
            lemma_first_index(rs@, holds);
            lemma_first_index(rs@, soon);
            lemma_last_index(rs@, begun);
        }
        let mut i: usize = 0;
        while i < rs.len()
            invariant
                i <= rs.len(),
                forall|j: int| 0 <= j < i ==> !holds_pc(#[trigger] rs@[j], pc),
            decreases rs.len() - i,
        {
            if pc >= rs[i].0 && pc < rs[i].1 {
                assert(holds(rs@[i as int]));
                assert(first_index(rs@, holds) == Some(i as int)) by {
                    match first_index(rs@, holds) {
                        Some(k) => {
                            assert(holds(rs@[k]));
                            if k < i {
                                assert(!holds_pc(rs@[k], pc));
                            }
                        },
                        None => {},
                    }
                }
                return Some(rs[i].2);
            }
            i += 1;
        }
        assert(first_index(rs@, holds) is None);
        let mut i: usize = 0;
        while i < rs.len()
            invariant
                i <= rs.len(),
                forall|j: int|
                    0 <= j < i ==> !begins_soon(#[trigger] rs@[j], pc, self.handler_starts@),
            decreases rs.len() - i,
        {
            if rs[i].0 > pc && rs[i].0 - pc <= 8 && !self.starts_at_handler(rs[i].0) {
                assert(soon(rs@[i as int]));
                assert(first_index(rs@, soon) == Some(i as int)) by {
                    match first_index(rs@, soon) {
                        Some(k) => {
                            assert(soon(rs@[k]));
                            if k < i {
                                assert(!begins_soon(rs@[k], pc, self.handler_starts@));
                            }
                        },
                        None => {},
                    }
                }
                return Some(rs[i].2);
            }
            i += 1;
        }
        assert(first_index(rs@, soon) is None);
        let mut i: usize = rs.len();
        while i > 0
            invariant
                i <= rs.len(),
                forall|j: int| i <= j < rs.len() ==> !(#[trigger] rs@[j].0 <= pc),
            decreases i,
        {
            i -= 1;
            if rs[i].0 <= pc {
                assert(begun(rs@[i as int]));
                assert(last_index(rs@, begun) == Some(i as int)) by {
                    match last_index(rs@, begun) {
                        Some(k) => {
                            assert(begun(rs@[k]));
                            if k > i {
                                assert(!(rs@[k].0 <= pc));
                            }
                        },
                        None => {},
                    }
                }
                return Some(rs[i].2);
            }
        }
        assert(last_index(rs@, begun) is None) by {
            match last_index(rs@, begun) {
                Some(k) => {
                    assert(begun(rs@[k]));
                    assert(!(rs@[k].0 <= pc));
                },
                None => {},
            }
        }
        if rs.len() > 0 {
            Some(rs[0].2)
        } else {
            None
        }
    }

    /// Whether a range starting at `start` stores a caught exception.
    pub fn starts_at_handler(&self, start: u16) -> (r: bool)
        ensures
            r == starts_at_handler(self.handler_starts@, start),
    {
        let mut i: usize = 0;
        while i < self.handler_starts.len()
            invariant
                i <= self.handler_starts.len(),
                forall|j: int|
                    0 <= j < i ==> !(start - 2 <= #[trigger] self.handler_starts@[j] <= start),
            decreases self.handler_starts.len() - i,
        {
            let h = self.handler_starts[i] as u32;
            let s = start as u32;
            if s == h || s == h + 1 || s == h + 2 {
                assert(start - 2 <= self.handler_starts@[i as int] <= start);
                return true;
            }
            i += 1;
        }
        false
    }

    /// Whether `id` is a parameter.
    pub fn is_param(&self, id: u32) -> (r: bool)
        ensures
            r == is_param(self@, id),
    {
        (id as usize) < self.vars.len() && self.vars[id as usize].is_param
    }

    /// Whether the name of `id` was made up.
    pub fn is_synthetic(&self, id: u32) -> (r: bool)
        ensures
            r == is_synthetic(self@, id),
    {
        id as usize >= self.vars.len() || self.vars[id as usize].synthetic_name
    }

    /// Type of `id`.
    pub fn var_type(&self, id: u32) -> (r: TypeRef)
        ensures
            r@ == var_type(self@, id),
    {
        if (id as usize) < self.vars.len() {
            self.vars[id as usize].ty.clone()
        } else {
            TypeRef::J(JType::Int)
        }
    }

    /// Slot of `id`.
    pub fn var_slot(&self, id: u32) -> (r: u16)
        ensures
            r == var_slot(self@, id),
    {
        if (id as usize) < self.vars.len() {
            self.vars[id as usize].slot
        } else {
            u16::MAX
        }
    }
}

impl VarTable {
    /// Adds a made-up variable that no slot range refers to.
    pub fn add_split(&mut self, slot: u16, name: String, ty: TypeRef) -> (r: u32)
        ensures
            r == next_id(old(self)@),
            final(self)@ == (VarTableV {
                vars: old(self)@.vars.push(made_up(old(self)@, slot, name@, ty@)),
                ..old(self)@
            }),
    {
        let id = (self.vars.len() as u64 % 0x1_0000_0000) as u32;
        let info = VarInfo {
            id,
            slot,
            name,
            ty,
            is_param: false,
            range_start: 0,
            range_end: u16::MAX,
            synthetic_name: true,
        };
        let ghost v = info@;
        self.vars.push(info);
        assert(var_infos(self.vars@) =~= old(self)@.vars.push(v));
        id
    }

    /// Adds a made-up variable on `slot`.
    #[verifier::loop_isolation(false)]
    pub fn add_catch_var(&mut self, slot: u16, name: String, ty: TypeRef) -> (r: u32)
        ensures
            r == next_id(old(self)@),
            final(self)@ == with_var(old(self)@, slot, name@, ty@),
    {
        let id = self.add_split(slot, name, ty);
        let ghost rows = slot_ranges(self.by_slot@);
        let ghost after = *self;
        while self.by_slot.len() <= slot as usize
            invariant
                rows.len() <= self.by_slot.len() <= if rows.len() <= slot {
                    slot as nat + 1
                } else {
                    rows.len()
                },
                self.by_slot.len() == rows.len() || self.by_slot.len() <= slot + 1,
                forall|j: int| 0 <= j < rows.len() ==> (#[trigger] self.by_slot@[j])@ == rows[j],
                forall|j: int|
                    rows.len() <= j < self.by_slot.len() ==> (#[trigger] self.by_slot@[j])@
                        =~= seq![],
                self.vars == after.vars,
                self.has_lvt == after.has_lvt,
                self.stack_vars == after.stack_vars,
                self.wide_stack_vars == after.wide_stack_vars,
                self.handler_starts == after.handler_starts,
            decreases slot + 1 - self.by_slot.len(),
        {
            self.by_slot.push(Vec::new());
        }
        assert(slot_ranges(self.by_slot@) =~= padded(rows, slot));
        self.by_slot[slot as usize].push((0, u16::MAX, id));
        assert(slot_ranges(self.by_slot@) =~= padded(rows, slot).update(
            slot as int,
            padded(rows, slot)[slot as int].push((0, u16::MAX, id)),
        ));
        id
    }

    /// Adds a made-up variable that stands for an operand stack entry.
    pub fn add_stack_var(&mut self, slot: u16, name: String, ty: TypeRef) -> (r: u32)
        ensures
            r == next_id(old(self)@),
            final(self)@ == (VarTableV {
                stack_vars: old(self)@.stack_vars.push(r),
                ..with_var(old(self)@, slot, name@, ty@)
            }),
    {
        let id = self.add_catch_var(slot, name, ty);
        self.stack_vars.push(id);
        id
    }

    /// Gives variable `id` a type.
    pub fn set_type(&mut self, id: u32, ty: TypeRef)
        requires
            id < old(self).vars.len(),
        ensures
            final(self)@ == with_type(old(self)@, id, ty@),
    {
        self.vars[id as usize].ty = ty;
        assert(var_infos(self.vars@) =~= with_type(old(self)@, id, ty@).vars);
    }
}

} // verus!
