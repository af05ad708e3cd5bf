//! The operand stack of a block while its instructions are followed.
use crate::expr::{clone_expr, exprs, opt_expr, type_of, Expr, ExprV};
use crate::stmt::{stmts, Stmt, StmtV};
use crate::types::{erase, is_wide};
use vstd::prelude::*;

verus! {

/// Jump targets of a switch.
#[derive(Debug)]
pub enum SwitchTargets {
    /// Targets indexed by the key minus `low`.
    Table { low: i32, targets: Vec<u16> },
    /// Keys with their targets.
    Lookup { pairs: Vec<(i32, u16)> },
}

/// Model of [`SwitchTargets`].
pub ghost enum SwitchTargetsV {
    Table { low: i32, targets: Seq<u16> },
    Lookup { pairs: Seq<(i32, u16)> },
}

impl SwitchTargets {
    pub open spec fn view(&self) -> SwitchTargetsV {
        match self {
            SwitchTargets::Table { low, targets } => SwitchTargetsV::Table {
                low: *low,
                targets: targets@,
            },
            SwitchTargets::Lookup { pairs } => SwitchTargetsV::Lookup { pairs: pairs@ },
        }
    }
}

/// How a basic block ends.
#[derive(Debug)]
pub enum Term {
    Fallthrough,
    Goto,
    /// Jumps to the second successor when `cond` is true, else falls through.
    Cond { cond: Expr },
    Switch { selector: Expr, targets: SwitchTargets },
    Return(Option<Expr>),
    Throw(Expr),
    Jsr,
    Ret,
}

/// Model of [`Term`].
pub ghost enum TermV {
    Fallthrough,
    Goto,
    Cond { cond: ExprV },
    Switch { selector: ExprV, targets: SwitchTargetsV },
    Return(Option<ExprV>),
    Throw(ExprV),
    Jsr,
    Ret,
}

impl Term {
    pub open spec fn view(&self) -> TermV {
        match self {
            Term::Fallthrough => TermV::Fallthrough,
            Term::Goto => TermV::Goto,
            Term::Cond { cond } => TermV::Cond { cond: cond@ },
            Term::Switch { selector, targets } => TermV::Switch {
                selector: selector@,
                targets: targets@,
            },
            Term::Return(e) => TermV::Return(opt_expr(*e)),
            Term::Throw(e) => TermV::Throw(e@),
            Term::Jsr => TermV::Jsr,
            Term::Ret => TermV::Ret,
        }
    }
}

/// Why a block cannot be built.
#[derive(Debug, PartialEq)]
pub struct BuildError(pub String);

/// The error with this text.
pub fn failure(text: &str) -> (r: BuildError)
    ensures
        r.0@ == text@,
{
    BuildError(text.to_owned())
}

/// What has been built of a block: the operand stack, the statements and the end, the
/// depths of stack entries that a `dup` has copied, and the variables declared so far.
#[derive(Debug)]
pub struct Sim {
    pub stack: Vec<Expr>,
    pub stmts: Vec<Stmt>,
    pub term: Term,
    pub marks: Vec<usize>,
    pub declared: Vec<u32>,
}

/// Model of [`Sim`].
#[verifier::ext_equal]
pub ghost struct SimV {
    pub stack: Seq<ExprV>,
    pub stmts: Seq<StmtV>,
    pub term: TermV,
    pub marks: Seq<usize>,
    pub declared: Seq<u32>,
}

impl Sim {
    pub open spec fn view(&self) -> SimV {
        SimV {
            stack: exprs(self.stack@),
            stmts: stmts(self.stmts@),
            term: self.term@,
            marks: self.marks@,
            declared: self.declared@,
        }
    }
}

/// The marks below `depth`.
pub open spec fn marks_below(marks: Seq<usize>, depth: int) -> Seq<usize>
    decreases marks.len(),
{
    if marks.len() == 0 {
        seq![]
    } else if marks.last() < depth {
        marks_below(marks.drop_last(), depth).push(marks.last())
    } else {
        marks_below(marks.drop_last(), depth)
    }
}

/// The marks other than `depth`.
pub open spec fn marks_without(marks: Seq<usize>, depth: int) -> Seq<usize>
    decreases marks.len(),
{
    if marks.len() == 0 {
        seq![]
    } else if marks.last() != depth {
        marks_without(marks.drop_last(), depth).push(marks.last())
    } else {
        marks_without(marks.drop_last(), depth)
    }
}

/// The top of the stack, and what is left; marks at or above the new top go.
pub open spec fn popped(st: SimV) -> Result<(ExprV, SimV), Seq<char>> {
    if st.stack.len() == 0 {
        Err("stack underflow"@)
    } else {
        Ok(
            (
                st.stack.last(),
                SimV {
                    stack: st.stack.drop_last(),
                    marks: marks_below(st.marks, st.stack.len() - 1),
                    ..st
                },
            ),
        )
    }
}

/// The two topmost values, the top first, and what is left.
pub open spec fn popped2(st: SimV) -> Result<(ExprV, ExprV, SimV), Seq<char>> {
    match popped(st) {
        Ok((a, st1)) => match popped(st1) {
            Ok((b, st2)) => Ok((a, b, st2)),
            Err(e) => Err(e),
        },
        Err(e) => Err(e),
    }
}

/// The three topmost values, the top first, and what is left.
pub open spec fn popped3(st: SimV) -> Result<(ExprV, ExprV, ExprV, SimV), Seq<char>> {
    match popped2(st) {
        Ok((a, b, st1)) => match popped(st1) {
            Ok((c, st2)) => Ok((a, b, c, st2)),
            Err(e) => Err(e),
        },
        Err(e) => Err(e),
    }
}

/// The `n` topmost values, the top last, and what is left.
pub open spec fn popped_args(st: SimV, n: nat) -> Result<(Seq<ExprV>, SimV), Seq<char>>
    decreases n,
{
    if n == 0 {
        Ok((seq![], st))
    } else {
        match popped(st) {
            Ok((e, st1)) => match popped_args(st1, (n - 1) as nat) {
                Ok((front, st2)) => Ok((front.push(e), st2)),
                Err(e) => Err(e),
            },
            Err(e) => Err(e),
        }
    }
}

/// `e` on top of the stack.
pub open spec fn pushed(st: SimV, e: ExprV) -> SimV {
    SimV { stack: st.stack.push(e), ..st }
}

/// The values on top of the stack, the last one topmost.
pub open spec fn pushed_all(st: SimV, v: Seq<ExprV>) -> SimV {
    SimV { stack: st.stack + v, ..st }
}

/// One more statement.
pub open spec fn emitted(st: SimV, s: StmtV) -> SimV {
    SimV { stmts: st.stmts.push(s), ..st }
}

/// The block ends with `term`.
pub open spec fn ended(st: SimV, term: TermV) -> SimV {
    SimV { term, ..st }
}

/// The values that a step that failed leaves as they were.
pub open spec fn same_declared(a: SimV, b: SimV) -> bool {
    a.declared == b.declared
}

/// A value that takes two slots.
pub open spec fn wide(e: ExprV) -> bool {
    is_wide(erase(type_of(e)))
}

impl Sim {
    /// Drops the marks at or above `depth`.
    #[verifier::loop_isolation(false)]
    pub fn clear_marks(&mut self, depth: usize)
        ensures
            final(self)@ == (
                SimV { marks: marks_below(old(self)@.marks, depth as int), ..old(self)@ }
            ),
    {
        let mut kept: Vec<usize> = Vec::new();
        let mut i: usize = 0;
        while i < self.marks.len()
            invariant
                i <= self.marks.len(),
                *self == *old(self),
                kept@ == marks_below(self.marks@.take(i as int), depth as int),
            decreases self.marks.len() - i,
        {
            assert(self.marks@.take(i + 1).drop_last() =~= self.marks@.take(i as int));
            if self.marks[i] < depth {
                kept.push(self.marks[i]);
            }
            i += 1;
        }
        assert(self.marks@.take(i as int) =~= self.marks@);
        self.marks = kept;
    }

    /// Drops the mark `depth`; whether it was there.
    #[verifier::loop_isolation(false)]
    pub fn take_mark(&mut self, depth: usize) -> (r: bool)
        ensures
            r == old(self)@.marks.contains(depth),
            final(self)@ == (SimV {
                marks: marks_without(old(self)@.marks, depth as int),
                ..old(self)@
            }),
    {
        let mut kept: Vec<usize> = Vec::new();
        let mut found = false;
        let mut i: usize = 0;
        while i < self.marks.len()
            invariant
                i <= self.marks.len(),
                *self == *old(self),
                kept@ == marks_without(self.marks@.take(i as int), depth as int),
                found == exists|j: int| 0 <= j < i && #[trigger] self.marks@[j] == depth,
            decreases self.marks.len() - i,
        {
            assert(self.marks@.take(i + 1).drop_last() =~= self.marks@.take(i as int));
            if self.marks[i] != depth {
                kept.push(self.marks[i]);
            } else {
                found = true;
            }
            i += 1;
        }
        assert(self.marks@.take(i as int) =~= self.marks@);
        self.marks = kept;
        found
    }

    /// Whether `depth` is marked.
    pub fn is_marked(&self, depth: usize) -> (r: bool)
        ensures
            r == self@.marks.contains(depth),
    {
        let mut i: usize = 0;
        while i < self.marks.len()
            invariant
                i <= self.marks.len(),
                forall|j: int| 0 <= j < i ==> self.marks@[j] != depth,
            decreases self.marks.len() - i,
        {
            if self.marks[i] == depth {
                return true;
            }
            i += 1;
        }
        false
    }

    /// Takes the top of the stack.
    pub fn pop(&mut self) -> (r: Result<Expr, BuildError>)
        ensures
            match r {
                Ok(e) => popped(old(self)@) == Ok::<(ExprV, SimV), Seq<char>>((e@, final(self)@)),
                Err(x) => popped(old(self)@) == Err::<(ExprV, SimV), Seq<char>>(x.0@)
                    && final(self)@ == old(self)@,
            },
    {
        let ghost all = exprs(self.stack@);
        match self.stack.pop() {
            Some(e) => {
                assert(exprs(self.stack@) =~= all.drop_last());
                let depth = self.stack.len();
                self.clear_marks(depth);
                Ok(e)
            },
            None => Err(failure("stack underflow")),
        }
    }

    /// Takes the two topmost values, the top first.
    pub fn pop2(&mut self) -> (r: Result<(Expr, Expr), BuildError>)
        ensures
            match r {
                Ok((a, b)) => popped2(old(self)@) == Ok::<(ExprV, ExprV, SimV), Seq<char>>(
                    (a@, b@, final(self)@),
                ),
                Err(x) => popped2(old(self)@) == Err::<(ExprV, ExprV, SimV), Seq<char>>(x.0@)
                    && same_declared(final(self)@, old(self)@),
            },
    {
        let a = match self.pop() {
            Ok(a) => a,
            Err(x) => {
                return Err(x);
            },
        };
        match self.pop() {
            Ok(b) => Ok((a, b)),
            Err(x) => Err(x),
        }
    }

    /// Takes the three topmost values, the top first.
    pub fn pop3(&mut self) -> (r: Result<(Expr, Expr, Expr), BuildError>)
        ensures
            match r {
                Ok((a, b, c)) => popped3(old(self)@) == Ok::<
                    (ExprV, ExprV, ExprV, SimV),
                    Seq<char>,
                >((a@, b@, c@, final(self)@)),
                Err(x) => popped3(old(self)@) == Err::<(ExprV, ExprV, ExprV, SimV), Seq<char>>(x.0@)
                    && same_declared(final(self)@, old(self)@),
            },
    {
        let (a, b) = match self.pop2() {
            Ok(p) => p,
            Err(x) => {
                return Err(x);
            },
        };
        match self.pop() {
            Ok(c) => Ok((a, b, c)),
            Err(x) => Err(x),
        }
    }

    /// Takes the `n` topmost values, the top last.
    pub fn pop_args(&mut self, n: usize) -> (r: Result<Vec<Expr>, BuildError>)
        ensures
            match r {
                Ok(v) => popped_args(old(self)@, n as nat) == Ok::<(Seq<ExprV>, SimV), Seq<char>>(
                    (exprs(v@), final(self)@),
                ),
                Err(x) => popped_args(old(self)@, n as nat) == Err::<(Seq<ExprV>, SimV), Seq<char>>(
                    x.0@,
                ),
            },
            same_declared(final(self)@, old(self)@),
        decreases n,
    {
        if n == 0 {
            let none: Vec<Expr> = Vec::new();
            assert(exprs(none@) =~= seq![]);
            return Ok(none);
        }
        let e = match self.pop() {
            Ok(e) => e,
            Err(x) => {
                return Err(x);
            },
        };
        match self.pop_args(n - 1) {
            Ok(v) => {
                let mut v = v;
                let ghost front = exprs(v@);
                v.push(e);
                assert(exprs(v@) =~= front.push(e@));
                Ok(v)
            },
            Err(x) => Err(x),
        }
    }

    /// Puts `e` on top of the stack.
    pub fn push(&mut self, e: Expr)
        ensures
            final(self)@ == pushed(old(self)@, e@),
    {
        let ghost all = exprs(self.stack@);
        self.stack.push(e);
        assert(exprs(self.stack@) =~= all.push(e@));
    }

    /// Adds a statement.
    pub fn emit(&mut self, s: Stmt)
        ensures
            final(self)@ == emitted(old(self)@, s@),
    {
        let ghost all = stmts(self.stmts@);
        self.stmts.push(s);
        assert(stmts(self.stmts@) =~= all.push(s@));
    }

    /// Ends the block.
    pub fn end(&mut self, term: Term)
        ensures
            final(self)@ == ended(old(self)@, term@),
    {
        self.term = term;
    }

    /// The top of the stack.
    pub fn top(&self) -> (r: Option<&Expr>)
        ensures
            match r {
                Some(e) => self@.stack.len() > 0 && self@.stack.last() == e@,
                None => self@.stack.len() == 0,
            },
    {
        assert(exprs(self.stack@).len() == self.stack@.len());
        if self.stack.len() == 0 {
            None
        } else {
            let i = self.stack.len() - 1;
            assert(exprs(self.stack@)[i as int] == self.stack@[i as int]@);
            Some(&self.stack[i])
        }
    }
}

/// Whether a value takes two slots.
pub fn is_wide_value(e: &Expr) -> (r: bool)
    ensures
        r == wide(e@),
{
    e.type_ref().is_wide()
}

// ---------------------------------------------------------------------
// Stack shuffling.

/// Dropped values that do something become statements.
pub open spec fn dropped(st: SimV, e: ExprV) -> SimV {
    if crate::values::effectful(e) {
        emitted(st, StmtV::ExprStmt(e))
    } else {
        st
    }
}

/// Drops a value.
pub fn drop_value(st: &mut Sim, e: Expr)
    ensures
        final(st)@ == dropped(old(st)@, e@),
{
    if crate::values::has_side_effects(&e) {
        st.emit(Stmt::ExprStmt(e));
    }
}

/// A null check that the compiler put in: `Objects.requireNonNull` of a copy whose
/// original is still on the stack.
pub open spec fn is_implicit_check(e: ExprV, st: SimV) -> bool {
    &&& e matches ExprV::Method { cls, name, .. } && (name == "requireNonNull"@ && cls
        == "java/util/Objects"@)
    &&& st.stack.len() > 0
    &&& st.marks.contains((st.stack.len() - 1) as usize)
}

/// `pop`.
pub open spec fn op_pop(st: SimV) -> Result<SimV, Seq<char>> {
    match popped(st) {
        Ok((e, st1)) => Ok(
            if is_implicit_check(e, st1) {
                st1
            } else {
                dropped(st1, e)
            },
        ),
        Err(x) => Err(x),
    }
}

/// `pop2`: a wide value, or two others, of which the lower one comes first.
pub open spec fn op_pop2(st: SimV) -> Result<SimV, Seq<char>> {
    if st.stack.len() == 0 {
        Ok(st)
    } else {
        match popped(st) {
            Ok((a, st1)) => if wide(a) {
                Ok(dropped(st1, a))
            } else {
                match popped(st1) {
                    Ok((b, st2)) => Ok(dropped(dropped(st2, b), a)),
                    Err(x) => Err(x),
                }
            },
            Err(x) => Err(x),
        }
    }
}

/// `dup_x1`.
pub open spec fn op_dup_x1(st: SimV) -> Result<SimV, Seq<char>> {
    match popped2(st) {
        Ok((a, b, st1)) => Ok(pushed_all(st1, seq![a, b, a])),
        Err(x) => Err(x),
    }
}

/// `dup_x2`.
pub open spec fn op_dup_x2(st: SimV) -> Result<SimV, Seq<char>> {
    match popped2(st) {
        Ok((a, b, st1)) => if wide(b) {
            Ok(pushed_all(st1, seq![a, b, a]))
        } else {
            match popped(st1) {
                Ok((c, st2)) => Ok(pushed_all(st2, seq![a, c, b, a])),
                Err(x) => Err(x),
            }
        },
        Err(x) => Err(x),
    }
}

/// `dup2`. Marks stay.
pub open spec fn op_dup2(st: SimV) -> Result<SimV, Seq<char>> {
    if st.stack.len() == 0 {
        Ok(st)
    } else if wide(st.stack.last()) {
        Ok(pushed(st, st.stack.last()))
    } else if st.stack.len() == 1 {
        Err("dup2"@)
    } else {
        Ok(pushed_all(st, seq![st.stack[st.stack.len() - 2], st.stack.last()]))
    }
}

/// `dup2_x1`.
pub open spec fn op_dup2_x1(st: SimV) -> Result<SimV, Seq<char>> {
    match popped2(st) {
        Ok((a, b, st1)) => if wide(a) {
            Ok(pushed_all(st1, seq![a, b, a]))
        } else {
            match popped(st1) {
                Ok((c, st2)) => Ok(pushed_all(st2, seq![b, a, c, b, a])),
                Err(x) => Err(x),
            }
        },
        Err(x) => Err(x),
    }
}

/// `dup2_x2`.
pub open spec fn op_dup2_x2(st: SimV) -> Result<SimV, Seq<char>> {
    match popped2(st) {
        Ok((a, b, st1)) => if wide(a) && wide(b) {
            Ok(pushed_all(st1, seq![a, b, a]))
        } else {
            match popped(st1) {
                Ok((c, st2)) => if wide(a) {
                    Ok(pushed_all(st2, seq![a, c, b, a]))
                } else if wide(b) {
                    Ok(pushed_all(st2, seq![b, a, c, b, a]))
                } else {
                    match popped(st2) {
                        Ok((d, st3)) => Ok(pushed_all(st3, seq![b, a, d, c, b, a])),
                        Err(x) => Err(x),
                    }
                },
                Err(x) => Err(x),
            }
        },
        Err(x) => Err(x),
    }
}

/// `swap`.
pub open spec fn op_swap(st: SimV) -> Result<SimV, Seq<char>> {
    match popped2(st) {
        Ok((a, b, st1)) => Ok(pushed_all(st1, seq![a, b])),
        Err(x) => Err(x),
    }
}

/// What a step that may fail does: `goal` says what comes of it.
pub open spec fn step_outcome(
    r: Result<(), BuildError>,
    before: SimV,
    after: SimV,
    goal: Result<SimV, Seq<char>>,
) -> bool {
    match r {
        Ok(_) => goal == Ok::<SimV, Seq<char>>(after),
        Err(x) => goal == Err::<SimV, Seq<char>>(x.0@) && same_declared(after, before),
    }
}

/// `pop`.
pub fn do_pop(st: &mut Sim) -> (r: Result<(), BuildError>)
    ensures
        step_outcome(r, old(st)@, final(st)@, op_pop(old(st)@)),
{
    let e = match st.pop() {
        Ok(e) => e,
        Err(x) => {
            return Err(x);
        },
    };
    assert(exprs(st.stack@).len() == st.stack@.len());
    let named = match &e {
        Expr::Method { cls, name, .. } => crate::types::str_eq(name.as_str(), "requireNonNull")
            && crate::types::str_eq(cls.as_str(), "java/util/Objects"),
        _ => false,
    };
    if named && st.stack.len() > 0 && st.is_marked(st.stack.len() - 1) {
        return Ok(());
    }
    drop_value(st, e);
    Ok(())
}

/// `pop2`.
pub fn do_pop2(st: &mut Sim) -> (r: Result<(), BuildError>)
    ensures
        step_outcome(r, old(st)@, final(st)@, op_pop2(old(st)@)),
{
    assert(exprs(st.stack@).len() == st.stack@.len());
    if st.stack.len() == 0 {
        return Ok(());
    }
    let a = match st.pop() {
        Ok(a) => a,
        Err(x) => {
            return Err(x);
        },
    };
    if is_wide_value(&a) {
        drop_value(st, a);
        return Ok(());
    }
    let b = match st.pop() {
        Ok(b) => b,
        Err(x) => {
            return Err(x);
        },
    };
    drop_value(st, b);
    drop_value(st, a);
    Ok(())
}

/// `dup_x1`.
pub fn do_dup_x1(st: &mut Sim) -> (r: Result<(), BuildError>)
    ensures
        step_outcome(r, old(st)@, final(st)@, op_dup_x1(old(st)@)),
{
    let (a, b) = match st.pop2() {
        Ok(p) => p,
        Err(x) => {
            return Err(x);
        },
    };
    let ghost st1 = st@;
    st.push(clone_expr(&a));
    st.push(b);
    st.push(a);
    assert(st@ =~= pushed_all(st1, seq![a@, b@, a@]));
    Ok(())
}

/// `dup_x2`.
pub fn do_dup_x2(st: &mut Sim) -> (r: Result<(), BuildError>)
    ensures
        step_outcome(r, old(st)@, final(st)@, op_dup_x2(old(st)@)),
{
    let (a, b) = match st.pop2() {
        Ok(p) => p,
        Err(x) => {
            return Err(x);
        },
    };
    let ghost st1 = st@;
    if is_wide_value(&b) {
        st.push(clone_expr(&a));
        st.push(b);
        st.push(a);
        assert(st@ =~= pushed_all(st1, seq![a@, b@, a@]));
        return Ok(());
    }
    let c = match st.pop() {
        Ok(c) => c,
        Err(x) => {
            return Err(x);
        },
    };
    let ghost st2 = st@;
    st.push(clone_expr(&a));
    st.push(c);
    st.push(b);
    st.push(a);
    assert(st@ =~= pushed_all(st2, seq![a@, c@, b@, a@]));
    Ok(())
}

/// `dup2`.
pub fn do_dup2(st: &mut Sim) -> (r: Result<(), BuildError>)
    ensures
        step_outcome(r, old(st)@, final(st)@, op_dup2(old(st)@)),
{
    let ghost start = st@;
    assert(exprs(st.stack@).len() == st.stack@.len());
    let n = st.stack.len();
    if n == 0 {
        return Ok(());
    }
    assert(exprs(st.stack@)[n - 1] == st.stack@[n - 1]@);
    let a = clone_expr(&st.stack[n - 1]);
    if is_wide_value(&a) {
        st.push(a);
        return Ok(());
    }
    if n == 1 {
        return Err(failure("dup2"));
    }
    assert(exprs(st.stack@)[n - 2] == st.stack@[n - 2]@);
    let b = clone_expr(&st.stack[n - 2]);
    st.push(b);
    st.push(a);
    assert(st@ =~= pushed_all(start, seq![b@, a@]));
    Ok(())
}

/// `dup2_x1`.
pub fn do_dup2_x1(st: &mut Sim) -> (r: Result<(), BuildError>)
    ensures
        step_outcome(r, old(st)@, final(st)@, op_dup2_x1(old(st)@)),
{
    let (a, b) = match st.pop2() {
        Ok(p) => p,
        Err(x) => {
            return Err(x);
        },
    };
    let ghost st1 = st@;
    if is_wide_value(&a) {
        st.push(clone_expr(&a));
        st.push(b);
        st.push(a);
        assert(st@ =~= pushed_all(st1, seq![a@, b@, a@]));
        return Ok(());
    }
    let c = match st.pop() {
        Ok(c) => c,
        Err(x) => {
            return Err(x);
        },
    };
    let ghost st2 = st@;
    st.push(clone_expr(&b));
    st.push(clone_expr(&a));
    st.push(c);
    st.push(b);
    st.push(a);
    assert(st@ =~= pushed_all(st2, seq![b@, a@, c@, b@, a@]));
    Ok(())
}

/// `dup2_x2`.
pub fn do_dup2_x2(st: &mut Sim) -> (r: Result<(), BuildError>)
    ensures
        step_outcome(r, old(st)@, final(st)@, op_dup2_x2(old(st)@)),
{
    let (a, b) = match st.pop2() {
        Ok(p) => p,
        Err(x) => {
            return Err(x);
        },
    };
    let ghost st1 = st@;
    let wide_a = is_wide_value(&a);
    let wide_b = is_wide_value(&b);
    if wide_a && wide_b {
        st.push(clone_expr(&a));
        st.push(b);
        st.push(a);
        assert(st@ =~= pushed_all(st1, seq![a@, b@, a@]));
        return Ok(());
    }
    let c = match st.pop() {
        Ok(c) => c,
        Err(x) => {
            return Err(x);
        },
    };
    let ghost st2 = st@;
    if wide_a {
        st.push(clone_expr(&a));
        st.push(c);
        st.push(b);
        st.push(a);
        assert(st@ =~= pushed_all(st2, seq![a@, c@, b@, a@]));
        return Ok(());
    }
    if wide_b {
        st.push(clone_expr(&b));
        st.push(clone_expr(&a));
        st.push(c);
        st.push(b);
        st.push(a);
        assert(st@ =~= pushed_all(st2, seq![b@, a@, c@, b@, a@]));
        return Ok(());
    }
    let d = match st.pop() {
        Ok(d) => d,
        Err(x) => {
            return Err(x);
        },
    };
    let ghost st3 = st@;
    st.push(clone_expr(&b));
    st.push(clone_expr(&a));
    st.push(d);
    st.push(c);
    st.push(b);
    st.push(a);
    assert(st@ =~= pushed_all(st3, seq![b@, a@, d@, c@, b@, a@]));
    Ok(())
}

/// `swap`.
pub fn do_swap(st: &mut Sim) -> (r: Result<(), BuildError>)
    ensures
        step_outcome(r, old(st)@, final(st)@, op_swap(old(st)@)),
{
    let (a, b) = match st.pop2() {
        Ok(p) => p,
        Err(x) => {
            return Err(x);
        },
    };
    let ghost st1 = st@;
    st.push(a);
    st.push(b);
    assert(st@ =~= pushed_all(st1, seq![a@, b@]));
    Ok(())
}

// ---------------------------------------------------------------------
// Laws of the stack.

/// All marks lie on the stack.
pub open spec fn marks_within(st: SimV) -> bool {
    forall|i: int| 0 <= i < st.marks.len() ==> (#[trigger] st.marks[i]) < st.stack.len()
}

/// Marks below `depth` stay as they are.
proof fn lemma_marks_kept(marks: Seq<usize>, depth: int)
    requires
        forall|i: int| 0 <= i < marks.len() ==> (#[trigger] marks[i]) < depth,
    ensures
        marks_below(marks, depth) == marks,
    decreases marks.len(),
{
    if marks.len() > 0 {
        let front = marks.drop_last();
        assert forall|i: int| 0 <= i < front.len() implies (#[trigger] front[i]) < depth by {
            assert(front[i] == marks[i]);
        }
        lemma_marks_kept(front, depth);
        assert(marks[marks.len() - 1] < depth);
        assert(front.push(marks.last()) =~= marks);
    } else {
        assert(marks =~= seq![]);
    }
}

/// Marks that are left lie below `depth`.
proof fn lemma_marks_below(marks: Seq<usize>, depth: int)
    ensures
        forall|i: int|
            0 <= i < marks_below(marks, depth).len() ==> (#[trigger] marks_below(marks, depth)[i])
                < depth,
    decreases marks.len(),
{
    if marks.len() > 0 {
        lemma_marks_below(marks.drop_last(), depth);
        let front = marks_below(marks.drop_last(), depth);
        let all = marks_below(marks, depth);
        assert forall|i: int| 0 <= i < all.len() implies (#[trigger] all[i]) < depth by {
            if i < front.len() {
                assert(all[i] == front[i]);
            }
        }
    }
}

/// What was pushed last is popped first, and the rest is as before.
pub proof fn law_pop_undoes_push(st: SimV, e: ExprV)
    requires
        marks_within(st),
    ensures
        popped(pushed(st, e)) == Ok::<(ExprV, SimV), Seq<char>>((e, st)),
{
    lemma_marks_kept(st.marks, st.stack.len() as int);
    assert(st.stack.push(e).drop_last() =~= st.stack);
}

/// Arguments come off the stack in the order in which they were pushed.
pub proof fn law_arguments_keep_order(st: SimV, v: Seq<ExprV>)
    requires
        marks_within(st),
    ensures
        popped_args(pushed_all(st, v), v.len()) == Ok::<(Seq<ExprV>, SimV), Seq<char>>((v, st)),
    decreases v.len(),
{
    if v.len() == 0 {
        assert(v =~= seq![]);
        assert(st.stack + v =~= st.stack);
    } else {
        let front = v.drop_last();
        let below = pushed_all(st, front);
        law_arguments_keep_order(st, front);
        assert forall|i: int| 0 <= i < below.marks.len() implies (#[trigger] below.marks[i])
            < below.stack.len() by {
            assert(st.marks[i] < st.stack.len());
        }
        law_pop_undoes_push(below, v.last());
        assert(pushed(below, v.last()) =~= pushed_all(st, v));
        assert(front.push(v.last()) =~= v);
    }
}

/// Swapping twice leaves the stack as it was.
pub proof fn law_swap_twice(st: SimV)
    requires
        st.stack.len() >= 2,
    ensures
        op_swap(st) matches Ok(st1) && (op_swap(st1) matches Ok(st2) && (st2.stack == st.stack
            && st2.stmts == st.stmts)),
{
    let n = st.stack.len() as int;
    if let Ok(st1) = op_swap(st) {
        assert(st1.stack =~= st.stack.take(n - 2).push(st.stack[n - 1]).push(st.stack[n - 2]));
        if let Ok(st2) = op_swap(st1) {
            assert(st2.stack =~= st.stack);
        }
    }
}

/// Popping keeps all marks on the stack.
pub proof fn law_pop_keeps_marks_within(st: SimV)
    ensures
        popped(st) matches Ok((_, st1)) ==> marks_within(st1),
{
    lemma_marks_below(st.marks, st.stack.len() - 1);
}

/// Popping a copy that `dup2` made of a wide value leaves the state as it was, where the
/// value does nothing.
pub proof fn law_pop2_undoes_dup2(st: SimV)
    requires
        marks_within(st),
        st.stack.len() > 0,
        wide(st.stack.last()),
        !crate::values::effectful(st.stack.last()),
    ensures
        op_dup2(st) matches Ok(st1) && op_pop2(st1) == Ok::<SimV, Seq<char>>(st),
{
    law_pop_undoes_push(st, st.stack.last());
}

} // verus!
