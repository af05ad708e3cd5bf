//! What does not depend on the names of stack slots.
use crate::classes::{ClassPoolV, PoolClassV};
use crate::dead_stores::{
    pruned, pruned_case, pruned_cases, pruned_catch, pruned_catches, pruned_each, pruned_opt,
    pruned_seq,
};
use crate::escapes::{
    defs_demoted, defs_demoted_case, defs_demoted_cases, defs_demoted_catch, defs_demoted_catches,
    defs_demoted_opt, defs_demoted_seq, resource_demoted, resources_demoted,
};
use crate::expr::ExprV;
use crate::generic_casts::{
    assign_fixed, element_type, generic_cast, generic_cast_case, generic_cast_cases,
    generic_cast_catch, generic_cast_catches, generic_cast_opt, generic_cast_seq, wanted_type,
    CastFactsV,
};
use crate::generics::SuperLinkV;
use crate::monitors::{
    feeds_monitor, stores_dropped, stores_dropped_case, stores_dropped_cases, stores_dropped_catch,
    stores_dropped_catches, stores_dropped_each, stores_dropped_opt, stores_dropped_seq,
};
use crate::numbering::{alike, is_slot_name, same_but_number};
use crate::retype::{
    narrowing_cast, narrowing_cast_case, narrowing_cast_cases, narrowing_cast_catch,
    narrowing_cast_catches, narrowing_cast_opt, narrowing_cast_seq,
};
use crate::stmt::{CaseGroupV, CatchV, StmtV};
use crate::text::{decimal, numbered};
use crate::var::{has_var, is_param, is_synthetic, var_slot, var_type, VarInfoV, VarTableV};
use vstd::prelude::*;

verus! {

/// A decimal digit.
pub open spec fn is_digit(c: char) -> bool {
    '0' <= c <= '9'
}

/// `stack` with digits after it.
pub open spec fn is_stack_name(s: Seq<char>) -> bool {
    &&& s.len() > 5
    &&& s.take(5) == "stack"@
    &&& forall|i: int| 5 <= i < s.len() ==> is_digit(#[trigger] s[i])
}

/// The same name, or two names for stack slots.
pub open spec fn same_name(a: Seq<char>, b: Seq<char>) -> bool {
    if is_stack_name(a) || is_stack_name(b) {
        is_stack_name(a) && is_stack_name(b)
    } else {
        a == b
    }
}

/// Two variables that are the same but for the name of a stack slot.
pub open spec fn same_var(a: VarInfoV, b: VarInfoV) -> bool {
    &&& a == (VarInfoV { name: a.name, ..b })
    &&& same_name(a.name, b.name)
}

/// Two tables that are the same but for the names of stack slots.
pub open spec fn same_table(a: VarTableV, b: VarTableV) -> bool {
    &&& a == (VarTableV { vars: a.vars, ..b })
    &&& a.vars.len() == b.vars.len()
    &&& forall|i: int|
        #![trigger a.vars[i]]
        #![trigger b.vars[i]]
        0 <= i < a.vars.len() ==> same_var(a.vars[i], b.vars[i])
}

/// A number is written in digits.
pub proof fn lemma_decimal_digits(n: nat)
    ensures
        decimal(n).len() > 0,
        forall|i: int| 0 <= i < decimal(n).len() ==> is_digit(#[trigger] decimal(n)[i]),
    decreases n,
{
    if n >= 10 {
        lemma_decimal_digits(n / 10);
    }
}

/// A number at its end makes only `stack` a name for a stack slot.
pub proof fn lemma_numbered_name(s: Seq<char>, n: nat)
    ensures
        is_stack_name(numbered(s, n)) == (is_stack_name(s) || s == "stack"@),
        is_stack_name(s + decimal(n)) == (is_stack_name(s) || s == "stack"@),
{
    let d = decimal(n);
    let t = s + d;
    lemma_decimal_digits(n);
    reveal_strlit("stack");
    if is_stack_name(s) || s == "stack"@ {
        assert(t.take(5) =~= s.take(5));
        assert("stack"@.take(5) =~= "stack"@);
        assert forall|i: int| 5 <= i < t.len() implies is_digit(#[trigger] t[i]) by {
            if i >= s.len() {
                assert(t[i] == d[i - s.len()]);
            } else {
                assert(t[i] == s[i]);
            }
        }
    }
    if is_stack_name(t) {
        if s.len() < 5 {
            assert(is_digit(d[0]));
            assert(t[s.len() as int] == d[0]);
            assert(t.take(5)[s.len() as int] == "stack"@[s.len() as int]);
        } else {
            assert(t.take(5) =~= s.take(5));
            if s.len() == 5 {
                assert(s =~= s.take(5));
            }
            assert forall|i: int| 5 <= i < s.len() implies is_digit(#[trigger] s[i]) by {
                assert(t[i] == s[i]);
            }
        }
    }
}

/// Tables that are alike are the same but for the names of stack slots.
pub proof fn lemma_same_table(a: VarTableV, b: VarTableV)
    requires
        alike(a, b),
    ensures
        same_table(a, b),
{
    assert forall|i: int|
        #![trigger a.vars[i]]
        #![trigger b.vars[i]]
        0 <= i < a.vars.len() implies same_var(a.vars[i], b.vars[i]) by {
        assert(same_but_number(a.vars[i], b.vars[i]));
        if is_slot_name(a.vars[i].name) && is_slot_name(b.vars[i].name) {
            lemma_slot_name(a.vars[i].name);
            lemma_slot_name(b.vars[i].name);
        }
    }
}

/// A name for a stack slot is `stack` with digits.
proof fn lemma_slot_name(s: Seq<char>)
    requires
        is_slot_name(s),
    ensures
        is_stack_name(s),
{
    reveal_strlit("stack");
    let n = choose|n: nat| s == "stack"@ + #[trigger] decimal(n);
    lemma_numbered_name("stack"@, n);
}

/// What is read from tables that are the same is the same.
pub proof fn lemma_same_reads(a: VarTableV, b: VarTableV)
    requires
        same_table(a, b),
    ensures
        forall|v: u32| #[trigger] has_var(a, v) == has_var(b, v),
        forall|v: u32| #[trigger] var_type(a, v) == var_type(b, v),
        forall|v: u32| #[trigger] var_slot(a, v) == var_slot(b, v),
        forall|v: u32| #[trigger] is_param(a, v) == is_param(b, v),
        forall|v: u32| #[trigger] is_synthetic(a, v) == is_synthetic(b, v),
{
}

/// A cast of an assigned value does not depend on the names of stack slots.
proof fn lemma_assign_fixed(
    e: ExprV,
    a: VarTableV,
    b: VarTableV,
    pool: ClassPoolV,
    pc: PoolClassV,
    links: Seq<SuperLinkV>,
    facts: Seq<CastFactsV>,
    next: nat,
)
    requires
        same_table(a, b),
    ensures
        assign_fixed(e, a, pool, pc, links, facts, next) == assign_fixed(
            e,
            b,
            pool,
            pc,
            links,
            facts,
            next,
        ),
{
    lemma_same_reads(a, b);
    if let ExprV::Assign { target, .. } = e {
        if let ExprV::ArrayIndex { array, .. } = *target {
            assert(element_type(*array, a) == element_type(*array, b));
        }
        assert(wanted_type(*target, a, pool, pc, links) == wanted_type(
            *target,
            b,
            pool,
            pc,
            links,
        ));
    }
}

/// Which stores feed a monitor does not depend on the names of stack slots.
#[verifier::spinoff_prover]
pub proof fn lemma_stores_dropped(s: StmtV, a: VarTableV, b: VarTableV)
    requires
        same_table(a, b),
    ensures
        stores_dropped(s, a) == stores_dropped(s, b),
    decreases s,
{
    lemma_same_reads(a, b);
    match s {
        StmtV::Block(items) => {
            lemma_stores_dropped_seq(items, a, b);
        },
        StmtV::If { then_stmt, else_stmt, .. } => {
            lemma_stores_dropped(*then_stmt, a, b);
            lemma_stores_dropped_opt(else_stmt, a, b);
        },
        StmtV::While { body, .. } => {
            lemma_stores_dropped(*body, a, b);
        },
        StmtV::DoWhile { body, .. } => {
            lemma_stores_dropped(*body, a, b);
        },
        StmtV::For { init, body, .. } => {
            lemma_stores_dropped_each(init, a, b);
            lemma_stores_dropped(*body, a, b);
        },
        StmtV::ForEach { body, .. } => {
            lemma_stores_dropped(*body, a, b);
        },
        StmtV::Switch { cases, default, .. } => {
            lemma_stores_dropped_cases(cases, a, b);
            lemma_stores_dropped_opt(default, a, b);
        },
        StmtV::Try { body, catches, finally } => {
            lemma_stores_dropped(*body, a, b);
            lemma_stores_dropped_catches(catches, a, b);
            lemma_stores_dropped_opt(finally, a, b);
        },
        StmtV::TryWithResources { resources, body, catches, finally } => {
            lemma_stores_dropped_each(resources, a, b);
            lemma_stores_dropped(*body, a, b);
            lemma_stores_dropped_catches(catches, a, b);
            lemma_stores_dropped_opt(finally, a, b);
        },
        StmtV::Synchronized { body, .. } => {
            lemma_stores_dropped(*body, a, b);
        },
        StmtV::Labeled { body, .. } => {
            lemma_stores_dropped(*body, a, b);
        },
        _ => {},
    }
}

/// [`lemma_stores_dropped`] where there is a value.
proof fn lemma_stores_dropped_opt(o: Option<Box<StmtV>>, a: VarTableV, b: VarTableV)
    requires
        same_table(a, b),
    ensures
        stores_dropped_opt(o, a) == stores_dropped_opt(o, b),
    decreases o,
{
    lemma_same_reads(a, b);
    match o {
        Some(x) => {
            lemma_stores_dropped(*x, a, b);
        },
        None => {},
    }
}

/// [`lemma_stores_dropped`] over a list.
proof fn lemma_stores_dropped_seq(rest: Seq<StmtV>, a: VarTableV, b: VarTableV)
    requires
        same_table(a, b),
    ensures
        stores_dropped_seq(rest, a) == stores_dropped_seq(rest, b),
    decreases rest,
{
    lemma_same_reads(a, b);
    if !(rest.len() == 0) {
        if feeds_monitor(rest, a) {
            lemma_stores_dropped_seq(rest.skip(1), a, b);
        } else {
            lemma_stores_dropped(rest[0], a, b);
            lemma_stores_dropped_seq(rest.skip(1), a, b);
        }
    }
}

/// [`lemma_stores_dropped`] over a list, one by one.
proof fn lemma_stores_dropped_each(v: Seq<StmtV>, a: VarTableV, b: VarTableV)
    requires
        same_table(a, b),
    ensures
        stores_dropped_each(v, a) == stores_dropped_each(v, b),
    decreases v,
{
    lemma_same_reads(a, b);
    assert forall|i: int|
        0 <= i < v.len() implies stores_dropped(#[trigger] v[i], a) == stores_dropped(v[i], b) by {
        lemma_stores_dropped(v[i], a, b);
    }
    assert(stores_dropped_each(v, a) =~= stores_dropped_each(v, b));
}

/// [`lemma_stores_dropped`] inside a switch arm.
proof fn lemma_stores_dropped_case(c: CaseGroupV, a: VarTableV, b: VarTableV)
    requires
        same_table(a, b),
    ensures
        stores_dropped_case(c, a) == stores_dropped_case(c, b),
    decreases c,
{
    lemma_same_reads(a, b);
    lemma_stores_dropped_each(c.body, a, b);
}

/// [`lemma_stores_dropped`] over switch arms.
proof fn lemma_stores_dropped_cases(v: Seq<CaseGroupV>, a: VarTableV, b: VarTableV)
    requires
        same_table(a, b),
    ensures
        stores_dropped_cases(v, a) == stores_dropped_cases(v, b),
    decreases v,
{
    lemma_same_reads(a, b);
    assert forall|i: int|
        0 <= i < v.len() implies stores_dropped_case(#[trigger] v[i], a)
            == stores_dropped_case(v[i], b) by {
        lemma_stores_dropped_case(v[i], a, b);
    }
    assert(stores_dropped_cases(v, a) =~= stores_dropped_cases(v, b));
}

/// [`lemma_stores_dropped`] inside a catch clause.
proof fn lemma_stores_dropped_catch(c: CatchV, a: VarTableV, b: VarTableV)
    requires
        same_table(a, b),
    ensures
        stores_dropped_catch(c, a) == stores_dropped_catch(c, b),
    decreases c,
{
    lemma_same_reads(a, b);
    lemma_stores_dropped(*c.body, a, b);
}

/// [`lemma_stores_dropped`] over catch clauses.
proof fn lemma_stores_dropped_catches(v: Seq<CatchV>, a: VarTableV, b: VarTableV)
    requires
        same_table(a, b),
    ensures
        stores_dropped_catches(v, a) == stores_dropped_catches(v, b),
    decreases v,
{
    lemma_same_reads(a, b);
    assert forall|i: int|
        0 <= i < v.len() implies stores_dropped_catch(#[trigger] v[i], a)
            == stores_dropped_catch(v[i], b) by {
        lemma_stores_dropped_catch(v[i], a, b);
    }
    assert(stores_dropped_catches(v, a) =~= stores_dropped_catches(v, b));
}

/// Which stores are dead does not depend on the names of stack slots.
#[verifier::spinoff_prover]
pub proof fn lemma_pruned(s: StmtV, a: VarTableV, b: VarTableV, read: Set<u32>)
    requires
        same_table(a, b),
    ensures
        pruned(s, a, read) == pruned(s, b, read),
    decreases s,
{
    lemma_same_reads(a, b);
    match s {
        StmtV::Block(items) => {
            lemma_pruned_seq(items, a, b, read);
        },
        StmtV::If { then_stmt, else_stmt, .. } => {
            lemma_pruned(*then_stmt, a, b, read);
            lemma_pruned_opt(else_stmt, a, b, read);
        },
        StmtV::While { body, .. } => {
            lemma_pruned(*body, a, b, read);
        },
        StmtV::DoWhile { body, .. } => {
            lemma_pruned(*body, a, b, read);
        },
        StmtV::For { init, body, .. } => {
            lemma_pruned_each(init, a, b, read);
            lemma_pruned(*body, a, b, read);
        },
        StmtV::ForEach { body, .. } => {
            lemma_pruned(*body, a, b, read);
        },
        StmtV::Switch { cases, default, .. } => {
            lemma_pruned_cases(cases, a, b, read);
            lemma_pruned_opt(default, a, b, read);
        },
        StmtV::Try { body, catches, finally } => {
            lemma_pruned(*body, a, b, read);
            lemma_pruned_catches(catches, a, b, read);
            lemma_pruned_opt(finally, a, b, read);
        },
        StmtV::TryWithResources { resources, body, catches, finally } => {
            lemma_pruned_each(resources, a, b, read);
            lemma_pruned(*body, a, b, read);
            lemma_pruned_catches(catches, a, b, read);
            lemma_pruned_opt(finally, a, b, read);
        },
        StmtV::Synchronized { body, .. } => {
            lemma_pruned(*body, a, b, read);
        },
        StmtV::Labeled { body, .. } => {
            lemma_pruned(*body, a, b, read);
        },
        _ => {},
    }
}

/// [`lemma_pruned`] where there is a value.
proof fn lemma_pruned_opt(o: Option<Box<StmtV>>, a: VarTableV, b: VarTableV, read: Set<u32>)
    requires
        same_table(a, b),
    ensures
        pruned_opt(o, a, read) == pruned_opt(o, b, read),
    decreases o,
{
    lemma_same_reads(a, b);
    match o {
        Some(x) => {
            lemma_pruned(*x, a, b, read);
        },
        None => {},
    }
}

/// [`lemma_pruned`] over a list.
proof fn lemma_pruned_seq(v: Seq<StmtV>, a: VarTableV, b: VarTableV, read: Set<u32>)
    requires
        same_table(a, b),
    ensures
        pruned_seq(v, a, read) == pruned_seq(v, b, read),
    decreases v,
{
    lemma_same_reads(a, b);
    if !(v.len() == 0) {
        lemma_pruned_seq(v.drop_last(), a, b, read);
        lemma_pruned(v.last(), a, b, read);
    }
}

/// [`lemma_pruned`] over a list, one by one.
proof fn lemma_pruned_each(v: Seq<StmtV>, a: VarTableV, b: VarTableV, read: Set<u32>)
    requires
        same_table(a, b),
    ensures
        pruned_each(v, a, read) == pruned_each(v, b, read),
    decreases v,
{
    lemma_same_reads(a, b);
    assert forall|i: int|
        0 <= i < v.len() implies pruned(#[trigger] v[i], a, read) == pruned(v[i], b, read) by {
        lemma_pruned(v[i], a, b, read);
    }
    assert(pruned_each(v, a, read) =~= pruned_each(v, b, read));
}

/// [`lemma_pruned`] inside a switch arm.
proof fn lemma_pruned_case(c: CaseGroupV, a: VarTableV, b: VarTableV, read: Set<u32>)
    requires
        same_table(a, b),
    ensures
        pruned_case(c, a, read) == pruned_case(c, b, read),
    decreases c,
{
    lemma_same_reads(a, b);
    lemma_pruned_seq(c.body, a, b, read);
}

/// [`lemma_pruned`] over switch arms.
proof fn lemma_pruned_cases(v: Seq<CaseGroupV>, a: VarTableV, b: VarTableV, read: Set<u32>)
    requires
        same_table(a, b),
    ensures
        pruned_cases(v, a, read) == pruned_cases(v, b, read),
    decreases v,
{
    lemma_same_reads(a, b);
    assert forall|i: int|
        0 <= i < v.len() implies pruned_case(#[trigger] v[i], a, read)
            == pruned_case(v[i], b, read) by {
        lemma_pruned_case(v[i], a, b, read);
    }
    assert(pruned_cases(v, a, read) =~= pruned_cases(v, b, read));
}

/// [`lemma_pruned`] inside a catch clause.
proof fn lemma_pruned_catch(c: CatchV, a: VarTableV, b: VarTableV, read: Set<u32>)
    requires
        same_table(a, b),
    ensures
        pruned_catch(c, a, read) == pruned_catch(c, b, read),
    decreases c,
{
    lemma_same_reads(a, b);
    lemma_pruned(*c.body, a, b, read);
}

/// [`lemma_pruned`] over catch clauses.
proof fn lemma_pruned_catches(v: Seq<CatchV>, a: VarTableV, b: VarTableV, read: Set<u32>)
    requires
        same_table(a, b),
    ensures
        pruned_catches(v, a, read) == pruned_catches(v, b, read),
    decreases v,
{
    lemma_same_reads(a, b);
    assert forall|i: int|
        0 <= i < v.len() implies pruned_catch(#[trigger] v[i], a, read)
            == pruned_catch(v[i], b, read) by {
        lemma_pruned_catch(v[i], a, b, read);
    }
    assert(pruned_catches(v, a, read) =~= pruned_catches(v, b, read));
}

/// Casts to narrower types do not depend on the names of stack slots.
#[verifier::spinoff_prover]
pub proof fn lemma_narrowing_cast(s: StmtV, a: VarTableV, b: VarTableV)
    requires
        same_table(a, b),
    ensures
        narrowing_cast(s, a) == narrowing_cast(s, b),
    decreases s,
{
    lemma_same_reads(a, b);
    match s {
        StmtV::Block(items) => {
            lemma_narrowing_cast_seq(items, a, b);
        },
        StmtV::If { then_stmt, else_stmt, .. } => {
            lemma_narrowing_cast(*then_stmt, a, b);
            lemma_narrowing_cast_opt(else_stmt, a, b);
        },
        StmtV::While { body, .. } => {
            lemma_narrowing_cast(*body, a, b);
        },
        StmtV::DoWhile { body, .. } => {
            lemma_narrowing_cast(*body, a, b);
        },
        StmtV::For { init, body, .. } => {
            lemma_narrowing_cast_seq(init, a, b);
            lemma_narrowing_cast(*body, a, b);
        },
        StmtV::ForEach { body, .. } => {
            lemma_narrowing_cast(*body, a, b);
        },
        StmtV::Switch { cases, default, .. } => {
            lemma_narrowing_cast_cases(cases, a, b);
            lemma_narrowing_cast_opt(default, a, b);
        },
        StmtV::Try { body, catches, finally } => {
            lemma_narrowing_cast(*body, a, b);
            lemma_narrowing_cast_catches(catches, a, b);
            lemma_narrowing_cast_opt(finally, a, b);
        },
        StmtV::TryWithResources { resources, body, catches, finally } => {
            lemma_narrowing_cast_seq(resources, a, b);
            lemma_narrowing_cast(*body, a, b);
            lemma_narrowing_cast_catches(catches, a, b);
            lemma_narrowing_cast_opt(finally, a, b);
        },
        StmtV::Synchronized { body, .. } => {
            lemma_narrowing_cast(*body, a, b);
        },
        StmtV::Labeled { body, .. } => {
            lemma_narrowing_cast(*body, a, b);
        },
        _ => {},
    }
}

/// [`lemma_narrowing_cast`] where there is a value.
proof fn lemma_narrowing_cast_opt(o: Option<Box<StmtV>>, a: VarTableV, b: VarTableV)
    requires
        same_table(a, b),
    ensures
        narrowing_cast_opt(o, a) == narrowing_cast_opt(o, b),
    decreases o,
{
    lemma_same_reads(a, b);
    match o {
        Some(x) => {
            lemma_narrowing_cast(*x, a, b);
        },
        None => {},
    }
}

/// [`lemma_narrowing_cast`] over a list.
proof fn lemma_narrowing_cast_seq(v: Seq<StmtV>, a: VarTableV, b: VarTableV)
    requires
        same_table(a, b),
    ensures
        narrowing_cast_seq(v, a) == narrowing_cast_seq(v, b),
    decreases v,
{
    lemma_same_reads(a, b);
    assert forall|i: int|
        0 <= i < v.len() implies narrowing_cast(#[trigger] v[i], a) == narrowing_cast(v[i], b) by {
        lemma_narrowing_cast(v[i], a, b);
    }
    assert(narrowing_cast_seq(v, a) =~= narrowing_cast_seq(v, b));
}

/// [`lemma_narrowing_cast`] inside a switch arm.
proof fn lemma_narrowing_cast_case(c: CaseGroupV, a: VarTableV, b: VarTableV)
    requires
        same_table(a, b),
    ensures
        narrowing_cast_case(c, a) == narrowing_cast_case(c, b),
    decreases c,
{
    lemma_same_reads(a, b);
    lemma_narrowing_cast_seq(c.body, a, b);
}

/// [`lemma_narrowing_cast`] over switch arms.
proof fn lemma_narrowing_cast_cases(v: Seq<CaseGroupV>, a: VarTableV, b: VarTableV)
    requires
        same_table(a, b),
    ensures
        narrowing_cast_cases(v, a) == narrowing_cast_cases(v, b),
    decreases v,
{
    lemma_same_reads(a, b);
    assert forall|i: int|
        0 <= i < v.len() implies narrowing_cast_case(#[trigger] v[i], a)
            == narrowing_cast_case(v[i], b) by {
        lemma_narrowing_cast_case(v[i], a, b);
    }
    assert(narrowing_cast_cases(v, a) =~= narrowing_cast_cases(v, b));
}

/// [`lemma_narrowing_cast`] inside a catch clause.
proof fn lemma_narrowing_cast_catch(c: CatchV, a: VarTableV, b: VarTableV)
    requires
        same_table(a, b),
    ensures
        narrowing_cast_catch(c, a) == narrowing_cast_catch(c, b),
    decreases c,
{
    lemma_same_reads(a, b);
    lemma_narrowing_cast(*c.body, a, b);
}

/// [`lemma_narrowing_cast`] over catch clauses.
proof fn lemma_narrowing_cast_catches(v: Seq<CatchV>, a: VarTableV, b: VarTableV)
    requires
        same_table(a, b),
    ensures
        narrowing_cast_catches(v, a) == narrowing_cast_catches(v, b),
    decreases v,
{
    lemma_same_reads(a, b);
    assert forall|i: int|
        0 <= i < v.len() implies narrowing_cast_catch(#[trigger] v[i], a)
            == narrowing_cast_catch(v[i], b) by {
        lemma_narrowing_cast_catch(v[i], a, b);
    }
    assert(narrowing_cast_catches(v, a) =~= narrowing_cast_catches(v, b));
}

/// Casts to generic types do not depend on the names of stack slots.
#[verifier::spinoff_prover]
pub proof fn lemma_generic_cast(
    s: StmtV,
    a: VarTableV,
    b: VarTableV,
    pool: ClassPoolV,
    pc: PoolClassV,
    links: Seq<SuperLinkV>,
    facts: Seq<CastFactsV>,
    next: nat,
)
    requires
        same_table(a, b),
    ensures
        generic_cast(s, a, pool, pc, links, facts, next) == generic_cast(
            s,
            b,
            pool,
            pc,
            links,
            facts,
            next,
        ),
    decreases s,
{
    lemma_same_reads(a, b);
    match s {
        StmtV::Block(items) => {
            lemma_generic_cast_seq(items, a, b, pool, pc, links, facts, next);
        },
        StmtV::ExprStmt(e) => {
            lemma_assign_fixed(e, a, b, pool, pc, links, facts, next);
        },
        StmtV::If { then_stmt, else_stmt, .. } => {
            lemma_generic_cast(*then_stmt, a, b, pool, pc, links, facts, next);
            let next1 = generic_cast(*then_stmt, a, pool, pc, links, facts, next).1;
            lemma_generic_cast_opt(else_stmt, a, b, pool, pc, links, facts, next1);
        },
        StmtV::While { body, .. } => {
            lemma_generic_cast(*body, a, b, pool, pc, links, facts, next);
        },
        StmtV::DoWhile { body, .. } => {
            lemma_generic_cast(*body, a, b, pool, pc, links, facts, next);
        },
        StmtV::For { init, body, .. } => {
            lemma_generic_cast_seq(init, a, b, pool, pc, links, facts, next);
            let next1 = generic_cast_seq(init, a, pool, pc, links, facts, next).1;
            lemma_generic_cast(*body, a, b, pool, pc, links, facts, next1);
        },
        StmtV::ForEach { body, .. } => {
            lemma_generic_cast(*body, a, b, pool, pc, links, facts, next);
        },
        StmtV::Switch { cases, default, .. } => {
            lemma_generic_cast_cases(cases, a, b, pool, pc, links, facts, next);
            let next1 = generic_cast_cases(cases, a, pool, pc, links, facts, next).1;
            lemma_generic_cast_opt(default, a, b, pool, pc, links, facts, next1);
        },
        StmtV::Try { body, catches, finally } => {
            lemma_generic_cast(*body, a, b, pool, pc, links, facts, next);
            let next1 = generic_cast(*body, a, pool, pc, links, facts, next).1;
            lemma_generic_cast_catches(catches, a, b, pool, pc, links, facts, next1);
            let next2 = generic_cast_catches( catches, a, pool, pc, links, facts, next1, ).1;
            lemma_generic_cast_opt(finally, a, b, pool, pc, links, facts, next2);
        },
        StmtV::TryWithResources { resources, body, catches, finally } => {
            lemma_generic_cast_seq(resources, a, b, pool, pc, links, facts, next);
            let next1 = generic_cast_seq(resources, a, pool, pc, links, facts, next).1;
            lemma_generic_cast(*body, a, b, pool, pc, links, facts, next1);
            let next2 = generic_cast(*body, a, pool, pc, links, facts, next1).1;
            lemma_generic_cast_catches(catches, a, b, pool, pc, links, facts, next2);
            let next3 = generic_cast_catches( catches, a, pool, pc, links, facts, next2, ).1;
            lemma_generic_cast_opt(finally, a, b, pool, pc, links, facts, next3);
        },
        StmtV::Synchronized { body, .. } => {
            lemma_generic_cast(*body, a, b, pool, pc, links, facts, next);
        },
        StmtV::Labeled { body, .. } => {
            lemma_generic_cast(*body, a, b, pool, pc, links, facts, next);
        },
        _ => {},
    }
}

/// [`lemma_generic_cast`] where there is a value.
proof fn lemma_generic_cast_opt(
    o: Option<Box<StmtV>>,
    a: VarTableV,
    b: VarTableV,
    pool: ClassPoolV,
    pc: PoolClassV,
    links: Seq<SuperLinkV>,
    facts: Seq<CastFactsV>,
    next: nat,
)
    requires
        same_table(a, b),
    ensures
        generic_cast_opt(o, a, pool, pc, links, facts, next) == generic_cast_opt(
            o,
            b,
            pool,
            pc,
            links,
            facts,
            next,
        ),
    decreases o,
{
    lemma_same_reads(a, b);
    match o {
        Some(x) => {
            lemma_generic_cast(*x, a, b, pool, pc, links, facts, next);
        },
        None => {},
    }
}

/// [`lemma_generic_cast`] over a list.
proof fn lemma_generic_cast_seq(
    v: Seq<StmtV>,
    a: VarTableV,
    b: VarTableV,
    pool: ClassPoolV,
    pc: PoolClassV,
    links: Seq<SuperLinkV>,
    facts: Seq<CastFactsV>,
    next: nat,
)
    requires
        same_table(a, b),
    ensures
        generic_cast_seq(v, a, pool, pc, links, facts, next) == generic_cast_seq(
            v,
            b,
            pool,
            pc,
            links,
            facts,
            next,
        ),
    decreases v,
{
    lemma_same_reads(a, b);
    if !(v.len() == 0) {
        lemma_generic_cast_seq(v.drop_last(), a, b, pool, pc, links, facts, next);
        let next1 = generic_cast_seq(v.drop_last(), a, pool, pc, links, facts, next).1;
        lemma_generic_cast(v.last(), a, b, pool, pc, links, facts, next1);
    }
}

/// [`lemma_generic_cast`] inside a switch arm.
proof fn lemma_generic_cast_case(
    c: CaseGroupV,
    a: VarTableV,
    b: VarTableV,
    pool: ClassPoolV,
    pc: PoolClassV,
    links: Seq<SuperLinkV>,
    facts: Seq<CastFactsV>,
    next: nat,
)
    requires
        same_table(a, b),
    ensures
        generic_cast_case(c, a, pool, pc, links, facts, next) == generic_cast_case(
            c,
            b,
            pool,
            pc,
            links,
            facts,
            next,
        ),
    decreases c,
{
    lemma_same_reads(a, b);
    lemma_generic_cast_seq(c.body, a, b, pool, pc, links, facts, next);
}

/// [`lemma_generic_cast`] over switch arms.
proof fn lemma_generic_cast_cases(
    v: Seq<CaseGroupV>,
    a: VarTableV,
    b: VarTableV,
    pool: ClassPoolV,
    pc: PoolClassV,
    links: Seq<SuperLinkV>,
    facts: Seq<CastFactsV>,
    next: nat,
)
    requires
        same_table(a, b),
    ensures
        generic_cast_cases(v, a, pool, pc, links, facts, next) == generic_cast_cases(
            v,
            b,
            pool,
            pc,
            links,
            facts,
            next,
        ),
    decreases v,
{
    lemma_same_reads(a, b);
    if !(v.len() == 0) {
        lemma_generic_cast_cases(v.drop_last(), a, b, pool, pc, links, facts, next);
        let next1 = generic_cast_cases(v.drop_last(), a, pool, pc, links, facts, next).1;
        lemma_generic_cast_case(v.last(), a, b, pool, pc, links, facts, next1);
    }
}

/// [`lemma_generic_cast`] inside a catch clause.
proof fn lemma_generic_cast_catch(
    c: CatchV,
    a: VarTableV,
    b: VarTableV,
    pool: ClassPoolV,
    pc: PoolClassV,
    links: Seq<SuperLinkV>,
    facts: Seq<CastFactsV>,
    next: nat,
)
    requires
        same_table(a, b),
    ensures
        generic_cast_catch(c, a, pool, pc, links, facts, next) == generic_cast_catch(
            c,
            b,
            pool,
            pc,
            links,
            facts,
            next,
        ),
    decreases c,
{
    lemma_same_reads(a, b);
    lemma_generic_cast(*c.body, a, b, pool, pc, links, facts, next);
}

/// [`lemma_generic_cast`] over catch clauses.
proof fn lemma_generic_cast_catches(
    v: Seq<CatchV>,
    a: VarTableV,
    b: VarTableV,
    pool: ClassPoolV,
    pc: PoolClassV,
    links: Seq<SuperLinkV>,
    facts: Seq<CastFactsV>,
    next: nat,
)
    requires
        same_table(a, b),
    ensures
        generic_cast_catches(v, a, pool, pc, links, facts, next) == generic_cast_catches(
            v,
            b,
            pool,
            pc,
            links,
            facts,
            next,
        ),
    decreases v,
{
    lemma_same_reads(a, b);
    if !(v.len() == 0) {
        lemma_generic_cast_catches(v.drop_last(), a, b, pool, pc, links, facts, next);
        let next1 = generic_cast_catches(v.drop_last(), a, pool, pc, links, facts, next).1;
        lemma_generic_cast_catch(v.last(), a, b, pool, pc, links, facts, next1);
    }
}

/// Declarations turned into stores do not depend on the names of stack slots.
#[verifier::spinoff_prover]
pub proof fn lemma_defs_demoted(s: StmtV, vars: Set<u32>, a: VarTableV, b: VarTableV)
    requires
        same_table(a, b),
    ensures
        defs_demoted(s, vars, a) == defs_demoted(s, vars, b),
    decreases s, 0nat,
{
    lemma_same_reads(a, b);
    match s {
        StmtV::Block(items) => {
            lemma_defs_demoted_seq(items, vars, a, b);
        },
        StmtV::If { then_stmt, else_stmt, .. } => {
            lemma_defs_demoted(*then_stmt, vars, a, b);
            lemma_defs_demoted_opt(else_stmt, vars, a, b);
        },
        StmtV::While { body, .. } => {
            lemma_defs_demoted(*body, vars, a, b);
        },
        StmtV::DoWhile { body, .. } => {
            lemma_defs_demoted(*body, vars, a, b);
        },
        StmtV::For { init, body, .. } => {
            lemma_defs_demoted_seq(init, vars, a, b);
            lemma_defs_demoted(*body, vars, a, b);
        },
        StmtV::ForEach { body, .. } => {
            lemma_defs_demoted(*body, vars, a, b);
        },
        StmtV::Switch { cases, default, .. } => {
            lemma_defs_demoted_cases(cases, vars, a, b);
            lemma_defs_demoted_opt(default, vars, a, b);
        },
        StmtV::Try { body, catches, finally } => {
            lemma_defs_demoted(*body, vars, a, b);
            lemma_defs_demoted_catches(catches, vars, a, b);
            lemma_defs_demoted_opt(finally, vars, a, b);
        },
        StmtV::TryWithResources { resources, body, catches, finally } => {
            lemma_resources_demoted(resources, vars, a, b);
            lemma_defs_demoted(*body, vars, a, b);
            lemma_defs_demoted_catches(catches, vars, a, b);
            lemma_defs_demoted_opt(finally, vars, a, b);
        },
        StmtV::Synchronized { body, .. } => {
            lemma_defs_demoted(*body, vars, a, b);
        },
        StmtV::Labeled { body, .. } => {
            lemma_defs_demoted(*body, vars, a, b);
        },
        _ => {},
    }
}

/// [`lemma_defs_demoted`] where there is a value.
proof fn lemma_defs_demoted_opt(o: Option<Box<StmtV>>, vars: Set<u32>, a: VarTableV, b: VarTableV)
    requires
        same_table(a, b),
    ensures
        defs_demoted_opt(o, vars, a) == defs_demoted_opt(o, vars, b),
    decreases o, 0nat,
{
    lemma_same_reads(a, b);
    match o {
        Some(x) => {
            lemma_defs_demoted(*x, vars, a, b);
        },
        None => {},
    }
}

/// [`lemma_defs_demoted`] over a list.
proof fn lemma_defs_demoted_seq(v: Seq<StmtV>, vars: Set<u32>, a: VarTableV, b: VarTableV)
    requires
        same_table(a, b),
    ensures
        defs_demoted_seq(v, vars, a) == defs_demoted_seq(v, vars, b),
    decreases v, 0nat,
{
    lemma_same_reads(a, b);
    assert forall|i: int|
        0 <= i < v.len() implies defs_demoted(#[trigger] v[i], vars, a)
            == defs_demoted(v[i], vars, b) by {
        lemma_defs_demoted(v[i], vars, a, b);
    }
    assert(defs_demoted_seq(v, vars, a) =~= defs_demoted_seq(v, vars, b));
}

/// [`lemma_defs_demoted`] inside a switch arm.
proof fn lemma_defs_demoted_case(c: CaseGroupV, vars: Set<u32>, a: VarTableV, b: VarTableV)
    requires
        same_table(a, b),
    ensures
        defs_demoted_case(c, vars, a) == defs_demoted_case(c, vars, b),
    decreases c, 0nat,
{
    lemma_same_reads(a, b);
    lemma_defs_demoted_seq(c.body, vars, a, b);
}

/// [`lemma_defs_demoted`] over switch arms.
proof fn lemma_defs_demoted_cases(v: Seq<CaseGroupV>, vars: Set<u32>, a: VarTableV, b: VarTableV)
    requires
        same_table(a, b),
    ensures
        defs_demoted_cases(v, vars, a) == defs_demoted_cases(v, vars, b),
    decreases v, 0nat,
{
    lemma_same_reads(a, b);
    assert forall|i: int|
        0 <= i < v.len() implies defs_demoted_case(#[trigger] v[i], vars, a)
            == defs_demoted_case(v[i], vars, b) by {
        lemma_defs_demoted_case(v[i], vars, a, b);
    }
    assert(defs_demoted_cases(v, vars, a) =~= defs_demoted_cases(v, vars, b));
}

/// [`lemma_defs_demoted`] inside a catch clause.
proof fn lemma_defs_demoted_catch(c: CatchV, vars: Set<u32>, a: VarTableV, b: VarTableV)
    requires
        same_table(a, b),
    ensures
        defs_demoted_catch(c, vars, a) == defs_demoted_catch(c, vars, b),
    decreases c, 0nat,
{
    lemma_same_reads(a, b);
    lemma_defs_demoted(*c.body, vars, a, b);
}

/// [`lemma_defs_demoted`] over catch clauses.
proof fn lemma_defs_demoted_catches(v: Seq<CatchV>, vars: Set<u32>, a: VarTableV, b: VarTableV)
    requires
        same_table(a, b),
    ensures
        defs_demoted_catches(v, vars, a) == defs_demoted_catches(v, vars, b),
    decreases v, 0nat,
{
    lemma_same_reads(a, b);
    assert forall|i: int|
        0 <= i < v.len() implies defs_demoted_catch(#[trigger] v[i], vars, a)
            == defs_demoted_catch(v[i], vars, b) by {
        lemma_defs_demoted_catch(v[i], vars, a, b);
    }
    assert(defs_demoted_catches(v, vars, a) =~= defs_demoted_catches(v, vars, b));
}

/// [`lemma_defs_demoted`] for a resource.
proof fn lemma_resource_demoted(s: StmtV, vars: Set<u32>, a: VarTableV, b: VarTableV)
    requires
        same_table(a, b),
    ensures
        resource_demoted(s, vars, a) == resource_demoted(s, vars, b),
    decreases s, 1nat,
{
    lemma_same_reads(a, b);
    if !(s is LocalDef) {
        lemma_defs_demoted(s, vars, a, b);
    }
}

/// [`lemma_defs_demoted`] for resources.
proof fn lemma_resources_demoted(v: Seq<StmtV>, vars: Set<u32>, a: VarTableV, b: VarTableV)
    requires
        same_table(a, b),
    ensures
        resources_demoted(v, vars, a) == resources_demoted(v, vars, b),
    decreases v, 1nat,
{
    lemma_same_reads(a, b);
    assert forall|i: int|
        0 <= i < v.len() implies resource_demoted(#[trigger] v[i], vars, a)
            == resource_demoted(v[i], vars, b) by {
        lemma_resource_demoted(v[i], vars, a, b);
    }
    assert(resources_demoted(v, vars, a) =~= resources_demoted(v, vars, b));
}

} // verus!
