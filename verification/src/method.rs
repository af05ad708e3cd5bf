//! A method from its bytecode to its refined body.
//!
//! Three steps: what the head of the method says, the blocks with their operand stacks,
//! and, once the blocks have been put into structured statements, the passes that make
//! those readable.
use crate::asserts::{asserts_restored, restore_asserts};
use crate::block::{between, cfg_of, Cfg};
use crate::booleans::{booleanize_deep_stmt_r, is_number, number, stmt_booleanized};
use crate::builder::is_sound;
use crate::bytecode::{instructions, Instruction, InstructionV};
use crate::catches::{
    all_catches_named, assign_catch_names, catch_vars_resolved, catchall_fixed, fix_empty_catchall,
    resolve_catch_vars, with_names,
};
use crate::classes::{
    member_flag, method_desc, method_name, opt_is, utf8_at, ClassPool, ClassPoolV, PoolClass,
    PoolClassV, ACC_ABSTRACT, ACC_FINAL, ACC_NATIVE,
};
use crate::cleanup::{cleaned, cleanup, law_cleanup_idempotent, law_cleanup_tidies, untidy};
use crate::ctor_guards::{as_list, guards_hoisted, hoist_ctor_call_guards, into_vec};
use crate::dead_stores::{prune_dead_synth_stores, pruned, read_set};
use crate::declarations::{dedupe_declarations, deduped};
use crate::escapes::{
    ensure_declared, escaped_hoisted, hoist_escaped_vars, missing_decl, missing_vars,
};
use crate::finallys::{dedupe_finally, finally_deduped};
use crate::flow::{all_sound, carried, carry, opt_texts, Flow, Route, RouteV};
use crate::forward::{find_forwards, forwards_of};
use crate::generic_casts::{cast_facts, cast_generic_locals, generic_cast, CastFacts, CastFactsV};
use crate::generics::{super_links, SuperLink, SuperLinkV};
use crate::graph::{
    complete, completed, dominators_of, edges, immediate_dominators, reverse_postorder,
    reverse_postorder_of,
};
use crate::infer::{infer_var_types, inference};
use crate::inflight::{finally_pruned, prune_finally_rethrows};
use crate::labels::{
    breaks_pruned, demote_undefined_label_jumps, prune_post_loop_label_breaks, undefined_demoted,
};
use crate::merged_news::{fold_merged_new_inits, found_inits, news_folded};
use crate::monitors::{
    drop_monitor_stores, rebuilt, reconstruct_synchronized, stores_dropped, strip_monitors_in_sync,
    sync_stripped,
};
use crate::naming::{disambiguate_nested_locals, names_disambiguated};
use crate::order::in_order;
use crate::retype::{cast_narrowing_assigns, cast_object_returns, narrowing_cast, returns_cast};
use crate::rotate::{rotate_empty_then, rotated};
use crate::selftype::{selftype_stripped, strip_selftype_checkcasts};
use crate::signatures::{method_descriptor, parse_method_descriptor};
use crate::stack_vars::{
    bare_all, defs_converted, fold_this_stack_vars, hoist_stack_vars, stmt_this_folded, this_only,
    undeclared, with_decls,
};
use crate::stmt::{stmts, take_stmt, Stmt, StmtV};
use crate::termination::{
    dead_breaks_pruned, prune_dead_breaks, prune_unreachable, unreachable_pruned,
};
use crate::text::{append_decimal, decimal};
use crate::twr11::{handlers_closed, twr_j11};
use crate::twr7::{resources_restored, twr_j7};
use crate::types::{
    object_type, opt_desc, opt_str, strs, JType, JTypeV, MethodDescriptor, MethodDescriptorV,
};
use crate::var::{VarTable, VarTableV};
use vstd::prelude::*;

verus! {

// ---------------------------------------------------------------------
// The head of a method.

/// How deep methods may be decompiled inside one another.
pub const MAX_DEPTH: usize = 64;

/// What is said of a method that is decompiled too deep inside others.
pub open spec fn too_deep(pc: PoolClassV, m: int, depth: usize) -> Seq<char> {
    "decompile_method recursion depth "@ + decimal(depth as nat) + " at "@ + pc.internal_name + "."@
        + match method_name(pc, m) {
        Some(name) => name,
        None => "?"@,
    }
}

/// The descriptor of a method that has a body to decompile: none where it is abstract or
/// native, an error where it cannot be decompiled.
pub open spec fn head_of(pc: PoolClassV, m: int, depth: usize, has_code: bool) -> Result<
    Option<MethodDescriptorV>,
    Seq<char>,
> {
    if depth > MAX_DEPTH {
        Err(too_deep(pc, m, depth))
    } else if member_flag(pc.methods[m], ACC_ABSTRACT) || member_flag(pc.methods[m], ACC_NATIVE) {
        Ok(None)
    } else {
        match method_desc(pc, m) {
            None => Err("missing descriptor"@),
            Some(text) => match method_descriptor(text) {
                None => Err("bad descriptor "@ + text),
                Some(desc) => if has_code {
                    Ok(Some(desc))
                } else {
                    Err("missing Code attribute"@)
                },
            },
        }
    }
}

/// What is said of a method that is decompiled too deep inside others.
fn depth_error(pc: &PoolClass, m: usize, depth: usize) -> (r: String)
    ensures
        r@ == too_deep(pc@, m as int, depth),
{
    let mut r = String::from_str("decompile_method recursion depth ");
    append_decimal(&mut r, depth as u128);
    r.append(" at ");
    r.append(pc.internal_name.as_str());
    r.append(".");
    match pc.method_name(m) {
        Some(name) => r.append(name),
        None => r.append("?"),
    }
    r
}

/// The descriptor of method `m` where it has a body to decompile. `depth` counts the
/// methods that are being decompiled, this one included.
pub fn read_head(pc: &PoolClass, m: usize, depth: usize, has_code: bool) -> (r: Result<
    Option<MethodDescriptor>,
    String,
>)
    requires
        m < pc.methods.len(),
    ensures
        match r {
            Ok(d) => head_of(pc@, m as int, depth, has_code) == Ok::<_, Seq<char>>(opt_desc(d)),
            Err(text) => head_of(pc@, m as int, depth, has_code) == Err::<
                Option<MethodDescriptorV>,
                _,
            >(text@),
        },
{
    assert(pc@.methods[m as int] == pc.methods@[m as int]@);
    if depth > MAX_DEPTH {
        return Err(depth_error(pc, m, depth));
    }
    if pc.methods[m].has_flag(ACC_ABSTRACT) || pc.methods[m].has_flag(ACC_NATIVE) {
        return Ok(None);
    }
    let text = match pc.method_desc(m) {
        Some(text) => text,
        None => {
            return Err(String::from_str("missing descriptor"));
        },
    };
    let desc = match parse_method_descriptor(text) {
        Some(desc) => desc,
        None => {
            let mut r = String::from_str("bad descriptor ");
            r.append(text);
            return Err(r);
        },
    };
    if !has_code {
        return Err(String::from_str("missing Code attribute"));
    }
    Ok(Some(desc))
}

/// A method that is too deep inside others is an error, whatever it is.
pub proof fn law_depth_is_bounded(pc: PoolClassV, m: int, depth: usize, has_code: bool)
    requires
        depth > MAX_DEPTH,
    ensures
        head_of(pc, m, depth, has_code) == Err::<Option<MethodDescriptorV>, Seq<char>>(
            too_deep(pc, m, depth),
        ),
{
}

// ---------------------------------------------------------------------
// Final fields.

/// The names of the first `n` fields that are final.
pub open spec fn final_names(pc: PoolClassV, n: nat) -> Seq<Seq<char>>
    decreases n,
{
    if n == 0 {
        seq![]
    } else {
        let front = final_names(pc, (n - 1) as nat);
        let f = pc.fields[n - 1];
        match utf8_at(pc, f.name_index) {
            Some(name) => if member_flag(f, ACC_FINAL) {
                front.push(name)
            } else {
                front
            },
            None => front,
        }
    }
}

/// The names of the final fields, in order. A final field accepts one assignment, so no
/// block that assigns one may be copied.
#[verifier::loop_isolation(false)]
pub fn final_fields(pc: &PoolClass) -> (r: Vec<String>)
    ensures
        strs(r@) == final_names(pc@, pc@.fields.len()),
{
    let mut r: Vec<String> = Vec::new();
    let mut i: usize = 0;
    assert(strs(r@) =~= seq![]);
    assert(pc@.fields.len() == pc.fields.len());
    while i < pc.fields.len()
        invariant
            i <= pc.fields.len(),
            strs(r@) == final_names(pc@, i as nat),
        decreases pc.fields.len() - i,
    {
        let f = &pc.fields[i];
        assert(pc@.fields[i as int] == f@);
        let ghost front = strs(r@);
        if let Some(name) = pc.utf8(f.name_index) {
            if f.has_flag(ACC_FINAL) {
                let ghost text = name@;
                r.push(name.to_string());
                assert(strs(r@) =~= front.push(text));
            }
        }
        i += 1;
    }
    r
}

// ---------------------------------------------------------------------
// Blocks with their operand stacks.

/// The code of a method.
#[derive(Debug)]
pub struct Code {
    pub instructions: Vec<Instruction>,
    pub code_len: u16,
    pub max_locals: u16,
    /// `(start, end, handler, catch type)` of each protected range.
    pub exception_table: Vec<(u16, u16, u16, u16)>,
}

/// Model of [`Code`].
pub ghost struct CodeV {
    pub instructions: Seq<InstructionV>,
    pub code_len: u16,
    pub max_locals: u16,
    pub exception_table: Seq<(u16, u16, u16, u16)>,
}

impl Code {
    pub open spec fn view(&self) -> CodeV {
        CodeV {
            instructions: instructions(self.instructions@),
            code_len: self.code_len,
            max_locals: self.max_locals,
            exception_table: self.exception_table@,
        }
    }
}

/// The way that operand stacks take through the blocks of a method.
pub open spec fn route_of(
    pc: PoolClassV,
    pool: ClassPoolV,
    desc: MethodDescriptorV,
    is_static: bool,
    code: CodeV,
) -> RouteV {
    let cfg = cfg_of(pc, code.instructions, code.code_len, code.exception_table);
    let reached = reverse_postorder_of(edges(cfg), cfg.entry);
    RouteV {
        pc,
        pool,
        is_static,
        max_locals: code.max_locals,
        cfg,
        reached,
        order: completed(reached, cfg.blocks.len()),
        idom: dominators_of(edges(cfg), cfg.entry),
        fwd: forwards_of(cfg.blocks, is_static, desc.args, code.max_locals),
    }
}

/// All instructions can be followed.
pub open spec fn code_sound(code: CodeV) -> bool {
    forall|i: int|
        0 <= i < code.instructions.len() ==> is_sound(#[trigger] code.instructions[i])
}

/// A block holds instructions of the method.
proof fn lemma_between_sound(all: Seq<InstructionV>, start: u16, end: u16, k: int)
    requires
        forall|i: int| 0 <= i < all.len() ==> is_sound(#[trigger] all[i]),
        0 <= k < between(all, start, end).len(),
    ensures
        is_sound(between(all, start, end)[k]),
    decreases all.len(),
{
    let front = all.drop_last();
    assert forall|i: int| 0 <= i < front.len() implies is_sound(#[trigger] front[i]) by {
        assert(front[i] == all[i]);
    }
    if k < between(front, start, end).len() {
        lemma_between_sound(front, start, end, k);
    } else {
        assert(is_sound(all[all.len() - 1]));
    }
}

/// Builds the blocks of a method, with the operand stacks carried between them.
/// `next_name` numbers the next variable for a stack slot.
pub fn build_blocks(
    pc: &PoolClass,
    pool: &ClassPool,
    desc: &MethodDescriptor,
    is_static: bool,
    code: &Code,
    vt: VarTable,
    next_name: u64,
) -> (r: (Cfg, Flow))
    requires
        code_sound(code@),
    ensures
        r.0@ == cfg_of(pc@, code@.instructions, code.code_len, code.exception_table@),
        r.1@ == carried(route_of(pc@, pool@, desc@, is_static, code@), vt@, next_name),
{
    let cfg = Cfg::build(pc, &code.instructions, code.code_len, &code.exception_table);
    assert(cfg@.blocks.len() == cfg.blocks.len());
    assert(all_sound(cfg@)) by {
        assert forall|b: int, i: int|
            0 <= b < cfg@.blocks.len() && 0 <= i < cfg@.blocks[b].ins.len() implies is_sound(
            #[trigger] cfg@.blocks[b].ins[i],
        ) by {
            let block = cfg@.blocks[b];
            assert(block.ins == between(code@.instructions, block.start, block.end));
            lemma_between_sound(code@.instructions, block.start, block.end, i);
        }
    }
    let fwd = find_forwards(&cfg.blocks, is_static, &desc.args, code.max_locals);
    let reached = reverse_postorder(&cfg);
    let order = complete(&reached, cfg.blocks.len());
    let idom = immediate_dominators(&cfg);
    let rt = Route {
        pc,
        pool,
        desc,
        is_static,
        max_locals: code.max_locals,
        cfg: &cfg,
        reached: &reached,
        order: &order,
        idom: &idom,
        fwd: &fwd,
    };
    assert(rt@ == route_of(pc@, pool@, desc@, is_static, code@));
    let flow = carry(&rt, vt, next_name);
    (cfg, flow)
}

/// How many of the texts are there.
pub open spec fn count_some(v: Seq<Option<Seq<char>>>) -> nat
    decreases v.len(),
{
    if v.len() == 0 {
        0
    } else {
        count_some(v.drop_last()) + if v.last() is Some {
            1nat
        } else {
            0
        }
    }
}

/// How many blocks could not be built.
#[verifier::loop_isolation(false)]
pub fn failed_blocks(flow: &Flow) -> (r: usize)
    ensures
        r == count_some(flow@.errors),
        r <= flow.errors.len(),
{
    let ghost all = opt_texts(flow.errors@);
    let mut r: usize = 0;
    let mut i: usize = 0;
    assert(all.take(0) =~= seq![]);
    while i < flow.errors.len()
        invariant
            i <= flow.errors.len(),
            r <= i,
            r == count_some(all.take(i as int)),
        decreases flow.errors.len() - i,
    {
        assert(all.take(i + 1).drop_last() =~= all.take(i as int));
        assert(all.take(i + 1).last() == opt_str(flow.errors@[i as int]));
        if flow.errors[i].is_some() {
            r += 1;
        }
        i += 1;
    }
    assert(all.take(i as int) =~= all);
    r
}

// ---------------------------------------------------------------------
// The passes over a structured body.

/// The body of a method and its variables.
#[derive(Debug)]
pub struct MethodBody {
    pub body: Stmt,
    pub vt: VarTable,
    pub desc: MethodDescriptor,
}

/// A body, and the variables of its method.
pub ghost struct DraftV {
    pub body: StmtV,
    pub vt: VarTableV,
}

/// Catch variables found and named.
pub open spec fn caught(d: DraftV) -> DraftV {
    let (b1, vt1) = catch_vars_resolved(d.body, d.vt);
    let (b2, names) = all_catches_named(b1, vt1);
    DraftV { body: cleaned(b2), vt: with_names(vt1, names.names) }
}

/// Synchronized blocks, needless casts and assertions restored.
pub open spec fn guarded(s: StmtV, vt: VarTableV, pool: ClassPoolV) -> StmtV {
    let locked = stores_dropped(sync_stripped(rebuilt(s)), vt);
    cleaned(asserts_restored(cleaned(selftype_stripped(locked, pool))))
}

/// Resources, `finally` blocks and handlers restored.
pub open spec fn closed_up(s: StmtV) -> StmtV {
    let resources = cleaned(resources_restored(cleaned(handlers_closed(s))));
    let once = cleaned(finally_deduped(resources));
    cleaned(catchall_fixed(cleaned(finally_pruned(once))))
}

/// Stack variables that only hold `this` replaced by it.
pub open spec fn this_folded(s: StmtV, vars: Seq<u32>) -> StmtV {
    if this_only(s, vars) == Set::<u32>::empty() {
        s
    } else {
        stmt_this_folded(s, this_only(s, vars))
    }
}

/// Stack variables declared once, before everything that uses them.
pub open spec fn stack_hoisted(s: StmtV, vars: Seq<u32>) -> StmtV {
    if vars.len() == 0 {
        s
    } else {
        let converted = defs_converted(s, vars.to_set());
        with_decls(converted, bare_all(in_order(undeclared(converted, vars.to_set()))))
    }
}

/// Stack variables, boolean values and empty branches put in order.
pub open spec fn settled(s: StmtV, vars: Seq<u32>, ret: JTypeV) -> StmtV {
    let hoisted = cleaned(stack_hoisted(this_folded(s, vars), vars));
    cleaned(rotated(cleaned(stmt_booleanized(hoisted, is_number(ret), ret))))
}

/// A structured body refined up to the point where every variable has its type.
pub open spec fn refined(d: DraftV, pc: PoolClassV, pool: ClassPoolV, ret: JTypeV) -> DraftV {
    let d1 = caught(d);
    let s = settled(closed_up(guarded(d1.body, d1.vt, pool)), d1.vt.stack_vars, ret);
    let (vt, body) = inference(d1.vt, s, ret, pc);
    DraftV { body: pruned(body, vt, read_set(body)), vt }
}

/// Returned values cast where the method returns something other than `Object`.
pub open spec fn returns_typed(s: StmtV, ret: JTypeV) -> StmtV {
    if (ret is Object && ret != object_type()) || ret is Array {
        returns_cast(s, ret)
    } else {
        s
    }
}

/// Values cast to the types of what they are stored in or returned as.
pub open spec fn casts_added(
    d: DraftV,
    pc: PoolClassV,
    pool: ClassPoolV,
    ret: JTypeV,
    links: Seq<SuperLinkV>,
    facts: Seq<CastFactsV>,
) -> StmtV {
    narrowing_cast(
        returns_typed(generic_cast(d.body, d.vt, pool, pc, links, facts, 0).0, ret),
        d.vt,
    )
}

/// Objects that are made before their constructor runs put together with it; in a
/// constructor, guards moved behind the call of the other one.
pub open spec fn made_whole(s: StmtV, pc: PoolClassV, is_ctor: bool) -> StmtV {
    if is_ctor {
        cleaned(guards_hoisted(s))
    } else {
        let inits = found_inits(s, pc);
        cleaned(
            if inits.len() == 0 {
                s
            } else {
                news_folded(s, inits, pc)
            },
        )
    }
}

/// Every variable declared once, where all its uses see it.
pub open spec fn declared(s: StmtV, vt: VarTableV) -> StmtV {
    let once = deduped(s, seq![]).0;
    let all = with_decls(
        once,
        in_order(missing_vars(once, vt)).map_values(|v: u32| missing_decl(once, vt, v)),
    );
    cleaned(escaped_hoisted(deduped(cleaned(all), seq![]).0, vt))
}

/// Jumps that lead nowhere removed.
pub open spec fn jumps_settled(s: StmtV) -> StmtV {
    cleaned(undefined_demoted(breaks_pruned(dead_breaks_pruned(s))))
}

/// `s` with a comment before it.
pub open spec fn commented(s: StmtV, text: Seq<char>) -> StmtV {
    StmtV::Block(seq![StmtV::Comment(text)] + as_list(s))
}

/// What is said of a method with blocks that could not be built.
pub open spec fn failure_text(n: nat) -> Seq<char> {
    "$JCDC: "@ + decimal(n) + " block(s) failed to decompile"@
}

/// A refined body finished. `failed` counts the blocks that could not be built.
pub open spec fn finished_body(
    d: DraftV,
    pc: PoolClassV,
    pool: ClassPoolV,
    ret: JTypeV,
    links: Seq<SuperLinkV>,
    facts: Seq<CastFactsV>,
    is_ctor: bool,
    failed: nat,
) -> DraftV {
    let s = declared(made_whole(casts_added(d, pc, pool, ret, links, facts), pc, is_ctor), d.vt);
    let jumps = jumps_settled(s);
    let body = cleaned(unreachable_pruned(jumps));
    DraftV {
        body: if failed > 0 {
            commented(body, failure_text(failed))
        } else {
            body
        },
        vt: with_names(d.vt, names_disambiguated(jumps, d.vt)),
    }
}

/// Finds and names catch variables.
fn catch_pass(body: &mut Stmt, vt: &mut VarTable)
    ensures
        (DraftV { body: final(body)@, vt: final(vt)@ }) == caught(
            DraftV { body: old(body)@, vt: old(vt)@ },
        ),
{
    resolve_catch_vars(body, vt);
    assign_catch_names(vt, body);
    cleanup(body);
}

/// Restores synchronized blocks and assertions.
fn guard_pass(body: &mut Stmt, vt: &VarTable, pool: &ClassPool)
    ensures
        final(body)@ == guarded(old(body)@, vt@, pool@),
{
    reconstruct_synchronized(body);
    strip_monitors_in_sync(body);
    drop_monitor_stores(body, vt);
    strip_selftype_checkcasts(body, pool);
    cleanup(body);
    restore_asserts(body);
    cleanup(body);
}

/// Restores resources, `finally` blocks and handlers.
fn close_pass(body: &mut Stmt)
    ensures
        final(body)@ == closed_up(old(body)@),
{
    twr_j11(body);
    cleanup(body);
    twr_j7(body);
    cleanup(body);
    dedupe_finally(body);
    cleanup(body);
    prune_finally_rethrows(body);
    cleanup(body);
    fix_empty_catchall(body);
    cleanup(body);
}

/// Puts stack variables, boolean values and empty branches in order.
fn settle_pass(body: &mut Stmt, vars: &Vec<u32>, ret: &JType)
    ensures
        final(body)@ == settled(old(body)@, vars@, ret@),
{
    fold_this_stack_vars(body, vars);
    hoist_stack_vars(body, vars);
    cleanup(body);
    booleanize_deep_stmt_r(body, number(ret), ret);
    cleanup(body);
    rotate_empty_then(body);
    cleanup(body);
}

/// Refines a structured body up to the point where every variable has its type.
pub fn refine(body: &mut Stmt, vt: &mut VarTable, pc: &PoolClass, pool: &ClassPool, ret: &JType)
    ensures
        (DraftV { body: final(body)@, vt: final(vt)@ }) == refined(
            DraftV { body: old(body)@, vt: old(vt)@ },
            pc@,
            pool@,
            ret@,
        ),
{
    catch_pass(body, vt);
    guard_pass(body, vt, pool);
    close_pass(body);
    settle_pass(body, &vt.stack_vars, ret);
    infer_var_types(vt, body, ret, pc);
    prune_dead_synth_stores(body, vt);
}

/// Adds the casts that stores and returns need.
fn cast_pass(
    body: &mut Stmt,
    vt: &VarTable,
    pc: &PoolClass,
    pool: &ClassPool,
    ret: &JType,
    links: &Vec<SuperLink>,
    facts: &Vec<CastFacts>,
)
    ensures
        final(body)@ == casts_added(
            DraftV { body: old(body)@, vt: vt@ },
            pc@,
            pool@,
            ret@,
            super_links(links@),
            cast_facts(facts@),
        ),
{
    let mut next: usize = 0;
    cast_generic_locals(body, vt, pool, pc, links, facts, &mut next);
    cast_object_returns(body, ret);
    cast_narrowing_assigns(body, vt);
}

/// Puts objects together with their constructor calls.
fn ctor_pass(body: &mut Stmt, pc: &PoolClass, is_ctor: bool)
    ensures
        final(body)@ == made_whole(old(body)@, pc@, is_ctor),
{
    if is_ctor {
        hoist_ctor_call_guards(body);
    } else {
        fold_merged_new_inits(body, pc);
    }
    cleanup(body);
}

/// Declares every variable once, where all its uses see it.
fn declare_pass(body: &mut Stmt, vt: &VarTable)
    ensures
        final(body)@ == declared(old(body)@, vt@),
{
    dedupe_declarations(body);
    let ghost once = body@;
    ensure_declared(vt, body);
    assert(body@ == with_decls(
        once,
        in_order(missing_vars(once, vt@)).map_values(|v: u32| missing_decl(once, vt@, v)),
    ));
    cleanup(body);
    dedupe_declarations(body);
    hoist_escaped_vars(body, vt);
    cleanup(body);
}

/// Removes jumps that lead nowhere.
fn jump_pass(body: &mut Stmt)
    ensures
        final(body)@ == jumps_settled(old(body)@),
{
    prune_dead_breaks(body);
    prune_post_loop_label_breaks(body);
    demote_undefined_label_jumps(body);
    cleanup(body);
}

/// Puts a comment before a body.
fn prepend_comment(s: &mut Stmt, text: String)
    ensures
        final(s)@ == commented(old(s)@, text@),
{
    let ghost all = as_list(s@);
    let ghost words = text@;
    let mut rest = into_vec(take_stmt(s));
    let mut v: Vec<Stmt> = Vec::new();
    v.push(Stmt::Comment(text));
    v.append(&mut rest);
    assert(stmts(v@) =~= seq![StmtV::Comment(words)] + all);
    *s = Stmt::Block(v);
}

/// What is said of a method with blocks that could not be built.
fn failure_note(n: usize) -> (r: String)
    ensures
        r@ == failure_text(n as nat),
{
    let mut r = String::from_str("$JCDC: ");
    append_decimal(&mut r, n as u128);
    r.append(" block(s) failed to decompile");
    r
}

/// Finishes the body of method `m` that [`refine`] has refined. `facts` answers, site by
/// site, what the classes around say of the stored values, and `links` how type
/// arguments reach superclasses; `failed` counts the blocks that could not be built.
pub fn finish(
    pc: &PoolClass,
    pool: &ClassPool,
    m: usize,
    desc: MethodDescriptor,
    body: Stmt,
    vt: VarTable,
    links: &Vec<SuperLink>,
    facts: &Vec<CastFacts>,
    failed: usize,
) -> (r: MethodBody)
    requires
        m < pc.methods.len(),
    ensures
        r.desc@ == desc@,
        (DraftV { body: r.body@, vt: r.vt@ }) == finished_body(
            DraftV { body: body@, vt: vt@ },
            pc@,
            pool@,
            desc@.ret,
            super_links(links@),
            cast_facts(facts@),
            method_name(pc@, m as int) == Some("<init>"@),
            failed as nat,
        ),
{
    let mut body = body;
    let mut vt = vt;
    let is_ctor = opt_is(pc.method_name(m), "<init>");
    cast_pass(&mut body, &vt, pc, pool, &desc.ret, links, facts);
    ctor_pass(&mut body, pc, is_ctor);
    declare_pass(&mut body, &vt);
    jump_pass(&mut body);
    disambiguate_nested_locals(&mut vt, &body);
    prune_unreachable(&mut body);
    cleanup(&mut body);
    if failed > 0 {
        prepend_comment(&mut body, failure_note(failed));
    }
    MethodBody { body, vt, desc }
}

/// The finished body of a method all of whose blocks were built is tidy, and cleaning it
/// up changes nothing.
pub proof fn law_finished_body_is_tidy(
    d: DraftV,
    pc: PoolClassV,
    pool: ClassPoolV,
    ret: JTypeV,
    links: Seq<SuperLinkV>,
    facts: Seq<CastFactsV>,
    is_ctor: bool,
)
    ensures
        ({
            let r = finished_body(d, pc, pool, ret, links, facts, is_ctor, 0);
            !untidy(r.body) && cleaned(r.body) == r.body
        }),
{
    let s = declared(made_whole(casts_added(d, pc, pool, ret, links, facts), pc, is_ctor), d.vt);
    let jumps = jumps_settled(s);
    law_cleanup_tidies(unreachable_pruned(jumps));
    law_cleanup_idempotent(unreachable_pruned(jumps));
}

/// Finishing a body keeps the variables of the method; only names change.
pub proof fn law_finish_keeps_variables(
    d: DraftV,
    pc: PoolClassV,
    pool: ClassPoolV,
    ret: JTypeV,
    links: Seq<SuperLinkV>,
    facts: Seq<CastFactsV>,
    is_ctor: bool,
    failed: nat,
)
    ensures
        ({
            let r = finished_body(d, pc, pool, ret, links, facts, is_ctor, failed);
            &&& r.vt.vars.len() == d.vt.vars.len()
            &&& forall|i: int|
                0 <= i < d.vt.vars.len() ==> (#[trigger] r.vt.vars[i]).ty == d.vt.vars[i].ty
                    && r.vt.vars[i].slot == d.vt.vars[i].slot && r.vt.vars[i].is_param
                    == d.vt.vars[i].is_param
        }),
{
}

} // verus!
