//! Jumps of a finished body: none leads to a label that was nowhere defined.
use crate::classes::{ClassPoolV, PoolClassV};
use crate::cleanup::{
    cleaned, cleaned_case, cleaned_cases, cleaned_catch, cleaned_catches, cleaned_opt, cleaned_seq,
    flat, flat_one, nonempty, unwrapped,
};
use crate::ctor_guards::as_list;
use crate::generic_casts::CastFactsV;
use crate::generics::SuperLinkV;
use crate::labels::{
    breaks_pruned, ids_in, jumps_out, jumps_out_case, jumps_out_cases, jumps_out_catch,
    jumps_out_catches, jumps_out_opt, jumps_out_seq, labels_in, law_no_undefined_jump,
    undefined_demoted,
};
use crate::method::{
    casts_added, commented, declared, failure_text, finished_body, made_whole, DraftV,
};
use crate::stmt::{CaseGroupV, CatchV, StmtV};
use crate::termination::{
    cut, dead_breaks_pruned, lemma_first_end, unreachable_pruned, unreachable_pruned_case,
    unreachable_pruned_cases, unreachable_pruned_catch, unreachable_pruned_catches,
    unreachable_pruned_opt, unreachable_pruned_seq,
};
use crate::types::JTypeV;
use vstd::prelude::*;

verus! {

/// No statement of a list jumps out.
pub open spec fn stays(v: Seq<StmtV>, defined: Seq<Seq<char>>, ids: Set<u32>) -> bool {
    !jumps_out_seq(v, defined, ids)
}

/// Flattening adds no jump.
proof fn lemma_flat_stays(v: Seq<StmtV>, defined: Seq<Seq<char>>, ids: Set<u32>)
    requires
        stays(v, defined, ids),
    ensures
        stays(flat(v), defined, ids),
    decreases v.len(),
{
    if v.len() > 0 {
        let front = v.drop_last();
        assert forall|i: int| 0 <= i < front.len() implies !jumps_out(
            #[trigger] front[i],
            defined,
            ids,
        ) by {
            assert(!jumps_out(v[i], defined, ids));
        }
        lemma_flat_stays(front, defined, ids);
        assert(!jumps_out(v[v.len() - 1], defined, ids));
        let back = flat_one(v.last());
        assert(stays(back, defined, ids)) by {
            if !(v.last() is Block) {
                assert(back =~= seq![v.last()]);
            }
        }
        let all = flat(v);
        assert forall|i: int|
            0 <= i < all.len() implies !jumps_out(#[trigger] all[i], defined, ids) by {
            if i < flat(front).len() {
                assert(all[i] == flat(front)[i]);
            } else {
                assert(all[i] == back[i - flat(front).len()]);
            }
        }
    }
}

/// Dropping empty blocks adds no jump.
proof fn lemma_nonempty_stays(v: Seq<StmtV>, defined: Seq<Seq<char>>, ids: Set<u32>)
    requires
        stays(v, defined, ids),
    ensures
        stays(nonempty(v), defined, ids),
    decreases v.len(),
{
    if v.len() > 0 {
        let front = v.drop_last();
        assert forall|i: int| 0 <= i < front.len() implies !jumps_out(
            #[trigger] front[i],
            defined,
            ids,
        ) by {
            assert(!jumps_out(v[i], defined, ids));
        }
        lemma_nonempty_stays(front, defined, ids);
        assert(!jumps_out(v[v.len() - 1], defined, ids));
        let kept = nonempty(front);
        let all = nonempty(v);
        assert forall|i: int|
            0 <= i < all.len() implies !jumps_out(#[trigger] all[i], defined, ids) by {
            if i < kept.len() {
                assert(all[i] == kept[i]);
            } else {
                assert(all[i] == v.last());
            }
        }
    }
}

/// The front of a list holds no other jumps.
proof fn lemma_front_stays(v: Seq<StmtV>, n: int, defined: Seq<Seq<char>>, ids: Set<u32>)
    requires
        0 <= n <= v.len(),
        stays(v, defined, ids),
    ensures
        stays(v.take(n), defined, ids),
{
    assert forall|i: int| 0 <= i < n implies !jumps_out(#[trigger] v.take(n)[i], defined, ids) by {
        assert(!jumps_out(v[i], defined, ids));
    }
}

/// A cleaned block holds no other jumps.
proof fn lemma_block_stays(v: Seq<StmtV>, defined: Seq<Seq<char>>, ids: Set<u32>)
    requires
        stays(v, defined, ids),
    ensures
        !jumps_out(unwrapped(StmtV::Block(nonempty(flat(v)))), defined, ids),
{
    lemma_flat_stays(v, defined, ids);
    lemma_nonempty_stays(flat(v), defined, ids);
    let w = nonempty(flat(v));
    if w.len() == 1 {
        assert(!jumps_out(w[0], defined, ids));
    }
}

/// Cleaning up adds no jump.
proof fn lemma_cleaned(s: StmtV, defined: Seq<Seq<char>>, ids: Set<u32>)
    requires
        !jumps_out(s, defined, ids),
    ensures
        !jumps_out(cleaned(s), defined, ids),
    decreases s,
{
    match s {
        StmtV::Block(items) => {
            lemma_cleaned_seq(items, defined, ids);
            lemma_block_stays(cleaned_seq(items), defined, ids);
        },
        StmtV::If { then_stmt, else_stmt, .. } => {
            lemma_cleaned(*then_stmt, defined, ids);
            lemma_cleaned_opt(else_stmt, defined, ids);
        },
        StmtV::While { body, .. } => { lemma_cleaned(*body, defined, ids);  },
        StmtV::DoWhile { body, .. } => { lemma_cleaned(*body, defined, ids);  },
        StmtV::For { init, body, .. } => {
            lemma_cleaned_seq(init, defined, ids);
            lemma_cleaned(*body, defined, ids);
        },
        StmtV::ForEach { body, .. } => { lemma_cleaned(*body, defined, ids);  },
        StmtV::Switch { cases, default, .. } => {
            lemma_cleaned_cases(cases, defined, ids);
            lemma_cleaned_opt(default, defined, ids);
        },
        StmtV::Try { body, catches, finally } => {
            lemma_cleaned(*body, defined, ids);
            lemma_cleaned_catches(catches, defined, ids);
            lemma_cleaned_opt(finally, defined, ids);
        },
        StmtV::TryWithResources { resources, body, catches, finally } => {
            lemma_cleaned_seq(resources, defined, ids);
            lemma_cleaned(*body, defined, ids);
            lemma_cleaned_catches(catches, defined, ids);
            lemma_cleaned_opt(finally, defined, ids);
        },
        StmtV::Synchronized { body, .. } => { lemma_cleaned(*body, defined, ids);  },
        StmtV::Labeled { body, .. } => { lemma_cleaned(*body, defined, ids);  },
        _ => {},
    }
}

/// [`lemma_cleaned`] where there is a statement.
proof fn lemma_cleaned_opt(o: Option<Box<StmtV>>, defined: Seq<Seq<char>>, ids: Set<u32>)
    requires
        !jumps_out_opt(o, defined, ids),
    ensures
        !jumps_out_opt(cleaned_opt(o), defined, ids),
    decreases o,
{
    if let Some(x) = o {
        lemma_cleaned(*x, defined, ids);
    }
}

/// [`lemma_cleaned`] over a list.
proof fn lemma_cleaned_seq(v: Seq<StmtV>, defined: Seq<Seq<char>>, ids: Set<u32>)
    requires
        !jumps_out_seq(v, defined, ids),
    ensures
        !jumps_out_seq(cleaned_seq(v), defined, ids),
    decreases v,
{
    assert forall|i: int| 0 <= i < v.len() implies !jumps_out(
        #[trigger] cleaned_seq(v)[i],
        defined,
        ids,
    ) by {
        assert(!jumps_out(v[i], defined, ids));
        lemma_cleaned(v[i], defined, ids);
    }
}

/// [`lemma_cleaned`] over switch arms.
proof fn lemma_cleaned_cases(v: Seq<CaseGroupV>, defined: Seq<Seq<char>>, ids: Set<u32>)
    requires
        !jumps_out_cases(v, defined, ids),
    ensures
        !jumps_out_cases(cleaned_cases(v), defined, ids),
    decreases v,
{
    assert forall|i: int| 0 <= i < v.len() implies !jumps_out_case(
        #[trigger] cleaned_cases(v)[i],
        defined,
        ids,
    ) by {
        assert(!jumps_out_case(v[i], defined, ids));
        lemma_cleaned_case(v[i], defined, ids);
    }
}

/// [`lemma_cleaned`] inside a switch arm.
proof fn lemma_cleaned_case(c: CaseGroupV, defined: Seq<Seq<char>>, ids: Set<u32>)
    requires
        !jumps_out_case(c, defined, ids),
    ensures
        !jumps_out_case(cleaned_case(c), defined, ids),
    decreases c,
{
    lemma_cleaned_seq(c.body, defined, ids);
}

/// [`lemma_cleaned`] over catch clauses.
proof fn lemma_cleaned_catches(v: Seq<CatchV>, defined: Seq<Seq<char>>, ids: Set<u32>)
    requires
        !jumps_out_catches(v, defined, ids),
    ensures
        !jumps_out_catches(cleaned_catches(v), defined, ids),
    decreases v,
{
    assert forall|i: int| 0 <= i < v.len() implies !jumps_out_catch(
        #[trigger] cleaned_catches(v)[i],
        defined,
        ids,
    ) by {
        assert(!jumps_out_catch(v[i], defined, ids));
        lemma_cleaned_catch(v[i], defined, ids);
    }
}

/// [`lemma_cleaned`] inside a catch clause.
proof fn lemma_cleaned_catch(c: CatchV, defined: Seq<Seq<char>>, ids: Set<u32>)
    requires
        !jumps_out_catch(c, defined, ids),
    ensures
        !jumps_out_catch(cleaned_catch(c), defined, ids),
    decreases c,
{
    lemma_cleaned(*c.body, defined, ids);
}

/// Dropping unreachable statements adds no jump.
proof fn lemma_pruned(s: StmtV, defined: Seq<Seq<char>>, ids: Set<u32>)
    requires
        !jumps_out(s, defined, ids),
    ensures
        !jumps_out(unreachable_pruned(s), defined, ids),
    decreases s,
{
    match s {
        StmtV::Block(items) => {
            lemma_pruned_seq(items, defined, ids);
            let w = unreachable_pruned_seq(items);
            lemma_first_end(w);
            lemma_front_stays(w, cut(w).len() as int, defined, ids);
            assert(cut(w) =~= w.take(cut(w).len() as int));
        },
        StmtV::If { then_stmt, else_stmt, .. } => {
            lemma_pruned(*then_stmt, defined, ids);
            lemma_pruned_opt(else_stmt, defined, ids);
        },
        StmtV::While { body, .. } => { lemma_pruned(*body, defined, ids);  },
        StmtV::DoWhile { body, .. } => { lemma_pruned(*body, defined, ids);  },
        StmtV::For { init, body, .. } => {
            lemma_pruned_seq(init, defined, ids);
            lemma_pruned(*body, defined, ids);
        },
        StmtV::ForEach { body, .. } => { lemma_pruned(*body, defined, ids);  },
        StmtV::Switch { cases, default, .. } => {
            lemma_pruned_cases(cases, defined, ids);
            lemma_pruned_opt(default, defined, ids);
        },
        StmtV::Try { body, catches, finally } => {
            lemma_pruned(*body, defined, ids);
            lemma_pruned_catches(catches, defined, ids);
            lemma_pruned_opt(finally, defined, ids);
        },
        StmtV::TryWithResources { resources, body, catches, finally } => {
            lemma_pruned_seq(resources, defined, ids);
            lemma_pruned(*body, defined, ids);
            lemma_pruned_catches(catches, defined, ids);
            lemma_pruned_opt(finally, defined, ids);
        },
        StmtV::Synchronized { body, .. } => { lemma_pruned(*body, defined, ids);  },
        StmtV::Labeled { body, .. } => { lemma_pruned(*body, defined, ids);  },
        _ => {},
    }
}

/// [`lemma_pruned`] where there is a statement.
proof fn lemma_pruned_opt(o: Option<Box<StmtV>>, defined: Seq<Seq<char>>, ids: Set<u32>)
    requires
        !jumps_out_opt(o, defined, ids),
    ensures
        !jumps_out_opt(unreachable_pruned_opt(o), defined, ids),
    decreases o,
{
    if let Some(x) = o {
        lemma_pruned(*x, defined, ids);
    }
}

/// [`lemma_pruned`] over a list.
proof fn lemma_pruned_seq(v: Seq<StmtV>, defined: Seq<Seq<char>>, ids: Set<u32>)
    requires
        !jumps_out_seq(v, defined, ids),
    ensures
        !jumps_out_seq(unreachable_pruned_seq(v), defined, ids),
    decreases v,
{
    assert forall|i: int| 0 <= i < v.len() implies !jumps_out(
        #[trigger] unreachable_pruned_seq(v)[i],
        defined,
        ids,
    ) by {
        assert(!jumps_out(v[i], defined, ids));
        lemma_pruned(v[i], defined, ids);
    }
}

/// [`lemma_pruned`] over switch arms.
proof fn lemma_pruned_cases(v: Seq<CaseGroupV>, defined: Seq<Seq<char>>, ids: Set<u32>)
    requires
        !jumps_out_cases(v, defined, ids),
    ensures
        !jumps_out_cases(unreachable_pruned_cases(v), defined, ids),
    decreases v,
{
    assert forall|i: int| 0 <= i < v.len() implies !jumps_out_case(
        #[trigger] unreachable_pruned_cases(v)[i],
        defined,
        ids,
    ) by {
        assert(!jumps_out_case(v[i], defined, ids));
        lemma_pruned_case(v[i], defined, ids);
    }
}

/// [`lemma_pruned`] inside a switch arm.
proof fn lemma_pruned_case(c: CaseGroupV, defined: Seq<Seq<char>>, ids: Set<u32>)
    requires
        !jumps_out_case(c, defined, ids),
    ensures
        !jumps_out_case(unreachable_pruned_case(c), defined, ids),
    decreases c,
{
    lemma_pruned_seq(c.body, defined, ids);
    let w = unreachable_pruned_seq(c.body);
    lemma_first_end(w);
    lemma_front_stays(w, cut(w).len() as int, defined, ids);
    assert(cut(w) =~= w.take(cut(w).len() as int));
}

/// [`lemma_pruned`] over catch clauses.
proof fn lemma_pruned_catches(v: Seq<CatchV>, defined: Seq<Seq<char>>, ids: Set<u32>)
    requires
        !jumps_out_catches(v, defined, ids),
    ensures
        !jumps_out_catches(unreachable_pruned_catches(v), defined, ids),
    decreases v,
{
    assert forall|i: int| 0 <= i < v.len() implies !jumps_out_catch(
        #[trigger] unreachable_pruned_catches(v)[i],
        defined,
        ids,
    ) by {
        assert(!jumps_out_catch(v[i], defined, ids));
        lemma_pruned_catch(v[i], defined, ids);
    }
}

/// [`lemma_pruned`] inside a catch clause.
proof fn lemma_pruned_catch(c: CatchV, defined: Seq<Seq<char>>, ids: Set<u32>)
    requires
        !jumps_out_catch(c, defined, ids),
    ensures
        !jumps_out_catch(unreachable_pruned_catch(c), defined, ids),
    decreases c,
{
    lemma_pruned(*c.body, defined, ids);
}

/// A body settled, pruned and cleaned jumps to no undefined label, with or without a
/// comment.
#[verifier::spinoff_prover]
proof fn lemma_settled(s: StmtV, text: Seq<char>)
    ensures
        ({
            let body = cleaned(unreachable_pruned(cleaned(undefined_demoted(s))));
            &&& !jumps_out(body, labels_in(s), ids_in(s))
            &&& !jumps_out(commented(body, text), labels_in(s), ids_in(s))
        }),
{
    let defined = labels_in(s);
    let ids = ids_in(s);
    law_no_undefined_jump(s);
    lemma_cleaned(undefined_demoted(s), defined, ids);
    let jumps = cleaned(undefined_demoted(s));
    lemma_pruned(jumps, defined, ids);
    lemma_cleaned(unreachable_pruned(jumps), defined, ids);
    lemma_commented(cleaned(unreachable_pruned(jumps)), text, defined, ids);
}

/// A comment is no jump.
proof fn lemma_commented(body: StmtV, text: Seq<char>, defined: Seq<Seq<char>>, ids: Set<u32>)
    requires
        !jumps_out(body, defined, ids),
    ensures
        !jumps_out(commented(body, text), defined, ids),
{
    let own = as_list(body);
    let list = seq![StmtV::Comment(text)] + own;
    assert(stays(own, defined, ids)) by {
        if !(body is Block) {
            assert(own =~= seq![body]);
        }
    }
    assert forall|i: int|
        0 <= i < list.len() implies !jumps_out(#[trigger] list[i], defined, ids) by {
        if i > 0 {
            assert(list[i] == own[i - 1]);
        } else {
            assert(list[0] == StmtV::Comment(text));
        }
    }
    assert(stays(list, defined, ids));
}

/// The body of a method right before its jumps are settled.
pub open spec fn before_jumps(
    d: DraftV,
    pc: PoolClassV,
    pool: ClassPoolV,
    ret: JTypeV,
    links: Seq<SuperLinkV>,
    facts: Seq<CastFactsV>,
    is_ctor: bool,
) -> StmtV {
    breaks_pruned(
        dead_breaks_pruned(
            declared(made_whole(casts_added(d, pc, pool, ret, links, facts), pc, is_ctor), d.vt),
        ),
    )
}

/// Every labelled jump of a finished body goes to a label that the body defined when its
/// jumps were settled.
pub proof fn law_finished_body_jumps_to_labels(
    d: DraftV,
    pc: PoolClassV,
    pool: ClassPoolV,
    ret: JTypeV,
    links: Seq<SuperLinkV>,
    facts: Seq<CastFactsV>,
    is_ctor: bool,
    failed: nat,
)
    ensures
        ({
            let s = before_jumps(d, pc, pool, ret, links, facts, is_ctor);
            !jumps_out(
                finished_body(d, pc, pool, ret, links, facts, is_ctor, failed).body,
                labels_in(s),
                ids_in(s),
            )
        }),
{
    lemma_settled(before_jumps(d, pc, pool, ret, links, facts, is_ctor), failure_text(failed));
}

} // verus!
