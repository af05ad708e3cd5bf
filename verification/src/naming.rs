//! Local declarations that would shadow another local.
use crate::catches::{names_of, set_names, var_names, with_names};
use crate::stmt::{
    case_groups, catch_list, opt_stmt, stmts, CaseGroup, CaseGroupV, Catch, CatchV, Stmt, StmtV,
};
use crate::text::{append_decimal, lemma_numbered_taken, numbered};
use crate::types::{str_eq, strs};
use crate::var::{VarTable, VarTableV};
use vstd::prelude::*;

verus! {

/// Names with the variables that hold them.
pub open spec fn entries(v: Seq<(String, u32)>) -> Seq<(Seq<char>, u32)> {
    Seq::new(v.len(), |i: int| (v[i].0@, v[i].1))
}

/// Names during a walk: those of all variables, those visible, innermost last, and
/// those ever declared.
pub struct Naming {
    pub names: Vec<String>,
    pub visible: Vec<(String, u32)>,
    pub used: Vec<(String, u32)>,
}

/// Model of [`Naming`].
#[verifier::ext_equal]
pub ghost struct NamingV {
    pub names: Seq<Seq<char>>,
    pub visible: Seq<(Seq<char>, u32)>,
    pub used: Seq<(Seq<char>, u32)>,
}

impl Naming {
    pub open spec fn view(&self) -> NamingV {
        NamingV {
            names: strs(self.names@),
            visible: entries(self.visible@),
            used: entries(self.used@),
        }
    }
}

/// The variable that holds `name` last.
pub open spec fn owner(l: Seq<(Seq<char>, u32)>, name: Seq<char>) -> Option<u32>
    decreases l.len(),
{
    if l.len() == 0 {
        None
    } else if l.last().0 == name {
        Some(l.last().1)
    } else {
        owner(l.drop_last(), name)
    }
}

/// The variable that holds `name` last.
#[verifier::loop_isolation(false)]
fn visible_name_owner(l: &Vec<(String, u32)>, name: &str) -> (r: Option<u32>)
    ensures
        r == owner(entries(l@), name@),
{
    let ghost all = entries(l@);
    let mut i: usize = l.len();
    assert(all.take(i as int) =~= all);
    while i > 0
        invariant
            i <= l.len(),
            owner(all.take(i as int), name@) == owner(all, name@),
        decreases i,
    {
        i -= 1;
        assert(all.take(i + 1).last() == all[i as int]);
        assert(all.take(i + 1).drop_last() =~= all.take(i as int));
        if str_eq(l[i].0.as_str(), name) {
            return Some(l[i].1);
        }
    }
    None
}

/// `name` is visible, or was ever declared for another variable.
pub open spec fn is_taken(name: Seq<char>, var: u32, st: NamingV) -> bool {
    owner(st.visible, name) is Some || (owner(st.used, name) matches Some(o) && o != var)
}

/// `k` is the least number from one on whose name is not taken.
pub open spec fn is_least_untaken(k: nat, prefix: Seq<char>, var: u32, st: NamingV) -> bool {
    &&& k >= 1
    &&& !is_taken(numbered(prefix, k), var, st)
    &&& forall|j: nat| 1 <= j < k ==> is_taken(#[trigger] numbered(prefix, j), var, st)
}

/// The name that a declaration of `var` gets: its own, or a numbered one where
/// another visible variable holds it.
pub open spec fn declared_name(var: u32, st: NamingV) -> Seq<char> {
    let name = st.names[var as int];
    match owner(st.visible, name) {
        Some(o) => if o != var {
            numbered(name, choose|k: nat| is_least_untaken(k, name, var, st))
        } else {
            name
        },
        None => name,
    }
}

/// The names after a declaration of `var`.
pub open spec fn declared(var: u32, st: NamingV) -> NamingV {
    if var < st.names.len() {
        let name = declared_name(var, st);
        NamingV {
            names: st.names.update(var as int, name),
            visible: st.visible.push((name, var)),
            used: st.used.push((name, var)),
        }
    } else {
        st
    }
}

/// The names after a scope that began with `st` visible.
pub open spec fn scope_closed(after: NamingV, st: NamingV) -> NamingV {
    NamingV { visible: st.visible, ..after }
}

/// `b` starts with `a`.
pub open spec fn extends(a: Seq<(Seq<char>, u32)>, b: Seq<(Seq<char>, u32)>) -> bool {
    a.len() <= b.len() && forall|i: int| 0 <= i < a.len() ==> #[trigger] b[i] == a[i]
}

/// An owner stands in the list.
proof fn lemma_owner_in(l: Seq<(Seq<char>, u32)>, name: Seq<char>)
    requires
        owner(l, name) is Some,
    ensures
        exists|i: int| 0 <= i < l.len() && (#[trigger] l[i]).0 == name,
    decreases l.len(),
{
    if l.last().0 == name {
        assert(l[l.len() - 1].0 == name);
    } else {
        lemma_owner_in(l.drop_last(), name);
        let i = choose|i: int| 0 <= i < l.len() - 1 && (#[trigger] l.drop_last()[i]).0 == name;
        assert(l[i].0 == name);
    }
}

/// If the first `m` numbered names are all taken, there are at least `m` entries.
proof fn lemma_taken(prefix: Seq<char>, var: u32, m: nat, st: NamingV)
    requires
        forall|j: nat| 1 <= j <= m ==> is_taken(#[trigger] numbered(prefix, j), var, st),
    ensures
        m <= st.visible.len() + st.used.len(),
{
    let both = st.visible + st.used;
    let taken = Seq::new(both.len(), |i: int| both[i].0);
    assert forall|j: nat| 1 <= j <= m implies taken.contains(#[trigger] numbered(prefix, j)) by {
        let x = numbered(prefix, j);
        assert(is_taken(x, var, st));
        if owner(st.visible, x) is Some {
            lemma_owner_in(st.visible, x);
            let i = choose|i: int| 0 <= i < st.visible.len() && (#[trigger] st.visible[i]).0 == x;
            assert(taken[i] == x);
        } else {
            lemma_owner_in(st.used, x);
            let i = choose|i: int| 0 <= i < st.used.len() && (#[trigger] st.used[i]).0 == x;
            assert(taken[st.visible.len() + i] == x);
        }
    }
    lemma_numbered_taken(prefix, m, taken);
}

/// Some numbered name is not taken.
pub proof fn lemma_untaken_exists(prefix: Seq<char>, var: u32, st: NamingV, from: nat)
    requires
        from >= 1,
        forall|j: nat| 1 <= j < from ==> is_taken(#[trigger] numbered(prefix, j), var, st),
    ensures
        exists|k: nat| is_least_untaken(k, prefix, var, st),
    decreases st.visible.len() + st.used.len() + 2 - from,
{
    lemma_taken(prefix, var, (from - 1) as nat, st);
    if is_taken(numbered(prefix, from), var, st) {
        assert forall|j: nat| 1 <= j < from + 1 implies is_taken(
            #[trigger] numbered(prefix, j),
            var,
            st,
        ) by {}
        lemma_taken(prefix, var, from, st);
        lemma_untaken_exists(prefix, var, st, from + 1);
    } else {
        assert(is_least_untaken(from, prefix, var, st));
    }
}

/// The first numbered name that is not taken.
#[verifier::loop_isolation(false)]
fn pick_name(prefix: &String, var: u32, st: &Naming) -> (r: String)
    ensures
        r@ == numbered(prefix@, choose|k: nat| is_least_untaken(k, prefix@, var, st@)),
{
    let mut k: u128 = 1;
    loop
        invariant
            1 <= k <= st.visible.len() + st.used.len() + 1,
            forall|j: nat| 1 <= j < k ==> is_taken(#[trigger] numbered(prefix@, j), var, st@),
        decreases st.visible.len() + st.used.len() + 2 - k,
    {
        let mut name: String = prefix.clone();
        append_decimal(&mut name, k);
        assert(name@ =~= numbered(prefix@, k as nat));
        let visible = visible_name_owner(&st.visible, name.as_str()).is_some();
        let elsewhere = match visible_name_owner(&st.used, name.as_str()) {
            Some(o) => o != var,
            None => false,
        };
        if !visible && !elsewhere {
            proof {
                assert(is_least_untaken(k as nat, prefix@, var, st@));
                let c = choose|c: nat| is_least_untaken(c, prefix@, var, st@);
                if c < k {
                    assert(is_taken(numbered(prefix@, c), var, st@));
                } else if k < c {
                    assert(is_taken(numbered(prefix@, k as nat), var, st@));
                }
            }
            return name;
        }
        proof {
            assert forall|j: nat| 1 <= j <= k implies is_taken(
                #[trigger] numbered(prefix@, j),
                var,
                st@,
            ) by {}
            lemma_taken(prefix@, var, k as nat, st@);
        }
        k += 1;
    }
}

/// Declares `var`.
fn declare(var: u32, st: &mut Naming)
    ensures
        final(st)@ == declared(var, old(st)@),
        extends(old(st)@.visible, final(st)@.visible),
{
    if (var as usize) >= st.names.len() {
        return ;
    }
    let name = st.names[var as usize].clone();
    let name = match visible_name_owner(&st.visible, name.as_str()) {
        Some(o) => if o != var {
            pick_name(&name, var, st)
        } else {
            name
        },
        None => name,
    };
    let ghost start = st@;
    st.names[var as usize] = name.clone();
    assert(strs(st.names@) =~= start.names.update(var as int, name@));
    st.visible.push((name.clone(), var));
    assert(entries(st.visible@) =~= start.visible.push((name@, var)));
    st.used.push((name.clone(), var));
    assert(entries(st.used@) =~= start.used.push((name@, var)));
}

/// Closes the scope that began with `n` visible names.
fn close_scope(st: &mut Naming, n: usize, Ghost(start): Ghost<NamingV>)
    requires
        n == start.visible.len(),
        extends(start.visible, old(st)@.visible),
    ensures
        final(st)@ == scope_closed(old(st)@, start),
{
    let ghost before = st@;
    st.visible.truncate(n);
    assert(entries(st.visible@) =~= start.visible) by {
        assert forall|i: int| 0 <= i < n implies entries(st.visible@)[i] == start.visible[i] by {
            assert(before.visible[i] == start.visible[i]);
        }
    }
}

/// The names after the declarations of `s`, in order.
pub open spec fn disambiguated(s: StmtV, st: NamingV) -> NamingV
    decreases s,
{
    match s {
        StmtV::Block(items) => scope_closed(disambiguated_seq(items, st), st),
        StmtV::LocalDef { var, .. } => declared(var, st),
        StmtV::If { then_stmt, else_stmt, .. } => {
            let st1 = disambiguated(*then_stmt, st);
            disambiguated_opt(else_stmt, st1)
        },
        StmtV::While { body, .. } => { disambiguated(*body, st) },
        StmtV::DoWhile { body, .. } => { disambiguated(*body, st) },
        StmtV::For { init, body, .. } => scope_closed(
            disambiguated(*body, disambiguated_seq(init, st)),
            st,
        ),
        StmtV::ForEach { var, body, .. } => scope_closed(
            disambiguated(*body, declared(var, st)),
            st,
        ),
        StmtV::Switch { cases, default, .. } => {
            let st1 = disambiguated_cases(cases, st);
            disambiguated_opt(default, st1)
        },
        StmtV::Try { body, catches, finally } => {
            let st1 = disambiguated(*body, st);
            let st2 = disambiguated_catches(catches, st1);
            disambiguated_opt(finally, st2)
        },
        StmtV::TryWithResources { resources, body, catches, finally } => {
            let st1 = disambiguated_seq(resources, st);
            let st2 = disambiguated(*body, st1);
            let st3 = disambiguated_catches(catches, st2);
            disambiguated_opt(finally, st3)
        },
        StmtV::Synchronized { body, .. } => { disambiguated(*body, st) },
        StmtV::Labeled { body, .. } => { disambiguated(*body, st) },
        _ => st,
    }
}

/// [`disambiguated`] where there is a value.
pub open spec fn disambiguated_opt(o: Option<Box<StmtV>>, st: NamingV) -> NamingV
    decreases o,
{
    match o {
        Some(x) => disambiguated(*x, st),
        None => st,
    }
}

/// [`disambiguated`] over a list, in order.
pub open spec fn disambiguated_seq(l: Seq<StmtV>, st: NamingV) -> NamingV
    decreases l,
{
    if l.len() == 0 {
        st
    } else {
        let st1 = disambiguated_seq(l.drop_last(), st);
        disambiguated(l.last(), st1)
    }
}

/// [`disambiguated`] inside a switch arm.
pub open spec fn disambiguated_case(c: CaseGroupV, st: NamingV) -> NamingV
    decreases c,
{
    scope_closed(disambiguated_seq(c.body, st), st)
}

/// [`disambiguated`] over a list, in order.
pub open spec fn disambiguated_cases(l: Seq<CaseGroupV>, st: NamingV) -> NamingV
    decreases l,
{
    if l.len() == 0 {
        st
    } else {
        let st1 = disambiguated_cases(l.drop_last(), st);
        disambiguated_case(l.last(), st1)
    }
}

/// [`disambiguated`] inside a catch clause.
pub open spec fn disambiguated_catch(c: CatchV, st: NamingV) -> NamingV
    decreases c,
{
    let st1 = if c.var != u32::MAX {
        declared(c.var, st)
    } else {
        st
    };
    scope_closed(disambiguated(*c.body, st1), st)
}

/// [`disambiguated`] over a list, in order.
pub open spec fn disambiguated_catches(l: Seq<CatchV>, st: NamingV) -> NamingV
    decreases l,
{
    if l.len() == 0 {
        st
    } else {
        let st1 = disambiguated_catches(l.drop_last(), st);
        disambiguated_catch(l.last(), st1)
    }
}

/// Walks the declarations of `s`.
pub fn disambig_walk(s: &Stmt, st: &mut Naming)
    ensures
        final(st)@ == disambiguated(s@, old(st)@),
        extends(old(st)@.visible, final(st)@.visible),
    decreases s,
{
    match s {
        Stmt::Block(items) => {
            let n = st.visible.len();
            let ghost start = st@;
            disambig_walk_vec(items, st);
            close_scope(st, n, Ghost(start));
        },
        Stmt::LocalDef { var, .. } => declare(*var, st),
        Stmt::If { then_stmt, else_stmt, .. } => {
            disambig_walk(then_stmt, st);
            disambig_walk_opt(else_stmt, st);
        },
        Stmt::While { body, .. } => { disambig_walk(body, st); },
        Stmt::DoWhile { body, .. } => { disambig_walk(body, st); },
        Stmt::For { init, body, .. } => {
            let n = st.visible.len();
            let ghost start = st@;
            disambig_walk_vec(init, st);
            disambig_walk(body, st);
            close_scope(st, n, Ghost(start));
        },
        Stmt::ForEach { var, body, .. } => {
            let n = st.visible.len();
            let ghost start = st@;
            declare(*var, st);
            disambig_walk(body, st);
            close_scope(st, n, Ghost(start));
        },
        Stmt::Switch { cases, default, .. } => {
            disambig_walk_cases(cases, st);
            disambig_walk_opt(default, st);
        },
        Stmt::Try { body, catches, finally } => {
            disambig_walk(body, st);
            disambig_walk_catches(catches, st);
            disambig_walk_opt(finally, st);
        },
        Stmt::TryWithResources { resources, body, catches, finally } => {
            disambig_walk_vec(resources, st);
            disambig_walk(body, st);
            disambig_walk_catches(catches, st);
            disambig_walk_opt(finally, st);
        },
        Stmt::Synchronized { body, .. } => { disambig_walk(body, st); },
        Stmt::Labeled { body, .. } => { disambig_walk(body, st); },
        _ => {},
    }
}

/// `disambig_walk` where there is a value.
pub fn disambig_walk_opt(o: &Option<Box<Stmt>>, st: &mut Naming)
    ensures
        final(st)@ == disambiguated_opt(opt_stmt(*o), old(st)@),
        extends(old(st)@.visible, final(st)@.visible),
    decreases o,
{
    if let Some(x) = o {
        disambig_walk(x, st);
    }
}

/// `disambig_walk` over a list, in order.
#[verifier::loop_isolation(false)]
pub fn disambig_walk_vec(l: &Vec<Stmt>, st: &mut Naming)
    ensures
        final(st)@ == disambiguated_seq(stmts(l@), old(st)@),
        extends(old(st)@.visible, final(st)@.visible),
    decreases l,
{
    let ghost all = stmts(l@);
    let mut i: usize = 0;
    while i < l.len()
        invariant
            i <= l.len(),
            st@ == disambiguated_seq(all.take(i as int), old(st)@),
            extends(old(st)@.visible, st@.visible),
        decreases l.len() - i,
    {
        assert(decreases_to!(l => l@[i as int]));
        assert(all.take(i + 1).drop_last() =~= all.take(i as int));
        disambig_walk(&l[i], st);
        i += 1;
    }
    assert(all.take(i as int) =~= all);
}

/// `disambig_walk` inside a switch arm.
pub fn disambig_walk_case(c: &CaseGroup, st: &mut Naming)
    ensures
        final(st)@ == disambiguated_case(c@, old(st)@),
        extends(old(st)@.visible, final(st)@.visible),
    decreases c,
{
    let n = st.visible.len();
    let ghost start = st@;
    disambig_walk_vec(&c.body, st);
    close_scope(st, n, Ghost(start));
}

/// `disambig_walk` over a list, in order.
#[verifier::loop_isolation(false)]
pub fn disambig_walk_cases(l: &Vec<CaseGroup>, st: &mut Naming)
    ensures
        final(st)@ == disambiguated_cases(case_groups(l@), old(st)@),
        extends(old(st)@.visible, final(st)@.visible),
    decreases l,
{
    let ghost all = case_groups(l@);
    let mut i: usize = 0;
    while i < l.len()
        invariant
            i <= l.len(),
            st@ == disambiguated_cases(all.take(i as int), old(st)@),
            extends(old(st)@.visible, st@.visible),
        decreases l.len() - i,
    {
        assert(decreases_to!(l => l@[i as int]));
        assert(all.take(i + 1).drop_last() =~= all.take(i as int));
        disambig_walk_case(&l[i], st);
        i += 1;
    }
    assert(all.take(i as int) =~= all);
}

/// `disambig_walk` inside a catch clause.
pub fn disambig_walk_catch(c: &Catch, st: &mut Naming)
    ensures
        final(st)@ == disambiguated_catch(c@, old(st)@),
        extends(old(st)@.visible, final(st)@.visible),
    decreases c,
{
    let n = st.visible.len();
    let ghost start = st@;
    if c.var != u32::MAX {
        declare(c.var, st);
    }
    disambig_walk(&c.body, st);
    close_scope(st, n, Ghost(start));
}

/// `disambig_walk` over a list, in order.
#[verifier::loop_isolation(false)]
pub fn disambig_walk_catches(l: &Vec<Catch>, st: &mut Naming)
    ensures
        final(st)@ == disambiguated_catches(catch_list(l@), old(st)@),
        extends(old(st)@.visible, final(st)@.visible),
    decreases l,
{
    let ghost all = catch_list(l@);
    let mut i: usize = 0;
    while i < l.len()
        invariant
            i <= l.len(),
            st@ == disambiguated_catches(all.take(i as int), old(st)@),
            extends(old(st)@.visible, st@.visible),
        decreases l.len() - i,
    {
        assert(decreases_to!(l => l@[i as int]));
        assert(all.take(i + 1).drop_last() =~= all.take(i as int));
        disambig_walk_catch(&l[i], st);
        i += 1;
    }
    assert(all.take(i as int) =~= all);
}

/// The names after all declarations of `s`.
pub open spec fn names_disambiguated(s: StmtV, vt: VarTableV) -> Seq<Seq<char>> {
    disambiguated(s, NamingV { names: var_names(vt), visible: seq![], used: seq![] }).names
}

/// Renames the variables whose declaration in `body` would shadow another local.
pub fn disambiguate_nested_locals(vt: &mut VarTable, body: &Stmt)
    ensures
        final(vt)@ == with_names(old(vt)@, names_disambiguated(body@, old(vt)@)),
{
    let names = names_of(vt);
    let visible: Vec<(String, u32)> = Vec::new();
    let used: Vec<(String, u32)> = Vec::new();
    let mut st = Naming { names, visible, used };
    assert(entries(st.visible@) =~= seq![]);
    assert(entries(st.used@) =~= seq![]);
    disambig_walk(body, &mut st);
    set_names(vt, &st.names);
}

/// The name that a declaration ends with is held by no other visible variable.
pub proof fn law_declaration_shadows_nothing(var: u32, st: NamingV)
    requires
        var < st.names.len(),
    ensures
        owner(st.visible, declared(var, st).names[var as int]) matches Some(o) ==> o == var,
        owner(declared(var, st).visible, declared(var, st).names[var as int]) == Some(var),
{
    let name = st.names[var as int];
    let d = declared(var, st);
    assert(d.visible.last() == (declared_name(var, st), var));
    if let Some(o) = owner(st.visible, name) {
        if o != var {
            lemma_untaken_exists(name, var, st, 1);
            let k = choose|k: nat| is_least_untaken(k, name, var, st);
            assert(!is_taken(numbered(name, k), var, st));
        }
    }
}

} // verus!
