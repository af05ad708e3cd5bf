//! The parameter types of the constructor that a `new` expression calls.
use crate::classes::{
    method_desc, method_name, opt_is, pool_get, utf8_at, ClassPoolV, PoolClass, PoolClassV,
    ACC_ENUM,
};
use crate::expr::{exprs, type_of, ConstVal, ConstValV, Expr, ExprV};
use crate::jvmctx::JvmCtx;
use crate::signatures::{method_descriptor, parse_method_descriptor};
use crate::types::{
    clone_java_types, erase, has_prefix, java_types, starts_with, str_eq, JType, JTypeV,
    MethodDescriptor, MethodDescriptorV,
};
use vstd::prelude::*;

verus! {

/// A value of the erased type `have` can stand for a parameter of type `p`.
pub open spec fn type_fits(have: JTypeV, p: JTypeV) -> bool {
    match have {
        JTypeV::Object(x) => p == JTypeV::Object(x),
        JTypeV::Array(_) => p is Array,
        JTypeV::Boolean => p is Boolean || p is Int,
        JTypeV::Int => p is Int || p is Long || p is Float || p is Double || p is Boolean,
        JTypeV::Long => p is Long || p is Float || p is Double,
        JTypeV::Float => p is Float || p is Double,
        JTypeV::Double => p is Double,
        JTypeV::Byte => p is Byte || p is Int || p is Long || p is Float || p is Double,
        JTypeV::Short => p is Short || p is Int || p is Long || p is Float || p is Double,
        JTypeV::Char => p is Char || p is Int || p is Long || p is Float || p is Double,
        JTypeV::Void => false,
    }
}

/// A constant can stand for a parameter of type `p`.
pub open spec fn const_fits(c: ConstValV, p: JTypeV) -> bool {
    match c {
        ConstValV::Int(_) => p is Boolean || p is Byte || p is Short || p is Char || p is Int
            || p is Long || p is Float || p is Double,
        ConstValV::Long(_) => p is Long || p is Float || p is Double,
        ConstValV::Float(_) => p is Float || p is Double,
        ConstValV::Double(_) => p is Double,
        ConstValV::Str(_) => p == JTypeV::Object("java/lang/String"@),
        ConstValV::Null => p is Object || p is Array,
        ConstValV::ClassLit(_) => false,
    }
}

/// An argument can stand for a parameter of type `p`.
pub open spec fn arg_fits(a: ExprV, p: JTypeV) -> bool {
    match a {
        ExprV::Const(c) => const_fits(c, p),
        _ => type_fits(erase(type_of(a)), p),
    }
}

/// How many of the first `n` arguments do not fit their parameters.
pub open spec fn misfits(types: Seq<JTypeV>, args: Seq<ExprV>, n: nat) -> nat
    decreases n,
{
    if n == 0 {
        0
    } else {
        misfits(types, args, (n - 1) as nat) + if arg_fits(args[n - 1], types[n - 1]) {
            0nat
        } else {
            1
        }
    }
}

/// How many arguments do not fit their parameters; what is left over on either side does
/// not count.
pub open spec fn all_misfits(types: Seq<JTypeV>, args: Seq<ExprV>) -> nat {
    misfits(
        types,
        args,
        if types.len() < args.len() {
            types.len()
        } else {
            args.len()
        },
    )
}

/// Index of the first of the first `n` lists that the arguments fit best.
pub open spec fn best_fit(lists: Seq<Seq<JTypeV>>, args: Seq<ExprV>, n: nat) -> int
    decreases n,
{
    if n <= 1 {
        0
    } else {
        let b = best_fit(lists, args, (n - 1) as nat);
        if all_misfits(lists[n - 1], args) < all_misfits(lists[b], args) {
            n - 1
        } else {
            b
        }
    }
}

/// A constructor takes an instance of `outer` first.
pub open spec fn takes_outer(d: MethodDescriptorV, outer: Option<Seq<char>>) -> bool {
    d.args.len() > 0 && (d.args[0] matches JTypeV::Object(name) && outer == Some(name))
}

/// The parameter types from `from` on of the constructors among the first `n` methods
/// that take `len` parameters and, unless `any` do, an instance of `outer` first. None
/// where a constructor has no descriptor.
pub open spec fn ctor_lists(
    c: PoolClassV,
    n: nat,
    len: int,
    from: int,
    any: bool,
    outer: Option<Seq<char>>,
) -> Option<Seq<Seq<JTypeV>>>
    decreases n,
{
    if n == 0 {
        Some(seq![])
    } else {
        match ctor_lists(c, (n - 1) as nat, len, from, any, outer) {
            None => None,
            Some(front) => if method_name(c, n - 1) != Some("<init>"@) {
                Some(front)
            } else {
                match method_desc(c, n - 1) {
                    None => None,
                    Some(text) => match method_descriptor(text) {
                        Some(d) => if d.args.len() == len && (any || takes_outer(d, outer)) {
                            Some(front.push(d.args.skip(from)))
                        } else {
                            Some(front)
                        },
                        None => Some(front),
                    },
                }
            },
        }
    }
}

/// The class that encloses one of this name: what stands before the last `$`.
pub open spec fn enclosing(cls: Seq<char>) -> Option<Seq<char>>
    decreases cls.len(),
{
    if cls.len() == 0 {
        None
    } else if cls.last() == '$' {
        Some(cls.drop_last())
    } else {
        enclosing(cls.drop_last())
    }
}

/// Some field holds an enclosing instance.
pub open spec fn has_outer_field(c: PoolClassV) -> bool {
    exists|i: int|
        0 <= i < c.fields.len() && (utf8_at(c, (#[trigger] c.fields[i]).name_index) matches Some(
            name,
        ) && has_prefix(name, "this$"@))
}

/// How many parameters every constructor has that source does not show: an enum's take
/// its name and number.
pub open spec fn hidden_params(c: PoolClassV) -> int {
    if c.access_flags & ACC_ENUM != 0 {
        2
    } else {
        0
    }
}

/// The lists of parameter types to choose from for `n` arguments after `skip` hidden
/// ones. Where no constructor takes them and nothing is skipped, one that takes the
/// enclosing instance first does.
pub open spec fn ctor_choices(c: PoolClassV, cls: Seq<char>, skip: int, n: int) -> Option<
    Seq<Seq<JTypeV>>,
> {
    let extra = hidden_params(c);
    match ctor_lists(c, c.methods.len(), skip + extra + n, skip + extra, true, None) {
        None => None,
        Some(lists) => if lists.len() == 0 && skip == 0 {
            ctor_lists(
                c,
                c.methods.len(),
                extra + n + 1,
                extra + 1,
                has_outer_field(c),
                enclosing(cls),
            )
        } else {
            Some(lists)
        },
    }
}

/// The parameter types of the constructor of `cls` that takes `n` arguments after `skip`
/// hidden ones and fits `args` best.
pub open spec fn ctor_types(
    pool: ClassPoolV,
    cls: Seq<char>,
    skip: int,
    n: int,
    args: Seq<ExprV>,
) -> Option<Seq<JTypeV>> {
    match pool_get(pool, cls) {
        None => None,
        Some(c) => match ctor_choices(c, cls, skip, n) {
            None => None,
            Some(lists) => if lists.len() == 0 {
                None
            } else {
                Some(lists[best_fit(lists, args, lists.len())])
            },
        },
    }
}

/// Model of lists of types.
pub open spec fn type_lists(v: Seq<Vec<JType>>) -> Seq<Seq<JTypeV>> {
    Seq::new(v.len(), |i: int| java_types(v[i]@))
}

/// Whether a value of type `have` can stand for a parameter of type `p`.
fn type_matches(have: &JType, p: &JType) -> (r: bool)
    ensures
        r == type_fits(have@, p@),
{
    match have {
        JType::Object(x) => match p {
            JType::Object(y) => str_eq(x.as_str(), y.as_str()),
            _ => false,
        },
        JType::Array(_) => matches!(p, JType::Array(_)),
        JType::Boolean => matches!(p, JType::Boolean | JType::Int),
        JType::Int => matches!(
            p,
            JType::Int | JType::Long | JType::Float | JType::Double | JType::Boolean
        ),
        JType::Long => matches!(p, JType::Long | JType::Float | JType::Double),
        JType::Float => matches!(p, JType::Float | JType::Double),
        JType::Double => matches!(p, JType::Double),
        JType::Byte => matches!(
            p,
            JType::Byte | JType::Int | JType::Long | JType::Float | JType::Double
        ),
        JType::Short => matches!(
            p,
            JType::Short | JType::Int | JType::Long | JType::Float | JType::Double
        ),
        JType::Char => matches!(
            p,
            JType::Char | JType::Int | JType::Long | JType::Float | JType::Double
        ),
        JType::Void => false,
    }
}

/// Whether a constant can stand for a parameter of type `p`.
fn const_matches(c: &ConstVal, p: &JType) -> (r: bool)
    ensures
        r == const_fits(c@, p@),
{
    match c {
        ConstVal::Int(_) => matches!(
            p,
            JType::Boolean
                | JType::Byte
                | JType::Short
                | JType::Char
                | JType::Int
                | JType::Long
                | JType::Float
                | JType::Double
        ),
        ConstVal::Long(_) => matches!(p, JType::Long | JType::Float | JType::Double),
        ConstVal::Float(_) => matches!(p, JType::Float | JType::Double),
        ConstVal::Double(_) => matches!(p, JType::Double),
        ConstVal::Str(_) => p.is_object("java/lang/String"),
        ConstVal::Null => matches!(p, JType::Object(_) | JType::Array(_)),
        ConstVal::ClassLit(_) => false,
    }
}

/// Whether an argument can stand for a parameter of type `p`.
fn arg_matches(a: &Expr, p: &JType) -> (r: bool)
    ensures
        r == arg_fits(a@, p@),
{
    match a {
        Expr::Const(c) => const_matches(c, p),
        _ => type_matches(&a.type_ref().erased(), p),
    }
}

/// How many arguments do not fit their parameters.
#[verifier::loop_isolation(false)]
fn count_misfits(types: &Vec<JType>, args: &Vec<Expr>) -> (r: usize)
    ensures
        r == all_misfits(java_types(types@), exprs(args@)),
{
    let ghost ts = java_types(types@);
    let ghost xs = exprs(args@);
    let mut bad: usize = 0;
    let mut i: usize = 0;
    while i < types.len() && i < args.len()
        invariant
            i <= types.len(),
            i <= args.len(),
            bad <= i,
            bad == misfits(ts, xs, i as nat),
        decreases types.len() - i,
    {
        assert(ts[i as int] == types@[i as int]@);
        assert(xs[i as int] == args@[i as int]@);
        if !arg_matches(&args[i], &types[i]) {
            bad += 1;
        }
        i += 1;
    }
    bad
}

/// The best fit is one of the lists.
proof fn lemma_best_fit(lists: Seq<Seq<JTypeV>>, args: Seq<ExprV>, n: nat)
    ensures
        0 <= best_fit(lists, args, n),
        n > 0 ==> best_fit(lists, args, n) < n,
    decreases n,
{
    if n > 1 {
        lemma_best_fit(lists, args, (n - 1) as nat);
    }
}

/// Index of the first list that the arguments fit best.
#[verifier::loop_isolation(false)]
fn find_best(lists: &Vec<Vec<JType>>, args: &Vec<Expr>) -> (r: usize)
    requires
        lists.len() > 0,
    ensures
        r < lists.len(),
        r == best_fit(type_lists(lists@), exprs(args@), lists@.len()),
{
    let ghost all = type_lists(lists@);
    assert(all[0] == java_types(lists@[0]@));
    let mut best: usize = 0;
    let mut least: usize = count_misfits(&lists[0], args);
    let mut i: usize = 1;
    while i < lists.len()
        invariant
            1 <= i <= lists.len(),
            best < i,
            best == best_fit(all, exprs(args@), i as nat),
            least == all_misfits(all[best as int], exprs(args@)),
        decreases lists.len() - i,
    {
        assert(all[i as int] == java_types(lists@[i as int]@));
        let bad = count_misfits(&lists[i], args);
        if bad < least {
            best = i;
            least = bad;
        }
        i += 1;
    }
    best
}

/// Whether a constructor takes an instance of `outer` first.
fn outer_first(d: &MethodDescriptor, outer: &Option<String>) -> (r: bool)
    ensures
        r == takes_outer(d@, crate::types::opt_str(*outer)),
{
    assert(java_types(d.args@).len() == d.args@.len());
    if d.args.len() == 0 {
        return false;
    }
    assert(java_types(d.args@)[0] == d.args@[0]@);
    match (&d.args[0], outer) {
        (JType::Object(name), Some(o)) => str_eq(name.as_str(), o.as_str()),
        _ => false,
    }
}

/// The types from `from` on.
#[verifier::loop_isolation(false)]
fn types_from(v: &Vec<JType>, from: usize) -> (r: Vec<JType>)
    requires
        from <= v.len(),
    ensures
        java_types(r@) == java_types(v@).skip(from as int),
{
    let ghost all = java_types(v@);
    let mut r: Vec<JType> = Vec::new();
    let mut i: usize = from;
    assert(java_types(r@) =~= all.subrange(from as int, from as int));
    while i < v.len()
        invariant
            from <= i <= v.len(),
            java_types(r@) == all.subrange(from as int, i as int),
        decreases v.len() - i,
    {
        assert(all[i as int] == v@[i as int]@);
        r.push(v[i].clone());
        assert(java_types(r@) =~= all.subrange(from as int, i + 1));
        i += 1;
    }
    assert(all.subrange(from as int, i as int) =~= all.skip(from as int));
    r
}

/// A missing list among the first `n` methods stays missing.
proof fn lemma_no_lists(
    c: PoolClassV,
    n: nat,
    m: nat,
    len: int,
    from: int,
    any: bool,
    outer: Option<Seq<char>>,
)
    requires
        n <= m,
        ctor_lists(c, n, len, from, any, outer) is None,
    ensures
        ctor_lists(c, m, len, from, any, outer) is None,
    decreases m - n,
{
    if n < m {
        lemma_no_lists(c, n, (m - 1) as nat, len, from, any, outer);
    }
}

/// The parameter types of the constructors that take `len` parameters.
#[verifier::loop_isolation(false)]
#[verifier::spinoff_prover]
fn find_lists(c: &PoolClass, len: u128, from: usize, any: bool, outer: &Option<String>) -> (r:
    Option<Vec<Vec<JType>>>)
    requires
        from <= len,
    ensures
        ({
            let all = ctor_lists(
                c@,
                c@.methods.len(),
                len as int,
                from as int,
                any,
                crate::types::opt_str(*outer),
            );
            match r {
                Some(v) => all == Some(type_lists(v@)),
                None => all is None,
            }
        }),
{
    let ghost o = crate::types::opt_str(*outer);
    let mut r: Vec<Vec<JType>> = Vec::new();
    let mut i: usize = 0;
    assert(type_lists(r@) =~= seq![]);
    while i < c.methods.len()
        invariant
            i <= c.methods.len(),
            ctor_lists(c@, i as nat, len as int, from as int, any, o) == Some(type_lists(r@)),
        decreases c.methods.len() - i,
    {
        let ghost front = type_lists(r@);
        if opt_is(c.method_name(i), "<init>") {
            let text = match c.method_desc(i) {
                Some(text) => text,
                None => {
                    proof {
                        lemma_no_lists(
                            c@,
                            (i + 1) as nat,
                            c@.methods.len(),
                            len as int,
                            from as int,
                            any,
                            o,
                        );
                    }
                    return None;
                },
            };
            if let Some(d) = parse_method_descriptor(text) {
                assert(d@.args.len() == d.args@.len());
                if d.args.len() as u128 == len && (any || outer_first(&d, outer)) {
                    let list = types_from(&d.args, from);
                    let ghost l = java_types(list@);
                    r.push(list);
                    assert(type_lists(r@) =~= front.push(l));
                }
            }
        }
        i += 1;
    }
    Some(r)
}

/// The class that encloses one of this name.
#[verifier::loop_isolation(false)]
fn enclosing_class(cls: &str) -> (r: Option<String>)
    ensures
        crate::types::opt_str(r) == enclosing(cls@),
{
    let n = cls.unicode_len();
    let mut i: usize = n;
    assert(cls@.take(n as int) =~= cls@);
    while i > 0
        invariant
            i <= n,
            enclosing(cls@.take(i as int)) == enclosing(cls@),
        decreases i,
    {
        assert(cls@.take(i as int).last() == cls@[i - 1]);
        assert(cls@.take(i as int).drop_last() =~= cls@.take(i - 1));
        i -= 1;
        if cls.get_char(i) == '$' {
            let name = cls.substring_char(0, i);
            assert(name@ =~= cls@.take(i as int));
            return Some(name.to_string());
        }
    }
    None
}

/// Whether some field holds an enclosing instance.
#[verifier::loop_isolation(false)]
fn holds_outer(c: &PoolClass) -> (r: bool)
    ensures
        r == has_outer_field(c@),
{
    let mut i: usize = 0;
    assert(c@.fields.len() == c.fields.len());
    while i < c.fields.len()
        invariant
            i <= c.fields.len(),
            forall|j: int|
                0 <= j < i
                    ==> !(utf8_at(c@, (#[trigger] c@.fields[j]).name_index) matches Some(name)
                    && has_prefix(name, "this$"@)),
        decreases c.fields.len() - i,
    {
        assert(c@.fields[i as int] == c.fields@[i as int]@);
        if let Some(name) = c.utf8(c.fields[i].name_index) {
            if starts_with(name, "this$") {
                return true;
            }
        }
        i += 1;
    }
    false
}

/// The lists of parameter types to choose from.
fn find_choices(c: &PoolClass, cls: &str, skip: usize, n: usize) -> (r: Option<Vec<Vec<JType>>>)
    requires
        skip + 2 <= usize::MAX,
    ensures
        match r {
            Some(v) => ctor_choices(c@, cls@, skip as int, n as int) == Some(type_lists(v@)),
            None => ctor_choices(c@, cls@, skip as int, n as int) is None,
        },
{
    let extra: usize = if c.access_flags & ACC_ENUM != 0 {
        2
    } else {
        0
    };
    let none: Option<String> = None;
    let from = skip + extra;
    let lists = match find_lists(c, from as u128 + n as u128, from, true, &none) {
        Some(lists) => lists,
        None => {
            return None;
        },
    };
    assert(type_lists(lists@).len() == lists@.len());
    if lists.len() == 0 && skip == 0 {
        let outer = enclosing_class(cls);
        find_lists(c, extra as u128 + n as u128 + 1, extra + 1, holds_outer(c), &outer)
    } else {
        Some(lists)
    }
}

impl<'a> JvmCtx<'a> {
    /// The parameter types of the constructor of `cls` that a `new` expression calls with
    /// `n` arguments after `skip` hidden ones. Of constructors with as many parameters,
    /// the first one that fits `args` best.
    pub fn ctor_param_types(
        &self,
        cls: &str,
        skip: usize,
        n: usize,
        args: &Vec<Expr>,
    ) -> (r: Option<
        Vec<JType>,
    >)
        requires
            skip + 2 <= usize::MAX,
        ensures
            match r {
                Some(v) => ctor_types(self.pool@, cls@, skip as int, n as int, exprs(args@))
                    == Some(
                    java_types(v@),
                ),
                None => ctor_types(self.pool@, cls@, skip as int, n as int, exprs(args@)) is None,
            },
    {
        let c = match self.pool.get(cls) {
            Some(c) => c,
            None => {
                return None;
            },
        };
        let lists = match find_choices(c, cls, skip, n) {
            Some(lists) => lists,
            None => {
                return None;
            },
        };
        assert(type_lists(lists@).len() == lists@.len());
        if lists.len() == 0 {
            return None;
        }
        let best = find_best(&lists, args);
        assert(type_lists(lists@)[best as int] == java_types(lists@[best as int]@));
        Some(clone_java_types(&lists[best]))
    }
}

/// Every list to choose from among the first `m` methods has `len - from` types.
proof fn lemma_list_lengths(
    c: PoolClassV,
    m: nat,
    len: int,
    from: int,
    any: bool,
    outer: Option<Seq<char>>,
)
    requires
        0 <= from <= len,
    ensures
        ctor_lists(c, m, len, from, any, outer) matches Some(lists) ==> forall|i: int|
            0 <= i < lists.len() ==> (#[trigger] lists[i]).len() == len - from,
    decreases m,
{
    if m > 0 {
        lemma_list_lengths(c, (m - 1) as nat, len, from, any, outer);
    }
}

/// No list fits the arguments better than the chosen one.
proof fn lemma_best_is_least(lists: Seq<Seq<JTypeV>>, args: Seq<ExprV>, n: nat, i: int)
    requires
        0 <= i < n <= lists.len(),
    ensures
        all_misfits(lists[best_fit(lists, args, n)], args) <= all_misfits(lists[i], args),
    decreases n,
{
    if n > 1 {
        lemma_best_fit(lists, args, (n - 1) as nat);
        if i < n - 1 {
            lemma_best_is_least(lists, args, (n - 1) as nat, i);
        }
        lemma_best_is_least(lists, args, (n - 1) as nat, best_fit(lists, args, (n - 1) as nat));
    }
}

/// The chosen constructor has a type for each of the `n` arguments.
pub proof fn law_one_type_per_argument(
    pool: ClassPoolV,
    cls: Seq<char>,
    skip: nat,
    n: nat,
    args: Seq<ExprV>,
)
    ensures
        ctor_types(pool, cls, skip as int, n as int, args) matches Some(types) ==> types.len() == n,
{
    if let Some(c) = pool_get(pool, cls) {
        let extra = hidden_params(c);
        lemma_list_lengths(c, c.methods.len(), skip + extra + n, skip + extra, true, None);
        lemma_list_lengths(
            c,
            c.methods.len(),
            extra + n + 1,
            extra + 1,
            has_outer_field(c),
            enclosing(cls),
        );
        if let Some(lists) = ctor_choices(c, cls, skip as int, n as int) {
            lemma_best_fit(lists, args, lists.len());
        }
    }
}

/// No constructor to choose from fits the arguments better than the chosen one.
pub proof fn law_chosen_constructor_fits_best(
    c: PoolClassV,
    cls: Seq<char>,
    skip: nat,
    n: nat,
    args: Seq<ExprV>,
    i: int,
)
    ensures
        ctor_choices(c, cls, skip as int, n as int) matches Some(lists) ==> 0 <= i < lists.len()
            ==> all_misfits(lists[best_fit(lists, args, lists.len())], args) <= all_misfits(
            lists[i],
            args,
        ),
{
    if let Some(lists) = ctor_choices(c, cls, skip as int, n as int) {
        if 0 <= i < lists.len() {
            lemma_best_is_least(lists, args, lists.len(), i);
        }
    }
}

} // verus!
