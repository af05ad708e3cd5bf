//! Array initializers that wait for the expression that uses the array.
use crate::expr::{
    concat_parts, exprs, opt_box, opt_expr, opt_exprs, ConcatPart, ConcatPartV, ConstVal, ConstValV,
    Expr, ExprV, LambdaExpr, LambdaExprV,
};
use crate::signatures::type_text;
use crate::text::{append_int, int_text};
use crate::types::{erase, str_eq, TypeRef, TypeRefV};
use vstd::prelude::*;

verus! {

/// The values of an initializer, with the element type's descriptor and the dimensions
/// of the array that they belong to.
#[derive(Debug)]
pub struct PendingArray {
    pub elem: String,
    pub dims: String,
    pub values: Vec<Expr>,
}

/// Model of [`PendingArray`].
pub ghost struct PendingArrayV {
    pub elem: Seq<char>,
    pub dims: Seq<char>,
    pub values: Seq<ExprV>,
}

impl PendingArray {
    pub open spec fn view(&self) -> PendingArrayV {
        PendingArrayV { elem: self.elem@, dims: self.dims@, values: exprs(self.values@) }
    }
}

/// Model of the waiting initializers.
pub open spec fn pending(v: Seq<PendingArray>) -> Seq<PendingArrayV> {
    Seq::new(v.len(), |i: int| v[i]@)
}

/// The text of constant dimensions, joined by commas; none where one is not constant.
pub open spec fn dims_text(dims: Seq<ExprV>) -> Option<Seq<char>>
    decreases dims.len(),
{
    if dims.len() == 0 {
        Some(seq![])
    } else {
        match (dims_text(dims.drop_last()), dims.last()) {
            (Some(front), ExprV::Const(ConstValV::Int(i))) => Some(
                if dims.len() == 1 {
                    int_text(i as int)
                } else {
                    front + seq![','] + int_text(i as int)
                },
            ),
            _ => None,
        }
    }
}

/// The identity of a fresh array: its element type and dimensions.
pub open spec fn key_of(elem: TypeRefV, dims: Seq<ExprV>, trailing_dims: u8) -> Option<
    (Seq<char>, Seq<char>),
> {
    if trailing_dims != 0 {
        None
    } else {
        match dims_text(dims) {
            Some(text) => Some((type_text(erase(elem)), text)),
            None => None,
        }
    }
}

/// Model of an optional key.
pub open spec fn opt_key(o: Option<(String, String)>) -> Option<(Seq<char>, Seq<char>)> {
    match o {
        Some((a, b)) => Some((a@, b@)),
        None => None,
    }
}

/// Dimensions are constant only where all of them are.
proof fn lemma_dims_prefix(dims: Seq<ExprV>, n: int)
    requires
        0 <= n <= dims.len(),
        dims_text(dims.take(n)) is None,
    ensures
        dims_text(dims) is None,
    decreases dims.len() - n,
{
    if n < dims.len() {
        assert(dims.take(n + 1).drop_last() =~= dims.take(n));
        lemma_dims_prefix(dims, n + 1);
    } else {
        assert(dims.take(n) =~= dims);
    }
}

/// The identity of a fresh array.
#[verifier::loop_isolation(false)]
pub fn array_key_of(
    elem: &TypeRef,
    dims: &Vec<Expr>,
    trailing_dims: u8,
) -> (r: Option<(String, String)>)
    ensures
        opt_key(r) == key_of(elem@, exprs(dims@), trailing_dims),
{
    if trailing_dims != 0 {
        return None;
    }
    proof {
        reveal_strlit(",");
        reveal_with_fuel(Expr::view, 2);
    }
    let ghost all = exprs(dims@);
    let mut text: String = String::new();
    let mut i: usize = 0;
    assert(all.take(0) =~= seq![]);
    while i < dims.len()
        invariant
            i <= dims.len(),
            dims_text(all.take(i as int)) == Some(text@),
            i == 0 ==> text@.len() == 0,
        decreases dims.len() - i,
    {
        let ghost before = text@;
        assert(all.take(i + 1).drop_last() =~= all.take(i as int));
        assert(all.take(i + 1).last() == dims@[i as int]@);
        match &dims[i] {
            Expr::Const(ConstVal::Int(k)) => {
                if i > 0 {
                    text.append(",");
                }
                append_int(&mut text, *k as i64);
                assert(text@ =~= if i > 0 {
                    before + seq![','] + int_text(*k as int)
                } else {
                    int_text(*k as int)
                });
            },
            _ => {
                proof {
                    lemma_dims_prefix(all, i + 1);
                }
                return None;
            },
        }
        i += 1;
    }
    assert(all.take(i as int) =~= all);
    let mut key: String = String::new();
    elem.erased().write_descriptor(&mut key);
    assert(key@ =~= type_text(erase(elem@)));
    Some((key, text))
}

/// The identity of an expression that is a fresh array.
pub open spec fn fresh_key(e: ExprV) -> Option<(Seq<char>, Seq<char>)> {
    match e {
        ExprV::NewArray { elem, dims, trailing_dims, init } => if init is None {
            key_of(elem, dims, trailing_dims)
        } else {
            None
        },
        _ => None,
    }
}

/// The identity of an expression that is a fresh array.
pub fn array_key(e: &Expr) -> (r: Option<(String, String)>)
    ensures
        opt_key(r) == fresh_key(e@),
{
    match e {
        Expr::NewArray { elem, dims, trailing_dims, init } => {
            assert(opt_exprs(*init) is None == init.is_none());
            if init.is_none() {
                array_key_of(elem, dims, *trailing_dims)
            } else {
                None
            }
        },
        _ => None,
    }
}

/// Index of the first waiting initializer of that identity.
pub open spec fn pending_index(
    arrays: Seq<PendingArrayV>,
    key: (Seq<char>, Seq<char>),
) -> Option<int>
    decreases arrays.len(),
{
    if arrays.len() == 0 {
        None
    } else {
        match pending_index(arrays.drop_last(), key) {
            Some(i) => Some(i),
            None => if arrays.last().elem == key.0 && arrays.last().dims == key.1 {
                Some(arrays.len() - 1)
            } else {
                None
            },
        }
    }
}

/// The values that wait for an array of that identity, and what waits after they are
/// taken.
pub open spec fn taken(arrays: Seq<PendingArrayV>, key: (Seq<char>, Seq<char>)) -> (
    Option<Seq<ExprV>>,
    Seq<PendingArrayV>,
) {
    match pending_index(arrays, key) {
        Some(i) => (
            if arrays[i].values.len() > 0 {
                Some(arrays[i].values)
            } else {
                None
            },
            arrays.remove(i),
        ),
        None => (None, arrays),
    }
}

/// The initializer of a fresh array, and what waits after it is taken.
pub open spec fn initializer(
    elem: TypeRefV,
    dims: Seq<ExprV>,
    trailing_dims: u8,
    init: Option<Seq<ExprV>>,
    arrays: Seq<PendingArrayV>,
) -> (Option<Seq<ExprV>>, Seq<PendingArrayV>) {
    match init {
        Some(v) => (Some(v), arrays),
        None => match key_of(elem, dims, trailing_dims) {
            Some(key) => taken(arrays, key),
            None => (None, arrays),
        },
    }
}

/// A first initializer found among the first `n` is the first of all.
proof fn lemma_pending_index(arrays: Seq<PendingArrayV>, n: int, key: (Seq<char>, Seq<char>))
    requires
        0 <= n <= arrays.len(),
        pending_index(arrays.take(n), key) is Some,
    ensures
        pending_index(arrays, key) == pending_index(arrays.take(n), key),
    decreases arrays.len() - n,
{
    if n < arrays.len() {
        assert(arrays.take(n + 1).drop_last() =~= arrays.take(n));
        lemma_pending_index(arrays, n + 1, key);
    } else {
        assert(arrays.take(n) =~= arrays);
    }
}

/// Takes the values that wait for an array of that identity.
#[verifier::loop_isolation(false)]
fn take_pending(arrays: &mut Vec<PendingArray>, key: &(String, String)) -> (r: Option<Vec<Expr>>)
    ensures
        (opt_exprs(r), pending(final(arrays)@)) == taken(pending(old(arrays)@), (key.0@, key.1@)),
{
    let ghost all = pending(arrays@);
    let ghost k = (key.0@, key.1@);
    let mut i: usize = 0;
    while i < arrays.len()
        invariant
            i <= arrays.len(),
            arrays@ == old(arrays)@,
            pending_index(all.take(i as int), k) is None,
        decreases arrays.len() - i,
    {
        assert(all.take(i + 1).drop_last() =~= all.take(i as int));
        assert(all.take(i + 1).last() == arrays@[i as int]@);
        if str_eq(arrays[i].elem.as_str(), key.0.as_str()) && str_eq(
            arrays[i].dims.as_str(),
            key.1.as_str(),
        ) {
            proof {
                lemma_pending_index(all, i + 1, k);
            }
            let found = arrays.remove(i);
            assert(pending(arrays@) =~= all.remove(i as int));
            assert(exprs(found.values@).len() == found.values@.len());
            if found.values.len() > 0 {
                return Some(found.values);
            }
            return None;
        }
        i += 1;
    }
    assert(all.take(i as int) =~= all);
    None
}

/// Gives a fresh array its initializer.
fn fill(
    elem: &TypeRef,
    dims: &Vec<Expr>,
    trailing_dims: u8,
    init: &mut Option<Vec<Expr>>,
    arrays: &mut Vec<PendingArray>,
)
    ensures
        (opt_exprs(*final(init)), pending(final(arrays)@)) == initializer(
            elem@,
            exprs(dims@),
            trailing_dims,
            opt_exprs(*old(init)),
            pending(old(arrays)@),
        ),
{
    if init.is_some() {
        return ;
    }
    if let Some(key) = array_key_of(elem, dims, trailing_dims) {
        *init = take_pending(arrays, &key);
    }
}

/// `e` with the initializers that wait for its fresh arrays, and those that wait after
/// it. Assignment targets stay as they are.
pub open spec fn materialized(e: ExprV, arrays: Seq<PendingArrayV>) -> (ExprV, Seq<PendingArrayV>)
    decreases e,
{
    match e {
        ExprV::New { cls, ty, args, raw } => {
            let (args1, arrays1) = materialized_exprs(args, arrays);
            (ExprV::New { cls, ty, args: args1, raw }, arrays1)
        },
        ExprV::NewArray { elem, dims, trailing_dims, init } => {
            let (init1, arrays1) = initializer(elem, dims, trailing_dims, init, arrays);
            (ExprV::NewArray { elem, dims, trailing_dims, init: init1 }, arrays1)
        },
        ExprV::Field { owner, cls, name, ty, is_static } => {
            let (owner1, arrays1) = materialized_opt(owner, arrays);
            (ExprV::Field { owner: owner1, cls, name, ty, is_static }, arrays1)
        },
        ExprV::Method {
            owner,
            cls,
            name,
            desc,
            args,
            is_static,
            is_interface,
            is_special,
            is_super,
            is_dynamic,
            type_args,
        } => {
            let (owner1, arrays1) = materialized_opt(owner, arrays);
            let (args1, arrays2) = materialized_exprs(args, arrays1);
            (
                ExprV::Method {
                    owner: owner1,
                    cls,
                    name,
                    desc,
                    args: args1,
                    is_static,
                    is_interface,
                    is_special,
                    is_super,
                    is_dynamic,
                    type_args,
                },
                arrays2,
            )
        },
        ExprV::ArrayIndex { array, index } => {
            let (array1, arrays1) = materialized(*array, arrays);
            let (index1, arrays2) = materialized(*index, arrays1);
            (ExprV::ArrayIndex { array: Box::new(array1), index: Box::new(index1) }, arrays2)
        },
        ExprV::Cast { ty, e } => {
            let (e1, arrays1) = materialized(*e, arrays);
            (ExprV::Cast { ty, e: Box::new(e1) }, arrays1)
        },
        ExprV::InstanceOf { e, ty } => {
            let (e1, arrays1) = materialized(*e, arrays);
            (ExprV::InstanceOf { e: Box::new(e1), ty }, arrays1)
        },
        ExprV::Un { op, e } => {
            let (e1, arrays1) = materialized(*e, arrays);
            (ExprV::Un { op, e: Box::new(e1) }, arrays1)
        },
        ExprV::Bin { op, l, r, ty } => {
            let (l1, arrays1) = materialized(*l, arrays);
            let (r1, arrays2) = materialized(*r, arrays1);
            (ExprV::Bin { op, l: Box::new(l1), r: Box::new(r1), ty }, arrays2)
        },
        ExprV::Cond { c, t, f } => {
            let (c1, arrays1) = materialized(*c, arrays);
            let (t1, arrays2) = materialized(*t, arrays1);
            let (f1, arrays3) = materialized(*f, arrays2);
            (ExprV::Cond { c: Box::new(c1), t: Box::new(t1), f: Box::new(f1) }, arrays3)
        },
        ExprV::Assign { target, op, value } => {
            let (value1, arrays1) = materialized(*value, arrays);
            (ExprV::Assign { target, op, value: Box::new(value1) }, arrays1)
        },
        ExprV::PreIncDec { e, delta, wide } => {
            let (e1, arrays1) = materialized(*e, arrays);
            (ExprV::PreIncDec { e: Box::new(e1), delta, wide }, arrays1)
        },
        ExprV::PostIncDec { e, delta, wide } => {
            let (e1, arrays1) = materialized(*e, arrays);
            (ExprV::PostIncDec { e: Box::new(e1), delta, wide }, arrays1)
        },
        ExprV::StringConcat(parts) => {
            let (parts1, arrays1) = materialized_parts(parts, arrays);
            (ExprV::StringConcat(parts1), arrays1)
        },
        ExprV::Invokedynamic { name, desc, args, bsm_text, bsm_static_args } => {
            let (args1, arrays1) = materialized_exprs(args, arrays);
            (ExprV::Invokedynamic { name, desc, args: args1, bsm_text, bsm_static_args }, arrays1)
        },
        ExprV::NewMultiArray { ty, dims } => {
            let (dims1, arrays1) = materialized_exprs(dims, arrays);
            (ExprV::NewMultiArray { ty, dims: dims1 }, arrays1)
        },
        ExprV::Lambda(l) => {
            let (l1, arrays1) = materialized_captures(*l, arrays);
            (ExprV::Lambda(Box::new(l1)), arrays1)
        },
        ExprV::AnonNew { cls, base, args, body } => {
            let (args1, arrays1) = materialized_exprs(args, arrays);
            (ExprV::AnonNew { cls, base, args: args1, body }, arrays1)
        },
        _ => (e, arrays),
    }
}

/// [`materialized`] inside the captures of a lambda.
pub open spec fn materialized_captures(
    l: LambdaExprV,
    arrays: Seq<PendingArrayV>,
) -> (LambdaExprV, Seq<PendingArrayV>)
    decreases l,
{
    let (captures, arrays1) = materialized_exprs(l.captures, arrays);
    (LambdaExprV { captures, ..l }, arrays1)
}

/// [`materialized`] where there is a value.
pub open spec fn materialized_opt(
    o: Option<Box<ExprV>>,
    arrays: Seq<PendingArrayV>,
) -> (Option<Box<ExprV>>, Seq<PendingArrayV>)
    decreases o,
{
    match o {
        Some(x) => {
            let (y, arrays1) = materialized(*x, arrays);
            (Some(Box::new(y)), arrays1)
        },
        None => (None, arrays),
    }
}

/// [`materialized`] over a list, in order.
pub open spec fn materialized_exprs(
    v: Seq<ExprV>,
    arrays: Seq<PendingArrayV>,
) -> (Seq<ExprV>, Seq<PendingArrayV>)
    decreases v,
{
    if v.len() == 0 {
        (seq![], arrays)
    } else {
        let (front, arrays1) = materialized_exprs(v.drop_last(), arrays);
        let (last, arrays2) = materialized(v.last(), arrays1);
        (front.push(last), arrays2)
    }
}

/// [`materialized`] inside a concatenation piece.
pub open spec fn materialized_part(
    p: ConcatPartV,
    arrays: Seq<PendingArrayV>,
) -> (ConcatPartV, Seq<PendingArrayV>)
    decreases p,
{
    match p {
        ConcatPartV::Str(e) => {
            let (x, arrays1) = materialized(e, arrays);
            (ConcatPartV::Str(x), arrays1)
        },
        ConcatPartV::Const(_) => (p, arrays),
    }
}

/// [`materialized`] over a list, in order.
pub open spec fn materialized_parts(
    v: Seq<ConcatPartV>,
    arrays: Seq<PendingArrayV>,
) -> (Seq<ConcatPartV>, Seq<PendingArrayV>)
    decreases v,
{
    if v.len() == 0 {
        (seq![], arrays)
    } else {
        let (front, arrays1) = materialized_parts(v.drop_last(), arrays);
        let (last, arrays2) = materialized_part(v.last(), arrays1);
        (front.push(last), arrays2)
    }
}

/// [`materialized`] where there is a value.
pub open spec fn materialized_oexpr(
    o: Option<ExprV>,
    arrays: Seq<PendingArrayV>,
) -> (Option<ExprV>, Seq<PendingArrayV>)
    decreases o,
{
    match o {
        Some(x) => {
            let (y, arrays1) = materialized(x, arrays);
            (Some(y), arrays1)
        },
        None => (None, arrays),
    }
}

/// Gives the fresh arrays in `e` the initializers that wait for them, each once.
/// Assignment targets stay as they are.
pub fn materialize_arrays(e: &mut Expr, arrays: &mut Vec<PendingArray>)
    ensures
        final(e)@ == materialized(old(e)@, pending(old(arrays)@)).0,
        pending(final(arrays)@) == materialized(old(e)@, pending(old(arrays)@)).1,
    decreases *old(e),
{
    match e {
        Expr::New { args, .. } => { materialize_arrays_exprs(args, arrays); },
        Expr::NewArray { elem, dims, trailing_dims, init } => fill(
            elem,
            dims,
            *trailing_dims,
            init,
            arrays,
        ),
        Expr::Field { owner, .. } => { materialize_arrays_opt(owner, arrays); },
        Expr::Method { owner, args, .. } => {
            materialize_arrays_opt(owner, arrays);
            materialize_arrays_exprs(args, arrays);
        },
        Expr::ArrayIndex { array, index } => {
            materialize_arrays(array, arrays);
            materialize_arrays(index, arrays);
        },
        Expr::Cast { e, .. } => { materialize_arrays(e, arrays); },
        Expr::InstanceOf { e, .. } => { materialize_arrays(e, arrays); },
        Expr::Un { e, .. } => { materialize_arrays(e, arrays); },
        Expr::Bin { l, r, .. } => { materialize_arrays(l, arrays); materialize_arrays(r, arrays); },
        Expr::Cond { c, t, f } => {
            materialize_arrays(c, arrays);
            materialize_arrays(t, arrays);
            materialize_arrays(f, arrays);
        },
        Expr::Assign { value, .. } => { materialize_arrays(value, arrays); },
        Expr::PreIncDec { e, .. } => { materialize_arrays(e, arrays); },
        Expr::PostIncDec { e, .. } => { materialize_arrays(e, arrays); },
        Expr::StringConcat(parts) => { materialize_arrays_parts(parts, arrays); },
        Expr::Invokedynamic { args, .. } => { materialize_arrays_exprs(args, arrays); },
        Expr::NewMultiArray { dims, .. } => { materialize_arrays_exprs(dims, arrays); },
        Expr::Lambda(l) => { materialize_arrays_captures(l, arrays); },
        Expr::AnonNew { args, .. } => { materialize_arrays_exprs(args, arrays); },
        _ => {},
    }
}

/// `materialize_arrays` inside the captures of a lambda.
pub fn materialize_arrays_captures(l: &mut LambdaExpr, arrays: &mut Vec<PendingArray>)
    ensures
        final(l)@ == materialized_captures(old(l)@, pending(old(arrays)@)).0,
        pending(final(arrays)@) == materialized_captures(old(l)@, pending(old(arrays)@)).1,
    decreases *old(l),
{
    materialize_arrays_exprs(&mut l.captures, arrays);
}

/// `materialize_arrays` where there is a value.
pub fn materialize_arrays_opt(o: &mut Option<Box<Expr>>, arrays: &mut Vec<PendingArray>)
    ensures
        opt_box(*final(o)) == materialized_opt(opt_box(*old(o)), pending(old(arrays)@)).0,
        pending(final(arrays)@) == materialized_opt(opt_box(*old(o)), pending(old(arrays)@)).1,
    decreases *old(o),
{
    if let Some(x) = o {
        materialize_arrays(x, arrays);
    }
}

/// `materialize_arrays` over a list, in order.
#[verifier::loop_isolation(false)]
pub fn materialize_arrays_exprs(v: &mut Vec<Expr>, arrays: &mut Vec<PendingArray>)
    ensures
        exprs(final(v)@) == materialized_exprs(exprs(old(v)@), pending(old(arrays)@)).0,
        pending(final(arrays)@) == materialized_exprs(exprs(old(v)@), pending(old(arrays)@)).1,
    decreases *old(v),
{
    let mut i: usize = 0;
    assert(exprs(v@.take(0)) =~= seq![]);
    while i < v.len()
        invariant
            i <= v.len(),
            v.len() == old(v).len(),
            exprs(v@.take(i as int)) == materialized_exprs(
                exprs(old(v)@).take(i as int),
                pending(old(arrays)@),
            ).0,
            pending(arrays@) == materialized_exprs(
                exprs(old(v)@).take(i as int),
                pending(old(arrays)@),
            ).1,
            forall|j: int| i <= j < v.len() ==> #[trigger] v@[j] == old(v)@[j],
        decreases v.len() - i,
    {
        let ghost before = exprs(v@.take(i as int));
        let ghost done = exprs(old(v)@).take(i + 1);
        assert(done.drop_last() =~= exprs(old(v)@).take(i as int));
        assert(done.last() == v@[i as int]@);
        assert(decreases_to!(*old(v) => v@[i as int]));
        materialize_arrays(&mut v[i], arrays);
        i += 1;
        assert(exprs(v@.take(i as int)) =~= before.push(v@[i - 1]@));
    }
    assert(v@.take(i as int) =~= v@);
    assert(exprs(old(v)@).take(i as int) =~= exprs(old(v)@));
}

/// `materialize_arrays` inside a concatenation piece.
pub fn materialize_arrays_part(p: &mut ConcatPart, arrays: &mut Vec<PendingArray>)
    ensures
        final(p)@ == materialized_part(old(p)@, pending(old(arrays)@)).0,
        pending(final(arrays)@) == materialized_part(old(p)@, pending(old(arrays)@)).1,
    decreases *old(p),
{
    match p {
        ConcatPart::Str(e) => materialize_arrays(e, arrays),
        ConcatPart::Const(_) => {},
    }
}

/// `materialize_arrays` over a list, in order.
#[verifier::loop_isolation(false)]
pub fn materialize_arrays_parts(v: &mut Vec<ConcatPart>, arrays: &mut Vec<PendingArray>)
    ensures
        concat_parts(final(v)@) == materialized_parts(
            concat_parts(old(v)@),
            pending(old(arrays)@),
        ).0,
        pending(final(arrays)@) == materialized_parts(
            concat_parts(old(v)@),
            pending(old(arrays)@),
        ).1,
    decreases *old(v),
{
    let mut i: usize = 0;
    assert(concat_parts(v@.take(0)) =~= seq![]);
    while i < v.len()
        invariant
            i <= v.len(),
            v.len() == old(v).len(),
            concat_parts(v@.take(i as int)) == materialized_parts(
                concat_parts(old(v)@).take(i as int),
                pending(old(arrays)@),
            ).0,
            pending(arrays@) == materialized_parts(
                concat_parts(old(v)@).take(i as int),
                pending(old(arrays)@),
            ).1,
            forall|j: int| i <= j < v.len() ==> #[trigger] v@[j] == old(v)@[j],
        decreases v.len() - i,
    {
        let ghost before = concat_parts(v@.take(i as int));
        let ghost done = concat_parts(old(v)@).take(i + 1);
        assert(done.drop_last() =~= concat_parts(old(v)@).take(i as int));
        assert(done.last() == v@[i as int]@);
        assert(decreases_to!(*old(v) => v@[i as int]));
        materialize_arrays_part(&mut v[i], arrays);
        i += 1;
        assert(concat_parts(v@.take(i as int)) =~= before.push(v@[i - 1]@));
    }
    assert(v@.take(i as int) =~= v@);
    assert(concat_parts(old(v)@).take(i as int) =~= concat_parts(old(v)@));
}

/// `materialize_arrays` where there is a value.
pub fn materialize_arrays_oexpr(o: &mut Option<Expr>, arrays: &mut Vec<PendingArray>)
    ensures
        opt_expr(*final(o)) == materialized_oexpr(opt_expr(*old(o)), pending(old(arrays)@)).0,
        pending(final(arrays)@) == materialized_oexpr(opt_expr(*old(o)), pending(old(arrays)@)).1,
    decreases *old(o),
{
    if let Some(x) = o {
        materialize_arrays(x, arrays);
    }
}

// ---------------------------------------------------------------------
// Laws.

/// No two waiting initializers are for arrays of the same identity.
pub open spec fn keys_once(arrays: Seq<PendingArrayV>) -> bool {
    forall|i: int, j: int|
        0 <= i < j < arrays.len() ==> (#[trigger] arrays[i]).elem != (#[trigger] arrays[j]).elem
            || arrays[i].dims != arrays[j].dims
}

/// The initializer found is one of that identity.
proof fn lemma_pending_found(arrays: Seq<PendingArrayV>, key: (Seq<char>, Seq<char>))
    ensures
        match pending_index(arrays, key) {
            Some(i) => 0 <= i < arrays.len() && arrays[i].elem == key.0 && arrays[i].dims == key.1,
            None => forall|i: int|
                0 <= i < arrays.len() ==> (#[trigger] arrays[i]).elem != key.0 || arrays[i].dims
                    != key.1,
        },
    decreases arrays.len(),
{
    if arrays.len() > 0 {
        lemma_pending_found(arrays.drop_last(), key);
        assert forall|i: int| 0 <= i < arrays.len() - 1 implies arrays.drop_last()[i]
            == #[trigger] arrays[i] by {}
    }
}

/// A waiting initializer is used once: once it is taken, nothing waits for an array of
/// that identity, and the others wait as before.
pub proof fn law_initializer_is_used_once(
    arrays: Seq<PendingArrayV>,
    key: (Seq<char>, Seq<char>),
)
    requires
        keys_once(arrays),
    ensures
        keys_once(taken(arrays, key).1),
        pending_index(taken(arrays, key).1, key) is None,
        taken(taken(arrays, key).1, key) == (None::<Seq<ExprV>>, taken(arrays, key).1),
{
    lemma_pending_found(arrays, key);
    let rest = taken(arrays, key).1;
    lemma_pending_found(rest, key);
    if let Some(i) = pending_index(arrays, key) {
        assert(rest =~= arrays.remove(i));
        assert forall|j: int| 0 <= j < rest.len() implies (#[trigger] rest[j]).elem != key.0
            || rest[j].dims != key.1 by {
            let k = if j < i {
                j
            } else {
                j + 1
            };
            assert(rest[j] == arrays[k]);
        }
        assert forall|a: int, b: int| 0 <= a < b < rest.len() implies (#[trigger] rest[a]).elem != (
        #[trigger] rest[b]).elem || rest[a].dims != rest[b].dims by {
            let c = if a < i {
                a
            } else {
                a + 1
            };
            let d = if b < i {
                b
            } else {
                b + 1
            };
            assert(rest[a] == arrays[c] && rest[b] == arrays[d]);
        }
    }
}

/// Filling the fresh arrays of an expression keeps the waiting initializers apart.
pub proof fn law_keys_stay_apart(e: ExprV, arrays: Seq<PendingArrayV>)
    requires
        keys_once(arrays),
    ensures
        keys_once(materialized(e, arrays).1),
{
    lemma_keys_once(e, arrays);
}

/// The waiting initializers stay apart.
proof fn lemma_keys_once(e: ExprV, arrays: Seq<PendingArrayV>)
    requires
        keys_once(arrays),
    ensures
        keys_once(materialized(e, arrays).1),
    decreases e,
{
    match e {
        ExprV::New { args, .. } => {
            lemma_keys_once_exprs(args, arrays);
        },
        ExprV::NewArray { elem, dims, trailing_dims, init } => {
            if init is None {
                if let Some(key) = key_of(elem, dims, trailing_dims) {
                    law_initializer_is_used_once(arrays, key);
                }
            }
        },
        ExprV::NewMultiArray { dims, .. } => {
            lemma_keys_once_exprs(dims, arrays);
        },
        ExprV::Field { owner, .. } => {
            lemma_keys_once_opt(owner, arrays);
        },
        ExprV::Method { owner, args, .. } => {
            lemma_keys_once_opt(owner, arrays);
            let arrays1 = materialized_opt(owner, arrays).1;
            lemma_keys_once_exprs(args, arrays1);
        },
        ExprV::ArrayIndex { array, index } => {
            lemma_keys_once(*array, arrays);
            let arrays1 = materialized(*array, arrays).1;
            lemma_keys_once(*index, arrays1);
        },
        ExprV::Cast { e, .. } => {
            lemma_keys_once(*e, arrays);
        },
        ExprV::InstanceOf { e, .. } => {
            lemma_keys_once(*e, arrays);
        },
        ExprV::Un { e, .. } => {
            lemma_keys_once(*e, arrays);
        },
        ExprV::Bin { l, r, .. } => {
            lemma_keys_once(*l, arrays);
            let arrays1 = materialized(*l, arrays).1;
            lemma_keys_once(*r, arrays1);
        },
        ExprV::Cond { c, t, f } => {
            lemma_keys_once(*c, arrays);
            let arrays1 = materialized(*c, arrays).1;
            lemma_keys_once(*t, arrays1);
            let arrays2 = materialized(*t, arrays1).1;
            lemma_keys_once(*f, arrays2);
        },
        ExprV::Assign { value, .. } => {
            lemma_keys_once(*value, arrays);
        },
        ExprV::PreIncDec { e, .. } => {
            lemma_keys_once(*e, arrays);
        },
        ExprV::PostIncDec { e, .. } => {
            lemma_keys_once(*e, arrays);
        },
        ExprV::Lambda(l) => {
            lemma_keys_once_captures(*l, arrays);
        },
        ExprV::StringConcat(parts) => {
            lemma_keys_once_parts(parts, arrays);
        },
        ExprV::Invokedynamic { args, .. } => {
            lemma_keys_once_exprs(args, arrays);
        },
        ExprV::AnonNew { args, .. } => {
            lemma_keys_once_exprs(args, arrays);
        },
        _ => {},
    }
}

/// [`lemma_keys_once`] where there is a value.
proof fn lemma_keys_once_opt(o: Option<Box<ExprV>>, arrays: Seq<PendingArrayV>)
    requires
        keys_once(arrays),
    ensures
        keys_once(materialized_opt(o, arrays).1),
    decreases o,
{
    if let Some(x) = o {
        lemma_keys_once(*x, arrays);
    }
}

/// [`lemma_keys_once`] over a list.
pub proof fn lemma_keys_once_exprs(v: Seq<ExprV>, arrays: Seq<PendingArrayV>)
    requires
        keys_once(arrays),
    ensures
        keys_once(materialized_exprs(v, arrays).1),
    decreases v,
{
    if v.len() > 0 {
        lemma_keys_once_exprs(v.drop_last(), arrays);
        lemma_keys_once(v.last(), materialized_exprs(v.drop_last(), arrays).1);
    }
}

/// [`lemma_keys_once`] inside the captures of a lambda.
proof fn lemma_keys_once_captures(l: LambdaExprV, arrays: Seq<PendingArrayV>)
    requires
        keys_once(arrays),
    ensures
        keys_once(materialized_captures(l, arrays).1),
    decreases l,
{
    lemma_keys_once_exprs(l.captures, arrays);
}

/// [`lemma_keys_once`] inside a concatenation piece.
proof fn lemma_keys_once_part(p: ConcatPartV, arrays: Seq<PendingArrayV>)
    requires
        keys_once(arrays),
    ensures
        keys_once(materialized_part(p, arrays).1),
    decreases p,
{
    if let ConcatPartV::Str(e) = p {
        lemma_keys_once(e, arrays);
    }
}

/// [`lemma_keys_once`] over a list.
proof fn lemma_keys_once_parts(v: Seq<ConcatPartV>, arrays: Seq<PendingArrayV>)
    requires
        keys_once(arrays),
    ensures
        keys_once(materialized_parts(v, arrays).1),
    decreases v,
{
    if v.len() > 0 {
        lemma_keys_once_parts(v.drop_last(), arrays);
        lemma_keys_once_part(v.last(), materialized_parts(v.drop_last(), arrays).1);
    }
}

} // verus!
