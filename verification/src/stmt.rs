//! Statements: the executable tree, its model, copies and equality.
use crate::expr::{
    clone_exprs, clone_opt_expr, expr_eq, exprs, exprs_eq, opt_expr, opt_expr_eq, same_expr,
    same_exprs, same_opt_expr, Expr, ExprV,
};
use crate::types::{clone_opt_string, clone_strings, opt_str, opt_string_eq, strings_eq, strs};
use vstd::prelude::*;

verus! {

/// Statements.
#[derive(Debug, PartialEq)]
pub enum Stmt {
    Block(Vec<Stmt>),
    ExprStmt(Expr),
    LocalDef { var: u32, init: Option<Expr>, is_final: bool, force_type: bool },
    Return(Option<Expr>),
    Throw(Expr),
    If { cond: Expr, then_stmt: Box<Stmt>, else_stmt: Option<Box<Stmt>> },
    While { cond: Expr, body: Box<Stmt> },
    DoWhile { body: Box<Stmt>, cond: Expr },
    For { init: Vec<Stmt>, cond: Option<Expr>, update: Vec<Expr>, body: Box<Stmt> },
    ForEach { var: u32, iterable: Expr, is_array: bool, body: Box<Stmt> },
    Switch { selector: Expr, cases: Vec<CaseGroup>, default: Option<Box<Stmt>>, on_string: bool },
    Try { body: Box<Stmt>, catches: Vec<Catch>, finally: Option<Box<Stmt>> },
    TryWithResources {
        resources: Vec<Stmt>,
        body: Box<Stmt>,
        catches: Vec<Catch>,
        finally: Option<Box<Stmt>>,
    },
    Assert { cond: Expr, msg: Option<Expr> },
    Synchronized { lock: Expr, body: Box<Stmt> },
    /// Value left by a conditional expression.
    TernaryValue { e: Expr },
    MonitorEnter(Expr),
    MonitorExit(Expr),
    /// Bytecode label.
    Label(u32),
    Goto(u32),
    ClassDecl { name: String, header: String, body: String },
    Labeled { label: String, body: Box<Stmt> },
    Break(Option<String>),
    Continue(Option<String>),
    Comment(String),
}

/// Model of [`Stmt`].
pub ghost enum StmtV {
    Block(Seq<StmtV>),
    ExprStmt(ExprV),
    LocalDef { var: u32, init: Option<ExprV>, is_final: bool, force_type: bool },
    Return(Option<ExprV>),
    Throw(ExprV),
    If { cond: ExprV, then_stmt: Box<StmtV>, else_stmt: Option<Box<StmtV>> },
    While { cond: ExprV, body: Box<StmtV> },
    DoWhile { body: Box<StmtV>, cond: ExprV },
    For { init: Seq<StmtV>, cond: Option<ExprV>, update: Seq<ExprV>, body: Box<StmtV> },
    ForEach { var: u32, iterable: ExprV, is_array: bool, body: Box<StmtV> },
    Switch {
        selector: ExprV,
        cases: Seq<CaseGroupV>,
        default: Option<Box<StmtV>>,
        on_string: bool,
    },
    Try { body: Box<StmtV>, catches: Seq<CatchV>, finally: Option<Box<StmtV>> },
    TryWithResources {
        resources: Seq<StmtV>,
        body: Box<StmtV>,
        catches: Seq<CatchV>,
        finally: Option<Box<StmtV>>,
    },
    Assert { cond: ExprV, msg: Option<ExprV> },
    Synchronized { lock: ExprV, body: Box<StmtV> },
    TernaryValue { e: ExprV },
    MonitorEnter(ExprV),
    MonitorExit(ExprV),
    Label(u32),
    Goto(u32),
    ClassDecl { name: Seq<char>, header: Seq<char>, body: Seq<char> },
    Labeled { label: Seq<char>, body: Box<StmtV> },
    Break(Option<Seq<char>>),
    Continue(Option<Seq<char>>),
    Comment(Seq<char>),
}

/// The labels of a `switch` arm and its body.
#[derive(Debug, PartialEq)]
pub struct CaseGroup {
    pub labels: Vec<i64>,
    pub string_labels: Vec<String>,
    pub enum_labels: Vec<String>,
    pub raw_labels: Vec<String>,
    pub guard: Option<Expr>,
    pub body: Vec<Stmt>,
}

/// Model of [`CaseGroup`].
pub ghost struct CaseGroupV {
    pub labels: Seq<i64>,
    pub string_labels: Seq<Seq<char>>,
    pub enum_labels: Seq<Seq<char>>,
    pub raw_labels: Seq<Seq<char>>,
    pub guard: Option<ExprV>,
    pub body: Seq<StmtV>,
}

/// A `catch` clause.
#[derive(Debug, PartialEq)]
pub struct Catch {
    pub exc: Vec<String>,
    pub var: u32,
    pub var_name: Option<String>,
    pub body: Box<Stmt>,
}

/// Model of [`Catch`].
pub ghost struct CatchV {
    pub exc: Seq<Seq<char>>,
    pub var: u32,
    pub var_name: Option<Seq<char>>,
    pub body: Box<StmtV>,
}

impl Stmt {
    pub open spec fn view(&self) -> StmtV
        decreases self,
    {
        match self {
            Stmt::Block(items) => StmtV::Block(stmts(items@)),
            Stmt::ExprStmt(e) => StmtV::ExprStmt(e@),
            Stmt::LocalDef { var, init, is_final, force_type } => StmtV::LocalDef {
                var: *var,
                init: opt_expr(*init),
                is_final: *is_final,
                force_type: *force_type,
            },
            Stmt::Return(e) => StmtV::Return(opt_expr(*e)),
            Stmt::Throw(e) => StmtV::Throw(e@),
            Stmt::If { cond, then_stmt, else_stmt } => StmtV::If {
                cond: cond@,
                then_stmt: Box::new(then_stmt.view()),
                else_stmt: opt_stmt(*else_stmt),
            },
            Stmt::While { cond, body } => StmtV::While { cond: cond@, body: Box::new(body.view()) },
            Stmt::DoWhile { body, cond } => StmtV::DoWhile {
                body: Box::new(body.view()),
                cond: cond@,
            },
            Stmt::For { init, cond, update, body } => StmtV::For {
                init: stmts(init@),
                cond: opt_expr(*cond),
                update: exprs(update@),
                body: Box::new(body.view()),
            },
            Stmt::ForEach { var, iterable, is_array, body } => StmtV::ForEach {
                var: *var,
                iterable: iterable@,
                is_array: *is_array,
                body: Box::new(body.view()),
            },
            Stmt::Switch { selector, cases, default, on_string } => StmtV::Switch {
                selector: selector@,
                cases: case_groups(cases@),
                default: opt_stmt(*default),
                on_string: *on_string,
            },
            Stmt::Try { body, catches, finally } => StmtV::Try {
                body: Box::new(body.view()),
                catches: catch_list(catches@),
                finally: opt_stmt(*finally),
            },
            Stmt::TryWithResources {
                resources,
                body,
                catches,
                finally,
            } => StmtV::TryWithResources {
                resources: stmts(resources@),
                body: Box::new(body.view()),
                catches: catch_list(catches@),
                finally: opt_stmt(*finally),
            },
            Stmt::Assert { cond, msg } => StmtV::Assert { cond: cond@, msg: opt_expr(*msg) },
            Stmt::Synchronized { lock, body } => StmtV::Synchronized {
                lock: lock@,
                body: Box::new(body.view()),
            },
            Stmt::TernaryValue { e } => StmtV::TernaryValue { e: e@ },
            Stmt::MonitorEnter(e) => StmtV::MonitorEnter(e@),
            Stmt::MonitorExit(e) => StmtV::MonitorExit(e@),
            Stmt::Label(n) => StmtV::Label(*n),
            Stmt::Goto(n) => StmtV::Goto(*n),
            Stmt::ClassDecl { name, header, body } => StmtV::ClassDecl {
                name: name@,
                header: header@,
                body: body@,
            },
            Stmt::Labeled { label, body } => StmtV::Labeled {
                label: label@,
                body: Box::new(body.view()),
            },
            Stmt::Break(label) => StmtV::Break(opt_str(*label)),
            Stmt::Continue(label) => StmtV::Continue(opt_str(*label)),
            Stmt::Comment(text) => StmtV::Comment(text@),
        }
    }
}

impl CaseGroup {
    pub open spec fn view(&self) -> CaseGroupV
        decreases self,
    {
        CaseGroupV {
            labels: self.labels@,
            string_labels: strs(self.string_labels@),
            enum_labels: strs(self.enum_labels@),
            raw_labels: strs(self.raw_labels@),
            guard: opt_expr(self.guard),
            body: stmts(self.body@),
        }
    }
}

impl Catch {
    pub open spec fn view(&self) -> CatchV
        decreases self,
    {
        CatchV {
            exc: strs(self.exc@),
            var: self.var,
            var_name: opt_str(self.var_name),
            body: Box::new(self.body.view()),
        }
    }
}

/// Copy of a `Stmt`.
pub fn clone_stmt(e: &Stmt) -> (r: Stmt)
    ensures
        r@ == e@,
    decreases e,
{
    match e {
        Stmt::Block(items) => Stmt::Block(clone_stmts(items)),
        Stmt::ExprStmt(e) => Stmt::ExprStmt(e.clone()),
        Stmt::LocalDef { var, init, is_final, force_type } => Stmt::LocalDef {
            var: *var,
            init: clone_opt_expr(init),
            is_final: *is_final,
            force_type: *force_type,
        },
        Stmt::Return(e) => Stmt::Return(clone_opt_expr(e)),
        Stmt::Throw(e) => Stmt::Throw(e.clone()),
        Stmt::If { cond, then_stmt, else_stmt } => Stmt::If {
            cond: cond.clone(),
            then_stmt: Box::new(clone_stmt(then_stmt)),
            else_stmt: clone_opt_stmt(else_stmt),
        },
        Stmt::While { cond, body } => Stmt::While {
            cond: cond.clone(),
            body: Box::new(clone_stmt(body)),
        },
        Stmt::DoWhile { body, cond } => Stmt::DoWhile {
            body: Box::new(clone_stmt(body)),
            cond: cond.clone(),
        },
        Stmt::For { init, cond, update, body } => Stmt::For {
            init: clone_stmts(init),
            cond: clone_opt_expr(cond),
            update: clone_exprs(update),
            body: Box::new(clone_stmt(body)),
        },
        Stmt::ForEach { var, iterable, is_array, body } => Stmt::ForEach {
            var: *var,
            iterable: iterable.clone(),
            is_array: *is_array,
            body: Box::new(clone_stmt(body)),
        },
        Stmt::Switch { selector, cases, default, on_string } => Stmt::Switch {
            selector: selector.clone(),
            cases: clone_cases(cases),
            default: clone_opt_stmt(default),
            on_string: *on_string,
        },
        Stmt::Try { body, catches, finally } => Stmt::Try {
            body: Box::new(clone_stmt(body)),
            catches: clone_catches(catches),
            finally: clone_opt_stmt(finally),
        },
        Stmt::TryWithResources { resources, body, catches, finally } => Stmt::TryWithResources {
            resources: clone_stmts(resources),
            body: Box::new(clone_stmt(body)),
            catches: clone_catches(catches),
            finally: clone_opt_stmt(finally),
        },
        Stmt::Assert { cond, msg } => Stmt::Assert { cond: cond.clone(), msg: clone_opt_expr(msg) },
        Stmt::Synchronized { lock, body } => Stmt::Synchronized {
            lock: lock.clone(),
            body: Box::new(clone_stmt(body)),
        },
        Stmt::TernaryValue { e } => Stmt::TernaryValue { e: e.clone() },
        Stmt::MonitorEnter(e) => Stmt::MonitorEnter(e.clone()),
        Stmt::MonitorExit(e) => Stmt::MonitorExit(e.clone()),
        Stmt::Label(n) => Stmt::Label(*n),
        Stmt::Goto(n) => Stmt::Goto(*n),
        Stmt::ClassDecl { name, header, body } => Stmt::ClassDecl {
            name: name.clone(),
            header: header.clone(),
            body: body.clone(),
        },
        Stmt::Labeled { label, body } => Stmt::Labeled {
            label: label.clone(),
            body: Box::new(clone_stmt(body)),
        },
        Stmt::Break(label) => Stmt::Break(clone_opt_string(label)),
        Stmt::Continue(label) => Stmt::Continue(clone_opt_string(label)),
        Stmt::Comment(text) => Stmt::Comment(text.clone()),
    }
}

impl Clone for Stmt {
    fn clone(&self) -> (r: Self)
        ensures
            r@ == self@,
    {
        clone_stmt(self)
    }
}

/// Copy of a `CaseGroup`.
pub fn clone_case(e: &CaseGroup) -> (r: CaseGroup)
    ensures
        r@ == e@,
    decreases e,
{
    CaseGroup {
        labels: clone_labels(&e.labels),
        string_labels: clone_strings(&e.string_labels),
        enum_labels: clone_strings(&e.enum_labels),
        raw_labels: clone_strings(&e.raw_labels),
        guard: clone_opt_expr(&e.guard),
        body: clone_stmts(&e.body),
    }
}

/// Copy of a `Catch`.
pub fn clone_catch(e: &Catch) -> (r: Catch)
    ensures
        r@ == e@,
    decreases e,
{
    Catch {
        exc: clone_strings(&e.exc),
        var: e.var,
        var_name: clone_opt_string(&e.var_name),
        body: Box::new(clone_stmt(&e.body)),
    }
}

/// Equality of two `Stmt` models, floating constants compared by value.
pub open spec fn same_stmt(a: StmtV, b: StmtV) -> bool
    decreases a,
{
    match (a, b) {
        (StmtV::Block(items1), StmtV::Block(items2)) => {
            &&& same_stmts(items1, items2)
        },
        (StmtV::ExprStmt(e1), StmtV::ExprStmt(e2)) => {
            &&& same_expr(e1, e2)
        },
        (
            StmtV::LocalDef {
                var: var1,
                init: init1,
                is_final: is_final1,
                force_type: force_type1,
            },
            StmtV::LocalDef {
                var: var2,
                init: init2,
                is_final: is_final2,
                force_type: force_type2,
            },
        ) => {
            &&& var1 == var2
            &&& same_opt_expr(init1, init2)
            &&& is_final1 == is_final2
            &&& force_type1 == force_type2
        },
        (StmtV::Return(e1), StmtV::Return(e2)) => {
            &&& same_opt_expr(e1, e2)
        },
        (StmtV::Throw(e1), StmtV::Throw(e2)) => {
            &&& same_expr(e1, e2)
        },
        (
            StmtV::If { cond: cond1, then_stmt: then_stmt1, else_stmt: else_stmt1 },
            StmtV::If { cond: cond2, then_stmt: then_stmt2, else_stmt: else_stmt2 },
        ) => {
            &&& same_expr(cond1, cond2)
            &&& same_stmt(*then_stmt1, *then_stmt2)
            &&& same_opt_stmt(else_stmt1, else_stmt2)
        },
        (StmtV::While { cond: cond1, body: body1 }, StmtV::While { cond: cond2, body: body2 }) => {
            &&& same_expr(cond1, cond2)
            &&& same_stmt(*body1, *body2)
        },
        (
            StmtV::DoWhile { body: body1, cond: cond1 },
            StmtV::DoWhile { body: body2, cond: cond2 },
        ) => {
            &&& same_stmt(*body1, *body2)
            &&& same_expr(cond1, cond2)
        },
        (
            StmtV::For { init: init1, cond: cond1, update: update1, body: body1 },
            StmtV::For { init: init2, cond: cond2, update: update2, body: body2 },
        ) => {
            &&& same_stmts(init1, init2)
            &&& same_opt_expr(cond1, cond2)
            &&& same_exprs(update1, update2)
            &&& same_stmt(*body1, *body2)
        },
        (
            StmtV::ForEach { var: var1, iterable: iterable1, is_array: is_array1, body: body1 },
            StmtV::ForEach { var: var2, iterable: iterable2, is_array: is_array2, body: body2 },
        ) => {
            &&& var1 == var2
            &&& same_expr(iterable1, iterable2)
            &&& is_array1 == is_array2
            &&& same_stmt(*body1, *body2)
        },
        (
            StmtV::Switch {
                selector: selector1,
                cases: cases1,
                default: default1,
                on_string: on_string1,
            },
            StmtV::Switch {
                selector: selector2,
                cases: cases2,
                default: default2,
                on_string: on_string2,
            },
        ) => {
            &&& same_expr(selector1, selector2)
            &&& same_cases(cases1, cases2)
            &&& same_opt_stmt(default1, default2)
            &&& on_string1 == on_string2
        },
        (
            StmtV::Try { body: body1, catches: catches1, finally: finally1 },
            StmtV::Try { body: body2, catches: catches2, finally: finally2 },
        ) => {
            &&& same_stmt(*body1, *body2)
            &&& same_catches(catches1, catches2)
            &&& same_opt_stmt(finally1, finally2)
        },
        (
            StmtV::TryWithResources {
                resources: resources1,
                body: body1,
                catches: catches1,
                finally: finally1,
            },
            StmtV::TryWithResources {
                resources: resources2,
                body: body2,
                catches: catches2,
                finally: finally2,
            },
        ) => {
            &&& same_stmts(resources1, resources2)
            &&& same_stmt(*body1, *body2)
            &&& same_catches(catches1, catches2)
            &&& same_opt_stmt(finally1, finally2)
        },
        (StmtV::Assert { cond: cond1, msg: msg1 }, StmtV::Assert { cond: cond2, msg: msg2 }) => {
            &&& same_expr(cond1, cond2)
            &&& same_opt_expr(msg1, msg2)
        },
        (
            StmtV::Synchronized { lock: lock1, body: body1 },
            StmtV::Synchronized { lock: lock2, body: body2 },
        ) => {
            &&& same_expr(lock1, lock2)
            &&& same_stmt(*body1, *body2)
        },
        (StmtV::TernaryValue { e: e1 }, StmtV::TernaryValue { e: e2 }) => {
            &&& same_expr(e1, e2)
        },
        (StmtV::MonitorEnter(e1), StmtV::MonitorEnter(e2)) => {
            &&& same_expr(e1, e2)
        },
        (StmtV::MonitorExit(e1), StmtV::MonitorExit(e2)) => {
            &&& same_expr(e1, e2)
        },
        (StmtV::Label(n1), StmtV::Label(n2)) => {
            &&& n1 == n2
        },
        (StmtV::Goto(n1), StmtV::Goto(n2)) => {
            &&& n1 == n2
        },
        (
            StmtV::ClassDecl { name: name1, header: header1, body: body1 },
            StmtV::ClassDecl { name: name2, header: header2, body: body2 },
        ) => {
            &&& name1 == name2
            &&& header1 == header2
            &&& body1 == body2
        },
        (
            StmtV::Labeled { label: label1, body: body1 },
            StmtV::Labeled { label: label2, body: body2 },
        ) => {
            &&& label1 == label2
            &&& same_stmt(*body1, *body2)
        },
        (StmtV::Break(label1), StmtV::Break(label2)) => {
            &&& label1 == label2
        },
        (StmtV::Continue(label1), StmtV::Continue(label2)) => {
            &&& label1 == label2
        },
        (StmtV::Comment(text1), StmtV::Comment(text2)) => {
            &&& text1 == text2
        },
        _ => false,
    }
}

/// Equality of two `CaseGroup` models, floating constants compared by value.
pub open spec fn same_case(a: CaseGroupV, b: CaseGroupV) -> bool
    decreases a,
{
    &&& a.labels == b.labels
    &&& a.string_labels == b.string_labels
    &&& a.enum_labels == b.enum_labels
    &&& a.raw_labels == b.raw_labels
    &&& same_opt_expr(a.guard, b.guard)
    &&& same_stmts(a.body, b.body)
}

/// Equality of two `Catch` models, floating constants compared by value.
pub open spec fn same_catch(a: CatchV, b: CatchV) -> bool
    decreases a,
{
    &&& a.exc == b.exc
    &&& a.var == b.var
    &&& a.var_name == b.var_name
    &&& same_stmt(*a.body, *b.body)
}

/// Equality of two `Stmt` values, floating constants compared by value.
pub fn stmt_eq(a: &Stmt, b: &Stmt) -> (r: bool)
    ensures
        r == same_stmt(a@, b@),
    decreases a,
{
    match (a, b) {
        (Stmt::Block(items1), Stmt::Block(items2)) => stmts_eq(items1, items2),
        (Stmt::ExprStmt(e1), Stmt::ExprStmt(e2)) => expr_eq(e1, e2),
        (
            Stmt::LocalDef { var: var1, init: init1, is_final: is_final1, force_type: force_type1 },
            Stmt::LocalDef { var: var2, init: init2, is_final: is_final2, force_type: force_type2 },
        ) => *var1
            == *var2
            && opt_expr_eq(init1, init2) && *is_final1 == *is_final2
            && *force_type1 == *force_type2,
        (Stmt::Return(e1), Stmt::Return(e2)) => opt_expr_eq(e1, e2),
        (Stmt::Throw(e1), Stmt::Throw(e2)) => expr_eq(e1, e2),
        (
            Stmt::If { cond: cond1, then_stmt: then_stmt1, else_stmt: else_stmt1 },
            Stmt::If { cond: cond2, then_stmt: then_stmt2, else_stmt: else_stmt2 },
        ) => expr_eq(
            cond1,
            cond2,
        )
            && stmt_eq(then_stmt1, then_stmt2) && opt_stmt_eq(else_stmt1, else_stmt2),
        (
            Stmt::While { cond: cond1, body: body1 },
            Stmt::While { cond: cond2, body: body2 },
        ) => expr_eq(
            cond1,
            cond2,
        )
            && stmt_eq(body1, body2),
        (
            Stmt::DoWhile { body: body1, cond: cond1 },
            Stmt::DoWhile { body: body2, cond: cond2 },
        ) => stmt_eq(
            body1,
            body2,
        )
            && expr_eq(cond1, cond2),
        (
            Stmt::For { init: init1, cond: cond1, update: update1, body: body1 },
            Stmt::For { init: init2, cond: cond2, update: update2, body: body2 },
        ) => stmts_eq(
            init1,
            init2,
        )
            && opt_expr_eq(cond1, cond2) && exprs_eq(update1, update2) && stmt_eq(body1, body2),
        (
            Stmt::ForEach { var: var1, iterable: iterable1, is_array: is_array1, body: body1 },
            Stmt::ForEach { var: var2, iterable: iterable2, is_array: is_array2, body: body2 },
        ) => *var1
            == *var2
            && expr_eq(iterable1, iterable2) && *is_array1 == *is_array2 && stmt_eq(body1, body2),
        (
            Stmt::Switch {
                selector: selector1,
                cases: cases1,
                default: default1,
                on_string: on_string1,
            },
            Stmt::Switch {
                selector: selector2,
                cases: cases2,
                default: default2,
                on_string: on_string2,
            },
        ) => expr_eq(
            selector1,
            selector2,
        )
            && cases_eq(cases1, cases2) && opt_stmt_eq(default1, default2)
            && *on_string1 == *on_string2,
        (
            Stmt::Try { body: body1, catches: catches1, finally: finally1 },
            Stmt::Try { body: body2, catches: catches2, finally: finally2 },
        ) => stmt_eq(
            body1,
            body2,
        )
            && catches_eq(catches1, catches2) && opt_stmt_eq(finally1, finally2),
        (
            Stmt::TryWithResources {
                resources: resources1,
                body: body1,
                catches: catches1,
                finally: finally1,
            },
            Stmt::TryWithResources {
                resources: resources2,
                body: body2,
                catches: catches2,
                finally: finally2,
            },
        ) => stmts_eq(
            resources1,
            resources2,
        )
            && stmt_eq(body1, body2) && catches_eq(catches1, catches2)
            && opt_stmt_eq(finally1, finally2),
        (
            Stmt::Assert { cond: cond1, msg: msg1 },
            Stmt::Assert { cond: cond2, msg: msg2 },
        ) => expr_eq(
            cond1,
            cond2,
        )
            && opt_expr_eq(msg1, msg2),
        (
            Stmt::Synchronized { lock: lock1, body: body1 },
            Stmt::Synchronized { lock: lock2, body: body2 },
        ) => expr_eq(
            lock1,
            lock2,
        )
            && stmt_eq(body1, body2),
        (Stmt::TernaryValue { e: e1 }, Stmt::TernaryValue { e: e2 }) => expr_eq(e1, e2),
        (Stmt::MonitorEnter(e1), Stmt::MonitorEnter(e2)) => expr_eq(e1, e2),
        (Stmt::MonitorExit(e1), Stmt::MonitorExit(e2)) => expr_eq(e1, e2),
        (Stmt::Label(n1), Stmt::Label(n2)) => *n1 == *n2,
        (Stmt::Goto(n1), Stmt::Goto(n2)) => *n1 == *n2,
        (
            Stmt::ClassDecl { name: name1, header: header1, body: body1 },
            Stmt::ClassDecl { name: name2, header: header2, body: body2 },
        ) => *name1
            == *name2
            && *header1 == *header2 && *body1 == *body2,
        (
            Stmt::Labeled { label: label1, body: body1 },
            Stmt::Labeled { label: label2, body: body2 },
        ) => *label1
            == *label2
            && stmt_eq(body1, body2),
        (Stmt::Break(label1), Stmt::Break(label2)) => opt_string_eq(label1, label2),
        (Stmt::Continue(label1), Stmt::Continue(label2)) => opt_string_eq(label1, label2),
        (Stmt::Comment(text1), Stmt::Comment(text2)) => *text1 == *text2,
        _ => false,
    }
}

/// Equality of two `CaseGroup` values, floating constants compared by value.
pub fn case_eq(a: &CaseGroup, b: &CaseGroup) -> (r: bool)
    ensures
        r == same_case(a@, b@),
    decreases a,
{
    labels_eq(&a.labels, &b.labels) && strings_eq(&a.string_labels, &b.string_labels)
        && strings_eq(&a.enum_labels, &b.enum_labels) && strings_eq(&a.raw_labels, &b.raw_labels)
        && opt_expr_eq(&a.guard, &b.guard) && stmts_eq(&a.body, &b.body)
}

/// Equality of two `Catch` values, floating constants compared by value.
pub fn catch_eq(a: &Catch, b: &Catch) -> (r: bool)
    ensures
        r == same_catch(a@, b@),
    decreases a,
{
    strings_eq(&a.exc, &b.exc) && a.var == b.var && opt_string_eq(&a.var_name, &b.var_name)
        && stmt_eq(&a.body, &b.body)
}

/// Model of a list of statements.
pub open spec fn stmts(v: Seq<Stmt>) -> Seq<StmtV>
    decreases v,
{
    Seq::new(v.len(), |i: int| if 0 <= i < v.len() { v[i].view() } else { arbitrary() })
}

/// Copy of a list of statements.
pub fn clone_stmts(v: &Vec<Stmt>) -> (r: Vec<Stmt>)
    ensures
        stmts(r@) == stmts(v@),
    decreases v,
{
    let mut r: Vec<Stmt> = Vec::new();
    let mut i: usize = 0;
    while i < v.len()
        invariant
            i <= v.len(),
            r.len() == i,
            forall|j: int| 0 <= j < i ==> (#[trigger] r@[j])@ == v@[j]@,
        decreases v.len() - i,
    {
        r.push(clone_stmt(&v[i]));
        i += 1;
    }
    assert(stmts(r@) =~= stmts(v@));
    r
}

/// Pairwise equality of lists of statements.
pub open spec fn same_stmts(a: Seq<StmtV>, b: Seq<StmtV>) -> bool
    decreases a,
{
    a.len() == b.len() && forall|i: int| 0 <= i < a.len() ==> same_stmt(#[trigger] a[i], b[i])
}

/// Pairwise equality of lists of statements.
pub fn stmts_eq(a: &Vec<Stmt>, b: &Vec<Stmt>) -> (r: bool)
    ensures
        r == same_stmts(stmts(a@), stmts(b@)),
    decreases a,
{
    if a.len() != b.len() {
        return false;
    }
    let mut i: usize = 0;
    while i < a.len()
        invariant
            i <= a.len(),
            a.len() == b.len(),
            forall|j: int| 0 <= j < i ==> same_stmt(#[trigger] stmts(a@)[j], stmts(b@)[j]),
        decreases a.len() - i,
    {
        if !stmt_eq(&a[i], &b[i]) {
            assert(!(same_stmt(stmts(a@)[i as int], stmts(b@)[i as int])));
            return false;
        }
        i += 1;
    }
    true
}

/// Model of a list of switch arms.
pub open spec fn case_groups(v: Seq<CaseGroup>) -> Seq<CaseGroupV>
    decreases v,
{
    Seq::new(v.len(), |i: int| if 0 <= i < v.len() { v[i].view() } else { arbitrary() })
}

/// Copy of a list of switch arms.
pub fn clone_cases(v: &Vec<CaseGroup>) -> (r: Vec<CaseGroup>)
    ensures
        case_groups(r@) == case_groups(v@),
    decreases v,
{
    let mut r: Vec<CaseGroup> = Vec::new();
    let mut i: usize = 0;
    while i < v.len()
        invariant
            i <= v.len(),
            r.len() == i,
            forall|j: int| 0 <= j < i ==> (#[trigger] r@[j])@ == v@[j]@,
        decreases v.len() - i,
    {
        r.push(clone_case(&v[i]));
        i += 1;
    }
    assert(case_groups(r@) =~= case_groups(v@));
    r
}

/// Pairwise equality of lists of switch arms.
pub open spec fn same_cases(a: Seq<CaseGroupV>, b: Seq<CaseGroupV>) -> bool
    decreases a,
{
    a.len() == b.len() && forall|i: int| 0 <= i < a.len() ==> same_case(#[trigger] a[i], b[i])
}

/// Pairwise equality of lists of switch arms.
pub fn cases_eq(a: &Vec<CaseGroup>, b: &Vec<CaseGroup>) -> (r: bool)
    ensures
        r == same_cases(case_groups(a@), case_groups(b@)),
    decreases a,
{
    if a.len() != b.len() {
        return false;
    }
    let mut i: usize = 0;
    while i < a.len()
        invariant
            i <= a.len(),
            a.len() == b.len(),
            forall|j: int|
                0 <= j < i ==> same_case(#[trigger] case_groups(a@)[j], case_groups(b@)[j]),
        decreases a.len() - i,
    {
        if !case_eq(&a[i], &b[i]) {
            assert(!(same_case(case_groups(a@)[i as int], case_groups(b@)[i as int])));
            return false;
        }
        i += 1;
    }
    true
}

/// Model of a list of catch clauses.
pub open spec fn catch_list(v: Seq<Catch>) -> Seq<CatchV>
    decreases v,
{
    Seq::new(v.len(), |i: int| if 0 <= i < v.len() { v[i].view() } else { arbitrary() })
}

/// Copy of a list of catch clauses.
pub fn clone_catches(v: &Vec<Catch>) -> (r: Vec<Catch>)
    ensures
        catch_list(r@) == catch_list(v@),
    decreases v,
{
    let mut r: Vec<Catch> = Vec::new();
    let mut i: usize = 0;
    while i < v.len()
        invariant
            i <= v.len(),
            r.len() == i,
            forall|j: int| 0 <= j < i ==> (#[trigger] r@[j])@ == v@[j]@,
        decreases v.len() - i,
    {
        r.push(clone_catch(&v[i]));
        i += 1;
    }
    assert(catch_list(r@) =~= catch_list(v@));
    r
}

/// Pairwise equality of lists of catch clauses.
pub open spec fn same_catches(a: Seq<CatchV>, b: Seq<CatchV>) -> bool
    decreases a,
{
    a.len() == b.len() && forall|i: int| 0 <= i < a.len() ==> same_catch(#[trigger] a[i], b[i])
}

/// Pairwise equality of lists of catch clauses.
pub fn catches_eq(a: &Vec<Catch>, b: &Vec<Catch>) -> (r: bool)
    ensures
        r == same_catches(catch_list(a@), catch_list(b@)),
    decreases a,
{
    if a.len() != b.len() {
        return false;
    }
    let mut i: usize = 0;
    while i < a.len()
        invariant
            i <= a.len(),
            a.len() == b.len(),
            forall|j: int|
                0 <= j < i ==> same_catch(#[trigger] catch_list(a@)[j], catch_list(b@)[j]),
        decreases a.len() - i,
    {
        if !catch_eq(&a[i], &b[i]) {
            assert(!(same_catch(catch_list(a@)[i as int], catch_list(b@)[i as int])));
            return false;
        }
        i += 1;
    }
    true
}

/// Model of an optional boxed statement.
pub open spec fn opt_stmt(o: Option<Box<Stmt>>) -> Option<Box<StmtV>>
    decreases o,
{
    match o {
        Some(x) => Some(Box::new(x.view())),
        None => None,
    }
}

/// Copy of an optional boxed statement.
pub fn clone_opt_stmt(o: &Option<Box<Stmt>>) -> (r: Option<Box<Stmt>>)
    ensures
        opt_stmt(r) == opt_stmt(*o),
    decreases o,
{
    match o {
        Some(x) => Some(Box::new(clone_stmt(x))),
        None => None,
    }
}

/// Equality of optional boxed statements.
pub open spec fn same_opt_stmt(a: Option<Box<StmtV>>, b: Option<Box<StmtV>>) -> bool
    decreases a,
{
    match (a, b) {
        (Some(x), Some(y)) => same_stmt(*x, *y),
        (None, None) => true,
        _ => false,
    }
}

/// Equality of optional boxed statements.
pub fn opt_stmt_eq(a: &Option<Box<Stmt>>, b: &Option<Box<Stmt>>) -> (r: bool)
    ensures
        r == same_opt_stmt(opt_stmt(*a), opt_stmt(*b)),
    decreases a,
{
    match (a, b) {
        (Some(x), Some(y)) => stmt_eq(x, y),
        (None, None) => true,
        _ => false,
    }
}

/// Copy of a list of case labels.
pub fn clone_labels(v: &Vec<i64>) -> (r: Vec<i64>)
    ensures
        r@ == v@,
{
    let mut r: Vec<i64> = Vec::new();
    let mut i: usize = 0;
    while i < v.len()
        invariant
            i <= v.len(),
            r@ == v@.subrange(0, i as int),
        decreases v.len() - i,
    {
        r.push(v[i]);
        i += 1;
    }
    r
}

/// Equality of lists of case labels.
pub fn labels_eq(a: &Vec<i64>, b: &Vec<i64>) -> (r: bool)
    ensures
        r == (a@ == b@),
{
    if a.len() != b.len() {
        return false;
    }
    let mut i: usize = 0;
    while i < a.len()
        invariant
            i <= a.len(),
            a.len() == b.len(),
            forall|j: int| 0 <= j < i ==> #[trigger] a@[j] == b@[j],
        decreases a.len() - i,
    {
        if a[i] != b[i] {
            return false;
        }
        i += 1;
    }
    assert(a@ =~= b@);
    true
}

// ---------------------------------------------------------------------
// Shapes.

/// A block without statements.
pub open spec fn is_empty_block(s: StmtV) -> bool {
    s matches StmtV::Block(v) && v.len() == 0
}

impl Stmt {
    /// Whether this is a block without statements.
    pub fn is_empty_block(&self) -> (r: bool)
        ensures
            r == is_empty_block(self@),
    {
        match self {
            Stmt::Block(v) => {
                assert(stmts(v@).len() == v@.len());
                v.len() == 0
            },
            _ => false,
        }
    }
}

/// The empty block.
pub open spec fn empty_block() -> StmtV {
    StmtV::Block(seq![])
}

/// The empty block.
pub fn no_stmt() -> (r: Stmt)
    ensures
        r@ == empty_block(),
{
    let v: Vec<Stmt> = Vec::new();
    assert(stmts(v@) =~= seq![]);
    Stmt::Block(v)
}

/// Takes the statement out, leaving an empty block behind.
pub fn take_stmt(s: &mut Stmt) -> (r: Stmt)
    ensures
        r == *old(s),
        final(s)@ == empty_block(),
{
    let mut x = no_stmt();
    core::mem::swap(s, &mut x);
    x
}

} // verus!
