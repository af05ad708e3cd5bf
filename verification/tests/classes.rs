use jcdc::classes::{
    Attribute, Bootstrap, ClassPool, Constant, Member, PoolClass, ACC_ENUM, ACC_INTERFACE,
};
use jcdc::expr::{ConcatPart, ConstVal, Expr};
use jcdc::generics::{contains_typevar, g_has_wildcard, subst_typevars};
use jcdc::indy::invoke_dynamic;
use jcdc::invoke::{field_sig_type, field_type, is_poly_expr, owner_expr};
use jcdc::jvmctx::JvmCtx;
use jcdc::sim::{Sim, Term};
use jcdc::types::{ClassSig, ClassSigPart, GType, JType, TParam, TypeRef, WildcardBound};

/// Builds a constant pool.
struct Pool {
    constants: Vec<Constant>,
}

impl Pool {
    fn new() -> Pool {
        Pool { constants: vec![Constant::Unused] }
    }

    fn put(&mut self, c: Constant) -> u16 {
        self.constants.push(c);
        (self.constants.len() - 1) as u16
    }

    fn text(&mut self, s: &str) -> u16 {
        self.put(Constant::Utf8(s.to_string()))
    }

    fn class(&mut self, s: &str) -> u16 {
        let i = self.text(s);
        self.put(Constant::Class(i))
    }

    fn pair(&mut self, name: &str, desc: &str) -> u16 {
        let a = self.text(name);
        let b = self.text(desc);
        self.put(Constant::NameAndType(a, b))
    }

    fn signature(&mut self, s: &str) -> Attribute {
        let name_index = self.text("Signature");
        let i = self.text(s);
        Attribute { name_index, info: vec![(i >> 8) as u8, (i & 255) as u8] }
    }

    fn member(&mut self, name: &str, desc: &str, signature: Option<&str>) -> Member {
        let name_index = self.text(name);
        let descriptor_index = self.text(desc);
        let attributes = match signature {
            Some(s) => vec![self.signature(s)],
            None => vec![],
        };
        Member { access_flags: 1, name_index, descriptor_index, attributes, local_ranges: vec![] }
    }
}

fn class(name: &str, p: Pool) -> PoolClass {
    PoolClass {
        internal_name: name.to_string(),
        major_version: 61,
        access_flags: 0,
        super_class: 0,
        constants: p.constants,
        interfaces: vec![],
        fields: vec![],
        methods: vec![],
        attributes: vec![],
        bootstrap_methods: vec![],
    }
}

fn object(name: &str) -> JType {
    JType::Object(name.to_string())
}

fn generic(package: &str, name: &str, args: Vec<GType>) -> GType {
    GType::Class(ClassSig {
        package: package.to_string(),
        parts: vec![ClassSigPart { name: name.to_string(), args }],
    })
}

fn variable(name: &str) -> GType {
    GType::TypeVar(name.to_string())
}

fn number(i: i32) -> Expr {
    Expr::Const(ConstVal::Int(i))
}

fn function_class() -> PoolClass {
    let mut p = Pool::new();
    let sig = p.signature("<T:Ljava/lang/Object;R:Ljava/lang/Object;>Ljava/lang/Object;");
    let apply = p.member("apply", "(Ljava/lang/Object;)Ljava/lang/Object;", Some("(TT;)TR;"));
    let base = p.class("java/lang/Object");
    let face = p.class("java/io/Serializable");
    let mut c = class("f/Function", p);
    c.attributes = vec![sig];
    c.methods = vec![apply];
    c.super_class = base;
    c.interfaces = vec![face];
    c.access_flags = ACC_INTERFACE;
    c
}

#[test]
fn lookups_answer_from_the_pool() {
    let own = class("a/Own", Pool::new());
    let pool = ClassPool { classes: vec![function_class()], resolved: vec![] };
    let ctx = JvmCtx::new(&own, &pool);
    assert_eq!(ctx.class_name(), "a/Own");
    assert_eq!(ctx.source_level(), 61);
    assert!(ctx.is_interface("f/Function"));
    assert!(!ctx.is_interface("a/Own"));
    assert!(!ctx.is_sealed("f/Function"));
    assert_eq!(ctx.super_name("f/Function"), Some("java/lang/Object".to_string()));
    assert_eq!(ctx.super_name("nowhere"), None);
    assert!(ctx.has_class("a/Own"));
    assert!(ctx.has_class("f/Function"));
    assert!(!ctx.has_class("nowhere"));
    assert_eq!(
        ctx.class_bases("f/Function"),
        Some((vec!["java/io/Serializable".to_string()], Some("java/lang/Object".to_string())))
    );
    assert_eq!(ctx.class_bases("nowhere"), None);
    assert_eq!(ctx.method_flags("f/Function", "apply", "(Ljava/lang/Object;)Ljava/lang/Object;"), Some(1));
    assert_eq!(ctx.method_flags("f/Function", "apply", "()V"), None);
    assert_eq!(ctx.field_flags("f/Function", "apply"), None);
    assert!(ctx.declares_method_named("f/Function", "apply"));
    assert!(!ctx.declares_method_named("f/Function", "andThen"));
}

#[test]
fn class_signatures_give_type_parameters() {
    let own = class("a/Own", Pool::new());
    let pool = ClassPool { classes: vec![function_class()], resolved: vec![] };
    let ctx = JvmCtx::new(&own, &pool);
    let names: Vec<String> =
        ctx.class_type_params("f/Function").into_iter().map(|p| p.name).collect();
    assert_eq!(names, vec!["T".to_string(), "R".to_string()]);
    assert!(ctx.class_type_params("a/Own").is_empty());
}

#[test]
fn functional_methods_return_instantiated_types() {
    let own = class("a/Own", Pool::new());
    let pool = ClassPool { classes: vec![function_class()], resolved: vec![] };
    let ctx = JvmCtx::new(&own, &pool);
    let g = generic("f", "Function", vec![generic("java/lang", "String", vec![]), variable("E")]);
    assert_eq!(ctx.sam_ret_cast(&g, "apply"), Some(TypeRef::G(variable("E"))));
    // Nothing generic is left in the return type.
    let g = generic("f", "Function", vec![variable("E"), generic("java/lang", "String", vec![])]);
    assert_eq!(ctx.sam_ret_cast(&g, "apply"), None);
    // A wildcard cannot be cast to.
    let open = GType::Wildcard(WildcardBound::Extends(Box::new(variable("E"))));
    let g = generic("f", "Function", vec![variable("E"), open]);
    assert_eq!(ctx.sam_ret_cast(&g, "apply"), None);
    assert_eq!(ctx.sam_ret_cast(&variable("E"), "apply"), None);
}

#[test]
fn local_classes_are_found_by_number() {
    let own = class("a/Own", Pool::new());
    let pool = ClassPool {
        classes: vec![class("a/Own$2Inner", Pool::new()), class("a/Own$3Inner", Pool::new())],
        resolved: vec![],
    };
    let ctx = JvmCtx::new(&own, &pool);
    assert_eq!(ctx.local_class_internal("Inner", None), Some("a/Own$2Inner".to_string()));
    assert_eq!(ctx.local_class_internal("Other", None), None);
    assert_eq!(
        ctx.local_class_internal("Other", Some("x/Y".to_string())),
        Some("x/Y".to_string())
    );
}

#[test]
fn constructors_are_told_apart_by_their_arguments() {
    let mut p = Pool::new();
    let a = p.member("<init>", "(Ljava/lang/String;)V", None);
    let b = p.member("<init>", "(Z)V", None);
    let c = p.member("<init>", "(II)V", None);
    let mut cls = class("a/Stream", p);
    cls.methods = vec![a, b, c];
    let own = class("a/Own", Pool::new());
    let pool = ClassPool { classes: vec![cls], resolved: vec![] };
    let ctx = JvmCtx::new(&own, &pool);
    assert_eq!(ctx.ctor_param_types("a/Stream", 0, 1, &vec![number(1)]), Some(vec![JType::Boolean]));
    let text = Expr::Const(ConstVal::Str("x".to_string()));
    assert_eq!(
        ctx.ctor_param_types("a/Stream", 0, 1, &vec![text]),
        Some(vec![object("java/lang/String")])
    );
    assert_eq!(
        ctx.ctor_param_types("a/Stream", 0, 2, &vec![number(1), number(2)]),
        Some(vec![JType::Int, JType::Int])
    );
    assert_eq!(ctx.ctor_param_types("a/Stream", 0, 3, &vec![]), None);
    assert_eq!(ctx.ctor_param_types("nowhere", 0, 1, &vec![number(1)]), None);
}

#[test]
fn hidden_constructor_parameters_are_skipped() {
    // An enum's constructor takes its name and number first.
    let mut p = Pool::new();
    let a = p.member("<init>", "(Ljava/lang/String;IZ)V", None);
    let mut color = class("a/Color", p);
    color.methods = vec![a];
    color.access_flags = ACC_ENUM;
    // An inner class takes the enclosing instance first.
    let mut p = Pool::new();
    let b = p.member("<init>", "(La/Outer;J)V", None);
    let mut inner = class("a/Outer$Inner", p);
    inner.methods = vec![b];
    let own = class("a/Own", Pool::new());
    let pool = ClassPool { classes: vec![color, inner], resolved: vec![] };
    let ctx = JvmCtx::new(&own, &pool);
    assert_eq!(ctx.ctor_param_types("a/Color", 0, 1, &vec![number(0)]), Some(vec![JType::Boolean]));
    assert_eq!(ctx.ctor_param_types("a/Outer$Inner", 0, 1, &vec![number(0)]), Some(vec![JType::Long]));
    assert_eq!(ctx.ctor_param_types("a/Outer$Inner", 1, 1, &vec![number(0)]), Some(vec![JType::Long]));
}

#[test]
fn constructors_that_hand_on_the_enclosing_instance() {
    let mut p = Pool::new();
    let a = p.member("<init>", "(La/Outer;)V", None);
    let mut inner = class("a/Outer$Inner", p);
    inner.methods = vec![a];
    let own = class("a/Own", Pool::new());
    let pool = ClassPool { classes: vec![inner], resolved: vec![] };
    let ctx = JvmCtx::new(&own, &pool);
    assert!(ctx.outer_param_via_super("a/Outer$Inner", &vec!["(La/Outer;)V".to_string()]));
    assert!(!ctx.outer_param_via_super("a/Outer$Inner", &vec!["()V".to_string()]));
    assert!(!ctx.outer_param_via_super("nowhere", &vec!["(La/Outer;)V".to_string()]));
}

#[test]
fn fields_have_the_types_of_their_signatures() {
    let mut p = Pool::new();
    let a = p.member("list", "Ljava/util/List;", Some("Ljava/util/List<TE;>;"));
    let b = p.member("count", "[J", None);
    let mut own = class("a/Own", p);
    own.fields = vec![a, b];
    let pool = ClassPool { classes: vec![], resolved: vec![] };
    let list = TypeRef::G(generic("java/util", "List", vec![variable("E")]));
    assert_eq!(field_type(&own, &pool, "a/Own", "list", "Ljava/util/List;"), list);
    assert_eq!(
        field_type(&own, &pool, "a/Own", "count", "[J"),
        TypeRef::J(JType::Array(Box::new(JType::Long)))
    );
    assert_eq!(field_type(&own, &pool, "b/Far", "x", "D"), TypeRef::J(JType::Double));
    assert_eq!(field_type(&own, &pool, "b/Far", "x", "??"), TypeRef::J(JType::Int));
    assert_eq!(field_sig_type(&own, "count", "[J"), None);
    assert_eq!(field_sig_type(&own, "list", "Ljava/util/List;"), Some(list));
}

#[test]
fn calls_on_this_need_no_owner() {
    let own = class("a/Own", Pool::new());
    assert_eq!(owner_expr(&own, Expr::This, "a/Own"), None);
    assert!(owner_expr(&own, number(1), "a/Own").is_some());
    let pool = ClassPool { classes: vec![], resolved: vec![] };
    assert!(!is_poly_expr(&number(1), &pool));
}

#[test]
fn type_variables_are_replaced_by_arguments() {
    let params = vec![TParam { name: "T".to_string(), class_bound: None, interface_bounds: vec![] }];
    let g = generic("java/util", "List", vec![variable("T")]);
    let s = generic("java/lang", "String", vec![]);
    let text = generic("java/lang", "String", vec![]);
    assert_eq!(subst_typevars(&g, &params, &vec![s]), generic("java/util", "List", vec![text]));
    assert!(contains_typevar(&g));
    assert!(!g_has_wildcard(&g));
    assert!(g_has_wildcard(&generic("java/util", "List", vec![GType::Wildcard(WildcardBound::Any)])));
    // Without variables nothing changes.
    let closed = generic("java/lang", "String", vec![]);
    assert_eq!(subst_typevars(&closed, &params, &vec![]), closed);
}

fn sim(stack: Vec<Expr>) -> Sim {
    Sim { stack, stmts: vec![], term: Term::Fallthrough, marks: vec![], declared: vec![] }
}

fn with_site(owner: &str, name: &str, desc: &str, site: &str, site_desc: &str, recipe: Option<&str>) -> (PoolClass, u16) {
    let mut p = Pool::new();
    let cls = p.class(owner);
    let nt = p.pair(name, desc);
    let m = p.put(Constant::Methodref(cls, nt));
    let handle = p.put(Constant::MethodHandle(6, m));
    let arguments = match recipe {
        Some(r) => {
            let t = p.text(r);
            vec![p.put(Constant::Str(t))]
        }
        None => vec![],
    };
    let pair = p.pair(site, site_desc);
    let idx = p.put(Constant::InvokeDynamic(0, pair));
    let mut c = class("a/Own", p);
    c.bootstrap_methods = vec![Bootstrap { method_ref: handle, arguments }];
    (c, idx)
}

#[test]
fn concatenations_are_read_from_their_recipe() {
    let (c, idx) = with_site(
        "java/lang/invoke/StringConcatFactory",
        "makeConcatWithConstants",
        "()V",
        "makeConcatWithConstants",
        "(I)Ljava/lang/String;",
        Some("n=\u{1}"),
    );
    let mut st = sim(vec![number(4)]);
    assert!(invoke_dynamic(&mut st, &c, idx).is_ok());
    assert_eq!(
        st.stack,
        vec![Expr::StringConcat(vec![
            ConcatPart::Const("n=".to_string()),
            ConcatPart::Str(number(4)),
        ])]
    );
}

#[test]
fn unknown_bootstrap_methods_stay_opaque() {
    let (c, idx) = with_site("x/Boot", "make", "()V", "run", "(I)I", None);
    let mut st = sim(vec![number(4)]);
    assert!(invoke_dynamic(&mut st, &c, idx).is_ok());
    match &st.stack[0] {
        Expr::Invokedynamic { name, args, bsm_text, .. } => {
            assert_eq!(name, "run");
            assert_eq!(*args, vec![number(4)]);
            assert_eq!(
                bsm_text,
                &format!("{:?}", Some(("x/Boot", "make", "()V")))
            );
        }
        other => panic!("{:?}", other),
    }
}

#[test]
fn broken_call_sites_are_errors() {
    let (mut c, idx) = with_site("x/Boot", "make", "()V", "run", "(I)I", None);
    let mut st = sim(vec![]);
    assert_eq!(invoke_dynamic(&mut st, &c, 0).err().map(|e| e.0), Some("indy cp".to_string()));
    assert_eq!(
        invoke_dynamic(&mut st, &c, idx).err().map(|e| e.0),
        Some("stack underflow".to_string())
    );
    c.bootstrap_methods = vec![];
    let mut st = sim(vec![number(1)]);
    assert_eq!(
        invoke_dynamic(&mut st, &c, idx).err().map(|e| e.0),
        Some("bsm index out of range".to_string())
    );
    let (c, idx) = with_site("x/Boot", "make", "()V", "run", "nonsense", None);
    let mut st = sim(vec![number(1)]);
    assert_eq!(invoke_dynamic(&mut st, &c, idx).err().map(|e| e.0), Some("indy desc".to_string()));
}
