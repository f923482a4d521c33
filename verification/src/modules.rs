use vstd::prelude::*;

use crate::env::{methods_view, vars_view, Env, EnvRef};
use crate::expr::{exprs_view, lemma_exprs_view, owned, Arity, Builtin, Expr, ExprView, Method, MethodView, NativeFn, NativeFnView};

verus! {

/// A variable bound to a function of the interpreter.
pub open spec fn native_entry(name: Seq<char>, arity: Arity, f: Builtin) -> (Seq<char>, ExprView) {
    (name, ExprView::NativeFn(NativeFnView { id: name, arity, function: f }))
}

fn entry(name: &str, arity: Arity, f: Builtin) -> (r: (String, Expr))
    ensures
        (r.0@, r.1@) == native_entry(name@, arity, f),
{
    (owned(name), Expr::NativeFn(NativeFn { id: owned(name), arity, function: f }))
}

/// The special forms: they take their arguments unevaluated.
pub open spec fn special_form_vars() -> Seq<(Seq<char>, ExprView)> {
    seq![
        native_entry("var"@, Arity::Range(1, 2), Builtin::Var),
        native_entry("def"@, Arity::Range(1, 2), Builtin::Var),
        native_entry("if"@, Arity::Range(2, 3), Builtin::If),
        native_entry("set!"@, Arity::Count(2), Builtin::SetBang),
        native_entry("fn"@, Arity::Range(1, usize::MAX), Builtin::Fn),
        native_entry("defn"@, Arity::Range(2, usize::MAX), Builtin::Defn),
        native_entry("defm"@, Arity::Range(2, usize::MAX), Builtin::Defm),
    ]
}

/// The functions on values: arithmetic, comparison, equality, data access and printing.
pub open spec fn native_vars() -> Seq<(Seq<char>, ExprView)> {
    seq![
        native_entry("+"@, Arity::Range(1, usize::MAX), Builtin::Add),
        native_entry("-"@, Arity::Range(1, usize::MAX), Builtin::Sub),
        native_entry("*"@, Arity::Range(1, usize::MAX), Builtin::Mul),
        native_entry("/"@, Arity::Range(1, usize::MAX), Builtin::Div),
        native_entry("lt"@, Arity::Range(2, usize::MAX), Builtin::Lt),
        native_entry("lte"@, Arity::Range(2, usize::MAX), Builtin::Lte),
        native_entry("gt"@, Arity::Range(2, usize::MAX), Builtin::Gt),
        native_entry("gte"@, Arity::Range(2, usize::MAX), Builtin::Gte),
        native_entry("="@, Arity::Range(2, usize::MAX), Builtin::Eq),
        native_entry("!="@, Arity::Range(2, usize::MAX), Builtin::NotEq),
    ] + data_vars() + io_vars() + seq![native_entry("meta"@, Arity::Count(1), Builtin::Meta)]
}

/// `get`, `range` and `number?`.
pub open spec fn data_vars() -> Seq<(Seq<char>, ExprView)> {
    seq![
        native_entry("get"@, Arity::Count(2), Builtin::Get),
        native_entry("range"@, Arity::Count(2), Builtin::Range),
        native_entry("number?"@, Arity::Count(1), Builtin::NumberQ),
    ]
}

/// `print` and `println`.
pub open spec fn io_vars() -> Seq<(Seq<char>, ExprView)> {
    seq![
        native_entry("print"@, Arity::Range(0, usize::MAX), Builtin::Print),
        native_entry("println"@, Arity::Range(0, usize::MAX), Builtin::Println),
    ]
}

/// The method that the core module defines: `<n to: max>`, for numbers, is
/// the vector of the integers from `n` up to `max` (`(range this max)`).
pub open spec fn core_method() -> MethodView {
    MethodView {
        id: "to"@,
        selector: Box::new(ExprView::NativeFn(NativeFnView { id: "number?"@, arity: Arity::Count(1), function: Builtin::NumberQ })),
        arity: Arity::Count(1),
        args: seq![ExprView::Symbol("max"@)],
        function: seq![ExprView::List(seq![ExprView::Symbol("range"@), ExprView::Symbol("this"@), ExprView::Symbol("max"@)])],
        closure: EnvRef { frame: None },
    }
}

/// A frame holding the special forms.
pub fn special_forms_module() -> (e: Env)
    ensures
        e@.vars == special_form_vars(),
        e@.methods == Seq::<MethodView>::empty(),
        e@.enclosing is None,
{
    let vars = vec![
        entry("var", Arity::Range(1, 2), Builtin::Var),
        entry("def", Arity::Range(1, 2), Builtin::Var),
        entry("if", Arity::Range(2, 3), Builtin::If),
        entry("set!", Arity::Count(2), Builtin::SetBang),
        entry("fn", Arity::Range(1, usize::MAX), Builtin::Fn),
        entry("defn", Arity::Range(2, usize::MAX), Builtin::Defn),
        entry("defm", Arity::Range(2, usize::MAX), Builtin::Defm),
    ];
    let methods: Vec<Method> = Vec::new();
    assert(vars_view(vars@) =~= special_form_vars());
    assert(methods_view(methods@) =~= Seq::<MethodView>::empty());
    Env::from_parts(vars, methods)
}

fn arith_vars() -> (v: Vec<(String, Expr)>)
    ensures
        vars_view(v@) == native_vars().subrange(0, 10),
{
    let v = vec![
        entry("+", Arity::Range(1, usize::MAX), Builtin::Add),
        entry("-", Arity::Range(1, usize::MAX), Builtin::Sub),
        entry("*", Arity::Range(1, usize::MAX), Builtin::Mul),
        entry("/", Arity::Range(1, usize::MAX), Builtin::Div),
        entry("lt", Arity::Range(2, usize::MAX), Builtin::Lt),
        entry("lte", Arity::Range(2, usize::MAX), Builtin::Lte),
        entry("gt", Arity::Range(2, usize::MAX), Builtin::Gt),
        entry("gte", Arity::Range(2, usize::MAX), Builtin::Gte),
        entry("=", Arity::Range(2, usize::MAX), Builtin::Eq),
        entry("!=", Arity::Range(2, usize::MAX), Builtin::NotEq),
    ];
    assert(vars_view(v@) =~= native_vars().subrange(0, 10));
    v
}

/// A frame holding `get`, `range` and `number?`.
pub fn data_module() -> (e: Env)
    ensures
        e@.vars == data_vars(),
        e@.methods == Seq::<MethodView>::empty(),
        e@.enclosing is None,
{
    let vars = vec![
        entry("get", Arity::Count(2), Builtin::Get),
        entry("range", Arity::Count(2), Builtin::Range),
        entry("number?", Arity::Count(1), Builtin::NumberQ),
    ];
    let methods: Vec<Method> = Vec::new();
    assert(vars_view(vars@) =~= data_vars());
    assert(methods_view(methods@) =~= Seq::<MethodView>::empty());
    Env::from_parts(vars, methods)
}

/// A frame holding `print` and `println`.
pub fn io_module() -> (e: Env)
    ensures
        e@.vars == io_vars(),
        e@.methods == Seq::<MethodView>::empty(),
        e@.enclosing is None,
{
    let vars = vec![
        entry("print", Arity::Range(0, usize::MAX), Builtin::Print),
        entry("println", Arity::Range(0, usize::MAX), Builtin::Println),
    ];
    let methods: Vec<Method> = Vec::new();
    assert(vars_view(vars@) =~= io_vars());
    assert(methods_view(methods@) =~= Seq::<MethodView>::empty());
    Env::from_parts(vars, methods)
}

fn append_vars(out: &mut Vec<(String, Expr)>, extra: Vec<(String, Expr)>)
    ensures
        vars_view(final(out)@) == vars_view(old(out)@) + vars_view(extra@),
{
    let mut more = extra;
    let ghost m = more@;
    out.append(&mut more);
    assert(vars_view(out@) =~= vars_view(old(out)@) + vars_view(m));
}

/// A frame holding the functions on values.
pub fn native_module() -> (e: Env)
    ensures
        e@.vars == native_vars(),
        e@.methods == Seq::<MethodView>::empty(),
        e@.enclosing is None,
{
    let vars = native_module_vars();
    let methods: Vec<Method> = Vec::new();
    assert(methods_view(methods@) =~= Seq::<MethodView>::empty());
    Env::from_parts(vars, methods)
}

/// Adds the methods that the core module defines in the language itself
/// (see `core_method`).
pub fn add_eval_definitions(env: &mut Env)
    ensures
        final(env)@.vars == old(env)@.vars,
        final(env)@.methods == old(env)@.methods.push(core_method()),
        final(env)@.enclosing == old(env)@.enclosing,
{
    let body = vec![Expr::symbol("range"), Expr::symbol("this"), Expr::symbol("max")];
    let function = vec![Expr::List(body)];
    let args = vec![Expr::symbol("max")];
    let m = Method {
        id: owned("to"),
        selector: Box::new(Expr::native_fn("number?", Arity::Count(1), Builtin::NumberQ)),
        arity: Arity::Count(1),
        args,
        function,
        closure: EnvRef::nil(),
    };
    proof {
        lemma_exprs_view(body@);
        lemma_exprs_view(function@);
        lemma_exprs_view(args@);
        assert(exprs_view(body@) =~= seq![ExprView::Symbol("range"@), ExprView::Symbol("this"@), ExprView::Symbol("max"@)]);
        assert(exprs_view(function@) =~= core_method().function);
        assert(exprs_view(args@) =~= core_method().args);
    }
    env.defm(m);
}

/// The frame of the core module: the special forms, the functions on values,
/// and the core methods.
pub fn core_module() -> (e: Env)
    ensures
        e@.vars == special_form_vars() + native_vars(),
        e@.methods == seq![core_method()],
        e@.enclosing is None,
{
    let mut vars: Vec<(String, Expr)> = Vec::new();
    append_vars(&mut vars, vec![
        entry("var", Arity::Range(1, 2), Builtin::Var),
        entry("def", Arity::Range(1, 2), Builtin::Var),
        entry("if", Arity::Range(2, 3), Builtin::If),
        entry("set!", Arity::Count(2), Builtin::SetBang),
        entry("fn", Arity::Range(1, usize::MAX), Builtin::Fn),
        entry("defn", Arity::Range(2, usize::MAX), Builtin::Defn),
        entry("defm", Arity::Range(2, usize::MAX), Builtin::Defm),
    ]);
    let native = native_module_vars();
    append_vars(&mut vars, native);
    let methods: Vec<Method> = Vec::new();
    assert(vars_view(vars@) =~= special_form_vars() + native_vars());
    let mut env = Env::from_parts(vars, methods);
    add_eval_definitions(&mut env);
    assert(env@.methods =~= seq![core_method()]);
    env
}

fn native_module_vars() -> (v: Vec<(String, Expr)>)
    ensures
        vars_view(v@) == native_vars(),
{
    let mut vars = arith_vars();
    append_vars(
        &mut vars,
        vec![
            entry("get", Arity::Count(2), Builtin::Get),
            entry("range", Arity::Count(2), Builtin::Range),
            entry("number?", Arity::Count(1), Builtin::NumberQ),
        ],
    );
    append_vars(
        &mut vars,
        vec![
            entry("print", Arity::Range(0, usize::MAX), Builtin::Print),
            entry("println", Arity::Range(0, usize::MAX), Builtin::Println),
        ],
    );
    append_vars(&mut vars, vec![entry("meta", Arity::Count(1), Builtin::Meta)]);
    assert(vars_view(vars@) =~= native_vars());
    vars
}

impl Env {
    /// A frame holding the core module's definitions (see `core_module`).
    pub fn with_core_module() -> (e: Env)
        ensures
            e@.vars == special_form_vars() + native_vars(),
            e@.methods == seq![core_method()],
            e@.enclosing is None,
    {
        core_module()
    }
}

} // verus!
