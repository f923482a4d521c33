use vstd::prelude::*;

use crate::env::{
    env_add_method, env_define, env_lookup, env_methods, env_set, frame_define, methods_view, ref_ok, Env, EnvRef,
    FrameView, Store, StoreView,
};
use crate::error::{result_view, HError, HErrorView};
use crate::expr::{
    display_text, entries_view, expr_id, exprs_view, lemma_entries_view, lemma_exprs_view, owned, pairs_map,
    to_display_string, Builtin, Expr, ExprView, FnView, Method, MethodView, NativeFnView,
};
use crate::native::{apply_value_builtin, is_truthy, nth, print_chars, print_text, truthy, value_builtin};
use crate::parser::{parse, parse_spec};
use crate::scanner::text_fits;
use crate::special_forms::{
    function, function_spec, make_method, method_args, method_args_spec, method_id, method_id_spec, method_spec,
};

verus! {

/// How deeply evaluations may nest: no machine's stack reaches this depth, so
/// in practice evaluation is unbounded.
pub const MAX_DEPTH: usize = usize::MAX;

pub open spec fn list_message() -> Seq<char> {
    "An empty list is invalid. Should this be a function call?"@
}

pub open spec fn method_list_message() -> Seq<char> {
    "An empty method list is invalid. Should this be a method call?"@
}

/// The items from position `i` on.
pub open spec fn rest_from(s: Seq<ExprView>, i: int) -> Seq<ExprView> {
    if 0 <= i <= s.len() {
        s.subrange(i, s.len() as int)
    } else {
        Seq::empty()
    }
}

/// The value a symbol names, for the head of a call.
pub open spec fn resolve_spec(st: StoreView, e: ExprView, env: EnvRef) -> Result<ExprView, HErrorView> {
    match e {
        ExprView::Symbol(id) => env_lookup(st, env, id),
        _ => Err(HErrorView::UnexpectedForm("Only symbols are resolvable"@, e)),
    }
}

/// The frame a function's call starts from: empty, extending the caller's environment.
pub open spec fn call_frame(env: EnvRef) -> FrameView {
    FrameView { vars: Seq::empty(), methods: Seq::empty(), enclosing: env.frame }
}

/// Evaluation of `e` in `env`, nested at most `fuel` deep: the store after it
/// and the value or error.
pub open spec fn eval_expr_spec(fuel: nat, st: StoreView, e: ExprView, env: EnvRef) -> (StoreView, Result<ExprView, HErrorView>)
    decreases fuel, 10int, 0int,
{
    if fuel == 0 {
        (st, Err(HErrorView::RecursionLimit))
    } else {
        let f = (fuel - 1) as nat;
        match e {
            ExprView::List(l) => if l.len() == 0 {
                (st, Err(HErrorView::InvalidEmptyList(list_message())))
            } else {
                match resolve_spec(st, l[0], env) {
                    Ok(fv) => apply_spec(f, st, fv, l.drop_first(), env),
                    Err(x) => (st, Err(x)),
                }
            },
            ExprView::MethodList(l) => method_list_spec(f, st, l, env),
            ExprView::Symbol(s) => match env_lookup(st, env, s) {
                Ok(v) => (st, Ok(v)),
                Err(_) => (st, Err(HErrorView::UnboundVar(s))),
            },
            ExprView::Vector(v) => {
                let o = eval_items_spec(f, st, v, env);
                (
                    o.0,
                    match o.1 {
                        Ok(vs) => Ok(ExprView::Vector(vs)),
                        Err(x) => Err(x),
                    },
                )
            },
            ExprView::HMap(m) => {
                let o = eval_entries_spec(f, st, m, env);
                (
                    o.0,
                    match o.1 {
                        Ok(ps) => Ok(ExprView::HMap(pairs_map(ps))),
                        Err(x) => Err(x),
                    },
                )
            },
            _ => (st, Ok(e)),
        }
    }
}

/// Calling the value `fv` with the (unevaluated) arguments `args`.
pub open spec fn apply_spec(f: nat, st: StoreView, fv: ExprView, args: Seq<ExprView>, env: EnvRef) -> (
    StoreView,
    Result<ExprView, HErrorView>,
)
    decreases f + 1, 9int, 0int,
{
    match fv {
        ExprView::NativeFn(nf) => call_native_spec(f, st, nf, args, env),
        ExprView::Fn(x) => call_fn_spec(f, st, x, args, env),
        other => (st, Err(HErrorView::NotAFunction(display_text(other)))),
    }
}

/// Calling the value `fv` with the one value `v` as its argument, as a
/// method's selector is called with the receiver: `v` is not evaluated again.
/// Functions on values get it as it is, a function of the language binds it to
/// its parameter, and a special form takes it as its argument form.
pub open spec fn apply_value_spec(f: nat, st: StoreView, fv: ExprView, v: ExprView, env: EnvRef) -> (
    StoreView,
    Result<ExprView, HErrorView>,
)
    decreases f + 1, 9int, 0int,
{
    match fv {
        ExprView::NativeFn(nf) => if !nf.arity.accepts(1) {
            (st, Err(HErrorView::InvalidArity(nf.id, nf.arity)))
        } else {
            match nf.function {
                Builtin::Var | Builtin::If | Builtin::SetBang | Builtin::Fn | Builtin::Defn | Builtin::Defm => call_native_spec(
                    f,
                    st,
                    nf,
                    seq![v],
                    env,
                ),
                Builtin::Print | Builtin::Println => (
                    StoreView {
                        output: st.output + print_text(seq![v]) + if nf.function is Println {
                            seq!['\n']
                        } else {
                            Seq::<char>::empty()
                        },
                        ..st
                    },
                    Ok(ExprView::Nil),
                ),
                _ => (st, value_builtin(nf.function, nf.id, seq![v])),
            }
        },
        ExprView::Fn(x) => if !x.arity.accepts(1) {
            (st, Err(HErrorView::InvalidArity(x.id, x.arity)))
        } else {
            invoke_spec(f, st, x.args, x.function, seq![v], env, call_frame(env), true)
        },
        other => (st, Err(HErrorView::NotAFunction(display_text(other)))),
    }
}

/// A method expression `<receiver name: arg ...>`: the receiver is evaluated,
/// and the first method of that name whose selector accepts it is called.
pub open spec fn method_list_spec(f: nat, st: StoreView, l: Seq<ExprView>, env: EnvRef) -> (
    StoreView,
    Result<ExprView, HErrorView>,
)
    decreases f + 1, 8int, 0int,
{
    if l.len() == 0 {
        (st, Err(HErrorView::InvalidEmptyList(method_list_message())))
    } else {
        let o = eval_expr_spec(f, st, l[0], env);
        match o.1 {
            Err(x) => (o.0, Err(x)),
            Ok(target) => {
                let rest = l.drop_first();
                let name = method_id_spec(rest);
                let s = select_spec(f, o.0, env_methods(o.0, env, name), 0, target, env);
                match s.1 {
                    Err(x) => (s.0, Err(x)),
                    Ok(None) => (s.0, Err(HErrorView::UnboundMethod(name))),
                    Ok(Some(m)) => call_method_spec(f, s.0, m, target, method_args_spec(rest), env),
                }
            },
        }
    }
}

/// Calling a function of the interpreter.
pub open spec fn call_native_spec(f: nat, st: StoreView, nf: NativeFnView, args: Seq<ExprView>, env: EnvRef) -> (
    StoreView,
    Result<ExprView, HErrorView>,
)
    decreases f + 1, 7int, 0int,
{
    if !nf.arity.accepts(args.len() as int) {
        (st, Err(HErrorView::InvalidArity(nf.id, nf.arity)))
    } else {
        match nf.function {
            Builtin::Var => match nth(args, 0) {
                ExprView::Symbol(name) => {
                    let o = eval_expr_spec(f, st, nth(args, 1), env);
                    match o.1 {
                        Err(x) => (o.0, Err(x)),
                        Ok(v) => match env_define(o.0, env, name, v) {
                            Ok(st2) => (st2, Ok(ExprView::Nil)),
                            Err(x) => (o.0, Err(x)),
                        },
                    }
                },
                other => (st, Err(HErrorView::UnexpectedForm("Only symbols can be defined"@, other))),
            },
            Builtin::If => {
                let o = eval_expr_spec(f, st, nth(args, 0), env);
                match o.1 {
                    Err(x) => (o.0, Err(x)),
                    Ok(c) => if truthy(c) {
                        eval_expr_spec(f, o.0, nth(args, 1), env)
                    } else if args.len() == 3 {
                        eval_expr_spec(f, o.0, nth(args, 2), env)
                    } else {
                        (o.0, Ok(ExprView::Nil))
                    },
                }
            },
            Builtin::SetBang => match nth(args, 0) {
                ExprView::Symbol(name) => {
                    let o = eval_expr_spec(f, st, nth(args, 1), env);
                    match o.1 {
                        Err(x) => (o.0, Err(x)),
                        Ok(v) => match env_set(o.0, env, name, v) {
                            Ok(p) => (p.0, Ok(ExprView::Nil)),
                            Err(x) => (o.0, Err(x)),
                        },
                    }
                },
                other => (st, Err(HErrorView::UnexpectedForm("Only symbols can be set"@, other))),
            },
            Builtin::Fn => (st, function_spec(args, env)),
            Builtin::Defn => match nth(args, 0) {
                ExprView::Symbol(name) => match function_spec(rest_from(args, 1), env) {
                    Err(x) => (st, Err(x)),
                    Ok(fv) => match env_define(st, env, name, fv) {
                        Ok(st2) => (st2, Ok(ExprView::Nil)),
                        Err(x) => (st, Err(x)),
                    },
                },
                other => (st, Err(HErrorView::UnexpectedForm("\"defn\" requires a symbol for name"@, other))),
            },
            Builtin::Defm => {
                let o = eval_expr_spec(f, st, nth(args, 0), env);
                match o.1 {
                    Err(x) => (o.0, Err(x)),
                    Ok(sel) => match method_spec(sel, args, env) {
                        Err(x) => (o.0, Err(x)),
                        Ok(m) => match env_add_method(o.0, env, m) {
                            Ok(st2) => (st2, Ok(ExprView::Nil)),
                            Err(x) => (o.0, Err(x)),
                        },
                    },
                }
            },
            Builtin::Print | Builtin::Println => {
                let o = eval_items_spec(f, st, args, env);
                match o.1 {
                    Err(x) => (o.0, Err(x)),
                    Ok(vals) => (
                        StoreView {
                            output: o.0.output + print_text(vals) + if nf.function is Println {
                                seq!['\n']
                            } else {
                                Seq::<char>::empty()
                            },
                            ..o.0
                        },
                        Ok(ExprView::Nil),
                    ),
                }
            },
            _ => {
                let o = eval_items_spec(f, st, args, env);
                (
                    o.0,
                    match o.1 {
                        Err(x) => Err(x),
                        Ok(vals) => value_builtin(nf.function, nf.id, vals),
                    },
                )
            },
        }
    }
}

/// Calling a function of the language: the arguments are bound in a new frame
/// that extends the caller's environment, and the body is evaluated there.
pub open spec fn call_fn_spec(f: nat, st: StoreView, x: FnView, args: Seq<ExprView>, env: EnvRef) -> (
    StoreView,
    Result<ExprView, HErrorView>,
)
    decreases f + 1, 6int, 0int,
{
    if !x.arity.accepts(args.len() as int) {
        (st, Err(HErrorView::InvalidArity(x.id, x.arity)))
    } else {
        invoke_spec(f, st, x.args, x.function, args, env, call_frame(env), false)
    }
}

/// The first of the candidate methods from position `k` on whose selector,
/// called with the receiver, gives a true value.
pub open spec fn select_spec(
    f: nat,
    st: StoreView,
    cands: Seq<MethodView>,
    k: int,
    target: ExprView,
    env: EnvRef,
) -> (StoreView, Result<Option<MethodView>, HErrorView>)
    decreases f + 1, 5int, cands.len() - k,
{
    if k < 0 || k >= cands.len() {
        (st, Ok(None))
    } else if f == 0 {
        (st, Err(HErrorView::RecursionLimit))
    } else {
        let o = apply_value_spec((f - 1) as nat, st, *cands[k].selector, target, env);
        match o.1 {
            Err(x) => (o.0, Err(x)),
            Ok(v) => if truthy(v) {
                (o.0, Ok(Some(cands[k])))
            } else {
                select_spec(f, o.0, cands, k + 1, target, env)
            },
        }
    }
}

/// Calling a method: like a function, with `this` bound to the receiver.
pub open spec fn call_method_spec(
    f: nat,
    st: StoreView,
    m: MethodView,
    target: ExprView,
    margs: Seq<ExprView>,
    env: EnvRef,
) -> (StoreView, Result<ExprView, HErrorView>)
    decreases f + 1, 4int, 0int,
{
    if !m.arity.accepts(margs.len() as int) {
        (st, Err(HErrorView::InvalidArity(m.id, m.arity)))
    } else {
        invoke_spec(f, st, m.args, m.function, margs, env, frame_define(call_frame(env), "this"@, target), false)
    }
}

/// Binds the parameters in `frame0`, stores the frame, evaluates the body in
/// it, and forgets the frame again. The arguments are expressions to evaluate,
/// or, where `evaluated`, values already.
pub open spec fn invoke_spec(
    f: nat,
    st: StoreView,
    params: Seq<ExprView>,
    body: Seq<ExprView>,
    args: Seq<ExprView>,
    env: EnvRef,
    frame0: FrameView,
    evaluated: bool,
) -> (StoreView, Result<ExprView, HErrorView>)
    decreases f + 1, 3int, 0int,
{
    let b = bind_spec(f, st, params, args, env, 0, frame0, evaluated);
    match b.1 {
        Err(x) => (b.0, Err(x)),
        Ok(frame) => {
            let n = b.0.frames.len();
            let o = eval_body_spec(
                f,
                StoreView { frames: b.0.frames.push(frame), ..b.0 },
                body,
                EnvRef { frame: Some(n as usize) },
            );
            (StoreView { frames: o.0.frames.take(n as int), ..o.0 }, o.1)
        },
    }
}

/// Binds the parameters from position `i` on: a symbol to its argument's
/// value, `&` and the next symbol to the rest of the arguments, unevaluated.
/// Where `evaluated`, the arguments are values and are bound as they are.
pub open spec fn bind_spec(
    f: nat,
    st: StoreView,
    params: Seq<ExprView>,
    args: Seq<ExprView>,
    env: EnvRef,
    i: int,
    frame: FrameView,
    evaluated: bool,
) -> (StoreView, Result<FrameView, HErrorView>)
    decreases f + 1, 2int, params.len() - i,
{
    if i < 0 || i >= params.len() {
        (st, Ok(frame))
    } else {
        match params[i] {
            ExprView::Symbol(name) => if i < args.len() {
                let o = if evaluated {
                    (st, Ok(args[i]))
                } else {
                    eval_expr_spec(f, st, args[i], env)
                };
                match o.1 {
                    Err(x) => (o.0, Err(x)),
                    Ok(v) => bind_spec(f, o.0, params, args, env, i + 1, frame_define(frame, name, v), evaluated),
                }
            } else {
                (st, Ok(frame))
            },
            ExprView::Ampersand => if i + 1 < params.len() {
                (st, Ok(frame_define(frame, expr_id(params[i + 1]), ExprView::Vector(rest_from(args, i)))))
            } else {
                (st, Ok(frame))
            },
            other => (st, Err(HErrorView::UnexpectedForm("Expected a symbol argument"@, other))),
        }
    }
}

/// The values of the expressions, evaluated in order.
pub open spec fn eval_items_spec(f: nat, st: StoreView, v: Seq<ExprView>, env: EnvRef) -> (
    StoreView,
    Result<Seq<ExprView>, HErrorView>,
)
    decreases f + 1, 1int, v.len(),
{
    if v.len() == 0 {
        (st, Ok(Seq::empty()))
    } else {
        let o = eval_expr_spec(f, st, v[0], env);
        match o.1 {
            Err(x) => (o.0, Err(x)),
            Ok(x) => {
                let r = eval_items_spec(f, o.0, v.drop_first(), env);
                (
                    r.0,
                    match r.1 {
                        Ok(xs) => Ok(seq![x] + xs),
                        Err(e) => Err(e),
                    },
                )
            },
        }
    }
}

/// The entries with their keys and values evaluated, in order.
pub open spec fn eval_entries_spec(f: nat, st: StoreView, m: Seq<(ExprView, ExprView)>, env: EnvRef) -> (
    StoreView,
    Result<Seq<(ExprView, ExprView)>, HErrorView>,
)
    decreases f + 1, 1int, m.len(),
{
    if m.len() == 0 {
        (st, Ok(Seq::empty()))
    } else {
        let k = eval_expr_spec(f, st, m[0].0, env);
        match k.1 {
            Err(x) => (k.0, Err(x)),
            Ok(kv) => {
                let v = eval_expr_spec(f, k.0, m[0].1, env);
                match v.1 {
                    Err(x) => (v.0, Err(x)),
                    Ok(vv) => {
                        let r = eval_entries_spec(f, v.0, m.drop_first(), env);
                        (
                            r.0,
                            match r.1 {
                                Ok(ps) => Ok(seq![(kv, vv)] + ps),
                                Err(e) => Err(e),
                            },
                        )
                    },
                }
            },
        }
    }
}

/// The value of the last expression, evaluated in order (nil for none).
pub open spec fn eval_body_spec(f: nat, st: StoreView, body: Seq<ExprView>, env: EnvRef) -> (
    StoreView,
    Result<ExprView, HErrorView>,
)
    decreases f + 1, 1int, body.len(),
{
    if body.len() == 0 {
        (st, Ok(ExprView::Nil))
    } else {
        let o = eval_expr_spec(f, st, body[0], env);
        match o.1 {
            Err(x) => (o.0, Err(x)),
            Ok(x) => if body.len() == 1 {
                (o.0, Ok(x))
            } else {
                eval_body_spec(f, o.0, body.drop_first(), env)
            },
        }
    }
}

/// Evaluation of a text: its expressions in order (see `parse_spec`).
pub open spec fn eval_spec(st: StoreView, s: Seq<char>, env: EnvRef) -> (StoreView, Result<ExprView, HErrorView>) {
    match parse_spec(s) {
        Err(e) => (st, Err(e)),
        Ok(exprs) => eval_body_spec(MAX_DEPTH as nat, st, exprs, env),
    }
}

} // verus!

verus! {

/// The value of an outcome that is a sequence of values.
pub open spec fn items_result(r: Result<Vec<Expr>, HError>) -> Result<Seq<ExprView>, HErrorView> {
    match r {
        Ok(v) => Ok(exprs_view(v@)),
        Err(e) => Err(e@),
    }
}

pub open spec fn entries_result(r: Result<Vec<(Expr, Expr)>, HError>) -> Result<Seq<(ExprView, ExprView)>, HErrorView> {
    match r {
        Ok(v) => Ok(entries_view(v@)),
        Err(e) => Err(e@),
    }
}

pub open spec fn method_result(r: Result<Option<Method>, HError>) -> Result<Option<MethodView>, HErrorView> {
    match r {
        Ok(Some(m)) => Ok(Some(m@)),
        Ok(None) => Ok(None),
        Err(e) => Err(e@),
    }
}

/// An outcome with `acc` put before the values it yields.
pub open spec fn prepend<T>(acc: Seq<T>, o: (StoreView, Result<Seq<T>, HErrorView>)) -> (StoreView, Result<Seq<T>, HErrorView>) {
    (
        o.0,
        match o.1 {
            Ok(xs) => Ok(acc + xs),
            Err(e) => Err(e),
        },
    )
}

pub open spec fn native_view(nf: &crate::expr::NativeFn) -> NativeFnView {
    NativeFnView { id: nf.id@, arity: nf.arity, function: nf.function }
}

/// Copies of the items from position `k` on (see `rest_from`).
fn rest_of(v: &Vec<Expr>, k: usize) -> (r: Vec<Expr>)
    ensures
        exprs_view(r@) == rest_from(exprs_view(v@), k as int),
{
    proof {
        lemma_exprs_view(v@);
    }
    let mut out: Vec<Expr> = Vec::new();
    if k > v.len() {
        proof {
            assert(exprs_view(out@) =~= Seq::<ExprView>::empty());
        }
        return out;
    }
    let mut i = k;
    proof {
        assert(exprs_view(out@) =~= exprs_view(v@).subrange(k as int, k as int));
    }
    while i < v.len()
        invariant
            k <= i <= v@.len(),
            exprs_view(out@) == exprs_view(v@).subrange(k as int, i as int),
        decreases v@.len() - i,
    {
        let ghost before = out@;
        out.push(v[i].copy());
        proof {
            lemma_exprs_view(before);
            lemma_exprs_view(out@);
            lemma_exprs_view(v@);
            assert(exprs_view(out@) =~= exprs_view(v@).subrange(k as int, i + 1));
        }
        i = i + 1;
    }
    out
}

/// The value the head of a call names: symbols only.
pub fn resolve(store: &Store, expr: &Expr, env: EnvRef) -> (r: Result<Expr, HError>)
    requires
        store.wf(),
    ensures
        result_view(r) == resolve_spec(store@, expr@, env),
{
    match expr {
        Expr::Symbol(id) => env.get(store, id.as_str()),
        _ => Err(HError::UnexpectedForm(owned("Only symbols are resolvable"), expr.copy())),
    }
}

fn eval_expr_f(store: &mut Store, e: &Expr, env: EnvRef, fuel: usize) -> (r: Result<Expr, HError>)
    requires
        old(store).wf(),
        ref_ok(old(store)@.frames, env),
    ensures
        final(store).wf(),
        final(store)@.frames.len() == old(store)@.frames.len(),
        (final(store)@, result_view(r)) == eval_expr_spec(fuel as nat, old(store)@, e@, env),
    decreases fuel, 10int, 0int,
{
    if fuel == 0 {
        return Err(HError::RecursionLimit);
    }
    let f = fuel - 1;
    match e {
        Expr::List(l) => {
            proof {
                lemma_exprs_view(l@);
            }
            if l.len() == 0 {
                return Err(HError::InvalidEmptyList(owned("An empty list is invalid. Should this be a function call?")));
            }
            let fv = resolve(store, &l[0], env)?;
            let args = rest_of(l, 1);
            apply_f(store, &fv, &args, env, f)
        },
        Expr::MethodList(l) => method_list_f(store, l, env, f),
        Expr::Symbol(s) => match env.get(store, s.as_str()) {
            Ok(v) => Ok(v),
            Err(_) => Err(HError::UnboundVar(s.clone())),
        },
        Expr::Vector(v) => {
            let vs = eval_items_f(store, v, env, f)?;
            Ok(Expr::Vector(vs))
        },
        Expr::HMap(m) => {
            let ps = eval_entries_f(store, &m.entries, env, f)?;
            Ok(Expr::map(ps.as_slice()))
        },
        _ => Ok(e.copy()),
    }
}

fn apply_f(store: &mut Store, fv: &Expr, args: &Vec<Expr>, env: EnvRef, f: usize) -> (r: Result<Expr, HError>)
    requires
        old(store).wf(),
        ref_ok(old(store)@.frames, env),
    ensures
        final(store).wf(),
        final(store)@.frames.len() == old(store)@.frames.len(),
        (final(store)@, result_view(r)) == apply_spec(f as nat, old(store)@, fv@, exprs_view(args@), env),
    decreases f + 1, 9int, 0int,
{
    match fv {
        Expr::NativeFn(nf) => call_native_f(store, nf, args, env, f),
        Expr::Fn(x) => call_fn_f(store, x, args, env, f),
        other => Err(HError::NotAFunction(to_display_string(other))),
    }
}

fn apply_value_f(store: &mut Store, fv: &Expr, v: &Expr, env: EnvRef, f: usize) -> (r: Result<Expr, HError>)
    requires
        old(store).wf(),
        ref_ok(old(store)@.frames, env),
    ensures
        final(store).wf(),
        final(store)@.frames.len() == old(store)@.frames.len(),
        (final(store)@, result_view(r)) == apply_value_spec(f as nat, old(store)@, fv@, v@, env),
    decreases f + 1, 9int, 0int,
{
    let vals = vec![v.copy()];
    proof {
        lemma_exprs_view(vals@);
        assert(exprs_view(vals@) =~= seq![v@]);
    }
    match fv {
        Expr::NativeFn(nf) => {
            nf.arity.check(nf.id.as_str(), vals.as_slice())?;
            match nf.function {
                Builtin::Var | Builtin::If | Builtin::SetBang | Builtin::Fn | Builtin::Defn | Builtin::Defm => {
                    call_native_f(store, nf, &vals, env, f)
                },
                Builtin::Print | Builtin::Println => {
                    let text = print_chars(&vals);
                    let ghost before = store@.output;
                    store.print(&text);
                    let newline = match nf.function {
                        Builtin::Println => true,
                        _ => false,
                    };
                    if newline {
                        let nl = vec!['\n'];
                        store.print(&nl);
                        assert(store@.output =~= before + print_text(seq![v@]) + seq!['\n']);
                    } else {
                        assert(store@.output =~= before + print_text(seq![v@]) + Seq::<char>::empty());
                    }
                    Ok(Expr::Nil)
                },
                _ => apply_value_builtin(nf.function, nf.id.as_str(), &vals),
            }
        },
        Expr::Fn(x) => {
            x.arity.check(x.id.as_str(), vals.as_slice())?;
            let frame = Env::extend(env);
            invoke_f(store, &x.args, &x.function, &vals, env, frame, f, true)
        },
        other => Err(HError::NotAFunction(to_display_string(other))),
    }
}

fn method_list_f(store: &mut Store, l: &Vec<Expr>, env: EnvRef, f: usize) -> (r: Result<Expr, HError>)
    requires
        old(store).wf(),
        ref_ok(old(store)@.frames, env),
    ensures
        final(store).wf(),
        final(store)@.frames.len() == old(store)@.frames.len(),
        (final(store)@, result_view(r)) == method_list_spec(f as nat, old(store)@, exprs_view(l@), env),
    decreases f + 1, 8int, 0int,
{
    proof {
        lemma_exprs_view(l@);
    }
    if l.len() == 0 {
        return Err(HError::InvalidEmptyList(owned("An empty method list is invalid. Should this be a method call?")));
    }
    let target = eval_expr_f(store, &l[0], env, f)?;
    let rest = rest_of(l, 1);
    let name = method_id(&rest);
    let cands = store.methods_for(env, &name);
    let chosen = select_f(store, &cands, &target, env, f)?;
    match chosen {
        None => Err(HError::UnboundMethod(name)),
        Some(m) => {
            let margs = method_args(&rest);
            call_method_f(store, &m, &target, &margs, env, f)
        },
    }
}

#[verifier::rlimit(60)]
fn call_native_f(store: &mut Store, nf: &crate::expr::NativeFn, args: &Vec<Expr>, env: EnvRef, f: usize) -> (r: Result<
    Expr,
    HError,
>)
    requires
        old(store).wf(),
        ref_ok(old(store)@.frames, env),
    ensures
        final(store).wf(),
        final(store)@.frames.len() == old(store)@.frames.len(),
        (final(store)@, result_view(r)) == call_native_spec(f as nat, old(store)@, native_view(nf), exprs_view(args@), env),
    decreases f + 1, 7int, 0int,
{
    proof {
        lemma_exprs_view(args@);
    }
    nf.arity.check(nf.id.as_str(), args.as_slice())?;
    let nil = Expr::Nil;
    let a0: &Expr = if args.len() > 0 {
        &args[0]
    } else {
        &nil
    };
    let a1: &Expr = if args.len() > 1 {
        &args[1]
    } else {
        &nil
    };
    match nf.function {
        Builtin::Var => match a0 {
            Expr::Symbol(name) => {
                let v = eval_expr_f(store, a1, env, f)?;
                env.define(store, name.as_str(), v)?;
                Ok(Expr::Nil)
            },
            other => Err(HError::UnexpectedForm(owned("Only symbols can be defined"), other.copy())),
        },
        Builtin::If => {
            let c = eval_expr_f(store, a0, env, f)?;
            if is_truthy(&c) {
                eval_expr_f(store, a1, env, f)
            } else if args.len() == 3 {
                eval_expr_f(store, &args[2], env, f)
            } else {
                Ok(Expr::Nil)
            }
        },
        Builtin::SetBang => match a0 {
            Expr::Symbol(name) => {
                let v = eval_expr_f(store, a1, env, f)?;
                env.set(store, name.as_str(), v)?;
                Ok(Expr::Nil)
            },
            other => Err(HError::UnexpectedForm(owned("Only symbols can be set"), other.copy())),
        },
        Builtin::Fn => function(args, env),
        Builtin::Defn => match a0 {
            Expr::Symbol(name) => {
                let rest = rest_of(args, 1);
                let fv = function(&rest, env)?;
                env.define(store, name.as_str(), fv)?;
                Ok(Expr::Nil)
            },
            other => Err(HError::UnexpectedForm(owned("\"defn\" requires a symbol for name"), other.copy())),
        },
        Builtin::Defm => {
            let sel = eval_expr_f(store, a0, env, f)?;
            let m = make_method(sel, args, env)?;
            env.defm(store, m)?;
            Ok(Expr::Nil)
        },
        Builtin::Print | Builtin::Println => {
            let vals = eval_items_f(store, args, env, f)?;
            let text = print_chars(&vals);
            let ghost before = store@.output;
            store.print(&text);
            let newline = match nf.function {
                Builtin::Println => true,
                _ => false,
            };
            if newline {
                let nl = vec!['\n'];
                store.print(&nl);
                assert(store@.output =~= before + print_text(exprs_view(vals@)) + seq!['\n']);
            } else {
                assert(store@.output =~= before + print_text(exprs_view(vals@)) + Seq::<char>::empty());
            }
            Ok(Expr::Nil)
        },
        _ => {
            let vals = eval_items_f(store, args, env, f)?;
            apply_value_builtin(nf.function, nf.id.as_str(), &vals)
        },
    }
}

fn call_fn_f(store: &mut Store, x: &crate::expr::Fn, args: &Vec<Expr>, env: EnvRef, f: usize) -> (r: Result<Expr, HError>)
    requires
        old(store).wf(),
        ref_ok(old(store)@.frames, env),
    ensures
        final(store).wf(),
        final(store)@.frames.len() == old(store)@.frames.len(),
        (final(store)@, result_view(r)) == call_fn_spec(f as nat, old(store)@, x@, exprs_view(args@), env),
    decreases f + 1, 6int, 0int,
{
    proof {
        lemma_exprs_view(args@);
    }
    x.arity.check(x.id.as_str(), args.as_slice())?;
    let frame = Env::extend(env);
    invoke_f(store, &x.args, &x.function, args, env, frame, f, false)
}

fn select_f(store: &mut Store, cands: &Vec<Method>, target: &Expr, env: EnvRef, f: usize) -> (r: Result<
    Option<Method>,
    HError,
>)
    requires
        old(store).wf(),
        ref_ok(old(store)@.frames, env),
    ensures
        final(store).wf(),
        final(store)@.frames.len() == old(store)@.frames.len(),
        (final(store)@, method_result(r)) == select_spec(f as nat, old(store)@, methods_view(cands@), 0, target@, env),
    decreases f + 1, 5int, 0int,
{
    let ghost cv = methods_view(cands@);
    let mut k: usize = 0;
    while k < cands.len()
        invariant
            store.wf(),
            ref_ok(store@.frames, env),
            store@.frames.len() == old(store)@.frames.len(),
            cv == methods_view(cands@),
            cv.len() == cands@.len(),
            k <= cands@.len(),
            select_spec(f as nat, old(store)@, cv, 0, target@, env) == select_spec(f as nat, store@, cv, k as int, target@, env),
        decreases cands@.len() - k,
    {
        if f == 0 {
            return Err(HError::RecursionLimit);
        }
        proof {
            assert(cv[k as int] == cands@[k as int]@);
        }
        let v = apply_value_f(store, &*cands[k].selector, target, env, f - 1)?;
        if is_truthy(&v) {
            return Ok(Some(cands[k].copy()));
        }
        k = k + 1;
    }
    Ok(None)
}

fn call_method_f(store: &mut Store, m: &Method, target: &Expr, margs: &Vec<Expr>, env: EnvRef, f: usize) -> (r: Result<
    Expr,
    HError,
>)
    requires
        old(store).wf(),
        ref_ok(old(store)@.frames, env),
    ensures
        final(store).wf(),
        final(store)@.frames.len() == old(store)@.frames.len(),
        (final(store)@, result_view(r)) == call_method_spec(f as nat, old(store)@, m@, target@, exprs_view(margs@), env),
    decreases f + 1, 4int, 0int,
{
    proof {
        lemma_exprs_view(margs@);
    }
    m.arity.check(m.id.as_str(), margs.as_slice())?;
    let mut frame = Env::extend(env);
    frame.define("this", target.copy());
    invoke_f(store, &m.args, &m.function, margs, env, frame, f, false)
}

fn invoke_f(
    store: &mut Store,
    params: &Vec<Expr>,
    body: &Vec<Expr>,
    args: &Vec<Expr>,
    env: EnvRef,
    frame: Env,
    f: usize,
    evaluated: bool,
) -> (r: Result<Expr, HError>)
    requires
        old(store).wf(),
        ref_ok(old(store)@.frames, env),
        frame@.enclosing == env.frame,
    ensures
        final(store).wf(),
        final(store)@.frames.len() == old(store)@.frames.len(),
        (final(store)@, result_view(r)) == invoke_spec(
            f as nat,
            old(store)@,
            exprs_view(params@),
            exprs_view(body@),
            exprs_view(args@),
            env,
            frame@,
            evaluated,
        ),
    decreases f + 1, 3int, 0int,
{
    let mut frame = frame;
    bind_f(store, params, args, env, &mut frame, f, evaluated)?;
    let ghost mid = store@;
    let r = store.push_frame(frame);
    let out = eval_body_f(store, body, r, f);
    store.pop_frame();
    proof {
        assert(store@.frames =~= (store@.frames).take(mid.frames.len() as int));
    }
    out
}

fn bind_f(
    store: &mut Store,
    params: &Vec<Expr>,
    args: &Vec<Expr>,
    env: EnvRef,
    frame: &mut Env,
    f: usize,
    evaluated: bool,
) -> (r: Result<
    (),
    HError,
>)
    requires
        old(store).wf(),
        ref_ok(old(store)@.frames, env),
    ensures
        final(store).wf(),
        final(store)@.frames.len() == old(store)@.frames.len(),
        (
            final(store)@,
            match r {
                Ok(()) => Ok(final(frame)@),
                Err(e) => Err(e@),
            },
        ) == bind_spec(f as nat, old(store)@, exprs_view(params@), exprs_view(args@), env, 0, old(frame)@, evaluated),
        final(frame)@.enclosing == old(frame)@.enclosing,
    decreases f + 1, 2int, 0int,
{
    let ghost ps = exprs_view(params@);
    let ghost av = exprs_view(args@);
    proof {
        lemma_exprs_view(params@);
        lemma_exprs_view(args@);
    }
    let mut i: usize = 0;
    while i < params.len()
        invariant
            store.wf(),
            ref_ok(store@.frames, env),
            store@.frames.len() == old(store)@.frames.len(),
            ps == exprs_view(params@),
            av == exprs_view(args@),
            ps.len() == params@.len(),
            av.len() == args@.len(),
            forall|q: int| 0 <= q < params@.len() ==> #[trigger] ps[q] == params@[q]@,
            forall|q: int| 0 <= q < args@.len() ==> #[trigger] av[q] == args@[q]@,
            i <= params@.len(),
            frame@.enclosing == old(frame)@.enclosing,
            bind_spec(f as nat, old(store)@, ps, av, env, 0, old(frame)@, evaluated) == bind_spec(
                f as nat,
                store@,
                ps,
                av,
                env,
                i as int,
                frame@,
                evaluated,
            ),
        decreases params@.len() - i,
    {
        match &params[i] {
            Expr::Symbol(name) => {
                if i < args.len() {
                    let v = if evaluated {
                        args[i].copy()
                    } else {
                        eval_expr_f(store, &args[i], env, f)?
                    };
                    frame.define(name.as_str(), v);
                } else {
                    return Ok(());
                }
            },
            Expr::Ampersand => {
                if i + 1 < params.len() {
                    let rest = rest_of(args, i);
                    let id = params[i + 1].id();
                    frame.define(id.as_str(), Expr::Vector(rest));
                }
                return Ok(());
            },
            other => {
                return Err(HError::UnexpectedForm(owned("Expected a symbol argument"), other.copy()));
            },
        }
        i = i + 1;
    }
    Ok(())
}

fn eval_items_f(store: &mut Store, v: &Vec<Expr>, env: EnvRef, f: usize) -> (r: Result<Vec<Expr>, HError>)
    requires
        old(store).wf(),
        ref_ok(old(store)@.frames, env),
    ensures
        final(store).wf(),
        final(store)@.frames.len() == old(store)@.frames.len(),
        (final(store)@, items_result(r)) == eval_items_spec(f as nat, old(store)@, exprs_view(v@), env),
    decreases f + 1, 1int, 0int,
{
    let ghost vs = exprs_view(v@);
    proof {
        lemma_exprs_view(v@);
    }
    let mut out: Vec<Expr> = Vec::new();
    let mut i: usize = 0;
    proof {
        lemma_exprs_view(out@);
        assert(vs.subrange(0, vs.len() as int) =~= vs);
        let o = eval_items_spec(f as nat, store@, vs, env);
        match o.1 {
            Ok(xs) => {
                assert(exprs_view(out@) + xs =~= xs);
            },
            Err(_) => {},
        }
    }
    while i < v.len()
        invariant
            store.wf(),
            ref_ok(store@.frames, env),
            store@.frames.len() == old(store)@.frames.len(),
            vs == exprs_view(v@),
            vs.len() == v@.len(),
            forall|q: int| 0 <= q < v@.len() ==> #[trigger] vs[q] == v@[q]@,
            i <= v@.len(),
            eval_items_spec(f as nat, old(store)@, vs, env) == prepend(
                exprs_view(out@),
                eval_items_spec(f as nat, store@, vs.subrange(i as int, vs.len() as int), env),
            ),
        decreases v@.len() - i,
    {
        let ghost acc = exprs_view(out@);
        let ghost st = store@;
        proof {
            assert(vs.subrange(i as int, vs.len() as int).drop_first() =~= vs.subrange(i + 1, vs.len() as int));
        }
        let x = eval_expr_f(store, &v[i], env, f)?;
        let ghost prev = out@;
        let ghost xv = x@;
        out.push(x);
        proof {
            lemma_exprs_view(out@);
            lemma_exprs_view(prev);
            assert(out@ == prev.push(x));
            assert(exprs_view(out@) =~= acc.push(xv));
            let r = eval_items_spec(f as nat, store@, vs.subrange(i + 1, vs.len() as int), env);
            match r.1 {
                Ok(xs) => {
                    assert(acc + (seq![xv] + xs) =~= exprs_view(out@) + xs);
                },
                Err(_) => {},
            }
        }
        i = i + 1;
    }
    proof {
        assert(exprs_view(out@) + Seq::<ExprView>::empty() =~= exprs_view(out@));
    }
    Ok(out)
}

fn eval_entries_f(store: &mut Store, m: &Vec<(Expr, Expr)>, env: EnvRef, f: usize) -> (r: Result<
    Vec<(Expr, Expr)>,
    HError,
>)
    requires
        old(store).wf(),
        ref_ok(old(store)@.frames, env),
    ensures
        final(store).wf(),
        final(store)@.frames.len() == old(store)@.frames.len(),
        (final(store)@, entries_result(r)) == eval_entries_spec(f as nat, old(store)@, entries_view(m@), env),
    decreases f + 1, 1int, 0int,
{
    let ghost ms = entries_view(m@);
    proof {
        lemma_entries_view(m@);
    }
    let mut out: Vec<(Expr, Expr)> = Vec::new();
    let mut i: usize = 0;
    proof {
        lemma_entries_view(out@);
        assert(ms.subrange(0, ms.len() as int) =~= ms);
        let o = eval_entries_spec(f as nat, store@, ms, env);
        match o.1 {
            Ok(xs) => {
                assert(entries_view(out@) + xs =~= xs);
            },
            Err(_) => {},
        }
    }
    while i < m.len()
        invariant
            store.wf(),
            ref_ok(store@.frames, env),
            store@.frames.len() == old(store)@.frames.len(),
            ms == entries_view(m@),
            ms.len() == m@.len(),
            forall|q: int| 0 <= q < m@.len() ==> #[trigger] ms[q] == (m@[q].0@, m@[q].1@),
            i <= m@.len(),
            eval_entries_spec(f as nat, old(store)@, ms, env) == prepend(
                entries_view(out@),
                eval_entries_spec(f as nat, store@, ms.subrange(i as int, ms.len() as int), env),
            ),
        decreases m@.len() - i,
    {
        let ghost acc = entries_view(out@);
        proof {
            assert(ms.subrange(i as int, ms.len() as int).drop_first() =~= ms.subrange(i + 1, ms.len() as int));
        }
        let k = eval_expr_f(store, &m[i].0, env, f)?;
        let v = eval_expr_f(store, &m[i].1, env, f)?;
        let ghost prev = out@;
        let ghost kv = (k@, v@);
        out.push((k, v));
        proof {
            lemma_entries_view(out@);
            lemma_entries_view(prev);
            assert(entries_view(out@) =~= acc.push(kv));
            let r = eval_entries_spec(f as nat, store@, ms.subrange(i + 1, ms.len() as int), env);
            match r.1 {
                Ok(xs) => {
                    assert(acc + (seq![kv] + xs) =~= entries_view(out@) + xs);
                },
                Err(_) => {},
            }
        }
        i = i + 1;
    }
    proof {
        assert(entries_view(out@) + Seq::<(ExprView, ExprView)>::empty() =~= entries_view(out@));
    }
    Ok(out)
}

fn eval_body_f(store: &mut Store, body: &Vec<Expr>, env: EnvRef, f: usize) -> (r: Result<Expr, HError>)
    requires
        old(store).wf(),
        ref_ok(old(store)@.frames, env),
    ensures
        final(store).wf(),
        final(store)@.frames.len() == old(store)@.frames.len(),
        (final(store)@, result_view(r)) == eval_body_spec(f as nat, old(store)@, exprs_view(body@), env),
    decreases f + 1, 1int, 0int,
{
    let ghost bs = exprs_view(body@);
    proof {
        lemma_exprs_view(body@);
    }
    if body.len() == 0 {
        return Ok(Expr::Nil);
    }
    let mut i: usize = 0;
    proof {
        assert(bs.subrange(0, bs.len() as int) =~= bs);
    }
    loop
        invariant
            store.wf(),
            ref_ok(store@.frames, env),
            store@.frames.len() == old(store)@.frames.len(),
            bs == exprs_view(body@),
            bs.len() == body@.len(),
            forall|q: int| 0 <= q < body@.len() ==> #[trigger] bs[q] == body@[q]@,
            i < body@.len(),
            eval_body_spec(f as nat, old(store)@, bs, env) == eval_body_spec(
                f as nat,
                store@,
                bs.subrange(i as int, bs.len() as int),
                env,
            ),
        decreases body@.len() - i,
    {
        proof {
            assert(bs.subrange(i as int, bs.len() as int).drop_first() =~= bs.subrange(i + 1, bs.len() as int));
        }
        let x = eval_expr_f(store, &body[i], env, f)?;
        if i == body.len() - 1 {
            return Ok(x);
        }
        i = i + 1;
    }
}

// ---------------------------------------------------------------------------
// The interpreter's entry points
// ---------------------------------------------------------------------------

/// Evaluates an expression in `env` (see `eval_expr_spec`).
pub fn eval_expr(store: &mut Store, expr: &Expr, env: EnvRef) -> (r: Result<Expr, HError>)
    requires
        old(store).wf(),
        ref_ok(old(store)@.frames, env),
    ensures
        final(store).wf(),
        final(store)@.frames.len() == old(store)@.frames.len(),
        (final(store)@, result_view(r)) == eval_expr_spec(MAX_DEPTH as nat, old(store)@, expr@, env),
{
    eval_expr_f(store, expr, env, MAX_DEPTH)
}

/// Evaluates expressions in order; the value of the last, or nil for none.
pub fn eval_exprs(store: &mut Store, exprs: &Vec<Expr>, env: EnvRef) -> (r: Result<Expr, HError>)
    requires
        old(store).wf(),
        ref_ok(old(store)@.frames, env),
    ensures
        final(store).wf(),
        final(store)@.frames.len() == old(store)@.frames.len(),
        (final(store)@, result_view(r)) == eval_body_spec(MAX_DEPTH as nat, old(store)@, exprs_view(exprs@), env),
{
    eval_body_f(store, exprs, env, MAX_DEPTH)
}

/// The values of the arguments, evaluated in order.
pub fn resolve_args(store: &mut Store, args: &Vec<Expr>, env: EnvRef) -> (r: Result<Vec<Expr>, HError>)
    requires
        old(store).wf(),
        ref_ok(old(store)@.frames, env),
    ensures
        final(store).wf(),
        final(store)@.frames.len() == old(store)@.frames.len(),
        (final(store)@, items_result(r)) == eval_items_spec(MAX_DEPTH as nat, old(store)@, exprs_view(args@), env),
{
    eval_items_f(store, args, env, MAX_DEPTH)
}

/// Evaluates a text in `env`: its expressions in order (see `eval_spec`).
pub fn eval(store: &mut Store, input: &str, env: EnvRef) -> (r: Result<Expr, HError>)
    requires
        old(store).wf(),
        ref_ok(old(store)@.frames, env),
        text_fits(input@),
    ensures
        final(store).wf(),
        final(store)@.frames.len() == old(store)@.frames.len(),
        (final(store)@, result_view(r)) == eval_spec(old(store)@, input@, env),
{
    let exprs = parse(input)?;
    eval_exprs(store, &exprs, env)
}

/// The first method named `name`, seen from `env`, whose selector accepts
/// `target` (see `select_spec`).
pub fn get_first_method_matching(store: &mut Store, name: &str, target: &Expr, env: EnvRef) -> (r: Result<
    Option<Method>,
    HError,
>)
    requires
        old(store).wf(),
        ref_ok(old(store)@.frames, env),
    ensures
        final(store).wf(),
        final(store)@.frames.len() == old(store)@.frames.len(),
        (final(store)@, method_result(r)) == select_spec(
            MAX_DEPTH as nat,
            old(store)@,
            env_methods(old(store)@, env, name@),
            0,
            target@,
            env,
        ),
{
    let cands = store.methods_for(env, &owned(name));
    select_f(store, &cands, target, env, MAX_DEPTH)
}

} // verus!
