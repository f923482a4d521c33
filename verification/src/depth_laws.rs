use vstd::prelude::*;

use crate::env::{env_methods, frame_define, EnvRef, FrameView, StoreView};
use crate::error::HErrorView;
use crate::evaluator::{
    apply_spec, apply_value_spec, bind_spec, call_fn_spec, call_method_spec, call_native_spec, call_frame, eval_body_spec,
    eval_entries_spec, eval_expr_spec, eval_items_spec, invoke_spec, method_list_spec, resolve_spec, select_spec,
};
use crate::expr::{ExprView, FnView, MethodView, NativeFnView};
use crate::native::{nth, truthy};
use crate::special_forms::{method_args_spec, method_id_spec};

verus! {

// ---------------------------------------------------------------------------
// The depth bound only bounds
// ---------------------------------------------------------------------------

/// Whether an outcome is the error of running out of depth.
pub open spec fn hits_limit<T>(r: Result<T, HErrorView>) -> bool {
    r matches Err(HErrorView::RecursionLimit)
}

proof fn lemma_apply_depth(f: nat, g: nat, st: StoreView, fv: ExprView, args: Seq<ExprView>, env: EnvRef)
    requires
        f <= g,
    ensures
        !hits_limit(apply_spec(f, st, fv, args, env).1) ==> apply_spec(g, st, fv, args, env) == apply_spec(
            f,
            st,
            fv,
            args,
            env,
        ),
    decreases f + 1, 9int, 0int,
{
    match fv {
        ExprView::NativeFn(nf) => lemma_native_depth(f, g, st, nf, args, env),
        ExprView::Fn(x) => lemma_fn_depth(f, g, st, x, args, env),
        _ => {},
    }
}

proof fn lemma_apply_value_depth(f: nat, g: nat, st: StoreView, fv: ExprView, v: ExprView, env: EnvRef)
    requires
        f <= g,
    ensures
        !hits_limit(apply_value_spec(f, st, fv, v, env).1) ==> apply_value_spec(g, st, fv, v, env)
            == apply_value_spec(f, st, fv, v, env),
    decreases f + 1, 9int, 0int,
{
    match fv {
        ExprView::NativeFn(nf) => lemma_native_depth(f, g, st, nf, seq![v], env),
        ExprView::Fn(x) => lemma_invoke_depth(f, g, st, x.args, x.function, seq![v], env, call_frame(env), true),
        _ => {},
    }
}

proof fn lemma_method_list_depth(f: nat, g: nat, st: StoreView, l: Seq<ExprView>, env: EnvRef)
    requires
        f <= g,
    ensures
        !hits_limit(method_list_spec(f, st, l, env).1) ==> method_list_spec(g, st, l, env) == method_list_spec(
            f,
            st,
            l,
            env,
        ),
    decreases f + 1, 8int, 0int,
{
    if l.len() > 0 {
        lemma_expr_depth(f, g, st, l[0], env);
        let o = eval_expr_spec(f, st, l[0], env);
        if let Ok(target) = o.1 {
            let rest = l.drop_first();
            let name = method_id_spec(rest);
            lemma_select_depth(f, g, o.0, env_methods(o.0, env, name), 0, target, env);
            let s = select_spec(f, o.0, env_methods(o.0, env, name), 0, target, env);
            if let Ok(Some(m)) = s.1 {
                lemma_method_depth(f, g, s.0, m, target, method_args_spec(rest), env);
            }
        }
    }
}

proof fn lemma_native_depth(f: nat, g: nat, st: StoreView, nf: NativeFnView, args: Seq<ExprView>, env: EnvRef)
    requires
        f <= g,
    ensures
        !hits_limit(call_native_spec(f, st, nf, args, env).1) ==> call_native_spec(g, st, nf, args, env)
            == call_native_spec(f, st, nf, args, env),
    decreases f + 1, 7int, 0int,
{
    lemma_expr_depth(f, g, st, nth(args, 0), env);
    lemma_expr_depth(f, g, st, nth(args, 1), env);
    lemma_items_depth(f, g, st, args, env);
    let o = eval_expr_spec(f, st, nth(args, 0), env);
    lemma_expr_depth(f, g, o.0, nth(args, 1), env);
    lemma_expr_depth(f, g, o.0, nth(args, 2), env);
}

proof fn lemma_fn_depth(f: nat, g: nat, st: StoreView, x: FnView, args: Seq<ExprView>, env: EnvRef)
    requires
        f <= g,
    ensures
        !hits_limit(call_fn_spec(f, st, x, args, env).1) ==> call_fn_spec(g, st, x, args, env) == call_fn_spec(
            f,
            st,
            x,
            args,
            env,
        ),
    decreases f + 1, 6int, 0int,
{
    lemma_invoke_depth(f, g, st, x.args, x.function, args, env, call_frame(env), false);
}

proof fn lemma_select_depth(
    f: nat,
    g: nat,
    st: StoreView,
    cands: Seq<MethodView>,
    k: int,
    target: ExprView,
    env: EnvRef,
)
    requires
        f <= g,
    ensures
        !hits_limit(select_spec(f, st, cands, k, target, env).1) ==> select_spec(g, st, cands, k, target, env)
            == select_spec(f, st, cands, k, target, env),
    decreases f + 1, 5int, cands.len() - k,
{
    if 0 <= k < cands.len() && f > 0 {
        lemma_apply_value_depth((f - 1) as nat, (g - 1) as nat, st, *cands[k].selector, target, env);
        let o = apply_value_spec((f - 1) as nat, st, *cands[k].selector, target, env);
        lemma_select_depth(f, g, o.0, cands, k + 1, target, env);
    }
}

proof fn lemma_method_depth(
    f: nat,
    g: nat,
    st: StoreView,
    m: MethodView,
    target: ExprView,
    margs: Seq<ExprView>,
    env: EnvRef,
)
    requires
        f <= g,
    ensures
        !hits_limit(call_method_spec(f, st, m, target, margs, env).1) ==> call_method_spec(
            g,
            st,
            m,
            target,
            margs,
            env,
        ) == call_method_spec(f, st, m, target, margs, env),
    decreases f + 1, 4int, 0int,
{
    lemma_invoke_depth(f, g, st, m.args, m.function, margs, env, frame_define(call_frame(env), "this"@, target), false);
}

proof fn lemma_invoke_depth(
    f: nat,
    g: nat,
    st: StoreView,
    params: Seq<ExprView>,
    body: Seq<ExprView>,
    args: Seq<ExprView>,
    env: EnvRef,
    frame0: FrameView,
    evaluated: bool,
)
    requires
        f <= g,
    ensures
        !hits_limit(invoke_spec(f, st, params, body, args, env, frame0, evaluated).1) ==> invoke_spec(
            g,
            st,
            params,
            body,
            args,
            env,
            frame0,
            evaluated,
        ) == invoke_spec(f, st, params, body, args, env, frame0, evaluated),
    decreases f + 1, 3int, 0int,
{
    lemma_bind_depth(f, g, st, params, args, env, 0, frame0, evaluated);
    let b = bind_spec(f, st, params, args, env, 0, frame0, evaluated);
    if let Ok(frame) = b.1 {
        let n = b.0.frames.len();
        lemma_body_depth(
            f,
            g,
            StoreView { frames: b.0.frames.push(frame), ..b.0 },
            body,
            EnvRef { frame: Some(n as usize) },
        );
    }
}

proof fn lemma_bind_depth(
    f: nat,
    g: nat,
    st: StoreView,
    params: Seq<ExprView>,
    args: Seq<ExprView>,
    env: EnvRef,
    i: int,
    frame: FrameView,
    evaluated: bool,
)
    requires
        f <= g,
    ensures
        !hits_limit(bind_spec(f, st, params, args, env, i, frame, evaluated).1) ==> bind_spec(
            g,
            st,
            params,
            args,
            env,
            i,
            frame,
            evaluated,
        ) == bind_spec(f, st, params, args, env, i, frame, evaluated),
    decreases f + 1, 2int, params.len() - i,
{
    if 0 <= i < params.len() && i < args.len() {
        if let ExprView::Symbol(name) = params[i] {
            lemma_expr_depth(f, g, st, args[i], env);
            let o = if evaluated {
                (st, Ok(args[i]))
            } else {
                eval_expr_spec(f, st, args[i], env)
            };
            if let Ok(v) = o.1 {
                lemma_bind_depth(f, g, o.0, params, args, env, i + 1, frame_define(frame, name, v), evaluated);
            }
        }
    }
}

proof fn lemma_items_depth(f: nat, g: nat, st: StoreView, v: Seq<ExprView>, env: EnvRef)
    requires
        f <= g,
    ensures
        !hits_limit(eval_items_spec(f, st, v, env).1) ==> eval_items_spec(g, st, v, env) == eval_items_spec(
            f,
            st,
            v,
            env,
        ),
    decreases f + 1, 1int, v.len(),
{
    if v.len() > 0 {
        lemma_expr_depth(f, g, st, v[0], env);
        let o = eval_expr_spec(f, st, v[0], env);
        lemma_items_depth(f, g, o.0, v.drop_first(), env);
    }
}

proof fn lemma_entries_depth(f: nat, g: nat, st: StoreView, m: Seq<(ExprView, ExprView)>, env: EnvRef)
    requires
        f <= g,
    ensures
        !hits_limit(eval_entries_spec(f, st, m, env).1) ==> eval_entries_spec(g, st, m, env) == eval_entries_spec(
            f,
            st,
            m,
            env,
        ),
    decreases f + 1, 1int, m.len(),
{
    if m.len() > 0 {
        lemma_expr_depth(f, g, st, m[0].0, env);
        let k = eval_expr_spec(f, st, m[0].0, env);
        lemma_expr_depth(f, g, k.0, m[0].1, env);
        let v = eval_expr_spec(f, k.0, m[0].1, env);
        lemma_entries_depth(f, g, v.0, m.drop_first(), env);
    }
}

proof fn lemma_body_depth(f: nat, g: nat, st: StoreView, body: Seq<ExprView>, env: EnvRef)
    requires
        f <= g,
    ensures
        !hits_limit(eval_body_spec(f, st, body, env).1) ==> eval_body_spec(g, st, body, env) == eval_body_spec(
            f,
            st,
            body,
            env,
        ),
    decreases f + 1, 1int, body.len(),
{
    if body.len() > 0 {
        lemma_expr_depth(f, g, st, body[0], env);
        let o = eval_expr_spec(f, st, body[0], env);
        lemma_body_depth(f, g, o.0, body.drop_first(), env);
    }
}

proof fn lemma_expr_depth(fuel: nat, g: nat, st: StoreView, e: ExprView, env: EnvRef)
    requires
        fuel <= g,
    ensures
        !hits_limit(eval_expr_spec(fuel, st, e, env).1) ==> eval_expr_spec(g, st, e, env) == eval_expr_spec(
            fuel,
            st,
            e,
            env,
        ),
    decreases fuel, 10int, 0int,
{
    if fuel > 0 {
        let f = (fuel - 1) as nat;
        let h = (g - 1) as nat;
        match e {
            ExprView::List(l) => if l.len() > 0 {
                if let Ok(fv) = resolve_spec(st, l[0], env) {
                    lemma_apply_depth(f, h, st, fv, l.drop_first(), env);
                }
            },
            ExprView::MethodList(l) => lemma_method_list_depth(f, h, st, l, env),
            ExprView::Vector(v) => lemma_items_depth(f, h, st, v, env),
            ExprView::HMap(m) => lemma_entries_depth(f, h, st, m, env),
            _ => {},
        }
    }
}

/// The depth bound only bounds: an evaluation that does not run out of depth
/// gives the same store and result with any larger bound. So the bound never
/// changes what an expression evaluates to; it can only stop an evaluation
/// that nests deeper than it.
pub proof fn law_depth_only_bounds(fuel: nat, g: nat, st: StoreView, e: ExprView, env: EnvRef)
    requires
        fuel <= g,
        !hits_limit(eval_expr_spec(fuel, st, e, env).1),
    ensures
        eval_expr_spec(g, st, e, env) == eval_expr_spec(fuel, st, e, env),
{
    lemma_expr_depth(fuel, g, st, e, env);
}

} // verus!
