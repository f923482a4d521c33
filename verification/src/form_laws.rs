use vstd::prelude::*;

use crate::depth_laws::{hits_limit, law_depth_only_bounds};
use crate::env::{
    env_add_method, env_methods, first_var, lemma_first_var_unique, methods_named, var_lookup, EnvRef, StoreView,
};
use crate::modules::{native_vars, special_form_vars};
use crate::error::HErrorView;
use crate::evaluator::{
    apply_spec, apply_value_spec, call_method_spec, call_native_spec, eval_expr_spec, eval_items_spec, resolve_spec,
    select_spec,
};
use crate::expr::{view_eq, Arity, Builtin, ExprView, MethodView, NativeFnView};
use crate::native::{equal_fold, nth, truthy, value_builtin};
use crate::special_forms::{method_args_spec, method_id_spec};

verus! {

// ---------------------------------------------------------------------------
// `if`
// ---------------------------------------------------------------------------

/// The special form `if` of the core module.
pub open spec fn core_if() -> ExprView {
    ExprView::NativeFn(NativeFnView { id: "if"@, arity: Arity::Range(2, 3), function: Builtin::If })
}

/// What `(if c a b)` gives, its parts evaluated `f` deep: the condition first;
/// then only the branch it chooses (`b` absent: nil for a false condition).
pub open spec fn if_outcome(f: nat, st: StoreView, c: ExprView, a: ExprView, b: Option<ExprView>, env: EnvRef) -> (
    StoreView,
    Result<ExprView, HErrorView>,
) {
    let o = eval_expr_spec(f, st, c, env);
    match o.1 {
        Err(x) => (o.0, Err(x)),
        Ok(v) => if truthy(v) {
            eval_expr_spec(f, o.0, a, env)
        } else {
            match b {
                Some(b) => eval_expr_spec(f, o.0, b, env),
                None => (o.0, Ok(ExprView::Nil)),
            }
        },
    }
}

/// `if` evaluates its condition, then the branch that the condition chooses
/// and no other; without an else branch a false condition gives nil; with
/// fewer than two or more than three arguments it is an arity error. The
/// parts are evaluated one level deeper than the form; where the condition
/// does not run out of depth, that is its value on its own.
pub proof fn law_if(fuel: nat, st: StoreView, env: EnvRef, c: ExprView, a: ExprView, b: ExprView, others: Seq<ExprView>)
    requires
        fuel > 0,
        resolve_spec(st, ExprView::Symbol("if"@), env) == Ok::<ExprView, HErrorView>(core_if()),
    ensures
        eval_expr_spec(fuel, st, ExprView::List(seq![ExprView::Symbol("if"@), c, a, b]), env) == if_outcome(
            (fuel - 1) as nat,
            st,
            c,
            a,
            Some(b),
            env,
        ),
        eval_expr_spec(fuel, st, ExprView::List(seq![ExprView::Symbol("if"@), c, a]), env) == if_outcome(
            (fuel - 1) as nat,
            st,
            c,
            a,
            None,
            env,
        ),
        others.len() < 2 || others.len() > 3 ==> eval_expr_spec(
            fuel,
            st,
            ExprView::List(seq![ExprView::Symbol("if"@)] + others),
            env,
        ) == (st, Err::<ExprView, HErrorView>(HErrorView::InvalidArity("if"@, Arity::Range(2, 3)))),
        !hits_limit(eval_expr_spec((fuel - 1) as nat, st, c, env).1) ==> eval_expr_spec(fuel, st, c, env)
            == eval_expr_spec((fuel - 1) as nat, st, c, env),
{
    let l3 = seq![ExprView::Symbol("if"@), c, a, b];
    let l2 = seq![ExprView::Symbol("if"@), c, a];
    let l = seq![ExprView::Symbol("if"@)] + others;
    assert(l3.drop_first() =~= seq![c, a, b]);
    assert(l2.drop_first() =~= seq![c, a]);
    assert(l.drop_first() =~= others);
    assert(l[0] == ExprView::Symbol("if"@));
    let f = (fuel - 1) as nat;
    let nf = NativeFnView { id: "if"@, arity: Arity::Range(2, 3), function: Builtin::If };
    let args3 = seq![c, a, b];
    let args2 = seq![c, a];
    assert(eval_expr_spec(fuel, st, ExprView::List(l3), env) == apply_spec(f, st, core_if(), args3, env));
    assert(apply_spec(f, st, core_if(), args3, env) == call_native_spec(f, st, nf, args3, env));
    assert(nth(args3, 0) == c && nth(args3, 1) == a && nth(args3, 2) == b);
    assert(call_native_spec(f, st, nf, args3, env) == if_outcome(f, st, c, a, Some(b), env));
    assert(eval_expr_spec(fuel, st, ExprView::List(l2), env) == apply_spec(f, st, core_if(), args2, env));
    assert(apply_spec(f, st, core_if(), args2, env) == call_native_spec(f, st, nf, args2, env));
    assert(nth(args2, 0) == c && nth(args2, 1) == a);
    assert(call_native_spec(f, st, nf, args2, env) == if_outcome(f, st, c, a, None, env));
    assert(eval_expr_spec(fuel, st, ExprView::List(l), env) == apply_spec(f, st, core_if(), others, env));
    assert(apply_spec(f, st, core_if(), others, env) == call_native_spec(f, st, nf, others, env));
    if !hits_limit(eval_expr_spec((fuel - 1) as nat, st, c, env).1) {
        law_depth_only_bounds((fuel - 1) as nat, fuel, st, c, env);
    }
}

// ---------------------------------------------------------------------------
// `=` and `!=`
// ---------------------------------------------------------------------------

/// The function `=` of the core module.
pub open spec fn core_eq() -> ExprView {
    ExprView::NativeFn(NativeFnView { id: "="@, arity: Arity::Range(2, usize::MAX), function: Builtin::Eq })
}

/// The function `!=` of the core module.
pub open spec fn core_not_eq() -> ExprView {
    ExprView::NativeFn(NativeFnView { id: "!="@, arity: Arity::Range(2, usize::MAX), function: Builtin::NotEq })
}

/// What comparing `a` and `b` for equality gives, both evaluated `f` deep and
/// in order: whether their values are equal (`negate`: whether they are not).
pub open spec fn equality_outcome(f: nat, st: StoreView, a: ExprView, b: ExprView, env: EnvRef, negate: bool) -> (
    StoreView,
    Result<ExprView, HErrorView>,
) {
    let oa = eval_expr_spec(f, st, a, env);
    match oa.1 {
        Err(x) => (oa.0, Err(x)),
        Ok(va) => {
            let ob = eval_expr_spec(f, oa.0, b, env);
            match ob.1 {
                Err(x) => (ob.0, Err(x)),
                Ok(vb) => (ob.0, Ok(ExprView::Boolean(view_eq(va, vb) != negate))),
            }
        },
    }
}

/// `(= a b)` is whether the values of `a` and `b` are equal, and `(!= a b)`
/// whether they are not; an error of either argument is the result.
pub proof fn law_equality(fuel: nat, st: StoreView, env: EnvRef, a: ExprView, b: ExprView)
    requires
        fuel > 0,
        resolve_spec(st, ExprView::Symbol("="@), env) == Ok::<ExprView, HErrorView>(core_eq()),
        resolve_spec(st, ExprView::Symbol("!="@), env) == Ok::<ExprView, HErrorView>(core_not_eq()),
    ensures
        eval_expr_spec(fuel, st, ExprView::List(seq![ExprView::Symbol("="@), a, b]), env) == equality_outcome(
            (fuel - 1) as nat,
            st,
            a,
            b,
            env,
            false,
        ),
        eval_expr_spec(fuel, st, ExprView::List(seq![ExprView::Symbol("!="@), a, b]), env) == equality_outcome(
            (fuel - 1) as nat,
            st,
            a,
            b,
            env,
            true,
        ),
{
    let f = (fuel - 1) as nat;
    let le = seq![ExprView::Symbol("="@), a, b];
    let ln = seq![ExprView::Symbol("!="@), a, b];
    assert(le.drop_first() =~= seq![a, b]);
    assert(ln.drop_first() =~= seq![a, b]);
    assert(le[0] == ExprView::Symbol("="@));
    assert(ln[0] == ExprView::Symbol("!="@));
    let args = seq![a, b];
    assert(args.drop_first() =~= seq![b]);
    assert(seq![b].drop_first() =~= Seq::<ExprView>::empty());
    let nq = NativeFnView { id: "="@, arity: Arity::Range(2, usize::MAX), function: Builtin::Eq };
    let nn = NativeFnView { id: "!="@, arity: Arity::Range(2, usize::MAX), function: Builtin::NotEq };
    assert(eval_expr_spec(fuel, st, ExprView::List(le), env) == apply_spec(f, st, core_eq(), args, env));
    assert(apply_spec(f, st, core_eq(), args, env) == call_native_spec(f, st, nq, args, env));
    assert(eval_expr_spec(fuel, st, ExprView::List(ln), env) == apply_spec(f, st, core_not_eq(), args, env));
    assert(apply_spec(f, st, core_not_eq(), args, env) == call_native_spec(f, st, nn, args, env));
    let oa = eval_expr_spec(f, st, a, env);
    if let Ok(va) = oa.1 {
        let ob = eval_expr_spec(f, oa.0, b, env);
        if let Ok(vb) = ob.1 {
            let vals = seq![va] + (seq![vb] + Seq::<ExprView>::empty());
            assert(vals =~= seq![va, vb]);
            assert(vals.drop_first() =~= seq![vb]);
            assert(seq![vb].drop_first() =~= Seq::<ExprView>::empty());
            assert(eval_items_spec(f, ob.0, Seq::<ExprView>::empty(), env) == (
                ob.0,
                Ok::<Seq<ExprView>, HErrorView>(Seq::empty()),
            ));
            assert(eval_items_spec(f, oa.0, seq![b], env) == (
                ob.0,
                Ok::<Seq<ExprView>, HErrorView>(seq![vb] + Seq::<ExprView>::empty()),
            ));
            assert(eval_items_spec(f, st, args, env) == (ob.0, Ok::<Seq<ExprView>, HErrorView>(vals)));
            reveal_with_fuel(equal_fold, 2);
            assert(equal_fold(false, va, seq![vb]) == view_eq(va, vb));
            assert(equal_fold(true, va, seq![vb]) == !view_eq(va, vb));
            assert(value_builtin(Builtin::Eq, "="@, vals) == Ok::<ExprView, HErrorView>(
                ExprView::Boolean(view_eq(va, vb)),
            ));
        } else {
            assert(eval_items_spec(f, st, args, env) == (ob.0, Err::<Seq<ExprView>, HErrorView>(ob.1->Err_0)));
        }
    } else {
        assert(eval_items_spec(f, st, args, env) == (oa.0, Err::<Seq<ExprView>, HErrorView>(oa.1->Err_0)));
    }
}

/// In an environment whose frame holds the core module, `if`, `=` and `!=`
/// name the core module's functions.
pub proof fn law_core_names(st: StoreView, env: EnvRef)
    requires
        env.frame matches Some(i) && i < st.frames.len() && st.frames[i as int].vars == special_form_vars()
            + native_vars(),
    ensures
        resolve_spec(st, ExprView::Symbol("if"@), env) == Ok::<ExprView, HErrorView>(core_if()),
        resolve_spec(st, ExprView::Symbol("="@), env) == Ok::<ExprView, HErrorView>(core_eq()),
        resolve_spec(st, ExprView::Symbol("!="@), env) == Ok::<ExprView, HErrorView>(core_not_eq()),
{
    let i = env.frame->Some_0;
    let vars = st.frames[i as int].vars;
    reveal_strlit("var");
    reveal_strlit("def");
    reveal_strlit("if");
    reveal_strlit("set!");
    reveal_strlit("fn");
    reveal_strlit("defn");
    reveal_strlit("defm");
    reveal_strlit("+");
    reveal_strlit("-");
    reveal_strlit("*");
    reveal_strlit("/");
    reveal_strlit("lt");
    reveal_strlit("lte");
    reveal_strlit("gt");
    reveal_strlit("gte");
    reveal_strlit("=");
    reveal_strlit("!=");
    let nv = native_vars();
    assert(special_form_vars().len() == 7);
    assert(vars[0] == special_form_vars()[0] && vars[0].0 == "var"@);
    assert(vars[1] == special_form_vars()[1] && vars[1].0 == "def"@);
    assert(vars[2] == special_form_vars()[2] && vars[2].0 == "if"@);
    assert(vars[3] == special_form_vars()[3] && vars[3].0 == "set!"@);
    assert(vars[4] == special_form_vars()[4] && vars[4].0 == "fn"@);
    assert(vars[5] == special_form_vars()[5] && vars[5].0 == "defn"@);
    assert(vars[6] == special_form_vars()[6] && vars[6].0 == "defm"@);
    assert(vars[7] == nv[0] && vars[7].0 == "+"@);
    assert(vars[8] == nv[1] && vars[8].0 == "-"@);
    assert(vars[9] == nv[2] && vars[9].0 == "*"@);
    assert(vars[10] == nv[3] && vars[10].0 == "/"@);
    assert(vars[11] == nv[4] && vars[11].0 == "lt"@);
    assert(vars[12] == nv[5] && vars[12].0 == "lte"@);
    assert(vars[13] == nv[6] && vars[13].0 == "gt"@);
    assert(vars[14] == nv[7] && vars[14].0 == "gte"@);
    assert(vars[15] == nv[8] && vars[15].0 == "="@);
    assert(vars[16] == nv[9] && vars[16].0 == "!="@);
    assert(vars[0].0.len() != "="@.len());
    assert(vars[1].0.len() != "="@.len());
    assert(vars[2].0.len() != "="@.len());
    assert(vars[3].0.len() != "="@.len());
    assert(vars[4].0.len() != "="@.len());
    assert(vars[5].0.len() != "="@.len());
    assert(vars[6].0.len() != "="@.len());
    assert(vars[7].0[0] != "="@[0]);
    assert(vars[8].0[0] != "="@[0]);
    assert(vars[9].0[0] != "="@[0]);
    assert(vars[10].0[0] != "="@[0]);
    assert(vars[11].0.len() != "="@.len());
    assert(vars[12].0.len() != "="@.len());
    assert(vars[13].0.len() != "="@.len());
    assert(vars[14].0.len() != "="@.len());
    assert(vars[0].0.len() != "!="@.len());
    assert(vars[1].0.len() != "!="@.len());
    assert(vars[2].0[0] != "!="@[0]);
    assert(vars[3].0.len() != "!="@.len());
    assert(vars[4].0[0] != "!="@[0]);
    assert(vars[5].0.len() != "!="@.len());
    assert(vars[6].0.len() != "!="@.len());
    assert(vars[7].0.len() != "!="@.len());
    assert(vars[8].0.len() != "!="@.len());
    assert(vars[9].0.len() != "!="@.len());
    assert(vars[10].0.len() != "!="@.len());
    assert(vars[11].0[0] != "!="@[0]);
    assert(vars[12].0.len() != "!="@.len());
    assert(vars[13].0[0] != "!="@[0]);
    assert(vars[14].0.len() != "!="@.len());
    assert(vars[15].0.len() != "!="@.len());
    assert forall|j: int| 0 <= j < 15 implies #[trigger] vars[j].0 != "="@ by {
        if j == 0 {} else if j == 1 {} else if j == 2 {} else if j == 3 {} else if j == 4 {} else if j == 5 {} else if j == 6 {} else if j == 7 {} else if j == 8 {} else if j == 9 {} else if j == 10 {} else if j == 11 {} else if j == 12 {} else if j == 13 {} else if j == 14 {}
    }
    assert forall|j: int| 0 <= j < 16 implies #[trigger] vars[j].0 != "!="@ by {
        if j == 0 {} else if j == 1 {} else if j == 2 {} else if j == 3 {} else if j == 4 {} else if j == 5 {} else if j == 6 {} else if j == 7 {} else if j == 8 {} else if j == 9 {} else if j == 10 {} else if j == 11 {} else if j == 12 {} else if j == 13 {} else if j == 14 {} else if j == 15 {}
    }
    assert(first_var(vars, "if"@, 2));
    assert(first_var(vars, "="@, 15));
    assert(first_var(vars, "!="@, 16));
    let a = choose|k: int| first_var(vars, "if"@, k);
    lemma_first_var_unique(vars, "if"@, a, 2);
    let b = choose|k: int| first_var(vars, "="@, k);
    lemma_first_var_unique(vars, "="@, b, 15);
    let c = choose|k: int| first_var(vars, "!="@, k);
    lemma_first_var_unique(vars, "!="@, c, 16);
    assert(var_lookup(vars, "if"@) == Some(core_if()));
    assert(var_lookup(vars, "="@) == Some(core_eq()));
    assert(var_lookup(vars, "!="@) == Some(core_not_eq()));
}

// ---------------------------------------------------------------------------
// Method dispatch
// ---------------------------------------------------------------------------

/// What the method expression `<r parts...>` gives, evaluated `f` deep: the
/// receiver is evaluated once; the methods of the name that the parts spell,
/// in the order they were defined, are tried; the first whose selector accepts
/// the receiver's value is called with `this` bound to it and its parameters to
/// the evaluated arguments; with none, the method is unbound.
pub open spec fn dispatch_outcome(f: nat, st: StoreView, l: Seq<ExprView>, env: EnvRef) -> (
    StoreView,
    Result<ExprView, HErrorView>,
) {
    let o = eval_expr_spec(f, st, l[0], env);
    match o.1 {
        Err(x) => (o.0, Err(x)),
        Ok(v) => {
            let name = method_id_spec(l.drop_first());
            let s = select_spec(f, o.0, env_methods(o.0, env, name), 0, v, env);
            match s.1 {
                Err(x) => (s.0, Err(x)),
                Ok(None) => (s.0, Err(HErrorView::UnboundMethod(name))),
                Ok(Some(m)) => call_method_spec(f, s.0, m, v, method_args_spec(l.drop_first()), env),
            }
        },
    }
}

/// A method expression dispatches as `dispatch_outcome` says.
pub proof fn law_method_dispatch(fuel: nat, st: StoreView, l: Seq<ExprView>, env: EnvRef)
    requires
        fuel > 0,
        l.len() > 0,
    ensures
        eval_expr_spec(fuel, st, ExprView::MethodList(l), env) == dispatch_outcome((fuel - 1) as nat, st, l, env),
{
}

/// Selectors are tried in order, each with the receiver's value as it is: a
/// selector that gives a true value picks its method and no later selector is
/// called; one that gives a false value passes on to the next; an error stops
/// the search; after the last, no method is found. A method found is one of the
/// candidates at or after the start.
pub proof fn law_selectors_in_order(
    f: nat,
    st: StoreView,
    cands: Seq<MethodView>,
    k: int,
    target: ExprView,
    env: EnvRef,
)
    requires
        0 <= k,
    ensures
        k >= cands.len() ==> select_spec(f, st, cands, k, target, env) == (
            st,
            Ok::<Option<MethodView>, HErrorView>(None),
        ),
        k < cands.len() && f > 0 ==> select_spec(f, st, cands, k, target, env) == ({
            let o = apply_value_spec((f - 1) as nat, st, *cands[k].selector, target, env);
            match o.1 {
                Err(x) => (o.0, Err(x)),
                Ok(v) => if truthy(v) {
                    (o.0, Ok(Some(cands[k])))
                } else {
                    select_spec(f, o.0, cands, k + 1, target, env)
                },
            }
        }),
        select_spec(f, st, cands, k, target, env).1 matches Ok(Some(m)) ==> exists|j: int|
            k <= j < cands.len() && #[trigger] cands[j] == m,
    decreases cands.len() - k,
{
    if k < cands.len() && f > 0 {
        let o = apply_value_spec((f - 1) as nat, st, *cands[k].selector, target, env);
        if let Ok(v) = o.1 {
            if !truthy(v) {
                law_selectors_in_order(f, o.0, cands, k + 1, target, env);
            }
        }
    }
}

/// `defm` adds a method after those of its name that the frame already has,
/// so methods are tried in the order they were defined.
pub proof fn law_defm_appends(st: StoreView, env: EnvRef, m: MethodView)
    ensures
        env_add_method(st, env, m) matches Ok(st2) ==> env.frame matches Some(i) && methods_named(
            st2.frames[i as int].methods,
            m.id,
        ) == methods_named(st.frames[i as int].methods, m.id).push(m),
{
    if let Ok(st2) = env_add_method(st, env, m) {
        let i = env.frame->Some_0;
        let ms = st.frames[i as int].methods;
        assert(st2.frames[i as int].methods.drop_last() =~= ms);
        assert(methods_named(ms, m.id) + seq![m] =~= methods_named(ms, m.id).push(m));
    }
}

} // verus!
