use vstd::prelude::*;

use crate::env::{
    chain_lookup, chain_set, env_define, env_lookup, env_set, first_var, frame_define, lemma_first_var_unique,
    lemma_set_frame, ref_ok, set_frame, var_define, var_lookup, EnvRef, FrameView, StoreView,
};
use crate::error::HErrorView;
use crate::evaluator::{
    apply_spec, apply_value_spec, bind_spec, call_fn_spec, call_method_spec, call_native_spec, eval_body_spec, eval_entries_spec,
    eval_expr_spec, eval_items_spec, invoke_spec, method_list_spec, resolve_spec, rest_from, select_spec,
};
use crate::env::env_add_method;
use crate::expr::{MethodView, NativeFnView, FnView};
use crate::native::{nth, truthy};
use crate::special_forms::method_args_spec;
use crate::env::env_methods;
use crate::scanner::{lemma_scan_step_progress, scan_from, scan_spec, scan_step, TokenTypeView, TokenView};
use crate::special_forms::method_id_spec;
use crate::expr::{
    entries_eq, first_key, items_eq, lemma_entries_eq, lemma_first_key_unique,
    lemma_items_eq, map_insert, map_lookup, view_eq, ExprView,
};
use crate::order::{expr_order, lemma_equal_order_zero, lemma_expr_order_refl, lemma_order_zero_equal};

verus! {

// ---------------------------------------------------------------------------
// Variables of one frame
// ---------------------------------------------------------------------------

/// A variable named `key` at `i` means a first one exists.
proof fn lemma_first_var_exists(vars: Seq<(Seq<char>, ExprView)>, key: Seq<char>, i: int)
    requires
        0 <= i < vars.len(),
        vars[i].0 == key,
    ensures
        exists|j: int| first_var(vars, key, j),
    decreases i,
{
    if forall|j: int| 0 <= j < i ==> #[trigger] vars[j].0 != key {
        assert(first_var(vars, key, i));
    } else {
        let j = choose|j: int| 0 <= j < i && #[trigger] vars[j].0 == key;
        lemma_first_var_exists(vars, key, j);
    }
}

/// After defining `key` as `v`, the frame's variable `key` is `v`, and every
/// other variable is what it was.
proof fn lemma_var_define(vars: Seq<(Seq<char>, ExprView)>, key: Seq<char>, v: ExprView, other: Seq<char>)
    ensures
        var_lookup(var_define(vars, key, v), key) == Some(v),
        other != key ==> var_lookup(var_define(vars, key, v), other) == var_lookup(vars, other),
{
    let d = var_define(vars, key, v);
    if exists|i: int| first_var(vars, key, i) {
        let i = choose|i: int| first_var(vars, key, i);
        assert(d == vars.update(i, (key, v)));
        assert(first_var(d, key, i));
        let c = choose|j: int| first_var(d, key, j);
        lemma_first_var_unique(d, key, i, c);
        if other != key {
            if exists|j: int| first_var(vars, other, j) {
                let j = choose|j: int| first_var(vars, other, j);
                assert(first_var(d, other, j));
                let c2 = choose|q: int| first_var(d, other, q);
                lemma_first_var_unique(d, other, j, c2);
            } else if exists|j: int| first_var(d, other, j) {
                let j = choose|j: int| first_var(d, other, j);
                assert(vars[j].0 == other);
                lemma_first_var_exists(vars, other, j);
            }
        }
    } else {
        assert(d == vars.push((key, v)));
        assert forall|j: int| 0 <= j < vars.len() implies #[trigger] d[j].0 != key by {
            if vars[j].0 == key {
                lemma_first_var_exists(vars, key, j);
            }
        }
        assert(first_var(d, key, vars.len() as int));
        let c = choose|j: int| first_var(d, key, j);
        lemma_first_var_unique(d, key, vars.len() as int, c);
        if other != key {
            if exists|j: int| first_var(vars, other, j) {
                let j = choose|j: int| first_var(vars, other, j);
                assert(first_var(d, other, j));
                let c2 = choose|q: int| first_var(d, other, q);
                lemma_first_var_unique(d, other, j, c2);
            } else if exists|j: int| first_var(d, other, j) {
                let j = choose|j: int| first_var(d, other, j);
                assert(vars[j].0 == other);
                lemma_first_var_exists(vars, other, j);
            }
        }
    }
}

// ---------------------------------------------------------------------------
// Variables along a chain of frames
// ---------------------------------------------------------------------------

/// Changing only the variable `key` of frame `f` changes no other variable
/// seen from any frame.
proof fn lemma_chain_lookup_other(frames: Seq<FrameView>, f: int, key: Seq<char>, v: ExprView, i: int, other: Seq<char>)
    requires
        0 <= f < frames.len(),
        other != key,
    ensures
        chain_lookup(frames.update(f, frame_define(frames[f], key, v)), i, other) == chain_lookup(frames, i, other),
    decreases i,
{
    let g = frames.update(f, frame_define(frames[f], key, v));
    if 0 <= i < frames.len() {
        lemma_var_define(frames[f].vars, key, v, other);
        assert(var_lookup(g[i].vars, other) == var_lookup(frames[i].vars, other));
        assert(g[i].enclosing == frames[i].enclosing);
        match frames[i].enclosing {
            Some(j) => if j < i {
                lemma_chain_lookup_other(frames, f, key, v, j as int, other);
            },
            None => {},
        }
    }
}

/// Setting from frame `i`: the variable is found, from `i`, in the frame that
/// `set_frame` picks, with the value that setting returns as the old one; and
/// after setting, it is found with the new value.
proof fn lemma_chain_set(frames: Seq<FrameView>, i: int, key: Seq<char>, v: ExprView)
    requires
        set_frame(frames, i, key) is Some,
    ensures
        ({
            let f = set_frame(frames, i, key)->0;
            &&& chain_lookup(frames, i, key) == Ok::<ExprView, HErrorView>(var_lookup(frames[f].vars, key)->0)
            &&& chain_lookup(frames.update(f, frame_define(frames[f], key, v)), i, key) == Ok::<
                ExprView,
                HErrorView,
            >(v)
        }),
    decreases i,
{
    lemma_set_frame(frames, i, key);
    let f = set_frame(frames, i, key)->0;
    let g = frames.update(f, frame_define(frames[f], key, v));
    lemma_var_define(frames[f].vars, key, v, key);
    if var_lookup(frames[i].vars, key) is None {
        let j = frames[i].enclosing->0;
        lemma_chain_set(frames, j as int, key, v);
        lemma_set_frame(frames, j as int, key);
        assert(f != i);
        assert(g[i] == frames[i]);
    }
}

/// From frame `i`, setting fails exactly when the variable is unbound.
proof fn lemma_set_frame_none(frames: Seq<FrameView>, i: int, key: Seq<char>)
    requires
        0 <= i < frames.len(),
    ensures
        set_frame(frames, i, key) is None <==> chain_lookup(frames, i, key) == Err::<ExprView, HErrorView>(
            HErrorView::UnboundVar(key),
        ),
        chain_lookup(frames, i, key) is Err ==> chain_lookup(frames, i, key) == Err::<ExprView, HErrorView>(
            HErrorView::UnboundVar(key),
        ),
    decreases i,
{
    if var_lookup(frames[i].vars, key) is None {
        match frames[i].enclosing {
            Some(j) => if j < i {
                lemma_set_frame_none(frames, j as int, key);
            },
            None => {},
        }
    }
}

/// Defining `key` as `v` in an environment's frame: `key` then has the value
/// `v` there, and every other variable, seen from any environment, keeps its value.
pub proof fn law_define_then_get(st: StoreView, env: EnvRef, key: Seq<char>, v: ExprView, other_env: EnvRef, other: Seq<char>)
    requires
        ref_ok(st.frames, env),
        env.frame is Some,
    ensures
        env_define(st, env, key, v) matches Ok(st2) && env_lookup(st2, env, key) == Ok::<ExprView, HErrorView>(v),
        other != key ==> (env_define(st, env, key, v) matches Ok(st2) && env_lookup(st2, other_env, other)
            == env_lookup(st, other_env, other)),
{
    let i = env.frame->0 as int;
    let st2 = env_define(st, env, key, v)->Ok_0;
    lemma_var_define(st.frames[i].vars, key, v, other);
    lemma_var_define(st.frames[i].vars, key, v, key);
    if other != key {
        match other_env.frame {
            Some(m) => {
                lemma_chain_lookup_other(st.frames, i, key, v, m as int, other);
            },
            None => {},
        }
    }
}

/// Frames below `f` see nothing of a change to frame `f`.
proof fn lemma_chain_lookup_below(frames: Seq<FrameView>, f: int, g: FrameView, m: int, key: Seq<char>)
    requires
        0 <= f < frames.len(),
        m < f,
    ensures
        chain_lookup(frames.update(f, g), m, key) == chain_lookup(frames, m, key),
    decreases m,
{
    if 0 <= m < frames.len() {
        match frames[m].enclosing {
            Some(j) => if j < m {
                lemma_chain_lookup_below(frames, f, g, j as int, key);
            },
            None => {},
        }
    }
}

/// Defining a variable in a frame shadows it for that frame only: an
/// environment stored before it sees the variable as before.
pub proof fn law_define_shadows(st: StoreView, env: EnvRef, key: Seq<char>, v: ExprView, outer: EnvRef)
    requires
        ref_ok(st.frames, env),
        env.frame is Some,
        outer.frame matches Some(m) && m < env.frame->0,
    ensures
        env_define(st, env, key, v) matches Ok(st2) && env_lookup(st2, outer, key) == env_lookup(st, outer, key),
{
    let i = env.frame->0 as int;
    let m = outer.frame->0 as int;
    lemma_chain_lookup_below(st.frames, i, frame_define(st.frames[i], key, v), m, key);
}

/// Setting a variable (`set!`) gives back the value it had and leaves it with
/// the new one, seen from the same environment; it fails, with
/// `SetUninitializedVar`, exactly when the variable is unbound there.
pub proof fn law_set_then_get(st: StoreView, env: EnvRef, key: Seq<char>, v: ExprView)
    requires
        ref_ok(st.frames, env),
        env.frame is Some,
    ensures
        match env_set(st, env, key, v) {
            Ok((st2, old)) => env_lookup(st, env, key) == Ok::<ExprView, HErrorView>(old) && env_lookup(st2, env, key)
                == Ok::<ExprView, HErrorView>(v),
            Err(e) => e == HErrorView::SetUninitializedVar(key) && env_lookup(st, env, key) == Err::<
                ExprView,
                HErrorView,
            >(HErrorView::UnboundVar(key)),
        },
{
    let i = env.frame->0 as int;
    lemma_set_frame_none(st.frames, i, key);
    if set_frame(st.frames, i, key) is Some {
        lemma_chain_set(st.frames, i, key, v);
    }
}

/// Setting a variable changes no other variable, seen from any environment.
pub proof fn law_set_keeps_others(st: StoreView, env: EnvRef, key: Seq<char>, v: ExprView, other_env: EnvRef, other: Seq<char>)
    requires
        ref_ok(st.frames, env),
        other != key,
    ensures
        env_set(st, env, key, v) matches Ok((st2, old)) ==> env_lookup(st2, other_env, other) == env_lookup(
            st,
            other_env,
            other,
        ),
{
    match env.frame {
        Some(i) => {
            if set_frame(st.frames, i as int, key) is Some {
                lemma_set_frame(st.frames, i as int, key);
                let f = set_frame(st.frames, i as int, key)->0;
                match other_env.frame {
                    Some(m) => {
                        lemma_chain_lookup_other(st.frames, f, key, v, m as int, other);
                    },
                    None => {},
                }
            }
        },
        None => {},
    }
}

// ---------------------------------------------------------------------------
// Equality and maps
// ---------------------------------------------------------------------------

/// Every value is equal to itself: equality is by value.
pub proof fn law_equal_reflexive(e: ExprView)
    ensures
        view_eq(e, e),
    decreases e,
{
    match e {
        ExprView::List(x) => {
            lemma_items_reflexive(e, x);
        },
        ExprView::MethodList(x) => {
            lemma_items_reflexive(e, x);
        },
        ExprView::Vector(x) => {
            lemma_items_reflexive(e, x);
        },
        ExprView::HMap(m) => {
            assert forall|i: int| 0 <= i < m.len() implies view_eq(#[trigger] m[i].0, m[i].0) && view_eq(
                m[i].1,
                m[i].1,
            ) by {
                assert(decreases_to!(e => m[i].0));
                assert(decreases_to!(e => m[i].1));
                law_equal_reflexive(m[i].0);
                law_equal_reflexive(m[i].1);
            }
            lemma_entries_eq(m, m);
        },
        _ => {},
    }
}

proof fn lemma_items_reflexive(e: ExprView, x: Seq<ExprView>)
    requires
        forall|i: int| 0 <= i < x.len() ==> decreases_to!(e => #[trigger] x[i]),
    ensures
        items_eq(x, x),
    decreases e, 0int,
{
    assert forall|i: int| 0 <= i < x.len() implies #[trigger] view_eq(x[i], x[i]) by {
        law_equal_reflexive(x[i]);
    }
    lemma_items_eq(x, x);
}

/// Looking up in a map that starts with `e`.
proof fn lemma_lookup_cons(e: (ExprView, ExprView), rest: Seq<(ExprView, ExprView)>, k: ExprView)
    ensures
        map_lookup(seq![e] + rest, k) == if expr_order(k, e.0) == 0 {
            Some(e.1)
        } else {
            map_lookup(rest, k)
        },
{
    let m = seq![e] + rest;
    if expr_order(k, e.0) == 0 {
        assert(first_key(m, k, 0));
        let c = choose|j: int| first_key(m, k, j);
        lemma_first_key_unique(m, k, 0, c);
    } else {
        if exists|j: int| first_key(rest, k, j) {
            let j = choose|j: int| first_key(rest, k, j);
            assert forall|q: int| 0 <= q < j + 1 implies expr_order(k, #[trigger] m[q].0) != 0 by {
                if q > 0 {
                    assert(m[q] == rest[q - 1]);
                }
            }
            assert(first_key(m, k, j + 1));
            let c = choose|q: int| first_key(m, k, q);
            lemma_first_key_unique(m, k, j + 1, c);
        } else if exists|j: int| first_key(m, k, j) {
            let j = choose|j: int| first_key(m, k, j);
            assert(j > 0);
            assert forall|q: int| 0 <= q < j - 1 implies expr_order(k, #[trigger] rest[q].0) != 0 by {
                assert(rest[q] == m[q + 1]);
            }
            assert(first_key(rest, k, j - 1));
        }
    }
}

/// A map gives back, for a key, the value last bound to it.
pub proof fn law_map_insert_then_get(m: Seq<(ExprView, ExprView)>, k: ExprView, v: ExprView)
    ensures
        map_lookup(map_insert(m, k, v), k) == Some(v),
    decreases m.len(),
{
    lemma_expr_order_refl(k);
    if m.len() == 0 {
        lemma_lookup_cons((k, v), Seq::empty(), k);
        assert(seq![(k, v)] + Seq::<(ExprView, ExprView)>::empty() =~= seq![(k, v)]);
    } else {
        let c = expr_order(k, m[0].0);
        if c < 0 {
            lemma_lookup_cons((k, v), m, k);
        } else if c == 0 {
            assert(m.update(0, (m[0].0, v)) =~= seq![(m[0].0, v)] + m.drop_first());
            lemma_lookup_cons((m[0].0, v), m.drop_first(), k);
        } else {
            law_map_insert_then_get(m.drop_first(), k, v);
            lemma_lookup_cons(m[0], map_insert(m.drop_first(), k, v), k);
        }
    }
}

/// Maps tell keys apart by value: two keys take the same place in the map
/// order exactly when they are equal (`=`).
pub proof fn law_same_key_is_equal(a: ExprView, b: ExprView)
    ensures
        expr_order(a, b) == 0 <==> view_eq(a, b),
        expr_order(a, a) == 0,
{
    lemma_order_zero_equal(a, b);
    lemma_equal_order_zero(a, b);
    lemma_expr_order_refl(a);
}

/// A key at `i` in the map order's middle position against `k` means that
/// some first such key exists.
proof fn lemma_first_key_exists(m: Seq<(ExprView, ExprView)>, k: ExprView, i: int)
    requires
        0 <= i < m.len(),
        expr_order(k, m[i].0) == 0,
    ensures
        exists|j: int| first_key(m, k, j),
    decreases i,
{
    if forall|j: int| 0 <= j < i ==> expr_order(k, #[trigger] m[j].0) != 0 {
        assert(first_key(m, k, i));
    } else {
        let j = choose|j: int| 0 <= j < i && expr_order(k, #[trigger] m[j].0) == 0;
        lemma_first_key_exists(m, k, j);
    }
}

/// Map lookup agrees with `=`: it finds a value exactly when the map has a
/// key equal to the key asked for, and then that of such a key.
pub proof fn law_lookup_finds_equal_key(m: Seq<(ExprView, ExprView)>, k: ExprView)
    ensures
        map_lookup(m, k) matches Some(v) ==> exists|i: int|
            0 <= i < m.len() && #[trigger] view_eq(k, m[i].0) && m[i].1 == v,
        map_lookup(m, k) is Some <==> exists|i: int| 0 <= i < m.len() && #[trigger] view_eq(k, m[i].0),
{
    if exists|i: int| first_key(m, k, i) {
        let i = choose|i: int| first_key(m, k, i);
        lemma_order_zero_equal(k, m[i].0);
        assert(view_eq(k, m[i].0));
    }
    if exists|i: int| 0 <= i < m.len() && #[trigger] view_eq(k, m[i].0) {
        let i = choose|i: int| 0 <= i < m.len() && #[trigger] view_eq(k, m[i].0);
        lemma_equal_order_zero(k, m[i].0);
        lemma_first_key_exists(m, k, i);
    }
}

// ---------------------------------------------------------------------------
// Scanning
// ---------------------------------------------------------------------------

/// The tokens that scanning from `pos` yields end with the one end of file.
proof fn lemma_scan_from_end(s: Seq<char>, pos: int, line: int)
    requires
        0 <= pos,
    ensures
        scan_from(s, pos, line) matches Ok(t) ==> {
            &&& t.len() > 0
            &&& t.last().token_type is EndOfFile
            &&& forall|i: int| 0 <= i < t.len() - 1 ==> !(#[trigger] t[i].token_type is EndOfFile)
        },
    decreases s.len() - pos,
{
    if pos < s.len() {
        lemma_scan_step_progress(s, pos, line);
        match scan_step(s, pos, line) {
            Ok((tok, p, l)) => {
                lemma_scan_from_end(s, p, l);
                match scan_from(s, p, l) {
                    Ok(rest) => {
                        match tok {
                            Some(tt) => {
                                let all = seq![TokenView { token_type: tt, line: l }] + rest;
                                assert(!(tt is EndOfFile));
                                assert forall|i: int| 0 <= i < all.len() - 1 implies !(#[trigger] all[i].token_type is EndOfFile) by {
                                    if i > 0 {
                                        assert(all[i] == rest[i - 1]);
                                    }
                                }
                            },
                            None => {},
                        }
                    },
                    Err(_) => {},
                }
            },
            Err(_) => {},
        }
    }
}

/// A text that scans ends in exactly one end-of-file token, the last one.
pub proof fn law_scan_ends_with_end_of_file(s: Seq<char>)
    ensures
        scan_spec(s) matches Ok(t) ==> {
            &&& t.len() > 0
            &&& t.last().token_type is EndOfFile
            &&& forall|i: int| 0 <= i < t.len() - 1 ==> !(#[trigger] t[i].token_type is EndOfFile)
        },
{
    lemma_scan_from_end(s, 0, 1);
}

// ---------------------------------------------------------------------------
// Evaluation
// ---------------------------------------------------------------------------

/// Numbers, strings, keywords, booleans, nil, `&` and functions evaluate to
/// themselves, and leave the store as it was.
pub proof fn law_values_evaluate_to_themselves(fuel: nat, st: StoreView, e: ExprView, env: EnvRef)
    requires
        fuel > 0,
        !(e is List || e is MethodList || e is Symbol || e is Vector || e is HMap),
    ensures
        eval_expr_spec(fuel, st, e, env) == (st, Ok::<ExprView, HErrorView>(e)),
{
}

/// A method expression whose receiver evaluates, and whose name no method
/// seen from the environment has, fails with `UnboundMethod` and that name.
pub proof fn law_no_method_is_unbound(f: nat, st: StoreView, l: Seq<ExprView>, env: EnvRef)
    requires
        l.len() > 0,
        eval_expr_spec(f, st, l[0], env).1 is Ok,
        env_methods(eval_expr_spec(f, st, l[0], env).0, env, method_id_spec(l.drop_first())).len() == 0,
    ensures
        method_list_spec(f, st, l, env) == (
            eval_expr_spec(f, st, l[0], env).0,
            Err::<ExprView, HErrorView>(HErrorView::UnboundMethod(method_id_spec(l.drop_first()))),
        ),
{
}

// ---------------------------------------------------------------------------
// What evaluation does to the store
// ---------------------------------------------------------------------------

/// `st2` has as many frames as `st`, and its output is that of `st` with
/// text added at the end.
pub open spec fn grows(st2: StoreView, st: StoreView) -> bool {
    &&& st2.frames.len() == st.frames.len()
    &&& st.output.len() <= st2.output.len()
    &&& st2.output.subrange(0, st.output.len() as int) == st.output
}

proof fn lemma_grows_refl(st: StoreView)
    ensures
        grows(st, st),
{
    assert(st.output.subrange(0, st.output.len() as int) =~= st.output);
}

proof fn lemma_grows_trans(a: StoreView, b: StoreView, c: StoreView)
    requires
        grows(b, a),
        grows(c, b),
    ensures
        grows(c, a),
{
    assert(c.output.subrange(0, a.output.len() as int) =~= c.output.subrange(0, b.output.len() as int).subrange(
        0,
        a.output.len() as int,
    ));
}

/// Defining, setting and adding a method change no frame count and no output.
proof fn lemma_store_updates(st: StoreView, env: EnvRef, key: Seq<char>, v: ExprView, m: MethodView)
    ensures
        env_define(st, env, key, v) matches Ok(st2) ==> grows(st2, st),
        env_set(st, env, key, v) matches Ok((st2, old)) ==> grows(st2, st),
        env_add_method(st, env, m) matches Ok(st2) ==> grows(st2, st),
{
    lemma_grows_refl(st);
    match env.frame {
        Some(i) => {
            if i < st.frames.len() {
                lemma_set_frame(st.frames, i as int, key);
            }
        },
        None => {},
    }
}

/// Evaluation keeps the number of frames, and only ever adds text at the end
/// of the output: nothing printed is taken back, not even by an error.
pub proof fn law_eval_only_appends(fuel: nat, st: StoreView, e: ExprView, env: EnvRef)
    ensures
        grows(eval_expr_spec(fuel, st, e, env).0, st),
    decreases fuel, 10int, 0int,
{
    lemma_grows_refl(st);
    if fuel > 0 {
        let f = (fuel - 1) as nat;
        match e {
            ExprView::List(l) => {
                if l.len() > 0 {
                    match resolve_spec(st, l[0], env) {
                        Ok(fv) => lemma_apply_grows(f, st, fv, l.drop_first(), env),
                        Err(_) => {},
                    }
                }
            },
            ExprView::MethodList(l) => lemma_method_list_grows(f, st, l, env),
            ExprView::Vector(v) => lemma_items_grows(f, st, v, env),
            ExprView::HMap(m) => lemma_entries_grows(f, st, m, env),
            _ => {},
        }
    }
}

proof fn lemma_apply_grows(f: nat, st: StoreView, fv: ExprView, args: Seq<ExprView>, env: EnvRef)
    ensures
        grows(apply_spec(f, st, fv, args, env).0, st),
    decreases f + 1, 9int, 0int,
{
    lemma_grows_refl(st);
    match fv {
        ExprView::NativeFn(nf) => lemma_native_grows(f, st, nf, args, env),
        ExprView::Fn(x) => lemma_fn_grows(f, st, x, args, env),
        _ => {},
    }
}

proof fn lemma_apply_value_grows(f: nat, st: StoreView, fv: ExprView, v: ExprView, env: EnvRef)
    ensures
        grows(apply_value_spec(f, st, fv, v, env).0, st),
    decreases f + 1, 9int, 0int,
{
    lemma_grows_refl(st);
    match fv {
        ExprView::NativeFn(nf) => {
            lemma_native_grows(f, st, nf, seq![v], env);
            let text = crate::native::print_text(seq![v]) + if nf.function is Println {
                seq!['\n']
            } else {
                Seq::<char>::empty()
            };
            assert((st.output + text).subrange(0, st.output.len() as int) =~= st.output);
            assert(st.output + crate::native::print_text(seq![v]) + if nf.function is Println {
                seq!['\n']
            } else {
                Seq::<char>::empty()
            } =~= st.output + text);
        },
        ExprView::Fn(x) => lemma_invoke_grows(f, st, x.args, x.function, seq![v], env, crate::evaluator::call_frame(env), true),
        _ => {},
    }
}

proof fn lemma_method_list_grows(f: nat, st: StoreView, l: Seq<ExprView>, env: EnvRef)
    ensures
        grows(method_list_spec(f, st, l, env).0, st),
    decreases f + 1, 8int, 0int,
{
    lemma_grows_refl(st);
    if l.len() > 0 {
        let o = eval_expr_spec(f, st, l[0], env);
        law_eval_only_appends(f, st, l[0], env);
        match o.1 {
            Ok(target) => {
                let rest = l.drop_first();
                let name = method_id_spec(rest);
                let cands = env_methods(o.0, env, name);
                let s = select_spec(f, o.0, cands, 0, target, env);
                lemma_select_grows(f, o.0, cands, 0, target, env);
                lemma_grows_trans(st, o.0, s.0);
                match s.1 {
                    Ok(Some(m)) => {
                        lemma_method_grows(f, s.0, m, target, method_args_spec(rest), env);
                        lemma_grows_trans(st, s.0, call_method_spec(f, s.0, m, target, method_args_spec(rest), env).0);
                    },
                    _ => {},
                }
            },
            Err(_) => {},
        }
    }
}

#[verifier::rlimit(40)]
proof fn lemma_native_grows(f: nat, st: StoreView, nf: NativeFnView, args: Seq<ExprView>, env: EnvRef)
    ensures
        grows(call_native_spec(f, st, nf, args, env).0, st),
    decreases f + 1, 7int, 0int,
{
    lemma_grows_refl(st);
    if nf.arity.accepts(args.len() as int) {
        match nf.function {
            crate::expr::Builtin::Var | crate::expr::Builtin::SetBang => {
                match nth(args, 0) {
                    ExprView::Symbol(name) => {
                        let o = eval_expr_spec(f, st, nth(args, 1), env);
                        law_eval_only_appends(f, st, nth(args, 1), env);
                        match o.1 {
                            Ok(v) => {
                                lemma_store_updates(o.0, env, name, v, arbitrary());
                                match env_define(o.0, env, name, v) {
                                    Ok(st2) => lemma_grows_trans(st, o.0, st2),
                                    Err(_) => {},
                                }
                                match env_set(o.0, env, name, v) {
                                    Ok(p) => lemma_grows_trans(st, o.0, p.0),
                                    Err(_) => {},
                                }
                            },
                            Err(_) => {},
                        }
                    },
                    _ => {},
                }
            },
            crate::expr::Builtin::If => {
                let o = eval_expr_spec(f, st, nth(args, 0), env);
                law_eval_only_appends(f, st, nth(args, 0), env);
                match o.1 {
                    Ok(c) => {
                        law_eval_only_appends(f, o.0, nth(args, 1), env);
                        law_eval_only_appends(f, o.0, nth(args, 2), env);
                        lemma_grows_trans(st, o.0, eval_expr_spec(f, o.0, nth(args, 1), env).0);
                        lemma_grows_trans(st, o.0, eval_expr_spec(f, o.0, nth(args, 2), env).0);
                    },
                    Err(_) => {},
                }
            },
            crate::expr::Builtin::Defn => {
                match nth(args, 0) {
                    ExprView::Symbol(name) => {
                        match crate::special_forms::function_spec(rest_from(args, 1), env) {
                            Ok(fv) => lemma_store_updates(st, env, name, fv, arbitrary()),
                            Err(_) => {},
                        }
                    },
                    _ => {},
                }
            },
            crate::expr::Builtin::Defm => {
                let o = eval_expr_spec(f, st, nth(args, 0), env);
                law_eval_only_appends(f, st, nth(args, 0), env);
                match o.1 {
                    Ok(sel) => match crate::special_forms::method_spec(sel, args, env) {
                        Ok(m) => {
                            lemma_store_updates(o.0, env, Seq::empty(), ExprView::Nil, m);
                            match env_add_method(o.0, env, m) {
                                Ok(st2) => lemma_grows_trans(st, o.0, st2),
                                Err(_) => {},
                            }
                        },
                        Err(_) => {},
                    },
                    Err(_) => {},
                }
            },
            crate::expr::Builtin::Fn => {},
            _ => {
                let o = eval_items_spec(f, st, args, env);
                lemma_items_grows(f, st, args, env);
                match o.1 {
                    Ok(vals) => {
                        let text = crate::native::print_text(vals) + if nf.function is Println {
                            seq!['\n']
                        } else {
                            Seq::<char>::empty()
                        };
                        let st2 = StoreView { output: o.0.output + text, ..o.0 };
                        assert((o.0.output + text).subrange(0, o.0.output.len() as int) =~= o.0.output);
                        assert(o.0.output + crate::native::print_text(vals) + if nf.function is Println {
                            seq!['\n']
                        } else {
                            Seq::<char>::empty()
                        } =~= o.0.output + text);
                        lemma_grows_trans(st, o.0, st2);
                    },
                    Err(_) => {},
                }
            },
        }
    }
}

proof fn lemma_fn_grows(f: nat, st: StoreView, x: FnView, args: Seq<ExprView>, env: EnvRef)
    ensures
        grows(call_fn_spec(f, st, x, args, env).0, st),
    decreases f + 1, 6int, 0int,
{
    lemma_grows_refl(st);
    if x.arity.accepts(args.len() as int) {
        lemma_invoke_grows(f, st, x.args, x.function, args, env, crate::evaluator::call_frame(env), false);
    }
}

proof fn lemma_select_grows(f: nat, st: StoreView, cands: Seq<MethodView>, k: int, target: ExprView, env: EnvRef)
    ensures
        grows(select_spec(f, st, cands, k, target, env).0, st),
    decreases f + 1, 5int, cands.len() - k,
{
    lemma_grows_refl(st);
    if 0 <= k < cands.len() && f > 0 {
        let o = apply_value_spec((f - 1) as nat, st, *cands[k].selector, target, env);
        lemma_apply_value_grows((f - 1) as nat, st, *cands[k].selector, target, env);
        match o.1 {
            Ok(v) => {
                if !truthy(v) {
                    lemma_select_grows(f, o.0, cands, k + 1, target, env);
                    lemma_grows_trans(st, o.0, select_spec(f, o.0, cands, k + 1, target, env).0);
                }
            },
            Err(_) => {},
        }
    }
}

proof fn lemma_method_grows(f: nat, st: StoreView, m: MethodView, target: ExprView, margs: Seq<ExprView>, env: EnvRef)
    ensures
        grows(call_method_spec(f, st, m, target, margs, env).0, st),
    decreases f + 1, 4int, 0int,
{
    lemma_grows_refl(st);
    if m.arity.accepts(margs.len() as int) {
        lemma_invoke_grows(
            f,
            st,
            m.args,
            m.function,
            margs,
            env,
            frame_define(crate::evaluator::call_frame(env), "this"@, target),
            false,
        );
    }
}

proof fn lemma_invoke_grows(
    f: nat,
    st: StoreView,
    params: Seq<ExprView>,
    body: Seq<ExprView>,
    args: Seq<ExprView>,
    env: EnvRef,
    frame0: FrameView,
    evaluated: bool,
)
    ensures
        grows(invoke_spec(f, st, params, body, args, env, frame0, evaluated).0, st),
    decreases f + 1, 3int, 0int,
{
    lemma_grows_refl(st);
    let b = bind_spec(f, st, params, args, env, 0, frame0, evaluated);
    lemma_bind_grows(f, st, params, args, env, 0, frame0, evaluated);
    match b.1 {
        Ok(frame) => {
            let n = b.0.frames.len();
            let pushed = StoreView { frames: b.0.frames.push(frame), ..b.0 };
            let env2 = EnvRef { frame: Some(n as usize) };
            let o = eval_body_spec(f, pushed, body, env2);
            lemma_body_grows(f, pushed, body, env2);
            let out = StoreView { frames: o.0.frames.take(n as int), ..o.0 };
            assert(out.frames.len() == n);
            lemma_grows_trans(st, b.0, out);
        },
        Err(_) => {},
    }
}

proof fn lemma_bind_grows(
    f: nat,
    st: StoreView,
    params: Seq<ExprView>,
    args: Seq<ExprView>,
    env: EnvRef,
    i: int,
    frame: FrameView,
    evaluated: bool,
)
    ensures
        grows(bind_spec(f, st, params, args, env, i, frame, evaluated).0, st),
    decreases f + 1, 2int, params.len() - i,
{
    lemma_grows_refl(st);
    if 0 <= i < params.len() {
        match params[i] {
            ExprView::Symbol(name) => {
                if i < args.len() {
                    let o = if evaluated {
                        (st, Ok(args[i]))
                    } else {
                        eval_expr_spec(f, st, args[i], env)
                    };
                    law_eval_only_appends(f, st, args[i], env);
                    match o.1 {
                        Ok(v) => {
                            let fr = frame_define(frame, name, v);
                            lemma_bind_grows(f, o.0, params, args, env, i + 1, fr, evaluated);
                            lemma_grows_trans(st, o.0, bind_spec(f, o.0, params, args, env, i + 1, fr, evaluated).0);
                        },
                        Err(_) => {},
                    }
                }
            },
            _ => {},
        }
    }
}

proof fn lemma_items_grows(f: nat, st: StoreView, v: Seq<ExprView>, env: EnvRef)
    ensures
        grows(eval_items_spec(f, st, v, env).0, st),
    decreases f + 1, 1int, v.len(),
{
    lemma_grows_refl(st);
    if v.len() > 0 {
        let o = eval_expr_spec(f, st, v[0], env);
        law_eval_only_appends(f, st, v[0], env);
        match o.1 {
            Ok(_) => {
                lemma_items_grows(f, o.0, v.drop_first(), env);
                lemma_grows_trans(st, o.0, eval_items_spec(f, o.0, v.drop_first(), env).0);
            },
            Err(_) => {},
        }
    }
}

proof fn lemma_entries_grows(f: nat, st: StoreView, m: Seq<(ExprView, ExprView)>, env: EnvRef)
    ensures
        grows(eval_entries_spec(f, st, m, env).0, st),
    decreases f + 1, 1int, m.len(),
{
    lemma_grows_refl(st);
    if m.len() > 0 {
        let k = eval_expr_spec(f, st, m[0].0, env);
        law_eval_only_appends(f, st, m[0].0, env);
        match k.1 {
            Ok(_) => {
                let v = eval_expr_spec(f, k.0, m[0].1, env);
                law_eval_only_appends(f, k.0, m[0].1, env);
                lemma_grows_trans(st, k.0, v.0);
                match v.1 {
                    Ok(_) => {
                        lemma_entries_grows(f, v.0, m.drop_first(), env);
                        lemma_grows_trans(st, v.0, eval_entries_spec(f, v.0, m.drop_first(), env).0);
                    },
                    Err(_) => {},
                }
            },
            Err(_) => {},
        }
    }
}

proof fn lemma_body_grows(f: nat, st: StoreView, body: Seq<ExprView>, env: EnvRef)
    ensures
        grows(eval_body_spec(f, st, body, env).0, st),
    decreases f + 1, 1int, body.len(),
{
    lemma_grows_refl(st);
    if body.len() > 0 {
        let o = eval_expr_spec(f, st, body[0], env);
        law_eval_only_appends(f, st, body[0], env);
        match o.1 {
            Ok(_) => {
                if body.len() > 1 {
                    lemma_body_grows(f, o.0, body.drop_first(), env);
                    lemma_grows_trans(st, o.0, eval_body_spec(f, o.0, body.drop_first(), env).0);
                }
            },
            Err(_) => {},
        }
    }
}

} // verus!
