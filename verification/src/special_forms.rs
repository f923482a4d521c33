use vstd::prelude::*;

use crate::env::EnvRef;
use crate::error::{HError, HErrorView};
use crate::expr::{
    copy_exprs, debug_items, debug_seq, debug_text, display_items, display_text, exprs_view, lemma_exprs_view, owned,
    push_debug, push_display, Arity, Expr, ExprView, Fn, FnView, Method, MethodView,
};
use crate::native::nth;
use crate::text::{chars_to_string, push_str};

verus! {

// ---------------------------------------------------------------------------
// Functions
// ---------------------------------------------------------------------------

/// The position of the first `&` at or after `i`, or -1.
pub open spec fn amp_from(v: Seq<ExprView>, i: int) -> int
    decreases v.len() - i,
{
    if i < 0 || i >= v.len() {
        -1
    } else if v[i] is Ampersand {
        i
    } else {
        amp_from(v, i + 1)
    }
}

/// The arity of a parameter vector: its length, or at least the number of
/// parameters before `&`, which must be followed by exactly one symbol.
pub open spec fn fn_arity(v: Seq<ExprView>) -> Result<Arity, HErrorView> {
    let k = amp_from(v, 0);
    if k < 0 {
        Ok(Arity::Count(v.len() as usize))
    } else if v.len() != k + 2 {
        Err(HErrorView::UnexpectedForm("In fn declaration, & can only proceed one symbol"@, ExprView::Ampersand))
    } else {
        Ok(Arity::Range(k as usize, usize::MAX))
    }
}

/// The body that starts at `k`: the rest of the arguments, or `nil` alone.
pub open spec fn body_from(args: Seq<ExprView>, k: int) -> Seq<ExprView> {
    if args.len() > k {
        args.subrange(k, args.len() as int)
    } else {
        seq![ExprView::Nil]
    }
}

/// `fn`: the function with the parameter vector `args[0]` and the body
/// `args[1..]` (or `nil`); its id is the debugging text of both.
pub open spec fn function_spec(args: Seq<ExprView>, env: EnvRef) -> Result<ExprView, HErrorView> {
    match nth(args, 0) {
        ExprView::Vector(v) => match fn_arity(v) {
            Ok(arity) => {
                let code = body_from(args, 1);
                Ok(
                    ExprView::Fn(
                        FnView { id: debug_seq(v) + "_"@ + debug_seq(code), arity, args: v, function: code, closure: env },
                    ),
                )
            },
            Err(e) => Err(e),
        },
        other => Err(HErrorView::UnexpectedForm("Expected an argument vector"@, other)),
    }
}

// ---------------------------------------------------------------------------
// Methods
// ---------------------------------------------------------------------------

/// The items at even positions: the parts of a method's name.
pub open spec fn method_names(raw: Seq<ExprView>) -> Seq<ExprView> {
    Seq::new(((raw.len() + 1) / 2) as nat, |k: int| raw[2 * k])
}

/// The items at odd positions: a method's parameters, or a call's arguments.
pub open spec fn method_args_spec(raw: Seq<ExprView>) -> Seq<ExprView> {
    Seq::new((raw.len() / 2) as nat, |k: int| raw[2 * k + 1])
}

/// A method's name: the texts of the name parts, separated by spaces.
pub open spec fn method_id_spec(raw: Seq<ExprView>) -> Seq<char> {
    display_items(method_names(raw))
}

/// `defm`'s method: selector `sel`, name and parameters from the vector
/// `args[1]`, body `args[2..]` (or `nil`).
pub open spec fn method_spec(sel: ExprView, args: Seq<ExprView>, env: EnvRef) -> Result<MethodView, HErrorView> {
    match nth(args, 1) {
        ExprView::Vector(raw) => if raw.len() == 0 {
            Err(HErrorView::UnexpectedForm("Expected at least one argument"@, nth(args, 1)))
        } else if raw.len() > 1 && raw.len() % 2 == 1 {
            Err(HErrorView::UnexpectedForm("Expected an even number of arguments"@, nth(args, 1)))
        } else {
            let margs = method_args_spec(raw);
            Ok(
                MethodView {
                    id: method_id_spec(raw),
                    selector: Box::new(sel),
                    arity: Arity::Count(margs.len() as usize),
                    args: margs,
                    function: body_from(args, 2),
                    closure: env,
                },
            )
        },
        other => Err(HErrorView::UnexpectedForm("Expected an argument vector"@, other)),
    }
}

/// The debugging text of a sequence of expressions (see `debug_seq`).
pub fn debug_list(v: &Vec<Expr>, out: &mut Vec<char>)
    ensures
        final(out)@ == old(out)@ + debug_seq(exprs_view(v@)),
{
    let ghost vs = exprs_view(v@);
    proof {
        lemma_exprs_view(v@);
    }
    push_str(out, "[");
    let ghost start = out@;
    let mut i: usize = 0;
    while i < v.len()
        invariant
            vs == exprs_view(v@),
            vs.len() == v@.len(),
            forall|q: int| 0 <= q < v@.len() ==> #[trigger] vs[q] == v@[q]@,
            i <= v@.len(),
            out@ == start + debug_items(vs.subrange(0, i as int)),
        decreases v@.len() - i,
    {
        if i > 0 {
            push_str(out, ", ");
        }
        push_debug(&v[i], out);
        proof {
            let p = vs.subrange(0, i + 1);
            assert(p.subrange(0, p.len() - 1) =~= vs.subrange(0, i as int));
            if i == 0 {
                assert(out@ =~= start + debug_items(p));
            } else {
                assert(out@ =~= start + debug_items(p));
            }
        }
        i = i + 1;
    }
    assert(vs.subrange(0, i as int) =~= vs);
    push_str(out, "]");
    assert(out@ =~= old(out)@ + debug_seq(vs));
}

/// The position of the first `&` in `v` (see `amp_from`).
fn find_ampersand(v: &Vec<Expr>) -> (r: Option<usize>)
    ensures
        match r {
            Some(k) => amp_from(exprs_view(v@), 0) == k && k < v@.len(),
            None => amp_from(exprs_view(v@), 0) == -1,
        },
{
    let ghost vs = exprs_view(v@);
    proof {
        lemma_exprs_view(v@);
    }
    let mut i: usize = 0;
    while i < v.len()
        invariant
            vs == exprs_view(v@),
            vs.len() == v@.len(),
            forall|q: int| 0 <= q < v@.len() ==> #[trigger] vs[q] == v@[q]@,
            i <= v@.len(),
            amp_from(vs, 0) == amp_from(vs, i as int),
        decreases v@.len() - i,
    {
        match &v[i] {
            Expr::Ampersand => {
                return Some(i);
            },
            _ => {},
        }
        i = i + 1;
    }
    None
}

/// The arguments from position `k` on, or `nil` alone (see `body_from`).
fn body_of(args: &Vec<Expr>, k: usize) -> (r: Vec<Expr>)
    ensures
        exprs_view(r@) == body_from(exprs_view(args@), k as int),
{
    proof {
        lemma_exprs_view(args@);
    }
    if args.len() > k {
        let mut out: Vec<Expr> = Vec::new();
        let mut i = k;
        while i < args.len()
            invariant
                k <= i <= args@.len(),
                exprs_view(out@) == exprs_view(args@).subrange(k as int, i as int),
            decreases args@.len() - i,
        {
            let ghost before = out@;
            out.push(args[i].copy());
            proof {
                lemma_exprs_view(before);
                lemma_exprs_view(out@);
                lemma_exprs_view(args@);
                assert(exprs_view(out@) =~= exprs_view(args@).subrange(k as int, i + 1));
            }
            i = i + 1;
        }
        out
    } else {
        let out = vec![Expr::Nil];
        proof {
            lemma_exprs_view(out@);
            assert(exprs_view(out@) =~= seq![ExprView::Nil]);
        }
        out
    }
}

/// `fn` (see `function_spec`).
pub fn function(args: &Vec<Expr>, env: EnvRef) -> (r: Result<Expr, HError>)
    ensures
        match function_spec(exprs_view(args@), env) {
            Ok(v) => r matches Ok(x) && x@ == v,
            Err(e) => r matches Err(x) && x@ == e,
        },
{
    proof {
        lemma_exprs_view(args@);
    }
    if args.len() == 0 {
        return Err(HError::UnexpectedForm(owned("Expected an argument vector"), Expr::Nil));
    }
    let fn_args = match &args[0] {
        Expr::Vector(values) => values,
        value => {
            return Err(HError::UnexpectedForm(owned("Expected an argument vector"), value.copy()));
        },
    };
    let ghost fv = exprs_view(fn_args@);
    proof {
        lemma_exprs_view(fn_args@);
    }
    assert(nth(exprs_view(args@), 0) == ExprView::Vector(fv));
    let arity = match find_ampersand(fn_args) {
        Some(i) => {
            if fn_args.len() - i != 2 {
                return Err(
                    HError::UnexpectedForm(owned("In fn declaration, & can only proceed one symbol"), Expr::Ampersand),
                );
            }
            Arity::Range(i, usize::MAX)
        },
        None => Arity::Count(fn_args.len()),
    };
    proof {
        lemma_exprs_view(fn_args@);
    }
    assert(fn_arity(fv) == Ok::<Arity, HErrorView>(arity));
    let code = body_of(args, 1);
    let mut id: Vec<char> = Vec::new();
    debug_list(fn_args, &mut id);
    push_str(&mut id, "_");
    debug_list(&code, &mut id);
    assert(id@ =~= debug_seq(fv) + "_"@ + debug_seq(exprs_view(code@)));
    Ok(Expr::Fn(Fn { id: chars_to_string(&id), arity, args: copy_exprs(fn_args.as_slice()), function: code, closure: env }))
}

/// A method's name: the texts of the items at even positions, separated by
/// spaces (see `method_id_spec`).
pub fn method_id(args: &Vec<Expr>) -> (r: String)
    ensures
        r@ == method_id_spec(exprs_view(args@)),
{
    let ghost vs = exprs_view(args@);
    let ghost names = method_names(vs);
    proof {
        lemma_exprs_view(args@);
    }
    let mut out: Vec<char> = Vec::new();
    let mut k: usize = 0;
    let len = args.len();
    let n = len / 2 + len % 2;
    assert(n == names.len());
    while k < n
        invariant
            len == args@.len(),
            vs == exprs_view(args@),
            vs.len() == args@.len(),
            forall|q: int| 0 <= q < args@.len() ==> #[trigger] vs[q] == args@[q]@,
            names == method_names(vs),
            n == names.len(),
            k <= n,
            out@ == display_items(names.subrange(0, k as int)),
        decreases n - k,
    {
        if k > 0 {
            push_str(&mut out, " ");
        }
        assert(2 * k < args@.len());
        push_display(&args[2 * k], &mut out);
        proof {
            let p = names.subrange(0, k + 1);
            assert(p.subrange(0, p.len() - 1) =~= names.subrange(0, k as int));
            assert(p[p.len() - 1] == vs[2 * k]);
            assert(out@ =~= display_items(p));
        }
        k = k + 1;
    }
    assert(names.subrange(0, k as int) =~= names);
    chars_to_string(&out)
}

/// The items at odd positions (see `method_args_spec`).
pub fn method_args(args: &Vec<Expr>) -> (r: Vec<Expr>)
    ensures
        exprs_view(r@) == method_args_spec(exprs_view(args@)),
{
    let ghost vs = exprs_view(args@);
    proof {
        lemma_exprs_view(args@);
    }
    let mut out: Vec<Expr> = Vec::new();
    let mut k: usize = 0;
    let len = args.len();
    let n = len / 2;
    while k < n
        invariant
            len == args@.len(),
            vs == exprs_view(args@),
            vs.len() == args@.len(),
            forall|q: int| 0 <= q < args@.len() ==> #[trigger] vs[q] == args@[q]@,
            n == args@.len() / 2,
            k <= n,
            exprs_view(out@) == method_args_spec(vs).subrange(0, k as int),
        decreases n - k,
    {
        assert(2 * k + 1 < args@.len());
        let ghost before = out@;
        out.push(args[2 * k + 1].copy());
        proof {
            lemma_exprs_view(before);
            lemma_exprs_view(out@);
            assert(exprs_view(out@) =~= method_args_spec(vs).subrange(0, k + 1));
        }
        k = k + 1;
    }
    assert(method_args_spec(vs).subrange(0, k as int) =~= method_args_spec(vs));
    out
}

/// `defm`'s method (see `method_spec`).
pub fn make_method(sel: Expr, args: &Vec<Expr>, env: EnvRef) -> (r: Result<Method, HError>)
    ensures
        match method_spec(sel@, exprs_view(args@), env) {
            Ok(m) => r matches Ok(x) && x@ == m,
            Err(e) => r matches Err(x) && x@ == e,
        },
{
    proof {
        lemma_exprs_view(args@);
    }
    if args.len() < 2 {
        return Err(HError::UnexpectedForm(owned("Expected an argument vector"), Expr::Nil));
    }
    let raw_args = match &args[1] {
        Expr::Vector(values) => values,
        value => {
            return Err(HError::UnexpectedForm(owned("Expected an argument vector"), value.copy()));
        },
    };
    proof {
        lemma_exprs_view(raw_args@);
    }
    let arg_len = raw_args.len();
    if arg_len == 0 {
        return Err(HError::UnexpectedForm(owned("Expected at least one argument"), args[1].copy()));
    }
    if arg_len > 1 && arg_len % 2 == 1 {
        return Err(HError::UnexpectedForm(owned("Expected an even number of arguments"), args[1].copy()));
    }
    let name = method_id(raw_args);
    let filtered_args = method_args(raw_args);
    let arity = Arity::Count(filtered_args.len());
    proof {
        lemma_exprs_view(filtered_args@);
    }
    let code = body_of(args, 2);
    Ok(Method { id: name, selector: Box::new(sel), arity, args: filtered_args, function: code, closure: env })
}

} // verus!
