use vstd::prelude::*;

use crate::error::{HError, HErrorView};
use crate::expr::{
    display_text, exprs_view, expr_equal, lemma_exprs_view, map_lookup, owned, push_display, view_eq, Builtin,
    Expr, ExprView, HMap,
};
use crate::number::{add_parts, div_parts, fits_number, mul_parts, reduce, sub_parts, trunc_div, Number};

verus! {

/// The item at `i`, or nil past the end.
pub open spec fn nth(s: Seq<ExprView>, i: int) -> ExprView {
    if 0 <= i < s.len() {
        s[i]
    } else {
        ExprView::Nil
    }
}

/// All items but the first.
pub open spec fn tail(s: Seq<ExprView>) -> Seq<ExprView> {
    if s.len() > 0 {
        s.drop_first()
    } else {
        Seq::empty()
    }
}

/// Everything but `nil` and `false` counts as true.
pub open spec fn truthy(v: ExprView) -> bool {
    !(v is Nil || v == ExprView::Boolean(false))
}

/// Whether a value counts as true: everything but `nil` and `false`.
pub fn is_truthy(expr: &Expr) -> (r: bool)
    ensures
        r == truthy(expr@),
{
    match expr {
        Expr::Nil => false,
        Expr::Boolean(false) => false,
        _ => true,
    }
}

/// The number a value holds, or the error that `name` reports for it.
pub fn check_num(expr: &Expr, fun_name: &str) -> (r: Result<Number, HError>)
    ensures
        match expr@ {
            ExprView::Number(n) => r == Ok::<Number, HError>(n),
            other => r matches Err(e) && e@ == HErrorView::InvalidType(fun_name@, other),
        },
{
    match expr {
        Expr::Number(n) => Ok(*n),
        _ => Err(HError::InvalidType(owned(fun_name), expr.copy())),
    }
}

// ---------------------------------------------------------------------------
// Arithmetic
// ---------------------------------------------------------------------------

/// `a op b` for the arithmetic builtins, in lowest terms, when it is defined and fits.
pub open spec fn num_op(f: Builtin, a: Number, b: Number) -> Option<Number> {
    let p = reduce(
        match f {
            Builtin::Add => add_parts(a, b),
            Builtin::Sub => sub_parts(a, b),
            Builtin::Mul => mul_parts(a, b),
            _ => div_parts(a, b),
        },
    );
    if (f is Div && b.numer() == 0) || !fits_number(p) {
        None
    } else {
        Some(Number::spec_from_parts(p.0, p.1))
    }
}

pub open spec fn num_error_message(f: Builtin, b: Number) -> Seq<char> {
    if f is Div && b.numer() == 0 {
        "Division by zero"@
    } else {
        "Number out of range"@
    }
}

/// `acc op v0 op v1 ...`, left to right.
pub open spec fn arith_fold(f: Builtin, name: Seq<char>, acc: Number, vals: Seq<ExprView>) -> Result<Number, HErrorView>
    decreases vals.len(),
{
    if vals.len() == 0 {
        Ok(acc)
    } else {
        match vals[0] {
            ExprView::Number(n) => match num_op(f, acc, n) {
                Some(r) => arith_fold(f, name, r, vals.drop_first()),
                None => Err(HErrorView::ArithmeticError(num_error_message(f, n))),
            },
            other => Err(HErrorView::InvalidType(name, other)),
        }
    }
}

/// The arithmetic builtins: the first value combined with each of the others in turn.
pub open spec fn arith_spec(f: Builtin, name: Seq<char>, vals: Seq<ExprView>) -> Result<ExprView, HErrorView> {
    match nth(vals, 0) {
        ExprView::Number(n) => match arith_fold(f, name, n, tail(vals)) {
            Ok(r) => Ok(ExprView::Number(r)),
            Err(e) => Err(e),
        },
        other => Err(HErrorView::InvalidType(name, other)),
    }
}

fn num_op_exec(f: Builtin, a: &Number, b: &Number) -> (r: Option<Number>)
    requires
        f is Add || f is Sub || f is Mul || f is Div,
    ensures
        r == num_op(f, *a, *b),
{
    let r = match f {
        Builtin::Add => a.add(b),
        Builtin::Sub => a.sub(b),
        Builtin::Mul => a.mul(b),
        _ => a.div(b),
    };
    match r {
        Some(n) => {
            proof {
                let p = reduce(
                    match f {
                        Builtin::Add => add_parts(*a, *b),
                        Builtin::Sub => sub_parts(*a, *b),
                        Builtin::Mul => mul_parts(*a, *b),
                        _ => div_parts(*a, *b),
                    },
                );
                Number::lemma_from_parts(p.0, p.1);
                Number::lemma_ext(n, Number::spec_from_parts(p.0, p.1));
            }
            Some(n)
        },
        None => None,
    }
}

fn num_error(f: Builtin, b: &Number) -> (e: HError)
    ensures
        e@ == HErrorView::ArithmeticError(num_error_message(f, *b)),
{
    let is_div = match f {
        Builtin::Div => true,
        _ => false,
    };
    if is_div && b.numerator() == 0 {
        HError::ArithmeticError(owned("Division by zero"))
    } else {
        HError::ArithmeticError(owned("Number out of range"))
    }
}

/// The arithmetic builtins (see `arith_spec`).
pub fn arith(f: Builtin, name: &str, vals: &Vec<Expr>) -> (r: Result<Expr, HError>)
    requires
        f is Add || f is Sub || f is Mul || f is Div,
    ensures
        match arith_spec(f, name@, exprs_view(vals@)) {
            Ok(v) => r matches Ok(x) && x@ == v,
            Err(e) => r matches Err(x) && x@ == e,
        },
{
    let ghost vs = exprs_view(vals@);
    proof {
        lemma_exprs_view(vals@);
    }
    if vals.len() == 0 {
        return Err(HError::InvalidType(owned(name), Expr::Nil));
    }
    let mut acc = check_num(&vals[0], name)?;
    let mut i: usize = 1;
    while i < vals.len()
        invariant
            vs == exprs_view(vals@),
            vs.len() == vals@.len(),
            forall|q: int| 0 <= q < vals@.len() ==> #[trigger] vs[q] == vals@[q]@,
            f is Add || f is Sub || f is Mul || f is Div,
            1 <= i <= vals@.len(),
            arith_spec(f, name@, vs) == match arith_fold(f, name@, acc, vs.subrange(i as int, vs.len() as int)) {
                Ok(r) => Ok(ExprView::Number(r)),
                Err(e) => Err(e),
            },
        decreases vals@.len() - i,
    {
        proof {
            assert(vs.subrange(i as int, vs.len() as int).drop_first() =~= vs.subrange(i + 1, vs.len() as int));
        }
        let n = check_num(&vals[i], name)?;
        match num_op_exec(f, &acc, &n) {
            Some(r) => {
                acc = r;
            },
            None => {
                return Err(num_error(f, &n));
            },
        }
        i = i + 1;
    }
    proof {
        assert(vs.subrange(i as int, vs.len() as int).len() == 0);
        assert(vs.drop_first() =~= vs.subrange(1, vs.len() as int));
    }
    Ok(Expr::Number(acc))
}

// ---------------------------------------------------------------------------
// Comparisons
// ---------------------------------------------------------------------------

/// `a op b` for the comparison builtins.
pub open spec fn order_holds(f: Builtin, a: Number, b: Number) -> bool {
    match f {
        Builtin::Lt => a.less_than(b),
        Builtin::Lte => !b.less_than(a),
        Builtin::Gt => b.less_than(a),
        _ => !a.less_than(b),
    }
}

/// Whether `first op v` holds for every value, up to the first that fails.
pub open spec fn compare_fold(f: Builtin, name: Seq<char>, first: Number, vals: Seq<ExprView>) -> Result<bool, HErrorView>
    decreases vals.len(),
{
    if vals.len() == 0 {
        Ok(true)
    } else {
        match vals[0] {
            ExprView::Number(n) => if order_holds(f, first, n) {
                compare_fold(f, name, first, vals.drop_first())
            } else {
                Ok(false)
            },
            other => Err(HErrorView::InvalidType(name, other)),
        }
    }
}

/// The comparison builtins: whether the first value compares so with each other one.
pub open spec fn compare_spec(f: Builtin, name: Seq<char>, vals: Seq<ExprView>) -> Result<ExprView, HErrorView> {
    match nth(vals, 0) {
        ExprView::Number(first) => match compare_fold(f, name, first, tail(vals)) {
            Ok(b) => Ok(ExprView::Boolean(b)),
            Err(e) => Err(e),
        },
        other => Err(HErrorView::InvalidType(name, other)),
    }
}

fn order_exec(f: Builtin, a: &Number, b: &Number) -> (r: bool)
    ensures
        r == order_holds(f, *a, *b),
{
    match f {
        Builtin::Lt => a.less(b),
        Builtin::Lte => !b.less(a),
        Builtin::Gt => b.less(a),
        _ => !a.less(b),
    }
}

/// The comparison builtins (see `compare_spec`).
pub fn compare(f: Builtin, name: &str, vals: &Vec<Expr>) -> (r: Result<Expr, HError>)
    ensures
        match compare_spec(f, name@, exprs_view(vals@)) {
            Ok(v) => r matches Ok(x) && x@ == v,
            Err(e) => r matches Err(x) && x@ == e,
        },
{
    let ghost vs = exprs_view(vals@);
    proof {
        lemma_exprs_view(vals@);
    }
    if vals.len() == 0 {
        return Err(HError::InvalidType(owned(name), Expr::Nil));
    }
    let first = check_num(&vals[0], name)?;
    let mut i: usize = 1;
    while i < vals.len()
        invariant
            vs == exprs_view(vals@),
            vs.len() == vals@.len(),
            forall|q: int| 0 <= q < vals@.len() ==> #[trigger] vs[q] == vals@[q]@,
            1 <= i <= vals@.len(),
            vs[0] == ExprView::Number(first),
            compare_fold(f, name@, first, vs.drop_first()) == compare_fold(
                f,
                name@,
                first,
                vs.subrange(i as int, vs.len() as int),
            ),
        decreases vals@.len() - i,
    {
        proof {
            assert(vs.subrange(i as int, vs.len() as int).drop_first() =~= vs.subrange(i + 1, vs.len() as int));
        }
        let n = check_num(&vals[i], name)?;
        if !order_exec(f, &first, &n) {
            return Ok(Expr::Boolean(false));
        }
        i = i + 1;
    }
    proof {
        assert(vs.drop_first() =~= vs.subrange(1, vs.len() as int));
    }
    Ok(Expr::Boolean(true))
}

// ---------------------------------------------------------------------------
// Equality
// ---------------------------------------------------------------------------

/// Whether the first value is equal (or, with `negate`, unequal) to each
/// other one.
pub open spec fn equal_fold(negate: bool, first: ExprView, vals: Seq<ExprView>) -> bool
    decreases vals.len(),
{
    if vals.len() == 0 {
        true
    } else if view_eq(first, vals[0]) != negate {
        equal_fold(negate, first, vals.drop_first())
    } else {
        false
    }
}

pub open spec fn equal_spec(negate: bool, vals: Seq<ExprView>) -> ExprView {
    ExprView::Boolean(equal_fold(negate, nth(vals, 0), tail(vals)))
}

/// `=` and `!=` (see `equal_spec`).
pub fn equal_all(negate: bool, vals: &Vec<Expr>) -> (r: Expr)
    ensures
        r@ == equal_spec(negate, exprs_view(vals@)),
{
    let ghost vs = exprs_view(vals@);
    proof {
        lemma_exprs_view(vals@);
    }
    if vals.len() == 0 {
        return Expr::Boolean(true);
    }
    let mut i: usize = 1;
    while i < vals.len()
        invariant
            vs == exprs_view(vals@),
            vs.len() == vals@.len(),
            forall|q: int| 0 <= q < vals@.len() ==> #[trigger] vs[q] == vals@[q]@,
            1 <= i <= vals@.len(),
            equal_fold(negate, vs[0], vs.drop_first()) == equal_fold(
                negate,
                vs[0],
                vs.subrange(i as int, vs.len() as int),
            ),
        decreases vals@.len() - i,
    {
        proof {
            assert(vs.subrange(i as int, vs.len() as int).drop_first() =~= vs.subrange(i + 1, vs.len() as int));
        }
        if expr_equal(&vals[0], &vals[i]) == negate {
            return Expr::Boolean(false);
        }
        i = i + 1;
    }
    proof {
        assert(vs.drop_first() =~= vs.subrange(1, vs.len() as int));
    }
    Expr::Boolean(true)
}

// ---------------------------------------------------------------------------
// Data
// ---------------------------------------------------------------------------

/// The position a number stands for: rounded toward zero, and at least zero.
pub open spec fn index_of(n: Number) -> int {
    let t = trunc_div(n.numer(), n.denom());
    if t < 0 {
        0
    } else {
        t
    }
}

/// `get`: the value of a key in a map, or of a position in a vector; nil when absent.
pub open spec fn get_spec(vals: Seq<ExprView>) -> Result<ExprView, HErrorView> {
    match nth(vals, 0) {
        ExprView::HMap(m) => Ok(
            match map_lookup(m, nth(vals, 1)) {
                Some(v) => v,
                None => ExprView::Nil,
            },
        ),
        ExprView::Vector(v) => match nth(vals, 1) {
            ExprView::Number(n) => Ok(nth(v, index_of(n))),
            other => Err(HErrorView::UnexpectedForm("Invalid vector index"@, other)),
        },
        other => Err(HErrorView::UnexpectedForm("Type does not support `get`"@, other)),
    }
}

/// `get` (see `get_spec`).
pub fn get(vals: &Vec<Expr>) -> (r: Result<Expr, HError>)
    ensures
        match get_spec(exprs_view(vals@)) {
            Ok(v) => r matches Ok(x) && x@ == v,
            Err(e) => r matches Err(x) && x@ == e,
        },
{
    proof {
        lemma_exprs_view(vals@);
    }
    let nil = Expr::Nil;
    let target = if vals.len() > 0 { &vals[0] } else { &nil };
    let key = if vals.len() > 1 { &vals[1] } else { &nil };
    match target {
        Expr::HMap(m) => match m.get(key) {
            Some(v) => Ok(v),
            None => Ok(Expr::Nil),
        },
        Expr::Vector(v) => match key {
            Expr::Number(n) => {
                proof {
                    lemma_exprs_view(v@);
                }
                let t = n.truncate();
                if t < 0 {
                    if v.len() > 0 {
                        Ok(v[0].copy())
                    } else {
                        Ok(Expr::Nil)
                    }
                } else if (t as u64) < (v.len() as u64) {
                    Ok(v[t as usize].copy())
                } else {
                    Ok(Expr::Nil)
                }
            },
            other => Err(HError::UnexpectedForm(owned("Invalid vector index"), other.copy())),
        },
        other => Err(HError::UnexpectedForm(owned("Type does not support `get`"), other.copy())),
    }
}

/// `range`: the integers from the first number up to, not including, the
/// second, both rounded toward zero.
pub open spec fn range_spec(vals: Seq<ExprView>) -> Result<ExprView, HErrorView> {
    match (nth(vals, 0), nth(vals, 1)) {
        (ExprView::Number(a), ExprView::Number(b)) => {
            let lo = trunc_div(a.numer(), a.denom());
            let hi = trunc_div(b.numer(), b.denom());
            Ok(ExprView::Vector(integers(lo, hi)))
        },
        (a, b) => Err(HErrorView::UnexpectedForm("Invalid range"@, ExprView::Vector(seq![a, b]))),
    }
}

/// The numbers `lo, lo + 1, ..., hi - 1`.
pub open spec fn integers(lo: int, hi: int) -> Seq<ExprView> {
    Seq::new(if hi > lo { (hi - lo) as nat } else { 0 }, |k: int| ExprView::Number(Number::spec_from_parts(lo + k, 1)))
}

/// `range` (see `range_spec`).
pub fn range(vals: &Vec<Expr>) -> (r: Result<Expr, HError>)
    ensures
        match range_spec(exprs_view(vals@)) {
            Ok(v) => r matches Ok(x) && x@ == v,
            Err(e) => r matches Err(x) && x@ == e,
        },
{
    proof {
        lemma_exprs_view(vals@);
    }
    let nil = Expr::Nil;
    let a = if vals.len() > 0 { &vals[0] } else { &nil };
    let b = if vals.len() > 1 { &vals[1] } else { &nil };
    match (a, b) {
        (Expr::Number(x), Expr::Number(y)) => {
            let lo = x.truncate();
            let hi = y.truncate();
            let mut out: Vec<Expr> = Vec::new();
            let mut n = lo;
            while n < hi
                invariant
                    lo <= n,
                    n <= hi || n == lo,
                    exprs_view(out@) == integers(lo as int, n as int),
                decreases hi - n,
            {
                let ghost before = out@;
                let num = Number::integer(n);
                proof {
                    Number::lemma_from_parts(n as int, 1);
                    Number::lemma_ext(num, Number::spec_from_parts(n as int, 1));
                }
                out.push(Expr::Number(num));
                proof {
                    lemma_exprs_view(before);
                    lemma_exprs_view(out@);
                    let w = integers(lo as int, n + 1);
                    assert(w.len() == n + 1 - lo);
                    assert(exprs_view(out@).len() == w.len());
                    assert forall|k: int| 0 <= k < w.len() implies exprs_view(out@)[k] == w[k] by {
                        if k < w.len() - 1 {
                            assert(exprs_view(out@)[k] == exprs_view(before)[k]);
                            assert(exprs_view(before)[k] == integers(lo as int, n as int)[k]);
                        } else {
                            assert(out@[k] == Expr::Number(num));
                        }
                    }
                    assert(exprs_view(out@) =~= w);
                }
                n = n + 1;
            }
            proof {
                lemma_exprs_view(out@);
                assert(exprs_view(out@) =~= integers(lo as int, hi as int));
            }
            Ok(Expr::Vector(out))
        },
        _ => {
            let pair = vec![a.copy(), b.copy()];
            proof {
                lemma_exprs_view(pair@);
                assert(exprs_view(pair@) =~= seq![a@, b@]);
            }
            Err(HError::UnexpectedForm(owned("Invalid range"), Expr::Vector(pair)))
        },
    }
}

/// `number?`: whether the value is a number.
pub open spec fn number_q_spec(vals: Seq<ExprView>) -> ExprView {
    ExprView::Boolean(nth(vals, 0) is Number)
}

/// `meta`: the metadata of a symbol, map or vector (always empty); nil for
/// anything else.
pub open spec fn meta_spec(vals: Seq<ExprView>) -> ExprView {
    match nth(vals, 0) {
        ExprView::Symbol(_) | ExprView::HMap(_) | ExprView::Vector(_) => ExprView::HMap(Seq::empty()),
        _ => ExprView::Nil,
    }
}

/// The builtins that work on their arguments' values.
pub open spec fn value_builtin(f: Builtin, name: Seq<char>, vals: Seq<ExprView>) -> Result<ExprView, HErrorView> {
    match f {
        Builtin::Add | Builtin::Sub | Builtin::Mul | Builtin::Div => arith_spec(f, name, vals),
        Builtin::Lt | Builtin::Lte | Builtin::Gt | Builtin::Gte => compare_spec(f, name, vals),
        Builtin::Eq => Ok(equal_spec(false, vals)),
        Builtin::NotEq => Ok(equal_spec(true, vals)),
        Builtin::Get => get_spec(vals),
        Builtin::Range => range_spec(vals),
        Builtin::NumberQ => Ok(number_q_spec(vals)),
        Builtin::Meta => Ok(meta_spec(vals)),
        _ => Ok(ExprView::Nil),
    }
}

/// The builtins that work on their arguments' values (see `value_builtin`).
pub fn apply_value_builtin(f: Builtin, name: &str, vals: &Vec<Expr>) -> (r: Result<Expr, HError>)
    ensures
        match value_builtin(f, name@, exprs_view(vals@)) {
            Ok(v) => r matches Ok(x) && x@ == v,
            Err(e) => r matches Err(x) && x@ == e,
        },
{
    proof {
        lemma_exprs_view(vals@);
    }
    match f {
        Builtin::Add | Builtin::Sub | Builtin::Mul | Builtin::Div => arith(f, name, vals),
        Builtin::Lt | Builtin::Lte | Builtin::Gt | Builtin::Gte => compare(f, name, vals),
        Builtin::Eq => Ok(equal_all(false, vals)),
        Builtin::NotEq => Ok(equal_all(true, vals)),
        Builtin::Get => get(vals),
        Builtin::Range => range(vals),
        Builtin::NumberQ => {
            let b = vals.len() > 0 && match &vals[0] {
                Expr::Number(_) => true,
                _ => false,
            };
            Ok(Expr::Boolean(b))
        },
        Builtin::Meta => {
            if vals.len() > 0 {
                match &vals[0] {
                    Expr::Symbol(_) | Expr::HMap(_) | Expr::Vector(_) => Ok(Expr::HMap(HMap::new())),
                    _ => Ok(Expr::Nil),
                }
            } else {
                Ok(Expr::Nil)
            }
        },
        _ => Ok(Expr::Nil),
    }
}

/// The text that printing the values shows: their texts, one after the other.
pub open spec fn print_text(vals: Seq<ExprView>) -> Seq<char>
    decreases vals.len(),
{
    if vals.len() == 0 {
        Seq::empty()
    } else {
        print_text(vals.drop_last()) + display_text(vals.last())
    }
}

/// The text of the values, one after the other (see `print_text`).
pub fn print_chars(vals: &Vec<Expr>) -> (r: Vec<char>)
    ensures
        r@ == print_text(exprs_view(vals@)),
{
    let ghost vs = exprs_view(vals@);
    proof {
        lemma_exprs_view(vals@);
    }
    let mut out: Vec<char> = Vec::new();
    let mut i: usize = 0;
    while i < vals.len()
        invariant
            vs == exprs_view(vals@),
            vs.len() == vals@.len(),
            forall|q: int| 0 <= q < vals@.len() ==> #[trigger] vs[q] == vals@[q]@,
            i <= vals@.len(),
            out@ == print_text(vs.subrange(0, i as int)),
        decreases vals@.len() - i,
    {
        push_display(&vals[i], &mut out);
        proof {
            let p = vs.subrange(0, i + 1);
            assert(p.drop_last() =~= vs.subrange(0, i as int));
        }
        i = i + 1;
    }
    assert(vs.subrange(0, i as int) =~= vs);
    out
}

} // verus!
