use vstd::prelude::*;

use crate::expr::{
    entries_eq, entries_view, expr_view, exprs_view, items_eq, lemma_entries_eq, lemma_entries_view,
    lemma_exprs_view, view_eq, Expr, ExprView,
};

verus! {

// ---------------------------------------------------------------------------
// The order of expressions, by which maps keep their keys
// ---------------------------------------------------------------------------

/// The position of an expression's kind among the kinds.
pub open spec fn variant_rank(e: ExprView) -> int {
    match e {
        ExprView::List(_) => 0,
        ExprView::MethodList(_) => 1,
        ExprView::Number(_) => 2,
        ExprView::Boolean(_) => 3,
        ExprView::String(_) => 4,
        ExprView::Keyword(_) => 5,
        ExprView::Symbol(_) => 6,
        ExprView::Vector(_) => 7,
        ExprView::HMap(_) => 8,
        ExprView::NativeFn(_) => 9,
        ExprView::Fn(_) => 10,
        ExprView::Method(_) => 11,
        ExprView::Ampersand => 12,
        ExprView::Nil => 13,
    }
}

/// Texts in dictionary order of their characters: -1, 0 or 1.
pub open spec fn text_order(a: Seq<char>, b: Seq<char>) -> int
    decreases a.len(),
{
    if a.len() == 0 {
        if b.len() == 0 {
            0
        } else {
            -1
        }
    } else if b.len() == 0 {
        1
    } else if (a[0] as int) < (b[0] as int) {
        -1
    } else if (a[0] as int) > (b[0] as int) {
        1
    } else {
        text_order(a.drop_first(), b.drop_first())
    }
}

/// The order of expressions: by kind, then by contents (numbers by value,
/// texts in dictionary order, sequences and maps item by item, callables by
/// their ids): -1, 0 or 1.
pub open spec fn expr_order(a: ExprView, b: ExprView) -> int
    decreases a, 0int,
{
    if variant_rank(a) < variant_rank(b) {
        -1
    } else if variant_rank(a) > variant_rank(b) {
        1
    } else {
        match (a, b) {
            (ExprView::List(x), ExprView::List(y)) => items_order(x, y),
            (ExprView::MethodList(x), ExprView::MethodList(y)) => items_order(x, y),
            (ExprView::Vector(x), ExprView::Vector(y)) => items_order(x, y),
            (ExprView::Number(x), ExprView::Number(y)) => if x.less_than(y) {
                -1
            } else if y.less_than(x) {
                1
            } else {
                0
            },
            (ExprView::Boolean(x), ExprView::Boolean(y)) => if x == y {
                0
            } else if !x {
                -1
            } else {
                1
            },
            (ExprView::String(x), ExprView::String(y)) => text_order(x, y),
            (ExprView::Keyword(x), ExprView::Keyword(y)) => text_order(x, y),
            (ExprView::Symbol(x), ExprView::Symbol(y)) => text_order(x, y),
            (ExprView::HMap(x), ExprView::HMap(y)) => entries_order(x, y),
            (ExprView::NativeFn(x), ExprView::NativeFn(y)) => text_order(x.id, y.id),
            (ExprView::Fn(x), ExprView::Fn(y)) => text_order(x.id, y.id),
            (ExprView::Method(x), ExprView::Method(y)) => text_order(x.id, y.id),
            _ => 0,
        }
    }
}

/// Sequences of expressions, item by item, a prefix first.
pub open spec fn items_order(x: Seq<ExprView>, y: Seq<ExprView>) -> int
    decreases x, 0int,
{
    if x.len() == 0 {
        if y.len() == 0 {
            0
        } else {
            -1
        }
    } else if y.len() == 0 {
        1
    } else {
        let c = expr_order(x[0], y[0]);
        if c != 0 {
            c
        } else {
            items_order(x.drop_first(), y.drop_first())
        }
    }
}

/// Maps, entry by entry (key, then value), a prefix first.
pub open spec fn entries_order(x: Seq<(ExprView, ExprView)>, y: Seq<(ExprView, ExprView)>) -> int
    decreases x, 0int,
{
    if x.len() == 0 {
        if y.len() == 0 {
            0
        } else {
            -1
        }
    } else if y.len() == 0 {
        1
    } else {
        let c = expr_order(x[0].0, y[0].0);
        if c != 0 {
            c
        } else {
            let d = expr_order(x[0].1, y[0].1);
            if d != 0 {
                d
            } else {
                entries_order(x.drop_first(), y.drop_first())
            }
        }
    }
}

pub proof fn lemma_text_order_refl(a: Seq<char>)
    ensures
        text_order(a, a) == 0,
    decreases a.len(),
{
    if a.len() > 0 {
        lemma_text_order_refl(a.drop_first());
    }
}

/// Every expression is in the order's middle position against itself.
pub proof fn lemma_expr_order_refl(e: ExprView)
    ensures
        expr_order(e, e) == 0,
    decreases e, 1int,
{
    match e {
        ExprView::List(x) => lemma_items_order_refl(x),
        ExprView::MethodList(x) => lemma_items_order_refl(x),
        ExprView::Vector(x) => lemma_items_order_refl(x),
        ExprView::String(x) => lemma_text_order_refl(x),
        ExprView::Keyword(x) => lemma_text_order_refl(x),
        ExprView::Symbol(x) => lemma_text_order_refl(x),
        ExprView::HMap(m) => lemma_entries_order_refl(m),
        ExprView::NativeFn(f) => lemma_text_order_refl(f.id),
        ExprView::Fn(f) => lemma_text_order_refl(f.id),
        ExprView::Method(f) => lemma_text_order_refl(f.id),
        _ => {},
    }
}

pub proof fn lemma_items_order_refl(x: Seq<ExprView>)
    ensures
        items_order(x, x) == 0,
    decreases x, 1int,
{
    if x.len() > 0 {
        lemma_expr_order_refl(x[0]);
        lemma_items_order_refl(x.drop_first());
    }
}

pub proof fn lemma_entries_order_refl(x: Seq<(ExprView, ExprView)>)
    ensures
        entries_order(x, x) == 0,
    decreases x, 1int,
{
    if x.len() > 0 {
        assert(decreases_to!(x => x[0]));
        lemma_expr_order_refl(x[0].0);
        lemma_expr_order_refl(x[0].1);
        lemma_entries_order_refl(x.drop_first());
    }
}

pub proof fn lemma_text_order_zero(a: Seq<char>, b: Seq<char>)
    ensures
        text_order(a, b) == 0 ==> a == b,
    decreases a.len(),
{
    if a.len() > 0 && b.len() > 0 && a[0] == b[0] {
        lemma_text_order_zero(a.drop_first(), b.drop_first());
        if text_order(a, b) == 0 {
            assert(a =~= seq![a[0]] + a.drop_first());
            assert(b =~= seq![b[0]] + b.drop_first());
        }
    }
}

/// Expressions in the order's middle position against each other are equal
/// by value.
pub proof fn lemma_order_zero_equal(a: ExprView, b: ExprView)
    ensures
        expr_order(a, b) == 0 ==> view_eq(a, b),
    decreases a, 1int,
{
    if expr_order(a, b) == 0 {
        match (a, b) {
            (ExprView::List(x), ExprView::List(y)) => lemma_items_order_zero(x, y),
            (ExprView::MethodList(x), ExprView::MethodList(y)) => lemma_items_order_zero(x, y),
            (ExprView::Vector(x), ExprView::Vector(y)) => lemma_items_order_zero(x, y),
            (ExprView::String(x), ExprView::String(y)) => lemma_text_order_zero(x, y),
            (ExprView::Keyword(x), ExprView::Keyword(y)) => lemma_text_order_zero(x, y),
            (ExprView::Symbol(x), ExprView::Symbol(y)) => lemma_text_order_zero(x, y),
            (ExprView::NativeFn(x), ExprView::NativeFn(y)) => lemma_text_order_zero(x.id, y.id),
            (ExprView::Fn(x), ExprView::Fn(y)) => lemma_text_order_zero(x.id, y.id),
            (ExprView::Method(x), ExprView::Method(y)) => lemma_text_order_zero(x.id, y.id),
            (ExprView::HMap(x), ExprView::HMap(y)) => {
                lemma_entries_order_zero(x, y);
                lemma_entries_eq(x, y);
            },
            _ => {},
        }
    }
}

/// Equal expressions are in the order's middle position against each other.
pub proof fn lemma_equal_order_zero(a: ExprView, b: ExprView)
    ensures
        view_eq(a, b) ==> expr_order(a, b) == 0,
    decreases a, 1int,
{
    if view_eq(a, b) {
        match (a, b) {
            (ExprView::List(x), ExprView::List(y)) => lemma_items_equal_order(x, y),
            (ExprView::MethodList(x), ExprView::MethodList(y)) => lemma_items_equal_order(x, y),
            (ExprView::Vector(x), ExprView::Vector(y)) => lemma_items_equal_order(x, y),
            (ExprView::String(x), ExprView::String(y)) => lemma_text_order_refl(x),
            (ExprView::Keyword(x), ExprView::Keyword(y)) => lemma_text_order_refl(x),
            (ExprView::Symbol(x), ExprView::Symbol(y)) => lemma_text_order_refl(x),
            (ExprView::NativeFn(x), ExprView::NativeFn(y)) => lemma_text_order_refl(x.id),
            (ExprView::Fn(x), ExprView::Fn(y)) => lemma_text_order_refl(x.id),
            (ExprView::Method(x), ExprView::Method(y)) => lemma_text_order_refl(x.id),
            (ExprView::HMap(x), ExprView::HMap(y)) => lemma_entries_equal_order(x, y),
            _ => {},
        }
    }
}

pub proof fn lemma_items_equal_order(x: Seq<ExprView>, y: Seq<ExprView>)
    ensures
        items_eq(x, y) ==> items_order(x, y) == 0,
    decreases x, 1int,
{
    if x.len() > 0 && y.len() > 0 {
        lemma_equal_order_zero(x[0], y[0]);
        lemma_items_equal_order(x.drop_first(), y.drop_first());
        assert(x.drop_first() == x.subrange(1, x.len() as int));
        assert(y.drop_first() == y.subrange(1, y.len() as int));
    }
}

pub proof fn lemma_entries_equal_order(x: Seq<(ExprView, ExprView)>, y: Seq<(ExprView, ExprView)>)
    ensures
        entries_eq(x, y) ==> entries_order(x, y) == 0,
    decreases x, 1int,
{
    if x.len() > 0 && y.len() > 0 {
        assert(decreases_to!(x => x[0]));
        lemma_equal_order_zero(x[0].0, y[0].0);
        lemma_equal_order_zero(x[0].1, y[0].1);
        lemma_entries_equal_order(x.drop_first(), y.drop_first());
        assert(x.drop_first() == x.subrange(1, x.len() as int));
        assert(y.drop_first() == y.subrange(1, y.len() as int));
    }
}

pub proof fn lemma_items_order_zero(x: Seq<ExprView>, y: Seq<ExprView>)
    ensures
        items_order(x, y) == 0 ==> items_eq(x, y),
    decreases x, 1int,
{
    if x.len() > 0 && y.len() > 0 {
        lemma_order_zero_equal(x[0], y[0]);
        lemma_items_order_zero(x.drop_first(), y.drop_first());
        assert(x.drop_first() == x.subrange(1, x.len() as int));
        assert(y.drop_first() == y.subrange(1, y.len() as int));
    }
}

pub proof fn lemma_entries_order_zero(x: Seq<(ExprView, ExprView)>, y: Seq<(ExprView, ExprView)>)
    ensures
        entries_order(x, y) == 0 ==> x.len() == y.len() && forall|i: int|
            0 <= i < x.len() ==> view_eq(#[trigger] x[i].0, y[i].0) && view_eq(x[i].1, y[i].1),
    decreases x, 1int,
{
    if x.len() > 0 && y.len() > 0 {
        assert(decreases_to!(x => x[0]));
        lemma_order_zero_equal(x[0].0, y[0].0);
        lemma_order_zero_equal(x[0].1, y[0].1);
        lemma_entries_order_zero(x.drop_first(), y.drop_first());
        if entries_order(x, y) == 0 {
            assert forall|i: int| 0 <= i < x.len() implies view_eq(#[trigger] x[i].0, y[i].0) && view_eq(
                x[i].1,
                y[i].1,
            ) by {
                if i > 0 {
                    assert(x[i] == x.drop_first()[i - 1]);
                    assert(y[i] == y.drop_first()[i - 1]);
                }
            }
        }
    }
}

fn rank(e: &Expr) -> (r: u8)
    ensures
        r as int == variant_rank(e@),
{
    match e {
        Expr::List(_) => 0,
        Expr::MethodList(_) => 1,
        Expr::Number(_) => 2,
        Expr::Boolean(_) => 3,
        Expr::String(_) => 4,
        Expr::Keyword(_) => 5,
        Expr::Symbol(_) => 6,
        Expr::Vector(_) => 7,
        Expr::HMap(_) => 8,
        Expr::NativeFn(_) => 9,
        Expr::Fn(_) => 10,
        Expr::Method(_) => 11,
        Expr::Ampersand => 12,
        Expr::Nil => 13,
    }
}

/// Texts in dictionary order (see `text_order`).
pub fn text_compare(a: &String, b: &String) -> (r: i8)
    ensures
        r as int == text_order(a@, b@),
{
    let sa = a.as_str();
    let sb = b.as_str();
    let na = sa.unicode_len();
    let nb = sb.unicode_len();
    let mut i: usize = 0;
    assert(a@.subrange(0, na as int) =~= a@);
    assert(b@.subrange(0, nb as int) =~= b@);
    while i < na && i < nb
        invariant
            na == a@.len(),
            nb == b@.len(),
            sa@ == a@,
            sb@ == b@,
            i <= na,
            i <= nb,
            text_order(a@, b@) == text_order(a@.subrange(i as int, na as int), b@.subrange(i as int, nb as int)),
        decreases na - i,
    {
        let x = sa.get_char(i);
        let y = sb.get_char(i);
        proof {
            assert(a@.subrange(i as int, na as int).drop_first() =~= a@.subrange(i + 1, na as int));
            assert(b@.subrange(i as int, nb as int).drop_first() =~= b@.subrange(i + 1, nb as int));
        }
        if x < y {
            return -1;
        } else if x > y {
            return 1;
        }
        i = i + 1;
    }
    if i < na {
        1
    } else if i < nb {
        -1
    } else {
        0
    }
}

fn items_compare(x: &Vec<Expr>, y: &Vec<Expr>, Ghost(outer): Ghost<Expr>) -> (r: i8)
    requires
        forall|i: int| 0 <= i < x@.len() ==> decreases_to!(outer => #[trigger] x@[i]),
    ensures
        r as int == items_order(exprs_view(x@), exprs_view(y@)),
    decreases outer, 0int,
{
    let ghost xv = exprs_view(x@);
    let ghost yv = exprs_view(y@);
    proof {
        lemma_exprs_view(x@);
        lemma_exprs_view(y@);
    }
    let mut i: usize = 0;
    assert(xv.subrange(0, xv.len() as int) =~= xv);
    assert(yv.subrange(0, yv.len() as int) =~= yv);
    while i < x.len() && i < y.len()
        invariant
            xv == exprs_view(x@),
            yv == exprs_view(y@),
            xv.len() == x@.len(),
            yv.len() == y@.len(),
            forall|k: int| 0 <= k < x@.len() ==> #[trigger] xv[k] == expr_view(x@[k]),
            forall|k: int| 0 <= k < y@.len() ==> #[trigger] yv[k] == expr_view(y@[k]),
            forall|k: int| 0 <= k < x@.len() ==> decreases_to!(outer => #[trigger] x@[k]),
            i <= x@.len(),
            i <= y@.len(),
            items_order(xv, yv) == items_order(
                xv.subrange(i as int, xv.len() as int),
                yv.subrange(i as int, yv.len() as int),
            ),
        decreases x@.len() - i,
    {
        proof {
            assert(xv.subrange(i as int, xv.len() as int).drop_first() =~= xv.subrange(i + 1, xv.len() as int));
            assert(yv.subrange(i as int, yv.len() as int).drop_first() =~= yv.subrange(i + 1, yv.len() as int));
        }
        assert(decreases_to!(outer => x@[i as int]));
        let c = expr_compare(&x[i], &y[i]);
        if c != 0 {
            return c;
        }
        i = i + 1;
    }
    if i < x.len() {
        1
    } else if i < y.len() {
        -1
    } else {
        0
    }
}

fn entries_compare(x: &Vec<(Expr, Expr)>, y: &Vec<(Expr, Expr)>, Ghost(outer): Ghost<Expr>) -> (r: i8)
    requires
        forall|i: int|
            #![trigger x@[i]]
            0 <= i < x@.len() ==> decreases_to!(outer => x@[i].0) && decreases_to!(outer => x@[i].1),
    ensures
        r as int == entries_order(entries_view(x@), entries_view(y@)),
    decreases outer, 0int,
{
    let ghost xv = entries_view(x@);
    let ghost yv = entries_view(y@);
    proof {
        lemma_entries_view(x@);
        lemma_entries_view(y@);
    }
    let mut i: usize = 0;
    assert(xv.subrange(0, xv.len() as int) =~= xv);
    assert(yv.subrange(0, yv.len() as int) =~= yv);
    while i < x.len() && i < y.len()
        invariant
            xv == entries_view(x@),
            yv == entries_view(y@),
            xv.len() == x@.len(),
            yv.len() == y@.len(),
            forall|k: int| 0 <= k < x@.len() ==> #[trigger] xv[k] == (expr_view(x@[k].0), expr_view(x@[k].1)),
            forall|k: int| 0 <= k < y@.len() ==> #[trigger] yv[k] == (expr_view(y@[k].0), expr_view(y@[k].1)),
            forall|k: int|
                #![trigger x@[k]]
                0 <= k < x@.len() ==> decreases_to!(outer => x@[k].0) && decreases_to!(outer => x@[k].1),
            i <= x@.len(),
            i <= y@.len(),
            entries_order(xv, yv) == entries_order(
                xv.subrange(i as int, xv.len() as int),
                yv.subrange(i as int, yv.len() as int),
            ),
        decreases x@.len() - i,
    {
        proof {
            assert(xv.subrange(i as int, xv.len() as int).drop_first() =~= xv.subrange(i + 1, xv.len() as int));
            assert(yv.subrange(i as int, yv.len() as int).drop_first() =~= yv.subrange(i + 1, yv.len() as int));
        }
        assert(decreases_to!(outer => x@[i as int].0));
        assert(decreases_to!(outer => x@[i as int].1));
        let c = expr_compare(&x[i].0, &y[i].0);
        if c != 0 {
            return c;
        }
        let d = expr_compare(&x[i].1, &y[i].1);
        if d != 0 {
            return d;
        }
        i = i + 1;
    }
    if i < x.len() {
        1
    } else if i < y.len() {
        -1
    } else {
        0
    }
}

/// The order of two expressions (see `expr_order`).
pub fn expr_compare(a: &Expr, b: &Expr) -> (r: i8)
    ensures
        r as int == expr_order(a@, b@),
    decreases *a, 1int,
{
    proof {
        assert(a@ == expr_view(*a));
        assert(b@ == expr_view(*b));
    }
    let ra = rank(a);
    let rb = rank(b);
    if ra < rb {
        return -1;
    } else if ra > rb {
        return 1;
    }
    match (a, b) {
        (Expr::List(x), Expr::List(y)) => items_compare(x, y, Ghost(*a)),
        (Expr::MethodList(x), Expr::MethodList(y)) => items_compare(x, y, Ghost(*a)),
        (Expr::Vector(x), Expr::Vector(y)) => items_compare(x, y, Ghost(*a)),
        (Expr::Number(x), Expr::Number(y)) => {
            if x.less(y) {
                -1
            } else if y.less(x) {
                1
            } else {
                0
            }
        },
        (Expr::Boolean(x), Expr::Boolean(y)) => {
            if *x == *y {
                0
            } else if !*x {
                -1
            } else {
                1
            }
        },
        (Expr::String(x), Expr::String(y)) => text_compare(x, y),
        (Expr::Keyword(x), Expr::Keyword(y)) => text_compare(x, y),
        (Expr::Symbol(x), Expr::Symbol(y)) => text_compare(x, y),
        (Expr::HMap(x), Expr::HMap(y)) => entries_compare(&x.entries, &y.entries, Ghost(*a)),
        (Expr::NativeFn(x), Expr::NativeFn(y)) => text_compare(&x.id, &y.id),
        (Expr::Fn(x), Expr::Fn(y)) => text_compare(&x.id, &y.id),
        (Expr::Method(x), Expr::Method(y)) => text_compare(&x.id, &y.id),
        _ => 0,
    }
}

} // verus!
