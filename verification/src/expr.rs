use vstd::prelude::*;

use crate::env::EnvRef;
use crate::error::{HError, HErrorView};
use crate::number::Number;
use crate::order::{expr_compare, expr_order};
use crate::text::{chars_to_string, push_str, str_debug, str_debug_text};

verus! {

/// How many arguments a callable accepts.
#[derive(Debug, Clone, Copy, PartialEq, Eq, Structural)]
pub enum Arity {
    Count(usize),
    Range(usize, usize),
}

/// The functions that the interpreter provides itself.
#[derive(Debug, Clone, Copy, PartialEq, Eq, Structural)]
pub enum Builtin {
    Var,
    If,
    SetBang,
    Fn,
    Defn,
    Defm,
    Add,
    Sub,
    Mul,
    Div,
    Lt,
    Lte,
    Gt,
    Gte,
    Eq,
    NotEq,
    Get,
    Range,
    NumberQ,
    Meta,
    Print,
    Println,
}

/// A function of the interpreter, called with its arguments unevaluated.
#[derive(Debug)]
pub struct NativeFn {
    pub id: String,
    pub arity: Arity,
    pub function: Builtin,
}

/// A function written in the language.
#[derive(Debug)]
pub struct Fn {
    pub id: String,
    pub arity: Arity,
    pub args: Vec<Expr>,
    pub function: Vec<Expr>,
    pub closure: EnvRef,
}

/// A method: a selector that decides which receivers it applies to, and a body.
#[derive(Debug)]
pub struct Method {
    pub id: String,
    pub selector: Box<Expr>,
    pub arity: Arity,
    pub args: Vec<Expr>,
    pub function: Vec<Expr>,
    pub closure: EnvRef,
}

/// A map from expressions to expressions; no two keys are equal.
#[derive(Debug)]
pub struct HMap {
    pub entries: Vec<(Expr, Expr)>,
}

/// An expression of the language, and a value of it once evaluated.
#[derive(Debug)]
pub enum Expr {
    List(Vec<Expr>),
    MethodList(Vec<Expr>),
    Number(Number),
    Boolean(bool),
    String(String),
    Keyword(String),
    Symbol(String),
    Vector(Vec<Expr>),
    HMap(HMap),
    NativeFn(NativeFn),
    Fn(Fn),
    Method(Method),
    Ampersand,
    Nil,
}

pub struct NativeFnView {
    pub id: Seq<char>,
    pub arity: Arity,
    pub function: Builtin,
}

pub struct FnView {
    pub id: Seq<char>,
    pub arity: Arity,
    pub args: Seq<ExprView>,
    pub function: Seq<ExprView>,
    pub closure: EnvRef,
}

pub struct MethodView {
    pub id: Seq<char>,
    pub selector: Box<ExprView>,
    pub arity: Arity,
    pub args: Seq<ExprView>,
    pub function: Seq<ExprView>,
    pub closure: EnvRef,
}

/// The mathematical value of an expression.
pub enum ExprView {
    List(Seq<ExprView>),
    MethodList(Seq<ExprView>),
    Number(Number),
    Boolean(bool),
    String(Seq<char>),
    Keyword(Seq<char>),
    Symbol(Seq<char>),
    Vector(Seq<ExprView>),
    HMap(Seq<(ExprView, ExprView)>),
    NativeFn(NativeFnView),
    Fn(FnView),
    Method(MethodView),
    Ampersand,
    Nil,
}

pub open spec fn expr_view(e: Expr) -> ExprView
    decreases e,
{
    match e {
        Expr::List(v) => ExprView::List(exprs_view(v@)),
        Expr::MethodList(v) => ExprView::MethodList(exprs_view(v@)),
        Expr::Number(n) => ExprView::Number(n),
        Expr::Boolean(b) => ExprView::Boolean(b),
        Expr::String(s) => ExprView::String(s@),
        Expr::Keyword(s) => ExprView::Keyword(s@),
        Expr::Symbol(s) => ExprView::Symbol(s@),
        Expr::Vector(v) => ExprView::Vector(exprs_view(v@)),
        Expr::HMap(m) => ExprView::HMap(entries_view(m.entries@)),
        Expr::NativeFn(f) => ExprView::NativeFn(NativeFnView { id: f.id@, arity: f.arity, function: f.function }),
        Expr::Fn(f) => ExprView::Fn(FnView {
            id: f.id@,
            arity: f.arity,
            args: exprs_view(f.args@),
            function: exprs_view(f.function@),
            closure: f.closure,
        }),
        Expr::Method(m) => ExprView::Method(MethodView {
            id: m.id@,
            selector: Box::new(expr_view(*m.selector)),
            arity: m.arity,
            args: exprs_view(m.args@),
            function: exprs_view(m.function@),
            closure: m.closure,
        }),
        Expr::Ampersand => ExprView::Ampersand,
        Expr::Nil => ExprView::Nil,
    }
}

pub open spec fn exprs_view(s: Seq<Expr>) -> Seq<ExprView>
    decreases s,
{
    if s.len() == 0 {
        Seq::empty()
    } else {
        exprs_view(s.subrange(0, s.len() - 1)).push(expr_view(s[s.len() - 1]))
    }
}

pub open spec fn entries_view(s: Seq<(Expr, Expr)>) -> Seq<(ExprView, ExprView)>
    decreases s,
{
    if s.len() == 0 {
        Seq::empty()
    } else {
        entries_view(s.subrange(0, s.len() - 1)).push(
            (expr_view(s[s.len() - 1].0), expr_view(s[s.len() - 1].1)),
        )
    }
}

pub broadcast proof fn lemma_exprs_view(s: Seq<Expr>)
    ensures
        #[trigger] exprs_view(s).len() == s.len(),
        forall|i: int| 0 <= i < s.len() ==> #[trigger] exprs_view(s)[i] == expr_view(s[i]),
    decreases s.len(),
{
    if s.len() > 0 {
        lemma_exprs_view(s.subrange(0, s.len() - 1));
    }
}

pub broadcast proof fn lemma_entries_view(s: Seq<(Expr, Expr)>)
    ensures
        #[trigger] entries_view(s).len() == s.len(),
        forall|i: int|
            0 <= i < s.len() ==> #[trigger] entries_view(s)[i] == (expr_view(s[i].0), expr_view(s[i].1)),
    decreases s.len(),
{
    if s.len() > 0 {
        lemma_entries_view(s.subrange(0, s.len() - 1));
    }
}

impl View for Expr {
    type V = ExprView;

    open spec fn view(&self) -> ExprView {
        expr_view(*self)
    }
}

impl View for Method {
    type V = MethodView;

    open spec fn view(&self) -> MethodView {
        MethodView {
            id: self.id@,
            selector: Box::new(expr_view(*self.selector)),
            arity: self.arity,
            args: exprs_view(self.args@),
            function: exprs_view(self.function@),
            closure: self.closure,
        }
    }
}

impl View for Fn {
    type V = FnView;

    open spec fn view(&self) -> FnView {
        FnView {
            id: self.id@,
            arity: self.arity,
            args: exprs_view(self.args@),
            function: exprs_view(self.function@),
            closure: self.closure,
        }
    }
}

impl View for HMap {
    type V = Seq<(ExprView, ExprView)>;

    open spec fn view(&self) -> Seq<(ExprView, ExprView)> {
        entries_view(self.entries@)
    }
}

/// Equality of expressions: metadata-free structural equality, numbers by value,
/// callables by their ids, maps entry by entry in key order.
pub open spec fn view_eq(a: ExprView, b: ExprView) -> bool
    decreases a, 0int,
{
    match (a, b) {
        (ExprView::Symbol(x), ExprView::Symbol(y)) => x == y,
        (ExprView::HMap(x), ExprView::HMap(y)) => entries_eq(x, y),
        (ExprView::Vector(x), ExprView::Vector(y)) => items_eq(x, y),
        (ExprView::Boolean(x), ExprView::Boolean(y)) => x == y,
        (ExprView::Number(x), ExprView::Number(y)) => x.same_value(y),
        (ExprView::String(x), ExprView::String(y)) => x == y,
        (ExprView::Keyword(x), ExprView::Keyword(y)) => x == y,
        (ExprView::List(x), ExprView::List(y)) => items_eq(x, y),
        (ExprView::MethodList(x), ExprView::MethodList(y)) => items_eq(x, y),
        (ExprView::NativeFn(x), ExprView::NativeFn(y)) => x.id == y.id,
        (ExprView::Fn(x), ExprView::Fn(y)) => x.id == y.id,
        (ExprView::Method(x), ExprView::Method(y)) => x.id == y.id,
        (ExprView::Ampersand, ExprView::Ampersand) => true,
        (ExprView::Nil, ExprView::Nil) => true,
        _ => false,
    }
}

/// Pointwise equality of two sequences of expressions.
pub open spec fn items_eq(x: Seq<ExprView>, y: Seq<ExprView>) -> bool
    decreases x, 0int,
{
    if x.len() == 0 {
        y.len() == 0
    } else {
        y.len() > 0 && view_eq(x[0], y[0]) && items_eq(x.subrange(1, x.len() as int), y.subrange(1, y.len() as int))
    }
}

/// Pointwise equality of two sequences of map entries, keys and values.
pub open spec fn entries_eq(x: Seq<(ExprView, ExprView)>, y: Seq<(ExprView, ExprView)>) -> bool
    decreases x, 0int,
{
    if x.len() == 0 {
        y.len() == 0
    } else {
        &&& y.len() > 0
        &&& view_eq(x[0].0, y[0].0)
        &&& view_eq(x[0].1, y[0].1)
        &&& entries_eq(x.subrange(1, x.len() as int), y.subrange(1, y.len() as int))
    }
}

pub proof fn lemma_items_eq(x: Seq<ExprView>, y: Seq<ExprView>)
    ensures
        items_eq(x, y) <==> (x.len() == y.len() && forall|i: int|
            0 <= i < x.len() ==> #[trigger] view_eq(x[i], y[i])),
    decreases x.len(),
{
    if x.len() > 0 && y.len() > 0 {
        let xs = x.subrange(1, x.len() as int);
        let ys = y.subrange(1, y.len() as int);
        lemma_items_eq(xs, ys);
        assert(items_eq(x, y) == (view_eq(x[0], y[0]) && items_eq(xs, ys)));
        if x.len() == y.len() && forall|i: int| 0 <= i < x.len() ==> #[trigger] view_eq(x[i], y[i]) {
            assert forall|i: int| 0 <= i < xs.len() implies #[trigger] view_eq(xs[i], ys[i]) by {
                assert(view_eq(x[i + 1], y[i + 1]));
            }
        }
        if items_eq(x, y) {
            assert forall|i: int| 0 <= i < x.len() implies #[trigger] view_eq(x[i], y[i]) by {
                if i > 0 {
                    assert(view_eq(xs[i - 1], ys[i - 1]));
                }
            }
        }
    }
}

pub proof fn lemma_entries_eq(x: Seq<(ExprView, ExprView)>, y: Seq<(ExprView, ExprView)>)
    ensures
        entries_eq(x, y) <==> (x.len() == y.len() && forall|i: int|
            0 <= i < x.len() ==> view_eq(#[trigger] x[i].0, y[i].0) && view_eq(x[i].1, y[i].1)),
    decreases x.len(),
{
    if x.len() > 0 && y.len() > 0 {
        let xs = x.subrange(1, x.len() as int);
        let ys = y.subrange(1, y.len() as int);
        lemma_entries_eq(xs, ys);
        assert(entries_eq(x, y) == (view_eq(x[0].0, y[0].0) && view_eq(x[0].1, y[0].1) && entries_eq(xs, ys)));
        if x.len() == y.len() && forall|i: int|
            0 <= i < x.len() ==> view_eq(#[trigger] x[i].0, y[i].0) && view_eq(x[i].1, y[i].1) {
            assert forall|i: int| 0 <= i < xs.len() implies view_eq(#[trigger] xs[i].0, ys[i].0) && view_eq(
                xs[i].1,
                ys[i].1,
            ) by {
                assert(view_eq(x[i + 1].0, y[i + 1].0));
            }
        }
        if entries_eq(x, y) {
            assert forall|i: int| 0 <= i < x.len() implies view_eq(#[trigger] x[i].0, y[i].0) && view_eq(
                x[i].1,
                y[i].1,
            ) by {
                if i > 0 {
                    assert(view_eq(xs[i - 1].0, ys[i - 1].0));
                }
            }
        }
    }
}

fn items_equal(x: &Vec<Expr>, y: &Vec<Expr>, Ghost(outer): Ghost<Expr>) -> (r: bool)
    requires
        forall|i: int| 0 <= i < x@.len() ==> decreases_to!(outer => #[trigger] x@[i]),
    ensures
        r == items_eq(exprs_view(x@), exprs_view(y@)),
    decreases outer, 0int,
{
    proof {
        lemma_exprs_view(x@);
        lemma_exprs_view(y@);
        lemma_items_eq(exprs_view(x@), exprs_view(y@));
    }
    if x.len() != y.len() {
        return false;
    }
    let mut i: usize = 0;
    while i < x.len()
        invariant
            x@.len() == y@.len(),
            i <= x@.len(),
            forall|k: int| 0 <= k < x@.len() ==> decreases_to!(outer => #[trigger] x@[k]),
            forall|k: int| 0 <= k < i ==> #[trigger] view_eq(expr_view(x@[k]), expr_view(y@[k])),
        decreases x@.len() - i,
    {
        proof {
            lemma_exprs_view(x@);
            lemma_exprs_view(y@);
        }
        assert(decreases_to!(outer => x@[i as int]));
        if !expr_equal(&x[i], &y[i]) {
            proof {
                lemma_items_eq(exprs_view(x@), exprs_view(y@));
            }
            assert(!view_eq(exprs_view(x@)[i as int], exprs_view(y@)[i as int]));
            return false;
        }
        i = i + 1;
    }
    true
}

fn entries_equal(x: &Vec<(Expr, Expr)>, y: &Vec<(Expr, Expr)>, Ghost(outer): Ghost<Expr>) -> (r: bool)
    requires
        forall|i: int|
            #![trigger x@[i]]
            0 <= i < x@.len() ==> decreases_to!(outer => x@[i].0) && decreases_to!(outer => x@[i].1),
    ensures
        r == view_eq(ExprView::HMap(entries_view(x@)), ExprView::HMap(entries_view(y@))),
    decreases outer, 0int,
{
    let ghost xv = entries_view(x@);
    let ghost yv = entries_view(y@);
    proof {
        lemma_entries_view(x@);
        lemma_entries_view(y@);
        lemma_entries_eq(xv, yv);
    }
    if x.len() != y.len() {
        return false;
    }
    let mut i: usize = 0;
    while i < x.len()
        invariant
            xv == entries_view(x@),
            yv == entries_view(y@),
            xv.len() == x@.len(),
            yv.len() == y@.len(),
            x@.len() == y@.len(),
            forall|k: int| 0 <= k < x@.len() ==> #[trigger] xv[k] == (expr_view(x@[k].0), expr_view(x@[k].1)),
            forall|k: int| 0 <= k < y@.len() ==> #[trigger] yv[k] == (expr_view(y@[k].0), expr_view(y@[k].1)),
            i <= x@.len(),
            forall|k: int|
                #![trigger x@[k]]
                0 <= k < x@.len() ==> decreases_to!(outer => x@[k].0) && decreases_to!(outer => x@[k].1),
            forall|k: int| 0 <= k < i ==> view_eq(#[trigger] xv[k].0, yv[k].0) && view_eq(xv[k].1, yv[k].1),
        decreases x@.len() - i,
    {
        assert(decreases_to!(outer => x@[i as int].0));
        assert(decreases_to!(outer => x@[i as int].1));
        if !(expr_equal(&x[i].0, &y[i].0) && expr_equal(&x[i].1, &y[i].1)) {
            proof {
                lemma_entries_eq(xv, yv);
                assert(!(view_eq(xv[i as int].0, yv[i as int].0) && view_eq(xv[i as int].1, yv[i as int].1)));
                assert(view_eq(ExprView::HMap(xv), ExprView::HMap(yv)) == entries_eq(xv, yv));
                assert(xv.len() == yv.len());
                assert(entries_eq(xv, yv) ==> view_eq(xv[i as int].0, yv[i as int].0));
                assert(!entries_eq(xv, yv));
            }
            return false;
        }
        i = i + 1;
    }
    proof {
        lemma_entries_eq(xv, yv);
    }
    true
}

/// Whether two strings hold the same characters.
pub fn text_eq(a: &String, b: &String) -> (r: bool)
    ensures
        r == (a@ == b@),
{
    a.eq(b)
}

/// Whether two expressions are equal (see `view_eq`).
pub fn expr_equal(a: &Expr, b: &Expr) -> (r: bool)
    ensures
        r == view_eq(a@, b@),
    decreases *a, 1int,
{
    proof {
        assert(a@ == expr_view(*a));
        assert(b@ == expr_view(*b));
    }
    let r = match (a, b) {
        (Expr::Symbol(x), Expr::Symbol(y)) => text_eq(x, y),
        (Expr::HMap(x), Expr::HMap(y)) => entries_equal(&x.entries, &y.entries, Ghost(*a)),
        (Expr::Vector(x), Expr::Vector(y)) => items_equal(x, y, Ghost(*a)),
        (Expr::Boolean(x), Expr::Boolean(y)) => *x == *y,
        (Expr::Number(x), Expr::Number(y)) => x.equals(y),
        (Expr::String(x), Expr::String(y)) => text_eq(x, y),
        (Expr::Keyword(x), Expr::Keyword(y)) => text_eq(x, y),
        (Expr::List(x), Expr::List(y)) => items_equal(x, y, Ghost(*a)),
        (Expr::MethodList(x), Expr::MethodList(y)) => items_equal(x, y, Ghost(*a)),
        (Expr::NativeFn(x), Expr::NativeFn(y)) => text_eq(&x.id, &y.id),
        (Expr::Fn(x), Expr::Fn(y)) => text_eq(&x.id, &y.id),
        (Expr::Method(x), Expr::Method(y)) => text_eq(&x.id, &y.id),
        (Expr::Ampersand, Expr::Ampersand) => true,
        (Expr::Nil, Expr::Nil) => true,
        _ => {
            assert(!view_eq(a@, b@)) by {
                reveal_with_fuel(view_eq, 1);
            }
            false
        },
    };
    r
}

impl PartialEq for Expr {
    fn eq(&self, other: &Self) -> (r: bool) {
        expr_equal(self, other)
    }
}

impl vstd::std_specs::cmp::PartialEqSpecImpl for Expr {
    open spec fn obeys_eq_spec() -> bool {
        true
    }

    open spec fn eq_spec(&self, other: &Expr) -> bool {
        view_eq(self@, other@)
    }
}

} // verus!

verus! {

// ---------------------------------------------------------------------------
// Text of expressions
// ---------------------------------------------------------------------------

/// The text that printing shows for a value.
pub open spec fn display_text(e: ExprView) -> Seq<char>
    decreases e, 0int,
{
    match e {
        ExprView::Number(n) => n.text(),
        ExprView::Symbol(s) => s,
        ExprView::Keyword(s) => s,
        ExprView::String(s) => s,
        ExprView::Boolean(b) => if b { "true"@ } else { "false"@ },
        ExprView::Vector(v) => "["@ + display_items(v) + "]"@,
        ExprView::HMap(m) => "{"@ + display_entries(m) + "}"@,
        ExprView::Nil => "nil"@,
        _ => debug_text(e),
    }
}

/// The texts of the items, separated by single spaces.
pub open spec fn display_items(s: Seq<ExprView>) -> Seq<char>
    decreases s, 0int,
{
    if s.len() == 0 {
        Seq::empty()
    } else if s.len() == 1 {
        display_text(s[0])
    } else {
        display_items(s.subrange(0, s.len() - 1)) + " "@ + display_text(s[s.len() - 1])
    }
}

/// The texts of the entries ("key value"), separated by single spaces.
pub open spec fn display_entries(m: Seq<(ExprView, ExprView)>) -> Seq<char>
    decreases m, 0int,
{
    if m.len() == 0 {
        Seq::empty()
    } else if m.len() == 1 {
        display_text(m[0].0) + " "@ + display_text(m[0].1)
    } else {
        display_entries(m.subrange(0, m.len() - 1)) + " "@ + display_text(m[m.len() - 1].0) + " "@
            + display_text(m[m.len() - 1].1)
    }
}

/// The debugging text of an expression: the variant's name and its contents.
pub open spec fn debug_text(e: ExprView) -> Seq<char>
    decreases e, 0int,
{
    match e {
        ExprView::List(v) => "List("@ + debug_seq(v) + ")"@,
        ExprView::MethodList(v) => "MethodList("@ + debug_seq(v) + ")"@,
        ExprView::Number(n) => "Number(OrderedFloat("@ + n.debug_text() + "))"@,
        ExprView::Boolean(b) => if b { "Boolean(true)"@ } else { "Boolean(false)"@ },
        ExprView::String(s) => "String("@ + str_debug_text(s) + ")"@,
        ExprView::Keyword(s) => "Keyword("@ + str_debug_text(s) + ")"@,
        ExprView::Symbol(s) => "Symbol("@ + str_debug_text(s) + ")"@,
        ExprView::Vector(v) => "Vector("@ + debug_seq(v) + ")"@,
        ExprView::HMap(m) => "Map({"@ + debug_entries(m) + "})"@,
        ExprView::NativeFn(f) => "NativeFn(NativeCallable { id: "@ + str_debug_text(f.id) + " })"@,
        ExprView::Fn(f) => "Fn(Fn { id: "@ + str_debug_text(f.id) + " })"@,
        ExprView::Method(m) => "Method(Method { id: "@ + str_debug_text(m.id) + " })"@,
        ExprView::Ampersand => "Ampersand"@,
        ExprView::Nil => "Nil"@,
    }
}

/// The debugging text of a sequence: the items' texts between brackets,
/// separated by ", ".
pub open spec fn debug_seq(s: Seq<ExprView>) -> Seq<char>
    decreases s, 1int,
{
    "["@ + debug_items(s) + "]"@
}

pub open spec fn debug_items(s: Seq<ExprView>) -> Seq<char>
    decreases s, 0int,
{
    if s.len() == 0 {
        Seq::empty()
    } else if s.len() == 1 {
        debug_text(s[0])
    } else {
        debug_items(s.subrange(0, s.len() - 1)) + ", "@ + debug_text(s[s.len() - 1])
    }
}

pub open spec fn debug_entries(m: Seq<(ExprView, ExprView)>) -> Seq<char>
    decreases m, 0int,
{
    if m.len() == 0 {
        Seq::empty()
    } else if m.len() == 1 {
        debug_text(m[0].0) + ": "@ + debug_text(m[0].1)
    } else {
        debug_entries(m.subrange(0, m.len() - 1)) + ", "@ + debug_text(m[m.len() - 1].0) + ": "@
            + debug_text(m[m.len() - 1].1)
    }
}

fn push_debug_items(v: &Vec<Expr>, out: &mut Vec<char>, Ghost(outer): Ghost<Expr>)
    requires
        forall|i: int| 0 <= i < v@.len() ==> decreases_to!(outer => #[trigger] v@[i]),
    ensures
        final(out)@ == old(out)@ + debug_items(exprs_view(v@)),
    decreases outer, 0int,
{
    let ghost vs = exprs_view(v@);
    proof {
        lemma_exprs_view(v@);
    }
    let mut i: usize = 0;
    while i < v.len()
        invariant
            vs == exprs_view(v@),
            vs.len() == v@.len(),
            forall|k: int| 0 <= k < v@.len() ==> #[trigger] vs[k] == expr_view(v@[k]),
            forall|k: int| 0 <= k < v@.len() ==> decreases_to!(outer => #[trigger] v@[k]),
            i <= v@.len(),
            out@ == old(out)@ + debug_items(vs.subrange(0, i as int)),
        decreases v@.len() - i,
    {
        let ghost before = out@;
        assert(decreases_to!(outer => v@[i as int]));
        if i > 0 {
            push_str(out, ", ");
        }
        push_debug(&v[i], out);
        proof {
            let p = vs.subrange(0, i + 1);
            assert(p.subrange(0, p.len() - 1) =~= vs.subrange(0, i as int));
            assert(p[p.len() - 1] == vs[i as int]);
            if i == 0 {
                assert(out@ =~= old(out)@ + debug_items(p));
            } else {
                assert(out@ =~= old(out)@ + debug_items(p));
            }
        }
        i = i + 1;
    }
    assert(vs.subrange(0, v@.len() as int) =~= vs);
}

fn push_debug_seq(v: &Vec<Expr>, out: &mut Vec<char>, Ghost(outer): Ghost<Expr>)
    requires
        forall|i: int| 0 <= i < v@.len() ==> decreases_to!(outer => #[trigger] v@[i]),
    ensures
        final(out)@ == old(out)@ + debug_seq(exprs_view(v@)),
    decreases outer, 1int,
{
    push_str(out, "[");
    push_debug_items(v, out, Ghost(outer));
    push_str(out, "]");
    assert(out@ =~= old(out)@ + debug_seq(exprs_view(v@)));
}

fn push_debug_entries(m: &Vec<(Expr, Expr)>, out: &mut Vec<char>, Ghost(outer): Ghost<Expr>)
    requires
        forall|i: int|
            #![trigger m@[i]]
            0 <= i < m@.len() ==> decreases_to!(outer => m@[i].0) && decreases_to!(outer => m@[i].1),
    ensures
        final(out)@ == old(out)@ + debug_entries(entries_view(m@)),
    decreases outer, 0int,
{
    let ghost ms = entries_view(m@);
    proof {
        lemma_entries_view(m@);
    }
    let mut i: usize = 0;
    while i < m.len()
        invariant
            ms == entries_view(m@),
            ms.len() == m@.len(),
            forall|k: int| 0 <= k < m@.len() ==> #[trigger] ms[k] == (expr_view(m@[k].0), expr_view(m@[k].1)),
            forall|k: int|
                #![trigger m@[k]]
                0 <= k < m@.len() ==> decreases_to!(outer => m@[k].0) && decreases_to!(outer => m@[k].1),
            i <= m@.len(),
            out@ == old(out)@ + debug_entries(ms.subrange(0, i as int)),
        decreases m@.len() - i,
    {
        assert(decreases_to!(outer => m@[i as int].0));
        assert(decreases_to!(outer => m@[i as int].1));
        if i > 0 {
            push_str(out, ", ");
        }
        push_debug(&m[i].0, out);
        push_str(out, ": ");
        push_debug(&m[i].1, out);
        proof {
            let p = ms.subrange(0, i + 1);
            assert(p.subrange(0, p.len() - 1) =~= ms.subrange(0, i as int));
            assert(p[p.len() - 1] == ms[i as int]);
            assert(out@ =~= old(out)@ + debug_entries(p));
        }
        i = i + 1;
    }
    assert(ms.subrange(0, m@.len() as int) =~= ms);
}

fn push_string_debug(s: &String, out: &mut Vec<char>)
    ensures
        final(out)@ == old(out)@ + str_debug_text(s@),
{
    let d = str_debug(s.as_str());
    push_str(out, d.as_str());
}

/// Appends the debugging text of an expression.
pub fn push_debug(e: &Expr, out: &mut Vec<char>)
    ensures
        final(out)@ == old(out)@ + debug_text(e@),
    decreases *e, 2int,
{
    proof {
        assert(e@ == expr_view(*e));
    }
    match e {
        Expr::List(v) => {
            push_str(out, "List(");
            push_debug_seq(v, out, Ghost(*e));
            push_str(out, ")");
        },
        Expr::MethodList(v) => {
            push_str(out, "MethodList(");
            push_debug_seq(v, out, Ghost(*e));
            push_str(out, ")");
        },
        Expr::Number(n) => {
            push_str(out, "Number(OrderedFloat(");
            n.push_debug_text(out);
            push_str(out, "))");
        },
        Expr::Boolean(b) => {
            if *b {
                push_str(out, "Boolean(true)");
            } else {
                push_str(out, "Boolean(false)");
            }
        },
        Expr::String(s) => {
            push_str(out, "String(");
            push_string_debug(s, out);
            push_str(out, ")");
        },
        Expr::Keyword(s) => {
            push_str(out, "Keyword(");
            push_string_debug(s, out);
            push_str(out, ")");
        },
        Expr::Symbol(s) => {
            push_str(out, "Symbol(");
            push_string_debug(s, out);
            push_str(out, ")");
        },
        Expr::Vector(v) => {
            push_str(out, "Vector(");
            push_debug_seq(v, out, Ghost(*e));
            push_str(out, ")");
        },
        Expr::HMap(m) => {
            push_str(out, "Map({");
            push_debug_entries(&m.entries, out, Ghost(*e));
            push_str(out, "})");
        },
        Expr::NativeFn(f) => {
            push_str(out, "NativeFn(NativeCallable { id: ");
            push_string_debug(&f.id, out);
            push_str(out, " })");
        },
        Expr::Fn(f) => {
            push_str(out, "Fn(Fn { id: ");
            push_string_debug(&f.id, out);
            push_str(out, " })");
        },
        Expr::Method(m) => {
            push_str(out, "Method(Method { id: ");
            push_string_debug(&m.id, out);
            push_str(out, " })");
        },
        Expr::Ampersand => {
            push_str(out, "Ampersand");
        },
        Expr::Nil => {
            push_str(out, "Nil");
        },
    }
    assert(out@ =~= old(out)@ + debug_text(e@));
}

} // verus!

verus! {

fn push_display_items(v: &Vec<Expr>, out: &mut Vec<char>, Ghost(outer): Ghost<Expr>)
    requires
        forall|i: int| 0 <= i < v@.len() ==> decreases_to!(outer => #[trigger] v@[i]),
    ensures
        final(out)@ == old(out)@ + display_items(exprs_view(v@)),
    decreases outer, 0int,
{
    let ghost vs = exprs_view(v@);
    proof {
        lemma_exprs_view(v@);
    }
    let mut i: usize = 0;
    while i < v.len()
        invariant
            vs == exprs_view(v@),
            vs.len() == v@.len(),
            forall|k: int| 0 <= k < v@.len() ==> #[trigger] vs[k] == expr_view(v@[k]),
            forall|k: int| 0 <= k < v@.len() ==> decreases_to!(outer => #[trigger] v@[k]),
            i <= v@.len(),
            out@ == old(out)@ + display_items(vs.subrange(0, i as int)),
        decreases v@.len() - i,
    {
        assert(decreases_to!(outer => v@[i as int]));
        if i > 0 {
            push_str(out, " ");
        }
        push_display(&v[i], out);
        proof {
            let p = vs.subrange(0, i + 1);
            assert(p.subrange(0, p.len() - 1) =~= vs.subrange(0, i as int));
            assert(p[p.len() - 1] == vs[i as int]);
            assert(out@ =~= old(out)@ + display_items(p));
        }
        i = i + 1;
    }
    assert(vs.subrange(0, v@.len() as int) =~= vs);
}

fn push_display_entries(m: &Vec<(Expr, Expr)>, out: &mut Vec<char>, Ghost(outer): Ghost<Expr>)
    requires
        forall|i: int|
            #![trigger m@[i]]
            0 <= i < m@.len() ==> decreases_to!(outer => m@[i].0) && decreases_to!(outer => m@[i].1),
    ensures
        final(out)@ == old(out)@ + display_entries(entries_view(m@)),
    decreases outer, 0int,
{
    let ghost ms = entries_view(m@);
    proof {
        lemma_entries_view(m@);
    }
    let mut i: usize = 0;
    while i < m.len()
        invariant
            ms == entries_view(m@),
            ms.len() == m@.len(),
            forall|k: int| 0 <= k < m@.len() ==> #[trigger] ms[k] == (expr_view(m@[k].0), expr_view(m@[k].1)),
            forall|k: int|
                #![trigger m@[k]]
                0 <= k < m@.len() ==> decreases_to!(outer => m@[k].0) && decreases_to!(outer => m@[k].1),
            i <= m@.len(),
            out@ == old(out)@ + display_entries(ms.subrange(0, i as int)),
        decreases m@.len() - i,
    {
        assert(decreases_to!(outer => m@[i as int].0));
        assert(decreases_to!(outer => m@[i as int].1));
        if i > 0 {
            push_str(out, " ");
        }
        push_display(&m[i].0, out);
        push_str(out, " ");
        push_display(&m[i].1, out);
        proof {
            let p = ms.subrange(0, i + 1);
            assert(p.subrange(0, p.len() - 1) =~= ms.subrange(0, i as int));
            assert(p[p.len() - 1] == ms[i as int]);
            assert(out@ =~= old(out)@ + display_entries(p));
        }
        i = i + 1;
    }
    assert(ms.subrange(0, m@.len() as int) =~= ms);
}

/// Appends the text that printing shows for a value.
pub fn push_display(e: &Expr, out: &mut Vec<char>)
    ensures
        final(out)@ == old(out)@ + display_text(e@),
    decreases *e, 1int,
{
    proof {
        assert(e@ == expr_view(*e));
    }
    match e {
        Expr::Number(n) => {
            n.push_text(out);
        },
        Expr::Symbol(s) => {
            push_str(out, s.as_str());
        },
        Expr::Keyword(s) => {
            push_str(out, s.as_str());
        },
        Expr::String(s) => {
            push_str(out, s.as_str());
        },
        Expr::Boolean(b) => {
            if *b {
                push_str(out, "true");
            } else {
                push_str(out, "false");
            }
        },
        Expr::Vector(v) => {
            push_str(out, "[");
            push_display_items(v, out, Ghost(*e));
            push_str(out, "]");
        },
        Expr::HMap(m) => {
            push_str(out, "{");
            push_display_entries(&m.entries, out, Ghost(*e));
            push_str(out, "}");
        },
        Expr::Nil => {
            push_str(out, "nil");
        },
        _ => {
            push_debug(e, out);
        },
    }
    assert(out@ =~= old(out)@ + display_text(e@));
}

/// The text that printing shows for a value.
pub fn to_display_string(e: &Expr) -> (s: String)
    ensures
        s@ == display_text(e@),
{
    let mut out: Vec<char> = Vec::new();
    push_display(e, &mut out);
    assert(out@ =~= display_text(e@));
    chars_to_string(&out)
}

/// The debugging text of an expression.
pub fn to_debug_string(e: &Expr) -> (s: String)
    ensures
        s@ == debug_text(e@),
{
    let mut out: Vec<char> = Vec::new();
    push_debug(e, &mut out);
    assert(out@ =~= debug_text(e@));
    chars_to_string(&out)
}

} // verus!

verus! {

// ---------------------------------------------------------------------------
// Copies
// ---------------------------------------------------------------------------

fn copy_items(v: &Vec<Expr>, Ghost(outer): Ghost<Expr>) -> (r: Vec<Expr>)
    requires
        forall|i: int| 0 <= i < v@.len() ==> decreases_to!(outer => #[trigger] v@[i]),
    ensures
        exprs_view(r@) == exprs_view(v@),
    decreases outer, 0int,
{
    let mut r: Vec<Expr> = Vec::new();
    let mut i: usize = 0;
    while i < v.len()
        invariant
            forall|k: int| 0 <= k < v@.len() ==> decreases_to!(outer => #[trigger] v@[k]),
            i <= v@.len(),
            r@.len() == i,
            forall|k: int| 0 <= k < i ==> #[trigger] expr_view(r@[k]) == expr_view(v@[k]),
        decreases v@.len() - i,
    {
        assert(decreases_to!(outer => v@[i as int]));
        let c = v[i].copy();
        r.push(c);
        i = i + 1;
    }
    proof {
        lemma_exprs_view(r@);
        lemma_exprs_view(v@);
        assert(exprs_view(r@) =~= exprs_view(v@));
    }
    r
}

fn copy_entries(m: &Vec<(Expr, Expr)>, Ghost(outer): Ghost<Expr>) -> (r: Vec<(Expr, Expr)>)
    requires
        forall|i: int|
            #![trigger m@[i]]
            0 <= i < m@.len() ==> decreases_to!(outer => m@[i].0) && decreases_to!(outer => m@[i].1),
    ensures
        entries_view(r@) == entries_view(m@),
    decreases outer, 0int,
{
    let mut r: Vec<(Expr, Expr)> = Vec::new();
    let mut i: usize = 0;
    while i < m.len()
        invariant
            forall|k: int|
                #![trigger m@[k]]
                0 <= k < m@.len() ==> decreases_to!(outer => m@[k].0) && decreases_to!(outer => m@[k].1),
            i <= m@.len(),
            r@.len() == i,
            forall|k: int|
                0 <= k < i ==> #[trigger] expr_view(r@[k].0) == expr_view(m@[k].0) && expr_view(r@[k].1)
                    == expr_view(m@[k].1),
        decreases m@.len() - i,
    {
        assert(decreases_to!(outer => m@[i as int].0));
        assert(decreases_to!(outer => m@[i as int].1));
        let a = m[i].0.copy();
        let b = m[i].1.copy();
        r.push((a, b));
        i = i + 1;
    }
    proof {
        lemma_entries_view(r@);
        lemma_entries_view(m@);
        assert(entries_view(r@) =~= entries_view(m@));
    }
    r
}

impl Expr {
    /// A copy of the expression, with the same value.
    pub fn copy(&self) -> (r: Expr)
        ensures
            r@ == self@,
        decreases *self, 1int,
    {
        proof {
            assert(self@ == expr_view(*self));
        }
        let r = match self {
            Expr::List(v) => Expr::List(copy_items(v, Ghost(*self))),
            Expr::MethodList(v) => Expr::MethodList(copy_items(v, Ghost(*self))),
            Expr::Number(n) => Expr::Number(*n),
            Expr::Boolean(b) => Expr::Boolean(*b),
            Expr::String(s) => Expr::String(s.clone()),
            Expr::Keyword(s) => Expr::Keyword(s.clone()),
            Expr::Symbol(s) => Expr::Symbol(s.clone()),
            Expr::Vector(v) => Expr::Vector(copy_items(v, Ghost(*self))),
            Expr::HMap(m) => Expr::HMap(HMap { entries: copy_entries(&m.entries, Ghost(*self)) }),
            Expr::NativeFn(f) => Expr::NativeFn(NativeFn { id: f.id.clone(), arity: f.arity, function: f.function }),
            Expr::Fn(f) => Expr::Fn(
                Fn {
                    id: f.id.clone(),
                    arity: f.arity,
                    args: copy_items(&f.args, Ghost(*self)),
                    function: copy_items(&f.function, Ghost(*self)),
                    closure: f.closure,
                },
            ),
            Expr::Method(m) => {
                assert(decreases_to!(*self => *m.selector));
                let sel = m.selector.copy();
                Expr::Method(
                    Method {
                        id: m.id.clone(),
                        selector: Box::new(sel),
                        arity: m.arity,
                        args: copy_items(&m.args, Ghost(*self)),
                        function: copy_items(&m.function, Ghost(*self)),
                        closure: m.closure,
                    },
                )
            },
            Expr::Ampersand => Expr::Ampersand,
            Expr::Nil => Expr::Nil,
        };
        r
    }
}

impl Method {
    /// A copy of the method, with the same value.
    pub fn copy(&self) -> (r: Method)
        ensures
            r@ == self@,
    {
        let sel = self.selector.copy();
        Method {
            id: self.id.clone(),
            selector: Box::new(sel),
            arity: self.arity,
            args: copy_exprs(self.args.as_slice()),
            function: copy_exprs(self.function.as_slice()),
            closure: self.closure,
        }
    }
}

/// Copies a sequence of expressions.
pub fn copy_exprs(v: &[Expr]) -> (r: Vec<Expr>)
    ensures
        exprs_view(r@) == exprs_view(v@),
{
    let mut r: Vec<Expr> = Vec::new();
    let mut i: usize = 0;
    while i < v.len()
        invariant
            i <= v@.len(),
            r@.len() == i,
            forall|k: int| 0 <= k < i ==> #[trigger] expr_view(r@[k]) == expr_view(v@[k]),
        decreases v@.len() - i,
    {
        r.push(v[i].copy());
        i = i + 1;
    }
    proof {
        lemma_exprs_view(r@);
        lemma_exprs_view(v@);
        assert(exprs_view(r@) =~= exprs_view(v@));
    }
    r
}

// ---------------------------------------------------------------------------
// Maps
// ---------------------------------------------------------------------------

/// `i` is the first position of `m` whose key is equal to `k` in the order of
/// expressions (see `expr_order`).
pub open spec fn first_key(m: Seq<(ExprView, ExprView)>, k: ExprView, i: int) -> bool {
    &&& 0 <= i < m.len()
    &&& expr_order(k, m[i].0) == 0
    &&& forall|j: int| 0 <= j < i ==> expr_order(k, #[trigger] m[j].0) != 0
}

/// The value of the first entry whose key is equal to `k`.
pub open spec fn map_lookup(m: Seq<(ExprView, ExprView)>, k: ExprView) -> Option<ExprView> {
    if exists|i: int| first_key(m, k, i) {
        Some(m[choose|i: int| first_key(m, k, i)].1)
    } else {
        None
    }
}

/// `m`, ordered by keys, after binding `k` to `v`: an entry with an equal key
/// keeps its key and takes the value; otherwise `(k, v)` goes before the
/// first greater key.
pub open spec fn map_insert(m: Seq<(ExprView, ExprView)>, k: ExprView, v: ExprView) -> Seq<(ExprView, ExprView)>
    decreases m.len(),
{
    if m.len() == 0 {
        seq![(k, v)]
    } else {
        let c = expr_order(k, m[0].0);
        if c < 0 {
            seq![(k, v)] + m
        } else if c == 0 {
            m.update(0, (m[0].0, v))
        } else {
            seq![m[0]] + map_insert(m.drop_first(), k, v)
        }
    }
}

pub proof fn lemma_first_key_unique(m: Seq<(ExprView, ExprView)>, k: ExprView, i: int, j: int)
    requires
        first_key(m, k, i),
        first_key(m, k, j),
    ensures
        i == j,
{
    if i < j {
        assert(expr_order(k, m[i].0) != 0);
    } else if j < i {
        assert(expr_order(k, m[j].0) != 0);
    }
}

/// Inserting after a prefix of smaller keys.
proof fn lemma_map_insert_prefix(m: Seq<(ExprView, ExprView)>, k: ExprView, v: ExprView, i: int)
    requires
        0 <= i <= m.len(),
        forall|j: int| 0 <= j < i ==> expr_order(k, #[trigger] m[j].0) > 0,
    ensures
        map_insert(m, k, v) == m.subrange(0, i) + map_insert(m.subrange(i, m.len() as int), k, v),
    decreases i,
{
    if i > 0 {
        let t = m.drop_first();
        assert forall|j: int| 0 <= j < i - 1 implies expr_order(k, #[trigger] t[j].0) > 0 by {
            assert(t[j] == m[j + 1]);
        }
        lemma_map_insert_prefix(t, k, v, i - 1);
        assert(t.subrange(i - 1, t.len() as int) =~= m.subrange(i, m.len() as int));
        assert(seq![m[0]] + t.subrange(0, i - 1) =~= m.subrange(0, i));
        assert(seq![m[0]] + (t.subrange(0, i - 1) + map_insert(m.subrange(i, m.len() as int), k, v)) =~= m.subrange(
            0,
            i,
        ) + map_insert(m.subrange(i, m.len() as int), k, v));
    } else {
        assert(m.subrange(0, 0) + map_insert(m.subrange(0, m.len() as int), k, v) =~= map_insert(m, k, v)) by {
            assert(m.subrange(0, m.len() as int) =~= m);
        }
    }
}

/// The position of the first entry whose key is equal to `k`.
pub fn find_key(entries: &Vec<(Expr, Expr)>, k: &Expr) -> (r: Option<usize>)
    ensures
        r matches Some(i) ==> first_key(entries_view(entries@), k@, i as int),
        r is None ==> !exists|i: int| first_key(entries_view(entries@), k@, i),
        r is None ==> forall|i: int| 0 <= i < entries@.len() ==> expr_order(k@, #[trigger] entries_view(entries@)[i].0) != 0,
{
    let ghost ms = entries_view(entries@);
    proof {
        lemma_entries_view(entries@);
    }
    let mut i: usize = 0;
    while i < entries.len()
        invariant
            ms == entries_view(entries@),
            ms.len() == entries@.len(),
            forall|q: int| 0 <= q < entries@.len() ==> #[trigger] ms[q] == (expr_view(entries@[q].0), expr_view(entries@[q].1)),
            i <= entries@.len(),
            forall|j: int| 0 <= j < i ==> expr_order(k@, #[trigger] ms[j].0) != 0,
        decreases entries@.len() - i,
    {
        if expr_compare(k, &entries[i].0) == 0 {
            return Some(i);
        }
        i = i + 1;
    }
    None
}

impl HMap {
    pub fn new() -> (m: HMap)
        ensures
            m@ == Seq::<(ExprView, ExprView)>::empty(),
    {
        let m = HMap { entries: Vec::new() };
        assert(m@ =~= Seq::<(ExprView, ExprView)>::empty());
        m
    }

    /// Binds `k` to `v` (see `map_insert`).
    pub fn insert(&mut self, k: Expr, v: Expr)
        ensures
            final(self)@ == map_insert(old(self)@, k@, v@),
    {
        let ghost m = self@;
        proof {
            lemma_entries_view(self.entries@);
        }
        let mut i: usize = 0;
        while i < self.entries.len() && expr_compare(&k, &self.entries[i].0) > 0
            invariant
                m == self@,
                m == entries_view(self.entries@),
                m.len() == self.entries@.len(),
                forall|q: int|
                    0 <= q < self.entries@.len() ==> #[trigger] m[q] == (
                        expr_view(self.entries@[q].0),
                        expr_view(self.entries@[q].1),
                    ),
                i <= m.len(),
                forall|j: int| 0 <= j < i ==> expr_order(k@, #[trigger] m[j].0) > 0,
            decreases m.len() - i,
        {
            i = i + 1;
        }
        proof {
            lemma_map_insert_prefix(m, k@, v@, i as int);
        }
        let ghost rest = m.subrange(i as int, m.len() as int);
        if i < self.entries.len() && expr_compare(&k, &self.entries[i].0) == 0 {
            let ghost key = m[i as int].0;
            let ghost kv = k@;
            let ghost vv = v@;
            self.entries.set(i, (self.entries[i].0.copy(), v));
            proof {
                lemma_entries_view(self.entries@);
                assert(rest.update(0, (rest[0].0, vv)) =~= rest.subrange(0, 0) + seq![(key, vv)] + rest.drop_first());
                assert(self@ =~= m.subrange(0, i as int) + rest.update(0, (rest[0].0, vv)));
            }
        } else {
            let ghost kv = k@;
            let ghost vv = v@;
            self.entries.insert(i, (k, v));
            proof {
                lemma_entries_view(self.entries@);
                if i < m.len() {
                    assert(self@ =~= m.subrange(0, i as int) + (seq![(kv, vv)] + rest));
                } else {
                    assert(self@ =~= m.subrange(0, i as int) + seq![(kv, vv)]);
                }
            }
        }
    }

    /// A copy of the value bound to a key equal to `k`.
    pub fn get(&self, k: &Expr) -> (r: Option<Expr>)
        ensures
            r is Some <==> map_lookup(self@, k@) is Some,
            r matches Some(x) ==> map_lookup(self@, k@) == Some(x@),
    {
        proof {
            lemma_entries_view(self.entries@);
        }
        match find_key(&self.entries, k) {
            Some(i) => {
                proof {
                    let c = choose|j: int| first_key(self@, k@, j);
                    lemma_first_key_unique(self@, k@, i as int, c);
                }
                Some(self.entries[i].1.copy())
            },
            None => None,
        }
    }

    pub fn len(&self) -> (n: usize)
        ensures
            n == self@.len(),
    {
        proof {
            lemma_entries_view(self.entries@);
        }
        self.entries.len()
    }
}

} // verus!

verus! {

// ---------------------------------------------------------------------------
// Construction
// ---------------------------------------------------------------------------

/// A string with the characters of a string slice.
pub fn owned(s: &str) -> (r: String)
    ensures
        r@ == s@,
{
    s.to_owned()
}

impl Expr {
    /// The integer `value`.
    pub fn number(value: i64) -> (r: Expr)
        ensures
            r@ matches ExprView::Number(n) && n.numer() == value && n.denom() == 1,
    {
        Expr::Number(Number::integer(value))
    }

    /// The number `num / den`.
    pub fn ratio(num: i64, den: i64) -> (r: Expr)
        requires
            den > 0,
        ensures
            r@ matches ExprView::Number(n) && n.numer() == num && n.denom() == den,
    {
        let n = Number::ratio(num, den);
        match n {
            Some(n) => Expr::Number(n),
            None => Expr::Nil,
        }
    }

    pub fn boolean(value: bool) -> (r: Expr)
        ensures
            r@ == ExprView::Boolean(value),
    {
        Expr::Boolean(value)
    }

    pub fn string(value: &str) -> (r: Expr)
        ensures
            r@ == ExprView::String(value@),
    {
        Expr::String(owned(value))
    }

    pub fn symbol(value: &str) -> (r: Expr)
        ensures
            r@ == ExprView::Symbol(value@),
    {
        Expr::Symbol(owned(value))
    }

    pub fn keyword(value: &str) -> (r: Expr)
        ensures
            r@ == ExprView::Keyword(value@),
    {
        Expr::Keyword(owned(value))
    }

    pub fn vector(exprs: &[Expr]) -> (r: Expr)
        ensures
            r@ == ExprView::Vector(exprs_view(exprs@)),
    {
        Expr::Vector(copy_exprs(exprs))
    }

    pub fn list(exprs: &[Expr]) -> (r: Expr)
        ensures
            r@ == ExprView::List(exprs_view(exprs@)),
    {
        Expr::List(copy_exprs(exprs))
    }

    pub fn method_list(exprs: &[Expr]) -> (r: Expr)
        ensures
            r@ == ExprView::MethodList(exprs_view(exprs@)),
    {
        Expr::MethodList(copy_exprs(exprs))
    }

    pub fn ampersand() -> (r: Expr)
        ensures
            r@ == ExprView::Ampersand,
    {
        Expr::Ampersand
    }

    pub fn nil() -> (r: Expr)
        ensures
            r@ == ExprView::Nil,
    {
        Expr::Nil
    }

    /// The map that binds the pairs in order, a later pair replacing the value
    /// of an earlier one with an equal key.
    pub fn map(exprs: &[(Expr, Expr)]) -> (r: Expr)
        ensures
            r@ == ExprView::HMap(pairs_map(entries_view(exprs@))),
    {
        let mut map = HMap::new();
        let mut i: usize = 0;
        proof {
            lemma_entries_view(exprs@);
        }
        while i < exprs.len()
            invariant
                i <= exprs@.len(),
                entries_view(exprs@).len() == exprs@.len(),
                forall|q: int| 0 <= q < exprs@.len() ==> #[trigger] entries_view(exprs@)[q] == (expr_view(exprs@[q].0), expr_view(exprs@[q].1)),
                map@ == pairs_map(entries_view(exprs@).subrange(0, i as int)),
            decreases exprs@.len() - i,
        {
            let k = exprs[i].0.copy();
            let v = exprs[i].1.copy();
            map.insert(k, v);
            proof {
                let p = entries_view(exprs@).subrange(0, i + 1);
                assert(p.subrange(0, p.len() - 1) =~= entries_view(exprs@).subrange(0, i as int));
            }
            i = i + 1;
        }
        assert(entries_view(exprs@).subrange(0, exprs@.len() as int) =~= entries_view(exprs@));
        Expr::HMap(map)
    }

    /// A function of the interpreter.
    pub fn native_fn(name: &str, arity: Arity, function: Builtin) -> (r: Expr)
        ensures
            r@ == ExprView::NativeFn(NativeFnView { id: name@, arity, function }),
    {
        Expr::NativeFn(NativeFn { id: owned(name), arity, function })
    }

    /// The name of a symbol; the debugging text of any other expression.
    pub fn id(&self) -> (r: String)
        ensures
            r@ == expr_id(self@),
    {
        match self {
            Expr::Symbol(name) => name.clone(),
            _ => to_debug_string(self),
        }
    }
}

/// The map that binds the pairs in order (see `map_insert`).
pub open spec fn pairs_map(pairs: Seq<(ExprView, ExprView)>) -> Seq<(ExprView, ExprView)>
    decreases pairs.len(),
{
    if pairs.len() == 0 {
        Seq::empty()
    } else {
        map_insert(
            pairs_map(pairs.subrange(0, pairs.len() - 1)),
            pairs[pairs.len() - 1].0,
            pairs[pairs.len() - 1].1,
        )
    }
}

/// The name of a symbol; the debugging text of any other expression.
pub open spec fn expr_id(e: ExprView) -> Seq<char> {
    match e {
        ExprView::Symbol(name) => name,
        _ => debug_text(e),
    }
}

impl Arity {
    /// Whether a call with `n` arguments fits.
    pub open spec fn accepts(self, n: int) -> bool {
        match self {
            Arity::Count(c) => n == c,
            Arity::Range(min, max) => min <= n <= max,
        }
    }

    /// Checks the number of arguments of a call of `name`.
    pub fn check(&self, name: &str, args: &[Expr]) -> (r: Result<(), HError>)
        ensures
            r is Ok <==> self.accepts(args@.len() as int),
            r matches Err(e) ==> e@ == HErrorView::InvalidArity(name@, *self),
    {
        let matches = match self {
            Arity::Count(num) => args.len() == *num,
            Arity::Range(min, max) => *min <= args.len() && args.len() <= *max,
        };
        if matches {
            Ok(())
        } else {
            Err(HError::InvalidArity(owned(name), *self))
        }
    }
}

} // verus!
