use vstd::prelude::*;

use crate::expr::{debug_text, expr_equal, push_debug, text_eq, view_eq, Arity, Expr, ExprView};
use crate::text::{chars_to_string, nat_text, push_nat, push_str, str_debug, str_debug_text};

verus! {

/// The errors of scanning, parsing and evaluation.
#[derive(Debug)]
pub enum HError {
    UnboundVar(String),
    UnboundMethod(String),
    UnexpectedForm(String, Expr),
    NotAFunction(String),
    NotAMethod(String),
    InvalidEmptyList(String),
    SetUninitializedVar(String),
    InvalidArity(String, Arity),
    /// Fn being called, violating Expr.
    InvalidType(String, Expr),
    ParseError(String),
    ScannerError(String),
    EnvironmentNotFound,
    /// A division by zero, or a result too large for a number.
    ArithmeticError(String),
    /// Evaluation nested deeper than the interpreter allows.
    RecursionLimit,
}

/// The mathematical value of an error.
pub enum HErrorView {
    UnboundVar(Seq<char>),
    UnboundMethod(Seq<char>),
    UnexpectedForm(Seq<char>, ExprView),
    NotAFunction(Seq<char>),
    NotAMethod(Seq<char>),
    InvalidEmptyList(Seq<char>),
    SetUninitializedVar(Seq<char>),
    InvalidArity(Seq<char>, Arity),
    InvalidType(Seq<char>, ExprView),
    ParseError(Seq<char>),
    ScannerError(Seq<char>),
    EnvironmentNotFound,
    ArithmeticError(Seq<char>),
    RecursionLimit,
}

impl View for HError {
    type V = HErrorView;

    open spec fn view(&self) -> HErrorView {
        match self {
            HError::UnboundVar(s) => HErrorView::UnboundVar(s@),
            HError::UnboundMethod(s) => HErrorView::UnboundMethod(s@),
            HError::UnexpectedForm(s, e) => HErrorView::UnexpectedForm(s@, e@),
            HError::NotAFunction(s) => HErrorView::NotAFunction(s@),
            HError::NotAMethod(s) => HErrorView::NotAMethod(s@),
            HError::InvalidEmptyList(s) => HErrorView::InvalidEmptyList(s@),
            HError::SetUninitializedVar(s) => HErrorView::SetUninitializedVar(s@),
            HError::InvalidArity(s, a) => HErrorView::InvalidArity(s@, *a),
            HError::InvalidType(s, e) => HErrorView::InvalidType(s@, e@),
            HError::ParseError(s) => HErrorView::ParseError(s@),
            HError::ScannerError(s) => HErrorView::ScannerError(s@),
            HError::EnvironmentNotFound => HErrorView::EnvironmentNotFound,
            HError::ArithmeticError(s) => HErrorView::ArithmeticError(s@),
            HError::RecursionLimit => HErrorView::RecursionLimit,
        }
    }
}

/// The value of an evaluation's outcome.
pub open spec fn result_view(r: Result<Expr, HError>) -> Result<ExprView, HErrorView> {
    match r {
        Ok(x) => Ok(x@),
        Err(e) => Err(e@),
    }
}

/// Equality of errors: the same variant with equal texts and equal expressions.
pub open spec fn error_eq(a: HErrorView, b: HErrorView) -> bool {
    match (a, b) {
        (HErrorView::UnboundVar(x), HErrorView::UnboundVar(y)) => x == y,
        (HErrorView::UnboundMethod(x), HErrorView::UnboundMethod(y)) => x == y,
        (HErrorView::UnexpectedForm(x, e), HErrorView::UnexpectedForm(y, f)) => x == y && view_eq(e, f),
        (HErrorView::NotAFunction(x), HErrorView::NotAFunction(y)) => x == y,
        (HErrorView::NotAMethod(x), HErrorView::NotAMethod(y)) => x == y,
        (HErrorView::InvalidEmptyList(x), HErrorView::InvalidEmptyList(y)) => x == y,
        (HErrorView::SetUninitializedVar(x), HErrorView::SetUninitializedVar(y)) => x == y,
        (HErrorView::InvalidArity(x, p), HErrorView::InvalidArity(y, q)) => x == y && p == q,
        (HErrorView::InvalidType(x, e), HErrorView::InvalidType(y, f)) => x == y && view_eq(e, f),
        (HErrorView::ParseError(x), HErrorView::ParseError(y)) => x == y,
        (HErrorView::ScannerError(x), HErrorView::ScannerError(y)) => x == y,
        (HErrorView::EnvironmentNotFound, HErrorView::EnvironmentNotFound) => true,
        (HErrorView::ArithmeticError(x), HErrorView::ArithmeticError(y)) => x == y,
        (HErrorView::RecursionLimit, HErrorView::RecursionLimit) => true,
        _ => false,
    }
}

impl PartialEq for HError {
    fn eq(&self, other: &Self) -> (r: bool) {
        match (self, other) {
            (HError::UnboundVar(x), HError::UnboundVar(y)) => text_eq(x, y),
            (HError::UnboundMethod(x), HError::UnboundMethod(y)) => text_eq(x, y),
            (HError::UnexpectedForm(x, e), HError::UnexpectedForm(y, f)) => text_eq(x, y) && expr_equal(e, f),
            (HError::NotAFunction(x), HError::NotAFunction(y)) => text_eq(x, y),
            (HError::NotAMethod(x), HError::NotAMethod(y)) => text_eq(x, y),
            (HError::InvalidEmptyList(x), HError::InvalidEmptyList(y)) => text_eq(x, y),
            (HError::SetUninitializedVar(x), HError::SetUninitializedVar(y)) => text_eq(x, y),
            (HError::InvalidArity(x, p), HError::InvalidArity(y, q)) => text_eq(x, y) && *p == *q,
            (HError::InvalidType(x, e), HError::InvalidType(y, f)) => text_eq(x, y) && expr_equal(e, f),
            (HError::ParseError(x), HError::ParseError(y)) => text_eq(x, y),
            (HError::ScannerError(x), HError::ScannerError(y)) => text_eq(x, y),
            (HError::EnvironmentNotFound, HError::EnvironmentNotFound) => true,
            (HError::ArithmeticError(x), HError::ArithmeticError(y)) => text_eq(x, y),
            (HError::RecursionLimit, HError::RecursionLimit) => true,
            _ => false,
        }
    }
}

impl vstd::std_specs::cmp::PartialEqSpecImpl for HError {
    open spec fn obeys_eq_spec() -> bool {
        true
    }

    open spec fn eq_spec(&self, other: &HError) -> bool {
        error_eq(self@, other@)
    }
}

/// The debugging text of an arity: `Count(n)` or `Range(min, max)`.
pub open spec fn arity_debug_text(a: Arity) -> Seq<char> {
    match a {
        Arity::Count(n) => "Count("@ + nat_text(n as nat) + ")"@,
        Arity::Range(min, max) => "Range("@ + nat_text(min as nat) + ", "@ + nat_text(max as nat) + ")"@,
    }
}

/// The debugging text of an error: the variant's name and its contents.
pub open spec fn error_debug_text(e: HErrorView) -> Seq<char> {
    match e {
        HErrorView::UnboundVar(s) => "UnboundVar("@ + str_debug_text(s) + ")"@,
        HErrorView::UnboundMethod(s) => "UnboundMethod("@ + str_debug_text(s) + ")"@,
        HErrorView::UnexpectedForm(s, x) => "UnexpectedForm("@ + str_debug_text(s) + ", "@ + debug_text(x) + ")"@,
        HErrorView::NotAFunction(s) => "NotAFunction("@ + str_debug_text(s) + ")"@,
        HErrorView::NotAMethod(s) => "NotAMethod("@ + str_debug_text(s) + ")"@,
        HErrorView::InvalidEmptyList(s) => "InvalidEmptyList("@ + str_debug_text(s) + ")"@,
        HErrorView::SetUninitializedVar(s) => "SetUninitializedVar("@ + str_debug_text(s) + ")"@,
        HErrorView::InvalidArity(s, a) => "InvalidArity("@ + str_debug_text(s) + ", "@ + arity_debug_text(a) + ")"@,
        HErrorView::InvalidType(s, x) => "InvalidType("@ + str_debug_text(s) + ", "@ + debug_text(x) + ")"@,
        HErrorView::ParseError(s) => "ParseError("@ + str_debug_text(s) + ")"@,
        HErrorView::ScannerError(s) => "ScannerError("@ + str_debug_text(s) + ")"@,
        HErrorView::EnvironmentNotFound => "EnvironmentNotFound"@,
        HErrorView::ArithmeticError(s) => "ArithmeticError("@ + str_debug_text(s) + ")"@,
        HErrorView::RecursionLimit => "RecursionLimit"@,
    }
}

fn push_arity(a: &Arity, out: &mut Vec<char>)
    ensures
        final(out)@ == old(out)@ + arity_debug_text(*a),
{
    match a {
        Arity::Count(n) => {
            push_str(out, "Count(");
            push_nat(out, *n as u64);
            push_str(out, ")");
        },
        Arity::Range(min, max) => {
            push_str(out, "Range(");
            push_nat(out, *min as u64);
            push_str(out, ", ");
            push_nat(out, *max as u64);
            push_str(out, ")");
        },
    }
    assert(out@ =~= old(out)@ + arity_debug_text(*a));
}

fn push_quoted(s: &String, out: &mut Vec<char>)
    ensures
        final(out)@ == old(out)@ + str_debug_text(s@),
{
    let d = str_debug(s.as_str());
    push_str(out, d.as_str());
}

impl HError {
    /// The debugging text of the error (see `error_debug_text`).
    pub fn debug_string(&self) -> (r: String)
        ensures
            r@ == error_debug_text(self@),
    {
        let mut out: Vec<char> = Vec::new();
        match self {
            HError::UnboundVar(s) => {
                push_str(&mut out, "UnboundVar(");
                push_quoted(s, &mut out);
            },
            HError::UnboundMethod(s) => {
                push_str(&mut out, "UnboundMethod(");
                push_quoted(s, &mut out);
            },
            HError::UnexpectedForm(s, x) => {
                push_str(&mut out, "UnexpectedForm(");
                push_quoted(s, &mut out);
                push_str(&mut out, ", ");
                push_debug(x, &mut out);
            },
            HError::NotAFunction(s) => {
                push_str(&mut out, "NotAFunction(");
                push_quoted(s, &mut out);
            },
            HError::NotAMethod(s) => {
                push_str(&mut out, "NotAMethod(");
                push_quoted(s, &mut out);
            },
            HError::InvalidEmptyList(s) => {
                push_str(&mut out, "InvalidEmptyList(");
                push_quoted(s, &mut out);
            },
            HError::SetUninitializedVar(s) => {
                push_str(&mut out, "SetUninitializedVar(");
                push_quoted(s, &mut out);
            },
            HError::InvalidArity(s, a) => {
                push_str(&mut out, "InvalidArity(");
                push_quoted(s, &mut out);
                push_str(&mut out, ", ");
                push_arity(a, &mut out);
            },
            HError::InvalidType(s, x) => {
                push_str(&mut out, "InvalidType(");
                push_quoted(s, &mut out);
                push_str(&mut out, ", ");
                push_debug(x, &mut out);
            },
            HError::ParseError(s) => {
                push_str(&mut out, "ParseError(");
                push_quoted(s, &mut out);
            },
            HError::ScannerError(s) => {
                push_str(&mut out, "ScannerError(");
                push_quoted(s, &mut out);
            },
            HError::EnvironmentNotFound => {
                push_str(&mut out, "EnvironmentNotFound");
            },
            HError::ArithmeticError(s) => {
                push_str(&mut out, "ArithmeticError(");
                push_quoted(s, &mut out);
            },
            HError::RecursionLimit => {
                push_str(&mut out, "RecursionLimit");
            },
        }
        match self {
            HError::EnvironmentNotFound | HError::RecursionLimit => {},
            _ => {
                push_str(&mut out, ")");
            },
        }
        assert(out@ =~= error_debug_text(self@));
        chars_to_string(&out)
    }
}

} // verus!
