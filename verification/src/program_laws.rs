use vstd::prelude::*;

use crate::error::HErrorView;
use crate::expr::ExprView;
use crate::laws::law_scan_ends_with_end_of_file;
use crate::parser::{parse_expr, parse_items, parse_program, parse_spec, token_at};
use crate::scanner::{
    alnum_end, digits_end, lemma_alnum_end, lemma_digits_end, lemma_quote_end, lemma_scan_step_progress, newlines,
    quote_end, scan_from, scan_spec, scan_step, TokenTypeView, TokenView,
};

verus! {

// ---------------------------------------------------------------------------
// Scanning a text that another text and a space continue
// ---------------------------------------------------------------------------

/// `t` starts with `s` and a space.
pub open spec fn continues(s: Seq<char>, t: Seq<char>) -> bool {
    &&& s.len() < t.len()
    &&& t[s.len() as int] == ' '
    &&& forall|k: int| 0 <= k < s.len() ==> #[trigger] t[k] == s[k]
}

proof fn lemma_alnum_prefix(s: Seq<char>, t: Seq<char>, i: int)
    requires
        continues(s, t),
        0 <= i <= s.len(),
    ensures
        alnum_end(t, i) == alnum_end(s, i),
    decreases s.len() - i,
{
    if i < s.len() {
        assert(t[i] == s[i]);
        lemma_alnum_prefix(s, t, i + 1);
    }
}

proof fn lemma_digits_prefix(s: Seq<char>, t: Seq<char>, i: int)
    requires
        continues(s, t),
        0 <= i <= s.len(),
    ensures
        digits_end(t, i) == digits_end(s, i),
    decreases s.len() - i,
{
    if i < s.len() {
        assert(t[i] == s[i]);
        lemma_digits_prefix(s, t, i + 1);
    }
}

proof fn lemma_quote_prefix(s: Seq<char>, t: Seq<char>, i: int)
    requires
        continues(s, t),
        0 <= i <= s.len(),
        quote_end(s, i) < s.len(),
    ensures
        quote_end(t, i) == quote_end(s, i),
    decreases s.len() - i,
{
    if i < s.len() {
        assert(t[i] == s[i]);
        if s[i] != '"' {
            lemma_quote_prefix(s, t, i + 1);
        }
    }
}

proof fn lemma_newlines_prefix(s: Seq<char>, t: Seq<char>, a: int, b: int)
    requires
        continues(s, t),
        0 <= a <= b <= s.len(),
    ensures
        newlines(t, a, b) == newlines(s, a, b),
    decreases b - a,
{
    if a < b {
        assert(t[b - 1] == s[b - 1]);
        lemma_newlines_prefix(s, t, a, b - 1);
    }
}

proof fn lemma_subrange_prefix(s: Seq<char>, t: Seq<char>, a: int, b: int)
    requires
        continues(s, t),
        0 <= a <= b <= s.len(),
    ensures
        t.subrange(a, b) == s.subrange(a, b),
{
    assert(t.subrange(a, b) =~= s.subrange(a, b));
}

/// A step of scanning that succeeds inside `s` does the same inside `t`.
proof fn lemma_step_prefix(s: Seq<char>, t: Seq<char>, pos: int, line: int)
    requires
        continues(s, t),
        0 <= pos < s.len(),
        scan_step(s, pos, line) is Ok,
    ensures
        scan_step(t, pos, line) == scan_step(s, pos, line),
{
    assert(t[pos] == s[pos]);
    let c = s[pos];
    lemma_alnum_end(s, pos + 1);
    lemma_digits_end(s, pos + 1);
    lemma_alnum_prefix(s, t, pos + 1);
    lemma_digits_prefix(s, t, pos + 1);
    let a = digits_end(s, pos + 1);
    lemma_digits_end(s, a);
    if a < s.len() {
        assert(t[a] == s[a]);
    }
    if a + 1 < s.len() {
        assert(t[a + 1] == s[a + 1]);
        lemma_digits_prefix(s, t, a + 1);
        lemma_digits_end(s, a + 1);
        lemma_subrange_prefix(s, t, a + 1, digits_end(s, a + 1));
    }
    if a + 1 == s.len() {
        assert(t[a + 1] == ' ');
    }
    lemma_subrange_prefix(s, t, pos, a);
    let e = alnum_end(s, pos + 1);
    if e < s.len() {
        assert(t[e] == s[e]);
        lemma_subrange_prefix(s, t, pos, e + 1);
    }
    lemma_subrange_prefix(s, t, pos, e);
    if c == '"' {
        lemma_quote_end(s, pos + 1);
        let q = quote_end(s, pos + 1);
        if q < s.len() {
            lemma_quote_prefix(s, t, pos + 1);
            lemma_newlines_prefix(s, t, pos + 1, q);
            lemma_subrange_prefix(s, t, pos + 1, q);
        }
    }
}

/// Wraps a scanning outcome with tokens in front of its tokens.
pub open spec fn prepend_tokens(acc: Seq<TokenView>, r: Result<Seq<TokenView>, HErrorView>) -> Result<
    Seq<TokenView>,
    HErrorView,
> {
    match r {
        Ok(x) => Ok(acc + x),
        Err(e) => Err(e),
    }
}

/// Where `s` scans from `pos`, `t` scans from `pos` to the same tokens, less
/// the end of file, and then goes on from the end of `s` on the line where `s` ended.
proof fn lemma_scan_prefix(s: Seq<char>, t: Seq<char>, pos: int, line: int)
    requires
        continues(s, t),
        0 <= pos <= s.len(),
        scan_from(s, pos, line) is Ok,
    ensures
        ({
            let r = scan_from(s, pos, line)->Ok_0;
            &&& r.len() > 0
            &&& scan_from(t, pos, line) == prepend_tokens(r.drop_last(), scan_from(t, s.len() as int, r.last().line))
        }),
    decreases s.len() - pos,
{
    let r = scan_from(s, pos, line)->Ok_0;
    if pos == s.len() {
        assert(r == seq![TokenView { token_type: TokenTypeView::EndOfFile, line }]);
        match scan_from(t, pos, line) {
            Ok(x) => {
                assert(r.drop_last() + x =~= x);
            },
            Err(_) => {},
        }
    } else {
        lemma_scan_step_progress(s, pos, line);
        lemma_step_prefix(s, t, pos, line);
        let (tok, p, l) = scan_step(s, pos, line)->Ok_0;
        lemma_scan_prefix(s, t, p, l);
        let r2 = scan_from(s, p, l)->Ok_0;
        match tok {
            Some(tt) => {
                let head = seq![TokenView { token_type: tt, line: l }];
                assert(r == head + r2);
                assert(r.drop_last() =~= head + r2.drop_last());
                assert(r.last() == r2.last());
                match scan_from(t, s.len() as int, r2.last().line) {
                    Ok(x) => {
                        assert(head + (r2.drop_last() + x) =~= r.drop_last() + x);
                    },
                    Err(_) => {},
                }
            },
            None => {
                assert(r == r2);
            },
        }
    }
}

// ---------------------------------------------------------------------------
// Scanning the text after the space
// ---------------------------------------------------------------------------

/// `t` holds `s` from position `off` to its end.
pub open spec fn ends_with(s: Seq<char>, t: Seq<char>, off: int) -> bool {
    &&& 0 <= off
    &&& t.len() == off + s.len()
    &&& forall|k: int| 0 <= k < s.len() ==> #[trigger] t[off + k] == s[k]
}

proof fn lemma_alnum_suffix(s: Seq<char>, t: Seq<char>, off: int, i: int)
    requires
        ends_with(s, t, off),
        0 <= i <= s.len(),
    ensures
        alnum_end(t, off + i) == off + alnum_end(s, i),
    decreases s.len() - i,
{
    if i < s.len() {
        assert(t[off + i] == s[i]);
        lemma_alnum_suffix(s, t, off, i + 1);
    }
}

proof fn lemma_digits_suffix(s: Seq<char>, t: Seq<char>, off: int, i: int)
    requires
        ends_with(s, t, off),
        0 <= i <= s.len(),
    ensures
        digits_end(t, off + i) == off + digits_end(s, i),
    decreases s.len() - i,
{
    if i < s.len() {
        assert(t[off + i] == s[i]);
        lemma_digits_suffix(s, t, off, i + 1);
    }
}

proof fn lemma_quote_suffix(s: Seq<char>, t: Seq<char>, off: int, i: int)
    requires
        ends_with(s, t, off),
        0 <= i <= s.len(),
    ensures
        quote_end(t, off + i) == off + quote_end(s, i),
    decreases s.len() - i,
{
    if i < s.len() {
        assert(t[off + i] == s[i]);
        lemma_quote_suffix(s, t, off, i + 1);
    }
}

proof fn lemma_newlines_suffix(s: Seq<char>, t: Seq<char>, off: int, a: int, b: int)
    requires
        ends_with(s, t, off),
        0 <= a <= b <= s.len(),
    ensures
        newlines(t, off + a, off + b) == newlines(s, a, b),
    decreases b - a,
{
    if a < b {
        assert(t[off + (b - 1)] == s[b - 1]);
        lemma_newlines_suffix(s, t, off, a, b - 1);
    }
}

proof fn lemma_subrange_suffix(s: Seq<char>, t: Seq<char>, off: int, a: int, b: int)
    requires
        ends_with(s, t, off),
        0 <= a <= b <= s.len(),
    ensures
        t.subrange(off + a, off + b) == s.subrange(a, b),
{
    assert forall|k: int| 0 <= k < b - a implies #[trigger] t.subrange(off + a, off + b)[k] == s.subrange(a, b)[k] by {
        assert(t[off + (a + k)] == s[a + k]);
    }
    assert(t.subrange(off + a, off + b) =~= s.subrange(a, b));
}

/// A step of scanning at `q` in `s` is the same step at `off + q` in `t`,
/// its position moved by `off`.
proof fn lemma_step_suffix(s: Seq<char>, t: Seq<char>, off: int, q: int, line: int)
    requires
        ends_with(s, t, off),
        0 <= q < s.len(),
    ensures
        scan_step(t, off + q, line) == match scan_step(s, q, line) {
            Ok((tok, p, l)) => Ok((tok, off + p, l)),
            Err(e) => Err(e),
        },
{
    assert(t[off + q] == s[q]);
    lemma_alnum_end(s, q + 1);
    lemma_digits_end(s, q + 1);
    lemma_alnum_suffix(s, t, off, q + 1);
    lemma_digits_suffix(s, t, off, q + 1);
    let a = digits_end(s, q + 1);
    lemma_digits_end(s, a);
    if a < s.len() {
        assert(t[off + a] == s[a]);
    }
    if a + 1 < s.len() {
        assert(t[off + (a + 1)] == s[a + 1]);
        lemma_digits_suffix(s, t, off, a + 1);
        lemma_digits_end(s, a + 1);
        lemma_subrange_suffix(s, t, off, a + 1, digits_end(s, a + 1));
    }
    lemma_subrange_suffix(s, t, off, q, a);
    let e = alnum_end(s, q + 1);
    if e < s.len() {
        assert(t[off + e] == s[e]);
        lemma_subrange_suffix(s, t, off, q, e + 1);
    }
    lemma_subrange_suffix(s, t, off, q, e);
    lemma_quote_end(s, q + 1);
    lemma_quote_suffix(s, t, off, q + 1);
    let qe = quote_end(s, q + 1);
    lemma_newlines_suffix(s, t, off, q + 1, qe);
    lemma_subrange_suffix(s, t, off, q + 1, qe);
}

proof fn lemma_scan_suffix(s: Seq<char>, t: Seq<char>, off: int, q: int, line: int)
    requires
        ends_with(s, t, off),
        0 <= q,
    ensures
        scan_from(t, off + q, line) == scan_from(s, q, line),
    decreases s.len() - q,
{
    if q < s.len() {
        lemma_step_suffix(s, t, off, q, line);
        lemma_scan_step_progress(s, q, line);
        match scan_step(s, q, line) {
            Ok((tok, p, l)) => {
                lemma_scan_suffix(s, t, off, p, l);
            },
            Err(_) => {},
        }
    }
}

// ---------------------------------------------------------------------------
// The line a text starts on does not change its tokens' kinds
// ---------------------------------------------------------------------------

/// Two token sequences of the same kinds, in the same order.
pub open spec fn same_kinds(a: Seq<TokenView>, b: Seq<TokenView>) -> bool {
    &&& a.len() == b.len()
    &&& forall|i: int| 0 <= i < a.len() ==> #[trigger] a[i].token_type == b[i].token_type
}

proof fn lemma_scan_lines(s: Seq<char>, q: int, l1: int, l2: int)
    requires
        0 <= q,
        scan_from(s, q, l1) is Ok,
    ensures
        scan_from(s, q, l2) is Ok,
        same_kinds(scan_from(s, q, l1)->Ok_0, scan_from(s, q, l2)->Ok_0),
    decreases s.len() - q,
{
    if q < s.len() {
        lemma_scan_step_progress(s, q, l1);
        let (tok, p, m) = scan_step(s, q, l1)->Ok_0;
        assert(scan_step(s, q, l2) == Ok::<(Option<TokenTypeView>, int, int), HErrorView>((tok, p, m - l1 + l2)));
        lemma_scan_lines(s, p, m, m - l1 + l2);
        let a = scan_from(s, p, m)->Ok_0;
        let b = scan_from(s, p, m - l1 + l2)->Ok_0;
        match tok {
            Some(tt) => {
                let x = seq![TokenView { token_type: tt, line: m }] + a;
                let y = seq![TokenView { token_type: tt, line: m - l1 + l2 }] + b;
                assert forall|i: int| 0 <= i < x.len() implies #[trigger] x[i].token_type == y[i].token_type by {
                    if i > 0 {
                        assert(x[i] == a[i - 1]);
                        assert(y[i] == b[i - 1]);
                    }
                }
            },
            None => {},
        }
    }
}

// ---------------------------------------------------------------------------
// Parsing depends only on the kinds of the tokens it reads
// ---------------------------------------------------------------------------

/// A successful parse reads only tokens before the end of file, from its
/// start up to the position it returns.
proof fn lemma_parse_expr_reads(t: Seq<TokenView>, i: int)
    ensures
        parse_expr(t, i) matches Ok((e, p)) ==> i < p <= t.len() && forall|k: int|
            i <= k < p ==> #[trigger] token_at(t, k) != TokenTypeView::EndOfFile,
    decreases t.len() - i, 0int,
{
    match token_at(t, i) {
        TokenTypeView::LeftParen => lemma_parse_items_reads(t, i + 1, TokenTypeView::RightParen),
        TokenTypeView::LeftAngle => lemma_parse_items_reads(t, i + 1, TokenTypeView::RightAngle),
        TokenTypeView::LeftSquare => lemma_parse_items_reads(t, i + 1, TokenTypeView::RightSquare),
        TokenTypeView::LeftCurly => lemma_parse_items_reads(t, i + 1, TokenTypeView::RightCurly),
        _ => {},
    }
}

proof fn lemma_parse_items_reads(t: Seq<TokenView>, j: int, close: TokenTypeView)
    ensures
        parse_items(t, j, close) matches Ok((v, p)) ==> j < p <= t.len() && forall|k: int|
            j <= k < p ==> #[trigger] token_at(t, k) != TokenTypeView::EndOfFile,
    decreases t.len() - j, 1int,
{
    if !(close != TokenTypeView::EndOfFile && token_at(t, j) == close) {
        lemma_parse_expr_reads(t, j);
        match parse_expr(t, j) {
            Ok((e, p)) => if j < p <= t.len() {
                lemma_parse_items_reads(t, p, close);
            },
            Err(_) => {},
        }
    }
}

/// Tokens that agree in kind on what a parse reads give the same parse, at
/// positions moved by `d`.
proof fn lemma_parse_expr_agree(t: Seq<TokenView>, u: Seq<TokenView>, d: int, i: int)
    requires
        parse_expr(t, i) is Ok,
        0 <= d,
        forall|k: int| i <= k < parse_expr(t, i)->Ok_0.1 ==> token_at(u, k + d) == #[trigger] token_at(t, k),
    ensures
        parse_expr(u, i + d) == Ok::<(ExprView, int), HErrorView>(
            (parse_expr(t, i)->Ok_0.0, parse_expr(t, i)->Ok_0.1 + d),
        ),
    decreases t.len() - i, 0int,
{
    lemma_parse_expr_reads(t, i);
    assert(token_at(u, i + d) == token_at(t, i));
    match token_at(t, i) {
        TokenTypeView::LeftParen => lemma_parse_items_agree(t, u, d, i + 1, TokenTypeView::RightParen),
        TokenTypeView::LeftAngle => lemma_parse_items_agree(t, u, d, i + 1, TokenTypeView::RightAngle),
        TokenTypeView::LeftSquare => lemma_parse_items_agree(t, u, d, i + 1, TokenTypeView::RightSquare),
        TokenTypeView::LeftCurly => lemma_parse_items_agree(t, u, d, i + 1, TokenTypeView::RightCurly),
        _ => {},
    }
}

proof fn lemma_parse_items_agree(t: Seq<TokenView>, u: Seq<TokenView>, d: int, j: int, close: TokenTypeView)
    requires
        parse_items(t, j, close) is Ok,
        0 <= d,
        forall|k: int|
            j <= k < parse_items(t, j, close)->Ok_0.1 ==> token_at(u, k + d) == #[trigger] token_at(t, k),
    ensures
        parse_items(u, j + d, close) == Ok::<(Seq<ExprView>, int), HErrorView>(
            (parse_items(t, j, close)->Ok_0.0, parse_items(t, j, close)->Ok_0.1 + d),
        ),
    decreases t.len() - j, 1int,
{
    lemma_parse_items_reads(t, j, close);
    let q = parse_items(t, j, close)->Ok_0.1;
    assert(token_at(u, j + d) == token_at(t, j));
    if !(close != TokenTypeView::EndOfFile && token_at(t, j) == close) {
        let (e, p) = parse_expr(t, j)->Ok_0;
        lemma_parse_expr_reads(t, j);
        lemma_parse_items_reads(t, p, close);
        lemma_parse_expr_agree(t, u, d, j);
        assert(token_at(u, p - 1 + d) == token_at(t, p - 1));
        assert(p + d <= u.len());
        lemma_parse_items_agree(t, u, d, p, close);
    }
}

/// Wraps a parsing outcome with expressions in front of its expressions.
pub open spec fn prepend_exprs(acc: Seq<ExprView>, r: Result<Seq<ExprView>, HErrorView>) -> Result<
    Seq<ExprView>,
    HErrorView,
> {
    match r {
        Ok(x) => Ok(acc + x),
        Err(e) => Err(e),
    }
}

/// `t` has its one end of file last.
pub open spec fn ends_once(t: Seq<TokenView>) -> bool {
    &&& t.len() > 0
    &&& t.last().token_type is EndOfFile
    &&& forall|i: int| 0 <= i < t.len() - 1 ==> !(#[trigger] t[i].token_type is EndOfFile)
}

/// The forms of `t` up to its end of file are the first forms of `u`, where
/// `u` agrees with `t` before that end.
proof fn lemma_program_prefix(t: Seq<TokenView>, u: Seq<TokenView>, i: int)
    requires
        ends_once(t),
        0 <= i <= t.len() - 1,
        parse_program(t, i) is Ok,
        forall|k: int| 0 <= k < t.len() - 1 ==> token_at(u, k) == #[trigger] token_at(t, k),
    ensures
        parse_program(u, i) == prepend_exprs(parse_program(t, i)->Ok_0, parse_program(u, t.len() - 1)),
    decreases t.len() - i,
{
    let v = parse_program(t, i)->Ok_0;
    if token_at(t, i) == TokenTypeView::EndOfFile {
        if i < t.len() - 1 {
            assert(!(t[i].token_type is EndOfFile));
        }
        assert(i == t.len() - 1);
        assert(v == Seq::<ExprView>::empty());
        match parse_program(u, i) {
            Ok(x) => {
                assert(v + x =~= x);
            },
            Err(_) => {},
        }
    } else {
        if i < t.len() - 1 {
            assert(token_at(u, i) == token_at(t, i));
        }
        let (e, p) = parse_expr(t, i)->Ok_0;
        lemma_parse_expr_reads(t, i);
        assert(token_at(t, t.len() - 1) == TokenTypeView::EndOfFile);
        assert(p <= t.len() - 1);
        assert forall|k: int| i <= k < p implies token_at(u, k + 0) == #[trigger] token_at(t, k) by {
            assert(token_at(u, k) == token_at(t, k));
        }
        lemma_parse_expr_agree(t, u, 0, i);
        assert(token_at(u, p - 1) == token_at(t, p - 1));
        lemma_program_prefix(t, u, p);
        let rest = parse_program(t, p)->Ok_0;
        assert(v == seq![e] + rest);
        match parse_program(u, t.len() - 1) {
            Ok(x) => {
                assert(seq![e] + (rest + x) =~= v + x);
            },
            Err(_) => {},
        }
    }
}

/// The forms of `t` are the forms of `u` from `d` on, where `u` holds tokens
/// of the same kinds as `t` from `d` to its end.
proof fn lemma_program_suffix(t: Seq<TokenView>, u: Seq<TokenView>, d: int, j: int)
    requires
        0 <= d,
        0 <= j,
        u.len() == t.len() + d,
        forall|k: int| 0 <= k < t.len() ==> token_at(u, k + d) == #[trigger] token_at(t, k),
        parse_program(t, j) is Ok,
    ensures
        parse_program(u, j + d) == parse_program(t, j),
    decreases t.len() - j,
{
    if j < t.len() {
        assert(token_at(u, j + d) == token_at(t, j));
    }
    if token_at(t, j) != TokenTypeView::EndOfFile {
        let (e, p) = parse_expr(t, j)->Ok_0;
        lemma_parse_expr_reads(t, j);
        assert forall|k: int| j <= k < p implies token_at(u, k + d) == #[trigger] token_at(t, k) by {
            assert(k < t.len());
        }
        lemma_parse_expr_agree(t, u, d, j);
        lemma_program_suffix(t, u, d, p);
    }
}

/// Parsing composes over programs separated by a space: each form parses to
/// one expression, in order, so the parse of `s1 s2` is the parse of `s1`
/// followed by the parse of `s2`. The empty text holds no expression.
pub proof fn law_parse_concatenation(s1: Seq<char>, s2: Seq<char>)
    ensures
        parse_spec(Seq::empty()) == Ok::<Seq<ExprView>, HErrorView>(Seq::empty()),
        parse_spec(s1) is Ok && parse_spec(s2) is Ok ==> parse_spec(s1 + seq![' '] + s2) == Ok::<
            Seq<ExprView>,
            HErrorView,
        >(parse_spec(s1)->Ok_0 + parse_spec(s2)->Ok_0),
{
    assert(parse_program(seq![TokenView { token_type: TokenTypeView::EndOfFile, line: 1 }], 0) == Ok::<
        Seq<ExprView>,
        HErrorView,
    >(Seq::empty()));
    if parse_spec(s1) is Ok && parse_spec(s2) is Ok {
        let v1 = parse_spec(s1)->Ok_0;
        let v2 = parse_spec(s2)->Ok_0;
        let t = s1 + seq![' '] + s2;
        let n1 = s1.len() as int;
        let r1 = scan_spec(s1)->Ok_0;
        let r2 = scan_spec(s2)->Ok_0;
        assert(continues(s1, t)) by {
            assert forall|k: int| 0 <= k < s1.len() implies #[trigger] t[k] == s1[k] by {}
        }
        assert(ends_with(s2, t, n1 + 1)) by {
            assert forall|k: int| 0 <= k < s2.len() implies #[trigger] t[n1 + 1 + k] == s2[k] by {}
        }
        lemma_scan_prefix(s1, t, 0, 1);
        let l_end = r1.last().line;
        assert(scan_from(t, n1, l_end) == scan_from(t, n1 + 1, l_end));
        lemma_scan_suffix(s2, t, n1 + 1, 0, l_end);
        lemma_scan_lines(s2, 0, 1, l_end);
        let big_r2 = scan_from(s2, 0, l_end)->Ok_0;
        let u = r1.drop_last() + big_r2;
        assert(scan_from(t, n1 + 1, l_end) == scan_from(s2, 0, l_end));
        assert(scan_spec(t) == Ok::<Seq<TokenView>, HErrorView>(u));
        law_scan_ends_with_end_of_file(s1);
        let d = r1.len() - 1;
        assert forall|k: int| 0 <= k < r1.len() - 1 implies token_at(u, k) == #[trigger] token_at(r1, k) by {
            assert(u[k] == r1[k]);
        }
        lemma_program_prefix(r1, u, 0);
        assert forall|k: int| 0 <= k < r2.len() implies token_at(u, k + d) == #[trigger] token_at(r2, k) by {
            assert(u[k + d] == big_r2[k]);
            assert(big_r2[k].token_type == r2[k].token_type);
        }
        lemma_program_suffix(r2, u, d, 0);
    }
}

} // verus!
