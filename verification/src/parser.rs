use vstd::prelude::*;

use crate::error::{HError, HErrorView};
use crate::expr::{exprs_view, lemma_exprs_view, map_insert, owned, pairs_map, Expr, ExprView, HMap};
use crate::scanner::{lemma_scan_step_progress, scan, scan_from, scan_spec, scan_step, text_fits, tokens_view, Token, TokenType, TokenTypeView, TokenView};
use crate::text::{chars_to_string, int_text, push_int, push_str};

verus! {

// ---------------------------------------------------------------------------
// The expressions of a token sequence
// ---------------------------------------------------------------------------

/// The kind of the token at `i`; past the last token, the end of file.
pub open spec fn token_at(t: Seq<TokenView>, i: int) -> TokenTypeView {
    if 0 <= i < t.len() {
        t[i].token_type
    } else {
        TokenTypeView::EndOfFile
    }
}

/// The line of the token at `i`.
pub open spec fn line_at(t: Seq<TokenView>, i: int) -> int {
    if 0 <= i < t.len() {
        t[i].line
    } else {
        0
    }
}

/// The name of a token kind, as its debugging text shows it.
pub open spec fn token_name(t: TokenTypeView) -> Seq<char> {
    match t {
        TokenTypeView::LeftParen => "LeftParen"@,
        TokenTypeView::RightParen => "RightParen"@,
        TokenTypeView::LeftCurly => "LeftCurly"@,
        TokenTypeView::RightCurly => "RightCurly"@,
        TokenTypeView::LeftSquare => "LeftSquare"@,
        TokenTypeView::RightSquare => "RightSquare"@,
        TokenTypeView::LeftAngle => "LeftAngle"@,
        TokenTypeView::RightAngle => "RightAngle"@,
        TokenTypeView::String(_) => "String"@,
        TokenTypeView::Number(_) => "Number"@,
        TokenTypeView::Symbol(_) => "Symbol"@,
        TokenTypeView::Keyword(_) => "Keyword"@,
        TokenTypeView::Boolean(_) => "Boolean"@,
        TokenTypeView::Ampersand => "Ampersand"@,
        TokenTypeView::Nil => "Nil"@,
        TokenTypeView::EndOfFile => "EndOfFile"@,
    }
}

pub open spec fn unexpected_token_message(t: TokenTypeView) -> Seq<char> {
    "Unexpected token "@ + token_name(t)
}

pub open spec fn odd_map_message(line: int) -> Seq<char> {
    "A map must have an even number of elements! Map opened at line "@ + int_text(line) + "."@
}

/// The items `v[0], v[1]`, `v[2], v[3]`, ... as key-value pairs.
pub open spec fn item_pairs(v: Seq<ExprView>) -> Seq<(ExprView, ExprView)> {
    Seq::new(v.len() / 2, |k: int| (v[2 * k], v[2 * k + 1]))
}

/// The expression that starts at token `i`, and the position after it.
pub open spec fn parse_expr(t: Seq<TokenView>, i: int) -> Result<(ExprView, int), HErrorView>
    decreases t.len() - i, 0int,
{
    match token_at(t, i) {
        TokenTypeView::LeftParen => match parse_items(t, i + 1, TokenTypeView::RightParen) {
            Ok((v, p)) => Ok((ExprView::List(v), p)),
            Err(e) => Err(e),
        },
        TokenTypeView::LeftAngle => match parse_items(t, i + 1, TokenTypeView::RightAngle) {
            Ok((v, p)) => Ok((ExprView::MethodList(v), p)),
            Err(e) => Err(e),
        },
        TokenTypeView::LeftSquare => match parse_items(t, i + 1, TokenTypeView::RightSquare) {
            Ok((v, p)) => Ok((ExprView::Vector(v), p)),
            Err(e) => Err(e),
        },
        TokenTypeView::LeftCurly => match parse_items(t, i + 1, TokenTypeView::RightCurly) {
            Ok((v, p)) => if v.len() % 2 == 0 {
                Ok((ExprView::HMap(pairs_map(item_pairs(v))), p))
            } else {
                Err(HErrorView::ParseError(odd_map_message(line_at(t, i))))
            },
            Err(e) => Err(e),
        },
        TokenTypeView::Number(n) => Ok((ExprView::Number(n), i + 1)),
        TokenTypeView::Boolean(b) => Ok((ExprView::Boolean(b), i + 1)),
        TokenTypeView::String(s) => Ok((ExprView::String(s), i + 1)),
        TokenTypeView::Keyword(s) => Ok((ExprView::Keyword(s), i + 1)),
        TokenTypeView::Symbol(s) => Ok((ExprView::Symbol(s), i + 1)),
        TokenTypeView::Ampersand => Ok((ExprView::Ampersand, i + 1)),
        TokenTypeView::Nil => Ok((ExprView::Nil, i + 1)),
        other => Err(HErrorView::ParseError(unexpected_token_message(other))),
    }
}

/// The expressions from token `j` up to the token `close`, and the position
/// after `close`.
pub open spec fn parse_items(t: Seq<TokenView>, j: int, close: TokenTypeView) -> Result<
    (Seq<ExprView>, int),
    HErrorView,
>
    decreases t.len() - j, 1int,
{
    if close != TokenTypeView::EndOfFile && token_at(t, j) == close {
        Ok((Seq::empty(), j + 1))
    } else {
        match parse_expr(t, j) {
            Err(e) => Err(e),
            Ok((e, p)) => if j < p <= t.len() {
                match parse_items(t, p, close) {
                    Ok((rest, q)) => Ok((seq![e] + rest, q)),
                    Err(x) => Err(x),
                }
            } else {
                Err(HErrorView::ParseError(unexpected_token_message(TokenTypeView::EndOfFile)))
            },
        }
    }
}

/// The expressions from token `i` up to the end of file.
pub open spec fn parse_program(t: Seq<TokenView>, i: int) -> Result<Seq<ExprView>, HErrorView>
    decreases t.len() - i,
{
    if token_at(t, i) == TokenTypeView::EndOfFile {
        Ok(Seq::empty())
    } else {
        match parse_expr(t, i) {
            Err(e) => Err(e),
            Ok((e, p)) => if i < p <= t.len() {
                match parse_program(t, p) {
                    Ok(rest) => Ok(seq![e] + rest),
                    Err(x) => Err(x),
                }
            } else {
                Err(HErrorView::ParseError(unexpected_token_message(TokenTypeView::EndOfFile)))
            },
        }
    }
}

/// The expressions of a text: its tokens (see `scan_spec`), parsed.
pub open spec fn parse_spec(s: Seq<char>) -> Result<Seq<ExprView>, HErrorView> {
    match scan_spec(s) {
        Err(e) => Err(e),
        Ok(t) => parse_program(t, 0),
    }
}

/// Scanning yields at most one token per character, and the end of file.
pub proof fn lemma_scan_from_len(s: Seq<char>, pos: int, line: int)
    requires
        0 <= pos,
    ensures
        scan_from(s, pos, line) matches Ok(t) ==> t.len() <= s.len() - pos + 1 || (pos >= s.len() && t.len() == 1),
    decreases s.len() - pos,
{
    if pos < s.len() {
        lemma_scan_step_progress(s, pos, line);
        match scan_step(s, pos, line) {
            Ok((t, p, l)) => {
                lemma_scan_from_len(s, p, l);
            },
            Err(_) => {},
        }
    }
}

} // verus!

verus! {

/// Parses a sequence of tokens.
pub struct Parser {
    tokens: Vec<Token>,
    current: usize,
}

/// The kind of the token at `i`, as in `token_at`.
fn kind_at(tokens: &Vec<Token>, i: usize) -> (r: &TokenType)
    requires
        i < tokens@.len(),
    ensures
        r@ == token_at(tokens_view(tokens@), i as int),
{
    &tokens[i].token_type
}

fn is_end(tokens: &Vec<Token>, i: usize) -> (r: bool)
    ensures
        r == (token_at(tokens_view(tokens@), i as int) == TokenTypeView::EndOfFile),
{
    if i >= tokens.len() {
        return true;
    }
    match &tokens[i].token_type {
        TokenType::EndOfFile => true,
        _ => false,
    }
}

/// Whether the token at `i` is the closing bracket `close`.
fn is_close(tokens: &Vec<Token>, i: usize, close: &TokenType) -> (r: bool)
    requires
        close@ != TokenTypeView::EndOfFile,
        close@ is RightParen || close@ is RightAngle || close@ is RightSquare || close@ is RightCurly,
    ensures
        r == (token_at(tokens_view(tokens@), i as int) == close@),
{
    if i >= tokens.len() {
        return false;
    }
    match (&tokens[i].token_type, close) {
        (TokenType::RightParen, TokenType::RightParen) => true,
        (TokenType::RightAngle, TokenType::RightAngle) => true,
        (TokenType::RightSquare, TokenType::RightSquare) => true,
        (TokenType::RightCurly, TokenType::RightCurly) => true,
        _ => false,
    }
}

fn unexpected_token(t: &TokenType) -> (e: HError)
    ensures
        e@ == HErrorView::ParseError(unexpected_token_message(t@)),
{
    let name = match t {
        TokenType::LeftParen => "LeftParen",
        TokenType::RightParen => "RightParen",
        TokenType::LeftCurly => "LeftCurly",
        TokenType::RightCurly => "RightCurly",
        TokenType::LeftSquare => "LeftSquare",
        TokenType::RightSquare => "RightSquare",
        TokenType::LeftAngle => "LeftAngle",
        TokenType::RightAngle => "RightAngle",
        TokenType::String(_) => "String",
        TokenType::Number(_) => "Number",
        TokenType::Symbol(_) => "Symbol",
        TokenType::Keyword(_) => "Keyword",
        TokenType::Boolean(_) => "Boolean",
        TokenType::Ampersand => "Ampersand",
        TokenType::Nil => "Nil",
        TokenType::EndOfFile => "EndOfFile",
    };
    let mut msg: Vec<char> = Vec::new();
    push_str(&mut msg, "Unexpected token ");
    push_str(&mut msg, name);
    proof {
        assert(msg@ =~= unexpected_token_message(t@));
    }
    HError::ParseError(chars_to_string(&msg))
}

fn end_of_tokens() -> (e: HError)
    ensures
        e@ == HErrorView::ParseError(unexpected_token_message(TokenTypeView::EndOfFile)),
{
    unexpected_token(&TokenType::EndOfFile)
}

fn odd_map(line: i32) -> (e: HError)
    ensures
        e@ == HErrorView::ParseError(odd_map_message(line as int)),
{
    let mut msg: Vec<char> = Vec::new();
    push_str(&mut msg, "A map must have an even number of elements! Map opened at line ");
    push_int(&mut msg, line as i64);
    push_str(&mut msg, ".");
    proof {
        assert(msg@ =~= odd_map_message(line as int));
    }
    HError::ParseError(chars_to_string(&msg))
}

/// The map of the items taken two by two.
fn items_map(items: &Vec<Expr>) -> (m: HMap)
    requires
        items@.len() % 2 == 0,
    ensures
        m@ == pairs_map(item_pairs(exprs_view(items@))),
{
    let ghost v = exprs_view(items@);
    proof {
        lemma_exprs_view(items@);
    }
    let mut m = HMap::new();
    let mut k: usize = 0;
    let len = items.len();
    let n = len / 2;
    while k < n
        invariant
            len == items@.len(),
            n == items@.len() / 2,
            v == exprs_view(items@),
            v.len() == items@.len(),
            forall|q: int| 0 <= q < items@.len() ==> #[trigger] v[q] == items@[q]@,
            items@.len() % 2 == 0,
            k <= n,
            m@ == pairs_map(item_pairs(v).subrange(0, k as int)),
        decreases n - k,
    {
        assert(2 * k + 1 < items@.len());
        let key = items[2 * k].copy();
        let value = items[2 * k + 1].copy();
        m.insert(key, value);
        proof {
            let p = item_pairs(v).subrange(0, k + 1);
            assert(p.subrange(0, p.len() - 1) =~= item_pairs(v).subrange(0, k as int));
            assert(p[p.len() - 1] == (v[2 * k], v[2 * k + 1]));
        }
        k = k + 1;
    }
    assert(item_pairs(v).subrange(0, k as int) =~= item_pairs(v));
    m
}

/// The expression that starts at token `i` (see `parse_expr`).
fn parse_expr_at(tokens: &Vec<Token>, i: usize) -> (r: Result<(Expr, usize), HError>)
    requires
        tokens@.len() < usize::MAX,
    ensures
        match parse_expr(tokens_view(tokens@), i as int) {
            Ok((e, p)) => r matches Ok((x, q)) && x@ == e && q == p,
            Err(e) => r matches Err(x) && x@ == e,
        },
    decreases tokens@.len() - i, 0int,
{
    let ghost t = tokens_view(tokens@);
    if i >= tokens.len() {
        return Err(end_of_tokens());
    }
    let kind = kind_at(tokens, i);
    match kind {
        TokenType::LeftParen => {
            let (v, p) = parse_items_at(tokens, i + 1, &TokenType::RightParen)?;
            proof {
                lemma_exprs_view(v@);
            }
            Ok((Expr::List(v), p))
        },
        TokenType::LeftAngle => {
            let (v, p) = parse_items_at(tokens, i + 1, &TokenType::RightAngle)?;
            Ok((Expr::MethodList(v), p))
        },
        TokenType::LeftSquare => {
            let (v, p) = parse_items_at(tokens, i + 1, &TokenType::RightSquare)?;
            Ok((Expr::Vector(v), p))
        },
        TokenType::LeftCurly => {
            let (v, p) = parse_items_at(tokens, i + 1, &TokenType::RightCurly)?;
            proof {
                lemma_exprs_view(v@);
            }
            if v.len() % 2 == 0 {
                Ok((Expr::HMap(items_map(&v)), p))
            } else {
                Err(odd_map(tokens[i].line))
            }
        },
        TokenType::Number(n) => Ok((Expr::Number(*n), i + 1)),
        TokenType::Boolean(b) => Ok((Expr::Boolean(*b), i + 1)),
        TokenType::String(s) => Ok((Expr::String(s.clone()), i + 1)),
        TokenType::Keyword(s) => Ok((Expr::Keyword(s.clone()), i + 1)),
        TokenType::Symbol(s) => Ok((Expr::Symbol(s.clone()), i + 1)),
        TokenType::Ampersand => Ok((Expr::Ampersand, i + 1)),
        TokenType::Nil => Ok((Expr::Nil, i + 1)),
        other => Err(unexpected_token(other)),
    }
}

/// The expressions from token `j` up to the token `close` (see `parse_items`).
fn parse_items_at(tokens: &Vec<Token>, j: usize, close: &TokenType) -> (r: Result<(Vec<Expr>, usize), HError>)
    requires
        tokens@.len() < usize::MAX,
        j <= tokens@.len(),
        close@ is RightParen || close@ is RightAngle || close@ is RightSquare || close@ is RightCurly,
    ensures
        match parse_items(tokens_view(tokens@), j as int, close@) {
            Ok((v, p)) => r matches Ok((x, q)) && exprs_view(x@) == v && q == p,
            Err(e) => r matches Err(x) && x@ == e,
        },
    decreases tokens@.len() - j, 1int,
{
    let ghost t = tokens_view(tokens@);
    let mut items: Vec<Expr> = Vec::new();
    let mut pos = j;
    proof {
        assert(exprs_view(items@) =~= Seq::<ExprView>::empty());
    }
    while !is_close(tokens, pos, close)
        invariant
            t == tokens_view(tokens@),
            tokens@.len() < usize::MAX,
            j <= pos <= tokens@.len(),
            close@ is RightParen || close@ is RightAngle || close@ is RightSquare || close@ is RightCurly,
            match parse_items(t, j as int, close@) {
                Ok((all, q)) => match parse_items(t, pos as int, close@) {
                    Ok((rest, q2)) => all == exprs_view(items@) + rest && q == q2,
                    Err(_) => false,
                },
                Err(e) => parse_items(t, pos as int, close@) == Err::<(Seq<ExprView>, int), HErrorView>(e),
            },
        decreases tokens@.len() - pos,
    {
        let ghost before = items@;
        let (e, p) = parse_expr_at(tokens, pos)?;
        if p <= pos || p > tokens.len() {
            return Err(end_of_tokens());
        }
        items.push(e);
        proof {
            lemma_exprs_view(before);
            lemma_exprs_view(items@);
            assert(exprs_view(items@) =~= exprs_view(before).push(e@));
            match parse_items(t, p as int, close@) {
                Ok((rest, q)) => {
                    assert(exprs_view(before) + (seq![e@] + rest) =~= exprs_view(items@) + rest);
                },
                Err(_) => {},
            }
        }
        pos = p;
    }
    proof {
        assert(exprs_view(items@) + Seq::<ExprView>::empty() =~= exprs_view(items@));
    }
    Ok((items, pos + 1))
}

impl Parser {
    /// A parser at the start of `tokens`.
    pub fn new(tokens: Vec<Token>) -> (p: Parser)
        ensures
            p.tokens() == tokens_view(tokens@),
            p.position() == 0,
    {
        Parser { tokens, current: 0 }
    }

    pub closed spec fn tokens(self) -> Seq<TokenView> {
        tokens_view(self.tokens@)
    }

    pub closed spec fn position(self) -> int {
        self.current as int
    }

    /// The expressions from the current token up to the end of file.
    pub fn parse(&mut self) -> (r: Result<Vec<Expr>, HError>)
        requires
            old(self).tokens().len() < usize::MAX,
        ensures
            match parse_program(old(self).tokens(), old(self).position()) {
                Ok(v) => r matches Ok(x) && exprs_view(x@) == v,
                Err(e) => r matches Err(x) && x@ == e,
            },
    {
        let ghost t = tokens_view(self.tokens@);
        let ghost start = self.current as int;
        proof {
            assert(t.len() == self.tokens@.len());
        }
        let mut program: Vec<Expr> = Vec::new();
        proof {
            assert(exprs_view(program@) =~= Seq::<ExprView>::empty());
        }
        while !is_end(&self.tokens, self.current)
            invariant
                t == tokens_view(self.tokens@),
                t == old(self).tokens(),
                start == old(self).position(),
                self.tokens@.len() < usize::MAX,
                start <= self.current,
                match parse_program(t, start) {
                    Ok(all) => match parse_program(t, self.current as int) {
                        Ok(rest) => all == exprs_view(program@) + rest,
                        Err(_) => false,
                    },
                    Err(e) => parse_program(t, self.current as int) == Err::<Seq<ExprView>, HErrorView>(e),
                },
            decreases self.tokens@.len() - self.current,
        {
            let ghost before = program@;
            let ghost pos = self.current as int;
            let (e, p) = parse_expr_at(&self.tokens, self.current)?;
            if p <= self.current || p > self.tokens.len() {
                return Err(end_of_tokens());
            }
            program.push(e);
            self.current = p;
            proof {
                lemma_exprs_view(before);
                lemma_exprs_view(program@);
                assert(exprs_view(program@) =~= exprs_view(before).push(e@));
                match parse_program(t, p as int) {
                    Ok(rest) => {
                        assert(exprs_view(before) + (seq![e@] + rest) =~= exprs_view(program@) + rest);
                    },
                    Err(_) => {},
                }
            }
        }
        proof {
            assert(exprs_view(program@) + Seq::<ExprView>::empty() =~= exprs_view(program@));
        }
        Ok(program)
    }
}

/// The expressions of a text, or the first error of scanning or parsing it.
pub fn parse(input: &str) -> (r: Result<Vec<Expr>, HError>)
    requires
        text_fits(input@),
    ensures
        match parse_spec(input@) {
            Ok(v) => r matches Ok(x) && exprs_view(x@) == v,
            Err(e) => r matches Err(x) && x@ == e,
        },
{
    let tokens = scan(input)?;
    proof {
        assert(tokens_view(tokens@).len() == tokens@.len());
        lemma_scan_from_len(input@, 0, 1);

    }
    let mut parser = Parser::new(tokens);
    parser.parse()
}

} // verus!
