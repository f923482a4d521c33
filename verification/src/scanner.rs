use vstd::prelude::*;

use crate::error::{HError, HErrorView};
use crate::expr::{owned, text_eq};
use crate::number::{all_digits, decimal_parts, fits_number, Number};
use crate::text::{char_debug, char_debug_text, chars_to_string, is_digit_char, push_str, str_chars};

verus! {

/// The kinds of tokens.
#[derive(Debug)]
pub enum TokenType {
    LeftParen,
    RightParen,
    LeftCurly,
    RightCurly,
    LeftSquare,
    RightSquare,
    LeftAngle,
    RightAngle,
    String(String),
    Number(Number),
    Symbol(String),
    Keyword(String),
    Boolean(bool),
    Ampersand,
    Nil,
    EndOfFile,
}

/// A token and the line it ends on.
#[derive(Debug)]
pub struct Token {
    pub token_type: TokenType,
    pub line: i32,
}

/// The mathematical value of a token kind.
pub enum TokenTypeView {
    LeftParen,
    RightParen,
    LeftCurly,
    RightCurly,
    LeftSquare,
    RightSquare,
    LeftAngle,
    RightAngle,
    String(Seq<char>),
    Number(Number),
    Symbol(Seq<char>),
    Keyword(Seq<char>),
    Boolean(bool),
    Ampersand,
    Nil,
    EndOfFile,
}

pub struct TokenView {
    pub token_type: TokenTypeView,
    pub line: int,
}

impl View for TokenType {
    type V = TokenTypeView;

    open spec fn view(&self) -> TokenTypeView {
        match self {
            TokenType::LeftParen => TokenTypeView::LeftParen,
            TokenType::RightParen => TokenTypeView::RightParen,
            TokenType::LeftCurly => TokenTypeView::LeftCurly,
            TokenType::RightCurly => TokenTypeView::RightCurly,
            TokenType::LeftSquare => TokenTypeView::LeftSquare,
            TokenType::RightSquare => TokenTypeView::RightSquare,
            TokenType::LeftAngle => TokenTypeView::LeftAngle,
            TokenType::RightAngle => TokenTypeView::RightAngle,
            TokenType::String(s) => TokenTypeView::String(s@),
            TokenType::Number(n) => TokenTypeView::Number(*n),
            TokenType::Symbol(s) => TokenTypeView::Symbol(s@),
            TokenType::Keyword(s) => TokenTypeView::Keyword(s@),
            TokenType::Boolean(b) => TokenTypeView::Boolean(*b),
            TokenType::Ampersand => TokenTypeView::Ampersand,
            TokenType::Nil => TokenTypeView::Nil,
            TokenType::EndOfFile => TokenTypeView::EndOfFile,
        }
    }
}

impl View for Token {
    type V = TokenView;

    open spec fn view(&self) -> TokenView {
        TokenView { token_type: self.token_type@, line: self.line as int }
    }
}

/// Equality of token kinds; numbers by value.
pub open spec fn token_type_eq(a: TokenTypeView, b: TokenTypeView) -> bool {
    match (a, b) {
        (TokenTypeView::String(x), TokenTypeView::String(y)) => x == y,
        (TokenTypeView::Number(x), TokenTypeView::Number(y)) => x.same_value(y),
        (TokenTypeView::Symbol(x), TokenTypeView::Symbol(y)) => x == y,
        (TokenTypeView::Keyword(x), TokenTypeView::Keyword(y)) => x == y,
        (TokenTypeView::Boolean(x), TokenTypeView::Boolean(y)) => x == y,
        (TokenTypeView::String(_), _) | (TokenTypeView::Number(_), _) | (TokenTypeView::Symbol(_), _)
        | (TokenTypeView::Keyword(_), _) | (TokenTypeView::Boolean(_), _) => false,
        _ => a == b,
    }
}

impl PartialEq for TokenType {
    fn eq(&self, other: &Self) -> (r: bool) {
        match (self, other) {
            (TokenType::String(x), TokenType::String(y)) => text_eq(x, y),
            (TokenType::Number(x), TokenType::Number(y)) => x.equals(y),
            (TokenType::Symbol(x), TokenType::Symbol(y)) => text_eq(x, y),
            (TokenType::Keyword(x), TokenType::Keyword(y)) => text_eq(x, y),
            (TokenType::Boolean(x), TokenType::Boolean(y)) => *x == *y,
            (TokenType::LeftParen, TokenType::LeftParen) => true,
            (TokenType::RightParen, TokenType::RightParen) => true,
            (TokenType::LeftCurly, TokenType::LeftCurly) => true,
            (TokenType::RightCurly, TokenType::RightCurly) => true,
            (TokenType::LeftSquare, TokenType::LeftSquare) => true,
            (TokenType::RightSquare, TokenType::RightSquare) => true,
            (TokenType::LeftAngle, TokenType::LeftAngle) => true,
            (TokenType::RightAngle, TokenType::RightAngle) => true,
            (TokenType::Ampersand, TokenType::Ampersand) => true,
            (TokenType::Nil, TokenType::Nil) => true,
            (TokenType::EndOfFile, TokenType::EndOfFile) => true,
            _ => false,
        }
    }
}

impl vstd::std_specs::cmp::PartialEqSpecImpl for TokenType {
    open spec fn obeys_eq_spec() -> bool {
        true
    }

    open spec fn eq_spec(&self, other: &TokenType) -> bool {
        token_type_eq(self@, other@)
    }
}

// ---------------------------------------------------------------------------
// The tokens of a text
// ---------------------------------------------------------------------------

pub open spec fn is_digit(c: char) -> bool {
    is_digit_char(c)
}

/// Characters that can start a symbol: letters, `_`, and the operators
/// `- * + ! ? / =`.
pub open spec fn is_alpha(c: char) -> bool {
    ('a' <= c && c <= 'z') || ('A' <= c && c <= 'Z') || c == '_' || c == '-' || c == '*' || c == '+'
        || c == '!' || c == '?' || c == '/' || c == '='
}

pub open spec fn is_alpha_numeric(c: char) -> bool {
    is_alpha(c) || is_digit(c)
}

/// The first position at or after `i` that does not hold a letter or digit.
pub open spec fn alnum_end(s: Seq<char>, i: int) -> int
    decreases s.len() - i,
{
    if i < 0 || i >= s.len() || !is_alpha_numeric(s[i]) {
        i
    } else {
        alnum_end(s, i + 1)
    }
}

/// The first position at or after `i` that does not hold a digit.
pub open spec fn digits_end(s: Seq<char>, i: int) -> int
    decreases s.len() - i,
{
    if i < 0 || i >= s.len() || !is_digit(s[i]) {
        i
    } else {
        digits_end(s, i + 1)
    }
}

/// The first position at or after `i` that holds a double quote (or the end).
pub open spec fn quote_end(s: Seq<char>, i: int) -> int
    decreases s.len() - i,
{
    if i < 0 || i >= s.len() || s[i] == '"' {
        i
    } else {
        quote_end(s, i + 1)
    }
}

/// The number of line breaks in `s[i..j]`.
pub open spec fn newlines(s: Seq<char>, i: int, j: int) -> int
    decreases j - i,
{
    if j <= i {
        0
    } else {
        newlines(s, i, j - 1) + (if s[j - 1] == '\n' { 1int } else { 0int })
    }
}

pub proof fn lemma_alnum_end(s: Seq<char>, i: int)
    requires
        0 <= i <= s.len(),
    ensures
        i <= alnum_end(s, i) <= s.len(),
        alnum_end(s, i) < s.len() ==> !is_alpha_numeric(s[alnum_end(s, i)]),
        forall|k: int| i <= k < alnum_end(s, i) ==> is_alpha_numeric(#[trigger] s[k]),
    decreases s.len() - i,
{
    if i < s.len() && is_alpha_numeric(s[i]) {
        lemma_alnum_end(s, i + 1);
    }
}

pub proof fn lemma_digits_end(s: Seq<char>, i: int)
    requires
        0 <= i <= s.len(),
    ensures
        i <= digits_end(s, i) <= s.len(),
        digits_end(s, i) < s.len() ==> !is_digit(s[digits_end(s, i)]),
        forall|k: int| i <= k < digits_end(s, i) ==> is_digit(#[trigger] s[k]),
    decreases s.len() - i,
{
    if i < s.len() && is_digit(s[i]) {
        lemma_digits_end(s, i + 1);
    }
}

pub proof fn lemma_quote_end(s: Seq<char>, i: int)
    requires
        0 <= i <= s.len(),
    ensures
        i <= quote_end(s, i) <= s.len(),
        quote_end(s, i) < s.len() ==> s[quote_end(s, i)] == '"',
    decreases s.len() - i,
{
    if i < s.len() && s[i] != '"' {
        lemma_quote_end(s, i + 1);
    }
}

pub proof fn lemma_newlines_bound(s: Seq<char>, i: int, j: int)
    requires
        0 <= i <= j <= s.len(),
    ensures
        0 <= newlines(s, i, j) <= j - i,
    decreases j - i,
{
    if j > i {
        lemma_newlines_bound(s, i, j - 1);
    }
}

/// Counting line breaks from the front: the first character, then the rest.
pub proof fn lemma_newlines_first(s: Seq<char>, i: int, j: int)
    requires
        i < j,
    ensures
        newlines(s, i, j) == (if s[i] == '\n' { 1int } else { 0int }) + newlines(s, i + 1, j),
    decreases j - i,
{
    assert(newlines(s, i, i) == 0);
    assert(newlines(s, i + 1, i + 1) == 0);
    if i + 1 < j {
        lemma_newlines_first(s, i, j - 1);
        assert(newlines(s, i + 1, j) == newlines(s, i + 1, j - 1) + (if s[j - 1] == '\n' { 1int } else { 0int }));
    }
}

/// A text the scanner can count the lines of: its line numbers fit in an
/// `i32`, and its length, with the end of file, in a `usize`.
pub open spec fn text_fits(s: Seq<char>) -> bool {
    &&& newlines(s, 0, s.len() as int) < i32::MAX - 1
    &&& s.len() < usize::MAX - 1
}

/// The token that a one-character punctuation mark stands for.
pub open spec fn punctuation(c: char) -> Option<TokenTypeView> {
    if c == '(' {
        Some(TokenTypeView::LeftParen)
    } else if c == ')' {
        Some(TokenTypeView::RightParen)
    } else if c == '<' {
        Some(TokenTypeView::LeftAngle)
    } else if c == '>' {
        Some(TokenTypeView::RightAngle)
    } else if c == '{' {
        Some(TokenTypeView::LeftCurly)
    } else if c == '}' {
        Some(TokenTypeView::RightCurly)
    } else if c == '[' {
        Some(TokenTypeView::LeftSquare)
    } else if c == ']' {
        Some(TokenTypeView::RightSquare)
    } else if c == '&' {
        Some(TokenTypeView::Ampersand)
    } else {
        None
    }
}

/// The end of the number that starts at `pos`: digits, then a point and digits
/// when a digit follows the point.
pub open spec fn number_end(s: Seq<char>, pos: int) -> int {
    let a = digits_end(s, pos + 1);
    if a + 1 < s.len() && s[a] == '.' && is_digit(s[a + 1]) {
        digits_end(s, a + 1)
    } else {
        a
    }
}

/// The number written at `s[pos..]`, as its integer digits and fraction digits.
pub open spec fn number_parts(s: Seq<char>, pos: int) -> (Seq<char>, Seq<char>) {
    let a = digits_end(s, pos + 1);
    let e = number_end(s, pos);
    if e == a {
        (s.subrange(pos, a), Seq::empty())
    } else {
        (s.subrange(pos, a), s.subrange(a + 1, e))
    }
}

/// The end of the symbol that starts at `pos`, with its optional trailing colon.
pub open spec fn symbol_end(s: Seq<char>, pos: int) -> int {
    let e = alnum_end(s, pos + 1);
    if e < s.len() && s[e] == ':' {
        e + 1
    } else {
        e
    }
}

/// The token that a word stands for: a boolean, nil, or a symbol without its
/// trailing colon.
pub open spec fn word_token(word: Seq<char>) -> TokenTypeView {
    if word == "true"@ {
        TokenTypeView::Boolean(true)
    } else if word == "false"@ {
        TokenTypeView::Boolean(false)
    } else if word == "nil"@ {
        TokenTypeView::Nil
    } else if word.len() > 0 && word[word.len() - 1] == ':' {
        TokenTypeView::Symbol(word.subrange(0, word.len() - 1))
    } else {
        TokenTypeView::Symbol(word)
    }
}

pub open spec fn unexpected_character_message(c: char) -> Seq<char> {
    "Unexpected character "@ + "Some("@ + char_debug_text(c) + ")"@
}

/// One step of scanning at `pos` (`pos < s.len()`): the token produced, if
/// any, the position and the line after it; or the error.
pub open spec fn scan_step(s: Seq<char>, pos: int, line: int) -> Result<
    (Option<TokenTypeView>, int, int),
    HErrorView,
> {
    let c = s[pos];
    if punctuation(c) is Some {
        Ok((punctuation(c), pos + 1, line))
    } else if c == '"' {
        let e = quote_end(s, pos + 1);
        if e >= s.len() {
            Err(HErrorView::ScannerError("Unterminated string"@))
        } else {
            Ok(
                (
                    Some(TokenTypeView::String(s.subrange(pos + 1, e))),
                    e + 1,
                    line + newlines(s, pos + 1, e),
                ),
            )
        }
    } else if c == ':' {
        let e = alnum_end(s, pos + 1);
        Ok((Some(TokenTypeView::Keyword(s.subrange(pos, e))), e, line))
    } else if c == ' ' || c == '\r' || c == '\t' {
        Ok((None, pos + 1, line))
    } else if c == '\n' {
        Ok((None, pos + 1, line + 1))
    } else if is_digit(c) {
        let parts = number_parts(s, pos);
        if fits_number(decimal_parts(parts.0, parts.1)) {
            let p = decimal_parts(parts.0, parts.1);
            Ok((Some(TokenTypeView::Number(Number::spec_from_parts(p.0, p.1))), number_end(s, pos), line))
        } else {
            Err(HErrorView::ScannerError("Invalid number"@))
        }
    } else if is_alpha(c) {
        let e = symbol_end(s, pos);
        Ok((Some(word_token(s.subrange(pos, e))), e, line))
    } else {
        Err(HErrorView::ScannerError(unexpected_character_message(c)))
    }
}

pub proof fn lemma_scan_step_progress(s: Seq<char>, pos: int, line: int)
    requires
        0 <= pos < s.len(),
    ensures
        scan_step(s, pos, line) matches Ok((t, p, l)) ==> pos < p <= s.len() && line <= l <= line + (p - pos),
{
    let c = s[pos];
    lemma_alnum_end(s, pos + 1);
    lemma_digits_end(s, pos + 1);
    lemma_quote_end(s, pos + 1);
    let a = digits_end(s, pos + 1);
    if a + 1 < s.len() {
        lemma_digits_end(s, a + 1);
    }
    let e = quote_end(s, pos + 1);
    if e < s.len() {
        lemma_newlines_bound(s, pos + 1, e);
    }
}

/// The tokens of `s[pos..]`, scanning from line `line`, ending with the end of
/// file; or the first error.
pub open spec fn scan_from(s: Seq<char>, pos: int, line: int) -> Result<Seq<TokenView>, HErrorView>
    decreases s.len() - pos,
{
    if pos < 0 || pos >= s.len() {
        Ok(seq![TokenView { token_type: TokenTypeView::EndOfFile, line }])
    } else {
        match scan_step(s, pos, line) {
            Err(e) => Err(e),
            Ok((t, p, l)) => {
                proof {
                    lemma_scan_step_progress(s, pos, line);
                }
                match scan_from(s, p, l) {
                    Err(e) => Err(e),
                    Ok(rest) => Ok(
                        match t {
                            Some(tt) => seq![TokenView { token_type: tt, line: l }] + rest,
                            None => rest,
                        },
                    ),
                }
            },
        }
    }
}

/// The tokens of a text (see `scan_from`).
pub open spec fn scan_spec(s: Seq<char>) -> Result<Seq<TokenView>, HErrorView> {
    scan_from(s, 0, 1)
}

pub open spec fn tokens_view(v: Seq<Token>) -> Seq<TokenView> {
    v.map_values(|t: Token| t@)
}

} // verus!

verus! {

/// The state of scanning a text.
pub struct Scanner {
    start: usize,
    current: usize,
    line: i32,
    tokens: Vec<Token>,
    source: Vec<char>,
    source_length: usize,
}

/// What one step of scanning does to the scanner: it stands where `scan_step`
/// says and holds the token, or it returns the step's error.
pub open spec fn step_result(
    s: Seq<char>,
    pos: int,
    line: int,
    old_tokens: Seq<Token>,
    new_tokens: Seq<Token>,
    new_pos: int,
    new_line: int,
    r: Result<(), HError>,
) -> bool {
    match scan_step(s, pos, line) {
        Ok((t, p, l)) => {
            &&& r is Ok
            &&& new_pos == p
            &&& new_line == l
            &&& tokens_view(new_tokens) == tokens_view(old_tokens) + match t {
                Some(tt) => seq![TokenView { token_type: tt, line: l }],
                None => Seq::empty(),
            }
        },
        Err(e) => r matches Err(x) && x@ == e,
    }
}

/// The characters `v[a..b]` as a string.
fn substring(v: &Vec<char>, a: usize, b: usize) -> (r: String)
    requires
        a <= b <= v@.len(),
    ensures
        r@ == v@.subrange(a as int, b as int),
{
    let mut out: Vec<char> = Vec::new();
    let mut i = a;
    while i < b
        invariant
            a <= i <= b <= v@.len(),
            out@ == v@.subrange(a as int, i as int),
        decreases b - i,
    {
        out.push(v[i]);
        i = i + 1;
        assert(out@ =~= v@.subrange(a as int, i as int));
    }
    chars_to_string(&out)
}

/// The characters `v[a..b]`.
fn sub_chars(v: &Vec<char>, a: usize, b: usize) -> (r: Vec<char>)
    requires
        a <= b <= v@.len(),
    ensures
        r@ == v@.subrange(a as int, b as int),
{
    let mut out: Vec<char> = Vec::new();
    let mut i = a;
    while i < b
        invariant
            a <= i <= b <= v@.len(),
            out@ == v@.subrange(a as int, i as int),
        decreases b - i,
    {
        out.push(v[i]);
        i = i + 1;
        assert(out@ =~= v@.subrange(a as int, i as int));
    }
    out
}

/// Whether `v[a..b]` is the text `s`.
fn chars_are(v: &Vec<char>, a: usize, b: usize, s: &str) -> (r: bool)
    requires
        a <= b <= v@.len(),
    ensures
        r == (v@.subrange(a as int, b as int) == s@),
{
    let n = s.unicode_len();
    if b - a != n {
        return false;
    }
    let mut i: usize = 0;
    while i < n
        invariant
            a <= b <= v@.len(),
            b - a == n,
            n == s@.len(),
            i <= n,
            forall|k: int| 0 <= k < i ==> v@[a + k] == s@[k],
        decreases n - i,
    {
        if v[a + i] != s.get_char(i) {
            assert(v@.subrange(a as int, b as int)[i as int] != s@[i as int]);
            return false;
        }
        i = i + 1;
    }
    assert(v@.subrange(a as int, b as int) =~= s@);
    true
}

pub fn is_digit_opt(c: Option<char>) -> (r: bool)
    ensures
        r == (c matches Some(x) && is_digit(x)),
{
    match c {
        Some(value) => value >= '0' && value <= '9',
        _ => false,
    }
}

/// Whether the character could start a symbol: letters and `_ - * + ! ? / =`.
pub fn is_alpha_opt(c: Option<char>) -> (r: bool)
    ensures
        r == (c matches Some(x) && is_alpha(x)),
{
    match c {
        Some(value) => {
            (value >= 'a' && value <= 'z') || (value >= 'A' && value <= 'Z') || value == '_' || value
                == '-' || value == '*' || value == '+' || value == '!' || value == '?' || value == '/'
                || value == '='
        },
        _ => false,
    }
}

pub fn is_alpha_numeric_opt(c: Option<char>) -> (r: bool)
    ensures
        r == (c matches Some(x) && is_alpha_numeric(x)),
{
    is_alpha_opt(c) || is_digit_opt(c)
}

impl Scanner {
    /// The scanner's invariant.
    pub closed spec fn wf(self) -> bool {
        &&& self.source_length == self.source@.len()
        &&& self.source_length < usize::MAX - 1
        &&& self.start <= self.current <= self.source_length
        &&& 1 <= self.line
        &&& self.line + newlines(self.source@, self.current as int, self.source_length as int) < i32::MAX
    }

    pub closed spec fn text(self) -> Seq<char> {
        self.source@
    }

    pub closed spec fn position(self) -> int {
        self.current as int
    }

    pub closed spec fn line_number(self) -> int {
        self.line as int
    }

    pub closed spec fn scanned(self) -> Seq<TokenView> {
        tokens_view(self.tokens@)
    }

    /// A scanner at the start of `input`.
    pub fn new(input: &str) -> (s: Scanner)
        requires
            text_fits(input@),
        ensures
            s.wf(),
            s.text() == input@,
            s.position() == 0,
            s.line_number() == 1,
            s.scanned() == Seq::<TokenView>::empty(),
    {
        let source = str_chars(input);
        let n = source.len();
        let s = Scanner { start: 0, current: 0, line: 1, tokens: Vec::new(), source, source_length: n };
        assert(tokens_view(s.tokens@) =~= Seq::<TokenView>::empty());
        s
    }

    /// Scans the rest of the text: the tokens up to the end of file, or the
    /// first error.
    pub fn scan_tokens(&mut self) -> (r: Result<Vec<Token>, HError>)
        requires
            old(self).wf(),
        ensures
            match scan_from(old(self).text(), old(self).position(), old(self).line_number()) {
                Ok(rest) => r matches Ok(v) && tokens_view(v@) == old(self).scanned() + rest,
                Err(e) => r matches Err(x) && x@ == e,
            },
    {
        let ghost s = self.source@;
        let ghost target = scan_from(s, self.current as int, self.line as int);
        let ghost prefix = tokens_view(self.tokens@);
        proof {
            match target {
                Ok(all) => {
                    assert(prefix + all =~= tokens_view(self.tokens@) + all);
                },
                Err(_) => {},
            }
        }
        while !self.is_at_end()
            invariant
                self.wf(),
                self.source@ == s,
                target == scan_from(old(self).text(), old(self).position(), old(self).line_number()),
                prefix == old(self).scanned(),
                match target {
                    Ok(all) => match scan_from(s, self.current as int, self.line as int) {
                        Ok(rest) => prefix + all == tokens_view(self.tokens@) + rest,
                        Err(_) => false,
                    },
                    Err(e) => scan_from(s, self.current as int, self.line as int) == Err::<Seq<TokenView>, HErrorView>(e),
                },
            decreases self.source_length - self.current,
        {
            let ghost pos = self.current as int;
            let ghost line = self.line as int;
            let ghost before = self.tokens@;
            self.start = self.current;
            let step = self.scan_token();
            proof {
                lemma_scan_step_progress(s, pos, line);
            }
            match step {
                Err(e) => {
                    proof {
                        match scan_step(s, pos, line) {
                            Err(x) => {
                                assert(scan_from(s, pos, line) == Err::<Seq<TokenView>, HErrorView>(x));
                            },
                            Ok(_) => {
                                assert(false);
                            },
                        }
                    }
                    return Err(e);
                },
                Ok(()) => {
                    proof {
                        match scan_step(s, pos, line) {
                            Ok((t, p, l)) => {
                                match (target, scan_from(s, p, l)) {
                                    (Ok(all), Ok(rest)) => {
                                        let added = match t {
                                            Some(tt) => seq![TokenView { token_type: tt, line: l }],
                                            None => Seq::<TokenView>::empty(),
                                        };
                                        assert(tokens_view(before) + (added + rest) =~= (tokens_view(before) + added) + rest);
                                    },
                                    _ => {},
                                }
                            },
                            Err(_) => {},
                        }
                    }
                },
            }
        }
        let ghost before = self.tokens@;
        self.tokens.push(Token { token_type: TokenType::EndOfFile, line: self.line });
        proof {
            assert(tokens_view(self.tokens@) =~= tokens_view(before).push(
                TokenView { token_type: TokenTypeView::EndOfFile, line: self.line as int },
            ));
        }
        let mut out: Vec<Token> = Vec::new();
        std::mem::swap(&mut out, &mut self.tokens);
        Ok(out)
    }

    fn is_at_end(&self) -> (r: bool)
        ensures
            r == (self.current >= self.source_length),
    {
        self.current >= self.source_length
    }

    fn advance(&mut self) -> (c: Option<char>)
        requires
            old(self).wf(),
            old(self).current < old(self).source_length,
        ensures
            c == Some(old(self).source@[old(self).current as int]),
            old(self).source@[old(self).current as int] != '\n' ==> final(self).wf(),
            old(self).source@[old(self).current as int] == '\n' ==> old(self).line + 1 + newlines(
                old(self).source@,
                final(self).current as int,
                old(self).source_length as int,
            ) < i32::MAX,
            final(self).current == old(self).current + 1,
            final(self).start == old(self).start,
            final(self).line == old(self).line,
            final(self).tokens == old(self).tokens,
            final(self).source@ == old(self).source@,
            final(self).source_length == old(self).source_length,
    {
        proof {
            lemma_newlines_first(self.source@, self.current as int, self.source_length as int);
        }
        let c = self.source[self.current];
        self.current = self.current + 1;
        Some(c)
    }

    fn peek(&self) -> (c: Option<char>)
        requires
            self.wf(),
        ensures
            c == if self.current < self.source_length {
                Some(self.source@[self.current as int])
            } else {
                None
            },
    {
        if self.is_at_end() {
            return None;
        }
        Some(self.source[self.current])
    }

    fn peek_next(&self) -> (c: Option<char>)
        requires
            self.wf(),
        ensures
            c == if self.current + 1 < self.source_length {
                Some(self.source@[self.current + 1])
            } else {
                None
            },
    {
        let next = self.current + 1;
        if next >= self.source_length {
            return None;
        }
        Some(self.source[next])
    }

    fn add_token(&mut self, token_type: TokenType)
        ensures
            final(self).tokens@ == old(self).tokens@.push(Token { token_type, line: old(self).line }),
            final(self).start == old(self).start,
            final(self).current == old(self).current,
            final(self).line == old(self).line,
            final(self).source@ == old(self).source@,
            final(self).source_length == old(self).source_length,
    {
        self.tokens.push(Token { token_type: token_type, line: self.line });
    }
}

pub proof fn lemma_tokens_view_push(v: Seq<Token>, t: Token)
    ensures
        tokens_view(v.push(t)) == tokens_view(v).push(t@),
        tokens_view(v.push(t)) == tokens_view(v) + seq![t@],
{
    assert(tokens_view(v.push(t)) =~= tokens_view(v).push(t@));
    assert(tokens_view(v.push(t)) =~= tokens_view(v) + seq![t@]);
}

} // verus!

verus! {

impl Scanner {
    fn peek_is(&self, c: char) -> (r: bool)
        requires
            self.wf(),
        ensures
            r == (self.current < self.source_length && self.source@[self.current as int] == c),
    {
        match self.peek() {
            Some(x) => x == c,
            None => false,
        }
    }

    fn scan_token(&mut self) -> (r: Result<(), HError>)
        requires
            old(self).wf(),
            old(self).current < old(self).source_length,
            old(self).start == old(self).current,
        ensures
            final(self).wf(),
            final(self).source@ == old(self).source@,
            step_result(
                old(self).source@,
                old(self).current as int,
                old(self).line as int,
                old(self).tokens@,
                final(self).tokens@,
                final(self).current as int,
                final(self).line as int,
                r,
            ),
    {
        let ghost pos = self.current as int;
        let ghost s = self.source@;
        let c = self.advance();
        let ch = match c {
            Some(x) => x,
            None => ' ',
        };
        proof {
            lemma_tokens_view_push(old(self).tokens@, Token { token_type: TokenType::LeftParen, line: self.line });
        }
        if ch == '(' {
            self.add_token(TokenType::LeftParen);
            proof { lemma_tokens_view_push(old(self).tokens@, Token { token_type: TokenType::LeftParen, line: self.line }); }
        } else if ch == ')' {
            self.add_token(TokenType::RightParen);
            proof { lemma_tokens_view_push(old(self).tokens@, Token { token_type: TokenType::RightParen, line: self.line }); }
        } else if ch == '<' {
            self.add_token(TokenType::LeftAngle);
            proof { lemma_tokens_view_push(old(self).tokens@, Token { token_type: TokenType::LeftAngle, line: self.line }); }
        } else if ch == '>' {
            self.add_token(TokenType::RightAngle);
            proof { lemma_tokens_view_push(old(self).tokens@, Token { token_type: TokenType::RightAngle, line: self.line }); }
        } else if ch == '{' {
            self.add_token(TokenType::LeftCurly);
            proof { lemma_tokens_view_push(old(self).tokens@, Token { token_type: TokenType::LeftCurly, line: self.line }); }
        } else if ch == '}' {
            self.add_token(TokenType::RightCurly);
            proof { lemma_tokens_view_push(old(self).tokens@, Token { token_type: TokenType::RightCurly, line: self.line }); }
        } else if ch == '[' {
            self.add_token(TokenType::LeftSquare);
            proof { lemma_tokens_view_push(old(self).tokens@, Token { token_type: TokenType::LeftSquare, line: self.line }); }
        } else if ch == ']' {
            self.add_token(TokenType::RightSquare);
            proof { lemma_tokens_view_push(old(self).tokens@, Token { token_type: TokenType::RightSquare, line: self.line }); }
        } else if ch == '&' {
            self.add_token(TokenType::Ampersand);
            proof { lemma_tokens_view_push(old(self).tokens@, Token { token_type: TokenType::Ampersand, line: self.line }); }
        } else if ch == '"' {
            self.string()?;
        } else if ch == ':' {
            self.keyword();
        } else if ch == ' ' || ch == '\r' || ch == '\t' {
            assert(tokens_view(self.tokens@) =~= tokens_view(old(self).tokens@) + Seq::empty());
        } else if ch == '\n' {
            proof {
                lemma_newlines_bound(self.source@, self.current as int, self.source_length as int);
            }
            self.line = self.line + 1;
            assert(tokens_view(self.tokens@) =~= tokens_view(old(self).tokens@) + Seq::empty());
        } else if is_digit_opt(c) {
            self.number()?;
        } else if is_alpha_opt(c) {
            self.symbol();
        } else {
            let mut msg: Vec<char> = Vec::new();
            push_str(&mut msg, "Unexpected character ");
            push_str(&mut msg, "Some(");
            let d = char_debug(ch);
            push_str(&mut msg, d.as_str());
            push_str(&mut msg, ")");
            assert(msg@ =~= unexpected_character_message(ch));
            return Err(HError::ScannerError(chars_to_string(&msg)));
        }
        Ok(())
    }

    fn string(&mut self) -> (r: Result<(), HError>)
        requires
            old(self).wf(),
            old(self).current == old(self).start + 1,
            old(self).source@[old(self).start as int] == '"',
        ensures
            final(self).wf(),
            final(self).source@ == old(self).source@,
            step_result(
                old(self).source@,
                old(self).start as int,
                old(self).line as int,
                old(self).tokens@,
                final(self).tokens@,
                final(self).current as int,
                final(self).line as int,
                r,
            ),
    {
        let ghost s = self.source@;
        let ghost pos = self.start as int;
        let ghost line0 = self.line as int;
        proof {
            lemma_quote_end(s, pos + 1);
        }
        while !self.peek_is('"') && !self.is_at_end()
            invariant
                self.wf(),
                self.source@ == s,
                self.start as int == pos,
                self.tokens == old(self).tokens,
                pos + 1 <= self.current,
                line0 == old(self).line,
                quote_end(s, pos + 1) == quote_end(s, self.current as int),
                self.line as int == line0 + newlines(s, pos + 1, self.current as int),
            decreases self.source_length - self.current,
        {
            let ghost cur = self.current as int;
            proof {
                lemma_newlines_first(s, cur, self.source_length as int);
            }
            let nl = self.peek_is('\n');
            self.advance();
            proof {
                lemma_newlines_bound(s, self.current as int, self.source_length as int);
            }
            if nl {
                self.line = self.line + 1;
            }
            proof {
                assert(newlines(s, pos + 1, cur + 1) == newlines(s, pos + 1, cur) + (if s[cur] == '\n' { 1int } else { 0int }));
            }
        }
        proof {
            lemma_quote_end(s, self.current as int);
        }
        if self.is_at_end() {
            return Err(HError::ScannerError(owned("Unterminated string")));
        }
        self.advance();
        let value = substring(&self.source, self.start + 1, self.current - 1);
        let ghost before = self.tokens@;
        self.add_token(TokenType::String(value));
        proof {
            lemma_tokens_view_push(before, self.tokens@.last());
            assert(self.tokens@ == before.push(self.tokens@.last()));
        }
        Ok(())
    }

    fn keyword(&mut self)
        requires
            old(self).wf(),
            old(self).current == old(self).start + 1,
            old(self).source@[old(self).start as int] == ':',
        ensures
            final(self).wf(),
            final(self).source@ == old(self).source@,
            step_result(
                old(self).source@,
                old(self).start as int,
                old(self).line as int,
                old(self).tokens@,
                final(self).tokens@,
                final(self).current as int,
                final(self).line as int,
                Ok(()),
            ),
    {
        let ghost s = self.source@;
        let ghost pos = self.start as int;
        proof {
            lemma_alnum_end(s, pos + 1);
        }
        while is_alpha_numeric_opt(self.peek())
            invariant
                self.wf(),
                self.source@ == s,
                self.start as int == pos,
                self.tokens == old(self).tokens,
                self.line == old(self).line,
                pos + 1 <= self.current,
                alnum_end(s, pos + 1) == alnum_end(s, self.current as int),
            decreases self.source_length - self.current,
        {
            self.advance();
        }
        let value = substring(&self.source, self.start, self.current);
        let ghost before = self.tokens@;
        self.add_token(TokenType::Keyword(value));
        proof {
            lemma_tokens_view_push(before, self.tokens@.last());
            assert(self.tokens@ == before.push(self.tokens@.last()));
        }
    }

    fn symbol(&mut self)
        requires
            old(self).wf(),
            old(self).current == old(self).start + 1,
            is_alpha(old(self).source@[old(self).start as int]),
        ensures
            final(self).wf(),
            final(self).source@ == old(self).source@,
            step_result(
                old(self).source@,
                old(self).start as int,
                old(self).line as int,
                old(self).tokens@,
                final(self).tokens@,
                final(self).current as int,
                final(self).line as int,
                Ok(()),
            ),
    {
        let ghost s = self.source@;
        let ghost pos = self.start as int;
        proof {
            lemma_alnum_end(s, pos + 1);
        }
        while is_alpha_numeric_opt(self.peek())
            invariant
                self.wf(),
                self.source@ == s,
                self.start as int == pos,
                self.tokens == old(self).tokens,
                self.line == old(self).line,
                pos + 1 <= self.current,
                alnum_end(s, pos + 1) == alnum_end(s, self.current as int),
            decreases self.source_length - self.current,
        {
            self.advance();
        }
        proof {
            lemma_alnum_end(s, self.current as int);
        }
        if self.peek_is(':') {
            self.advance();
        }
        let ghost word = s.subrange(pos, self.current as int);
        let token_type = if chars_are(&self.source, self.start, self.current, "true") {
            TokenType::Boolean(true)
        } else if chars_are(&self.source, self.start, self.current, "false") {
            TokenType::Boolean(false)
        } else if chars_are(&self.source, self.start, self.current, "nil") {
            TokenType::Nil
        } else if self.source[self.current - 1] == ':' {
            TokenType::Symbol(substring(&self.source, self.start, self.current - 1))
        } else {
            TokenType::Symbol(substring(&self.source, self.start, self.current))
        };
        proof {
            assert(word.len() > 0 && word[word.len() - 1] == s[self.current - 1]);
            if word.len() > 0 && word[word.len() - 1] == ':' {
                assert(word.subrange(0, word.len() - 1) =~= s.subrange(pos, self.current - 1));
            }
            assert(token_type@ == word_token(word));
        }
        let ghost before = self.tokens@;
        self.add_token(token_type);
        proof {
            lemma_tokens_view_push(before, self.tokens@.last());
            assert(self.tokens@ == before.push(self.tokens@.last()));
        }
    }

    fn number(&mut self) -> (r: Result<(), HError>)
        requires
            old(self).wf(),
            old(self).current == old(self).start + 1,
            is_digit(old(self).source@[old(self).start as int]),
        ensures
            final(self).wf(),
            final(self).source@ == old(self).source@,
            step_result(
                old(self).source@,
                old(self).start as int,
                old(self).line as int,
                old(self).tokens@,
                final(self).tokens@,
                final(self).current as int,
                final(self).line as int,
                r,
            ),
    {
        let ghost s = self.source@;
        let ghost pos = self.start as int;
        proof {
            lemma_digits_end(s, pos + 1);
        }
        while is_digit_opt(self.peek())
            invariant
                self.wf(),
                self.source@ == s,
                self.start as int == pos,
                self.tokens == old(self).tokens,
                self.line == old(self).line,
                pos + 1 <= self.current,
                digits_end(s, pos + 1) == digits_end(s, self.current as int),
            decreases self.source_length - self.current,
        {
            self.advance();
        }
        proof {
            lemma_digits_end(s, self.current as int);
        }
        let a = self.current;
        let mut has_fraction = false;
        if self.peek_is('.') && is_digit_opt(self.peek_next()) {
            has_fraction = true;
            self.advance();
            proof {
                lemma_digits_end(s, self.current as int);
            }
            while is_digit_opt(self.peek())
                invariant
                    self.wf(),
                    self.source@ == s,
                    self.start as int == pos,
                    self.tokens == old(self).tokens,
                    self.line == old(self).line,
                    a + 1 <= self.current,
                    digits_end(s, a + 1) == digits_end(s, self.current as int),
                decreases self.source_length - self.current,
            {
                self.advance();
            }
            proof {
                lemma_digits_end(s, self.current as int);
            }
        }
        let int_part = sub_chars(&self.source, self.start, a);
        let frac_part = if has_fraction {
            sub_chars(&self.source, a + 1, self.current)
        } else {
            Vec::new()
        };
        proof {
            lemma_digits_end(s, pos + 1);
            assert(all_digits(int_part@));
            if has_fraction {
                lemma_digits_end(s, a + 1);
            }
            assert(all_digits(frac_part@));
            assert((int_part@, frac_part@) == number_parts(s, pos));
        }
        match Number::from_decimal(&int_part, &frac_part) {
            Some(n) => {
                proof {
                    let p = decimal_parts(int_part@, frac_part@);
                    Number::lemma_from_parts(p.0, p.1);
                    Number::lemma_ext(n, Number::spec_from_parts(p.0, p.1));
                }
                let ghost before = self.tokens@;
                self.add_token(TokenType::Number(n));
                proof {
                    lemma_tokens_view_push(before, self.tokens@.last());
                    assert(self.tokens@ == before.push(self.tokens@.last()));
                }
                Ok(())
            },
            None => Err(HError::ScannerError(owned("Invalid number"))),
        }
    }
}

/// The tokens of a text, ending with the end of file; or the first error.
pub fn scan(input: &str) -> (r: Result<Vec<Token>, HError>)
    requires
        text_fits(input@),
    ensures
        match scan_spec(input@) {
            Ok(tokens) => r matches Ok(v) && tokens_view(v@) == tokens,
            Err(e) => r matches Err(x) && x@ == e,
        },
{
    let mut scanner = Scanner::new(input);
    let r = scanner.scan_tokens();
    proof {
        match scan_spec(input@) {
            Ok(tokens) => {
                assert(Seq::<TokenView>::empty() + tokens =~= tokens);
            },
            Err(_) => {},
        }
    }
    r
}

} // verus!
