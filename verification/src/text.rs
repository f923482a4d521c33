use vstd::prelude::*;

verus! {

/// The text that Rust's `Debug` formatting gives for a string slice:
/// the characters between double quotes, escaped.
pub uninterp spec fn str_debug_text(s: Seq<char>) -> Seq<char>;

/// The text that Rust's `Debug` formatting gives for a character:
/// the character between single quotes, escaped.
pub uninterp spec fn char_debug_text(c: char) -> Seq<char>;

/// Builds a `String` from characters.
///
/// Trusted: std's `String::from_iter` over the characters; the contract
/// claims that the string holds exactly those characters, in order.
#[verifier::external_body]
pub(crate) fn chars_to_string(v: &Vec<char>) -> (s: String)
    ensures
        s@ == v@,
{
    String::from_iter(v.iter())
}

/// Debug text of a string.
///
/// Trusted: std's `Debug` formatting of `str` (through `format!`); the
/// contract only ties the result to the argument by a name.
#[verifier::external_body]
pub(crate) fn str_debug(s: &str) -> (r: String)
    ensures
        r@ == str_debug_text(s@),
{
    format!("{:?}", s)
}

/// Debug text of a character.
///
/// Trusted: std's `Debug` formatting of `char` (through `format!`); the
/// contract only ties the result to the argument by a name.
#[verifier::external_body]
pub(crate) fn char_debug(c: char) -> (r: String)
    ensures
        r@ == char_debug_text(c),
{
    format!("{:?}", c)
}

/// The characters of a string slice, in order.
pub fn str_chars(s: &str) -> (v: Vec<char>)
    ensures
        v@ == s@,
{
    let n = s.unicode_len();
    let mut v: Vec<char> = Vec::new();
    let mut i: usize = 0;
    while i < n
        invariant
            n == s@.len(),
            i <= n,
            v@ == s@.subrange(0, i as int),
        decreases n - i,
    {
        v.push(s.get_char(i));
        i = i + 1;
    }
    assert(v@ =~= s@);
    v
}

/// Appends the characters of a string to a character buffer.
pub fn push_str(out: &mut Vec<char>, s: &str)
    ensures
        final(out)@ == old(out)@ + s@,
{
    let n = s.unicode_len();
    let mut i: usize = 0;
    while i < n
        invariant
            n == s@.len(),
            i <= n,
            out@ == old(out)@ + s@.subrange(0, i as int),
        decreases n - i,
    {
        out.push(s.get_char(i));
        i = i + 1;
        assert(out@ =~= old(out)@ + s@.subrange(0, i as int));
    }
    assert(s@.subrange(0, n as int) =~= s@);
}

/// Appends all characters of `src` to `out`.
pub fn push_chars(out: &mut Vec<char>, src: &Vec<char>)
    ensures
        final(out)@ == old(out)@ + src@,
{
    let mut i: usize = 0;
    while i < src.len()
        invariant
            i <= src.len(),
            out@ == old(out)@ + src@.subrange(0, i as int),
        decreases src.len() - i,
    {
        out.push(src[i]);
        i = i + 1;
        assert(out@ =~= old(out)@ + src@.subrange(0, i as int));
    }
    assert(src@.subrange(0, src@.len() as int) =~= src@);
}

/// The decimal digit character for `d` (`d < 10`).
pub open spec fn digit_char(d: int) -> char {
    if d == 0 { '0' }
    else if d == 1 { '1' }
    else if d == 2 { '2' }
    else if d == 3 { '3' }
    else if d == 4 { '4' }
    else if d == 5 { '5' }
    else if d == 6 { '6' }
    else if d == 7 { '7' }
    else if d == 8 { '8' }
    else { '9' }
}

/// The value of a decimal digit character.
pub open spec fn digit_value(c: char) -> int {
    (c as int) - ('0' as int)
}

pub open spec fn is_digit_char(c: char) -> bool {
    '0' <= c && c <= '9'
}

/// Decimal text of a natural number, without leading zeros ("0" for zero).
pub open spec fn nat_text(n: nat) -> Seq<char>
    decreases n,
{
    if n < 10 {
        seq![digit_char(n as int)]
    } else {
        nat_text(n / 10).push(digit_char((n % 10) as int))
    }
}

/// Decimal text of an integer, with a leading '-' when negative.
pub open spec fn int_text(n: int) -> Seq<char> {
    if n < 0 {
        seq!['-'] + nat_text((-n) as nat)
    } else {
        nat_text(n as nat)
    }
}

pub fn digit_to_char(d: u64) -> (c: char)
    requires
        d < 10,
    ensures
        c == digit_char(d as int),
{
    if d == 0 { '0' }
    else if d == 1 { '1' }
    else if d == 2 { '2' }
    else if d == 3 { '3' }
    else if d == 4 { '4' }
    else if d == 5 { '5' }
    else if d == 6 { '6' }
    else if d == 7 { '7' }
    else if d == 8 { '8' }
    else { '9' }
}

/// Appends the decimal text of `n`.
pub fn push_nat(out: &mut Vec<char>, n: u64)
    ensures
        final(out)@ == old(out)@ + nat_text(n as nat),
    decreases n,
{
    if n < 10 {
        out.push(digit_to_char(n));
        assert(out@ =~= old(out)@ + nat_text(n as nat));
    } else {
        push_nat(out, n / 10);
        out.push(digit_to_char(n % 10));
        assert(out@ =~= old(out)@ + nat_text(n as nat));
    }
}

/// Appends the decimal text of `n`, with '-' when negative.
pub fn push_int(out: &mut Vec<char>, n: i64)
    ensures
        final(out)@ == old(out)@ + int_text(n as int),
{
    if n < 0 {
        out.push('-');
        let a: u64 = if n == i64::MIN { 9223372036854775808u64 } else { (-n) as u64 };
        push_nat(out, a);
        assert(out@ =~= old(out)@ + int_text(n as int));
    } else {
        push_nat(out, n as u64);
    }
}

} // verus!
