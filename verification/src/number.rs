use vstd::prelude::*;

use crate::text::{digit_char, digit_to_char, digit_value, is_digit_char, nat_text, push_chars, push_nat};

verus! {

/// An exact rational number `num / den` with a positive denominator.
///
/// The representation is not reduced: `2/4` and `1/2` are different values of
/// this type that compare equal.
#[derive(Debug, Clone, Copy)]
pub struct Number {
    pub(crate) num: i64,
    pub(crate) den: i64,
}

/// Number of fraction digits that the text of a number shows at most.
pub const MAX_FRACTION_DIGITS: u64 = 16;

pub open spec fn fits_i64(x: int) -> bool {
    i64::MIN <= x <= i64::MAX
}

/// A (numerator, denominator) pair that a `Number` can hold.
pub open spec fn fits_number(p: (int, int)) -> bool {
    fits_i64(p.0) && 0 < p.1 <= i64::MAX
}

/// Integer division rounding toward zero (`d > 0`).
pub open spec fn trunc_div(n: int, d: int) -> int {
    if n >= 0 { n / d } else { -((-n) / d) }
}

/// The greatest common divisor, by Euclid's algorithm (`gcd(a, 0) == a`).
pub open spec fn gcd(a: nat, b: nat) -> nat
    decreases b,
{
    if b == 0 {
        a
    } else {
        proof {
            vstd::arithmetic::div_mod::lemma_mod_pos_bound(a as int, b as int);
        }
        gcd(b, a % b)
    }
}

/// The magnitude of an integer.
pub open spec fn magnitude(x: int) -> nat {
    if x < 0 {
        (-x) as nat
    } else {
        x as nat
    }
}

/// A pair in lowest terms: numerator and denominator divided by their
/// greatest common divisor.
pub open spec fn reduce(p: (int, int)) -> (int, int) {
    let g = gcd(magnitude(p.0), magnitude(p.1)) as int;
    if g == 0 {
        p
    } else {
        (trunc_div(p.0, g), trunc_div(p.1, g))
    }
}

proof fn lemma_product_positive(x: int, y: int)
    requires
        x > 0,
        y > 0,
    ensures
        x * y > 0,
{
    assert(x * y > 0) by (nonlinear_arith)
        requires
            x > 0,
            y > 0,
    ;
}

proof fn lemma_gcd_positive(a: nat, b: nat)
    requires
        b > 0,
    ensures
        gcd(a, b) > 0,
    decreases b,
{
    vstd::arithmetic::div_mod::lemma_mod_pos_bound(a as int, b as int);
    reveal_with_fuel(gcd, 2);
    if a % b > 0 {
        lemma_gcd_positive(b, a % b);
    }
}

/// The greatest common divisor divides both numbers: the quotients.
proof fn lemma_gcd_divides(a: nat, b: nat) -> (r: (int, int))
    ensures
        a == gcd(a, b) * r.0,
        b == gcd(a, b) * r.1,
    decreases b,
{
    if b == 0 {
        assert(a == a * 1) by (nonlinear_arith);
        assert(0 == a * 0) by (nonlinear_arith);
        (1, 0)
    } else {
        vstd::arithmetic::div_mod::lemma_mod_pos_bound(a as int, b as int);
        vstd::arithmetic::div_mod::lemma_fundamental_div_mod(a as int, b as int);
        let g = gcd(b, a % b);
        let (k1, k2) = lemma_gcd_divides(b, a % b);
        let q = (a as int) / (b as int);
        assert(a == g * (k1 * q + k2)) by (nonlinear_arith)
            requires
                b == g * k1,
                (a % b) as int == g * k2,
                a == b * q + (a % b) as int,
        ;
        (k1 * q + k2, k1)
    }
}

/// Lowest terms keep the value: a pair with a positive denominator and its
/// reduced pair stand for the same fraction, and the reduced denominator is
/// positive.
pub proof fn law_reduce_keeps_value(p: (int, int))
    requires
        p.1 > 0,
    ensures
        reduce(p).1 > 0,
        reduce(p).0 * p.1 == p.0 * reduce(p).1,
{
    let a = magnitude(p.0);
    let b = magnitude(p.1);
    lemma_gcd_positive(a, b);
    let g = gcd(a, b) as int;
    let (m, n) = lemma_gcd_divides(a, b);
    assert(m >= 0) by (nonlinear_arith)
        requires
            a == g * m,
            g > 0,
            a >= 0,
    ;
    assert(n > 0) by (nonlinear_arith)
        requires
            b == g * n,
            g > 0,
            b > 0,
    ;
    vstd::arithmetic::div_mod::lemma_div_multiples_vanish(m, g);
    vstd::arithmetic::div_mod::lemma_div_multiples_vanish(n, g);
    assert((g * m) / g == m);
    assert((g * n) / g == n);
    let r0 = if p.0 >= 0 { m } else { -m };
    assert(reduce(p) == (r0, n));
    assert(r0 * p.1 == p.0 * n) by (nonlinear_arith)
        requires
            p.1 == g * n,
            p.0 >= 0 ==> p.0 == g * m && r0 == m,
            p.0 < 0 ==> -p.0 == g * m && r0 == -m,
    ;
}

fn gcd_exec(a: u128, b: u128) -> (g: u128)
    ensures
        g == gcd(a as nat, b as nat),
{
    let mut x = a;
    let mut y = b;
    while y != 0
        invariant
            gcd(x as nat, y as nat) == gcd(a as nat, b as nat),
        decreases y,
    {
        proof {
            vstd::arithmetic::div_mod::lemma_mod_pos_bound(x as int, y as int);
        }
        let r = x % y;
        x = y;
        y = r;
    }
    x
}

/// Exact sum, as an unreduced pair.
pub open spec fn add_parts(a: Number, b: Number) -> (int, int) {
    (a.numer() * b.denom() + b.numer() * a.denom(), a.denom() * b.denom())
}

/// Exact difference, as an unreduced pair.
pub open spec fn sub_parts(a: Number, b: Number) -> (int, int) {
    (a.numer() * b.denom() - b.numer() * a.denom(), a.denom() * b.denom())
}

/// Exact product, as an unreduced pair.
pub open spec fn mul_parts(a: Number, b: Number) -> (int, int) {
    (a.numer() * b.numer(), a.denom() * b.denom())
}

/// Exact quotient (`b` not zero), as an unreduced pair with a positive denominator.
pub open spec fn div_parts(a: Number, b: Number) -> (int, int) {
    if b.numer() > 0 {
        (a.numer() * b.denom(), a.denom() * b.numer())
    } else {
        (-(a.numer() * b.denom()), -(a.denom() * b.numer()))
    }
}

/// Long division: the first `k` decimal digits of `r / d` (`r < d`), stopping
/// early once the remainder is zero.
pub open spec fn fraction_text(r: nat, d: nat, k: nat) -> Seq<char>
    decreases k,
{
    if k == 0 || r == 0 || d == 0 {
        Seq::empty()
    } else {
        seq![digit_char(((r * 10) / d) as int)] + fraction_text((r * 10) % d, d, (k - 1) as nat)
    }
}

/// The value of a sequence of decimal digits.
pub open spec fn digits_value(s: Seq<char>) -> nat
    decreases s.len(),
{
    if s.len() == 0 {
        0
    } else {
        digits_value(s.drop_last()) * 10 + (digit_value(s.last()) as nat)
    }
}

pub open spec fn pow10(k: nat) -> nat
    decreases k,
{
    if k == 0 { 1 } else { 10 * pow10((k - 1) as nat) }
}

pub open spec fn all_digits(s: Seq<char>) -> bool {
    forall|i: int| 0 <= i < s.len() ==> is_digit_char(#[trigger] s[i])
}

/// The number that the decimal text `int_part.frac_part` stands for, as a pair.
pub open spec fn decimal_parts(int_part: Seq<char>, frac_part: Seq<char>) -> (int, int) {
    (digits_value(int_part + frac_part) as int, pow10(frac_part.len()) as int)
}

proof fn lemma_mul_bound(x: int, y: int)
    requires
        -0x8000_0000_0000_0000 <= x <= 0x8000_0000_0000_0000,
        0 <= y < 0x8000_0000_0000_0000,
    ensures
        -0x4000_0000_0000_0000_0000_0000_0000_0000 < x * y < 0x4000_0000_0000_0000_0000_0000_0000_0000,
{
    assert(-0x4000_0000_0000_0000_0000_0000_0000_0000 < x * y < 0x4000_0000_0000_0000_0000_0000_0000_0000)
        by (nonlinear_arith)
        requires
            -0x8000_0000_0000_0000 <= x <= 0x8000_0000_0000_0000,
            0 <= y < 0x8000_0000_0000_0000,
    ;
}

proof fn lemma_mul_bound_signed(x: int, y: int)
    requires
        -0x8000_0000_0000_0000 <= x <= 0x8000_0000_0000_0000,
        -0x8000_0000_0000_0000 <= y <= 0x8000_0000_0000_0000,
    ensures
        -0x4000_0000_0000_0000_0000_0000_0000_0001 <= x * y <= 0x4000_0000_0000_0000_0000_0000_0000_0000,
{
    assert(-0x4000_0000_0000_0000_0000_0000_0000_0001 <= x * y <= 0x4000_0000_0000_0000_0000_0000_0000_0000)
        by (nonlinear_arith)
        requires
            -0x8000_0000_0000_0000 <= x <= 0x8000_0000_0000_0000,
            -0x8000_0000_0000_0000 <= y <= 0x8000_0000_0000_0000,
    ;
}

impl Number {
    #[verifier::type_invariant]
    spec fn positive_denominator(self) -> bool {
        self.den > 0
    }

    /// The numerator.
    pub closed spec fn numer(self) -> int {
        self.num as int
    }

    /// The denominator (positive for every `Number` that exists at run time).
    pub closed spec fn denom(self) -> int {
        self.den as int
    }

    pub fn numerator(&self) -> (r: i64)
        ensures
            r == self.numer(),
    {
        self.num
    }

    pub fn denominator(&self) -> (r: i64)
        ensures
            r == self.denom(),
            r > 0,
    {
        proof {
            use_type_invariant(self);
        }
        self.den
    }

    /// The number `value / 1`.
    pub fn integer(value: i64) -> (r: Number)
        ensures
            r.numer() == value,
            r.denom() == 1,
    {
        Number { num: value, den: 1 }
    }

    /// The number `num / den`, or `None` when `den` is not positive.
    pub fn ratio(num: i64, den: i64) -> (r: Option<Number>)
        ensures
            den > 0 <==> r is Some,
            r matches Some(n) ==> n.numer() == num && n.denom() == den,
    {
        if den > 0 {
            Some(Number { num, den })
        } else {
            None
        }
    }

    /// Builds a number from a pair with a positive denominator, in lowest
    /// terms, when that fits.
    fn from_parts(num: i128, den: i128) -> (r: Option<Number>)
        requires
            den > 0,
            num > i128::MIN,
        ensures
            r is Some <==> fits_number(reduce((num as int, den as int))),
            r matches Some(n) ==> (n.numer(), n.denom()) == reduce((num as int, den as int)),
    {
        let a: u128 = if num < 0 {
            (-num) as u128
        } else {
            num as u128
        };
        let d: u128 = den as u128;
        let g = gcd_exec(a, d);
        proof {
            lemma_gcd_positive(a as nat, d as nat);
            vstd::arithmetic::div_mod::lemma_div_basics_5(a as int, g as int);
            vstd::arithmetic::div_mod::lemma_div_basics_5(d as int, g as int);
        }
        let n2 = a / g;
        let d2 = d / g;
        let sn: i128 = if num < 0 {
            -(n2 as i128)
        } else {
            n2 as i128
        };
        let sd: i128 = d2 as i128;
        assert(magnitude(num as int) == a);
        assert(magnitude(den as int) == d);
        assert((sn as int, sd as int) == reduce((num as int, den as int)));
        if sn >= i64::MIN as i128 && sn <= i64::MAX as i128 && sd > 0 && sd <= i64::MAX as i128 {
            Some(Number { num: sn as i64, den: sd as i64 })
        } else {
            None
        }
    }

    /// The number with the given numerator and denominator (both fitting).
    pub closed spec fn spec_from_parts(num: int, den: int) -> Number {
        Number { num: num as i64, den: den as i64 }
    }

    pub proof fn lemma_from_parts(num: int, den: int)
        requires
            fits_number((num, den)),
        ensures
            Number::spec_from_parts(num, den).numer() == num,
            Number::spec_from_parts(num, den).denom() == den,
    {
    }

    /// The numerator and the denominator are 64-bit integers.
    pub proof fn lemma_parts_range(self)
        ensures
            i64::MIN <= self.numer() <= i64::MAX,
            i64::MIN <= self.denom() <= i64::MAX,
    {
    }

    /// Two numbers with the same numerator and denominator are the same number.
    pub proof fn lemma_ext(a: Number, b: Number)
        requires
            a.numer() == b.numer(),
            a.denom() == b.denom(),
        ensures
            a == b,
    {
    }

    /// Whether the two numbers have the same value.
    pub open spec fn same_value(self, other: Number) -> bool {
        self.numer() * other.denom() == other.numer() * self.denom()
    }

    /// Whether this number is less than `other` (for positive denominators).
    pub open spec fn less_than(self, other: Number) -> bool {
        self.numer() * other.denom() < other.numer() * self.denom()
    }

    /// Exact sum in lowest terms; `None` when it does not fit.
    pub fn add(&self, other: &Number) -> (r: Option<Number>)
        ensures
            r is Some <==> fits_number(reduce(add_parts(*self, *other))),
            r matches Some(n) ==> (n.numer(), n.denom()) == reduce(add_parts(*self, *other)),
    {
        proof {
            use_type_invariant(self);
            use_type_invariant(other);
            lemma_mul_bound(self.num as int, other.den as int);
            lemma_mul_bound(other.num as int, self.den as int);
            lemma_mul_bound(self.den as int, other.den as int);
            lemma_product_positive(self.den as int, other.den as int);
        }
        let p = (self.num as i128) * (other.den as i128) + (other.num as i128) * (self.den as i128);
        let q = (self.den as i128) * (other.den as i128);
        Number::from_parts(p, q)
    }

    /// Exact difference in lowest terms; `None` when it does not fit.
    pub fn sub(&self, other: &Number) -> (r: Option<Number>)
        ensures
            r is Some <==> fits_number(reduce(sub_parts(*self, *other))),
            r matches Some(n) ==> (n.numer(), n.denom()) == reduce(sub_parts(*self, *other)),
    {
        proof {
            use_type_invariant(self);
            use_type_invariant(other);
            lemma_mul_bound(self.num as int, other.den as int);
            lemma_mul_bound(other.num as int, self.den as int);
            lemma_mul_bound(self.den as int, other.den as int);
            lemma_product_positive(self.den as int, other.den as int);
        }
        let p = (self.num as i128) * (other.den as i128) - (other.num as i128) * (self.den as i128);
        let q = (self.den as i128) * (other.den as i128);
        Number::from_parts(p, q)
    }

    /// Exact product in lowest terms; `None` when it does not fit.
    pub fn mul(&self, other: &Number) -> (r: Option<Number>)
        ensures
            r is Some <==> fits_number(reduce(mul_parts(*self, *other))),
            r matches Some(n) ==> (n.numer(), n.denom()) == reduce(mul_parts(*self, *other)),
    {
        proof {
            use_type_invariant(self);
            use_type_invariant(other);
            lemma_mul_bound_signed(self.num as int, other.num as int);
            lemma_mul_bound(self.den as int, other.den as int);
            lemma_product_positive(self.den as int, other.den as int);
        }
        let p = (self.num as i128) * (other.num as i128);
        let q = (self.den as i128) * (other.den as i128);
        Number::from_parts(p, q)
    }

    /// Exact quotient in lowest terms; `None` when `other` is zero or it does not fit.
    pub fn div(&self, other: &Number) -> (r: Option<Number>)
        ensures
            r is Some <==> (other.numer() != 0 && fits_number(reduce(div_parts(*self, *other)))),
            r matches Some(n) ==> (n.numer(), n.denom()) == reduce(div_parts(*self, *other)),
    {
        proof {
            use_type_invariant(self);
            use_type_invariant(other);
            lemma_mul_bound(self.num as int, other.den as int);
            lemma_mul_bound(other.num as int, self.den as int);
        }
        if other.num == 0 {
            return None;
        }
        let p = (self.num as i128) * (other.den as i128);
        let q = (other.num as i128) * (self.den as i128);
        assert(q == (self.den as int) * (other.num as int)) by (nonlinear_arith)
            requires q == (other.num as int) * (self.den as int);
        proof {
            if other.num > 0 {
                lemma_product_positive(other.num as int, self.den as int);
            } else {
                assert((other.num as int) * (self.den as int) < 0) by (nonlinear_arith)
                    requires
                        other.num < 0,
                        self.den > 0,
                ;
            }
        }
        if other.num > 0 {
            Number::from_parts(p, q)
        } else {
            Number::from_parts(-p, -q)
        }
    }

    /// Whether both numbers have the same value.
    pub fn equals(&self, other: &Number) -> (r: bool)
        ensures
            r == self.same_value(*other),
    {
        proof {
            use_type_invariant(self);
            use_type_invariant(other);
            lemma_mul_bound(self.num as int, other.den as int);
            lemma_mul_bound(other.num as int, self.den as int);
        }
        (self.num as i128) * (other.den as i128) == (other.num as i128) * (self.den as i128)
    }

    /// Whether this number is less than `other`.
    pub fn less(&self, other: &Number) -> (r: bool)
        ensures
            r == self.less_than(*other),
    {
        proof {
            use_type_invariant(self);
            use_type_invariant(other);
            lemma_mul_bound(self.num as int, other.den as int);
            lemma_mul_bound(other.num as int, self.den as int);
        }
        (self.num as i128) * (other.den as i128) < (other.num as i128) * (self.den as i128)
    }

    /// The value rounded toward zero.
    pub fn truncate(&self) -> (r: i64)
        ensures
            r == trunc_div(self.numer(), self.denom()),
    {
        proof {
            use_type_invariant(self);
        }
        let d = self.den as u64;
        if self.num >= 0 {
            ((self.num as u64) / d) as i64
        } else {
            let a: u64 = if self.num == i64::MIN { 9223372036854775808u64 } else { (-self.num) as u64 };
            let q = a / d;
            assert(q <= a);
            if q == 9223372036854775808u64 {
                i64::MIN
            } else {
                -(q as i64)
            }
        }
    }

    /// The text of the number: sign, integer part, and when the value is not an
    /// integer, a point and at most `MAX_FRACTION_DIGITS` decimals.
    pub open spec fn text(self) -> Seq<char> {
        let a: nat = if self.numer() < 0 { (-self.numer()) as nat } else { self.numer() as nat };
        let d: nat = self.denom() as nat;
        let sign: Seq<char> = if self.numer() < 0 { seq!['-'] } else { Seq::empty() };
        let r: nat = a % d;
        sign + nat_text(a / d) + (if r == 0 { Seq::empty() } else {
            seq!['.'] + fraction_text(r, d, MAX_FRACTION_DIGITS as nat)
        })
    }

    /// Whether the number is a whole number.
    pub open spec fn is_whole(self) -> bool {
        let a: nat = if self.numer() < 0 { (-self.numer()) as nat } else { self.numer() as nat };
        a % (self.denom() as nat) == 0
    }

    /// The debugging text of the number: its text, with `.0` after a whole number.
    pub open spec fn debug_text(self) -> Seq<char> {
        self.text() + if self.is_whole() {
            ".0"@
        } else {
            Seq::<char>::empty()
        }
    }

    /// Appends the debugging text of the number.
    pub fn push_debug_text(&self, out: &mut Vec<char>)
        ensures
            final(out)@ == old(out)@ + self.debug_text(),
    {
        proof {
            use_type_invariant(self);
        }
        let a: u64 = if self.num >= 0 {
            self.num as u64
        } else if self.num == i64::MIN {
            9223372036854775808u64
        } else {
            (-self.num) as u64
        };
        let d: u64 = self.den as u64;
        self.push_text(out);
        let ghost mid = out@;
        if a % d == 0 {
            out.push('.');
            out.push('0');
            proof {
                reveal_strlit(".0");
            }
            assert(out@ =~= old(out)@ + self.debug_text());
        } else {
            assert(out@ =~= old(out)@ + self.debug_text());
        }
    }

    /// Appends the text of the number.
    pub fn push_text(&self, out: &mut Vec<char>)
        ensures
            final(out)@ == old(out)@ + self.text(),
    {
        proof {
            use_type_invariant(self);
        }
        let a: u64 = if self.num >= 0 {
            self.num as u64
        } else if self.num == i64::MIN {
            9223372036854775808u64
        } else {
            (-self.num) as u64
        };
        let d: u64 = self.den as u64;
        if self.num < 0 {
            out.push('-');
        }
        let ghost mid = out@;
        push_nat(out, a / d);
        let r = a % d;
        if r != 0 {
            out.push('.');
            let ghost before = out@;
            let mut rem: u128 = r as u128;
            let mut k: u64 = MAX_FRACTION_DIGITS;
            while k > 0 && rem != 0
                invariant
                    rem < d,
                    d > 0,
                    k <= MAX_FRACTION_DIGITS,
                    before + fraction_text(r as nat, d as nat, MAX_FRACTION_DIGITS as nat)
                        == out@ + fraction_text(rem as nat, d as nat, k as nat),
                decreases k,
            {
                let t = rem * 10;
                let q = t / (d as u128);
                assert(q < 10) by (nonlinear_arith)
                    requires
                        rem < d,
                        t == rem * 10,
                        q == (t as int) / (d as int),
                        d > 0,
                ;
                let dig = q as u64;
                let new_rem = t % (d as u128);
                assert(fraction_text(rem as nat, d as nat, k as nat) == seq![digit_char(dig as int)]
                    + fraction_text(new_rem as nat, d as nat, (k - 1) as nat));
                out.push(digit_to_char(dig));
                rem = new_rem;
                k = k - 1;
                assert(out@ + fraction_text(rem as nat, d as nat, k as nat) =~= before
                    + fraction_text(r as nat, d as nat, MAX_FRACTION_DIGITS as nat));
            }
            assert(out@ =~= before + fraction_text(r as nat, d as nat, MAX_FRACTION_DIGITS as nat));
        }
        assert(out@ =~= old(out)@ + self.text());
    }

    /// The number written `int_part.frac_part` in decimal (an empty `frac_part`
    /// stands for no point); `None` when it does not fit.
    pub fn from_decimal(int_part: &Vec<char>, frac_part: &Vec<char>) -> (r: Option<Number>)
        requires
            all_digits(int_part@),
            all_digits(frac_part@),
        ensures
            r is Some <==> fits_number(decimal_parts(int_part@, frac_part@)),
            r matches Some(n) ==> (n.numer(), n.denom()) == decimal_parts(int_part@, frac_part@),
    {
        let mut all: Vec<char> = Vec::new();
        push_chars(&mut all, int_part);
        push_chars(&mut all, frac_part);
        assert(all@ =~= int_part@ + frac_part@);
        let mut value: u64 = 0;
        let mut ok = true;
        let mut i: usize = 0;
        let total = all.len();
        while i < total
            invariant
                total == all@.len(),
                all@ == int_part@ + frac_part@,
                all_digits(all@),
                i <= total,
                ok ==> value == digits_value(all@.subrange(0, i as int)),
                ok ==> value <= i64::MAX,
                !ok ==> digits_value(all@.subrange(0, i as int)) > i64::MAX,
            decreases total - i,
        {
            let c = all[i];
            assert(is_digit_char(c));
            assert(all@.subrange(0, i + 1).drop_last() =~= all@.subrange(0, i as int));
            let d = (c as u32 - '0' as u32) as u64;
            if ok {
                if value > (9223372036854775807u64 - d) / 10 {
                    ok = false;
                } else {
                    value = value * 10 + d;
                }
            } else {
                assert(digits_value(all@.subrange(0, i + 1)) >= digits_value(all@.subrange(0, i as int)) * 10) by (nonlinear_arith)
                    requires
                        digits_value(all@.subrange(0, i + 1)) == digits_value(all@.subrange(0, i as int)) * 10 + (digit_value(c) as nat),
                        digit_value(c) >= 0,
                ;
            }
            i = i + 1;
        }
        assert(all@.subrange(0, total as int) =~= all@);
        let mut den: u64 = 1;
        let mut j: usize = 0;
        let mut den_ok = true;
        while j < frac_part.len()
            invariant
                j <= frac_part.len(),
                den_ok ==> den == pow10(j as nat),
                den_ok ==> 1 <= den <= i64::MAX,
                !den_ok ==> pow10(j as nat) > i64::MAX,
            decreases frac_part.len() - j,
        {
            if den_ok {
                if den > 922337203685477580u64 {
                    den_ok = false;
                } else {
                    den = den * 10;
                }
            }
            j = j + 1;
        }
        if ok && den_ok {
            Some(Number { num: value as i64, den: den as i64 })
        } else {
            None
        }
    }
}

} // verus!
