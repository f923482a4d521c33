use vstd::prelude::*;

use crate::error::HErrorView;
use crate::expr::{display_text, view_eq, Builtin, ExprView};
use crate::laws::law_lookup_finds_equal_key;
use crate::native::value_builtin;
use crate::number::{
    add_parts, all_digits, digits_value, div_parts, fraction_text, law_reduce_keeps_value, magnitude, mul_parts, pow10,
    reduce, sub_parts, trunc_div, Number,
};
use crate::text::{digit_char, digit_value, is_digit_char, nat_text};

verus! {

// ---------------------------------------------------------------------------
// Comparisons go by value
// ---------------------------------------------------------------------------

/// `lt`, `lte`, `gt` and `gte` compare two numbers by their values: `a` is
/// less than `b` exactly when `a`'s numerator times `b`'s denominator is less
/// than `b`'s numerator times `a`'s denominator.
pub proof fn law_comparison_by_value(name: Seq<char>, a: Number, b: Number)
    ensures
        value_builtin(Builtin::Lt, name, seq![ExprView::Number(a), ExprView::Number(b)]) == Ok::<ExprView, HErrorView>(
            ExprView::Boolean(a.numer() * b.denom() < b.numer() * a.denom()),
        ),
        value_builtin(Builtin::Lte, name, seq![ExprView::Number(a), ExprView::Number(b)]) == Ok::<ExprView, HErrorView>(
            ExprView::Boolean(a.numer() * b.denom() <= b.numer() * a.denom()),
        ),
        value_builtin(Builtin::Gt, name, seq![ExprView::Number(a), ExprView::Number(b)]) == Ok::<ExprView, HErrorView>(
            ExprView::Boolean(a.numer() * b.denom() > b.numer() * a.denom()),
        ),
        value_builtin(Builtin::Gte, name, seq![ExprView::Number(a), ExprView::Number(b)]) == Ok::<ExprView, HErrorView>(
            ExprView::Boolean(a.numer() * b.denom() >= b.numer() * a.denom()),
        ),
{
    let vals = seq![ExprView::Number(a), ExprView::Number(b)];
    assert(vals.drop_first() =~= seq![ExprView::Number(b)]);
    assert(seq![ExprView::Number(b)].drop_first() =~= Seq::<ExprView>::empty());
    reveal_with_fuel(crate::native::compare_fold, 2);
}

// ---------------------------------------------------------------------------
// Arithmetic goes by value
// ---------------------------------------------------------------------------

/// `+`, `-`, `*` and `/` on two numbers give a number with a positive
/// denominator whose value is the exact sum, difference, product or quotient
/// of the values: for `/`, the result times the divisor is the dividend.
/// Dividing by zero is the error "Division by zero".
pub proof fn law_arithmetic_by_value(name: Seq<char>, a: Number, b: Number)
    requires
        a.denom() > 0,
        b.denom() > 0,
    ensures
        value_builtin(Builtin::Add, name, seq![ExprView::Number(a), ExprView::Number(b)]) matches Ok(
            ExprView::Number(q),
        ) ==> q.denom() > 0 && q.numer() * (a.denom() * b.denom()) == (a.numer() * b.denom() + b.numer()
            * a.denom()) * q.denom(),
        value_builtin(Builtin::Sub, name, seq![ExprView::Number(a), ExprView::Number(b)]) matches Ok(
            ExprView::Number(q),
        ) ==> q.denom() > 0 && q.numer() * (a.denom() * b.denom()) == (a.numer() * b.denom() - b.numer()
            * a.denom()) * q.denom(),
        value_builtin(Builtin::Mul, name, seq![ExprView::Number(a), ExprView::Number(b)]) matches Ok(
            ExprView::Number(q),
        ) ==> q.denom() > 0 && q.numer() * (a.denom() * b.denom()) == (a.numer() * b.numer()) * q.denom(),
        value_builtin(Builtin::Div, name, seq![ExprView::Number(a), ExprView::Number(b)]) matches Ok(
            ExprView::Number(q),
        ) ==> q.denom() > 0 && q.numer() * b.numer() * a.denom() == a.numer() * q.denom() * b.denom(),
        b.numer() == 0 ==> value_builtin(Builtin::Div, name, seq![ExprView::Number(a), ExprView::Number(b)])
            == Err::<ExprView, HErrorView>(HErrorView::ArithmeticError("Division by zero"@)),
{
    let vals = seq![ExprView::Number(a), ExprView::Number(b)];
    assert(vals.drop_first() =~= seq![ExprView::Number(b)]);
    assert(seq![ExprView::Number(b)].drop_first() =~= Seq::<ExprView>::empty());
    reveal_with_fuel(crate::native::arith_fold, 2);
    lemma_product_positive(a.denom(), b.denom());
    lemma_op_value(add_parts(a, b));
    lemma_op_value(sub_parts(a, b));
    lemma_op_value(mul_parts(a, b));
    if b.numer() != 0 {
        let p = div_parts(a, b);
        if b.numer() > 0 {
            lemma_product_positive(a.denom(), b.numer());
        } else {
            lemma_product_positive(a.denom(), -b.numer());
            assert(-(a.denom() * b.numer()) == a.denom() * (-b.numer())) by (nonlinear_arith);
        }
        lemma_op_value(p);
        let r = reduce(p);
        assert(r.0 * b.numer() * a.denom() == a.numer() * r.1 * b.denom()) by (nonlinear_arith)
            requires
                r.0 * p.1 == p.0 * r.1,
                b.numer() > 0 ==> p == (a.numer() * b.denom(), a.denom() * b.numer()),
                b.numer() < 0 ==> p == (-(a.numer() * b.denom()), -(a.denom() * b.numer())),
                b.numer() != 0,
        ;
    }
    let r = reduce(mul_parts(a, b));
    assert(r.0 * (a.denom() * b.denom()) == (a.numer() * b.numer()) * r.1);
}

proof fn lemma_product_positive(x: int, y: int)
    requires
        x > 0,
        y > 0,
    ensures
        x * y > 0,
{
    assert(x * y > 0) by (nonlinear_arith)
        requires
            x > 0,
            y > 0,
    ;
}

/// A result built from a pair in lowest terms has that pair's value.
proof fn lemma_op_value(p: (int, int))
    requires
        p.1 > 0,
    ensures
        reduce(p).1 > 0,
        reduce(p).0 * p.1 == p.0 * reduce(p).1,
        crate::number::fits_number(reduce(p)) ==> Number::spec_from_parts(reduce(p).0, reduce(p).1).numer()
            == reduce(p).0 && Number::spec_from_parts(reduce(p).0, reduce(p).1).denom() == reduce(p).1,
{
    law_reduce_keeps_value(p);
    if crate::number::fits_number(reduce(p)) {
        Number::lemma_from_parts(reduce(p).0, reduce(p).1);
    }
}

// ---------------------------------------------------------------------------
// `get` on maps
// ---------------------------------------------------------------------------

/// `(get m k)` on a map gives the value of an entry whose key is equal (`=`)
/// to `k` whenever the map has one, and nil only when it has none.
pub proof fn law_get_finds_equal_key(name: Seq<char>, m: Seq<(ExprView, ExprView)>, k: ExprView)
    ensures
        value_builtin(Builtin::Get, name, seq![ExprView::HMap(m), k]) is Ok,
        (exists|i: int| 0 <= i < m.len() && #[trigger] view_eq(k, m[i].0)) ==> exists|j: int|
            0 <= j < m.len() && #[trigger] view_eq(k, m[j].0) && value_builtin(
                Builtin::Get,
                name,
                seq![ExprView::HMap(m), k],
            ) == Ok::<ExprView, HErrorView>(m[j].1),
        (forall|i: int| 0 <= i < m.len() ==> !#[trigger] view_eq(k, m[i].0)) ==> value_builtin(
            Builtin::Get,
            name,
            seq![ExprView::HMap(m), k],
        ) == Ok::<ExprView, HErrorView>(ExprView::Nil),
{
    law_lookup_finds_equal_key(m, k);
}

// ---------------------------------------------------------------------------
// `range`
// ---------------------------------------------------------------------------

/// `t` is the integer part of `n / d` (rounded toward zero).
pub open spec fn is_integer_part(t: int, n: int, d: int) -> bool {
    &&& n >= 0 ==> t * d <= n < t * d + d
    &&& n < 0 ==> t * d - d < n <= t * d
}

proof fn lemma_trunc_integer_part(n: int, d: int)
    requires
        d > 0,
    ensures
        is_integer_part(trunc_div(n, d), n, d),
{
    if n >= 0 {
        vstd::arithmetic::div_mod::lemma_fundamental_div_mod(n, d);
        vstd::arithmetic::div_mod::lemma_mod_pos_bound(n, d);
        let q = n / d;
        assert(q * d <= n < q * d + d) by (nonlinear_arith)
            requires
                n == d * q + n % d,
                0 <= n % d < d,
        ;
    } else {
        vstd::arithmetic::div_mod::lemma_fundamental_div_mod(-n, d);
        vstd::arithmetic::div_mod::lemma_mod_pos_bound(-n, d);
        let q = (-n) / d;
        assert((-q) * d - d < n <= (-q) * d) by (nonlinear_arith)
            requires
                -n == d * q + (-n) % d,
                0 <= (-n) % d < d,
        ;
    }
}

proof fn lemma_integer_part_unique(t: int, u: int, n: int, d: int)
    requires
        d > 0,
        is_integer_part(t, n, d),
        is_integer_part(u, n, d),
    ensures
        t == u,
{
    if t < u {
        assert(t * d + d <= u * d) by (nonlinear_arith)
            requires
                t < u,
                d > 0,
        ;
    } else if u < t {
        assert(u * d + d <= t * d) by (nonlinear_arith)
            requires
                u < t,
                d > 0,
        ;
    }
}

proof fn lemma_integer_part_bound(t: int, n: int, d: int)
    requires
        d > 0,
        is_integer_part(t, n, d),
    ensures
        n >= 0 ==> 0 <= t <= n,
        n < 0 ==> n <= t <= 0,
{
    if n >= 0 {
        assert(0 <= t <= n) by (nonlinear_arith)
            requires
                t * d <= n < t * d + d,
                d > 0,
                n >= 0,
        ;
    } else {
        assert(n <= t <= 0) by (nonlinear_arith)
            requires
                t * d - d < n <= t * d,
                d > 0,
                n < 0,
        ;
    }
}

/// `(range a b)` is the vector of the integers from the integer part of `a`
/// up to, and not including, the integer part of `b` (integer parts rounded
/// toward zero), in ascending order; empty when there are none.
pub proof fn law_range_integers(name: Seq<char>, a: Number, b: Number, lo: int, hi: int)
    requires
        a.denom() > 0,
        b.denom() > 0,
        is_integer_part(lo, a.numer(), a.denom()),
        is_integer_part(hi, b.numer(), b.denom()),
    ensures
        value_builtin(Builtin::Range, name, seq![ExprView::Number(a), ExprView::Number(b)]) matches Ok(
            ExprView::Vector(vs),
        ) && vs.len() == (if hi > lo { hi - lo } else { 0 }) && forall|k: int|
            0 <= k < vs.len() ==> (#[trigger] vs[k] matches ExprView::Number(n) && n.numer() == lo + k && n.denom()
                == 1),
{
    lemma_trunc_integer_part(a.numer(), a.denom());
    lemma_trunc_integer_part(b.numer(), b.denom());
    lemma_integer_part_unique(lo, trunc_div(a.numer(), a.denom()), a.numer(), a.denom());
    lemma_integer_part_unique(hi, trunc_div(b.numer(), b.denom()), b.numer(), b.denom());
    lemma_integer_part_bound(lo, a.numer(), a.denom());
    lemma_integer_part_bound(hi, b.numer(), b.denom());
    a.lemma_parts_range();
    b.lemma_parts_range();
    let vs = crate::native::integers(lo, hi);
    assert forall|k: int| 0 <= k < vs.len() implies (#[trigger] vs[k] matches ExprView::Number(n) && n.numer()
        == lo + k && n.denom() == 1) by {
        Number::lemma_from_parts(lo + k, 1);
    }
}

// ---------------------------------------------------------------------------
// The printed text of a number
// ---------------------------------------------------------------------------

proof fn lemma_digit_char(q: int)
    requires
        0 <= q <= 9,
    ensures
        is_digit_char(digit_char(q)),
        digit_value(digit_char(q)) == q,
{
}

proof fn lemma_prepend_digit(c: char, s: Seq<char>)
    requires
        is_digit_char(c),
        all_digits(s),
    ensures
        digits_value(seq![c] + s) == digit_value(c) * pow10(s.len()) + digits_value(s),
    decreases s.len(),
{
    let t = seq![c] + s;
    assert(t.last() == (if s.len() == 0 { c } else { s.last() }));
    if s.len() == 0 {
        assert(t.drop_last() =~= Seq::<char>::empty());
        assert(digits_value(Seq::<char>::empty()) == 0);
        assert(pow10(0) == 1);
        assert(digits_value(t) == digit_value(c));
    } else {
        assert(t.drop_last() =~= seq![c] + s.drop_last());
        assert(is_digit_char(s[s.len() - 1]));
        assert(all_digits(s.drop_last()));
        lemma_prepend_digit(c, s.drop_last());
        let x = digit_value(c);
        let p = pow10((s.len() - 1) as nat) as int;
        let y = digits_value(s.drop_last()) as int;
        let z = digit_value(s.last());
        assert(z >= 0);
        assert(digits_value(t) == (x * p + y) * 10 + z);
        assert(digits_value(s) == y * 10 + z);
        assert(pow10(s.len()) == 10 * p);
        assert((x * p + y) * 10 + z == x * (10 * p) + (y * 10 + z)) by (nonlinear_arith);
    }
}

proof fn lemma_nat_text(n: nat)
    ensures
        nat_text(n).len() > 0,
        all_digits(nat_text(n)),
        digits_value(nat_text(n)) == n,
    decreases n,
{
    if n < 10 {
        lemma_digit_char(n as int);
        let t = seq![digit_char(n as int)];
        assert(t.drop_last() =~= Seq::<char>::empty());
        assert(digits_value(Seq::<char>::empty()) == 0);
        assert(digits_value(t) == n);
        assert(all_digits(t));
    } else {
        lemma_nat_text(n / 10);
        vstd::arithmetic::div_mod::lemma_mod_pos_bound(n as int, 10);
        lemma_digit_char((n % 10) as int);
        let t = nat_text(n);
        assert(t == nat_text(n / 10).push(digit_char((n % 10) as int)));
        assert(t.drop_last() =~= nat_text(n / 10));
        assert(t.last() == digit_char((n % 10) as int));
        vstd::arithmetic::div_mod::lemma_fundamental_div_mod(n as int, 10);
        assert(digits_value(t) == (n / 10) * 10 + n % 10);
        assert(all_digits(t)) by {
            assert forall|i: int| 0 <= i < t.len() implies is_digit_char(#[trigger] t[i]) by {
                if i < t.len() - 1 {
                    assert(t[i] == nat_text(n / 10)[i]);
                }
            }
        }
    }
}

/// The decimals of `r / d` (`r < d`) that a number's text shows: at most `k`
/// of them, each a digit; read as a decimal fraction they are `r / d`
/// truncated to their count; they stop at the first place where the division
/// comes out exact, and otherwise after `k` places.
pub open spec fn decimals_of(r: nat, d: nat, k: nat, ds: Seq<char>) -> bool {
    &&& ds.len() <= k
    &&& all_digits(ds)
    &&& digits_value(ds) == (r * pow10(ds.len())) / d
    &&& ds.len() == k || (r * pow10(ds.len())) % d == 0
    &&& forall|j: nat| j < ds.len() ==> (r * #[trigger] pow10(j)) % d != 0
}

proof fn lemma_fraction_digits(r: nat, d: nat, k: nat) -> (rem: int)
    requires
        d > 0,
        r < d,
    ensures
        ({
            let ft = fraction_text(r, d, k);
            &&& ft.len() <= k
            &&& all_digits(ft)
            &&& 0 <= rem < d
            &&& r * pow10(ft.len()) == digits_value(ft) * d + rem
            &&& ft.len() == k || rem == 0
            &&& forall|j: nat| j < ft.len() ==> (r * #[trigger] pow10(j)) % d != 0
        }),
    decreases k,
{
    let ft = fraction_text(r, d, k);
    if k == 0 || r == 0 {
        assert(ft.len() == 0);
        assert(digits_value(ft) == 0);
        assert(pow10(0) == 1);
        assert(r * pow10(ft.len()) == r);
        assert(digits_value(ft) * d == 0) by (nonlinear_arith)
            requires
                digits_value(ft) == 0,
        ;
        r as int
    } else {
        let q0 = (r * 10) / d;
        let r1 = (r * 10) % d;
        vstd::arithmetic::div_mod::lemma_fundamental_div_mod((r * 10) as int, d as int);
        vstd::arithmetic::div_mod::lemma_mod_pos_bound((r * 10) as int, d as int);
        assert(0 <= q0 <= 9) by (nonlinear_arith)
            requires
                (r * 10) as int == d * q0 + r1,
                0 <= r1 < d,
                r < d,
                q0 >= 0,
        ;
        lemma_digit_char(q0 as int);
        let rest = fraction_text(r1, d, (k - 1) as nat);
        let rem = lemma_fraction_digits(r1, d, (k - 1) as nat);
        assert(ft == seq![digit_char(q0 as int)] + rest);
        lemma_prepend_digit(digit_char(q0 as int), rest);
        let lp = rest.len();
        let p = pow10(lp) as int;
        assert(pow10(ft.len()) == 10 * p);
        assert(digits_value(ft) == q0 * p + digits_value(rest));
        assert(r * pow10(ft.len()) == r * (10 * p));
        assert(all_digits(ft)) by {
            assert forall|i: int| 0 <= i < ft.len() implies is_digit_char(#[trigger] ft[i]) by {
                if i > 0 {
                    assert(ft[i] == rest[i - 1]);
                }
            }
        }
        assert(r * (10 * p) == (q0 * p + digits_value(rest)) * d + rem) by (nonlinear_arith)
            requires
                (r * 10) as int == d * q0 + r1,
                r1 * p == digits_value(rest) * d + rem,
        ;
        assert(r * pow10(ft.len()) == digits_value(ft) * d + rem);
        assert forall|j: nat| j < ft.len() implies (r * #[trigger] pow10(j)) % d != 0 by {
            if j == 0 {
                vstd::arithmetic::div_mod::lemma_small_mod(r, d);
                assert(pow10(0) == 1);
                assert(r * pow10(j) == r);
            } else {
                let pj = pow10((j - 1) as nat) as int;
                assert(pow10(j) == 10 * pj);
                assert(r * (10 * pj) == d * (q0 * pj) + r1 * pj) by (nonlinear_arith)
                    requires
                        (r * 10) as int == d * q0 + r1,
                ;
                vstd::arithmetic::div_mod::lemma_mod_multiples_vanish(q0 * pj, r1 * pj, d as int);
                assert(pow10((j - 1) as nat) == pj);
                assert(((j - 1) as nat) < rest.len());
                assert((r1 * pow10((j - 1) as nat)) % d != 0);
                assert(r * pow10(j) == r * (10 * pj));
            }
        }
        rem
    }
}

/// `ip` and `fp` split the printed text of `n` after its sign: `ip` the
/// digits of the integer part, `fp` empty for a whole number, and otherwise a
/// point and the decimals of the fraction part (see `decimals_of`).
pub open spec fn text_parts(n: Number, ip: Seq<char>, fp: Seq<char>) -> bool {
    let a = magnitude(n.numer());
    let d = n.denom() as nat;
    let sign = if n.numer() < 0 {
        seq!['-']
    } else {
        Seq::<char>::empty()
    };
    &&& display_text(ExprView::Number(n)) == sign + ip + fp
    &&& ip.len() > 0
    &&& all_digits(ip)
    &&& digits_value(ip) == a / d
    &&& a % d == 0 ==> fp.len() == 0
    &&& a % d != 0 ==> fp.len() > 0 && fp[0] == '.' && decimals_of(a % d, d, 16, fp.drop_first())
}

/// The printed text of a number (what `print` and `println` show): its sign,
/// the digits of its integer part, and, when it is not whole, a point and the
/// decimals of its fraction part as `decimals_of` says: every digit of the
/// long division, zeros included, up to sixteen places.
pub proof fn law_number_text(n: Number)
    requires
        n.denom() > 0,
    ensures
        exists|ip: Seq<char>, fp: Seq<char>| text_parts(n, ip, fp),
{
    let a = magnitude(n.numer());
    let d = n.denom() as nat;
    let sign = if n.numer() < 0 {
        seq!['-']
    } else {
        Seq::<char>::empty()
    };
    let ip = nat_text(a / d);
    lemma_nat_text(a / d);
    vstd::arithmetic::div_mod::lemma_mod_pos_bound(a as int, d as int);
    let r = a % d;
    if r == 0 {
        let fp = Seq::<char>::empty();
        assert(display_text(ExprView::Number(n)) == sign + ip + fp);
        assert(text_parts(n, ip, fp));
    } else {
        let ds = fraction_text(r, d, 16);
        let fp = seq!['.'] + ds;
        let rem = lemma_fraction_digits(r, d, 16);
        assert(fp.drop_first() =~= ds);
        vstd::arithmetic::div_mod::lemma_fundamental_div_mod_converse(
            (r * pow10(ds.len())) as int,
            d as int,
            digits_value(ds) as int,
            rem,
        );
        assert(display_text(ExprView::Number(n)) == sign + ip + fp);
        assert(decimals_of(r, d, 16, fp.drop_first()));
        assert(text_parts(n, ip, fp));
    }
}

// ---------------------------------------------------------------------------
// More than two arguments, and `get` on vectors
// ---------------------------------------------------------------------------

/// The arithmetic functions fold from the left: with one number they give it
/// back, and `(op a b c ...)` is `(op r c ...)` where `r` is `(op a b)`, or the
/// error of `(op a b)`.
pub proof fn law_arithmetic_folds_left(f: Builtin, name: Seq<char>, a: Number, b: Number, rest: Seq<ExprView>)
    requires
        f is Add || f is Sub || f is Mul || f is Div,
    ensures
        value_builtin(f, name, seq![ExprView::Number(a)]) == Ok::<ExprView, HErrorView>(ExprView::Number(a)),
        value_builtin(f, name, seq![ExprView::Number(a), ExprView::Number(b)] + rest) == match value_builtin(
            f,
            name,
            seq![ExprView::Number(a), ExprView::Number(b)],
        ) {
            Ok(x) => value_builtin(f, name, seq![x] + rest),
            Err(e) => Err(e),
        },
{
    let two = seq![ExprView::Number(a), ExprView::Number(b)];
    let all = two + rest;
    assert(seq![ExprView::Number(a)].drop_first() =~= Seq::<ExprView>::empty());
    assert(two.drop_first() =~= seq![ExprView::Number(b)]);
    assert(seq![ExprView::Number(b)].drop_first() =~= Seq::<ExprView>::empty());
    assert(all.drop_first() =~= seq![ExprView::Number(b)] + rest);
    assert((seq![ExprView::Number(b)] + rest).drop_first() =~= rest);
    assert(all[0] == ExprView::Number(a));
    assert((seq![ExprView::Number(b)] + rest)[0] == ExprView::Number(b));
    let tb = seq![ExprView::Number(b)] + rest;
    assert(crate::native::tail(all) == tb);
    assert(crate::native::tail(two) == seq![ExprView::Number(b)]);
    assert(crate::native::nth(all, 0) == ExprView::Number(a));
    assert(crate::native::nth(two, 0) == ExprView::Number(a));
    match crate::native::num_op(f, a, b) {
        Some(r) => {
            let one = seq![ExprView::Number(r)] + rest;
            assert(one.drop_first() =~= rest);
            assert(one[0] == ExprView::Number(r));
            assert(crate::native::tail(one) == rest);
            assert(crate::native::nth(one, 0) == ExprView::Number(r));
            assert(crate::native::arith_fold(f, name, a, tb) == crate::native::arith_fold(f, name, r, rest));
            assert(crate::native::arith_fold(f, name, r, Seq::<ExprView>::empty()) == Ok::<Number, HErrorView>(r));
            assert(crate::native::arith_fold(f, name, a, seq![ExprView::Number(b)]) == crate::native::arith_fold(
                f,
                name,
                r,
                Seq::<ExprView>::empty(),
            ));
        },
        None => {
            assert(crate::native::arith_fold(f, name, a, tb) == crate::native::arith_fold(
                f,
                name,
                a,
                seq![ExprView::Number(b)],
            ));
        },
    }
}

/// The comparisons hold of the first number against each of the others:
/// `(op a b c ...)` is false when `(op a b)` is, and otherwise `(op a c ...)`.
pub proof fn law_comparison_each(f: Builtin, name: Seq<char>, a: Number, b: Number, rest: Seq<ExprView>)
    requires
        f is Lt || f is Lte || f is Gt || f is Gte,
    ensures
        value_builtin(f, name, seq![ExprView::Number(a), ExprView::Number(b)] + rest) == if value_builtin(
            f,
            name,
            seq![ExprView::Number(a), ExprView::Number(b)],
        ) == Ok::<ExprView, HErrorView>(ExprView::Boolean(true)) {
            value_builtin(f, name, seq![ExprView::Number(a)] + rest)
        } else {
            Ok::<ExprView, HErrorView>(ExprView::Boolean(false))
        },
{
    let two = seq![ExprView::Number(a), ExprView::Number(b)];
    let all = two + rest;
    let one = seq![ExprView::Number(a)] + rest;
    assert(two.drop_first() =~= seq![ExprView::Number(b)]);
    assert(seq![ExprView::Number(b)].drop_first() =~= Seq::<ExprView>::empty());
    assert(all.drop_first() =~= seq![ExprView::Number(b)] + rest);
    assert((seq![ExprView::Number(b)] + rest).drop_first() =~= rest);
    assert(one.drop_first() =~= rest);
    assert(all[0] == ExprView::Number(a));
    assert(one[0] == ExprView::Number(a));
    assert((seq![ExprView::Number(b)] + rest)[0] == ExprView::Number(b));
    reveal_with_fuel(crate::native::compare_fold, 2);
}

/// `(get v n)` on a vector takes the integer part of `n` (rounded toward
/// zero, a negative one counting as zero) as a position: the item there, or
/// nil past the end.
pub proof fn law_get_vector_position(name: Seq<char>, v: Seq<ExprView>, n: Number, t: int)
    requires
        n.denom() > 0,
        is_integer_part(t, n.numer(), n.denom()),
    ensures
        value_builtin(Builtin::Get, name, seq![ExprView::Vector(v), ExprView::Number(n)]) == Ok::<
            ExprView,
            HErrorView,
        >(
            if t < 0 {
                if v.len() > 0 {
                    v[0]
                } else {
                    ExprView::Nil
                }
            } else if t < v.len() {
                v[t]
            } else {
                ExprView::Nil
            },
        ),
{
    lemma_trunc_integer_part(n.numer(), n.denom());
    lemma_integer_part_unique(t, trunc_div(n.numer(), n.denom()), n.numer(), n.denom());
}

/// Arguments of the wrong kind: the arithmetic functions and the comparisons
/// reject a first argument that is not a number; `get` rejects what is neither
/// a map nor a vector, and a vector position that is not a number; `range`
/// rejects bounds that are not both numbers.
pub proof fn law_argument_kinds(f: Builtin, name: Seq<char>, x: ExprView, y: ExprView, rest: Seq<ExprView>)
    ensures
        (f is Add || f is Sub || f is Mul || f is Div || f is Lt || f is Lte || f is Gt || f is Gte) && !(x is Number)
            ==> value_builtin(f, name, seq![x] + rest) == Err::<ExprView, HErrorView>(HErrorView::InvalidType(name, x)),
        !(x is HMap) && !(x is Vector) ==> value_builtin(Builtin::Get, name, seq![x, y]) == Err::<ExprView, HErrorView>(
            HErrorView::UnexpectedForm("Type does not support `get`"@, x),
        ),
        x is Vector && !(y is Number) ==> value_builtin(Builtin::Get, name, seq![x, y]) == Err::<ExprView, HErrorView>(
            HErrorView::UnexpectedForm("Invalid vector index"@, y),
        ),
        !(x is Number && y is Number) ==> value_builtin(Builtin::Range, name, seq![x, y]) == Err::<
            ExprView,
            HErrorView,
        >(HErrorView::UnexpectedForm("Invalid range"@, ExprView::Vector(seq![x, y]))),
{
    assert((seq![x] + rest)[0] == x);
}

} // verus!
