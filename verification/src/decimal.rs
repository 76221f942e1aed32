//! Comparison of numbers written in decimal, as floating-point numbers are
//! displayed: `-?D+(.D+)?`, or `inf`, `-inf`, `NaN`.

use vstd::prelude::*;
use vstd::arithmetic::power::pow;
use crate::env_vars::{is_digit, index_of_from};

verus! {

pub open spec fn digit_val(c: char) -> nat {
    (c as int - '0' as int) as nat
}

pub open spec fn all_digit_chars(d: Seq<char>) -> bool {
    forall|i: int| 0 <= i < d.len() ==> #[trigger] is_digit(d[i])
}

/// The value of a sequence of decimal digits.
pub open spec fn digits_value(d: Seq<char>) -> nat
    decreases d.len(),
{
    if d.len() == 0 {
        0
    } else {
        digits_value(d.drop_last()) * 10 + digit_val(d.last())
    }
}

/// A decimal number: its sign, its integer digits and its fraction digits.
pub struct Decimal {
    pub neg: bool,
    pub int_digits: Seq<char>,
    pub frac_digits: Seq<char>,
}

/// The decimal a text spells: an optional `-`, integer digits, and an
/// optional `.` with fraction digits.
pub open spec fn parse_decimal(t: Seq<char>) -> Option<Decimal> {
    let neg = t.len() > 0 && t[0] == '-';
    let body = if neg { t.drop_first() } else { t };
    let dot = index_of_from(body, '.', 0);
    let ip = body.subrange(0, dot);
    let fp = if dot < body.len() { body.subrange(dot + 1, body.len() as int) } else { Seq::empty() };
    if ip.len() > 0 && all_digit_chars(ip) && all_digit_chars(fp) && (dot < body.len() ==> fp.len() > 0) {
        Some(Decimal { neg, int_digits: ip, frac_digits: fp })
    } else {
        None
    }
}

/// The decimal times `10^m`, for `m` at least its number of fraction
/// digits: an integer.
pub open spec fn scaled(d: Decimal, m: nat) -> int {
    (if d.neg { -1int } else { 1int }) * (digits_value(d.int_digits + d.frac_digits) * pow(10, (m - d.frac_digits.len()) as nat))
}

pub open spec fn max_nat(a: nat, b: nat) -> nat {
    if a >= b { a } else { b }
}

/// Whether the number written `a` is less than the number written `b`:
/// decimals by value; `inf` above every other number, `-inf` below; `NaN`
/// and text that is no number are less than nothing and have nothing less.
pub open spec fn decimal_less(a: Seq<char>, b: Seq<char>) -> bool {
    match (parse_decimal(a), parse_decimal(b)) {
        (Some(x), Some(y)) => {
            let m = max_nat(x.frac_digits.len(), y.frac_digits.len());
            scaled(x, m) < scaled(y, m)
        },
        (Some(_), None) => b == "inf"@,
        (None, Some(_)) => a == "-inf"@,
        (None, None) => a == "-inf"@ && b == "inf"@,
    }
}

// ----- lemmas on digit values -----

proof fn lemma_value_append_zeros(d: Seq<char>, k: nat)
    ensures
        digits_value(d + Seq::new(k, |i: int| '0')) == digits_value(d) * pow(10, k),
    decreases k,
{
    let z = Seq::new(k, |i: int| '0');
    if k == 0 {
        assert(d + z =~= d);
        vstd::arithmetic::power::lemma_pow0(10);
    } else {
        let z1 = Seq::new((k - 1) as nat, |i: int| '0');
        lemma_value_append_zeros(d, (k - 1) as nat);
        assert((d + z).drop_last() =~= d + z1);
        assert((d + z).last() == '0');
        vstd::arithmetic::power::lemma_pow_adds(10, (k - 1) as nat, 1);
        vstd::arithmetic::power::lemma_pow1(10);
        assert(digits_value(d + z) == digits_value(d + z1) * 10);
        assert(digits_value(d) * pow(10, (k - 1) as nat) * 10 == digits_value(d) * (pow(10, (k - 1) as nat) * 10)) by (nonlinear_arith);
    }
}

proof fn lemma_value_bound(d: Seq<char>)
    requires
        all_digit_chars(d),
    ensures
        digits_value(d) < pow(10, d.len()),
    decreases d.len(),
{
    if d.len() == 0 {
        vstd::arithmetic::power::lemma_pow0(10);
    } else {
        assert(all_digit_chars(d.drop_last())) by {
            assert forall|i: int| 0 <= i < d.drop_last().len() implies #[trigger] is_digit(d.drop_last()[i]) by {
                assert(d.drop_last()[i] == d[i]);
            }
        }
        lemma_value_bound(d.drop_last());
        assert(is_digit(d[d.len() - 1]));
        let v = digits_value(d.drop_last());
        let p = pow(10, (d.len() - 1) as nat);
        vstd::arithmetic::power::lemma_pow_adds(10, (d.len() - 1) as nat, 1);
        vstd::arithmetic::power::lemma_pow1(10);
        assert(digit_val(d.last()) < 10);
        assert(v < p ==> v * 10 + digit_val(d.last()) < p * 10) by (nonlinear_arith)
            requires
                digit_val(d.last()) < 10,
        ;
    }
}

/// The value of `d` from the front: its first digit times `10^(len-1)`
/// plus the value of the rest.
proof fn lemma_value_front(d: Seq<char>)
    requires
        d.len() > 0,
    ensures
        digits_value(d) == digit_val(d[0]) * pow(10, (d.len() - 1) as nat) + digits_value(d.drop_first()),
    decreases d.len(),
{
    if d.len() == 1 {
        vstd::arithmetic::power::lemma_pow0(10);
        assert(d.drop_last() =~= Seq::<char>::empty());
        assert(d.drop_first() =~= Seq::<char>::empty());
    } else {
        lemma_value_front(d.drop_last());
        assert(d.drop_last().drop_first() =~= d.drop_first().drop_last());
        assert(d.drop_first().last() == d.last());
        assert(d.drop_last()[0] == d[0]);
        let p = pow(10, (d.len() - 2) as nat);
        vstd::arithmetic::power::lemma_pow_adds(10, (d.len() - 2) as nat, 1);
        vstd::arithmetic::power::lemma_pow1(10);
        let a = digit_val(d[0]);
        let r = digits_value(d.drop_first().drop_last());
        assert((a * p + r) * 10 + digit_val(d.last()) == a * (p * 10) + (r * 10 + digit_val(d.last()))) by (nonlinear_arith);
    }
}

/// Leading zeros do not change a value.
proof fn lemma_value_leading_zeros(d: Seq<char>, k: nat)
    ensures
        digits_value(Seq::new(k, |i: int| '0') + d) == digits_value(d),
    decreases k,
{
    let z = Seq::new(k, |i: int| '0');
    if k == 0 {
        assert(z + d =~= d);
    } else {
        let z1 = Seq::new((k - 1) as nat, |i: int| '0');
        lemma_value_front(z + d);
        assert((z + d).drop_first() =~= z1 + d);
        assert((z + d)[0] == '0');
        assert(digit_val('0') == 0);
        lemma_value_leading_zeros(d, (k - 1) as nat);
        let p = pow(10, ((z + d).len() - 1) as nat);
        assert(0 * p == 0) by (nonlinear_arith);
    }
}

/// Digit sequences of equal length compare by their first difference.
proof fn lemma_value_lex(x: Seq<char>, y: Seq<char>, i: int)
    requires
        x.len() == y.len(),
        all_digit_chars(x),
        all_digit_chars(y),
        0 <= i < x.len(),
        forall|j: int| 0 <= j < i ==> x[j] == y[j],
        digit_val(x[i]) < digit_val(y[i]),
    ensures
        digits_value(x) < digits_value(y),
    decreases x.len(),
{
    lemma_value_front(x);
    lemma_value_front(y);
    let p = pow(10, (x.len() - 1) as nat);
    if i == 0 {
        assert(all_digit_chars(x.drop_first())) by {
            assert forall|j: int| 0 <= j < x.drop_first().len() implies #[trigger] is_digit(x.drop_first()[j]) by {
                assert(x.drop_first()[j] == x[j + 1]);
            }
        }
        lemma_value_bound(x.drop_first());
        let a = digit_val(x[0]);
        let b = digit_val(y[0]);
        let rx = digits_value(x.drop_first());
        let ry = digits_value(y.drop_first());
        assert(a * p + rx < b * p + ry) by (nonlinear_arith)
            requires
                a < b,
                rx < p,
                ry >= 0,
        ;
    } else {
        assert(x[0] == y[0]);
        assert(all_digit_chars(x.drop_first())) by {
            assert forall|j: int| 0 <= j < x.drop_first().len() implies #[trigger] is_digit(x.drop_first()[j]) by {
                assert(x.drop_first()[j] == x[j + 1]);
            }
        }
        assert(all_digit_chars(y.drop_first())) by {
            assert forall|j: int| 0 <= j < y.drop_first().len() implies #[trigger] is_digit(y.drop_first()[j]) by {
                assert(y.drop_first()[j] == y[j + 1]);
            }
        }
        assert forall|j: int| 0 <= j < i - 1 implies x.drop_first()[j] == y.drop_first()[j] by {
            assert(x.drop_first()[j] == x[j + 1]);
            assert(y.drop_first()[j] == y[j + 1]);
        }
        assert(x.drop_first()[i - 1] == x[i]);
        assert(y.drop_first()[i - 1] == y[i]);
        lemma_value_lex(x.drop_first(), y.drop_first(), i - 1);
    }
}

// ----- executable -----

/// A text taken apart as a decimal: sign, digits (integer then fraction)
/// and the number of fraction digits.
struct DecimalParts {
    neg: bool,
    digits: Vec<char>,
    frac_len: usize,
}

fn all_digits_in(s: &Vec<char>, from: usize, to: usize) -> (r: bool)
    requires
        from <= to <= s@.len(),
    ensures
        r == all_digit_chars(s@.subrange(from as int, to as int)),
{
    let mut i = from;
    while i < to
        invariant
            from <= i <= to,
            to <= s@.len(),
            forall|k: int| from <= k < i ==> is_digit(s@[k]),
        decreases to - i,
    {
        if !(s[i] >= '0' && s[i] <= '9') {
            assert(!is_digit(s@.subrange(from as int, to as int)[i - from]));
            return false;
        }
        i = i + 1;
    }
    proof {
        assert forall|k: int| 0 <= k < s@.subrange(from as int, to as int).len() implies #[trigger] is_digit(s@.subrange(from as int, to as int)[k]) by {
            assert(s@.subrange(from as int, to as int)[k] == s@[from + k]);
        }
    }
    true
}

fn split_decimal(t: &str) -> (r: Option<DecimalParts>)
    ensures
        match r {
            Some(p) => parse_decimal(t@) matches Some(d) && p.neg == d.neg && p.digits@ == d.int_digits + d.frac_digits
                && p.frac_len == d.frac_digits.len() && all_digit_chars(p.digits@),
            None => parse_decimal(t@) is None,
        },
{
    let c = crate::text::chars_of(t);
    let n = c.len();
    let neg = n > 0 && c[0] == '-';
    let start: usize = if neg { 1 } else { 0 };
    let body = crate::env_vars::subvec(&c, start, n);
    proof {
        if neg {
            assert(body@ =~= t@.drop_first());
        } else {
            assert(body@ =~= t@);
        }
    }
    let bl = body.len();
    let dot = crate::env_vars::exec_index_of_from(&body, '.', 0);
    let has_dot = dot < bl;
    let ip_ok = dot > 0 && all_digits_in(&body, 0, dot);
    let fp_from: usize = if has_dot { dot + 1 } else { bl };
    let fp_ok = all_digits_in(&body, fp_from, bl);
    let fp_len = bl - fp_from;
    proof {
        if !has_dot {
            assert(body@.subrange(fp_from as int, bl as int) =~= Seq::<char>::empty());
        }
    }
    if ip_ok && fp_ok && (!has_dot || fp_len > 0) {
        let ip = crate::env_vars::subvec(&body, 0, dot);
        let fp = crate::env_vars::subvec(&body, fp_from, bl);
        let mut digits = ip;
        let mut k: usize = 0;
        while k < fp.len()
            invariant
                k <= fp@.len(),
                digits@ == body@.subrange(0, dot as int) + fp@.subrange(0, k as int),
            decreases fp@.len() - k,
        {
            digits.push(fp[k]);
            proof {
                assert(digits@ =~= body@.subrange(0, dot as int) + fp@.subrange(0, k + 1));
            }
            k = k + 1;
        }
        proof {
            assert(fp@.subrange(0, fp@.len() as int) =~= fp@);
            let ipv = body@.subrange(0, dot as int);
            assert forall|i: int| 0 <= i < digits@.len() implies #[trigger] is_digit(digits@[i]) by {
                if i < ipv.len() {
                    assert(digits@[i] == ipv[i]);
                } else {
                    assert(digits@[i] == fp@[i - ipv.len()]);
                }
            }
        }
        Some(DecimalParts { neg, digits, frac_len: fp_len })
    } else {
        None
    }
}

/// Appends `k` zeros.
fn pad_zeros(d: &mut Vec<char>, k: usize)
    ensures
        final(d)@ == old(d)@ + Seq::new(k as nat, |i: int| '0'),
{
    let ghost start = d@;
    let mut i: usize = 0;
    while i < k
        invariant
            i <= k,
            d@ == start + Seq::new(i as nat, |j: int| '0'),
        decreases k - i,
    {
        d.push('0');
        i = i + 1;
        proof {
            assert(d@ =~= start + Seq::new(i as nat, |j: int| '0'));
        }
    }
}

/// Compares the values of two digit sequences: -1, 0 or 1.
fn compare_digits(x: &Vec<char>, y: &Vec<char>) -> (r: i8)
    requires
        all_digit_chars(x@),
        all_digit_chars(y@),
    ensures
        r == -1 ==> digits_value(x@) < digits_value(y@),
        r == 0 ==> digits_value(x@) == digits_value(y@),
        r == 1 ==> digits_value(x@) > digits_value(y@),
        -1 <= r <= 1,
{
    let xl = x.len();
    let yl = y.len();
    let n = if xl >= yl { xl } else { yl };
    let ghost xp = Seq::new((n - xl) as nat, |i: int| '0') + x@;
    let ghost yp = Seq::new((n - yl) as nat, |i: int| '0') + y@;
    proof {
        lemma_value_leading_zeros(x@, (n - xl) as nat);
        lemma_value_leading_zeros(y@, (n - yl) as nat);
        assert forall|i: int| 0 <= i < xp.len() implies #[trigger] is_digit(xp[i]) by {
            if i >= n - xl {
                assert(xp[i] == x@[i - (n - xl)]);
            }
        }
        assert forall|i: int| 0 <= i < yp.len() implies #[trigger] is_digit(yp[i]) by {
            if i >= n - yl {
                assert(yp[i] == y@[i - (n - yl)]);
            }
        }
    }
    let mut i: usize = 0;
    while i < n
        invariant
            n == xp.len(),
            n == yp.len(),
            xl == x@.len(),
            yl == y@.len(),
            n >= xl && n >= yl,
            xp == Seq::new((n - xl) as nat, |i: int| '0') + x@,
            yp == Seq::new((n - yl) as nat, |i: int| '0') + y@,
            all_digit_chars(xp),
            all_digit_chars(yp),
            digits_value(xp) == digits_value(x@),
            digits_value(yp) == digits_value(y@),
            i <= n,
            forall|j: int| 0 <= j < i ==> xp[j] == yp[j],
        decreases n - i,
    {
        let cx = if i < n - xl { '0' } else { x[i - (n - xl)] };
        let cy = if i < n - yl { '0' } else { y[i - (n - yl)] };
        assert(cx == xp[i as int]);
        assert(cy == yp[i as int]);
        if cx < cy {
            proof {
                assert(is_digit(xp[i as int]) && is_digit(yp[i as int]));
                lemma_value_lex(xp, yp, i as int);
            }
            return -1;
        }
        if cx > cy {
            proof {
                assert(is_digit(xp[i as int]) && is_digit(yp[i as int]));
                assert forall|j: int| 0 <= j < i implies yp[j] == xp[j] by {}
                lemma_value_lex(yp, xp, i as int);
            }
            return 1;
        }
        i = i + 1;
    }
    proof {
        assert(xp =~= yp);
    }
    0
}

/// Whether the number written `a` is less than the number written `b`.
pub fn less_than(a: &str, b: &str) -> (r: bool)
    ensures
        r == decimal_less(a@, b@),
{
    let pa = split_decimal(a);
    let pb = split_decimal(b);
    match (pa, pb) {
        (Some(x), Some(y)) => {
            let ghost dx = parse_decimal(a@)->0;
            let ghost dy = parse_decimal(b@)->0;
            let m = if x.frac_len >= y.frac_len { x.frac_len } else { y.frac_len };
            let mut xd = x.digits;
            let mut yd = y.digits;
            let ghost xv = xd@;
            let ghost yv = yd@;
            pad_zeros(&mut xd, m - x.frac_len);
            pad_zeros(&mut yd, m - y.frac_len);
            proof {
                lemma_value_append_zeros(xv, (m - x.frac_len) as nat);
                lemma_value_append_zeros(yv, (m - y.frac_len) as nat);
                assert forall|i: int| 0 <= i < xd@.len() implies #[trigger] is_digit(xd@[i]) by {
                    if i < xv.len() {
                        assert(xd@[i] == xv[i]);
                    }
                }
                assert forall|i: int| 0 <= i < yd@.len() implies #[trigger] is_digit(yd@[i]) by {
                    if i < yv.len() {
                        assert(yd@[i] == yv[i]);
                    }
                }
                assert(m as nat == max_nat(dx.frac_digits.len(), dy.frac_digits.len()));
            }
            let c = compare_digits(&xd, &yd);
            let zero = Vec::new();
            let xz = compare_digits(&xd, &zero);
            let yz = compare_digits(&yd, &zero);
            proof {
                assert(digits_value(zero@) == 0);
                let mx = digits_value(xd@) as int;
                let my = digits_value(yd@) as int;
                assert(scaled(dx, m as nat) == (if dx.neg { -1int } else { 1int }) * mx);
                assert(scaled(dy, m as nat) == (if dy.neg { -1int } else { 1int }) * my);
            }
            let ghost mx = digits_value(xd@) as int;
            let ghost my = digits_value(yd@) as int;
            if !x.neg && !y.neg {
                assert(scaled(dx, m as nat) == mx && scaled(dy, m as nat) == my);
                c == -1
            } else if x.neg && y.neg {
                assert(scaled(dx, m as nat) == -mx && scaled(dy, m as nat) == -my);
                c == 1
            } else if x.neg && !y.neg {
                assert(scaled(dx, m as nat) == -mx && scaled(dy, m as nat) == my);
                assert((xz == 0) == (mx == 0));
                assert((yz == 0) == (my == 0));
                !(xz == 0 && yz == 0)
            } else {
                assert(scaled(dx, m as nat) == mx && scaled(dy, m as nat) == -my);
                false
            }
        },
        (Some(_), None) => crate::text::str_eq(b, "inf"),
        (None, Some(_)) => crate::text::str_eq(a, "-inf"),
        (None, None) => crate::text::str_eq(a, "-inf") && crate::text::str_eq(b, "inf"),
    }
}

} // verus!
