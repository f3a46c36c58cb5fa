//! Decimal number text: the grammar `str::parse::<f64>` accepts, and the
//! exact value of such a text times a power of two, rounded down and
//! clamped to `u64` (what `(number * multiplier as f64) as u64` computes,
//! with the decimal value taken exactly).

use vstd::prelude::*;
use vstd::arithmetic::power::{lemma_pow_adds, lemma_pow_distributes, lemma_pow_increases, lemma_pow_positive, pow};
use vstd::arithmetic::div_mod::{lemma_div_denominator, lemma_fundamental_div_mod, lemma_fundamental_div_mod_converse_div};
use crate::text::ascii_lower;

verus! {

/// Whether `c` is an ASCII digit.
pub open spec fn is_digit(c: char) -> bool {
    '0' <= c && c <= '9'
}

/// Whether every character of `s` is an ASCII digit.
pub open spec fn all_digits(s: Seq<char>) -> bool {
    forall|i: int| 0 <= i < s.len() ==> is_digit(#[trigger] s[i])
}

/// The value of a digit character.
pub open spec fn digit_val(c: char) -> nat {
    if is_digit(c) {
        (c as int - '0' as int) as nat
    } else {
        0
    }
}

/// The value of a string of digits, read in decimal.
pub open spec fn digits_value(s: Seq<char>) -> nat
    decreases s.len(),
{
    if s.len() == 0 {
        0
    } else {
        digits_value(s.drop_last()) * 10 + digit_val(s.last())
    }
}

/// `10^n`.
pub open spec fn pow10(n: nat) -> nat {
    pow(10, n) as nat
}

/// `n * 10^e * 2^k` rounded down.
pub open spec fn scaled_floor(n: nat, e: int, k: nat) -> nat {
    if e >= 0 {
        n * pow10(e as nat) * (pow(2, k) as nat)
    } else {
        (n * (pow(2, k) as nat)) / pow10((-e) as nat)
    }
}

/// A count clamped to `u64` (an `as u64` of a non-negative float).
pub open spec fn clamp_u64(x: nat) -> u64 {
    if x > u64::MAX {
        u64::MAX
    } else {
        x as u64
    }
}

/// `n` zero digits.
pub open spec fn zeros(n: nat) -> Seq<char> {
    Seq::new(n, |i: int| '0')
}

proof fn lemma_pow10_step(n: nat)
    ensures
        pow10(n + 1) == pow10(n) * 10,
        pow10(n) >= 1,
{
    lemma_pow_positive(10, n);
    reveal(pow);
    assert(pow(10, n + 1) == 10 * pow(10, n));
}

/// Reading `a` then `b`: the value of `a` shifted by the length of `b`, plus `b`.
pub proof fn lemma_digits_append(a: Seq<char>, b: Seq<char>)
    ensures
        digits_value(a + b) == digits_value(a) * pow10(b.len()) + digits_value(b),
    decreases b.len(),
{
    if b.len() == 0 {
        assert(a + b =~= a);
        reveal(pow);
        assert(pow(10, 0) == 1);
        assert(pow10(b.len()) == 1);
        assert(digits_value(b) == 0);
        assert(digits_value(a + b) == digits_value(a));
    } else {
        lemma_digits_append(a, b.drop_last());
        assert((a + b).drop_last() =~= a + b.drop_last());
        assert((a + b).last() == b.last());
        lemma_pow10_step((b.len() - 1) as nat);
        let x = digits_value(a);
        let p = pow10((b.len() - 1) as nat);
        let y = digits_value(b.drop_last());
        assert((x * p + y) * 10 == x * (p * 10) + y * 10) by (nonlinear_arith);
        assert(digits_value(b) == y * 10 + digit_val(b.last()));
        assert(digits_value(a + b) == digits_value(a + b.drop_last()) * 10 + digit_val(b.last()));
        assert(pow10(b.len()) == p * 10);
        assert(digits_value(a + b.drop_last()) == x * p + y);
        assert(digits_value(a + b) == x * pow10(b.len()) + digits_value(b));
    }
}

/// A string of `n` digits is below `10^n`.
pub proof fn lemma_digits_bound(s: Seq<char>)
    ensures
        digits_value(s) < pow10(s.len()),
    decreases s.len(),
{
    if s.len() == 0 {
        reveal(pow);
        assert(pow(10, 0) == 1);
    } else {
        lemma_digits_bound(s.drop_last());
        lemma_pow10_step((s.len() - 1) as nat);
        let x = digits_value(s.drop_last());
        let p = pow10((s.len() - 1) as nat);
        assert(digit_val(s.last()) < 10);
        assert(x * 10 + digit_val(s.last()) < p * 10) by (nonlinear_arith)
            requires
                x < p,
                digit_val(s.last()) < 10,
        ;
    }
}

/// Zeros read as 0.
pub proof fn lemma_zeros_value(n: nat)
    ensures
        digits_value(zeros(n)) == 0,
    decreases n,
{
    if n > 0 {
        assert(zeros(n).drop_last() =~= zeros((n - 1) as nat));
        lemma_zeros_value((n - 1) as nat);
    }
}

/// Appending zeros multiplies by a power of ten.
pub proof fn lemma_append_zeros(a: Seq<char>, n: nat)
    ensures
        digits_value(a + zeros(n)) == digits_value(a) * pow10(n),
{
    lemma_digits_append(a, zeros(n));
    lemma_zeros_value(n);
}

/// `5^k` for the supported shifts.
pub open spec fn pow5(k: nat) -> nat {
    pow(5, k) as nat
}

/// The supported multipliers are `2^k` for these `k`.
pub open spec fn supported_shift(k: nat) -> bool {
    k == 0 || k == 10 || k == 20 || k == 30 || k == 40
}

/// `5^k` as a machine integer.
fn pow5_exec(k: u32) -> (r: u128)
    requires
        supported_shift(k as nat),
    ensures
        r == pow5(k as nat),
        r >= 1,
        r <= 10000000000000000000000000000,
{
    if k == 0 {
        proof {
            reveal_with_fuel(pow, 1);
        }
        assert(pow(5, 0) == 1);
        1
    } else if k == 10 {
        proof {
            reveal_with_fuel(pow, 11);
        }
        assert(pow(5, 10) == 9765625);
        9765625
    } else if k == 20 {
        proof {
            reveal_with_fuel(pow, 21);
        }
        assert(pow(5, 20) == 95367431640625);
        95367431640625
    } else if k == 30 {
        proof {
            reveal_with_fuel(pow, 31);
        }
        assert(pow(5, 30) == 931322574615478515625);
        931322574615478515625
    } else {
        proof {
            reveal_with_fuel(pow, 41);
        }
        assert(pow(5, 40) == 9094947017729282379150390625);
        9094947017729282379150390625
    }
}

/// The digits of `s`, rounded down after dividing by `d`, clamped to `2^64`.
fn div_digits_capped(s: &Vec<char>, n: usize, d: u128) -> (r: u128)
    requires
        n <= s@.len(),
        all_digits(s@),
        1 <= d <= 10000000000000000000000000000,
    ensures
        r == (if digits_value(s@.take(n as int)) / (d as nat) >= 0x1_0000_0000_0000_0000 {
            0x1_0000_0000_0000_0000nat
        } else {
            digits_value(s@.take(n as int)) / (d as nat)
        }),
{
    let cap: u128 = 0x1_0000_0000_0000_0000;
    let mut q: u128 = 0;
    let mut rem: u128 = 0;
    let ghost mut qt: nat = 0;
    let mut i: usize = 0;
    while i < n
        invariant
            i <= n <= s@.len(),
            all_digits(s@),
            1 <= d <= 10000000000000000000000000000,
            cap == 0x1_0000_0000_0000_0000,
            qt * d + rem == digits_value(s@.take(i as int)),
            rem < d,
            q == (if qt >= cap { cap as nat } else { qt }),
        decreases n - i,
    {
        let c = s[i];
        assert(is_digit(s@[i as int]));
        let dv: u128 = ((c as u32) - ('0' as u32)) as u128;
        assert(dv == digit_val(s@[i as int]));
        assert(s@.take(i + 1).drop_last() =~= s@.take(i as int));
        assert(s@.take(i + 1).last() == s@[i as int]);
        let t: u128 = rem * 10 + dv;
        let c2: u128 = t / d;
        let r2: u128 = t % d;
        proof {
            lemma_fundamental_div_mod(t as int, d as int);
            assert(r2 < d) by (nonlinear_arith)
                requires
                    r2 == t % d,
                    d >= 1,
            ;
            let qt2: nat = qt * 10 + c2 as nat;
            assert(qt2 * d + r2 == digits_value(s@.take(i + 1))) by (nonlinear_arith)
                requires
                    qt * d + rem == digits_value(s@.take(i as int)),
                    digits_value(s@.take(i + 1)) == digits_value(s@.take(i as int)) * 10 + dv,
                    t == rem * 10 + dv,
                    c2 * d + r2 == t,
                    qt2 == qt * 10 + c2,
            ;
            assert(c2 < 10) by (nonlinear_arith)
                requires
                    c2 == t / d,
                    t < d * 10,
                    d >= 1,
            ;
            qt = qt2;
        }
        if q < cap {
            let q2: u128 = q * 10 + c2;
            q = if q2 >= cap { cap } else { q2 };
        }
        rem = r2;
        i = i + 1;
    }
    proof {
        lemma_fundamental_div_mod_converse_div(digits_value(s@.take(n as int)) as int, d as int, qt as int, rem as int);
    }
    q
}

/// `10^k` is `2^k * 5^k`.
proof fn lemma_pow10_split(k: nat)
    ensures
        pow10(k) == (pow(2, k) as nat) * pow5(k),
        pow5(k) >= 1,
        pow(2, k) >= 1,
        (pow(2, k) as nat) <= pow10(k),
{
    lemma_pow_distributes(2, 5, k);
    lemma_pow_positive(5, k);
    lemma_pow_positive(2, k);
    let a = pow(2, k);
    let b = pow(5, k);
    assert(a <= a * b) by (nonlinear_arith)
        requires
            a >= 1,
            b >= 1,
    ;
}

/// A value of at least 1 times `10^e` with `e >= 41` no longer fits `u64`.
proof fn lemma_scaled_large(n: nat, e: int, k: nat)
    requires
        n >= 1,
        e >= 41,
    ensures
        scaled_floor(n, e, k) > u64::MAX,
{
    lemma_pow_increases(10, 41, e as nat);
    reveal_with_fuel(pow, 42);
    assert(pow(10, 41) == 100000000000000000000000000000000000000000);
    lemma_pow10_split(k);
    let p = pow10(e as nat);
    let t = pow(2, k) as nat;
    assert(n * p * t >= p) by (nonlinear_arith)
        requires
            n >= 1,
            t >= 1,
            p >= 1,
    ;
}

/// A value below `10^l` times `2^k` over `10^d`, with `d >= l + k`, is below 1.
proof fn lemma_scaled_small(n: nat, l: nat, e: int, k: nat)
    requires
        n < pow10(l),
        e < 0,
        -e >= l + k,
    ensures
        scaled_floor(n, e, k) == 0,
{
    lemma_pow10_split(k);
    let t = pow(2, k) as nat;
    let d = (-e) as nat;
    lemma_pow_adds(10, l, k);
    lemma_pow_increases(10, l + k, d);
    lemma_pow_positive(10, l);
    lemma_pow_positive(10, k);
    lemma_pow_positive(10, l + k);
    lemma_pow_positive(10, d);
    assert(n * t < pow10(l) * pow10(k)) by (nonlinear_arith)
        requires
            n < pow10(l),
            t <= pow10(k),
            t >= 1,
    ;
    assert(pow10(l + k) == pow10(l) * pow10(k));
    assert((n * t) / pow10(d) == 0) by (nonlinear_arith)
        requires
            n * t < pow10(d),
            pow10(d) >= 1,
    ;
}

/// `x / y == (x * c) / (y * c)` for positive `y` and `c`.
proof fn lemma_div_scale(x: nat, y: nat, c: nat)
    requires
        y > 0,
        c > 0,
    ensures
        x / y == (x * c) / (y * c),
{
    lemma_div_denominator((x * c) as int, c as int, y as int);
    assert((x * c) / c == x) by (nonlinear_arith)
        requires
            c > 0,
    ;
    assert(c * y == y * c) by (nonlinear_arith);
}

/// Whether some digit of `s` is not `0`.
pub open spec fn has_nonzero(s: Seq<char>) -> bool {
    exists|i: int| 0 <= i < s.len() && s[i] != '0'
}

/// The digits read as 0 exactly when all of them are `0`.
proof fn lemma_digits_nonzero(s: Seq<char>)
    requires
        all_digits(s),
    ensures
        (digits_value(s) == 0) == !has_nonzero(s),
    decreases s.len(),
{
    if s.len() > 0 {
        let t = s.drop_last();
        assert(all_digits(t)) by {
            assert forall|i: int| 0 <= i < t.len() implies is_digit(#[trigger] t[i]) by {
                assert(t[i] == s[i]);
            }
        }
        lemma_digits_nonzero(t);
        assert(is_digit(s[s.len() - 1]));
        if has_nonzero(t) {
            let i = choose|i: int| 0 <= i < t.len() && t[i] != '0';
            assert(s[i] != '0');
        }
        if has_nonzero(s) {
            let i = choose|i: int| 0 <= i < s.len() && s[i] != '0';
            if i < s.len() - 1 {
                assert(t[i] != '0');
            }
        }
    }
}

/// A copy of the first `n` characters of `s`, followed by `z` zeros.
fn digits_with_zeros(s: &Vec<char>, z: usize) -> (r: Vec<char>)
    ensures
        r@ == s@ + zeros(z as nat),
{
    let mut r: Vec<char> = Vec::new();
    let mut i: usize = 0;
    while i < s.len()
        invariant
            i <= s@.len(),
            r@ == s@.take(i as int),
        decreases s@.len() - i,
    {
        r.push(s[i]);
        i = i + 1;
        assert(r@ =~= s@.take(i as int));
    }
    let mut j: usize = 0;
    while j < z
        invariant
            j <= z,
            r@ == s@ + zeros(j as nat),
        decreases z - j,
    {
        r.push('0');
        j = j + 1;
        assert(r@ =~= s@ + zeros(j as nat));
    }
    assert(s@.take(s@.len() as int) =~= s@);
    r
}

/// Whether the digits hold one that is not `0`.
fn has_nonzero_exec(s: &Vec<char>) -> (r: bool)
    ensures
        r == has_nonzero(s@),
{
    let mut i: usize = 0;
    while i < s.len()
        invariant
            i <= s@.len(),
            forall|j: int| 0 <= j < i ==> s@[j] == '0',
        decreases s@.len() - i,
    {
        if s[i] != '0' {
            return true;
        }
        i = i + 1;
    }
    false
}

/// The bound beyond which an exponent no longer changes a clamped result.
pub open spec fn exp_bound() -> int {
    0x10_0000_0000_0000_0000_0000_0000
}

/// The value of the digits `ds` times `10^e * 2^k`, rounded down and clamped to `u64`.
pub fn scale_digits(ds: &Vec<char>, e: i128, k: u32) -> (r: u64)
    requires
        all_digits(ds@),
        supported_shift(k as nat),
        -exp_bound() <= e <= exp_bound(),
    ensures
        r == clamp_u64(scaled_floor(digits_value(ds@), e as int, k as nat)),
{
    let ghost n = digits_value(ds@);
    let ghost kk = k as nat;
    let d5 = pow5_exec(k);
    proof {
        lemma_pow10_split(kk);
        lemma_digits_bound(ds@);
        lemma_digits_nonzero(ds@);
    }
    if !has_nonzero_exec(ds) {
        assert(n == 0);
        proof {
            lemma_pow_positive(10, (-e) as nat);
        }
        assert(scaled_floor(n, e as int, kk) == 0) by (nonlinear_arith)
            requires
                n == 0,
                pow10((-e) as nat) >= 1,
        ;
        return 0;
    }
    if e > 40 {
        proof {
            lemma_scaled_large(n, e as int, kk);
        }
        return u64::MAX;
    }
    let q: u128 = if e >= 0 {
        let ez = e as usize;
        let p1 = digits_with_zeros(ds, ez);
        let p = digits_with_zeros(&p1, k as usize);
        proof {
            lemma_append_zeros(ds@, ez as nat);
            lemma_append_zeros(p1@, kk);
            let t = pow(2, kk) as nat;
            let x = n * pow10(ez as nat) * t;
            assert(digits_value(p@) == x * pow5(kk)) by (nonlinear_arith)
                requires
                    digits_value(p@) == n * pow10(ez as nat) * pow10(kk),
                    pow10(kk) == t * pow5(kk),
                    x == n * pow10(ez as nat) * t,
            ;
            lemma_fundamental_div_mod_converse_div(digits_value(p@) as int, pow5(kk) as int, x as int, 0);
            assert(p@.take(p@.len() as int) =~= p@);
        }
        div_digits_capped(&p, p.len(), d5)
    } else {
        let m = digits_with_zeros(ds, k as usize);
        let l = m.len();
        let dd: i128 = 0 - e;
        if dd >= l as i128 {
            proof {
                lemma_scaled_small(n, ds@.len(), e as int, kk);
            }
            return 0;
        }
        let keep: usize = l - (dd as usize);
        proof {
            let d = dd as nat;
            lemma_append_zeros(ds@, kk);
            let pre = m@.take(keep as int);
            let rest = m@.skip(keep as int);
            assert(pre + rest =~= m@);
            lemma_digits_append(pre, rest);
            lemma_digits_bound(rest);
            lemma_pow_positive(10, d);
            lemma_fundamental_div_mod_converse_div(
                digits_value(m@) as int,
                pow10(d) as int,
                digits_value(pre) as int,
                digits_value(rest) as int,
            );
            let t = pow(2, kk) as nat;
            lemma_div_scale(n * t, pow10(d), pow5(kk));
            assert((n * t) * pow5(kk) == digits_value(m@)) by (nonlinear_arith)
                requires
                    digits_value(m@) == n * pow10(kk),
                    pow10(kk) == t * pow5(kk),
            ;
            lemma_div_denominator(digits_value(m@) as int, pow10(d) as int, pow5(kk) as int);
        }
        div_digits_capped(&m, keep, d5)
    };
    if q >= 0x1_0000_0000_0000_0000 {
        u64::MAX
    } else {
        q as u64
    }
}

/// A number text as `str::parse::<f64>` reads it.
pub enum FloatText {
    /// Digits before and after the point, and the exponent.
    Finite { neg: bool, int_part: Seq<char>, frac_part: Seq<char>, exp: int },
    /// `inf` or `infinity`.
    Infinite { neg: bool },
    /// `nan`.
    NotANumber,
}

/// Whether `i` is the first position of `a` or `b` in `s`.
pub open spec fn is_first(s: Seq<char>, a: char, b: char, i: int) -> bool {
    &&& 0 <= i < s.len()
    &&& (s[i] == a || s[i] == b)
    &&& forall|j: int| 0 <= j < i ==> s[j] != a && s[j] != b
}

/// The first position of `a` or `b` in `s`.
pub open spec fn first_of(s: Seq<char>, a: char, b: char) -> Option<int> {
    if exists|i: int| is_first(s, a, b, i) {
        Some(choose|i: int| is_first(s, a, b, i))
    } else {
        None
    }
}

/// A leading sign and the rest.
pub open spec fn sign_split(s: Seq<char>) -> (bool, Seq<char>) {
    if s.len() > 0 && (s[0] == '+' || s[0] == '-') {
        (s[0] == '-', s.skip(1))
    } else {
        (false, s)
    }
}

/// An exponent: an optional sign and at least one digit.
pub open spec fn parse_exp(t: Seq<char>) -> Option<int> {
    let (neg, d) = sign_split(t);
    if d.len() > 0 && all_digits(d) {
        Some(if neg { -(digits_value(d) as int) } else { digits_value(d) as int })
    } else {
        None
    }
}

/// A mantissa: digits, optionally a point and more digits, with at least one digit.
pub open spec fn parse_mantissa(m: Seq<char>) -> Option<(Seq<char>, Seq<char>)> {
    match first_of(m, '.', '.') {
        Some(i) => {
            let a = m.take(i);
            let b = m.skip(i + 1);
            if all_digits(a) && all_digits(b) && (a.len() > 0 || b.len() > 0) {
                Some((a, b))
            } else {
                None
            }
        },
        None => if m.len() > 0 && all_digits(m) {
            Some((m, Seq::<char>::empty()))
        } else {
            None
        },
    }
}

/// The number `s` denotes, as `str::parse::<f64>` reads it, or `None` when
/// it is not a number.
pub open spec fn parse_float_text(s: Seq<char>) -> Option<FloatText> {
    let (neg, r) = sign_split(s);
    let l = ascii_lower(r);
    if l == "inf"@ || l == "infinity"@ {
        Some(FloatText::Infinite { neg })
    } else if l == "nan"@ {
        Some(FloatText::NotANumber)
    } else {
        match first_of(r, 'e', 'E') {
            Some(i) => match (parse_mantissa(r.take(i)), parse_exp(r.skip(i + 1))) {
                (Some((a, b)), Some(x)) => Some(FloatText::Finite { neg, int_part: a, frac_part: b, exp: x }),
                _ => None,
            },
            None => match parse_mantissa(r) {
                Some((a, b)) => Some(FloatText::Finite { neg, int_part: a, frac_part: b, exp: 0 }),
                None => None,
            },
        }
    }
}

/// The number times `2^k`, rounded toward zero and clamped to `u64`
/// (`(x * 2^k as f64) as u64` with `x` taken exactly): negative numbers and
/// `nan` give 0, infinity the maximum.
pub open spec fn float_scaled(f: FloatText, k: nat) -> u64 {
    match f {
        FloatText::Finite { neg, int_part, frac_part, exp } => if neg {
            0
        } else {
            clamp_u64(scaled_floor(digits_value(int_part + frac_part), exp - frac_part.len(), k))
        },
        FloatText::Infinite { neg } => if neg {
            0
        } else {
            u64::MAX
        },
        FloatText::NotANumber => 0,
    }
}

/// The characters of `s` from `lo` to `hi`.
pub fn sub_chars(s: &Vec<char>, lo: usize, hi: usize) -> (r: Vec<char>)
    requires
        lo <= hi <= s@.len(),
    ensures
        r@ == s@.subrange(lo as int, hi as int),
{
    let mut r: Vec<char> = Vec::new();
    let mut i: usize = lo;
    while i < hi
        invariant
            lo <= i <= hi <= s@.len(),
            r@ == s@.subrange(lo as int, i as int),
        decreases hi - i,
    {
        r.push(s[i]);
        i = i + 1;
        assert(r@ =~= s@.subrange(lo as int, i as int));
    }
    r
}

/// The first position of `a` or `b` in `s`.
pub fn first_of_exec(s: &Vec<char>, a: char, b: char) -> (r: Option<usize>)
    ensures
        match r {
            Some(i) => first_of(s@, a, b) == Some(i as int) && i < s@.len(),
            None => first_of(s@, a, b) is None,
        },
{
    let mut i: usize = 0;
    while i < s.len()
        invariant
            i <= s@.len(),
            forall|j: int| 0 <= j < i ==> s@[j] != a && s@[j] != b,
        decreases s@.len() - i,
    {
        if s[i] == a || s[i] == b {
            assert(is_first(s@, a, b, i as int));
            proof {
                let c = choose|c: int| is_first(s@, a, b, c);
                if c < i {
                    assert(s@[c] == a || s@[c] == b);
                } else if c > i {
                    assert(s@[i as int] != a && s@[i as int] != b);
                }
            }
            return Some(i);
        }
        i = i + 1;
    }
    proof {
        if exists|c: int| is_first(s@, a, b, c) {
            let c = choose|c: int| is_first(s@, a, b, c);
            assert(s@[c] != a && s@[c] != b);
        }
    }
    None
}

/// Whether every character is an ASCII digit.
pub fn all_digits_exec(s: &Vec<char>) -> (r: bool)
    ensures
        r == all_digits(s@),
{
    let mut i: usize = 0;
    while i < s.len()
        invariant
            i <= s@.len(),
            forall|j: int| 0 <= j < i ==> is_digit(#[trigger] s@[j]),
        decreases s@.len() - i,
    {
        if !(s[i] >= '0' && s[i] <= '9') {
            return false;
        }
        i = i + 1;
    }
    true
}

/// ASCII letters lowered.
fn ascii_lower_exec(s: &Vec<char>) -> (r: Vec<char>)
    ensures
        r@ == ascii_lower(s@),
{
    let mut r: Vec<char> = Vec::new();
    let mut i: usize = 0;
    while i < s.len()
        invariant
            i <= s@.len(),
            r@ == ascii_lower(s@.take(i as int)),
        decreases s@.len() - i,
    {
        let c = s[i];
        let l = if c >= 'A' && c <= 'Z' {
            crate::text::char_from_ascii((c as u32) + 32)
        } else {
            c
        };
        r.push(l);
        i = i + 1;
        assert(r@ =~= ascii_lower(s@.take(i as int)));
    }
    assert(s@.take(s@.len() as int) =~= s@);
    r
}

/// The value of a digit string, clamped to `exp_bound()`.
fn digits_value_clamped(s: &Vec<char>) -> (r: i128)
    requires
        all_digits(s@),
    ensures
        r == (if digits_value(s@) >= exp_bound() { exp_bound() } else { digits_value(s@) as int }),
{
    let b: i128 = 0x10_0000_0000_0000_0000_0000_0000;
    let mut v: i128 = 0;
    let mut i: usize = 0;
    while i < s.len()
        invariant
            i <= s@.len(),
            all_digits(s@),
            b == exp_bound(),
            v == (if digits_value(s@.take(i as int)) >= exp_bound() {
                exp_bound()
            } else {
                digits_value(s@.take(i as int)) as int
            }),
        decreases s@.len() - i,
    {
        assert(is_digit(s@[i as int]));
        let d: i128 = ((s[i] as u32) - ('0' as u32)) as i128;
        assert(s@.take(i + 1).drop_last() =~= s@.take(i as int));
        assert(s@.take(i + 1).last() == s@[i as int]);
        if v < b {
            let w = v * 10 + d;
            v = if w >= b { b } else { w };
        }
        i = i + 1;
    }
    assert(s@.take(s@.len() as int) =~= s@);
    v
}

/// A mantissa's digits before and after the point.
fn parse_mantissa_exec(m: &Vec<char>) -> (r: Option<(Vec<char>, Vec<char>)>)
    ensures
        match r {
            Some((a, b)) => parse_mantissa(m@) == Some((a@, b@)),
            None => parse_mantissa(m@) is None,
        },
{
    match first_of_exec(m, '.', '.') {
        Some(i) => {
            assert(m@.len() == m.len());
            let a = sub_chars(m, 0, i);
            let b = sub_chars(m, i + 1, m.len());
            assert(a@ =~= m@.take(i as int));
            assert(b@ =~= m@.skip(i + 1));
            if all_digits_exec(&a) && all_digits_exec(&b) && (a.len() > 0 || b.len() > 0) {
                Some((a, b))
            } else {
                None
            }
        },
        None => {
            if m.len() > 0 && all_digits_exec(m) {
                let a = sub_chars(m, 0, m.len());
                assert(a@ =~= m@);
                Some((a, Vec::new()))
            } else {
                None
            }
        },
    }
}

/// Clamped exponents give the clamped value of the exact one.
proof fn lemma_same_clamp(n: nat, l: nat, e1: int, e2: int, k: nat)
    requires
        n < pow10(l),
        (e1 >= 41 && e2 >= 41) || (e1 < 0 && e2 < 0 && -e1 >= l + k && -e2 >= l + k) || e1 == e2,
    ensures
        clamp_u64(scaled_floor(n, e1, k)) == clamp_u64(scaled_floor(n, e2, k)),
{
    if e1 != e2 {
        if n == 0 {
            lemma_pow_positive(10, (-e1) as nat);
            lemma_pow_positive(10, (-e2) as nat);
            assert(scaled_floor(n, e1, k) == 0) by (nonlinear_arith)
                requires
                    n == 0,
                    e1 < 0 ==> pow10((-e1) as nat) >= 1,
            ;
            assert(scaled_floor(n, e2, k) == 0) by (nonlinear_arith)
                requires
                    n == 0,
                    e2 < 0 ==> pow10((-e2) as nat) >= 1,
            ;
        } else if e1 >= 41 {
            lemma_scaled_large(n, e1, k);
            lemma_scaled_large(n, e2, k);
        } else {
            lemma_scaled_small(n, l, e1, k);
            lemma_scaled_small(n, l, e2, k);
        }
    }
}

/// An exponent clamped to `exp_bound()` on either side.
pub open spec fn clamp_exp(x: int) -> int {
    if x >= exp_bound() {
        exp_bound()
    } else if x <= -exp_bound() {
        -exp_bound()
    } else {
        x
    }
}

/// The mantissa text and the clamped exponent of `r` (an exponent of 0 when
/// there is none); `None` when an exponent is present but malformed.
fn split_exponent(r: &Vec<char>) -> (res: Option<(Vec<char>, i128)>)
    ensures
        match first_of(r@, 'e', 'E') {
            Some(i) => match parse_exp(r@.skip(i + 1)) {
                Some(x) => res matches Some((m, e)) && m@ == r@.take(i) && e == clamp_exp(x),
                None => res is None,
            },
            None => res matches Some((m, e)) && m@ == r@ && e == 0,
        },
{
    match first_of_exec(r, 'e', 'E') {
        Some(i) => {
            assert(r@.len() == r.len());
            let m = sub_chars(r, 0, i);
            let t = sub_chars(r, i + 1, r.len());
            assert(m@ =~= r@.take(i as int));
            assert(t@ =~= r@.skip(i + 1));
            let eneg = t.len() > 0 && t[0] == '-';
            let es: usize = if t.len() > 0 && (t[0] == '+' || t[0] == '-') { 1 } else { 0 };
            let d = sub_chars(&t, es, t.len());
            assert(d@ == sign_split(t@).1);
            if d.len() == 0 || !all_digits_exec(&d) {
                return None;
            }
            let v = digits_value_clamped(&d);
            Some((m, if eneg { 0 - v } else { v }))
        },
        None => {
            let m = sub_chars(r, 0, r.len());
            assert(m@ =~= r@);
            Some((m, 0))
        },
    }
}

/// The digits `a` then `b`.
fn concat_digits(a: &Vec<char>, b: &Vec<char>) -> (r: Vec<char>)
    requires
        all_digits(a@),
        all_digits(b@),
    ensures
        r@ == a@ + b@,
        all_digits(r@),
{
    let mut all = digits_with_zeros(a, 0);
    let ghost base = all@;
    let mut j: usize = 0;
    while j < b.len()
        invariant
            j <= b@.len(),
            all@ == base + b@.take(j as int),
        decreases b@.len() - j,
    {
        all.push(b[j]);
        j = j + 1;
        assert(all@ =~= base + b@.take(j as int));
    }
    proof {
        assert(b@.take(b@.len() as int) =~= b@);
        assert(zeros(0) =~= Seq::<char>::empty());
        assert(all@ =~= a@ + b@);
        assert forall|i: int| 0 <= i < all@.len() implies is_digit(#[trigger] all@[i]) by {
            if i < a@.len() {
                assert(all@[i] == a@[i]);
            } else {
                assert(all@[i] == b@[i - a@.len()]);
            }
        }
    }
    all
}

/// The value of digits `a`, a point, digits `b`, times `10^x * 2^k`,
/// rounded down and clamped to `u64`, given `x` clamped.
fn finite_scaled(a: &Vec<char>, b: &Vec<char>, exp_c: i128, Ghost(x): Ghost<int>, k: u32) -> (r: u64)
    requires
        all_digits(a@),
        all_digits(b@),
        exp_c == clamp_exp(x),
        supported_shift(k as nat),
    ensures
        r == clamp_u64(scaled_floor(digits_value(a@ + b@), x - b@.len(), k as nat)),
{
    let all = concat_digits(a, b);
    let fl = b.len() as i128;
    let bound: i128 = 0x10_0000_0000_0000_0000_0000_0000;
    let e0: i128 = exp_c - fl;
    let e: i128 = if e0 < 0 - bound { 0 - bound } else if e0 > bound { bound } else { e0 };
    proof {
        let n = digits_value(all@);
        let l = all@.len();
        lemma_digits_bound(all@);
        assert(all@.len() == all.len());
        assert(b@.len() == b.len());
        lemma_same_clamp(n, l, x - b@.len(), e as int, k as nat);
    }
    scale_digits(&all, e, k)
}

/// The number in `s` times `2^k`, rounded toward zero and clamped to `u64`;
/// `None` when `s` is not a number (`str::parse::<f64>` fails).
pub fn parse_float_scaled(s: &Vec<char>, k: u32) -> (r: Option<u64>)
    requires
        supported_shift(k as nat),
    ensures
        r == (match parse_float_text(s@) {
            Some(f) => Some(float_scaled(f, k as nat)),
            None => None::<u64>,
        }),
{
    let neg = s.len() > 0 && s[0] == '-';
    let start: usize = if s.len() > 0 && (s[0] == '+' || s[0] == '-') { 1 } else { 0 };
    let r = sub_chars(s, start, s.len());
    assert(r@ == sign_split(s@).1);
    assert(neg == sign_split(s@).0);
    let l = ascii_lower_exec(&r);
    if crate::text::chars_eq_str(&l, "inf") || crate::text::chars_eq_str(&l, "infinity") {
        return if neg { Some(0) } else { Some(u64::MAX) };
    }
    if crate::text::chars_eq_str(&l, "nan") {
        return Some(0);
    }
    let (mant, exp_c) = match split_exponent(&r) {
        Some(p) => p,
        None => {
            return None;
        },
    };
    let ghost x: int = match first_of(r@, 'e', 'E') {
        Some(i) => match parse_exp(r@.skip(i + 1)) {
            Some(x) => x,
            None => 0,
        },
        None => 0,
    };
    match parse_mantissa_exec(&mant) {
        None => None,
        Some((a, b)) => {
            if neg {
                return Some(0);
            }
            Some(finite_scaled(&a, &b, exp_c, Ghost(x), k))
        },
    }
}

} // verus!
