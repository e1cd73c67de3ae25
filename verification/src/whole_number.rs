//! The whole part of a number written in decimal (as JSON writes numbers:
//! an optional minus sign, digits, an optional fraction and an optional
//! exponent), cut toward zero and held to the range of `i64`.
use vstd::prelude::*;
use vstd::arithmetic::div_mod::lemma_div_denominator;
use crate::number_literal::{is_digit, is_exp_mark, is_sign};

verus! {

/// The value of a decimal digit.
pub open spec fn digit_value(c: char) -> nat {
    (c as u32 - '0' as u32) as nat
}

/// The value of a run of decimal digits (0 for none).
pub open spec fn digits_value(d: Seq<char>) -> nat
    decreases d.len(),
{
    if d.len() == 0 {
        0
    } else {
        digits_value(d.drop_last()) * 10 + digit_value(d.last())
    }
}

/// Ten to the power `n`.
pub open spec fn pow10(n: nat) -> nat
    decreases n,
{
    if n == 0 {
        1
    } else {
        10 * pow10((n - 1) as nat)
    }
}

/// The end of the run of digits that starts at `i`.
pub open spec fn digit_run_end(s: Seq<char>, i: int) -> int
    decreases s.len() - i,
{
    if 0 <= i < s.len() && is_digit(s[i]) {
        digit_run_end(s, i + 1)
    } else {
        i
    }
}

/// 1 when the text starts with a minus sign, else 0.
pub open spec fn sign_len(s: Seq<char>) -> int {
    if s.len() > 0 && s[0] == '-' {
        1
    } else {
        0
    }
}

/// The end of the integer digits.
pub open spec fn int_end(s: Seq<char>) -> int {
    digit_run_end(s, sign_len(s))
}

/// A '.' follows the integer digits.
pub open spec fn has_point(s: Seq<char>) -> bool {
    int_end(s) < s.len() && s[int_end(s)] == '.'
}

/// The end of the fraction digits (the end of the integer digits when
/// there is no fraction).
pub open spec fn frac_end(s: Seq<char>) -> int {
    if has_point(s) {
        digit_run_end(s, int_end(s) + 1)
    } else {
        int_end(s)
    }
}

/// The fraction digits.
pub open spec fn frac_digits(s: Seq<char>) -> Seq<char> {
    if has_point(s) {
        s.subrange(int_end(s) + 1, frac_end(s))
    } else {
        Seq::empty()
    }
}

/// An exponent mark follows the mantissa.
pub open spec fn has_exp(s: Seq<char>) -> bool {
    frac_end(s) < s.len() && is_exp_mark(s[frac_end(s)])
}

/// The exponent's sign is '-'.
pub open spec fn exp_negative(s: Seq<char>) -> bool {
    frac_end(s) + 1 < s.len() && s[frac_end(s) + 1] == '-'
}

/// Where the exponent's digits start.
pub open spec fn exp_start(s: Seq<char>) -> int {
    if frac_end(s) + 1 < s.len() && is_sign(s[frac_end(s) + 1]) {
        frac_end(s) + 2
    } else {
        frac_end(s) + 1
    }
}

/// `s` is a decimal number: `-`? digits (`.` digits)? ([eE] [+-]? digits)?.
pub open spec fn is_number_text(s: Seq<char>) -> bool {
    &&& int_end(s) > sign_len(s)
    &&& (has_point(s) ==> frac_end(s) > int_end(s) + 1)
    &&& if has_exp(s) {
        digit_run_end(s, exp_start(s)) > exp_start(s) && digit_run_end(s, exp_start(s)) == s.len()
    } else {
        frac_end(s) == s.len()
    }
}

/// The digits of the mantissa, integer digits then fraction digits.
pub open spec fn mantissa_digits(s: Seq<char>) -> Seq<char> {
    s.subrange(sign_len(s), int_end(s)) + frac_digits(s)
}

/// The exponent (0 when there is none).
pub open spec fn exponent(s: Seq<char>) -> int {
    if has_exp(s) {
        let v = digits_value(s.subrange(exp_start(s), s.len() as int)) as int;
        if exp_negative(s) {
            -v
        } else {
            v
        }
    } else {
        0
    }
}

/// The whole part of `digits` times ten to the power `shift`.
pub open spec fn scaled_whole(digits: Seq<char>, shift: int) -> nat {
    if shift >= 0 {
        digits_value(digits) * pow10(shift as nat)
    } else {
        digits_value(digits) / pow10((-shift) as nat)
    }
}

/// The whole part, toward zero, of the number that `s` writes; `None` when
/// `s` is not a number.
pub open spec fn whole_part(s: Seq<char>) -> Option<int> {
    if is_number_text(s) {
        let w = scaled_whole(mantissa_digits(s), exponent(s) - frac_digits(s).len()) as int;
        Some(
            if sign_len(s) == 1 {
                -w
            } else {
                w
            },
        )
    } else {
        None
    }
}

/// `x` held to the range of `i64`.
pub open spec fn clamp_i64(x: int) -> i64 {
    if x < i64::MIN {
        i64::MIN
    } else if x > i64::MAX {
        i64::MAX
    } else {
        x as i64
    }
}

/// The cap on whole values while computing: 2^63.
pub open spec fn value_cap() -> nat {
    0x8000_0000_0000_0000
}

/// The smaller of two numbers.
pub open spec fn min_nat(a: nat, b: nat) -> nat {
    if a <= b {
        a
    } else {
        b
    }
}

proof fn lemma_pow10_positive(n: nat)
    ensures
        pow10(n) >= 1,
    decreases n,
{
    if n > 0 {
        lemma_pow10_positive((n - 1) as nat);
    }
}

proof fn lemma_pow10_monotone(a: nat, b: nat)
    requires
        a <= b,
    ensures
        pow10(a) <= pow10(b),
    decreases b,
{
    if a < b {
        lemma_pow10_monotone(a, (b - 1) as nat);
        lemma_pow10_positive((b - 1) as nat);
    }
}

proof fn lemma_pow10_large(n: nat)
    requires
        n >= 19,
    ensures
        pow10(n) >= value_cap(),
{
    reveal_with_fuel(pow10, 20);
    lemma_pow10_monotone(19, n);
}

proof fn lemma_digit_run(s: Seq<char>, i: int)
    requires
        0 <= i <= s.len(),
    ensures
        i <= digit_run_end(s, i) <= s.len(),
        forall|j: int| i <= j < digit_run_end(s, i) ==> is_digit(#[trigger] s[j]),
        digit_run_end(s, i) < s.len() ==> !is_digit(s[digit_run_end(s, i)]),
    decreases s.len() - i,
{
    if i < s.len() && is_digit(s[i]) {
        lemma_digit_run(s, i + 1);
    }
}

proof fn lemma_digits_bound(d: Seq<char>)
    requires
        forall|j: int| 0 <= j < d.len() ==> is_digit(#[trigger] d[j]),
    ensures
        digits_value(d) < pow10(d.len()),
    decreases d.len(),
{
    if d.len() > 0 {
        let p = d.drop_last();
        assert forall|j: int| 0 <= j < p.len() implies is_digit(#[trigger] p[j]) by {
            assert(p[j] == d[j]);
        }
        lemma_digits_bound(p);
        assert(is_digit(d[d.len() - 1]));
        assert(digits_value(p) + 1 <= pow10(p.len()));
        assert(digits_value(p) * 10 + 10 <= pow10(p.len()) * 10) by (nonlinear_arith)
            requires
                digits_value(p) + 1 <= pow10(p.len()),
        ;
    }
}

/// Dropping the last `m` digits divides by ten to the power `m`.
proof fn lemma_digits_div(d: Seq<char>, m: nat)
    requires
        m <= d.len(),
        forall|j: int| 0 <= j < d.len() ==> is_digit(#[trigger] d[j]),
    ensures
        digits_value(d) / pow10(m) == digits_value(d.subrange(0, d.len() - m)),
    decreases m,
{
    if m == 0 {
        assert(d.subrange(0, d.len() as int) =~= d);
        assert(pow10(0) == 1);
        assert(digits_value(d) / 1 == digits_value(d));
    } else {
        let p = d.drop_last();
        assert forall|j: int| 0 <= j < p.len() implies is_digit(#[trigger] p[j]) by {
            assert(p[j] == d[j]);
        }
        lemma_digits_div(p, (m - 1) as nat);
        assert(p.subrange(0, p.len() - (m - 1)) =~= d.subrange(0, d.len() - m));
        assert(is_digit(d[d.len() - 1]));
        let x = digits_value(d) as int;
        assert(d.last() == d[d.len() - 1]);
        assert(digit_value(d.last()) < 10);
        assert(x == 10 * (digits_value(p) as int) + digit_value(d.last()));
        assert(pow10(m) == 10 * pow10((m - 1) as nat));
        vstd::arithmetic::div_mod::lemma_div_multiples_vanish_fancy(
            digits_value(p) as int,
            digit_value(d.last()) as int,
            10,
        );
        lemma_pow10_positive((m - 1) as nat);
        lemma_div_denominator(x, 10, pow10((m - 1) as nat) as int);
        assert(x / 10 == digits_value(p));
        assert(x / (10 * pow10((m - 1) as nat) as int) == digits_value(p) / pow10((m - 1) as nat));
    }
}

/// Capping before a step of the digit fold gives what capping after it does.
proof fn lemma_cap_step(v: nat, d: nat, cap: nat)
    ensures
        min_nat(min_nat(v, cap) * 10 + d, cap) == min_nat(v * 10 + d, cap),
{
    if v > cap {
        assert(v * 10 + d >= cap) by (nonlinear_arith)
            requires
                v > cap,
        ;
        assert(cap * 10 + d >= cap) by (nonlinear_arith);
    }
}

/// Large shifts give the same capped value.
proof fn lemma_large_shifts(d: Seq<char>, s1: int, s2: int)
    requires
        s1 >= 19,
        s2 >= 19,
    ensures
        min_nat(scaled_whole(d, s1), value_cap()) == min_nat(scaled_whole(d, s2), value_cap()),
{
    lemma_pow10_large(s1 as nat);
    lemma_pow10_large(s2 as nat);
    let v = digits_value(d);
    if v > 0 {
        assert(v * pow10(s1 as nat) >= pow10(s1 as nat)) by (nonlinear_arith)
            requires
                v > 0,
        ;
        assert(v * pow10(s2 as nat) >= pow10(s2 as nat)) by (nonlinear_arith)
            requires
                v > 0,
        ;
        assert(min_nat(scaled_whole(d, s1), value_cap()) == value_cap());
        assert(min_nat(scaled_whole(d, s2), value_cap()) == value_cap());
    } else {
        assert(v * pow10(s1 as nat) == 0) by (nonlinear_arith)
            requires
                v == 0,
        ;
        assert(v * pow10(s2 as nat) == 0) by (nonlinear_arith)
            requires
                v == 0,
        ;
        assert(scaled_whole(d, s1) == 0);
        assert(scaled_whole(d, s2) == 0);
    }
}

/// Shifting every digit past the point leaves no whole part.
proof fn lemma_small_shift(d: Seq<char>, s: int)
    requires
        s < 0,
        -s >= d.len(),
        forall|j: int| 0 <= j < d.len() ==> is_digit(#[trigger] d[j]),
    ensures
        scaled_whole(d, s) == 0,
{
    lemma_digits_bound(d);
    lemma_pow10_monotone(d.len(), (-s) as nat);
    lemma_pow10_positive((-s) as nat);
    vstd::arithmetic::div_mod::lemma_basic_div(
        digits_value(d) as int,
        pow10((-s) as nat) as int,
    );
}

/// Whether `c` is a decimal digit.
fn digit_char(c: char) -> (b: bool)
    ensures
        b == is_digit(c),
{
    '0' as u32 <= c as u32 && c as u32 <= '9' as u32
}

/// A run of digits ends where the digits stop.
proof fn lemma_run_to(s: Seq<char>, i: int, j: int)
    requires
        0 <= i <= j <= s.len(),
        forall|k: int| i <= k < j ==> is_digit(#[trigger] s[k]),
        j < s.len() ==> !is_digit(s[j]),
    ensures
        digit_run_end(s, i) == j,
    decreases j - i,
{
    if i < j {
        lemma_run_to(s, i + 1, j);
    }
}

/// Law: plain digits give their value; a leading minus sign negates it; a
/// fraction is dropped, however long; and an exponent multiplies by that
/// power of ten.
pub proof fn law_whole_part_forms(d: Seq<char>, f: Seq<char>)
    requires
        d.len() > 0,
        f.len() > 0,
        forall|k: int| 0 <= k < d.len() ==> is_digit(#[trigger] d[k]),
        forall|k: int| 0 <= k < f.len() ==> is_digit(#[trigger] f[k]),
    ensures
        whole_part(d) == Some(digits_value(d) as int),
        whole_part(seq!['-'] + d) == Some(-(digits_value(d) as int)),
        whole_part(d + seq!['.'] + f) == Some(digits_value(d) as int),
        whole_part(d + seq!['e'] + f) == Some((digits_value(d) * pow10(digits_value(f))) as int),
{
    let n = d.len() as int;
    assert(!is_digit('-') && !is_digit('.') && !is_digit('e'));
    // plain digits
    lemma_run_to(d, 0, n);
    assert(d.subrange(0, n) =~= d);
    assert(mantissa_digits(d) =~= d);
    assert(pow10(0) == 1);
    assert(digits_value(d) * 1 == digits_value(d));
    // negative
    let m = seq!['-'] + d;
    assert forall|k: int| 1 <= k < m.len() implies is_digit(#[trigger] m[k]) by {
        assert(m[k] == d[k - 1]);
    }
    lemma_run_to(m, 1, m.len() as int);
    assert(m.subrange(1, m.len() as int) =~= d);
    assert(mantissa_digits(m) =~= d);
    // fraction
    let x = d + seq!['.'] + f;
    assert forall|k: int| 0 <= k < n implies is_digit(#[trigger] x[k]) by {
        assert(x[k] == d[k]);
    }
    assert(x[n] == '.');
    lemma_run_to(x, 0, n);
    assert forall|k: int| n + 1 <= k < x.len() implies is_digit(#[trigger] x[k]) by {
        assert(x[k] == f[k - n - 1]);
    }
    lemma_run_to(x, n + 1, x.len() as int);
    assert(x.subrange(0, n) =~= d);
    assert(x.subrange(n + 1, x.len() as int) =~= f);
    let df = d + f;
    assert(mantissa_digits(x) =~= df);
    assert forall|k: int| 0 <= k < df.len() implies is_digit(#[trigger] df[k]) by {
        if k < n {
            assert(df[k] == d[k]);
        } else {
            assert(df[k] == f[k - n]);
        }
    }
    lemma_digits_div(df, f.len());
    assert(df.subrange(0, df.len() - f.len()) =~= d);
    // exponent
    let y = d + seq!['e'] + f;
    assert forall|k: int| 0 <= k < n implies is_digit(#[trigger] y[k]) by {
        assert(y[k] == d[k]);
    }
    assert(y[n] == 'e');
    lemma_run_to(y, 0, n);
    assert forall|k: int| n + 1 <= k < y.len() implies is_digit(#[trigger] y[k]) by {
        assert(y[k] == f[k - n - 1]);
    }
    assert(is_digit(y[n + 1]));
    assert(!is_sign(y[n + 1]));
    lemma_run_to(y, n + 1, y.len() as int);
    assert(y.subrange(0, n) =~= d);
    assert(y.subrange(n + 1, y.len() as int) =~= f);
    assert(mantissa_digits(y) =~= d);
}

/// Where the run of digits that starts at `i` ends.
fn run_end(s: &Vec<char>, i: usize) -> (r: usize)
    requires
        i <= s.len(),
    ensures
        r == digit_run_end(s@, i as int),
{
    let mut k = i;
    while k < s.len() && digit_char(s[k])
        invariant
            i <= k <= s.len(),
            digit_run_end(s@, i as int) == digit_run_end(s@, k as int),
        decreases s.len() - k,
    {
        k = k + 1;
    }
    k
}

/// The value of the digits `s[lo..hi]`, capped at `cap`.
fn capped_digits(s: &Vec<char>, lo: usize, hi: usize, cap: u128) -> (r: u128)
    requires
        lo <= hi <= s.len(),
        cap <= 0x10_0000_0000_0000_0000_0000_0000,
        forall|j: int| lo <= j < hi ==> is_digit(#[trigger] s@[j]),
    ensures
        r as nat == min_nat(digits_value(s@.subrange(lo as int, hi as int)), cap as nat),
{
    let mut acc: u128 = 0;
    let mut j = lo;
    assert(s@.subrange(lo as int, lo as int) =~= Seq::<char>::empty());
    while j < hi
        invariant
            lo <= j <= hi <= s.len(),
            cap <= 0x10_0000_0000_0000_0000_0000_0000,
            forall|k: int| lo <= k < hi ==> is_digit(#[trigger] s@[k]),
            acc <= cap,
            acc as nat == min_nat(digits_value(s@.subrange(lo as int, j as int)), cap as nat),
        decreases hi - j,
    {
        assert(is_digit(s@[j as int]));
        let d = (s[j] as u32 - '0' as u32) as u128;
        let next = acc * 10 + d;
        acc = if next < cap {
            next
        } else {
            cap
        };
        proof {
            let sub = s@.subrange(lo as int, j + 1);
            assert(sub.drop_last() =~= s@.subrange(lo as int, j as int));
            assert(sub.last() == s@[j as int]);
            lemma_cap_step(digits_value(sub.drop_last()), d as nat, cap as nat);
        }
        j = j + 1;
    }
    acc
}

/// The whole part of `digits` times ten to the power `shift`, capped at
/// 2^63.
fn capped_scaled(m: &Vec<char>, shift: i128) -> (r: u128)
    requires
        -0x20_0000_0000_0000_0000_0000_0000 <= shift <= 0x20_0000_0000_0000_0000_0000_0000,
        forall|j: int| 0 <= j < m.len() ==> is_digit(#[trigger] m@[j]),
    ensures
        r as nat == min_nat(scaled_whole(m@, shift as int), value_cap()),
{
    let cap: u128 = 0x8000_0000_0000_0000;
    assert(m@.subrange(0, m@.len() as int) =~= m@);
    if shift >= 0 {
        let mut acc = capped_digits(m, 0, m.len(), cap);
        let mut i: i128 = 0;
        proof {
            assert(pow10(0) == 1);
            assert(digits_value(m@) * 1 == digits_value(m@));
        }
        while i < shift && acc != 0 && acc != cap
            invariant
                0 <= i <= shift,
                acc <= cap,
                cap == value_cap(),
                acc as nat == min_nat(digits_value(m@) * pow10(i as nat), value_cap()),
            decreases shift - i,
        {
            proof {
                lemma_cap_step(digits_value(m@) * pow10(i as nat), 0, value_cap());
                assert(digits_value(m@) * pow10((i + 1) as nat) == digits_value(m@) * pow10(
                    i as nat,
                ) * 10) by (nonlinear_arith)
                    requires
                        pow10((i + 1) as nat) == 10 * pow10(i as nat),
                ;
            }
            let next = acc * 10;
            acc = if next < cap {
                next
            } else {
                cap
            };
            i = i + 1;
        }
        proof {
            let v = digits_value(m@);
            lemma_pow10_monotone(i as nat, shift as nat);
            if acc == 0 {
                lemma_pow10_positive(i as nat);
                assert(v == 0) by (nonlinear_arith)
                    requires
                        v * pow10(i as nat) == 0,
                        pow10(i as nat) >= 1,
                ;
            } else if acc == cap {
                assert(v * pow10(shift as nat) >= v * pow10(i as nat)) by (nonlinear_arith)
                    requires
                        pow10(i as nat) <= pow10(shift as nat),
                ;
            }
        }
        acc
    } else {
        let back: i128 = -shift;
        if back >= m.len() as i128 {
            proof {
                lemma_small_shift(m@, shift as int);
            }
            0
        } else {
            let keep = m.len() - back as usize;
            proof {
                lemma_digits_div(m@, back as nat);
            }
            capped_digits(m, 0, keep, cap)
        }
    }
}

/// The whole part, toward zero, of the decimal number that `s` writes, held
/// to the range of `i64`; `None` when `s` is not a number.
#[verifier::rlimit(60)]
pub fn whole_part_i64(s: &Vec<char>) -> (r: Option<i64>)
    ensures
        r == match whole_part(s@) {
            Some(w) => Some(clamp_i64(w)),
            None => None::<i64>,
        },
{
    let n = s.len();
    let a: usize = if n > 0 && s[0] == '-' {
        1
    } else {
        0
    };
    proof {
        lemma_digit_run(s@, a as int);
    }
    let b = run_end(s, a);
    if b == a {
        return None;
    }
    let point = b < n && s[b] == '.';
    let mut c = b;
    if point {
        proof {
            lemma_digit_run(s@, b + 1);
        }
        c = run_end(s, b + 1);
        if c == b + 1 {
            return None;
        }
    }
    assert(c == frac_end(s@));
    let mut exp: u128 = 0;
    let mut exp_neg = false;
    if c < n {
        if !(s[c] == 'e' || s[c] == 'E') {
            return None;
        }
        let mut d = c + 1;
        if d < n && (s[d] == '+' || s[d] == '-') {
            exp_neg = s[d] == '-';
            d = d + 1;
        }
        assert(d == exp_start(s@));
        proof {
            lemma_digit_run(s@, d as int);
        }
        let e = run_end(s, d);
        if e == d || e != n {
            return None;
        }
        exp = capped_digits(s, d, e, 0x10_0000_0000_0000_0000_0000_0000);
    } else {
        assert(!has_exp(s@));
    }
    assert(is_number_text(s@));
    let mut m: Vec<char> = Vec::new();
    crate::text::push_slice(&mut m, s, a, b);
    if point {
        crate::text::push_slice(&mut m, s, b + 1, c);
    }
    assert(m@ =~= mantissa_digits(s@));
    assert forall|j: int| 0 <= j < m.len() implies is_digit(#[trigger] m@[j]) by {
        if j < b - a {
            assert(m@[j] == s@[a + j]);
        } else {
            assert(m@[j] == s@[b + 1 + (j - (b - a))]);
        }
    }
    let k: usize = if point {
        c - b - 1
    } else {
        0
    };
    assert(k == frac_digits(s@).len());
    let signed_exp: i128 = if exp_neg {
        -(exp as i128)
    } else {
        exp as i128
    };
    let shift: i128 = signed_exp - k as i128;
    let w = capped_scaled(&m, shift);
    proof {
        let true_shift = exponent(s@) - k;
        let big: int = 0x10_0000_0000_0000_0000_0000_0000;
        if has_exp(s@) {
            let v = digits_value(s@.subrange(exp_start(s@), n as int));
            if v > big {
                assert(exp as int == big);
                if exp_neg {
                    lemma_small_shift(m@, shift as int);
                    lemma_small_shift(m@, true_shift);
                } else {
                    lemma_large_shifts(m@, shift as int, true_shift);
                }
            } else {
                assert(shift as int == true_shift);
            }
        } else {
            assert(shift as int == true_shift);
        }
    }
    let cap: u128 = 0x8000_0000_0000_0000;
    if a == 1 {
        if w == cap {
            Some(i64::MIN)
        } else {
            Some(-(w as i64))
        }
    } else {
        if w >= cap {
            Some(i64::MAX)
        } else {
            Some(w as i64)
        }
    }
}

} // verus!
