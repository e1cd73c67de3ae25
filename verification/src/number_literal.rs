//! Recognition of the decimal number literals that the standard library's
//! `FromStr` for its 64-bit binary real-number type accepts.
//!
//! The documented grammar (case-insensitive in the letters) is:
//!
//! ```text
//! Number   ::= Sign? ( 'inf' | 'infinity' | 'nan' | Decimal )
//! Decimal  ::= ( Digit+ | Digit+ '.' Digit* | Digit* '.' Digit+ ) Exp?
//! Exp      ::= 'e' Sign? Digit+
//! Sign     ::= [+-]
//! Digit    ::= [0-9]
//! ```
use vstd::prelude::*;

verus! {

pub open spec fn is_digit(c: char) -> bool {
    '0' as u32 <= c as u32 <= '9' as u32
}

pub open spec fn is_sign(c: char) -> bool {
    c == '+' || c == '-'
}

pub open spec fn is_exp_mark(c: char) -> bool {
    c == 'e' || c == 'E'
}

/// `c` with ASCII upper-case letters mapped to lower case.
pub open spec fn ascii_lower(c: char) -> char {
    if 'A' as u32 <= c as u32 <= 'Z' as u32 {
        (c as u32 + 32) as char
    } else {
        c
    }
}

/// `s` spells the lower-case word `word`, ignoring ASCII case.
pub open spec fn eq_ignore_ascii_case(s: Seq<char>, word: Seq<char>) -> bool {
    s.len() == word.len() && forall|i: int| 0 <= i < s.len() ==> ascii_lower(#[trigger] s[i]) == word[i]
}

/// `s` without one leading sign.
pub open spec fn unsigned_part(s: Seq<char>) -> Seq<char> {
    if s.len() > 0 && is_sign(s[0]) {
        s.drop_first()
    } else {
        s
    }
}

/// Digits and at most one '.', with at least one digit: the mantissa forms
/// `Digit+`, `Digit+ '.' Digit*` and `Digit* '.' Digit+`.
pub open spec fn is_mantissa(m: Seq<char>) -> bool {
    &&& forall|i: int| 0 <= i < m.len() ==> is_digit(#[trigger] m[i]) || m[i] == '.'
    &&& forall|i: int, j: int| 0 <= i < m.len() && 0 <= j < m.len() && m[i] == '.' && m[j] == '.' ==> i == j
    &&& exists|i: int| 0 <= i < m.len() && is_digit(#[trigger] m[i])
}

/// A non-empty run of digits.
pub open spec fn is_digits(d: Seq<char>) -> bool {
    d.len() > 0 && forall|i: int| 0 <= i < d.len() ==> is_digit(#[trigger] d[i])
}

/// An optional exponent `e Sign? Digit+`.
pub open spec fn is_exponent(x: Seq<char>) -> bool {
    x.len() == 0 || (is_exp_mark(x[0]) && is_digits(unsigned_part(x.drop_first())))
}

/// `Decimal` of the grammar: a mantissa followed by an optional exponent.
pub open spec fn is_decimal(b: Seq<char>) -> bool {
    exists|k: int|
        0 <= k <= b.len() && #[trigger] is_mantissa(b.subrange(0, k)) && is_exponent(
            b.subrange(k, b.len() as int),
        )
}

/// The words for infinity and not-a-number.
pub open spec fn is_special_word(b: Seq<char>) -> bool {
    ||| eq_ignore_ascii_case(b, "inf"@)
    ||| eq_ignore_ascii_case(b, "infinity"@)
    ||| eq_ignore_ascii_case(b, "nan"@)
}

/// `s` is a number literal of the grammar above.
pub open spec fn is_number_literal(s: Seq<char>) -> bool {
    is_special_word(unsigned_part(s)) || is_decimal(unsigned_part(s))
}

fn is_digit_char(c: char) -> (b: bool)
    ensures
        b == is_digit(c),
{
    '0' as u32 <= c as u32 && c as u32 <= '9' as u32
}

fn lower_matches(c: char, w: char) -> (b: bool)
    requires
        'a' as u32 <= w as u32 <= 'z' as u32,
    ensures
        b == (ascii_lower(c) == w),
{
    c == w || ('A' as u32 <= c as u32 && c as u32 <= 'Z' as u32 && c as u32 + 32 == w as u32)
}

/// Whether `s` spells the lower-case ASCII word `word` in any ASCII case.
fn eq_ignore_ascii_case_exec(s: &Vec<char>, word: &Vec<char>) -> (b: bool)
    requires
        forall|i: int| 0 <= i < word@.len() ==> 'a' as u32 <= (#[trigger] word@[i]) as u32 <= 'z' as u32,
    ensures
        b == eq_ignore_ascii_case(s@, word@),
{
    if s.len() != word.len() {
        return false;
    }
    let mut i: usize = 0;
    while i < s.len()
        invariant
            s@.len() == word@.len(),
            i <= s.len(),
            forall|j: int| 0 <= j < word@.len() ==> 'a' as u32 <= (#[trigger] word@[j]) as u32 <= 'z' as u32,
            forall|j: int| 0 <= j < i ==> ascii_lower(#[trigger] s@[j]) == word@[j],
        decreases s.len() - i,
    {
        if !lower_matches(s[i], word[i]) {
            return false;
        }
        i = i + 1;
    }
    true
}

fn is_special_word_exec(b: &Vec<char>) -> (r: bool)
    ensures
        r == is_special_word(b@),
{
    let inf = crate::text::chars_of("inf");
    let infinity = crate::text::chars_of("infinity");
    let nan = crate::text::chars_of("nan");
    proof {
        reveal_strlit("inf");
        reveal_strlit("infinity");
        reveal_strlit("nan");
    }
    eq_ignore_ascii_case_exec(b, &inf) || eq_ignore_ascii_case_exec(b, &infinity)
        || eq_ignore_ascii_case_exec(b, &nan)
}

fn unsigned_start(s: &Vec<char>) -> (k: usize)
    ensures
        k <= s.len(),
        s@.subrange(k as int, s@.len() as int) == unsigned_part(s@),
{
    if s.len() > 0 && (s[0] == '+' || s[0] == '-') {
        assert(s@.subrange(1, s@.len() as int) =~= s@.drop_first());
        1
    } else {
        assert(s@.subrange(0, s@.len() as int) =~= s@);
        0
    }
}

fn is_mantissa_exec(b: &Vec<char>, k: usize) -> (r: bool)
    requires
        k <= b.len(),
    ensures
        r == is_mantissa(b@.subrange(0, k as int)),
{
    let ghost m = b@.subrange(0, k as int);
    let mut i: usize = 0;
    let mut dot: Option<usize> = None;
    let mut digit: Option<usize> = None;
    while i < k
        invariant
            k <= b.len(),
            m == b@.subrange(0, k as int),
            i <= k,
            forall|j: int| 0 <= j < i ==> is_digit(#[trigger] m[j]) || m[j] == '.',
            match dot {
                Some(d) => d < i && m[d as int] == '.' && forall|j: int|
                    0 <= j < i && m[j] == '.' ==> j == d,
                None => forall|j: int| 0 <= j < i ==> m[j] != '.',
            },
            match digit {
                Some(d) => d < i && is_digit(m[d as int]),
                None => forall|j: int| 0 <= j < i ==> !is_digit(#[trigger] m[j]),
            },
        decreases k - i,
    {
        let c = b[i];
        assert(m[i as int] == c);
        if is_digit_char(c) {
            if digit.is_none() {
                digit = Some(i);
            }
        } else if c == '.' {
            if dot.is_some() {
                return false;
            }
            dot = Some(i);
        } else {
            return false;
        }
        i = i + 1;
    }
    match digit {
        Some(d) => {
            assert(is_digit(m[d as int]));
            true
        },
        None => false,
    }
}

fn is_digits_from(b: &Vec<char>, k: usize) -> (r: bool)
    requires
        k <= b.len(),
    ensures
        r == is_digits(b@.subrange(k as int, b@.len() as int)),
{
    let ghost d = b@.subrange(k as int, b@.len() as int);
    if k == b.len() {
        return false;
    }
    let mut i: usize = k;
    while i < b.len()
        invariant
            k <= i <= b.len(),
            d == b@.subrange(k as int, b@.len() as int),
            forall|j: int| 0 <= j < i - k ==> is_digit(#[trigger] d[j]),
        decreases b.len() - i,
    {
        assert(d[i - k] == b@[i as int]);
        if !is_digit_char(b[i]) {
            return false;
        }
        i = i + 1;
    }
    true
}

fn is_exponent_exec(b: &Vec<char>, k: usize) -> (r: bool)
    requires
        k <= b.len(),
    ensures
        r == is_exponent(b@.subrange(k as int, b@.len() as int)),
{
    let ghost x = b@.subrange(k as int, b@.len() as int);
    if k == b.len() {
        return true;
    }
    assert(x[0] == b@[k as int]);
    if b[k] != 'e' && b[k] != 'E' {
        return false;
    }
    let ghost r = x.drop_first();
    assert(r =~= b@.subrange(k + 1, b@.len() as int));
    let mut j: usize = k + 1;
    if j < b.len() && (b[j] == '+' || b[j] == '-') {
        assert(r[0] == b@[j as int]);
        j = j + 1;
        assert(unsigned_part(r) =~= b@.subrange(j as int, b@.len() as int));
    } else {
        proof {
            if r.len() > 0 {
                assert(r[0] == b@[j as int]);
            }
            assert(unsigned_part(r) =~= b@.subrange(j as int, b@.len() as int));
        }
    }
    is_digits_from(b, j)
}

/// Whether `b` is a `Decimal` of the grammar.
fn is_decimal_exec(b: &Vec<char>) -> (r: bool)
    ensures
        r == is_decimal(b@),
{
    let mut k: usize = 0;
    while k < b.len() && b[k] != 'e' && b[k] != 'E'
        invariant
            k <= b.len(),
            forall|j: int| 0 <= j < k ==> !is_exp_mark(#[trigger] b@[j]),
        decreases b.len() - k,
    {
        k = k + 1;
    }
    let r = is_mantissa_exec(b, k) && is_exponent_exec(b, k);
    proof {
        if r {
            assert(is_mantissa(b@.subrange(0, k as int)));
        } else {
            assert forall|k2: int|
                0 <= k2 <= b@.len() && #[trigger] is_mantissa(b@.subrange(0, k2)) implies !is_exponent(
                b@.subrange(k2, b@.len() as int),
            ) by {
                let m2 = b@.subrange(0, k2);
                if is_exponent(b@.subrange(k2, b@.len() as int)) {
                    if k2 < k {
                        let x2 = b@.subrange(k2, b@.len() as int);
                        assert(x2[0] == b@[k2]);
                        assert(is_exp_mark(b@[k2]));
                    } else if k2 > k {
                        assert(m2[k as int] == b@[k as int]);
                        assert(is_digit(m2[k as int]) || m2[k as int] == '.');
                    } else {
                        assert(false);
                    }
                }
            }
        }
    }
    r
}

/// Whether `s` is a number literal that the standard library's real-number
/// parser accepts.
pub fn is_number_literal_exec(s: &Vec<char>) -> (r: bool)
    ensures
        r == is_number_literal(s@),
{
    let k = unsigned_start(s);
    let b = crate::text::slice_chars(s, k, s.len());
    is_special_word_exec(&b) || is_decimal_exec(&b)
}

} // verus!
