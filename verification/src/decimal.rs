//! Decimal numbers, read from text and kept exactly.
//!
//! A house reports brightness, volume, temperature and position as text. The
//! text is read by the grammar `f64::from_str` documents, but the value is held
//! as a whole number of attos (units of 10^-18), so nothing is lost to binary
//! rounding: digits further behind the point are dropped, and a magnitude past
//! [`ATTO_CAP`] is held at it.

use vstd::prelude::*;

use crate::text;
use crate::text::{digit_char, eq_ignore_case, from_chars, number, own, to_chars};

verus! {

/// Whether a character is a decimal digit.
pub open spec fn is_digit(c: char) -> bool {
    '0' <= c <= '9'
}

/// How many digits stand in `s` from position `i` on, before anything else.
pub open spec fn digit_run(s: Seq<char>, i: int) -> nat
    decreases s.len() - i,
{
    if 0 <= i < s.len() && is_digit(s[i]) {
        1 + digit_run(s, i + 1)
    } else {
        0
    }
}

/// What one digit is worth.
pub open spec fn digit_worth(c: char) -> nat {
    (c as int - '0' as int) as nat
}

/// The value of decimal digits.
pub open spec fn digits_value(s: Seq<char>) -> nat
    decreases s.len(),
{
    if s.len() == 0 {
        0
    } else {
        digits_value(s.drop_last()) * 10 + digit_worth(s.last())
    }
}

/// Whether every character is a digit.
pub open spec fn all_digits(s: Seq<char>) -> bool {
    forall|i: int| 0 <= i < s.len() ==> is_digit(#[trigger] s[i])
}

/// Ten to the power of `n`.
pub open spec fn tens(n: nat) -> nat
    decreases n,
{
    if n == 0 {
        1
    } else {
        10 * tens((n - 1) as nat)
    }
}

/// The smaller of two numbers.
pub open spec fn least(a: int, b: int) -> int {
    if a <= b {
        a
    } else {
        b
    }
}

pub proof fn lemma_digit_run(s: Seq<char>, i: int)
    requires
        0 <= i <= s.len(),
    ensures
        i + digit_run(s, i) <= s.len(),
        all_digits(s.subrange(i, i + digit_run(s, i))),
    decreases s.len() - i,
{
    if i < s.len() && is_digit(s[i]) {
        lemma_digit_run(s, i + 1);
        let whole = s.subrange(i, i + digit_run(s, i));
        let rest = s.subrange(i + 1, i + 1 + digit_run(s, i + 1));
        assert forall|k: int| 0 <= k < whole.len() implies is_digit(#[trigger] whole[k]) by {
            if k > 0 {
                assert(whole[k] == rest[k - 1]);
            }
        }
    }
}

/// The position after the digits that stand in `v` from `i` on.
pub(crate) fn run_end(v: &Vec<char>, i: usize) -> (r: usize)
    requires
        i <= v@.len(),
    ensures
        r == i + digit_run(v@, i as int),
        r <= v@.len(),
{
    let mut j: usize = i;
    proof {
        lemma_digit_run(v@, i as int);
    }
    while j < v.len() && '0' <= v[j] && v[j] <= '9'
        invariant
            i <= j <= v@.len(),
            i + digit_run(v@, i as int) == j + digit_run(v@, j as int),
        decreases v@.len() - j,
    {
        j = j + 1;
    }
    j
}

/// The cap under which exponents are read.
pub const EXPONENT_CAP: u128 = 1_000_000_000_000_000_000_000_000_000_000;

proof fn lemma_value_grows(s: Seq<char>, n: int)
    requires
        0 <= n <= s.len(),
    ensures
        digits_value(s.take(n)) <= digits_value(s),
    decreases s.len() - n,
{
    if n < s.len() {
        lemma_value_grows(s.drop_last(), n);
        assert(s.drop_last().take(n) == s.take(n));
    } else {
        assert(s.take(n) == s);
    }
}

/// The value of the digits from `lo` up to `hi`, held at [`EXPONENT_CAP`].
pub(crate) fn capped_value(v: &Vec<char>, lo: usize, hi: usize) -> (r: u128)
    requires
        lo <= hi <= v@.len(),
        all_digits(v@.subrange(lo as int, hi as int)),
    ensures
        r == least(
            digits_value(v@.subrange(lo as int, hi as int)) as int,
            EXPONENT_CAP as int,
        ),
{
    let ghost all = v@.subrange(lo as int, hi as int);
    let mut acc: u128 = 0;
    for i in lo..hi
        invariant
            lo <= i <= hi <= v@.len(),
            all == v@.subrange(lo as int, hi as int),
            all_digits(all),
            acc == digits_value(all.take(i - lo)),
            acc < EXPONENT_CAP,
    {
        let ghost next = all.take(i + 1 - lo);
        proof {
            assert(next.drop_last() == all.take(i - lo));
            assert(next.last() == v@[i as int]);
            assert(is_digit(all[i - lo]));
            lemma_value_grows(all, i + 1 - lo);
        }
        let d: u32 = v[i] as u32 - '0' as u32;
        acc = acc * 10 + d as u128;
        if acc >= EXPONENT_CAP {
            return EXPONENT_CAP;
        }
    }
    assert(all.take(hi - lo) == all);
    acc
}

// ---------------------------------------------------------------------------
// Amounts
// ---------------------------------------------------------------------------

/// How many attos make one.
pub const ATTOS: i128 = 1_000_000_000_000_000_000;

/// The largest amount that is told apart, in attos.
pub const ATTO_CAP: i128 = 100_000_000_000_000_000_000_000_000_000_000_000_000;

/// A number a house reported.
#[derive(Debug, Clone, Copy, PartialEq, Eq, Structural)]
pub enum Amount {
    /// So many units of 10^-18.
    Attos(i128),
    /// One of the words for more than any number, or for less.
    Infinite { negative: bool },
    /// The word `nan`, which reads as a number and is none.
    NotANumber,
}

/// The value of the first `n` digits of `digits`, with zeros after them where
/// there are fewer, held at [`ATTO_CAP`].
pub open spec fn kept(digits: Seq<char>, n: int) -> int {
    let value = if n <= 0 {
        0
    } else if n <= digits.len() {
        digits_value(digits.take(n))
    } else {
        digits_value(digits) * tens((n - digits.len()) as nat)
    };
    least(value as int, ATTO_CAP as int)
}

/// The exponent written in `t` from position `d` on, when what stands there is
/// one: nothing at all, or `e`, a sign perhaps, and digits to the end.
pub open spec fn exponent_at(t: Seq<char>, d: int) -> Option<int> {
    if d == t.len() {
        Some(0)
    } else if t[d] == 'e' || t[d] == 'E' {
        let signed = d + 1 < t.len() && (t[d + 1] == '-' || t[d + 1] == '+');
        let e = if signed {
            d + 2
        } else {
            d + 1
        };
        let n = digit_run(t, e);
        if n > 0 && e + n == t.len() {
            let value = digits_value(t.subrange(e, e + n)) as int;
            if signed && t[d + 1] == '-' {
                Some(-value)
            } else {
                Some(value)
            }
        } else {
            None
        }
    } else {
        None
    }
}

/// The attos of a number written without a sign: digits, a point perhaps, more
/// digits, an exponent perhaps, and at least one digit beside the point.
pub open spec fn unsigned_attos(t: Seq<char>) -> Option<int> {
    let b = digit_run(t, 0) as int;
    let c = if b < t.len() && t[b] == '.' {
        b + 1
    } else {
        b
    };
    let d = c + digit_run(t, c);
    if b + (d - c) == 0 {
        None
    } else {
        match exponent_at(t, d) {
            Some(e) => Some(kept(t.take(b) + t.subrange(c, d), b + e + 18)),
            None => None,
        }
    }
}

/// The amount a text stands for, when it reads as a number.
pub open spec fn amount_in(s: Seq<char>) -> Option<Amount> {
    let negative = s.len() > 0 && s[0] == '-';
    let t = if s.len() > 0 && (s[0] == '-' || s[0] == '+') {
        s.skip(1)
    } else {
        s
    };
    if text::same_but_case(t, "nan"@) {
        Some(Amount::NotANumber)
    } else if text::same_but_case(t, "inf"@) || text::same_but_case(t, "infinity"@) {
        Some(Amount::Infinite { negative })
    } else {
        match unsigned_attos(t) {
            Some(m) => Some(
                Amount::Attos(
                    (if negative {
                        -m
                    } else {
                        m
                    }) as i128,
                ),
            ),
            None => None,
        }
    }
}

proof fn lemma_kept_step(digits: Seq<char>, n: int)
    requires
        0 <= n,
        all_digits(digits),
    ensures
        n < digits.len() ==> digits_value(digits.take(n + 1)) == digits_value(digits.take(n)) * 10
            + digit_worth(digits[n]),
        n >= digits.len() ==> digits_value(digits) * tens((n + 1 - digits.len()) as nat)
            == digits_value(digits) * tens((n - digits.len()) as nat) * 10,
{
    if n < digits.len() {
        assert(digits.take(n + 1).drop_last() == digits.take(n));
    } else {
        let v = digits_value(digits);
        let p = tens((n - digits.len()) as nat);
        assert(tens((n + 1 - digits.len()) as nat) == 10 * p);
        assert(v * (10 * p) == v * p * 10) by (nonlinear_arith);
    }
}

/// The value before it is held at the cap.
spec fn raw(digits: Seq<char>, n: int) -> int {
    if n <= 0 {
        0
    } else if n <= digits.len() {
        digits_value(digits.take(n)) as int
    } else {
        (digits_value(digits) * tens((n - digits.len()) as nat)) as int
    }
}

proof fn lemma_raw_step(digits: Seq<char>, n: int)
    requires
        0 <= n,
        all_digits(digits),
    ensures
        raw(digits, n) >= 0,
        raw(digits, n + 1) == raw(digits, n) * 10 + (if n < digits.len() {
            digit_worth(digits[n]) as int
        } else {
            0
        }),
{
    lemma_kept_step(digits, n);
    assert(digits.take(0) == Seq::<char>::empty());
    if n == digits.len() {
        assert(digits.take(n) == digits);
        assert(tens(0) == 1);
        assert(tens(1) == 10 * tens(0));
        if n == 0 {
            assert(digits_value(digits) == 0);
            assert(raw(digits, 1) == 0 * tens(1));
        }
    }
}

proof fn lemma_raw_grows(digits: Seq<char>, n: int, m: int)
    requires
        0 <= n <= m,
        all_digits(digits),
    ensures
        0 <= raw(digits, n) <= raw(digits, m),
    decreases m - n,
{
    lemma_raw_step(digits, n);
    if n < m {
        lemma_raw_grows(digits, n + 1, m);
    }
}

proof fn lemma_raw_zero(digits: Seq<char>, n: int, m: int)
    requires
        0 <= digits.len() <= n <= m,
        all_digits(digits),
        raw(digits, n) == 0,
    ensures
        raw(digits, m) == 0,
    decreases m - n,
{
    if n < m {
        lemma_raw_step(digits, n);
        lemma_raw_zero(digits, n + 1, m);
    }
}

/// [`kept`].
fn keep(digits: &Vec<char>, n: i128) -> (r: i128)
    requires
        all_digits(digits@),
    ensures
        r == kept(digits@, n as int),
        0 <= r <= ATTO_CAP,
{
    if n <= 0 {
        return 0;
    }
    let len: i128 = digits.len() as i128;
    let mut acc: i128 = 0;
    let mut i: i128 = 0;
    while i < n
        invariant
            len == digits@.len(),
            0 <= i <= n,
            n > 0,
            all_digits(digits@),
            acc == raw(digits@, i as int),
            0 <= acc < ATTO_CAP,
        decreases n - i,
    {
        proof {
            lemma_raw_step(digits@, i as int);
            lemma_raw_grows(digits@, i + 1, n as int);
        }
        if i >= len && acc == 0 {
            proof {
                lemma_raw_zero(digits@, i as int, n as int);
            }
            return 0;
        }
        if acc >= ATTO_CAP / 10 {
            return ATTO_CAP;
        }
        let total: usize = digits.len();
        if i < len {
            assert(i < total);
            let j: usize = i as usize;
            assert(is_digit(digits@[j as int]));
            let d: u32 = digits[j] as u32 - '0' as u32;
            acc = acc * 10 + d as i128;
        } else {
            acc = acc * 10;
        }
        i = i + 1;
    }
    acc
}

proof fn lemma_kept_past_cap(digits: Seq<char>, n: int, m: int)
    requires
        all_digits(digits),
        digits.len() + 40 <= n <= m,
    ensures
        kept(digits, n) == kept(digits, m),
{
    let z = digits.len() as int;
    lemma_raw_grows(digits, n, m);
    if raw(digits, z) == 0 {
        lemma_raw_zero(digits, z, n);
        lemma_raw_zero(digits, z, m);
    } else {
        lemma_raw_grows(digits, 0, z);
        lemma_raw_large(digits, 39);
        lemma_raw_grows(digits, z + 39, n);
    }
}

proof fn lemma_raw_large(digits: Seq<char>, k: nat)
    requires
        all_digits(digits),
        raw(digits, digits.len() as int) >= 1,
    ensures
        raw(digits, digits.len() as int + k as int) >= tens(k),
        k == 39 ==> tens(k) >= ATTO_CAP,
    decreases k,
{
    if k > 0 {
        lemma_raw_large(digits, (k - 1) as nat);
        lemma_raw_step(digits, digits.len() as int + k - 1);
    }
    if k == 39 {
        reveal_with_fuel(tens, 40);
    }
}

/// [`exponent_at`], held at [`EXPONENT_CAP`] on either side.
fn read_exponent(v: &Vec<char>, d: usize) -> (r: Option<i128>)
    requires
        d <= v@.len(),
    ensures
        match r {
            Some(e) => {
                &&& exponent_at(v@, d as int) is Some
                &&& -EXPONENT_CAP <= e <= EXPONENT_CAP
                &&& e == least(exponent_at(v@, d as int)->0, EXPONENT_CAP as int) || (e
                    == -EXPONENT_CAP && exponent_at(v@, d as int)->0 <= -EXPONENT_CAP)
                &&& exponent_at(v@, d as int)->0 < -EXPONENT_CAP ==> e == -EXPONENT_CAP
            },
            None => exponent_at(v@, d as int) is None,
        },
{
    let n = v.len();
    if d == n {
        return Some(0);
    }
    if v[d] != 'e' && v[d] != 'E' {
        return None;
    }
    let mut e: usize = d + 1;
    let mut negative = false;
    if e < n && (v[e] == '-' || v[e] == '+') {
        negative = v[e] == '-';
        e = e + 1;
    }
    let end = run_end(v, e);
    if end == e || end != n {
        return None;
    }
    proof {
        lemma_digit_run(v@, e as int);
    }
    let value = capped_value(v, e, end);
    let signed: i128 = value as i128;
    if negative {
        Some(-signed)
    } else {
        Some(signed)
    }
}

/// [`unsigned_attos`].
fn read_unsigned(v: &Vec<char>) -> (r: Option<i128>)
    ensures
        match r {
            Some(a) => unsigned_attos(v@) == Some(a as int) && 0 <= a <= ATTO_CAP,
            None => unsigned_attos(v@) is None,
        },
{
    let n = v.len();
    let b = run_end(v, 0);
    let c = if b < n && v[b] == '.' {
        b + 1
    } else {
        b
    };
    let d = run_end(v, c);
    if b == 0 && d == c {
        return None;
    }
    let e = match read_exponent(v, d) {
        Some(e) => e,
        None => {
            return None;
        },
    };
    let mut digits: Vec<char> = Vec::new();
    for i in 0..b
        invariant
            b <= v@.len(),
            digits@ == v@.take(i as int),
    {
        digits.push(v[i]);
        assert(v@.take(i + 1) == v@.take(i as int).push(v@[i as int]));
    }
    for i in c..d
        invariant
            b <= c <= i <= d <= v@.len(),
            digits@ == v@.take(b as int) + v@.subrange(c as int, i as int),
    {
        digits.push(v[i]);
        assert(v@.subrange(c as int, i + 1) == v@.subrange(c as int, i as int).push(v@[i as int]));
    }
    proof {
        lemma_digit_run(v@, 0);
        lemma_digit_run(v@, c as int);
        assert forall|i: int| 0 <= i < digits@.len() implies is_digit(#[trigger] digits@[i]) by {
            if i < b {
                assert(digits@[i] == v@.subrange(0, 0 + digit_run(v@, 0) as int)[i]);
            } else {
                assert(digits@[i] == v@.subrange(c as int, d as int)[i - b]);
            }
        }
        let whole = exponent_at(v@, d as int)->0;
        if whole > EXPONENT_CAP {
            lemma_kept_past_cap(digits@, b + e + 18, b + whole + 18);
        }
    }
    Some(keep(&digits, b as i128 + e + 18))
}

impl Amount {
    /// The amount a text stands for, when it reads as a number.
    pub fn read(s: &str) -> (r: Option<Amount>)
        ensures
            r == amount_in(s@),
    {
        let v = to_chars(s);
        let n = v.len();
        let negative = n > 0 && v[0] == '-';
        let from: usize = if n > 0 && (v[0] == '-' || v[0] == '+') {
            1
        } else {
            0
        };
        let t = from_chars(&v, from, n);
        assert(t@ == (if from == 1 {
            s@.skip(1)
        } else {
            s@
        }));
        if eq_ignore_case(&t, "nan") {
            return Some(Amount::NotANumber);
        }
        if eq_ignore_case(&t, "inf") || eq_ignore_case(&t, "infinity") {
            return Some(Amount::Infinite { negative });
        }
        let chars = to_chars(&t);
        let magnitude: i128 = match read_unsigned(&chars) {
            Some(a) => a,
            None => {
                return None;
            },
        };
        Some(
            Amount::Attos(
                if negative {
                    -magnitude
                } else {
                    magnitude
                },
            ),
        )
    }
}

// ---------------------------------------------------------------------------
// Writing amounts
// ---------------------------------------------------------------------------

/// A number below ten to the power of `k`, in exactly `k` digits.
pub open spec fn fixed(n: nat, k: nat) -> Seq<char>
    decreases k,
{
    if k == 0 {
        Seq::empty()
    } else {
        fixed(n / 10, (k - 1) as nat).push(text::digit(n % 10))
    }
}

/// The digits behind the point for `n` parts of ten to the power of `k`: none
/// but the first is a needless zero at the end.
pub open spec fn fraction(n: nat, k: nat) -> Seq<char>
    decreases k,
{
    if k > 1 && n % 10 == 0 {
        fraction(n / 10, (k - 1) as nat)
    } else {
        fixed(n, k)
    }
}

/// The magnitude of a number.
pub open spec fn magnitude(a: int) -> nat {
    (if a < 0 {
        -a
    } else {
        a
    }) as nat
}

/// An amount of attos in decimal, with a point and at least one digit on either
/// side of it.
pub open spec fn amount_text(a: int) -> Seq<char> {
    let m = magnitude(a);
    let whole = (m as int / ATTOS as int) as nat;
    let part = (m as int % ATTOS as int) as nat;
    let digits = text::decimal(whole) + "."@ + fraction(part, 18);
    if a < 0 {
        "-"@ + digits
    } else {
        digits
    }
}

pub(crate) fn big_number(n: u128) -> (r: String)
    ensures
        r@ == text::decimal(n as nat),
    decreases n,
{
    if n < 10 {
        number(n as u64)
    } else {
        let mut s = big_number(n / 10);
        s.push(digit_char((n % 10) as u64));
        s
    }
}

fn fixed_text(n: u128, k: u8) -> (r: String)
    ensures
        r@ == fixed(n as nat, k as nat),
    decreases k,
{
    if k == 0 {
        let s = String::new();
        assert(s@ =~= Seq::empty());
        s
    } else {
        let mut s = fixed_text(n / 10, k - 1);
        s.push(digit_char((n % 10) as u64));
        s
    }
}

fn fraction_text(n: u128, k: u8) -> (r: String)
    ensures
        r@ == fraction(n as nat, k as nat),
    decreases k,
{
    if k > 1 && n % 10 == 0 {
        fraction_text(n / 10, k - 1)
    } else {
        fixed_text(n, k)
    }
}

/// [`amount_text`].
pub(crate) fn write_attos(a: i128) -> (r: String)
    ensures
        r@ == amount_text(a as int),
{
    let m: u128 = if a < 0 {
        (-(a + 1)) as u128 + 1
    } else {
        a as u128
    };
    let unit: u128 = ATTOS as u128;
    let mut digits = big_number(m / unit);
    digits.append(".");
    let part = fraction_text(m % unit, 18);
    digits.append(&part);
    if a < 0 {
        let mut out = own("-");
        out.append(&digits);
        out
    } else {
        digits
    }
}

proof fn lemma_digit(n: nat)
    requires
        n < 10,
    ensures
        is_digit(text::digit(n)),
        digit_worth(text::digit(n)) == n,
{
}

proof fn lemma_decimal(n: nat)
    ensures
        all_digits(text::decimal(n)),
        text::decimal(n).len() > 0,
        digits_value(text::decimal(n)) == n,
    decreases n,
{
    let s = text::decimal(n);
    lemma_digit(n % 10);
    if n < 10 {
        assert(s.drop_last() =~= Seq::empty());
        assert(digits_value(s.drop_last()) == 0);
    } else {
        lemma_decimal(n / 10);
        assert(s.drop_last() =~= text::decimal(n / 10));
    }
}

proof fn lemma_fixed(n: nat, k: nat)
    requires
        n < tens(k),
    ensures
        all_digits(fixed(n, k)),
        fixed(n, k).len() == k,
        digits_value(fixed(n, k)) == n,
    decreases k,
{
    if k > 0 {
        let s = fixed(n, k);
        lemma_digit(n % 10);
        lemma_fixed(n / 10, (k - 1) as nat);
        assert(s.drop_last() =~= fixed(n / 10, (k - 1) as nat));
    }
}

/// A fraction keeps its worth when needless zeros are left off.
proof fn lemma_fraction(n: nat, k: nat)
    requires
        0 < k,
        n < tens(k),
    ensures
        all_digits(fraction(n, k)),
        0 < fraction(n, k).len() <= k,
        digits_value(fraction(n, k)) * tens((k - fraction(n, k).len()) as nat) == n,
    decreases k,
{
    if k > 1 && n % 10 == 0 {
        lemma_fraction(n / 10, (k - 1) as nat);
        let f = fraction(n, k);
        let v = digits_value(f) as int;
        let p = tens((k - 1 - f.len()) as nat) as int;
        assert(tens((k - f.len()) as nat) == 10 * p);
        assert(v * (10 * p) == 10 * (v * p)) by (nonlinear_arith);
    } else {
        lemma_fixed(n, k);
        assert(tens(0) == 1);
        assert(digits_value(fixed(n, k)) * 1 == n);
    }
}

proof fn lemma_value_of_both(a: Seq<char>, b: Seq<char>)
    ensures
        digits_value(a + b) == digits_value(a) * tens(b.len()) + digits_value(b),
    decreases b.len(),
{
    let both = a + b;
    if b.len() == 0 {
        assert(both =~= a);
        assert(tens(0) == 1);
        assert(digits_value(a) * 1 == digits_value(a));
    } else {
        let rest = b.drop_last();
        lemma_value_of_both(a, rest);
        assert(both.drop_last() =~= a + rest);
        assert(both.last() == b.last());
        let x = digits_value(a) as int;
        let p = tens(rest.len()) as int;
        assert(tens(b.len()) == 10 * p);
        assert((x * p) * 10 == x * (10 * p)) by (nonlinear_arith);
    }
}

pub proof fn lemma_run_of_digits(s: Seq<char>, i: int, j: int)
    requires
        0 <= i <= j <= s.len(),
        forall|k: int| i <= k < j ==> is_digit(#[trigger] s[k]),
        j == s.len() || !is_digit(s[j]),
    ensures
        digit_run(s, i) == j - i,
    decreases j - i,
{
    if i < j {
        lemma_run_of_digits(s, i + 1, j);
    }
}

proof fn lemma_tens_apart(a: nat, b: nat)
    ensures
        tens(a + b) == tens(a) * tens(b),
    decreases b,
{
    if b > 0 {
        lemma_tens_apart(a, (b - 1) as nat);
        let x = tens(a) as int;
        let y = tens((b - 1) as nat) as int;
        assert(tens(a + b) == 10 * tens((a + b - 1) as nat));
        assert(10 * (x * y) == x * (10 * y)) by (nonlinear_arith);
    } else {
        assert(tens(0) == 1);
        assert(tens(a) * 1 == tens(a));
    }
}

proof fn lemma_eighteen()
    ensures
        tens(18) == ATTOS,
{
    reveal_with_fuel(tens, 19);
}

/// What is written without a sign reads back.
proof fn lemma_unsigned_reads_back(m: nat)
    requires
        m <= ATTO_CAP,
    ensures
        unsigned_attos(amount_text(m as int)) == Some(m as int),
{
    let whole = (m as int / ATTOS as int) as nat;
    let part = (m as int % ATTOS as int) as nat;
    let w = text::decimal(whole);
    let f = fraction(part, 18);
    let t = amount_text(m as int);
    reveal_strlit(".");
    lemma_eighteen();
    lemma_decimal(whole);
    lemma_fraction(part, 18);
    let b = w.len() as int;
    assert(t =~= w + seq!['.'] + f);
    assert forall|k: int| 0 <= k < b implies is_digit(#[trigger] t[k]) by {
        assert(t[k] == w[k]);
    }
    assert(t[b] == '.');
    lemma_run_of_digits(t, 0, b);
    assert forall|k: int| b + 1 <= k < t.len() implies is_digit(#[trigger] t[k]) by {
        assert(t[k] == f[k - b - 1]);
    }
    lemma_run_of_digits(t, b + 1, t.len() as int);
    assert(exponent_at(t, t.len() as int) == Some(0int));
    let digits = t.take(b) + t.subrange(b + 1, t.len() as int);
    assert(digits =~= w + f);
    lemma_value_of_both(w, f);
    let k = f.len();
    let n = b + 18;
    let spare = (18 - k) as nat;
    lemma_tens_apart(k, spare);
    let p = tens(k) as int;
    let q = tens(spare) as int;
    let v = digits_value(f) as int;
    assert((whole * p + v) * q == whole * (p * q) + v * q) by (nonlinear_arith);
    assert(k + spare == 18);
    assert(p * q == ATTOS);
    assert(v * q == part);
    assert(whole * (p * q) == whole * ATTOS);
    assert(whole * ATTOS + part == m) by {
        vstd::arithmetic::div_mod::lemma_fundamental_div_mod(m as int, ATTOS as int);
        assert(ATTOS * whole == whole * ATTOS) by (nonlinear_arith);
    }
    assert(digits_value(digits) == whole * p + v);
    assert(digits_value(digits) * q == m);
    if n <= digits.len() {
        assert(spare == 0);
        assert(q == 1);
        assert(digits.take(n) =~= digits);
        assert(digits_value(digits) * 1 == digits_value(digits));
    }
}

/// What is written reads back as it was: nothing is lost between reading an
/// amount, keeping it and writing it.
pub proof fn law_an_amount_reads_back(a: i128)
    requires
        -ATTO_CAP <= a <= ATTO_CAP,
    ensures
        amount_in(amount_text(a as int)) == Some(Amount::Attos(a)),
{
    let m = magnitude(a as int);
    let s = amount_text(a as int);
    let t = amount_text(m as int);
    lemma_unsigned_reads_back(m);
    lemma_decimal((m as int / ATTOS as int) as nat);
    reveal_strlit("-");
    reveal_strlit(".");
    reveal_strlit("nan");
    reveal_strlit("inf");
    reveal_strlit("infinity");
    let w = text::decimal((m as int / ATTOS as int) as nat);
    assert(is_digit(w[0]));
    assert(t[0] == w[0]);
    assert(text::ascii_low(t[0]) == t[0]);
    assert(text::ascii_low("nan"@[0]) == 'n');
    assert(text::ascii_low("inf"@[0]) == 'i');
    assert(text::ascii_low("infinity"@[0]) == 'i');
    if a < 0 {
        assert(s == "-"@ + t);
        assert(s[0] == '-');
        assert(s.skip(1) =~= t);
    } else {
        assert(s == t);
    }
}

/// An exponent as it is written: none where there are no digits, otherwise its
/// letter, its sign and its digits.
pub open spec fn exponent_text(mark: char, turn: Seq<char>, ds: Seq<char>) -> Seq<char> {
    if ds.len() == 0 {
        Seq::empty()
    } else {
        seq![mark] + turn + ds
    }
}

/// A number without a sign as it is written: the digits before the point, the
/// point and those behind it where there is one, and the exponent.
pub open spec fn numeral(
    w: Seq<char>,
    f: Seq<char>,
    point: bool,
    mark: char,
    turn: Seq<char>,
    ds: Seq<char>,
) -> Seq<char> {
    w + (if point {
        seq!['.']
    } else {
        Seq::empty()
    }) + f + exponent_text(mark, turn, ds)
}

/// How far an exponent moves the point.
pub open spec fn shifted_by(turn: Seq<char>, ds: Seq<char>) -> int {
    if turn == seq!['-'] {
        -(text::said_by(ds) as int)
    } else {
        text::said_by(ds) as int
    }
}

/// How an exponent may be marked and signed: by either letter, and with a plus, a
/// minus or neither.
pub open spec fn is_exponent(mark: char, turn: Seq<char>) -> bool {
    (mark == 'e' || mark == 'E') && (turn.len() == 0 || turn == seq!['+'] || turn == seq!['-'])
}

/// A row of digits is worth the number it says, and a run of them ends where the
/// first other character stands.
pub proof fn law_digits_say_a_number(s: Seq<char>, i: int, j: int)
    requires
        0 <= i <= j <= s.len(),
        forall|k: int| i <= k < j ==> '0' <= #[trigger] s[k] <= '9',
        j == s.len() || !('0' <= s[j] <= '9'),
    ensures
        digit_run(s, i) == j - i,
        digits_value(s.subrange(i, j)) == text::said_by(s.subrange(i, j)),
{
    lemma_run_of_digits(s, i, j);
    lemma_said(s.subrange(i, j));
}

pub proof fn lemma_said(s: Seq<char>)
    requires
        all_digits(s),
    ensures
        digits_value(s) == text::said_by(s),
    decreases s.len(),
{
    if s.len() > 0 {
        assert(is_digit(s[s.len() - 1]));
        let t = s.drop_last();
        assert forall|i: int| 0 <= i < t.len() implies is_digit(#[trigger] t[i]) by {
            assert(t[i] == s[i]);
        }
        lemma_said(t);
    }
}

proof fn lemma_numeral(
    w: Seq<char>,
    f: Seq<char>,
    point: bool,
    mark: char,
    turn: Seq<char>,
    ds: Seq<char>,
)
    requires
        all_digits(w),
        all_digits(f),
        all_digits(ds),
        is_exponent(mark, turn),
        w.len() + f.len() > 0,
        !point ==> f.len() == 0,
    ensures
        unsigned_attos(numeral(w, f, point, mark, turn, ds)) == Some(
            kept(w + f, w.len() + shifted_by(turn, ds) + 18),
        ),
{
    let t = numeral(w, f, point, mark, turn, ds);
    let tail = exponent_text(mark, turn, ds);
    let b = w.len() as int;
    let c = b + (if point {
        1int
    } else {
        0int
    });
    let d = c + f.len();
    assert forall|k: int| 0 <= k < b implies is_digit(#[trigger] t[k]) by {
        assert(t[k] == w[k]);
    }
    if point {
        assert(t[b] == '.');
    } else if ds.len() > 0 {
        assert(t[b] == tail[0]);
    }
    lemma_run_of_digits(t, 0, b);
    assert forall|k: int| c <= k < d implies is_digit(#[trigger] t[k]) by {
        assert(t[k] == f[k - c]);
    }
    if ds.len() > 0 {
        assert(t[d] == tail[0]);
        assert(t[d + 1] == tail[1]);
        assert(is_digit(ds[0]));
    }
    lemma_run_of_digits(t, c, d);
    assert(t.take(b) == w);
    assert(t.subrange(c, d) == f);
    if ds.len() > 0 {
        let e = d + 1 + turn.len();
        assert forall|k: int| e <= k < t.len() implies is_digit(#[trigger] t[k]) by {
            assert(t[k] == ds[k - e]);
        }
        lemma_run_of_digits(t, e, t.len() as int);
        assert(t.subrange(e, t.len() as int) == ds);
        lemma_said(ds);
    }
}

proof fn lemma_worth(
    w: Seq<char>,
    f: Seq<char>,
    point: bool,
    mark: char,
    turn: Seq<char>,
    ds: Seq<char>,
    places: nat,
)
    requires
        all_digits(w),
        all_digits(f),
        all_digits(ds),
        is_exponent(mark, turn),
        w.len() + f.len() > 0,
        !point ==> f.len() == 0,
        places == 18 + shifted_by(turn, ds) - f.len(),
        text::said_by(w + f) * tens(places) <= ATTO_CAP,
    ensures
        unsigned_attos(numeral(w, f, point, mark, turn, ds)) == Some(
            (text::said_by(w + f) * tens(places)) as int,
        ),
{
    let digits = w + f;
    lemma_numeral(w, f, point, mark, turn, ds);
    assert forall|i: int| 0 <= i < digits.len() implies is_digit(#[trigger] digits[i]) by {
        if i < w.len() {
            assert(digits[i] == w[i]);
        } else {
            assert(digits[i] == f[i - w.len()]);
        }
    }
    lemma_said(digits);
    let n = w.len() + shifted_by(turn, ds) + 18;
    assert(n - digits.len() == places);
    if places == 0 {
        assert(digits.take(n) == digits);
        assert(tens(0) == 1);
        let v = digits_value(digits) as int;
        assert(v * 1 == v) by (nonlinear_arith);
    }
}

proof fn lemma_first_is_no_letter(t: Seq<char>)
    requires
        t.len() > 0,
        is_digit(t[0]) || t[0] == '.',
    ensures
        !text::same_but_case(t, "nan"@),
        !text::same_but_case(t, "inf"@),
        !text::same_but_case(t, "infinity"@),
{
    reveal_strlit("nan");
    reveal_strlit("inf");
    reveal_strlit("infinity");
    assert(text::ascii_low("nan"@[0]) == 'n');
    assert(text::ascii_low("inf"@[0]) == 'i');
    assert(text::ascii_low("infinity"@[0]) == 'i');
    assert(text::ascii_low(t[0]) == t[0]);
}

/// A number is worth what it says: its digits as one number, moved by as many
/// places as stand behind the point and by the exponent, in units of the
/// eighteenth place, up to the bound on what is kept. A minus makes it negative
/// and a plus changes nothing.
pub proof fn law_a_numeral_is_worth_what_it_says(
    w: Seq<char>,
    f: Seq<char>,
    point: bool,
    mark: char,
    turn: Seq<char>,
    ds: Seq<char>,
    places: nat,
)
    requires
        all_digits(w),
        all_digits(f),
        all_digits(ds),
        is_exponent(mark, turn),
        w.len() + f.len() > 0,
        !point ==> f.len() == 0,
        places == 18 + shifted_by(turn, ds) - f.len(),
        text::said_by(w + f) * tens(places) <= ATTO_CAP,
    ensures
        ({
            let t = numeral(w, f, point, mark, turn, ds);
            let worth = (text::said_by(w + f) * tens(places)) as i128;
            &&& amount_in(t) == Some(Amount::Attos(worth))
            &&& amount_in(seq!['+'] + t) == Some(Amount::Attos(worth))
            &&& amount_in(seq!['-'] + t) == Some(Amount::Attos((-worth) as i128))
        }),
{
    let t = numeral(w, f, point, mark, turn, ds);
    lemma_worth(w, f, point, mark, turn, ds, places);
    if w.len() > 0 {
        assert(t[0] == w[0]);
    } else {
        assert(t[0] == '.');
    }
    lemma_first_is_no_letter(t);
    assert((seq!['+'] + t).skip(1) == t);
    assert((seq!['-'] + t).skip(1) == t);
}

/// What is no number is told so, and what is beyond every number too, in any
/// case and with or without a sign.
pub proof fn law_the_words_for_no_number(t: Seq<char>)
    requires
        text::same_but_case(t, "nan"@) || text::same_but_case(t, "inf"@) || text::same_but_case(
            t,
            "infinity"@,
        ),
    ensures
        text::same_but_case(t, "nan"@) ==> amount_in(t) == Some(Amount::NotANumber) && amount_in(
            seq!['-'] + t,
        ) == Some(Amount::NotANumber),
        !text::same_but_case(t, "nan"@) ==> amount_in(t) == Some(
            Amount::Infinite { negative: false },
        ) && amount_in(seq!['-'] + t) == Some(Amount::Infinite { negative: true }) && amount_in(
            seq!['+'] + t,
        ) == Some(Amount::Infinite { negative: false }),
{
    reveal_strlit("nan");
    reveal_strlit("inf");
    reveal_strlit("infinity");
    assert(text::ascii_low("nan"@[0]) == 'n');
    assert(text::ascii_low("inf"@[0]) == 'i');
    assert(text::ascii_low("infinity"@[0]) == 'i');
    assert(text::ascii_low(t[0]) == 'n' || text::ascii_low(t[0]) == 'i');
    assert((seq!['+'] + t).skip(1) == t);
    assert((seq!['-'] + t).skip(1) == t);
}

/// What is worth more than can be kept is kept as the most that can, and what is
/// written past the eighteenth place is dropped.
pub proof fn law_what_cannot_be_kept(w: Seq<char>, f: Seq<char>, point: bool, places: nat)
    requires
        all_digits(w),
        all_digits(f),
        w.len() + f.len() > 0,
        !point ==> f.len() == 0,
    ensures
        ({
            let t = numeral(w, f, point, 'e', Seq::empty(), Seq::empty());
            let kept_digits = (w + f).take(w.len() as int + 18);
            &&& f.len() <= 18 && places == 18 - f.len() && text::said_by(w + f) * tens(places)
                > ATTO_CAP ==> amount_in(t) == Some(Amount::Attos(ATTO_CAP))
            &&& f.len() > 18 && text::said_by(kept_digits) <= ATTO_CAP ==> amount_in(t) == Some(
                Amount::Attos(text::said_by(kept_digits) as i128),
            )
        }),
{
    let t = numeral(w, f, point, 'e', Seq::empty(), Seq::empty());
    let digits = w + f;
    lemma_numeral(w, f, point, 'e', Seq::empty(), Seq::empty());
    assert(text::said_by(Seq::empty()) == 0);
    assert forall|i: int| 0 <= i < digits.len() implies is_digit(#[trigger] digits[i]) by {
        if i < w.len() {
            assert(digits[i] == w[i]);
        } else {
            assert(digits[i] == f[i - w.len()]);
        }
    }
    lemma_said(digits);
    let n = w.len() + 18;
    if w.len() > 0 {
        assert(t[0] == w[0]);
    } else {
        assert(t[0] == '.');
    }
    lemma_first_is_no_letter(t);
    if f.len() > 18 {
        let some = digits.take(n as int);
        assert forall|i: int| 0 <= i < some.len() implies is_digit(#[trigger] some[i]) by {
            assert(some[i] == digits[i]);
        }
        lemma_said(some);
    } else if places == 18 - f.len() && places == 0 {
        assert(digits.take(n as int) == digits);
        assert(tens(0) == 1);
        let v = digits_value(digits) as int;
        assert(v * 1 == v) by (nonlinear_arith);
    }
}

/// An amount is written as a whole number, a point, and at least one digit behind
/// it, behind a minus where it is below nought, with no noughts at the end but a
/// single one.
pub proof fn law_an_amount_is_written_short(a: int)
    requires
        0 <= a,
    ensures
        ({
            let whole = (a / (ATTOS as int)) as nat;
            let part = (a % (ATTOS as int)) as nat;
            let f = fraction(part, 18);
            &&& amount_text(a) == text::decimal(whole) + seq!['.'] + f
            &&& a > 0 ==> amount_text(-a) == seq!['-'] + amount_text(a)
            &&& 1 <= f.len() <= 18
            &&& f.len() > 1 ==> f.last() != '0'
        }),
{
    reveal_strlit(".");
    reveal_strlit("-");
    assert("."@ == seq!['.']);
    assert("-"@ == seq!['-']);
    lemma_eighteen();
    let part = (a % (ATTOS as int)) as nat;
    lemma_fraction(part, 18);
    lemma_no_trailing(part, 18);
}

proof fn lemma_no_trailing(n: nat, k: nat)
    requires
        k > 0,
    ensures
        fraction(n, k).len() > 1 ==> fraction(n, k).last() != '0',
    decreases k,
{
    if k > 1 && n % 10 == 0 {
        lemma_no_trailing(n / 10, (k - 1) as nat);
    } else {
        lemma_fixed_len(n, k);
    }
}

proof fn lemma_fixed_len(n: nat, k: nat)
    ensures
        fixed(n, k).len() == k,
        k > 0 ==> fixed(n, k).last() == text::digit(n % 10),
    decreases k,
{
    if k > 0 {
        lemma_fixed_len(n / 10, (k - 1) as nat);
    }
}

/// Only a numeral says an amount: where a text without a sign says one, it is
/// digits, with a point among them or not, and an exponent behind them or not,
/// and nothing else.
pub proof fn law_only_a_numeral_says_an_amount(t: Seq<char>)
    requires
        amount_in(t) is Some,
        amount_in(t)->0 is Attos,
        t.len() > 0,
        t[0] != '-' && t[0] != '+',
    ensures
        exists|w: Seq<char>, f: Seq<char>, point: bool, mark: char, turn: Seq<char>, ds: Seq<char>|
            {
                &&& t == #[trigger] numeral(w, f, point, mark, turn, ds)
                &&& all_digits(w) && all_digits(f) && all_digits(ds)
                &&& is_exponent(mark, turn)
                &&& w.len() + f.len() > 0
                &&& !point ==> f.len() == 0
            },
{
    let b = digit_run(t, 0) as int;
    lemma_digit_run(t, 0);
    lemma_run_ends(t, 0);
    let point = b < t.len() && t[b] == '.';
    let c = if point {
        b + 1
    } else {
        b
    };
    lemma_digit_run(t, c);
    let d = c + digit_run(t, c);
    let w = t.take(b);
    let f = t.subrange(c, d);
    assert(t.subrange(0, b) == w);
    if d == t.len() {
        let none = Seq::<char>::empty();
        assert(t == numeral(w, f, point, 'e', none, none));
    } else {
        let signed = d + 1 < t.len() && (t[d + 1] == '-' || t[d + 1] == '+');
        let e = if signed {
            d + 2
        } else {
            d + 1
        };
        let turn = if signed {
            seq![t[d + 1]]
        } else {
            Seq::empty()
        };
        let n = digit_run(t, e) as int;
        lemma_digit_run(t, e);
        let ds = t.subrange(e, e + n);
        assert(t == numeral(w, f, point, t[d], turn, ds));
    }
}

proof fn lemma_run_ends(s: Seq<char>, i: int)
    requires
        0 <= i <= s.len(),
    ensures
        digit_run(s, i + digit_run(s, i)) == 0,
    decreases s.len() - i,
{
    if i < s.len() && is_digit(s[i]) {
        lemma_run_ends(s, i + 1);
    }
}

} // verus!
