//! Reading the seconds that `ffprobe` reports, in every text form that std's
//! `f64` parsing accepts, as whole microseconds.

use vstd::prelude::*;
use crate::text::{
    all_digit_chars, lemma_all_digits_prefix, all_digits, chars_of, digit_value, digits_upto, digits_value, eq_ignore_ascii_case,
    equals_ignore_ascii_case, first_index_of, is_digit, lemma_digits_value_prefix, lemma_first_index_of, pow10,
    string_from, ascii_lower, decimal, fixed_digits, lemma_decimal, lemma_fixed_digits,
    lemma_trim_trailing_zeros, lemma_zeros, seconds_text, trim_trailing_zeros,
};

verus! {

/// The number that a text of seconds writes, as std's `f64` parsing reads
/// it, before it is rounded to an `f64`.
#[derive(Debug, Clone, Copy, PartialEq, Eq, Structural)]
pub enum SecondsValue {
    /// `significand * 10^exponent` seconds, negative when `negative`. The
    /// significand holds the number's leading digits, as many as a `u128`
    /// holds (the others, from the fortieth on, are cut off), and the
    /// exponent is kept within `±2^90`, beyond which every `f64` reading is
    /// zero or infinite.
    Finite { negative: bool, significand: u128, exponent: i128 },
    /// `inf` or `infinity`, in any case.
    Infinite { negative: bool },
    /// `nan`, in any case.
    NotANumber,
}

/// The largest exponent that a [`SecondsValue::Finite`] keeps.
pub const EXPONENT_LIMIT: i128 = 0x400_0000_0000_0000_0000_0000;

/// The sign of a text and the text after it: an optional `+` or `-`.
pub open spec fn sign_and_body(s: Seq<char>) -> (bool, Seq<char>) {
    if s.len() > 0 && (s[0] == '+' || s[0] == '-') {
        (s[0] == '-', s.drop_first())
    } else {
        (false, s)
    }
}

pub open spec fn is_exponent_mark(c: char) -> bool {
    c == 'e' || c == 'E'
}

/// Index of the first `e` or `E` in `s`, or `s.len()` when there is none.
pub open spec fn first_exponent_mark(s: Seq<char>) -> int
    decreases s.len(),
{
    if s.len() == 0 {
        0
    } else if is_exponent_mark(s[0]) {
        0
    } else {
        1 + first_exponent_mark(s.drop_first())
    }
}

/// `inf` or `infinity`, in any ASCII case.
pub open spec fn infinity_word(b: Seq<char>) -> bool {
    eq_ignore_ascii_case(b, "inf"@) || eq_ignore_ascii_case(b, "infinity"@)
}

/// `nan`, in any ASCII case.
pub open spec fn nan_word(b: Seq<char>) -> bool {
    eq_ignore_ascii_case(b, "nan"@)
}

/// The digits before the point of a mantissa.
pub open spec fn mantissa_whole(m: Seq<char>) -> Seq<char> {
    m.take(first_index_of(m, '.'))
}

/// The digits after the point of a mantissa (none without a point).
pub open spec fn mantissa_frac(m: Seq<char>) -> Seq<char> {
    let d = first_index_of(m, '.');
    if d < m.len() {
        m.skip(d + 1)
    } else {
        seq![]
    }
}

/// Digits, an optional point and digits, at least one digit in all.
pub open spec fn mantissa_reads(m: Seq<char>) -> bool {
    all_digits(mantissa_whole(m)) && all_digits(mantissa_frac(m)) && mantissa_whole(m).len()
        + mantissa_frac(m).len() > 0
}

/// The value of an exponent's text: an optional sign, then at least one
/// digit.
pub open spec fn exponent_value(x: Seq<char>) -> Option<int> {
    let (neg, digits) = sign_and_body(x);
    if digits.len() > 0 && all_digits(digits) {
        Some(
            if neg {
                -(digits_value(digits) as int)
            } else {
                digits_value(digits) as int
            },
        )
    } else {
        None
    }
}

/// `d * 10^e`, rounded down.
pub open spec fn scaled(d: nat, e: int) -> nat {
    if e >= 0 {
        d * pow10(e as nat)
    } else {
        d / pow10((-e) as nat)
    }
}

/// The leading digits of `d` that a `u128` holds, and how many digits were
/// cut off behind them (counted from `cut`).
pub open spec fn leading_part(d: nat, cut: nat) -> (nat, nat)
    decreases d,
{
    if d <= u128::MAX {
        (d, cut)
    } else {
        leading_part(d / 10, cut + 1)
    }
}

/// `e`, kept within `±EXPONENT_LIMIT`.
pub open spec fn kept_exponent(e: int) -> int {
    if e > EXPONENT_LIMIT {
        EXPONENT_LIMIT as int
    } else if e < -EXPONENT_LIMIT {
        -EXPONENT_LIMIT
    } else {
        e
    }
}

/// What the text `s` of seconds holds, for every text that std's `f64`
/// parsing accepts: an optional sign, then `inf`, `infinity` or `nan` in any
/// case, or a mantissa (digits with an optional point) with an optional
/// exponent (`e` or `E`, an optional sign, digits). `None` for any other
/// text.
pub open spec fn seconds_reading(s: Seq<char>) -> Option<SecondsValue> {
    let (neg, b) = sign_and_body(s);
    if infinity_word(b) {
        Some(SecondsValue::Infinite { negative: neg })
    } else if nan_word(b) {
        Some(SecondsValue::NotANumber)
    } else {
        let x = first_exponent_mark(b);
        let m = b.take(x);
        let exp: Option<int> = if x < b.len() {
            exponent_value(b.skip(x + 1))
        } else {
            Some(0)
        };
        if !mantissa_reads(m) || exp is None {
            None
        } else {
            let frac = mantissa_frac(m);
            let (sig, cut) = leading_part(digits_value(mantissa_whole(m) + frac), 0);
            Some(
                SecondsValue::Finite {
                    negative: neg,
                    significand: sig as u128,
                    exponent: kept_exponent(exp.unwrap() - frac.len() + cut) as i128,
                },
            )
        }
    }
}

/// The whole microseconds (rounded down) of a reading, when it is zero or a
/// positive finite number of at most `u64::MAX` microseconds.
pub open spec fn value_micros(v: SecondsValue) -> Option<u64> {
    match v {
        SecondsValue::Finite { negative, significand, exponent } => {
            if significand == 0 {
                Some(0)
            } else if negative {
                None
            } else if scaled(significand as nat, exponent + 6) <= u64::MAX {
                Some(scaled(significand as nat, exponent + 6) as u64)
            } else {
                None
            }
        },
        _ => None,
    }
}

pub(crate) proof fn lemma_pow10_positive(k: nat)
    ensures
        pow10(k) >= 1,
    decreases k,
{
    if k > 0 {
        lemma_pow10_positive((k - 1) as nat);
    }
}

pub(crate) proof fn lemma_pow10_add(i: nat, j: nat)
    ensures
        pow10(i + j) == pow10(i) * pow10(j),
    decreases j,
{
    if j > 0 {
        let jm = (j - 1) as nat;
        lemma_pow10_add(i, jm);
        assert(pow10(i + j) == 10 * pow10(i + jm));
        assert(pow10(j) == 10 * pow10(jm));
        let pi = pow10(i);
        let pj = pow10(jm);
        assert(pi * (10 * pj) == 10 * (pi * pj)) by (nonlinear_arith);
        assert(pow10(i) * pow10(j) == pi * (10 * pj));
    } else {
        assert(pow10(j) == 1);
        assert(i + j == i);
        assert(pow10(i) * 1 == pow10(i));
    }
}

pub(crate) proof fn lemma_pow10_mono(i: nat, j: nat)
    requires
        i <= j,
    ensures
        pow10(i) <= pow10(j),
{
    lemma_pow10_add(i, (j - i) as nat);
    lemma_pow10_positive((j - i) as nat);
    lemma_pow10_positive(i);
    assert(pow10(i) <= pow10(i) * pow10((j - i) as nat)) by (nonlinear_arith)
        requires
            pow10((j - i) as nat) >= 1,
            pow10(i) >= 1,
    ;
}

proof fn lemma_pow10_20()
    ensures
        pow10(20) > u64::MAX,
{
    reveal_with_fuel(pow10, 21);
}

/// The value of digits written one after the other.
pub(crate) proof fn lemma_digits_concat(a: Seq<char>, b: Seq<char>)
    ensures
        digits_value(a + b) == digits_value(a) * pow10(b.len()) + digits_value(b),
    decreases b.len(),
{
    if b.len() == 0 {
        assert(a + b =~= a);
        assert(pow10(0) == 1);
        assert(digits_value(b) == 0);
        assert(digits_value(a) * 1 == digits_value(a));
    } else {
        let b1 = b.drop_last();
        lemma_digits_concat(a, b1);
        assert((a + b).drop_last() =~= a + b1);
        assert((a + b).last() == b.last());
        let va = digits_value(a);
        let p = pow10(b1.len());
        let v1 = digits_value(b1);
        let dl = digit_value(b.last());
        assert(digits_value(a + b) == digits_value(a + b1) * 10 + dl);
        assert(digits_value(b) == v1 * 10 + dl);
        assert(pow10(b.len()) == 10 * p);
        assert((va * p + v1) * 10 + dl == va * (10 * p) + (v1 * 10 + dl)) by (nonlinear_arith);
        assert(digits_value(a) * pow10(b.len()) == va * (10 * p));
    }
}

pub(crate) proof fn lemma_digits_bound(s: Seq<char>)
    requires
        all_digits(s),
    ensures
        digits_value(s) < pow10(s.len()),
    decreases s.len(),
{
    if s.len() > 0 {
        let s1 = s.drop_last();
        assert(all_digits(s1)) by {
            assert forall|i: int| 0 <= i < s1.len() implies is_digit(#[trigger] s1[i]) by {
                assert(s1[i] == s[i]);
            }
        }
        lemma_digits_bound(s1);
        assert(is_digit(s[s.len() - 1]));
        let v1 = digits_value(s1);
        let p = pow10(s1.len());
        let dv = digit_value(s.last());
        assert(dv <= 9);
        assert(v1 * 10 + dv < 10 * p) by (nonlinear_arith)
            requires
                v1 < p,
                dv <= 9,
        ;
    }
}

proof fn lemma_first_exponent_mark(s: Seq<char>, i: int)
    requires
        0 <= i <= s.len(),
        forall|j: int| 0 <= j < i ==> !is_exponent_mark(s[j]),
        i == s.len() || is_exponent_mark(s[i]),
    ensures
        first_exponent_mark(s) == i,
    decreases i,
{
    if i > 0 {
        let t = s.drop_first();
        assert forall|j: int| 0 <= j < i - 1 implies !is_exponent_mark(t[j]) by {
            assert(t[j] == s[j + 1]);
        }
        lemma_first_exponent_mark(t, i - 1);
    }
}

/// The digits `v[from..to]` as a number, or `None` when it passes `2^100`.
fn exponent_digits(v: &Vec<char>, from: usize, to: usize) -> (r: Option<u128>)
    requires
        from <= to <= v@.len(),
        all_digits(v@.subrange(from as int, to as int)),
    ensures
        match r {
            Some(x) => x == digits_value(v@.subrange(from as int, to as int)) && x
                <= 0x10_0000_0000_0000_0000_0000_0000,
            None => digits_value(v@.subrange(from as int, to as int)) > 0x10_0000_0000_0000_0000_0000_0000,
        },
{
    let ghost w = v@.subrange(from as int, to as int);
    let cap: u128 = 0x10_0000_0000_0000_0000_0000_0000;
    let mut acc: u128 = 0;
    let mut i: usize = from;
    while i < to
        invariant
            from <= i <= to <= v@.len(),
            w == v@.subrange(from as int, to as int),
            all_digits(w),
            cap == 0x10_0000_0000_0000_0000_0000_0000,
            acc == digits_value(w.take(i - from)),
            acc <= cap,
        decreases to - i,
    {
        let c = v[i];
        assert(w[i - from] == c);
        assert(is_digit(w[i - from]));
        let d = (c as u32 - '0' as u32) as u128;
        let ghost next = w.take(i - from + 1);
        assert(next.drop_last() =~= w.take(i - from));
        assert(next.last() == c);
        if acc > (cap - d) / 10 {
            assert(digits_value(next) > cap) by (nonlinear_arith)
                requires
                    acc > (cap - d) / 10,
                    digits_value(next) == acc * 10 + d,
                    d <= 9,
            ;
            proof {
                lemma_digits_value_prefix(w, i - from + 1);
            }
            return None;
        }
        assert(acc * 10 + d <= cap) by (nonlinear_arith)
            requires
                acc <= (cap - d) / 10,
                d <= 9,
        ;
        acc = acc * 10 + d;
        i = i + 1;
    }
    assert(w.take(to - from) =~= w);
    Some(acc)
}

/// Cutting the last `k` digits off divides by `10^k`, rounding down.
proof fn lemma_digits_div(s: Seq<char>, k: int)
    requires
        all_digits(s),
        0 <= k <= s.len(),
    ensures
        digits_value(s) / pow10(k as nat) == digits_value(s.take(s.len() - k)),
{
    let a = s.take(s.len() - k);
    let b = s.skip(s.len() - k);
    assert(a + b =~= s);
    assert(all_digits(b)) by {
        assert forall|i: int| 0 <= i < b.len() implies is_digit(#[trigger] b[i]) by {
            assert(b[i] == s[i + s.len() - k]);
        }
    }
    lemma_digits_concat(a, b);
    lemma_digits_bound(b);
    let p = pow10(k as nat);
    let va = digits_value(a);
    let vb = digits_value(b);
    assert((va * p + vb) / p == va) by (nonlinear_arith)
        requires
            0 <= vb < p,
            va >= 0,
    ;
}

/// `q * 10^e`, when a `u64` holds it.
fn grow(q: u64, e: u128) -> (r: Option<u64>)
    requires
        q >= 1,
    ensures
        r == (if q * pow10(e as nat) <= u64::MAX {
            Some((q * pow10(e as nat)) as u64)
        } else {
            None::<u64>
        }),
{
    let mut acc: u64 = q;
    let mut k: u128 = 0;
    assert(pow10(0) == 1);
    assert(q * pow10(0) == q);
    while k < e
        invariant
            k <= e,
            acc == q * pow10(k as nat),
            q >= 1,
        decreases e - k,
    {
        if acc > u64::MAX / 10 {
            proof {
                lemma_pow10_mono((k + 1) as nat, e as nat);
                let p = pow10((k + 1) as nat);
                let pe = pow10(e as nat);
                assert(q * p == acc * 10) by (nonlinear_arith)
                    requires
                        acc == q * pow10(k as nat),
                        p == 10 * pow10(k as nat),
                ;
                assert(q * pe >= q * p) by (nonlinear_arith)
                    requires
                        pe >= p,
                        q >= 1,
                ;
            }
            return None;
        }
        proof {
            assert(q * pow10((k + 1) as nat) == acc * 10) by (nonlinear_arith)
                requires
                    acc == q * pow10(k as nat),
                    pow10((k + 1) as nat) == 10 * pow10(k as nat),
            ;
        }
        acc = acc * 10;
        k = k + 1;
    }
    Some(acc)
}

/// `10^k` for `k <= 38`.
fn small_pow10(k: u32) -> (p: u128)
    requires
        k <= 38,
    ensures
        p == pow10(k as nat),
        p >= 1,
{
    proof {
        lemma_pow10_positive(k as nat);
        reveal_with_fuel(pow10, 39);
        lemma_pow10_mono(k as nat, 38);
    }
    let mut p: u128 = 1;
    let mut i: u32 = 0;
    while i < k
        invariant
            i <= k <= 38,
            p == pow10(i as nat),
            pow10(k as nat) <= pow10(38),
            pow10(38) == 100_000_000_000_000_000_000_000_000_000_000_000_000,
        decreases k - i,
    {
        proof {
            lemma_pow10_mono((i + 1) as nat, k as nat);
        }
        p = p * 10;
        i = i + 1;
    }
    p
}

proof fn lemma_pow10_39()
    ensures
        pow10(39) > u128::MAX,
{
    reveal_with_fuel(pow10, 40);
}

/// The whole microseconds of a reading (see [`value_micros`]).
pub fn micros_of_value(v: SecondsValue) -> (r: Option<u64>)
    ensures
        r == value_micros(v),
{
    match v {
        SecondsValue::Finite { negative, significand, exponent } => {
            if significand == 0 {
                return Some(0);
            }
            if negative {
                return None;
            }
            if exponent > 20 {
                proof {
                    let e = (exponent + 6) as nat;
                    lemma_pow10_mono(20, e);
                    lemma_pow10_20();
                    let p = pow10(e);
                    let q = significand as nat;
                    assert(q * p >= p) by (nonlinear_arith)
                        requires
                            q >= 1,
                            p >= 0,
                    ;
                }
                return None;
            }
            let e: i128 = exponent + 6;
            if e >= 0 {
                if significand > u64::MAX as u128 {
                    proof {
                        lemma_pow10_positive(e as nat);
                        let p = pow10(e as nat);
                        let q = significand as nat;
                        assert(q * p >= q) by (nonlinear_arith)
                            requires
                                p >= 1,
                                q >= 0,
                        ;
                    }
                    return None;
                }
                grow(significand as u64, e as u128)
            } else if e < -38 {
                proof {
                    lemma_pow10_mono(39, (-e) as nat);
                    lemma_pow10_39();
                    let p = pow10((-e) as nat);
                    let q = significand as nat;
                    assert(q / p == 0) by (nonlinear_arith)
                        requires
                            q < p,
                    ;
                }
                Some(0)
            } else {
                let p = small_pow10((-e) as u32);
                let q = significand / p;
                if q > u64::MAX as u128 {
                    None
                } else {
                    Some(q as u64)
                }
            }
        },
        _ => None,
    }
}

/// The leading digits of the number that the digits `md` write, as many as
/// a `u128` holds, and how many digits are cut off behind them.
fn leading_digits(md: &Vec<char>) -> (r: (u128, usize))
    requires
        all_digits(md@),
    ensures
        (r.0 as nat, r.1 as nat) == leading_part(digits_value(md@), 0),
{
    let len = md.len();
    let mut k: usize = 0;
    assert(md@.take(len as int) =~= md@);
    loop
        invariant
            k <= len == md@.len(),
            all_digits(md@),
            leading_part(digits_value(md@), 0) == leading_part(
                digits_value(md@.take(len - k)),
                k as nat,
            ),
        decreases len - k,
    {
        assert(md@.subrange(0, (len - k) as int) =~= md@.take(len - k));
        match digits_upto(md, 0, len - k, u128::MAX) {
            Some(q) => {
                return (q, k);
            },
            None => {
                proof {
                    lemma_all_digits_prefix(md@, len - k);
                    if k == len {
                        assert(md@.take(0) =~= Seq::<char>::empty());
                    }
                    let t = md@.take(len - k);
                    lemma_digits_div(t, 1);
                    assert(t.take(t.len() - 1) =~= md@.take(len - k - 1));
                    reveal_with_fuel(pow10, 2);
                }
                k = k + 1;
            },
        }
    }
}

/// Index of the first `e` or `E` in `v[from..]`, or `v.len()`.
fn exponent_mark_at(v: &Vec<char>, from: usize) -> (x: usize)
    requires
        from <= v@.len(),
    ensures
        from <= x <= v@.len(),
        first_exponent_mark(v@.skip(from as int)) == x - from,
{
    let mut x: usize = from;
    while x < v.len() && !(v[x] == 'e' || v[x] == 'E')
        invariant
            from <= x <= v@.len(),
            forall|j: int| from <= j < x ==> !is_exponent_mark(#[trigger] v@[j]),
        decreases v.len() - x,
    {
        x = x + 1;
    }
    proof {
        let b = v@.skip(from as int);
        assert forall|j: int| 0 <= j < x - from implies !is_exponent_mark(b[j]) by {
            assert(b[j] == v@[j + from]);
        }
        lemma_first_exponent_mark(b, x - from);
    }
    x
}

/// Index of the first `.` in `v[from..to]`, or `to`.
fn point_at(v: &Vec<char>, from: usize, to: usize) -> (d: usize)
    requires
        from <= to <= v@.len(),
    ensures
        from <= d <= to,
        first_index_of(v@.subrange(from as int, to as int), '.') == d - from,
{
    let mut d: usize = from;
    while d < to && v[d] != '.'
        invariant
            from <= d <= to <= v@.len(),
            forall|j: int| from <= j < d ==> #[trigger] v@[j] != '.',
        decreases to - d,
    {
        d = d + 1;
    }
    proof {
        let m = v@.subrange(from as int, to as int);
        assert forall|j: int| 0 <= j < d - from implies m[j] != '.' by {
            assert(m[j] == v@[j + from]);
        }
        lemma_first_index_of(m, '.', d - from);
    }
    d
}

/// The characters `v[a..b]` followed by `v[c..d]`.
fn two_runs(v: &Vec<char>, a: usize, b: usize, c: usize, d: usize) -> (r: Vec<char>)
    requires
        a <= b <= v@.len(),
        c <= d <= v@.len(),
    ensures
        r@ == v@.subrange(a as int, b as int) + v@.subrange(c as int, d as int),
{
    let mut r: Vec<char> = Vec::new();
    let mut i = a;
    while i < b
        invariant
            a <= i <= b <= v@.len(),
            r@ == v@.subrange(a as int, i as int),
        decreases b - i,
    {
        r.push(v[i]);
        i = i + 1;
        assert(r@ =~= v@.subrange(a as int, i as int));
    }
    let mut j = c;
    while j < d
        invariant
            c <= j <= d <= v@.len(),
            r@ == v@.subrange(a as int, b as int) + v@.subrange(c as int, j as int),
        decreases d - j,
    {
        r.push(v[j]);
        j = j + 1;
        assert(r@ =~= v@.subrange(a as int, b as int) + v@.subrange(c as int, j as int));
    }
    r
}

/// The exponent of a finite reading: the written exponent `expd` (negated
/// when `eneg`), less the `flen` digits after the point, plus the `cut`
/// digits cut off, kept within `±EXPONENT_LIMIT`; `ev` is the written
/// exponent when it is at most `2^100`.
fn finite_exponent(eneg: bool, ev: Option<u128>, flen: usize, cut: usize, Ghost(expd): Ghost<nat>) -> (r: i128)
    requires
        ev matches Some(x) ==> x == expd && x <= 0x10_0000_0000_0000_0000_0000_0000,
        ev is None ==> expd > 0x10_0000_0000_0000_0000_0000_0000,
    ensures
        r == kept_exponent(
            (if eneg {
                -(expd as int)
            } else {
                expd as int
            }) - flen + cut,
        ),
{
    match ev {
        None => if eneg {
            -EXPONENT_LIMIT
        } else {
            EXPONENT_LIMIT
        },
        Some(x) => {
            let ex: i128 = if eneg {
                -(x as i128)
            } else {
                x as i128
            };
            let e: i128 = ex - flen as i128 + cut as i128;
            if e > EXPONENT_LIMIT {
                EXPONENT_LIMIT
            } else if e < -EXPONENT_LIMIT {
                -EXPONENT_LIMIT
            } else {
                e
            }
        },
    }
}

/// Reads a text of seconds as std's `str::parse::<f64>` accepts it: `None`
/// for a text that is no number, else the number it writes (see
/// [`SecondsValue`]).
#[verifier::rlimit(60)]
pub fn read_seconds(s: &str) -> (r: Option<SecondsValue>)
    ensures
        r == seconds_reading(s@),
{
    let v = chars_of(s);
    let n = v.len();
    let signed = n > 0 && (v[0] == '+' || v[0] == '-');
    let neg = signed && v[0] == '-';
    let start: usize = if signed {
        1
    } else {
        0
    };
    let ghost b = v@.skip(start as int);
    assert(sign_and_body(s@) == (neg, b)) by {
        if signed {
            assert(s@.drop_first() =~= v@.skip(1));
        } else {
            assert(v@.skip(0) =~= v@);
        }
    }
    let body = string_from(&v, start);
    if equals_ignore_ascii_case(body.as_str(), "inf") || equals_ignore_ascii_case(
        body.as_str(),
        "infinity",
    ) {
        return Some(SecondsValue::Infinite { negative: neg });
    }
    if equals_ignore_ascii_case(body.as_str(), "nan") {
        return Some(SecondsValue::NotANumber);
    }
    assert(!infinity_word(b) && !nan_word(b));
    let x = exponent_mark_at(&v, start);
    let ghost m = b.take(x - start);
    assert(m =~= v@.subrange(start as int, x as int));
    let d = point_at(&v, start, x);
    let frac_from: usize = if d < x {
        d + 1
    } else {
        x
    };
    assert(mantissa_whole(m) =~= v@.subrange(start as int, d as int));
    assert(mantissa_frac(m) =~= v@.subrange(frac_from as int, x as int));
    if !(all_digit_chars(&v, start, d) && all_digit_chars(&v, frac_from, x) && (d > start || x
        > frac_from)) {
        return None;
    }
    assert(mantissa_reads(m));
    let eneg: bool;
    let ev: Option<u128>;
    let ghost expd: nat;
    if x < n {
        let ep = x + 1;
        let esigned = ep < n && (v[ep] == '+' || v[ep] == '-');
        eneg = esigned && v[ep] == '-';
        let es: usize = if esigned {
            ep + 1
        } else {
            ep
        };
        let ghost et = b.skip(x - start + 1);
        assert(et =~= v@.skip(ep as int));
        assert(sign_and_body(et) == (eneg, v@.subrange(es as int, n as int))) by {
            if esigned {
                assert(et.drop_first() =~= v@.subrange(es as int, n as int));
            } else {
                assert(et =~= v@.subrange(es as int, n as int));
            }
        }
        if !(es < n && all_digit_chars(&v, es, n)) {
            return None;
        }
        proof {
            expd = digits_value(v@.subrange(es as int, n as int));
        }
        ev = exponent_digits(&v, es, n);
    } else {
        eneg = false;
        ev = Some(0);
        proof {
            expd = 0;
        }
    }
    let md = two_runs(&v, start, d, frac_from, x);
    proof {
        assert forall|i: int| 0 <= i < md@.len() implies is_digit(#[trigger] md@[i]) by {
            if i < d - start {
                assert(md@[i] == v@.subrange(start as int, d as int)[i]);
            } else {
                assert(md@[i] == v@.subrange(frac_from as int, x as int)[i - (d - start)]);
            }
        }
    }
    let (significand, cut) = leading_digits(&md);
    let exponent = finite_exponent(eneg, ev, x - frac_from, cut, Ghost(expd));
    Some(SecondsValue::Finite { negative: neg, significand, exponent })
}

/// A text of whole digits and points holds no exponent mark, no sign and no
/// word.
proof fn lemma_plain_decimal_text(text: Seq<char>)
    requires
        text.len() > 0,
        is_digit(text[0]),
        forall|j: int| 0 <= j < text.len() ==> is_digit(#[trigger] text[j]) || text[j] == '.',
    ensures
        sign_and_body(text) == (false, text),
        !infinity_word(text),
        !nan_word(text),
        first_exponent_mark(text) == text.len(),
        text.take(text.len() as int) == text,
{
    reveal_strlit("inf");
    reveal_strlit("infinity");
    reveal_strlit("nan");
    assert(ascii_lower(text[0]) == text[0]);
    assert(!eq_ignore_ascii_case(text, "inf"@));
    assert(!eq_ignore_ascii_case(text, "infinity"@));
    assert(!eq_ignore_ascii_case(text, "nan"@));
    assert forall|j: int| 0 <= j < text.len() implies !is_exponent_mark(text[j]) by {
        assert(is_digit(text[j]) || text[j] == '.');
    }
    lemma_first_exponent_mark(text, text.len() as int);
    assert(text.take(text.len() as int) =~= text);
}

/// Writing whole microseconds as seconds and reading the text back as
/// `ffprobe`'s durations are read gives the same microseconds: the times
/// handed to `ffmpeg` are exact.
pub proof fn law_seconds_text_reads_back(us: u64)
    ensures
        seconds_reading(seconds_text(us as nat)) matches Some(v) && value_micros(v) == Some(us),
{
    let w = (us / 1_000_000) as nat;
    let f = (us % 1_000_000) as nat;
    let text = seconds_text(us as nat);
    let dw = decimal(w);
    lemma_decimal(w);
    reveal_with_fuel(pow10, 7);
    assert(pow10(6) == 1_000_000);
    lemma_fixed_digits(f, 6);
    let six = fixed_digits(f, 6);
    let t = trim_trailing_zeros(six);
    lemma_trim_trailing_zeros(six);
    lemma_all_digits_prefix(six, t.len() as int);
    assert(text[0] == dw[0]);
    assert forall|j: int| 0 <= j < dw.len() implies text[j] != '.' by {
        assert(text[j] == dw[j]);
        assert(is_digit(dw[j]));
    }
    if f == 0 {
        assert forall|j: int| 0 <= j < text.len() implies is_digit(#[trigger] text[j])
            || text[j] == '.' by {
            assert(text[j] == dw[j]);
        }
        lemma_plain_decimal_text(text);
        lemma_first_index_of(text, '.', dw.len() as int);
        assert(text.take(dw.len() as int) =~= dw);
        assert(mantissa_frac(text) =~= seq![]);
        assert(dw + seq![] =~= dw);
        assert(us == w * 1_000_000);
        assert(mantissa_whole(text) == dw);
        assert(mantissa_reads(text));
        assert(digits_value(mantissa_whole(text) + mantissa_frac(text)) == w);
        assert(w <= u64::MAX);
        assert(leading_part(w, 0) == (w, 0nat));
        assert(kept_exponent(0 - 0 + 0) == 0);
        assert(scaled(w, 6) == us);
    } else {
        assert forall|j: int| 0 <= j < text.len() implies is_digit(#[trigger] text[j])
            || text[j] == '.' by {
            if j < dw.len() {
                assert(text[j] == dw[j]);
            } else if j > dw.len() {
                assert(text[j] == t[j - dw.len() - 1]);
            }
        }
        lemma_plain_decimal_text(text);
        assert(text[dw.len() as int] == '.');
        lemma_first_index_of(text, '.', dw.len() as int);
        assert(text.take(dw.len() as int) =~= dw);
        assert(text.skip(dw.len() as int + 1) =~= t);
        let z = Seq::new((6 - t.len()) as nat, |i: int| '0');
        assert(six =~= t + z);
        lemma_zeros((6 - t.len()) as nat);
        lemma_digits_concat(t, z);
        lemma_digits_concat(dw, t);
        lemma_pow10_add(t.len(), (6 - t.len()) as nat);
        let a = pow10(t.len());
        let b = pow10((6 - t.len()) as nat);
        let vt = digits_value(t);
        assert(f == vt * b);
        assert(a * b == 1_000_000);
        assert((w * a + vt) * b == w * (a * b) + vt * b) by (nonlinear_arith);
        assert(us == w * 1_000_000 + f);
        assert(mantissa_whole(text) == dw);
        assert(mantissa_frac(text) == t);
        assert(mantissa_reads(text));
        let dd = digits_value(dw + t);
        assert(dd == w * a + vt);
        assert(scaled(dd, 6 - t.len()) == dd * b);
        assert(scaled(dd, 6 - t.len()) == us);
        assert(dd != 0) by (nonlinear_arith)
            requires
                dd * b == us,
                us > 0,
        ;
        assert(dd <= us) by (nonlinear_arith)
            requires
                dd * b == us,
                b >= 1,
        ;
        assert(leading_part(dd, 0) == (dd, 0nat));
        assert(kept_exponent(0 - t.len() + 0) == 0 - t.len());
        assert(0 - t.len() + 6 == 6 - t.len());
    }
}

} // verus!
