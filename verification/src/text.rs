//! Decimal text: the digits of integers, decimal seconds held as whole
//! microseconds, and the few string helpers the command lines need.

use vstd::prelude::*;

verus! {

/// The character of a decimal digit.
pub open spec fn digit_char(d: nat) -> char
    recommends
        d < 10,
{
    (('0' as u8) + d) as char
}

/// The value of a decimal digit character.
pub open spec fn digit_value(c: char) -> nat {
    ((c as u32) - ('0' as u32)) as nat
}

pub open spec fn is_digit(c: char) -> bool {
    '0' <= c && c <= '9'
}

/// Decimal text of `n`, without sign or leading zeros (`0` is `"0"`).
pub open spec fn decimal(n: nat) -> Seq<char>
    decreases n,
{
    if n < 10 {
        seq![digit_char(n)]
    } else {
        decimal(n / 10).push(digit_char(n % 10))
    }
}

/// Appends one character with std's `String::push`. Trusted: the contract
/// claims that the text gains exactly that character at its end.
#[verifier::external_body]
pub(crate) fn push_char(s: &mut String, c: char)
    ensures
        final(s)@ == old(s)@.push(c),
{
    s.push(c);
}

/// Decimal text of an unsigned integer, as `u64::to_string` writes it.
pub fn u64_text(n: u64) -> (s: String)
    ensures
        s@ == decimal(n as nat),
    decreases n,
{
    let d = (n % 10) as u8;
    let c = (('0' as u8) + d) as char;
    if n < 10 {
        let mut s = String::new();
        push_char(&mut s, c);
        s
    } else {
        let mut s = u64_text(n / 10);
        push_char(&mut s, c);
        s
    }
}


/// `n` written with exactly `k` decimal digits, zero-padded on the left
/// (the low `k` digits of `n`).
pub open spec fn fixed_digits(n: nat, k: nat) -> Seq<char>
    decreases k,
{
    if k == 0 {
        seq![]
    } else {
        fixed_digits(n / 10, (k - 1) as nat).push(digit_char(n % 10))
    }
}

/// Exactly `k` decimal digits of `n` (its low `k` digits, zero-padded).
pub fn fixed_digits_text(n: u64, k: u64) -> (s: String)
    ensures
        s@ == fixed_digits(n as nat, k as nat),
    decreases k,
{
    if k == 0 {
        String::new()
    } else {
        let mut s = fixed_digits_text(n / 10, k - 1);
        let d = (n % 10) as u8;
        push_char(&mut s, (('0' as u8) + d) as char);
        s
    }
}

/// Every character is an ASCII decimal digit.
pub open spec fn all_digits(s: Seq<char>) -> bool {
    forall|i: int| 0 <= i < s.len() ==> is_digit(#[trigger] s[i])
}

/// The number that a string of decimal digits writes.
pub open spec fn digits_value(s: Seq<char>) -> nat
    decreases s.len(),
{
    if s.len() == 0 {
        0
    } else {
        digits_value(s.drop_last()) * 10 + digit_value(s.last())
    }
}

/// The text after one optional leading `+`.
pub open spec fn unsigned_body(s: Seq<char>) -> Seq<char> {
    if s.len() > 0 && s[0] == '+' {
        s.drop_first()
    } else {
        s
    }
}

/// What std's `str::parse::<u32>` gives: an optional `+`, then at least one
/// decimal digit and nothing else, with a value that fits in a `u32`.
pub open spec fn u32_from_text(s: Seq<char>) -> Option<u32> {
    let b = unsigned_body(s);
    if b.len() > 0 && all_digits(b) && digits_value(b) <= u32::MAX {
        Some(digits_value(b) as u32)
    } else {
        None
    }
}

/// The characters of a string slice, as a vector.
pub fn chars_of(s: &str) -> (v: Vec<char>)
    ensures
        v@ == s@,
{
    let n = s.unicode_len();
    let mut v: Vec<char> = Vec::new();
    let mut i: usize = 0;
    while i < n
        invariant
            i <= n,
            n == s@.len(),
            v@ == s@.take(i as int),
        decreases n - i,
    {
        let c = s.get_char(i);
        v.push(c);
        i = i + 1;
        assert(v@ =~= s@.take(i as int));
    }
    assert(v@ =~= s@);
    v
}

pub(crate) proof fn lemma_digits_value_prefix(s: Seq<char>, k: int)
    requires
        0 <= k <= s.len(),
    ensures
        digits_value(s.take(k)) <= digits_value(s),
    decreases s.len(),
{
    if k < s.len() {
        assert(s.drop_last().take(k) =~= s.take(k));
        lemma_digits_value_prefix(s.drop_last(), k);
    } else {
        assert(s.take(k) =~= s);
    }
}

/// Reads the decimal digits `v[from..to]`; `None` when one is not a digit or
/// when the value exceeds `limit`.
pub(crate) fn digits_upto(v: &Vec<char>, from: usize, to: usize, limit: u128) -> (r: Option<u128>)
    requires
        from <= to <= v@.len(),
    ensures
        r is Some <==> (all_digits(v@.subrange(from as int, to as int)) && digits_value(
            v@.subrange(from as int, to as int),
        ) <= limit),
        r matches Some(x) ==> x == digits_value(v@.subrange(from as int, to as int)),
{
    let ghost w = v@.subrange(from as int, to as int);
    let mut acc: u128 = 0;
    let mut i: usize = from;
    while i < to
        invariant
            from <= i <= to <= v@.len(),
            w == v@.subrange(from as int, to as int),
            all_digits(w.take(i - from)),
            acc == digits_value(w.take(i - from)),
            acc <= limit,
        decreases to - i,
    {
        let c = v[i];
        assert(w[i - from] == c);
        if !('0' <= c && c <= '9') {
            assert(!is_digit(w[i - from]));
            return None;
        }
        let d = (c as u32 - '0' as u32) as u128;
        let ghost next = w.take(i - from + 1);
        assert(next.drop_last() =~= w.take(i - from));
        assert(next.last() == c);
        if d > limit || acc > (limit - d) / 10 {
            assert(digits_value(next) > limit) by (nonlinear_arith)
                requires
                    d > limit || acc > (limit - d) / 10,
                    digits_value(next) == acc * 10 + d,
                    d <= 9,
            ;
            proof {
                lemma_digits_value_prefix(w, i - from + 1);
            }
            return None;
        }
        assert(acc * 10 + d <= limit) by (nonlinear_arith)
            requires
                acc <= (limit - d) / 10,
                d <= limit,
        ;
        acc = acc * 10 + d;
        i = i + 1;
        assert(all_digits(w.take(i - from)));
    }
    assert(w.take(to - from) =~= w);
    Some(acc)
}

/// Parses an unsigned decimal `u32` as std's `str::parse::<u32>` does.
pub fn parse_u32(s: &str) -> (r: Option<u32>)
    ensures
        r == u32_from_text(s@),
{
    let v = chars_of(s);
    let from: usize = if v.len() > 0 && v[0] == '+' {
        1
    } else {
        0
    };
    assert(v@.subrange(from as int, v@.len() as int) =~= unsigned_body(s@));
    if from == v.len() {
        return None;
    }
    match digits_upto(&v, from, v.len(), 0xffff_ffff) {
        Some(x) => Some(x as u32),
        None => None,
    }
}


/// Index of the first `c` in `s`, or `s.len()` when `s` holds none.
pub open spec fn first_index_of(s: Seq<char>, c: char) -> int
    decreases s.len(),
{
    if s.len() == 0 {
        0
    } else if s[0] == c {
        0
    } else {
        1 + first_index_of(s.drop_first(), c)
    }
}

pub(crate) proof fn lemma_first_index_of(s: Seq<char>, c: char, i: int)
    requires
        0 <= i <= s.len(),
        forall|j: int| 0 <= j < i ==> s[j] != c,
        i == s.len() || s[i] == c,
    ensures
        first_index_of(s, c) == i,
    decreases i,
{
    if i > 0 {
        assert(s[0] != c);
        let t = s.drop_first();
        assert forall|j: int| 0 <= j < i - 1 implies t[j] != c by {
            assert(t[j] == s[j + 1]);
        }
        lemma_first_index_of(t, c, i - 1);
    }
}

pub(crate) fn all_digit_chars(v: &Vec<char>, from: usize, to: usize) -> (r: bool)
    requires
        from <= to <= v@.len(),
    ensures
        r == all_digits(v@.subrange(from as int, to as int)),
{
    let ghost w = v@.subrange(from as int, to as int);
    let mut i = from;
    while i < to
        invariant
            from <= i <= to <= v@.len(),
            w == v@.subrange(from as int, to as int),
            all_digits(w.take(i - from)),
        decreases to - i,
    {
        let c = v[i];
        assert(w[i - from] == c);
        if !('0' <= c && c <= '9') {
            return false;
        }
        i = i + 1;
        assert(all_digits(w.take(i - from)));
    }
    assert(w.take(to - from) =~= w);
    true
}

/// `s` without its trailing `'0'` characters.
pub open spec fn trim_trailing_zeros(s: Seq<char>) -> Seq<char>
    decreases s.len(),
{
    if s.len() > 0 && s.last() == '0' {
        trim_trailing_zeros(s.drop_last())
    } else {
        s
    }
}

/// Decimal seconds for whole microseconds, in the shortest form: `"1"`,
/// `"0.5"`, `"1.25"`, `"0.000001"`.
pub open spec fn seconds_text(us: nat) -> Seq<char> {
    let whole = us / 1_000_000;
    let frac = us % 1_000_000;
    if frac == 0 {
        decimal(whole)
    } else {
        decimal(whole) + seq!['.'] + trim_trailing_zeros(fixed_digits(frac, 6))
    }
}

/// Writes whole microseconds as decimal seconds (see `seconds_text`).
pub fn seconds_string(us: u64) -> (s: String)
    ensures
        s@ == seconds_text(us as nat),
{
    let whole = us / 1_000_000;
    let frac = us % 1_000_000;
    let mut s = u64_text(whole);
    if frac == 0 {
        return s;
    }
    let mut f = frac;
    let mut k: u64 = 6;
    while k > 0 && f % 10 == 0
        invariant
            k <= 6,
            trim_trailing_zeros(fixed_digits(frac as nat, 6)) == trim_trailing_zeros(
                fixed_digits(f as nat, k as nat),
            ),
        decreases k,
    {
        assert(fixed_digits(f as nat, k as nat).drop_last() == fixed_digits(
            (f / 10) as nat,
            (k - 1) as nat,
        ));
        f = f / 10;
        k = k - 1;
    }
    proof {
        if k > 0 {
            let d = (f % 10) as nat;
            assert(fixed_digits(f as nat, k as nat).last() == digit_char(d));
            assert(digit_char(d) != '0');
        }
    }
    push_char(&mut s, '.');
    let tail = fixed_digits_text(f, k);
    s.append(tail.as_str());
    s
}

/// `n / d` rounded to the nearest integer, ties to the even one.
pub open spec fn div_round_half_even(n: nat, d: nat) -> nat {
    let q = n / d;
    let r = n % d;
    if 2 * r > d || (2 * r == d && q % 2 == 1) {
        q + 1
    } else {
        q
    }
}

/// Decimal seconds with exactly three fraction digits, rounded to the nearest
/// millisecond with ties to even: `"1.500"`, `"0.013"`.
pub open spec fn seconds_text_millis(us: nat) -> Seq<char> {
    let ms = div_round_half_even(us, 1000);
    decimal(ms / 1000) + seq!['.'] + fixed_digits(ms % 1000, 3)
}

/// Writes whole milliseconds as decimal seconds with three fraction digits.
pub fn millis_string(ms: u64) -> (s: String)
    ensures
        s@ == decimal((ms / 1000) as nat) + seq!['.'] + fixed_digits((ms % 1000) as nat, 3),
{
    let mut s = u64_text(ms / 1000);
    push_char(&mut s, '.');
    let tail = fixed_digits_text(ms % 1000, 3);
    s.append(tail.as_str());
    s
}

/// Microseconds rounded to whole milliseconds, ties to even.
pub fn round_micros_to_millis(us: u64) -> (ms: u64)
    ensures
        ms == div_round_half_even(us as nat, 1000),
{
    let q = us / 1000;
    let r = us % 1000;
    if 2 * r > 1000 || (2 * r == 1000 && q % 2 == 1) {
        q + 1
    } else {
        q
    }
}

/// ASCII lower case of one character; other characters are unchanged.
pub open spec fn ascii_lower(c: char) -> char {
    if 'A' <= c && c <= 'Z' {
        ((c as u32) + 32) as char
    } else {
        c
    }
}

/// Equal up to ASCII case, as std's `str::eq_ignore_ascii_case`.
pub open spec fn eq_ignore_ascii_case(a: Seq<char>, b: Seq<char>) -> bool {
    a.len() == b.len() && forall|i: int| 0 <= i < a.len() ==> ascii_lower(#[trigger] a[i]) == ascii_lower(b[i])
}

fn lower_char(c: char) -> (r: char)
    ensures
        r == ascii_lower(c),
{
    if 'A' <= c && c <= 'Z' {
        ((c as u8) + 32) as char
    } else {
        c
    }
}

/// Compares two strings up to ASCII case.
pub fn equals_ignore_ascii_case(a: &str, b: &str) -> (r: bool)
    ensures
        r == eq_ignore_ascii_case(a@, b@),
{
    let x = chars_of(a);
    let y = chars_of(b);
    if x.len() != y.len() {
        return false;
    }
    let mut i: usize = 0;
    while i < x.len()
        invariant
            x@ == a@,
            y@ == b@,
            x.len() == y.len(),
            i <= x.len(),
            forall|j: int| 0 <= j < i ==> ascii_lower(#[trigger] x@[j]) == ascii_lower(y@[j]),
        decreases x.len() - i,
    {
        if lower_char(x[i]) != lower_char(y[i]) {
            return false;
        }
        i = i + 1;
    }
    true
}

/// `s` without its leading `'.'` characters (std's
/// `str::trim_start_matches('.')`).
pub open spec fn strip_leading_dots(s: Seq<char>) -> Seq<char>
    decreases s.len(),
{
    if s.len() > 0 && s[0] == '.' {
        strip_leading_dots(s.drop_first())
    } else {
        s
    }
}

/// Builds a string from the characters `v[from..]`.
pub(crate) fn string_from(v: &Vec<char>, from: usize) -> (s: String)
    requires
        from <= v@.len(),
    ensures
        s@ == v@.skip(from as int),
{
    let mut s = String::new();
    let mut i = from;
    while i < v.len()
        invariant
            from <= i <= v@.len(),
            s@ == v@.subrange(from as int, i as int),
        decreases v.len() - i,
    {
        push_char(&mut s, v[i]);
        i = i + 1;
        assert(s@ =~= v@.subrange(from as int, i as int));
    }
    assert(v@.subrange(from as int, v@.len() as int) =~= v@.skip(from as int));
    s
}

/// Removes every leading `'.'`.
pub fn without_leading_dots(s: &str) -> (r: String)
    ensures
        r@ == strip_leading_dots(s@),
{
    let v = chars_of(s);
    let mut i: usize = 0;
    assert(v@.skip(0) =~= v@);
    while i < v.len() && v[i] == '.'
        invariant
            i <= v@.len(),
            v@ == s@,
            strip_leading_dots(s@) == strip_leading_dots(v@.skip(i as int)),
        decreases v.len() - i,
    {
        assert(v@.skip(i as int).drop_first() =~= v@.skip(i + 1));
        i = i + 1;
    }
    string_from(&v, i)
}

/// Appends `name` to the directory path `dir` as std's `Path::join` does on
/// Unix: an absolute `name` replaces `dir`, a `/` goes between them unless
/// `dir` is empty or already ends with one.
pub open spec fn join_path(dir: Seq<char>, name: Seq<char>) -> Seq<char> {
    if name.len() > 0 && name[0] == '/' {
        name
    } else if dir.len() == 0 || dir.last() == '/' {
        dir + name
    } else {
        dir + seq!['/'] + name
    }
}

/// Joins a directory path and a file name (see `join_path`).
pub fn joined_path(dir: &str, name: &str) -> (r: String)
    ensures
        r@ == join_path(dir@, name@),
{
    let name_len = name.unicode_len();
    if name_len > 0 && name.get_char(0) == '/' {
        return String::from_str(name);
    }
    let dir_len = dir.unicode_len();
    let mut r = String::from_str(dir);
    if dir_len > 0 && dir.get_char(dir_len - 1) != '/' {
        push_char(&mut r, '/');
    }
    r.append(name);
    r
}


/// What std's `String::from_utf8_lossy` makes of `bytes`: their UTF-8
/// decoding, with each invalid sequence replaced by U+FFFD.
pub uninterp spec fn utf8_lossy(bytes: Seq<u8>) -> Seq<char>;

/// Decodes the bytes a process wrote with std's `String::from_utf8_lossy`.
/// Trusted: the contract claims that the result is `utf8_lossy` of the bytes,
/// and for valid UTF-8 their decoding itself; what it is for other bytes is
/// only named.
#[verifier::external_body]
pub(crate) fn lossy_text(bytes: &[u8]) -> (s: String)
    ensures
        s@ == utf8_lossy(bytes@),
        vstd::utf8::valid_utf8(bytes@) ==> s@ == vstd::utf8::decode_utf8(bytes@),
{
    String::from_utf8_lossy(bytes).into_owned()
}

/// Appends one argument to a command line.
pub fn push_arg(args: &mut Vec<String>, text: &str)
    ensures
        final(args).deep_view() == old(args).deep_view().push(text@),
{
    let ghost before = args.deep_view();
    args.push(String::from_str(text));
    assert(args.deep_view() =~= before.push(text@));
}

/// Appends one owned argument to a command line.
pub fn push_owned_arg(args: &mut Vec<String>, text: String)
    ensures
        final(args).deep_view() == old(args).deep_view().push(text@),
{
    let ghost before = args.deep_view();
    let ghost t = text@;
    args.push(text);
    assert(args.deep_view() =~= before.push(t));
}


pub(crate) proof fn lemma_digit_char(d: nat)
    requires
        d < 10,
    ensures
        is_digit(digit_char(d)),
        digit_value(digit_char(d)) == d,
        digit_char(d) != '.',
        digit_char(d) != '+',
        (digit_char(d) == '0') == (d == 0),
{
}

pub(crate) proof fn lemma_decimal(n: nat)
    ensures
        decimal(n).len() > 0,
        all_digits(decimal(n)),
        digits_value(decimal(n)) == n,
    decreases n,
{
    if n < 10 {
        lemma_digit_char(n);
        assert(decimal(n).drop_last() =~= seq![]);
        assert(digits_value(seq![]) == 0);
        assert(decimal(n).last() == digit_char(n));
    } else {
        lemma_decimal(n / 10);
        lemma_digit_char(n % 10);
        assert(decimal(n).drop_last() =~= decimal(n / 10));
        assert(decimal(n).last() == digit_char(n % 10));
        assert(n == (n / 10) * 10 + n % 10);
    }
}

/// `10^k`.
pub open spec fn pow10(k: nat) -> nat
    decreases k,
{
    if k == 0 {
        1
    } else {
        10 * pow10((k - 1) as nat)
    }
}

pub(crate) proof fn lemma_fixed_digits(f: nat, k: nat)
    requires
        f < pow10(k),
    ensures
        fixed_digits(f, k).len() == k,
        all_digits(fixed_digits(f, k)),
        digits_value(fixed_digits(f, k)) == f,
    decreases k,
{
    if k == 0 {
        assert(f == 0);
    } else {
        let p = pow10((k - 1) as nat);
        assert(f / 10 < p) by (nonlinear_arith)
            requires
                f < 10 * p,
        ;
        lemma_fixed_digits(f / 10, (k - 1) as nat);
        lemma_digit_char(f % 10);
        assert(fixed_digits(f, k).drop_last() =~= fixed_digits(f / 10, (k - 1) as nat));
    }
}

pub(crate) proof fn lemma_trim_trailing_zeros(s: Seq<char>)
    ensures
        trim_trailing_zeros(s).len() <= s.len(),
        trim_trailing_zeros(s) =~= s.take(trim_trailing_zeros(s).len() as int),
        forall|i: int| trim_trailing_zeros(s).len() <= i < s.len() ==> s[i] == '0',
    decreases s.len(),
{
    if s.len() > 0 && s.last() == '0' {
        lemma_trim_trailing_zeros(s.drop_last());
        let t = trim_trailing_zeros(s.drop_last());
        assert(s.drop_last().take(t.len() as int) =~= s.take(t.len() as int));
        assert forall|i: int| t.len() <= i < s.len() implies s[i] == '0' by {
            if i < s.len() - 1 {
                assert(s.drop_last()[i] == s[i]);
            }
        }
    }
}

pub(crate) proof fn lemma_zeros(k: nat)
    ensures
        digits_value(Seq::new(k, |i: int| '0')) == 0,
    decreases k,
{
    if k > 0 {
        lemma_zeros((k - 1) as nat);
        assert(Seq::new(k, |i: int| '0').drop_last() =~= Seq::new((k - 1) as nat, |i: int| '0'));
        lemma_digit_char(0);
    }
}

pub(crate) proof fn lemma_all_digits_prefix(s: Seq<char>, k: int)
    requires
        all_digits(s),
        0 <= k <= s.len(),
    ensures
        all_digits(s.take(k)),
{
    assert forall|i: int| 0 <= i < k implies is_digit(#[trigger] s.take(k)[i]) by {
        assert(s.take(k)[i] == s[i]);
    }
}

} // verus!
