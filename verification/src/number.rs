//! Decimal text: the value of a run of digits, `i64` literals as
//! `str::parse::<i64>` reads them, integers written back as text, and the
//! canonical spelling of decimal literals with a fractional part.

use vstd::prelude::*;
use crate::text::{is_ascii_digit, is_digit, push_char, push_chars, string_of_range};

verus! {

/// The value of a sequence of ASCII digits, most significant first.
pub open spec fn digits_value(s: Seq<char>) -> int
    decreases s.len(),
{
    if s.len() == 0 {
        0
    } else {
        digits_value(s.drop_last()) * 10 + (s.last() as u32 - 0x30)
    }
}

pub open spec fn all_digits(s: Seq<char>) -> bool {
    forall|i: int| 0 <= i < s.len() ==> is_digit(#[trigger] s[i])
}

/// The integer that `str::parse::<i64>` reads from `s`: an optional sign
/// followed by one or more ASCII digits, within the range of `i64`.
pub open spec fn i64_literal(s: Seq<char>) -> Option<int> {
    let neg = s.len() > 0 && s[0] == '-';
    let signed = s.len() > 0 && (s[0] == '-' || s[0] == '+');
    let body = if signed { s.drop_first() } else { s };
    if body.len() == 0 || !all_digits(body) {
        None
    } else {
        let v = if neg { -digits_value(body) } else { digits_value(body) };
        if i64::MIN <= v <= i64::MAX { Some(v) } else { None }
    }
}

proof fn lemma_digits_value_nonneg(s: Seq<char>)
    requires
        all_digits(s),
    ensures
        digits_value(s) >= 0,
    decreases s.len(),
{
    if s.len() > 0 {
        assert(all_digits(s.drop_last()));
        lemma_digits_value_nonneg(s.drop_last());
    }
}

proof fn lemma_digits_value_mono(s: Seq<char>, i: int)
    requires
        all_digits(s),
        0 <= i <= s.len(),
    ensures
        digits_value(s.take(i)) <= digits_value(s),
    decreases s.len() - i,
{
    if i < s.len() {
        lemma_digits_value_mono(s, i + 1);
        assert(s.take(i + 1).drop_last() =~= s.take(i));
        assert(all_digits(s.take(i)));
        lemma_digits_value_nonneg(s.take(i));
    } else {
        assert(s.take(i) =~= s);
    }
}

/// `str::parse::<i64>` on a character sequence.
pub fn parse_i64(s: &[char]) -> (r: Option<i64>)
    ensures
        r matches Some(v) ==> i64_literal(s@) == Some(v as int),
        r is None ==> i64_literal(s@) is None,
{
    let n = s.len();
    if n == 0 {
        return None;
    }
    let neg = s[0] == '-';
    let start: usize = if s[0] == '-' || s[0] == '+' { 1 } else { 0 };
    let ghost body = if start == 1 { s@.drop_first() } else { s@ };
    assert(body =~= s@.subrange(start as int, n as int));
    assert(body == (if s@.len() > 0 && (s@[0] == '-' || s@[0] == '+') {
        s@.drop_first()
    } else {
        s@
    }));
    assert(neg == (s@.len() > 0 && s@[0] == '-'));
    if start == n {
        return None;
    }
    // Accumulate the magnitude as a u64, which holds both i64::MAX and the
    // magnitude of i64::MIN.
    let mut acc: u64 = 0;
    let mut i: usize = start;
    while i < n
        invariant
            start <= i <= n == s.len(),
            body == s@.subrange(start as int, n as int),
            all_digits(body.take(i - start)),
            body == (if s@.len() > 0 && (s@[0] == '-' || s@[0] == '+') {
                s@.drop_first()
            } else {
                s@
            }),
            neg == (s@.len() > 0 && s@[0] == '-'),
            acc as int == digits_value(body.take(i - start)),
            acc <= 9223372036854775808u64,
        decreases n - i,
    {
        let c = s[i];
        if !is_ascii_digit(c) {
            assert(body[i - start] == c);
            assert(!is_digit(body[i - start]));
            assert(!all_digits(body));
            return None;
        }
        let d = (c as u32 - 0x30) as u64;
        assert(body.take(i - start + 1).drop_last() =~= body.take(i - start));
        assert(body.take(i - start + 1).last() == c);
        if acc > 922337203685477580u64 || (acc == 922337203685477580u64 && d > 8) {
            // Every longer prefix only grows, so the literal is out of range.
            proof {
                if all_digits(body) {
                    lemma_digits_value_mono(body, i - start + 1);
                    assert(digits_value(body.take(i - start + 1)) == acc * 10 + d);
                    assert(digits_value(body) > 9223372036854775808int);
                }
            }
            return None;
        }
        acc = acc * 10 + d;
        i += 1;
        assert(all_digits(body.take(i - start)));
    }
    assert(body.take(n - start) =~= body);
    if neg {
        if acc == 9223372036854775808u64 {
            Some(i64::MIN)
        } else {
            Some(-(acc as i64))
        }
    } else {
        if acc == 9223372036854775808u64 {
            None
        } else {
            Some(acc as i64)
        }
    }
}


/// The ASCII digit for `d` in `0..10`.
pub open spec fn digit_char(d: int) -> char {
    (0x30 + d) as char
}

/// `n` written in decimal, without leading zeros.
pub open spec fn nat_text(n: nat) -> Seq<char>
    decreases n,
{
    if n < 10 {
        seq![digit_char(n as int)]
    } else {
        nat_text(n / 10).push(digit_char((n % 10) as int))
    }
}

/// `i` written in decimal, with a leading `-` when negative: what `{}`
/// prints for an integer.
pub open spec fn int_text(i: int) -> Seq<char> {
    if i < 0 {
        seq!['-'] + nat_text((-i) as nat)
    } else {
        nat_text(i as nat)
    }
}

fn digit_of(d: u64) -> (c: char)
    requires
        d < 10,
    ensures
        c == digit_char(d as int),
{
    let c = match d {
        0 => '0',
        1 => '1',
        2 => '2',
        3 => '3',
        4 => '4',
        5 => '5',
        6 => '6',
        7 => '7',
        8 => '8',
        _ => '9',
    };
    proof {
        vstd::utf8::char_u32_cast(c, (0x30 + d) as u32);
    }
    c
}

/// Appends `n` in decimal.
pub fn push_u64(out: &mut String, n: u64)
    ensures
        final(out)@ == old(out)@ + nat_text(n as nat),
    decreases n,
{
    if n >= 10 {
        push_u64(out, n / 10);
    }
    push_char(out, digit_of(n % 10));
    assert(nat_text(n as nat) =~= if n < 10 {
        seq![digit_char(n as int)]
    } else {
        nat_text((n / 10) as nat).push(digit_char((n % 10) as int))
    });
}

/// Appends `v` in decimal, as `{}` prints an `i64`.
pub fn push_i64(out: &mut String, v: i64)
    ensures
        final(out)@ == old(out)@ + int_text(v as int),
{
    if v < 0 {
        push_char(out, '-');
        let mag: u64 = if v == i64::MIN { 9223372036854775808u64 } else { (-v) as u64 };
        let ghost mid = out@;
        push_u64(out, mag);
        assert(out@ =~= old(out)@ + (seq!['-'] + nat_text(mag as nat)));
    } else {
        push_u64(out, v as u64);
    }
}

/// `s` without its leading `'0'` characters.
pub open spec fn skip_zeros(s: Seq<char>) -> Seq<char>
    decreases s.len(),
{
    if s.len() > 0 && s[0] == '0' {
        skip_zeros(s.drop_first())
    } else {
        s
    }
}

/// `s` without its trailing `'0'` characters.
pub open spec fn trim_zeros(s: Seq<char>) -> Seq<char>
    decreases s.len(),
{
    if s.len() > 0 && s.last() == '0' {
        trim_zeros(s.drop_last())
    } else {
        s
    }
}

/// The integral part of a decimal literal, as a number prints it.
pub open spec fn canon_int(s: Seq<char>) -> Seq<char> {
    if skip_zeros(s).len() == 0 {
        seq!['0']
    } else {
        skip_zeros(s)
    }
}

/// The characters before the first `.` of `s` (all of `s` without one).
pub open spec fn before_dot(s: Seq<char>) -> Seq<char> {
    if s.contains('.') {
        s.take(s.index_of_first('.')->0)
    } else {
        s
    }
}

/// The characters after the first `.` of `s` (none without one).
pub open spec fn after_dot(s: Seq<char>) -> Seq<char> {
    if s.contains('.') {
        s.skip(s.index_of_first('.')->0 + 1)
    } else {
        seq![]
    }
}

/// The exact value of the decimal literal `s`, spelled canonically: no
/// leading zeros, no trailing zeros after the point, and no point at all
/// when nothing is left after it (`1.50` as `1.5`, `2.0` as `2`). Floats
/// are held as this text, never as binary floating point; it is what `{}`
/// prints for the f64 that `s` reads as whenever `s` has at most 15
/// significant digits and lies within the normal range of f64 values.
pub open spec fn decimal_display(s: Seq<char>) -> Seq<char> {
    let f = trim_zeros(after_dot(s));
    if f.len() == 0 {
        canon_int(before_dot(s))
    } else {
        canon_int(before_dot(s)) + seq!['.'] + f
    }
}

/// How the formatter writes a float literal: as it prints, but always with
/// a decimal point, so that it reads back as a float and not an integer.
pub open spec fn float_literal_text(s: Seq<char>) -> Seq<char> {
    if trim_zeros(after_dot(s)).len() == 0 {
        canon_int(before_dot(s)) + seq!['.', '0']
    } else {
        decimal_display(s)
    }
}

/// A float is always printed with a decimal point.
pub proof fn lemma_float_text_has_point(s: Seq<char>)
    ensures
        float_literal_text(s).contains('.'),
{
    let t = float_literal_text(s);
    let n = canon_int(before_dot(s)).len();
    assert(t[n as int] == '.');
}

/// The index of the first `c` in `s`.
pub fn find_char(s: &[char], c: char) -> (r: Option<usize>)
    ensures
        r is None ==> !s@.contains(c),
        r matches Some(i) ==> i < s.len() && s@[i as int] == c && s@.index_of_first(c) == Some(
            i as int,
        ),
        s@.contains(c) ==> r is Some,
{
    let mut i: usize = 0;
    while i < s.len()
        invariant
            i <= s.len(),
            forall|k: int| 0 <= k < i ==> s@[k] != c,
        decreases s.len() - i,
    {
        if s[i] == c {
            proof {
                s@.index_of_first_ensures(c);
            }
            return Some(i);
        }
        i += 1;
    }
    proof {
        s@.index_of_first_ensures(c);
    }
    None
}

proof fn lemma_skip_zeros_step(s: Seq<char>, k: int)
    requires
        0 <= k < s.len(),
        s[k] == '0',
    ensures
        skip_zeros(s.skip(k)) == skip_zeros(s.skip(k + 1)),
{
    assert(s.skip(k).drop_first() =~= s.skip(k + 1));
}

proof fn lemma_trim_zeros_step(s: Seq<char>, k: int)
    requires
        0 < k <= s.len(),
        s[k - 1] == '0',
    ensures
        trim_zeros(s.take(k)) == trim_zeros(s.take(k - 1)),
{
    assert(s.take(k).drop_last() =~= s.take(k - 1));
}

/// Appends the integral digits `s[from..to]` without leading zeros (`0` if
/// none are left).
fn push_canon_int(out: &mut String, s: &[char], from: usize, to: usize)
    requires
        from <= to <= s.len(),
    ensures
        final(out)@ == old(out)@ + canon_int(s@.subrange(from as int, to as int)),
{
    let ghost sub = s@.subrange(from as int, to as int);
    let mut k = from;
    assert(sub.skip(0) =~= sub);
    while k < to && s[k] == '0'
        invariant
            from <= k <= to <= s.len(),
            sub == s@.subrange(from as int, to as int),
            skip_zeros(sub.skip(k - from)) == skip_zeros(sub),
        decreases to - k,
    {
        proof {
            lemma_skip_zeros_step(sub, k - from);
        }
        k += 1;
    }
    assert(skip_zeros(sub.skip(k - from)) == sub.skip(k - from));
    if k == to {
        push_char(out, '0');
        assert(sub.skip(k - from).len() == 0);
    } else {
        let rest = string_of_range(s, k, to);
        assert(rest@ =~= sub.skip(k - from));
        out.append(rest.as_str());
    }
}

/// Appends how the decimal literal `s` prints (see [`decimal_display`]);
/// with `float_point`, a point and a zero are kept when no fraction is
/// left (see [`float_literal_text`]).
pub fn push_decimal(out: &mut String, s: &[char], float_point: bool)
    ensures
        final(out)@ == old(out)@ + (if float_point {
            float_literal_text(s@)
        } else {
            decimal_display(s@)
        }),
{
    let n = s.len();
    let dot = find_char(s, '.');
    let (int_end, frac_start) = match dot {
        Some(d) => (d, d + 1),
        None => (n, n),
    };
    assert(before_dot(s@) =~= s@.subrange(0, int_end as int));
    assert(after_dot(s@) =~= s@.subrange(frac_start as int, n as int));
    push_canon_int(out, s, 0, int_end);
    let ghost frac = s@.subrange(frac_start as int, n as int);
    let mut e = n;
    assert(frac.take(n - frac_start) =~= frac);
    while e > frac_start && s[e - 1] == '0'
        invariant
            frac_start <= e <= n == s.len(),
            frac == s@.subrange(frac_start as int, n as int),
            trim_zeros(frac.take(e - frac_start)) == trim_zeros(frac),
        decreases e,
    {
        proof {
            lemma_trim_zeros_step(frac, e - frac_start);
        }
        e -= 1;
    }
    assert(frac.take(n - frac_start) =~= frac);
    assert(trim_zeros(frac.take(e - frac_start)) == frac.take(e - frac_start));
    if e == frac_start {
        if float_point {
            push_char(out, '.');
            push_char(out, '0');
        }
    } else {
        push_char(out, '.');
        let f = string_of_range(s, frac_start, e);
        assert(f@ =~= frac.take(e - frac_start));
        out.append(f.as_str());
    }
    assert(out@ =~= old(out)@ + (if float_point {
        float_literal_text(s@)
    } else {
        decimal_display(s@)
    }));
}


// ---------------------------------------------------------------------
// Integers as floats
// ---------------------------------------------------------------------

/// The spacing of the f64 values at magnitude `a`, found by doubling from
/// `u`: the least power of two `u` (from 1 up) with `a < 2^53 * u`. Every
/// integer below `2^53` is an f64, so there the spacing counts as 1.
pub open spec fn f64_spacing(a: int, u: int) -> int
    decreases a - u,
{
    if u < 1 || a < 9007199254740992 * u {
        u
    } else {
        f64_spacing(a, 2 * u)
    }
}

/// The f64 nearest to the non-negative integer `a`, ties to the even
/// significand: `a` rounded to a multiple of its spacing.
pub open spec fn nearest_f64(a: int) -> int {
    let u = f64_spacing(a, 1);
    let q = a / u;
    let r = a % u;
    if 2 * r > u || (2 * r == u && q % 2 == 1) {
        (q + 1) * u
    } else {
        q * u
    }
}

/// The integer `c` reads as the f64 `m` (a non-negative integral f64): it
/// lies within half the gap to either neighbour of `m`, a tie going to `m`
/// when its significand is even. Below a power of two the gap to the lower
/// neighbour is half the spacing above.
pub open spec fn reads_as_f64(c: int, m: int) -> bool {
    let u = f64_spacing(m, 1);
    let even = (m / u) % 2 == 0;
    let below4 = if m / u == 4503599627370496 { u } else { 2 * u };
    if c <= m {
        4 * (m - c) < below4 || (4 * (m - c) == below4 && even)
    } else {
        4 * (c - m) < 2 * u || (4 * (c - m) == 2 * u && even)
    }
}

/// `10^j`.
pub open spec fn pow10(j: nat) -> nat
    decreases j,
{
    if j == 0 {
        1
    } else {
        10 * pow10((j - 1) as nat)
    }
}

/// The multiple of `p` nearest to `m` that reads as the f64 `m`, if one
/// does (only the multiples next to `m` can).
pub open spec fn closest_multiple(m: int, p: int) -> Option<int> {
    let lo = m / p * p;
    let hi = lo + p;
    if lo == m {
        Some(m)
    } else if reads_as_f64(lo, m) && reads_as_f64(hi, m) {
        if m - lo <= hi - m {
            Some(lo)
        } else {
            Some(hi)
        }
    } else if reads_as_f64(lo, m) {
        Some(lo)
    } else if reads_as_f64(hi, m) {
        Some(hi)
    } else {
        None
    }
}

/// Searching from `10^j` down, the first power of ten with a multiple that
/// reads as `m`, and the nearest such multiple: the integer with the
/// fewest significant digits that reads back as `m`.
pub open spec fn shortest_from(m: int, j: nat) -> int
    decreases j,
{
    if j == 0 {
        m
    } else {
        match closest_multiple(m, pow10(j) as int) {
            Some(c) => c,
            None => shortest_from(m, (j - 1) as nat),
        }
    }
}

/// How `{}` prints the integer `n` converted to an f64 (`n as f64`): the
/// shortest digits that read back as the nearest f64, padded with zeros,
/// with no decimal point.
pub open spec fn promoted_float_text(n: int) -> Seq<char> {
    let a = if n < 0 { -n } else { n };
    let digits = nat_text(shortest_from(nearest_f64(a), 19) as nat);
    if n < 0 {
        seq!['-'] + digits
    } else {
        digits
    }
}

/// The spacing of the f64 values at `a`.
fn spacing_of(a: u128) -> (u: u128)
    requires
        a < 0x1_0000_0000_0000_0000,
    ensures
        u == f64_spacing(a as int, 1),
        1 <= u < 4096,
        a < 9007199254740992 * u,
{
    let mut u: u128 = 1;
    while a >= 9007199254740992 * u
        invariant
            1 <= u < 4096,
            a < 0x1_0000_0000_0000_0000,
            f64_spacing(a as int, 1) == f64_spacing(a as int, u as int),
        decreases 4096 - u,
    {
        u = 2 * u;
    }
    u
}

/// `nearest_f64(a)` for the magnitude of an `i64`.
fn nearest_f64_of(a: u128) -> (m: u128)
    requires
        a <= 0x8000_0000_0000_0000,
    ensures
        m == nearest_f64(a as int),
        m <= a + 4096,
{
    let u = spacing_of(a);
    let q = a / u;
    let r = a % u;
    proof {
        vstd::arithmetic::div_mod::lemma_fundamental_div_mod(a as int, u as int);
        assert(q * u <= a) by (nonlinear_arith)
            requires
                a == u * q + r,
                r >= 0,
        ;
        assert((q + 1) * u == q * u + u) by (nonlinear_arith);
    }
    if 2 * r > u || (2 * r == u && q % 2 == 1) {
        (q + 1) * u
    } else {
        q * u
    }
}

/// Whether `c` reads as the f64 `m`, given `u == f64_spacing(m, 1)`.
fn reads_as(c: u128, m: u128, u: u128) -> (b: bool)
    requires
        u == f64_spacing(m as int, 1),
        1 <= u < 4096,
        c < 0x1_0000_0000_0000_0000_0000,
        m < 0x1_0000_0000_0000_0000,
    ensures
        b == reads_as_f64(c as int, m as int),
{
    let k = m / u;
    let even = k % 2 == 0;
    let below4 = if k == 4503599627370496 { u } else { 2 * u };
    if c <= m {
        4 * (m - c) < below4 || (4 * (m - c) == below4 && even)
    } else {
        4 * (c - m) < 2 * u || (4 * (c - m) == 2 * u && even)
    }
}

/// `shortest_from(m, 19)`.
fn shortest_of(m: u128) -> (c: u128)
    requires
        m < 0x8000_0000_0000_2000,
    ensures
        c == shortest_from(m as int, 19),
        c < 0x8000_0000_0000_4000,
{
    let u = spacing_of(m);
    let mut p: u128 = 10000000000000000000;
    let mut j: u32 = 19;
    proof {
        reveal_with_fuel(pow10, 20);
    }
    while j > 0
        invariant
            j <= 19,
            p == pow10(j as nat),
            1 <= p <= 10000000000000000000,
            u == f64_spacing(m as int, 1),
            1 <= u < 4096,
            m < 0x8000_0000_0000_2000,
            shortest_from(m as int, 19) == shortest_from(m as int, j as nat),
        decreases j,
    {
        let d = m / p;
        proof {
            vstd::arithmetic::div_mod::lemma_fundamental_div_mod(m as int, p as int);
            assert(d * p <= m) by (nonlinear_arith)
                requires
                    m == p * d + m % p,
                    m % p >= 0,
            ;
        }
        let lo = d * p;
        let hi = lo + p;
        let lo_ok = reads_as(lo, m, u);
        let hi_ok = reads_as(hi, m, u);
        let found: Option<u128> = if lo == m {
            Some(m)
        } else if lo_ok && hi_ok {
            if m - lo <= hi - m {
                Some(lo)
            } else {
                Some(hi)
            }
        } else if lo_ok {
            Some(lo)
        } else if hi_ok {
            Some(hi)
        } else {
            None
        };
        assert(match found {
            Some(c) => closest_multiple(m as int, p as int) == Some(c as int),
            None => closest_multiple(m as int, p as int) is None,
        });
        if let Some(c) = found {
            return c;
        }
        assert(pow10(j as nat) == 10 * pow10((j - 1) as nat));
        p = p / 10;
        j = j - 1;
    }
    m
}

/// Appends how `{}` prints `n as f64`.
pub fn push_promoted_float(out: &mut String, n: i64)
    ensures
        final(out)@ == old(out)@ + promoted_float_text(n as int),
{
    let a: u128 = if n < 0 {
        (0i128 - n as i128) as u128
    } else {
        n as u128
    };
    let m = nearest_f64_of(a);
    let c = shortest_of(m);
    if n < 0 {
        push_char(out, '-');
    }
    let ghost mid = out@;
    push_u64(out, c as u64);
    assert(out@ =~= old(out)@ + promoted_float_text(n as int));
}


/// The text of `n` is a non-empty run of digits whose value is `n`.
pub(crate) proof fn lemma_nat_text_digits(n: nat)
    ensures
        nat_text(n).len() > 0,
        all_digits(nat_text(n)),
        digits_value(nat_text(n)) == n,
        is_digit(nat_text(n)[0]),
    decreases n,
{
    let d = (n % 10) as int;
    assert((digit_char(d) as u32) == 0x30 + d);
    if n >= 10 {
        lemma_nat_text_digits(n / 10);
        let t = nat_text(n / 10);
        let s = nat_text(n);
        assert(s == t.push(digit_char(d)));
        assert(s.drop_last() =~= t);
        assert(s.last() == digit_char(d));
        assert((n / 10) * 10 + n % 10 == n) by (nonlinear_arith);
        assert(digits_value(s) == digits_value(t) * 10 + d);
        assert forall|i: int| 0 <= i < s.len() implies is_digit(#[trigger] s[i]) by {
            if i < t.len() {
                assert(s[i] == t[i]);
            }
        }
    } else {
        assert(n % 10 == n);
        let s = nat_text(n);
        assert(s.drop_last() =~= Seq::<char>::empty());
        assert(digits_value(s) == digits_value(s.drop_last()) * 10 + (s.last() as u32 - 0x30));
    }
}

/// An integer that the formatter writes, `n` in decimal, reads back as `n`.
pub(crate) proof fn lemma_int_text_round_trip(n: i64)
    requires
        n >= 0,
    ensures
        i64_literal(int_text(n as int)) == Some(n as int),
{
    lemma_nat_text_digits(n as nat);
}


proof fn lemma_digits_no_dot(c: Seq<char>)
    requires
        all_digits(c),
    ensures
        !c.contains('.'),
{
    if c.contains('.') {
        let k = choose|k: int| 0 <= k < c.len() && c[k] == '.';
        assert(is_digit(c[k]));
    }
}

/// Around the only point of `c + "." + g`, `c` stands before it and `g`
/// after it.
proof fn lemma_split_at_dot(c: Seq<char>, g: Seq<char>)
    requires
        !c.contains('.'),
    ensures
        before_dot(c + seq!['.'] + g) == c,
        after_dot(c + seq!['.'] + g) == g,
        (c + seq!['.'] + g).contains('.'),
{
    let t = c + seq!['.'] + g;
    assert(t[c.len() as int] == '.');
    t.index_of_first_ensures('.');
    let i = t.index_of_first('.')->0;
    if i < c.len() {
        assert(c[i] == t[i]);
    }
    assert(i == c.len());
    assert(t.take(i) =~= c);
    assert(t.skip(i + 1) =~= g);
}

proof fn lemma_skip_zeros_digits(x: Seq<char>)
    requires
        all_digits(x),
    ensures
        all_digits(skip_zeros(x)),
        skip_zeros(x).len() > 0 ==> skip_zeros(x)[0] != '0',
    decreases x.len(),
{
    if x.len() > 0 && x[0] == '0' {
        assert(all_digits(x.drop_first())) by {
            assert forall|i: int| 0 <= i < x.drop_first().len() implies is_digit(#[trigger] x.drop_first()[i]) by {
                assert(x.drop_first()[i] == x[i + 1]);
            }
        }
        lemma_skip_zeros_digits(x.drop_first());
    }
}

proof fn lemma_trim_zeros_digits(x: Seq<char>)
    requires
        all_digits(x),
    ensures
        all_digits(trim_zeros(x)),
        trim_zeros(x).len() > 0 ==> trim_zeros(x).last() != '0',
    decreases x.len(),
{
    if x.len() > 0 && x.last() == '0' {
        assert(all_digits(x.drop_last())) by {
            assert forall|i: int| 0 <= i < x.drop_last().len() implies is_digit(#[trigger] x.drop_last()[i]) by {
                assert(x.drop_last()[i] == x[i]);
            }
        }
        lemma_trim_zeros_digits(x.drop_last());
    }
}

/// The integral part as a number prints it is a non-empty run of digits
/// that prints as itself.
proof fn lemma_canon_int_fixed(a: Seq<char>)
    requires
        all_digits(a),
    ensures
        canon_int(a).len() > 0,
        all_digits(canon_int(a)),
        canon_int(canon_int(a)) == canon_int(a),
{
    lemma_skip_zeros_digits(a);
    let c = canon_int(a);
    if skip_zeros(a).len() == 0 {
        assert(c == seq!['0']);
        assert(c.drop_first() =~= Seq::<char>::empty());
        assert(skip_zeros(c) == skip_zeros(c.drop_first()));
        assert((0x30 as char) == '0');
        assert(is_digit(c[0]));
    } else {
        assert(skip_zeros(c) == c);
    }
}

/// The formatter's spelling of a float literal with digits on both sides
/// of its point has digits on both sides of its point again, and is
/// spelled the same way when written again.
pub(crate) proof fn lemma_float_literal_text_fixed(s: Seq<char>)
    requires
        s.contains('.'),
        before_dot(s).len() > 0,
        after_dot(s).len() > 0,
        all_digits(before_dot(s)),
        all_digits(after_dot(s)),
    ensures
        float_literal_text(s).contains('.'),
        all_digits(before_dot(float_literal_text(s))),
        all_digits(after_dot(float_literal_text(s))),
        before_dot(float_literal_text(s)).len() > 0,
        after_dot(float_literal_text(s)).len() > 0,
        float_literal_text(float_literal_text(s)) == float_literal_text(s),
{
    let a = before_dot(s);
    let f = after_dot(s);
    lemma_canon_int_fixed(a);
    lemma_trim_zeros_digits(f);
    let c = canon_int(a);
    lemma_digits_no_dot(c);
    let g = if trim_zeros(f).len() == 0 { seq!['0'] } else { trim_zeros(f) };
    let t = float_literal_text(s);
    assert(t =~= c + seq!['.'] + g);
    lemma_split_at_dot(c, g);
    if trim_zeros(f).len() == 0 {
        assert((0x30 as char) == '0');
        assert(all_digits(g));
        assert(g.drop_last() =~= Seq::<char>::empty());
        assert(trim_zeros(g) == trim_zeros(g.drop_last()));
        assert(trim_zeros(g).len() == 0);
    } else {
        assert(trim_zeros(g) == g);
    }
}


/// The canonical spelling of a decimal amount with digits around its
/// point is a run of digits, with at most one point that has digits on
/// both sides, and is spelled the same way again.
pub(crate) proof fn lemma_decimal_display_fixed(s: Seq<char>)
    requires
        all_digits(before_dot(s)),
        all_digits(after_dot(s)),
    ensures
        decimal_display(s).len() > 0,
        is_digit(decimal_display(s)[0]),
        is_digit(decimal_display(s).last()),
        all_digits(before_dot(decimal_display(s))),
        all_digits(after_dot(decimal_display(s))),
        decimal_display(s).contains('.') ==> !after_dot(decimal_display(s)).contains('.'),
        forall|k: int|
            0 <= k < decimal_display(s).len() ==> is_digit(#[trigger] decimal_display(s)[k])
                || decimal_display(s)[k] == '.',
        decimal_display(decimal_display(s)) == decimal_display(s),
{
    let a = before_dot(s);
    let f = trim_zeros(after_dot(s));
    lemma_canon_int_fixed(a);
    lemma_trim_zeros_digits(after_dot(s));
    let c = canon_int(a);
    lemma_digits_no_dot(c);
    let d = decimal_display(s);
    if f.len() == 0 {
        assert(d == c);
        assert(before_dot(d) == d);
        assert(after_dot(d) == Seq::<char>::empty());
        assert(trim_zeros(after_dot(d)) == Seq::<char>::empty());
        assert(is_digit(d[0]));
        assert(is_digit(d.last()));
    } else {
        assert(d =~= c + seq!['.'] + f);
        lemma_split_at_dot(c, f);
        lemma_digits_no_dot(f);
        assert(trim_zeros(f) == f);
        assert(d[0] == c[0]);
        assert(d.last() == f.last());
        assert(is_digit(f.last()));
        assert forall|k: int| 0 <= k < d.len() implies is_digit(#[trigger] d[k]) || d[k] == '.' by {
            if k < c.len() {
                assert(d[k] == c[k]);
            } else if k > c.len() {
                assert(d[k] == f[k - c.len() - 1]);
            }
        }
    }
}

} // verus!
