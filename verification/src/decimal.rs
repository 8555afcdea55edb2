//! Decimal formatting (`{:0width$}`) and parsing (`str::parse` for `i64`
//! and `u32`) of integers, over sequences of characters.

use vstd::prelude::*;
use crate::text::{lemma_seq_lt_concat, seq_lt};

verus! {

/// The ASCII character of a decimal digit.
pub open spec fn digit_char(d: int) -> char {
    (d + 48) as char
}

pub open spec fn is_digit(c: char) -> bool {
    '0' <= c && c <= '9'
}

pub open spec fn digit_value(c: char) -> int {
    (c as int) - 48
}

/// Shortest decimal representation of `n` (no sign, no leading zeros).
pub open spec fn decimal(n: nat) -> Seq<char>
    decreases n,
{
    if n < 10 {
        seq![digit_char(n as int)]
    } else {
        decimal(n / 10).push(digit_char((n % 10) as int))
    }
}

/// `width` copies of `'0'`.
pub open spec fn zeros(width: int) -> Seq<char> {
    Seq::new(if width > 0 { width as nat } else { 0 }, |i: int| '0')
}

/// `n` printed with `{:0width$}`: left-padded with zeros to at least `width`.
pub open spec fn zero_padded(n: nat, width: int) -> Seq<char> {
    zeros(width - decimal(n).len()) + decimal(n)
}

/// A signed integer printed with `{:0width$}`: the sign counts toward the
/// width and the zeros go between the sign and the digits.
pub open spec fn signed_zero_padded(v: int, width: int) -> Seq<char> {
    if v < 0 {
        seq!['-'] + zero_padded((-v) as nat, width - 1)
    } else {
        zero_padded(v as nat, width)
    }
}

/// Every character is an ASCII digit.
pub open spec fn all_digits(s: Seq<char>) -> bool {
    forall|i: int| 0 <= i < s.len() ==> is_digit(#[trigger] s[i])
}

/// Value of a string of decimal digits (leading zeros allowed).
pub open spec fn digits_value(s: Seq<char>) -> nat
    decreases s.len(),
{
    if s.len() == 0 {
        0
    } else {
        (digits_value(s.drop_last()) * 10 + digit_value(s.last())) as nat
    }
}

/// The digit part accepted by `str::parse`: a non-empty run of digits.
pub open spec fn parse_magnitude(s: Seq<char>) -> Option<nat> {
    if s.len() > 0 && all_digits(s) {
        Some(digits_value(s))
    } else {
        None
    }
}

/// `str::parse::<u32>()`: optional `+`, then digits; value must fit.
pub open spec fn parse_u32_spec(s: Seq<char>) -> Option<u32> {
    let body = if s.len() > 0 && s[0] == '+' { s.skip(1) } else { s };
    match parse_magnitude(body) {
        Some(v) => if v <= u32::MAX { Some(v as u32) } else { None },
        None => None,
    }
}

/// `str::parse::<i64>()`: optional `+` or `-`, then digits; value must fit.
pub open spec fn parse_i64_spec(s: Seq<char>) -> Option<i64> {
    if s.len() > 0 && s[0] == '-' {
        match parse_magnitude(s.skip(1)) {
            Some(v) => if v <= i64::MAX + 1 { Some((-v) as i64) } else { None },
            None => None,
        }
    } else {
        let body = if s.len() > 0 && s[0] == '+' { s.skip(1) } else { s };
        match parse_magnitude(body) {
            Some(v) => if v <= i64::MAX { Some(v as i64) } else { None },
            None => None,
        }
    }
}

// ───────────────────────────── lemmas ─────────────────────────────

pub proof fn lemma_decimal_digits(n: nat)
    ensures
        all_digits(decimal(n)),
        decimal(n).len() >= 1,
    decreases n,
{
    if n >= 10 {
        lemma_decimal_digits(n / 10);
    }
}

pub proof fn lemma_digits_value_append(s: Seq<char>, t: Seq<char>)
    requires
        all_digits(t),
    ensures
        digits_value(s + t) == digits_value(s) * pow10(t.len()) + digits_value(t),
    decreases t.len(),
{
    if t.len() == 0 {
        assert(s + t =~= s);
        assert(digits_value(t) == 0);
        assert(pow10(0) == 1);
        assert(digits_value(s) * 1 == digits_value(s));
    } else {
        let u = t.drop_last();
        assert(is_digit(t[t.len() - 1]));
        assert((s + t).drop_last() =~= s + u);
        assert((s + t).last() == t.last());
        assert(all_digits(u)) by {
            assert forall|i: int| 0 <= i < u.len() implies is_digit(#[trigger] u[i]) by {
                assert(u[i] == t[i]);
            }
        }
        lemma_digits_value_append(s, u);
        let a = digits_value(s);
        let p = pow10(u.len());
        let dl = digit_value(t.last());
        assert(0 <= dl < 10);
        assert(digits_value(s + t) == digits_value(s + u) * 10 + dl);
        assert(digits_value(t) == digits_value(u) * 10 + dl);
        assert(pow10(t.len()) == p * 10);
        assert((a * p + digits_value(u)) * 10 + digit_value(t.last()) == a * (p * 10)
            + (digits_value(u) * 10 + digit_value(t.last()))) by (nonlinear_arith);
    }
}

/// 10 to the power `k`.
pub open spec fn pow10(k: nat) -> nat
    decreases k,
{
    if k == 0 {
        1
    } else {
        10 * pow10((k - 1) as nat)
    }
}

pub proof fn lemma_zeros_value(k: int)
    ensures
        digits_value(zeros(k)) == 0,
        all_digits(zeros(k)),
    decreases if k > 0 { k } else { 0 },
{
    if k > 0 {
        assert(zeros(k).drop_last() =~= zeros(k - 1));
        lemma_zeros_value(k - 1);
    } else {
        assert(zeros(k) =~= Seq::<char>::empty());
    }
}

pub proof fn lemma_digit_char(d: int)
    requires
        0 <= d < 10,
    ensures
        digit_value(digit_char(d)) == d,
        is_digit(digit_char(d)),
{
}

pub proof fn lemma_decimal_value(n: nat)
    ensures
        digits_value(decimal(n)) == n,
    decreases n,
{
    lemma_digit_char((n % 10) as int);
    if n >= 10 {
        lemma_decimal_value(n / 10);
        assert(decimal(n).drop_last() =~= decimal(n / 10));
        assert(decimal(n).last() == digit_char((n % 10) as int));
        assert(digits_value(decimal(n)) == digits_value(decimal(n / 10)) * 10 + (n % 10));
        assert((n / 10) * 10 + n % 10 == n);
    } else {
        assert(decimal(n).drop_last() =~= Seq::<char>::empty());
        lemma_digit_char(n as int);
        assert(digits_value(Seq::<char>::empty()) == 0);
        assert(decimal(n).last() == digit_char(n as int));
    }
}

pub proof fn lemma_zero_padded_value(n: nat, width: int)
    ensures
        digits_value(zero_padded(n, width)) == n,
        all_digits(zero_padded(n, width)),
        zero_padded(n, width).len() >= 1,
{
    let z = zeros(width - decimal(n).len());
    lemma_zeros_value(width - decimal(n).len());
    lemma_decimal_digits(n);
    lemma_decimal_value(n);
    lemma_digits_value_append(z, decimal(n));
    assert forall|i: int| 0 <= i < (z + decimal(n)).len() implies is_digit(
        #[trigger] (z + decimal(n))[i],
    ) by {
        if i < z.len() {
            assert((z + decimal(n))[i] == z[i]);
        } else {
            assert((z + decimal(n))[i] == decimal(n)[i - z.len()]);
        }
    }
}

/// A digit string's value is at least that of any of its prefixes.
pub proof fn lemma_digits_value_prefix(s: Seq<char>, k: int)
    requires
        0 <= k <= s.len(),
        all_digits(s),
    ensures
        digits_value(s.take(k)) <= digits_value(s),
    decreases s.len() - k,
{
    if k < s.len() {
        lemma_digits_value_prefix(s, k + 1);
        assert(s.take(k + 1).drop_last() =~= s.take(k));
        assert(is_digit(s[k]));
    } else {
        assert(s.take(k) =~= s);
    }
}

/// Two digit strings of the same length compare (as strings) exactly as
/// their values compare.
pub proof fn lemma_digit_strings_order(a: Seq<char>, b: Seq<char>)
    requires
        a.len() == b.len(),
        all_digits(a),
        all_digits(b),
    ensures
        seq_lt(a, b) <==> digits_value(a) < digits_value(b),
        a == b <==> digits_value(a) == digits_value(b),
    decreases a.len(),
{
    if a.len() == 0 {
        assert(a =~= b);
    } else {
        let a1 = a.drop_last();
        let b1 = b.drop_last();
        let x = a.last();
        let y = b.last();
        assert(is_digit(a[a.len() - 1]));
        assert(is_digit(b[b.len() - 1]));
        assert(all_digits(a1)) by {
            assert forall|i: int| 0 <= i < a1.len() implies is_digit(#[trigger] a1[i]) by {
                assert(a1[i] == a[i]);
            }
        }
        assert(all_digits(b1)) by {
            assert forall|i: int| 0 <= i < b1.len() implies is_digit(#[trigger] b1[i]) by {
                assert(b1[i] == b[i]);
            }
        }
        lemma_digit_strings_order(a1, b1);
        assert(a =~= a1 + seq![x]);
        assert(b =~= b1 + seq![y]);
        lemma_seq_lt_concat(a1, b1, seq![x], seq![y]);
        assert(seq_lt(seq![x], seq![y]) <==> x < y) by {
            reveal_with_fuel(seq_lt, 2);
            assert(seq![x][0] == x);
            assert(seq![y][0] == y);
            assert(seq![x].drop_first().len() == 0);
            assert(seq![y].drop_first().len() == 0);
        }
        let va = digits_value(a1);
        let vb = digits_value(b1);
        let dx = digit_value(x);
        let dy = digit_value(y);
        assert(digits_value(a) == va * 10 + dx);
        assert(digits_value(b) == vb * 10 + dy);
        assert(0 <= dx < 10 && 0 <= dy < 10);
        if va < vb {
            assert(va * 10 + dx < vb * 10 + dy) by (nonlinear_arith)
                requires
                    va < vb,
                    0 <= dx < 10,
                    0 <= dy < 10,
            ;
        } else if vb < va {
            assert(vb * 10 + dy < va * 10 + dx) by (nonlinear_arith)
                requires
                    vb < va,
                    0 <= dx < 10,
                    0 <= dy < 10,
            ;
        } else {
            assert(a1 == b1);
            if x == y {
                assert(a =~= b);
            }
            if a == b {
                assert(x == a[a.len() - 1]);
            }
        }
    }
}

pub proof fn lemma_decimal_len(n: nat, k: nat)
    requires
        k >= 1,
        n < pow10(k),
    ensures
        decimal(n).len() <= k,
    decreases n,
{
    if n >= 10 {
        assert(k >= 2) by {
            if k == 1 {
                assert(pow10(1) == 10 * pow10(0));
            }
        }
        let k1 = (k - 1) as nat;
        assert(pow10(k) == 10 * pow10(k1));
        assert(n / 10 < pow10(k1));
        lemma_decimal_len(n / 10, k1);
    }
}

pub proof fn lemma_zero_padded_len(n: nat, width: nat)
    requires
        width >= 1,
        n < pow10(width),
    ensures
        zero_padded(n, width as int).len() == width,
{
    lemma_decimal_len(n, width);
}

/// Fixed-width zero-padded numbers sort as strings in numeric order.
pub proof fn lemma_zero_padded_order(m: nat, n: nat, width: nat)
    requires
        width >= 1,
        m < pow10(width),
        n < pow10(width),
    ensures
        seq_lt(zero_padded(m, width as int), zero_padded(n, width as int)) <==> m < n,
        zero_padded(m, width as int) == zero_padded(n, width as int) <==> m == n,
{
    lemma_zero_padded_len(m, width);
    lemma_zero_padded_len(n, width);
    lemma_zero_padded_value(m, width as int);
    lemma_zero_padded_value(n, width as int);
    lemma_digit_strings_order(zero_padded(m, width as int), zero_padded(n, width as int));
}

// ──────────────────────────── exec code ────────────────────────────

fn digit_to_char(d: u64) -> (c: char)
    requires
        d < 10,
    ensures
        c == digit_char(d as int),
{
    let b: u8 = (d as u8) + 48u8;
    b as char
}

/// Shortest decimal digits of `n`.
pub fn decimal_chars(n: u64) -> (v: Vec<char>)
    ensures
        v@ == decimal(n as nat),
{
    let mut m: u64 = n;
    let mut v: Vec<char> = Vec::new();
    loop
        invariant_except_break
            m > 0 || v@.len() == 0,
            m > 0 ==> decimal(n as nat) == decimal(m as nat) + v@,
            m == 0 ==> n == 0 && v@.len() == 0,
        ensures
            v@ == decimal(n as nat),
        decreases m,
    {
        let d = m % 10;
        let c = digit_to_char(d);
        let ghost old_v = v@;
        let ghost old_m = m;
        v.insert(0, c);
        m = m / 10;
        proof {
            if old_m >= 10 {
                assert(decimal(old_m as nat) == decimal(m as nat).push(c));
                assert(decimal(m as nat) + v@ =~= decimal(m as nat).push(c) + old_v);
            } else {
                assert(v@ =~= seq![c] + old_v);
                assert(decimal(old_m as nat) =~= seq![c]);
            }
        }
        if m == 0 {
            proof {
                if old_m < 10 {
                    if n == 0 {
                        assert(decimal(n as nat) =~= seq![digit_char(0)]);
                    }
                }
            }
            break;
        }
    }
    v
}

/// Appends `n` formatted as `{:0width$}`.
pub fn push_zero_padded(out: &mut Vec<char>, n: u64, width: usize)
    ensures
        final(out)@ == old(out)@ + zero_padded(n as nat, width as int),
{
    let digits = decimal_chars(n);
    let ghost start = out@;
    let mut k: usize = digits.len();
    while k < width
        invariant
            digits@ == decimal(n as nat),
            digits.len() <= k <= width || k == digits.len(),
            out@ == start + zeros(k - digits.len()),
        decreases width - k,
    {
        out.push('0');
        k = k + 1;
        proof {
            assert(start + zeros(k - digits.len()) =~= (start + zeros(k - 1 - digits.len())).push('0'));
        }
    }
    let ghost mid = out@;
    let mut i: usize = 0;
    while i < digits.len()
        invariant
            0 <= i <= digits.len(),
            out@ == mid + digits@.take(i as int),
        decreases digits.len() - i,
    {
        out.push(digits[i]);
        i = i + 1;
        proof {
            assert(digits@.take(i as int) =~= digits@.take(i - 1).push(digits@[i - 1]));
        }
    }
    proof {
        assert(digits@.take(i as int) =~= digits@);
        assert(zeros(k - digits.len()) =~= zeros(width - decimal(n as nat).len()));
    }
}

/// Appends a signed `v` formatted as `{:0width$}`.
pub fn push_signed_zero_padded(out: &mut Vec<char>, v: i64, width: usize)
    requires
        width >= 1,
    ensures
        final(out)@ == old(out)@ + signed_zero_padded(v as int, width as int),
{
    if v < 0 {
        let m: u64 = (0i128 - (v as i128)) as u64;
        let ghost start = out@;
        out.push('-');
        push_zero_padded(out, m, width - 1);
        proof {
            assert(out@ =~= start + (seq!['-'] + zero_padded(m as nat, width - 1)));
        }
    } else {
        push_zero_padded(out, v as u64, width);
    }
}

fn char_digit(c: char) -> (r: Option<u8>)
    ensures
        r is Some <==> is_digit(c),
        r matches Some(d) ==> d == digit_value(c) && d < 10,
{
    if '0' <= c && c <= '9' {
        let x: u32 = c as u32;
        Some((x - 48) as u8)
    } else {
        None
    }
}

/// Parses a non-empty run of digits whose value is at most `limit`.
fn parse_magnitude_bounded(s: &[char], limit: u64) -> (r: Option<u64>)
    ensures
        r matches Some(v) ==> parse_magnitude(s@) == Some(v as nat) && v <= limit,
        r is None ==> !(parse_magnitude(s@) matches Some(m) && m <= limit),
{
    if s.len() == 0 {
        return None;
    }
    let mut acc: u64 = 0;
    let mut i: usize = 0;
    while i < s.len()
        invariant
            0 <= i <= s.len(),
            acc as nat == digits_value(s@.take(i as int)),
            all_digits(s@.take(i as int)),
            acc <= limit,
        decreases s.len() - i,
    {
        let ghost pre = s@.take(i as int);
        assert(s@.take(i + 1).drop_last() =~= pre);
        match char_digit(s[i]) {
            None => {
                proof {
                    assert(!is_digit(s@[i as int]));
                }
                return None;
            },
            Some(d) => {
                let wide: u128 = (acc as u128) * 10 + (d as u128);
                if wide > limit as u128 {
                    proof {
                        if all_digits(s@) {
                            lemma_digits_value_prefix(s@, i + 1);
                        }
                    }
                    return None;
                }
                acc = wide as u64;
                i = i + 1;
                proof {
                    assert forall|j: int| 0 <= j < s@.take(i as int).len() implies is_digit(
                        #[trigger] s@.take(i as int)[j],
                    ) by {
                        if j < i - 1 {
                            assert(s@.take(i as int)[j] == pre[j]);
                        }
                    }
                }
            },
        }
    }
    assert(s@.take(i as int) =~= s@);
    Some(acc)
}

/// `str::parse::<u32>()` over characters.
pub fn parse_u32(s: &[char]) -> (r: Option<u32>)
    ensures
        r == parse_u32_spec(s@),
{
    let body: &[char] = if s.len() > 0 && s[0] == '+' {
        slice_skip(s, 1)
    } else {
        s
    };
    proof {
        if s@.len() > 0 && s@[0] == '+' {
            assert(body@ =~= s@.skip(1));
        }
    }
    match parse_magnitude_bounded(body, 4294967295u64) {
        Some(v) => Some(v as u32),
        None => None,
    }
}

/// `str::parse::<i64>()` over characters.
pub fn parse_i64(s: &[char]) -> (r: Option<i64>)
    ensures
        r == parse_i64_spec(s@),
{
    if s.len() > 0 && s[0] == '-' {
        let body = slice_skip(s, 1);
        assert(body@ =~= s@.skip(1));
        match parse_magnitude_bounded(body, 9223372036854775808u64) {
            Some(v) => Some((0i128 - (v as i128)) as i64),
            None => None,
        }
    } else {
        let body: &[char] = if s.len() > 0 && s[0] == '+' {
            slice_skip(s, 1)
        } else {
            s
        };
        proof {
            if s@.len() > 0 && s@[0] == '+' {
                assert(body@ =~= s@.skip(1));
            }
        }
        match parse_magnitude_bounded(body, 9223372036854775807u64) {
            Some(v) => Some(v as i64),
            None => None,
        }
    }
}

/// The tail of a slice after its first `n` elements (`&s[n..]`).
pub fn slice_skip<T>(s: &[T], n: usize) -> (r: &[T])
    requires
        n <= s@.len(),
    ensures
        r@ == s@.skip(n as int),
{
    vstd::slice::slice_subrange(s, n, s.len())
}

} // verus!
