//! Decimal formatting of integers, padding, and human-readable byte sizes.

use vstd::prelude::*;

use crate::text::push_char;

verus! {

/// The decimal digit for `d < 10`.
pub open spec fn digit(d: nat) -> char {
    if d == 0 {
        '0'
    } else if d == 1 {
        '1'
    } else if d == 2 {
        '2'
    } else if d == 3 {
        '3'
    } else if d == 4 {
        '4'
    } else if d == 5 {
        '5'
    } else if d == 6 {
        '6'
    } else if d == 7 {
        '7'
    } else if d == 8 {
        '8'
    } else {
        '9'
    }
}

/// The decimal representation of `n`, as `{}` prints an unsigned integer.
pub open spec fn dec(n: nat) -> Seq<char>
    decreases n,
{
    if n < 10 {
        seq![digit(n)]
    } else {
        dec(n / 10).push(digit(n % 10))
    }
}

pub(crate) fn digit_char(d: u128) -> (c: char)
    requires
        d < 10,
    ensures
        c == digit(d as nat),
{
    if d == 0 {
        '0'
    } else if d == 1 {
        '1'
    } else if d == 2 {
        '2'
    } else if d == 3 {
        '3'
    } else if d == 4 {
        '4'
    } else if d == 5 {
        '5'
    } else if d == 6 {
        '6'
    } else if d == 7 {
        '7'
    } else if d == 8 {
        '8'
    } else {
        '9'
    }
}

/// Appends the decimal representation of `n`.
pub fn push_dec(out: &mut String, n: u128)
    ensures
        final(out)@ == old(out)@ + dec(n as nat),
    decreases n,
{
    if n < 10 {
        push_char(out, digit_char(n));
        assert(dec(n as nat) == seq![digit(n as nat)]);
    } else {
        push_dec(out, n / 10);
        push_char(out, digit_char(n % 10));
        assert(dec(n as nat) == dec((n / 10) as nat).push(digit((n % 10) as nat)));
    }
}

/// The decimal representation of `n` (`n.to_string()`).
pub fn format_usize(n: usize) -> (r: String)
    ensures
        r@ == dec(n as nat),
{
    let mut s = String::new();
    push_dec(&mut s, n as u128);
    s
}

/// `n` spaces.
pub open spec fn spaces(n: nat) -> Seq<char> {
    Seq::new(n, |i: int| ' ')
}

/// `s` padded with spaces on the right to `width` characters (`{:<width}`).
pub open spec fn pad_right_spec(s: Seq<char>, width: nat) -> Seq<char> {
    if s.len() >= width {
        s
    } else {
        s + spaces((width - s.len()) as nat)
    }
}

/// `s` padded with spaces on the left to `width` characters (`{:>width}`).
pub open spec fn pad_left_spec(s: Seq<char>, width: nat) -> Seq<char> {
    if s.len() >= width {
        s
    } else {
        spaces((width - s.len()) as nat) + s
    }
}

/// Appends `n` spaces.
pub fn push_spaces(out: &mut String, n: usize)
    ensures
        final(out)@ == old(out)@ + spaces(n as nat),
{
    let mut i: usize = 0;
    while i < n
        invariant
            i <= n,
            out@ == old(out)@ + spaces(i as nat),
        decreases n - i,
    {
        push_char(out, ' ');
        assert(spaces((i + 1) as nat) =~= spaces(i as nat).push(' '));
        i = i + 1;
    }
}

/// Appends `s` padded on the right to `width` characters.
pub fn push_pad_right(out: &mut String, s: &str, width: usize)
    ensures
        final(out)@ == old(out)@ + pad_right_spec(s@, width as nat),
{
    let v = crate::text::chars_of(s);
    out.append(s);
    if v.len() < width {
        push_spaces(out, width - v.len());
    }
}

/// Appends `s` padded on the left to `width` characters.
pub fn push_pad_left(out: &mut String, s: &str, width: usize)
    ensures
        final(out)@ == old(out)@ + pad_left_spec(s@, width as nat),
{
    let v = crate::text::chars_of(s);
    if v.len() < width {
        push_spaces(out, width - v.len());
    }
    out.append(s);
}

// ---------------------------------------------------------------------------
// Byte sizes
// ---------------------------------------------------------------------------

/// `2^k`.
pub open spec fn pow2(k: nat) -> nat
    decreases k,
{
    if k == 0 {
        1
    } else {
        2 * pow2((k - 1) as nat)
    }
}

/// The number of binary digits of `n`.
pub open spec fn bit_len(n: nat) -> nat
    decreases n,
{
    if n == 0 {
        0
    } else {
        1 + bit_len(n / 2)
    }
}

/// `n` rounded to a multiple of `unit`, halves to the even multiple.
pub open spec fn round_to_multiple(n: nat, unit: nat) -> nat
    recommends
        unit > 0,
{
    let lo = (n / unit) as nat;
    let rem = (n % unit) as nat;
    if 2 * rem > unit || (2 * rem == unit && lo % 2 == 1) {
        (lo + 1) * unit
    } else {
        lo * unit
    }
}

/// The value of `n as f64`: `n` itself below `2^53`, else `n` rounded to 53
/// significant bits, halves to even.
pub open spec fn as_f64_value(n: nat) -> nat {
    if bit_len(n) <= 53 {
        n
    } else {
        round_to_multiple(n, pow2((bit_len(n) - 53) as nat))
    }
}

/// `num / den` rounded to two decimals (halves to even), as `{:.2}` prints it.
pub open spec fn fixed2(num: nat, den: nat) -> Seq<char>
    recommends
        den > 0,
{
    let q = round_to_multiple(num * 100, den) / den;
    dec(q / 100) + "."@ + seq![digit((q % 100) / 10), digit(q % 10)]
}

/// `bytes` in human-readable form: B, KB, MB or GB with two decimals.
pub open spec fn format_bytes_spec(bytes: nat) -> Seq<char> {
    let kb: nat = 1024;
    let mb: nat = 1024 * 1024;
    let gb: nat = 1024 * 1024 * 1024;
    if bytes >= gb {
        fixed2(as_f64_value(bytes), gb) + " GB"@
    } else if bytes >= mb {
        fixed2(as_f64_value(bytes), mb) + " MB"@
    } else if bytes >= kb {
        fixed2(as_f64_value(bytes), kb) + " KB"@
    } else {
        dec(bytes) + " B"@
    }
}

fn pow2_exec(k: u32) -> (r: u128)
    requires
        k <= 11,
    ensures
        r == pow2(k as nat),
        r <= 2048,
    decreases k,
{
    proof {
        lemma_pow2_small(k as nat);
    }
    if k == 0 {
        1
    } else {
        let p = pow2_exec(k - 1);
        2 * p
    }
}

/// `2^k <= 2^11 = 2048` for `k <= 11`.
proof fn lemma_pow2_small(k: nat)
    requires
        k <= 11,
    ensures
        1 <= pow2(k) <= 2048,
    decreases 11 - k,
{
    if k < 11 {
        lemma_pow2_small(k + 1);
    } else {
        reveal_with_fuel(pow2, 12);
    }
}

proof fn lemma_bit_len_bound(n: nat, k: nat)
    requires
        n < pow2(k),
    ensures
        bit_len(n) <= k,
    decreases k,
{
    if k > 0 && n > 0 {
        assert(n / 2 < pow2((k - 1) as nat));
        lemma_bit_len_bound(n / 2, (k - 1) as nat);
    }
}

fn bit_len_exec(n: u128) -> (r: u32)
    requires
        n < 0x1_0000_0000_0000_0000,
    ensures
        r == bit_len(n as nat),
        r <= 64,
    decreases n,
{
    if n == 0 {
        0
    } else {
        let b = bit_len_exec(n / 2);
        proof {
            reveal_with_fuel(pow2, 65);
            lemma_bit_len_bound(n as nat, 64);
        }
        1 + b
    }
}

/// `n` rounded to a multiple of `unit`, halves to even.
fn round_to_multiple_exec(n: u128, unit: u128) -> (r: u128)
    requires
        unit > 0,
        n + unit <= u128::MAX,
    ensures
        r == round_to_multiple(n as nat, unit as nat),
{
    let lo = n / unit;
    let rem = n % unit;
    proof {
        assert(lo * unit + rem == n) by (nonlinear_arith)
            requires
                lo == n / unit,
                rem == n % unit,
                unit > 0,
        ;
        assert((lo + 1) * unit == lo * unit + unit) by (nonlinear_arith);
    }
    if 2 * rem > unit || (2 * rem == unit && lo % 2 == 1) {
        (lo + 1) * unit
    } else {
        lo * unit
    }
}

/// The value of `n as f64`, for `n` below `2^64`.
fn as_f64_value_exec(n: u128) -> (r: u128)
    requires
        n < 0x1_0000_0000_0000_0000,
    ensures
        r == as_f64_value(n as nat),
        r <= 0x1_0000_0000_0000_0800,
{
    let b = bit_len_exec(n);
    if b <= 53 {
        n
    } else {
        proof {
            reveal_with_fuel(pow2, 65);
            lemma_bit_len_bound(n as nat, 64);
        }
        let unit = pow2_exec(b - 53);
        let r = round_to_multiple_exec(n, unit);
        proof {
            let lo = n / unit;
            assert(lo * unit <= n) by (nonlinear_arith)
                requires
                    lo == n / unit,
                    unit > 0,
            ;
            assert((lo + 1) * unit <= n + unit) by (nonlinear_arith)
                requires
                    lo * unit <= n,
            ;
        }
        r
    }
}

/// Appends `num / den` with two decimals, rounded half to even.
fn push_fixed2(out: &mut String, num: u128, den: u128)
    requires
        den > 0,
        num <= 0x1_0000_0000_0000_0800,
        den <= 0x4000_0000,
    ensures
        final(out)@ == old(out)@ + fixed2(num as nat, den as nat),
{
    let scaled = num * 100;
    let rounded = round_to_multiple_exec(scaled, den);
    let q = rounded / den;
    push_dec(out, q / 100);
    push_char(out, '.');
    push_char(out, digit_char((q % 100) / 10));
    push_char(out, digit_char(q % 10));
    proof {
        reveal_strlit(".");
    }
    assert(out@ =~= old(out)@ + fixed2(num as nat, den as nat));
}

/// Format bytes in human-readable form
pub fn format_bytes(bytes: usize) -> (r: String)
    ensures
        r@ == format_bytes_spec(bytes as nat),
{
    let kb: usize = 1024;
    let mb: usize = 1024 * 1024;
    let gb: usize = 1024 * 1024 * 1024;
    let mut out = String::new();
    assert(bytes < 0x1_0000_0000_0000_0000) by {
        assert(usize::MAX < 0x1_0000_0000_0000_0000);
    }
    if bytes >= gb {
        let v = as_f64_value_exec(bytes as u128);
        push_fixed2(&mut out, v, gb as u128);
        out.append(" GB");
    } else if bytes >= mb {
        let v = as_f64_value_exec(bytes as u128);
        push_fixed2(&mut out, v, mb as u128);
        out.append(" MB");
    } else if bytes >= kb {
        let v = as_f64_value_exec(bytes as u128);
        push_fixed2(&mut out, v, kb as u128);
        out.append(" KB");
    } else {
        push_dec(&mut out, bytes as u128);
        out.append(" B");
    }
    out
}

// ---------------------------------------------------------------------------
// Signed integers
// ---------------------------------------------------------------------------

/// The decimal representation of `i`, with a minus sign when it is
/// negative, as `{}` prints a signed integer.
pub open spec fn int_text(i: int) -> Seq<char> {
    if i < 0 {
        seq!['-'] + dec((-i) as nat)
    } else {
        dec(i as nat)
    }
}

/// Appends the decimal representation of `i` (`i.to_string()`).
pub fn push_int(out: &mut String, i: i64)
    ensures
        final(out)@ == old(out)@ + int_text(i as int),
{
    if i < 0 {
        push_char(out, '-');
        let m: i128 = -(i as i128);
        push_dec(out, m as u128);
        assert(old(out)@.push('-') + dec(m as nat) =~= old(out)@ + (seq!['-'] + dec(m as nat)));
    } else {
        push_dec(out, i as u128);
    }
}

/// `c` is one of the ASCII digits `0` to `9`.
pub open spec fn is_digit(c: char) -> bool {
    '0' <= c <= '9'
}

/// The number written by a string of decimal digits.
pub open spec fn digits_value(d: Seq<char>) -> int
    decreases d.len(),
{
    if d.len() == 0 {
        0
    } else {
        digits_value(d.drop_last()) * 10 + (d.last() as int - '0' as int)
    }
}

/// The number a string writes as an optional `+` or `-` sign followed by
/// one or more decimal digits and nothing else; `None` for any other string.
pub open spec fn decimal_value(s: Seq<char>) -> Option<int> {
    let signed = s.len() > 0 && (s[0] == '+' || s[0] == '-');
    let body = if signed {
        s.drop_first()
    } else {
        s
    };
    if body.len() > 0 && forall|i: int| 0 <= i < body.len() ==> #[trigger] is_digit(body[i]) {
        Some(
            if signed && s[0] == '-' {
                -digits_value(body)
            } else {
                digits_value(body)
            },
        )
    } else {
        None
    }
}

/// The `i64` a string parses to, if it writes one in range.
pub open spec fn parsed_i64(s: Seq<char>) -> Option<i64> {
    match decimal_value(s) {
        Some(v) => if i64::MIN <= v <= i64::MAX {
            Some(v as i64)
        } else {
            None
        },
        None => None,
    }
}

/// `str::parse::<i64>`, as its documentation states it: an optional sign
/// followed by decimal digits only, in the range of `i64`; anything else,
/// the empty string, whitespace and underscores included, is an error.
#[verifier::external_body]
pub(crate) fn parse_i64(s: &str) -> (r: Option<i64>)
    ensures
        r == parsed_i64(s@),
{
    s.parse::<i64>().ok()
}

} // verus!
