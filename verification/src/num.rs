//! Decimal and hexadecimal numerals: parsing character sequences into
//! integers and rendering integers back into decimal text.

use vstd::prelude::*;

verus! {

// ── Digits ──────────────────────────────────────────────────────────────────

pub open spec fn is_digit(c: char) -> bool {
    48 <= c as u32 <= 57
}

pub open spec fn digit_val(c: char) -> int {
    c as u32 - 48
}

pub open spec fn is_hex_digit(c: char) -> bool {
    is_digit(c) || 97 <= c as u32 <= 102 || 65 <= c as u32 <= 70
}

pub open spec fn hex_digit_val(c: char) -> int {
    if is_digit(c) {
        digit_val(c)
    } else if 97 <= c as u32 <= 102 {
        c as u32 - 87
    } else {
        c as u32 - 55
    }
}

/// The character for a decimal digit value.
pub open spec fn dec_digit_char(d: int) -> char {
    if d == 0 { '0' }
    else if d == 1 { '1' }
    else if d == 2 { '2' }
    else if d == 3 { '3' }
    else if d == 4 { '4' }
    else if d == 5 { '5' }
    else if d == 6 { '6' }
    else if d == 7 { '7' }
    else if d == 8 { '8' }
    else { '9' }
}

// ── Values of digit strings ─────────────────────────────────────────────────

pub open spec fn all_digits(s: Seq<char>) -> bool {
    forall|i: int| 0 <= i < s.len() ==> is_digit(#[trigger] s[i])
}

pub open spec fn all_hex_digits(s: Seq<char>) -> bool {
    forall|i: int| 0 <= i < s.len() ==> is_hex_digit(#[trigger] s[i])
}

/// The value of a string of decimal digits.
pub open spec fn dec_value_of(s: Seq<char>) -> int
    decreases s.len(),
{
    if s.len() == 0 {
        0
    } else {
        dec_value_of(s.drop_last()) * 10 + digit_val(s.last())
    }
}

/// The value of a string of hexadecimal digits.
pub open spec fn hex_value_of(s: Seq<char>) -> int
    decreases s.len(),
{
    if s.len() == 0 {
        0
    } else {
        hex_value_of(s.drop_last()) * 16 + hex_digit_val(s.last())
    }
}

/// An unsigned decimal numeral: one or more digits.
pub open spec fn dec_u64(s: Seq<char>) -> Option<int> {
    if s.len() > 0 && all_digits(s) {
        Some(dec_value_of(s))
    } else {
        None
    }
}

/// A signed decimal numeral whose value fits in `i64`.
pub open spec fn dec_i64_in_range(s: Seq<char>) -> Option<i64> {
    match dec_i64(s) {
        Some(v) => if i64::MIN <= v <= i64::MAX {
            Some(v as i64)
        } else {
            None
        },
        None => None,
    }
}

/// A signed decimal numeral: an optional sign, then one or more digits.
pub open spec fn dec_i64(s: Seq<char>) -> Option<int> {
    if s.len() >= 1 && (s[0] == '-' || s[0] == '+') {
        match dec_u64(s.skip(1)) {
            Some(v) => Some(if s[0] == '-' { -v } else { v }),
            None => None,
        }
    } else {
        dec_u64(s)
    }
}

pub proof fn lemma_dec_value_nonneg(s: Seq<char>)
    requires
        all_digits(s),
    ensures
        dec_value_of(s) >= 0,
    decreases s.len(),
{
    if s.len() > 0 {
        assert(all_digits(s.drop_last()));
        lemma_dec_value_nonneg(s.drop_last());
    }
}

/// A digit-string prefix never exceeds the whole string in value.
pub proof fn lemma_dec_value_prefix(s: Seq<char>, i: int)
    requires
        all_digits(s),
        0 <= i <= s.len(),
    ensures
        dec_value_of(s.take(i)) <= dec_value_of(s),
    decreases s.len() - i,
{
    if i < s.len() {
        lemma_dec_value_prefix(s, i + 1);
        assert(s.take(i + 1).drop_last() =~= s.take(i));
        assert(all_digits(s.take(i)));
        lemma_dec_value_nonneg(s.take(i));
        assert(dec_value_of(s.take(i + 1)) == dec_value_of(s.take(i)) * 10 + digit_val(
            s.take(i + 1).last(),
        ));
    } else {
        assert(s.take(i) =~= s);
    }
}

pub proof fn lemma_hex_value_nonneg(s: Seq<char>)
    requires
        all_hex_digits(s),
    ensures
        hex_value_of(s) >= 0,
    decreases s.len(),
{
    if s.len() > 0 {
        assert(all_hex_digits(s.drop_last()));
        lemma_hex_value_nonneg(s.drop_last());
    }
}

pub proof fn lemma_hex_value_prefix(s: Seq<char>, i: int)
    requires
        all_hex_digits(s),
        0 <= i <= s.len(),
    ensures
        hex_value_of(s.take(i)) <= hex_value_of(s),
    decreases s.len() - i,
{
    if i < s.len() {
        lemma_hex_value_prefix(s, i + 1);
        assert(s.take(i + 1).drop_last() =~= s.take(i));
        assert(all_hex_digits(s.take(i)));
        lemma_hex_value_nonneg(s.take(i));
        assert(hex_value_of(s.take(i + 1)) == hex_value_of(s.take(i)) * 16 + hex_digit_val(
            s.take(i + 1).last(),
        ));
    } else {
        assert(s.take(i) =~= s);
    }
}

// ── Parsing ─────────────────────────────────────────────────────────────────

/// Parse an unsigned decimal numeral, rejecting values beyond `u64`.
pub fn parse_u64_chars(v: &Vec<char>) -> (r: Option<u64>)
    ensures
        match r {
            Some(x) => dec_u64(v@) == Some(x as int),
            None => dec_u64(v@) is None || dec_u64(v@).unwrap() > u64::MAX,
        },
{
    let n = v.len();
    if n == 0 {
        return None;
    }
    let mut acc: u64 = 0;
    let mut i: usize = 0;
    while i < n
        invariant
            i <= n,
            n == v@.len(),
            all_digits(v@.take(i as int)),
            acc == dec_value_of(v@.take(i as int)),
        decreases n - i,
    {
        let c = v[i];
        let cv = c as u32;
        if cv < 48 || cv > 57 {
            return None;
        }
        let d: u64 = (cv - 48) as u64;
        proof {
            assert(v@.take(i + 1).drop_last() =~= v@.take(i as int));
            assert(all_digits(v@.take(i + 1)));
        }
        if acc > (u64::MAX - d) / 10 {
            proof {
                lemma_dec_value_nonneg(v@.take(i + 1));
                if all_digits(v@) {
                    lemma_dec_value_prefix(v@, i + 1);
                    assert(dec_value_of(v@.take(i + 1)) == acc * 10 + d > u64::MAX);
                }
            }
            return None;
        }
        acc = acc * 10 + d;
        i = i + 1;
    }
    proof {
        assert(v@.take(n as int) =~= v@);
    }
    Some(acc)
}

/// Parse a signed decimal numeral, rejecting values outside `i64`.
pub fn parse_i64_chars(v: &Vec<char>) -> (r: Option<i64>)
    ensures
        r == dec_i64_in_range(v@),
{
    let n = v.len();
    if n == 0 {
        return None;
    }
    let c0 = v[0];
    let (neg, digits) = if c0 == '-' {
        (true, crate::text::subrange_chars(v, 1, n))
    } else if c0 == '+' {
        (false, crate::text::subrange_chars(v, 1, n))
    } else {
        (false, crate::text::subrange_chars(v, 0, n))
    };
    proof {
        if c0 == '-' || c0 == '+' {
            assert(digits@ =~= v@.skip(1));
        } else {
            assert(digits@ =~= v@);
        }
    }
    let mag = match parse_u64_chars(&digits) {
        Some(m) => m,
        None => {
            proof {
                if dec_u64(digits@) is Some {
                    assert(dec_u64(digits@).unwrap() > u64::MAX >= i64::MAX);
                }
            }
            return None;
        },
    };
    if neg {
        if mag > 9223372036854775808u64 {
            return None;
        }
        if mag == 9223372036854775808u64 {
            return Some(i64::MIN);
        }
        Some(-(mag as i64))
    } else {
        if mag > 9223372036854775807u64 {
            return None;
        }
        Some(mag as i64)
    }
}

/// Parse an unsigned hexadecimal numeral, rejecting values beyond `usize`.
pub fn parse_hex_usize_chars(v: &Vec<char>) -> (r: Option<usize>)
    ensures
        match r {
            Some(x) => v@.len() > 0 && all_hex_digits(v@) && hex_value_of(v@) == x as int,
            None => v@.len() == 0 || !all_hex_digits(v@) || hex_value_of(v@) > usize::MAX,
        },
{
    let n = v.len();
    if n == 0 {
        return None;
    }
    let mut acc: usize = 0;
    let mut i: usize = 0;
    while i < n
        invariant
            i <= n,
            n == v@.len(),
            all_hex_digits(v@.take(i as int)),
            acc == hex_value_of(v@.take(i as int)),
        decreases n - i,
    {
        let c = v[i];
        let cv = c as u32;
        let d: usize = if 48 <= cv && cv <= 57 {
            (cv - 48) as usize
        } else if 97 <= cv && cv <= 102 {
            (cv - 87) as usize
        } else if 65 <= cv && cv <= 70 {
            (cv - 55) as usize
        } else {
            return None;
        };
        proof {
            assert(v@.take(i + 1).drop_last() =~= v@.take(i as int));
            assert(all_hex_digits(v@.take(i + 1)));
        }
        if acc > (usize::MAX - d) / 16 {
            proof {
                lemma_hex_value_nonneg(v@.take(i + 1));
                if all_hex_digits(v@) {
                    lemma_hex_value_prefix(v@, i + 1);
                    assert(hex_value_of(v@.take(i + 1)) == acc * 16 + d > usize::MAX);
                }
            }
            return None;
        }
        acc = acc * 16 + d;
        i = i + 1;
    }
    proof {
        assert(v@.take(n as int) =~= v@);
    }
    Some(acc)
}

// ── Rendering ───────────────────────────────────────────────────────────────

/// The decimal numeral of an unsigned value.
pub open spec fn u64_dec_digits(n: int) -> Seq<char>
    decreases n,
{
    if n < 10 {
        seq![dec_digit_char(n)]
    } else {
        u64_dec_digits(n / 10).push(dec_digit_char(n % 10))
    }
}

/// The decimal numeral of a signed value.
pub open spec fn i64_dec_digits(n: int) -> Seq<char> {
    if n < 0 {
        seq!['-'] + u64_dec_digits(-n)
    } else {
        u64_dec_digits(n)
    }
}

fn dec_digit_of(d: u64) -> (c: char)
    requires
        d < 10,
    ensures
        c == dec_digit_char(d as int),
{
    if d == 0 { '0' }
    else if d == 1 { '1' }
    else if d == 2 { '2' }
    else if d == 3 { '3' }
    else if d == 4 { '4' }
    else if d == 5 { '5' }
    else if d == 6 { '6' }
    else if d == 7 { '7' }
    else if d == 8 { '8' }
    else { '9' }
}

/// Append the decimal numeral of `n` to `out`.
pub fn push_u64_dec(n: u64, out: &mut Vec<char>)
    ensures
        final(out)@ == old(out)@ + u64_dec_digits(n as int),
    decreases n,
{
    if n >= 10 {
        push_u64_dec(n / 10, out);
        out.push(dec_digit_of(n % 10));
        proof {
            assert(final(out)@ =~= old(out)@ + u64_dec_digits(n as int));
        }
    } else {
        out.push(dec_digit_of(n));
        proof {
            assert(final(out)@ =~= old(out)@ + u64_dec_digits(n as int));
        }
    }
}

/// Append the decimal numeral of `n` to `out`, with a sign when negative.
pub fn push_i64_dec(n: i64, out: &mut Vec<char>)
    ensures
        final(out)@ == old(out)@ + i64_dec_digits(n as int),
{
    if n < 0 {
        out.push('-');
        let mag: u64 = if n == i64::MIN {
            9223372036854775808u64
        } else {
            (-n) as u64
        };
        push_u64_dec(mag, out);
        proof {
            assert(final(out)@ =~= old(out)@ + i64_dec_digits(n as int));
        }
    } else {
        push_u64_dec(n as u64, out);
    }
}

/// The decimal numeral of an unsigned value, as a string.
pub fn u64_to_dec_string(n: u64) -> (s: String)
    ensures
        s@ == u64_dec_digits(n as int),
{
    let mut out: Vec<char> = Vec::new();
    push_u64_dec(n, &mut out);
    crate::text::chars_to_string(&out)
}

/// The decimal numeral of a signed value, as a string.
pub fn i64_to_dec_string(n: i64) -> (s: String)
    ensures
        s@ == i64_dec_digits(n as int),
{
    let mut out: Vec<char> = Vec::new();
    push_i64_dec(n, &mut out);
    crate::text::chars_to_string(&out)
}

} // verus!
