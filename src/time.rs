use vstd::prelude::*;
use vstd::string::*;

use crate::text::{all_digits, all_digits_in, chars_of, digits_in, digits_value, find_last, is_digit, last_index};

verus! {

/// The character of a decimal digit.
pub open spec fn digit_char(d: nat) -> char {
    if d == 0 { '0' }
    else if d == 1 { '1' }
    else if d == 2 { '2' }
    else if d == 3 { '3' }
    else if d == 4 { '4' }
    else if d == 5 { '5' }
    else if d == 6 { '6' }
    else if d == 7 { '7' }
    else if d == 8 { '8' }
    else { '9' }
}

/// The shortest decimal spelling of `n`.
pub open spec fn decimal(n: nat) -> Seq<char>
    decreases n,
{
    if n < 10 {
        seq![digit_char(n)]
    } else {
        decimal(n / 10).push(digit_char(n % 10))
    }
}

/// `n` in decimal, left-padded with zeros to at least `width` characters.
pub open spec fn zero_padded(n: nat, width: nat) -> Seq<char> {
    let d = decimal(n);
    if d.len() >= width {
        d
    } else {
        Seq::new((width - d.len()) as nat, |i: int| '0') + d
    }
}

/// `HH:MM:SS,mmm` of a time in milliseconds.
pub open spec fn srt_time(ms: nat) -> Seq<char> {
    zero_padded(ms / 3_600_000, 2) + seq![':'] + zero_padded((ms / 60_000) % 60, 2) + seq![':']
        + zero_padded((ms / 1000) % 60, 2) + seq![','] + zero_padded(ms % 1000, 3)
}

/// `H:MM:SS.CC` of a time in milliseconds; the centiseconds are truncated.
pub open spec fn ass_time(ms: nat) -> Seq<char> {
    zero_padded(ms / 3_600_000, 1) + seq![':'] + zero_padded((ms / 60_000) % 60, 2) + seq![':']
        + zero_padded((ms / 1000) % 60, 2) + seq!['.'] + zero_padded((ms % 1000) / 10, 2)
}

/// A time in milliseconds as decimal seconds with three fractional digits (`12.340`).
pub open spec fn seconds_text(ms: nat) -> Seq<char> {
    decimal(ms / 1000) + seq!['.'] + zero_padded(ms % 1000, 3)
}

fn digit_str(d: u64) -> (r: &'static str)
    requires
        d < 10,
    ensures
        r@ == seq![digit_char(d as nat)],
{
    proof {
        reveal_strlit("0");
        reveal_strlit("1");
        reveal_strlit("2");
        reveal_strlit("3");
        reveal_strlit("4");
        reveal_strlit("5");
        reveal_strlit("6");
        reveal_strlit("7");
        reveal_strlit("8");
        reveal_strlit("9");
    }
    match d {
        0 => "0",
        1 => "1",
        2 => "2",
        3 => "3",
        4 => "4",
        5 => "5",
        6 => "6",
        7 => "7",
        8 => "8",
        _ => "9",
    }
}

/// Decimal spelling of `n`.
pub fn to_decimal(n: u64) -> (r: String)
    ensures
        r@ == decimal(n as nat),
    decreases n,
{
    if n < 10 {
        String::from_str(digit_str(n))
    } else {
        let mut s = to_decimal(n / 10);
        s.append(digit_str(n % 10));
        s
    }
}

/// Appends `n` in decimal, zero-padded to `width` characters, to `out`.
pub fn push_padded(out: &mut String, n: u64, width: usize)
    ensures
        final(out)@ == old(out)@ + zero_padded(n as nat, width as nat),
{
    let d = to_decimal(n);
    let len = d.as_str().unicode_len();
    let ghost start = out@;
    if len < width {
        let mut i: usize = len;
        while i < width
            invariant
                len <= i <= width,
                len == decimal(n as nat).len(),
                out@ == start + Seq::new((i - len) as nat, |k: int| '0'),
            decreases width - i,
        {
            proof {
                reveal_strlit("0");
            }
            out.append("0");
            i = i + 1;
            proof {
                assert(out@ =~= start + Seq::new((i - len) as nat, |k: int| '0'));
            }
        }
    }
    out.append(d.as_str());
    proof {
        let z = zero_padded(n as nat, width as nat);
        if len < width {
            assert(final(out)@ =~= start + z);
        } else {
            assert(final(out)@ =~= start + z);
        }
    }
}

/// Formats a time in milliseconds as `HH:MM:SS,mmm`.
pub fn format_time_srt(ms: u64) -> (r: String)
    ensures
        r@ == srt_time(ms as nat),
{
    let mut s = String::new();
    push_padded(&mut s, ms / 3_600_000, 2);
    proof { reveal_strlit(":"); reveal_strlit(","); }
    s.append(":");
    push_padded(&mut s, (ms / 60_000) % 60, 2);
    s.append(":");
    push_padded(&mut s, (ms / 1000) % 60, 2);
    s.append(",");
    push_padded(&mut s, ms % 1000, 3);
    assert(s@ =~= srt_time(ms as nat));
    s
}

/// Formats a time in milliseconds as `H:MM:SS.CC`, truncating to centiseconds.
pub fn format_time_ass(ms: u64) -> (r: String)
    ensures
        r@ == ass_time(ms as nat),
{
    let mut s = String::new();
    push_padded(&mut s, ms / 3_600_000, 1);
    proof { reveal_strlit(":"); reveal_strlit("."); }
    s.append(":");
    push_padded(&mut s, (ms / 60_000) % 60, 2);
    s.append(":");
    push_padded(&mut s, (ms / 1000) % 60, 2);
    s.append(".");
    push_padded(&mut s, (ms % 1000) / 10, 2);
    assert(s@ =~= ass_time(ms as nat));
    s
}

/// Appends a time in milliseconds as decimal seconds (`12.340`) to `out`.
pub fn push_seconds(out: &mut String, ms: u64)
    ensures
        final(out)@ == old(out)@ + seconds_text(ms as nat),
{
    let d = to_decimal(ms / 1000);
    out.append(d.as_str());
    proof { reveal_strlit("."); }
    out.append(".");
    push_padded(out, ms % 1000, 3);
    assert(final(out)@ =~= old(out)@ + seconds_text(ms as nat));
}

/// Milliseconds in the first three digits of a fraction, padded with zeros.
pub open spec fn fraction_millis(f: Seq<char>) -> nat {
    digits_value((f + seq!['0', '0', '0']).take(3))
}

/// Milliseconds in a decimal number of seconds (`12` or `12.345`): the whole seconds and the
/// first three fractional digits; further digits are dropped.
pub open spec fn seconds_value(s: Seq<char>) -> Option<nat> {
    let d = last_index(s, '.');
    if d < 0 {
        if s.len() > 0 && all_digits(s) {
            Some(digits_value(s) * 1000)
        } else {
            None
        }
    } else if d > 0 && d + 1 < s.len() && all_digits(s.take(d)) && all_digits(s.skip(d + 1)) {
        Some(digits_value(s.take(d)) * 1000 + fraction_millis(s.skip(d + 1)))
    } else {
        None
    }
}

/// The milliseconds of a decimal number of seconds, when it is one and fits in `u64`.
pub open spec fn millis_of(s: Seq<char>) -> Option<u64> {
    match seconds_value(s) {
        Some(v) => if v <= u64::MAX {
            Some(v as u64)
        } else {
            None
        },
        None => None,
    }
}

proof fn lemma_short_digits(f: Seq<char>)
    requires
        f.len() <= 3,
        all_digits(f),
    ensures
        digits_value(f) <= 999,
        f.len() == 3 ==> fraction_millis(f) == digits_value(f),
        f.len() == 2 ==> fraction_millis(f) == digits_value(f) * 10,
        f.len() == 1 ==> fraction_millis(f) == digits_value(f) * 100,
{
    reveal_with_fuel(digits_value, 4);
    let z = seq!['0', '0', '0'];
    if f.len() >= 1 {
        assert(is_digit(f[0]));
    }
    if f.len() >= 2 {
        assert(is_digit(f[1]));
    }
    if f.len() >= 3 {
        assert(is_digit(f[2]));
        assert(f.drop_last().drop_last() =~= seq![f[0]]);
        assert(f.drop_last().drop_last().drop_last() =~= Seq::<char>::empty());
    }
    if f.len() == 2 {
        assert(f.drop_last() =~= seq![f[0]]);
        assert(f.drop_last().drop_last() =~= Seq::<char>::empty());
    }
    let p = (f + z).take(3);
    if f.len() == 3 {
        assert(p =~= f);
    } else if f.len() == 2 {
        assert(p.drop_last() =~= f);
    } else if f.len() == 1 {
        assert(p.drop_last().drop_last() =~= f);
    }
    if f.len() == 1 {
        assert(seq![f[0]].drop_last() =~= Seq::<char>::empty());
    }
}

/// Reads a decimal number of seconds as milliseconds, keeping three fractional digits.
pub fn parse_seconds(text: &str) -> (r: Option<u64>)
    ensures
        r == millis_of(text@),
{
    let v = chars_of(text);
    let n = v.len();
    assert(v@.subrange(0, n as int) =~= text@);
    match find_last(&v, 0, n, '.') {
        None => {
            if n == 0 {
                return None;
            }
            match digits_in(&v, 0, n, 18446744073709551615) {
                None => None,
                Some(x) => {
                    if x > 18446744073709551 {
                        None
                    } else {
                        Some(x * 1000)
                    }
                },
            }
        },
        Some(d) => {
            if d == 0 || d + 1 >= n {
                return None;
            }
            assert(v@.subrange(0, d as int) =~= text@.take(d as int));
            assert(v@.subrange(d + 1, n as int) =~= text@.skip(d + 1));
            let whole = match digits_in(&v, 0, d, 18446744073709551615) {
                None => {
                    return None;
                },
                Some(x) => x,
            };
            if !all_digits_in(&v, d + 1, n) {
                return None;
            }
            let fe: usize = if n - (d + 1) >= 3 { d + 4 } else { n };
            let ghost f = text@.skip(d + 1);
            assert(v@.subrange(d + 1, fe as int) =~= f.take(fe - d - 1));
            proof {
                lemma_short_digits(f.take(fe - d - 1));
                if fe - d - 1 == 3 {
                    assert((f + seq!['0', '0', '0']).take(3) =~= (f.take(3) + seq!['0', '0', '0']).take(3));
                } else {
                    assert(f.take(fe - d - 1) =~= f);
                }
            }
            let fx = match digits_in(&v, d + 1, fe, 999) {
                Some(x) => x,
                None => {
                    return None;
                },
            };
            let frac = if fe - d - 1 == 3 {
                fx
            } else if fe - d - 1 == 2 {
                fx * 10
            } else {
                fx * 100
            };
            assert(frac == fraction_millis(f));
            if whole > 18446744073709551 {
                return None;
            }
            let base = whole * 1000;
            if base > 18446744073709551615 - frac {
                return None;
            }
            Some(base + frac)
        },
    }
}

} // verus!
