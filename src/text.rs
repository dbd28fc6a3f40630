use vstd::prelude::*;

verus! {

/// Position of the last `c` in `s`, or -1 when there is none.
pub open spec fn last_index(s: Seq<char>, c: char) -> int
    decreases s.len(),
{
    if s.len() == 0 {
        -1
    } else if s.last() == c {
        s.len() - 1
    } else {
        last_index(s.drop_last(), c)
    }
}

/// A decimal digit.
pub open spec fn is_digit(c: char) -> bool {
    '0' <= c && c <= '9'
}

/// Every character is a decimal digit.
pub open spec fn all_digits(s: Seq<char>) -> bool {
    forall|i: int| 0 <= i < s.len() ==> is_digit(#[trigger] s[i])
}

/// The value of a string of decimal digits.
pub open spec fn digits_value(s: Seq<char>) -> nat
    decreases s.len(),
{
    if s.len() == 0 {
        0
    } else {
        digits_value(s.drop_last()) * 10 + (s.last() as u32 - '0' as u32) as nat
    }
}

/// The characters of a string.
pub(crate) fn chars_of(s: &str) -> (r: Vec<char>)
    ensures
        r@ == s@,
{
    let n = s.unicode_len();
    let mut r: Vec<char> = Vec::new();
    let mut i: usize = 0;
    while i < n
        invariant
            0 <= i <= n,
            n == s@.len(),
            r@ == s@.take(i as int),
        decreases n - i,
    {
        r.push(s.get_char(i));
        i = i + 1;
        assert(r@ =~= s@.take(i as int));
    }
    assert(s@.take(n as int) =~= s@);
    r
}

/// Position of the last `c` in `v[lo..hi]`, counted from `lo`, or -1.
pub(crate) fn find_last(v: &Vec<char>, lo: usize, hi: usize, c: char) -> (r: Option<usize>)
    requires
        lo <= hi <= v@.len(),
    ensures
        last_index(v@.subrange(lo as int, hi as int), c) == match r {
            Some(i) => i as int,
            None => -1,
        },
        r matches Some(i) ==> i < hi - lo,
{
    let ghost s = v@.subrange(lo as int, hi as int);
    assert(s.take(hi - lo) =~= s);
    let mut j: usize = hi;
    while j > lo
        invariant
            lo <= j <= hi <= v@.len(),
            s == v@.subrange(lo as int, hi as int),
            last_index(s, c) == last_index(s.take(j - lo), c),
        decreases j,
    {
        let ghost t = s.take(j - lo);
        assert(t.last() == v@[j - 1]);
        if v[j - 1] == c {
            return Some(j - 1 - lo);
        }
        assert(t.drop_last() =~= s.take(j - 1 - lo));
        j = j - 1;
    }
    None
}

/// A prefix of a string of digits is worth no more than the whole.
proof fn lemma_digits_value_prefix(s: Seq<char>, k: int)
    requires
        0 <= k <= s.len(),
        all_digits(s),
    ensures
        digits_value(s.take(k)) <= digits_value(s),
    decreases s.len(),
{
    if k < s.len() {
        assert(s.drop_last().take(k) =~= s.take(k));
        assert forall|i: int| 0 <= i < s.drop_last().len() implies is_digit(#[trigger] s.drop_last()[i]) by {
            assert(is_digit(s[i]));
        }
        lemma_digits_value_prefix(s.drop_last(), k);
    } else {
        assert(s.take(k) =~= s);
    }
}

/// The value of the digits `v[lo..hi]`, when they are all digits and the value is at most `limit`.
pub(crate) fn digits_in(v: &Vec<char>, lo: usize, hi: usize, limit: u64) -> (r: Option<u64>)
    requires
        lo <= hi <= v@.len(),
    ensures
        r == (if all_digits(v@.subrange(lo as int, hi as int)) && digits_value(v@.subrange(lo as int, hi as int))
            <= limit {
            Some(digits_value(v@.subrange(lo as int, hi as int)) as u64)
        } else {
            None::<u64>
        }),
{
    let ghost t = v@.subrange(lo as int, hi as int);
    let mut acc: u128 = 0;
    let mut k: usize = lo;
    while k < hi
        invariant
            lo <= k <= hi <= v@.len(),
            t == v@.subrange(lo as int, hi as int),
            all_digits(t.take(k - lo)),
            acc == digits_value(t.take(k - lo)),
            acc <= limit,
        decreases hi - k,
    {
        let c = v[k];
        assert(t[k - lo] == c);
        if !('0' <= c && c <= '9') {
            assert(!is_digit(t[k - lo]));
            return None;
        }
        assert(t.take(k + 1 - lo).drop_last() =~= t.take(k - lo));
        acc = acc * 10 + (c as u32 - '0' as u32) as u128;
        k = k + 1;
        assert(all_digits(t.take(k - lo)));
        if acc > limit as u128 {
            proof {
                if all_digits(t) {
                    lemma_digits_value_prefix(t, k - lo);
                }
            }
            return None;
        }
    }
    assert(t.take(hi - lo) =~= t);
    Some(acc as u64)
}

/// Whether `v[lo..hi]` is all decimal digits.
pub(crate) fn all_digits_in(v: &Vec<char>, lo: usize, hi: usize) -> (r: bool)
    requires
        lo <= hi <= v@.len(),
    ensures
        r == all_digits(v@.subrange(lo as int, hi as int)),
{
    let ghost t = v@.subrange(lo as int, hi as int);
    let mut k: usize = lo;
    while k < hi
        invariant
            lo <= k <= hi <= v@.len(),
            t == v@.subrange(lo as int, hi as int),
            all_digits(t.take(k - lo)),
        decreases hi - k,
    {
        assert(t[k - lo] == v@[k as int]);
        if !('0' <= v[k] && v[k] <= '9') {
            assert(!is_digit(t[k - lo]));
            return false;
        }
        k = k + 1;
        assert(all_digits(t.take(k - lo)));
    }
    assert(t.take(hi - lo) =~= t);
    true
}

} // verus!
