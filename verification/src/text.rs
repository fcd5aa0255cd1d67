//! Verified text operations used by argument validation: substring search
//! and decimal parsing of a 16-bit number.

use vstd::prelude::*;
use vstd::string::StrSliceExecFns;

verus! {

/// True when `pat` occurs in `s` starting at character position `i`.
pub open spec fn matches_at(s: Seq<char>, pat: Seq<char>, i: int) -> bool {
    0 <= i && i + pat.len() <= s.len() && s.subrange(i, i + pat.len()) == pat
}

/// True when `pat` occurs somewhere in `s`.
pub open spec fn contains_sub_spec(s: Seq<char>, pat: Seq<char>) -> bool {
    exists|i: int| matches_at(s, pat, i)
}

/// Whether `pat` matches `s` at character position `i`.
fn match_at_idx(s: &str, pat: &str, i: usize) -> (is_match: bool)
    requires
        i + pat@.len() <= s@.len(),
    ensures
        is_match == matches_at(s@, pat@, i as int),
{
    let n: usize = s.unicode_len();
    let m: usize = pat.unicode_len();
    let mut j: usize = 0;
    while j < m
        invariant
            j <= m,
            n == s@.len(),
            m == pat@.len(),
            i + m <= n,
            forall|k: int| 0 <= k < j ==> s@[i + k] == pat@[k],
        decreases m - j,
    {
        if s.get_char(i + j) != pat.get_char(j) {
            proof {
                assert(s@.subrange(i as int, i + m)[j as int] == s@[i + j]);
            }
            return false;
        }
        j += 1;
    }
    proof {
        assert(s@.subrange(i as int, i + m) =~= pat@);
    }
    true
}

/// Whether `pat` occurs anywhere in `s`; the check the original command-line
/// flags are recognized by.
pub fn contains_sub(s: &str, pat: &str) -> (found: bool)
    ensures
        found == contains_sub_spec(s@, pat@),
{
    let n: usize = s.unicode_len();
    let m: usize = pat.unicode_len();
    if m > n {
        return false;
    }
    if m == 0 {
        proof {
            assert(s@.subrange(0, 0) =~= pat@);
            assert(matches_at(s@, pat@, 0));
        }
        return true;
    }
    let mut i: usize = 0;
    while i <= n - m
        invariant
            1 <= m <= n,
            n == s@.len(),
            m == pat@.len(),
            i <= n - m + 1,
            forall|k: int| 0 <= k < i ==> !matches_at(s@, pat@, k),
        decreases n - m + 1 - i,
    {
        if match_at_idx(s, pat, i) {
            return true;
        }
        i += 1;
    }
    false
}

/// True when `c` is a decimal digit.
pub open spec fn is_digit_char(c: char) -> bool {
    48 <= c as u32 && c as u32 <= 57
}

/// The numeric value of a decimal digit.
pub open spec fn digit_value(c: char) -> int {
    c as u32 - 48
}

/// True when every character of `s` is a decimal digit.
pub open spec fn all_digit_chars(s: Seq<char>) -> bool {
    forall|k: int| 0 <= k < s.len() ==> is_digit_char(#[trigger] s[k])
}

/// The number denoted by a sequence of decimal digits, most significant first.
pub open spec fn digits_value(s: Seq<char>) -> int
    decreases s.len(),
{
    if s.len() == 0 {
        0
    } else {
        digits_value(s.drop_last()) * 10 + digit_value(s.last())
    }
}

/// What `u16::from_str` accepts: an optional leading plus sign, then one or
/// more decimal digits denoting a value of at most 65535.
pub open spec fn spec_parse_u16(s: Seq<char>) -> Option<u16> {
    let ds = if s.len() > 0 && s[0] == '+' { s.skip(1) } else { s };
    if ds.len() > 0 && all_digit_chars(ds) && digits_value(ds) <= 65535 {
        Some(digits_value(ds) as u16)
    } else {
        None
    }
}

proof fn lemma_digits_value_nonneg(s: Seq<char>)
    requires
        all_digit_chars(s),
    ensures
        digits_value(s) >= 0,
    decreases s.len(),
{
    if s.len() > 0 {
        assert(all_digit_chars(s.drop_last()));
        lemma_digits_value_nonneg(s.drop_last());
    }
}

/// Reading more digits can only increase the denoted value.
proof fn lemma_digits_value_prefix(s: Seq<char>, k: int)
    requires
        all_digit_chars(s),
        0 <= k <= s.len(),
    ensures
        digits_value(s) >= digits_value(s.take(k)),
    decreases s.len() - k,
{
    if k == s.len() {
        assert(s.take(k) =~= s);
    } else {
        assert(all_digit_chars(s.take(k)));
        lemma_digits_value_nonneg(s.take(k));
        assert(s.take(k + 1).drop_last() =~= s.take(k));
        assert(s.take(k + 1).last() == s[k]);
        lemma_digits_value_prefix(s, k + 1);
    }
}

/// Parses a decimal `u16`, accepting exactly what `u16::from_str` accepts.
pub fn parse_u16(s: &str) -> (parsed: Option<u16>)
    ensures
        parsed == spec_parse_u16(s@),
{
    let n: usize = s.unicode_len();
    let offset: usize = if n > 0 && s.get_char(0) == '+' {
        1
    } else {
        0
    };
    let ghost ds = if s@.len() > 0 && s@[0] == '+' { s@.skip(1) } else { s@ };
    proof {
        assert(ds =~= s@.subrange(offset as int, n as int));
    }
    if offset >= n {
        return None;
    }
    let mut val: u32 = 0;
    let mut j: usize = offset;
    while j < n
        invariant
            offset <= j <= n,
            n == s@.len(),
            ds == s@.subrange(offset as int, n as int),
            ds == (if s@.len() > 0 && s@[0] == '+' { s@.skip(1) } else { s@ }),
            ds.len() == n - offset,
            all_digit_chars(ds.take(j - offset)),
            val == digits_value(ds.take(j - offset)),
            val <= 65535,
        decreases n - j,
    {
        let c = s.get_char(j);
        let d: u32 = c as u32;
        proof {
            assert(ds[j - offset] == s@[j as int]);
        }
        if d < 48 || d > 57 {
            proof {
                assert(!is_digit_char(ds[j - offset]));
                assert(!all_digit_chars(ds));
                assert(spec_parse_u16(s@) is None);
            }
            return None;
        }
        let dv: u32 = d - 48;
        let newval: u32 = val * 10 + dv;
        proof {
            assert(ds.take(j - offset + 1).drop_last() =~= ds.take(j - offset));
            assert(ds.take(j - offset + 1).last() == ds[j - offset]);
            assert(digits_value(ds.take(j - offset + 1)) == newval);
            assert(all_digit_chars(ds.take(j - offset + 1)));
        }
        if newval > 65535 {
            proof {
                if all_digit_chars(ds) && digits_value(ds) <= 65535 {
                    lemma_digits_value_prefix(ds, j - offset + 1);
                    assert(false);
                }
                assert(spec_parse_u16(s@) is None);
            }
            return None;
        }
        val = newval;
        j += 1;
    }
    proof {
        assert(ds.take(n - offset) =~= ds);
    }
    Some(val as u16)
}

} // verus!
