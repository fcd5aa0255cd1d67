//! The collector's final step: ordering the gathered results for the report.
//!
//! Workers deliver open ports in no guaranteed order; the report must list
//! them ascending.  Sorting rearranges only — every collected port appears in
//! the report exactly as often as it was collected — and sorting an
//! already-sorted collection changes nothing.

use vstd::prelude::*;
use vstd::relations::sorted_by;
use vstd::relations::total_ordering;
use vstd::seq_lib::lemma_multiset_commutative;
use vstd::seq_lib::lemma_sorted_unique;
use vstd::string::StringExecFns;
use crate::text::all_digit_chars;
use crate::text::digit_value;
use crate::text::digits_value;
use crate::text::is_digit_char;
use crate::text::spec_parse_u16;

verus! {

broadcast use vstd::seq_lib::group_to_multiset_ensures, vstd::multiset::group_multiset_axioms;

/// True when the ports appear in ascending order.
pub open spec fn sorted_asc(s: Seq<u16>) -> bool {
    forall|a: int, b: int| 0 <= a < b < s.len() ==> s[a] <= s[b]
}

/// Sorts the collected ports ascending for the final report.  The result is
/// a reordering of the input — nothing is added, dropped, or duplicated —
/// and an input already in order comes back unchanged.
pub fn sort_ports(ports: &Vec<u16>) -> (sorted_ports: Vec<u16>)
    ensures
        sorted_asc(sorted_ports@),
        sorted_ports@.to_multiset() == ports@.to_multiset(),
        sorted_asc(ports@) ==> sorted_ports@ == ports@,
{
    let mut out: Vec<u16> = Vec::new();
    let mut idx: usize = 0;
    while idx < ports.len()
        invariant
            idx <= ports@.len(),
            sorted_asc(out@),
            out@.to_multiset() == ports@.take(idx as int).to_multiset(),
        decreases ports@.len() - idx,
    {
        let x: u16 = ports[idx];
        let mut pos: usize = 0;
        while pos < out.len() && out[pos] <= x
            invariant
                pos <= out@.len(),
                forall|k: int| 0 <= k < pos ==> out@[k] <= x,
            decreases out@.len() - pos,
        {
            pos += 1;
        }
        proof {
            let prev = out@;
            prev.insert_ensures(pos as int, x);
            // The inserted sequence is still sorted: everything left of `pos`
            // is at most `x`, everything right of it exceeds `x`.
            assert forall|a: int, b: int|
                0 <= a < b < prev.insert(pos as int, x).len() implies prev.insert(pos as int, x)[a]
                <= prev.insert(pos as int, x)[b] by {
                let ins = prev.insert(pos as int, x);
                if a < pos && b > pos {
                    assert(ins[a] == prev[a] && ins[b] == prev[b - 1]);
                    if b - 1 >= pos {
                        assert(prev[b - 1] > x || b - 1 == pos - 1);
                    }
                }
            }
            // Inserting `x` adds exactly one occurrence of `x`.
            let s1 = prev.subrange(0, pos as int);
            let s2 = prev.subrange(pos as int, prev.len() as int);
            lemma_multiset_commutative(s1.push(x), s2);
            lemma_multiset_commutative(s1, s2);
            assert(prev =~= s1 + s2);
            assert(prev.insert(pos as int, x) =~= s1.push(x) + s2);
            assert(s1.push(x).to_multiset() =~= s1.to_multiset().insert(x));
            assert(prev.insert(pos as int, x).to_multiset() =~= prev.to_multiset().insert(x));
            assert(ports@.take(idx + 1 as int) =~= ports@.take(idx as int).push(x));
            assert(ports@.take(idx as int).push(x).to_multiset() =~= ports@.take(
                idx as int,
            ).to_multiset().insert(x));
        }
        out.insert(pos, x);
        idx += 1;
    }
    proof {
        assert(ports@.take(ports@.len() as int) =~= ports@);
        if sorted_asc(ports@) {
            let leq = |a: u16, b: u16| a <= b;
            assert(total_ordering(leq));
            assert(sorted_by(out@, leq));
            assert(sorted_by(ports@, leq));
            lemma_sorted_unique(out@, ports@, leq);
        }
    }
    out
}

/// The character for one decimal digit.
pub open spec fn digit_char(d: int) -> char {
    if d == 0 {
        '0'
    } else if d == 1 {
        '1'
    } else if d == 2 {
        '2'
    } else if d == 3 {
        '3'
    } else if d == 4 {
        '4'
    } else if d == 5 {
        '5'
    } else if d == 6 {
        '6'
    } else if d == 7 {
        '7'
    } else if d == 8 {
        '8'
    } else {
        '9'
    }
}

/// The decimal rendering of `n`, most significant digit first, with no
/// leading zeros (a single zero for 0).
pub open spec fn spec_decimal(n: int) -> Seq<char>
    decreases n,
{
    if n < 10 {
        seq![digit_char(n)]
    } else {
        spec_decimal(n / 10) + seq![digit_char(n % 10)]
    }
}

/// One decimal digit as text.
fn digit_str(d: u16) -> (s: &'static str)
    requires
        d < 10,
    ensures
        s@ == seq![digit_char(d as int)],
{
    let s: &'static str = match d {
        0 => "0",
        1 => "1",
        2 => "2",
        3 => "3",
        4 => "4",
        5 => "5",
        6 => "6",
        7 => "7",
        8 => "8",
        _ => "9",
    };
    proof {
        reveal_strlit("0");
        reveal_strlit("1");
        reveal_strlit("2");
        reveal_strlit("3");
        reveal_strlit("4");
        reveal_strlit("5");
        reveal_strlit("6");
        reveal_strlit("7");
        reveal_strlit("8");
        reveal_strlit("9");
        assert(s@ =~= seq![digit_char(d as int)]);
    }
    s
}

/// Renders `n` in decimal.
fn decimal_string(n: u16) -> (s: String)
    ensures
        s@ == spec_decimal(n as int),
    decreases n,
{
    if n < 10 {
        String::from_str(digit_str(n))
    } else {
        let mut s = decimal_string(n / 10);
        s.append(digit_str(n % 10));
        proof {
            assert(s@ =~= spec_decimal(n as int));
        }
        s
    }
}

/// One line of the final report: the port in decimal, annotated as open.
pub fn format_port_line(port: u16) -> (line: String)
    ensures
        line@ == spec_decimal(port as int) + " is open"@,
{
    let mut line = decimal_string(port);
    line.append(" is open");
    line
}

proof fn lemma_spec_decimal_digits(n: int)
    requires
        0 <= n,
    ensures
        all_digit_chars(spec_decimal(n)),
        digits_value(spec_decimal(n)) == n,
        spec_decimal(n).len() >= 1,
        is_digit_char(spec_decimal(n)[0]),
    decreases n,
{
    assert(digits_value(Seq::<char>::empty()) == 0);
    if n < 10 {
        assert(seq![digit_char(n)].drop_last() =~= Seq::<char>::empty());
        assert(digit_value(digit_char(n)) == n);
        assert(digits_value(seq![digit_char(n)]) == n);
    } else {
        lemma_spec_decimal_digits(n / 10);
        let s = spec_decimal(n);
        assert(s.drop_last() =~= spec_decimal(n / 10));
        assert(s.last() == digit_char(n % 10));
        assert(digit_value(digit_char(n % 10)) == n % 10);
        assert(digits_value(s) == digits_value(spec_decimal(n / 10)) * 10 + digit_value(
            digit_char(n % 10),
        ));
        assert(n / 10 * 10 + n % 10 == n);
        assert(all_digit_chars(s));
    }
}

/// A rendered port parses back to the same number: the report lines name
/// exactly the ports that were found.
pub proof fn lemma_decimal_round_trip(n: int)
    requires
        0 <= n <= 65535,
    ensures
        spec_parse_u16(spec_decimal(n)) == Some(n as u16),
{
    lemma_spec_decimal_digits(n);
    let s = spec_decimal(n);
    assert(s[0] != '+');
}

} // verus!
