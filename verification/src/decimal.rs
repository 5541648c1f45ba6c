//! Decimal index keys.
//!
//! The vector object kind intercepts property names that read as element
//! indices: a local name is an index exactly when it is a nonempty string of
//! decimal digits whose value fits in `usize`. This module gives that rule
//! an exact meaning (`is_index_str`, `dec_value`) together with the verified
//! parser and formatter the object kinds use.

use vstd::prelude::*;

verus! {

/// Whether `c` is a decimal digit.
pub open spec fn is_digit(c: char) -> bool {
    48 <= c as u32 <= 57
}

/// The numeric value of the digit `c`.
pub open spec fn digit_of(c: char) -> nat {
    (c as u32 - 48) as nat
}

/// Whether every character of `s` is a decimal digit.
pub open spec fn is_digit_seq(s: Seq<char>) -> bool {
    forall|i: int| 0 <= i < s.len() ==> is_digit(s[i])
}

/// The value of a digit string read most-significant first.
pub open spec fn dec_value(s: Seq<char>) -> nat
    decreases s.len(),
{
    if s.len() == 0 {
        0
    } else {
        dec_value(s.drop_last()) * 10 + digit_of(s.last())
    }
}

/// Whether the local name `s` denotes an element index: nonempty, all
/// digits, and small enough to fit in `usize`.
pub open spec fn is_index_str(s: Seq<char>) -> bool {
    s.len() > 0 && is_digit_seq(s) && dec_value(s) <= usize::MAX as nat
}

/// The value of a digit sequence read least-significant first.
pub open spec fn lsb_value(v: Seq<u8>) -> nat
    decreases v.len(),
{
    if v.len() == 0 {
        0
    } else {
        (v[0] + 10 * lsb_value(v.drop_first())) as nat
    }
}

/// Ten to the `k`.
pub open spec fn pow10(k: nat) -> nat
    decreases k,
{
    if k == 0 {
        1
    } else {
        10 * pow10((k - 1) as nat)
    }
}

/// A digit string's value only grows as more digits follow.
pub proof fn lemma_dec_value_prefix_le(s: Seq<char>, i: int)
    requires
        0 <= i <= s.len(),
        is_digit_seq(s),
    ensures
        dec_value(s.subrange(0, i)) <= dec_value(s),
    decreases s.len() - i,
{
    if i < s.len() {
        assert(s.subrange(0, i + 1).drop_last() =~= s.subrange(0, i));
        assert(dec_value(s.subrange(0, i + 1)) == dec_value(s.subrange(0, i)) * 10 + digit_of(
            s.subrange(0, i + 1).last(),
        ));
        assert(dec_value(s.subrange(0, i)) <= dec_value(s.subrange(0, i)) * 10) by (nonlinear_arith);
        lemma_dec_value_prefix_le(s, i + 1);
    } else {
        assert(s.subrange(0, i) =~= s);
    }
}

/// Appending a digit at the low end raises the value by that digit times
/// the next power of ten.
pub proof fn lemma_lsb_value_push(v: Seq<u8>, d: u8)
    ensures
        lsb_value(v.push(d)) == lsb_value(v) + d * pow10(v.len()),
    decreases v.len(),
{
    if v.len() == 0 {
        assert(v.push(d).drop_first() =~= Seq::<u8>::empty());
        assert(v.push(d)[0] == d);
        assert(lsb_value(v.push(d)) == (d + 10 * lsb_value(v.push(d).drop_first())) as nat);
        assert(lsb_value(Seq::<u8>::empty()) == 0);
        assert(pow10(0) == 1);
    } else {
        assert(v.push(d).drop_first() =~= v.drop_first().push(d));
        lemma_lsb_value_push(v.drop_first(), d);
        assert(lsb_value(v.push(d)) == v[0] + 10 * (lsb_value(v.drop_first()) + d * pow10(
            (v.len() - 1) as nat,
        )));
        assert(10 * (lsb_value(v.drop_first()) + d * pow10((v.len() - 1) as nat)) == 10 * lsb_value(
            v.drop_first(),
        ) + d * (10 * pow10((v.len() - 1) as nat))) by (nonlinear_arith);
    }
}

/// Parse a local name as an element index. Returns the value exactly when
/// the name is a nonempty digit string whose value fits in `usize`.
pub fn parse_index(s: &str) -> (r: Option<usize>)
    ensures
        r is Some <==> is_index_str(s@),
        r is Some ==> r->0 as nat == dec_value(s@),
{
    let n = s.unicode_len();
    if n == 0 {
        return None;
    }
    let mut acc: usize = 0;
    let mut i: usize = 0;
    while i < n
        invariant
            0 <= i <= n,
            n == s@.len(),
            forall|j: int| 0 <= j < i ==> is_digit(s@[j]),
            acc as nat == dec_value(s@.subrange(0, i as int)),
        decreases n - i,
    {
        let c = s.get_char(i);
        let cv = c as u32;
        if cv < 48 || cv > 57 {
            return None;
        }
        let d = (cv - 48) as usize;
        proof {
            assert(s@.subrange(0, i + 1).drop_last() =~= s@.subrange(0, i as int));
            assert(dec_value(s@.subrange(0, i + 1)) == acc * 10 + d);
        }
        if acc > usize::MAX / 10 || (acc == usize::MAX / 10 && d > usize::MAX % 10) {
            // The value of the whole string can only be larger still.
            proof {
                assert(acc * 10 + d > usize::MAX) by (nonlinear_arith)
                    requires
                        acc > usize::MAX / 10 || (acc == usize::MAX / 10 && d > usize::MAX % 10),
                        usize::MAX == 10 * (usize::MAX / 10) + usize::MAX % 10,
                ;
                if is_digit_seq(s@) {
                    lemma_dec_value_prefix_le(s@, i + 1);
                }
            }
            return None;
        }
        proof {
            assert(acc * 10 + d <= usize::MAX) by (nonlinear_arith)
                requires
                    acc <= usize::MAX / 10,
                    acc < usize::MAX / 10 || d <= usize::MAX % 10,
                    d <= 9,
                    usize::MAX == 10 * (usize::MAX / 10) + usize::MAX % 10,
            ;
        }
        acc = acc * 10 + d;
        i = i + 1;
    }
    proof {
        assert(s@.subrange(0, n as int) =~= s@);
    }
    Some(acc)
}

/// The one-character string for the digit `d`.
fn digit_str(d: u8) -> (r: &'static str)
    requires
        d < 10,
    ensures
        r@.len() == 1,
        r@[0] as u32 == 48 + d,
{
    proof {
        reveal_strlit("0");
        reveal_strlit("1");
        reveal_strlit("2");
        reveal_strlit("3");
        reveal_strlit("4");
        reveal_strlit("5");
        reveal_strlit("6");
        reveal_strlit("7");
        reveal_strlit("8");
        reveal_strlit("9");
    }
    if d == 0 {
        "0"
    } else if d == 1 {
        "1"
    } else if d == 2 {
        "2"
    } else if d == 3 {
        "3"
    } else if d == 4 {
        "4"
    } else if d == 5 {
        "5"
    } else if d == 6 {
        "6"
    } else if d == 7 {
        "7"
    } else if d == 8 {
        "8"
    } else {
        "9"
    }
}

/// Format `n` as its decimal digit string. The result always parses back to
/// `n`: it is a nonempty digit string with value `n`.
pub fn format_index(n: usize) -> (r: String)
    ensures
        is_digit_seq(r@),
        r@.len() >= 1,
        dec_value(r@) == n as nat,
        is_index_str(r@),
{
    let mut digits: Vec<u8> = Vec::new();
    let ghost pre = digits@;
    proof {
        lemma_lsb_value_push(pre, (n % 10) as u8);
    }
    digits.push((n % 10) as u8);
    let mut rest: usize = n / 10;
    proof {
        assert(pow10(0) == 1);
        assert(pow10(1) == 10);
        assert(digits@ == pre.push((n % 10) as u8));
        assert(lsb_value(pre) == 0);
        assert(lsb_value(digits@) == 0 + ((n % 10) as u8) * pow10(pre.len()));
        assert(pre.len() == 0);
        assert(pow10(pre.len()) == 1);
        assert(((n % 10) as u8) as nat == (n % 10) as nat);
        assert(lsb_value(digits@) == n % 10);
        assert(n as nat == n % 10 + (n / 10) * 10) by (nonlinear_arith);
        assert(rest * pow10(digits@.len()) == (n / 10) * 10);
    }
    while rest > 0
        invariant
            n as nat == lsb_value(digits@) + rest * pow10(digits@.len()),
            forall|j: int| 0 <= j < digits@.len() ==> digits@[j] < 10,
            digits@.len() >= 1,
        decreases rest,
    {
        let d = (rest % 10) as u8;
        let next = rest / 10;
        proof {
            lemma_lsb_value_push(digits@, d);
            assert(rest * pow10(digits@.len()) == d * pow10(digits@.len()) + next * (10 * pow10(
                digits@.len(),
            ))) by (nonlinear_arith)
                requires
                    d == rest % 10,
                    next == rest / 10,
            ;
            assert(next < rest) by (nonlinear_arith)
                requires
                    next == rest / 10,
                    rest > 0,
            ;
        }
        digits.push(d);
        rest = next;
    }
    let mut out = String::new();
    let mut j: usize = digits.len();
    while j > 0
        invariant
            0 <= j <= digits@.len(),
            forall|k: int| 0 <= k < digits@.len() ==> digits@[k] < 10,
            is_digit_seq(out@),
            out@.len() == digits@.len() - j,
            dec_value(out@) == lsb_value(digits@.subrange(j as int, digits@.len() as int)),
        decreases j,
    {
        let d = digits[j - 1];
        let piece = digit_str(d);
        proof {
            let tail = digits@.subrange(j as int, digits@.len() as int);
            let tail2 = digits@.subrange(j - 1, digits@.len() as int);
            assert(tail2.drop_first() =~= tail);
            assert((out@ + piece@).drop_last() =~= out@);
            assert(lsb_value(tail2) == d + 10 * lsb_value(tail));
            assert(dec_value(out@ + piece@) == dec_value(out@) * 10 + digit_of((out@
                + piece@).last()));
        }
        out.append(piece);
        j = j - 1;
    }
    proof {
        assert(digits@.subrange(0, digits@.len() as int) =~= digits@);
    }
    out
}

} // verus!
