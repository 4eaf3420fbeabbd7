//! Decimal numerals in ASCII, as bencode writes its integers and lengths.

use vstd::prelude::*;

verus! {

/// `b` is one of the ASCII digits `0` to `9`.
pub open spec fn is_digit(b: u8) -> bool {
    48 <= b <= 57
}

/// Every byte of `s` is an ASCII digit.
pub open spec fn all_digits(s: Seq<u8>) -> bool {
    forall|i: int| 0 <= i < s.len() ==> is_digit(#[trigger] s[i])
}

/// The number that the ASCII digits `s` denote in base ten (0 for the empty string).
pub open spec fn digits_value(s: Seq<u8>) -> nat
    decreases s.len(),
{
    if s.len() == 0 {
        0
    } else {
        (digits_value(s.drop_last()) * 10 + (s.last() - 48)) as nat
    }
}

/// The shortest decimal numeral of `n`.
pub open spec fn nat_to_dec(n: nat) -> Seq<u8>
    decreases n,
{
    if n < 10 {
        seq![(48 + n) as u8]
    } else {
        nat_to_dec(n / 10).push((48 + n % 10) as u8)
    }
}

/// The shortest decimal numeral of `i`, with a leading `-` when it is negative.
pub open spec fn int_to_dec(i: int) -> Seq<u8> {
    if i < 0 {
        seq![45u8] + nat_to_dec((-i) as nat)
    } else {
        nat_to_dec(i as nat)
    }
}

/// The integer that `s` denotes: an optional `+` or `-`, then one or more
/// ASCII digits. `None` for anything else.
pub open spec fn parse_signed(s: Seq<u8>) -> Option<int> {
    if s.len() == 0 {
        None
    } else if s[0] == 45 || s[0] == 43 {
        let d = s.skip(1);
        if d.len() > 0 && all_digits(d) {
            if s[0] == 45 {
                Some(-(digits_value(d) as int))
            } else {
                Some(digits_value(d) as int)
            }
        } else {
            None
        }
    } else if all_digits(s) {
        Some(digits_value(s) as int)
    } else {
        None
    }
}

/// The 64-bit signed integer that `s` denotes, if it denotes one that fits.
pub open spec fn parse_i64_spec(s: Seq<u8>) -> Option<i64> {
    match parse_signed(s) {
        Some(v) => if i64::MIN <= v <= i64::MAX {
            Some(v as i64)
        } else {
            None
        },
        None => None,
    }
}

/// A numeral written by `nat_to_dec` is made of digits, is not empty, and
/// denotes the number it was written for.
pub proof fn lemma_nat_to_dec(n: nat)
    ensures
        nat_to_dec(n).len() > 0,
        all_digits(nat_to_dec(n)),
        digits_value(nat_to_dec(n)) == n,
    decreases n,
{
    if n < 10 {
        let s = nat_to_dec(n);
        assert(s.drop_last() =~= Seq::<u8>::empty());
        assert(digits_value(s.drop_last()) == 0);
    } else {
        lemma_nat_to_dec(n / 10);
        let s = nat_to_dec(n);
        assert(s.drop_last() =~= nat_to_dec(n / 10));
    }
}

/// Reading back a numeral written by `int_to_dec` gives the integer written.
pub proof fn lemma_int_to_dec(i: int)
    ensures
        int_to_dec(i).len() > 0,
        parse_signed(int_to_dec(i)) == Some(i),
        forall|k: int|
            0 <= k < int_to_dec(i).len() ==> is_digit(#[trigger] int_to_dec(i)[k]) || (k == 0
                && int_to_dec(i)[k] == 45),
{
    if i < 0 {
        let m = (-i) as nat;
        lemma_nat_to_dec(m);
        let s = int_to_dec(i);
        assert(s.skip(1) =~= nat_to_dec(m));
    } else {
        lemma_nat_to_dec(i as nat);
    }
}

/// The digits of a numeral's beginning denote no more than the whole numeral.
pub proof fn lemma_digits_value_prefix(s: Seq<u8>, k: int)
    requires
        0 <= k <= s.len(),
        all_digits(s),
    ensures
        digits_value(s.take(k)) <= digits_value(s),
    decreases s.len() - k,
{
    if k == s.len() {
        assert(s.take(k) =~= s);
    } else {
        let t = s.drop_last();
        assert(t.take(k) =~= s.take(k));
        assert(all_digits(t)) by {
            assert forall|i: int| 0 <= i < t.len() implies is_digit(#[trigger] t[i]) by {
                assert(t[i] == s[i]);
            }
        }
        lemma_digits_value_prefix(t, k);
    }
}

/// Appends the shortest decimal numeral of `n` to `out`.
pub fn push_decimal(out: &mut Vec<u8>, n: u64)
    ensures
        final(out)@ == old(out)@ + nat_to_dec(n as nat),
    decreases n,
{
    if n >= 10 {
        push_decimal(out, n / 10);
    }
    out.push(48 + (n % 10) as u8);
    assert(out@ =~= old(out)@ + nat_to_dec(n as nat));
}

/// Appends the shortest decimal numeral of `i` to `out`.
pub fn push_signed_decimal(out: &mut Vec<u8>, i: i64)
    ensures
        final(out)@ == old(out)@ + int_to_dec(i as int),
{
    if i < 0 {
        out.push(45);
        let magnitude: u64 = (-(i + 1)) as u64 + 1;
        push_decimal(out, magnitude);
        assert(out@ =~= old(out)@ + int_to_dec(i as int));
    } else {
        push_decimal(out, i as u64);
    }
}

/// Tells whether `input[start..end]` is made of ASCII digits only.
pub fn is_all_digits(input: &[u8], start: usize, end: usize) -> (yes: bool)
    requires
        start <= end <= input@.len(),
    ensures
        yes == all_digits(input@.subrange(start as int, end as int)),
{
    let ghost s = input@.subrange(start as int, end as int);
    let mut i: usize = start;
    while i < end
        invariant
            start <= i <= end <= input@.len(),
            s == input@.subrange(start as int, end as int),
            forall|k: int| 0 <= k < i - start ==> is_digit(#[trigger] s[k]),
        decreases end - i,
    {
        if !(48 <= input[i] && input[i] <= 57) {
            assert(!is_digit(s[i - start]));
            return false;
        }
        i += 1;
    }
    true
}

/// Reads the digits `input[start..end]` as a number, as long as it stays
/// within `limit`.
pub fn parse_digits(input: &[u8], start: usize, end: usize, limit: u64) -> (value: Option<u64>)
    requires
        start <= end <= input@.len(),
        all_digits(input@.subrange(start as int, end as int)),
    ensures
        value == if digits_value(input@.subrange(start as int, end as int)) <= limit {
            Some(digits_value(input@.subrange(start as int, end as int)) as u64)
        } else {
            None
        },
{
    let ghost s = input@.subrange(start as int, end as int);
    let mut acc: u64 = 0;
    let mut i: usize = start;
    proof {
        assert(s.take(0) =~= Seq::<u8>::empty());
    }
    while i < end
        invariant
            start <= i <= end <= input@.len(),
            s == input@.subrange(start as int, end as int),
            all_digits(s),
            acc == digits_value(s.take(i - start)),
            acc <= limit,
        decreases end - i,
    {
        assert(s[i - start] == input@[i as int] && is_digit(s[i - start]));
        let d: u64 = (input[i] - 48) as u64;
        proof {
            let t = s.take(i - start + 1);
            assert(t.drop_last() =~= s.take(i - start));
            assert(t.last() == s[i - start]);
            assert(is_digit(s[i - start]));
            assert(digits_value(t) == acc * 10 + d);
            lemma_digits_value_prefix(s, i - start + 1);
        }
        if d > limit || acc > (limit - d) / 10 {
            return None;
        }
        acc = acc * 10 + d;
        i += 1;
    }
    proof {
        assert(s.take(end - start) =~= s);
    }
    Some(acc)
}

/// Reads `input[start..end]` as a signed 64-bit integer: an optional sign,
/// then one or more digits.
pub fn parse_i64(input: &[u8], start: usize, end: usize) -> (value: Option<i64>)
    requires
        start <= end <= input@.len(),
    ensures
        value == parse_i64_spec(input@.subrange(start as int, end as int)),
{
    let ghost s = input@.subrange(start as int, end as int);
    if start == end {
        return None;
    }
    let first = input[start];
    assert(first == s[0]);
    let signed = first == 45 || first == 43;
    let from: usize = if signed { start + 1 } else { start };
    let ghost d = input@.subrange(from as int, end as int);
    proof {
        if signed {
            assert(d =~= s.skip(1));
        } else {
            assert(d =~= s);
        }
    }
    if from == end || !is_all_digits(input, from, end) {
        return None;
    }
    match parse_digits(input, from, end, 9223372036854775808) {
        None => None,
        Some(magnitude) => {
            if first == 45 {
                if magnitude == 9223372036854775808 {
                    Some(i64::MIN)
                } else {
                    Some(-(magnitude as i64))
                }
            } else if magnitude == 9223372036854775808 {
                None
            } else {
                Some(magnitude as i64)
            }
        },
    }
}

/// The text of a decimal numeral.
pub open spec fn dec_text(n: nat) -> Seq<char> {
    Seq::new(nat_to_dec(n).len(), |i: int| nat_to_dec(n)[i] as char)
}

fn digit_text(d: u8) -> (text: &'static str)
    requires
        d < 10,
    ensures
        text@ == seq![(48 + d) as u8 as char],
{
    proof {
        reveal_strlit("0");
        reveal_strlit("1");
        reveal_strlit("2");
        reveal_strlit("3");
        reveal_strlit("4");
        reveal_strlit("5");
        reveal_strlit("6");
        reveal_strlit("7");
        reveal_strlit("8");
        reveal_strlit("9");
    }
    let text = if d == 0 {
        "0"
    } else if d == 1 {
        "1"
    } else if d == 2 {
        "2"
    } else if d == 3 {
        "3"
    } else if d == 4 {
        "4"
    } else if d == 5 {
        "5"
    } else if d == 6 {
        "6"
    } else if d == 7 {
        "7"
    } else if d == 8 {
        "8"
    } else {
        "9"
    };
    assert(text@ =~= seq![(48 + d) as u8 as char]);
    text
}

/// Appends the decimal numeral of `n` to `out`.
fn push_decimal_text(out: &mut String, n: u64)
    ensures
        final(out)@ == old(out)@ + dec_text(n as nat),
    decreases n,
{
    if n >= 10 {
        push_decimal_text(out, n / 10);
    }
    out.append(digit_text((n % 10) as u8));
    assert(out@ =~= old(out)@ + dec_text(n as nat));
}

/// The decimal numeral of `n`.
pub fn decimal_text(n: u64) -> (text: String)
    ensures
        text@ == dec_text(n as nat),
{
    let mut text = String::new();
    push_decimal_text(&mut text, n);
    assert(text@ =~= dec_text(n as nat));
    text
}

} // verus!
