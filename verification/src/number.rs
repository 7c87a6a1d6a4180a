//! Decimal numbers in file names: reading a rank and writing it back with
//! leading zeros.

use crate::text::{has_char, is_digit};
use vstd::prelude::*;

verus! {

/// The value of a decimal digit; 0 for any other character.
pub open spec fn digit_value(c: char) -> nat {
    if is_digit(c) {
        (c as int - '0' as int) as nat
    } else {
        0
    }
}

/// The number that a run of decimal digits writes.
pub open spec fn digits_value(s: Seq<char>) -> nat
    decreases s.len(),
{
    if s.len() == 0 {
        0
    } else {
        digits_value(s.drop_last()) * 10 + digit_value(s.last())
    }
}

pub open spec fn all_digits(s: Seq<char>) -> bool {
    forall|i: int| 0 <= i < s.len() ==> is_digit(#[trigger] s[i])
}

/// The digits of `s` behind an optional leading plus sign.
pub open spec fn unsigned_body(s: Seq<char>) -> Seq<char> {
    if s.len() > 0 && s[0] == '+' {
        s.skip(1)
    } else {
        s
    }
}

/// The number that `s` writes, if it writes one that fits 32 bits: an
/// optional plus sign, then one or more decimal digits and nothing else.
pub open spec fn parse_u32(s: Seq<char>) -> Option<u32> {
    let body = unsigned_body(s);
    if body.len() > 0 && all_digits(body) && digits_value(body) <= u32::MAX {
        Some(digits_value(body) as u32)
    } else {
        None
    }
}

/// The character of a digit below ten.
pub open spec fn digit_char(d: nat) -> char
    recommends
        d < 10,
{
    ('0' as int + d) as char
}

/// The decimal digits of `n`, without leading zeros.
pub open spec fn decimal(n: nat) -> Seq<char>
    decreases n,
{
    if n < 10 {
        seq![digit_char(n)]
    } else {
        decimal(n / 10).push(digit_char(n % 10))
    }
}

/// `n` in decimal, with leading zeros up to three digits.
pub open spec fn pad3(n: nat) -> Seq<char> {
    if n < 10 {
        seq!['0', '0'] + decimal(n)
    } else if n < 100 {
        seq!['0'] + decimal(n)
    } else {
        decimal(n)
    }
}

pub proof fn lemma_digits_value_grows(s: Seq<char>, i: int)
    requires
        0 <= i <= s.len(),
    ensures
        digits_value(s.take(i)) <= digits_value(s),
    decreases s.len() - i,
{
    if i == s.len() {
        assert(s.take(i) == s);
    } else {
        lemma_digits_value_grows(s, i + 1);
        assert(s.take(i + 1).drop_last() == s.take(i));
    }
}

pub proof fn lemma_decimal(n: nat)
    ensures
        decimal(n).len() >= 1,
        all_digits(decimal(n)),
        digits_value(decimal(n)) == n,
        n >= 10 ==> decimal(n).len() >= 2,
        n >= 100 ==> decimal(n).len() >= 3,
    decreases n,
{
    if n < 10 {
        let s = decimal(n);
        assert(s.drop_last() == Seq::<char>::empty());
        assert(digits_value(s.drop_last()) == 0);
        assert(digits_value(s) == n);
    } else {
        lemma_decimal(n / 10);
        let s = decimal(n);
        assert(s.drop_last() == decimal(n / 10));
        assert(digit_value(s.last()) == n % 10);
    }
}

pub proof fn lemma_leading_zero(s: Seq<char>)
    ensures
        digits_value(seq!['0'] + s) == digits_value(s),
    decreases s.len(),
{
    let z = seq!['0'] + s;
    if s.len() == 0 {
        assert(z.drop_last() == Seq::<char>::empty());
        assert(digits_value(z.drop_last()) == 0);
    } else {
        lemma_leading_zero(s.drop_last());
        assert(z.drop_last() == seq!['0'] + s.drop_last());
        assert(z.last() == s.last());
    }
}

/// What `pad3` writes is read back by `parse_u32`, and holds no hyphen.
pub proof fn lemma_pad3(n: u32)
    ensures
        parse_u32(pad3(n as nat)) == Some(n),
        pad3(n as nat).len() >= 3,
        all_digits(pad3(n as nat)),
        !has_char(pad3(n as nat), '-'),
        !has_char(pad3(n as nat), '.'),
        !has_char(pad3(n as nat), '/'),
{
    let d = decimal(n as nat);
    let p = pad3(n as nat);
    lemma_decimal(n as nat);
    if n < 10 {
        lemma_leading_zero(d);
        lemma_leading_zero(seq!['0'] + d);
        assert(seq!['0'] + (seq!['0'] + d) == p);
    } else if n < 100 {
        lemma_leading_zero(d);
    }
    assert(all_digits(p)) by {
        assert forall|i: int| 0 <= i < p.len() implies is_digit(#[trigger] p[i]) by {
            if n < 10 {
                if i >= 2 {
                    assert(p[i] == d[i - 2]);
                }
            } else if n < 100 {
                if i >= 1 {
                    assert(p[i] == d[i - 1]);
                }
            }
        }
    }
    assert(is_digit(p[0]));
    assert(unsigned_body(p) == p);
}

/// Reads a rank from the characters of a file name segment.
pub fn read_u32(s: &Vec<char>) -> (r: Option<u32>)
    ensures
        r == parse_u32(s@),
{
    let start: usize = if s.len() > 0 && s[0] == '+' {
        1
    } else {
        0
    };
    let ghost body = unsigned_body(s@);
    if start >= s.len() {
        return None;
    }
    let mut value: u32 = 0;
    let mut i: usize = start;
    proof {
        assert(body.take(0) == Seq::<char>::empty());
        assert(s@.skip(0) == s@);
    }
    while i < s.len()
        invariant
            start <= i <= s.len(),
            body == s@.skip(start as int),
            body == unsigned_body(s@),
            body.len() > 0,
            all_digits(body.take(i - start)),
            value == digits_value(body.take(i - start)),
        decreases s.len() - i,
    {
        let c = s[i];
        proof {
            assert(body[i - start] == c);
            assert(body.take(i - start + 1).drop_last() == body.take(i - start));
            assert(body.take(i - start + 1).last() == c);
            lemma_digits_value_grows(body, i - start + 1);
        }
        if !(c >= '0' && c <= '9') {
            proof {
                assert(!is_digit(body[i - start]));
            }
            return None;
        }
        let d: u32 = c as u32 - 48;
        proof {
            assert(digit_value(c) == d);
            assert(digits_value(body.take(i - start + 1)) == value * 10 + d);
        }
        if value > 429496729 || (value == 429496729 && d > 5) {
            return None;
        }
        value = value * 10 + d;
        i += 1;
    }
    proof {
        assert(body.take(s.len() - start) == body);
    }
    Some(value)
}

/// Writes a rank as the file name does: in decimal, at least three digits.
pub fn write_pad3(n: u32) -> (r: Vec<char>)
    ensures
        r@ == pad3(n as nat),
{
    let mut digits: Vec<char> = write_decimal(n as u64);
    let mut r: Vec<char> = Vec::new();
    if n < 10 {
        r.push('0');
        r.push('0');
    } else if n < 100 {
        r.push('0');
    }
    let ghost lead = r@;
    r.append(&mut digits);
    proof {
        assert(r@ == lead + decimal(n as nat));
        if n >= 100 {
            assert(lead + decimal(n as nat) == decimal(n as nat));
        }
    }
    r
}

fn digit_to_char(d: u64) -> (c: char)
    requires
        d < 10,
    ensures
        c == digit_char(d as nat),
{
    if d == 0 {
        '0'
    } else if d == 1 {
        '1'
    } else if d == 2 {
        '2'
    } else if d == 3 {
        '3'
    } else if d == 4 {
        '4'
    } else if d == 5 {
        '5'
    } else if d == 6 {
        '6'
    } else if d == 7 {
        '7'
    } else if d == 8 {
        '8'
    } else {
        '9'
    }
}

/// Writes `n` in decimal.
pub fn write_decimal(n: u64) -> (r: Vec<char>)
    ensures
        r@ == decimal(n as nat),
    decreases n,
{
    if n < 10 {
        let mut r: Vec<char> = Vec::new();
        r.push(digit_to_char(n));
        r
    } else {
        let mut r = write_decimal(n / 10);
        r.push(digit_to_char(n % 10));
        r
    }
}

} // verus!
