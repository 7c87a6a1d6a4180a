//! New identifiers: short random texts of lower-case letters and digits that
//! start with a letter, so that none can be taken for an order number.

use crate::codec::is_valid_id;
use crate::text::{is_digit, is_lower, string_of};
use rand::Rng;
use vstd::prelude::*;

verus! {

/// Draws a number from `0..bound` with `rand::Rng::gen_range` on the
/// generator of `rand::thread_rng`. The number drawn lies in the range. The
/// call panics on an empty range, so the bound is positive.
#[verifier::external_body]
fn random_below(bound: usize) -> (r: usize)
    requires
        bound > 0,
    ensures
        r < bound,
{
    rand::thread_rng().gen_range(0..bound)
}

/// The letter at a place of the alphabet.
pub fn letter_at(i: usize) -> (c: char)
    requires
        i < 26,
    ensures
        is_lower(c),
        c as int == 'a' as int + i,
{
    let code: u8 = 97 + i as u8;
    code as char
}

/// The character at a place of the identifier alphabet: the 26 letters, then
/// the 10 digits.
pub fn symbol_at(i: usize) -> (c: char)
    requires
        i < 36,
    ensures
        is_lower(c) || is_digit(c),
        i < 26 ==> c as int == 'a' as int + i,
        i >= 26 ==> c as int == '0' as int + i - 26,
{
    if i < 26 {
        letter_at(i)
    } else {
        let code: u8 = 48 + (i - 26) as u8;
        code as char
    }
}

/// The length of the identifier that `generate_id` makes for a wanted
/// length: the wanted length, and one character where none was asked for.
pub open spec fn id_len(length: usize) -> nat {
    if length == 0 {
        1
    } else {
        length as nat
    }
}

/// A random identifier. Whether it is free is for the caller to check.
pub fn generate_id(length: usize) -> (id: String)
    ensures
        is_valid_id(id@),
        id@.len() == id_len(length),
{
    let mut chars: Vec<char> = Vec::new();
    chars.push(letter_at(random_below(26)));
    let mut i: usize = 1;
    while i < length
        invariant
            1 <= i,
            i <= length || (length == 0 && i == 1),
            chars@.len() == i,
            is_valid_id(chars@),
        decreases length - i,
    {
        let ghost before = chars@;
        chars.push(symbol_at(random_below(36)));
        proof {
            assert forall|k: int| 0 <= k < chars@.len() implies is_lower(#[trigger] chars@[k])
                || is_digit(chars@[k]) by {
                if k < before.len() {
                    assert(chars@[k] == before[k]);
                }
            }
        }
        i += 1;
    }
    string_of(&chars)
}

} // verus!
