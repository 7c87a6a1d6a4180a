//! The issue prefix of a commit message: `[id]` at the start of its first
//! line.

use crate::text::{
    chars_of, is_digit, is_lower, slice_chars, string_of, strip_start, stripped_start,
};
use vstd::prelude::*;

verus! {

/// The place of the first `c` in `s`, or the length of `s` where it holds
/// none.
pub open spec fn first_index(s: Seq<char>, c: char) -> int
    decreases s.len(),
{
    if s.len() == 0 {
        0
    } else if s[0] == c {
        0
    } else {
        1 + first_index(s.skip(1), c)
    }
}

pub proof fn lemma_first_index(s: Seq<char>, c: char)
    ensures
        0 <= first_index(s, c) <= s.len(),
        first_index(s, c) < s.len() ==> s[first_index(s, c)] == c,
        forall|i: int| 0 <= i < first_index(s, c) ==> s[i] != c,
    decreases s.len(),
{
    if s.len() > 0 && s[0] != c {
        lemma_first_index(s.skip(1), c);
        assert forall|i: int| 0 <= i < first_index(s, c) implies s[i] != c by {
            if i > 0 {
                assert(s.skip(1)[i - 1] == s[i]);
            }
        }
    }
}

/// The place of the first `c` in `s`, or the length of `s`.
pub fn find_first(s: &Vec<char>, c: char) -> (r: usize)
    ensures
        r == first_index(s@, c),
        r <= s.len(),
        r < s.len() ==> s@[r as int] == c,
{
    let mut i: usize = 0;
    proof {
        assert(s@.skip(0) == s@);
    }
    while i < s.len() && s[i] != c
        invariant
            i <= s.len(),
            first_index(s@, c) == i + first_index(s@.skip(i as int), c),
        decreases s.len() - i,
    {
        proof {
            assert(s@.skip(i as int)[0] == s@[i as int]);
            assert(s@.skip(i as int).skip(1) == s@.skip(i + 1));
        }
        i += 1;
    }
    proof {
        if i < s.len() {
            assert(s@.skip(i as int)[0] == s@[i as int]);
        }
    }
    i
}

/// The first line of a text: what stands before its first line feed, without
/// the carriage return that may precede the line feed. An empty text has no
/// line.
pub open spec fn first_line(s: Seq<char>) -> Option<Seq<char>> {
    if s.len() == 0 {
        None
    } else {
        let n = first_index(s, '\n');
        let line = s.take(n);
        if n < s.len() && line.len() > 0 && line.last() == '\r' {
            Some(line.drop_last())
        } else {
            Some(line)
        }
    }
}

/// An identifier as a commit message may name it: one or more lower-case
/// letters and digits.
pub open spec fn is_prefix_id(id: Seq<char>) -> bool {
    &&& id.len() > 0
    &&& forall|i: int| 0 <= i < id.len() ==> is_lower(#[trigger] id[i]) || is_digit(id[i])
}

/// The identifier between the brackets at the start of a line, and the
/// place of the closing bracket.
pub open spec fn line_prefix(line: Seq<char>) -> Option<(Seq<char>, int)> {
    let close = first_index(line, ']');
    if line.len() > 0 && line[0] == '[' && close < line.len() && is_prefix_id(
        line.subrange(1, close),
    ) {
        Some((line.subrange(1, close), close))
    } else {
        None
    }
}

/// The issue that a commit message names: the identifier between `[` at the
/// very start of its first line and the first `]` after it.
pub open spec fn prefix_id(message: Seq<char>) -> Option<Seq<char>> {
    match first_line(message) {
        None => None,
        Some(line) => match line_prefix(line) {
            None => None,
            Some((id, _)) => Some(id),
        },
    }
}

/// The issue that a commit message names, and the rest of its first line
/// without the white space that follows the prefix.
pub open spec fn prefix_parts(message: Seq<char>) -> Option<(Seq<char>, Seq<char>)> {
    match first_line(message) {
        None => None,
        Some(line) => match line_prefix(line) {
            None => None,
            Some((id, close)) => Some((id, stripped_start(line.skip(close + 1)))),
        },
    }
}

fn read_first_line(s: &Vec<char>) -> (r: Option<Vec<char>>)
    ensures
        match r {
            Some(line) => first_line(s@) == Some(line@),
            None => first_line(s@) is None,
        },
{
    if s.len() == 0 {
        return None;
    }
    let n = find_first(s, '\n');
    let end: usize = if n < s.len() && n > 0 && s[n - 1] == '\r' {
        n - 1
    } else {
        n
    };
    proof {
        assert(s@.subrange(0, n as int) == s@.take(n as int));
        if n > 0 {
            assert(s@.take(n as int).last() == s@[n - 1]);
            assert(s@.take(n as int).drop_last() == s@.subrange(0, n - 1));
        }
    }
    Some(slice_chars(s, 0, end))
}

fn read_line_prefix(line: &Vec<char>) -> (r: Option<(Vec<char>, usize)>)
    ensures
        match r {
            Some((id, close)) => line_prefix(line@) == Some((id@, close as int)) && close
                < line.len(),
            None => line_prefix(line@) is None,
        },
{
    if line.len() == 0 || line[0] != '[' {
        return None;
    }
    let close = find_first(line, ']');
    if close >= line.len() {
        return None;
    }
    proof {
        lemma_first_index(line@, ']');
    }
    let id = slice_chars(line, 1, close);
    if id.len() == 0 {
        return None;
    }
    let mut i: usize = 0;
    while i < id.len()
        invariant
            i <= id.len(),
            id@ == line@.subrange(1, close as int),
            close == first_index(line@, ']'),
            close < line.len(),
            line@[0] == '[',
            forall|j: int| 0 <= j < i ==> is_lower(#[trigger] id@[j]) || is_digit(id@[j]),
        decreases id.len() - i,
    {
        let c = id[i];
        if !((c >= 'a' && c <= 'z') || (c >= '0' && c <= '9')) {
            proof {
                assert(!(is_lower(id@[i as int]) || is_digit(id@[i as int])));
            }
            return None;
        }
        i += 1;
    }
    Some((id, close))
}

/// The issue that a commit message names, if it starts with `[id]`.
pub fn extract_issue_id(message: &str) -> (r: Option<String>)
    ensures
        match r {
            Some(id) => prefix_id(message@) == Some(id@),
            None => prefix_id(message@) is None,
        },
{
    let chars = chars_of(message);
    match read_first_line(&chars) {
        None => None,
        Some(line) => match read_line_prefix(&line) {
            None => None,
            Some((id, _)) => Some(string_of(&id)),
        },
    }
}

/// The issue that a commit message names, with the rest of the first line.
pub fn parse_issue_prefix(message: &str) -> (r: Option<(String, String)>)
    ensures
        match r {
            Some((id, rest)) => prefix_parts(message@) == Some((id@, rest@)),
            None => prefix_parts(message@) is None,
        },
{
    let chars = chars_of(message);
    match read_first_line(&chars) {
        None => None,
        Some(line) => match read_line_prefix(&line) {
            None => None,
            Some((id, close)) => {
                let after = slice_chars(&line, close + 1, line.len());
                proof {
                    assert(line@.subrange(close + 1, line.len() as int) == line@.skip(close + 1));
                }
                let rest = strip_start(&after);
                Some((string_of(&id), string_of(&rest)))
            },
        },
    }
}

} // verus!
