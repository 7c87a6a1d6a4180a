//! Cutting a text at a separator and putting the pieces together again.

use crate::text::has_char;
use vstd::prelude::*;

verus! {

/// The pieces of `s` between the occurrences of `sep`. A text without the
/// separator is one piece; `n` separators give `n + 1` pieces, empty ones
/// included.
pub open spec fn split(s: Seq<char>, sep: char) -> Seq<Seq<char>>
    decreases s.len(),
{
    if s.len() == 0 {
        seq![Seq::<char>::empty()]
    } else {
        let before = split(s.drop_last(), sep);
        if s.last() == sep {
            before.push(Seq::<char>::empty())
        } else {
            before.drop_last().push(before.last().push(s.last()))
        }
    }
}

/// The pieces with `sep` between each two neighbours.
pub open spec fn join(parts: Seq<Seq<char>>, sep: Seq<char>) -> Seq<char>
    decreases parts.len(),
{
    if parts.len() == 0 {
        Seq::<char>::empty()
    } else if parts.len() == 1 {
        parts[0]
    } else {
        join(parts.drop_last(), sep) + sep + parts.last()
    }
}

pub proof fn lemma_split_nonempty(s: Seq<char>, sep: char)
    ensures
        split(s, sep).len() >= 1,
    decreases s.len(),
{
    if s.len() > 0 {
        lemma_split_nonempty(s.drop_last(), sep);
    }
}

/// No piece of a split holds the separator.
pub proof fn lemma_split_pieces_clean(s: Seq<char>, sep: char)
    ensures
        forall|k: int| 0 <= k < split(s, sep).len() ==> !has_char(#[trigger] split(s, sep)[k], sep),
    decreases s.len(),
{
    lemma_split_nonempty(s, sep);
    if s.len() > 0 {
        lemma_split_pieces_clean(s.drop_last(), sep);
        lemma_split_nonempty(s.drop_last(), sep);
        let before = split(s.drop_last(), sep);
        assert forall|k: int| 0 <= k < split(s, sep).len() implies !has_char(
            #[trigger] split(s, sep)[k],
            sep,
        ) by {
            if k < before.len() - 1 {
                assert(split(s, sep)[k] == before[k]);
            } else if s.last() == sep {
                if k == before.len() - 1 {
                    assert(split(s, sep)[k] == before[k]);
                }
            } else {
                let piece = before.last().push(s.last());
                assert(split(s, sep)[k] == piece);
                assert(!has_char(before[before.len() - 1], sep));
                if has_char(piece, sep) {
                    let i = choose|i: int| 0 <= i < piece.len() && piece[i] == sep;
                    assert(before.last()[i] == sep);
                }
            }
        }
    }
}

/// A text without the separator is its own single piece.
pub proof fn lemma_split_single(s: Seq<char>, sep: char)
    requires
        !has_char(s, sep),
    ensures
        split(s, sep) == seq![s],
    decreases s.len(),
{
    if s.len() == 0 {
        assert(s == Seq::<char>::empty());
    } else {
        let t = s.drop_last();
        assert(s[s.len() - 1] != sep);
        assert(!has_char(t, sep)) by {
            if has_char(t, sep) {
                let i = choose|i: int| 0 <= i < t.len() && t[i] == sep;
                assert(s[i] == sep);
            }
        }
        lemma_split_single(t, sep);
        assert(t.push(s.last()) == s);
        assert(split(s, sep) == seq![s]);
    }
}

/// Splitting `a`, the separator, then `b` gives the pieces of `a` followed by
/// the pieces of `b`.
pub proof fn lemma_split_concat(a: Seq<char>, b: Seq<char>, sep: char)
    ensures
        split(a + seq![sep] + b, sep) == split(a, sep) + split(b, sep),
    decreases b.len(),
{
    let whole = a + seq![sep] + b;
    lemma_split_nonempty(a, sep);
    if b.len() == 0 {
        assert(whole.drop_last() == a);
        assert(split(b, sep) == seq![Seq::<char>::empty()]);
        assert(split(whole, sep) == split(a, sep) + split(b, sep));
    } else {
        let shorter = a + seq![sep] + b.drop_last();
        assert(whole.drop_last() == shorter);
        assert(whole.last() == b.last());
        lemma_split_concat(a, b.drop_last(), sep);
        lemma_split_nonempty(b.drop_last(), sep);
        let pa = split(a, sep);
        let pb = split(b.drop_last(), sep);
        assert(split(shorter, sep) == pa + pb);
        if b.last() == sep {
            assert((pa + pb).push(Seq::<char>::empty()) == pa + pb.push(Seq::<char>::empty()));
        } else {
            let piece = pb.last().push(b.last());
            assert((pa + pb).last() == pb.last());
            assert((pa + pb).drop_last() == pa + pb.drop_last());
            assert((pa + pb.drop_last()).push(piece) == pa + pb.drop_last().push(piece));
        }
    }
}

/// Cuts `s` at each `sep`.
pub fn split_chars(s: &Vec<char>, sep: char) -> (parts: Vec<Vec<char>>)
    ensures
        pieces(parts@) == split(s@, sep),
{
    let mut parts: Vec<Vec<char>> = Vec::new();
    let mut current: Vec<char> = Vec::new();
    let mut i: usize = 0;
    proof {
        assert(s@.take(0) == Seq::<char>::empty());
        assert(pieces(parts@).push(current@) == seq![Seq::<char>::empty()]);
    }
    while i < s.len()
        invariant
            i <= s.len(),
            pieces(parts@).push(current@) == split(s@.take(i as int), sep),
        decreases s.len() - i,
    {
        let c = s[i];
        proof {
            let prefix = s@.take(i + 1);
            assert(prefix.drop_last() == s@.take(i as int));
            assert(prefix.last() == c);
            let before = split(s@.take(i as int), sep);
            assert(before.last() == current@);
            assert(before.drop_last() == pieces(parts@));
        }
        if c == sep {
            let ghost old_parts = parts@;
            parts.push(current);
            proof {
                assert(pieces(parts@) == pieces(old_parts).push(current@));
            }
            current = Vec::new();
        } else {
            current.push(c);
        }
        i += 1;
    }
    proof {
        assert(s@.take(s.len() as int) == s@);
        assert(pieces(parts@.push(current)) == pieces(parts@).push(current@));
    }
    parts.push(current);
    parts
}

/// The character sequences that a vector of character vectors holds.
pub open spec fn pieces(v: Seq<Vec<char>>) -> Seq<Seq<char>> {
    v.map_values(|p: Vec<char>| p@)
}

/// Puts `sep` between each two neighbours of `parts`.
pub fn join_chars(parts: &Vec<Vec<char>>, sep: &Vec<char>) -> (r: Vec<char>)
    ensures
        r@ == join(pieces(parts@), sep@),
{
    proof {
        assert(pieces(parts@).skip(0) == pieces(parts@));
    }
    join_tail(parts, 0, sep)
}

/// Puts `sep` between each two neighbours of the pieces from `from` on.
pub fn join_tail(parts: &Vec<Vec<char>>, from: usize, sep: &Vec<char>) -> (r: Vec<char>)
    requires
        from <= parts.len(),
    ensures
        r@ == join(pieces(parts@).skip(from as int), sep@),
{
    let mut r: Vec<char> = Vec::new();
    let mut i: usize = from;
    let ghost tail = pieces(parts@).skip(from as int);
    proof {
        assert(tail.take(0) == Seq::<Seq<char>>::empty());
    }
    while i < parts.len()
        invariant
            from <= i <= parts.len(),
            tail == pieces(parts@).skip(from as int),
            r@ == join(tail.take(i - from), sep@),
        decreases parts.len() - i,
    {
        proof {
            let next = tail.take(i - from + 1);
            assert(next.drop_last() == tail.take(i - from));
            assert(next.last() == parts@[i as int]@);
            if i == from {
                assert(next[0] == parts@[i as int]@);
            }
        }
        if i > from {
            let mut j: usize = 0;
            let ghost base = r@;
            while j < sep.len()
                invariant
                    j <= sep.len(),
                    r@ == base + sep@.take(j as int),
                decreases sep.len() - j,
            {
                r.push(sep[j]);
                j += 1;
            }
            proof {
                assert(sep@.take(sep.len() as int) == sep@);
            }
        }
        let ghost base = r@;
        let part = &parts[i];
        let mut j: usize = 0;
        while j < part.len()
            invariant
                j <= part.len(),
                r@ == base + part@.take(j as int),
            decreases part.len() - j,
        {
            r.push(part[j]);
            j += 1;
        }
        proof {
            assert(part@.take(part.len() as int) == part@);
            if i == from {
                assert(base + part@ == part@);
            }
        }
        i += 1;
    }
    proof {
        assert(tail.take(parts.len() - from) == tail);
    }
    r
}

} // verus!
