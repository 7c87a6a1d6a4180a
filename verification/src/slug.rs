//! From a title to the slug that stands for it in a file name.

use crate::codec::{is_slug, lemma_join_clean, lemma_split_pieces_within};
use crate::split::{join, join_chars, pieces, split, split_chars};
use crate::text::{
    chars_of, copy_chars, has_char, is_alnum, is_digit, is_lower, is_upper, string_of, strip,
    stripped,
};
use vstd::prelude::*;

verus! {

/// What `str::to_lowercase` returns for a text: its lower-case equivalent by
/// the Unicode rules, which may differ in length from the text.
pub uninterp spec fn lowercase_of(s: Seq<char>) -> Seq<char>;

/// Calls `str::to_lowercase`. The result is the lower-case equivalent of the
/// text, by the name `lowercase_of`.
#[verifier::external_body]
fn to_lowercase(s: &str) -> (r: String)
    ensures
        r@ == lowercase_of(s@),
{
    s.to_lowercase()
}

/// The character that stands in a slug for `c`: `c` itself where it is an
/// ASCII letter or digit, else the underscore.
pub open spec fn slug_char(c: char) -> char {
    if is_alnum(c) {
        c
    } else {
        '_'
    }
}

pub open spec fn is_nonempty(piece: Seq<char>) -> bool {
    piece.len() > 0
}

/// The words of a text: its runs of ASCII letters and digits.
pub open spec fn words_of(text: Seq<char>) -> Seq<Seq<char>> {
    split(text.map_values(|c: char| slug_char(c)), '_').filter(|p: Seq<char>| is_nonempty(p))
}

/// The words of a text, joined by single underscores. Every run of other
/// characters between two words becomes one underscore, and those at the
/// ends are dropped.
pub open spec fn collapse(text: Seq<char>) -> Seq<char> {
    join(words_of(text), seq!['_'])
}

/// An ASCII capital as its small letter; any other character as it is.
pub open spec fn lower_char(c: char) -> char {
    if is_upper(c) {
        ((c as int) + 32) as char
    } else {
        c
    }
}

/// A text with its ASCII capitals as small letters.
pub open spec fn ascii_lowered(s: Seq<char>) -> Seq<char> {
    s.map_values(|c: char| lower_char(c))
}

/// The slug of a title: the title without the white space at its ends, in
/// lower case, collapsed. Should the lower-casing leave an ASCII capital,
/// it is made small as well, so that a slug holds none.
pub open spec fn slug_of(title: Seq<char>) -> Seq<char> {
    collapse(ascii_lowered(lowercase_of(stripped(title))))
}

/// A slug as the tracker makes it: small letters, digits and underscores.
pub open spec fn is_lower_slug(slug: Seq<char>) -> bool {
    forall|i: int|
        0 <= i < slug.len() ==> is_lower(#[trigger] slug[i]) || is_digit(slug[i]) || slug[i] == '_'
}

/// A text whose underscores stand alone between other characters: none at
/// its ends, and no two in a row.
pub open spec fn well_joined(s: Seq<char>) -> bool {
    &&& s.len() > 0 ==> s[0] != '_' && s.last() != '_'
    &&& forall|i: int| 0 <= i < s.len() - 1 ==> !(#[trigger] s[i] == '_' && s[i + 1] == '_')
}

/// A character that the text does not hold after its other characters have
/// become underscores is not in the collapsed text either.
pub proof fn lemma_collapse_without(text: Seq<char>, c: char)
    requires
        c != '_',
        !has_char(text.map_values(|c: char| slug_char(c)), c),
    ensures
        !has_char(collapse(text), c),
{
    let mapped = text.map_values(|c: char| slug_char(c));
    let all = split(mapped, '_');
    let keep = |p: Seq<char>| is_nonempty(p);
    let words = all.filter(keep);
    lemma_split_pieces_within(mapped, '_', c);
    assert forall|k: int| 0 <= k < words.len() implies !has_char(#[trigger] words[k], c) by {
        assert(words.contains(words[k]));
        all.lemma_filter_contains_rev(keep, words[k]);
        let j = choose|j: int| 0 <= j < all.len() && all[j] == words[k];
        assert(!has_char(all[j], c));
    }
    assert(!has_char(seq!['_'], c));
    lemma_join_clean(words, seq!['_'], c);
}

/// A collapsed text holds letters, digits and underscores only.
pub proof fn lemma_collapse_is_slug(text: Seq<char>)
    ensures
        is_slug(collapse(text)),
{
    let mapped = text.map_values(|c: char| slug_char(c));
    let result = collapse(text);
    assert forall|i: int| 0 <= i < result.len() implies is_alnum(#[trigger] result[i])
        || result[i] == '_' by {
        let c = result[i];
        if !(is_alnum(c) || c == '_') {
            assert(!has_char(mapped, c)) by {
                if has_char(mapped, c) {
                    let k = choose|k: int| 0 <= k < mapped.len() && mapped[k] == c;
                    assert(mapped[k] == slug_char(text[k]));
                }
            }
            lemma_collapse_without(text, c);
            assert(result[i] == c);
        }
    }
}

/// A text without ASCII capitals collapses to small letters, digits and
/// underscores.
pub proof fn lemma_collapse_lower(text: Seq<char>)
    requires
        forall|i: int| 0 <= i < text.len() ==> !is_upper(#[trigger] text[i]),
    ensures
        is_lower_slug(collapse(text)),
{
    let mapped = text.map_values(|c: char| slug_char(c));
    let result = collapse(text);
    lemma_collapse_is_slug(text);
    assert forall|i: int| 0 <= i < result.len() implies is_lower(#[trigger] result[i]) || is_digit(
        result[i],
    ) || result[i] == '_' by {
        let c = result[i];
        assert(is_alnum(c) || c == '_');
        if is_upper(c) {
            assert(!has_char(mapped, c)) by {
                if has_char(mapped, c) {
                    let k = choose|k: int| 0 <= k < mapped.len() && mapped[k] == c;
                    assert(mapped[k] == slug_char(text[k]));
                    assert(!is_upper(text[k]));
                }
            }
            lemma_collapse_without(text, c);
            assert(result[i] == c);
        }
    }
}

/// Words that are not empty and hold no underscore, joined by underscores,
/// give a text whose underscores stand alone.
pub proof fn lemma_join_words(parts: Seq<Seq<char>>)
    requires
        forall|k: int|
            0 <= k < parts.len() ==> (#[trigger] parts[k]).len() > 0 && !has_char(parts[k], '_'),
    ensures
        well_joined(join(parts, seq!['_'])),
        parts.len() > 0 ==> join(parts, seq!['_']).len() > 0,
    decreases parts.len(),
{
    if parts.len() == 1 {
        let w = parts[0];
        assert(w.len() > 0 && !has_char(w, '_'));
        assert forall|i: int| 0 <= i < w.len() implies w[i] != '_' by {}
    } else if parts.len() >= 2 {
        let init = parts.drop_last();
        assert forall|k: int| 0 <= k < init.len() implies (#[trigger] init[k]).len() > 0
            && !has_char(init[k], '_') by {
            assert(init[k] == parts[k]);
        }
        lemma_join_words(init);
        let a = join(init, seq!['_']);
        let w = parts.last();
        assert(w == parts[parts.len() - 1]);
        assert(w.len() > 0 && !has_char(w, '_'));
        assert forall|i: int| 0 <= i < w.len() implies w[i] != '_' by {}
        let whole = a + seq!['_'] + w;
        assert(whole[0] == a[0]);
        assert(whole.last() == w.last());
        assert forall|i: int| 0 <= i < whole.len() - 1 implies !(#[trigger] whole[i] == '_'
            && whole[i + 1] == '_') by {
            if i + 1 < a.len() {
                assert(whole[i] == a[i] && whole[i + 1] == a[i + 1]);
            } else if i + 1 == a.len() {
                assert(whole[i] == a.last());
            } else if i == a.len() {
                assert(whole[i + 1] == w[0]);
            } else {
                assert(whole[i] == w[i - a.len() - 1]);
            }
        }
    }
}

/// In a collapsed text the underscores stand alone between the words.
pub proof fn lemma_collapse_shape(text: Seq<char>)
    ensures
        well_joined(collapse(text)),
{
    let mapped = text.map_values(|c: char| slug_char(c));
    let all = split(mapped, '_');
    let keep = |p: Seq<char>| is_nonempty(p);
    let words = all.filter(keep);
    crate::split::lemma_split_pieces_clean(mapped, '_');
    assert forall|k: int| 0 <= k < words.len() implies (#[trigger] words[k]).len() > 0
        && !has_char(words[k], '_') by {
        all.lemma_filter_pred(keep, k);
        assert(keep(words[k]));
        assert(words.contains(words[k]));
        all.lemma_filter_contains_rev(keep, words[k]);
        let j = choose|j: int| 0 <= j < all.len() && all[j] == words[k];
        assert(!has_char(all[j], '_'));
    }
    lemma_join_words(words);
}

/// The slug of every title holds small letters, digits and underscores
/// only, and its underscores stand alone between its words.
pub proof fn law_slug_shape(title: Seq<char>)
    ensures
        is_lower_slug(slug_of(title)),
        is_slug(slug_of(title)),
        well_joined(slug_of(title)),
{
    let text = ascii_lowered(lowercase_of(stripped(title)));
    lemma_collapse_lower(text);
    lemma_collapse_is_slug(text);
    lemma_collapse_shape(text);
}

/// Makes the ASCII capitals of a text small.
pub fn lower_ascii(text: &str) -> (r: String)
    ensures
        r@ == ascii_lowered(text@),
{
    let chars = chars_of(text);
    let mut out: Vec<char> = Vec::new();
    let mut i: usize = 0;
    let ghost f = |c: char| lower_char(c);
    while i < chars.len()
        invariant
            i <= chars.len(),
            f == |c: char| lower_char(c),
            out@ == chars@.take(i as int).map_values(f),
        decreases chars.len() - i,
    {
        let c = chars[i];
        let ghost before = out@;
        if c >= 'A' && c <= 'Z' {
            let code: u8 = c as u8 + 32;
            out.push(code as char);
        } else {
            out.push(c);
        }
        proof {
            assert(chars@.take(i + 1) == chars@.take(i as int).push(c));
            assert(out@ == before.push(lower_char(c)));
            assert(chars@.take(i + 1).map_values(f) == chars@.take(i as int).map_values(f).push(
                f(c),
            ));
        }
        i += 1;
    }
    proof {
        assert(chars@.take(chars.len() as int) == chars@);
    }
    string_of(&out)
}

/// The words of a text, joined by single underscores.
pub fn collapse_to_slug(text: &str) -> (r: String)
    ensures
        r@ == collapse(text@),
        is_slug(r@),
{
    let chars = chars_of(text);
    let mut mapped: Vec<char> = Vec::new();
    let mut i: usize = 0;
    let ghost f = |c: char| slug_char(c);
    while i < chars.len()
        invariant
            i <= chars.len(),
            f == |c: char| slug_char(c),
            mapped@ == chars@.take(i as int).map_values(f),
        decreases chars.len() - i,
    {
        let c = chars[i];
        let ghost before = mapped@;
        if crate::text::char_is_alnum(c) {
            mapped.push(c);
        } else {
            mapped.push('_');
        }
        proof {
            assert(chars@.take(i + 1) == chars@.take(i as int).push(c));
            assert(mapped@ == before.push(slug_char(c)));
            assert(chars@.take(i + 1).map_values(f) == chars@.take(i as int).map_values(f).push(
                f(c),
            ));
        }
        i += 1;
    }
    proof {
        assert(chars@.take(chars.len() as int) == chars@);
    }
    let all = split_chars(&mapped, '_');
    let mut words: Vec<Vec<char>> = Vec::new();
    let mut k: usize = 0;
    let ghost keep = |p: Seq<char>| is_nonempty(p);
    proof {
        assert(pieces(all@).take(0) == Seq::<Seq<char>>::empty());
    }
    while k < all.len()
        invariant
            k <= all.len(),
            keep == |p: Seq<char>| is_nonempty(p),
            pieces(words@) == pieces(all@).take(k as int).filter(keep),
        decreases all.len() - k,
    {
        let ghost before = words@;
        proof {
            assert(pieces(all@).take(k + 1) == pieces(all@).take(k as int).push(all@[k as int]@));
            pieces(all@).take(k as int).lemma_filter_push(all@[k as int]@, keep);
        }
        if all[k].len() > 0 {
            words.push(copy_chars(&all[k]));
            proof {
                assert(pieces(words@) == pieces(before).push(all@[k as int]@));
            }
        }
        k += 1;
    }
    proof {
        assert(pieces(all@).take(all.len() as int) == pieces(all@));
        lemma_collapse_is_slug(text@);
    }
    let underscore: Vec<char> = vec!['_'];
    assert(underscore@ == seq!['_']);
    string_of(&join_chars(&words, &underscore))
}

/// The slug of a title: small letters, digits and underscores, with the
/// underscores alone between the words.
pub fn title_to_slug(title: &str) -> (r: String)
    ensures
        r@ == slug_of(title@),
        is_slug(r@),
        is_lower_slug(r@),
        well_joined(r@),
{
    let trimmed = string_of(&strip(&chars_of(title)));
    let lowered = to_lowercase(trimmed.as_str());
    let small = lower_ascii(lowered.as_str());
    proof {
        law_slug_shape(title@);
    }
    collapse_to_slug(small.as_str())
}

} // verus!
