//! The file name grammar: `[{order}-]{id}-{severity}-{slug}.md`.
//!
//! The order is written with at least three digits. The slug's words are
//! joined by underscores; a name whose slug words are joined by hyphens is
//! read as well, and its hyphens become underscores.

use crate::error::ErrorView;
use crate::number::{lemma_pad3, pad3, parse_u32};
use crate::severity::{lemma_severity_names, severity_of, Severity};
use crate::split::{
    join, lemma_split_concat, lemma_split_nonempty, lemma_split_pieces_clean, lemma_split_single,
    split,
};
use crate::text::{has_char, is_digit, is_lower, last_index, lemma_last_index_before_tail};
use vstd::prelude::*;

verus! {

/// What a file name says of an issue.
pub struct Fields {
    pub order: Option<u32>,
    pub id: Seq<char>,
    pub severity: Severity,
    pub slug: Seq<char>,
}

/// The file name without its extension.
pub open spec fn encode_stem(f: Fields) -> Seq<char> {
    let tail = f.id + seq!['-'] + f.severity.name() + seq!['-'] + f.slug;
    match f.order {
        Some(n) => pad3(n as nat) + seq!['-'] + tail,
        None => tail,
    }
}

/// The file name of an issue.
pub open spec fn encode(f: Fields) -> Seq<char> {
    encode_stem(f) + seq!['.', 'm', 'd']
}

/// The last component of a path whose components are separated by `/`.
pub open spec fn file_name_of(path: Seq<char>) -> Seq<char> {
    path.skip(last_index(path, '/') + 1)
}

/// The file name up to its last dot. A name without a dot, or with none but
/// a leading one, is its own stem.
pub open spec fn stem_of(name: Seq<char>) -> Seq<char> {
    if last_index(name, '.') > 0 {
        name.take(last_index(name, '.'))
    } else {
        name
    }
}

/// What follows the last dot of a file name, where `stem_of` cuts one off.
pub open spec fn extension_of(name: Seq<char>) -> Option<Seq<char>> {
    if last_index(name, '.') > 0 {
        Some(name.skip(last_index(name, '.') + 1))
    } else {
        None
    }
}

/// What the stem of a file name says. The stem is cut at its hyphens. A first
/// segment that reads as a number is the order, and the segments after it
/// move up by one. Then come the identifier and the severity word, and every
/// further segment belongs to the slug. Fewer than three segments besides the
/// order, or an unknown severity word, make the name unreadable.
pub open spec fn decode_stem(stem: Seq<char>) -> Result<Fields, ErrorView> {
    let parts = split(stem, '-');
    let order = parse_u32(parts[0]);
    let first: int = if order is Some {
        1
    } else {
        0
    };
    if parts.len() < first + 3 {
        Err(ErrorView::InvalidFilename)
    } else {
        match severity_of(parts[first + 1]) {
            None => Err(ErrorView::InvalidSeverity { text: parts[first + 1] }),
            Some(sev) => Ok(
                Fields {
                    order,
                    id: parts[first],
                    severity: sev,
                    slug: join(parts.skip(first + 2), seq!['_']),
                },
            ),
        }
    }
}

/// What a file name says.
pub open spec fn decode(name: Seq<char>) -> Result<Fields, ErrorView> {
    decode_stem(stem_of(name))
}

/// What the file at a path says of its issue.
pub open spec fn decode_path(path: Seq<char>) -> Result<Fields, ErrorView> {
    decode(file_name_of(path))
}

/// The fields that a file name can carry without loss: no hyphen in the
/// identifier or the slug, and an identifier that cannot be taken for an
/// order where no order stands before it.
pub open spec fn encodable(f: Fields) -> bool {
    &&& !has_char(f.id, '-')
    &&& !has_char(f.slug, '-')
    &&& f.order is None ==> parse_u32(f.id) is None
}

/// An identifier as the tracker hands them out: a lower-case letter, then
/// lower-case letters and digits.
pub open spec fn is_valid_id(id: Seq<char>) -> bool {
    &&& id.len() >= 1
    &&& is_lower(id[0])
    &&& forall|i: int| 0 <= i < id.len() ==> is_lower(#[trigger] id[i]) || is_digit(id[i])
}

/// A slug as a title gives it: letters, digits and underscores.
pub open spec fn is_slug(slug: Seq<char>) -> bool {
    forall|i: int|
        0 <= i < slug.len() ==> crate::text::is_alnum(#[trigger] slug[i]) || slug[i] == '_'
}

/// An identifier and a slug of the tracker's own make can be encoded
/// without loss, with or without an order.
pub proof fn lemma_valid_is_encodable(f: Fields)
    requires
        is_valid_id(f.id),
        is_slug(f.slug),
    ensures
        encodable(f),
{
    if has_char(f.id, '-') {
        let i = choose|i: int| 0 <= i < f.id.len() && f.id[i] == '-';
        assert(is_lower(f.id[i]) || is_digit(f.id[i]));
    }
    if has_char(f.slug, '-') {
        let i = choose|i: int| 0 <= i < f.slug.len() && f.slug[i] == '-';
        assert(crate::text::is_alnum(f.slug[i]) || f.slug[i] == '_');
    }
    lemma_id_is_no_number(f.id);
}

/// An identifier that starts with a letter does not read as a number.
pub proof fn lemma_id_is_no_number(id: Seq<char>)
    requires
        id.len() >= 1,
        is_lower(id[0]),
    ensures
        parse_u32(id) is None,
{
    let body = crate::number::unsigned_body(id);
    assert(body == id);
    assert(!is_digit(body[0]));
}

/// The segments of an encoded stem are the order, where there is one, the
/// identifier, the severity word and the slug.
pub proof fn lemma_encoded_segments(f: Fields)
    requires
        !has_char(f.id, '-'),
        !has_char(f.slug, '-'),
    ensures
        split(encode_stem(f), '-') == match f.order {
            Some(n) => seq![pad3(n as nat), f.id, f.severity.name(), f.slug],
            None => seq![f.id, f.severity.name(), f.slug],
        },
{
    let dash = seq!['-'];
    let sev = f.severity.name();
    lemma_severity_names(f.severity);
    lemma_split_single(f.id, '-');
    lemma_split_single(sev, '-');
    lemma_split_single(f.slug, '-');
    lemma_split_concat(f.id, sev, '-');
    lemma_split_concat(f.id + dash + sev, f.slug, '-');
    let tail = f.id + dash + sev + dash + f.slug;
    assert(split(tail, '-') == seq![f.id, sev, f.slug]);
    match f.order {
        Some(n) => {
            lemma_pad3(n);
            lemma_split_single(pad3(n as nat), '-');
            lemma_split_concat(pad3(n as nat), tail, '-');
            assert(seq![pad3(n as nat)] + seq![f.id, sev, f.slug] == seq![
                pad3(n as nat),
                f.id,
                sev,
                f.slug,
            ]);
        },
        None => {},
    }
}

/// Reading the stem of an encoded name gives the fields back.
pub proof fn lemma_decode_stem_encode(f: Fields)
    requires
        encodable(f),
    ensures
        decode_stem(encode_stem(f)) == Ok::<Fields, ErrorView>(f),
{
    lemma_encoded_segments(f);
    lemma_severity_names(f.severity);
    let parts = split(encode_stem(f), '-');
    match f.order {
        Some(n) => {
            lemma_pad3(n);
            assert(parts.skip(3) == seq![f.slug]);
            assert(join(seq![f.slug], seq!['_']) == f.slug);
        },
        None => {
            assert(parts.skip(2) == seq![f.slug]);
            assert(join(seq![f.slug], seq!['_']) == f.slug);
        },
    }
}

/// The stem of an encoded name is the encoded stem, and its extension is
/// `md`.
pub proof fn lemma_stem_of_encoded(f: Fields)
    ensures
        stem_of(encode(f)) == encode_stem(f),
        extension_of(encode(f)) == Some(seq!['m', 'd']),
{
    let stem = encode_stem(f);
    let md = seq!['m', 'd'];
    assert(!has_char(md, '.'));
    lemma_last_index_before_tail(stem, '.', md);
    assert(stem + seq!['.'] + md == encode(f));
    lemma_severity_names(f.severity);
    assert(stem.len() >= 1);
    assert(encode(f).take(stem.len() as int) == stem);
    assert(encode(f).skip(stem.len() as int + 1) == md);
}

/// Encoding, then decoding, gives back what was encoded: for every order,
/// identifier, severity and slug that can be encoded without loss.
pub proof fn lemma_decode_encode(f: Fields)
    requires
        encodable(f),
    ensures
        decode(encode(f)) == Ok::<Fields, ErrorView>(f),
{
    lemma_stem_of_encoded(f);
    lemma_decode_stem_encode(f);
}

/// The identifier and the slug that a readable name gives hold no hyphen.
pub proof fn lemma_decoded_is_clean(stem: Seq<char>)
    ensures
        decode_stem(stem) matches Ok(f) ==> !has_char(f.id, '-') && !has_char(f.slug, '-'),
{
    if let Ok(f) = decode_stem(stem) {
        let parts = split(stem, '-');
        lemma_split_pieces_clean(stem, '-');
        lemma_split_nonempty(stem, '-');
        let first: int = if parse_u32(parts[0]) is Some {
            1
        } else {
            0
        };
        assert(!has_char(parts[first], '-'));
        let tail = parts.skip(first + 2);
        assert forall|k: int| 0 <= k < tail.len() implies !has_char(#[trigger] tail[k], '-') by {
            assert(tail[k] == parts[first + 2 + k]);
        }
        lemma_join_clean(tail, seq!['_'], '-');
    }
}

/// A character that no piece and not the separator holds is not in the
/// joined text.
pub proof fn lemma_join_clean(parts: Seq<Seq<char>>, sep: Seq<char>, c: char)
    requires
        forall|k: int| 0 <= k < parts.len() ==> !has_char(#[trigger] parts[k], c),
        !has_char(sep, c),
    ensures
        !has_char(join(parts, sep), c),
    decreases parts.len(),
{
    if parts.len() == 0 {
    } else if parts.len() == 1 {
        assert(!has_char(parts[0], c));
    } else {
        let init = parts.drop_last();
        assert forall|k: int| 0 <= k < init.len() implies !has_char(#[trigger] init[k], c) by {
            assert(init[k] == parts[k]);
        }
        lemma_join_clean(init, sep, c);
        let a = join(init, sep);
        let whole = a + sep + parts.last();
        assert(!has_char(parts[parts.len() - 1], c));
        if has_char(whole, c) {
            let i = choose|i: int| 0 <= i < whole.len() && whole[i] == c;
            if i < a.len() {
                assert(a[i] == c);
            } else if i < a.len() + sep.len() {
                assert(sep[i - a.len()] == c);
            } else {
                assert(parts.last()[i - a.len() - sep.len()] == c);
            }
        }
    }
}

/// A character that the text does not hold is in none of its pieces.
pub proof fn lemma_split_pieces_within(s: Seq<char>, sep: char, c: char)
    requires
        !has_char(s, c),
    ensures
        forall|k: int| 0 <= k < split(s, sep).len() ==> !has_char(#[trigger] split(s, sep)[k], c),
    decreases s.len(),
{
    lemma_split_nonempty(s, sep);
    if s.len() > 0 {
        let t = s.drop_last();
        assert(!has_char(t, c)) by {
            if has_char(t, c) {
                let i = choose|i: int| 0 <= i < t.len() && t[i] == c;
                assert(s[i] == c);
            }
        }
        lemma_split_pieces_within(t, sep, c);
        lemma_split_nonempty(t, sep);
        let before = split(t, sep);
        assert(s[s.len() - 1] != c);
        assert forall|k: int| 0 <= k < split(s, sep).len() implies !has_char(
            #[trigger] split(s, sep)[k],
            c,
        ) by {
            if k < before.len() - 1 {
                assert(split(s, sep)[k] == before[k]);
            } else if s.last() == sep {
                if k == before.len() - 1 {
                    assert(split(s, sep)[k] == before[k]);
                }
            } else {
                let piece = before.last().push(s.last());
                assert(split(s, sep)[k] == piece);
                assert(!has_char(before[before.len() - 1], c));
                if has_char(piece, c) {
                    let i = choose|i: int| 0 <= i < piece.len() && piece[i] == c;
                    assert(before.last()[i] == c);
                }
            }
        }
    }
}

} // verus!
