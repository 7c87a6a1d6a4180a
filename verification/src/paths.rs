//! Paths and file names: what the name of a file in a status directory says
//! after the file has been given a new name.

use crate::codec::{
    decode_stem, encodable, encode, encode_stem, file_name_of, lemma_decode_encode,
    lemma_decoded_is_clean, lemma_join_clean, lemma_split_pieces_within, stem_of, Fields,
};
use crate::config::join_path;
use crate::issue::IssueView;
use crate::model::{backed, with_order};
use crate::number::{lemma_pad3, pad3, parse_u32};
use crate::severity::lemma_severity_names;
use crate::split::{lemma_split_nonempty, split};
use crate::text::{has_char, last_index, lemma_last_index, lemma_last_index_before_tail};
use vstd::prelude::*;

verus! {

/// A text made of two holds a character where one of the two does.
pub proof fn lemma_has_char_concat(a: Seq<char>, b: Seq<char>, c: char)
    ensures
        has_char(a + b, c) <==> has_char(a, c) || has_char(b, c),
{
    let whole = a + b;
    if has_char(whole, c) {
        let i = choose|i: int| 0 <= i < whole.len() && whole[i] == c;
        if i < a.len() {
            assert(a[i] == c);
        } else {
            assert(b[i - a.len()] == c);
        }
    }
    if has_char(a, c) {
        let i = choose|i: int| 0 <= i < a.len() && a[i] == c;
        assert(whole[i] == c);
    }
    if has_char(b, c) {
        let i = choose|i: int| 0 <= i < b.len() && b[i] == c;
        assert(whole[a.len() + i] == c);
    }
}

/// A part of a text holds no character that the text does not hold.
pub proof fn lemma_has_char_part(s: Seq<char>, from: int, to: int, c: char)
    requires
        0 <= from <= to <= s.len(),
        !has_char(s, c),
    ensures
        !has_char(s.subrange(from, to), c),
{
    let part = s.subrange(from, to);
    if has_char(part, c) {
        let i = choose|i: int| 0 <= i < part.len() && part[i] == c;
        assert(s[from + i] == c);
    }
}

/// The name of a file holds no `/`.
pub proof fn lemma_file_name_plain(path: Seq<char>)
    ensures
        !has_char(file_name_of(path), '/'),
{
    lemma_last_index(path, '/');
    let name = file_name_of(path);
    if has_char(name, '/') {
        let i = choose|i: int| 0 <= i < name.len() && name[i] == '/';
        assert(path[last_index(path, '/') + 1 + i] == '/');
    }
}

/// The file at a name below a directory has that name, where the name holds
/// no `/`.
pub proof fn lemma_joined_name(dir: Seq<char>, name: Seq<char>)
    requires
        !has_char(name, '/'),
    ensures
        file_name_of(join_path(dir, name)) == name,
{
    let path = join_path(dir, name);
    if name.len() > 0 && name[0] == '/' {
        assert(has_char(name, '/'));
    }
    if dir.len() == 0 {
        lemma_last_index(name, '/');
        assert(name.skip(0) == name);
    } else if dir.last() == '/' {
        assert(dir.drop_last() + seq!['/'] + name == path);
        lemma_last_index_before_tail(dir.drop_last(), '/', name);
        assert(path.skip(dir.len() as int) == name);
    } else {
        lemma_last_index_before_tail(dir, '/', name);
        assert(path.skip(dir.len() as int + 1) == name);
    }
}

/// What a readable stem says holds no character that the stem does not
/// hold, the underscore apart.
pub proof fn lemma_decoded_plain(stem: Seq<char>, c: char)
    requires
        !has_char(stem, c),
        c != '_',
    ensures
        decode_stem(stem) matches Ok(f) ==> !has_char(f.id, c) && !has_char(f.slug, c),
{
    if let Ok(f) = decode_stem(stem) {
        let parts = split(stem, '-');
        lemma_split_pieces_within(stem, '-', c);
        lemma_split_nonempty(stem, '-');
        let first: int = if parse_u32(parts[0]) is Some {
            1
        } else {
            0
        };
        assert(!has_char(parts[first], c));
        let tail = parts.skip(first + 2);
        assert forall|k: int| 0 <= k < tail.len() implies !has_char(#[trigger] tail[k], c) by {
            assert(tail[k] == parts[first + 2 + k]);
        }
        assert(!has_char(seq!['_'], c));
        lemma_join_clean(tail, seq!['_'], c);
    }
}

/// The identifier and the slug of an issue that a file backs hold neither a
/// hyphen nor a `/`.
pub proof fn lemma_backed_fields(r: IssueView, status: Seq<char>)
    requires
        backed(r, status),
    ensures
        !has_char(r.id, '-'),
        !has_char(r.slug, '-'),
        !has_char(r.id, '/'),
        !has_char(r.slug, '/'),
        r.status == status,
{
    let name = file_name_of(r.path);
    let stem = stem_of(name);
    lemma_file_name_plain(r.path);
    lemma_last_index(name, '.');
    if last_index(name, '.') > 0 {
        lemma_has_char_part(name, 0, last_index(name, '.'), '/');
        assert(name.subrange(0, last_index(name, '.')) == stem);
    }
    lemma_decoded_is_clean(stem);
    lemma_decoded_plain(stem, '/');
}

/// An encoded name holds no `/` where the identifier and the slug hold none.
pub proof fn lemma_encoded_plain(f: Fields)
    requires
        !has_char(f.id, '/'),
        !has_char(f.slug, '/'),
    ensures
        !has_char(encode(f), '/'),
{
    let dash = seq!['-'];
    let sev = f.severity.name();
    lemma_severity_names(f.severity);
    assert(!has_char(dash, '/'));
    lemma_has_char_concat(f.id, dash, '/');
    lemma_has_char_concat(f.id + dash, sev, '/');
    lemma_has_char_concat(f.id + dash + sev, dash, '/');
    lemma_has_char_concat(f.id + dash + sev + dash, f.slug, '/');
    let tail = f.id + dash + sev + dash + f.slug;
    match f.order {
        Some(n) => {
            lemma_pad3(n);
            lemma_has_char_concat(pad3(n as nat), dash, '/');
            lemma_has_char_concat(pad3(n as nat) + dash, tail, '/');
        },
        None => {},
    }
    let md = seq!['.', 'm', 'd'];
    assert(!has_char(md, '/'));
    lemma_has_char_concat(encode_stem(f), md, '/');
}

/// The file that an issue moves to says what the issue then is: for an
/// issue whose identifier and slug hold neither a hyphen nor a `/`, and
/// whose identifier does not read as a number where it loses its order
/// number.
pub proof fn lemma_renamed_is_backed(r: IssueView, order: Option<u32>, dir: Seq<char>)
    requires
        !has_char(r.id, '-'),
        !has_char(r.slug, '-'),
        !has_char(r.id, '/'),
        !has_char(r.slug, '/'),
        order is None ==> parse_u32(r.id) is None,
    ensures
        backed(with_order(r, order, dir), r.status),
        file_name_of(with_order(r, order, dir).path) == encode(
            Fields { order, id: r.id, severity: r.severity, slug: r.slug },
        ),
{
    let f = Fields { order, id: r.id, severity: r.severity, slug: r.slug };
    lemma_encoded_plain(f);
    lemma_joined_name(dir, encode(f));
    assert(encodable(f));
    lemma_decode_encode(f);
}

} // verus!
