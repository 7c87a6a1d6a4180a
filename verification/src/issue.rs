//! An issue, as its file name describes it.

use crate::codec::{decode_path, encode, extension_of, file_name_of, stem_of, Fields};
use crate::error::MothError;
use crate::number::{read_u32, write_pad3};
use crate::severity::Severity;
use crate::split::{join, join_tail, lemma_split_nonempty, pieces, split, split_chars};
use crate::text::{
    chars_of, contains_char, copy_chars, extend_chars, find_last, has_char, lemma_last_index,
    slice_chars, string_of,
};
use vstd::prelude::*;
use vstd::string::*;

verus! {

/// An issue. `path` is where its file was found; the other fields are what
/// the file's name says, and `status` is the status whose directory holds it.
#[derive(Debug)]
pub struct Issue {
    pub id: String,
    pub severity: Severity,
    pub slug: String,
    pub status: String,
    pub path: String,
    pub order: Option<u32>,
}

/// An issue with its texts as character sequences.
pub struct IssueView {
    pub id: Seq<char>,
    pub severity: Severity,
    pub slug: Seq<char>,
    pub status: Seq<char>,
    pub path: Seq<char>,
    pub order: Option<u32>,
}

impl IssueView {
    /// What the file name carries of the issue.
    pub open spec fn fields(self) -> Fields {
        Fields { order: self.order, id: self.id, severity: self.severity, slug: self.slug }
    }

    /// The file name that the issue's fields give.
    pub open spec fn filename(self) -> Seq<char> {
        encode(self.fields())
    }

    /// The title that the slug stands for.
    pub open spec fn title(self) -> Seq<char> {
        title_of(self.slug)
    }
}

/// The issue that a path and the name of its status describe.
pub open spec fn issue_at(path: Seq<char>, status: Seq<char>) -> Option<IssueView> {
    match decode_path(path) {
        Ok(f) => Some(
            IssueView {
                id: f.id,
                severity: f.severity,
                slug: f.slug,
                status,
                path,
                order: f.order,
            },
        ),
        Err(_) => None,
    }
}

impl View for Issue {
    type V = IssueView;

    open spec fn view(&self) -> IssueView {
        IssueView {
            id: self.id@,
            severity: self.severity,
            slug: self.slug@,
            status: self.status@,
            path: self.path@,
            order: self.order,
        }
    }
}

impl Clone for Issue {
    fn clone(&self) -> (r: Self)
        ensures
            r@ == self@,
    {
        Issue {
            id: self.id.clone(),
            severity: self.severity,
            slug: self.slug.clone(),
            status: self.status.clone(),
            path: self.path.clone(),
            order: self.order,
        }
    }
}

/// What `char::to_uppercase` yields for a character: its upper-case mapping,
/// one character or more, or the character itself where it has none.
pub uninterp spec fn uppercase_of(c: char) -> Seq<char>;

/// Calls `char::to_uppercase` and collects what it yields. The result is the
/// character's upper-case mapping, by the name `uppercase_of`.
#[verifier::external_body]
fn to_upper(c: char) -> (r: Vec<char>)
    ensures
        r@ == uppercase_of(c),
{
    c.to_uppercase().collect()
}

/// A word with its first character in upper case.
pub open spec fn capitalize(word: Seq<char>) -> Seq<char> {
    if word.len() == 0 {
        word
    } else {
        uppercase_of(word[0]) + word.skip(1)
    }
}

/// The character at which a slug's words part: the underscore where the slug
/// holds one, else the hyphen.
pub open spec fn word_separator(slug: Seq<char>) -> char {
    if has_char(slug, '_') {
        '_'
    } else {
        '-'
    }
}

/// The title that a slug stands for: its words, each with its first
/// character in upper case, with single spaces between them.
pub open spec fn title_of(slug: Seq<char>) -> Seq<char> {
    join(split(slug, word_separator(slug)).map_values(|w: Seq<char>| capitalize(w)), seq![' '])
}

/// `word` with `capital` in place of its first character.
pub fn capitalized(word: &Vec<char>, capital: &Vec<char>) -> (r: Vec<char>)
    requires
        word.len() > 0,
    ensures
        r@ == capital@ + word@.skip(1),
{
    let mut r = copy_chars(capital);
    let rest = slice_chars(word, 1, word.len());
    extend_chars(&mut r, &rest);
    r
}

impl Issue {
    /// Reads the issue that the file at `path` holds. The last component of
    /// the path, without its extension, is decoded; `status` names the status
    /// whose directory the file lies in.
    pub fn from_path(path: &str, status: &str) -> (r: Result<Issue, MothError>)
        ensures
            match decode_path(path@) {
                Ok(f) => r matches Ok(issue) && Some(issue@) == issue_at(path@, status@),
                Err(e) => r matches Err(err) && err@ == e,
            },
    {
        let chars = chars_of(path);
        let start: usize = match find_last(&chars, '/') {
            Some(i) => i + 1,
            None => 0,
        };
        proof {
            lemma_last_index(chars@, '/');
        }
        let name = slice_chars(&chars, start, chars.len());
        assert(name@ == file_name_of(path@));
        let stem = match find_last(&name, '.') {
            Some(d) => {
                if d > 0 {
                    slice_chars(&name, 0, d)
                } else {
                    name
                }
            },
            None => name,
        };
        assert(stem@ == stem_of(file_name_of(path@)));
        let parts = split_chars(&stem, '-');
        proof {
            lemma_split_nonempty(stem@, '-');
            assert(pieces(parts@)[0] == parts@[0]@);
        }
        let order = read_u32(&parts[0]);
        let first: usize = if order.is_some() {
            1
        } else {
            0
        };
        if parts.len() < first + 3 {
            return Err(MothError::InvalidFilename);
        }
        proof {
            assert(pieces(parts@)[first as int] == parts@[first as int]@);
            assert(pieces(parts@)[first + 1] == parts@[first + 1]@);
        }
        let severity = match Severity::from_chars(&parts[first + 1]) {
            Some(s) => s,
            None => {
                return Err(MothError::InvalidSeverity { text: string_of(&parts[first + 1]) });
            },
        };
        let underscore: Vec<char> = vec!['_'];
        assert(underscore@ == seq!['_']);
        let slug = join_tail(&parts, first + 2, &underscore);
        Ok(
            Issue {
                id: string_of(&parts[first]),
                severity,
                slug: string_of(&slug),
                status: String::from_str(status),
                path: String::from_str(path),
                order,
            },
        )
    }

    /// The name of the file that holds the issue:
    /// `[{order}-]{id}-{severity}-{slug}.md`.
    pub fn filename(&self) -> (r: String)
        ensures
            r@ == self@.filename(),
    {
        let mut r: Vec<char> = Vec::new();
        match self.order {
            Some(n) => {
                let digits = write_pad3(n);
                extend_chars(&mut r, &digits);
                r.push('-');
            },
            None => {},
        }
        let ghost lead = r@;
        extend_chars(&mut r, &chars_of(self.id.as_str()));
        r.push('-');
        extend_chars(&mut r, &chars_of(self.severity.as_str()));
        r.push('-');
        extend_chars(&mut r, &chars_of(self.slug.as_str()));
        r.push('.');
        r.push('m');
        r.push('d');
        proof {
            let f = self@.fields();
            let tail = f.id + seq!['-'] + f.severity.name() + seq!['-'] + f.slug;
            assert(r@ == lead + tail + seq!['.', 'm', 'd']);
            if self.order is None {
                assert(lead + tail == tail);
            }
        }
        string_of(&r)
    }

    /// The title of the issue, for display.
    pub fn title(&self) -> (r: String)
        ensures
            r@ == self@.title(),
    {
        let slug = chars_of(self.slug.as_str());
        let separator: char = if contains_char(&slug, '_') {
            '_'
        } else {
            '-'
        };
        let words = split_chars(&slug, separator);
        let mut shown: Vec<Vec<char>> = Vec::new();
        let mut i: usize = 0;
        let ghost cap = |w: Seq<char>| capitalize(w);
        while i < words.len()
            invariant
                i <= words.len(),
                cap == |w: Seq<char>| capitalize(w),
                pieces(shown@) == pieces(words@).take(i as int).map_values(cap),
            decreases words.len() - i,
        {
            let word = &words[i];
            let ghost before = shown@;
            if word.len() == 0 {
                shown.push(Vec::new());
            } else {
                let capital = to_upper(word[0]);
                shown.push(capitalized(word, &capital));
            }
            proof {
                assert(shown@.last()@ == capitalize(word@));
                assert(pieces(shown@) == pieces(before).push(capitalize(word@)));
                assert(pieces(words@).take(i + 1) == pieces(words@).take(i as int).push(word@));
            }
            i += 1;
        }
        proof {
            assert(pieces(words@).take(words.len() as int) == pieces(words@));
        }
        let space: Vec<char> = vec![' '];
        assert(space@ == seq![' ']);
        string_of(&crate::split::join_chars(&shown, &space))
    }

    /// Whether the file's extension marks it as an issue file.
    pub fn is_issue_file(name: &str) -> (r: bool)
        ensures
            r == (extension_of(name@) == Some(seq!['m', 'd'])),
    {
        let chars = chars_of(name);
        proof {
            lemma_last_index(chars@, '.');
        }
        match find_last(&chars, '.') {
            Some(d) => {
                if d > 0 {
                    let ext = slice_chars(&chars, d + 1, chars.len());
                    let md: Vec<char> = vec!['m', 'd'];
                    assert(md@ == seq!['m', 'd']);
                    crate::text::same_chars(&ext, &md)
                } else {
                    false
                }
            },
            None => false,
        }
    }
}

} // verus!
