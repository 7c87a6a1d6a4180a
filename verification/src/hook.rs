//! What to do with the commit hook file: which text to write when the hook
//! is installed, and what is left of the file when it is taken out.

use crate::split::{join, join_chars, lemma_split_nonempty, pieces, split, split_chars};
use crate::text::{chars_of, copy_chars, same_chars, string_of, strip, stripped};
use vstd::prelude::*;
use vstd::string::*;

verus! {

/// `needle` stands in `hay` at place `i`.
pub open spec fn occurs_at(hay: Seq<char>, needle: Seq<char>, i: int) -> bool {
    0 <= i && i + needle.len() <= hay.len() && hay.subrange(i, i + needle.len()) == needle
}

/// `needle` stands somewhere in `hay`.
pub open spec fn contains_text(hay: Seq<char>, needle: Seq<char>) -> bool {
    exists|i: int| occurs_at(hay, needle, i)
}

fn found_at(hay: &Vec<char>, needle: &Vec<char>, i: usize) -> (r: bool)
    requires
        i + needle.len() <= hay.len(),
    ensures
        r == occurs_at(hay@, needle@, i as int),
{
    let mut j: usize = 0;
    while j < needle.len()
        invariant
            j <= needle.len(),
            i + needle.len() <= hay.len(),
            hay@.subrange(i as int, i + j) == needle@.take(j as int),
        decreases needle.len() - j,
    {
        if hay[i + j] != needle[j] {
            proof {
                assert(hay@.subrange(i as int, i + needle.len())[j as int] != needle@[j as int]);
            }
            return false;
        }
        proof {
            assert(hay@.subrange(i as int, i + j + 1) == hay@.subrange(i as int, i + j).push(
                hay@[i + j],
            ));
            assert(needle@.take(j + 1) == needle@.take(j as int).push(needle@[j as int]));
        }
        j += 1;
    }
    proof {
        assert(needle@.take(needle.len() as int) == needle@);
    }
    true
}

/// Whether `needle` stands somewhere in `hay`.
pub fn has_text(hay: &Vec<char>, needle: &Vec<char>) -> (r: bool)
    ensures
        r == contains_text(hay@, needle@),
{
    if needle.len() > hay.len() {
        return false;
    }
    let last: usize = hay.len() - needle.len();
    let mut i: usize = 0;
    while i < last
        invariant
            i <= last,
            last == hay.len() - needle.len(),
            needle.len() <= hay.len(),
            forall|k: int| 0 <= k < i ==> !occurs_at(hay@, needle@, k),
        decreases last - i,
    {
        if found_at(hay, needle, i) {
            return true;
        }
        i += 1;
    }
    found_at(hay, needle, last)
}

/// A line without the carriage return at its end, if it has one.
pub open spec fn without_return(line: Seq<char>) -> Seq<char> {
    if line.len() > 0 && line.last() == '\r' {
        line.drop_last()
    } else {
        line
    }
}

/// The lines of a text. A line ends at a line feed, and the carriage return
/// before the line feed does not belong to it. What follows the last line
/// feed is a line too, unless it is empty.
pub open spec fn lines_of(s: Seq<char>) -> Seq<Seq<char>> {
    let p = split(s, '\n');
    let n = p.len() as int;
    Seq::new(
        if p.last().len() == 0 {
            (n - 1) as nat
        } else {
            n as nat
        },
        |k: int|
            if k < n - 1 {
                without_return(p[k])
            } else {
                p[k]
            },
    )
}

/// The lines of a text.
pub fn lines(s: &Vec<char>) -> (r: Vec<Vec<char>>)
    ensures
        pieces(r@) == lines_of(s@),
{
    let p = split_chars(s, '\n');
    proof {
        lemma_split_nonempty(s@, '\n');
    }
    let n = p.len();
    assert(pieces(p@)[n - 1] == p@[n - 1]@);
    let count: usize = if p[n - 1].len() == 0 {
        n - 1
    } else {
        n
    };
    let ghost want = lines_of(s@);
    let mut r: Vec<Vec<char>> = Vec::new();
    let mut k: usize = 0;
    assert(pieces(r@) == want.take(0));
    while k < count
        invariant
            k <= count <= n,
            n == p.len(),
            pieces(p@) == split(s@, '\n'),
            want == lines_of(s@),
            want.len() == count,
            pieces(r@) == want.take(k as int),
        decreases count - k,
    {
        assert(pieces(p@)[k as int] == p@[k as int]@);
        let line = &p[k];
        let ghost before = r@;
        if k < n - 1 && line.len() > 0 && line[line.len() - 1] == '\r' {
            let cut = crate::text::slice_chars(line, 0, line.len() - 1);
            assert(cut@ == line@.drop_last());
            r.push(cut);
        } else {
            r.push(copy_chars(line));
        }
        proof {
            assert(pieces(r@) == pieces(before).push(want[k as int]));
            assert(want.take(k + 1) == want.take(k as int).push(want[k as int]));
        }
        k += 1;
    }
    proof {
        assert(want.take(count as int) == want);
    }
    r
}

/// The lines that stay when the sections between marker lines leave: the
/// lines kept so far, and whether a section is open. A line that holds the
/// marker opens or closes a section and leaves too.
pub open spec fn lines_kept(all: Seq<Seq<char>>, marker: Seq<char>) -> (Seq<Seq<char>>, bool)
    decreases all.len(),
{
    if all.len() == 0 {
        (Seq::empty(), false)
    } else {
        let (kept, open) = lines_kept(all.drop_last(), marker);
        if contains_text(all.last(), marker) {
            (kept, !open)
        } else if open {
            (kept, open)
        } else {
            (kept.push(all.last()), open)
        }
    }
}

/// A text without its sections between marker lines, its lines joined by
/// line feeds.
pub open spec fn without_sections(content: Seq<char>, marker: Seq<char>) -> Seq<char> {
    join(lines_kept(lines_of(content), marker).0, seq!['\n'])
}

/// Takes the sections between marker lines out of a text.
pub fn strip_sections(content: &str, marker: &str) -> (r: String)
    ensures
        r@ == without_sections(content@, marker@),
{
    let all = lines(&chars_of(content));
    let mark = chars_of(marker);
    let mut kept: Vec<Vec<char>> = Vec::new();
    let mut open = false;
    let mut i: usize = 0;
    proof {
        assert(pieces(all@).take(0) == Seq::<Seq<char>>::empty());
        assert(pieces(kept@) == Seq::<Seq<char>>::empty());
    }
    while i < all.len()
        invariant
            i <= all.len(),
            mark@ == marker@,
            (pieces(kept@), open) == lines_kept(pieces(all@).take(i as int), marker@),
        decreases all.len() - i,
    {
        proof {
            let next = pieces(all@).take(i + 1);
            assert(next.drop_last() == pieces(all@).take(i as int));
            assert(next.last() == all@[i as int]@);
        }
        if has_text(&all[i], &mark) {
            open = !open;
        } else if !open {
            let ghost before = kept@;
            kept.push(copy_chars(&all[i]));
            proof {
                assert(pieces(kept@) == pieces(before).push(all@[i as int]@));
            }
        }
        i += 1;
    }
    proof {
        assert(pieces(all@).take(all.len() as int) == pieces(all@));
    }
    let feed: Vec<char> = vec!['\n'];
    assert(feed@ == seq!['\n']);
    string_of(&join_chars(&kept, &feed))
}

/// What installing the hook comes to.
#[derive(Debug, Clone, Copy, PartialEq, Eq, Structural)]
pub enum InstallKind {
    /// The hook is in the file already, and nothing is written.
    AlreadyInstalled,
    /// Another hook is in the file, and nothing is written.
    Refused,
    /// The script is written behind what the file holds.
    Appended,
    /// The script takes the place of what the file holds.
    Replaced,
    /// The script is written to a new file.
    Installed,
}

/// What installing the hook comes to, for a hook file that holds `existing`
/// or does not exist. A file that holds the marker is left alone unless the
/// hook is forced in; a file that holds another hook stops the install
/// unless the hook is forced in or appended. Else the script is appended
/// where that was asked for, and written in place of the file where not.
pub open spec fn install_kind(existing: Option<Seq<char>>, marker: Seq<char>, force: bool, append: bool)
    -> InstallKind {
    match existing {
        None => InstallKind::Installed,
        Some(content) => if contains_text(content, marker) && !force {
            InstallKind::AlreadyInstalled
        } else if !contains_text(content, marker) && !force && !append {
            InstallKind::Refused
        } else if append {
            InstallKind::Appended
        } else {
            InstallKind::Replaced
        },
    }
}

/// The text that the hook file gets, where one is written.
pub open spec fn install_text(existing: Option<Seq<char>>, script: Seq<char>, kind: InstallKind)
    -> Option<Seq<char>> {
    match kind {
        InstallKind::AlreadyInstalled => None,
        InstallKind::Refused => None,
        InstallKind::Appended => Some(existing->0 + seq!['\n', '\n'] + script),
        InstallKind::Replaced => Some(script),
        InstallKind::Installed => Some(script),
    }
}

/// Decides what installing the hook comes to, and the text to write.
pub fn plan_install(
    existing: Option<&str>,
    marker: &str,
    script: &str,
    force: bool,
    append: bool,
) -> (r: (InstallKind, Option<String>))
    ensures
        r.0 == install_kind(crate::priority::text_of(existing), marker@, force, append),
        match install_text(crate::priority::text_of(existing), script@, r.0) {
            Some(text) => r.1 matches Some(written) && written@ == text,
            None => r.1 is None,
        },
{
    match existing {
        None => (InstallKind::Installed, Some(String::from_str(script))),
        Some(content) => {
            let ours = has_text(&chars_of(content), &chars_of(marker));
            if ours && !force {
                (InstallKind::AlreadyInstalled, None)
            } else if !ours && !force && !append {
                (InstallKind::Refused, None)
            } else if append {
                let mut text = chars_of(content);
                text.push('\n');
                text.push('\n');
                crate::text::extend_chars(&mut text, &chars_of(script));
                assert(text@ == content@ + seq!['\n', '\n'] + script@);
                (InstallKind::Appended, Some(string_of(&text)))
            } else {
                (InstallKind::Replaced, Some(String::from_str(script)))
            }
        },
    }
}

/// What taking the hook out comes to.
#[derive(Debug, Clone, Copy, PartialEq, Eq, Structural)]
pub enum UninstallKind {
    /// The file does not hold the marker: it is another hook, and stays.
    Foreign,
    /// The file holds the script and nothing else, and is removed.
    Removed,
    /// The file holds more, and keeps what is not between marker lines.
    Rewritten,
}

pub open spec fn uninstall_kind(content: Seq<char>, marker: Seq<char>, script: Seq<char>)
    -> UninstallKind {
    if !contains_text(content, marker) {
        UninstallKind::Foreign
    } else if stripped(content) == stripped(script) {
        UninstallKind::Removed
    } else {
        UninstallKind::Rewritten
    }
}

/// Decides what taking the hook out of a file comes to, and the text that
/// the file keeps where it is rewritten.
pub fn plan_uninstall(content: &str, marker: &str, script: &str) -> (r: (
    UninstallKind,
    Option<String>,
))
    ensures
        r.0 == uninstall_kind(content@, marker@, script@),
        match r.0 {
            UninstallKind::Rewritten => r.1 matches Some(text) && text@ == without_sections(
                content@,
                marker@,
            ),
            _ => r.1 is None,
        },
{
    let chars = chars_of(content);
    if !has_text(&chars, &chars_of(marker)) {
        (UninstallKind::Foreign, None)
    } else if same_chars(&strip(&chars), &strip(&chars_of(script))) {
        (UninstallKind::Removed, None)
    } else {
        (UninstallKind::Rewritten, Some(strip_sections(content, marker)))
    }
}

/// What writing the guide comes to, for a guide file that holds `existing`
/// or does not exist: nothing where the file holds the heading of the guide
/// already, and else the text to write, which is the guide, behind what the
/// file holds and a rule.
pub open spec fn guide_text(existing: Option<Seq<char>>, heading: Seq<char>, guide: Seq<char>)
    -> Option<Seq<char>> {
    match existing {
        None => Some(guide),
        Some(content) => if contains_text(content, heading) {
            None
        } else {
            Some(content + seq!['\n', '\n', '-', '-', '-', '\n', '\n'] + guide)
        },
    }
}

/// The text to write when the guide is appended to a guide file.
pub fn plan_guide(existing: Option<&str>, heading: &str, guide: &str) -> (r: Option<String>)
    ensures
        match guide_text(crate::priority::text_of(existing), heading@, guide@) {
            Some(text) => r matches Some(written) && written@ == text,
            None => r is None,
        },
{
    match existing {
        None => Some(String::from_str(guide)),
        Some(content) => {
            let chars = chars_of(content);
            if has_text(&chars, &chars_of(heading)) {
                None
            } else {
                let mut text = chars;
                let rule: Vec<char> = vec!['\n', '\n', '-', '-', '-', '\n', '\n'];
                assert(rule@ == seq!['\n', '\n', '-', '-', '-', '\n', '\n']);
                crate::text::extend_chars(&mut text, &rule);
                crate::text::extend_chars(&mut text, &chars_of(guide));
                Some(string_of(&text))
            }
        },
    }
}

} // verus!
