//! What the list command shows, and which issue counts as the current one.

use crate::config::{path_below, Config};
use crate::error::texts;
use crate::issue::{issue_at, title_of, Issue, IssueView};
use crate::model::is_issue_name;
use crate::order::issue_views;
use crate::severity::Severity;
use crate::text::{chars_of, extend_chars, string_of};
use vstd::prelude::*;
use vstd::string::*;

verus! {

/// The names of the statuses of a configuration, in their order.
pub open spec fn status_names(config: crate::config::ConfigView) -> Seq<Seq<char>> {
    config.statuses.map_values(|s: crate::config::StatusView| s.name)
}

/// The statuses that a listing covers: the one asked for; else all of them
/// where all are asked for; else all but the last.
pub open spec fn statuses_shown(
    config: crate::config::ConfigView,
    status: Option<Seq<char>>,
    show_all: bool,
) -> Seq<Seq<char>> {
    match status {
        Some(name) => seq![name],
        None => if show_all {
            status_names(config)
        } else {
            status_names(config).drop_last()
        },
    }
}

/// The statuses that a listing covers.
pub fn statuses_to_list(config: &Config, status: Option<&str>, show_all: bool) -> (r: Vec<String>)
    requires
        config@.statuses.len() >= 1,
    ensures
        texts(r@) == statuses_shown(config@, crate::priority::text_of(status), show_all),
{
    let mut r: Vec<String> = Vec::new();
    match status {
        Some(name) => {
            r.push(String::from_str(name));
            assert(texts(r@) == seq![name@]);
        },
        None => {
            let n: usize = if show_all {
                config.statuses.len()
            } else {
                config.statuses.len() - 1
            };
            let mut i: usize = 0;
            assert(texts(r@) == status_names(config@).take(0));
            while i < n
                invariant
                    i <= n <= config.statuses.len(),
                    texts(r@) == status_names(config@).take(i as int),
                decreases n - i,
            {
                let ghost before = r@;
                r.push(config.statuses[i].name.clone());
                proof {
                    assert(config@.statuses[i as int] == config.statuses@[i as int]@);
                    assert(texts(r@) == texts(before).push(config.statuses@[i as int]@.name));
                    assert(status_names(config@).take(i + 1) == status_names(config@).take(
                        i as int,
                    ).push(config.statuses@[i as int]@.name));
                }
                i += 1;
            }
            proof {
                if show_all {
                    assert(status_names(config@).take(n as int) == status_names(config@));
                } else {
                    assert(status_names(config@).take(n as int) == status_names(
                        config@,
                    ).drop_last());
                }
            }
        },
    }
    r
}

/// The issues of a severity, in their order; all issues where no severity
/// is asked for.
pub open spec fn of_severity(s: Seq<IssueView>, wanted: Option<Severity>) -> Seq<IssueView>
    decreases s.len(),
{
    if s.len() == 0 {
        s
    } else if wanted is None || wanted == Some(s.last().severity) {
        of_severity(s.drop_last(), wanted).push(s.last())
    } else {
        of_severity(s.drop_last(), wanted)
    }
}

/// Keeps the issues of a severity.
pub fn filter_by_severity(issues: &Vec<Issue>, wanted: Option<Severity>) -> (r: Vec<Issue>)
    ensures
        issue_views(r@) == of_severity(issue_views(issues@), wanted),
{
    let mut r: Vec<Issue> = Vec::new();
    let mut i: usize = 0;
    proof {
        assert(issue_views(issues@).take(0) == Seq::<IssueView>::empty());
        assert(issue_views(r@) == Seq::<IssueView>::empty());
    }
    while i < issues.len()
        invariant
            i <= issues.len(),
            issue_views(r@) == of_severity(issue_views(issues@).take(i as int), wanted),
        decreases issues.len() - i,
    {
        proof {
            let next = issue_views(issues@).take(i + 1);
            assert(next.drop_last() == issue_views(issues@).take(i as int));
            assert(next.last() == issues@[i as int]@);
        }
        let keep = match wanted {
            None => true,
            Some(sev) => sev == issues[i].severity,
        };
        if keep {
            let ghost before = r@;
            r.push(issues[i].clone());
            proof {
                assert(issue_views(r@) == issue_views(before).push(issues@[i as int]@));
            }
        }
        i += 1;
    }
    proof {
        assert(issue_views(issues@).take(issues.len() as int) == issue_views(issues@));
    }
    r
}

/// The line that shows an issue: two spaces, its identifier, its severity
/// in brackets, and its title.
pub open spec fn line_of(issue: IssueView, severity: Seq<char>) -> Seq<char> {
    seq![' ', ' '] + issue.id + seq![' ', '['] + severity + seq![']', ' '] + title_of(issue.slug)
}

/// The line that shows an issue. The severity is written as the caller
/// gives it, who may have coloured it.
pub fn issue_line(issue: &Issue, severity: &str) -> (r: String)
    ensures
        r@ == line_of(issue@, severity@),
{
    let mut out: Vec<char> = Vec::new();
    out.push(' ');
    out.push(' ');
    extend_chars(&mut out, &chars_of(issue.id.as_str()));
    out.push(' ');
    out.push('[');
    extend_chars(&mut out, &chars_of(severity));
    out.push(']');
    out.push(' ');
    let title = issue.title();
    extend_chars(&mut out, &chars_of(title.as_str()));
    proof {
        assert(out@ == seq![' ', ' '] + issue@.id + seq![' ', '['] + severity@ + seq![']', ' ']
            + title_of(issue@.slug));
    }
    string_of(&out)
}

/// An entry of a directory with the time of its last change, as a number
/// that grows with time; zero stands for the start of time and earlier.
pub struct TimedEntry {
    pub name: String,
    pub modified: u128,
}

pub struct TimedView {
    pub name: Seq<char>,
    pub modified: u128,
}

impl View for TimedEntry {
    type V = TimedView;

    open spec fn view(&self) -> TimedView {
        TimedView { name: self.name@, modified: self.modified }
    }
}

pub open spec fn timed_views(v: Seq<TimedEntry>) -> Seq<TimedView> {
    v.map_values(|e: TimedEntry| e@)
}

/// The latest time of change among the entries with the extension `md`,
/// and the issue of the entry that set it. An entry sets the time where it
/// was changed later than all before it; if its name cannot be read, the
/// issue stays the one it was.
pub open spec fn latest(entries: Seq<TimedView>, dir: Seq<char>, status: Seq<char>) -> (
    u128,
    Option<IssueView>,
)
    decreases entries.len(),
{
    if entries.len() == 0 {
        (0u128, None)
    } else {
        let (time, issue) = latest(entries.drop_last(), dir, status);
        let e = entries.last();
        if is_issue_name(e.name) && e.modified > time {
            match issue_at(crate::config::join_path(dir, e.name), status) {
                Some(found) => (e.modified, Some(found)),
                None => (e.modified, issue),
            }
        } else {
            (time, issue)
        }
    }
}

/// The issue that was changed last among the entries of a status
/// directory.
pub fn current_issue(entries: &Vec<TimedEntry>, dir: &str, status: &str) -> (r: Option<Issue>)
    ensures
        match r {
            Some(issue) => latest(timed_views(entries@), dir@, status@).1 == Some(issue@),
            None => latest(timed_views(entries@), dir@, status@).1 is None,
        },
{
    let mut time: u128 = 0;
    let mut issue: Option<Issue> = None;
    let mut i: usize = 0;
    proof {
        assert(timed_views(entries@).take(0) == Seq::<TimedView>::empty());
    }
    while i < entries.len()
        invariant
            i <= entries.len(),
            time == latest(timed_views(entries@).take(i as int), dir@, status@).0,
            match issue {
                Some(found) => latest(timed_views(entries@).take(i as int), dir@, status@).1
                    == Some(found@),
                None => latest(timed_views(entries@).take(i as int), dir@, status@).1 is None,
            },
        decreases entries.len() - i,
    {
        proof {
            let next = timed_views(entries@).take(i + 1);
            assert(next.drop_last() == timed_views(entries@).take(i as int));
            assert(next.last() == entries@[i as int]@);
        }
        let e = &entries[i];
        if Issue::is_issue_file(e.name.as_str()) && e.modified > time {
            time = e.modified;
            let path = path_below(dir, e.name.as_str());
            match Issue::from_path(path.as_str(), status) {
                Ok(found) => {
                    issue = Some(found);
                },
                Err(_) => {},
            }
        }
        i += 1;
    }
    proof {
        assert(timed_views(entries@).take(entries.len() as int) == timed_views(entries@));
    }
    issue
}

pub open spec fn doing_word() -> Seq<char> {
    seq!['d', 'o', 'i', 'n', 'g']
}

impl crate::store::Store {
    /// The issue that is being worked on: the one changed last in the
    /// directory of the status `doing`, whose entries the caller gives with
    /// their times of change. It is an error if no status has that name.
    pub fn current(&self, entries: &Vec<TimedEntry>) -> (r: Result<Option<Issue>, crate::error::MothError>)
        requires
            self.wf(),
        ensures
            match r {
                Ok(found) => {
                    let i = self@.config.status_index(doing_word());
                    let best = latest(timed_views(entries@), self@.dir(i), doing_word()).1;
                    &&& i >= 0
                    &&& match found {
                        Some(issue) => best == Some(issue@),
                        None => best is None,
                    }
                },
                Err(e) => {
                    &&& self@.config.status_index(doing_word()) == -1
                    &&& e@ == crate::error::ErrorView::UnknownStatus { name: doing_word() }
                },
            },
    {
        let doing = string_of(&vec!['d', 'o', 'i', 'n', 'g']);
        assert(doing@ == doing_word());
        let config = self.config();
        match config.get_status(doing.as_str()) {
            None => Err(crate::error::MothError::UnknownStatus { name: doing }),
            Some(status) => {
                let dir = config.status_dir(status);
                Ok(current_issue(entries, dir.as_str(), doing.as_str()))
            },
        }
    }
}

} // verus!
