//! The configuration: the statuses in their order, and a few settings.

use crate::error::{ErrorView, MothError};
use crate::severity::{severity_of, Severity};
use crate::text::{chars_of, extend_chars, same_text, string_of};
use vstd::prelude::*;
use vstd::string::*;

verus! {

/// A status: a stage in the life of an issue, with the directory that holds
/// the issues in it.
#[derive(Debug)]
pub struct StatusConfig {
    pub name: String,
    pub dir: String,
    /// Whether the issues of this status carry a manual priority order.
    pub prioritized: bool,
}

#[derive(Debug, Clone, Copy)]
pub struct PriorityConfig {
    /// Whether the order numbers are made dense after each reordering.
    pub auto_compact: bool,
}

#[derive(Debug)]
pub struct Config {
    pub statuses: Vec<StatusConfig>,
    pub default_severity: String,
    pub editor: String,
    pub id_length: usize,
    pub no_edit_on_new: bool,
    pub priority: PriorityConfig,
    /// The control directory, which holds the status directories.
    pub moth_dir: String,
}

pub struct StatusView {
    pub name: Seq<char>,
    pub dir: Seq<char>,
    pub prioritized: bool,
}

pub struct ConfigView {
    pub statuses: Seq<StatusView>,
    pub default_severity: Seq<char>,
    pub editor: Seq<char>,
    pub id_length: usize,
    pub no_edit_on_new: bool,
    pub auto_compact: bool,
    pub moth_dir: Seq<char>,
}

impl View for StatusConfig {
    type V = StatusView;

    open spec fn view(&self) -> StatusView {
        StatusView { name: self.name@, dir: self.dir@, prioritized: self.prioritized }
    }
}

/// The statuses of a list, each with its texts as character sequences.
pub open spec fn status_views(v: Seq<StatusConfig>) -> Seq<StatusView> {
    v.map_values(|s: StatusConfig| s@)
}

impl View for Config {
    type V = ConfigView;

    open spec fn view(&self) -> ConfigView {
        ConfigView {
            statuses: status_views(self.statuses@),
            default_severity: self.default_severity@,
            editor: self.editor@,
            id_length: self.id_length,
            no_edit_on_new: self.no_edit_on_new,
            auto_compact: self.priority.auto_compact,
            moth_dir: self.moth_dir@,
        }
    }
}

/// A path below a directory. A path that starts at the root stands for
/// itself; below no directory at all the path is the relative one; else the
/// two are put together with one `/` between them.
pub open spec fn join_path(base: Seq<char>, rel: Seq<char>) -> Seq<char> {
    if rel.len() > 0 && rel[0] == '/' {
        rel
    } else if base.len() == 0 {
        rel
    } else if base.last() == '/' {
        base + rel
    } else {
        base + seq!['/'] + rel
    }
}

/// The place of the first status of that name, or -1 where there is none.
pub open spec fn index_of_status(statuses: Seq<StatusView>, name: Seq<char>) -> int
    decreases statuses.len(),
{
    if statuses.len() == 0 {
        -1
    } else {
        let before = index_of_status(statuses.drop_last(), name);
        if before >= 0 {
            before
        } else if statuses.last().name == name {
            statuses.len() - 1
        } else {
            -1
        }
    }
}

pub proof fn lemma_index_of_status(statuses: Seq<StatusView>, name: Seq<char>)
    ensures
        -1 <= index_of_status(statuses, name) < statuses.len(),
        index_of_status(statuses, name) >= 0 ==> statuses[index_of_status(statuses, name)].name
            == name,
        forall|i: int|
            0 <= i < statuses.len() && #[trigger] statuses[i].name == name ==> 0
                <= index_of_status(statuses, name) <= i,
    decreases statuses.len(),
{
    if statuses.len() > 0 {
        lemma_index_of_status(statuses.drop_last(), name);
        assert forall|i: int|
            0 <= i < statuses.len() && #[trigger] statuses[i].name == name implies 0
            <= index_of_status(statuses, name) <= i by {
            if i < statuses.len() - 1 {
                assert(statuses.drop_last()[i].name == name);
            }
        }
    }
}

impl ConfigView {
    /// What a configuration must meet: two statuses or more, a default
    /// severity that is one, and an identifier length from 3 to 10.
    pub open spec fn valid(self) -> bool {
        &&& self.statuses.len() >= 2
        &&& severity_of(self.default_severity) is Some
        &&& 3 <= self.id_length <= 10
    }

    /// The first thing wrong with the configuration, if anything is.
    pub open spec fn fault(self) -> Option<ErrorView> {
        if self.statuses.len() < 2 {
            Some(ErrorView::TooFewStatuses { found: self.statuses.len() as usize })
        } else if severity_of(self.default_severity) is None {
            Some(ErrorView::InvalidDefaultSeverity { text: self.default_severity })
        } else if self.id_length < 3 || self.id_length > 10 {
            Some(ErrorView::InvalidIdLength { found: self.id_length })
        } else {
            None
        }
    }

    /// The place of the first status of that name, or -1.
    pub open spec fn status_index(self, name: Seq<char>) -> int {
        index_of_status(self.statuses, name)
    }

    /// The directory of a status.
    pub open spec fn status_dir(self, status: StatusView) -> Seq<char> {
        join_path(self.moth_dir, status.dir)
    }
}

pub fn default_id_length() -> (r: usize)
    ensures
        r == 5,
{
    5
}

impl Clone for StatusConfig {
    fn clone(&self) -> (r: Self)
        ensures
            r@ == self@,
    {
        StatusConfig {
            name: self.name.clone(),
            dir: self.dir.clone(),
            prioritized: self.prioritized,
        }
    }
}

impl Clone for Config {
    fn clone(&self) -> (r: Self)
        ensures
            r@ == self@,
    {
        let mut statuses: Vec<StatusConfig> = Vec::new();
        let mut i: usize = 0;
        while i < self.statuses.len()
            invariant
                i <= self.statuses.len(),
                status_views(statuses@) == status_views(self.statuses@).take(i as int),
            decreases self.statuses.len() - i,
        {
            let ghost before = statuses@;
            statuses.push(self.statuses[i].clone());
            proof {
                assert(status_views(statuses@) == status_views(before).push(
                    self.statuses@[i as int]@,
                ));
                assert(status_views(self.statuses@).take(i + 1) == status_views(
                    self.statuses@,
                ).take(i as int).push(self.statuses@[i as int]@));
            }
            i += 1;
        }
        proof {
            assert(status_views(self.statuses@).take(self.statuses.len() as int) == status_views(
                self.statuses@,
            ));
        }
        Config {
            statuses,
            default_severity: self.default_severity.clone(),
            editor: self.editor.clone(),
            id_length: self.id_length,
            no_edit_on_new: self.no_edit_on_new,
            priority: self.priority,
            moth_dir: self.moth_dir.clone(),
        }
    }
}

impl Default for PriorityConfig {
    fn default() -> (r: Self)
        ensures
            !r.auto_compact,
    {
        PriorityConfig { auto_compact: false }
    }
}

/// The statuses of a fresh tracker: `ready`, which is prioritized, then
/// `doing` and `done`.
pub open spec fn default_statuses() -> Seq<StatusView> {
    seq![
        StatusView { name: "ready"@, dir: "ready"@, prioritized: true },
        StatusView { name: "doing"@, dir: "doing"@, prioritized: false },
        StatusView { name: "done"@, dir: "done"@, prioritized: false },
    ]
}

impl Default for Config {
    /// The configuration of a fresh tracker. The editor is `vi`; a caller
    /// that knows of another puts it in.
    fn default() -> (r: Self)
        ensures
            r@.statuses == default_statuses(),
            r@.default_severity == "med"@,
            r@.editor == "vi"@,
            r@.id_length == 5,
            !r@.no_edit_on_new,
            !r@.auto_compact,
            r@.moth_dir == Seq::<char>::empty(),
            r@.valid(),
    {
        let mut statuses: Vec<StatusConfig> = Vec::new();
        statuses.push(
            StatusConfig {
                name: String::from_str("ready"),
                dir: String::from_str("ready"),
                prioritized: true,
            },
        );
        statuses.push(
            StatusConfig {
                name: String::from_str("doing"),
                dir: String::from_str("doing"),
                prioritized: false,
            },
        );
        statuses.push(
            StatusConfig {
                name: String::from_str("done"),
                dir: String::from_str("done"),
                prioritized: false,
            },
        );
        proof {
            assert(status_views(statuses@) == default_statuses());
        }
        Config {
            statuses,
            default_severity: String::from_str("med"),
            editor: String::from_str("vi"),
            id_length: 5,
            no_edit_on_new: false,
            priority: PriorityConfig { auto_compact: false },
            moth_dir: String::new(),
        }
    }
}

impl Config {
    /// Checks the configuration, and names the first thing wrong with it.
    pub fn validate(&self) -> (r: Result<(), MothError>)
        ensures
            match self@.fault() {
                None => r is Ok && self@.valid(),
                Some(e) => r matches Err(err) && err@ == e && !self@.valid(),
            },
    {
        if self.statuses.len() < 2 {
            return Err(MothError::TooFewStatuses { found: self.statuses.len() });
        }
        if Severity::parse(self.default_severity.as_str()).is_none() {
            return Err(MothError::InvalidDefaultSeverity { text: self.default_severity.clone() });
        }
        if self.id_length < 3 || self.id_length > 10 {
            return Err(MothError::InvalidIdLength { found: self.id_length });
        }
        Ok(())
    }

    /// The status that new issues start in.
    pub fn first_status(&self) -> (r: &StatusConfig)
        requires
            self.statuses.len() >= 1,
        ensures
            r@ == self@.statuses[0],
    {
        &self.statuses[0]
    }

    /// The status that an issue enters when work on it starts.
    pub fn second_status(&self) -> (r: Option<&StatusConfig>)
        ensures
            match r {
                Some(s) => self@.statuses.len() >= 2 && s@ == self@.statuses[1],
                None => self@.statuses.len() < 2,
            },
    {
        if self.statuses.len() >= 2 {
            Some(&self.statuses[1])
        } else {
            None
        }
    }

    /// The status of finished issues.
    pub fn last_status(&self) -> (r: &StatusConfig)
        requires
            self.statuses.len() >= 1,
        ensures
            r@ == self@.statuses[self@.statuses.len() - 1],
    {
        &self.statuses[self.statuses.len() - 1]
    }

    /// The place of the first status of that name.
    pub fn find_status(&self, name: &str) -> (r: Option<usize>)
        ensures
            match r {
                Some(i) => i == self@.status_index(name@) && i < self.statuses.len(),
                None => self@.status_index(name@) == -1,
            },
    {
        let mut i: usize = 0;
        proof {
            lemma_index_of_status(self@.statuses, name@);
        }
        while i < self.statuses.len()
            invariant
                i <= self.statuses.len(),
                forall|j: int| 0 <= j < i ==> (#[trigger] self@.statuses[j]).name != name@,
                -1 <= self@.status_index(name@) < self.statuses.len(),
                self@.status_index(name@) >= 0 ==> self@.statuses[self@.status_index(name@)].name
                    == name@,
                forall|k: int|
                    0 <= k < self@.statuses.len() && #[trigger] self@.statuses[k].name == name@
                        ==> 0 <= self@.status_index(name@) <= k,
            decreases self.statuses.len() - i,
        {
            assert(self@.statuses[i as int] == self.statuses@[i as int]@);
            if same_text(self.statuses[i].name.as_str(), name) {
                proof {
                    let found = self@.status_index(name@);
                    assert(self@.statuses[i as int].name == name@);
                    assert(0 <= found <= i);
                    if found < i {
                        assert(self@.statuses[found].name != name@);
                    }
                }
                return Some(i);
            }
            i += 1;
        }
        None
    }

    /// The first status of that name.
    pub fn get_status(&self, name: &str) -> (r: Option<&StatusConfig>)
        ensures
            match r {
                Some(s) => self@.status_index(name@) >= 0 && s@ == self@.statuses[self@.status_index(
                    name@,
                )],
                None => self@.status_index(name@) == -1,
            },
    {
        match self.find_status(name) {
            Some(i) => {
                assert(self@.statuses[i as int] == self.statuses@[i as int]@);
                Some(&self.statuses[i])
            },
            None => None,
        }
    }

    /// The directory of a status: its `dir` below the control directory.
    pub fn status_dir(&self, status: &StatusConfig) -> (r: String)
        ensures
            r@ == self@.status_dir(status@),
    {
        path_below(self.moth_dir.as_str(), status.dir.as_str())
    }
}

/// The path `rel` below the directory `base`.
pub fn path_below(base: &str, rel: &str) -> (r: String)
    ensures
        r@ == join_path(base@, rel@),
{
    let b = chars_of(base);
    let p = chars_of(rel);
    if p.len() > 0 && p[0] == '/' {
        return string_of(&p);
    }
    if b.len() == 0 {
        return string_of(&p);
    }
    let mut r = b;
    if r[r.len() - 1] != '/' {
        r.push('/');
    }
    extend_chars(&mut r, &p);
    string_of(&r)
}

} // verus!
