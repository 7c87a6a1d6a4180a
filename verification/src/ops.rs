//! Moving, deleting and relabelling issues.

use crate::config::path_below;
use crate::error::MothError;
use crate::issue::{issue_at, Issue, IssueView};
use crate::model::{placed, with_order};
use crate::order::{insert_issue, issue_views};
use crate::severity::Severity;
use crate::store::{copy_issues, lemma_with_placed, lemma_without, Store};
use vstd::prelude::*;
use vstd::string::*;

verus! {

impl Store {
    /// The issue `rec` as it is with a severity and an order number in the
    /// status at place `t`: at the path that its file name then has in the
    /// directory of that status.
    pub fn relabel(&self, rec: &Issue, severity: Severity, order: Option<u32>, t: usize) -> (r:
        Issue)
        requires
            self.wf(),
            t < self@.lists.len(),
        ensures
            r@ == (IssueView {
                status: self@.config.statuses[t as int].name,
                ..with_order(IssueView { severity, ..rec@ }, order, self@.dir(t as int))
            }),
    {
        let config = self.config();
        assert(config@.statuses[t as int] == config.statuses@[t as int]@);
        let dir = config.status_dir(&config.statuses[t]);
        let mut now = Issue {
            id: rec.id.clone(),
            severity,
            slug: rec.slug.clone(),
            status: config.statuses[t].name.clone(),
            path: String::new(),
            order,
        };
        let name = now.filename();
        now.path = path_below(dir.as_str(), name.as_str());
        now
    }

    /// Takes the issue at a place out of a listing.
    pub(crate) fn leave(&mut self, i: usize, k: usize) -> (r: Issue)
        requires
            old(self).wf(),
            i < old(self)@.lists.len(),
            k < old(self)@.lists[i as int].len(),
        ensures
            final(self).wf(),
            final(self)@ == old(self)@.with_list(i as int, old(self)@.lists[i as int].remove(k as int)),
            r@ == old(self)@.lists[i as int][k as int],
    {
        let mut list = copy_issues(self.list(i));
        let ghost before = list@;
        let rec = list.remove(k);
        proof {
            assert(issue_views(before)[k as int] == before[k as int]@);
            assert(issue_views(list@) == issue_views(before).remove(k as int));
            lemma_without(self@, i as int, k as int);
        }
        self.set_list(i, list);
        rec
    }

    /// Enters the issue that the file at a path holds into the listing at a
    /// place. A file whose name cannot be read enters nothing.
    pub(crate) fn enter(&mut self, i: usize, path: &str)
        requires
            old(self).wf(),
            i < old(self)@.lists.len(),
        ensures
            final(self).wf(),
            final(self)@ == old(self)@.with_list(
                i as int,
                placed(
                    old(self)@.lists[i as int],
                    issue_at(path@, old(self)@.config.statuses[i as int].name),
                ),
            ),
    {
        let mut list = copy_issues(self.list(i));
        let config = self.config();
        assert(config@.statuses[i as int] == config.statuses@[i as int]@);
        match Issue::from_path(path, config.statuses[i].name.as_str()) {
            Ok(found) => {
                insert_issue(&mut list, found);
            },
            Err(_) => {},
        }
        proof {
            lemma_with_placed(self@, i as int, path@);
        }
        self.set_list(i, list);
    }

    /// Moves an issue to another status. The issue is found by its status
    /// and its path. It loses its order number unless the new status is
    /// prioritized, and keeps it unchanged if it is. The caller renames the
    /// file at the issue's path to the path of the issue returned. An
    /// unknown status is an error, and so is an issue whose file the store
    /// does not hold.
    pub fn move_issue(&mut self, issue: &Issue, target_status: &str) -> (r: Result<
        Issue,
        MothError,
    >)
        requires
            old(self).wf(),
        ensures
            final(self).wf(),
            match old(self)@.moved(issue@, target_status@) {
                Ok((after, now)) => {
                    &&& r matches Ok(found)
                    &&& found@ == now
                    &&& final(self)@ == after
                    &&& now.status == target_status@
                },
                Err(e) => r matches Err(err) && err@ == e && final(self)@ == old(self)@,
            },
    {
        let t = match self.config().find_status(target_status) {
            None => {
                return Err(MothError::UnknownTarget { name: String::from_str(target_status) });
            },
            Some(t) => t,
        };
        let (s, k) = match self.locate(issue) {
            None => {
                return Err(MothError::MissingFile { path: issue.path.clone() });
            },
            Some(found) => found,
        };
        proof {
            crate::config::lemma_index_of_status(self@.config.statuses, target_status@);
        }
        let rec = self.leave(s, k);
        let config = self.config();
        assert(config@.statuses[t as int] == config.statuses@[t as int]@);
        let order = if config.statuses[t].prioritized {
            rec.order
        } else {
            None
        };
        let now = self.relabel(&rec, rec.severity, order, t);
        assert(now@ == old(self)@.moved_issue(rec@, t as int));
        self.enter(t, now.path.as_str());
        Ok(now)
    }

    /// Starts work on an issue: moves it to the second status.
    pub fn start_issue(&mut self, issue: &Issue) -> (r: Result<Issue, MothError>)
        requires
            old(self).wf(),
        ensures
            final(self).wf(),
            match old(self)@.moved(issue@, old(self)@.config.statuses[1].name) {
                Ok((after, now)) => r matches Ok(found) && found@ == now && final(self)@ == after,
                Err(e) => r matches Err(err) && err@ == e && final(self)@ == old(self)@,
            },
    {
        let config = self.config();
        assert(config@.statuses[1] == config.statuses@[1]@);
        let target = config.statuses[1].name.clone();
        self.move_issue(issue, target.as_str())
    }

    /// Finishes an issue: moves it to the last status, whatever status it
    /// is in.
    pub fn finish_issue(&mut self, issue: &Issue) -> (r: Result<Issue, MothError>)
        requires
            old(self).wf(),
        ensures
            final(self).wf(),
            match old(self)@.moved(
                issue@,
                old(self)@.config.statuses[old(self)@.config.statuses.len() - 1].name,
            ) {
                Ok((after, now)) => r matches Ok(found) && found@ == now && final(self)@ == after,
                Err(e) => r matches Err(err) && err@ == e && final(self)@ == old(self)@,
            },
    {
        let config = self.config();
        let target = config.last_status().name.clone();
        self.move_issue(issue, target.as_str())
    }

    /// Deletes an issue, which is found by its status and its path. The
    /// caller removes the file at the issue's path. An issue whose file the
    /// store does not hold is an error.
    pub fn delete_issue(&mut self, issue: &Issue) -> (r: Result<(), MothError>)
        requires
            old(self).wf(),
        ensures
            final(self).wf(),
            match old(self)@.deleted(issue@) {
                Ok(after) => r is Ok && final(self)@ == after,
                Err(e) => r matches Err(err) && err@ == e && final(self)@ == old(self)@,
            },
    {
        match self.locate(issue) {
            None => Err(MothError::MissingFile { path: issue.path.clone() }),
            Some((s, k)) => {
                self.leave(s, k);
                Ok(())
            },
        }
    }

    /// Gives an issue another severity. The issue is found by its status
    /// and its path. The caller renames the file at the issue's path to the
    /// path of the issue returned.
    pub fn set_severity(&mut self, issue: &Issue, level: Severity) -> (r: Result<Issue, MothError>)
        requires
            old(self).wf(),
        ensures
            final(self).wf(),
            match old(self)@.with_severity(issue@, level) {
                Ok((after, now)) => r matches Ok(found) && found@ == now && final(self)@ == after,
                Err(e) => r matches Err(err) && err@ == e && final(self)@ == old(self)@,
            },
    {
        let (s, k) = match self.locate(issue) {
            None => {
                return Err(MothError::MissingFile { path: issue.path.clone() });
            },
            Some(found) => found,
        };
        let rec = self.leave(s, k);
        let now = self.relabel(&rec, level, rec.order, s);
        proof {
            crate::paths::lemma_backed_fields(rec@, old(self)@.config.statuses[s as int].name);
        }
        self.enter(s, now.path.as_str());
        proof {
            let lists = old(self)@.lists;
            let gone = lists[s as int].remove(k as int);
            let fresh = placed(gone, issue_at(now@.path, now@.status));
            assert(lists.update(s as int, gone).update(s as int, fresh) == lists.update(
                s as int,
                fresh,
            ));
        }
        Ok(now)
    }
}

} // verus!
