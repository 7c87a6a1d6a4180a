//! The issue store: the image of the status directories in memory.
//!
//! A store is made from the configuration and the names of the entries of
//! each status directory. Each operation changes the image and says which
//! file is to be written, renamed or removed, so that the directories follow
//! the image. The image follows the directories as long as no two issues
//! share an identifier, which the tracker sees to when it creates one.

use crate::codec::{is_slug, is_valid_id};
use crate::config::{path_below, Config};
use crate::error::{texts, MothError};
use crate::issue::{issue_at, Issue, IssueView};
use crate::model::{
    backed, ids_of, is_issue_name, listing, matching, placed, sorted_texts, text_place, unreadable,
    StoreView,
};
use crate::order::{insert_issue, is_text_before, issue_views, lemma_insert_keeps_order, in_order};
use crate::text::{chars_of, is_prefix, starts_with};
use vstd::prelude::*;
use vstd::string::*;

verus! {

/// The tracker's issues, status by status.
pub struct Store {
    config: Config,
    lists: Vec<Vec<Issue>>,
}

/// The listings of a list of listings, each issue with its texts as
/// character sequences.
pub open spec fn list_views(v: Seq<Vec<Issue>>) -> Seq<Seq<IssueView>> {
    v.map_values(|l: Vec<Issue>| issue_views(l@))
}

impl View for Store {
    type V = StoreView;

    closed spec fn view(&self) -> StoreView {
        StoreView { config: self.config@, lists: list_views(self.lists@) }
    }
}

/// Whether the entries of the directory at place `i` are missing.
pub open spec fn absent(entries: Seq<Option<Vec<String>>>, i: int) -> bool {
    i >= entries.len() || entries[i] is None
}

/// The first place below `n` whose entries are missing, or -1.
pub open spec fn first_absent(entries: Seq<Option<Vec<String>>>, n: int) -> int
    decreases n,
{
    if n <= 0 {
        -1
    } else {
        let before = first_absent(entries, n - 1);
        if before >= 0 {
            before
        } else if absent(entries, n - 1) {
            n - 1
        } else {
            -1
        }
    }
}

proof fn lemma_first_absent(entries: Seq<Option<Vec<String>>>, i: int, n: int)
    requires
        0 <= i < n,
        first_absent(entries, i) == -1,
        absent(entries, i),
    ensures
        first_absent(entries, n) == i,
    decreases n,
{
    if n > i + 1 {
        lemma_first_absent(entries, i, n - 1);
    }
}

/// A listing is in listing order, and each of its issues is what the file
/// at its path says.
pub proof fn lemma_listing(names: Seq<Seq<char>>, dir: Seq<char>, status: Seq<char>)
    ensures
        in_order(listing(names, dir, status)),
        forall|j: int|
            0 <= j < listing(names, dir, status).len() ==> backed(
                #[trigger] listing(names, dir, status)[j],
                status,
            ),
    decreases names.len(),
{
    if names.len() > 0 {
        lemma_listing(names.drop_last(), dir, status);
        let before = listing(names.drop_last(), dir, status);
        let path = crate::config::join_path(dir, names.last());
        if is_issue_name(names.last()) {
            if let Some(r) = issue_at(path, status) {
                lemma_placed(before, r, status);
            }
        }
    }
}

/// Entering an issue that a file backs keeps a listing in listing order
/// and backed.
pub proof fn lemma_placed(list: Seq<IssueView>, r: IssueView, status: Seq<char>)
    requires
        in_order(list),
        forall|j: int| 0 <= j < list.len() ==> backed(#[trigger] list[j], status),
        backed(r, status),
    ensures
        in_order(crate::order::insert_sorted(list, r)),
        forall|j: int|
            0 <= j < crate::order::insert_sorted(list, r).len() ==> backed(
                #[trigger] crate::order::insert_sorted(list, r)[j],
                status,
            ),
{
    lemma_insert_keeps_order(list, r);
    crate::order::lemma_insert_place(list, r);
    let k = crate::order::insert_place(list, r);
    let after = crate::order::insert_sorted(list, r);
    assert forall|j: int| 0 <= j < after.len() implies backed(#[trigger] after[j], status) by {
        if j < k {
            assert(after[j] == list[j]);
        } else if j > k {
            assert(after[j] == list[j - 1]);
        }
    }
}

/// A copy of a listing.
pub fn copy_issues(list: &Vec<Issue>) -> (r: Vec<Issue>)
    ensures
        issue_views(r@) == issue_views(list@),
{
    let mut r: Vec<Issue> = Vec::new();
    let mut i: usize = 0;
    while i < list.len()
        invariant
            i <= list.len(),
            issue_views(r@) == issue_views(list@).take(i as int),
        decreases list.len() - i,
    {
        let ghost before = r@;
        r.push(list[i].clone());
        proof {
            assert(issue_views(r@) == issue_views(before).push(list@[i as int]@));
            assert(issue_views(list@).take(i + 1) == issue_views(list@).take(i as int).push(
                list@[i as int]@,
            ));
        }
        i += 1;
    }
    proof {
        assert(issue_views(list@).take(list.len() as int) == issue_views(list@));
    }
    r
}

/// The listing of a status directory, from the names of its entries: the
/// issues that the entries with the extension `md` hold, in listing order.
/// An entry whose name cannot be read is left out; `skipped_entries` tells
/// which.
pub fn enumerate(names: &Vec<String>, dir: &str, status: &str) -> (r: Vec<Issue>)
    ensures
        issue_views(r@) == listing(texts(names@), dir@, status@),
{
    let mut r: Vec<Issue> = Vec::new();
    let mut i: usize = 0;
    proof {
        assert(texts(names@).take(0) == Seq::<Seq<char>>::empty());
        assert(issue_views(r@) == Seq::<IssueView>::empty());
    }
    while i < names.len()
        invariant
            i <= names.len(),
            issue_views(r@) == listing(texts(names@).take(i as int), dir@, status@),
        decreases names.len() - i,
    {
        proof {
            let next = texts(names@).take(i + 1);
            assert(next.drop_last() == texts(names@).take(i as int));
            assert(next.last() == names@[i as int]@);
        }
        if Issue::is_issue_file(names[i].as_str()) {
            let path = path_below(dir, names[i].as_str());
            match Issue::from_path(path.as_str(), status) {
                Ok(issue) => {
                    insert_issue(&mut r, issue);
                },
                Err(_) => {},
            }
        }
        i += 1;
    }
    proof {
        assert(texts(names@).take(names.len() as int) == texts(names@));
    }
    r
}

/// The entries of a status directory that have the extension `md` and a
/// name that cannot be read.
pub fn skipped_entries(names: &Vec<String>, dir: &str, status: &str) -> (r: Vec<String>)
    ensures
        texts(r@) == unreadable(texts(names@), dir@, status@),
{
    let mut r: Vec<String> = Vec::new();
    let mut i: usize = 0;
    proof {
        assert(texts(names@).take(0) == Seq::<Seq<char>>::empty());
        assert(texts(r@) == Seq::<Seq<char>>::empty());
    }
    while i < names.len()
        invariant
            i <= names.len(),
            texts(r@) == unreadable(texts(names@).take(i as int), dir@, status@),
        decreases names.len() - i,
    {
        proof {
            let next = texts(names@).take(i + 1);
            assert(next.drop_last() == texts(names@).take(i as int));
            assert(next.last() == names@[i as int]@);
        }
        if Issue::is_issue_file(names[i].as_str()) {
            let path = path_below(dir, names[i].as_str());
            match Issue::from_path(path.as_str(), status) {
                Ok(_) => {},
                Err(_) => {
                    let ghost before = r@;
                    r.push(names[i].clone());
                    proof {
                        assert(texts(r@) == texts(before).push(names@[i as int]@));
                    }
                },
            }
        }
        i += 1;
    }
    proof {
        assert(texts(names@).take(names.len() as int) == texts(names@));
    }
    r
}

impl Store {
    /// What holds of every store.
    pub open spec fn wf(&self) -> bool {
        self@.wf()
    }

    /// Makes the store of a configuration and the entries of its status
    /// directories: for each status, in the order of the configuration, the
    /// names of the entries of its directory, or `None` where the directory
    /// does not exist. An invalid configuration and a missing directory are
    /// errors.
    pub fn new(config: Config, entries: Vec<Option<Vec<String>>>) -> (r: Result<Store, MothError>)
        ensures
            match config@.fault() {
                Some(e) => r matches Err(err) && err@ == e,
                None => {
                    let n = config@.statuses.len() as int;
                    if first_absent(entries@, n) >= 0 {
                        r matches Err(err) && err@ == (crate::error::ErrorView::MissingDirectory {
                            path: config@.status_dir(config@.statuses[first_absent(entries@, n)]),
                        })
                    } else {
                        &&& r matches Ok(store)
                        &&& store.wf()
                        &&& store@.config == config@
                        &&& forall|i: int|
                            0 <= i < n ==> #[trigger] store@.lists[i] == listing(
                                texts(entries@[i]->0@),
                                config@.status_dir(config@.statuses[i]),
                                config@.statuses[i].name,
                            )
                    }
                },
            },
    {
        match config.validate() {
            Err(e) => {
                return Err(e);
            },
            Ok(()) => {},
        }
        let mut lists: Vec<Vec<Issue>> = Vec::new();
        let mut i: usize = 0;
        while i < config.statuses.len()
            invariant
                i <= config.statuses.len(),
                config@.valid(),
                config@.fault() is None,
                first_absent(entries@, i as int) == -1,
                lists.len() == i,
                forall|k: int|
                    0 <= k < i ==> #[trigger] list_views(lists@)[k] == listing(
                        texts(entries@[k]->0@),
                        config@.status_dir(config@.statuses[k]),
                        config@.statuses[k].name,
                    ),
            decreases config.statuses.len() - i,
        {
            assert(config@.statuses[i as int] == config.statuses@[i as int]@);
            let dir = config.status_dir(&config.statuses[i]);
            if i >= entries.len() {
                proof {
                    lemma_first_absent(entries@, i as int, config@.statuses.len() as int);
                }
                return Err(MothError::MissingDirectory { path: dir });
            }
            match &entries[i] {
                None => {
                    proof {
                        lemma_first_absent(entries@, i as int, config@.statuses.len() as int);
                    }
                    return Err(MothError::MissingDirectory { path: dir });
                },
                Some(names) => {
                    let list = enumerate(names, dir.as_str(), config.statuses[i].name.as_str());
                    let ghost before = lists@;
                    lists.push(list);
                    proof {
                        assert(list_views(lists@) == list_views(before).push(issue_views(list@)));
                        assert forall|k: int| 0 <= k < i + 1 implies #[trigger] list_views(
                            lists@,
                        )[k] == listing(
                            texts(entries@[k]->0@),
                            config@.status_dir(config@.statuses[k]),
                            config@.statuses[k].name,
                        ) by {
                            if k < i {
                                assert(list_views(lists@)[k] == list_views(before)[k]);
                            }
                        }
                    }
                },
            }
            i += 1;
        }
        let store = Store { config, lists };
        proof {
            assert forall|a: int| 0 <= a < store@.lists.len() implies in_order(
                #[trigger] store@.lists[a],
            ) by {
                lemma_listing(
                    texts(entries@[a]->0@),
                    store@.config.status_dir(store@.config.statuses[a]),
                    store@.config.statuses[a].name,
                );
            }
            assert forall|a: int, b: int|
                0 <= a < store@.lists.len() && 0 <= b < store@.lists[a].len() implies backed(
                #[trigger] store@.lists[a][b],
                store@.config.statuses[a].name,
            ) by {
                lemma_listing(
                    texts(entries@[a]->0@),
                    store@.config.status_dir(store@.config.statuses[a]),
                    store@.config.statuses[a].name,
                );
            }
        }
        Ok(store)
    }

    /// The configuration of the store.
    pub fn config(&self) -> (r: &Config)
        ensures
            r@ == self@.config,
    {
        &self.config
    }

    /// The issues of a status, in listing order: an issue with an order
    /// number never comes after one without, and the order numbers do not
    /// fall. The status must exist.
    pub fn issues_by_status(&self, status: &str) -> (r: Result<Vec<Issue>, MothError>)
        requires
            self.wf(),
        ensures
            match r {
                Ok(v) => {
                    &&& self@.config.status_index(status@) >= 0
                    &&& issue_views(v@) == self@.lists[self@.config.status_index(status@)]
                    &&& in_order(issue_views(v@))
                },
                Err(e) => {
                    &&& self@.config.status_index(status@) == -1
                    &&& e@ == crate::error::ErrorView::UnknownStatus { name: status@ }
                },
            },
    {
        match self.config.find_status(status) {
            None => Err(MothError::UnknownStatus { name: String::from_str(status) }),
            Some(i) => {
                assert(list_views(self.lists@)[i as int] == issue_views(self.lists@[i as int]@));
                Ok(copy_issues(&self.lists[i]))
            },
        }
    }

    /// The issues of all statuses, status by status in the order of the
    /// configuration.
    pub fn all_issues(&self) -> (r: Result<Vec<Issue>, MothError>)
        requires
            self.wf(),
        ensures
            r matches Ok(v) && issue_views(v@) == self@.all_issues(),
    {
        let mut all: Vec<Issue> = Vec::new();
        let mut k: usize = 0;
        assert(issue_views(all@) == Seq::<IssueView>::empty());
        while k < self.config.statuses.len()
            invariant
                k <= self.config.statuses.len(),
                self.wf(),
                issue_views(all@) == self@.issues_upto(k as int),
            decreases self.config.statuses.len() - k,
        {
            assert(self@.config.statuses[k as int] == self.config.statuses@[k as int]@);
            proof {
                crate::config::lemma_index_of_status(
                    self@.config.statuses,
                    self@.config.statuses[k as int].name,
                );
            }
            match self.config.find_status(self.config.statuses[k].name.as_str()) {
                None => {
                    assert(false);
                },
                Some(i) => {
                    assert(list_views(self.lists@)[i as int] == issue_views(self.lists@[i as int]@));
                    let list = &self.lists[i];
                    let ghost base = issue_views(all@);
                    let mut j: usize = 0;
                    assert(issue_views(list@).take(0) == Seq::<IssueView>::empty());
                    while j < list.len()
                        invariant
                            j <= list.len(),
                            issue_views(all@) == base + issue_views(list@).take(j as int),
                        decreases list.len() - j,
                    {
                        let ghost before = all@;
                        all.push(list[j].clone());
                        proof {
                            assert(issue_views(all@) == issue_views(before).push(list@[j as int]@));
                            assert(issue_views(list@).take(j + 1) == issue_views(list@).take(
                                j as int,
                            ).push(list@[j as int]@));
                        }
                        j += 1;
                    }
                    proof {
                        assert(issue_views(list@).take(list.len() as int) == issue_views(list@));
                    }
                },
            }
            k += 1;
        }
        Ok(all)
    }

    /// The one issue whose identifier starts with `partial_id`, searched in
    /// all statuses. No match and more than one match are errors; the second
    /// names the identifiers that match, sorted. The issue found is one that
    /// the store holds: it stands in the listing of its status, where its
    /// status and path find it again.
    pub fn find(&self, partial_id: &str) -> (r: Result<Issue, MothError>)
        requires
            self.wf(),
        ensures
            match self@.find(partial_id@) {
                Ok(issue) => {
                    &&& r matches Ok(found)
                    &&& found@ == issue
                    &&& is_prefix(partial_id@, issue.id)
                    &&& self@.locate(issue) matches Some((i, k))
                    &&& self@.lists[i][k] == issue
                },
                Err(e) => r matches Err(err) && err@ == e,
            },
    {
        proof {
            crate::laws::law_found_is_held(self@, partial_id@);
        }
        let all = match self.all_issues() {
            Ok(v) => v,
            Err(e) => {
                return Err(e);
            },
        };
        let wanted = chars_of(partial_id);
        let mut found: Vec<Issue> = Vec::new();
        let mut i: usize = 0;
        proof {
            assert(issue_views(all@).take(0) == Seq::<IssueView>::empty());
            assert(issue_views(found@) == Seq::<IssueView>::empty());
        }
        while i < all.len()
            invariant
                i <= all.len(),
                wanted@ == partial_id@,
                issue_views(found@) == matching(issue_views(all@).take(i as int), partial_id@),
            decreases all.len() - i,
        {
            proof {
                let next = issue_views(all@).take(i + 1);
                assert(next.drop_last() == issue_views(all@).take(i as int));
                assert(next.last() == all@[i as int]@);
            }
            if starts_with(&chars_of(all[i].id.as_str()), &wanted) {
                let ghost before = found@;
                found.push(all[i].clone());
                proof {
                    assert(issue_views(found@) == issue_views(before).push(all@[i as int]@));
                }
            }
            i += 1;
        }
        proof {
            assert(issue_views(all@).take(all.len() as int) == issue_views(all@));
        }
        if found.len() == 0 {
            Err(MothError::NotFound { id: String::from_str(partial_id) })
        } else if found.len() == 1 {
            assert(issue_views(found@)[0] == found@[0]@);
            Ok(found[0].clone())
        } else {
            let matches = sorted_ids(&found);
            Err(MothError::Ambiguous { partial: String::from_str(partial_id), matches })
        }
    }

    /// Whether no issue has that identifier.
    pub fn id_is_free(&self, id: &str) -> (r: bool)
        requires
            self.wf(),
        ensures
            r == !self@.has_id(id@),
    {
        let all = match self.all_issues() {
            Ok(v) => v,
            Err(_) => {
                return false;
            },
        };
        let mut i: usize = 0;
        while i < all.len()
            invariant
                i <= all.len(),
                issue_views(all@) == self@.all_issues(),
                forall|k: int| 0 <= k < i ==> (#[trigger] self@.all_issues()[k]).id != id@,
            decreases all.len() - i,
        {
            assert(issue_views(all@)[i as int] == all@[i as int]@);
            if crate::text::same_text(all[i].id.as_str(), id) {
                assert(self@.all_issues()[i as int].id == id@);
                return false;
            }
            i += 1;
        }
        true
    }
}

/// Enters a text into a sorted list of texts.
pub fn insert_text(list: &mut Vec<String>, x: String)
    ensures
        texts(final(list)@) == texts(old(list)@).insert(text_place(texts(old(list)@), x@), x@),
{
    let ghost s = texts(list@);
    let wanted = chars_of(x.as_str());
    let mut k: usize = list.len();
    proof {
        assert(s.take(k as int) == s);
    }
    while k > 0 && is_text_before(&wanted, &chars_of(list[k - 1].as_str()))
        invariant
            k <= list.len(),
            list@ == old(list)@,
            s == texts(list@),
            wanted@ == x@,
            text_place(s, x@) == text_place(s.take(k as int), x@),
        decreases k,
    {
        proof {
            assert(s.take(k as int).last() == list@[k - 1]@);
            assert(s.take(k as int).drop_last() == s.take(k - 1));
        }
        k -= 1;
    }
    proof {
        if k > 0 {
            assert(s.take(k as int).last() == list@[k - 1]@);
        }
    }
    list.insert(k, x);
    proof {
        assert(texts(list@) == s.insert(k as int, x@));
    }
}

/// The identifiers of the issues, sorted.
pub fn sorted_ids(issues: &Vec<Issue>) -> (r: Vec<String>)
    ensures
        texts(r@) == sorted_texts(ids_of(issue_views(issues@))),
{
    let mut r: Vec<String> = Vec::new();
    let mut i: usize = 0;
    let ghost ids = ids_of(issue_views(issues@));
    proof {
        assert(ids.take(0) == Seq::<Seq<char>>::empty());
        assert(texts(r@) == Seq::<Seq<char>>::empty());
    }
    while i < issues.len()
        invariant
            i <= issues.len(),
            ids == ids_of(issue_views(issues@)),
            texts(r@) == sorted_texts(ids.take(i as int)),
        decreases issues.len() - i,
    {
        proof {
            assert(ids.take(i + 1).drop_last() == ids.take(i as int));
            assert(ids.take(i + 1).last() == issues@[i as int]@.id);
        }
        insert_text(&mut r, issues[i].id.clone());
        i += 1;
    }
    proof {
        assert(ids.take(issues.len() as int) == ids);
    }
    r
}

pub proof fn lemma_place_of(list: Seq<IssueView>, path: Seq<char>)
    ensures
        -1 <= crate::model::place_of(list, path) < list.len(),
        crate::model::place_of(list, path) >= 0 ==> list[crate::model::place_of(list, path)].path
            == path,
        forall|i: int|
            0 <= i < list.len() && #[trigger] list[i].path == path ==> 0 <= crate::model::place_of(
                list,
                path,
            ) <= i,
    decreases list.len(),
{
    if list.len() > 0 {
        lemma_place_of(list.drop_last(), path);
        assert forall|i: int| 0 <= i < list.len() && #[trigger] list[i].path == path implies 0
            <= crate::model::place_of(list, path) <= i by {
            if i < list.len() - 1 {
                assert(list.drop_last()[i].path == path);
            }
        }
    }
}

/// The place of the first issue with that path.
pub fn find_path(list: &Vec<Issue>, path: &str) -> (r: Option<usize>)
    ensures
        match r {
            Some(k) => k == crate::model::place_of(issue_views(list@), path@) && k < list.len(),
            None => crate::model::place_of(issue_views(list@), path@) == -1,
        },
{
    let ghost s = issue_views(list@);
    proof {
        lemma_place_of(s, path@);
    }
    let mut i: usize = 0;
    while i < list.len()
        invariant
            i <= list.len(),
            s == issue_views(list@),
            forall|j: int| 0 <= j < i ==> (#[trigger] s[j]).path != path@,
            -1 <= crate::model::place_of(s, path@) < s.len(),
            crate::model::place_of(s, path@) >= 0 ==> s[crate::model::place_of(s, path@)].path
                == path@,
            forall|k: int|
                0 <= k < s.len() && #[trigger] s[k].path == path@ ==> 0 <= crate::model::place_of(
                    s,
                    path@,
                ) <= k,
        decreases list.len() - i,
    {
        assert(s[i as int] == list@[i as int]@);
        if crate::text::same_text(list[i].path.as_str(), path) {
            proof {
                let found = crate::model::place_of(s, path@);
                assert(s[i as int].path == path@);
                assert(0 <= found <= i);
                if found < i {
                    assert(s[found].path != path@);
                }
            }
            return Some(i);
        }
        i += 1;
    }
    None
}

/// An identifier of the tracker's own make holds no character that is
/// neither a letter nor a digit, and a slug none that is neither of these
/// nor the underscore.
pub proof fn lemma_plain_texts(id: Seq<char>, slug: Seq<char>, c: char)
    requires
        is_valid_id(id),
        is_slug(slug),
        !crate::text::is_alnum(c),
        c != '_',
    ensures
        !crate::text::has_char(id, c),
        !crate::text::has_char(slug, c),
{
    if crate::text::has_char(id, c) {
        let i = choose|i: int| 0 <= i < id.len() && id[i] == c;
        assert(crate::text::is_lower(id[i]) || crate::text::is_digit(id[i]));
    }
    if crate::text::has_char(slug, c) {
        let i = choose|i: int| 0 <= i < slug.len() && slug[i] == c;
        assert(crate::text::is_alnum(slug[i]) || slug[i] == '_');
    }
}

/// How many candidates for a new identifier are tried at most.
pub const MAX_ID_ATTEMPTS: u32 = 100;

/// What follows the test of a candidate for a new identifier.
#[derive(Debug, Clone, Copy, PartialEq, Eq, Structural)]
pub enum IdStep {
    /// The candidate is free and becomes the identifier.
    Take,
    /// The candidate is taken, and another is drawn.
    Again,
    /// The candidate is taken and was the last to be tried.
    GiveUp,
}

/// What follows the test of the candidate with the given number, counted
/// from one: a free candidate is taken; a taken one is followed by another
/// as long as fewer than `MAX_ID_ATTEMPTS` have been tried, and by none
/// after that.
pub open spec fn id_step(attempt: u32, free: bool) -> IdStep {
    if free {
        IdStep::Take
    } else if attempt < MAX_ID_ATTEMPTS {
        IdStep::Again
    } else {
        IdStep::GiveUp
    }
}

/// The outcome of a search for an identifier, with its texts as character
/// sequences.
pub open spec fn found_id(r: Result<String, MothError>) -> Result<Seq<char>, crate::error::ErrorView> {
    match r {
        Ok(id) => Ok(id@),
        Err(e) => Err(e@),
    }
}

/// Decides what follows the test of a candidate for a new identifier.
pub fn next_id_step(attempt: u32, free: bool) -> (r: IdStep)
    ensures
        r == id_step(attempt, free),
{
    if free {
        IdStep::Take
    } else if attempt < MAX_ID_ATTEMPTS {
        IdStep::Again
    } else {
        IdStep::GiveUp
    }
}

/// Whether a text is an identifier of the tracker's make: a lower-case
/// letter, then lower-case letters and digits.
pub fn is_id_text(id: &str) -> (r: bool)
    ensures
        r == is_valid_id(id@),
{
    let chars = chars_of(id);
    if chars.len() == 0 || !crate::text::char_is_lower(chars[0]) {
        return false;
    }
    let mut i: usize = 0;
    while i < chars.len()
        invariant
            i <= chars.len(),
            chars@ == id@,
            chars.len() > 0,
            crate::text::is_lower(chars@[0]),
            forall|j: int|
                0 <= j < i ==> crate::text::is_lower(#[trigger] chars@[j]) || crate::text::is_digit(
                    chars@[j],
                ),
        decreases chars.len() - i,
    {
        if !(crate::text::char_is_lower(chars[i]) || crate::text::char_is_digit(chars[i])) {
            proof {
                assert(!(crate::text::is_lower(id@[i as int]) || crate::text::is_digit(
                    id@[i as int],
                )));
            }
            return false;
        }
        i += 1;
    }
    true
}

/// Whether a text is a slug: letters, digits and underscores.
pub fn is_slug_text(slug: &str) -> (r: bool)
    ensures
        r == is_slug(slug@),
{
    let chars = chars_of(slug);
    let mut i: usize = 0;
    while i < chars.len()
        invariant
            i <= chars.len(),
            chars@ == slug@,
            forall|j: int|
                0 <= j < i ==> crate::text::is_alnum(#[trigger] chars@[j]) || chars@[j] == '_',
        decreases chars.len() - i,
    {
        if !(crate::text::char_is_alnum(chars[i]) || chars[i] == '_') {
            proof {
                assert(!(crate::text::is_alnum(slug@[i as int]) || slug@[i as int] == '_'));
            }
            return false;
        }
        i += 1;
    }
    true
}

impl Store {
    /// Where the file of an issue stands: the place of the first status of
    /// the issue's status name, and the issue's place in that listing.
    pub fn locate(&self, issue: &Issue) -> (r: Option<(usize, usize)>)
        requires
            self.wf(),
        ensures
            match r {
                Some((s, k)) => self@.locate(issue@) == Some((s as int, k as int)) && s
                    < self@.lists.len() && k < self@.lists[s as int].len(),
                None => self@.locate(issue@) is None,
            },
    {
        match self.config.find_status(issue.status.as_str()) {
            None => None,
            Some(s) => {
                assert(list_views(self.lists@)[s as int] == issue_views(self.lists@[s as int]@));
                match find_path(&self.lists[s], issue.path.as_str()) {
                    None => None,
                    Some(k) => Some((s, k)),
                }
            },
        }
    }

    /// A new identifier that no issue has. Candidates are drawn one after
    /// the other, and `next_id_step` says after each what follows: the first
    /// free candidate is taken, and after `MAX_ID_ATTEMPTS` candidates that
    /// are all taken the search is given up. So the result is what
    /// `id_search` says of the candidates that were drawn. Where no issue
    /// has an identifier of the tracker's make and the configured length,
    /// the first candidate is free, and the search succeeds.
    pub fn generate_unique_id(&self) -> (r: Result<String, MothError>)
        requires
            self.wf(),
        ensures
            match r {
                Ok(id) => is_valid_id(id@) && !self@.has_id(id@) && id@.len()
                    == crate::ident::id_len(self@.config.id_length),
                Err(e) => e@ == crate::error::ErrorView::IdsExhausted,
            },
            self@.no_id_of_length(crate::ident::id_len(self@.config.id_length)) ==> r is Ok,
            exists|drawn: Seq<Seq<char>>| #[trigger] self@.id_search(drawn, found_id(r)),
    {
        let mut attempt: u32 = 1;
        let ghost mut drawn: Seq<Seq<char>> = Seq::empty();
        loop
            invariant
                self.wf(),
                1 <= attempt <= MAX_ID_ATTEMPTS,
                self@.no_id_of_length(crate::ident::id_len(self@.config.id_length)) ==> attempt
                    == 1,
                drawn.len() == attempt - 1,
                forall|k: int|
                    0 <= k < drawn.len() ==> is_valid_id(#[trigger] drawn[k]) && drawn[k].len()
                        == crate::ident::id_len(self@.config.id_length) && self@.has_id(drawn[k]),
            decreases MAX_ID_ATTEMPTS - attempt,
        {
            let id = crate::ident::generate_id(self.config.id_length);
            let free = self.id_is_free(id.as_str());
            let ghost before = drawn;
            proof {
                if self@.no_id_of_length(id@.len()) && self@.has_id(id@) {
                    let k = choose|k: int|
                        0 <= k < self@.all_issues().len() && #[trigger] self@.all_issues()[k].id
                            == id@;
                    assert(is_valid_id(self@.all_issues()[k].id));
                }
                drawn = before.push(id@);
                assert(drawn.last() == id@);
                assert forall|k: int| 0 <= k < drawn.len() implies is_valid_id(
                    #[trigger] drawn[k],
                ) && drawn[k].len() == crate::ident::id_len(self@.config.id_length) by {
                    if k < before.len() {
                        assert(drawn[k] == before[k]);
                    }
                }
                assert forall|k: int| 0 <= k < drawn.len() - 1 implies self@.has_id(
                    #[trigger] drawn[k],
                ) by {
                    assert(drawn[k] == before[k]);
                }
            }
            match next_id_step(attempt, free) {
                IdStep::Take => {
                    let r: Result<String, MothError> = Ok(id);
                    assert(self@.id_search(drawn, found_id(r)));
                    return r;
                },
                IdStep::Again => {
                    attempt += 1;
                },
                IdStep::GiveUp => {
                    let r: Result<String, MothError> = Err(MothError::IdsExhausted);
                    assert(self@.id_search(drawn, found_id(r)));
                    return r;
                },
            }
        }
    }

    /// Adds an issue with a given identifier, severity and slug to the first
    /// status, without an order number. The caller writes an empty file at
    /// the path of the issue returned.
    pub fn add_issue(&mut self, id: &str, severity: crate::severity::Severity, slug: &str) -> (r:
        Issue)
        requires
            old(self).wf(),
            is_valid_id(id@),
            is_slug(slug@),
        ensures
            final(self).wf(),
            final(self)@ == old(self)@.created(id@, severity, slug@),
            r@ == old(self)@.new_issue(id@, severity, slug@),
            issue_at(r@.path, r@.status) == Some(r@),
    {
        let first = &self.config.statuses[0];
        assert(self@.config.statuses[0] == self.config.statuses@[0]@);
        let dir = self.config.status_dir(first);
        let mut issue = Issue {
            id: String::from_str(id),
            severity,
            slug: String::from_str(slug),
            status: first.name.clone(),
            path: String::new(),
            order: None,
        };
        let name = issue.filename();
        issue.path = path_below(dir.as_str(), name.as_str());
        let kept = issue.clone();
        proof {
            let r = issue@;
            assert(r == old(self)@.new_issue(id@, severity, slug@));
            lemma_plain_texts(id@, slug@, '-');
            lemma_plain_texts(id@, slug@, '/');
            crate::codec::lemma_id_is_no_number(id@);
            crate::paths::lemma_renamed_is_backed(r, None, old(self)@.dir(0));
            assert(crate::model::with_order(r, None, old(self)@.dir(0)) == r);
            assert(list_views(self.lists@)[0] == issue_views(self.lists@[0]@));
            lemma_placed(old(self)@.lists[0], r, old(self)@.config.statuses[0].name);
        }
        let mut list = self.lists.remove(0);
        insert_issue(&mut list, issue);
        self.lists.insert(0, list);
        proof {
            assert(list_views(self.lists@) == old(self)@.lists.update(
                0,
                crate::order::insert_sorted(old(self)@.lists[0], kept@),
            )) by {
                let a = list_views(self.lists@);
                let b = old(self)@.lists.update(
                    0,
                    crate::order::insert_sorted(old(self)@.lists[0], kept@),
                );
                assert(a.len() == b.len());
                assert forall|i: int| 0 <= i < a.len() implies a[i] == b[i] by {
                    if i > 0 {
                        assert(self.lists@[i] == old(self).lists@[i]);
                        assert(a[i] == issue_views(old(self).lists@[i]@));
                        assert(list_views(old(self).lists@)[i] == issue_views(old(self).lists@[i]@));
                    }
                }
            }
            assert(self@.wf()) by {
                let after = self@;
                let before = old(self)@;
                assert forall|i: int| 0 <= i < after.lists.len() implies in_order(
                    #[trigger] after.lists[i],
                ) by {
                    if i > 0 {
                        assert(after.lists[i] == before.lists[i]);
                    }
                }
                assert forall|i: int, j: int|
                    0 <= i < after.lists.len() && 0 <= j < after.lists[i].len() implies backed(
                    #[trigger] after.lists[i][j],
                    after.config.statuses[i].name,
                ) by {
                    if i > 0 {
                        assert(after.lists[i] == before.lists[i]);
                        assert(backed(before.lists[i][j], before.config.statuses[i].name));
                    }
                }
            }
        }
        kept
    }

    /// Creates an issue from a title: in the first status, without an order
    /// number, under a new identifier. A title whose slug is empty is an
    /// error, and so is it when no free identifier is found. In a store in
    /// which no issue has an identifier of the tracker's make and the
    /// configured length, every title with a slug gets its issue. The
    /// caller writes an empty file at the path of the issue returned.
    pub fn create_issue(&mut self, title: &str, severity: crate::severity::Severity) -> (r: Result<
        Issue,
        MothError,
    >)
        requires
            old(self).wf(),
        ensures
            final(self).wf(),
            crate::slug::slug_of(title@).len() > 0 && old(self)@.no_id_of_length(
                crate::ident::id_len(old(self)@.config.id_length),
            ) ==> r is Ok,
            match r {
                Ok(issue) => {
                    &&& crate::slug::slug_of(title@).len() > 0
                    &&& crate::slug::is_lower_slug(issue@.slug)
                    &&& crate::slug::well_joined(issue@.slug)
                    &&& is_valid_id(issue@.id)
                    &&& issue@.id.len() == crate::ident::id_len(old(self)@.config.id_length)
                    &&& !old(self)@.has_id(issue@.id)
                    &&& issue@ == old(self)@.new_issue(
                        issue@.id,
                        severity,
                        crate::slug::slug_of(title@),
                    )
                    &&& final(self)@ == old(self)@.created(
                        issue@.id,
                        severity,
                        crate::slug::slug_of(title@),
                    )
                },
                Err(e) => {
                    &&& final(self)@ == old(self)@
                    &&& if crate::slug::slug_of(title@).len() == 0 {
                        e@ == crate::error::ErrorView::EmptyTitle
                    } else {
                        e@ == crate::error::ErrorView::IdsExhausted
                    }
                },
            },
    {
        let slug = crate::slug::title_to_slug(title);
        if slug.as_str().unicode_len() == 0 {
            return Err(MothError::EmptyTitle);
        }
        let id = match self.generate_unique_id() {
            Ok(id) => id,
            Err(e) => {
                return Err(e);
            },
        };
        Ok(self.add_issue(id.as_str(), severity, slug.as_str()))
    }

    /// The listing at a place.
    pub fn list(&self, i: usize) -> (r: &Vec<Issue>)
        requires
            i < self@.lists.len(),
        ensures
            issue_views(r@) == self@.lists[i as int],
    {
        assert(list_views(self.lists@)[i as int] == issue_views(self.lists@[i as int]@));
        &self.lists[i]
    }

    /// Puts another listing at a place.
    pub(crate) fn set_list(&mut self, i: usize, list: Vec<Issue>)
        requires
            i < old(self)@.lists.len(),
        ensures
            final(self)@ == old(self)@.with_list(i as int, issue_views(list@)),
    {
        let ghost views = issue_views(list@);
        self.lists.remove(i);
        self.lists.insert(i, list);
        proof {
            let a = list_views(self.lists@);
            let b = old(self)@.lists.update(i as int, views);
            assert(a.len() == b.len());
            assert forall|k: int| 0 <= k < a.len() implies a[k] == b[k] by {
                if k != i {
                    assert(self.lists@[k] == old(self).lists@[k]);
                    assert(list_views(old(self).lists@)[k] == issue_views(old(self).lists@[k]@));
                }
            }
            assert(a == b);
        }
    }
}

/// A store stays well formed when a listing in rank order, whose issues are
/// backed by files of its status, takes the place of another.
pub proof fn lemma_with_list(s: StoreView, i: int, list: Seq<IssueView>)
    requires
        s.wf(),
        0 <= i < s.lists.len(),
        in_order(list),
        forall|j: int| 0 <= j < list.len() ==> backed(#[trigger] list[j], s.config.statuses[i].name),
    ensures
        s.with_list(i, list).wf(),
{
    let after = s.with_list(i, list);
    assert forall|a: int| 0 <= a < after.lists.len() implies in_order(
        #[trigger] after.lists[a],
    ) by {
        if a != i {
            assert(after.lists[a] == s.lists[a]);
        }
    }
    assert forall|a: int, b: int|
        0 <= a < after.lists.len() && 0 <= b < after.lists[a].len() implies backed(
        #[trigger] after.lists[a][b],
        after.config.statuses[a].name,
    ) by {
        if a != i {
            assert(after.lists[a] == s.lists[a]);
            assert(backed(s.lists[a][b], s.config.statuses[a].name));
        }
    }
}

/// A well-formed store stays so when an issue leaves a listing.
pub proof fn lemma_without(s: StoreView, i: int, k: int)
    requires
        s.wf(),
        0 <= i < s.lists.len(),
        0 <= k < s.lists[i].len(),
    ensures
        s.with_list(i, s.lists[i].remove(k)).wf(),
{
    let list = s.lists[i].remove(k);
    crate::order::lemma_remove_keeps_order(s.lists[i], k);
    assert forall|j: int| 0 <= j < list.len() implies backed(
        #[trigger] list[j],
        s.config.statuses[i].name,
    ) by {
        if j < k {
            assert(list[j] == s.lists[i][j]);
        } else {
            assert(list[j] == s.lists[i][j + 1]);
        }
    }
    lemma_with_list(s, i, list);
}

/// A well-formed store stays so when the issue of a file of a status enters
/// the listing of that status.
pub proof fn lemma_with_placed(s: StoreView, i: int, path: Seq<char>)
    requires
        s.wf(),
        0 <= i < s.lists.len(),
    ensures
        s.with_list(i, placed(s.lists[i], issue_at(path, s.config.statuses[i].name))).wf(),
{
    let status = s.config.statuses[i].name;
    assert forall|j: int| 0 <= j < s.lists[i].len() implies backed(
        #[trigger] s.lists[i][j],
        status,
    ) by {}
    match issue_at(path, status) {
        Some(r) => {
            lemma_placed(s.lists[i], r, status);
            lemma_with_list(s, i, crate::order::insert_sorted(s.lists[i], r));
        },
        None => {
            assert(s.with_list(i, s.lists[i]) == s) by {
                assert(s.lists.update(i, s.lists[i]) == s.lists);
            }
        },
    }
}

} // verus!
