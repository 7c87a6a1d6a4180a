//! The tracker as a mathematical value: the configuration and, for each
//! status, the listing of its issues. Every operation of the store is a
//! function on this value.

use crate::codec::{encode, extension_of, Fields};
use crate::config::{join_path, ConfigView};
use crate::error::ErrorView;
use crate::issue::{issue_at, IssueView};
use crate::number::parse_u32;
use crate::order::{insert_sorted, in_order, text_before};
use crate::text::is_prefix;
use vstd::prelude::*;

verus! {

/// The tracker: its configuration and the listing of each status, in the
/// order of the configured statuses.
pub struct StoreView {
    pub config: ConfigView,
    pub lists: Seq<Seq<IssueView>>,
}

/// The issue is what the file at its path says, in the status of that name.
pub open spec fn backed(r: IssueView, status: Seq<char>) -> bool {
    issue_at(r.path, status) == Some(r)
}

/// The listing with the issue of a file entered, if the file holds one.
pub open spec fn placed(list: Seq<IssueView>, found: Option<IssueView>) -> Seq<IssueView> {
    match found {
        Some(r) => insert_sorted(list, r),
        None => list,
    }
}

/// Whether a directory entry is taken for an issue file: its extension is
/// `md`.
pub open spec fn is_issue_name(name: Seq<char>) -> bool {
    extension_of(name) == Some(seq!['m', 'd'])
}

/// The listing of a status directory: the issues that its entries with the
/// extension `md` hold, in listing order. An entry whose name cannot be read
/// is left out.
pub open spec fn listing(names: Seq<Seq<char>>, dir: Seq<char>, status: Seq<char>) -> Seq<
    IssueView,
>
    decreases names.len(),
{
    if names.len() == 0 {
        Seq::empty()
    } else {
        let before = listing(names.drop_last(), dir, status);
        if is_issue_name(names.last()) {
            placed(before, issue_at(join_path(dir, names.last()), status))
        } else {
            before
        }
    }
}

/// The entries with the extension `md` whose names cannot be read, in the
/// order of the directory.
pub open spec fn unreadable(names: Seq<Seq<char>>, dir: Seq<char>, status: Seq<char>) -> Seq<
    Seq<char>,
>
    decreases names.len(),
{
    if names.len() == 0 {
        Seq::empty()
    } else {
        let before = unreadable(names.drop_last(), dir, status);
        if is_issue_name(names.last()) && issue_at(join_path(dir, names.last()), status) is None {
            before.push(names.last())
        } else {
            before
        }
    }
}

/// The place of the first issue with that path, or -1.
pub open spec fn place_of(list: Seq<IssueView>, path: Seq<char>) -> int
    decreases list.len(),
{
    if list.len() == 0 {
        -1
    } else {
        let before = place_of(list.drop_last(), path);
        if before >= 0 {
            before
        } else if list.last().path == path {
            list.len() - 1
        } else {
            -1
        }
    }
}

/// The issues whose identifier starts with `prefix`, in their order.
pub open spec fn matching(s: Seq<IssueView>, prefix: Seq<char>) -> Seq<IssueView>
    decreases s.len(),
{
    if s.len() == 0 {
        s
    } else if is_prefix(prefix, s.last().id) {
        matching(s.drop_last(), prefix).push(s.last())
    } else {
        matching(s.drop_last(), prefix)
    }
}

pub open spec fn ids_of(s: Seq<IssueView>) -> Seq<Seq<char>> {
    s.map_values(|i: IssueView| i.id)
}

/// The place at which a text enters a sorted list of texts.
pub open spec fn text_place(s: Seq<Seq<char>>, x: Seq<char>) -> int
    decreases s.len(),
{
    if s.len() == 0 {
        0
    } else if text_before(x, s.last()) {
        text_place(s.drop_last(), x)
    } else {
        s.len() as int
    }
}

/// The texts in the order of the dictionary.
pub open spec fn sorted_texts(s: Seq<Seq<char>>) -> Seq<Seq<char>>
    decreases s.len(),
{
    if s.len() == 0 {
        s
    } else {
        let before = sorted_texts(s.drop_last());
        before.insert(text_place(before, s.last()), s.last())
    }
}

/// The lowest order number in a listing, if any issue has one.
pub open spec fn lowest_order(list: Seq<IssueView>) -> Option<u32>
    decreases list.len(),
{
    if list.len() == 0 {
        None
    } else {
        match (lowest_order(list.drop_last()), list.last().order) {
            (Some(x), Some(y)) => Some(
                if x <= y {
                    x
                } else {
                    y
                },
            ),
            (Some(x), None) => Some(x),
            (None, o) => o,
        }
    }
}

/// Where an issue is to go in the priority order of its status.
pub enum Place {
    Top,
    Bottom,
    Above(Seq<char>),
    Below(Seq<char>),
    At(u32),
}

pub open spec fn above_word() -> Seq<char> {
    seq!['a', 'b', 'o', 'v', 'e']
}

pub open spec fn below_word() -> Seq<char> {
    seq!['b', 'e', 'l', 'o', 'w']
}

/// The place that a position names. The position is `top`, `bottom`, a
/// number, or `above` or `below` with the identifier of another issue, which
/// is given apart or follows the word behind a colon.
pub open spec fn place_named(position: Seq<char>, other: Option<Seq<char>>) -> Result<
    Place,
    ErrorView,
> {
    if position == seq!['t', 'o', 'p'] {
        Ok(Place::Top)
    } else if position == seq!['b', 'o', 't', 't', 'o', 'm'] {
        Ok(Place::Bottom)
    } else if position == above_word() {
        match other {
            Some(id) => Ok(Place::Above(id)),
            None => Err(ErrorView::MissingTarget { above: true }),
        }
    } else if position == below_word() {
        match other {
            Some(id) => Ok(Place::Below(id)),
            None => Err(ErrorView::MissingTarget { above: false }),
        }
    } else if is_prefix(above_word().push(':'), position) {
        Ok(Place::Above(position.skip(6)))
    } else if is_prefix(below_word().push(':'), position) {
        Ok(Place::Below(position.skip(6)))
    } else {
        match parse_u32(position) {
            Some(n) => Ok(Place::At(n)),
            None => Err(ErrorView::InvalidPosition { text: position }),
        }
    }
}

/// The issue `r` with another order number, at the path that its new file
/// name gives it in the directory `dir`.
pub open spec fn with_order(r: IssueView, order: Option<u32>, dir: Seq<char>) -> IssueView {
    IssueView {
        order,
        path: join_path(
            dir,
            encode(Fields { order, id: r.id, severity: r.severity, slug: r.slug }),
        ),
        ..r
    }
}

/// The listing with dense order numbers: the issue at each place that has an
/// order number gets the number of its place, counted from one, and moves to
/// the file name that says so.
pub open spec fn renumbered(list: Seq<IssueView>, dir: Seq<char>) -> Seq<IssueView> {
    Seq::new(
        list.len(),
        |k: int|
            if list[k].order is Some && list[k].order != Some((k + 1) as u32) {
                with_order(list[k], Some((k + 1) as u32), dir)
            } else {
                list[k]
            },
    )
}

/// The files that change their names when the first `n` issues of a listing
/// get dense order numbers: for each, in listing order, the path that the
/// file has and the path that it gets.
pub open spec fn renames_upto(list: Seq<IssueView>, dir: Seq<char>, n: int) -> Seq<
    (Seq<char>, Seq<char>),
>
    decreases n,
{
    if n <= 0 {
        Seq::empty()
    } else {
        let before = renames_upto(list, dir, n - 1);
        let k = n - 1;
        if list[k].order is Some && list[k].order != Some((k + 1) as u32) {
            before.push((list[k].path, with_order(list[k], Some((k + 1) as u32), dir).path))
        } else {
            before
        }
    }
}

/// The files that change their names when a listing gets dense order
/// numbers.
pub open spec fn renames(list: Seq<IssueView>, dir: Seq<char>) -> Seq<(Seq<char>, Seq<char>)> {
    renames_upto(list, dir, list.len() as int)
}

impl StoreView {
    /// What holds of every store: the configuration is valid, each status
    /// has its listing, each listing is in listing order, and each issue is
    /// what the file at its path says.
    pub open spec fn wf(self) -> bool {
        &&& self.config.valid()
        &&& self.lists.len() == self.config.statuses.len()
        &&& forall|i: int| 0 <= i < self.lists.len() ==> in_order(#[trigger] self.lists[i])
        &&& forall|i: int, j: int|
            0 <= i < self.lists.len() && 0 <= j < self.lists[i].len() ==> backed(
                #[trigger] self.lists[i][j],
                self.config.statuses[i].name,
            )
    }

    /// The directory of the status at a place.
    pub open spec fn dir(self, i: int) -> Seq<char> {
        self.config.status_dir(self.config.statuses[i])
    }

    /// The listing of the first status of that name; empty where there is
    /// none.
    pub open spec fn list_of(self, name: Seq<char>) -> Seq<IssueView> {
        let i = self.config.status_index(name);
        if 0 <= i < self.lists.len() {
            self.lists[i]
        } else {
            Seq::empty()
        }
    }

    /// The listings of the first `k` statuses, one after the other. Each
    /// status stands for the first status of its name.
    pub open spec fn issues_upto(self, k: int) -> Seq<IssueView>
        decreases k,
    {
        if k <= 0 {
            Seq::empty()
        } else {
            self.issues_upto(k - 1) + self.list_of(self.config.statuses[k - 1].name)
        }
    }

    /// The issues of all statuses, in the order of the statuses.
    pub open spec fn all_issues(self) -> Seq<IssueView> {
        self.issues_upto(self.config.statuses.len() as int)
    }

    /// The one issue whose identifier starts with `prefix`. No such issue,
    /// or more than one, is an error; the second names the identifiers that
    /// match, sorted.
    pub open spec fn find(self, prefix: Seq<char>) -> Result<IssueView, ErrorView> {
        let m = matching(self.all_issues(), prefix);
        if m.len() == 0 {
            Err(ErrorView::NotFound { id: prefix })
        } else if m.len() == 1 {
            Ok(m[0])
        } else {
            Err(ErrorView::Ambiguous { partial: prefix, matches: sorted_texts(ids_of(m)) })
        }
    }

    /// Whether an issue has exactly that identifier.
    pub open spec fn has_id(self, id: Seq<char>) -> bool {
        exists|k: int| 0 <= k < self.all_issues().len() && #[trigger] self.all_issues()[k].id == id
    }

    /// No issue has an identifier of the tracker's make with that many
    /// characters, so that no new identifier of that length can be taken.
    pub open spec fn no_id_of_length(self, length: nat) -> bool {
        forall|k: int|
            0 <= k < self.all_issues().len() ==> !(crate::codec::is_valid_id(
                #[trigger] self.all_issues()[k].id,
            ) && self.all_issues()[k].id.len() == length)
    }

    /// What the search for a new identifier comes to when the candidates
    /// `drawn` are drawn one after the other. There are `MAX_ID_ATTEMPTS`
    /// candidates at most, each of the tracker's make and the configured
    /// length. Every candidate but the last is taken. The last is the
    /// identifier found if it is free; if it is taken, it is the last that
    /// may be tried, and the search has failed.
    pub open spec fn id_search(self, drawn: Seq<Seq<char>>, found: Result<Seq<char>, ErrorView>)
        -> bool {
        &&& 1 <= drawn.len() <= crate::store::MAX_ID_ATTEMPTS
        &&& forall|k: int|
            0 <= k < drawn.len() ==> crate::codec::is_valid_id(#[trigger] drawn[k])
                && drawn[k].len() == crate::ident::id_len(self.config.id_length)
        &&& forall|k: int| 0 <= k < drawn.len() - 1 ==> self.has_id(#[trigger] drawn[k])
        &&& if self.has_id(drawn.last()) {
            drawn.len() == crate::store::MAX_ID_ATTEMPTS && found == Err::<Seq<char>, ErrorView>(
                ErrorView::IdsExhausted,
            )
        } else {
            found == Ok::<Seq<char>, ErrorView>(drawn.last())
        }
    }

    /// The store with the listing at a place replaced.
    pub open spec fn with_list(self, i: int, list: Seq<IssueView>) -> StoreView {
        StoreView { lists: self.lists.update(i, list), ..self }
    }

    /// The issue that `created` adds: in the first status, without an order
    /// number.
    pub open spec fn new_issue(self, id: Seq<char>, severity: crate::severity::Severity, slug: Seq<
        char,
    >) -> IssueView {
        IssueView {
            id,
            severity,
            slug,
            status: self.config.statuses[0].name,
            path: join_path(self.dir(0), encode(Fields { order: None, id, severity, slug })),
            order: None,
        }
    }

    /// The store with a new issue in the first status.
    pub open spec fn created(self, id: Seq<char>, severity: crate::severity::Severity, slug: Seq<
        char,
    >) -> StoreView {
        self.with_list(0, insert_sorted(self.lists[0], self.new_issue(id, severity, slug)))
    }

    /// Where the file of an issue stands: the place of its status and its
    /// place in the listing of that status. The issue is found by its
    /// status and its path.
    pub open spec fn locate(self, issue: IssueView) -> Option<(int, int)> {
        let s = self.config.status_index(issue.status);
        if 0 <= s < self.lists.len() && place_of(self.lists[s], issue.path) >= 0 {
            Some((s, place_of(self.lists[s], issue.path)))
        } else {
            None
        }
    }

    /// The issue as it is after a move to the status at place `t`: in that
    /// status, without its order number unless the status is prioritized,
    /// at the path that this gives it.
    pub open spec fn moved_issue(self, r: IssueView, t: int) -> IssueView {
        let order = if self.config.statuses[t].prioritized {
            r.order
        } else {
            None
        };
        IssueView { status: self.config.statuses[t].name, ..with_order(r, order, self.dir(t)) }
    }

    /// What a move of an issue to a status gives: the store after it and the
    /// issue as it then is. The status must exist and the issue's file be in
    /// the store.
    pub open spec fn moved(self, issue: IssueView, target: Seq<char>) -> Result<
        (StoreView, IssueView),
        ErrorView,
    > {
        let t = self.config.status_index(target);
        if t < 0 {
            Err(ErrorView::UnknownTarget { name: target })
        } else {
            match self.locate(issue) {
                None => Err(ErrorView::MissingFile { path: issue.path }),
                Some((s, k)) => {
                    let now = self.moved_issue(self.lists[s][k], t);
                    let without = self.with_list(s, self.lists[s].remove(k));
                    Ok(
                        (
                            without.with_list(
                                t,
                                placed(without.lists[t], issue_at(now.path, now.status)),
                            ),
                            now,
                        ),
                    )
                },
            }
        }
    }

    /// The store without an issue, whose file must be in the store.
    pub open spec fn deleted(self, issue: IssueView) -> Result<StoreView, ErrorView> {
        match self.locate(issue) {
            None => Err(ErrorView::MissingFile { path: issue.path }),
            Some((s, k)) => Ok(self.with_list(s, self.lists[s].remove(k))),
        }
    }

    /// What a change of severity gives: the store after it and the issue as
    /// it then is.
    pub open spec fn with_severity(self, issue: IssueView, level: crate::severity::Severity)
        -> Result<(StoreView, IssueView), ErrorView> {
        match self.locate(issue) {
            None => Err(ErrorView::MissingFile { path: issue.path }),
            Some((s, k)) => {
                let r = self.lists[s][k];
                let now = with_order(IssueView { severity: level, ..r }, r.order, self.dir(s));
                Ok(
                    (
                        self.with_list(
                            s,
                            placed(self.lists[s].remove(k), issue_at(now.path, now.status)),
                        ),
                        now,
                    ),
                )
            },
        }
    }

    /// The order number that a place gives to an issue of the status at
    /// place `s`. The top is one below the lowest number of the status, but
    /// not below one; the bottom is no number. Above another issue is one
    /// below its number, but not below one; below it is one above its
    /// number. The other issue must be in the same status.
    pub open spec fn order_for(self, s: int, status: Seq<char>, place: Place) -> Result<
        Option<u32>,
        ErrorView,
    > {
        match place {
            Place::Top => match lowest_order(self.lists[s]) {
                Some(low) => if low > 1 {
                    Ok(Some((low - 1) as u32))
                } else {
                    Ok(Some(1u32))
                },
                None => Ok(Some(1u32)),
            },
            Place::Bottom => Ok(None),
            Place::Above(other) => match self.find(other) {
                Err(e) => Err(e),
                Ok(t) => if t.status != status {
                    Err(ErrorView::DifferentStatus { target: t.status, subject: status })
                } else {
                    match t.order {
                        Some(o) => if o > 1 {
                            Ok(Some((o - 1) as u32))
                        } else {
                            Ok(Some(1u32))
                        },
                        None => Ok(None),
                    }
                },
            },
            Place::Below(other) => match self.find(other) {
                Err(e) => Err(e),
                Ok(t) => if t.status != status {
                    Err(ErrorView::DifferentStatus { target: t.status, subject: status })
                } else {
                    match t.order {
                        Some(o) => if o < u32::MAX {
                            Ok(Some((o + 1) as u32))
                        } else {
                            Err(ErrorView::RankOverflow)
                        },
                        None => Ok(None),
                    }
                },
            },
            Place::At(n) => Ok(Some(n)),
        }
    }

    /// What a reordering gives: the store after it and the issue as it then
    /// is. The status of the issue must exist and be prioritized, the
    /// position must name a place, and the issue's file be in the store.
    pub open spec fn reordered(
        self,
        issue: IssueView,
        position: Seq<char>,
        other: Option<Seq<char>>,
    ) -> Result<(StoreView, IssueView), ErrorView> {
        let s = self.config.status_index(issue.status);
        if s < 0 {
            Err(ErrorView::UnknownStatus { name: issue.status })
        } else if !self.config.statuses[s].prioritized {
            Err(ErrorView::NotPrioritized { status: issue.status })
        } else {
            match place_named(position, other) {
                Err(e) => Err(e),
                Ok(place) => match self.order_for(s, issue.status, place) {
                    Err(e) => Err(e),
                    Ok(order) => match self.locate(issue) {
                        None => Err(ErrorView::MissingFile { path: issue.path }),
                        Some((_, k)) => {
                            let now = with_order(self.lists[s][k], order, self.dir(s));
                            Ok(
                                (
                                    self.with_list(
                                        s,
                                        placed(
                                            self.lists[s].remove(k),
                                            issue_at(now.path, now.status),
                                        ),
                                    ),
                                    now,
                                ),
                            )
                        },
                    },
                },
            }
        }
    }

    /// The store with the order numbers of the prioritized ones among the
    /// first `k` statuses made dense, status by status.
    pub open spec fn compacted_upto(self, k: int) -> Result<StoreView, ErrorView>
        decreases k,
    {
        if k <= 0 {
            Ok(self)
        } else {
            match self.compacted_upto(k - 1) {
                Err(e) => Err(e),
                Ok(s) => if s.config.statuses[k - 1].prioritized {
                    s.compacted(s.config.statuses[k - 1].name)
                } else {
                    Ok(s)
                },
            }
        }
    }

    /// The files that change their names when the order numbers of the
    /// prioritized ones among the first `k` statuses are made dense.
    pub open spec fn renames_upto(self, k: int) -> Seq<(Seq<char>, Seq<char>)>
        decreases k,
    {
        if k <= 0 {
            Seq::empty()
        } else {
            match self.compacted_upto(k - 1) {
                Err(_) => self.renames_upto(k - 1),
                Ok(s) => {
                    let i = s.config.status_index(s.config.statuses[k - 1].name);
                    if s.config.statuses[k - 1].prioritized && s.compacted(
                        s.config.statuses[k - 1].name,
                    ) is Ok {
                        self.renames_upto(k - 1) + renames(s.lists[i], s.dir(i))
                    } else {
                        self.renames_upto(k - 1)
                    }
                },
            }
        }
    }

    /// The store with the order numbers of a status made dense. The status
    /// must exist and be prioritized.
    pub open spec fn compacted(self, status: Seq<char>) -> Result<StoreView, ErrorView> {
        let s = self.config.status_index(status);
        if s < 0 {
            Err(ErrorView::UnknownStatus { name: status })
        } else if !self.config.statuses[s].prioritized {
            Err(ErrorView::NotPrioritized { status })
        } else if self.lists[s].len() > u32::MAX {
            Err(ErrorView::RankOverflow)
        } else {
            Ok(self.with_list(s, renumbered(self.lists[s], self.dir(s))))
        }
    }
}

} // verus!
