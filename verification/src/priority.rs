//! The manual priority order of a status: putting an issue at a place, and
//! making the order numbers dense.

use crate::error::{ErrorView, MothError};
use crate::issue::{issue_at, Issue, IssueView};
use crate::model::{
    above_word, backed, below_word, lowest_order, place_named, placed, renames, renames_upto,
    renumbered, with_order, Place, StoreView,
};
use crate::number::read_u32;
use crate::order::{issue_views, rank_le, in_order};
use crate::store::{lemma_with_list, Store};
use crate::text::{chars_of, same_chars, slice_chars, starts_with, string_of};
use vstd::prelude::*;
use vstd::string::*;

verus! {

/// Where an issue is to go in the priority order of its status.
#[derive(Debug)]
pub enum Position {
    Top,
    Bottom,
    Above(String),
    Below(String),
    At(u32),
}

impl View for Position {
    type V = Place;

    open spec fn view(&self) -> Place {
        match self {
            Position::Top => Place::Top,
            Position::Bottom => Place::Bottom,
            Position::Above(id) => Place::Above(id@),
            Position::Below(id) => Place::Below(id@),
            Position::At(n) => Place::At(*n),
        }
    }
}

/// A file that is to get another name.
#[derive(Debug)]
pub struct Rename {
    pub from: String,
    pub to: String,
}

impl View for Rename {
    type V = (Seq<char>, Seq<char>);

    open spec fn view(&self) -> (Seq<char>, Seq<char>) {
        (self.from@, self.to@)
    }
}

pub open spec fn rename_views(v: Seq<Rename>) -> Seq<(Seq<char>, Seq<char>)> {
    v.map_values(|r: Rename| r@)
}

/// The text of an optional text.
pub open spec fn text_of(other: Option<&str>) -> Option<Seq<char>> {
    match other {
        Some(s) => Some(s@),
        None => None,
    }
}

/// Reads a position: `top`, `bottom`, a number, or `above` or `below` with
/// the identifier of another issue, given apart or behind a colon.
pub fn parse_position(position: &str, other: Option<&str>) -> (r: Result<Position, MothError>)
    ensures
        match place_named(position@, text_of(other)) {
            Ok(place) => r matches Ok(p) && p@ == place,
            Err(e) => r matches Err(err) && err@ == e,
        },
{
    let chars = chars_of(position);
    let top: Vec<char> = vec!['t', 'o', 'p'];
    let bottom: Vec<char> = vec!['b', 'o', 't', 't', 'o', 'm'];
    let above: Vec<char> = vec!['a', 'b', 'o', 'v', 'e'];
    let below: Vec<char> = vec!['b', 'e', 'l', 'o', 'w'];
    let above_colon: Vec<char> = vec!['a', 'b', 'o', 'v', 'e', ':'];
    let below_colon: Vec<char> = vec!['b', 'e', 'l', 'o', 'w', ':'];
    proof {
        assert(top@ == seq!['t', 'o', 'p']);
        assert(bottom@ == seq!['b', 'o', 't', 't', 'o', 'm']);
        assert(above@ == above_word());
        assert(below@ == below_word());
        assert(above_colon@ == above_word().push(':'));
        assert(below_colon@ == below_word().push(':'));
    }
    if same_chars(&chars, &top) {
        Ok(Position::Top)
    } else if same_chars(&chars, &bottom) {
        Ok(Position::Bottom)
    } else if same_chars(&chars, &above) {
        match other {
            Some(id) => Ok(Position::Above(String::from_str(id))),
            None => Err(MothError::MissingTarget { above: true }),
        }
    } else if same_chars(&chars, &below) {
        match other {
            Some(id) => Ok(Position::Below(String::from_str(id))),
            None => Err(MothError::MissingTarget { above: false }),
        }
    } else if starts_with(&chars, &above_colon) {
        let id = slice_chars(&chars, 6, chars.len());
        assert(chars@.subrange(6, chars.len() as int) == position@.skip(6));
        Ok(Position::Above(string_of(&id)))
    } else if starts_with(&chars, &below_colon) {
        let id = slice_chars(&chars, 6, chars.len());
        assert(chars@.subrange(6, chars.len() as int) == position@.skip(6));
        Ok(Position::Below(string_of(&id)))
    } else {
        match read_u32(&chars) {
            Some(n) => Ok(Position::At(n)),
            None => Err(MothError::InvalidPosition { text: String::from_str(position) }),
        }
    }
}

/// The lowest order number in a listing, if any issue has one.
pub fn lowest(list: &Vec<Issue>) -> (r: Option<u32>)
    ensures
        r == lowest_order(issue_views(list@)),
{
    let mut low: Option<u32> = None;
    let mut i: usize = 0;
    proof {
        assert(issue_views(list@).take(0) == Seq::<IssueView>::empty());
    }
    while i < list.len()
        invariant
            i <= list.len(),
            low == lowest_order(issue_views(list@).take(i as int)),
        decreases list.len() - i,
    {
        proof {
            let next = issue_views(list@).take(i + 1);
            assert(next.drop_last() == issue_views(list@).take(i as int));
            assert(next.last() == list@[i as int]@);
        }
        low = match (low, list[i].order) {
            (Some(x), Some(y)) => Some(
                if x <= y {
                    x
                } else {
                    y
                },
            ),
            (Some(x), None) => Some(x),
            (None, o) => o,
        };
        i += 1;
    }
    proof {
        assert(issue_views(list@).take(list.len() as int) == issue_views(list@));
    }
    low
}

/// A listing with dense order numbers is in listing order, each of its
/// issues is what its file says, and each order number in it is the place
/// of its issue, counted from one.
pub proof fn lemma_renumbered(list: Seq<IssueView>, dir: Seq<char>, status: Seq<char>)
    requires
        in_order(list),
        forall|j: int| 0 <= j < list.len() ==> backed(#[trigger] list[j], status),
        list.len() <= u32::MAX,
    ensures
        renumbered(list, dir).len() == list.len(),
        in_order(renumbered(list, dir)),
        forall|j: int|
            0 <= j < list.len() ==> backed(#[trigger] renumbered(list, dir)[j], status),
        forall|j: int|
            0 <= j < list.len() ==> (#[trigger] renumbered(list, dir)[j]).order == (
            if list[j].order is Some {
                Some((j + 1) as u32)
            } else {
                None
            }),
{
    let after = renumbered(list, dir);
    assert forall|j: int| 0 <= j < list.len() implies backed(#[trigger] after[j], status) by {
        assert(backed(list[j], status));
        if list[j].order is Some && list[j].order != Some((j + 1) as u32) {
            crate::paths::lemma_backed_fields(list[j], status);
            crate::paths::lemma_renamed_is_backed(list[j], Some((j + 1) as u32), dir);
        }
    }
    assert forall|i: int, j: int| 0 <= i < j < after.len() implies rank_le(
        #[trigger] after[i].order,
        #[trigger] after[j].order,
    ) by {
        assert(rank_le(list[i].order, list[j].order));
    }
    assert forall|i: int, j: int| 0 <= i < j < after.len() implies !crate::order::comes_before(
        #[trigger] after[j],
        #[trigger] after[i],
    ) by {
        assert(rank_le(list[i].order, list[j].order));
        assert(!crate::order::comes_before(list[j], list[i]));
    }
}

impl Store {
    /// The order number that a place gives in the status at place `s`.
    pub fn order_for(&self, s: usize, status: &str, place: &Position) -> (r: Result<
        Option<u32>,
        MothError,
    >)
        requires
            self.wf(),
            s < self@.lists.len(),
        ensures
            match self@.order_for(s as int, status@, place@) {
                Ok(order) => r == Ok::<Option<u32>, MothError>(order),
                Err(e) => r matches Err(err) && err@ == e,
            },
    {
        match place {
            Position::Top => match lowest(self.list(s)) {
                Some(low) => if low > 1 {
                    Ok(Some(low - 1))
                } else {
                    Ok(Some(1))
                },
                None => Ok(Some(1)),
            },
            Position::Bottom => Ok(None),
            Position::Above(other) => match self.find(other.as_str()) {
                Err(e) => Err(e),
                Ok(t) => if !crate::text::same_text(t.status.as_str(), status) {
                    Err(
                        MothError::DifferentStatus {
                            target: t.status.clone(),
                            subject: String::from_str(status),
                        },
                    )
                } else {
                    match t.order {
                        Some(o) => if o > 1 {
                            Ok(Some(o - 1))
                        } else {
                            Ok(Some(1))
                        },
                        None => Ok(None),
                    }
                },
            },
            Position::Below(other) => match self.find(other.as_str()) {
                Err(e) => Err(e),
                Ok(t) => if !crate::text::same_text(t.status.as_str(), status) {
                    Err(
                        MothError::DifferentStatus {
                            target: t.status.clone(),
                            subject: String::from_str(status),
                        },
                    )
                } else {
                    match t.order {
                        Some(o) => if o < u32::MAX {
                            Ok(Some(o + 1))
                        } else {
                            Err(MothError::RankOverflow)
                        },
                        None => Ok(None),
                    }
                },
            },
            Position::At(n) => Ok(Some(*n)),
        }
    }

    /// Puts an issue at a place in the priority order of its status. The
    /// issue is found by its status and its path. The caller renames the
    /// file at the issue's path to the path of the issue returned. It is an
    /// error if the status of the issue is unknown or not prioritized, if
    /// the position names no place, if the other issue is not found or is
    /// in another status, or if the store does not hold the issue's file.
    pub fn reorder(&mut self, issue: &Issue, position: &str, other_id: Option<&str>) -> (r: Result<
        Issue,
        MothError,
    >)
        requires
            old(self).wf(),
        ensures
            final(self).wf(),
            match old(self)@.reordered(issue@, position@, text_of(other_id)) {
                Ok((after, now)) => r matches Ok(found) && found@ == now && final(self)@ == after,
                Err(e) => r matches Err(err) && err@ == e && final(self)@ == old(self)@,
            },
    {
        let s = match self.config().find_status(issue.status.as_str()) {
            None => {
                return Err(MothError::UnknownStatus { name: issue.status.clone() });
            },
            Some(s) => s,
        };
        let config = self.config();
        assert(config@.statuses[s as int] == config.statuses@[s as int]@);
        if !config.statuses[s].prioritized {
            return Err(MothError::NotPrioritized { status: issue.status.clone() });
        }
        let place = match parse_position(position, other_id) {
            Err(e) => {
                return Err(e);
            },
            Ok(p) => p,
        };
        let order = match self.order_for(s, issue.status.as_str(), &place) {
            Err(e) => {
                return Err(e);
            },
            Ok(o) => o,
        };
        let k = match self.locate(issue) {
            None => {
                return Err(MothError::MissingFile { path: issue.path.clone() });
            },
            Some((_, k)) => k,
        };
        let rec = self.leave(s, k);
        let now = self.relabel(&rec, rec.severity, order, s);
        proof {
            crate::paths::lemma_backed_fields(rec@, old(self)@.config.statuses[s as int].name);
        }
        self.enter(s, now.path.as_str());
        proof {
            let lists = old(self)@.lists;
            let gone = lists[s as int].remove(k as int);
            let fresh = placed(gone, issue_at(now@.path, now@.status));
            assert(lists.update(s as int, gone).update(s as int, fresh) == lists.update(
                s as int,
                fresh,
            ));
        }
        Ok(now)
    }

    /// Makes the order numbers of a status dense: its issues with an order
    /// number get the numbers from one on, in listing order. The caller
    /// renames the files as the result says, in its order; a file whose
    /// number is right already is not among them. An unknown status and one
    /// that is not prioritized are errors.
    pub fn compact_status(&mut self, status: &str) -> (r: Result<Vec<Rename>, MothError>)
        requires
            old(self).wf(),
        ensures
            final(self).wf(),
            match old(self)@.compacted(status@) {
                Ok(after) => {
                    &&& r matches Ok(steps)
                    &&& final(self)@ == after
                    &&& rename_views(steps@) == renames(
                        old(self)@.lists[old(self)@.config.status_index(status@)],
                        old(self)@.dir(old(self)@.config.status_index(status@)),
                    )
                },
                Err(e) => r matches Err(err) && err@ == e && final(self)@ == old(self)@,
            },
    {
        let s = match self.config().find_status(status) {
            None => {
                return Err(MothError::UnknownStatus { name: String::from_str(status) });
            },
            Some(s) => s,
        };
        let config = self.config();
        assert(config@.statuses[s as int] == config.statuses@[s as int]@);
        if !config.statuses[s].prioritized {
            return Err(MothError::NotPrioritized { status: String::from_str(status) });
        }
        let list = self.list(s);
        if list.len() > u32::MAX as usize {
            return Err(MothError::RankOverflow);
        }
        let ghost views = issue_views(list@);
        let ghost dir = self@.dir(s as int);
        let ghost target = renumbered(views, dir);
        let mut out: Vec<Issue> = Vec::new();
        let mut steps: Vec<Rename> = Vec::new();
        let mut k: usize = 0;
        proof {
            assert(target.take(0) == Seq::<IssueView>::empty());
            assert(issue_views(out@) == Seq::<IssueView>::empty());
            assert(rename_views(steps@) == Seq::<(Seq<char>, Seq<char>)>::empty());
        }
        while k < list.len()
            invariant
                k <= list.len(),
                list.len() <= u32::MAX,
                self.wf(),
                s < self@.lists.len(),
                views == issue_views(list@),
                views == self@.lists[s as int],
                dir == self@.dir(s as int),
                target == renumbered(views, dir),
                issue_views(out@) == target.take(k as int),
                rename_views(steps@) == renames_upto(views, dir, k as int),
            decreases list.len() - k,
        {
            assert(views[k as int] == list@[k as int]@);
            let rec = &list[k];
            let number: u32 = (k + 1) as u32;
            let ghost out_before = out@;
            let ghost steps_before = steps@;
            let stays = match rec.order {
                Some(n) => n == number,
                None => true,
            };
            if stays {
                out.push(rec.clone());
            } else {
                let now = self.relabel(rec, rec.severity, Some(number), s);
                proof {
                    crate::paths::lemma_backed_fields(rec@, self@.config.statuses[s as int].name);
                    assert(now@ == with_order(rec@, Some(number), dir));
                }
                steps.push(Rename { from: rec.path.clone(), to: now.path.clone() });
                out.push(now);
                proof {
                    assert(rename_views(steps@) == rename_views(steps_before).push(
                        (rec@.path, now@.path),
                    ));
                }
            }
            proof {
                assert(issue_views(out@) == issue_views(out_before).push(target[k as int]));
                assert(target.take(k + 1) == target.take(k as int).push(target[k as int]));
            }
            k += 1;
        }
        proof {
            assert(target.take(list.len() as int) == target);
            lemma_renumbered(views, dir, self@.config.statuses[s as int].name);
            lemma_with_list(self@, s as int, target);
        }
        self.set_list(s, out);
        Ok(steps)
    }

    /// The first status whose order numbers cannot be made dense, with the
    /// reason.
    fn compaction_fault(&self) -> (r: Option<(usize, MothError)>)
        requires
            self.wf(),
        ensures
            match r {
                Some((k, e)) => {
                    &&& k < self@.config.statuses.len()
                    &&& compact_fault(self@, k as int) == Some(e@)
                    &&& forall|j: int| 0 <= j < k ==> compact_fault(self@, j) is None
                },
                None => forall|j: int|
                    0 <= j < self@.config.statuses.len() ==> compact_fault(self@, j) is None,
            },
    {
        let config = self.config();
        let mut k: usize = 0;
        while k < config.statuses.len()
            invariant
                k <= config.statuses.len(),
                self.wf(),
                config@ == self@.config,
                forall|j: int| 0 <= j < k ==> compact_fault(self@, j) is None,
            decreases config.statuses.len() - k,
        {
            assert(config@.statuses[k as int] == config.statuses@[k as int]@);
            if config.statuses[k].prioritized {
                proof {
                    crate::config::lemma_index_of_status(
                        config@.statuses,
                        config@.statuses[k as int].name,
                    );
                }
                match config.find_status(config.statuses[k].name.as_str()) {
                    None => {
                        assert(false);
                    },
                    Some(i) => {
                        assert(config@.statuses[i as int] == config.statuses@[i as int]@);
                        if !config.statuses[i].prioritized {
                            return Some(
                                (
                                    k,
                                    MothError::NotPrioritized {
                                        status: config.statuses[k].name.clone(),
                                    },
                                ),
                            );
                        }
                        if self.list(i).len() > u32::MAX as usize {
                            return Some((k, MothError::RankOverflow));
                        }
                    },
                }
            }
            k += 1;
        }
        None
    }

    /// Makes the order numbers dense: those of the status named, or, where
    /// none is named, those of every prioritized status in the order of the
    /// configuration. The caller renames the files as the result says, in
    /// its order. Where one of the statuses cannot be compacted, none is, and
    /// the store stays as it is.
    pub fn compact(&mut self, status: Option<&str>) -> (r: Result<Vec<Rename>, MothError>)
        requires
            old(self).wf(),
        ensures
            final(self).wf(),
            match status {
                Some(name) => match old(self)@.compacted(name@) {
                    Ok(after) => {
                        &&& r matches Ok(steps)
                        &&& final(self)@ == after
                        &&& rename_views(steps@) == renames(
                            old(self)@.lists[old(self)@.config.status_index(name@)],
                            old(self)@.dir(old(self)@.config.status_index(name@)),
                        )
                    },
                    Err(e) => r matches Err(err) && err@ == e && final(self)@ == old(self)@,
                },
                None => match old(self)@.compacted_upto(old(self)@.config.statuses.len() as int) {
                    Ok(after) => {
                        &&& r matches Ok(steps)
                        &&& final(self)@ == after
                        &&& rename_views(steps@) == old(self)@.renames_upto(
                            old(self)@.config.statuses.len() as int,
                        )
                    },
                    Err(e) => r matches Err(err) && err@ == e && final(self)@ == old(self)@,
                },
            },
    {
        match status {
            Some(name) => self.compact_status(name),
            None => {
                let mut steps: Vec<Rename> = Vec::new();
                let n = self.config().statuses.len();
                match self.compaction_fault() {
                    Some((k, e)) => {
                        proof {
                            lemma_compact_upto(self@, k as int);
                            let reached = self@.compacted_upto(k as int)->Ok_0;
                            lemma_compact_same(self@, reached, self@.config.statuses[k as int].name);
                            lemma_compact_fails(self@, k as int + 1, n as int);
                        }
                        return Err(e);
                    },
                    None => {},
                }
                let mut k: usize = 0;
                assert(rename_views(steps@) == Seq::<(Seq<char>, Seq<char>)>::empty());
                while k < n
                    invariant
                        k <= n,
                        status is None,
                        n == old(self)@.config.statuses.len(),
                        self.wf(),
                        old(self).wf(),
                        self@.config == old(self)@.config,
                        forall|j: int| 0 <= j < n ==> compact_fault(old(self)@, j) is None,
                        old(self)@.compacted_upto(k as int) == Ok::<StoreView, ErrorView>(self@),
                        rename_views(steps@) == old(self)@.renames_upto(k as int),
                    decreases n - k,
                {
                    let config = self.config();
                    assert(config@.statuses[k as int] == config.statuses@[k as int]@);
                    if config.statuses[k].prioritized {
                        let name = config.statuses[k].name.clone();
                        let ghost before = self@;
                        proof {
                            lemma_compact_upto(old(self)@, k as int);
                            lemma_compact_same(old(self)@, before, name@);
                            assert(compact_fault(old(self)@, k as int) is None);
                        }
                        match self.compact_status(name.as_str()) {
                            Err(e) => {
                                assert(false);
                                return Err(e);
                            },
                            Ok(mut more) => {
                                let ghost before = rename_views(steps@);
                                let ghost added = rename_views(more@);
                                steps.append(&mut more);
                                proof {
                                    assert(rename_views(steps@) == before + added);
                                }
                            },
                        }
                    }
                    k += 1;
                }
                Ok(steps)
            },
        }
    }
}

/// Why the order numbers of the status at a place cannot be made dense, if
/// they cannot: the status is prioritized, and the first status of its name
/// is not, or holds more issues than there are order numbers.
pub open spec fn compact_fault(s: StoreView, k: int) -> Option<ErrorView> {
    if s.config.statuses[k].prioritized {
        match s.compacted(s.config.statuses[k].name) {
            Err(e) => Some(e),
            Ok(_) => None,
        }
    } else {
        None
    }
}

/// Two stores with the same configuration and as many issues in each
/// listing.
pub open spec fn same_shape(s: StoreView, t: StoreView) -> bool {
    &&& t.config == s.config
    &&& t.lists.len() == s.lists.len()
    &&& forall|i: int| 0 <= i < s.lists.len() ==> (#[trigger] t.lists[i]).len() == s.lists[i].len()
}

/// Whether a status can be compacted depends on the shape of the store
/// alone.
proof fn lemma_compact_same(s: StoreView, t: StoreView, name: Seq<char>)
    requires
        s.wf(),
        same_shape(s, t),
    ensures
        s.compacted(name) matches Err(e) ==> t.compacted(name) == Err::<StoreView, ErrorView>(e),
        s.compacted(name) is Ok ==> t.compacted(name) is Ok,
{
    crate::config::lemma_index_of_status(s.config.statuses, name);
}

/// Where none of the first `k` statuses has a fault, their compaction
/// succeeds and keeps the shape of the store.
proof fn lemma_compact_upto(s: StoreView, k: int)
    requires
        s.wf(),
        0 <= k <= s.config.statuses.len(),
        forall|j: int| 0 <= j < k ==> compact_fault(s, j) is None,
    ensures
        s.compacted_upto(k) matches Ok(t) && same_shape(s, t),
    decreases k,
{
    if k > 0 {
        lemma_compact_upto(s, k - 1);
        let t = s.compacted_upto(k - 1)->Ok_0;
        let name = s.config.statuses[k - 1].name;
        assert(compact_fault(s, k - 1) is None);
        if s.config.statuses[k - 1].prioritized {
            lemma_compact_same(s, t, name);
            crate::config::lemma_index_of_status(s.config.statuses, name);
            let i = s.config.status_index(name);
            let after = t.compacted(name)->Ok_0;
            assert(after.lists[i].len() == t.lists[i].len());
            assert forall|a: int| 0 <= a < s.lists.len() implies (#[trigger] after.lists[a]).len()
                == s.lists[a].len() by {
                if a != i {
                    assert(after.lists[a] == t.lists[a]);
                }
            }
        }
    }
}

/// A failure at a status is the failure of the whole.
proof fn lemma_compact_fails(s: StoreView, k: int, n: int)
    requires
        0 <= k <= n,
        s.compacted_upto(k) is Err,
    ensures
        s.compacted_upto(n) == s.compacted_upto(k),
    decreases n - k,
{
    if k < n {
        lemma_compact_fails(s, k + 1, n);
    }
}

} // verus!
