//! What the commands decide before and after they touch the file system.

use crate::error::{texts, ErrorView, MothError};
use crate::issue::{Issue, IssueView};
use crate::model::{sorted_texts, StoreView};
use crate::number::{parse_u32, read_u32};
use crate::priority::{rename_views, text_of, Rename};
use crate::split::{lemma_split_nonempty, pieces, split, split_chars};
use crate::store::{insert_text, Store};
use crate::text::{chars_of, same_chars, slice_chars, string_of, strip, stripped};
use vstd::prelude::*;
use vstd::string::*;

verus! {

/// Whether the order numbers are made dense after a reordering: as the
/// caller asks, and as the configuration says where the caller does not
/// ask.
pub open spec fn compacts(asked: Option<bool>, configured: bool) -> bool {
    match asked {
        Some(b) => b,
        None => configured,
    }
}

/// What a change of priority gives: the store after it, the issue as it was
/// found and as it is after the change, and whether the order numbers of
/// its status have been made dense.
pub struct PriorityView {
    pub store: StoreView,
    pub found: IssueView,
    pub now: IssueView,
    pub compacted: bool,
}

impl StoreView {
    /// What a change of priority gives. The issue is the one that the
    /// partial identifier finds; it is put at the place that the position
    /// names; then the order numbers of its status are made dense if that
    /// is asked for.
    pub open spec fn prioritized(
        self,
        id: Seq<char>,
        position: Seq<char>,
        other: Option<Seq<char>>,
        compact: Option<bool>,
    ) -> Result<PriorityView, ErrorView> {
        match self.find(id) {
            Err(e) => Err(e),
            Ok(found) => match self.reordered(found, position, other) {
                Err(e) => Err(e),
                Ok((after, now)) => if compacts(compact, self.config.auto_compact) {
                    match after.compacted(found.status) {
                        Err(e) => Err(e),
                        Ok(dense) => Ok(
                            PriorityView { store: dense, found, now, compacted: true },
                        ),
                    }
                } else {
                    Ok(PriorityView { store: after, found, now, compacted: false })
                },
            },
        }
    }
}

/// What the caller does after a change of priority: it renames the file at
/// the path of `found` to the path of `now`, and then the files that the
/// compaction names, in their order.
pub struct PriorityChange {
    pub found: Issue,
    pub now: Issue,
    pub compaction: Option<Vec<Rename>>,
}

impl Store {
    /// Changes the priority of the issue that a partial identifier finds.
    /// Where the compaction fails, the reordering stays.
    pub fn set_priority(
        &mut self,
        id: &str,
        position: &str,
        other_id: Option<&str>,
        compact: Option<bool>,
    ) -> (r: Result<PriorityChange, MothError>)
        requires
            old(self).wf(),
        ensures
            final(self).wf(),
            match old(self)@.prioritized(id@, position@, text_of(other_id), compact) {
                Ok(change) => {
                    &&& r matches Ok(done)
                    &&& final(self)@ == change.store
                    &&& done.found@ == change.found
                    &&& done.now@ == change.now
                    &&& done.compaction is Some == change.compacted
                    &&& done.compaction matches Some(steps) ==> {
                        let after = old(self)@.reordered(
                            change.found,
                            position@,
                            text_of(other_id),
                        )->Ok_0.0;
                        let i = after.config.status_index(change.found.status);
                        rename_views(steps@) == crate::model::renames(after.lists[i], after.dir(i))
                    }
                },
                Err(e) => {
                    &&& r matches Err(err)
                    &&& err@ == e
                    &&& match old(self)@.find(id@) {
                        Err(_) => final(self)@ == old(self)@,
                        Ok(found) => match old(self)@.reordered(
                            found,
                            position@,
                            text_of(other_id),
                        ) {
                            Err(_) => final(self)@ == old(self)@,
                            Ok((after, _)) => final(self)@ == after,
                        },
                    }
                },
            },
    {
        let found = match self.find(id) {
            Err(e) => {
                return Err(e);
            },
            Ok(found) => found,
        };
        let now = match self.reorder(&found, position, other_id) {
            Err(e) => {
                return Err(e);
            },
            Ok(now) => now,
        };
        let wanted = match compact {
            Some(b) => b,
            None => self.config().priority.auto_compact,
        };
        if wanted {
            match self.compact_status(found.status.as_str()) {
                Err(e) => Err(e),
                Ok(steps) => Ok(PriorityChange { found, now, compaction: Some(steps) }),
            }
        } else {
            Ok(PriorityChange { found, now, compaction: None })
        }
    }
}

/// Whether the file that names the current issue names this one: its
/// content, without the white space at its ends, is the identifier.
pub fn names_issue(content: &str, id: &str) -> (r: bool)
    ensures
        r == (stripped(content@) == id@),
{
    same_chars(&strip(&chars_of(content)), &chars_of(id))
}

/// Whether the editor opens after an issue has been created: unless the
/// caller or the configuration says no.
pub fn opens_editor(skip_editor: bool, no_edit: bool) -> (r: bool)
    ensures
        r == (!skip_editor && !no_edit),
{
    !skip_editor && !no_edit
}

/// What the flags of the priority command ask for: compaction where the
/// first is set, none where only the second is, and else nothing.
pub fn compaction_asked(compact: bool, no_compact: bool) -> (r: Option<bool>)
    ensures
        r == (if compact {
            Some(true)
        } else if no_compact {
            Some(false)
        } else {
            None::<bool>
        }),
{
    if compact {
        Some(true)
    } else if no_compact {
        Some(false)
    } else {
        None
    }
}

/// A name without the `.md` at its end, as often as it stands there.
pub open spec fn without_md(name: Seq<char>) -> Seq<char>
    decreases name.len(),
{
    if crate::report::has_md_suffix(name) {
        without_md(name.take(name.len() - 3))
    } else {
        name
    }
}

/// The identifier in the name of an issue file, read quickly: the name
/// must end in `.md`; without that ending, cut at its hyphens, it must have
/// three segments or more; the identifier is the second segment where the
/// first reads as a number, and else the first.
pub open spec fn quick_id(name: Seq<char>) -> Option<Seq<char>> {
    if !crate::report::has_md_suffix(name) {
        None
    } else {
        let parts = split(without_md(name), '-');
        if parts.len() < 3 {
            None
        } else if parse_u32(parts[0]) is Some {
            Some(parts[1])
        } else {
            Some(parts[0])
        }
    }
}

/// Reads the identifier in the name of an issue file, quickly.
pub fn id_in_name(name: &str) -> (r: Option<String>)
    ensures
        match r {
            Some(id) => quick_id(name@) == Some(id@),
            None => quick_id(name@) is None,
        },
{
    let chars = chars_of(name);
    let mut n: usize = chars.len();
    proof {
        assert(chars@.take(n as int) == chars@);
    }
    if !ends_in_md(&chars, n) {
        return None;
    }
    while ends_in_md(&chars, n)
        invariant
            n <= chars.len(),
            without_md(chars@) == without_md(chars@.take(n as int)),
        decreases n,
    {
        proof {
            assert(chars@.take(n as int).take(n - 3) == chars@.take(n - 3));
        }
        n -= 3;
    }
    let stem = slice_chars(&chars, 0, n);
    assert(stem@ == chars@.take(n as int));
    let parts = split_chars(&stem, '-');
    proof {
        lemma_split_nonempty(stem@, '-');
    }
    if parts.len() < 3 {
        return None;
    }
    assert(pieces(parts@)[0] == parts@[0]@);
    assert(pieces(parts@)[1] == parts@[1]@);
    if read_u32(&parts[0]).is_some() {
        Some(string_of(&parts[1]))
    } else {
        Some(string_of(&parts[0]))
    }
}

fn ends_in_md(chars: &Vec<char>, n: usize) -> (r: bool)
    requires
        n <= chars.len(),
    ensures
        r == crate::report::has_md_suffix(chars@.take(n as int)),
{
    if n < 3 {
        return false;
    }
    proof {
        let head = chars@.take(n as int);
        let tail = head.skip(n - 3);
        assert(tail[0] == chars@[n - 3]);
        assert(tail[1] == chars@[n - 2]);
        assert(tail[2] == chars@[n - 1]);
        if chars@[n - 3] == '.' && chars@[n - 2] == 'm' && chars@[n - 1] == 'd' {
            assert(tail == seq!['.', 'm', 'd']);
        }
    }
    chars[n - 3] == '.' && chars[n - 2] == 'm' && chars[n - 1] == 'd'
}

/// The texts of a sorted list without those that repeat their neighbour.
pub open spec fn without_repeats(s: Seq<Seq<char>>) -> Seq<Seq<char>>
    decreases s.len(),
{
    if s.len() == 0 {
        s
    } else {
        let before = without_repeats(s.drop_last());
        if s.len() >= 2 && s[s.len() - 2] == s.last() {
            before
        } else {
            before.push(s.last())
        }
    }
}

/// The identifiers in the names of issue files, sorted, each once.
pub open spec fn quick_ids(names: Seq<Seq<char>>) -> Seq<Seq<char>> {
    without_repeats(sorted_texts(ids_in(names)))
}

/// The identifiers in the names of issue files, in the order of the names.
pub open spec fn ids_in(names: Seq<Seq<char>>) -> Seq<Seq<char>>
    decreases names.len(),
{
    if names.len() == 0 {
        names
    } else {
        match quick_id(names.last()) {
            Some(id) => ids_in(names.drop_last()).push(id),
            None => ids_in(names.drop_last()),
        }
    }
}

/// The identifiers of the issue files among the names, sorted, each once.
pub fn story_ids(names: &Vec<String>) -> (r: Vec<String>)
    ensures
        texts(r@) == quick_ids(texts(names@)),
{
    let mut sorted: Vec<String> = Vec::new();
    let mut i: usize = 0;
    let ghost all = texts(names@);
    proof {
        assert(all.take(0) == Seq::<Seq<char>>::empty());
        assert(texts(sorted@) == Seq::<Seq<char>>::empty());
    }
    while i < names.len()
        invariant
            i <= names.len(),
            all == texts(names@),
            texts(sorted@) == sorted_texts(ids_in(all.take(i as int))),
        decreases names.len() - i,
    {
        proof {
            assert(all.take(i + 1).drop_last() == all.take(i as int));
            assert(all.take(i + 1).last() == names@[i as int]@);
        }
        match id_in_name(names[i].as_str()) {
            Some(id) => {
                proof {
                    let ids = ids_in(all.take(i + 1));
                    assert(ids.drop_last() == ids_in(all.take(i as int)));
                    assert(ids.last() == id@);
                }
                insert_text(&mut sorted, id);
            },
            None => {},
        }
        i += 1;
    }
    proof {
        assert(all.take(names.len() as int) == all);
    }
    let mut r: Vec<String> = Vec::new();
    let mut k: usize = 0;
    let ghost s = texts(sorted@);
    proof {
        assert(s.take(0) == Seq::<Seq<char>>::empty());
        assert(texts(r@) == Seq::<Seq<char>>::empty());
    }
    while k < sorted.len()
        invariant
            k <= sorted.len(),
            s == texts(sorted@),
            texts(r@) == without_repeats(s.take(k as int)),
        decreases sorted.len() - k,
    {
        proof {
            let next = s.take(k + 1);
            assert(next.drop_last() == s.take(k as int));
            assert(next.last() == sorted@[k as int]@);
            if k > 0 {
                assert(next[next.len() - 2] == sorted@[k - 1]@);
            }
        }
        let repeats = k > 0 && crate::text::same_text(sorted[k - 1].as_str(), sorted[k].as_str());
        if !repeats {
            let ghost before = r@;
            r.push(sorted[k].clone());
            proof {
                assert(texts(r@) == texts(before).push(sorted@[k as int]@));
            }
        }
        k += 1;
    }
    proof {
        assert(s.take(sorted.len() as int) == s);
    }
    r
}

} // verus!
