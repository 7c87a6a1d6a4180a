//! What holds of the store whatever its issues are.

use crate::codec::{is_slug, is_valid_id};
use crate::issue::IssueView;
use crate::model::{listing, lowest_order, matching, place_of, renumbered, StoreView};
use crate::order::{comes_before, insert_place, insert_sorted, lemma_insert_place};
use crate::severity::Severity;
use crate::store::{lemma_listing, lemma_place_of, lemma_plain_texts};
use crate::text::is_prefix;
use vstd::prelude::*;

verus! {

/// Encoding an order, an identifier, a severity and a slug and decoding the
/// file name gives the four back: for every identifier and slug of the
/// tracker's make, with any order number or none.
pub proof fn law_codec_round_trip(f: crate::codec::Fields)
    requires
        is_valid_id(f.id),
        is_slug(f.slug),
    ensures
        crate::codec::decode(crate::codec::encode(f)) == Ok::<
            crate::codec::Fields,
            crate::error::ErrorView,
        >(f),
{
    crate::codec::lemma_valid_is_encodable(f);
    crate::codec::lemma_decode_encode(f);
}

/// In the listing of a status directory, an issue with an order number
/// never comes right after one without, and of two neighbours with order
/// numbers the second has not the lower one.
pub proof fn law_listing_order(names: Seq<Seq<char>>, dir: Seq<char>, status: Seq<char>, i: int)
    requires
        0 <= i,
        i + 1 < listing(names, dir, status).len(),
    ensures
        listing(names, dir, status)[i].order is None ==> listing(names, dir, status)[i
            + 1].order is None,
        listing(names, dir, status)[i].order is Some && listing(names, dir, status)[i
            + 1].order is Some ==> listing(names, dir, status)[i].order->0 <= listing(
            names,
            dir,
            status,
        )[i + 1].order->0,
{
    lemma_listing(names, dir, status);
    let l = listing(names, dir, status);
    assert(crate::order::rank_le(l[i].order, l[i + 1].order));
}

/// In the listing of a status directory, of two issues without an order
/// number the later one has not the more urgent severity, and where the two
/// have the same severity, its slug does not come before the slug of the
/// earlier one.
pub proof fn law_listing_by_severity_and_slug(
    names: Seq<Seq<char>>,
    dir: Seq<char>,
    status: Seq<char>,
    i: int,
    j: int,
)
    requires
        0 <= i < j < listing(names, dir, status).len(),
        listing(names, dir, status)[i].order is None,
        listing(names, dir, status)[j].order is None,
    ensures
        listing(names, dir, status)[i].severity.rank() <= listing(
            names,
            dir,
            status,
        )[j].severity.rank(),
        listing(names, dir, status)[i].severity == listing(names, dir, status)[j].severity
            ==> !crate::order::text_before(
            listing(names, dir, status)[j].slug,
            listing(names, dir, status)[i].slug,
        ),
{
    lemma_listing(names, dir, status);
    let l = listing(names, dir, status);
    assert(!comes_before(l[j], l[i]));
}

/// In every listing of a store the same holds: an issue with an order
/// number never comes right after one without, and of two neighbours with
/// order numbers the second has not the lower one.
pub proof fn law_store_order(s: StoreView, status: int, i: int)
    requires
        s.wf(),
        0 <= status < s.lists.len(),
        0 <= i,
        i + 1 < s.lists[status].len(),
    ensures
        s.lists[status][i].order is None ==> s.lists[status][i + 1].order is None,
        s.lists[status][i].order is Some && s.lists[status][i + 1].order is Some
            ==> s.lists[status][i].order->0 <= s.lists[status][i + 1].order->0,
{
    let l = s.lists[status];
    assert(crate::order::in_order(l));
    assert(crate::order::rank_le(l[i].order, l[i + 1].order));
}

/// Making the order numbers of a status dense a second time changes
/// nothing.
pub proof fn law_compact_twice(s: StoreView, status: Seq<char>)
    requires
        s.wf(),
    ensures
        s.compacted(status) matches Ok(once) ==> once.compacted(status) == Ok::<
            StoreView,
            crate::error::ErrorView,
        >(once),
{
    if let Ok(once) = s.compacted(status) {
        let i = s.config.status_index(status);
        crate::config::lemma_index_of_status(s.config.statuses, status);
        let list = s.lists[i];
        let dir = s.dir(i);
        let first = renumbered(list, dir);
        crate::priority::lemma_renumbered(list, dir, s.config.statuses[i].name);
        let second = renumbered(first, dir);
        assert(second == first) by {
            assert forall|k: int| 0 <= k < first.len() implies second[k] == first[k] by {}
        }
        assert(once.lists[i] == first);
        assert(once.lists.update(i, first) == once.lists);
    }
}

/// A move into a status that is not prioritized gives an issue without an
/// order number, and a move into a prioritized status leaves the order
/// number of the issue as it was.
pub proof fn law_move_order(s: StoreView, issue: IssueView, target: Seq<char>)
    requires
        s.wf(),
    ensures
        s.moved(issue, target) matches Ok((_, now)) ==> {
            let t = s.config.status_index(target);
            let from = s.locate(issue)->0;
            &&& !s.config.statuses[t].prioritized ==> now.order is None
            &&& s.config.statuses[t].prioritized ==> now.order == s.lists[from.0][from.1].order
            &&& now.id == s.lists[from.0][from.1].id
            &&& now.severity == s.lists[from.0][from.1].severity
            &&& now.slug == s.lists[from.0][from.1].slug
            &&& now.status == target
        },
{
    crate::config::lemma_index_of_status(s.config.statuses, target);
}

/// The lowest order number of a listing is the order number of one of its
/// issues and not above that of any.
pub proof fn lemma_lowest_order(list: Seq<IssueView>)
    ensures
        match lowest_order(list) {
            Some(low) => forall|j: int|
                0 <= j < list.len() && (#[trigger] list[j]).order is Some ==> low
                    <= list[j].order->0,
            None => forall|j: int| 0 <= j < list.len() ==> (#[trigger] list[j]).order is None,
        },
    decreases list.len(),
{
    if list.len() > 0 {
        lemma_lowest_order(list.drop_last());
        match lowest_order(list) {
            Some(low) => {
                assert forall|j: int|
                    0 <= j < list.len() && (#[trigger] list[j]).order is Some implies low
                    <= list[j].order->0 by {
                    if j < list.len() - 1 {
                        assert(list.drop_last()[j] == list[j]);
                    }
                }
            },
            None => {
                assert forall|j: int| 0 <= j < list.len() implies (
                #[trigger] list[j]).order is None by {
                    if j < list.len() - 1 {
                        assert(list.drop_last()[j] == list[j]);
                    }
                }
            },
        }
    }
}

/// An issue that is put at the top is listed first in its status, where no
/// other issue of the status has an order number below two.
pub proof fn law_top_is_first(s: StoreView, issue: IssueView, other: Option<Seq<char>>)
    requires
        s.wf(),
        s.reordered(issue, seq!['t', 'o', 'p'], other) is Ok,
        forall|j: int|
            0 <= j < s.list_of(issue.status).len() && j != place_of(
                s.list_of(issue.status),
                issue.path,
            ) && (#[trigger] s.list_of(issue.status)[j]).order is Some ==> s.list_of(
                issue.status,
            )[j].order->0 >= 2,
    ensures
        ({
            let (after, now) = s.reordered(issue, seq!['t', 'o', 'p'], other)->Ok_0;
            &&& now.order is Some
            &&& after.list_of(issue.status).len() >= 1
            &&& after.list_of(issue.status)[0] == now
        }),
{
    let top = seq!['t', 'o', 'p'];
    let i = s.config.status_index(issue.status);
    crate::config::lemma_index_of_status(s.config.statuses, issue.status);
    let list = s.lists[i];
    assert(s.list_of(issue.status) == list);
    assert(top[0] == 't');
    assert(crate::model::place_named(top, other) == Ok::<
        crate::model::Place,
        crate::error::ErrorView,
    >(crate::model::Place::Top));
    let k = place_of(list, issue.path);
    lemma_place_of(list, issue.path);
    lemma_lowest_order(list);
    let (after, now) = s.reordered(issue, top, other)->Ok_0;
    let rec = list[k];
    let dir = s.dir(i);
    let status = s.config.statuses[i].name;
    assert(crate::model::backed(rec, status));
    crate::paths::lemma_backed_fields(rec, status);
    let n = now.order->0;
    crate::paths::lemma_renamed_is_backed(rec, Some(n), dir);
    let gone = list.remove(k);
    assert(crate::issue::issue_at(now.path, now.status) == Some(now));
    assert forall|j: int| 0 <= j < gone.len() implies comes_before(now, #[trigger] gone[j]) by {
        let from = if j < k {
            j
        } else {
            j + 1
        };
        assert(gone[j] == list[from]);
        if list[from].order is Some {
            assert(list[from].order->0 >= 2);
        }
    }
    lemma_insert_place(gone, now);
    if insert_place(gone, now) > 0 {
        assert(comes_before(now, gone[insert_place(gone, now) - 1]));
    }
    assert(insert_sorted(gone, now)[0] == now);
    assert(after.lists[i] == insert_sorted(gone, now));
}

/// No issue matches where no identifier starts with the prefix.
pub proof fn lemma_matching_none(s: Seq<IssueView>, prefix: Seq<char>)
    requires
        forall|j: int| 0 <= j < s.len() ==> !is_prefix(prefix, (#[trigger] s[j]).id),
    ensures
        matching(s, prefix) == Seq::<IssueView>::empty(),
    decreases s.len(),
{
    if s.len() > 0 {
        assert forall|j: int| 0 <= j < s.drop_last().len() implies !is_prefix(
            prefix,
            (#[trigger] s.drop_last()[j]).id,
        ) by {
            assert(s.drop_last()[j] == s[j]);
        }
        lemma_matching_none(s.drop_last(), prefix);
        assert(!is_prefix(prefix, s[s.len() - 1].id));
    }
}

/// The matches of two lists put together are the matches of the first,
/// then those of the second.
pub proof fn lemma_matching_concat(a: Seq<IssueView>, b: Seq<IssueView>, prefix: Seq<char>)
    ensures
        matching(a + b, prefix) == matching(a, prefix) + matching(b, prefix),
    decreases b.len(),
{
    if b.len() == 0 {
        assert(a + b == a);
        assert(matching(a, prefix) + matching(b, prefix) == matching(a, prefix));
    } else {
        lemma_matching_concat(a, b.drop_last(), prefix);
        assert((a + b).drop_last() == a + b.drop_last());
        assert((a + b).last() == b.last());
        if is_prefix(prefix, b.last().id) {
            assert((matching(a, prefix) + matching(b.drop_last(), prefix)).push(b.last())
                == matching(a, prefix) + matching(b.drop_last(), prefix).push(b.last()));
        }
    }
}

/// Each issue that matches is one of the issues searched, and its
/// identifier starts with the prefix.
pub proof fn lemma_matching_members(s: Seq<IssueView>, prefix: Seq<char>)
    ensures
        forall|j: int|
            0 <= j < matching(s, prefix).len() ==> s.contains(#[trigger] matching(s, prefix)[j])
                && is_prefix(prefix, matching(s, prefix)[j].id),
    decreases s.len(),
{
    if s.len() > 0 {
        lemma_matching_members(s.drop_last(), prefix);
        let before = matching(s.drop_last(), prefix);
        let m = matching(s, prefix);
        assert forall|j: int| 0 <= j < m.len() implies s.contains(#[trigger] m[j]) && is_prefix(
            prefix,
            m[j].id,
        ) by {
            if j < before.len() {
                assert(m[j] == before[j]);
                assert(s.drop_last().contains(before[j]));
                let i = choose|i: int| 0 <= i < s.drop_last().len() && s.drop_last()[i] == before[j];
                assert(s[i] == m[j]);
            } else {
                assert(m[j] == s[s.len() - 1]);
            }
        }
    }
}

/// Each issue among the issues of the first `k` statuses stands in the
/// listing of the first status of one of their names.
pub proof fn lemma_upto_members(s: StoreView, k: int, x: IssueView)
    requires
        s.issues_upto(k).contains(x),
    ensures
        exists|j: int| 0 <= j < k && #[trigger] s.list_of(s.config.statuses[j].name).contains(x),
    decreases k,
{
    if k > 0 {
        let before = s.issues_upto(k - 1);
        let list = s.list_of(s.config.statuses[k - 1].name);
        let i = choose|i: int| 0 <= i < s.issues_upto(k).len() && s.issues_upto(k)[i] == x;
        if i < before.len() {
            assert(before[i] == x);
            lemma_upto_members(s, k - 1, x);
            let j = choose|j: int|
                0 <= j < k - 1 && #[trigger] s.list_of(s.config.statuses[j].name).contains(x);
            assert(s.list_of(s.config.statuses[j].name).contains(x));
        } else {
            assert(list[i - before.len()] == x);
            assert(s.list_of(s.config.statuses[k - 1].name).contains(x));
        }
    }
}

/// An issue in the listing of the first status of a name is found again by
/// its status and its path.
pub proof fn lemma_member_is_held(s: StoreView, name: Seq<char>, x: IssueView)
    requires
        s.wf(),
        s.list_of(name).contains(x),
    ensures
        s.locate(x) matches Some((i, k)) && 0 <= i < s.lists.len() && 0 <= k < s.lists[i].len()
            && s.lists[i][k] == x,
{
    let i = s.config.status_index(name);
    crate::config::lemma_index_of_status(s.config.statuses, name);
    let list = s.lists[i];
    let p = choose|p: int| 0 <= p < list.len() && list[p] == x;
    assert(crate::model::backed(list[p], s.config.statuses[i].name));
    assert(x.status == name);
    lemma_place_of(list, x.path);
    let k = place_of(list, x.path);
    assert(list[p].path == x.path);
    assert(crate::model::backed(list[k], s.config.statuses[i].name));
}

/// The issue that a partial identifier finds is one that the store holds:
/// its identifier starts with the partial one, and it stands in the listing
/// of its status at the place where its status and path find it.
pub proof fn law_found_is_held(s: StoreView, prefix: Seq<char>)
    requires
        s.wf(),
    ensures
        s.find(prefix) matches Ok(x) ==> {
            &&& is_prefix(prefix, x.id)
            &&& s.locate(x) matches Some((i, k))
            &&& 0 <= i < s.lists.len()
            &&& 0 <= k < s.lists[i].len()
            &&& s.lists[i][k] == x
        },
{
    if let Ok(x) = s.find(prefix) {
        let all = s.all_issues();
        lemma_matching_members(all, prefix);
        assert(all.contains(matching(all, prefix)[0]));
        lemma_upto_members(s, s.config.statuses.len() as int, x);
        let j = choose|j: int|
            0 <= j < s.config.statuses.len() && #[trigger] s.list_of(
                s.config.statuses[j].name,
            ).contains(x);
        lemma_member_is_held(s, s.config.statuses[j].name, x);
    }
}

proof fn lemma_created_matches(s: StoreView, x: IssueView, id: Seq<char>, k: int)
    requires
        s.wf(),
        x.id == id,
        1 <= k <= s.config.statuses.len(),
        forall|a: int, b: int|
            0 <= a < s.lists.len() && 0 <= b < s.lists[a].len() ==> !is_prefix(
                id,
                (#[trigger] s.lists[a][b]).id,
            ),
        forall|j: int|
            0 < j < s.config.statuses.len() ==> (#[trigger] s.config.statuses[j]).name
                != s.config.statuses[0].name,
    ensures
        matching(s.with_list(0, insert_sorted(s.lists[0], x)).issues_upto(k), id) == seq![x],
    decreases k,
{
    let after = s.with_list(0, insert_sorted(s.lists[0], x));
    let name = s.config.statuses[k - 1].name;
    crate::config::lemma_index_of_status(s.config.statuses, name);
    let i = s.config.status_index(name);
    assert(s.config.statuses[k - 1].name == name);
    assert(0 <= i <= k - 1);
    if k == 1 {
        assert(i == 0);
        let list = s.lists[0];
        let p = insert_place(list, x);
        lemma_insert_place(list, x);
        let head = list.take(p);
        let tail = list.skip(p);
        assert(insert_sorted(list, x) == head + seq![x] + tail);
        assert forall|j: int| 0 <= j < head.len() implies !is_prefix(id, (#[trigger] head[j]).id) by {
            assert(head[j] == list[j]);
        }
        assert forall|j: int| 0 <= j < tail.len() implies !is_prefix(id, (#[trigger] tail[j]).id) by {
            assert(tail[j] == list[p + j]);
        }
        lemma_matching_none(head, id);
        lemma_matching_none(tail, id);
        lemma_matching_concat(head + seq![x], tail, id);
        lemma_matching_concat(head, seq![x], id);
        assert(seq![x].drop_last() == Seq::<IssueView>::empty());
        assert(is_prefix(id, x.id)) by {
            assert(x.id.take(id.len() as int) == id);
        }
        assert(matching(Seq::<IssueView>::empty(), id) == Seq::<IssueView>::empty());
        assert(seq![x].last() == x);
        assert(Seq::<IssueView>::empty().push(x) == seq![x]);
        assert(matching(seq![x], id) == seq![x]);
        assert(after.issues_upto(0) == Seq::<IssueView>::empty());
        assert(after.issues_upto(1) == Seq::<IssueView>::empty() + after.lists[0]);
        assert(Seq::<IssueView>::empty() + after.lists[0] == after.lists[0]);
        assert(Seq::<IssueView>::empty() + seq![x] + Seq::<IssueView>::empty() == seq![x]);
    } else {
        lemma_created_matches(s, x, id, k - 1);
        assert(i != 0) by {
            if i == 0 {
                assert(s.config.statuses[k - 1].name != s.config.statuses[0].name);
            }
        }
        let list = after.lists[i];
        assert(list == s.lists[i]);
        assert forall|j: int| 0 <= j < list.len() implies !is_prefix(id, (#[trigger] list[j]).id) by {
            assert(list[j] == s.lists[i][j]);
        }
        lemma_matching_none(list, id);
        lemma_matching_concat(after.issues_upto(k - 1), list, id);
        assert(seq![x] + Seq::<IssueView>::empty() == seq![x]);
    }
}

/// An issue that has just been created is the one that its full identifier
/// finds, with the slug that it was created with, in the first status:
/// where no identifier in the store starts with the new one, and the name
/// of the first status is not the name of another.
pub proof fn law_create_then_find(s: StoreView, id: Seq<char>, severity: Severity, slug: Seq<char>)
    requires
        s.wf(),
        is_valid_id(id),
        is_slug(slug),
        forall|a: int, b: int|
            0 <= a < s.lists.len() && 0 <= b < s.lists[a].len() ==> !is_prefix(
                id,
                (#[trigger] s.lists[a][b]).id,
            ),
        forall|j: int|
            0 < j < s.config.statuses.len() ==> (#[trigger] s.config.statuses[j]).name
                != s.config.statuses[0].name,
    ensures
        s.created(id, severity, slug).find(id) == Ok::<IssueView, crate::error::ErrorView>(
            s.new_issue(id, severity, slug),
        ),
        s.new_issue(id, severity, slug).slug == slug,
        s.new_issue(id, severity, slug).status == s.config.statuses[0].name,
        crate::issue::issue_at(
            s.new_issue(id, severity, slug).path,
            s.config.statuses[0].name,
        ) == Some(s.new_issue(id, severity, slug)),
{
    let x = s.new_issue(id, severity, slug);
    lemma_created_matches(s, x, id, s.config.statuses.len() as int);
    lemma_plain_texts(id, slug, '-');
    lemma_plain_texts(id, slug, '/');
    crate::codec::lemma_id_is_no_number(id);
    crate::paths::lemma_renamed_is_backed(x, None, s.dir(0));
    assert(crate::model::with_order(x, None, s.dir(0)) == x);
}

} // verus!
