//! The order in which the issues of a status are listed.
//!
//! Issues with a manual order come first, by ascending order number. The
//! others follow, by severity and then by slug. Issues that this leaves
//! equal keep the order in which they came.

use crate::issue::{Issue, IssueView};
use vstd::prelude::*;

verus! {

/// `a` comes before `b` in the order of the dictionary, character by
/// character.
pub open spec fn text_before(a: Seq<char>, b: Seq<char>) -> bool
    decreases a.len(),
{
    if b.len() == 0 {
        false
    } else if a.len() == 0 {
        true
    } else if a[0] != b[0] {
        (a[0] as int) < (b[0] as int)
    } else {
        text_before(a.skip(1), b.skip(1))
    }
}

pub fn is_text_before(a: &Vec<char>, b: &Vec<char>) -> (r: bool)
    ensures
        r == text_before(a@, b@),
{
    let mut i: usize = 0;
    proof {
        assert(a@.skip(0) == a@);
        assert(b@.skip(0) == b@);
    }
    while i < a.len() && i < b.len() && a[i] == b[i]
        invariant
            i <= a.len(),
            i <= b.len(),
            text_before(a@, b@) == text_before(a@.skip(i as int), b@.skip(i as int)),
        decreases a.len() - i,
    {
        proof {
            assert(a@.skip(i as int)[0] == a@[i as int]);
            assert(b@.skip(i as int)[0] == b@[i as int]);
            assert(a@.skip(i as int).skip(1) == a@.skip(i + 1));
            assert(b@.skip(i as int).skip(1) == b@.skip(i + 1));
        }
        i += 1;
    }
    proof {
        if i < a.len() {
            assert(a@.skip(i as int)[0] == a@[i as int]);
        }
        if i < b.len() {
            assert(b@.skip(i as int)[0] == b@[i as int]);
        }
    }
    if i >= b.len() {
        false
    } else if i >= a.len() {
        true
    } else {
        a[i] < b[i]
    }
}

/// One order number is not behind another: a number is not behind a larger
/// one, and no number is behind the lack of one.
pub open spec fn rank_le(a: Option<u32>, b: Option<u32>) -> bool {
    match (a, b) {
        (Some(x), Some(y)) => x <= y,
        (Some(_), None) => true,
        (None, Some(_)) => false,
        (None, None) => true,
    }
}

/// `a` is listed before `b` whatever order they came in.
pub open spec fn comes_before(a: IssueView, b: IssueView) -> bool {
    match (a.order, b.order) {
        (Some(x), Some(y)) => x < y,
        (Some(_), None) => true,
        (None, Some(_)) => false,
        (None, None) => a.severity.rank() < b.severity.rank() || (a.severity == b.severity
            && text_before(a.slug, b.slug)),
    }
}

/// The place at which `x` enters a listing: behind every issue that does not
/// have to come after it.
pub open spec fn insert_place(s: Seq<IssueView>, x: IssueView) -> int
    decreases s.len(),
{
    if s.len() == 0 {
        0
    } else if comes_before(x, s.last()) {
        insert_place(s.drop_last(), x)
    } else {
        s.len() as int
    }
}

/// The listing with `x` entered at its place.
pub open spec fn insert_sorted(s: Seq<IssueView>, x: IssueView) -> Seq<IssueView> {
    s.insert(insert_place(s, x), x)
}

/// The issues in listing order: each entered in turn into the listing of
/// those that came before it.
pub open spec fn sorted(s: Seq<IssueView>) -> Seq<IssueView>
    decreases s.len(),
{
    if s.len() == 0 {
        s
    } else {
        insert_sorted(sorted(s.drop_last()), s.last())
    }
}

/// A listing in which no issue with an order number comes after one
/// without, and the order numbers do not fall.
pub open spec fn rank_ordered(s: Seq<IssueView>) -> bool {
    forall|i: int, j: int| 0 <= i < j < s.len() ==> rank_le(#[trigger] s[i].order, #[trigger] s[j].order)
}

/// Of two texts that differ, one comes before the other, and never both.
pub proof fn lemma_text_order(a: Seq<char>, b: Seq<char>)
    ensures
        text_before(a, b) ==> !text_before(b, a),
        !text_before(a, b) && !text_before(b, a) ==> a == b,
    decreases a.len(),
{
    if a.len() > 0 && b.len() > 0 && a[0] == b[0] {
        lemma_text_order(a.skip(1), b.skip(1));
        if a.skip(1) == b.skip(1) {
            assert(a == seq![a[0]] + a.skip(1));
            assert(b == seq![b[0]] + b.skip(1));
        }
    } else if a.len() == 0 && b.len() == 0 {
        assert(a == b);
    }
}

/// A text that comes before a second, which comes before a third, comes
/// before the third.
pub proof fn lemma_text_transitive(a: Seq<char>, b: Seq<char>, c: Seq<char>)
    requires
        text_before(a, b),
        text_before(b, c),
    ensures
        text_before(a, c),
    decreases a.len(),
{
    if a.len() > 0 && a[0] == b[0] && b[0] == c[0] {
        lemma_text_transitive(a.skip(1), b.skip(1), c.skip(1));
    }
}

/// Of two issues, not each is listed before the other.
pub proof fn lemma_before_asymmetric(a: IssueView, b: IssueView)
    ensures
        comes_before(a, b) ==> !comes_before(b, a),
{
    lemma_text_order(a.slug, b.slug);
}

/// An issue that need not come after a second, which need not come after a
/// third, need not come after the third.
pub proof fn lemma_before_chain(x: IssueView, a: IssueView, b: IssueView)
    requires
        !comes_before(x, a),
        !comes_before(a, b),
    ensures
        !comes_before(x, b),
{
    if comes_before(x, b) {
        if x.order is None && a.order is None && b.order is None {
            if x.severity == a.severity && a.severity == b.severity {
                lemma_text_order(x.slug, a.slug);
                if text_before(a.slug, x.slug) {
                    lemma_text_transitive(a.slug, x.slug, b.slug);
                }
            }
        }
    }
}

/// A listing in which no issue stands behind one that it is listed before.
pub open spec fn key_sorted(s: Seq<IssueView>) -> bool {
    forall|i: int, j: int| 0 <= i < j < s.len() ==> !comes_before(#[trigger] s[j], #[trigger] s[i])
}

/// A listing in listing order: issues with order numbers first, by rising
/// order number, then the others by severity and slug.
pub open spec fn in_order(s: Seq<IssueView>) -> bool {
    rank_ordered(s) && key_sorted(s)
}

pub proof fn lemma_insert_place(s: Seq<IssueView>, x: IssueView)
    ensures
        0 <= insert_place(s, x) <= s.len(),
        forall|j: int| insert_place(s, x) <= j < s.len() ==> comes_before(x, #[trigger] s[j]),
        insert_place(s, x) > 0 ==> !comes_before(x, s[insert_place(s, x) - 1]),
    decreases s.len(),
{
    if s.len() > 0 && comes_before(x, s.last()) {
        lemma_insert_place(s.drop_last(), x);
        assert forall|j: int| insert_place(s, x) <= j < s.len() implies comes_before(
            x,
            #[trigger] s[j],
        ) by {
            if j < s.len() - 1 {
                assert(s.drop_last()[j] == s[j]);
            }
        }
        if insert_place(s, x) > 0 {
            assert(s.drop_last()[insert_place(s, x) - 1] == s[insert_place(s, x) - 1]);
        }
    }
}

/// Entering an issue keeps a listing in listing order.
pub proof fn lemma_insert_keeps_order(s: Seq<IssueView>, x: IssueView)
    requires
        in_order(s),
    ensures
        in_order(insert_sorted(s, x)),
        insert_sorted(s, x).len() == s.len() + 1,
{
    lemma_insert_place(s, x);
    let k = insert_place(s, x);
    let r = insert_sorted(s, x);
    assert forall|i: int, j: int| 0 <= i < j < r.len() implies !comes_before(
        #[trigger] r[j],
        #[trigger] r[i],
    ) by {
        if j < k {
            assert(r[i] == s[i] && r[j] == s[j]);
        } else if j == k {
            assert(r[j] == x);
            assert(r[i] == s[i]);
            assert(!comes_before(x, s[k - 1]));
            if i < k - 1 {
                assert(!comes_before(s[k - 1], s[i]));
                lemma_before_chain(x, s[k - 1], s[i]);
            }
        } else if i < k {
            assert(r[i] == s[i] && r[j] == s[j - 1]);
        } else if i == k {
            assert(r[i] == x && r[j] == s[j - 1]);
            assert(comes_before(x, s[j - 1]));
            lemma_before_asymmetric(x, s[j - 1]);
        } else {
            assert(r[i] == s[i - 1] && r[j] == s[j - 1]);
        }
    }
    assert forall|i: int, j: int| 0 <= i < j < r.len() implies rank_le(
        #[trigger] r[i].order,
        #[trigger] r[j].order,
    ) by {
        if j < k {
            assert(r[i] == s[i] && r[j] == s[j]);
        } else if j == k {
            assert(r[j] == x);
            assert(r[i] == s[i]);
            assert(!comes_before(x, s[k - 1]));
            if i < k - 1 {
                assert(rank_le(s[i].order, s[k - 1].order));
            }
        } else if i < k {
            assert(r[i] == s[i] && r[j] == s[j - 1]);
        } else if i == k {
            assert(r[i] == x && r[j] == s[j - 1]);
            assert(comes_before(x, s[j - 1]));
        } else {
            assert(r[i] == s[i - 1] && r[j] == s[j - 1]);
        }
    }
}

/// Issues that are entered one by one come out in listing order: an issue
/// with an order number never comes after one without, the order numbers do
/// not fall, and the issues without one stand by severity and slug.
pub proof fn lemma_sorted_is_ordered(s: Seq<IssueView>)
    ensures
        in_order(sorted(s)),
        sorted(s).len() == s.len(),
    decreases s.len(),
{
    if s.len() > 0 {
        lemma_sorted_is_ordered(s.drop_last());
        lemma_insert_keeps_order(sorted(s.drop_last()), s.last());
    }
}

/// Taking an issue out keeps a listing in listing order.
pub proof fn lemma_remove_keeps_order(s: Seq<IssueView>, k: int)
    requires
        in_order(s),
        0 <= k < s.len(),
    ensures
        in_order(s.remove(k)),
{
    let r = s.remove(k);
    assert forall|i: int, j: int| 0 <= i < j < r.len() implies !comes_before(
        #[trigger] r[j],
        #[trigger] r[i],
    ) by {
        let a = if i < k {
            i
        } else {
            i + 1
        };
        let b = if j < k {
            j
        } else {
            j + 1
        };
        assert(r[i] == s[a] && r[j] == s[b]);
    }
    assert forall|i: int, j: int| 0 <= i < j < r.len() implies rank_le(
        #[trigger] r[i].order,
        #[trigger] r[j].order,
    ) by {
        let a = if i < k {
            i
        } else {
            i + 1
        };
        let b = if j < k {
            j
        } else {
            j + 1
        };
        assert(r[i] == s[a] && r[j] == s[b]);
    }
}

/// The issues of a list, each with its texts as character sequences.
pub open spec fn issue_views(v: Seq<Issue>) -> Seq<IssueView> {
    v.map_values(|i: Issue| i@)
}

/// Whether `a` is listed before `b` whatever order they came in.
pub fn is_before(a: &Issue, b: &Issue) -> (r: bool)
    ensures
        r == comes_before(a@, b@),
{
    match (a.order, b.order) {
        (Some(x), Some(y)) => x < y,
        (Some(_), None) => true,
        (None, Some(_)) => false,
        (None, None) => {
            let ra = a.severity.position();
            let rb = b.severity.position();
            if ra < rb {
                true
            } else if ra > rb {
                false
            } else {
                is_text_before(
                    &crate::text::chars_of(a.slug.as_str()),
                    &crate::text::chars_of(b.slug.as_str()),
                )
            }
        },
    }
}

/// Enters an issue into a listing, at its place.
pub fn insert_issue(list: &mut Vec<Issue>, x: Issue)
    ensures
        issue_views(final(list)@) == insert_sorted(issue_views(old(list)@), x@),
{
    let ghost s = issue_views(list@);
    let mut k: usize = list.len();
    proof {
        assert(s.take(k as int) == s);
    }
    while k > 0 && is_before(&x, &list[k - 1])
        invariant
            k <= list.len(),
            list@ == old(list)@,
            s == issue_views(list@),
            insert_place(s, x@) == insert_place(s.take(k as int), x@),
        decreases k,
    {
        proof {
            assert(s.take(k as int).last() == list@[k - 1]@);
            assert(s.take(k as int).drop_last() == s.take(k - 1));
        }
        k -= 1;
    }
    proof {
        if k > 0 {
            assert(s.take(k as int).last() == list@[k - 1]@);
        }
    }
    list.insert(k, x);
    proof {
        assert(issue_views(list@) == s.insert(k as int, x@));
    }
}

} // verus!
