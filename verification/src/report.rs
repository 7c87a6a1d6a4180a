//! The history report: what changed for each story from one commit to the
//! next, as lines of comma-separated values.

use crate::order::text_before;
use crate::prefix::{find_first, first_index};
use crate::text::{chars_of, contains_char, has_char, same_text, slice_chars, string_of};
use vstd::prelude::*;
use vstd::string::*;

verus! {

/// What the file name of a story says, as texts.
#[derive(Debug)]
pub struct StoryKey {
    pub id: String,
    pub severity: String,
    pub slug: String,
}

/// A story as a commit holds it: its key, the status directory it lies in,
/// and its content.
#[derive(Debug)]
pub struct StoryState {
    pub key: StoryKey,
    pub column: String,
    pub content: String,
}

/// What happened to a story.
#[derive(Debug, Clone, Copy, PartialEq, Eq, Structural)]
pub enum ChangeEvent {
    Created,
    Moved,
    Edited,
    Deleted,
    CodeCommit,
}

pub struct KeyView {
    pub id: Seq<char>,
    pub severity: Seq<char>,
    pub slug: Seq<char>,
}

pub struct StateView {
    pub key: KeyView,
    pub column: Seq<char>,
    pub content: Seq<char>,
}

impl View for StoryKey {
    type V = KeyView;

    open spec fn view(&self) -> KeyView {
        KeyView { id: self.id@, severity: self.severity@, slug: self.slug@ }
    }
}

impl View for StoryState {
    type V = StateView;

    open spec fn view(&self) -> StateView {
        StateView { key: self.key@, column: self.column@, content: self.content@ }
    }
}

impl Clone for StoryKey {
    fn clone(&self) -> (r: Self)
        ensures
            r@ == self@,
    {
        StoryKey { id: self.id.clone(), severity: self.severity.clone(), slug: self.slug.clone() }
    }
}

impl Clone for StoryState {
    fn clone(&self) -> (r: Self)
        ensures
            r@ == self@,
    {
        StoryState {
            key: self.key.clone(),
            column: self.column.clone(),
            content: self.content.clone(),
        }
    }
}

impl ChangeEvent {
    /// The word for the event in the report.
    pub open spec fn name(self) -> Seq<char> {
        match self {
            ChangeEvent::Created => "created"@,
            ChangeEvent::Moved => "moved"@,
            ChangeEvent::Edited => "edited"@,
            ChangeEvent::Deleted => "deleted"@,
            ChangeEvent::CodeCommit => "code_commit"@,
        }
    }

    pub fn as_str(&self) -> (r: &'static str)
        ensures
            r@ == self.name(),
    {
        match self {
            ChangeEvent::Created => "created",
            ChangeEvent::Moved => "moved",
            ChangeEvent::Edited => "edited",
            ChangeEvent::Deleted => "deleted",
            ChangeEvent::CodeCommit => "code_commit",
        }
    }
}

/// Whether a text ends in `.md`.
pub open spec fn has_md_suffix(name: Seq<char>) -> bool {
    name.len() >= 3 && name.skip(name.len() - 3) == seq!['.', 'm', 'd']
}

/// What the file name of a story says: the name without `.md`, cut at its
/// first two hyphens into identifier, severity and slug. A name that does
/// not end in `.md` or has fewer than two hyphens says nothing.
pub open spec fn story_key(filename: Seq<char>) -> Option<KeyView> {
    if !has_md_suffix(filename) {
        None
    } else {
        let name = filename.take(filename.len() - 3);
        let a = first_index(name, '-');
        if a >= name.len() {
            None
        } else {
            let rest = name.skip(a + 1);
            let b = first_index(rest, '-');
            if b >= rest.len() {
                None
            } else {
                Some(KeyView { id: name.take(a), severity: rest.take(b), slug: rest.skip(b + 1) })
            }
        }
    }
}

/// Reads the key of a story from its file name.
pub fn parse_story_filename(filename: &str) -> (r: Option<StoryKey>)
    ensures
        match r {
            Some(key) => story_key(filename@) == Some(key@),
            None => story_key(filename@) is None,
        },
{
    let chars = chars_of(filename);
    let n = chars.len();
    if n < 3 || chars[n - 3] != '.' || chars[n - 2] != 'm' || chars[n - 1] != 'd' {
        proof {
            if n >= 3 {
                let tail = chars@.skip(n - 3);
                assert(tail[0] == chars@[n - 3]);
                assert(tail[1] == chars@[n - 2]);
                assert(tail[2] == chars@[n - 1]);
            }
        }
        return None;
    }
    assert(chars@.skip(n - 3) == seq!['.', 'm', 'd']);
    let name = slice_chars(&chars, 0, n - 3);
    assert(name@ == filename@.take(n - 3));
    let a = find_first(&name, '-');
    if a >= name.len() {
        return None;
    }
    let rest = slice_chars(&name, a + 1, name.len());
    assert(rest@ == name@.skip(a + 1));
    let b = find_first(&rest, '-');
    if b >= rest.len() {
        return None;
    }
    let id = slice_chars(&name, 0, a);
    let severity = slice_chars(&rest, 0, b);
    let slug = slice_chars(&rest, b + 1, rest.len());
    proof {
        assert(id@ == name@.take(a as int));
        assert(severity@ == rest@.take(b as int));
        assert(slug@ == rest@.skip(b + 1));
    }
    Some(StoryKey { id: string_of(&id), severity: string_of(&severity), slug: string_of(&slug) })
}

/// Whether the name of a directory entry starts with a dot.
pub fn is_hidden_name(name: &str) -> (r: bool)
    ensures
        r == (name@.len() > 0 && name@[0] == '.'),
{
    let chars = chars_of(name);
    chars.len() > 0 && chars[0] == '.'
}

/// A text with each double quote written twice.
pub open spec fn doubled_quotes(s: Seq<char>) -> Seq<char>
    decreases s.len(),
{
    if s.len() == 0 {
        s
    } else if s.last() == '"' {
        doubled_quotes(s.drop_last()).push('"').push('"')
    } else {
        doubled_quotes(s.drop_last()).push(s.last())
    }
}

/// Whether a field must stand in quotes: it holds a comma, a double quote or
/// a line feed.
pub open spec fn needs_quotes(s: Seq<char>) -> bool {
    has_char(s, ',') || has_char(s, '"') || has_char(s, '\n')
}

/// A field as the report writes it: as it is, or, where it must stand in
/// quotes, between double quotes and with its own double quotes doubled.
pub open spec fn csv_field(s: Seq<char>) -> Seq<char> {
    if needs_quotes(s) {
        seq!['"'] + doubled_quotes(s) + seq!['"']
    } else {
        s
    }
}

/// Writes a field of the report.
pub fn escape_csv(s: &str) -> (r: String)
    ensures
        r@ == csv_field(s@),
{
    let chars = chars_of(s);
    if contains_char(&chars, ',') || contains_char(&chars, '"') || contains_char(&chars, '\n') {
        let mut out: Vec<char> = Vec::new();
        out.push('"');
        let mut i: usize = 0;
        proof {
            assert(chars@.take(0) == Seq::<char>::empty());
            assert(out@ == seq!['"'] + doubled_quotes(chars@.take(0)));
        }
        while i < chars.len()
            invariant
                i <= chars.len(),
                out@ == seq!['"'] + doubled_quotes(chars@.take(i as int)),
            decreases chars.len() - i,
        {
            proof {
                assert(chars@.take(i + 1).drop_last() == chars@.take(i as int));
                assert(chars@.take(i + 1).last() == chars@[i as int]);
            }
            let ghost before = doubled_quotes(chars@.take(i as int));
            if chars[i] == '"' {
                out.push('"');
                out.push('"');
                proof {
                    assert(out@ == seq!['"'] + before.push('"').push('"'));
                }
            } else {
                out.push(chars[i]);
                proof {
                    assert(out@ == seq!['"'] + before.push(chars@[i as int]));
                }
            }
            i += 1;
        }
        proof {
            assert(chars@.take(chars.len() as int) == chars@);
        }
        out.push('"');
        proof {
            assert(out@ == seq!['"'] + doubled_quotes(s@) + seq!['"']);
        }
        string_of(&out)
    } else {
        String::from_str(s)
    }
}

/// The stories of a commit by their identifiers: a list of entries, of
/// which the first with a key counts.
pub struct StoryMap {
    entries: Vec<StoryEntry>,
}

/// An entry of a `StoryMap`.
pub struct StoryEntry {
    pub key: String,
    pub state: StoryState,
}

pub struct EntryView {
    pub key: Seq<char>,
    pub state: StateView,
}

impl View for StoryEntry {
    type V = EntryView;

    open spec fn view(&self) -> EntryView {
        EntryView { key: self.key@, state: self.state@ }
    }
}

pub open spec fn entry_views(v: Seq<StoryEntry>) -> Seq<EntryView> {
    v.map_values(|e: StoryEntry| e@)
}

impl View for StoryMap {
    type V = Seq<EntryView>;

    closed spec fn view(&self) -> Seq<EntryView> {
        entry_views(self.entries@)
    }
}

/// The place of the first entry with a key, or -1.
pub open spec fn key_place(entries: Seq<EntryView>, key: Seq<char>) -> int
    decreases entries.len(),
{
    if entries.len() == 0 {
        -1
    } else {
        let before = key_place(entries.drop_last(), key);
        if before >= 0 {
            before
        } else if entries.last().key == key {
            entries.len() - 1
        } else {
            -1
        }
    }
}

/// The story that a map holds for a key.
pub open spec fn lookup(entries: Seq<EntryView>, key: Seq<char>) -> Option<StateView> {
    if key_place(entries, key) >= 0 {
        Some(entries[key_place(entries, key)].state)
    } else {
        None
    }
}

pub proof fn lemma_key_place(entries: Seq<EntryView>, key: Seq<char>)
    ensures
        -1 <= key_place(entries, key) < entries.len(),
        key_place(entries, key) >= 0 ==> entries[key_place(entries, key)].key == key,
        forall|i: int|
            0 <= i < entries.len() && #[trigger] entries[i].key == key ==> 0 <= key_place(
                entries,
                key,
            ) <= i,
    decreases entries.len(),
{
    if entries.len() > 0 {
        lemma_key_place(entries.drop_last(), key);
        assert forall|i: int| 0 <= i < entries.len() && #[trigger] entries[i].key == key implies 0
            <= key_place(entries, key) <= i by {
            if i < entries.len() - 1 {
                assert(entries.drop_last()[i].key == key);
            }
        }
    }
}

/// The map with a story under a key: in the place of the story that the key
/// had, or behind all others.
pub open spec fn with_entry(entries: Seq<EntryView>, key: Seq<char>, state: StateView) -> Seq<
    EntryView,
> {
    if key_place(entries, key) >= 0 {
        entries.update(key_place(entries, key), EntryView { key, state })
    } else {
        entries.push(EntryView { key, state })
    }
}

/// No two entries have the same key.
pub open spec fn distinct_keys(entries: Seq<EntryView>) -> bool {
    forall|i: int, j: int|
        0 <= i < entries.len() && 0 <= j < entries.len() && i != j ==> (#[trigger] entries[i]).key
            != (#[trigger] entries[j]).key
}

/// A map with distinct keys has distinct keys after a story has been put
/// under a key.
pub proof fn lemma_with_entry_distinct(entries: Seq<EntryView>, key: Seq<char>, state: StateView)
    requires
        distinct_keys(entries),
    ensures
        distinct_keys(with_entry(entries, key, state)),
{
    lemma_key_place(entries, key);
    let after = with_entry(entries, key, state);
    let p = key_place(entries, key);
    assert forall|i: int, j: int|
        0 <= i < after.len() && 0 <= j < after.len() && i != j implies (#[trigger] after[i]).key != (
    #[trigger] after[j]).key by {
        if p >= 0 {
            assert(after[p].key == entries[p].key);
            assert(after[i].key == entries[i].key);
            assert(after[j].key == entries[j].key);
        } else {
            if i < entries.len() && j < entries.len() {
                assert(after[i] == entries[i] && after[j] == entries[j]);
            } else if i < entries.len() {
                assert(after[i] == entries[i]);
                assert(entries[i].key != key);
            } else {
                assert(after[j] == entries[j]);
                assert(entries[j].key != key);
            }
        }
    }
}

impl StoryMap {
    pub fn new() -> (r: StoryMap)
        ensures
            r@ == Seq::<EntryView>::empty(),
            distinct_keys(r@),
    {
        let r = StoryMap { entries: Vec::new() };
        assert(r@ == Seq::<EntryView>::empty());
        r
    }

    /// What holds of every map: no two of its entries have the same key.
    #[verifier::type_invariant]
    spec fn keys_differ(self) -> bool {
        distinct_keys(entry_views(self.entries@))
    }

    /// How many stories the map holds. No two of them have the same key.
    pub fn len(&self) -> (r: usize)
        ensures
            r == self@.len(),
            distinct_keys(self@),
    {
        proof {
            use_type_invariant(self);
        }
        self.entries.len()
    }

    fn place(&self, key: &str) -> (r: Option<usize>)
        ensures
            match r {
                Some(i) => i == key_place(self@, key@) && i < self.entries.len(),
                None => key_place(self@, key@) == -1,
            },
    {
        let ghost s = self@;
        proof {
            lemma_key_place(s, key@);
        }
        let mut i: usize = 0;
        while i < self.entries.len()
            invariant
                i <= self.entries.len(),
                s == entry_views(self.entries@),
                forall|j: int| 0 <= j < i ==> (#[trigger] s[j]).key != key@,
                -1 <= key_place(s, key@) < s.len(),
                key_place(s, key@) >= 0 ==> s[key_place(s, key@)].key == key@,
                forall|k: int|
                    0 <= k < s.len() && #[trigger] s[k].key == key@ ==> 0 <= key_place(s, key@)
                        <= k,
            decreases self.entries.len() - i,
        {
            assert(s[i as int] == self.entries@[i as int]@);
            if same_text(self.entries[i].key.as_str(), key) {
                proof {
                    let found = key_place(s, key@);
                    assert(s[i as int].key == key@);
                    assert(0 <= found <= i);
                    if found < i {
                        assert(s[found].key != key@);
                    }
                }
                return Some(i);
            }
            i += 1;
        }
        None
    }

    /// The story under a key.
    pub fn get(&self, key: &str) -> (r: Option<&StoryState>)
        ensures
            match r {
                Some(state) => lookup(self@, key@) == Some(state@),
                None => lookup(self@, key@) is None,
            },
    {
        match self.place(key) {
            Some(i) => {
                assert(self@[i as int] == self.entries@[i as int]@);
                Some(&self.entries[i].state)
            },
            None => None,
        }
    }

    pub fn contains_key(&self, key: &str) -> (r: bool)
        ensures
            r == lookup(self@, key@) is Some,
    {
        self.place(key).is_some()
    }

    /// Puts a story under a key, in the place of the story that the key had
    /// before, if it had one. The keys of the map stay distinct.
    pub fn insert(&mut self, key: String, state: StoryState)
        ensures
            final(self)@ == with_entry(old(self)@, key@, state@),
            distinct_keys(final(self)@),
    {
        let ghost view = EntryView { key: key@, state: state@ };
        let found = self.place(key.as_str());
        proof {
            use_type_invariant(&*self);
            lemma_with_entry_distinct(self@, key@, state@);
        }
        let mut entries: Vec<StoryEntry> = Vec::new();
        std::mem::swap(&mut entries, &mut self.entries);
        let ghost before = entries@;
        match found {
            Some(i) => {
                entries.set(i, StoryEntry { key, state });
                proof {
                    assert(entry_views(entries@) == entry_views(before).update(i as int, view)) by {
                        let a = entry_views(entries@);
                        let b = entry_views(before).update(i as int, view);
                        assert(a.len() == b.len());
                        assert forall|k: int| 0 <= k < a.len() implies a[k] == b[k] by {
                            if k != i {
                                assert(entries@[k] == before[k]);
                            }
                        }
                    }
                }
            },
            None => {
                entries.push(StoryEntry { key, state });
                proof {
                    assert(entry_views(entries@) == entry_views(before).push(view));
                }
            },
        }
        self.entries = entries;
    }

    /// The entry at a place.
    pub fn entry(&self, i: usize) -> (r: &StoryEntry)
        requires
            i < self@.len(),
        ensures
            r@ == self@[i as int],
    {
        assert(self@[i as int] == self.entries@[i as int]@);
        &self.entries[i]
    }
}

/// A change of a story: its identifier, what happened, and the story as
/// the commit has it, or had it where the story is gone.
#[derive(Debug)]
pub struct Change {
    pub id: String,
    pub event: ChangeEvent,
    pub story: StoryState,
}

pub struct ChangeView {
    pub id: Seq<char>,
    pub event: ChangeEvent,
    pub story: StateView,
}

impl View for Change {
    type V = ChangeView;

    open spec fn view(&self) -> ChangeView {
        ChangeView { id: self.id@, event: self.event, story: self.story@ }
    }
}

pub open spec fn change_views(v: Seq<Change>) -> Seq<ChangeView> {
    v.map_values(|c: Change| c@)
}

/// The place at which a change enters a list sorted by identifier: behind
/// every change whose identifier does not come after its own.
pub open spec fn change_place(s: Seq<ChangeView>, x: ChangeView) -> int
    decreases s.len(),
{
    if s.len() == 0 {
        0
    } else if text_before(x.id, s.last().id) {
        change_place(s.drop_last(), x)
    } else {
        s.len() as int
    }
}

pub open spec fn with_change(s: Seq<ChangeView>, x: ChangeView) -> Seq<ChangeView> {
    s.insert(change_place(s, x), x)
}

/// What happened to a story that the new commit holds: it was created if
/// the old commit did not hold it, moved if its column differs, edited if
/// its severity, slug or content differs, and nothing else.
pub open spec fn event_for(old_state: Option<StateView>, new_state: StateView) -> Option<
    ChangeEvent,
> {
    match old_state {
        None => Some(ChangeEvent::Created),
        Some(p) => if p.column != new_state.column {
            Some(ChangeEvent::Moved)
        } else if p.key.severity != new_state.key.severity || p.key.slug != new_state.key.slug
            || p.content != new_state.content {
            Some(ChangeEvent::Edited)
        } else {
            None
        },
    }
}

/// The changes of the first `n` stories of the new commit, sorted by
/// identifier.
pub open spec fn changes_upto(prev: Seq<EntryView>, current: Seq<EntryView>, n: int) -> Seq<
    ChangeView,
>
    decreases n,
{
    if n <= 0 {
        Seq::empty()
    } else {
        let before = changes_upto(prev, current, n - 1);
        let e = current[n - 1];
        match event_for(lookup(prev, e.key), e.state) {
            Some(event) => with_change(before, ChangeView { id: e.key, event, story: e.state }),
            None => before,
        }
    }
}

/// The changes from one commit to the next, sorted by identifier: those of
/// the stories of the new commit, and a deletion for each of the first `n`
/// stories of the old commit that the new one does not hold.
pub open spec fn changes_with_deleted(prev: Seq<EntryView>, current: Seq<EntryView>, n: int)
    -> Seq<ChangeView>
    decreases n,
{
    if n <= 0 {
        changes_upto(prev, current, current.len() as int)
    } else {
        let before = changes_with_deleted(prev, current, n - 1);
        let e = prev[n - 1];
        if lookup(current, e.key) is None {
            with_change(before, ChangeView { id: e.key, event: ChangeEvent::Deleted, story: e.state })
        } else {
            before
        }
    }
}

/// The changes from one commit to the next, sorted by identifier.
pub open spec fn changes(prev: Seq<EntryView>, current: Seq<EntryView>) -> Seq<ChangeView> {
    changes_with_deleted(prev, current, prev.len() as int)
}

/// A list of changes in which no change stands behind one whose identifier
/// comes after its own.
pub open spec fn sorted_by_id(s: Seq<ChangeView>) -> bool {
    forall|i: int, j: int| 0 <= i < j < s.len() ==> !text_before(#[trigger] s[j].id, #[trigger] s[i].id)
}

proof fn lemma_change_place(s: Seq<ChangeView>, x: ChangeView)
    ensures
        0 <= change_place(s, x) <= s.len(),
        forall|j: int| change_place(s, x) <= j < s.len() ==> text_before(x.id, (#[trigger] s[j]).id),
        change_place(s, x) > 0 ==> !text_before(x.id, s[change_place(s, x) - 1].id),
    decreases s.len(),
{
    if s.len() > 0 && text_before(x.id, s.last().id) {
        lemma_change_place(s.drop_last(), x);
        assert forall|j: int| change_place(s, x) <= j < s.len() implies text_before(
            x.id,
            (#[trigger] s[j]).id,
        ) by {
            if j < s.len() - 1 {
                assert(s.drop_last()[j] == s[j]);
            }
        }
        if change_place(s, x) > 0 {
            assert(s.drop_last()[change_place(s, x) - 1] == s[change_place(s, x) - 1]);
        }
    }
}

proof fn lemma_with_change_sorted(s: Seq<ChangeView>, x: ChangeView)
    requires
        sorted_by_id(s),
    ensures
        sorted_by_id(with_change(s, x)),
{
    lemma_change_place(s, x);
    let k = change_place(s, x);
    let r = with_change(s, x);
    assert forall|i: int, j: int| 0 <= i < j < r.len() implies !text_before(
        #[trigger] r[j].id,
        #[trigger] r[i].id,
    ) by {
        if j < k {
            assert(r[i] == s[i] && r[j] == s[j]);
        } else if j == k {
            assert(r[j] == x && r[i] == s[i]);
            if i < k - 1 {
                assert(!text_before(s[k - 1].id, s[i].id));
                if text_before(x.id, s[i].id) {
                    crate::order::lemma_text_order(x.id, s[k - 1].id);
                    if text_before(s[k - 1].id, x.id) {
                        crate::order::lemma_text_transitive(s[k - 1].id, x.id, s[i].id);
                    }
                }
            }
        } else if i < k {
            assert(r[i] == s[i] && r[j] == s[j - 1]);
        } else if i == k {
            assert(r[i] == x && r[j] == s[j - 1]);
            assert(text_before(x.id, s[j - 1].id));
            crate::order::lemma_text_order(x.id, s[j - 1].id);
        } else {
            assert(r[i] == s[i - 1] && r[j] == s[j - 1]);
        }
    }
}

proof fn lemma_changes_upto_sorted(prev: Seq<EntryView>, current: Seq<EntryView>, n: int)
    ensures
        sorted_by_id(changes_upto(prev, current, n)),
    decreases n,
{
    if n > 0 {
        lemma_changes_upto_sorted(prev, current, n - 1);
        let before = changes_upto(prev, current, n - 1);
        let e = current[n - 1];
        if let Some(event) = event_for(lookup(prev, e.key), e.state) {
            lemma_with_change_sorted(before, ChangeView { id: e.key, event, story: e.state });
        }
    }
}

proof fn lemma_changes_deleted_sorted(prev: Seq<EntryView>, current: Seq<EntryView>, n: int)
    ensures
        sorted_by_id(changes_with_deleted(prev, current, n)),
    decreases n,
{
    if n <= 0 {
        lemma_changes_upto_sorted(prev, current, current.len() as int);
    } else {
        lemma_changes_deleted_sorted(prev, current, n - 1);
        let before = changes_with_deleted(prev, current, n - 1);
        let e = prev[n - 1];
        if lookup(current, e.key) is None {
            lemma_with_change_sorted(
                before,
                ChangeView { id: e.key, event: ChangeEvent::Deleted, story: e.state },
            );
        }
    }
}

/// The changes from one commit to the next stand in the order of their
/// identifiers.
pub proof fn law_changes_sorted(prev: Seq<EntryView>, current: Seq<EntryView>)
    ensures
        sorted_by_id(changes(prev, current)),
{
    lemma_changes_deleted_sorted(prev, current, prev.len() as int);
}

/// No two changes have the same identifier.
pub open spec fn distinct_ids(s: Seq<ChangeView>) -> bool {
    forall|i: int, j: int|
        0 <= i < s.len() && 0 <= j < s.len() && i != j ==> (#[trigger] s[i]).id != (
        #[trigger] s[j]).id
}

/// One of the first `n` entries has the key.
pub open spec fn has_key(entries: Seq<EntryView>, key: Seq<char>, n: int) -> bool {
    exists|m: int| 0 <= m < n && m < entries.len() && (#[trigger] entries[m]).key == key
}

proof fn lemma_with_change_distinct(s: Seq<ChangeView>, x: ChangeView)
    requires
        distinct_ids(s),
        forall|j: int| 0 <= j < s.len() ==> (#[trigger] s[j]).id != x.id,
    ensures
        distinct_ids(with_change(s, x)),
        forall|j: int|
            0 <= j < with_change(s, x).len() ==> (#[trigger] with_change(s, x)[j]) == x
                || s.contains(with_change(s, x)[j]),
{
    lemma_change_place(s, x);
    let k = change_place(s, x);
    let r = with_change(s, x);
    assert forall|j: int| 0 <= j < r.len() implies (#[trigger] r[j]) == x || s.contains(r[j]) by {
        if j < k {
            assert(r[j] == s[j]);
        } else if j > k {
            assert(r[j] == s[j - 1]);
        }
    }
    assert forall|i: int, j: int| 0 <= i < r.len() && 0 <= j < r.len() && i != j implies (
    #[trigger] r[i]).id != (#[trigger] r[j]).id by {
        let a = if i < k {
            i
        } else {
            i - 1
        };
        let b = if j < k {
            j
        } else {
            j - 1
        };
        if i == k {
            assert(r[i] == x && r[j] == s[b]);
        } else if j == k {
            assert(r[j] == x && r[i] == s[a]);
        } else {
            assert(r[i] == s[a] && r[j] == s[b]);
        }
    }
}

proof fn lemma_changes_upto_ids(prev: Seq<EntryView>, current: Seq<EntryView>, n: int)
    requires
        distinct_keys(current),
        0 <= n <= current.len(),
    ensures
        distinct_ids(changes_upto(prev, current, n)),
        forall|j: int|
            0 <= j < changes_upto(prev, current, n).len() ==> has_key(
                current,
                (#[trigger] changes_upto(prev, current, n)[j]).id,
                n,
            ),
    decreases n,
{
    if n > 0 {
        lemma_changes_upto_ids(prev, current, n - 1);
        let before = changes_upto(prev, current, n - 1);
        let e = current[n - 1];
        let after = changes_upto(prev, current, n);
        match event_for(lookup(prev, e.key), e.state) {
            Some(event) => {
                let x = ChangeView { id: e.key, event, story: e.state };
                assert forall|j: int| 0 <= j < before.len() implies (#[trigger] before[j]).id
                    != x.id by {
                    assert(has_key(current, before[j].id, n - 1));
                    let m = choose|m: int|
                        0 <= m < n - 1 && m < current.len() && (#[trigger] current[m]).key
                            == before[j].id;
                    assert(current[m].key != current[n - 1].key);
                }
                lemma_with_change_distinct(before, x);
                assert forall|j: int| 0 <= j < after.len() implies has_key(
                    current,
                    (#[trigger] after[j]).id,
                    n,
                ) by {
                    if after[j] == x {
                        assert(current[n - 1].key == x.id);
                    } else {
                        let i = choose|i: int| 0 <= i < before.len() && before[i] == after[j];
                        assert(has_key(current, before[i].id, n - 1));
                        let m = choose|m: int|
                            0 <= m < n - 1 && m < current.len() && (#[trigger] current[m]).key
                                == before[i].id;
                        assert(current[m].key == after[j].id);
                    }
                }
            },
            None => {
                assert forall|j: int| 0 <= j < after.len() implies has_key(
                    current,
                    (#[trigger] after[j]).id,
                    n,
                ) by {
                    assert(has_key(current, before[j].id, n - 1));
                    let m = choose|m: int|
                        0 <= m < n - 1 && m < current.len() && (#[trigger] current[m]).key
                            == before[j].id;
                    assert(current[m].key == after[j].id);
                }
            },
        }
    }
}

/// Where a change comes from: a story of the new commit, or one of the
/// first `n` stories of the old commit that the new one does not hold.
pub open spec fn change_origin(
    prev: Seq<EntryView>,
    current: Seq<EntryView>,
    id: Seq<char>,
    n: int,
) -> bool {
    has_key(current, id, current.len() as int) || (has_key(prev, id, n) && lookup(current, id)
        is None)
}

proof fn lemma_changes_deleted_ids(prev: Seq<EntryView>, current: Seq<EntryView>, n: int)
    requires
        distinct_keys(prev),
        distinct_keys(current),
        0 <= n <= prev.len(),
    ensures
        distinct_ids(changes_with_deleted(prev, current, n)),
        forall|j: int|
            0 <= j < changes_with_deleted(prev, current, n).len() ==> change_origin(
                prev,
                current,
                (#[trigger] changes_with_deleted(prev, current, n)[j]).id,
                n,
            ),
    decreases n,
{
    let after = changes_with_deleted(prev, current, n);
    if n <= 0 {
        lemma_changes_upto_ids(prev, current, current.len() as int);
    } else {
        lemma_changes_deleted_ids(prev, current, n - 1);
        let before = changes_with_deleted(prev, current, n - 1);
        let e = prev[n - 1];
        assert forall|j: int| 0 <= j < before.len() implies change_origin(
            prev,
            current,
            (#[trigger] before[j]).id,
            n,
        ) by {
            assert(change_origin(prev, current, before[j].id, n - 1));
            if !has_key(current, before[j].id, current.len() as int) {
                let m = choose|m: int|
                    0 <= m < n - 1 && m < prev.len() && (#[trigger] prev[m]).key == before[j].id;
                assert(prev[m].key == before[j].id);
            }
        }
        if lookup(current, e.key) is None {
            let x = ChangeView { id: e.key, event: ChangeEvent::Deleted, story: e.state };
            lemma_key_place(current, e.key);
            assert forall|j: int| 0 <= j < before.len() implies (#[trigger] before[j]).id != x.id by {
                assert(change_origin(prev, current, before[j].id, n - 1));
                if before[j].id == x.id {
                    if has_key(current, before[j].id, current.len() as int) {
                        let m = choose|m: int|
                            0 <= m < current.len() && (#[trigger] current[m]).key == before[j].id;
                        assert(current[m].key == e.key);
                    } else {
                        let m = choose|m: int|
                            0 <= m < n - 1 && m < prev.len() && (#[trigger] prev[m]).key
                                == before[j].id;
                        assert(prev[m].key == prev[n - 1].key);
                    }
                }
            }
            lemma_with_change_distinct(before, x);
            assert forall|j: int| 0 <= j < after.len() implies change_origin(
                prev,
                current,
                (#[trigger] after[j]).id,
                n,
            ) by {
                if after[j] == x {
                    assert(prev[n - 1].key == x.id);
                } else {
                    let i = choose|i: int| 0 <= i < before.len() && before[i] == after[j];
                    assert(change_origin(prev, current, before[i].id, n));
                }
            }
        }
    }
}

/// Between two commits whose stories have distinct keys there is one change
/// for an identifier at most, so that the identifiers of the changes rise.
pub proof fn law_one_change_per_id(prev: Seq<EntryView>, current: Seq<EntryView>)
    requires
        distinct_keys(prev),
        distinct_keys(current),
    ensures
        distinct_ids(changes(prev, current)),
        forall|i: int, j: int|
            0 <= i < j < changes(prev, current).len() ==> text_before(
                (#[trigger] changes(prev, current)[i]).id,
                (#[trigger] changes(prev, current)[j]).id,
            ),
{
    lemma_changes_deleted_ids(prev, current, prev.len() as int);
    law_changes_sorted(prev, current);
    let c = changes(prev, current);
    assert forall|i: int, j: int| 0 <= i < j < c.len() implies text_before(
        (#[trigger] c[i]).id,
        (#[trigger] c[j]).id,
    ) by {
        crate::order::lemma_text_order(c[i].id, c[j].id);
        assert(!text_before(c[j].id, c[i].id));
    }
}

fn insert_change(list: &mut Vec<Change>, x: Change)
    ensures
        change_views(final(list)@) == with_change(change_views(old(list)@), x@),
{
    let ghost s = change_views(list@);
    let wanted = chars_of(x.id.as_str());
    let mut k: usize = list.len();
    proof {
        assert(s.take(k as int) == s);
    }
    while k > 0 && crate::order::is_text_before(&wanted, &chars_of(list[k - 1].id.as_str()))
        invariant
            k <= list.len(),
            list@ == old(list)@,
            s == change_views(list@),
            wanted@ == x@.id,
            change_place(s, x@) == change_place(s.take(k as int), x@),
        decreases k,
    {
        proof {
            assert(s.take(k as int).last() == list@[k - 1]@);
            assert(s.take(k as int).drop_last() == s.take(k - 1));
        }
        k -= 1;
    }
    proof {
        if k > 0 {
            assert(s.take(k as int).last() == list@[k - 1]@);
        }
    }
    list.insert(k, x);
    proof {
        assert(change_views(list@) == s.insert(k as int, x@));
    }
}

/// What happened to a story of the new commit.
pub fn event_of(old_state: Option<&StoryState>, new_state: &StoryState) -> (r: Option<ChangeEvent>)
    ensures
        r == event_for(
            match old_state {
                Some(p) => Some(p@),
                None => None,
            },
            new_state@,
        ),
{
    match old_state {
        None => Some(ChangeEvent::Created),
        Some(p) => {
            if !same_text(p.column.as_str(), new_state.column.as_str()) {
                Some(ChangeEvent::Moved)
            } else if !same_text(p.key.severity.as_str(), new_state.key.severity.as_str())
                || !same_text(p.key.slug.as_str(), new_state.key.slug.as_str()) || !same_text(
                p.content.as_str(),
                new_state.content.as_str(),
            ) {
                Some(ChangeEvent::Edited)
            } else {
                None
            }
        },
    }
}

/// The changes from one commit to the next, sorted by story identifier.
/// There is one change for an identifier at most.
pub fn detect_changes(prev: &StoryMap, current: &StoryMap) -> (r: Vec<Change>)
    ensures
        change_views(r@) == changes(prev@, current@),
        sorted_by_id(change_views(r@)),
        distinct_ids(change_views(r@)),
{
    proof {
        use_type_invariant(prev);
        use_type_invariant(current);
        law_changes_sorted(prev@, current@);
        law_one_change_per_id(prev@, current@);
    }
    let mut out: Vec<Change> = Vec::new();
    let mut i: usize = 0;
    assert(change_views(out@) == Seq::<ChangeView>::empty());
    while i < current.len()
        invariant
            i <= current@.len(),
            change_views(out@) == changes_upto(prev@, current@, i as int),
        decreases current@.len() - i,
    {
        let e = current.entry(i);
        match event_of(prev.get(e.key.as_str()), &e.state) {
            Some(event) => {
                insert_change(&mut out, Change { id: e.key.clone(), event, story: e.state.clone() });
            },
            None => {},
        }
        i += 1;
    }
    let mut j: usize = 0;
    while j < prev.len()
        invariant
            j <= prev@.len(),
            change_views(out@) == changes_with_deleted(prev@, current@, j as int),
        decreases prev@.len() - j,
    {
        let e = prev.entry(j);
        if !current.contains_key(e.key.as_str()) {
            insert_change(
                &mut out,
                Change { id: e.key.clone(), event: ChangeEvent::Deleted, story: e.state.clone() },
            );
        }
        j += 1;
    }
    out
}

/// The story that a commit message's issue stands for: as the new commit
/// has it, else as the old one had it.
pub fn story_for_commit<'a>(current: &'a StoryMap, prev: &'a StoryMap, id: &str) -> (r: Option<
    &'a StoryState,
>)
    ensures
        match r {
            Some(state) => Some(state@) == (if lookup(current@, id@) is Some {
                lookup(current@, id@)
            } else {
                lookup(prev@, id@)
            }),
            None => lookup(current@, id@) is None && lookup(prev@, id@) is None,
        },
{
    match current.get(id) {
        Some(state) => Some(state),
        None => prev.get(id),
    }
}

/// The pattern in which the report writes the time of a commit: year,
/// month and day, the letter T, hours, minutes and seconds, and the letter
/// Z for universal time.
pub open spec fn date_pattern() -> Seq<char> {
    "%Y-%m-%dT%H:%M:%SZ"@
}

/// What `chrono::DateTime::from_timestamp` and `DateTime::format` write for
/// a number of seconds since the start of 1970 and a pattern, in universal
/// time. A number out of chrono's range is written as the start of 1970.
pub uninterp spec fn timestamp_text(seconds: i64, pattern: Seq<char>) -> Seq<char>;

/// Calls `chrono::DateTime::from_timestamp` with the seconds and no
/// nanoseconds, takes the default date where that gives none, and writes it
/// with `DateTime::format` and the pattern. The result is the date and time
/// of that second in that pattern, by the name `timestamp_text`. Writing
/// fails on a pattern that chrono cannot read, so the pattern is the one of
/// the report, which it can.
#[verifier::external_body]
fn format_timestamp(seconds: i64, pattern: &str) -> (r: String)
    requires
        pattern@ == date_pattern(),
    ensures
        r@ == timestamp_text(seconds, pattern@),
{
    chrono::DateTime::from_timestamp(seconds, 0).unwrap_or_default().format(pattern).to_string()
}

/// The time of a commit as the report writes it.
pub open spec fn commit_time(seconds: i64) -> Seq<char> {
    timestamp_text(seconds, date_pattern())
}

/// Writes the time of a commit in the pattern of the report.
pub fn write_commit_time(seconds: i64) -> (r: String)
    ensures
        r@ == commit_time(seconds),
{
    format_timestamp(seconds, "%Y-%m-%dT%H:%M:%SZ")
}

/// Who made a commit, and when.
pub struct CommitInfo {
    pub sha: String,
    pub seconds: i64,
    pub name: String,
    pub email: String,
}

/// The fields of a line with commas between them.
pub open spec fn row_of(
    sha: Seq<char>,
    time: Seq<char>,
    name: Seq<char>,
    email: Seq<char>,
    story: Seq<char>,
    severity: Seq<char>,
    column: Seq<char>,
    event: Seq<char>,
    message: Seq<char>,
) -> Seq<char> {
    sha + seq![','] + time + seq![','] + csv_field(name) + seq![','] + csv_field(email) + seq![
        ',',
    ] + csv_field(story) + seq![','] + csv_field(severity) + seq![','] + csv_field(column) + seq![
        ',',
    ] + event + seq![','] + message
}

/// The first line of the report, which names the fields.
pub fn header_row() -> (r: &'static str)
    ensures
        r@ == "commit_sha,commit_date,committer_name,committer_email,story_id,severity,column,event,message"@,
{
    "commit_sha,commit_date,committer_name,committer_email,story_id,severity,column,event,message"
}

/// A line of the report, with the time already written.
pub fn row_with_time(
    commit: &CommitInfo,
    time: &str,
    story_id: &str,
    story: &StoryState,
    event: ChangeEvent,
    message: &str,
) -> (r: String)
    ensures
        r@ == row_of(
            commit.sha@,
            time@,
            commit.name@,
            commit.email@,
            story_id@,
            story@.key.severity,
            story@.column,
            event.name(),
            message@,
        ),
{
    let mut out: Vec<char> = chars_of(commit.sha.as_str());
    out.push(',');
    crate::text::extend_chars(&mut out, &chars_of(time));
    out.push(',');
    crate::text::extend_chars(&mut out, &chars_of(escape_csv(commit.name.as_str()).as_str()));
    out.push(',');
    crate::text::extend_chars(&mut out, &chars_of(escape_csv(commit.email.as_str()).as_str()));
    out.push(',');
    crate::text::extend_chars(&mut out, &chars_of(escape_csv(story_id).as_str()));
    out.push(',');
    crate::text::extend_chars(&mut out, &chars_of(escape_csv(story.key.severity.as_str()).as_str()));
    out.push(',');
    crate::text::extend_chars(&mut out, &chars_of(escape_csv(story.column.as_str()).as_str()));
    out.push(',');
    crate::text::extend_chars(&mut out, &chars_of(event.as_str()));
    out.push(',');
    crate::text::extend_chars(&mut out, &chars_of(message));
    string_of(&out)
}

/// The line of the report for a change of a story, which has no message.
pub fn change_row(commit: &CommitInfo, change: &Change) -> (r: String)
    ensures
        r@ == row_of(
            commit.sha@,
            commit_time(commit.seconds),
            commit.name@,
            commit.email@,
            change@.id,
            change@.story.key.severity,
            change@.story.column,
            change@.event.name(),
            Seq::<char>::empty(),
        ),
{
    let time = write_commit_time(commit.seconds);
    let none = String::new();
    row_with_time(
        commit,
        time.as_str(),
        change.id.as_str(),
        &change.story,
        change.event,
        none.as_str(),
    )
}

/// The line of the report for a commit that names an issue, with the
/// commit's message as its last field.
pub fn commit_row(commit: &CommitInfo, issue_id: &str, story: &StoryState, message: &str) -> (r:
    String)
    ensures
        r@ == row_of(
            commit.sha@,
            commit_time(commit.seconds),
            commit.name@,
            commit.email@,
            issue_id@,
            story@.key.severity,
            story@.column,
            ChangeEvent::CodeCommit.name(),
            csv_field(message@),
        ),
{
    let time = write_commit_time(commit.seconds);
    let text = escape_csv(message);
    row_with_time(commit, time.as_str(), issue_id, story, ChangeEvent::CodeCommit, text.as_str())
}

pub struct CommitView {
    pub sha: Seq<char>,
    pub seconds: i64,
    pub name: Seq<char>,
    pub email: Seq<char>,
}

impl View for CommitInfo {
    type V = CommitView;

    open spec fn view(&self) -> CommitView {
        CommitView { sha: self.sha@, seconds: self.seconds, name: self.name@, email: self.email@ }
    }
}

/// The line of the report for a change of a story.
pub open spec fn change_line(commit: CommitView, change: ChangeView) -> Seq<char> {
    row_of(
        commit.sha,
        commit_time(commit.seconds),
        commit.name,
        commit.email,
        change.id,
        change.story.key.severity,
        change.story.column,
        change.event.name(),
        Seq::<char>::empty(),
    )
}

/// The story that an identifier stands for at a commit: as the new commit
/// has it, else as the old one had it.
pub open spec fn story_at(current: Seq<EntryView>, prev: Seq<EntryView>, id: Seq<char>) -> Option<
    StateView,
> {
    if lookup(current, id) is Some {
        lookup(current, id)
    } else {
        lookup(prev, id)
    }
}

/// The lines of the report for a commit: one for each change of a story,
/// sorted by identifier, and then one for the commit itself where its
/// message names an issue that the new or the old commit holds.
pub open spec fn commit_lines(
    prev: Seq<EntryView>,
    current: Seq<EntryView>,
    commit: CommitView,
    message: Seq<char>,
) -> Seq<Seq<char>> {
    let lines = changes(prev, current).map_values(|c: ChangeView| change_line(commit, c));
    match crate::prefix::prefix_parts(message) {
        None => lines,
        Some((id, rest)) => match story_at(current, prev, id) {
            None => lines,
            Some(story) => lines.push(
                row_of(
                    commit.sha,
                    commit_time(commit.seconds),
                    commit.name,
                    commit.email,
                    id,
                    story.key.severity,
                    story.column,
                    ChangeEvent::CodeCommit.name(),
                    csv_field(rest),
                ),
            ),
        },
    }
}

/// Writes the lines of the report for a commit.
pub fn commit_rows(prev: &StoryMap, current: &StoryMap, commit: &CommitInfo, message: &str) -> (r:
    Vec<String>)
    ensures
        crate::error::texts(r@) == commit_lines(prev@, current@, commit@, message@),
{
    let found = detect_changes(prev, current);
    let mut rows: Vec<String> = Vec::new();
    let ghost line = |c: ChangeView| change_line(commit@, c);
    let ghost all = change_views(found@);
    let mut i: usize = 0;
    proof {
        assert(all.take(0) == Seq::<ChangeView>::empty());
        assert(crate::error::texts(rows@) == all.take(0).map_values(line));
    }
    while i < found.len()
        invariant
            i <= found.len(),
            all == change_views(found@),
            line == |c: ChangeView| change_line(commit@, c),
            crate::error::texts(rows@) == all.take(i as int).map_values(line),
        decreases found.len() - i,
    {
        let ghost before = rows@;
        rows.push(change_row(commit, &found[i]));
        proof {
            assert(all[i as int] == found@[i as int]@);
            assert(crate::error::texts(rows@) == crate::error::texts(before).push(
                line(all[i as int]),
            ));
            assert(all.take(i + 1) == all.take(i as int).push(all[i as int]));
            assert(all.take(i + 1).map_values(line) == all.take(i as int).map_values(line).push(
                line(all[i as int]),
            ));
        }
        i += 1;
    }
    proof {
        assert(all.take(found.len() as int) == all);
    }
    match crate::prefix::parse_issue_prefix(message) {
        None => {},
        Some((id, rest)) => {
            match story_for_commit(current, prev, id.as_str()) {
                None => {},
                Some(story) => {
                    let ghost before = rows@;
                    rows.push(commit_row(commit, id.as_str(), story, rest.as_str()));
                    proof {
                        assert(crate::error::texts(rows@) == crate::error::texts(before).push(
                            rows@.last()@,
                        ));
                    }
                },
            }
        },
    }
    rows
}

/// A file of a status directory as a commit holds it; the content is
/// missing where it cannot be read.
pub struct TreeFile {
    pub name: String,
    pub content: Option<String>,
}

/// An entry of the control directory as a commit holds it, with its files
/// where it is a directory.
pub struct TreeEntry {
    pub name: String,
    pub is_dir: bool,
    pub files: Vec<TreeFile>,
}

pub struct FileView {
    pub name: Seq<char>,
    pub content: Option<Seq<char>>,
}

pub struct TreeView {
    pub name: Seq<char>,
    pub is_dir: bool,
    pub files: Seq<FileView>,
}

impl View for TreeFile {
    type V = FileView;

    open spec fn view(&self) -> FileView {
        FileView {
            name: self.name@,
            content: match self.content {
                Some(c) => Some(c@),
                None => None,
            },
        }
    }
}

pub open spec fn file_views(v: Seq<TreeFile>) -> Seq<FileView> {
    v.map_values(|f: TreeFile| f@)
}

impl View for TreeEntry {
    type V = TreeView;

    open spec fn view(&self) -> TreeView {
        TreeView { name: self.name@, is_dir: self.is_dir, files: file_views(self.files@) }
    }
}

pub open spec fn tree_views(v: Seq<TreeEntry>) -> Seq<TreeView> {
    v.map_values(|e: TreeEntry| e@)
}

/// The stories with those of the first `n` files of a status directory: a
/// file counts where its name says a key and its content can be read.
pub open spec fn with_files(map: Seq<EntryView>, column: Seq<char>, files: Seq<FileView>, n: int)
    -> Seq<EntryView>
    decreases n,
{
    if n <= 0 {
        map
    } else {
        let before = with_files(map, column, files, n - 1);
        let f = files[n - 1];
        match (story_key(f.name), f.content) {
            (Some(key), Some(content)) => with_entry(
                before,
                key.id,
                StateView { key, column, content },
            ),
            _ => before,
        }
    }
}

/// The stories of the first `n` entries of the control directory: an entry
/// counts where it is a directory whose name does not start with a dot.
pub open spec fn stories_upto(entries: Seq<TreeView>, n: int) -> Seq<EntryView>
    decreases n,
{
    if n <= 0 {
        Seq::empty()
    } else {
        let before = stories_upto(entries, n - 1);
        let e = entries[n - 1];
        if e.is_dir && !(e.name.len() > 0 && e.name[0] == '.') {
            with_files(before, e.name, e.files, e.files.len() as int)
        } else {
            before
        }
    }
}

/// The stories that a commit holds, by their identifiers.
pub fn collect_stories(entries: &Vec<TreeEntry>) -> (r: StoryMap)
    ensures
        r@ == stories_upto(tree_views(entries@), entries.len() as int),
{
    let mut map = StoryMap::new();
    let ghost all = tree_views(entries@);
    let mut i: usize = 0;
    while i < entries.len()
        invariant
            i <= entries.len(),
            all == tree_views(entries@),
            map@ == stories_upto(all, i as int),
        decreases entries.len() - i,
    {
        let e = &entries[i];
        assert(all[i as int] == e@);
        if e.is_dir && !is_hidden_name(e.name.as_str()) {
            let ghost base = map@;
            let ghost files = file_views(e.files@);
            let mut j: usize = 0;
            while j < e.files.len()
                invariant
                    j <= e.files.len(),
                    files == file_views(e.files@),
                    map@ == with_files(base, e.name@, files, j as int),
                decreases e.files.len() - j,
            {
                let f = &e.files[j];
                assert(files[j as int] == f@);
                match parse_story_filename(f.name.as_str()) {
                    None => {},
                    Some(key) => match &f.content {
                        None => {},
                        Some(content) => {
                            let id = key.id.clone();
                            map.insert(
                                id,
                                StoryState { key, column: e.name.clone(), content: content.clone() },
                            );
                        },
                    },
                }
                j += 1;
            }
        }
        i += 1;
    }
    map
}

} // verus!
