use moth::report::{
    change_row, commit_row, detect_changes, escape_csv, header_row, is_hidden_name,
    parse_story_filename, story_for_commit, Change, ChangeEvent, CommitInfo, StoryKey, StoryMap,
    StoryState,
};

fn story(id: &str, severity: &str, slug: &str, column: &str, content: &str) -> StoryState {
    StoryState {
        key: StoryKey {
            id: id.to_string(),
            severity: severity.to_string(),
            slug: slug.to_string(),
        },
        column: column.to_string(),
        content: content.to_string(),
    }
}

#[test]
fn test_parse_story_filename() {
    let key = parse_story_filename("rxj8y-med-report.md").unwrap();
    assert_eq!(key.id, "rxj8y");
    assert_eq!(key.severity, "med");
    assert_eq!(key.slug, "report");
}

#[test]
fn test_parse_story_filename_with_hyphenated_slug() {
    let key = parse_story_filename("abc123-high-fix-login-bug.md").unwrap();
    assert_eq!(key.id, "abc123");
    assert_eq!(key.severity, "high");
    assert_eq!(key.slug, "fix-login-bug");
}

#[test]
fn test_escape_csv() {
    assert_eq!(escape_csv("simple"), "simple");
    assert_eq!(escape_csv("with,comma"), "\"with,comma\"");
    assert_eq!(escape_csv("with\"quote"), "\"with\"\"quote\"");
    assert_eq!(escape_csv("with\nnewline"), "\"with\nnewline\"");
}

#[test]
fn test_detect_changes_created() {
    let prev = StoryMap::new();
    let mut current = StoryMap::new();

    let story = story("abc123", "high", "test", "ready", "Test content");

    current.insert("abc123".to_string(), story);

    let changes = detect_changes(&prev, &current);
    assert_eq!(changes.len(), 1);
    assert!(matches!(changes[0].event, ChangeEvent::Created));
}

#[test]
fn test_detect_changes_moved() {
    let mut prev = StoryMap::new();
    let mut current = StoryMap::new();

    let story_prev = story("abc123", "high", "test", "ready", "Test content");

    let mut story_curr = story_prev.clone();
    story_curr.column = "doing".to_string();

    prev.insert("abc123".to_string(), story_prev);
    current.insert("abc123".to_string(), story_curr);

    let changes = detect_changes(&prev, &current);
    assert_eq!(changes.len(), 1);
    assert!(matches!(changes[0].event, ChangeEvent::Moved));
}

#[test]
fn test_detect_changes_edited() {
    let mut prev = StoryMap::new();
    let mut current = StoryMap::new();

    let story_prev = story("abc123", "high", "test", "ready", "Test content");

    let mut story_curr = story_prev.clone();
    story_curr.content = "Updated content".to_string();

    prev.insert("abc123".to_string(), story_prev);
    current.insert("abc123".to_string(), story_curr);

    let changes = detect_changes(&prev, &current);
    assert_eq!(changes.len(), 1);
    assert!(matches!(changes[0].event, ChangeEvent::Edited));
}

#[test]
fn test_detect_changes_deleted() {
    let mut prev = StoryMap::new();
    let current = StoryMap::new();

    let story = story("abc123", "high", "test", "ready", "Test content");

    prev.insert("abc123".to_string(), story);

    let changes = detect_changes(&prev, &current);
    assert_eq!(changes.len(), 1);
    assert!(matches!(changes[0].event, ChangeEvent::Deleted));
}

#[test]
fn test_change_event_as_str() {
    assert_eq!(ChangeEvent::Created.as_str(), "created");
    assert_eq!(ChangeEvent::Moved.as_str(), "moved");
    assert_eq!(ChangeEvent::Edited.as_str(), "edited");
    assert_eq!(ChangeEvent::Deleted.as_str(), "deleted");
    assert_eq!(ChangeEvent::CodeCommit.as_str(), "code_commit");
}

#[test]
fn test_parse_story_filename_invalid() {
    // Too few parts
    assert!(parse_story_filename("invalid.md").is_none());
    assert!(parse_story_filename("only-two.md").is_none());
    // No .md extension
    assert!(parse_story_filename("abc-med-slug").is_none());
}

#[test]
fn test_detect_changes_severity_edit() {
    let mut prev = StoryMap::new();
    let mut current = StoryMap::new();

    let story_prev = story("abc123", "med", "test", "ready", "Test content");

    let mut story_curr = story_prev.clone();
    story_curr.key.severity = "high".to_string();

    prev.insert("abc123".to_string(), story_prev);
    current.insert("abc123".to_string(), story_curr);

    let changes = detect_changes(&prev, &current);
    assert_eq!(changes.len(), 1);
    assert!(matches!(changes[0].event, ChangeEvent::Edited));
}

#[test]
fn test_detect_changes_slug_edit() {
    let mut prev = StoryMap::new();
    let mut current = StoryMap::new();

    let story_prev = story("abc123", "med", "old_slug", "ready", "Test content");

    let mut story_curr = story_prev.clone();
    story_curr.key.slug = "new_slug".to_string();

    prev.insert("abc123".to_string(), story_prev);
    current.insert("abc123".to_string(), story_curr);

    let changes = detect_changes(&prev, &current);
    assert_eq!(changes.len(), 1);
    assert!(matches!(changes[0].event, ChangeEvent::Edited));
}

#[test]
fn test_detect_changes_no_change() {
    let mut prev = StoryMap::new();
    let mut current = StoryMap::new();

    let story = story("abc123", "med", "test", "ready", "Test content");

    prev.insert("abc123".to_string(), story.clone());
    current.insert("abc123".to_string(), story);

    let changes = detect_changes(&prev, &current);
    assert_eq!(changes.len(), 0);
}

#[test]
fn test_detect_changes_multiple() {
    let mut prev = StoryMap::new();
    let mut current = StoryMap::new();

    // Story 1: will be deleted
    let story1 = story("aaa111", "low", "deleted", "ready", "Will be deleted");
    prev.insert("aaa111".to_string(), story1);

    // Story 2: will be moved
    let story2_prev = story("bbb222", "med", "moved", "ready", "Will be moved");
    let mut story2_curr = story2_prev.clone();
    story2_curr.column = "doing".to_string();
    prev.insert("bbb222".to_string(), story2_prev);
    current.insert("bbb222".to_string(), story2_curr);

    // Story 3: will be created
    let story3 = story("ccc333", "high", "created", "ready", "Newly created");
    current.insert("ccc333".to_string(), story3);

    let changes = detect_changes(&prev, &current);
    assert_eq!(changes.len(), 3);

    // Changes are sorted by ID
    assert!(matches!(changes[0].event, ChangeEvent::Deleted)); // aaa111
    assert!(matches!(changes[1].event, ChangeEvent::Moved)); // bbb222
    assert!(matches!(changes[2].event, ChangeEvent::Created)); // ccc333
}

#[test]
fn detect_changes_is_sorted_whatever_the_order_of_entry() {
    let prev = StoryMap::new();
    let mut current = StoryMap::new();
    current.insert("zz9".to_string(), story("zz9", "low", "z", "ready", ""));
    current.insert("aa1".to_string(), story("aa1", "low", "a", "ready", ""));
    current.insert("mm5".to_string(), story("mm5", "low", "m", "ready", ""));
    let changes = detect_changes(&prev, &current);
    let ids: Vec<&str> = changes.iter().map(|c| c.id.as_str()).collect();
    assert_eq!(ids, vec!["aa1", "mm5", "zz9"]);
    assert_eq!(changes[0].story.key.slug, "a");
}

#[test]
fn story_map_insert_replaces_the_story_of_a_key() {
    let mut map = StoryMap::new();
    map.insert("abc".to_string(), story("abc", "low", "one", "ready", ""));
    map.insert("abc".to_string(), story("abc", "low", "two", "ready", ""));
    assert_eq!(map.len(), 1);
    assert_eq!(map.get("abc").unwrap().key.slug, "two");
    assert!(map.contains_key("abc"));
    assert!(!map.contains_key("ab"));
    assert!(map.get("xyz").is_none());
}

#[test]
fn story_for_commit_prefers_the_new_commit() {
    let mut prev = StoryMap::new();
    let mut current = StoryMap::new();
    prev.insert("abc".to_string(), story("abc", "low", "one", "ready", ""));
    prev.insert("old".to_string(), story("old", "low", "gone", "ready", ""));
    current.insert("abc".to_string(), story("abc", "low", "one", "doing", ""));
    assert_eq!(story_for_commit(&current, &prev, "abc").unwrap().column, "doing");
    assert_eq!(story_for_commit(&current, &prev, "old").unwrap().key.slug, "gone");
    assert!(story_for_commit(&current, &prev, "none").is_none());
}

#[test]
fn rows_are_written_with_the_time_of_the_commit() {
    let commit = CommitInfo {
        sha: "0123abc".to_string(),
        seconds: 1431648000,
        name: "Doe, Jane".to_string(),
        email: "jane@example.org".to_string(),
    };
    let change = Change {
        id: "abc12".to_string(),
        event: ChangeEvent::Moved,
        story: story("abc12", "high", "fix", "doing", ""),
    };
    assert_eq!(
        change_row(&commit, &change),
        "0123abc,2015-05-15T00:00:00Z,\"Doe, Jane\",jane@example.org,abc12,high,doing,moved,"
    );
    assert_eq!(
        commit_row(&commit, "abc12", &change.story, "Fix \"it\""),
        "0123abc,2015-05-15T00:00:00Z,\"Doe, Jane\",jane@example.org,abc12,high,doing,code_commit,\"Fix \"\"it\"\"\""
    );
    assert!(header_row().starts_with("commit_sha,commit_date,"));
}

#[test]
fn a_time_out_of_range_is_written_as_the_start_of_1970() {
    let commit = CommitInfo {
        sha: "s".to_string(),
        seconds: i64::MAX,
        name: "n".to_string(),
        email: "e".to_string(),
    };
    let change = Change {
        id: "a".to_string(),
        event: ChangeEvent::Created,
        story: story("a", "low", "x", "ready", ""),
    };
    assert_eq!(change_row(&commit, &change), "s,1970-01-01T00:00:00Z,n,e,a,low,ready,created,");
}

#[test]
fn hidden_names_start_with_a_dot() {
    assert!(is_hidden_name(".current"));
    assert!(!is_hidden_name("ready"));
    assert!(!is_hidden_name(""));
}

#[test]
fn there_is_one_change_for_an_identifier_at_most() {
    let mut prev = StoryMap::new();
    let mut current = StoryMap::new();
    for (id, column) in [("bbb", "ready"), ("aaa", "ready"), ("ccc", "ready"), ("aaa", "doing")] {
        prev.insert(id.to_string(), story(id, "low", "s", column, ""));
    }
    for (id, column) in [("ddd", "ready"), ("aaa", "ready"), ("bbb", "done"), ("ddd", "done")] {
        current.insert(id.to_string(), story(id, "low", "s", column, ""));
    }
    assert_eq!(prev.len(), 3);
    assert_eq!(current.len(), 3);
    let changes = detect_changes(&prev, &current);
    let found: Vec<(&str, ChangeEvent)> =
        changes.iter().map(|c| (c.id.as_str(), c.event)).collect();
    assert_eq!(
        found,
        vec![
            ("aaa", ChangeEvent::Moved),
            ("bbb", ChangeEvent::Moved),
            ("ccc", ChangeEvent::Deleted),
            ("ddd", ChangeEvent::Created),
        ]
    );
}

#[test]
fn the_time_of_a_commit_is_written_in_universal_time() {
    assert_eq!(moth::report::write_commit_time(1431648000), "2015-05-15T00:00:00Z");
    assert_eq!(moth::report::write_commit_time(-1), "1969-12-31T23:59:59Z");
    assert_eq!(moth::report::write_commit_time(86399), "1970-01-01T23:59:59Z");
}
