use moth::config::{Config, StatusConfig};
use moth::display::{
    current_issue, filter_by_severity, issue_line, statuses_to_list, TimedEntry,
};
use moth::error::{ErrorKind, MothError};
use moth::issue::Issue;
use moth::priority::{parse_position, Position};
use moth::severity::Severity;
use moth::store::{
    enumerate, is_id_text, is_slug_text, next_id_step, skipped_entries, IdStep, Store,
    MAX_ID_ATTEMPTS,
};

fn config() -> Config {
    let mut config = Config::default();
    config.moth_dir = ".moth".to_string();
    config
}

fn store_of(ready: &[&str], doing: &[&str], done: &[&str]) -> Store {
    let names = |list: &[&str]| Some(list.iter().map(|n| n.to_string()).collect::<Vec<String>>());
    match Store::new(config(), vec![names(ready), names(doing), names(done)]) {
        Ok(store) => store,
        Err(e) => panic!("{}", e.message()),
    }
}

fn fresh_store() -> Store {
    store_of(&[], &[], &[])
}

fn ids(issues: &[Issue]) -> Vec<String> {
    issues.iter().map(|i| i.id.clone()).collect()
}

fn orders(issues: &[Issue]) -> Vec<Option<u32>> {
    issues.iter().map(|i| i.order).collect()
}

#[test]
fn test_new_creates_issue() {
    let mut store = fresh_store();
    let severity = "high".parse::<Severity>().unwrap();
    let result = store.create_issue("Fix login bug", severity);
    assert!(result.is_ok());

    let issues = store.all_issues().unwrap();

    assert_eq!(issues.len(), 1);
    assert_eq!(issues[0].slug, "fix_login_bug");
    assert_eq!(issues[0].severity.as_str(), "high");
    assert_eq!(issues[0].status, "ready");
}

#[test]
fn test_new_with_default_severity() {
    let mut store = fresh_store();
    let severity = store.config().default_severity.parse::<Severity>().unwrap();
    let result = store.create_issue("Add dark mode", severity);
    assert!(result.is_ok());

    let issues = store.all_issues().unwrap();

    assert_eq!(issues.len(), 1);
    assert_eq!(issues[0].severity.as_str(), "med");
}

#[test]
fn test_new_fails_with_empty_title() {
    let mut store = fresh_store();
    let result = store.create_issue("", Severity::Med);
    assert!(result.is_err());
    assert!(result.unwrap_err().message().contains("cannot be empty"));
}

#[test]
fn test_new_fails_with_invalid_severity() {
    let result = "invalid".parse::<Severity>();
    assert!(result.is_err());
    assert!(result.unwrap_err().message().contains("Invalid severity"));
}

#[test]
fn test_list_shows_all_except_done_by_default() {
    let mut store = fresh_store();
    store.create_issue("Issue 1", Severity::Med).unwrap();
    store.create_issue("Issue 2", Severity::Med).unwrap();

    let ready_issues = store.issues_by_status("ready").unwrap();
    assert_eq!(ready_issues.len(), 2);

    let done_issues = store.issues_by_status("done").unwrap();
    assert_eq!(done_issues.len(), 0);

    let shown = statuses_to_list(store.config(), None, false);
    assert_eq!(shown, vec!["ready".to_string(), "doing".to_string()]);
}

#[test]
fn test_show_with_partial_id() {
    let mut store = fresh_store();
    store.create_issue("Test issue", Severity::Med).unwrap();

    let issues = store.all_issues().unwrap();
    let partial_id = &issues[0].id[..3];

    let result = store.find(partial_id);
    assert!(result.is_ok());
}

#[test]
fn test_show_fails_with_nonexistent_id() {
    let store = fresh_store();
    let result = store.find("nonexistent");
    assert!(result.is_err());
    assert!(result.unwrap_err().message().contains("No issue found"));
}

#[test]
fn test_start_moves_issue_to_doing() {
    let mut store = fresh_store();
    store.create_issue("Test issue", Severity::Med).unwrap();

    let issues = store.all_issues().unwrap();
    let id = issues[0].id.clone();

    let second = store.config().second_status().unwrap().name.clone();
    let issue = store.find(&id).unwrap();
    store.move_issue(&issue, &second).unwrap();

    let ready_issues = store.issues_by_status("ready").unwrap();
    let doing_issues = store.issues_by_status("doing").unwrap();

    assert_eq!(ready_issues.len(), 0);
    assert_eq!(doing_issues.len(), 1);
    assert_eq!(doing_issues[0].id, id);
}

#[test]
fn test_done_moves_issue_to_done() {
    let mut store = fresh_store();
    store.create_issue("Test issue", Severity::Med).unwrap();

    let issues = store.all_issues().unwrap();
    let id = issues[0].id.clone();

    let last = store.config().last_status().name.clone();
    let issue = store.find(&id).unwrap();
    store.move_issue(&issue, &last).unwrap();

    let ready_issues = store.issues_by_status("ready").unwrap();
    let done_issues = store.issues_by_status("done").unwrap();

    assert_eq!(ready_issues.len(), 0);
    assert_eq!(done_issues.len(), 1);
    assert_eq!(done_issues[0].id, id);
}

#[test]
fn test_mv_moves_issue_to_custom_status() {
    let mut store = fresh_store();
    store.create_issue("Test issue", Severity::Med).unwrap();

    let issues = store.all_issues().unwrap();
    let id = issues[0].id.clone();

    let issue = store.find(&id).unwrap();
    store.move_issue(&issue, "doing").unwrap();

    let ready_issues = store.issues_by_status("ready").unwrap();
    let doing_issues = store.issues_by_status("doing").unwrap();

    assert_eq!(ready_issues.len(), 0);
    assert_eq!(doing_issues.len(), 1);
    assert_eq!(doing_issues[0].id, id);
}

#[test]
fn test_mv_fails_with_invalid_status() {
    let mut store = fresh_store();
    store.create_issue("Test issue", Severity::Med).unwrap();

    let issues = store.all_issues().unwrap();
    let id = &issues[0].id;

    let issue = store.find(id).unwrap();
    let result = store.move_issue(&issue, "invalid_status");
    assert!(result.is_err());
    assert!(result.unwrap_err().message().contains("Unknown status"));
}

#[test]
fn test_rm_deletes_issue() {
    let mut store = fresh_store();
    store.create_issue("Test issue", Severity::Med).unwrap();

    let issues = store.all_issues().unwrap();
    let id = issues[0].id.clone();

    assert_eq!(issues.len(), 1);

    let issue = store.find(&id).unwrap();
    store.delete_issue(&issue).unwrap();

    let issues = store.all_issues().unwrap();

    assert_eq!(issues.len(), 0);
}

#[test]
fn test_rm_fails_with_nonexistent_id() {
    let store = fresh_store();
    let result = store.find("nonexistent");
    assert!(result.is_err());
}

#[test]
fn test_full_workflow() {
    let mut store = fresh_store();

    store.create_issue("Fix login bug", Severity::High).unwrap();
    store.create_issue("Add dark mode", Severity::Med).unwrap();

    let mut issues = store.issues_by_status("ready").unwrap();
    assert_eq!(issues.len(), 2);

    issues.sort_by(|a, b| a.severity.cmp(&b.severity));
    let high_priority_id = issues[0].id.clone();

    let issue = store.find(&high_priority_id).unwrap();
    store.move_issue(&issue, "doing").unwrap();

    let ready_issues = store.issues_by_status("ready").unwrap();
    let doing_issues = store.issues_by_status("doing").unwrap();

    assert_eq!(ready_issues.len(), 1);
    assert_eq!(doing_issues.len(), 1);

    let issue = store.find(&high_priority_id).unwrap();
    store.move_issue(&issue, "done").unwrap();

    let ready_issues = store.issues_by_status("ready").unwrap();
    let doing_issues = store.issues_by_status("doing").unwrap();
    let done_issues = store.issues_by_status("done").unwrap();

    assert_eq!(ready_issues.len(), 1);
    assert_eq!(doing_issues.len(), 0);
    assert_eq!(done_issues.len(), 1);
}

#[test]
fn test_partial_id_ambiguous() {
    let mut store = fresh_store();

    for i in 0..10 {
        store.create_issue(&format!("Issue {}", i), Severity::Med).unwrap();
    }

    let issues = store.all_issues().unwrap();

    if issues.len() >= 2 && issues[0].id.chars().next() == issues[1].id.chars().next() {
        let partial = &issues[0].id[..1];
        let result = store.find(partial);

        if result.is_err() {
            assert!(result.unwrap_err().message().contains("Ambiguous"));
        }
    }
}

#[test]
fn test_issue_sorting_by_severity() {
    let mut store = fresh_store();

    store.create_issue("Low severity issue", Severity::Low).unwrap();
    store.create_issue("High severity issue", Severity::High).unwrap();
    store.create_issue("Critical issue", Severity::Crit).unwrap();
    store.create_issue("Medium severity issue", Severity::Med).unwrap();

    let issues = store.issues_by_status("ready").unwrap();

    assert_eq!(issues.len(), 4);
    assert_eq!(issues[0].severity.as_str(), "crit");
    assert_eq!(issues[1].severity.as_str(), "high");
    assert_eq!(issues[2].severity.as_str(), "med");
    assert_eq!(issues[3].severity.as_str(), "low");
}

#[test]
fn test_show_no_args_shows_current() {
    let mut store = fresh_store();
    store.create_issue("Test issue", Severity::Med).unwrap();
    let issue = store.all_issues().unwrap().remove(0);
    let moved = store.move_issue(&issue, "doing").unwrap();
    let name = moved.filename();
    let entries = vec![TimedEntry { name, modified: 1_700_000_000 }];
    let current = store.current(&entries).unwrap();
    assert_eq!(current.unwrap().id, issue.id);
}

#[test]
fn test_show_no_args_no_current() {
    let store = fresh_store();
    let current = store.current(&Vec::new()).unwrap();
    assert!(current.is_none());
}

#[test]
fn created_issue_is_found_by_its_full_id() {
    let mut store = store_of(&["abc12-low-old.md"], &["xyz99-med-other.md"], &[]);
    let created = store.create_issue("  Fix: Login/Bug ", Severity::Crit).unwrap();
    assert_eq!(created.slug, "fix_login_bug");
    assert_eq!(created.status, "ready");
    assert_eq!(created.order, None);
    assert_eq!(created.path, format!(".moth/ready/{}-crit-fix_login_bug.md", created.id));
    let found = store.find(&created.id).unwrap();
    assert_eq!(found.id, created.id);
    assert_eq!(found.slug, "fix_login_bug");
    assert_eq!(found.status, "ready");
    assert_eq!(found.path, created.path);
    assert_eq!(store.config().id_length, created.id.len());
}

#[test]
fn add_issue_puts_the_issue_at_its_place() {
    let mut store = store_of(&["001-aaa11-low-first.md", "bbb22-low-zz.md"], &[], &[]);
    let added = store.add_issue("ccc33", Severity::Low, "mm");
    assert_eq!(added.path, ".moth/ready/ccc33-low-mm.md");
    let ready = store.issues_by_status("ready").unwrap();
    assert_eq!(ids(&ready), vec!["aaa11", "ccc33", "bbb22"]);
    assert!(!store.id_is_free("ccc33"));
    assert!(store.id_is_free("ccc3"));
    assert!(is_id_text("ccc33"));
    assert!(!is_id_text("3cc"));
    assert!(!is_id_text(""));
    assert!(!is_id_text("ab-c"));
    assert!(is_slug_text("a_B9"));
    assert!(!is_slug_text("a-b"));
}

#[test]
fn scenario_two_issues_in_a_fresh_store() {
    let mut store = fresh_store();
    let high = store.create_issue("Fix Login Bug", Severity::High).unwrap();
    store.create_issue("Add Dark Mode", Severity::Med).unwrap();
    let ready = store.issues_by_status("ready").unwrap();
    let severities: Vec<Severity> = ready.iter().map(|i| i.severity).collect();
    assert_eq!(severities, vec![Severity::High, Severity::Med]);
    let last = store.config().last_status().name.clone();
    let moved = store.move_issue(&high, &last).unwrap();
    assert_eq!(moved.status, "done");
    let ready = store.issues_by_status("ready").unwrap();
    assert_eq!(ready.len(), 1);
    assert_eq!(ready[0].severity, Severity::Med);
    assert_eq!(ready[0].slug, "add_dark_mode");
}

#[test]
fn scenario_ambiguous_prefix_lists_both_ids_sorted() {
    let store = store_of(&["abz-low-one.md"], &["abc-high-two.md"], &["xyz-low-three.md"]);
    let e = store.find("ab").unwrap_err();
    match &e {
        MothError::Ambiguous { partial, matches } => {
            assert_eq!(partial, "ab");
            assert_eq!(matches, &vec!["abc".to_string(), "abz".to_string()]);
        }
        other => panic!("{}", other.message()),
    }
    assert_eq!(e.message(), "Ambiguous ID 'ab'. Matches: abc, abz");
    assert_eq!(e.kind(), ErrorKind::Ambiguous);
    assert_eq!(store.find("abz").unwrap().slug, "one");
    assert_eq!(store.find("x").unwrap().status, "done");
    assert!(matches!(store.find("").unwrap_err(), MothError::Ambiguous { .. }));
}

#[test]
fn scenario_above_an_issue_of_another_status_is_a_conflict() {
    let mut store = store_of(&["001-aaa-low-one.md"], &["bbb-low-two.md"], &[]);
    let subject = store.find("aaa").unwrap();
    let e = store.reorder(&subject, "above:bbb", None).unwrap_err();
    assert!(matches!(e, MothError::DifferentStatus { .. }));
    assert_eq!(e.kind(), ErrorKind::Conflict);
    assert_eq!(e.message(), "Target issue is in different status: doing vs ready");
    let e = store.reorder(&subject, "below", Some("bbb")).unwrap_err();
    assert_eq!(e.kind(), ErrorKind::Conflict);
    assert_eq!(orders(&store.issues_by_status("ready").unwrap()), vec![Some(1)]);
}

#[test]
fn listing_puts_ordered_issues_first() {
    let names: Vec<String> = [
        "ccc-low-zeta.md",
        "010-ddd-low-x.md",
        "bbb-crit-beta.md",
        "002-eee-low-y.md",
        "aaa-crit-alpha.md",
        "002-fff-crit-z.md",
        "notes.txt",
        "broken.md",
        "ggg-urgent-x.md",
        ".md",
    ]
    .iter()
    .map(|n| n.to_string())
    .collect();
    let issues = enumerate(&names, ".moth/ready", "ready");
    assert_eq!(ids(&issues), vec!["eee", "fff", "ddd", "aaa", "bbb", "ccc"]);
    assert_eq!(
        orders(&issues),
        vec![Some(2), Some(2), Some(10), None, None, None]
    );
    assert_eq!(issues[0].path, ".moth/ready/002-eee-low-y.md");
    assert_eq!(issues[0].status, "ready");
    let skipped = skipped_entries(&names, ".moth/ready", "ready");
    assert_eq!(skipped, vec!["broken.md".to_string(), "ggg-urgent-x.md".to_string()]);
    for pair in issues.windows(2) {
        match (pair[0].order, pair[1].order) {
            (None, Some(_)) => panic!("an ordered issue after an unordered one"),
            (Some(a), Some(b)) => assert!(a <= b),
            _ => {}
        }
    }
}

#[test]
fn unordered_issues_are_sorted_by_severity_then_slug() {
    let store = store_of(
        &["a1-med-b.md", "a2-med-a.md", "a3-low-a.md", "a4-crit-z.md", "a5-med-ab.md"],
        &[],
        &[],
    );
    let ready = store.issues_by_status("ready").unwrap();
    assert_eq!(ids(&ready), vec!["a4", "a2", "a5", "a1", "a3"]);
}

#[test]
fn moving_strips_the_order_only_where_the_status_has_none() {
    let mut config = config();
    config.statuses.push(StatusConfig {
        name: "next".to_string(),
        dir: "next".to_string(),
        prioritized: true,
    });
    let mut store = match Store::new(
        config,
        vec![
            Some(vec!["005-aaa-low-one.md".to_string(), "bbb-low-two.md".to_string()]),
            Some(vec![]),
            Some(vec![]),
            Some(vec![]),
        ],
    ) {
        Ok(store) => store,
        Err(e) => panic!("{}", e.message()),
    };
    let a = store.find("aaa").unwrap();
    let moved = store.move_issue(&a, "next").unwrap();
    assert_eq!(moved.order, Some(5));
    assert_eq!(moved.status, "next");
    assert_eq!(moved.path, ".moth/next/005-aaa-low-one.md");
    let moved = store.move_issue(&moved, "doing").unwrap();
    assert_eq!(moved.order, None);
    assert_eq!(moved.path, ".moth/doing/aaa-low-one.md");
    let moved = store.move_issue(&moved, "ready").unwrap();
    assert_eq!(moved.order, None);
    let b = store.find("bbb").unwrap();
    let moved = store.move_issue(&b, "next").unwrap();
    assert_eq!(moved.order, None);
    assert_eq!(ids(&store.issues_by_status("next").unwrap()), vec!["bbb"]);
    assert_eq!(ids(&store.issues_by_status("ready").unwrap()), vec!["aaa"]);
}

#[test]
fn moving_or_deleting_a_file_that_is_gone_fails() {
    let mut store = store_of(&["aaa-low-one.md"], &[], &[]);
    let a = store.find("aaa").unwrap();
    store.delete_issue(&a).unwrap();
    let e = store.delete_issue(&a).unwrap_err();
    assert!(matches!(e, MothError::MissingFile { .. }));
    assert_eq!(e.kind(), ErrorKind::NotFound);
    assert_eq!(e.message(), "No such issue file: .moth/ready/aaa-low-one.md");
    let e = store.move_issue(&a, "doing").unwrap_err();
    assert!(matches!(e, MothError::MissingFile { .. }));
    let e = store.move_issue(&a, "nowhere").unwrap_err();
    assert!(matches!(e, MothError::UnknownTarget { .. }));
    assert_eq!(e.kind(), ErrorKind::Conflict);
    assert_eq!(e.message(), "Unknown status: nowhere");
    let e = store.set_severity(&a, Severity::Low).unwrap_err();
    assert!(matches!(e, MothError::MissingFile { .. }));
}

#[test]
fn severity_changes_rename_the_file() {
    let mut store = store_of(&["003-aaa-low-one.md", "bbb-crit-two.md", "ccc-low-x.md"], &[], &[]);
    let c = store.find("ccc").unwrap();
    let now = store.set_severity(&c, Severity::Crit).unwrap();
    assert_eq!(now.severity, Severity::Crit);
    assert_eq!(now.path, ".moth/ready/ccc-crit-x.md");
    assert_eq!(ids(&store.issues_by_status("ready").unwrap()), vec!["aaa", "bbb", "ccc"]);
    let a = store.find("aaa").unwrap();
    let now = store.set_severity(&a, Severity::High).unwrap();
    assert_eq!(now.path, ".moth/ready/003-aaa-high-one.md");
    assert_eq!(now.order, Some(3));
}

#[test]
fn reorder_to_the_top_puts_the_issue_first() {
    let mut store = store_of(
        &["005-aaa-low-one.md", "007-bbb-low-two.md", "ccc-low-three.md"],
        &[],
        &[],
    );
    let c = store.find("ccc").unwrap();
    let now = store.reorder(&c, "top", None).unwrap();
    assert_eq!(now.order, Some(4));
    assert_eq!(now.path, ".moth/ready/004-ccc-low-three.md");
    let ready = store.issues_by_status("ready").unwrap();
    assert_eq!(ids(&ready), vec!["ccc", "aaa", "bbb"]);
    let b = store.find("bbb").unwrap();
    assert_eq!(store.reorder(&b, "top", None).unwrap().order, Some(3));
    assert_eq!(ids(&store.issues_by_status("ready").unwrap()), vec!["bbb", "ccc", "aaa"]);
}

#[test]
fn reorder_to_the_top_stops_at_one() {
    let mut store = store_of(&["001-aaa-low-one.md", "bbb-low-two.md"], &[], &[]);
    let b = store.find("bbb").unwrap();
    let now = store.reorder(&b, "top", None).unwrap();
    assert_eq!(now.order, Some(1));
    assert_eq!(orders(&store.issues_by_status("ready").unwrap()), vec![Some(1), Some(1)]);
    let mut store = store_of(&["aaa-low-one.md"], &[], &[]);
    let a = store.find("aaa").unwrap();
    assert_eq!(store.reorder(&a, "top", None).unwrap().order, Some(1));
    let mut store = store_of(&["000-aaa-low-one.md", "bbb-low-two.md"], &[], &[]);
    let b = store.find("bbb").unwrap();
    assert_eq!(store.reorder(&b, "top", None).unwrap().order, Some(1));
}

#[test]
fn reorder_to_other_places() {
    let mut store = store_of(
        &["005-aaa-low-one.md", "001-bbb-low-two.md", "ccc-low-three.md", "ddd-low-four.md"],
        &[],
        &[],
    );
    let c = store.find("ccc").unwrap();
    assert_eq!(store.reorder(&c, "above", Some("aaa")).unwrap().order, Some(4));
    let c = store.find("ccc").unwrap();
    assert_eq!(store.reorder(&c, "above:bbb", None).unwrap().order, Some(1));
    let c = store.find("ccc").unwrap();
    assert_eq!(store.reorder(&c, "below", Some("aaa")).unwrap().order, Some(6));
    let c = store.find("ccc").unwrap();
    assert_eq!(store.reorder(&c, "below:ddd", None).unwrap().order, None);
    let c = store.find("ccc").unwrap();
    assert_eq!(store.reorder(&c, "above", Some("ddd")).unwrap().order, None);
    let c = store.find("ccc").unwrap();
    let now = store.reorder(&c, "42", None).unwrap();
    assert_eq!(now.order, Some(42));
    assert_eq!(now.path, ".moth/ready/042-ccc-low-three.md");
    assert_eq!(store.reorder(&now, "0", None).unwrap().order, Some(0));
    let c = store.find("ccc").unwrap();
    let now = store.reorder(&c, "bottom", None).unwrap();
    assert_eq!(now.order, None);
    assert_eq!(now.path, ".moth/ready/ccc-low-three.md");
    assert_eq!(ids(&store.issues_by_status("ready").unwrap()), vec!["bbb", "aaa", "ddd", "ccc"]);
}

#[test]
fn reorder_errors() {
    let mut store = store_of(
        &["4294967295-aaa-low-one.md", "bbb-low-two.md"],
        &["ccc-low-three.md"],
        &[],
    );
    let b = store.find("bbb").unwrap();
    let c = store.find("ccc").unwrap();
    let e = store.reorder(&c, "top", None).unwrap_err();
    assert!(matches!(e, MothError::NotPrioritized { .. }));
    assert_eq!(e.message(), "Status 'doing' is not configured for prioritization");
    assert_eq!(e.kind(), ErrorKind::Conflict);
    let e = store.reorder(&c, "nonsense", None).unwrap_err();
    assert!(matches!(e, MothError::NotPrioritized { .. }));
    let e = store.reorder(&b, "nonsense", None).unwrap_err();
    assert!(matches!(e, MothError::InvalidPosition { .. }));
    assert_eq!(e.message(), "Invalid position: nonsense");
    assert_eq!(e.kind(), ErrorKind::InvalidInput);
    let e = store.reorder(&b, "above", None).unwrap_err();
    assert!(matches!(e, MothError::MissingTarget { above: true }));
    assert_eq!(e.message(), "Missing target issue ID for 'above'");
    let e = store.reorder(&b, "below", None).unwrap_err();
    assert!(matches!(e, MothError::MissingTarget { above: false }));
    let e = store.reorder(&b, "above", Some("zzz")).unwrap_err();
    assert!(matches!(e, MothError::NotFound { .. }));
    assert_eq!(e.message(), "No issue found with ID: zzz");
    let e = store.reorder(&b, "below", Some("aaa")).unwrap_err();
    assert!(matches!(e, MothError::RankOverflow));
    let e = store.reorder(&b, "4294967296", None).unwrap_err();
    assert!(matches!(e, MothError::InvalidPosition { .. }));
    let mut stray = b.clone();
    stray.status = "nowhere".to_string();
    let e = store.reorder(&stray, "top", None).unwrap_err();
    assert!(matches!(e, MothError::UnknownStatus { .. }));
    assert_eq!(e.kind(), ErrorKind::NotFound);
    let mut stray = b.clone();
    stray.path = ".moth/ready/gone.md".to_string();
    let e = store.reorder(&stray, "top", None).unwrap_err();
    assert!(matches!(e, MothError::MissingFile { .. }));
}

#[test]
fn positions_are_read() {
    assert!(matches!(parse_position("top", None), Ok(Position::Top)));
    assert!(matches!(parse_position("bottom", Some("x")), Ok(Position::Bottom)));
    assert!(matches!(parse_position("7", None), Ok(Position::At(7))));
    assert!(matches!(parse_position("+7", None), Ok(Position::At(7))));
    match parse_position("above:abc", None) {
        Ok(Position::Above(id)) => assert_eq!(id, "abc"),
        _ => panic!("above:abc"),
    }
    match parse_position("below", Some("abc")) {
        Ok(Position::Below(id)) => assert_eq!(id, "abc"),
        _ => panic!("below abc"),
    }
    assert!(parse_position("Top", None).is_err());
    assert!(parse_position("", None).is_err());
    assert!(parse_position("-1", None).is_err());
}

#[test]
fn compaction_makes_the_orders_dense() {
    let mut store = store_of(
        &["005-aaa-low-one.md", "005-bbb-low-two.md", "001-ccc-low-three.md", "ddd-low-four.md", "030-eee-crit-five.md"],
        &[],
        &[],
    );
    let steps = store.compact_status("ready").unwrap();
    let ready = store.issues_by_status("ready").unwrap();
    assert_eq!(ids(&ready), vec!["ccc", "aaa", "bbb", "eee", "ddd"]);
    assert_eq!(orders(&ready), vec![Some(1), Some(2), Some(3), Some(4), None]);
    assert_eq!(ready[1].path, ".moth/ready/002-aaa-low-one.md");
    let moves: Vec<(String, String)> = steps.iter().map(|s| (s.from.clone(), s.to.clone())).collect();
    assert_eq!(
        moves,
        vec![
            (".moth/ready/005-aaa-low-one.md".to_string(), ".moth/ready/002-aaa-low-one.md".to_string()),
            (".moth/ready/005-bbb-low-two.md".to_string(), ".moth/ready/003-bbb-low-two.md".to_string()),
            (".moth/ready/030-eee-crit-five.md".to_string(), ".moth/ready/004-eee-crit-five.md".to_string()),
        ]
    );
}

#[test]
fn compaction_twice_is_compaction_once() {
    let mut store = store_of(
        &["009-aaa-low-one.md", "003-bbb-low-two.md", "003-ccc-low-three.md", "ddd-low-four.md"],
        &[],
        &[],
    );
    store.compact_status("ready").unwrap();
    let once = store.issues_by_status("ready").unwrap();
    let steps = store.compact_status("ready").unwrap();
    assert!(steps.is_empty());
    let twice = store.issues_by_status("ready").unwrap();
    assert_eq!(ids(&once), ids(&twice));
    assert_eq!(orders(&once), orders(&twice));
    let paths = |v: &[Issue]| v.iter().map(|i| i.path.clone()).collect::<Vec<String>>();
    assert_eq!(paths(&once), paths(&twice));
}

#[test]
fn compaction_errors_and_all_statuses() {
    let mut store = store_of(&["005-aaa-low-one.md"], &["bbb-low-two.md"], &[]);
    let e = store.compact_status("doing").unwrap_err();
    assert!(matches!(e, MothError::NotPrioritized { .. }));
    let e = store.compact(Some("nowhere")).unwrap_err();
    assert!(matches!(e, MothError::UnknownStatus { .. }));
    assert_eq!(e.message(), "Unknown status: nowhere");
    assert_eq!(e.kind(), ErrorKind::NotFound);
    let steps = store.compact(None).unwrap();
    assert_eq!(steps.len(), 1);
    assert_eq!(steps[0].to, ".moth/ready/001-aaa-low-one.md");
    assert!(store.compact(Some("ready")).unwrap().is_empty());
}

#[test]
fn a_store_needs_a_valid_configuration_and_all_directories() {
    let mut bad = config();
    bad.id_length = 2;
    let e = Store::new(bad, vec![Some(vec![]), Some(vec![]), Some(vec![])]).err().unwrap();
    assert!(matches!(e, MothError::InvalidIdLength { found: 2 }));
    let e = Store::new(config(), vec![Some(vec![]), None, Some(vec![])]).err().unwrap();
    assert!(matches!(e, MothError::MissingDirectory { .. }));
    assert_eq!(
        e.message(),
        "Status directory does not exist: .moth/doing. Try running 'moth init' first."
    );
    assert_eq!(e.kind(), ErrorKind::IoFailure);
    let e = Store::new(config(), vec![Some(vec![])]).err().unwrap();
    assert_eq!(
        e.message(),
        "Status directory does not exist: .moth/doing. Try running 'moth init' first."
    );
}

#[test]
fn other_error_messages() {
    assert_eq!(MothError::EmptyTitle.message(), "Issue title cannot be empty");
    assert_eq!(MothError::EmptyTitle.kind(), ErrorKind::InvalidInput);
    assert_eq!(
        MothError::IdsExhausted.message(),
        "Failed to generate unique ID after 100 attempts"
    );
    assert_eq!(MothError::IdsExhausted.kind(), ErrorKind::ResourceExhausted);
    assert_eq!(MothError::RankOverflow.kind(), ErrorKind::InvalidInput);
    assert_eq!(MothError::NotFound { id: "x".to_string() }.kind(), ErrorKind::NotFound);
}

#[test]
fn a_title_without_letters_or_digits_is_refused() {
    let mut store = fresh_store();
    let e = store.create_issue("?!", Severity::Low).unwrap_err();
    assert!(matches!(e, MothError::EmptyTitle));
    let e = store.create_issue("   ", Severity::Low).unwrap_err();
    assert!(matches!(e, MothError::EmptyTitle));
    assert!(store.all_issues().unwrap().is_empty());
}

#[test]
fn generated_ids_are_free() {
    let mut store = fresh_store();
    for n in 0..40 {
        let issue = store.create_issue(&format!("Issue {}", n), Severity::Low).unwrap();
        assert_eq!(store.find(&issue.id).unwrap().slug, format!("issue_{}", n));
    }
    let mut all = ids(&store.all_issues().unwrap());
    all.sort();
    all.dedup();
    assert_eq!(all.len(), 40);
    let id = store.generate_unique_id().unwrap();
    assert!(store.id_is_free(&id));
    assert_eq!(id.len(), 5);
}

#[test]
fn listing_helpers() {
    let store = store_of(&["aaa-low-one_two.md", "bbb-crit-x.md"], &[], &[]);
    let ready = store.issues_by_status("ready").unwrap();
    let low = filter_by_severity(&ready, Some(Severity::Low));
    assert_eq!(ids(&low), vec!["aaa"]);
    assert_eq!(filter_by_severity(&ready, None).len(), 2);
    assert_eq!(filter_by_severity(&ready, Some(Severity::Med)).len(), 0);
    assert_eq!(issue_line(&low[0], "low"), "  aaa [low] One Two");
    assert_eq!(
        statuses_to_list(store.config(), None, true),
        vec!["ready".to_string(), "doing".to_string(), "done".to_string()]
    );
    assert_eq!(statuses_to_list(store.config(), Some("x"), true), vec!["x".to_string()]);
}

#[test]
fn the_current_issue_is_the_one_changed_last() {
    let entries = vec![
        TimedEntry { name: "aaa-low-one.md".to_string(), modified: 10 },
        TimedEntry { name: "bbb-low-two.md".to_string(), modified: 30 },
        TimedEntry { name: "ccc-low-three.md".to_string(), modified: 20 },
        TimedEntry { name: "notes.txt".to_string(), modified: 99 },
    ];
    assert_eq!(current_issue(&entries, ".moth/doing", "doing").unwrap().id, "bbb");
    let entries = vec![
        TimedEntry { name: "aaa-low-one.md".to_string(), modified: 10 },
        TimedEntry { name: "broken.md".to_string(), modified: 30 },
        TimedEntry { name: "ccc-low-three.md".to_string(), modified: 20 },
    ];
    assert_eq!(current_issue(&entries, ".moth/doing", "doing").unwrap().id, "aaa");
    let entries = vec![TimedEntry { name: "aaa-low-one.md".to_string(), modified: 0 }];
    assert!(current_issue(&entries, ".moth/doing", "doing").is_none());
    let mut config = config();
    config.statuses.remove(1);
    let store = match Store::new(config, vec![Some(vec![]), Some(vec![])]) {
        Ok(store) => store,
        Err(e) => panic!("{}", e.message()),
    };
    assert!(matches!(store.current(&entries), Err(MothError::UnknownStatus { .. })));
}

#[test]
fn listing_an_unknown_status_finds_nothing() {
    let store = store_of(&["aaa-low-one.md"], &[], &[]);
    let e = store.issues_by_status("nowhere").unwrap_err();
    assert!(matches!(e, MothError::UnknownStatus { .. }));
    assert_eq!(e.kind(), ErrorKind::NotFound);
    assert_eq!(e.message(), "Unknown status: nowhere");
    assert_eq!(store.all_issues().unwrap().len(), 1);
}

#[test]
fn the_search_for_an_identifier_stops_at_the_bound() {
    assert_eq!(MAX_ID_ATTEMPTS, 100);
    assert_eq!(next_id_step(1, true), IdStep::Take);
    assert_eq!(next_id_step(100, true), IdStep::Take);
    assert_eq!(next_id_step(1, false), IdStep::Again);
    assert_eq!(next_id_step(99, false), IdStep::Again);
    assert_eq!(next_id_step(100, false), IdStep::GiveUp);
}

#[test]
fn a_new_identifier_has_the_configured_length() {
    for length in 3..=10 {
        let mut config = config();
        config.id_length = length;
        let mut store =
            match Store::new(config, vec![Some(vec![]), Some(vec![]), Some(vec![])]) {
                Ok(store) => store,
                Err(e) => panic!("{}", e.message()),
            };
        let issue = store.create_issue("Some title", Severity::Low).unwrap();
        assert_eq!(issue.id.len(), length);
        assert!(is_id_text(&issue.id));
        assert_eq!(store.all_issues().unwrap().len(), 1);
    }
}

#[test]
fn what_is_found_is_held_by_the_store() {
    let mut store = store_of(&["002-aaa-low-one.md", "abc-crit-x.md"], &["bbb-low-two.md"], &[]);
    for id in ["aa", "abc", "b"] {
        let found = store.find(id).unwrap();
        assert!(found.id.starts_with(id));
        let (status, place) = store.locate(&found).unwrap();
        assert_eq!(store.list(status)[place].path, found.path);
        assert_eq!(store.list(status)[place].id, found.id);
    }
    let found = store.find("bbb").unwrap();
    assert!(store.set_priority("aaa", "top", None, None).is_ok());
    assert!(store.delete_issue(&found).is_ok());
    assert!(store.locate(&found).is_none());
}

#[test]
fn compaction_of_all_statuses_is_all_or_nothing() {
    let mut config = config();
    config.statuses[1].prioritized = false;
    config.statuses.push(StatusConfig {
        name: "doing".to_string(),
        dir: "later".to_string(),
        prioritized: true,
    });
    let mut store = match Store::new(
        config,
        vec![
            Some(vec!["005-aaa-low-one.md".to_string()]),
            Some(vec![]),
            Some(vec![]),
            Some(vec![]),
        ],
    ) {
        Ok(store) => store,
        Err(e) => panic!("{}", e.message()),
    };
    let e = store.compact(None).unwrap_err();
    assert!(matches!(e, MothError::NotPrioritized { .. }));
    assert_eq!(e.message(), "Status 'doing' is not configured for prioritization");
    assert_eq!(orders(&store.issues_by_status("ready").unwrap()), vec![Some(5)]);
    let steps = store.compact(Some("ready")).unwrap();
    assert_eq!(steps.len(), 1);
    assert_eq!(orders(&store.issues_by_status("ready").unwrap()), vec![Some(1)]);
}
