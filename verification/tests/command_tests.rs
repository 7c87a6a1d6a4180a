use moth::commands::{compaction_asked, id_in_name, names_issue, opens_editor, story_ids};
use moth::config::Config;
use moth::error::MothError;
use moth::hook::{plan_guide, plan_install, plan_uninstall, strip_sections, InstallKind, UninstallKind};
use moth::issue::Issue;
use moth::report::{collect_stories, commit_rows, CommitInfo, StoryMap, TreeEntry, TreeFile};
use moth::store::Store;

const MARKER: &str = "# MARK";
const SCRIPT: &str = "#!/bin/sh\n# MARK - keep\necho hook\n";

fn store_with(ready: &[&str], auto_compact: bool) -> Store {
    let mut config = Config::default();
    config.moth_dir = ".moth".to_string();
    config.priority.auto_compact = auto_compact;
    let names = ready.iter().map(|n| n.to_string()).collect::<Vec<String>>();
    match Store::new(config, vec![Some(names), Some(vec![]), Some(vec![])]) {
        Ok(store) => store,
        Err(e) => panic!("{}", e.message()),
    }
}

fn orders(issues: &[Issue]) -> Vec<Option<u32>> {
    issues.iter().map(|i| i.order).collect()
}

#[test]
fn test_done_moves_current_issue() {
    let mut store = store_with(&["003-aaa-low-one.md"], false);
    let issue = store.find("aaa").unwrap();
    let started = store.start_issue(&issue).unwrap();
    assert_eq!(started.status, "doing");
    assert_eq!(started.order, None);
    let finished = store.finish_issue(&started).unwrap();
    assert_eq!(finished.status, "done");
    assert_eq!(finished.path, ".moth/done/aaa-low-one.md");
    let again = store.finish_issue(&finished).unwrap();
    assert_eq!(again.path, ".moth/done/aaa-low-one.md");
    assert_eq!(store.issues_by_status("done").unwrap().len(), 1);
    assert!(store.issues_by_status("ready").unwrap().is_empty());
}

#[test]
fn set_priority_without_compaction() {
    let mut store = store_with(&["005-aaa-low-one.md", "009-bbb-low-two.md"], false);
    let change = store.set_priority("bb", "top", None, None).unwrap();
    assert_eq!(change.found.path, ".moth/ready/009-bbb-low-two.md");
    assert_eq!(change.now.path, ".moth/ready/004-bbb-low-two.md");
    assert!(change.compaction.is_none());
    assert_eq!(orders(&store.issues_by_status("ready").unwrap()), vec![Some(4), Some(5)]);
}

#[test]
fn set_priority_with_compaction() {
    let mut store = store_with(&["005-aaa-low-one.md", "009-bbb-low-two.md"], false);
    let change = store.set_priority("bb", "top", None, Some(true)).unwrap();
    assert_eq!(change.now.order, Some(4));
    let steps = change.compaction.unwrap();
    assert_eq!(steps.len(), 2);
    assert_eq!(steps[0].from, ".moth/ready/004-bbb-low-two.md");
    assert_eq!(steps[0].to, ".moth/ready/001-bbb-low-two.md");
    assert_eq!(steps[1].to, ".moth/ready/002-aaa-low-one.md");
    assert_eq!(orders(&store.issues_by_status("ready").unwrap()), vec![Some(1), Some(2)]);

    let mut store = store_with(&["005-aaa-low-one.md", "009-bbb-low-two.md"], true);
    let change = store.set_priority("aaa", "bottom", None, None).unwrap();
    assert_eq!(change.now.order, None);
    assert_eq!(change.compaction.unwrap().len(), 1);
    let change = store.set_priority("aaa", "7", None, Some(false)).unwrap();
    assert!(change.compaction.is_none());
    assert_eq!(orders(&store.issues_by_status("ready").unwrap()), vec![Some(1), Some(7)]);
}

#[test]
fn set_priority_errors() {
    let mut store = store_with(&["005-aaa-low-one.md", "009-abb-low-two.md"], true);
    assert!(matches!(
        store.set_priority("zzz", "top", None, None),
        Err(MothError::NotFound { .. })
    ));
    assert!(matches!(
        store.set_priority("a", "top", None, None),
        Err(MothError::Ambiguous { .. })
    ));
    assert!(matches!(
        store.set_priority("aaa", "upwards", None, None),
        Err(MothError::InvalidPosition { .. })
    ));
    assert_eq!(orders(&store.issues_by_status("ready").unwrap()), vec![Some(5), Some(9)]);
}

#[test]
fn small_decisions() {
    assert!(names_issue(" abc12\n", "abc12"));
    assert!(!names_issue("abc123", "abc12"));
    assert!(opens_editor(false, false));
    assert!(!opens_editor(true, false));
    assert!(!opens_editor(false, true));
    assert_eq!(compaction_asked(true, true), Some(true));
    assert_eq!(compaction_asked(false, true), Some(false));
    assert_eq!(compaction_asked(false, false), None);
}

#[test]
fn ids_are_read_quickly_from_names() {
    assert_eq!(id_in_name("abc-high-x.md"), Some("abc".to_string()));
    assert_eq!(id_in_name("001-abc-high-x.md"), Some("abc".to_string()));
    assert_eq!(id_in_name("001-abc-x.md"), Some("abc".to_string()));
    assert_eq!(id_in_name("abc-high-x.md.md"), Some("abc".to_string()));
    assert_eq!(id_in_name("abc-high.md"), None);
    assert_eq!(id_in_name("abc-high-x.txt"), None);
    assert_eq!(id_in_name(".md"), None);
    let names: Vec<String> = ["zz9-low-a.md", "002-abc-high-x.md", "abc-low-y.md", "notes.txt", "mm5-med-b-c.md"]
        .iter()
        .map(|n| n.to_string())
        .collect();
    assert_eq!(story_ids(&names), vec!["abc".to_string(), "mm5".to_string(), "zz9".to_string()]);
    assert!(story_ids(&Vec::new()).is_empty());
}

#[test]
fn installing_the_hook() {
    let (kind, text) = plan_install(None, MARKER, SCRIPT, false, false);
    assert_eq!(kind, InstallKind::Installed);
    assert_eq!(text.unwrap(), SCRIPT);
    let (kind, text) = plan_install(Some(SCRIPT), MARKER, SCRIPT, false, true);
    assert_eq!(kind, InstallKind::AlreadyInstalled);
    assert!(text.is_none());
    let (kind, text) = plan_install(Some("echo other\n"), MARKER, SCRIPT, false, false);
    assert_eq!(kind, InstallKind::Refused);
    assert!(text.is_none());
    let (kind, text) = plan_install(Some("echo other\n"), MARKER, SCRIPT, false, true);
    assert_eq!(kind, InstallKind::Appended);
    assert_eq!(text.unwrap(), format!("echo other\n\n\n{}", SCRIPT));
    let (kind, text) = plan_install(Some("echo other\n"), MARKER, SCRIPT, true, false);
    assert_eq!(kind, InstallKind::Replaced);
    assert_eq!(text.unwrap(), SCRIPT);
    let (kind, _) = plan_install(Some(SCRIPT), MARKER, SCRIPT, true, true);
    assert_eq!(kind, InstallKind::Appended);
    let (kind, _) = plan_install(Some(""), "", SCRIPT, false, false);
    assert_eq!(kind, InstallKind::AlreadyInstalled);
}

#[test]
fn taking_the_hook_out() {
    let (kind, text) = plan_uninstall("echo other\n", MARKER, SCRIPT);
    assert_eq!(kind, UninstallKind::Foreign);
    assert!(text.is_none());
    let padded = format!("\n{}\n\n", SCRIPT);
    let (kind, text) = plan_uninstall(&padded, MARKER, SCRIPT);
    assert_eq!(kind, UninstallKind::Removed);
    assert!(text.is_none());
    let mixed = "line one\r\n# MARK start\nours\n# MARK end\nline two\n\nline three";
    let (kind, text) = plan_uninstall(mixed, MARKER, SCRIPT);
    assert_eq!(kind, UninstallKind::Rewritten);
    assert_eq!(text.unwrap(), "line one\nline two\n\nline three");
    assert_eq!(strip_sections("a\n# MARK\nb\nc\n", MARKER), "a");
    assert_eq!(strip_sections("", MARKER), "");
    assert_eq!(strip_sections("a\r\nb\r", MARKER), "a\nb\r");
}

#[test]
fn appending_the_guide() {
    assert_eq!(plan_guide(None, "# Guide", "# Guide\ntext\n").unwrap(), "# Guide\ntext\n");
    assert!(plan_guide(Some("intro\n# Guide\nold"), "# Guide", "# Guide\ntext\n").is_none());
    assert_eq!(
        plan_guide(Some("intro"), "# Guide", "# Guide\ntext\n").unwrap(),
        "intro\n\n---\n\n# Guide\ntext\n"
    );
}

fn file(name: &str, content: Option<&str>) -> TreeFile {
    TreeFile { name: name.to_string(), content: content.map(|c| c.to_string()) }
}

#[test]
fn stories_of_a_commit() {
    let entries = vec![
        TreeEntry { name: "config.yml".to_string(), is_dir: false, files: vec![] },
        TreeEntry {
            name: ".hidden".to_string(),
            is_dir: true,
            files: vec![file("hid-low-x.md", Some("h"))],
        },
        TreeEntry {
            name: "ready".to_string(),
            is_dir: true,
            files: vec![
                file("abc-high-one.md", Some("first")),
                file("notes.txt", Some("n")),
                file("bad.md", Some("b")),
                file("xyz-low-lost.md", None),
            ],
        },
        TreeEntry {
            name: "doing".to_string(),
            is_dir: true,
            files: vec![file("def-med-two-words.md", Some("second")), file("abc-low-one.md", Some("third"))],
        },
    ];
    let stories = collect_stories(&entries);
    assert_eq!(stories.len(), 2);
    let abc = stories.get("abc").unwrap();
    assert_eq!(abc.column, "doing");
    assert_eq!(abc.key.severity, "low");
    assert_eq!(abc.content, "third");
    let def = stories.get("def").unwrap();
    assert_eq!(def.key.slug, "two-words");
    assert!(stories.get("hid").is_none());
    assert!(stories.get("xyz").is_none());
}

#[test]
fn rows_of_a_commit() {
    let prev = collect_stories(&vec![TreeEntry {
        name: "ready".to_string(),
        is_dir: true,
        files: vec![file("bbb-high-one.md", Some("x")), file("aaa-low-two.md", Some("y"))],
    }]);
    let current = collect_stories(&vec![TreeEntry {
        name: "doing".to_string(),
        is_dir: true,
        files: vec![file("bbb-high-one.md", Some("x"))],
    }]);
    let commit = CommitInfo {
        sha: "abc".to_string(),
        seconds: 0,
        name: "N".to_string(),
        email: "e@x".to_string(),
    };
    let rows = commit_rows(&prev, &current, &commit, "[aaa] Remove, for good\n\nbody");
    assert_eq!(
        rows,
        vec![
            "abc,1970-01-01T00:00:00Z,N,e@x,aaa,low,ready,deleted,".to_string(),
            "abc,1970-01-01T00:00:00Z,N,e@x,bbb,high,doing,moved,".to_string(),
            "abc,1970-01-01T00:00:00Z,N,e@x,aaa,low,ready,code_commit,\"Remove, for good\"".to_string(),
        ]
    );
    let rows = commit_rows(&current, &current, &commit, "[zzz] nothing known");
    assert!(rows.is_empty());
    let rows = commit_rows(&StoryMap::new(), &StoryMap::new(), &commit, "no prefix");
    assert!(rows.is_empty());
}

#[test]
fn test_done_no_args_finishes_current() {
    let mut store = store_with(&["aaa-med-test_issue.md"], false);
    let issue = store.find("aaa").unwrap();
    let started = store.start_issue(&issue).unwrap();

    let entries = vec![moth::display::TimedEntry { name: started.filename(), modified: 5 }];
    let current = store.current(&entries).unwrap().unwrap();
    let result = store.finish_issue(&current);
    assert!(result.is_ok());

    let done_issues = store.issues_by_status("done").unwrap();
    assert_eq!(done_issues.len(), 1);
    assert_eq!(done_issues[0].id, "aaa");
}

#[test]
fn test_done_no_args_no_current() {
    let store = store_with(&[], false);
    let current = store.current(&Vec::new()).unwrap();
    assert!(current.is_none());
}
