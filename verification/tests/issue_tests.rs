use moth::error::MothError;
use moth::ident::generate_id;
use moth::issue::Issue;
use moth::prefix::{extract_issue_id, parse_issue_prefix};
use moth::severity::Severity;
use moth::slug::{collapse_to_slug, title_to_slug};

#[test]
fn test_severity_from_str() {
    assert_eq!("crit".parse::<Severity>().unwrap(), Severity::Crit);
    assert_eq!("high".parse::<Severity>().unwrap(), Severity::High);
    assert_eq!("med".parse::<Severity>().unwrap(), Severity::Med);
    assert_eq!("low".parse::<Severity>().unwrap(), Severity::Low);
    assert!("invalid".parse::<Severity>().is_err());
}

#[test]
fn test_issue_title() {
    let issue = Issue {
        id: "abc123".to_string(),
        severity: Severity::High,
        slug: "fix_login_bug".to_string(),
        status: "ready".to_string(),
        path: "/test/abc123-high-fix_login_bug.md".to_string(),
        order: None,
    };
    assert_eq!(issue.title(), "Fix Login Bug");
}

#[test]
fn test_issue_filename() {
    let issue = Issue {
        id: "x7k2m".to_string(),
        severity: Severity::High,
        slug: "fix_login_bug".to_string(),
        status: "ready".to_string(),
        path: "/test/x7k2m-high-fix_login_bug.md".to_string(),
        order: None,
    };
    assert_eq!(issue.filename(), "x7k2m-high-fix_login_bug.md");
}

#[test]
fn test_issue_filename_with_order() {
    let issue = Issue {
        id: "x7k2m".to_string(),
        severity: Severity::High,
        slug: "fix_login_bug".to_string(),
        status: "ready".to_string(),
        path: "/test/001-x7k2m-high-fix_login_bug.md".to_string(),
        order: Some(1),
    };
    assert_eq!(issue.filename(), "001-x7k2m-high-fix_login_bug.md");
}

#[test]
fn test_generate_id() {
    let id = generate_id(5);
    assert_eq!(id.len(), 5);
    assert!(
        id.chars()
            .all(|c| c.is_ascii_lowercase() || c.is_ascii_digit())
    );
}

#[test]
fn test_extract_issue_id_valid() {
    assert_eq!(
        extract_issue_id("[abc12] Fix bug"),
        Some("abc12".to_string())
    );
}

#[test]
fn test_extract_issue_id_no_space() {
    assert_eq!(
        extract_issue_id("[abc12]Fix bug"),
        Some("abc12".to_string())
    );
}

#[test]
fn test_extract_issue_id_no_prefix() {
    assert_eq!(extract_issue_id("No prefix here"), None);
}

#[test]
fn test_extract_issue_id_uppercase_rejected() {
    assert_eq!(extract_issue_id("[ABC12] Upper"), None);
}

#[test]
fn test_extract_issue_id_special_chars_rejected() {
    assert_eq!(extract_issue_id("[abc-12] Hyphen"), None);
}

#[test]
fn test_extract_issue_id_empty_brackets() {
    assert_eq!(extract_issue_id("[] Empty"), None);
}

#[test]
fn test_extract_issue_id_multiline() {
    assert_eq!(
        extract_issue_id("[abc12] First line\nSecond line"),
        Some("abc12".to_string())
    );
}

#[test]
fn test_parse_issue_prefix_valid() {
    assert_eq!(
        parse_issue_prefix("[abc12] Fix bug"),
        Some(("abc12".to_string(), "Fix bug".to_string()))
    );
}

#[test]
fn test_parse_issue_prefix_no_message() {
    assert_eq!(
        parse_issue_prefix("[abc12]"),
        Some(("abc12".to_string(), "".to_string()))
    );
}

#[test]
fn test_parse_issue_prefix_extra_spaces() {
    assert_eq!(
        parse_issue_prefix("[abc12]   Lots of spaces"),
        Some(("abc12".to_string(), "Lots of spaces".to_string()))
    );
}

#[test]
fn test_parse_issue_prefix_no_prefix() {
    assert_eq!(parse_issue_prefix("No prefix"), None);
}

#[test]
fn test_title_to_slug() {
    assert_eq!(title_to_slug("Fix Login Bug"), "fix_login_bug");
    assert_eq!(title_to_slug("Add Dark Mode"), "add_dark_mode");
    assert_eq!(
        title_to_slug("Fix   Multiple   Spaces"),
        "fix_multiple_spaces"
    );
    assert_eq!(title_to_slug("API/REST endpoint"), "api_rest_endpoint");
}

#[test]
fn test_title_to_slug_edge_cases() {
    // Leading/trailing whitespace
    assert_eq!(title_to_slug("  trim me  "), "trim_me");
    // Special characters
    assert_eq!(title_to_slug("Fix #123: Bug!"), "fix_123_bug");
    // Mixed case
    assert_eq!(title_to_slug("CamelCase Title"), "camelcase_title");
    // Numbers
    assert_eq!(title_to_slug("Version 2.0 Release"), "version_2_0_release");
    // Underscores preserved
    assert_eq!(title_to_slug("snake_case_title"), "snake_case_title");
    // Empty after processing
    assert_eq!(title_to_slug("   "), "");
    // Unicode (non-ASCII becomes underscore)
    assert_eq!(title_to_slug("Caf√© Mode"), "caf_mode");
}

#[test]
fn collapse_keeps_the_case_and_drops_the_rest() {
    assert_eq!(collapse_to_slug("Fix Login"), "Fix_Login");
    assert_eq!(collapse_to_slug("__a__b__"), "a_b");
    assert_eq!(collapse_to_slug(""), "");
    assert_eq!(collapse_to_slug("-"), "");
}

#[test]
fn generated_ids_start_with_a_letter() {
    for length in 0..12 {
        for _ in 0..50 {
            let id = generate_id(length);
            assert_eq!(id.len(), if length == 0 { 1 } else { length });
            assert!(id.chars().next().unwrap().is_ascii_lowercase());
            assert!(id.chars().all(|c| c.is_ascii_lowercase() || c.is_ascii_digit()));
        }
    }
}

#[test]
fn severity_words_and_order() {
    assert_eq!(Severity::Crit.as_str(), "crit");
    assert_eq!(Severity::High.as_str(), "high");
    assert_eq!(Severity::Med.as_str(), "med");
    assert_eq!(Severity::Low.as_str(), "low");
    assert!(Severity::Crit < Severity::High);
    assert!(Severity::High < Severity::Med);
    assert!(Severity::Med < Severity::Low);
    assert_eq!(Severity::parse("low"), Some(Severity::Low));
    assert_eq!(Severity::parse("Low"), None);
    assert_eq!(Severity::parse(""), None);
    let e = "urgent".parse::<Severity>().unwrap_err();
    assert!(matches!(e, MothError::InvalidSeverity { .. }));
    assert_eq!(
        e.message(),
        "Invalid severity: urgent. Must be one of: crit, high, med, low"
    );
}

#[test]
fn from_path_reads_the_file_name() {
    let issue = Issue::from_path("/work/.moth/ready/x7k2m-high-fix_login_bug.md", "ready").unwrap();
    assert_eq!(issue.id, "x7k2m");
    assert_eq!(issue.severity, Severity::High);
    assert_eq!(issue.slug, "fix_login_bug");
    assert_eq!(issue.status, "ready");
    assert_eq!(issue.path, "/work/.moth/ready/x7k2m-high-fix_login_bug.md");
    assert_eq!(issue.order, None);
}

#[test]
fn from_path_reads_an_order() {
    let issue = Issue::from_path("007-x7k2m-low-a.md", "ready").unwrap();
    assert_eq!(issue.order, Some(7));
    assert_eq!(issue.id, "x7k2m");
    assert_eq!(issue.severity, Severity::Low);
    assert_eq!(issue.slug, "a");
    let issue = Issue::from_path("1234-x7k2m-crit-a.md", "ready").unwrap();
    assert_eq!(issue.order, Some(1234));
    assert_eq!(issue.filename(), "1234-x7k2m-crit-a.md");
    let issue = Issue::from_path("000-x7k2m-crit-a.md", "ready").unwrap();
    assert_eq!(issue.order, Some(0));
}

#[test]
fn from_path_reads_a_hyphenated_slug() {
    let issue = Issue::from_path("abc123-high-fix-login-bug.md", "ready").unwrap();
    assert_eq!(issue.slug, "fix_login_bug");
    assert_eq!(issue.title(), "Fix Login Bug");
    assert_eq!(issue.filename(), "abc123-high-fix_login_bug.md");
}

#[test]
fn from_path_refuses_what_it_cannot_read() {
    let e = Issue::from_path("ready/only-two.md", "ready").unwrap_err();
    assert!(matches!(e, MothError::InvalidFilename));
    assert_eq!(
        e.message(),
        "Invalid filename format. Expected: [{order}-]{id}-{severity}-{slug}.md"
    );
    let e = Issue::from_path("ready/001-abc-high.md", "ready").unwrap_err();
    assert!(matches!(e, MothError::InvalidFilename));
    let e = Issue::from_path("ready/abc-urgent-slug.md", "ready").unwrap_err();
    assert!(matches!(e, MothError::InvalidSeverity { .. }));
    assert_eq!(
        e.message(),
        "Invalid severity: urgent. Must be one of: crit, high, med, low"
    );
    assert!(Issue::from_path("", "ready").is_err());
    assert!(Issue::from_path("99999999999-abc-high-x.md", "ready").is_err());
}

#[test]
fn encoding_and_decoding_agree() {
    for order in [None, Some(0u32), Some(1), Some(42), Some(999), Some(1000), Some(u32::MAX)] {
        for severity in [Severity::Crit, Severity::High, Severity::Med, Severity::Low] {
            let issue = Issue {
                id: "a1b2c".to_string(),
                severity,
                slug: "some_slug_9".to_string(),
                status: "ready".to_string(),
                path: String::new(),
                order,
            };
            let back = Issue::from_path(&issue.filename(), "ready").unwrap();
            assert_eq!(back.id, issue.id);
            assert_eq!(back.severity, issue.severity);
            assert_eq!(back.slug, issue.slug);
            assert_eq!(back.order, issue.order);
        }
    }
}

#[test]
fn titles_of_single_words_and_empty_slugs() {
    let mut issue = Issue {
        id: "abc".to_string(),
        severity: Severity::Low,
        slug: "word".to_string(),
        status: "ready".to_string(),
        path: String::new(),
        order: None,
    };
    assert_eq!(issue.title(), "Word");
    issue.slug = String::new();
    assert_eq!(issue.title(), "");
    issue.slug = "a__b".to_string();
    assert_eq!(issue.title(), "A  B");
    issue.slug = "old-style".to_string();
    assert_eq!(issue.title(), "Old Style");
    issue.slug = "straße_x".to_string();
    assert_eq!(issue.title(), "Straße X");
    issue.slug = "ßa".to_string();
    assert_eq!(issue.title(), "SSa");
}

#[test]
fn issue_files_end_in_md() {
    assert!(Issue::is_issue_file("abc-high-x.md"));
    assert!(Issue::is_issue_file("a.b.md"));
    assert!(!Issue::is_issue_file(".md"));
    assert!(!Issue::is_issue_file("abc-high-x.txt"));
    assert!(!Issue::is_issue_file("abc-high-x"));
    assert!(!Issue::is_issue_file("abc-high-x.MD"));
}

#[test]
fn prefixes_on_first_lines_only() {
    assert_eq!(extract_issue_id(""), None);
    assert_eq!(extract_issue_id("\n[abc] x"), None);
    assert_eq!(extract_issue_id("[abc"), None);
    assert_eq!(extract_issue_id("[abc\n] x"), None);
    assert_eq!(extract_issue_id(" [abc] x"), None);
    assert_eq!(extract_issue_id("[0] x"), Some("0".to_string()));
    assert_eq!(
        parse_issue_prefix("[abc12] \t Fix\r\nmore"),
        Some(("abc12".to_string(), "Fix".to_string()))
    );
    assert_eq!(
        parse_issue_prefix("[abc12] Fix\r"),
        Some(("abc12".to_string(), "Fix\r".to_string()))
    );
}

#[test]
fn ascii_capitals_are_made_small() {
    assert_eq!(moth::slug::lower_ascii("AbC-Zé_09 À"), "abc-zé_09 À");
    assert_eq!(moth::slug::lower_ascii(""), "");
    assert_eq!(title_to_slug("ABC xyz"), "abc_xyz");
    assert_eq!(title_to_slug("_a__B_"), "a_b");
    for title in ["Fix Login Bug", "  __x  ", "İstanbul KELVIN K", "a-b.c/d"] {
        let slug = title_to_slug(title);
        assert!(slug.chars().all(|c| c.is_ascii_lowercase() || c.is_ascii_digit() || c == '_'));
        assert!(!slug.starts_with('_') && !slug.ends_with('_') && !slug.contains("__"));
    }
}
