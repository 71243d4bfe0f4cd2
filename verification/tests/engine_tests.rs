use oxidlog::commands::add::{execute as add_execute, AddArgs};
use oxidlog::commands::remove::{execute as remove_execute, parse_range, RemoveArgs};
use oxidlog::commands::search::{execute as search_execute, search_entries, SearchArgs};
use oxidlog::commands::view::{execute as view_execute, view_by_id, ViewArgs};
use oxidlog::config::{Config, JournalConfig};
use oxidlog::date::{parse_date, Date, Timestamp};
use oxidlog::entry::Entry;
use oxidlog::error::JotError;
use oxidlog::journal::Journal;
use oxidlog::matching::{check_content_match, check_date_range, do_tags_match, fuzzy_match, TagMatch};
use oxidlog::tag::Tag;
use oxidlog::text::{extract_body, extract_tags, parse_tags, trim};

fn fixed_entry(id: usize, body: &str, tags: &[&str], day: u8) -> Entry {
    Entry {
        id,
        timestamp: Timestamp {
            date: Date { year: 2024, month: 5, day },
            hour: 12,
            minute: 30,
            second: 0,
        },
        date: Date { year: 2024, month: 5, day },
        body: body.to_string(),
        tags: tags.iter().map(|t| Tag::new(t.to_string())).collect(),
    }
}

fn default_cfg() -> JournalConfig {
    JournalConfig {
        body_tags: false,
        show_time: false,
        export_dir: "exports".to_string(),
    }
}

#[test]
fn extract_tags_empty_without_hash_tokens() {
    assert!(extract_tags("went for a walk in the park").is_empty());
    assert!(extract_tags("x").is_empty());
    assert!(extract_tags("   spaced   words   ").is_empty());
}

#[test]
fn extract_tags_finds_hash_tokens() {
    let tags = extract_tags("had some fun #foo today #bar #foo");
    let names: Vec<&str> = tags.iter().map(|t| t.name.as_str()).collect();
    assert_eq!(names, vec!["foo", "bar", "foo"]);
}

#[test]
fn tag_from_hash_strips_markers() {
    assert_eq!(Tag::from_hash("#foo").name, "foo");
    assert_eq!(Tag::from_hash("##foo").name, "foo");
    assert_eq!(Tag::from_hash("plain").name, "plain");
}

#[test]
fn parse_tags_splits_on_whitespace() {
    let tags = parse_tags("alpha beta  gamma");
    let names: Vec<&str> = tags.iter().map(|t| t.name.as_str()).collect();
    assert_eq!(names, vec!["alpha", "beta", "gamma"]);
}

#[test]
fn trim_removes_surrounding_whitespace() {
    assert_eq!(trim("  hello world \n"), "hello world");
    assert_eq!(trim("\t\n  "), "");
}

#[test]
fn extract_body_hides_or_keeps_tags() {
    assert_eq!(extract_body("a #x b #y", false), "a b");
    assert_eq!(extract_body("a #x b #y", true), "a #x b #y");
}

#[test]
fn tag_match_all_vs_any() {
    let query = vec![Tag::new("a".to_string()), Tag::new("b".to_string())];
    let entry = vec![Tag::new("a".to_string())];
    assert!(!do_tags_match(&query, &entry, TagMatch::All));
    assert!(do_tags_match(&query, &entry, TagMatch::Any));
    let empty: Vec<Tag> = vec![];
    assert!(do_tags_match(&empty, &entry, TagMatch::All));
    assert!(do_tags_match(&empty, &entry, TagMatch::Any));
}

#[test]
fn date_range_includes_and_excludes() {
    let d = parse_date("2024-05-10").unwrap();
    let from = parse_date("2024-05-01");
    let to = parse_date("2024-05-31");
    assert!(check_date_range(&d, &from, &to));
    let to_early = parse_date("2024-05-09");
    assert!(!check_date_range(&d, &None, &to_early));
}

#[test]
fn parse_date_rejects_malformed() {
    assert!(parse_date("2024-02-30").is_none());
    assert!(parse_date("2024-13-01").is_none());
    assert!(parse_date("2024-5-1").is_none());
    assert!(parse_date("not a date").is_none());
    assert_eq!(
        parse_date("2024-02-29"),
        Some(Date { year: 2024, month: 2, day: 29 })
    );
    assert!(parse_date("2023-02-29").is_none());
}

#[test]
fn fuzzy_match_subsequence() {
    assert!(fuzzy_match("journal", "jrnl"));
    assert!(!fuzzy_match("journal", "xyz"));
    assert!(fuzzy_match("journal", ""));
    assert!(!fuzzy_match("journal", "lx"));
}

#[test]
fn content_match_substring_and_fuzzy() {
    assert!(check_content_match("had coffee this morning", "coffee", false));
    assert!(!check_content_match("had tea", "coffee", false));
    assert!(check_content_match("had coffee", "hce", true));
}

#[test]
fn add_entry_hides_tags_in_body() {
    let mut journal = Journal::new("j.json".to_string());
    let args = AddArgs { content: "Went for a run #fitness #morning".to_string() };
    let cfg = default_cfg();
    let id = add_execute(&mut journal, &args, &cfg).unwrap();
    let stored = journal.get_entry(id).unwrap();
    assert_eq!(stored.body, "Went for a run");
    let names: Vec<&str> = stored.tags.iter().map(|t| t.name.as_str()).collect();
    assert_eq!(names, vec!["fitness", "morning"]);
}

#[test]
fn add_rejects_empty_content() {
    let mut journal = Journal::new("j.json".to_string());
    let args = AddArgs { content: "   \n ".to_string() };
    let cfg = default_cfg();
    let r = add_execute(&mut journal, &args, &cfg);
    assert!(matches!(r, Err(JotError::AddError(_))));
    assert_eq!(journal.entries().len(), 0);
}

#[test]
fn parse_range_accepts_and_rejects() {
    assert_eq!(parse_range("2..4").unwrap(), (2, 4));
    assert!(matches!(parse_range("2-4"), Err(JotError::RemoveError(_))));
    assert!(matches!(parse_range("..4"), Err(JotError::RemoveError(_))));
    assert!(matches!(parse_range("2.."), Err(JotError::RemoveError(_))));
    assert!(matches!(parse_range("a..b"), Err(JotError::RemoveError(_))));
}

fn journal_with_ids(n: usize) -> Journal {
    let mut journal = Journal::new("j.json".to_string());
    for i in 0..n {
        journal.add_entry(fixed_entry(0, &format!("entry {}", i), &[], 10));
    }
    journal
}

#[test]
fn remove_range_removes_all_when_present() {
    let mut journal = journal_with_ids(6);
    let args = RemoveArgs { id: None, range: Some("2..4".to_string()), from: None, to: None };
    let removed = remove_execute(&mut journal, &args).unwrap();
    assert_eq!(removed, vec![2, 3, 4]);
    assert_eq!(journal.entries().len(), 3);
    assert!(journal.get_entry(2).is_none());
    assert!(journal.get_entry(3).is_none());
    assert!(journal.get_entry(4).is_none());
    assert!(journal.get_entry(5).is_some());
}

#[test]
fn remove_range_stops_at_missing_id() {
    let mut journal = journal_with_ids(6);
    journal.remove_entry(3).unwrap();
    let args = RemoveArgs { id: None, range: Some("2..4".to_string()), from: None, to: None };
    let r = remove_execute(&mut journal, &args);
    assert!(matches!(r, Err(JotError::RemoveError(_))));
    // 2 was removed before the batch stopped at the missing 3; 4 remains.
    assert!(journal.get_entry(2).is_none());
    assert!(journal.get_entry(4).is_some());
}

#[test]
fn remove_with_no_selection_errors() {
    let mut journal = journal_with_ids(2);
    let args = RemoveArgs { id: None, range: None, from: None, to: None };
    assert!(matches!(remove_execute(&mut journal, &args), Err(JotError::RemoveError(_))));
    assert_eq!(journal.entries().len(), 2);
}

#[test]
fn remove_by_date_range() {
    let mut journal = Journal::new("j.json".to_string());
    journal.add_entry(fixed_entry(0, "early", &[], 5));
    journal.add_entry(fixed_entry(0, "mid", &[], 15));
    journal.add_entry(fixed_entry(0, "late", &[], 25));
    let args = RemoveArgs {
        id: None,
        range: None,
        from: Some("2024-05-10".to_string()),
        to: Some("2024-05-20".to_string()),
    };
    let removed = remove_execute(&mut journal, &args).unwrap();
    assert_eq!(removed, vec![1]);
    assert_eq!(journal.entries().len(), 2);
}

#[test]
fn search_case_insensitive_matches() {
    let mut journal = Journal::new("j.json".to_string());
    journal.add_entry(fixed_entry(0, "Had Coffee this morning", &[], 10));
    journal.add_entry(fixed_entry(0, "tea instead", &[], 10));
    let args = SearchArgs {
        query: "coffee".to_string(),
        tags: vec![],
        from: None,
        to: None,
        fuzzy: false,
        all: false,
        case_sensitive: false,
    };
    let found = search_entries(&journal, &args).unwrap();
    assert_eq!(found.len(), 1);
    assert_eq!(found[0].body, "Had Coffee this morning");
}

#[test]
fn search_case_sensitive_misses_folded_match() {
    let mut journal = Journal::new("j.json".to_string());
    journal.add_entry(fixed_entry(0, "Had Coffee this morning", &[], 10));
    let args = SearchArgs {
        query: "coffee".to_string(),
        tags: vec![],
        from: None,
        to: None,
        fuzzy: false,
        all: false,
        case_sensitive: true,
    };
    assert!(search_entries(&journal, &args).unwrap().is_empty());
}

#[test]
fn search_highlights_term() {
    let mut journal = Journal::new("j.json".to_string());
    journal.add_entry(fixed_entry(0, "tea time", &[], 10));
    let args = SearchArgs {
        query: "tea".to_string(),
        tags: vec![],
        from: None,
        to: None,
        fuzzy: false,
        all: false,
        case_sensitive: false,
    };
    let cfg = default_cfg();
    let lines = search_execute(&journal, &args, &cfg).unwrap();
    assert_eq!(lines.len(), 1);
    assert_eq!(
        lines[0],
        format!("[  0] 2024-05-10\n\x1b[42mtea\x1b[0m time\n{}", "-".repeat(40))
    );
}

#[test]
fn search_rejects_malformed_date() {
    let journal = Journal::new("j.json".to_string());
    let args = SearchArgs {
        query: "x".to_string(),
        tags: vec![],
        from: Some("05/01/2024".to_string()),
        to: None,
        fuzzy: false,
        all: false,
        case_sensitive: false,
    };
    assert!(matches!(search_entries(&journal, &args), Err(JotError::SearchError(_))));
}

#[test]
fn view_filters_by_tags_and_dates() {
    let mut journal = Journal::new("j.json".to_string());
    journal.add_entry(fixed_entry(0, "one", &["work"], 5));
    journal.add_entry(fixed_entry(0, "two", &["home"], 15));
    journal.add_entry(fixed_entry(0, "three", &["work", "home"], 25));
    let args = ViewArgs {
        id: None,
        from: Some("2024-05-10".to_string()),
        to: None,
        tags: vec!["work".to_string()],
        recent: false,
        all: false,
    };
    let cfg = default_cfg();
    let lines = view_execute(&journal, &args, &cfg).unwrap();
    assert_eq!(lines.len(), 1);
    assert!(lines[0].contains("three"));
}

#[test]
fn view_id_and_recent_conflict() {
    let journal = Journal::new("j.json".to_string());
    let args = ViewArgs {
        id: Some(0),
        from: None,
        to: None,
        tags: vec![],
        recent: true,
        all: false,
    };
    let cfg = default_cfg();
    assert!(matches!(
        view_execute(&journal, &args, &cfg),
        Err(JotError::CommandError(_))
    ));
}

#[test]
fn view_by_id_reports_missing() {
    let journal = Journal::new("j.json".to_string());
    assert_eq!(view_by_id(&journal, 999), "Entry with id 999 not found");
}

#[test]
fn view_recent_shows_last_entry() {
    let mut journal = Journal::new("j.json".to_string());
    journal.add_entry(fixed_entry(0, "first", &[], 5));
    journal.add_entry(fixed_entry(0, "last", &[], 6));
    let args = ViewArgs {
        id: None,
        from: None,
        to: None,
        tags: vec![],
        recent: true,
        all: false,
    };
    let cfg = default_cfg();
    let lines = view_execute(&journal, &args, &cfg).unwrap();
    assert_eq!(lines.len(), 1);
    assert!(lines[0].contains("last"));
}

#[test]
fn error_messages_carry_class_prefix() {
    let e = JotError::AddError("Entry cannot be empty".to_string());
    assert_eq!(e.message(), "Failed to add entry: Entry cannot be empty");
    let e = JotError::RemoveError("Entry with ID 3 not found".to_string());
    assert_eq!(e.message(), "Failed to remove entry: Entry with ID 3 not found");
}
