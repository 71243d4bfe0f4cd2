use oxidlog::codec::{parse_entries, serialize_entries};
use oxidlog::commands::export::{
    export_to_csv, export_to_json, export_to_plain, generate_filename, ExportFormat,
};
use oxidlog::commands::init::{build_config, empty_journal_text};
use oxidlog::commands::backup::{parse_backup_action, BackupAction};
use oxidlog::config::{config_from_toml, config_to_toml, default_export_dir, Config};
use oxidlog::date::{Date, Timestamp};
use oxidlog::entry::Entry;
use oxidlog::journal::Journal;
use oxidlog::paths::{backup_path_for, get_config_path, get_journal_path, old_backup_path_for, temp_path_for};
use oxidlog::persist::{plan_backup_create, plan_backup_restore, plan_save, FsAction};
use oxidlog::render::{format_entry, format_single_entry};
use oxidlog::tag::Tag;

fn sample_entry(id: usize, body: &str, tags: &[&str], day: u8) -> Entry {
    Entry {
        id,
        timestamp: Timestamp {
            date: Date { year: 2024, month: 5, day },
            hour: 12,
            minute: 34,
            second: 56,
        },
        date: Date { year: 2024, month: 5, day },
        body: body.to_string(),
        tags: tags.iter().map(|t| Tag::new(t.to_string())).collect(),
    }
}

#[test]
fn test_config_default() {
    let config = Config::default();
    assert!(!config.journal_cfg.body_tags);
    assert!(!config.journal_cfg.show_time);
}

#[test]
fn test_config_serialization() {
    let mut config = Config::default();
    config.journal_cfg.body_tags = true;
    config.journal_cfg.show_time = true;

    let serialized = config_to_toml(&config);
    let deserialized: Config = config_from_toml(&serialized).unwrap();

    assert_eq!(deserialized.journal_cfg.body_tags, true);
    assert_eq!(deserialized.journal_cfg.show_time, true);
}

#[test]
fn config_file_shape_is_exact() {
    let config = Config::default();
    assert_eq!(
        config_to_toml(&config),
        "[journal_cfg]\nbody_tags = false\nshow_time = false\nexport_dir = \"exports\"\n"
    );
    assert_eq!(default_export_dir(), "exports");
}

#[test]
fn config_rejects_malformed_file() {
    assert!(config_from_toml("").is_none());
    assert!(config_from_toml("[journal_cfg]\nbody_tags = maybe\n").is_none());
}

#[test]
fn serialize_produces_canonical_record() {
    let entries = vec![sample_entry(1, "x", &["a"], 10)];
    let text = serialize_entries(&entries);
    assert_eq!(
        text,
        "[{\"id\":1,\"timestamp\":\"2024-05-10T12:34:56Z\",\"date\":\"2024-05-10\",\"body\":\"x\",\"tags\":[\"a\"]}]"
    );
}

#[test]
fn save_then_load_round_trips() {
    let entries = vec![
        sample_entry(0, "plain body", &[], 9),
        sample_entry(1, "tagged \"quoted\" body\nsecond line", &["work", "home"], 10),
        sample_entry(2, "tabs\tand\u{1}controls", &["x"], 11),
    ];
    let text = serialize_entries(&entries);
    let parsed = parse_entries(&text).unwrap();
    assert_eq!(parsed, entries);
}

#[test]
fn empty_journal_round_trips() {
    let entries: Vec<Entry> = vec![];
    let text = serialize_entries(&entries);
    assert_eq!(text, "[]");
    assert_eq!(parse_entries(&text).unwrap(), entries);
    assert_eq!(empty_journal_text(), "[]");
}

#[test]
fn load_rejects_malformed_content() {
    assert!(parse_entries("").is_none());
    assert!(parse_entries("not json").is_none());
    assert!(parse_entries("[{\"id\":1}]").is_none());
    assert!(parse_entries("[] trailing").is_none());
}

#[test]
fn journal_survives_codec_through_journal_type() {
    let mut journal = Journal::new("j.json".to_string());
    journal.add_entry(sample_entry(0, "first", &["t"], 10));
    journal.add_entry(sample_entry(0, "second", &[], 11));
    let text = serialize_entries(journal.entries());
    let loaded = Journal::from_entries("j.json".to_string(), parse_entries(&text).unwrap());
    assert_eq!(loaded.entries(), journal.entries());
    assert_eq!(loaded.path(), "j.json");
}

#[test]
fn format_entry_layout() {
    let e = sample_entry(7, "walked home", &["walk", "eve"], 10);
    assert_eq!(
        format_entry(&e, false),
        format!("[  7] 2024-05-10 walk eve\nwalked home\n{}", "-".repeat(40))
    );
    assert_eq!(
        format_entry(&e, true),
        format!("[  7] 2024-05-10 12:34 walk eve\nwalked home\n{}", "-".repeat(40))
    );
    let plain = sample_entry(123, "no tags", &[], 9);
    assert_eq!(
        format_entry(&plain, false),
        format!("[123] 2024-05-09\nno tags\n{}", "-".repeat(40))
    );
}

#[test]
fn format_single_entry_layout() {
    let e = sample_entry(2, "a body", &["t1", "t2"], 10);
    let expected = format!(
        "\n{}\nEntry #2\nDate: 2024-05-10\n\na body\n\nTags: #t1 #t2\n{}\n",
        "=".repeat(50),
        "=".repeat(50)
    );
    assert_eq!(format_single_entry(&e), expected);
}

#[test]
fn export_filenames_by_format() {
    assert_eq!(generate_filename(&ExportFormat::Json, "20240510_123456"), "journal_20240510_123456.json");
    assert_eq!(generate_filename(&ExportFormat::Csv, "ts"), "journal_ts.csv");
    assert_eq!(generate_filename(&ExportFormat::Plain, "ts"), "journal_ts.txt");
}

#[test]
fn export_json_matches_codec() {
    let entries = vec![sample_entry(0, "b", &[], 10)];
    assert_eq!(export_to_json(&entries), serialize_entries(&entries));
}

#[test]
fn export_csv_rows() {
    let entries = vec![
        sample_entry(0, "a, line\nbreak", &["t1", "t2"], 10),
        sample_entry(1, "plain", &[], 11),
    ];
    assert_eq!(
        export_to_csv(&entries),
        "date,title,body,tags\n2024-05-10,,a; line break,t1,t2\n2024-05-11,,plain,\n"
    );
}

#[test]
fn export_plain_blocks() {
    let entries = vec![sample_entry(0, "the body", &["t1", "t2"], 10)];
    assert_eq!(
        export_to_plain(&entries),
        "Date: 2024-05-10\nTags: t1, t2\n\nthe body\n\n---\n\n"
    );
}

#[test]
fn paths_compose() {
    assert_eq!(get_journal_path("/home/u/.oxidlog"), "/home/u/.oxidlog/journal.json");
    assert_eq!(get_config_path("/home/u/.oxidlog"), "/home/u/.oxidlog/config.toml");
    assert_eq!(temp_path_for("j.json"), "j.json.tmp");
    assert_eq!(backup_path_for("j.json"), "j.json.bak");
    assert_eq!(old_backup_path_for("j.json"), "j.json.bak.old");
}

#[test]
fn save_plan_shapes() {
    let plan = plan_save(true, true, "[]".to_string());
    assert_eq!(plan.len(), 6);
    assert!(matches!(plan[0], FsAction::CopyJournalToBackup));
    assert!(matches!(&plan[1], FsAction::WriteTemp(s) if s == "[]"));
    assert!(matches!(plan[2], FsAction::SyncTemp));
    assert!(matches!(plan[3], FsAction::RenameTempToJournal));
    assert!(matches!(plan[4], FsAction::RemoveOldBackup));
    assert!(matches!(plan[5], FsAction::RenameBackupToOld));

    let fresh = plan_save(false, false, "[]".to_string());
    assert_eq!(fresh.len(), 3);
    assert!(matches!(&fresh[0], FsAction::WriteTemp(s) if s == "[]"));
    assert!(matches!(fresh[1], FsAction::SyncTemp));
    assert!(matches!(fresh[2], FsAction::RenameTempToJournal));
}

#[test]
fn backup_plans() {
    let c = plan_backup_create();
    assert_eq!(c.len(), 1);
    assert!(matches!(c[0], FsAction::CopyJournalToBackup));
    let r = plan_backup_restore();
    assert_eq!(r.len(), 1);
    assert!(matches!(r[0], FsAction::CopyBackupToJournal));
}

#[test]
fn backup_action_words() {
    assert!(matches!(parse_backup_action("create"), Ok(BackupAction::Create)));
    assert!(matches!(parse_backup_action("c"), Ok(BackupAction::Create)));
    assert!(matches!(parse_backup_action("restore"), Ok(BackupAction::Restore)));
    assert!(matches!(parse_backup_action("r"), Ok(BackupAction::Restore)));
    assert!(parse_backup_action("wipe").is_err());
}

#[test]
fn build_config_uses_answers() {
    let c = build_config(Some("out".to_string()), true, false);
    assert!(c.journal_cfg.show_time);
    assert!(!c.journal_cfg.body_tags);
    assert_eq!(c.journal_cfg.export_dir, "out");
    let d = build_config(None, false, true);
    assert_eq!(d.journal_cfg.export_dir, "exports");
}
