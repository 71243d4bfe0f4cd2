use chrono::{Datelike, Timelike, Utc};
use oxidlog::clock::ClockReading;
use oxidlog::date::{Date, Timestamp};
use oxidlog::entry::Entry;
use oxidlog::journal::Journal;
use oxidlog::tag::Tag;

fn chrono_now_timestamp() -> Timestamp {
    let t = Utc::now().naive_utc();
    Timestamp {
        date: Date {
            year: t.year() as u16,
            month: t.month() as u8,
            day: t.day() as u8,
        },
        hour: t.hour() as u8,
        minute: t.minute() as u8,
        second: t.second() as u8,
    }
}

fn chrono_today() -> Date {
    let t = Utc::now().naive_utc().date();
    Date {
        year: t.year() as u16,
        month: t.month() as u8,
        day: t.day() as u8,
    }
}

#[test]
fn test_entry_creation() {
    let entry = Entry::new(
        1,
        "Test entry".to_string(),
        vec![Tag::new("test".to_string())],
    );
    assert_eq!(entry.id, 1);
    assert_eq!(entry.body, "Test entry");
    assert_eq!(entry.tags[0].name, "test");
    assert!(entry.timestamp.le(&chrono_now_timestamp()));
}

#[test]
fn test_entry_creation_with_details() {
    let body = "Test entry".to_string();
    let tags = vec![
        Tag::new("test".to_string()),
        Tag::new("important".to_string()),
    ];
    let entry = Entry::new(1, body.clone(), tags.clone());

    assert_eq!(entry.id, 1);
    assert_eq!(entry.body, body);
    assert_eq!(entry.tags, tags);
    assert!(entry.timestamp.le(&chrono_now_timestamp()));
    assert_eq!(entry.date, chrono_today());
}

#[test]
fn journal_test_journal_operations() {
    let path = String::from("test_journal.json");
    let mut journal = Journal::new(path.clone());

    journal.add_entry(Entry::new(0, "First entry".to_string(), vec![]));
    journal.add_entry(Entry::new(
        0,
        "Second entry".to_string(),
        vec![Tag::new("tag1".to_string())],
    ));

    assert_eq!(journal.entries().len(), 2);
    assert_eq!(journal.get_entry(0).unwrap().body, "First entry");
    assert_eq!(journal.get_entry(1).unwrap().body, "Second entry");

    let removed = journal.remove_entry(0);
    assert!(removed.is_some());
    assert_eq!(journal.entries().len(), 1);

    let mut entry = journal.get_entry(1).unwrap().clone();
    entry.body = "Updated entry".to_string();
    journal.update_entry(entry);
    assert_eq!(journal.get_entry(1).unwrap().body, "Updated entry");
}

#[test]
fn test_journal_comprehensive_operations() {
    let path = String::from("test_journal.json");
    let mut journal = Journal::new(path.clone());

    for i in 0..3 {
        journal.add_entry(Entry::new(
            0,
            format!("Entry {}", i),
            vec![Tag::new(format!("tag{}", i))],
        ));
    }

    assert_eq!(journal.entries().len(), 3);
    for i in 0..3 {
        let entry = journal.get_entry(i).unwrap();
        assert_eq!(entry.id, i);
        assert_eq!(entry.body, format!("Entry {}", i));
        assert_eq!(entry.tags, vec![Tag::new(format!("tag{}", i))]);
    }

    let removed = journal.remove_entry(1).unwrap();
    assert_eq!(removed.body, "Entry 1");
    assert_eq!(journal.entries().len(), 2);
    assert!(journal.get_entry(1).is_none());

    let mut entry = journal.get_entry(2).unwrap().clone();
    entry.body = "Updated content".to_string();
    entry.tags = vec![Tag::new("updated".to_string())];
    journal.update_entry(entry);

    let updated = journal.get_entry(2).unwrap();
    assert_eq!(updated.body, "Updated content");
    assert_eq!(updated.tags, vec![Tag::new("updated".to_string())]);
}

#[test]
fn test_journal_edge_cases() {
    let path = String::from("test_journal.json");
    let mut journal = Journal::new(path);

    assert_eq!(journal.next_id(), 0);
    assert!(journal.get_entry(0).is_none());
    assert!(journal.remove_entry(0).is_none());
    assert_eq!(journal.get_entries().len(), 0);

    journal.add_entry(Entry::new(0, String::new(), vec![]));
    let empty_entry = journal.get_entry(0).unwrap();
    assert_eq!(empty_entry.body, "");
    assert!(empty_entry.tags.is_empty());

    let non_existent = Entry::new(999, "Non-existent".to_string(), vec![]);
    journal.update_entry(non_existent);
    assert!(journal.get_entry(999).is_none());
}

#[test]
fn test_multiple_entries_same_day() {
    let path = String::from("test_journal.json");
    let mut journal = Journal::new(path);

    for i in 0..3 {
        journal.add_entry(Entry::new(
            i,
            format!("Same day entry {}", i),
            vec![Tag::new("same_day".to_string())],
        ));
    }

    let entries = journal.get_entries();
    let first_date = entries[0].date;

    assert!(entries.iter().all(|e| e.date == first_date));
    assert_eq!(entries.len(), 3);
}

#[test]
fn test_journal_next_id() {
    let path = String::from("test_journal.json");
    let mut journal = Journal::new(path);

    assert_eq!(journal.next_id(), 0);
    journal.add_entry(Entry::new(0, "Entry".to_string(), vec![]));
    assert_eq!(journal.next_id(), 1);
}

#[test]
fn add_then_get_returns_same_body_and_tags() {
    let mut journal = Journal::new(String::from("j.json"));
    journal.add_entry(Entry::new(
        7,
        "body text".to_string(),
        vec![Tag::new("one".to_string()), Tag::new("two".to_string())],
    ));
    let id = journal.entries().len() - 1;
    let got = journal.get_entry(id).unwrap();
    assert_eq!(got.body, "body text");
    assert_eq!(got.tags.len(), 2);
    assert_eq!(got.tags[0].name, "one");
    assert_eq!(got.tags[1].name, "two");
}

#[test]
fn remove_twice_returns_none_second_time() {
    let mut journal = Journal::new(String::from("j.json"));
    journal.add_entry(Entry::new(0, "a".to_string(), vec![]));
    journal.add_entry(Entry::new(0, "b".to_string(), vec![]));
    assert!(journal.remove_entry(1).is_some());
    assert!(journal.remove_entry(1).is_none());
}

#[test]
fn clock_reading_maps_field_for_field() {
    let r = ClockReading {
        year: 2024,
        month: 5,
        day: 10,
        hour: 12,
        minute: 34,
        second: 56,
    };
    assert_eq!(
        Timestamp::from_reading(&r),
        Timestamp {
            date: Date { year: 2024, month: 5, day: 10 },
            hour: 12,
            minute: 34,
            second: 56,
        }
    );
}

#[test]
fn clock_reading_out_of_range_falls_back_to_epoch() {
    let epoch = Timestamp {
        date: Date { year: 1970, month: 1, day: 1 },
        hour: 0,
        minute: 0,
        second: 0,
    };
    let far_year = ClockReading { year: 10000, month: 1, day: 1, hour: 0, minute: 0, second: 0 };
    assert_eq!(Timestamp::from_reading(&far_year), epoch);
    let bad_day = ClockReading { year: 2023, month: 2, day: 29, hour: 0, minute: 0, second: 0 };
    assert_eq!(Timestamp::from_reading(&bad_day), epoch);
    let bad_hour = ClockReading { year: 2023, month: 2, day: 28, hour: 24, minute: 0, second: 0 };
    assert_eq!(Timestamp::from_reading(&bad_hour), epoch);
}

#[test]
fn now_is_a_clock_reading_mapped() {
    // The library timestamp of "now" and an independent chrono reading of
    // "now", mapped through from_reading, bracket each other.
    let before = Timestamp::from_reading(&ClockReading {
        year: Utc::now().naive_utc().year(),
        month: Utc::now().naive_utc().month(),
        day: Utc::now().naive_utc().day(),
        hour: 0,
        minute: 0,
        second: 0,
    });
    let t = Timestamp::now();
    assert!(before.date.le(&t.date));
    assert!(t.le(&chrono_now_timestamp()));
}
