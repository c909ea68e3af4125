use lb::entry::Entry;
use lb::store::Db;
use lb::textops::trim_trailing;
use lb::StoreError;

fn db_from(descriptions: &[&str]) -> Db {
    let mut db = Db::new();
    for d in descriptions {
        db.push_entry(Entry::from(d));
    }
    db
}

fn descriptions_of(db: &Db) -> Vec<String> {
    let mut out = Vec::new();
    let mut n: i64 = 1;
    while n <= db.len() as i64 {
        out.push(db.get_entry_description(n).unwrap().to_string());
        n += 1;
    }
    out
}

fn round_trips(descriptions: &[&str]) {
    let db = db_from(descriptions);
    let persisted = db.write();
    let reread = Db::read(Some(persisted.as_str())).unwrap();
    assert_eq!(descriptions_of(&reread), descriptions);
    assert_eq!(reread.len(), descriptions.len());
}

#[test]
fn round_trip_empty_store() {
    round_trips(&[]);
}

#[test]
fn round_trip_single_entry() {
    round_trips(&["Buy milk"]);
}

#[test]
fn round_trip_empty_description() {
    round_trips(&[""]);
}

#[test]
fn round_trip_multi_line_descriptions() {
    round_trips(&["line1\nline2", "a\n\nb\n", "plain"]);
}

#[test]
fn round_trip_mixed_entries() {
    round_trips(&["", "one", "", "two\nthree", ""]);
}

#[test]
fn round_trip_format_lookalike_description() {
    // a description that resembles a persisted record must survive intact
    round_trips(&["3\nabc", "0\n"]);
}

#[test]
fn round_trip_non_ascii() {
    round_trips(&["héllo wörld", "日記\nエントリ"]);
}

#[test]
fn persisted_form_is_length_prefixed() {
    assert_eq!(db_from(&[]).write(), "");
    assert_eq!(db_from(&["hi"]).write(), "2\nhi\n");
    assert_eq!(db_from(&[""]).write(), "0\n\n");
    assert_eq!(db_from(&["a\nb", "c"]).write(), "3\na\nb\n1\nc\n");
}

#[test]
fn persisted_length_counts_characters_not_bytes() {
    // two characters, five bytes in UTF-8
    assert_eq!(db_from(&["日記"]).write(), "2\n日記\n");
}

#[test]
fn read_of_absent_state_is_empty_store() {
    let db = Db::read(None).unwrap();
    assert!(db.is_empty());
    assert_eq!(db.len(), 0);
}

#[test]
fn read_of_empty_text_is_empty_store() {
    let db = Db::read(Some("")).unwrap();
    assert!(db.is_empty());
}

#[test]
fn read_rejects_corrupt_state() {
    let corrupt = [
        "x",
        "2\nhi",
        "2\nhiX",
        "3\nhi\n",
        "\nhi\n",
        "12",
        "2x\nhi\n",
        "99999999999999999999999999999\nhi\n",
        "2\nhi\n1",
        "-2\nhi\n",
    ];
    for c in corrupt {
        assert_eq!(Db::read(Some(c)).unwrap_err(), StoreError::CorruptState, "input {c:?}");
    }
}

#[test]
fn push_entries_are_numbered_in_order() {
    let db = db_from(&["A", "B", "C"]);
    assert_eq!(db.entry_overview(), "1. A\n2. B\n3. C\n");
}

#[test]
fn delete_renumbers_later_entries() {
    let mut db = db_from(&["A", "B", "C"]);
    db.delete_entry(2).unwrap();
    assert_eq!(db.entry_overview(), "1. A\n2. C\n");
    assert_eq!(descriptions_of(&db), ["A", "C"]);
}

#[test]
fn out_of_range_numbers_are_rejected_at_every_length() {
    let texts = ["A", "B", "C", "D"];
    for len in 0..=texts.len() {
        let mut db = db_from(&texts[..len]);
        for bad in [0i64, -1, -42, i64::MIN, len as i64 + 1, len as i64 + 100, i64::MAX] {
            assert_eq!(db.get_entry_description(bad).unwrap_err(), StoreError::IndexOutOfRange);
            assert_eq!(db.delete_entry(bad).unwrap_err(), StoreError::IndexOutOfRange);
            assert_eq!(
                db.replace_entry_description(bad, "new".to_string()).unwrap_err(),
                StoreError::IndexOutOfRange
            );
            // the failed calls left the store unchanged
            assert_eq!(db.len(), len);
        }
    }
}

#[test]
fn in_range_numbers_are_accepted_at_every_length() {
    let texts = ["A", "B", "C", "D"];
    for len in 1..=texts.len() {
        let db = db_from(&texts[..len]);
        for n in 1..=len {
            assert_eq!(db.get_entry_description(n as i64).unwrap(), texts[n - 1]);
        }
    }
}

#[test]
fn replace_preserves_position_and_length() {
    let mut db = db_from(&["A", "B", "C"]);
    db.replace_entry_description(2, "B2".to_string()).unwrap();
    assert_eq!(descriptions_of(&db), ["A", "B2", "C"]);
    assert_eq!(db.len(), 3);
}

#[test]
fn markdown_keeps_multi_line_descriptions_intact() {
    let db = db_from(&["line1\nline2"]);
    let doc = db.markdown();
    assert_eq!(doc, "line1\nline2\n");
    assert!(doc.contains("line1"));
    assert!(doc.contains("line2"));
    // the overview may truncate to the first line but keeps the entry
    assert_eq!(db.entry_overview(), "1. line1\n");
}

#[test]
fn markdown_separates_entries_with_blank_lines() {
    assert_eq!(db_from(&["a", "b"]).markdown(), "a\n\nb\n");
    assert_eq!(db_from(&["a", "b", "c"]).markdown(), "a\n\nb\n\nc\n");
}

#[test]
fn markdown_of_empty_store_is_empty_document() {
    assert_eq!(db_from(&[]).markdown(), "");
}

#[test]
fn overview_truncates_after_forty_characters() {
    let long = "abcdefghij".repeat(5);
    let db = db_from(&[long.as_str()]);
    assert_eq!(db.entry_overview(), format!("1. {}\n", &long[..40]));
}

#[test]
fn overview_keeps_short_and_empty_descriptions() {
    let db = db_from(&["", "short"]);
    assert_eq!(db.entry_overview(), "1. \n2. short\n");
}

#[test]
fn overview_numbers_reach_double_digits() {
    let mut db = Db::new();
    for i in 1..=12 {
        db.push_entry(Entry::from(format!("entry {i}").as_str()));
    }
    let overview = db.entry_overview();
    assert!(overview.contains("10. entry 10\n"));
    assert!(overview.contains("12. entry 12\n"));
}

#[test]
fn end_to_end_scenario() {
    let mut db = Db::new();
    assert!(db.is_empty());
    db.push_entry(Entry::from("Buy milk"));
    db.push_entry(Entry::from("Walk dog"));
    let persisted = db.write();
    // a new process reads the persisted state back
    let mut db2 = Db::read(Some(persisted.as_str())).unwrap();
    assert_eq!(db2.entry_overview(), "1. Buy milk\n2. Walk dog\n");
    db2.delete_entry(1).unwrap();
    assert_eq!(db2.entry_overview(), "1. Walk dog\n");
}

#[test]
fn entry_wraps_text_verbatim() {
    assert_eq!(Entry::from("").description(), "");
    assert_eq!(Entry::from(" spaced \n").description(), " spaced \n");
}

#[test]
fn trim_trailing_removes_trailing_whitespace_only() {
    assert_eq!(trim_trailing("abc  \n\t\r\n"), "abc");
    assert_eq!(trim_trailing(""), "");
    assert_eq!(trim_trailing(" \n\t"), "");
    assert_eq!(trim_trailing("  leading kept"), "  leading kept");
    assert_eq!(trim_trailing("inner\nlines\nkept\n\n"), "inner\nlines\nkept");
}

#[test]
fn error_messages_name_each_failure() {
    let corrupt = lb::store_error_message(StoreError::CorruptState);
    let io = lb::store_error_message(StoreError::PersistenceFailure);
    let range = lb::store_error_message(StoreError::IndexOutOfRange);
    assert!(!corrupt.is_empty() && !io.is_empty() && !range.is_empty());
    assert_ne!(corrupt, io);
    assert_ne!(io, range);
    assert_ne!(corrupt, range);
}
