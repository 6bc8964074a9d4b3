use std::collections::hash_map::DefaultHasher;
use std::hash::{Hash, Hasher};

use redb::backends::InMemoryBackend;
use redb::{Database, ReadableTable, TableDefinition};
use spark_garden::db::{append_entry, entry_key, hash_entry, key_of, load_entries};
use spark_garden::entry::Entry;

const ENTRIES: TableDefinition<&str, &str> = TableDefinition::new("entries");

fn entry(ts: u64, text: &str) -> Entry {
    Entry {
        kind: "note".to_string(),
        mood: "kind".to_string(),
        color: "#7bdff2".to_string(),
        text: text.to_string(),
        ts,
    }
}

fn standard_hash(entry: &Entry) -> u64 {
    let mut hasher = DefaultHasher::new();
    entry.kind.hash(&mut hasher);
    entry.mood.hash(&mut hasher);
    entry.color.hash(&mut hasher);
    entry.text.hash(&mut hasher);
    entry.ts.hash(&mut hasher);
    hasher.finish()
}

fn rows_of(database: &Database) -> Vec<String> {
    let read = database.begin_read().unwrap();
    let table = read.open_table(ENTRIES).unwrap();
    let mut rows = Vec::new();
    for row in table.iter().unwrap() {
        let (_, value) = row.unwrap();
        rows.push(value.value().to_string());
    }
    rows
}

fn store(database: &Database, entry: &Entry) {
    let write = database.begin_write().unwrap();
    {
        let mut table = write.open_table(ENTRIES).unwrap();
        let row = append_entry(entry);
        table.insert(row.key.as_str(), row.value.as_str()).unwrap();
    }
    write.commit().unwrap();
}

#[test]
fn entries_hash_like_their_fields() {
    for (ts, text) in [(0, ""), (1, "a"), (1_700_000_000, "na\u{ef}ve \u{1f331}"), (u64::MAX, "\n")] {
        let e = entry(ts, text);
        assert_eq!(hash_entry(&e), standard_hash(&e));
        assert_eq!(entry_key(&e), format!("{:020}-{:016x}", ts, standard_hash(&e)));
    }
}

#[test]
fn keys_have_fixed_width() {
    assert_eq!(key_of(0, 0), "00000000000000000000-0000000000000000");
    assert_eq!(key_of(1_700_000_000, 0xbeef), "00000000001700000000-000000000000beef");
    assert_eq!(key_of(u64::MAX, u64::MAX), "18446744073709551615-ffffffffffffffff");
}

#[test]
fn keys_follow_time() {
    assert!(key_of(9, u64::MAX) < key_of(10, 0));
    assert!(key_of(99, u64::MAX) < key_of(100, 0));
    assert!(key_of(u64::MAX - 1, 5) < key_of(u64::MAX, 4));
}

#[test]
fn rows_hold_the_encoded_entry() {
    let row = append_entry(&entry(12, "a\tb"));
    assert_eq!(row.value, "12\tnote\tkind\t#7bdff2\ta\\tb");
    assert_eq!(row.key, entry_key(&entry(12, "a\tb")));
}

#[test]
fn no_table_means_no_entries() {
    assert!(load_entries(None).is_empty());
    assert!(load_entries(Some(Vec::new())).is_empty());
}

#[test]
fn rows_are_sorted_by_time_and_stay_in_order() {
    let rows = ["3\ta\t\t\tx", "1\ta\t\t\ty", "broken", "3\ta\t\t\tz", "2\ta\t\t\tw", "1\ta\t\t\tv"];
    let rows = rows.iter().map(|row| row.to_string()).collect();
    let texts: Vec<String> = load_entries(Some(rows)).into_iter().map(|e| e.text).collect();
    assert_eq!(texts, ["y", "v", "w", "x", "z"]);
}

#[test]
fn a_database_gives_back_what_was_appended() {
    let database = Database::builder().create_with_backend(InMemoryBackend::new()).unwrap();
    for (ts, text) in [(30, "last"), (5, "first"), (20, "third\nline"), (9, "second")] {
        store(&database, &entry(ts, text));
    }
    let loaded = load_entries(Some(rows_of(&database)));
    let found: Vec<(u64, &str)> = loaded.iter().map(|e| (e.ts, e.text.as_str())).collect();
    assert_eq!(found, [(5, "first"), (9, "second"), (20, "third\nline"), (30, "last")]);
}

#[test]
fn appending_twice_leaves_one_row() {
    let database = Database::builder().create_with_backend(InMemoryBackend::new()).unwrap();
    store(&database, &entry(5, "same"));
    store(&database, &entry(5, "same"));
    store(&database, &entry(5, "other"));
    assert_eq!(rows_of(&database).len(), 2);
}

#[test]
fn keys_are_told_apart() {
    assert_ne!(key_of(1, 2), key_of(1, 3));
    assert_ne!(key_of(1, 2), key_of(2, 2));
    assert_ne!(entry_key(&entry(5, "a")), entry_key(&entry(5, "b")));
}
