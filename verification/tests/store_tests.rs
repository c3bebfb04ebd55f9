use archiver::day::Day;
use archiver::entry::DayRecord;
use archiver::store::{ArchiveError, Store};

fn day(text: &str) -> Day {
    Day::from_string(text).unwrap()
}

fn listed(rows: &[DayRecord]) -> Vec<String> {
    rows.iter().map(|row| row.day().format_canonical()).collect()
}

fn three_days() -> Store {
    let mut store = Store::new();
    store.upsert_day(day("2024-06-01"));
    store.upsert_day(day("2024-07-03"));
    store.upsert_day(day("2024-06-15"));
    store
}

#[test]
fn a_new_store_holds_nothing() {
    let store = Store::new();
    assert!(store.list_days(None).is_empty());
    assert!(store.get_entries(day("2024-06-01")).is_empty());
    assert!(!store.has_entry(0));
}

#[test]
fn days_are_listed_in_the_order_of_the_calendar() {
    let store = three_days();
    assert_eq!(listed(&store.list_days(None)), vec!["2024-06-01", "2024-06-15", "2024-07-03"]);
}

#[test]
fn a_search_keeps_the_days_that_hold_the_text() {
    let store = three_days();
    assert_eq!(listed(&store.list_days(Some("06"))), vec!["2024-06-01", "2024-06-15"]);
    assert_eq!(listed(&store.list_days(Some("-07-"))), vec!["2024-07-03"]);
    assert_eq!(listed(&store.list_days(Some("2024"))), vec!["2024-06-01", "2024-06-15", "2024-07-03"]);
    assert_eq!(listed(&store.list_days(Some("03"))), vec!["2024-07-03"]);
    assert_eq!(listed(&store.list_days(Some("15"))), vec!["2024-06-15"]);
}

#[test]
fn a_search_that_nothing_passes_gives_an_empty_list() {
    let store = three_days();
    assert!(store.list_days(Some("1999")).is_empty());
    assert!(store.list_days(Some("juni")).is_empty());
    assert!(store.list_days(Some("2024-06-011")).is_empty());
}

#[test]
fn the_empty_search_is_no_search() {
    let store = three_days();
    assert_eq!(store.list_days(Some("")), store.list_days(None));
    assert_eq!(store.list_days(Some("")).len(), 3);
}

#[test]
fn registering_twice_registers_once() {
    let mut store = Store::new();
    let first = store.upsert_day(day("2024-06-01"));
    let second = store.upsert_day(day("2024-06-01"));
    assert_eq!(first, second);
    assert_eq!(first.day(), day("2024-06-01"));
    assert_eq!(first.entry_count(), 0);
    assert_eq!(listed(&store.list_days(None)), vec!["2024-06-01"]);
}

#[test]
fn upsert_gives_the_row_with_the_number_of_entries() {
    let mut store = Store::new();
    store.add_entry(day("2024-06-01"), String::from("one"), 10).unwrap();
    store.add_entry(day("2024-06-01"), String::from("two"), 20).unwrap();
    store.add_entry(day("2024-06-02"), String::from("three"), 30).unwrap();
    let row = store.upsert_day(day("2024-06-01"));
    assert_eq!(row.entry_count(), 2);
    let rows = store.list_days(None);
    assert_eq!(rows.len(), 2);
    assert_eq!(rows[0].entry_count(), 2);
    assert_eq!(rows[1].entry_count(), 1);
    assert_eq!(rows[1].day(), day("2024-06-02"));
}

#[test]
fn add_entry_registers_the_day_and_numbers_the_entries() {
    let mut store = Store::new();
    let first = store.add_entry(day("2024-06-01"), String::from("morning"), 100).unwrap();
    let second = store.add_entry(day("2024-06-01"), String::from("evening"), 200).unwrap();
    assert_eq!(first.id(), 0);
    assert_eq!(second.id(), 1);
    assert_eq!(first.day(), day("2024-06-01"));
    assert_eq!(first.content(), "morning");
    assert_eq!(first.created_at(), 100);
    assert_eq!(listed(&store.list_days(None)), vec!["2024-06-01"]);
    let entries = store.get_entries(day("2024-06-01"));
    assert_eq!(entries.len(), 2);
    assert_eq!(entries[0].content(), "morning");
    assert_eq!(entries[1].content(), "evening");
    assert_eq!(entries[0].id(), 0);
    assert_eq!(entries[1].id(), 1);
}

#[test]
fn entries_come_in_the_order_of_their_making() {
    let mut store = Store::new();
    store.add_entry(day("2024-06-01"), String::from("late"), 300).unwrap();
    store.add_entry(day("2024-06-01"), String::from("early"), 100).unwrap();
    store.add_entry(day("2024-06-01"), String::from("middle"), 200).unwrap();
    store.add_entry(day("2024-06-01"), String::from("middle again"), 200).unwrap();
    let entries = store.get_entries(day("2024-06-01"));
    let texts: Vec<&str> = entries.iter().map(|e| e.content()).collect();
    assert_eq!(texts, vec!["early", "middle", "middle again", "late"]);
    let ids: Vec<u64> = entries.iter().map(|e| e.id()).collect();
    assert_eq!(ids, vec![1, 2, 3, 0]);
}

#[test]
fn an_entry_of_one_day_is_no_entry_of_another() {
    let mut store = Store::new();
    store.upsert_day(day("2024-06-02"));
    store.add_entry(day("2024-06-02"), String::from("b"), 5).unwrap();
    let before = store.get_entries(day("2024-06-02")).len();
    store.add_entry(day("2024-06-01"), String::from("a"), 10).unwrap();
    assert_eq!(store.get_entries(day("2024-06-02")).len(), before);
    assert_eq!(store.get_entries(day("2024-06-02"))[0].content(), "b");
    assert_eq!(store.get_entries(day("2024-06-01")).len(), 1);
    assert_eq!(store.get_entries(day("2024-06-01"))[0].content(), "a");
    assert!(store.get_entries(day("2024-06-03")).is_empty());
}

#[test]
fn an_unknown_day_and_an_empty_day_both_give_no_entries() {
    let mut store = Store::new();
    store.upsert_day(day("2024-06-01"));
    assert!(store.get_entries(day("2024-06-01")).is_empty());
    assert!(store.get_entries(day("2024-06-02")).is_empty());
}

#[test]
fn delete_entry_says_whether_it_removed_one() {
    let mut store = Store::new();
    let a = store.add_entry(day("2024-06-01"), String::from("a"), 1).unwrap();
    let b = store.add_entry(day("2024-06-01"), String::from("b"), 2).unwrap();
    assert!(store.has_entry(a.id()));
    assert!(store.delete_entry(a.id()));
    assert!(!store.has_entry(a.id()));
    assert!(!store.delete_entry(a.id()));
    assert!(!store.delete_entry(77));
    let left = store.get_entries(day("2024-06-01"));
    assert_eq!(left.len(), 1);
    assert_eq!(left[0].id(), b.id());
    assert_eq!(left[0].content(), "b");
    assert_eq!(listed(&store.list_days(None)), vec!["2024-06-01"]);
    assert_eq!(store.list_days(None)[0].entry_count(), 1);
}

#[test]
fn identifiers_are_not_used_again() {
    let mut store = Store::new();
    let a = store.add_entry(day("2024-06-01"), String::from("a"), 1).unwrap();
    assert!(store.delete_entry(a.id()));
    let b = store.add_entry(day("2024-06-01"), String::from("b"), 2).unwrap();
    assert_ne!(a.id(), b.id());
    assert_eq!(b.id(), 1);
}

#[test]
fn a_day_with_entries_is_not_deleted_without_cascade() {
    let mut store = Store::new();
    store.add_entry(day("2024-06-01"), String::from("a"), 1).unwrap();
    store.add_entry(day("2024-06-01"), String::from("b"), 2).unwrap();
    assert_eq!(store.delete_day(day("2024-06-01"), false), Err(ArchiveError::DayNotEmpty));
    let entries = store.get_entries(day("2024-06-01"));
    assert_eq!(entries.len(), 2);
    assert_eq!(entries[0].content(), "a");
    assert_eq!(entries[1].content(), "b");
    assert_eq!(listed(&store.list_days(None)), vec!["2024-06-01"]);
}

#[test]
fn a_cascading_delete_removes_the_day_and_its_entries() {
    let mut store = Store::new();
    let a = store.add_entry(day("2024-06-01"), String::from("a"), 1).unwrap();
    let b = store.add_entry(day("2024-06-01"), String::from("b"), 2).unwrap();
    let c = store.add_entry(day("2024-06-02"), String::from("c"), 3).unwrap();
    assert_eq!(store.delete_day(day("2024-06-01"), true), Ok(()));
    assert!(store.get_entries(day("2024-06-01")).is_empty());
    assert_eq!(listed(&store.list_days(None)), vec!["2024-06-02"]);
    assert!(!store.has_entry(a.id()));
    assert!(!store.has_entry(b.id()));
    assert!(store.has_entry(c.id()));
    assert_eq!(store.get_entries(day("2024-06-02")).len(), 1);
}

#[test]
fn an_empty_day_is_deleted_without_cascade() {
    let mut store = three_days();
    assert_eq!(store.delete_day(day("2024-06-15"), false), Ok(()));
    assert_eq!(listed(&store.list_days(None)), vec!["2024-06-01", "2024-07-03"]);
}

#[test]
fn deleting_an_unknown_day_changes_nothing() {
    let mut store = three_days();
    assert_eq!(store.delete_day(day("2020-01-01"), false), Ok(()));
    assert_eq!(store.delete_day(day("2020-01-01"), true), Ok(()));
    assert_eq!(store.list_days(None).len(), 3);
}

#[test]
fn restore_puts_an_entry_back_under_its_identifier() {
    let mut store = Store::new();
    let back = store.restore_entry(41, day("2024-06-01"), String::from("old"), 7).unwrap();
    assert_eq!(back.id(), 41);
    assert_eq!(back.created_at(), 7);
    assert!(store.has_entry(41));
    assert_eq!(listed(&store.list_days(None)), vec!["2024-06-01"]);
    let next = store.add_entry(day("2024-06-01"), String::from("new"), 8).unwrap();
    assert_eq!(next.id(), 42);
    let low = store.restore_entry(3, day("2024-06-02"), String::from("older"), 1).unwrap();
    assert_eq!(low.id(), 3);
    let after = store.add_entry(day("2024-06-02"), String::from("newest"), 9).unwrap();
    assert_eq!(after.id(), 43);
}

#[test]
fn restore_refuses_an_identifier_in_use() {
    let mut store = Store::new();
    store.restore_entry(5, day("2024-06-01"), String::from("a"), 1).unwrap();
    let again = store.restore_entry(5, day("2024-06-02"), String::from("b"), 2);
    assert_eq!(again.err(), Some(ArchiveError::StoreError));
    assert_eq!(listed(&store.list_days(None)), vec!["2024-06-01"]);
    assert_eq!(store.get_entries(day("2024-06-01")).len(), 1);
    assert_eq!(store.get_entries(day("2024-06-01"))[0].content(), "a");
}

#[test]
fn the_store_fails_when_no_identifier_is_left() {
    let mut store = Store::new();
    assert_eq!(
        store.restore_entry(u64::MAX, day("2024-06-01"), String::from("x"), 1).err(),
        Some(ArchiveError::StoreError)
    );
    assert!(store.list_days(None).is_empty());
    store.restore_entry(u64::MAX - 1, day("2024-06-01"), String::from("last"), 1).unwrap();
    let full = store.add_entry(day("2024-06-02"), String::from("none left"), 2);
    assert_eq!(full.err(), Some(ArchiveError::StoreError));
    assert_eq!(listed(&store.list_days(None)), vec!["2024-06-01"]);
    assert_eq!(store.get_entries(day("2024-06-01")).len(), 1);
}

#[test]
fn a_copy_of_the_store_is_its_own() {
    let mut store = three_days();
    store.add_entry(day("2024-06-01"), String::from("a"), 1).unwrap();
    let copy = store.clone();
    store.delete_day(day("2024-06-01"), true).unwrap();
    assert_eq!(copy.list_days(None).len(), 3);
    assert_eq!(copy.get_entries(day("2024-06-01")).len(), 1);
    assert_eq!(store.list_days(None).len(), 2);
}
