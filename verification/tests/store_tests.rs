use todo_store::entry::TodoEntry;
use todo_store::errors::StoreError;
use todo_store::store::Store;

fn entry(id: i64, name: &str, is_checked: bool) -> TodoEntry {
    TodoEntry { id, name: name.to_string(), is_checked }
}

fn ready_store() -> Store {
    let mut s = Store::open();
    assert_eq!(s.ensure_schema(), Ok(()));
    s
}

#[test]
fn ensure_schema_is_idempotent() {
    let mut s = Store::open();
    assert_eq!(s.ensure_schema(), Ok(()));
    let before: Vec<i64> = s.list_all().unwrap().iter().map(|e| e.id).collect();
    assert_eq!(s.ensure_schema(), Ok(()));
    assert_eq!(s.ensure_schema(), Ok(()));
    let after: Vec<i64> = s.list_all().unwrap().iter().map(|e| e.id).collect();
    assert_eq!(before, after);
    assert_eq!(s.insert("first".to_string()), Ok(()));
    assert_eq!(s.ensure_schema(), Ok(()));
    let rows = s.list_all().unwrap();
    assert_eq!(rows.len(), 1);
    assert_eq!(rows[0].id, 1);
    assert_eq!(rows[0].name, "first");
}

#[test]
fn insert_round_trips_through_list_all() {
    let mut s = ready_store();
    assert_eq!(s.insert("buy milk".to_string()), Ok(()));
    let rows = s.list_all().unwrap();
    let hits: Vec<&TodoEntry> = rows.iter().filter(|e| e.name == "buy milk").collect();
    assert_eq!(hits.len(), 1);
    assert_eq!(hits[0].id, 1);
    assert!(!hits[0].is_checked);
}

#[test]
fn delete_of_missing_id_is_a_quiet_noop() {
    let mut s = ready_store();
    assert_eq!(s.insert("a".to_string()), Ok(()));
    assert_eq!(s.insert("b".to_string()), Ok(()));
    let before: Vec<(i64, String)> =
        s.list_all().unwrap().into_iter().map(|e| (e.id, e.name)).collect();
    assert_eq!(s.delete(999), Ok(()));
    let after: Vec<(i64, String)> =
        s.list_all().unwrap().into_iter().map(|e| (e.id, e.name)).collect();
    assert_eq!(before, after);
    // deleting twice is just as quiet
    assert_eq!(s.delete(1), Ok(()));
    assert_eq!(s.delete(1), Ok(()));
    assert_eq!(s.list_all().unwrap().len(), 1);
}

#[test]
fn identical_names_get_distinct_ids() {
    let mut s = ready_store();
    assert_eq!(s.insert("same".to_string()), Ok(()));
    assert_eq!(s.insert("same".to_string()), Ok(()));
    let rows = s.list_all().unwrap();
    assert_eq!(rows.len(), 2);
    assert_eq!(rows[0].name, "same");
    assert_eq!(rows[1].name, "same");
    assert_ne!(rows[0].id, rows[1].id);
}

#[test]
fn blank_names_are_invalid_input_not_write_failures() {
    let mut s = ready_store();
    assert_eq!(s.insert(String::new()), Err(StoreError::InvalidInput));
    assert_eq!(s.insert("   ".to_string()), Err(StoreError::InvalidInput));
    assert_eq!(s.insert("\t\r\n ".to_string()), Err(StoreError::InvalidInput));
    assert_eq!(s.list_all().unwrap().len(), 0);
}

#[test]
fn operations_before_the_schema_step_fail() {
    let mut s = Store::open();
    assert_eq!(s.list_all().unwrap_err(), StoreError::QueryFailed);
    assert_eq!(s.insert("a".to_string()), Err(StoreError::WriteFailed));
    assert_eq!(s.delete(1), Err(StoreError::WriteFailed));
    // blank input is rejected as such even before the schema step
    assert_eq!(s.insert(String::new()), Err(StoreError::InvalidInput));
}

#[test]
fn deleted_ids_are_never_reused() {
    let mut s = ready_store();
    assert_eq!(s.insert("a".to_string()), Ok(()));
    assert_eq!(s.insert("b".to_string()), Ok(()));
    assert_eq!(s.delete(2), Ok(()));
    assert_eq!(s.insert("c".to_string()), Ok(()));
    let ids: Vec<i64> = s.list_all().unwrap().iter().map(|e| e.id).collect();
    assert_eq!(ids, vec![1, 3]);
}

#[test]
fn from_rows_accepts_a_sorted_snapshot_and_clears_checked_flags() {
    let snapshot = vec![entry(3, "kept", true), entry(7, "also kept", false)];
    let mut s = Store::from_rows(snapshot).unwrap();
    assert!(s.is_well_formed());
    let rows = s.list_all().unwrap();
    assert_eq!(rows.len(), 2);
    assert_eq!((rows[0].id, rows[0].name.as_str(), rows[0].is_checked), (3, "kept", false));
    assert_eq!((rows[1].id, rows[1].name.as_str(), rows[1].is_checked), (7, "also kept", false));
    // the next insert goes one past the highest id on file
    assert_eq!(s.insert("new".to_string()), Ok(()));
    assert_eq!(s.list_all().unwrap()[2].id, 8);
}

#[test]
fn from_rows_of_an_empty_snapshot_starts_at_one() {
    let mut s = Store::from_rows(Vec::new()).unwrap();
    assert_eq!(s.insert("a".to_string()), Ok(()));
    assert_eq!(s.list_all().unwrap()[0].id, 1);
}

#[test]
fn from_rows_rejects_snapshots_that_no_scan_could_yield() {
    let unsorted = vec![entry(7, "b", false), entry(3, "a", false)];
    assert_eq!(Store::from_rows(unsorted).unwrap_err(), StoreError::SchemaError);
    let duplicate = vec![entry(3, "a", false), entry(3, "b", false)];
    assert_eq!(Store::from_rows(duplicate).unwrap_err(), StoreError::SchemaError);
    let nonpositive = vec![entry(0, "a", false)];
    assert_eq!(Store::from_rows(nonpositive).unwrap_err(), StoreError::SchemaError);
    let saturated = vec![entry(i64::MAX, "a", false)];
    assert_eq!(Store::from_rows(saturated).unwrap_err(), StoreError::SchemaError);
}

#[test]
fn an_exhausted_id_space_is_a_write_failure() {
    let mut s = Store::from_rows(vec![entry(i64::MAX - 1, "last one", false)]).unwrap();
    assert_eq!(s.insert("no room".to_string()), Err(StoreError::WriteFailed));
    assert_eq!(s.list_all().unwrap().len(), 1);
}

#[test]
fn open_store_is_well_formed() {
    let mut s = Store::open();
    assert!(s.is_well_formed());
    assert_eq!(s.ensure_schema(), Ok(()));
    assert_eq!(s.insert("a".to_string()), Ok(()));
    assert_eq!(s.delete(1), Ok(()));
    assert!(s.is_well_formed());
}
