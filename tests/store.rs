use templogger::error::DBError;
use templogger::store::{Database, Registration};

fn open_store() -> Database {
    let mut db = Database::new();
    db.connect();
    db
}

#[test]
fn register_then_record_then_query_in_time_order() {
    let mut db = open_store();
    assert_eq!(db.create_user("u1", "Alice"), Ok(Registration::Created));
    let t0: i64 = 1_700_000_000;
    assert_eq!(db.record("u1", 21.5f32.to_bits(), t0), Ok(1));
    assert_eq!(db.record("u1", 22.0f32.to_bits(), t0 + 1), Ok(2));
    let rows = db.fetch_record("u1", t0 - 10, t0 + 10).unwrap();
    assert_eq!(rows.len(), 2);
    assert_eq!(rows[0].date, t0);
    assert_eq!(rows[1].date, t0 + 1);
    assert_eq!(f32::from_bits(rows[0].temperature_bits), 21.5);
    assert_eq!(f32::from_bits(rows[1].temperature_bits), 22.0);
    assert_eq!(rows[0].name, "Alice");
    assert_eq!(rows[1].name, "Alice");
}

#[test]
fn query_with_no_records_in_range_is_empty() {
    let mut db = open_store();
    assert_eq!(db.create_user("u1", "Alice"), Ok(Registration::Created));
    assert_eq!(db.record("u1", 20.0f32.to_bits(), 100), Ok(1));
    let rows = db.fetch_record("u1", 200, 300).unwrap();
    assert!(rows.is_empty());
    let none = db.fetch_record("nobody", 0, 1000).unwrap();
    assert!(none.is_empty());
}

#[test]
fn second_registration_keeps_first_name() {
    let mut db = open_store();
    assert_eq!(db.create_user("u1", "Alice"), Ok(Registration::Created));
    assert_eq!(db.create_user("u1", "Mallory"), Ok(Registration::AlreadyExists));
    assert_eq!(db.record("u1", 1u32, 50), Ok(1));
    let rows = db.fetch_record("u1", 0, 100).unwrap();
    assert_eq!(rows.len(), 1);
    assert_eq!(rows[0].name, "Alice");
}

#[test]
fn log_ids_are_contiguous_across_identities() {
    let mut db = open_store();
    assert_eq!(db.create_user("a", "A"), Ok(Registration::Created));
    assert_eq!(db.create_user("b", "B"), Ok(Registration::Created));
    let mut ids = Vec::new();
    for k in 0..10u32 {
        let who = if k % 3 == 0 { "a" } else { "b" };
        ids.push(db.record(who, k, (10 - k) as i64).unwrap());
    }
    let expected: Vec<u64> = (1..=10).collect();
    assert_eq!(ids, expected);
}

#[test]
fn inverted_or_empty_window_is_invalid_range() {
    let mut db = open_store();
    assert_eq!(db.create_user("u1", "Alice"), Ok(Registration::Created));
    assert_eq!(db.fetch_record("u1", 10, 10).err(), Some(DBError::InvalidRange));
    assert_eq!(db.fetch_record("u1", 10, 5).err(), Some(DBError::InvalidRange));
}

#[test]
fn closed_store_reports_storage_failure() {
    let mut db = Database::new();
    assert_eq!(db.create_user("u1", "Alice"), Err(DBError::StorageFailure));
    assert_eq!(db.fetch_record("u1", 0, 5).err(), Some(DBError::StorageFailure));
    db.connect();
    assert_eq!(db.record("u1", 0, 1), Err(DBError::StorageFailure));
}

#[test]
fn readings_are_returned_in_timestamp_order_and_scoped_to_owner() {
    let mut db = open_store();
    assert_eq!(db.create_user("a", "Ann"), Ok(Registration::Created));
    assert_eq!(db.create_user("b", "Bob"), Ok(Registration::Created));
    assert_eq!(db.record("a", 3, 30), Ok(1));
    assert_eq!(db.record("b", 9, 15), Ok(2));
    assert_eq!(db.record("a", 1, 10), Ok(3));
    assert_eq!(db.record("a", 2, 20), Ok(4));
    let rows = db.fetch_record("a", 10, 30).unwrap();
    let dates: Vec<i64> = rows.iter().map(|r| r.date).collect();
    let values: Vec<u32> = rows.iter().map(|r| r.temperature_bits).collect();
    assert_eq!(dates, vec![10, 20, 30]);
    assert_eq!(values, vec![1, 2, 3]);
    let bounded = db.fetch_record("a", 11, 20).unwrap();
    assert_eq!(bounded.len(), 1);
    assert_eq!(bounded[0].date, 20);
}
