use templogger::error::DBError;
use templogger::rest::{create_user_status, fetch_record_status, record_temperature_status};
use templogger::store::Record;

#[test]
fn statuses_follow_outcomes() {
    assert_eq!(create_user_status(&Ok(())), 201);
    assert_eq!(create_user_status(&Err(DBError::Unauthorized)), 401);
    assert_eq!(create_user_status(&Err(DBError::AlreadyExists)), 500);
    assert_eq!(record_temperature_status(&Ok(7)), 200);
    assert_eq!(record_temperature_status(&Err(DBError::StorageFailure)), 500);
    assert_eq!(fetch_record_status(&Ok(Vec::new())), 404);
    let row = Record { date: 1, name: "A".to_string(), temperature_bits: 0 };
    assert_eq!(fetch_record_status(&Ok(vec![row])), 200);
    assert_eq!(fetch_record_status(&Err(DBError::InvalidRange)), 400);
    assert_eq!(fetch_record_status(&Err(DBError::Unauthorized)), 401);
}
