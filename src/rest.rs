use vstd::prelude::*;

use crate::error::DBError;
use crate::store::Record;

verus! {

pub const OK: u16 = 200;

pub const CREATED: u16 = 201;

pub const BAD_REQUEST: u16 = 400;

pub const UNAUTHORIZED: u16 = 401;

pub const NOT_FOUND: u16 = 404;

pub const INTERNAL_SERVER_ERROR: u16 = 500;

/// A request to register the bearer of `token_id` under `username`.
pub struct CreateUser {
    pub token_id: String,
    pub username: String,
}

/// A request to record a reading, given as the bits of a 32-bit float.
pub struct RecordTemperature {
    pub token_id: String,
    pub temperature_bits: u32,
}

/// A request for the readings between two local times, written
/// `YYYY/MM/DD hh:mm:ss`.
pub struct FetchRecord {
    pub token_id: String,
    pub start: String,
    pub end: String,
}

/// The status for a refused request: a refused token is unauthorized, any
/// other failure is the server's.
pub open spec fn failure_status(e: DBError) -> u16 {
    if e == DBError::Unauthorized {
        UNAUTHORIZED
    } else if e == DBError::InvalidRange {
        BAD_REQUEST
    } else {
        INTERNAL_SERVER_ERROR
    }
}

fn status_of_failure(e: DBError) -> (s: u16)
    ensures
        s == failure_status(e),
{
    match e {
        DBError::Unauthorized => UNAUTHORIZED,
        DBError::InvalidRange => BAD_REQUEST,
        _ => INTERNAL_SERVER_ERROR,
    }
}

/// The status that answers a registration.
pub fn create_user_status(outcome: &Result<(), DBError>) -> (s: u16)
    ensures
        s == match outcome {
            Ok(_) => CREATED,
            Err(e) => failure_status(*e),
        },
{
    match outcome {
        Ok(_) => CREATED,
        Err(e) => status_of_failure(*e),
    }
}

/// The status that answers a recorded reading.
pub fn record_temperature_status(outcome: &Result<u64, DBError>) -> (s: u16)
    ensures
        s == match outcome {
            Ok(_) => OK,
            Err(e) => failure_status(*e),
        },
{
    match outcome {
        Ok(_) => OK,
        Err(e) => status_of_failure(*e),
    }
}

/// The status that answers a query: no readings in the window is "not found".
pub fn fetch_record_status(outcome: &Result<Vec<Record>, DBError>) -> (s: u16)
    ensures
        s == match outcome {
            Ok(rows) => if rows@.len() == 0 {
                NOT_FOUND
            } else {
                OK
            },
            Err(e) => failure_status(*e),
        },
{
    match outcome {
        Ok(rows) => if rows.len() == 0 {
            NOT_FOUND
        } else {
            OK
        },
        Err(e) => status_of_failure(*e),
    }
}

} // verus!
