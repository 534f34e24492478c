//! Telemetry events and the rows they become.
//!
//! The pipeline emits three kinds of events; a sink task, outside this
//! core, turns each into a row for the analytics store.  The conversions
//! from event to row are verified here; the store connection and the
//! system sampler are not part of the core.

use vstd::prelude::*;
use crate::text::{ascii_bytes, chars_wf, value_wf};
use crate::timestamp::Timestamp;

verus! {

/// What went wrong, for the telemetry stream.
#[derive(Clone, Copy, Debug, PartialEq, Eq, Structural)]
pub enum ErrorType {
    /// A broadcast receiver fell behind by more than the channel holds.
    Lagged,
}

/// One telemetry event: a timing after a served message, an error, or a
/// periodic memory report.
#[derive(Clone, Debug)]
pub enum Message {
    /// Task identity, moment, and latency in microseconds.
    Elapsed(u64, Timestamp, u64),
    /// Task identity, moment, and what failed.
    Error(u64, Timestamp, ErrorType),
    /// Moment, used memory and total memory, in megabytes.
    Info(Timestamp, u64, u64),
}

/// A timing row: a fresh row identity, the task, the moment, the
/// latency.
#[derive(Debug)]
pub struct Elapsed {
    pub id: String,
    pub task_id: u64,
    pub timestamp: Timestamp,
    pub latency: u64,
}

/// An error row.
#[derive(Debug)]
pub struct Problem {
    pub id: String,
    pub task_id: u64,
    pub timestamp: Timestamp,
    pub message: String,
}

/// A memory row.
#[derive(Clone, Copy, Debug, PartialEq, Eq, Structural)]
pub struct Stat {
    pub timestamp: Timestamp,
    pub ram: u64,
    pub ram_total: u64,
}

/// A connection-tally row.
#[derive(Clone, Copy, Debug, PartialEq, Eq, Structural)]
pub struct Connect {
    pub total: u64,
    pub timestamp: Timestamp,
}

impl Elapsed {
    /// A timing event becomes a timing row under a fresh identity; the
    /// other kinds do not.
    pub fn from_enum(input: Message) -> (r: Result<Elapsed, ()>)
        ensures
            match input {
                Message::Elapsed(tid, ts, lat) => match r {
                    Ok(row) => row.task_id == tid && row.timestamp == ts && row.latency == lat
                        && row.id@.len() == 36,
                    Err(_) => false,
                },
                _ => r is Err,
            },
    {
        match input {
            Message::Elapsed(task_id, timestamp, latency) => {
                let id = crate::router::app::fresh_token();
                Ok(Elapsed { id, task_id, timestamp, latency })
            },
            _ => Err(()),
        }
    }
}

impl Problem {
    /// An error event becomes an error row naming the failure; the other
    /// kinds do not.
    pub fn from_enum(input: Message) -> (r: Result<Problem, ()>)
        ensures
            match input {
                Message::Error(tid, ts, e) => match r {
                    Ok(row) => row.task_id == tid && row.timestamp == ts && row.id@.len() == 36
                        && (e == ErrorType::Lagged ==> row.message@ == "Lagged"@),
                    Err(_) => false,
                },
                _ => r is Err,
            },
    {
        match input {
            Message::Error(task_id, timestamp, error) => {
                let id = crate::router::app::fresh_token();
                let message = match error {
                    ErrorType::Lagged => "Lagged".to_owned(),
                };
                Ok(Problem { id, task_id, timestamp, message })
            },
            _ => Err(()),
        }
    }
}

impl Stat {
    /// A memory event becomes a memory row; the other kinds do not.
    pub fn from_enum(input: Message) -> (r: Result<Stat, ()>)
        ensures
            match input {
                Message::Info(ts, ram, ram_total) => r == Ok::<Stat, ()>(
                    Stat { timestamp: ts, ram, ram_total },
                ),
                _ => r is Err,
            },
    {
        match input {
            Message::Info(timestamp, ram, ram_total) => Ok(Stat { timestamp, ram, ram_total }),
            _ => Err(()),
        }
    }
}

/// Where the analytics store listens, and as whom to connect.
#[derive(Debug)]
pub struct DbConfig {
    pub url: String,
    pub database: Option<String>,
    pub username: Option<String>,
    pub password: Option<String>,
}

impl Default for DbConfig {
    /// The local store with its stock account.
    fn default() -> (c: DbConfig)
        ensures
            c.url@ == "http://127.0.0.1:8123"@,
            c.database is None,
            c.username is Some && c.username->0@ == "tapock"@,
            c.password is Some && c.password->0@ == "password"@,
    {
        DbConfig {
            url: "http://127.0.0.1:8123".to_owned(),
            database: None,
            username: Some("tapock".to_owned()),
            password: Some("password".to_owned()),
        }
    }
}

} // verus!
