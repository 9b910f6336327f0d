//! The chat record and the statements of its table.
//!
//! A record is written to an append-only table `msg` with the columns
//! `name`, `timestamp`, `content` and `time`. The status of a record is not
//! stored: a record read back is marked as replayed.

use vstd::prelude::*;
use crate::status::Status;
use crate::wire::{encode_record, frame, json_string};

verus! {

/// Mathematical model of a [`TableRow`].
pub struct ChatRecord {
    /// Who wrote the record.
    pub name: Seq<char>,
    /// The sequence number of the record.
    pub timestamp: usize,
    /// What the record says.
    pub content: Seq<char>,
    /// The wall-clock time at which it was written.
    pub time: Seq<char>,
    /// The code of its status.
    pub status: i8,
}

impl ChatRecord {
    /// The JSON text that is pushed to clients for this record.
    pub open spec fn json(self) -> Seq<char> {
        frame(
            json_string(self.name),
            self.timestamp,
            json_string(self.content),
            json_string(self.time),
            self.status,
        )
    }
}

/// One unit of chat history: a user's message or a notice of the server.
#[derive(Debug)]
pub struct TableRow {
    name: String,
    timestamp: usize,
    content: String,
    time: String,
    status: i8,
}

impl View for TableRow {
    type V = ChatRecord;

    closed spec fn view(&self) -> ChatRecord {
        ChatRecord {
            name: self.name@,
            timestamp: self.timestamp,
            content: self.content@,
            time: self.time@,
            status: self.status,
        }
    }
}

impl TableRow {
    /// A record with the given members.
    pub fn new(name: String, timestamp: usize, content: String, time: String, status: i8) -> (row:
        Self)
        ensures
            row@ == (ChatRecord {
                name: name@,
                timestamp: timestamp,
                content: content@,
                time: time@,
                status: status,
            }),
    {
        Self { name, timestamp, content, time, status }
    }

    /// A record as it comes back from the table, marked as replayed.
    pub fn restored(name: String, timestamp: usize, content: String, time: String) -> (row: Self)
        ensures
            row@ == (ChatRecord {
                name: name@,
                timestamp: timestamp,
                content: content@,
                time: time@,
                status: Status::RollBack.spec_code(),
            }),
    {
        Self::new(name, timestamp, content, time, Status::RollBack.code())
    }

    /// Who wrote the record.
    pub fn name(&self) -> (s: &str)
        ensures
            s@ == self@.name,
    {
        self.name.as_str()
    }

    /// The sequence number of the record.
    pub fn timestamp(&self) -> (n: usize)
        ensures
            n == self@.timestamp,
    {
        self.timestamp
    }

    /// What the record says.
    pub fn content(&self) -> (s: &str)
        ensures
            s@ == self@.content,
    {
        self.content.as_str()
    }

    /// The wall-clock time at which the record was written.
    pub fn time(&self) -> (s: &str)
        ensures
            s@ == self@.time,
    {
        self.time.as_str()
    }

    /// The code of the record's status.
    pub fn status(&self) -> (c: i8)
        ensures
            c == self@.status,
    {
        self.status
    }

    /// The JSON text that is pushed to clients for this record.
    pub fn to_msg(&self) -> (out: String)
        ensures
            out@ == self@.json(),
    {
        encode_record(
            self.name.as_str(),
            self.timestamp,
            self.content.as_str(),
            self.time.as_str(),
            self.status,
        )
    }

    /// The statement that creates the table.
    pub fn init_table() -> (sql: &'static str)
        ensures
            sql@ == "CREATE TABLE msg(name TEXT, timestamp INTEGER, content TEXT, time TEXT);"@,
    {
        "CREATE TABLE msg(name TEXT, timestamp INTEGER, content TEXT, time TEXT);"
    }

    /// The statement that appends one record; its four parameters are the
    /// name, the sequence number, the content and the time.
    pub fn insert_row() -> (sql: &'static str)
        ensures
            sql@ == "INSERT INTO msg (name, timestamp, content, time) VALUES (?1, ?2, ?3, ?4);"@,
    {
        "INSERT INTO msg (name, timestamp, content, time) VALUES (?1, ?2, ?3, ?4);"
    }

    /// The statement that reads back the ten latest records, newest first:
    /// those before a given sequence number, which is then its one
    /// parameter, or the latest of all.
    pub fn select_rows(before: Option<usize>) -> (sql: &'static str)
        ensures
            before is Some ==> sql@
                == "SELECT * FROM msg WHERE timestamp < ? ORDER BY timestamp DESC LIMIT 10"@,
            before is None ==> sql@ == "SELECT * FROM msg ORDER BY timestamp DESC LIMIT 10"@,
    {
        match before {
            Some(_) => "SELECT * FROM msg WHERE timestamp < ? ORDER BY timestamp DESC LIMIT 10",
            None => "SELECT * FROM msg ORDER BY timestamp DESC LIMIT 10",
        }
    }
}

} // verus!
