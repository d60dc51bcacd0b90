//! The audit trail: one record for each state-changing request.

use vstd::prelude::*;
use crate::text::opt_text;

verus! {

/// The status of a record whose request has not been answered yet.
pub const STATUS_PENDING: i32 = 0;

/// A stored audit record.
#[derive(Debug)]
pub struct OperationLog {
    pub id: i64,
    pub user_id: i64,
    pub username: String,
    pub module: String,
    pub operation: String,
    pub method: String,
    pub params: Option<String>,
    pub ip: Option<String>,
    pub status: i32,
    pub error: Option<String>,
    pub created_at: String,
}

/// An audit record on its way to the store. It is made when the request
/// comes in, with the status [`STATUS_PENDING`]; it gets the status of the
/// response, and an error text where the request failed, once the request
/// has been handled.
#[derive(Debug)]
pub struct CreateOperationLog {
    pub user_id: i64,
    pub username: String,
    pub module: String,
    pub operation: String,
    pub method: String,
    pub params: Option<String>,
    pub ip: Option<String>,
    pub status: i32,
    pub error: Option<String>,
}

/// Mathematical model of a [`CreateOperationLog`].
pub struct LogEntry {
    pub user_id: int,
    pub username: Seq<char>,
    pub module: Seq<char>,
    pub operation: Seq<char>,
    pub method: Seq<char>,
    pub params: Option<Seq<char>>,
    pub ip: Option<Seq<char>>,
    pub status: int,
    pub error: Option<Seq<char>>,
}

impl View for CreateOperationLog {
    type V = LogEntry;

    open spec fn view(&self) -> LogEntry {
        LogEntry {
            user_id: self.user_id as int,
            username: self.username@,
            module: self.module@,
            operation: self.operation@,
            method: self.method@,
            params: opt_text(self.params),
            ip: opt_text(self.ip),
            status: self.status as int,
            error: opt_text(self.error),
        }
    }
}

} // verus!
