//! What one request carries from the authentication gate to the audit
//! interceptor and the handlers.

use vstd::prelude::*;
use crate::models::operation_log::{CreateOperationLog, LogEntry};
use crate::text::opt_text;

verus! {

/// The state of one request. The authentication gate fills in the identity;
/// the audit interceptor keeps its pending record here between its two
/// phases. Nothing else passes identity on: a handler reads it from here and
/// does not look at the token again.
#[derive(Debug)]
pub struct RequestContext {
    pub user_id: Option<i64>,
    pub username: Option<String>,
    pub operation_log: Option<CreateOperationLog>,
}

/// Mathematical model of a [`RequestContext`].
pub struct ContextView {
    pub user_id: Option<int>,
    pub username: Option<Seq<char>>,
    pub operation_log: Option<LogEntry>,
}

/// The model of an optional audit record.
pub open spec fn opt_entry(log: Option<CreateOperationLog>) -> Option<LogEntry> {
    match log {
        Some(l) => Some(l@),
        None => None,
    }
}

impl View for RequestContext {
    type V = ContextView;

    open spec fn view(&self) -> ContextView {
        ContextView {
            user_id: match self.user_id {
                Some(id) => Some(id as int),
                None => None,
            },
            username: opt_text(self.username),
            operation_log: opt_entry(self.operation_log),
        }
    }
}

impl RequestContext {
    /// The context of a request that has just come in: nobody is
    /// authenticated and nothing is pending.
    pub fn new() -> (ctx: RequestContext)
        ensures
            ctx@ == (ContextView { user_id: None, username: None, operation_log: None }),
    {
        RequestContext { user_id: None, username: None, operation_log: None }
    }
}

} // verus!
