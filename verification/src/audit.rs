//! The audit interceptor: a record for every state-changing request, made
//! before the handler runs and completed with the outcome after it.
//!
//! The interceptor is best effort. A request that cannot be attributed to
//! an account is served without a record, and so are reads, the login and
//! the audit log's own endpoints. Storing the completed record is the
//! caller's part, off the response path: a failure there is reported to the
//! operator and never to the client.

use vstd::prelude::*;
use vstd::string::StringExecFns;
use crate::context::{opt_entry, ContextView, RequestContext};
use crate::login::LOGIN_PATH;
use crate::models::operation_log::{CreateOperationLog, LogEntry, STATUS_PENDING};
use crate::text::{
    chars_of, decimal, find_char, has_prefix, opt_text, position_of, push_decimal, same_text,
    slice_is,
};

verus! {

/// The path under which the audit log itself is read and managed.
pub const AUDIT_LOG_PATH: &'static str = "/operation-logs";

/// The module recorded for a path that names none of the known ones, and
/// the operation recorded for an unknown method.
pub const OTHER: &'static str = "其他";

/// What stands before the status in the error text of a failed request.
pub const FAILURE_HEAD: &'static str = "{\"message\":\"请求失败\",\"status\":";

/// What stands after it.
pub const FAILURE_TAIL: &'static str = "}";

/// The status of a response that sets none.
pub const DEFAULT_STATUS: u16 = 200;

/// The texts of a list of pairs of strings.
pub open spec fn pair_texts(pairs: Seq<(String, String)>) -> Seq<(Seq<char>, Seq<char>)> {
    Seq::new(pairs.len(), |i: int| (pairs[i].0@, pairs[i].1@))
}

/// The bytes of an optional body.
pub open spec fn opt_bytes(body: Option<&[u8]>) -> Option<Seq<u8>> {
    match body {
        Some(b) => Some(b@),
        None => None,
    }
}

/// A list of pairs of strings as JSON text: an array of two-element arrays.
pub uninterp spec fn json_of_pairs(pairs: Seq<(Seq<char>, Seq<char>)>) -> Seq<char>;

/// The JSON value that `raw` spells, written out again in compact form;
/// `None` where `raw` is not JSON text.
pub uninterp spec fn compact_json_of(raw: Seq<u8>) -> Option<Seq<char>>;

/// `serde_json::to_string` on a list of pairs of strings. The text depends
/// on the pairs alone.
#[verifier::external_body]
fn pairs_json(pairs: &Vec<(String, String)>) -> (out: String)
    ensures
        out@ == json_of_pairs(pair_texts(pairs@)),
{
    serde_json::to_string(pairs).unwrap_or_default()
}

/// `serde_json::from_slice` into a `serde_json::Value`, which is then
/// written back by its `Display`. The text depends on the bytes alone.
#[verifier::external_body]
fn compact_json(raw: &[u8]) -> (out: Option<String>)
    ensures
        opt_text(out) == compact_json_of(raw@),
{
    match serde_json::from_slice::<serde_json::Value>(raw) {
        Ok(value) => Some(value.to_string()),
        Err(_) => None,
    }
}

/// No record is made for this request: it is a login, it concerns the audit
/// log itself, or it only reads.
pub open spec fn audit_skipped(path: Seq<char>, method: Seq<char>) -> bool {
    LOGIN_PATH@.is_prefix_of(path) || AUDIT_LOG_PATH@.is_prefix_of(path) || method == "GET"@
}

/// What stands between the first and the second `/` of a path; `None` for a
/// path without a `/`.
pub open spec fn module_segment(path: Seq<char>) -> Option<Seq<char>> {
    let first = position_of(path, '/', 0);
    if first >= path.len() {
        None
    } else {
        Some(path.subrange(first + 1, position_of(path, '/', first + 1)))
    }
}

/// The name under which a part of the back office appears in the audit log.
pub open spec fn module_label(segment: Seq<char>) -> Seq<char> {
    if segment == "users"@ {
        "用户管理"@
    } else if segment == "roles"@ {
        "角色管理"@
    } else if segment == "permissions"@ {
        "权限管理"@
    } else if segment == "menus"@ {
        "菜单管理"@
    } else if segment == "operation-logs"@ {
        "操作日志"@
    } else if segment == "profile"@ {
        "个人信息"@
    } else {
        OTHER@
    }
}

/// The module that a request to `path` is recorded under.
pub open spec fn module_name(path: Seq<char>) -> Seq<char> {
    match module_segment(path) {
        Some(segment) => module_label(segment),
        None => OTHER@,
    }
}

/// The operation that a request with `method` is recorded as.
pub open spec fn operation_name(method: Seq<char>) -> Seq<char> {
    if method == "GET"@ {
        "查询"@
    } else if method == "POST"@ {
        "新增"@
    } else if method == "PUT"@ {
        "修改"@
    } else if method == "DELETE"@ {
        "删除"@
    } else if method == "PATCH"@ {
        "更新"@
    } else {
        OTHER@
    }
}

/// The JSON text that stands for the body in the snapshot: `null` for a
/// request without a JSON body.
pub open spec fn body_part(body_json: Option<Seq<char>>) -> Seq<char> {
    match body_json {
        Some(body) => body,
        None => "null"@,
    }
}

/// The snapshot of a request's parameters, from the JSON text of its query
/// pairs and of its body: an object with the body and the query, or none
/// for a request that has neither, which is one without query pairs and
/// without a JSON body other than `null`. An empty query is recorded as an
/// empty object.
pub open spec fn composed_params(
    query_json: Seq<char>,
    query_is_empty: bool,
    body_json: Option<Seq<char>>,
) -> Option<Seq<char>> {
    if query_is_empty && body_part(body_json) == "null"@ {
        None
    } else {
        Some(
            "{\"body\":"@ + body_part(body_json) + ",\"query\":"@ + (if query_is_empty {
                "{}"@
            } else {
                query_json
            }) + "}"@,
        )
    }
}

/// The snapshot of a request's parameters, from its query pairs and the
/// bytes of its body, where it declares a JSON body.
pub open spec fn params_snapshot(
    query: Seq<(Seq<char>, Seq<char>)>,
    body: Option<Seq<u8>>,
) -> Option<Seq<char>> {
    composed_params(
        json_of_pairs(query),
        query.len() == 0,
        match body {
            Some(raw) => compact_json_of(raw),
            None => None,
        },
    )
}

/// The record made for a request when it comes in.
pub open spec fn pending_entry(
    user_id: int,
    username: Seq<char>,
    path: Seq<char>,
    method: Seq<char>,
    query: Seq<(Seq<char>, Seq<char>)>,
    body: Option<Seq<u8>>,
    remote_addr: Seq<char>,
) -> LogEntry {
    LogEntry {
        user_id,
        username,
        module: module_name(path),
        operation: operation_name(method),
        method,
        params: params_snapshot(query, body),
        ip: Some(remote_addr),
        status: STATUS_PENDING as int,
        error: None,
    }
}

/// What the first phase does to the request's context.
pub open spec fn before_phase(
    ctx: ContextView,
    path: Seq<char>,
    method: Seq<char>,
    query: Seq<(Seq<char>, Seq<char>)>,
    body: Option<Seq<u8>>,
    remote_addr: Seq<char>,
) -> ContextView {
    if audit_skipped(path, method) {
        ctx
    } else {
        match (ctx.user_id, ctx.username) {
            (Some(user_id), Some(username)) => ContextView {
                operation_log: Some(
                    pending_entry(user_id, username, path, method, query, body, remote_addr),
                ),
                ..ctx
            },
            _ => ctx,
        }
    }
}

/// The status recorded for a response with the status code `code`.
pub open spec fn response_status(code: Option<u16>) -> int {
    match code {
        Some(c) => c as int,
        None => DEFAULT_STATUS as int,
    }
}

/// The status tells of success.
pub open spec fn is_success(status: int) -> bool {
    200 <= status < 300
}

/// The error text of a request that failed with `status`: the status and a
/// fixed message, not what the handler said.
pub open spec fn failure_text(status: int) -> Seq<char> {
    FAILURE_HEAD@ + decimal(status as nat) + FAILURE_TAIL@
}

/// The record of a request that was answered with `status`.
pub open spec fn completed(entry: LogEntry, status: int) -> LogEntry {
    LogEntry {
        status,
        error: if is_success(status) {
            entry.error
        } else {
            Some(failure_text(status))
        },
        ..entry
    }
}

/// What the second phase does to the request's context, and the record it
/// hands over to be stored.
pub open spec fn after_phase(ctx: ContextView, code: Option<u16>) -> (
    ContextView,
    Option<LogEntry>,
) {
    (
        ContextView { operation_log: None, ..ctx },
        match ctx.operation_log {
            Some(entry) => Some(completed(entry, response_status(code))),
            None => None,
        },
    )
}

/// A read, a login, a request to the audit log itself and a request that
/// no account stands behind leave no record: where nothing was pending when
/// such a request came in, the second phase has nothing to hand over,
/// whatever the response.
pub proof fn lemma_unaudited_request_leaves_no_record(
    ctx: ContextView,
    path: Seq<char>,
    method: Seq<char>,
    query: Seq<(Seq<char>, Seq<char>)>,
    body: Option<Seq<u8>>,
    remote_addr: Seq<char>,
    code: Option<u16>,
)
    requires
        ctx.operation_log is None,
        method == "GET"@ || LOGIN_PATH@.is_prefix_of(path) || AUDIT_LOG_PATH@.is_prefix_of(path)
            || ctx.user_id is None || ctx.username is None,
    ensures
        after_phase(before_phase(ctx, path, method, query, body, remote_addr), code).1 is None,
{
}

/// A pending record is stored with the status of the response that was
/// sent, also where the handler failed: then it carries an error text as
/// well.
pub proof fn lemma_record_reflects_response(ctx: ContextView, code: Option<u16>)
    requires
        ctx.operation_log is Some,
    ensures
        after_phase(ctx, code).1 matches Some(record) && record.status == response_status(code)
            && (!is_success(response_status(code)) ==> record.error is Some),
{
}

/// A record is handed over once: the second phase leaves nothing pending,
/// so running it again hands over nothing.
pub proof fn lemma_record_handed_over_once(ctx: ContextView, first: Option<u16>, again: Option<u16>)
    ensures
        after_phase(ctx, first).0.operation_log is None,
        after_phase(after_phase(ctx, first).0, again).1 is None,
{
}

/// Tells whether a request leaves a record.
pub fn is_audited(path: &str, method: &str) -> (audited: bool)
    ensures
        audited == !audit_skipped(path@, method@),
{
    let p = chars_of(path);
    if has_prefix(&p, &chars_of(LOGIN_PATH)) {
        false
    } else if has_prefix(&p, &chars_of(AUDIT_LOG_PATH)) {
        false
    } else {
        !same_text(method, "GET")
    }
}

/// The module that a request to `path` is recorded under.
pub fn get_module_name(path: &str) -> (name: String)
    ensures
        name@ == module_name(path@),
{
    let p = chars_of(path);
    let first = find_char(&p, '/', 0);
    if first >= p.len() {
        return OTHER.to_owned();
    }
    let from = first + 1;
    let to = find_char(&p, '/', from);
    let label = if slice_is(&p, from, to, "users") {
        "用户管理"
    } else if slice_is(&p, from, to, "roles") {
        "角色管理"
    } else if slice_is(&p, from, to, "permissions") {
        "权限管理"
    } else if slice_is(&p, from, to, "menus") {
        "菜单管理"
    } else if slice_is(&p, from, to, "operation-logs") {
        "操作日志"
    } else if slice_is(&p, from, to, "profile") {
        "个人信息"
    } else {
        OTHER
    };
    label.to_owned()
}

/// The operation that a request with `method` is recorded as. The path
/// plays no part.
pub fn get_operation_name(method: &str, _path: &str) -> (name: String)
    ensures
        name@ == operation_name(method@),
{
    let label = if same_text(method, "GET") {
        "查询"
    } else if same_text(method, "POST") {
        "新增"
    } else if same_text(method, "PUT") {
        "修改"
    } else if same_text(method, "DELETE") {
        "删除"
    } else if same_text(method, "PATCH") {
        "更新"
    } else {
        OTHER
    };
    label.to_owned()
}

/// Puts the snapshot of a request's parameters together from the JSON text
/// of its query pairs and of its body.
pub fn compose_params(query_json: &str, query_is_empty: bool, body_json: Option<String>) -> (params:
    Option<String>)
    ensures
        opt_text(params) == composed_params(query_json@, query_is_empty, opt_text(body_json)),
{
    let body = match body_json {
        Some(body) => body,
        None => "null".to_owned(),
    };
    if query_is_empty && same_text(body.as_str(), "null") {
        return None;
    }
    let mut out = "{\"body\":".to_owned();
    out.append(body.as_str());
    out.append(",\"query\":");
    if query_is_empty {
        out.append("{}");
    } else {
        out.append(query_json);
    }
    out.append("}");
    Some(out)
}

/// The snapshot of a request's parameters.
fn snapshot_params(query: &Vec<(String, String)>, body: Option<&[u8]>) -> (params: Option<String>)
    ensures
        opt_text(params) == params_snapshot(pair_texts(query@), opt_bytes(body)),
{
    let body_json = match body {
        Some(raw) => compact_json(raw),
        None => None,
    };
    let query_json = pairs_json(query);
    assert(pair_texts(query@).len() == query@.len());
    compose_params(query_json.as_str(), query.len() == 0, body_json)
}

/// The first phase, run after authentication and before the handler. For a
/// request that is audited and whose context names an account, it puts the
/// pending record into the context: who asked, from where, for what, with
/// which parameters. `body` is the request's body where the request declares
/// one in JSON. Any other request leaves the context as it was.
pub fn operation_log_middleware(
    ctx: &mut RequestContext,
    path: &str,
    method: &str,
    query: &Vec<(String, String)>,
    body: Option<&[u8]>,
    remote_addr: &str,
)
    ensures
        final(ctx)@ == before_phase(
            old(ctx)@,
            path@,
            method@,
            pair_texts(query@),
            opt_bytes(body),
            remote_addr@,
        ),
{
    if !is_audited(path, method) {
        return ;
    }
    let user_id = match ctx.user_id {
        Some(id) => id,
        None => {
            return ;
        },
    };
    let username = match &ctx.username {
        Some(name) => name.clone(),
        None => {
            return ;
        },
    };
    let log = CreateOperationLog {
        user_id,
        username,
        module: get_module_name(path),
        operation: get_operation_name(method, path),
        method: method.to_owned(),
        params: snapshot_params(query, body),
        ip: Some(remote_addr.to_owned()),
        status: STATUS_PENDING,
        error: None,
    };
    ctx.operation_log = Some(log);
}

/// The error text of a request that failed with `status`.
pub fn failure_message(status: u16) -> (text: String)
    ensures
        text@ == failure_text(status as int),
{
    let mut text = FAILURE_HEAD.to_owned();
    push_decimal(&mut text, status as u32);
    text.append(FAILURE_TAIL);
    text
}

/// Completes a pending record with the status of the response.
pub fn complete_log(log: CreateOperationLog, status: u16) -> (done: CreateOperationLog)
    ensures
        done@ == completed(log@, status as int),
{
    let mut done = log;
    done.status = status as i32;
    if status < 200 || status >= 300 {
        done.error = Some(failure_message(status));
    }
    done
}

/// The second phase, run once the handler has produced a response and
/// before the response is sent. It takes the pending record out of the
/// context and returns it, completed with the status of the response, for
/// the caller to store; `status_code` is the status that the response sets,
/// if it sets one. Where nothing is pending it returns nothing.
pub fn operation_log_after_middleware(ctx: &mut RequestContext, status_code: Option<u16>) -> (record:
    Option<CreateOperationLog>)
    ensures
        final(ctx)@ == after_phase(old(ctx)@, status_code).0,
        opt_entry(record) == after_phase(old(ctx)@, status_code).1,
{
    let status = match status_code {
        Some(code) => code,
        None => DEFAULT_STATUS,
    };
    match ctx.operation_log.take() {
        Some(log) => Some(complete_log(log, status)),
        None => None,
    }
}

} // verus!
