use backoffice::audit::{
    complete_log, compose_params, failure_message, get_module_name, get_operation_name,
    is_audited, operation_log_after_middleware, operation_log_middleware,
};
use backoffice::context::RequestContext;
use backoffice::models::operation_log::{CreateOperationLog, STATUS_PENDING};

fn signed_in() -> RequestContext {
    let mut ctx = RequestContext::new();
    ctx.user_id = Some(1);
    ctx.username = Some("admin".to_owned());
    ctx
}

fn pair(k: &str, v: &str) -> (String, String) {
    (k.to_owned(), v.to_owned())
}

#[test]
fn module_names_by_first_segment() {
    assert_eq!(get_module_name("/users"), "用户管理");
    assert_eq!(get_module_name("/users/5"), "用户管理");
    assert_eq!(get_module_name("/users/5/roles"), "用户管理");
    assert_eq!(get_module_name("/roles/7/permissions"), "角色管理");
    assert_eq!(get_module_name("/permissions/3"), "权限管理");
    assert_eq!(get_module_name("/menus"), "菜单管理");
    assert_eq!(get_module_name("/operation-logs"), "操作日志");
    assert_eq!(get_module_name("/profile/password"), "个人信息");
}

#[test]
fn module_name_defaults_to_other() {
    assert_eq!(get_module_name("/upload"), "其他");
    assert_eq!(get_module_name("/"), "其他");
    assert_eq!(get_module_name(""), "其他");
    assert_eq!(get_module_name("users"), "其他");
    assert_eq!(get_module_name("/Users"), "其他");
    assert_eq!(get_module_name("/users2"), "其他");
    assert_eq!(get_module_name("/user"), "其他");
    assert_eq!(get_module_name("//users"), "其他");
    assert_eq!(get_module_name("/菜单/1"), "其他");
}

#[test]
fn module_name_reads_what_follows_the_first_slash() {
    assert_eq!(get_module_name("api/users/5"), "用户管理");
    assert_eq!(get_module_name("前缀/roles"), "角色管理");
}

#[test]
fn operation_names_by_method() {
    assert_eq!(get_operation_name("GET", "/users"), "查询");
    assert_eq!(get_operation_name("POST", "/users"), "新增");
    assert_eq!(get_operation_name("PUT", "/users/1"), "修改");
    assert_eq!(get_operation_name("DELETE", "/users/1"), "删除");
    assert_eq!(get_operation_name("PATCH", "/profile"), "更新");
}

#[test]
fn operation_name_defaults_to_other() {
    assert_eq!(get_operation_name("OPTIONS", "/users"), "其他");
    assert_eq!(get_operation_name("get", "/users"), "其他");
    assert_eq!(get_operation_name("", "/users"), "其他");
    assert_eq!(get_operation_name("POSTS", "/users"), "其他");
}

#[test]
fn operation_name_ignores_the_path() {
    assert_eq!(get_operation_name("POST", ""), get_operation_name("POST", "/roles/1"));
}

#[test]
fn reads_logins_and_the_audit_log_are_not_audited() {
    assert!(!is_audited("/users", "GET"));
    assert!(!is_audited("/auth/login", "POST"));
    assert!(!is_audited("/auth/login/extra", "POST"));
    assert!(!is_audited("/operation-logs", "DELETE"));
    assert!(!is_audited("/operation-logs/5", "DELETE"));
    assert!(!is_audited("/operation-logs", "GET"));
}

#[test]
fn writes_are_audited() {
    assert!(is_audited("/users", "POST"));
    assert!(is_audited("/roles/7/permissions", "PUT"));
    assert!(is_audited("/profile", "PATCH"));
    assert!(is_audited("/users/1", "DELETE"));
    assert!(is_audited("/users", "get"));
    assert!(is_audited("/auth/logi", "POST"));
    assert!(is_audited("/api/auth/login", "POST"));
    assert!(is_audited("/operation-log", "DELETE"));
}

#[test]
fn request_without_query_and_body_has_no_params() {
    assert_eq!(compose_params("[]", true, None), None);
    assert_eq!(compose_params("[]", true, Some("null".to_owned())), None);
    assert_eq!(compose_params("anything", true, None), None);
}

#[test]
fn query_alone_is_recorded_with_a_null_body() {
    assert_eq!(
        compose_params("[[\"a\",\"1\"]]", false, None),
        Some("{\"body\":null,\"query\":[[\"a\",\"1\"]]}".to_owned())
    );
    assert_eq!(
        compose_params("[[\"a\",\"1\"]]", false, Some("null".to_owned())),
        Some("{\"body\":null,\"query\":[[\"a\",\"1\"]]}".to_owned())
    );
}

#[test]
fn params_hold_body_and_query() {
    assert_eq!(
        compose_params("[[\"a\",\"1\"]]", false, Some("{\"x\":1}".to_owned())),
        Some("{\"body\":{\"x\":1},\"query\":[[\"a\",\"1\"]]}".to_owned())
    );
    assert_eq!(
        compose_params("[]", true, Some("[1,2]".to_owned())),
        Some("{\"body\":[1,2],\"query\":{}}".to_owned())
    );
    assert_eq!(
        compose_params("ignored", true, Some("\"null\"".to_owned())),
        Some("{\"body\":\"null\",\"query\":{}}".to_owned())
    );
}

#[test]
fn composed_params_are_json() {
    let text = compose_params("[[\"a\",\"1\"]]", false, Some("{\"x\":1}".to_owned())).unwrap();
    let value: serde_json::Value = serde_json::from_str(&text).unwrap();
    assert_eq!(value["body"]["x"], serde_json::Value::from(1));
    assert_eq!(value["query"][0][0], serde_json::Value::from("a"));
    assert_eq!(value["query"][0][1], serde_json::Value::from("1"));
}

#[test]
fn before_phase_makes_a_pending_record() {
    let mut ctx = signed_in();
    operation_log_middleware(
        &mut ctx,
        "/roles/7/permissions",
        "PUT",
        &vec![],
        Some(b"{ \"permission_ids\": [1, 2, 3] }".as_slice()),
        "127.0.0.1:5000",
    );
    let log = ctx.operation_log.as_ref().unwrap();
    assert_eq!(log.user_id, 1);
    assert_eq!(log.username, "admin");
    assert_eq!(log.module, "角色管理");
    assert_eq!(log.operation, "修改");
    assert_eq!(log.method, "PUT");
    assert_eq!(
        log.params.as_deref(),
        Some("{\"body\":{\"permission_ids\":[1,2,3]},\"query\":{}}")
    );
    assert_eq!(log.ip.as_deref(), Some("127.0.0.1:5000"));
    assert_eq!(log.status, STATUS_PENDING);
    assert_eq!(log.status, 0);
    assert_eq!(log.error, None);
    assert_eq!(ctx.user_id, Some(1));
    assert_eq!(ctx.username.as_deref(), Some("admin"));
}

#[test]
fn before_phase_records_query_pairs_in_order() {
    let mut ctx = signed_in();
    let query = vec![pair("page", "2"), pair("name", "a\"b"), pair("page", "3")];
    operation_log_middleware(&mut ctx, "/users", "POST", &query, Some(b"{}".as_slice()), "::1");
    let log = ctx.operation_log.as_ref().unwrap();
    assert_eq!(
        log.params.as_deref(),
        Some("{\"body\":{},\"query\":[[\"page\",\"2\"],[\"name\",\"a\\\"b\"],[\"page\",\"3\"]]}")
    );
}

#[test]
fn before_phase_without_query_and_body_keeps_no_params() {
    for body in [None, Some(b"".as_slice()), Some(b"null".as_slice()), Some(b"{oops".as_slice()), Some(b" null ".as_slice())] {
        let mut ctx = signed_in();
        operation_log_middleware(&mut ctx, "/users/3", "DELETE", &vec![], body, "10.0.0.1:1");
        let log = ctx.operation_log.as_ref().unwrap();
        assert_eq!(log.params, None);
        assert_eq!(log.module, "用户管理");
        assert_eq!(log.operation, "删除");
    }
}

#[test]
fn before_phase_keeps_the_query_of_a_request_without_body() {
    let query = vec![pair("force", "true")];
    for body in [None, Some(b"".as_slice()), Some(b"null".as_slice()), Some(b"{oops".as_slice())] {
        let mut ctx = signed_in();
        operation_log_middleware(&mut ctx, "/users/3", "DELETE", &query, body, "10.0.0.1:1");
        let log = ctx.operation_log.as_ref().unwrap();
        assert_eq!(
            log.params.as_deref(),
            Some("{\"body\":null,\"query\":[[\"force\",\"true\"]]}")
        );
    }
}

#[test]
fn before_phase_skips_reads() {
    let mut ctx = signed_in();
    operation_log_middleware(&mut ctx, "/users", "GET", &vec![], None, "::1");
    assert!(ctx.operation_log.is_none());
}

#[test]
fn before_phase_skips_the_login() {
    let mut ctx = signed_in();
    operation_log_middleware(&mut ctx, "/auth/login", "POST", &vec![], Some(b"{}".as_slice()), "::1");
    assert!(ctx.operation_log.is_none());
}

#[test]
fn before_phase_skips_the_audit_log() {
    let mut ctx = signed_in();
    operation_log_middleware(&mut ctx, "/operation-logs", "DELETE", &vec![], None, "::1");
    assert!(ctx.operation_log.is_none());
}

#[test]
fn before_phase_needs_both_parts_of_the_identity() {
    let mut ctx = RequestContext::new();
    operation_log_middleware(&mut ctx, "/users", "POST", &vec![], None, "::1");
    assert!(ctx.operation_log.is_none());

    let mut ctx = RequestContext::new();
    ctx.user_id = Some(1);
    operation_log_middleware(&mut ctx, "/users", "POST", &vec![], None, "::1");
    assert!(ctx.operation_log.is_none());

    let mut ctx = RequestContext::new();
    ctx.username = Some("admin".to_owned());
    operation_log_middleware(&mut ctx, "/users", "POST", &vec![], None, "::1");
    assert!(ctx.operation_log.is_none());
}

#[test]
fn unaudited_requests_hand_over_nothing() {
    for (path, method, signed) in [
        ("/users", "GET", true),
        ("/auth/login", "POST", true),
        ("/users", "POST", false),
        ("/operation-logs", "DELETE", true),
    ] {
        let mut ctx = if signed { signed_in() } else { RequestContext::new() };
        operation_log_middleware(&mut ctx, path, method, &vec![], Some(b"{}".as_slice()), "::1");
        assert!(operation_log_after_middleware(&mut ctx, Some(200)).is_none());
        assert!(operation_log_after_middleware(&mut ctx, Some(500)).is_none());
    }
}

#[test]
fn after_phase_records_success() {
    let mut ctx = signed_in();
    operation_log_middleware(&mut ctx, "/users", "POST", &vec![], Some(b"{}".as_slice()), "::1");
    let record = operation_log_after_middleware(&mut ctx, Some(201)).unwrap();
    assert_eq!(record.status, 201);
    assert_eq!(record.error, None);
    assert_eq!(record.module, "用户管理");
    assert!(ctx.operation_log.is_none());
    assert_eq!(ctx.user_id, Some(1));
}

#[test]
fn after_phase_records_a_failed_handler() {
    let mut ctx = signed_in();
    operation_log_middleware(&mut ctx, "/roles/7/permissions", "PUT", &vec![], Some(b"{}".as_slice()), "::1");
    let record = operation_log_after_middleware(&mut ctx, Some(500)).unwrap();
    assert_eq!(record.status, 500);
    assert_eq!(record.error.as_deref(), Some("{\"message\":\"请求失败\",\"status\":500}"));
    assert_eq!(record.username, "admin");
}

#[test]
fn after_phase_defaults_to_ok() {
    let mut ctx = signed_in();
    operation_log_middleware(&mut ctx, "/users", "POST", &vec![], None, "::1");
    let record = operation_log_after_middleware(&mut ctx, None).unwrap();
    assert_eq!(record.status, 200);
    assert_eq!(record.error, None);
}

#[test]
fn after_phase_hands_over_once() {
    let mut ctx = signed_in();
    operation_log_middleware(&mut ctx, "/users", "POST", &vec![], None, "::1");
    assert!(operation_log_after_middleware(&mut ctx, Some(204)).is_some());
    assert!(operation_log_after_middleware(&mut ctx, Some(204)).is_none());
}

#[test]
fn after_phase_without_a_pending_record_does_nothing() {
    let mut ctx = signed_in();
    assert!(operation_log_after_middleware(&mut ctx, Some(500)).is_none());
    assert_eq!(ctx.user_id, Some(1));
    assert_eq!(ctx.username.as_deref(), Some("admin"));
}

#[test]
fn success_is_the_2xx_range() {
    let pending = || CreateOperationLog {
        user_id: 1,
        username: "u".to_owned(),
        module: "m".to_owned(),
        operation: "o".to_owned(),
        method: "POST".to_owned(),
        params: None,
        ip: None,
        status: 0,
        error: None,
    };
    for status in [200u16, 204, 299] {
        let done = complete_log(pending(), status);
        assert_eq!(done.status, status as i32);
        assert_eq!(done.error, None);
    }
    for status in [0u16, 100, 199, 300, 301, 401, 404, 500, 65535] {
        let done = complete_log(pending(), status);
        assert_eq!(done.status, status as i32);
        assert_eq!(done.error, Some(failure_message(status)));
    }
}

#[test]
fn failure_message_spells_the_status() {
    assert_eq!(failure_message(500), "{\"message\":\"请求失败\",\"status\":500}");
    assert_eq!(failure_message(0), "{\"message\":\"请求失败\",\"status\":0}");
    assert_eq!(failure_message(7), "{\"message\":\"请求失败\",\"status\":7}");
    assert_eq!(failure_message(404), "{\"message\":\"请求失败\",\"status\":404}");
    assert_eq!(failure_message(65535), "{\"message\":\"请求失败\",\"status\":65535}");
    let value: serde_json::Value = serde_json::from_str(&failure_message(401)).unwrap();
    assert_eq!(value["status"], serde_json::Value::from(401));
    assert_eq!(value["message"], serde_json::Value::from("请求失败"));
}
