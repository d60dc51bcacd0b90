use backoffice::auth::{
    account_resolved, auth_middleware, auth_middleware_at, read_credentials, token_verdict,
    AuthFailure, Credentials, GateStep, UNAUTHORIZED,
};
use backoffice::context::RequestContext;
use backoffice::token::{generate_token, generate_token_at};

#[test]
fn login_is_exempt_whatever_it_brings() {
    assert_eq!(auth_middleware("/auth/login", None), GateStep::Exempt);
    assert_eq!(auth_middleware("/auth/login", Some("Basic abc")), GateStep::Exempt);
    assert_eq!(auth_middleware("/auth/login", Some("Bearer nonsense")), GateStep::Exempt);
}

#[test]
fn only_the_exact_login_path_is_exempt() {
    for path in ["/auth/login/", "/auth/login/x", "/auth/logi", "auth/login", "/AUTH/LOGIN", ""] {
        assert_eq!(
            auth_middleware(path, None),
            GateStep::Reject(AuthFailure::MissingHeader)
        );
    }
}

#[test]
fn missing_header_is_rejected() {
    assert_eq!(
        auth_middleware("/users", None),
        GateStep::Reject(AuthFailure::MissingHeader)
    );
}

#[test]
fn other_schemes_are_rejected() {
    for header in ["", "Basic abc", "bearer abc", "Bearer", "BearerX abc", " Bearer abc", "Token abc"] {
        assert_eq!(
            auth_middleware("/users", Some(header)),
            GateStep::Reject(AuthFailure::MalformedScheme)
        );
    }
}

#[test]
fn invalid_tokens_are_rejected() {
    for header in ["Bearer ", "Bearer abc", "Bearer a.b.c", "Bearer  "] {
        assert_eq!(
            auth_middleware("/users", Some(header)),
            GateStep::Reject(AuthFailure::InvalidToken)
        );
    }
}

#[test]
fn valid_token_asks_for_the_account() {
    let token = generate_token(42).unwrap();
    let header = format!("Bearer {}", token);
    assert_eq!(auth_middleware("/users", Some(&header)), GateStep::Lookup(42));
}

#[test]
fn token_with_trailing_text_is_rejected() {
    let token = generate_token(42).unwrap();
    let header = format!("Bearer {} ", token);
    assert_eq!(
        auth_middleware("/users", Some(&header)),
        GateStep::Reject(AuthFailure::InvalidToken)
    );
    let header = format!("Bearer  {}", token);
    assert_eq!(
        auth_middleware("/users", Some(&header)),
        GateStep::Reject(AuthFailure::InvalidToken)
    );
}

#[test]
fn expired_and_forged_tokens_get_the_same_answer() {
    let token = generate_token_at(42, b"k", 1_000).unwrap();
    let header = format!("Bearer {}", token);
    let expired = auth_middleware_at("/users", Some(&header), b"k", 1_000 + 86_401);
    let forged = auth_middleware_at("/users", Some(&header), b"other", 1_000);
    assert_eq!(expired, GateStep::Reject(AuthFailure::InvalidToken));
    assert_eq!(forged, expired);
    assert_eq!(
        auth_middleware_at("/users", Some(&header), b"k", 1_000 + 86_400),
        GateStep::Lookup(42)
    );
}

#[test]
fn gate_at_a_given_time_reads_the_request_first() {
    assert_eq!(auth_middleware_at("/auth/login", None, b"k", 0), GateStep::Exempt);
    assert_eq!(
        auth_middleware_at("/menus", None, b"k", 0),
        GateStep::Reject(AuthFailure::MissingHeader)
    );
    assert_eq!(
        auth_middleware_at("/menus", Some("Basic x"), b"k", 0),
        GateStep::Reject(AuthFailure::MalformedScheme)
    );
}

#[test]
fn credentials_are_read_from_path_and_header() {
    assert!(matches!(read_credentials("/auth/login", Some("Bearer t")), Credentials::Exempt));
    assert!(matches!(read_credentials("/users", None), Credentials::Missing));
    assert!(matches!(read_credentials("/users", Some("Basic t")), Credentials::Malformed));
    match read_credentials("/users", Some("Bearer a b.c")) {
        Credentials::Bearer(token) => assert_eq!(token, "a b.c"),
        other => panic!("{:?}", other),
    }
    match read_credentials("/users", Some("Bearer ")) {
        Credentials::Bearer(token) => assert_eq!(token, ""),
        other => panic!("{:?}", other),
    }
    match read_credentials("/users", Some("Bearer 令牌")) {
        Credentials::Bearer(token) => assert_eq!(token, "令牌"),
        other => panic!("{:?}", other),
    }
}

#[test]
fn verdict_follows_the_subject() {
    assert_eq!(token_verdict(Some(-3)), GateStep::Lookup(-3));
    assert_eq!(token_verdict(None), GateStep::Reject(AuthFailure::InvalidToken));
}

#[test]
fn existing_account_is_attached_to_the_context() {
    let mut ctx = RequestContext::new();
    assert_eq!(account_resolved(&mut ctx, 42, Some("alice".to_owned())), Ok(()));
    assert_eq!(ctx.user_id, Some(42));
    assert_eq!(ctx.username.as_deref(), Some("alice"));
    assert!(ctx.operation_log.is_none());
}

#[test]
fn missing_account_is_rejected_and_leaves_no_identity() {
    let mut ctx = RequestContext::new();
    assert_eq!(account_resolved(&mut ctx, 42, None), Err(AuthFailure::AccountMissing));
    assert_eq!(ctx.user_id, None);
    assert_eq!(ctx.username, None);
}

#[test]
fn every_rejection_is_401() {
    for failure in [
        AuthFailure::MissingHeader,
        AuthFailure::MalformedScheme,
        AuthFailure::InvalidToken,
        AuthFailure::AccountMissing,
    ] {
        assert_eq!(failure.status(), 401);
        assert_eq!(failure.status(), UNAUTHORIZED);
    }
}

#[test]
fn rejection_messages() {
    assert_eq!(AuthFailure::MissingHeader.message(), "未提供认证信息");
    assert_eq!(AuthFailure::MalformedScheme.message(), "无效的认证头");
    assert_eq!(AuthFailure::InvalidToken.message(), "无效的认证信息");
    assert_eq!(AuthFailure::AccountMissing.message(), "用户不存在");
}
