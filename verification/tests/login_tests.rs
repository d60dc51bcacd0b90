use backoffice::login::{
    check_credentials, login, login_at, login_response, LoginFailure, LoginRequest,
    LOGIN_REJECTED, LOGIN_UNAVAILABLE,
};
use backoffice::models::user::User;
use backoffice::password::hash_password;
use backoffice::token::{verify_token, verify_token_at, TokenError};

fn admin() -> User {
    User {
        id: 1,
        username: "admin".to_owned(),
        password: hash_password("admin123"),
        nickname: "Administrator".to_owned(),
        email: Some("admin@example.com".to_owned()),
        avatar: None,
        status: 1,
        created_at: "2024-01-01 00:00:00".to_owned(),
        updated_at: "2024-01-02 00:00:00".to_owned(),
    }
}

#[test]
fn right_password_logs_in() {
    let request = LoginRequest { username: "admin".to_owned(), password: "admin123".to_owned() };
    let response = login(Some(admin()), &request.password).unwrap();
    assert_eq!(verify_token(&response.token), Some(1));
    assert_eq!(response.user.id, 1);
    assert_eq!(response.user.username, "admin");
    assert_eq!(response.user.nickname, "Administrator");
    assert_eq!(response.user.email.as_deref(), Some("admin@example.com"));
    assert_eq!(response.user.avatar, None);
    assert_eq!(response.user.status, 1);
    assert_eq!(response.user.created_at, "2024-01-01 00:00:00");
    assert_eq!(response.user.updated_at, "2024-01-02 00:00:00");
}

#[test]
fn wrong_password_is_turned_away() {
    assert_eq!(login(Some(admin()), "admin124").err(), Some(LoginFailure::BadCredentials));
    assert_eq!(login(Some(admin()), "").err(), Some(LoginFailure::BadCredentials));
}

#[test]
fn unknown_account_is_turned_away_the_same_way() {
    let unknown = login(None, "admin123").err().unwrap();
    let wrong = login(Some(admin()), "nope").err().unwrap();
    assert_eq!(unknown, LoginFailure::BadCredentials);
    assert_eq!(unknown, wrong);
    assert_eq!(unknown.status(), wrong.status());
    assert_eq!(unknown.message(), wrong.message());
}

#[test]
fn digest_is_not_accepted_as_password() {
    let digest = hash_password("admin123");
    assert_eq!(login(Some(admin()), &digest).err(), Some(LoginFailure::BadCredentials));
}

#[test]
fn login_at_a_given_time_issues_a_day_long_token() {
    let response = login_at(Some(admin()), "admin123", b"k", 1_000).unwrap();
    assert_eq!(verify_token_at(&response.token, b"k", 1_000 + 86_400), Some(1));
    assert_eq!(verify_token_at(&response.token, b"k", 1_000 + 86_401), None);
    assert_eq!(login_at(None, "admin123", b"k", 1_000).err(), Some(LoginFailure::BadCredentials));
    assert_eq!(
        login_at(Some(admin()), "x", b"k", 1_000).err(),
        Some(LoginFailure::BadCredentials)
    );
}

#[test]
fn credentials_check_hands_the_account_back() {
    let user = check_credentials(Some(admin()), "admin123").unwrap();
    assert_eq!(user.id, 1);
    assert_eq!(user.password, hash_password("admin123"));
    assert_eq!(check_credentials(None, "admin123").err(), Some(LoginFailure::BadCredentials));
}

#[test]
fn response_follows_the_issued_token() {
    let response = login_response(admin(), Ok("t.o.k".to_owned())).unwrap();
    assert_eq!(response.token, "t.o.k");
    assert_eq!(response.user.username, "admin");
    assert_eq!(
        login_response(admin(), Err(TokenError::Signing)).err(),
        Some(LoginFailure::TokenUnavailable(TokenError::Signing))
    );
    assert_eq!(
        login_response(admin(), Err(TokenError::ClockOutOfRange)).err(),
        Some(LoginFailure::TokenUnavailable(TokenError::ClockOutOfRange))
    );
}

#[test]
fn failure_statuses_and_messages() {
    assert_eq!(LoginFailure::BadCredentials.status(), 401);
    assert_eq!(LoginFailure::BadCredentials.status(), LOGIN_REJECTED);
    assert_eq!(LoginFailure::BadCredentials.message(), "用户名或密码错误");
    let unavailable = LoginFailure::TokenUnavailable(TokenError::Signing);
    assert_eq!(unavailable.status(), 500);
    assert_eq!(unavailable.status(), LOGIN_UNAVAILABLE);
    assert_eq!(unavailable.message(), "服务器内部错误");
}

#[test]
fn profile_leaves_the_digest_out() {
    let profile = admin().into_profile();
    let shown = format!("{:?}", profile);
    assert!(!shown.contains(&hash_password("admin123")));
    assert!(shown.contains("Administrator"));
}
