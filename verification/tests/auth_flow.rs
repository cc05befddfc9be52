use lightweight_core::auth;
use lightweight_core::db::init_memory_db;
use lightweight_core::error::AppError;

#[test]
fn setup_once_then_login() {
    let mut store = init_memory_db();
    assert!(!auth::is_setup(&store).unwrap());
    let first = auth::setup(&mut store, "hunter2").unwrap();
    assert_eq!(first.token.len(), 64);
    assert!(first.token.chars().all(|c| c.is_ascii_hexdigit()));
    assert!(auth::is_setup(&store).unwrap());
    // a second setup is refused
    assert!(matches!(
        auth::setup(&mut store, "other"),
        Err(AppError::AuthAlreadyConfigured)
    ));
    // the issued token verifies; an arbitrary one does not
    assert!(auth::verify_token(&store, &first.token).unwrap());
    assert!(!auth::verify_token(&store, "deadbeef").unwrap());
}

#[test]
fn login_rotates_token_and_checks_password() {
    let mut store = init_memory_db();
    let issued = auth::setup(&mut store, "correct horse").unwrap();
    // the right password logs in and rotates the token
    let session = auth::login(&mut store, "correct horse").unwrap();
    assert_eq!(session.token.len(), 64);
    assert!(auth::verify_token(&store, &session.token).unwrap());
    assert!(!auth::verify_token(&store, &issued.token).unwrap());
    // a wrong password is unauthorized and leaves the token alone
    assert!(matches!(
        auth::login(&mut store, "wrong"),
        Err(AppError::Unauthorized)
    ));
    assert!(auth::verify_token(&store, &session.token).unwrap());
}

#[test]
fn login_without_setup_is_unauthorized() {
    let mut store = init_memory_db();
    assert!(matches!(
        auth::login(&mut store, "anything"),
        Err(AppError::Unauthorized)
    ));
}

#[test]
fn errors_have_messages() {
    assert_eq!(AppError::NotFound.message(), "Not found");
    assert_eq!(AppError::AlreadyExists.message(), "Already exists");
    assert_eq!(AppError::Unauthorized.message(), "Unauthorized");
    assert_eq!(
        AppError::BadRequest("invalid status".to_string()).message(),
        "Bad request"
    );
    assert_eq!(
        AppError::AuthAlreadyConfigured.message(),
        "Auth already configured"
    );
}
