use argon2::password_hash::{PasswordHasher, SaltString};
use argon2::Argon2;
use kebisafe::application::{accept_key, Environments, KeyError, SECRET_KEY_LENGTH};
use kebisafe::middleware::{GracefulShutdownMiddleware, Terminating};
use kebisafe::web::auth::{judge_signin, signin, Signin};

fn environments(secret_key: &str) -> Environments {
    Environments {
        secret_key: secret_key.to_string(),
        listen_at: "127.0.0.1:8080".to_string(),
        hosted_at: "https://example.com/".to_string(),
        database_uri: "postgres://localhost/media".to_string(),
        redis_uri: "redis://localhost".to_string(),
        public_dir: "public".to_string(),
        media_dir: "media".to_string(),
        account_name: "owner".to_string(),
        account_password: String::new(),
        api_token: "token".to_string(),
    }
}

fn hash_of(password: &str) -> String {
    let salt = SaltString::encode_b64(b"a salt for tests").unwrap();
    Argon2::default().hash_password(password.as_bytes(), &salt).unwrap().to_string()
}

#[test]
fn secret_key_is_read_from_hexadecimal_text() {
    let text = "000102030405060708090a0b0c0d0e0f101112131415161718191A1B1C1D1E1F";
    let key = environments(text).secret_key_bytes().unwrap();
    assert_eq!(key, (0u8..32).collect::<Vec<u8>>());
    assert_eq!(key.len(), SECRET_KEY_LENGTH);
}

#[test]
fn secret_key_of_another_length_is_refused() {
    assert_eq!(environments("").secret_key_bytes(), Err(KeyError::Length));
    assert_eq!(environments("00ff").secret_key_bytes(), Err(KeyError::Length));
    assert_eq!(environments(&"ab".repeat(31)).secret_key_bytes(), Err(KeyError::Length));
    assert_eq!(environments(&"ab".repeat(33)).secret_key_bytes(), Err(KeyError::Length));
    assert!(environments(&"ab".repeat(32)).secret_key_bytes().is_ok());
}

#[test]
fn secret_key_that_is_not_hexadecimal_is_refused() {
    assert_eq!(environments(&"zz".repeat(32)).secret_key_bytes(), Err(KeyError::Encoding));
    assert_eq!(environments("abc").secret_key_bytes(), Err(KeyError::Encoding));
    assert_eq!(environments(&format!(" {}", "ab".repeat(32))).secret_key_bytes(), Err(KeyError::Encoding));
    assert_eq!(environments("0x00").secret_key_bytes(), Err(KeyError::Encoding));
}

#[test]
fn decoded_key_is_accepted_by_its_length() {
    assert_eq!(accept_key(Some(vec![9; 32])), Ok(vec![9; 32]));
    assert_eq!(accept_key(Some(vec![9; 31])), Err(KeyError::Length));
    assert_eq!(accept_key(Some(vec![])), Err(KeyError::Length));
    assert_eq!(accept_key(None), Err(KeyError::Encoding));
}

#[test]
fn owner_with_their_password_is_welcome() {
    let hash = hash_of("correct horse");
    assert_eq!(signin("owner", &hash, "owner", "correct horse"), Signin::Welcome);
}

#[test]
fn wrong_password_is_answered_as_an_unknown_user() {
    let hash = hash_of("correct horse");
    assert_eq!(signin("owner", &hash, "owner", "correct horsf"), Signin::UserNotFound);
    assert_eq!(signin("owner", &hash, "owner", ""), Signin::UserNotFound);
}

#[test]
fn another_name_is_an_unknown_user_whatever_the_password() {
    let hash = hash_of("correct horse");
    assert_eq!(signin("owner", &hash, "Owner", "correct horse"), Signin::UserNotFound);
    assert_eq!(signin("owner", &hash, "", "correct horse"), Signin::UserNotFound);
    assert_eq!(signin("owner", "no hash", "guest", "correct horse"), Signin::UserNotFound);
}

#[test]
fn unreadable_hash_is_reported_for_the_owner() {
    assert_eq!(signin("owner", "no hash", "owner", "correct horse"), Signin::InvalidHash);
    assert_eq!(signin("owner", "", "owner", "correct horse"), Signin::InvalidHash);
}

#[test]
fn signin_is_judged_by_name_and_password() {
    assert_eq!(judge_signin(true, Some(true)), Signin::Welcome);
    assert_eq!(judge_signin(true, Some(false)), Signin::UserNotFound);
    assert_eq!(judge_signin(true, None), Signin::InvalidHash);
    assert_eq!(judge_signin(false, Some(true)), Signin::UserNotFound);
    assert_eq!(judge_signin(false, Some(false)), Signin::UserNotFound);
    assert_eq!(judge_signin(false, None), Signin::UserNotFound);
}

#[test]
fn requests_are_taken_until_termination() {
    let mut shutdown = GracefulShutdownMiddleware::new();
    assert_eq!(shutdown.reserve(), Ok(()));
    assert_eq!(shutdown.reserve(), Ok(()));
    assert!(!shutdown.release());
    assert!(!shutdown.terminate());
    assert_eq!(shutdown.reserve(), Err(Terminating));
    assert!(shutdown.release());
}

#[test]
fn termination_without_requests_exits_at_once() {
    let mut shutdown = GracefulShutdownMiddleware::new();
    assert!(shutdown.terminate());
    assert!(!shutdown.terminate());
    assert_eq!(shutdown.reserve(), Err(Terminating));
    assert!(!shutdown.release());
}

#[test]
fn exit_waits_for_the_last_request() {
    let mut shutdown = GracefulShutdownMiddleware::new();
    for _ in 0..3 {
        shutdown.reserve().unwrap();
    }
    assert!(!shutdown.terminate());
    assert!(!shutdown.release());
    assert!(!shutdown.release());
    assert!(shutdown.release());
    assert!(!shutdown.release());
}

#[test]
fn ended_requests_do_not_exit_a_running_server() {
    let mut shutdown = GracefulShutdownMiddleware::new();
    shutdown.reserve().unwrap();
    assert!(!shutdown.release());
    assert!(!shutdown.release());
    assert_eq!(shutdown.reserve(), Ok(()));
}
