use camera_box::auth::{self, Auth, Credentials, RANDOM_LEN, SESSION_TTL};

const ABC: &str = "ba7816bf8f01cfea414140de5dae2223b00361a396177a9cb410ff61f20015ad";

/// Sixteen times the same byte.
fn bytes(b: u8) -> [u8; RANDOM_LEN] {
    [b; RANDOM_LEN]
}

/// The token of sixteen times the same byte.
fn token(b: u8) -> String {
    format!("{b:02x}").repeat(16)
}

fn fresh() -> Auth {
    let (a, created) = Auth::load(None, &bytes(3));
    assert!(created);
    a
}

#[test]
fn passwords_are_hashed_after_their_salt() {
    assert_eq!(auth::hash_password(b"ab", "c"), ABC);
    assert_eq!(auth::hash_password(b"", "abc"), ABC);
}

#[test]
fn credentials_hold_the_salt_and_the_hash() {
    let c = auth::make_credentials("u", "pw", &bytes(0x0a));
    assert_eq!(c.username, "u");
    assert_eq!(c.salt, "0a0a0a0a0a0a0a0a0a0a0a0a0a0a0a0a");
    assert_eq!(c.hash, auth::hash_password(&bytes(0x0a), "pw"));
    assert!(c.salt_is_readable());
    assert!(!c.match_digest("u", &[]));
}

#[test]
fn the_first_run_has_the_default_login() {
    let a = fresh();
    assert_eq!(a.username(), "admin");
    assert!(a.verify("admin", "password"));
    assert!(!a.verify("admin", "Password"));
    assert!(!a.verify("root", "password"));
}

#[test]
fn stored_credentials_are_kept() {
    let c = auth::make_credentials("alice", "s3cret", &bytes(7));
    let (a, created) = Auth::load(Some(c), &bytes(0));
    assert!(!created);
    assert_eq!(a.username(), "alice");
    assert!(a.verify("alice", "s3cret"));
    assert_eq!(a.stored().salt, token(7));
}

#[test]
fn an_unreadable_salt_refuses_everyone() {
    let c = Credentials {
        username: "u".to_string(),
        salt: "xyz".to_string(),
        hash: ABC.to_string(),
    };
    assert!(c.salt_is_readable());
    let (a, _) = Auth::load(Some(c), &bytes(0));
    assert!(!a.verify("u", "abc"));
    let odd = Credentials {
        username: "u".to_string(),
        salt: "0é0".to_string(),
        hash: ABC.to_string(),
    };
    assert!(!odd.salt_is_readable());
    // Whoever has another name is refused without a look at the salt.
    let (mut a, _) = Auth::load(Some(odd), &bytes(0));
    assert!(!a.verify("v", "abc"));
    assert!(a.login("v", "abc", &bytes(1), 0).is_none());
}

#[test]
fn a_session_lasts_twelve_hours() {
    let mut a = fresh();
    let t = a.login("admin", "password", &bytes(0xab), 1_000).unwrap();
    assert_eq!(t, "abababababababababababababababab");
    assert!(a.validate(&t, 1_000));
    assert!(a.validate(&t, 1_000 + SESSION_TTL - 1));
    assert!(!a.validate(&t, 1_000 + SESSION_TTL));
    // Once expired it stays expired.
    assert!(!a.validate(&t, 1_000));
    assert_eq!(SESSION_TTL, 12 * 3600 * 1_000_000_000);
}

#[test]
fn a_wrong_password_starts_no_session() {
    let mut a = fresh();
    assert!(a.login("admin", "wrong", &bytes(1), 0).is_none());
    assert!(!a.validate(&token(1), 0));
}

#[test]
fn logout_ends_one_session() {
    let mut a = fresh();
    a.login("admin", "password", &bytes(1), 0);
    a.login("admin", "password", &bytes(2), 0);
    a.logout(&token(1));
    assert!(!a.validate(&token(1), 0));
    assert!(a.validate(&token(2), 0));
}

#[test]
fn logging_in_again_renews_a_session() {
    let mut a = fresh();
    a.login("admin", "password", &bytes(1), 0);
    a.login("admin", "password", &bytes(1), 5);
    assert!(a.validate(&token(1), SESSION_TTL + 4));
}

#[test]
fn new_credentials_end_all_sessions() {
    let mut a = fresh();
    a.login("admin", "password", &bytes(1), 0);
    assert_eq!(a.set_credentials("bob", "1234", &bytes(9), Ok(())), Ok(()));
    assert!(!a.validate(&token(1), 0));
    assert!(a.verify("bob", "1234"));
    assert!(!a.verify("admin", "password"));
}

#[test]
fn bad_credentials_change_nothing() {
    let mut a = fresh();
    a.login("admin", "password", &bytes(1), 0);
    assert_eq!(
        a.set_credentials("", "1234", &bytes(9), Ok(())),
        Err("username is required".to_string())
    );
    assert_eq!(
        a.set_credentials("bob", "123", &bytes(9), Ok(())),
        Err("password must be at least 4 characters".to_string())
    );
    assert_eq!(
        a.set_credentials("bob", "1234", &bytes(9), Err("disk full".to_string())),
        Err("disk full".to_string())
    );
    assert!(a.validate(&token(1), 0));
    assert!(a.verify("admin", "password"));
    // Lengths are in bytes.
    assert_eq!(auth::check_credentials("u", "éé"), Ok(()));
}

#[test]
fn a_login_leaves_the_other_sessions_open() {
    let mut a = fresh();
    a.login("admin", "password", &bytes(1), 0);
    let t = a.login("admin", "password", &bytes(2), 0).unwrap();
    assert_eq!(t.len(), 32);
    assert!(a.validate(&t, 0));
    assert!(a.validate(&token(1), 0));
    assert!(a.login("admin", "wrong", &bytes(3), 0).is_none());
    assert!(a.validate(&token(1), 0));
    assert!(!a.validate(&token(3), 0));
    assert_eq!(a.username(), "admin");
}

#[test]
fn tokens_are_hexadecimal() {
    assert_eq!(auth::random_hex(&[0, 255]), "00ff");
}
