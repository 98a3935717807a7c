use command_runner::auth::{
    change_admin_password, change_with_salt, check_hash, check_new_password, digest_text, login_admin, login_with_session,
    password_hash, require_session, salted_password, save_config, AuthState,
};
use command_runner::config::{load_config, StoredConfig};

const NOT_AVAILABLE: &str = "authentication state unavailable";
const NOT_ALLOWED: &str = "administrator authentication required";

fn message<T>(text: &str) -> Result<T, String> {
    Err(text.to_string())
}

/// A configuration whose password is `admin`.
fn stored() -> StoredConfig<u32> {
    let salt: Vec<u8> = (0..32).collect();
    StoredConfig {
        version: 1,
        admin_salt: "AAECAwQFBgcICQoLDA0ODxAREhMUFRYXGBkaGxwdHh8=".to_string(),
        admin_hash: password_hash(&salt, "admin"),
        settings: 7,
    }
}

fn logged_in() -> (AuthState, String) {
    let mut state = AuthState::new();
    let token = login_admin("admin".to_string(), Ok(stored()), &mut state).unwrap();
    (state, token)
}

#[test]
fn salt_comes_before_the_password() {
    assert_eq!(salted_password(b"ab", "c"), b"abc".to_vec());
    assert_eq!(salted_password(&[], "\u{e9}"), vec![0xc3, 0xa9]);
}

#[test]
fn digests_are_written_in_padded_base64() {
    let mut digest = [0_u8; 32];
    assert_eq!(digest_text(&digest), "AAAAAAAAAAAAAAAAAAAAAAAAAAAAAAAAAAAAAAAAAAA=");
    for i in 0..32 {
        digest[i] = i as u8;
    }
    assert_eq!(digest_text(&digest), "AAECAwQFBgcICQoLDA0ODxAREhMUFRYXGBkaGxwdHh8=");
    assert_eq!(digest_text(&[0xff; 32]), "//////////////////////////////////////////8=");
    assert_eq!(digest_text(&[0xfb; 32]), "+/v7+/v7+/v7+/v7+/v7+/v7+/v7+/v7+/v7+/v7+/s=");
}

#[test]
fn password_hashes_are_salted_sha256() {
    assert_eq!(password_hash(&[], ""), "47DEQpj8HBSa+/TImW+5JCeuQeRkm5NMpJWZG3hSuFU=");
    assert_eq!(password_hash(b"ab", "c"), "ungWv48Bz+pBQUDeXa4iI7ADYaOWF3qctBD/YfIAFa0=");
    assert_eq!(password_hash(b"", "abc"), "ungWv48Bz+pBQUDeXa4iI7ADYaOWF3qctBD/YfIAFa0=");
    assert_eq!(
        password_hash(&[7; 32], "p\u{e4}ssw\u{f6}rd"),
        "6hEIAYQMvvfqzHLQP0uLhDf2IhuEOCmzccBjWyyWrFY="
    );
    assert_eq!(stored().admin_hash, "ema7xoNsHVu1SRRJXS3mzjs5O+uIhVNIUabtyeBgNjo=");
}

#[test]
fn no_token_passes_before_a_login() {
    let state = AuthState::new();
    assert_eq!(require_session(&state, ""), message(NOT_ALLOWED));
    assert_eq!(require_session(&state, "token"), message(NOT_ALLOWED));
}

#[test]
fn a_login_opens_its_session_and_no_other() {
    let (mut state, token) = logged_in();
    assert_eq!(require_session(&state, &token), Ok(()));
    assert_eq!(require_session(&state, &token[1..]), message(NOT_ALLOWED));
    let second = login_admin("admin".to_string(), Ok(stored()), &mut state).unwrap();
    assert_ne!(token, second);
    assert_eq!(require_session(&state, &token), Ok(()));
    assert_eq!(require_session(&state, &second), Ok(()));
}

#[test]
fn tokens_are_url_safe_base64_of_the_session() {
    let mut state = AuthState::new();
    let token = login_with_session("admin", Ok(stored()), &[0xfb; 32], &mut state).unwrap();
    assert_eq!(token, "-_v7-_v7-_v7-_v7-_v7-_v7-_v7-_v7-_v7-_v7-_s");
    assert_eq!(token.len(), 43);
    let other = login_with_session("admin", Ok(stored()), &[0xff; 32], &mut state).unwrap();
    assert_eq!(other, "__________________________________________8");
    assert_eq!(require_session(&state, &token), Ok(()));
    assert_eq!(require_session(&state, &other), Ok(()));
}

#[test]
fn random_tokens_have_43_characters_and_differ() {
    let mut seen: Vec<String> = Vec::new();
    for _ in 0..20 {
        let (_, token) = logged_in();
        assert_eq!(token.len(), 43);
        assert!(token.chars().all(|c| c.is_ascii_alphanumeric() || c == '-' || c == '_'));
        assert!(!seen.contains(&token));
        seen.push(token);
    }
}

#[test]
fn a_wrong_password_opens_nothing() {
    let mut state = AuthState::new();
    for wrong in ["", "Admin", "admin ", "admi"] {
        let refused = login_with_session(wrong, Ok(stored()), &[1; 32], &mut state);
        assert_eq!(refused, message("incorrect password"));
    }
    let token = login_with_session("admin", Ok(stored()), &[2; 32], &mut state).unwrap();
    let other = login_with_session("admin", Ok(stored()), &[1; 32], &mut AuthState::new()).unwrap();
    assert_eq!(require_session(&state, &token), Ok(()));
    assert_eq!(require_session(&state, &other), message(NOT_ALLOWED));
}

#[test]
fn a_salt_that_is_no_base64_lets_nobody_in() {
    for salt in [
        "AAECAwQFBgcICQoLDA0ODxAREhMUFRYXGBkaGxwdHh8",
        "AAECAwQFBgcICQoLDA0ODxAREhMUFRYXGBkaGxwdHh9=",
        "AA=A",
        "-_v7",
        "AAAA ",
        "A",
    ] {
        let mut config = stored();
        config.admin_salt = salt.to_string();
        let refused = login_admin("admin".to_string(), Ok(config), &mut AuthState::new());
        assert_eq!(refused, message("invalid administrator credentials"), "{}", salt);
    }
}

#[test]
fn an_empty_salt_is_a_salt() {
    let mut config = stored();
    config.admin_salt = String::new();
    config.admin_hash = password_hash(&[], "admin");
    assert!(login_admin("admin".to_string(), Ok(config), &mut AuthState::new()).is_ok());
}

#[test]
fn a_login_without_a_configuration_says_why() {
    let none: Result<StoredConfig<u32>, String> = message("cannot decrypt configuration");
    let mut state = AuthState::new();
    assert_eq!(
        login_admin("admin".to_string(), none, &mut state),
        message("cannot decrypt configuration")
    );
}

#[test]
fn unavailable_sessions_grant_nothing() {
    let (mut state, token) = logged_in();
    state.make_unavailable();
    assert_eq!(require_session(&state, &token), message(NOT_AVAILABLE));
    assert_eq!(
        login_admin("admin".to_string(), Ok(stored()), &mut state),
        message(NOT_AVAILABLE)
    );
    assert_eq!(
        login_admin("wrong".to_string(), Ok(stored()), &mut state),
        message("incorrect password")
    );
    let saved = save_config(token.clone(), 8, &state, Ok(stored()));
    assert_eq!(saved.err(), Some(NOT_AVAILABLE.to_string()));
    let changed = change_admin_password(token, "new".to_string(), &state, Ok(stored()));
    assert_eq!(changed.err(), Some(NOT_AVAILABLE.to_string()));
}

#[test]
fn saving_replaces_the_settings_alone() {
    let (state, token) = logged_in();
    let new = save_config(token, 8, &state, Ok(stored())).unwrap();
    assert_eq!(new.version, 1);
    assert_eq!(new.admin_salt, stored().admin_salt);
    assert_eq!(new.admin_hash, stored().admin_hash);
    assert_eq!(new.settings, 8);
    assert_eq!(load_config(Ok(new)), Ok(8));
}

#[test]
fn saved_settings_leave_the_password_as_it_was() {
    let (mut state, token) = logged_in();
    let new = save_config(token, 8, &state, Ok(stored())).unwrap();
    assert!(login_admin("admin".to_string(), Ok(new), &mut state).is_ok());
}

#[test]
fn saving_asks_for_a_session_before_anything_else() {
    let state = AuthState::new();
    let refused = save_config("x".to_string(), 8, &state, Ok(stored()));
    assert_eq!(refused.err(), Some(NOT_ALLOWED.to_string()));
    let refused = save_config("x".to_string(), 8, &state, message("broken"));
    assert_eq!(refused.err(), Some(NOT_ALLOWED.to_string()));
    let (state, token) = logged_in();
    let refused = save_config(token, 8, &state, message("broken"));
    assert_eq!(refused.err(), Some("broken".to_string()));
}

#[test]
fn a_changed_password_is_the_one_that_works() {
    let (mut state, token) = logged_in();
    let new = change_admin_password(token, "secret".to_string(), &state, Ok(stored())).unwrap();
    assert_eq!(new.version, 1);
    assert_eq!(new.settings, 7);
    assert_eq!(new.admin_salt.len(), 44);
    assert_ne!(new.admin_salt, stored().admin_salt);
    let again = || StoredConfig {
        version: new.version,
        admin_salt: new.admin_salt.clone(),
        admin_hash: new.admin_hash.clone(),
        settings: new.settings,
    };
    assert!(login_admin("secret".to_string(), Ok(again()), &mut state).is_ok());
    assert_eq!(
        login_admin("admin".to_string(), Ok(again()), &mut state),
        message("incorrect password")
    );
}

#[test]
fn a_changed_password_is_hashed_with_the_new_salt() {
    let (state, token) = logged_in();
    let new = change_with_salt(&token, "p\u{e4}ssw\u{f6}rd", &state, Ok(stored()), &[7; 32]).unwrap();
    assert_eq!(new.admin_salt, "BwcHBwcHBwcHBwcHBwcHBwcHBwcHBwcHBwcHBwcHBwc=");
    assert_eq!(new.admin_hash, "6hEIAYQMvvfqzHLQP0uLhDf2IhuEOCmzccBjWyyWrFY=");
}

#[test]
fn blank_passwords_are_not_set() {
    let (state, token) = logged_in();
    for blank in ["", " ", "\t\r\n", "\u{a0}\u{3000}"] {
        let refused =
            change_admin_password(token.clone(), blank.to_string(), &state, Ok(stored()));
        assert_eq!(refused.err(), Some("password cannot be empty".to_string()));
        let refused =
            change_admin_password::<u32>(token.clone(), blank.to_string(), &state, message("broken"));
        assert_eq!(refused.err(), Some("password cannot be empty".to_string()));
    }
    let padded = change_admin_password(token, " x ".to_string(), &state, Ok(stored()));
    assert!(padded.is_ok());
}

#[test]
fn changing_the_password_asks_for_a_session_before_anything_else() {
    let state = AuthState::new();
    for password in ["", "new"] {
        let refused =
            change_admin_password("x".to_string(), password.to_string(), &state, Ok(stored()));
        assert_eq!(refused.err(), Some(NOT_ALLOWED.to_string()));
    }
    let (state, token) = logged_in();
    let refused = change_admin_password(token, "new".to_string(), &state, message::<StoredConfig<u32>>("broken"));
    assert_eq!(refused.err(), Some("broken".to_string()));
}

#[test]
fn a_hash_is_accepted_if_it_is_the_stored_one() {
    let hash = "h".to_string();
    assert_eq!(check_hash(&hash, &"h".to_string()), Ok(()));
    assert_eq!(check_hash(&hash, &"H".to_string()), message("incorrect password"));
    assert_eq!(check_hash(&hash, &String::new()), message("incorrect password"));
}

#[test]
fn a_new_password_takes_a_session_and_is_not_blank() {
    let (mut state, token) = logged_in();
    assert_eq!(check_new_password(&token, "new", &state), Ok(()));
    assert_eq!(check_new_password(&token, " ", &state), message("password cannot be empty"));
    assert_eq!(check_new_password("x", " ", &state), message(NOT_ALLOWED));
    state.make_unavailable();
    assert_eq!(check_new_password(&token, "new", &state), message(NOT_AVAILABLE));
}
