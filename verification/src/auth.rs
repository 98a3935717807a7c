//! The administrator: the password, the sessions that it opens, and what a session allows.
use vstd::hash_set::StringHashSet;
use vstd::prelude::*;
use vstd::utf8::{encode_utf8, encode_utf8_decode_utf8};

use crate::config::{settings_of, StoredConfig};
use crate::crypto::{random_bytes, sha256, sha256_digest};
use crate::encoding::{
    base64_decoded, base64_standard, base64_url_safe, decode_standard, encode_standard,
    encode_url_safe, law_base64_decodes, law_base64_url_safe_is_injective,
};
use crate::text::{
    failed, is_blank, is_blank_text, law_blank_is_trimmed_away, without_trailing_space,
};

verus! {

/// The hash that is stored of a password: the digest of the salt and the password, in base64.
pub open spec fn hash_of_password(salt: Seq<u8>, password: Seq<char>) -> Seq<char> {
    base64_standard(sha256_digest(salt + encode_utf8(password)))
}

/// The bytes that a password is hashed by: the salt, then the password in UTF-8.
pub fn salted_password(salt: &[u8], password: &str) -> (r: Vec<u8>)
    ensures
        r@ == salt@ + encode_utf8(password@),
{
    let mut r: Vec<u8> = Vec::new();
    r.extend_from_slice(salt);
    r.extend_from_slice(password.as_bytes());
    assert(r@ =~= salt@ + encode_utf8(password@));
    r
}

/// A digest as it is stored.
pub fn digest_text(digest: &[u8; 32]) -> (r: String)
    ensures
        r@ == base64_standard(digest@),
{
    encode_standard(digest.as_slice())
}

/// The hash that is stored of a password under a salt.
pub fn password_hash(salt: &[u8], password: &str) -> (r: String)
    ensures
        r@ == hash_of_password(salt@, password@),
        r@ == base64_standard(sha256_digest(salt@ + encode_utf8(password@))),
{
    let digest = sha256(salted_password(salt, password).as_slice());
    digest_text(&digest)
}

/// The sessions that are open, and whether they can still be relied on: a thread that fails while
/// it changes them leaves them unavailable.
pub struct AuthState {
    sessions: StringHashSet,
    available: bool,
}

impl AuthState {
    /// The tokens of the open sessions.
    pub closed spec fn tokens(&self) -> Set<Seq<char>> {
        self.sessions@
    }

    /// Whether the sessions can be relied on.
    pub closed spec fn is_available(&self) -> bool {
        self.available
    }

    /// No sessions yet.
    pub fn new() -> (r: Self)
        ensures
            r.tokens() == Set::<Seq<char>>::empty(),
            r.is_available(),
    {
        AuthState { sessions: StringHashSet::new(), available: true }
    }

    /// Gives the sessions up: nothing will be granted by them any more.
    pub fn make_unavailable(&mut self)
        ensures
            final(self).tokens() == old(self).tokens(),
            !final(self).is_available(),
    {
        self.available = false;
    }
}

/// Why a token opens nothing, if it does not.
pub open spec fn session_refusal(state: AuthState, token: Seq<char>) -> Option<Seq<char>> {
    if !state.is_available() {
        Some("authentication state unavailable"@)
    } else if !state.tokens().contains(token) {
        Some("administrator authentication required"@)
    } else {
        None
    }
}

/// Lets the token of an open session pass.
pub fn require_session(state: &AuthState, token: &str) -> (r: Result<(), String>)
    ensures
        r is Ok <==> state.is_available() && state.tokens().contains(token@),
        match session_refusal(*state, token@) {
            Some(message) => failed(r, message),
            None => r is Ok,
        },
{
    if !state.available {
        return Err("authentication state unavailable".to_string());
    }
    if state.sessions.contains(token) {
        Ok(())
    } else {
        Err("administrator authentication required".to_string())
    }
}

/// Why a password is not accepted, if it is not: there is no configuration, its salt is no base64,
/// or the hash is another.
pub open spec fn password_refusal<S>(
    stored: Result<StoredConfig<S>, String>,
    password: Seq<char>,
) -> Option<Seq<char>> {
    match stored {
        Err(e) => Some(e@),
        Ok(config) => match base64_decoded(config.admin_salt@) {
            None => Some("invalid administrator credentials"@),
            Some(salt) => if hash_of_password(salt, password) != config.admin_hash@ {
                Some("incorrect password"@)
            } else {
                None
            },
        },
    }
}

/// Why a login fails, if it does.
pub open spec fn login_refusal<S>(
    stored: Result<StoredConfig<S>, String>,
    password: Seq<char>,
    state: AuthState,
) -> Option<Seq<char>> {
    match password_refusal(stored, password) {
        Some(message) => Some(message),
        None => if state.is_available() {
            None
        } else {
            Some("authentication state unavailable"@)
        },
    }
}

/// Accepts the hash of a password if it is the one that is stored.
pub fn check_hash(hash: &String, admin_hash: &String) -> (r: Result<(), String>)
    ensures
        if hash@ == admin_hash@ {
            r is Ok
        } else {
            failed(r, "incorrect password"@)
        },
{
    if *hash != *admin_hash {
        return Err("incorrect password".to_string());
    }
    Ok(())
}

/// Accepts a password if its hash under the stored salt is the one that is stored.
fn check_password<S>(stored: &Result<StoredConfig<S>, String>, password: &str) -> (r: Result<
    (),
    String,
>)
    ensures
        match password_refusal(*stored, password@) {
            Some(message) => failed(r, message),
            None => r is Ok,
        },
{
    match stored {
        Err(e) => Err(e.clone()),
        Ok(config) => {
            let salt = match decode_standard(config.admin_salt.as_str()) {
                Ok(salt) => salt,
                Err(_) => return Err("invalid administrator credentials".to_string()),
            };
            proof {
                law_base64_decodes(salt@);
            }
            check_hash(&password_hash(salt.as_slice(), password), &config.admin_hash)
        },
    }
}

/// Opens the session of some bytes and gives its token.
fn open_session(session: &[u8; 32], state: &mut AuthState) -> (r: Result<String, String>)
    ensures
        final(state).is_available() == old(state).is_available(),
        if old(state).is_available() {
            r matches Ok(token) && {
                &&& token@ == base64_url_safe(session@)
                &&& final(state).tokens() == old(state).tokens().insert(token@)
            }
        } else {
            &&& failed(r, "authentication state unavailable"@)
            &&& final(state).tokens() == old(state).tokens()
        },
{
    let token = encode_url_safe(session.as_slice());
    if !state.available {
        return Err("authentication state unavailable".to_string());
    }
    state.sessions.insert(token.clone());
    Ok(token)
}

/// Logs the administrator in with the bytes of a new session: the right password opens the session
/// and gives its token, and any other leaves the sessions as they are.
pub fn login_with_session<S>(
    password: &str,
    stored: Result<StoredConfig<S>, String>,
    session: &[u8; 32],
    state: &mut AuthState,
) -> (r: Result<String, String>)
    ensures
        final(state).is_available() == old(state).is_available(),
        match login_refusal(stored, password@, *old(state)) {
            Some(message) => {
                &&& failed(r, message)
                &&& final(state).tokens() == old(state).tokens()
            },
            None => r matches Ok(token) && {
                &&& token@ == base64_url_safe(session@)
                &&& final(state).tokens() == old(state).tokens().insert(token@)
            },
        },
{
    if let Err(e) = check_password(&stored, password) {
        return Err(e);
    }
    open_session(session, state)
}

/// Logs the administrator in: the right password opens a session with 32 random bytes and gives its
/// token, and any other leaves the sessions as they are.
pub fn login_admin<S>(
    password: String,
    stored: Result<StoredConfig<S>, String>,
    state: &mut AuthState,
) -> (r: Result<String, String>)
    ensures
        final(state).is_available() == old(state).is_available(),
        match login_refusal(stored, password@, *old(state)) {
            Some(message) => {
                &&& failed(r, message)
                &&& final(state).tokens() == old(state).tokens()
            },
            None => r matches Ok(token) && {
                &&& exists|session: Seq<u8>|
                    session.len() == 32 && token@ == #[trigger] base64_url_safe(session)
                &&& final(state).tokens() == old(state).tokens().insert(token@)
            },
        },
{
    if let Err(e) = check_password(&stored, password.as_str()) {
        return Err(e);
    }
    let session: [u8; 32] = random_bytes();
    assert(session@.len() == 32);
    open_session(&session, state)
}

/// Why new settings are not stored, if they are not.
pub open spec fn save_refusal<S>(
    token: Seq<char>,
    state: AuthState,
    stored: Result<StoredConfig<S>, String>,
) -> Option<Seq<char>> {
    match session_refusal(state, token) {
        Some(message) => Some(message),
        None => match stored {
            Ok(_) => None,
            Err(e) => Some(e@),
        },
    }
}

/// Whether a configuration is another one with new settings, and the rest as it was.
pub open spec fn has_new_settings<S>(
    old_config: StoredConfig<S>,
    new: StoredConfig<S>,
    settings: S,
) -> bool {
    &&& new.settings == settings
    &&& new.version == old_config.version
    &&& new.admin_salt == old_config.admin_salt
    &&& new.admin_hash == old_config.admin_hash
}

/// The configuration to store with new settings: it takes a session, and all but the settings stays
/// as it was.
pub fn save_config<S>(
    token: String,
    config: S,
    state: &AuthState,
    stored: Result<StoredConfig<S>, String>,
) -> (r: Result<StoredConfig<S>, String>)
    ensures
        match save_refusal(token@, *state, stored) {
            Some(message) => failed(r, message),
            None => r matches Ok(new) && stored matches Ok(old_config) && has_new_settings(
                old_config,
                new,
                config,
            ),
        },
{
    if let Err(e) = require_session(state, token.as_str()) {
        return Err(e);
    }
    match stored {
        Err(e) => Err(e),
        Ok(old_config) => {
            let mut new = old_config;
            new.settings = config;
            Ok(new)
        },
    }
}

/// Why a password may not be set, if it may not: there is no session, or the password is blank.
pub open spec fn new_password_refusal(
    token: Seq<char>,
    password: Seq<char>,
    state: AuthState,
) -> Option<Seq<char>> {
    match session_refusal(state, token) {
        Some(message) => Some(message),
        None => if is_blank_text(password) {
            Some("password cannot be empty"@)
        } else {
            None
        },
    }
}

/// Lets a password be set by whoever has a session, unless it is blank.
pub fn check_new_password(token: &str, password: &str, state: &AuthState) -> (r: Result<
    (),
    String,
>)
    ensures
        match new_password_refusal(token@, password@, *state) {
            Some(message) => failed(r, message),
            None => r is Ok,
        },
{
    if let Err(e) = require_session(state, token) {
        return Err(e);
    }
    if is_blank(password) {
        return Err("password cannot be empty".to_string());
    }
    Ok(())
}

/// Why a new password is not stored, if it is not.
pub open spec fn password_change_refusal<S>(
    token: Seq<char>,
    password: Seq<char>,
    state: AuthState,
    stored: Result<StoredConfig<S>, String>,
) -> Option<Seq<char>> {
    match new_password_refusal(token, password, state) {
        Some(message) => Some(message),
        None => match stored {
            Ok(_) => None,
            Err(e) => Some(e@),
        },
    }
}

/// Whether a configuration is another one with the password changed: the salt and the hash are new,
/// and the rest is as it was.
pub open spec fn has_new_password<S>(
    old_config: StoredConfig<S>,
    new: StoredConfig<S>,
    salt: Seq<u8>,
    password: Seq<char>,
) -> bool {
    &&& new.admin_salt@ == base64_standard(salt)
    &&& new.admin_hash@ == hash_of_password(salt, password)
    &&& new.version == old_config.version
    &&& new.settings == old_config.settings
}

/// Whether a configuration is another one with the password changed, under some salt of 32 bytes.
pub open spec fn is_salted_anew<S>(
    old_config: StoredConfig<S>,
    new: StoredConfig<S>,
    password: Seq<char>,
) -> bool {
    exists|salt: Seq<u8>|
        salt.len() == 32 && #[trigger] has_new_password(old_config, new, salt, password)
}

/// Sets the password of a configuration under a salt.
fn set_password<S>(old_config: StoredConfig<S>, password: &str, salt: &[u8; 32]) -> (r:
    StoredConfig<S>)
    ensures
        has_new_password(old_config, r, salt@, password@),
{
    let mut new = old_config;
    new.admin_salt = encode_standard(salt.as_slice());
    new.admin_hash = password_hash(salt.as_slice(), password);
    new
}

/// The configuration to store with a new password under a given salt.
pub fn change_with_salt<S>(
    token: &str,
    password: &str,
    state: &AuthState,
    stored: Result<StoredConfig<S>, String>,
    salt: &[u8; 32],
) -> (r: Result<StoredConfig<S>, String>)
    ensures
        match password_change_refusal(token@, password@, *state, stored) {
            Some(message) => failed(r, message),
            None => r matches Ok(new) && stored matches Ok(old_config) && has_new_password(
                old_config,
                new,
                salt@,
                password@,
            ),
        },
{
    if let Err(e) = check_new_password(token, password, state) {
        return Err(e);
    }
    match stored {
        Err(e) => Err(e),
        Ok(old_config) => Ok(set_password(old_config, password, salt)),
    }
}

/// The configuration to store with a new password: it takes a session and a password that is not
/// blank, the salt is 32 random bytes, and all but the salt and the hash stays as it was.
pub fn change_admin_password<S>(
    token: String,
    password: String,
    state: &AuthState,
    stored: Result<StoredConfig<S>, String>,
) -> (r: Result<StoredConfig<S>, String>)
    ensures
        match password_change_refusal(token@, password@, *state, stored) {
            Some(message) => failed(r, message),
            None => r matches Ok(new) && stored matches Ok(old_config) && is_salted_anew(
                old_config,
                new,
                password@,
            ),
        },
{
    if let Err(e) = check_new_password(token.as_str(), password.as_str(), state) {
        return Err(e);
    }
    match stored {
        Err(e) => Err(e),
        Ok(old_config) => {
            let salt: [u8; 32] = random_bytes();
            let new = set_password(old_config, password.as_str(), &salt);
            assert(salt@.len() == 32 && has_new_password(old_config, new, salt@, password@));
            assert(is_salted_anew(old_config, new, password@));
            Ok(new)
        },
    }
}

/// A password that has been set is the one that is accepted: of the configuration with the new
/// password, that password is not refused, and any other is refused as incorrect unless it has the
/// same hash.
pub proof fn law_new_password_is_accepted<S>(
    old_config: StoredConfig<S>,
    new: StoredConfig<S>,
    salt: Seq<u8>,
    password: Seq<char>,
    tried: Seq<char>,
)
    requires
        has_new_password(old_config, new, salt, password),
    ensures
        password_refusal(Ok::<StoredConfig<S>, String>(new), password) is None,
        hash_of_password(salt, tried) != hash_of_password(salt, password) ==> password_refusal(
            Ok::<StoredConfig<S>, String>(new),
            tried,
        ) == Some("incorrect password"@),
{
    law_base64_decodes(salt);
}

/// New settings are the ones that are read from then on, and they leave the password as it was.
pub proof fn law_new_settings_are_read_back<S>(
    old_config: StoredConfig<S>,
    new: StoredConfig<S>,
    settings: S,
    password: Seq<char>,
    r: Result<S, String>,
)
    requires
        has_new_settings(old_config, new, settings),
        settings_of(Ok(new), r),
    ensures
        r == Ok::<S, String>(settings),
        password_refusal(Ok::<StoredConfig<S>, String>(new), password) == password_refusal(
            Ok::<StoredConfig<S>, String>(old_config),
            password,
        ),
{
}

/// A new password leaves the settings as they were.
pub proof fn law_new_password_keeps_the_settings<S>(
    old_config: StoredConfig<S>,
    new: StoredConfig<S>,
    salt: Seq<u8>,
    password: Seq<char>,
    before: Result<S, String>,
    after: Result<S, String>,
)
    requires
        has_new_password(old_config, new, salt, password),
        settings_of(Ok(old_config), before),
        settings_of(Ok(new), after),
    ensures
        after == before,
{
}

/// A login opens its own session and no other: the new token passes, and every other token is
/// treated as it was before.
pub proof fn law_login_opens_one_session(before: AuthState, after: AuthState, token: Seq<char>)
    requires
        before.is_available(),
        after.is_available(),
        after.tokens() == before.tokens().insert(token),
    ensures
        session_refusal(after, token) is None,
        forall|other: Seq<char>|
            other != token ==> #[trigger] session_refusal(after, other) == session_refusal(
                before,
                other,
            ),
{
}

/// What takes a session is refused without one, and for that reason, whatever is asked and whatever
/// is stored.
pub proof fn law_refused_without_a_session<S>(
    token: Seq<char>,
    password: Seq<char>,
    state: AuthState,
    stored: Result<StoredConfig<S>, String>,
)
    requires
        session_refusal(state, token) is Some,
    ensures
        save_refusal(token, state, stored) == session_refusal(state, token),
        password_change_refusal(token, password, state, stored) == session_refusal(state, token),
{
}

/// Sessions of different bytes have different tokens, and every token has 43 characters.
pub proof fn law_tokens_tell_sessions_apart(a: Seq<u8>, b: Seq<u8>)
    requires
        a.len() == 32,
        b.len() == 32,
        a != b,
    ensures
        base64_url_safe(a) != base64_url_safe(b),
        base64_url_safe(a).len() == 43,
{
    if base64_url_safe(a) == base64_url_safe(b) {
        law_base64_url_safe_is_injective(a, b);
    }
}

proof fn lemma_utf8_of_both(a: Seq<char>, b: Seq<char>)
    ensures
        encode_utf8(a + b) == encode_utf8(a) + encode_utf8(b),
    decreases a.len(),
{
    if a.len() == 0 {
        assert(a + b =~= b);
        assert(encode_utf8(a) + encode_utf8(b) =~= encode_utf8(b));
    } else {
        assert((a + b)[0] == a[0]);
        assert((a + b).drop_first() =~= a.drop_first() + b);
        lemma_utf8_of_both(a.drop_first(), b);
        assert(encode_utf8(a + b) =~= encode_utf8(a) + encode_utf8(b));
    }
}

/// A password is hashed whole, behind its salt: it makes no difference where the salt ends and the
/// password begins, so every character of a password counts as bytes of the salt would, and the hash
/// of an empty password is that of the salt alone.
pub proof fn law_password_is_hashed_whole(salt: Seq<u8>, a: Seq<char>, b: Seq<char>)
    ensures
        hash_of_password(salt, a + b) == hash_of_password(salt + encode_utf8(a), b),
        hash_of_password(salt, Seq::empty()) == base64_standard(sha256_digest(salt)),
{
    lemma_utf8_of_both(a, b);
    assert(salt + encode_utf8(a + b) =~= salt + encode_utf8(a) + encode_utf8(b));
    assert(salt + encode_utf8(Seq::empty()) =~= salt);
}

/// The stored hash is the digest, in base64, of the salt and every byte of the password; two
/// different passwords are hashed from different bytes.
pub proof fn law_hash_is_of_salt_and_password(
    salt: Seq<u8>,
    password: Seq<char>,
    other: Seq<char>,
    bytes: Seq<u8>,
)
    requires
        bytes == salt + encode_utf8(password),
    ensures
        hash_of_password(salt, password) == base64_standard(sha256_digest(bytes)),
        other != password ==> salt + encode_utf8(other) != bytes,
{
    if salt + encode_utf8(other) == bytes {
        assert(bytes.skip(salt.len() as int) =~= encode_utf8(password));
        assert((salt + encode_utf8(other)).skip(salt.len() as int) =~= encode_utf8(other));
        encode_utf8_decode_utf8(password);
        encode_utf8_decode_utf8(other);
    }
}

/// A token passes just if it is that of an open session and the sessions can be relied on.
pub proof fn law_open_sessions_alone_pass(state: AuthState, token: Seq<char>)
    ensures
        session_refusal(state, token) is None <==> state.is_available() && state.tokens().contains(
            token,
        ),
        session_refusal(state, token) matches Some(m) ==> m == if state.is_available() {
            "administrator authentication required"@
        } else {
            "authentication state unavailable"@
        },
{
}

/// A password is accepted just if there is a configuration whose salt, in base64, hashes the password
/// to the stored hash. Whoever is refused is told the first thing that is wrong.
pub proof fn law_right_password_alone_is_accepted<S>(
    stored: Result<StoredConfig<S>, String>,
    salt: Seq<u8>,
    password: Seq<char>,
)
    ensures
        stored matches Err(e) ==> password_refusal(stored, password) == Some(e@),
        stored matches Ok(config) ==> {
            &&& config.admin_salt@ == base64_standard(salt) ==> password_refusal(stored, password)
                == if config.admin_hash@ == hash_of_password(salt, password) {
                None::<Seq<char>>
            } else {
                Some("incorrect password"@)
            }
            &&& (forall|bytes: Seq<u8>| #[trigger] base64_standard(bytes) != config.admin_salt@)
                ==> password_refusal(stored, password) == Some(
                "invalid administrator credentials"@,
            )
        },
{
    law_base64_decodes(salt);
}

/// A login succeeds just if the password is accepted and the sessions can be relied on; a password
/// that is not accepted is what is said first.
pub proof fn law_login_takes_the_password<S>(
    stored: Result<StoredConfig<S>, String>,
    password: Seq<char>,
    state: AuthState,
)
    ensures
        login_refusal(stored, password, state) is None <==> password_refusal(
            stored,
            password,
        ) is None && state.is_available(),
        password_refusal(stored, password) is Some ==> login_refusal(stored, password, state)
            == password_refusal(stored, password),
        login_refusal(stored, password, state) matches Some(m) ==> password_refusal(
            stored,
            password,
        ) is None ==> m == "authentication state unavailable"@,
{
}

/// With a session, settings are stored wherever there is a configuration, and a password is, unless
/// nothing is left of it by trimming; else the first thing that is wrong is said.
pub proof fn law_session_lets_store<S>(
    token: Seq<char>,
    password: Seq<char>,
    state: AuthState,
    stored: Result<StoredConfig<S>, String>,
)
    requires
        session_refusal(state, token) is None,
    ensures
        stored is Ok ==> save_refusal(token, state, stored) is None,
        stored matches Err(e) ==> save_refusal(token, state, stored) == Some(e@),
        without_trailing_space(password).len() == 0 ==> {
            &&& new_password_refusal(token, password, state) == Some("password cannot be empty"@)
            &&& password_change_refusal(token, password, state, stored) == Some(
                "password cannot be empty"@,
            )
        },
        without_trailing_space(password).len() > 0 ==> {
            &&& new_password_refusal(token, password, state) is None
            &&& stored is Ok ==> password_change_refusal(token, password, state, stored) is None
            &&& stored matches Err(e) ==> password_change_refusal(token, password, state, stored)
                == Some(e@)
        },
{
    law_blank_is_trimmed_away(password);
}

/// Storing changes what was asked for and nothing else.
pub proof fn law_storing_changes_one_thing<S>(
    old_config: StoredConfig<S>,
    new: StoredConfig<S>,
    settings: S,
    salt: Seq<u8>,
    password: Seq<char>,
)
    ensures
        has_new_settings(old_config, new, settings) <==> new == (StoredConfig {
            settings,
            ..old_config
        }),
        has_new_password(old_config, new, salt, password) ==> {
            &&& new.version == old_config.version
            &&& new.settings == old_config.settings
            &&& new.admin_salt@ == base64_standard(salt)
            &&& new.admin_hash@ == hash_of_password(salt, password)
        },
        is_salted_anew(old_config, new, password) ==> exists|s: Seq<u8>|
            s.len() == 32 && #[trigger] has_new_password(old_config, new, s, password),
{
}

} // verus!
