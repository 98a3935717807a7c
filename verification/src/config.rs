//! The stored configuration: what it holds, and how it is sealed for the disk and opened again.
//!
//! The settings themselves are the caller's; they are only carried along.
use vstd::prelude::*;
use vstd::slice::slice_subrange;

use crate::crypto::{
    aead_error_text, gcm_decrypt, gcm_encrypt, gcm_opened, gcm_sealed, gcm_tag, one_byte_off,
    random_bytes, same_but_tag, tags_vary, MAX_TEXT,
};
use crate::text::failed;

verus! {

/// What is stored: the administrator's salt and password hash, and the settings.
#[derive(Debug)]
pub struct StoredConfig<S> {
    pub version: u8,
    pub admin_salt: String,
    pub admin_hash: String,
    pub settings: S,
}

/// What was found where the configuration is kept.
#[derive(Debug)]
pub enum ConfigFile {
    Missing,
    Unreadable(String),
    Bytes(Vec<u8>),
}

/// The key of the configuration, from the bytes of its file if they could be read: it is 32 bytes.
pub fn config_key(file: Option<Vec<u8>>) -> (r: Result<[u8; 32], String>)
    ensures
        match file {
            None => failed(
                r,
                "encrypted configuration key is missing; reinstall the application"@,
            ),
            Some(bytes) => if bytes@.len() == 32 {
                r matches Ok(key) && key@ == bytes@
            } else {
                failed(r, "invalid configuration key"@)
            },
        },
{
    match file {
        None => Err(
            "encrypted configuration key is missing; reinstall the application".to_string(),
        ),
        Some(bytes) => {
            if bytes.len() != 32 {
                return Err("invalid configuration key".to_string());
            }
            let mut key: [u8; 32] = [0;32];
            let mut i: usize = 0;
            while i < 32
                invariant
                    i <= 32,
                    bytes@.len() == 32,
                    forall|j: int| 0 <= j < i ==> key@[j] == bytes@[j],
                decreases 32 - i,
            {
                key[i] = bytes[i];
                i += 1;
            }
            assert(key@ =~= bytes@);
            Ok(key)
        },
    }
}

/// Whether bytes are a text sealed under a key: a nonce of 12 bytes, then what AES-256-GCM makes of
/// the text under the key and the nonce.
pub open spec fn sealed_as(bytes: Seq<u8>, key: Seq<u8>, nonce: Seq<u8>, text: Seq<u8>) -> bool {
    &&& nonce.len() == 12
    &&& text.len() <= MAX_TEXT
    &&& bytes == nonce + gcm_sealed(key, nonce, text)
    &&& bytes.len() == text.len() + 28
}

/// Puts what is sealed behind its nonce, as it is stored.
pub fn join_nonce(nonce: &[u8; 12], sealed: &[u8]) -> (r: Vec<u8>)
    ensures
        r@ == nonce@ + sealed@,
{
    let mut r: Vec<u8> = Vec::new();
    r.extend_from_slice(nonce.as_slice());
    r.extend_from_slice(sealed);
    assert(r@ =~= nonce@ + sealed@);
    r
}

/// Parts stored bytes into the nonce and what is sealed; it takes more bytes than a nonce has.
pub fn split_nonce(bytes: &[u8]) -> (r: Result<([u8; 12], &[u8]), String>)
    ensures
        match r {
            Ok((nonce, sealed)) => bytes@.len() > 12 && nonce@ == bytes@.take(12) && sealed@
                == bytes@.skip(12),
            Err(e) => bytes@.len() <= 12 && e@ == "invalid encrypted configuration"@,
        },
{
    if bytes.len() <= 12 {
        return Err("invalid encrypted configuration".to_string());
    }
    let mut nonce: [u8; 12] = [0;12];
    let mut i: usize = 0;
    while i < 12
        invariant
            i <= 12,
            bytes@.len() > 12,
            forall|j: int| 0 <= j < i ==> nonce@[j] == bytes@[j],
        decreases 12 - i,
    {
        nonce[i] = bytes[i];
        i += 1;
    }
    let sealed = slice_subrange(bytes, 12, bytes.len());
    assert(nonce@ =~= bytes@.take(12));
    assert(sealed@ =~= bytes@.skip(12));
    Ok((nonce, sealed))
}

/// Seals a text under a key and a nonce.
pub fn seal_config(key: &[u8; 32], nonce: &[u8; 12], text: &[u8]) -> (r: Result<Vec<u8>, String>)
    requires
        text@.len() + 28 <= isize::MAX,
    ensures
        match r {
            Ok(bytes) => {
                &&& sealed_as(bytes@, key@, nonce@, text@)
                &&& bytes@ == nonce@ + gcm_sealed(key@, nonce@, text@)
            },
            Err(e) => text@.len() > MAX_TEXT && e@ == "aead::Error"@,
        },
{
    match gcm_encrypt(key, nonce, text) {
        Err(e) => Err(aead_error_text(&e)),
        Ok(sealed) => Ok(join_nonce(nonce, sealed.as_slice())),
    }
}

/// Makes the bytes to store of a configuration already written out: the key's error comes first,
/// then that of writing it out, and then the text is sealed under a fresh random nonce.
pub fn save_stored_config(key: Result<[u8; 32], String>, text: Result<Vec<u8>, String>) -> (r: Result<
    Vec<u8>,
    String,
>)
    requires
        text matches Ok(t) ==> t@.len() + 28 <= isize::MAX,
    ensures
        match (key, text) {
            (Err(e), _) => failed(r, e@),
            (Ok(_), Err(e)) => failed(r, e@),
            (Ok(k), Ok(t)) => if t@.len() > MAX_TEXT {
                failed(r, "aead::Error"@)
            } else {
                r matches Ok(bytes) && exists|nonce: Seq<u8>| sealed_as(bytes@, k@, nonce, t@)
            },
        },
{
    let key = match key {
        Ok(key) => key,
        Err(e) => return Err(e),
    };
    let text = match text {
        Ok(text) => text,
        Err(e) => return Err(e),
    };
    let nonce: [u8; 12] = random_bytes();
    seal_config(&key, &nonce, text.as_slice())
}

/// What opening the stored bytes comes to.
pub fn opened_config(opened: Option<Vec<u8>>) -> (r: Result<Vec<u8>, String>)
    ensures
        match opened {
            Some(text) => r matches Ok(t) && t@ == text@,
            None => failed(r, "cannot decrypt configuration"@),
        },
{
    match opened {
        Some(text) => Ok(text),
        None => Err("cannot decrypt configuration".to_string()),
    }
}

/// Whether a result is what stored bytes open to under a key: what was sealed under the key comes
/// back, and nothing else opens, so neither what has a changed tag does nor what has one changed byte
/// behind the nonce (under a key whose tags depend on the texts at all).
pub open spec fn opens_to(bytes: Seq<u8>, key: Seq<u8>, r: Result<Vec<u8>, String>) -> bool {
    &&& match gcm_opened(key, bytes.take(12), bytes.skip(12)) {
        Some(text) => r matches Ok(t) && t@ == text,
        None => failed(r, "cannot decrypt configuration"@),
    }
    &&& forall|nonce: Seq<u8>, text: Seq<u8>| #[trigger]
        sealed_as(bytes, key, nonce, text) ==> (r matches Ok(t) && t@ == text)
    &&& forall|saved: Seq<u8>, nonce: Seq<u8>, text: Seq<u8>| #[trigger]
        sealed_as(saved, key, nonce, text) && same_but_tag(bytes, saved) && bytes != saved
            ==> failed(r, "cannot decrypt configuration"@)
    &&& forall|saved: Seq<u8>, nonce: Seq<u8>, text: Seq<u8>| #[trigger]
        sealed_as(saved, key, nonce, text) && one_byte_off(bytes, saved) && bytes.take(12)
            == saved.take(12) && tags_vary(key, nonce) ==> failed(
            r,
            "cannot decrypt configuration"@,
        )
    &&& r matches Ok(t) ==> bytes.len() == t@.len() + 28 && (t@.len() <= MAX_TEXT ==> sealed_as(
        bytes,
        key,
        bytes.take(12),
        t@,
    ))
}

/// Opens what was found where the configuration is kept: a file that is missing, unreadable or too
/// short comes before the key's error, and that comes before what the bytes open to.
pub fn load_stored_config(file: ConfigFile, key: Result<[u8; 32], String>) -> (r: Result<
    Vec<u8>,
    String,
>)
    ensures
        match file {
            ConfigFile::Missing => failed(
                r,
                "encrypted configuration is missing; reinstall the application"@,
            ),
            ConfigFile::Unreadable(e) => failed(r, e@),
            ConfigFile::Bytes(bytes) => if bytes@.len() <= 12 {
                failed(r, "invalid encrypted configuration"@)
            } else {
                match key {
                    Err(e) => failed(r, e@),
                    Ok(k) => opens_to(bytes@, k@, r),
                }
            },
        },
{
    let bytes = match file {
        ConfigFile::Missing => {
            return Err("encrypted configuration is missing; reinstall the application".to_string());
        },
        ConfigFile::Unreadable(e) => return Err(e),
        ConfigFile::Bytes(bytes) => bytes,
    };
    let (nonce, sealed) = match split_nonce(bytes.as_slice()) {
        Ok(parts) => parts,
        Err(e) => return Err(e),
    };
    let key = match key {
        Ok(key) => key,
        Err(e) => return Err(e),
    };
    proof {
        assert(bytes@ =~= nonce@ + sealed@);
        assert forall|n: Seq<u8>, text: Seq<u8>| #[trigger]
            sealed_as(bytes@, key@, n, text) implies n == nonce@ && sealed@ == gcm_sealed(
            key@,
            n,
            text,
        ) by {
            assert((n + gcm_sealed(key@, n, text)).take(12) =~= n);
            assert((n + gcm_sealed(key@, n, text)).skip(12) =~= gcm_sealed(key@, n, text));
        }
        assert forall|saved: Seq<u8>, n: Seq<u8>, text: Seq<u8>| #[trigger]
            sealed_as(saved, key@, n, text) && same_but_tag(bytes@, saved) implies n == nonce@
            && same_but_tag(sealed@, gcm_sealed(key@, n, text)) && (sealed@ == gcm_sealed(
            key@,
            n,
            text,
        ) ==> bytes@ == saved) by {
            let whole = n + gcm_sealed(key@, n, text);
            let m = saved.len() - 16;
            assert(whole.take(12) =~= n);
            assert(saved.take(m).take(12) =~= n);
            assert(bytes@.take(m).take(12) =~= nonce@);
            assert(bytes@.take(m).skip(12) =~= sealed@.take(m - 12));
            assert(saved.take(m).skip(12) =~= gcm_sealed(key@, n, text).take(m - 12));
        }
        assert forall|saved: Seq<u8>, n: Seq<u8>, text: Seq<u8>| #[trigger]
            sealed_as(saved, key@, n, text) && one_byte_off(bytes@, saved) && bytes@.take(12)
                == saved.take(12) implies n == nonce@ && one_byte_off(
            sealed@,
            gcm_sealed(key@, n, text),
        ) by {
            let saved_seal = gcm_sealed(key@, n, text);
            assert(saved.take(12) =~= n);
            assert(saved.skip(12) =~= saved_seal);
            let i = choose|i: int|
                0 <= i < saved.len() && #[trigger] bytes@[i] != saved[i] && bytes@ == saved.update(
                    i,
                    bytes@[i],
                );
            assert(i >= 12) by {
                if i < 12 {
                    assert(bytes@.take(12)[i] == bytes@[i]);
                    assert(saved.take(12)[i] == saved[i]);
                }
            }
            assert(sealed@[i - 12] == bytes@[i] && saved_seal[i - 12] == saved[i]);
            assert(sealed@ =~= saved_seal.update(i - 12, sealed@[i - 12]));
        }
    }
    match gcm_decrypt(&key, &nonce, sealed) {
        Ok(text) => opened_config(Some(text)),
        Err(_) => opened_config(None),
    }
}

/// What was sealed is what is opened: bytes that hold a text sealed under a key, whatever the
/// nonce, are long enough to be opened and give that text back under that key.
pub proof fn law_sealed_text_comes_back(
    bytes: Seq<u8>,
    key: Seq<u8>,
    nonce: Seq<u8>,
    text: Seq<u8>,
    r: Result<Vec<u8>, String>,
)
    requires
        sealed_as(bytes, key, nonce, text),
        opens_to(bytes, key, r),
    ensures
        bytes.len() > 12,
        r matches Ok(t) && t@ == text,
{
}

/// Stored bytes whose tag has been changed do not open: where all but the last 16 bytes are as they
/// were saved, and those are not, the answer is that they cannot be decrypted.
pub proof fn law_changed_tag_is_refused(
    saved: Seq<u8>,
    changed: Seq<u8>,
    key: Seq<u8>,
    nonce: Seq<u8>,
    text: Seq<u8>,
    r: Result<Vec<u8>, String>,
)
    requires
        sealed_as(saved, key, nonce, text),
        same_but_tag(changed, saved),
        changed != saved,
        opens_to(changed, key, r),
    ensures
        failed(r, "cannot decrypt configuration"@),
{
}

/// Stored bytes with one byte changed behind the nonce do not open: the answer is that they cannot be
/// decrypted. A byte of the tag may be changed under any key; any other, under a key whose tags
/// depend on the texts at all.
pub proof fn law_changed_byte_is_refused(
    saved: Seq<u8>,
    at: int,
    byte: u8,
    key: Seq<u8>,
    nonce: Seq<u8>,
    text: Seq<u8>,
    r: Result<Vec<u8>, String>,
)
    requires
        sealed_as(saved, key, nonce, text),
        12 <= at < saved.len(),
        byte != saved[at],
        opens_to(saved.update(at, byte), key, r),
        at >= saved.len() - 16 || tags_vary(key, nonce),
    ensures
        failed(r, "cannot decrypt configuration"@),
{
    let changed = saved.update(at, byte);
    assert(changed[at] != saved[at]);
    if at >= saved.len() - 16 {
        let m = saved.len() - 16;
        assert(changed.take(m) =~= saved.take(m));
    } else {
        assert(changed.take(12) =~= saved.take(12));
        assert(one_byte_off(changed, saved));
    }
}

/// Stored bytes that are changed between the nonce and the tag, however much, and open all the same,
/// open to another text that has the very same tag.
pub proof fn law_changed_text_has_the_same_tag(
    saved: Seq<u8>,
    changed: Seq<u8>,
    key: Seq<u8>,
    nonce: Seq<u8>,
    text: Seq<u8>,
    r: Result<Vec<u8>, String>,
)
    requires
        sealed_as(saved, key, nonce, text),
        changed.len() == saved.len(),
        changed.take(12) == saved.take(12),
        changed.skip(saved.len() - 16) == saved.skip(saved.len() - 16),
        changed != saved,
        opens_to(changed, key, r),
    ensures
        r matches Ok(t) ==> t@ != text && gcm_tag(key, nonce, t@) == gcm_tag(key, nonce, text),
{
    law_changed_bytes_do_not_pass(saved, changed, key, nonce, text, r);
    if let Ok(t) = r {
        let m = saved.len() - 16;
        assert(saved.take(12) =~= nonce);
        assert(saved.skip(m) =~= gcm_tag(key, nonce, text));
        assert(changed.skip(m) =~= gcm_tag(key, nonce, t@));
    }
}

/// Stored bytes that have been changed anywhere behind the nonce do not pass for what was saved: they
/// do not open to the saved text.
pub proof fn law_changed_bytes_do_not_pass(
    saved: Seq<u8>,
    changed: Seq<u8>,
    key: Seq<u8>,
    nonce: Seq<u8>,
    text: Seq<u8>,
    r: Result<Vec<u8>, String>,
)
    requires
        sealed_as(saved, key, nonce, text),
        changed.take(12) == saved.take(12),
        changed != saved,
        opens_to(changed, key, r),
    ensures
        r matches Ok(t) ==> t@ != text,
{
    assert(saved.take(12) =~= nonce);
}

/// Whether a result is the settings of a stored configuration, or why there is none.
pub open spec fn settings_of<S>(
    stored: Result<StoredConfig<S>, String>,
    r: Result<S, String>,
) -> bool {
    match stored {
        Ok(config) => r matches Ok(settings) && settings == config.settings,
        Err(e) => failed(r, e@),
    }
}

/// The settings of a stored configuration, or why there is none.
pub fn load_config<S>(stored: Result<StoredConfig<S>, String>) -> (r: Result<S, String>)
    ensures
        settings_of(stored, r),
{
    match stored {
        Ok(config) => Ok(config.settings),
        Err(e) => Err(e),
    }
}

/// Stored bytes are the nonce and, behind it, what AES-256-GCM makes of the whole text under the key:
/// 12 bytes, the text's length, and 16 bytes of tag.
pub proof fn law_stored_bytes_are_nonce_and_seal(
    bytes: Seq<u8>,
    key: Seq<u8>,
    nonce: Seq<u8>,
    text: Seq<u8>,
)
    requires
        sealed_as(bytes, key, nonce, text),
    ensures
        bytes.take(12) == nonce,
        bytes.skip(12) == gcm_sealed(key, nonce, text),
        bytes.len() == 12 + text.len() + 16,
{
    assert(bytes.take(12) =~= nonce);
    assert(bytes.skip(12) =~= gcm_sealed(key, nonce, text));
}

/// Opening stored bytes is opening what stands behind the nonce under the nonce and the key: a text
/// comes out whole, and what does not open is answered so.
pub proof fn law_opening_is_that_of_the_seal(
    bytes: Seq<u8>,
    key: Seq<u8>,
    r: Result<Vec<u8>, String>,
)
    requires
        opens_to(bytes, key, r),
    ensures
        r matches Ok(t) ==> gcm_opened(key, bytes.take(12), bytes.skip(12)) == Some(t@),
        r matches Err(m) ==> gcm_opened(key, bytes.take(12), bytes.skip(12)) is None && m@
            == "cannot decrypt configuration"@,
{
}

/// The settings read are those stored, and where there are none the reason is told.
pub proof fn law_settings_are_those_stored<S>(
    stored: Result<StoredConfig<S>, String>,
    r: Result<S, String>,
)
    requires
        settings_of(stored, r),
    ensures
        stored matches Ok(config) ==> r == Ok::<S, String>(config.settings),
        stored matches Err(e) ==> (r matches Err(m) && m@ == e@),
{
}

/// Every text of up to 2^36 bytes is sealed, whatever the key and the nonce.
pub proof fn law_texts_up_to_64_gib_are_sealed(text: Seq<u8>)
    requires
        text.len() <= 0x10_0000_0000,
    ensures
        text.len() <= MAX_TEXT,
{
}

} // verus!
