//! Hashing, sealing and random bytes, as the outside crates provide them.
use aes_gcm::aead::Aead;
use aes_gcm::{Aes256Gcm, KeyInit};
use rand::RngCore;
use sha2::{Digest, Sha256};
use vstd::prelude::*;

verus! {

/// How many bytes can be sealed at once.
pub const MAX_TEXT: u64 = 0x10_0000_0000;

/// The SHA-256 digest of bytes.
pub uninterp spec fn sha256_digest(bytes: Seq<u8>) -> Seq<u8>;

/// `sha2::Sha256::digest`: the SHA-256 digest, 32 bytes that are a function of the bytes alone.
#[verifier::external_body]
pub(crate) fn sha256(bytes: &[u8]) -> (digest: [u8; 32])
    ensures
        digest@ == sha256_digest(bytes@),
{
    Sha256::digest(bytes).into()
}

/// What AES-256-GCM makes of a text under a key and a nonce: the ciphertext and its tag.
pub uninterp spec fn gcm_sealed(key: Seq<u8>, nonce: Seq<u8>, text: Seq<u8>) -> Seq<u8>;

/// The text that AES-256-GCM finds in sealed bytes under a key and a nonce, if they are authentic.
pub uninterp spec fn gcm_opened(key: Seq<u8>, nonce: Seq<u8>, sealed: Seq<u8>) -> Option<Seq<u8>>;

/// Whether two sealed texts agree but for their tags, which are the last 16 bytes.
pub open spec fn same_but_tag(a: Seq<u8>, b: Seq<u8>) -> bool {
    &&& a.len() == b.len()
    &&& a.len() >= 16
    &&& a.take(a.len() - 16) == b.take(b.len() - 16)
}

/// The tag that AES-256-GCM gives a text: what follows its ciphertext.
pub open spec fn gcm_tag(key: Seq<u8>, nonce: Seq<u8>, text: Seq<u8>) -> Seq<u8> {
    gcm_sealed(key, nonce, text).skip(text.len() as int)
}

/// Whether tags depend on texts at all. They do unless the key is one whose hash subkey, the zero
/// block enciphered, is zero: then every text has the same tag.
pub open spec fn tags_vary(key: Seq<u8>, nonce: Seq<u8>) -> bool {
    exists|a: Seq<u8>, b: Seq<u8>|
        a.len() <= MAX_TEXT && b.len() <= MAX_TEXT && #[trigger] gcm_tag(key, nonce, a)
            != #[trigger] gcm_tag(key, nonce, b)
}

/// Whether two texts are equally long and differ in just one byte.
pub open spec fn one_byte_off(a: Seq<u8>, b: Seq<u8>) -> bool {
    a.len() == b.len() && exists|i: int|
        0 <= i < b.len() && #[trigger] a[i] != b[i] && a == b.update(i, a[i])
}

/// The error of the `aes_gcm` crate.
#[verifier::external_type_specification]
#[verifier::external_body]
pub struct ExAeadError(aes_gcm::Error);

/// `Aead::encrypt` of an `aes_gcm::Aes256Gcm` made of the key, without associated data: the sealed
/// text is a function of the three arguments and 16 bytes longer than the text. It is an error just
/// where the text is longer than [`MAX_TEXT`]. The buffer for the sealed text must fit in memory.
#[verifier::external_body]
pub(crate) fn gcm_encrypt(key: &[u8; 32], nonce: &[u8; 12], text: &[u8]) -> (r: Result<
    Vec<u8>,
    aes_gcm::Error,
>)
    requires
        text@.len() + 16 <= isize::MAX,
    ensures
        match r {
            Ok(sealed) => {
                &&& text@.len() <= MAX_TEXT
                &&& sealed@ == gcm_sealed(key@, nonce@, text@)
                &&& sealed@.len() == text@.len() + 16
            },
            Err(_) => text@.len() > MAX_TEXT,
        },
{
    Aes256Gcm::new(key.into()).encrypt(nonce.into(), text)
}

/// `Aead::decrypt` of an `aes_gcm::Aes256Gcm` made of the key, without associated data: the text,
/// or an error, is a function of the three arguments. It undoes `encrypt` under the same key and
/// nonce, and what it opens is what `encrypt` gives, as far as `encrypt` takes texts of that length
/// (`decrypt` takes up to 16 bytes more). The text depends on the bytes before the tag alone: what
/// agrees but for the tag with what `encrypt` gives of a text opens to that text or not at all.
/// What is one byte off from what `encrypt` gives does not open, unless no tag under the key and
/// nonce depends on the text: the tag is a polynomial in the hash subkey over the field of 2^128
/// elements, with the blocks of the ciphertext as coefficients, so one changed block changes the tag
/// wherever the subkey is not zero. Of more than one changed block nothing of the kind is said, as
/// such changes can cancel out.
#[verifier::external_body]
pub(crate) fn gcm_decrypt(key: &[u8; 32], nonce: &[u8; 12], sealed: &[u8]) -> (r: Result<
    Vec<u8>,
    aes_gcm::Error,
>)
    ensures
        match r {
            Ok(text) => {
                &&& gcm_opened(key@, nonce@, sealed@) == Some(text@)
                &&& sealed@.len() == text@.len() + 16
                &&& text@.len() <= MAX_TEXT ==> sealed@ == gcm_sealed(key@, nonce@, text@)
                &&& forall|other: Seq<u8>|
                    other.len() <= MAX_TEXT && same_but_tag(
                        sealed@,
                        #[trigger] gcm_sealed(key@, nonce@, other),
                    ) ==> other == text@
                &&& forall|other: Seq<u8>|
                    other.len() <= MAX_TEXT && one_byte_off(
                        sealed@,
                        #[trigger] gcm_sealed(key@, nonce@, other),
                    ) ==> !tags_vary(key@, nonce@)
            },
            Err(_) => {
                &&& gcm_opened(key@, nonce@, sealed@) is None
                &&& forall|other: Seq<u8>|
                    other.len() <= MAX_TEXT ==> sealed@ != #[trigger] gcm_sealed(key@, nonce@, other)
            },
        },
{
    Aes256Gcm::new(key.into()).decrypt(nonce.into(), sealed)
}

/// `ToString::to_string` of the error of the `aes_gcm` crate, which has one text.
#[verifier::external_body]
pub(crate) fn aead_error_text(e: &aes_gcm::Error) -> (r: String)
    ensures
        r@ == "aead::Error"@,
{
    e.to_string()
}

/// `RngCore::fill_bytes` of `rand::thread_rng`: an array of random bytes, of which nothing else can
/// be said.
#[verifier::external_body]
pub(crate) fn random_bytes<const N: usize>() -> (bytes: [u8; N]) {
    let mut bytes = [0_u8; N];
    rand::thread_rng().fill_bytes(&mut bytes);
    bytes
}

} // verus!
