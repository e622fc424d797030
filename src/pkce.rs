//! The login flow's state and proof-key (PKCE) strings.
use base64::Engine;
use sha2::Digest;
use vstd::prelude::*;
use vstd::utf8::encode_utf8;

verus! {

/// The SHA-256 digest of `data`.
pub uninterp spec fn sha256_of(data: Seq<u8>) -> Seq<u8>;

/// `data` in URL-safe base64, without padding.
pub uninterp spec fn base64_url_of(data: Seq<u8>) -> Seq<char>;

/// Bytes of a state string.
pub const STATE_BYTES: usize = 16;

/// Bytes of a code verifier.
pub const VERIFIER_BYTES: usize = 32;

/// Relies on `rand::random::<u8>`: some byte; nothing is known of which.
#[verifier::external_body]
fn random_byte() -> u8 {
    rand::random::<u8>()
}

/// Relies on sha2's `Sha256::digest`: the 32-byte SHA-256 digest of `data`.
#[verifier::external_body]
fn sha256(data: &[u8]) -> (r: Vec<u8>)
    ensures
        r@ == sha256_of(data@),
        r@.len() == 32,
{
    sha2::Sha256::digest(data).to_vec()
}

/// Relies on base64's `URL_SAFE_NO_PAD` engine: `encode` gives the URL-safe
/// base64 text of `data`, without padding.
#[verifier::external_body]
fn base64_url(data: &[u8]) -> (r: String)
    ensures
        r@ == base64_url_of(data@),
{
    base64::engine::general_purpose::URL_SAFE_NO_PAD.encode(data)
}

/// `size` random bytes, in URL-safe base64.
pub fn generate_random_string(size: usize) -> (r: String)
    ensures
        exists|bytes: Seq<u8>| bytes.len() == size && r@ == base64_url_of(bytes),
{
    let mut bytes: Vec<u8> = Vec::new();
    let mut i: usize = 0;
    while i < size
        invariant
            i <= size,
            bytes@.len() == i,
        decreases size - i,
    {
        bytes.push(random_byte());
        i = i + 1;
    }
    base64_url(bytes.as_slice())
}

/// The challenge that a code verifier is checked against: the base64 text of
/// the SHA-256 digest of its UTF-8 bytes.
pub open spec fn challenge_of(code_verifier: Seq<char>) -> Seq<char> {
    base64_url_of(sha256_of(encode_utf8(code_verifier)))
}

/// The challenge of `code_verifier`.
pub fn code_challenge(code_verifier: &String) -> (r: String)
    ensures
        r@ == challenge_of(code_verifier@),
{
    let digest = sha256(code_verifier.as_str().as_bytes());
    base64_url(digest.as_slice())
}

/// A fresh state, a fresh code verifier, and the verifier's challenge.
pub fn generate_state_and_code_challenge() -> (r: (String, String, String))
    ensures
        exists|bytes: Seq<u8>| bytes.len() == STATE_BYTES && r.0@ == base64_url_of(bytes),
        exists|bytes: Seq<u8>| bytes.len() == VERIFIER_BYTES && r.1@ == base64_url_of(bytes),
        r.2@ == challenge_of(r.1@),
{
    let state = generate_random_string(STATE_BYTES);
    let code_verifier = generate_random_string(VERIFIER_BYTES);
    let challenge = code_challenge(&code_verifier);
    (state, code_verifier, challenge)
}

} // verus!
