use base64::Engine;
use bingo::pkce::{code_challenge, generate_random_string, generate_state_and_code_challenge};
use sha2::{Digest, Sha256};

#[test]
fn it_should_verify_code_challenge() {
    let (_, code_verifier, code_challenge) = generate_state_and_code_challenge();

    assert_eq!(
        base64::engine::general_purpose::URL_SAFE_NO_PAD
            .encode(Sha256::digest(code_verifier.as_bytes())),
        code_challenge
    );
}

#[test]
fn challenge_of_the_rfc_example() {
    let verifier = "dBjftJeZ4CVP-mB92K27uhbUJU1p1r_wW1gFWFOEjXk".to_string();
    assert_eq!(
        code_challenge(&verifier),
        "E9Melhoa2OwvFrEMTJguCHaoeK1t8URWbuGJSstw-cM"
    );
}

#[test]
fn random_strings_have_the_encoded_length() {
    assert_eq!(generate_random_string(16).len(), 22);
    assert_eq!(generate_random_string(32).len(), 43);
    assert_eq!(generate_random_string(0), "");
    let (state, verifier, challenge) = generate_state_and_code_challenge();
    assert_eq!(state.len(), 22);
    assert_eq!(verifier.len(), 43);
    assert_eq!(challenge.len(), 43);
    assert!(verifier
        .chars()
        .all(|c| c.is_ascii_alphanumeric() || c == '-' || c == '_'));
}
