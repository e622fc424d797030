use bingo::security::InMemorySecurityManager;

#[test]
fn test_save_state() {
    let mut manager = InMemorySecurityManager::default();
    let state = "state".to_string();
    let code_verifier = "code_verifier".to_string();

    manager.save_state(state.clone(), code_verifier.clone());

    assert_eq!(manager.verify_state(&state), Some(code_verifier));
}

#[test]
fn test_verify_state() {
    let mut manager = InMemorySecurityManager::default();
    let state = "state".to_string();
    let code_verifier = "code_verifier".to_string();

    manager.save_state(state.clone(), code_verifier.clone());

    assert_eq!(manager.verify_state(&state).unwrap(), code_verifier);
}

#[test]
fn test_verify_state_invalid() {
    let mut manager = InMemorySecurityManager::default();
    let state = "state".to_string();

    assert!(manager.verify_state(&state).is_none())
}

#[test]
fn a_state_verifies_once() {
    let mut manager = InMemorySecurityManager::new();
    manager.save_state("s".to_string(), "v".to_string());
    assert_eq!(manager.verify_state("s"), Some("v".to_string()));
    assert_eq!(manager.verify_state("s"), None);
}

#[test]
fn saving_again_replaces_the_verifier() {
    let mut manager = InMemorySecurityManager::new();
    manager.save_state("s".to_string(), "v1".to_string());
    manager.save_state("t".to_string(), "w".to_string());
    manager.save_state("s".to_string(), "v2".to_string());
    assert_eq!(manager.verify_state("s"), Some("v2".to_string()));
    assert_eq!(manager.verify_state("t"), Some("w".to_string()));
}

#[test]
fn expired_states_are_gone() {
    let mut manager = InMemorySecurityManager::new();
    manager.save_state("s".to_string(), "v".to_string());
    manager.save_state("t".to_string(), "w".to_string());
    manager.expire_state("s");
    manager.expire_state("unknown");
    assert_eq!(manager.verify_state("s"), None);
    assert_eq!(manager.verify_state("t"), Some("w".to_string()));
}
