use tokio_util::sync::CancellationToken;
use toodles::cancel::{stop_key, CancelRegistry};

#[test]
fn cancel_registry_insert_and_remove() {
    let mut registry = CancelRegistry::new();
    let token = CancellationToken::new();
    registry.insert("stop:123:456".to_string(), token.clone());

    assert_eq!(registry.len(), 1);
    assert!(!token.is_cancelled());

    let (_, removed) = registry.remove("stop:123:456").expect("should exist");
    removed.cancel();
    assert!(token.is_cancelled());
    assert_eq!(registry.len(), 0);
}

#[test]
fn cancel_registry_remove_nonexistent_returns_none() {
    let mut registry = CancelRegistry::new();
    assert!(registry.remove("stop:999:999").is_none());
}

#[test]
fn cancel_registry_multiple_tokens_isolated() {
    let mut registry = CancelRegistry::new();
    let token_a = CancellationToken::new();
    let token_b = CancellationToken::new();
    registry.insert("stop:1:1".to_string(), token_a.clone());
    registry.insert("stop:2:2".to_string(), token_b.clone());

    assert_eq!(registry.len(), 2);

    // Cancel only token A.
    if let Some((_, t)) = registry.remove("stop:1:1") {
        t.cancel();
    }
    assert!(token_a.is_cancelled());
    assert!(!token_b.is_cancelled());
    assert_eq!(registry.len(), 1);
}

#[test]
fn cancel_token_propagates_to_clones() {
    let token = CancellationToken::new();
    let clone1 = token.clone();
    let clone2 = token.clone();

    assert!(!clone1.is_cancelled());
    assert!(!clone2.is_cancelled());

    token.cancel();

    assert!(clone1.is_cancelled());
    assert!(clone2.is_cancelled());
}

#[test]
fn stop_keys_name_chat_and_message() {
    assert_eq!(stop_key(-1001, 42), "stop:-1001:42");
    assert_eq!(stop_key(i64::MIN, i32::MIN), "stop:-9223372036854775808:-2147483648");
    assert_ne!(stop_key(1, 11), stop_key(11, 1));
}

#[test]
fn button_stops_its_own_response_once() {
    let mut registry = CancelRegistry::new();
    let a = CancellationToken::new();
    let b = CancellationToken::new();
    registry.insert(stop_key(1, 1), a.clone());
    registry.insert(stop_key(1, 2), b.clone());
    let token = registry
        .handle_stop_callback(Some("stop:1:1"))
        .expect("registered");
    token.cancel();
    assert!(a.is_cancelled());
    assert!(!b.is_cancelled());
    assert!(registry.handle_stop_callback(Some("stop:1:1")).is_none());
    assert_eq!(registry.len(), 1);
}

#[test]
fn other_buttons_stop_nothing() {
    let mut registry = CancelRegistry::new();
    registry.insert("halt".to_string(), CancellationToken::new());
    assert!(registry.handle_stop_callback(Some("halt")).is_none());
    assert!(registry.handle_stop_callback(None).is_none());
    assert_eq!(registry.len(), 1);
}

#[test]
fn replaced_token_is_handed_back() {
    let mut registry = CancelRegistry::new();
    let a = CancellationToken::new();
    assert!(registry.insert("k".to_string(), a.clone()).is_none());
    let old = registry.insert("k".to_string(), CancellationToken::new());
    old.expect("the first token").cancel();
    assert!(a.is_cancelled());
    assert_eq!(registry.len(), 1);
}
