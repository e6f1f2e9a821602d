use but_ai::identity::key_lifecycle::{KeyError, KeyManager, KeyStatus};
use but_ai::identity::signing::{
    CommitSigner, DenyAllSigner, KeyAuditLog, KeyLifecycleEvent, NoOpSigner, SignError,
};
use but_ai::ids::AgentId;

#[test]
fn provision_and_retrieve() {
    let mut mgr = KeyManager::new();
    let agent = AgentId("vassiliev".to_string());
    mgr.provision(agent.clone(), "key-001".to_string(), "2026-01-01T00:00:00Z".to_string());

    let active = mgr.active_key(&agent).unwrap();
    assert_eq!(active.key_id, "key-001");
    assert_eq!(active.status, KeyStatus::Active);
}

#[test]
fn rotate_key() {
    let mut mgr = KeyManager::new();
    let agent = AgentId("petrov".to_string());
    mgr.provision(agent.clone(), "key-001".to_string(), "2026-01-01T00:00:00Z".to_string());
    mgr.rotate("key-001", "key-002".to_string(), "2026-02-01T00:00:00Z".to_string())
        .unwrap();

    let active = mgr.active_key(&agent).unwrap();
    assert_eq!(active.key_id, "key-002");

    let all = mgr.keys_for(&agent);
    assert_eq!(all.len(), 2);
    assert_eq!(all[0].status, KeyStatus::Decommissioned);
}

#[test]
fn compromise_key() {
    let mut mgr = KeyManager::new();
    let agent = AgentId("test".to_string());
    mgr.provision(agent.clone(), "key-001".to_string(), "2026-01-01T00:00:00Z".to_string());
    mgr.compromise("key-001", "2026-01-15T00:00:00Z".to_string(), "leaked".to_string())
        .unwrap();

    let key = mgr.keys_for(&agent)[0];
    assert_eq!(key.status, KeyStatus::Compromised);
}

#[test]
fn unknown_keys_are_reported() {
    let mut mgr = KeyManager::new();
    let e = mgr.rotate("nope", "k2".to_string(), "t".to_string()).unwrap_err();
    assert_eq!(e, KeyError::NotFound { key_id: "nope".to_string() });
    assert_eq!(e.message(), "Key not found: nope");
    assert!(mgr.compromise("nope", "t".to_string(), "r".to_string()).is_err());
    assert!(mgr.decommission("nope", "t".to_string()).is_err());
    assert!(!mgr.schedule_rotation("nope", "t".to_string()));
    assert!(mgr.active_key(&AgentId("x".to_string())).is_none());
}

#[test]
fn key_operations_are_audited() {
    let mut mgr = KeyManager::new();
    let agent = AgentId("a".to_string());
    mgr.provision(agent.clone(), "k1".to_string(), "t1".to_string());
    mgr.rotate("k1", "k2".to_string(), "t2".to_string()).unwrap();
    assert!(mgr.audit_log().len() >= 2);
    assert_eq!(mgr.audit_log().events_for(&agent).len(), mgr.audit_log().len());
}

#[test]
fn noop_signer_signs_successfully() {
    let signer = NoOpSigner;
    let sig = signer.sign(b"commit payload").unwrap();
    assert!(!sig.is_empty());
}

#[test]
fn noop_signature_is_weighted_byte_sum() {
    let signer = NoOpSigner;
    let sig = signer.sign(b"ab").unwrap();
    assert_eq!(sig, b"noop-sig:0000000000000062".to_vec());
    let empty = signer.sign(b"").unwrap();
    assert_eq!(empty, b"noop-sig:0000000000000000".to_vec());
}

#[test]
fn noop_signer_verifies_everything() {
    let signer = NoOpSigner;
    let agent = AgentId("test".to_string());
    assert!(signer.verify(b"msg", b"sig", &agent).unwrap());
}

#[test]
fn deny_all_signer_rejects() {
    let signer = DenyAllSigner::new("testing denial");
    assert!(signer.sign(b"payload").is_err());
}

#[test]
fn deny_all_error_message() {
    let signer = DenyAllSigner::new("testing denial");
    let e = signer.sign(b"payload").unwrap_err();
    assert_eq!(e, SignError::Denied { reason: "testing denial".to_string() });
    assert_eq!(e.message(), "Signing denied: testing denial");
}

#[test]
fn deny_all_signer_fails_verification() {
    let signer = DenyAllSigner::new("testing");
    let agent = AgentId("test".to_string());
    assert!(!signer.verify(b"msg", b"sig", &agent).unwrap());
}

#[test]
fn audit_log_tracks_events() {
    let mut log = KeyAuditLog::new();
    let agent = AgentId("vassiliev".to_string());

    log.record(KeyLifecycleEvent::Provisioned {
        agent: agent.clone(),
        key_id: "key-001".to_string(),
        timestamp: "2026-01-15T00:00:00Z".to_string(),
    });

    log.record(KeyLifecycleEvent::Rotated {
        agent: agent.clone(),
        old_key_id: "key-001".to_string(),
        new_key_id: "key-002".to_string(),
        timestamp: "2026-02-15T00:00:00Z".to_string(),
    });

    assert_eq!(log.events_for(&agent).len(), 2);
    assert_eq!(log.len(), 2);
    assert_eq!(log.all_events()[1].timestamp(), "2026-02-15T00:00:00Z");
    assert!(log.events_for(&AgentId("other".to_string())).is_empty());
}
