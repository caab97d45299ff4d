use knit::push_force::{artifact_force_fields, lease_mismatch_message, PushForce};

#[test]
fn from_flags_maps_the_flag_pair() {
    assert_eq!(PushForce::from_flags(false, false), PushForce::No);
    assert_eq!(PushForce::from_flags(true, false), PushForce::WithLease);
    assert_eq!(PushForce::from_flags(false, true), PushForce::Unconditional);
}

#[test]
fn force_and_lease_predicates() {
    assert!(!PushForce::No.is_force());
    assert!(PushForce::WithLease.is_force());
    assert!(PushForce::Unconditional.is_force());
    assert!(PushForce::WithLease.wants_lease());
    assert!(!PushForce::Unconditional.wants_lease());
    assert!(!PushForce::No.wants_lease());
}

#[test]
fn no_force_leaves_the_payload_untouched() {
    let fields = artifact_force_fields(PushForce::No, None);
    assert!(!fields.force);
    assert!(fields.expected_artifact_hash.is_none());
}

#[test]
fn unconditional_force_sends_force_without_a_lease() {
    let fields = artifact_force_fields(PushForce::Unconditional, None);
    assert!(fields.force);
    assert!(fields.expected_artifact_hash.is_none());
}

#[test]
fn lease_force_sends_force_and_the_fetched_hash() {
    let fields = artifact_force_fields(PushForce::WithLease, Some("hash-1"));
    assert!(fields.force);
    assert_eq!(fields.expected_artifact_hash, Some("hash-1".to_string()));
}

#[test]
fn lease_force_without_a_remote_artifact_sends_a_plain_push() {
    let fields = artifact_force_fields(PushForce::WithLease, None);
    assert!(!fields.force);
    assert!(fields.expected_artifact_hash.is_none());
}

#[test]
fn lease_mismatch_message_names_the_bundle_and_current_hash() {
    let message = lease_mismatch_message("feature-a", Some("abc123"));
    assert!(message.contains("feature-a: remote artifact changed since fetch"));
    assert!(message.contains("abc123"));
    let without = lease_mismatch_message("feature-a", None);
    assert!(without.contains("remote artifact changed since fetch"));
}

#[test]
fn lease_mismatch_message_exact_text() {
    assert_eq!(
        lease_mismatch_message("b", Some("h")),
        "b: remote artifact changed since fetch (remote artifact is now h). Run `knit sync pull --bundles` to see the new state, then force-push again."
    );
    assert_eq!(
        lease_mismatch_message("b", None),
        "b: remote artifact changed since fetch. Run `knit sync pull --bundles` to see the new state, then force-push again."
    );
}

#[test]
fn git_force_argument_per_mode() {
    assert_eq!(PushForce::No.git_arg(), None);
    assert_eq!(PushForce::WithLease.git_arg(), Some("--force-with-lease"));
    assert_eq!(PushForce::Unconditional.git_arg(), Some("--force"));
}
