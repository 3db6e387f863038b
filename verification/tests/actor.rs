use ai_memory::actor::{ActorContext, IdentityKey};
use ai_memory::admission::{parse_skip_admission_chain, skip_admission_chain_for};
use ai_memory::authz::{AuthLevel, AuthzError, Capability};
use ai_memory::ownership::{owner_stamp, OwnerFilter};

#[test]
fn default_is_anonymous() {
    let a = ActorContext::default();
    assert!(!a.has_any(), "default actor must be fully anonymous");
    assert_eq!(a, ActorContext::anonymous());
}

#[test]
fn admin_capability_preserves_single_user_mode() {
    for level in [AuthLevel::Anonymous, AuthLevel::Root, AuthLevel::User] {
        assert_eq!(level.authorize(Capability::Admin, false), Ok(()));
    }
}

#[test]
fn admin_capability_is_root_only_in_multi_user_mode() {
    assert_eq!(AuthLevel::Root.authorize(Capability::Admin, true), Ok(()));
    assert!(matches!(
        AuthLevel::Anonymous.authorize(Capability::Admin, true),
        Err(AuthzError::AuthenticationRequired(
            "admin operation requires authentication in multi-user mode"
        ))
    ));
    assert!(matches!(
        AuthLevel::User.authorize(Capability::Admin, true),
        Err(AuthzError::Forbidden(
            "admin operation is root-only in multi-user mode"
        ))
    ));
}

#[test]
fn user_management_is_always_root_only() {
    assert_eq!(
        AuthLevel::Root.authorize(Capability::UserManagement, false),
        Ok(())
    );
    assert_eq!(
        AuthLevel::Root.authorize(Capability::UserManagement, true),
        Ok(())
    );
    assert!(matches!(
        AuthLevel::Anonymous.authorize(Capability::UserManagement, false),
        Err(AuthzError::AuthenticationRequired(
            "user management requires authentication"
        ))
    ));
    assert!(matches!(
        AuthLevel::User.authorize(Capability::UserManagement, true),
        Err(AuthzError::Forbidden("user management is root-only"))
    ));
}

#[test]
fn skip_admission_chain_rejects_db_users() {
    assert_eq!(
        AuthLevel::Root.authorize(Capability::SkipAdmissionChain, true),
        Ok(())
    );
    assert_eq!(
        AuthLevel::Anonymous.authorize(Capability::SkipAdmissionChain, true),
        Ok(())
    );
    assert!(matches!(
        AuthLevel::User.authorize(Capability::SkipAdmissionChain, true),
        Err(AuthzError::Forbidden("admission webhook skip is root-only"))
    ));
}

#[test]
fn skip_admission_chain_parses_csv_and_honours_the_tier_rule() {
    assert_eq!(
        parse_skip_admission_chain(Some("a, ,b,")),
        vec!["a".to_string(), "b".to_string()]
    );
    assert!(parse_skip_admission_chain(None).is_empty());
    for level in [AuthLevel::Root, AuthLevel::Anonymous] {
        assert_eq!(
            skip_admission_chain_for(level, Some("mirror")),
            vec!["mirror".to_string()],
            "{level:?} may skip a webhook it re-entered from",
        );
    }
    assert!(
        skip_admission_chain_for(AuthLevel::User, Some("mirror")).is_empty(),
        "a DB user must not bypass a reject-policy webhook via a header",
    );
}

#[test]
fn has_any_truth_table() {
    // Each field individually flips has_any() to true. Catches an
    // accidental omission if someone adds a new field and forgets
    // to update the predicate.
    let mut a = ActorContext::default();
    assert!(!a.has_any());

    a.agent = Some("codex".into());
    assert!(a.has_any());
    a = ActorContext::default();

    a.user = Some("alice".into());
    assert!(a.has_any());
    a = ActorContext::default();

    a.name = Some("Alice Smith".into());
    assert!(a.has_any());
    a = ActorContext::default();

    a.email = Some("alice@home".into());
    assert!(a.has_any());
    a = ActorContext::default();

    a.session_id = Some("s-1".into());
    assert!(a.has_any());
    a = ActorContext::default();

    a.sub = Some("8f3a".into());
    assert!(a.has_any());
    a = ActorContext::default();

    a.client = Some("72836f52".into());
    assert!(a.has_any());
}

/// An actor the auth middleware resolved to `AuthLevel::User` must be
/// identified for ownership too, whichever field the proxy filled in. The
/// sub-only rung is the one a per-site `.user` check silently drops.
#[test]
fn identity_key_accepts_sub_when_no_username_was_asserted() {
    let sub_only = ActorContext {
        sub: Some("oidc-subject-123".into()),
        ..ActorContext::default()
    };
    assert_eq!(
        sub_only.identity_key(),
        Some(IdentityKey::Subject("oidc-subject-123".into()))
    );
}

/// `sub` outranks `user`: OIDC defines `sub` as the stable identifier and
/// forbids relying on `preferred_username`. The concrete upgrade this
/// protects: an ingress that forwarded only `sub` and later starts
/// forwarding a username must keep the same key, or the operator's rows
/// re-bucket the day the proxy config improves.
#[test]
fn identity_key_prefers_sub_over_user() {
    let both = ActorContext {
        user: Some("alice".into()),
        sub: Some("oidc-subject-123".into()),
        ..ActorContext::default()
    };
    assert_eq!(
        both.identity_key(),
        Some(IdentityKey::Subject("oidc-subject-123".into()))
    );
}

/// The aliasing the qualified form exists to kill: a username equal to
/// somebody else's subject is a DIFFERENT identity, in storage and in
/// admit checks. Raw TEXT keys would have merged these two people.
#[test]
fn a_username_never_aliases_an_equal_subject() {
    let by_name = IdentityKey::User("alice".into());
    let by_subject = IdentityKey::Subject("alice".into());
    assert_ne!(by_name.storage_key(), by_subject.storage_key());
    assert_ne!(by_name.path_segment(), by_subject.path_segment());

    let names_filter = OwnerFilter::User(by_name.storage_key());
    assert!(!names_filter.admits(Some(&by_subject.storage_key())));
}

/// Storage keys must read back as the identity that wrote them — including
/// a subject that CONTAINS a colon (URLs are common subjects) — and a
/// stored value this contract never produced must parse to nobody rather
/// than to a guessed operator.
#[test]
fn storage_key_round_trips_through_from_storage_key() {
    for key in [
        IdentityKey::User("alice".into()),
        IdentityKey::Subject("oidc-subject-123".into()),
        IdentityKey::Subject("https://idp.example/id/42".into()),
        // The aliasing case: a username that LOOKS like a subject key must
        // come back as the username it is.
        IdentityKey::User("sub:alice".into()),
    ] {
        assert_eq!(
            IdentityKey::from_storage_key(&key.storage_key()).as_ref(),
            Some(&key)
        );
        assert_eq!(
            key.to_actor_context().identity_key().as_ref(),
            Some(&key),
            "to_actor_context must name the same operator"
        );
    }
    assert_eq!(IdentityKey::from_storage_key("alice"), None);
    assert_eq!(IdentityKey::from_storage_key(""), None);
}

/// Subjects are IdP-issued and often URLs; wiki paths are real files on
/// every platform. Path-hostile values hex-encode under a DISTINCT prefix
/// so a passthrough value that merely looks like hex cannot collide with
/// the value that hexes to the same digits.
#[test]
fn path_segment_is_filesystem_safe_and_injective() {
    assert_eq!(IdentityKey::User("alice".into()).path_segment(), "u-alice");
    assert_eq!(
        IdentityKey::Subject("103459784".into()).path_segment(),
        "s-103459784"
    );
    let url_sub = IdentityKey::Subject("https://idp.example/id/42".into());
    let seg = url_sub.path_segment();
    assert!(seg.starts_with("sx-"), "url subject must hex-encode: {seg}");
    assert!(
        seg.chars().all(|c| c.is_ascii_alphanumeric() || c == '-'),
        "segment must be path-safe: {seg}"
    );
    // The ambiguity the split prefixes prevent: "c3a9" passes through,
    // "é" hexes to c3a9 — different prefixes, no collision.
    assert_eq!(IdentityKey::Subject("c3a9".into()).path_segment(), "s-c3a9");
    assert_eq!(IdentityKey::Subject("é".into()).path_segment(), "sx-c3a9");
}

/// The write-side gate: identity alone is not enough to stamp — the
/// deployment must actually distinguish operators, or a single-operator
/// server would split its own transports (HTTP names the operator, stdio
/// carries no actor).
#[test]
fn owner_stamp_requires_both_identity_and_a_distinguishing_deployment() {
    let key = IdentityKey::Subject("oidc-subject-123".into());
    assert_eq!(owner_stamp(Some(&key), false), None);
    assert_eq!(owner_stamp(None, true), None);
    assert_eq!(
        owner_stamp(Some(&key), true),
        Some("sub:oidc-subject-123".into())
    );
}

/// The admit matrix in one place: shared rows reach everyone, owned rows
/// reach their owner and `Any`, and an unattributed caller sees only the
/// shared ones.
#[test]
fn owner_filter_admit_matrix() {
    let alice = OwnerFilter::for_actor_context(&ActorContext {
        user: Some("alice".into()),
        ..ActorContext::default()
    });
    let owned = IdentityKey::User("alice".into()).storage_key();
    let other = IdentityKey::User("bob".into()).storage_key();

    for filter in [&alice, &OwnerFilter::Unattributed, &OwnerFilter::Any] {
        assert!(filter.admits(None), "shared rows reach everyone");
    }
    assert!(alice.admits(Some(&owned)));
    assert!(!alice.admits(Some(&other)));
    assert!(!OwnerFilter::Unattributed.admits(Some(&owned)));
    assert!(OwnerFilter::Any.admits(Some(&other)));
}

/// Naming nobody stays naming nobody: an agent/session-only actor carries
/// transport detail, not identity, and blanks are not names.
#[test]
fn identity_key_is_none_without_a_named_human() {
    assert_eq!(ActorContext::anonymous().identity_key(), None);
    let transport_only = ActorContext {
        agent: Some("codex".into()),
        session_id: Some("s-1".into()),
        client: Some("72836f52".into()),
        ..ActorContext::default()
    };
    assert_eq!(transport_only.identity_key(), None);
    let blank = ActorContext {
        user: Some("   ".into()),
        sub: Some("\t".into()),
        ..ActorContext::default()
    };
    assert_eq!(blank.identity_key(), None);
}

/// A blank `user` beside a real `sub` must fall through rather than
/// resolving the whole actor to "nobody".
#[test]
fn identity_key_skips_a_blank_user_and_uses_sub() {
    let actor = ActorContext {
        user: Some("  ".into()),
        sub: Some("oidc-subject-123".into()),
        ..ActorContext::default()
    };
    assert_eq!(
        actor.identity_key(),
        Some(IdentityKey::Subject("oidc-subject-123".into()))
    );
}
