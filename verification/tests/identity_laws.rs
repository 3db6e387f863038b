use ai_memory::actor::{ActorContext, IdentityKey};
use ai_memory::admission::{
    parse_skip_admission_chain, skip_admission_chain_for, SKIP_ADMISSION_CHAIN_HEADER,
};
use ai_memory::authz::{AuthLevel, AuthzError, Capability};
use ai_memory::ownership::{owner_stamp, OwnerFilter};

fn samples() -> Vec<String> {
    vec![
        "".to_string(),
        "alice".to_string(),
        "Alice.Smith_2-x".to_string(),
        ".hidden".to_string(),
        "a.b".to_string(),
        "sub:alice".to_string(),
        "user:alice".to_string(),
        "https://idp.example/id/42".to_string(),
        "é".to_string(),
        "c3a9".to_string(),
        "x-alice".to_string(),
        "日本".to_string(),
        "a".repeat(64),
        "a".repeat(65),
        " padded ".to_string(),
    ]
}

fn keys() -> Vec<IdentityKey> {
    let mut all = Vec::new();
    for s in samples() {
        all.push(IdentityKey::Subject(s.clone()));
        all.push(IdentityKey::User(s));
    }
    all
}

#[test]
fn storage_keys_and_segments_are_pairwise_distinct() {
    let all = keys();
    for (i, a) in all.iter().enumerate() {
        for (j, b) in all.iter().enumerate() {
            assert_eq!(a.storage_key() == b.storage_key(), i == j);
            assert_eq!(a.path_segment() == b.path_segment(), i == j);
        }
    }
}

#[test]
fn every_storage_key_reads_back() {
    for key in keys() {
        assert_eq!(IdentityKey::from_storage_key(&key.storage_key()), Some(key));
    }
    assert_eq!(IdentityKey::from_storage_key("sub"), None);
    assert_eq!(IdentityKey::from_storage_key("Sub:alice"), None);
    assert_eq!(IdentityKey::from_storage_key("xuser:alice"), None);
    assert_eq!(
        IdentityKey::from_storage_key("user:"),
        Some(IdentityKey::User("".into()))
    );
}

#[test]
fn storage_keys_have_their_exact_text() {
    assert_eq!(IdentityKey::User("alice".into()).storage_key(), "user:alice");
    assert_eq!(
        IdentityKey::Subject("https://idp.example/id/42".into()).storage_key(),
        "sub:https://idp.example/id/42"
    );
}

#[test]
fn segments_have_their_exact_text() {
    assert_eq!(IdentityKey::User(".hidden".into()).path_segment(), "ux-2e68696464656e");
    assert_eq!(IdentityKey::User("".into()).path_segment(), "u-");
    assert_eq!(IdentityKey::User("a b".into()).path_segment(), "ux-612062");
    assert_eq!(IdentityKey::Subject("日".into()).path_segment(), "sx-e697a5");
    let longest = "a".repeat(64);
    assert_eq!(
        IdentityKey::User(longest.clone()).path_segment(),
        format!("u-{longest}")
    );
    assert_eq!(
        IdentityKey::User("a".repeat(65)).path_segment(),
        format!("ux-{}", "61".repeat(65))
    );
    assert_eq!(
        IdentityKey::Subject("oidc-subject-carol".into()).path_segment(),
        "s-oidc-subject-carol"
    );
}

#[test]
fn every_segment_is_safe() {
    for key in keys() {
        let segment = key.path_segment();
        assert!(segment.starts_with('s') || segment.starts_with('u'));
        assert!(segment
            .chars()
            .all(|c| c.is_ascii_alphanumeric() || matches!(c, '.' | '_' | '-')));
    }
}

#[test]
fn only_clean_keys_survive_the_way_through_an_actor() {
    let padded = IdentityKey::User(" padded ".into());
    assert_eq!(
        padded.to_actor_context().identity_key(),
        Some(IdentityKey::User("padded".into()))
    );
    assert_eq!(IdentityKey::User("".into()).to_actor_context().identity_key(), None);
    let subject = IdentityKey::Subject("alice".into());
    let actor = subject.to_actor_context();
    assert_eq!(actor.sub.as_deref(), Some("alice"));
    assert_eq!(actor.user, None);
    assert_eq!(actor.agent, None);
    let user = IdentityKey::User("alice".into()).to_actor_context();
    assert_eq!(user.user.as_deref(), Some("alice"));
    assert_eq!(user.sub, None);
}

#[test]
fn names_are_trimmed_of_unicode_white_space() {
    let actor = ActorContext {
        user: Some("\u{3000}\u{a0}alice bob\u{2028}\n".into()),
        ..ActorContext::default()
    };
    assert_eq!(
        actor.identity_key(),
        Some(IdentityKey::User("alice bob".into()))
    );
    let zero_width = ActorContext {
        user: Some("\u{200b}".into()),
        ..ActorContext::default()
    };
    assert_eq!(
        zero_width.identity_key(),
        Some(IdentityKey::User("\u{200b}".into()))
    );
}

#[test]
fn a_blank_subject_falls_back_to_the_username() {
    let actor = ActorContext {
        user: Some("alice".into()),
        sub: Some(" ".into()),
        ..ActorContext::default()
    };
    assert_eq!(actor.identity_key(), Some(IdentityKey::User("alice".into())));
}

#[test]
fn writers_read_what_they_write() {
    let alice = ActorContext {
        user: Some("alice".into()),
        ..ActorContext::default()
    };
    let bob = ActorContext {
        user: Some("bob".into()),
        ..ActorContext::default()
    };
    let carol = ActorContext {
        sub: Some("alice".into()),
        ..ActorContext::default()
    };
    let nobody = ActorContext::anonymous();
    let actors = [&alice, &bob, &carol, &nobody];
    for (i, writer) in actors.iter().enumerate() {
        for distinguishes in [false, true] {
            let stamp = owner_stamp(writer.identity_key().as_ref(), distinguishes);
            for (j, reader) in actors.iter().enumerate() {
                let sees = OwnerFilter::for_actor_context(reader).admits(stamp.as_deref());
                let shared = !distinguishes || i == 3;
                assert_eq!(sees, shared || i == j);
            }
            assert!(OwnerFilter::Any.admits(stamp.as_deref()));
        }
    }
}

#[test]
fn stamps_name_the_writer() {
    let key = IdentityKey::User("alice".into());
    assert_eq!(owner_stamp(Some(&key), true), Some("user:alice".to_string()));
    assert_eq!(owner_stamp(None, false), None);
    let stamp = owner_stamp(Some(&key), true).unwrap();
    assert_eq!(IdentityKey::from_storage_key(&stamp), Some(key));
}

#[test]
fn filters_hold_the_storage_key() {
    let actor = ActorContext {
        sub: Some("42".into()),
        ..ActorContext::default()
    };
    assert_eq!(
        OwnerFilter::for_actor_context(&actor),
        OwnerFilter::User("sub:42".into())
    );
    assert_eq!(
        OwnerFilter::for_actor_context(&ActorContext::anonymous()),
        OwnerFilter::Unattributed
    );
    assert!(!OwnerFilter::User("user:alice".into()).admits(Some("user:alicf")));
    assert!(!OwnerFilter::User("user:alice".into()).admits(Some("user:alic")));
}

#[test]
fn refusals_tell_the_tier() {
    for capability in [
        Capability::Admin,
        Capability::UserManagement,
        Capability::NormalRead,
        Capability::NormalWrite,
        Capability::SkipAdmissionChain,
    ] {
        for multi_user in [false, true] {
            assert_eq!(AuthLevel::Root.authorize(capability, multi_user), Ok(()));
            if let Err(e) = AuthLevel::Anonymous.authorize(capability, multi_user) {
                assert!(e.is_authentication_required());
            }
            if let Err(e) = AuthLevel::User.authorize(capability, multi_user) {
                assert!(!e.is_authentication_required());
            }
        }
    }
    for level in [AuthLevel::Anonymous, AuthLevel::Root, AuthLevel::User] {
        assert_eq!(level.authorize(Capability::NormalRead, true), Ok(()));
        assert_eq!(level.authorize(Capability::NormalWrite, true), Ok(()));
    }
}

#[test]
fn user_management_is_refused_alike_in_both_modes() {
    for level in [AuthLevel::Anonymous, AuthLevel::Root, AuthLevel::User] {
        assert_eq!(
            level.authorize(Capability::UserManagement, false),
            level.authorize(Capability::UserManagement, true)
        );
    }
}

#[test]
fn errors_give_their_message() {
    assert_eq!(AuthzError::Forbidden("no").message(), "no");
    assert_eq!(AuthzError::AuthenticationRequired("who").message(), "who");
    assert!(AuthzError::AuthenticationRequired("who").is_authentication_required());
    assert!(!AuthzError::Forbidden("no").is_authentication_required());
}

#[test]
fn skip_lists_are_clean() {
    assert_eq!(
        parse_skip_admission_chain(Some(",, mirror\t,\u{a0}audit log\u{a0},,")),
        vec!["mirror".to_string(), "audit log".to_string()]
    );
    assert!(parse_skip_admission_chain(Some("")).is_empty());
    assert!(parse_skip_admission_chain(Some(" , ,")).is_empty());
    assert_eq!(parse_skip_admission_chain(Some("a")), vec!["a".to_string()]);
    assert_eq!(SKIP_ADMISSION_CHAIN_HEADER, "x-memory-skip-admission-chain");
}

#[test]
fn joined_names_read_back_as_the_list() {
    let names = vec!["mirror".to_string(), "é webhook".to_string(), "b".to_string()];
    assert_eq!(parse_skip_admission_chain(Some(&names.join(","))), names);
    assert_eq!(
        skip_admission_chain_for(AuthLevel::Root, Some(&names.join(","))),
        names
    );
    assert!(skip_admission_chain_for(AuthLevel::User, Some(&names.join(","))).is_empty());
    assert!(skip_admission_chain_for(AuthLevel::Anonymous, None).is_empty());
}
