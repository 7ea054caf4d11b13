use did_reputation::did::{
    transition, IdentityError, IdentityState, Operation, SubmitError, DID,
};

fn anchored() -> Result<String, SubmitError> {
    Ok("0xabc".to_string())
}

#[test]
fn state_machine_table() {
    assert_eq!(transition(IdentityState::Unregistered, Operation::Register), Ok(IdentityState::Registered));
    assert_eq!(transition(IdentityState::Registered, Operation::Register), Err(IdentityError::AlreadyRegistered));
    assert_eq!(transition(IdentityState::Updated, Operation::Register), Err(IdentityError::AlreadyRegistered));
    assert_eq!(transition(IdentityState::Revoked, Operation::Register), Err(IdentityError::InvalidState));
    assert_eq!(transition(IdentityState::Unregistered, Operation::Update), Err(IdentityError::InvalidState));
    assert_eq!(transition(IdentityState::Registered, Operation::Update), Ok(IdentityState::Updated));
    assert_eq!(transition(IdentityState::Updated, Operation::Update), Ok(IdentityState::Updated));
    assert_eq!(transition(IdentityState::Revoked, Operation::Update), Err(IdentityError::InvalidState));
    assert_eq!(transition(IdentityState::Unregistered, Operation::Revoke), Err(IdentityError::InvalidState));
    assert_eq!(transition(IdentityState::Registered, Operation::Revoke), Ok(IdentityState::Revoked));
    assert_eq!(transition(IdentityState::Updated, Operation::Revoke), Ok(IdentityState::Revoked));
    assert_eq!(transition(IdentityState::Revoked, Operation::Revoke), Err(IdentityError::InvalidState));
}

#[test]
fn generated_identifier_has_the_expected_shape() {
    let did = DID::generate_did();
    assert_eq!(did.len(), 48);
    assert!(did.starts_with("did:example:"));
    let uuid: Vec<char> = did["did:example:".len()..].chars().collect();
    assert_eq!(uuid.len(), 36);
    for (i, c) in uuid.iter().enumerate() {
        if i == 8 || i == 13 || i == 18 || i == 23 {
            assert_eq!(*c, '-');
        } else {
            assert!(c.is_ascii_digit() || ('a'..='f').contains(c));
        }
    }
}

#[test]
fn generated_identifiers_differ() {
    let a = DID::generate_did();
    let b = DID::generate_did();
    let c = DID::generate_did();
    assert_ne!(a, b);
    assert_ne!(a, c);
    assert_ne!(b, c);
}

#[test]
fn generating_does_not_register() {
    let registry = DID::new();
    let did = DID::generate_did();
    assert_eq!(registry.state_of(&did), IdentityState::Unregistered);
    assert!(registry.lookup(&did).is_none());
}

#[test]
fn register_update_revoke() {
    let mut registry = DID::new();
    let did = "did:example:123";
    assert_eq!(registry.state_of(did), IdentityState::Unregistered);
    assert_eq!(registry.register_did(did, 10, anchored()), Ok(()));
    assert_eq!(registry.state_of(did), IdentityState::Registered);
    assert_eq!(registry.update_did(did, 20, anchored()), Ok(()));
    assert_eq!(registry.state_of(did), IdentityState::Updated);
    assert_eq!(registry.update_did(did, 30, anchored()), Ok(()));
    assert_eq!(registry.state_of(did), IdentityState::Updated);
    assert_eq!(registry.revoke_did(did, 40, anchored()), Ok(()));
    assert_eq!(registry.state_of(did), IdentityState::Revoked);
}

#[test]
fn lookup_gives_the_record() {
    let mut registry = DID::new();
    let did = "did:example:123";
    assert!(registry.lookup(did).is_none());
    registry.register_did(did, 10, anchored()).unwrap();
    let record = registry.lookup(did).expect("a record after registration");
    assert_eq!(record.identifier, did);
    assert_eq!(record.state, IdentityState::Registered);
    assert_eq!(record.created_at, 10);
    assert_eq!(record.last_updated_at, 10);
    registry.update_did(did, 25, anchored()).unwrap();
    let record = registry.lookup(did).expect("a record after the update");
    assert_eq!(record.state, IdentityState::Updated);
    assert_eq!(record.created_at, 10);
    assert_eq!(record.last_updated_at, 25);
    registry.revoke_did(did, 31, anchored()).unwrap();
    let record = registry.lookup(did).expect("a record after revocation");
    assert_eq!(record.state, IdentityState::Revoked);
    assert_eq!(record.created_at, 10);
    assert_eq!(record.last_updated_at, 31);
    assert!(registry.lookup("did:example:124").is_none());
}

#[test]
fn registering_twice_is_refused() {
    let mut registry = DID::new();
    let did = "did:example:123";
    assert_eq!(registry.register_did(did, 10, anchored()), Ok(()));
    assert_eq!(registry.register_did(did, 20, anchored()), Err(IdentityError::AlreadyRegistered));
    assert_eq!(
        registry.register_did(did, 20, Err(SubmitError::Permanent)),
        Err(IdentityError::AlreadyRegistered)
    );
    let record = registry.lookup(did).unwrap();
    assert_eq!(record.state, IdentityState::Registered);
    assert_eq!(record.created_at, 10);
    assert_eq!(record.last_updated_at, 10);
    registry.update_did(did, 30, anchored()).unwrap();
    assert_eq!(registry.register_did(did, 40, anchored()), Err(IdentityError::AlreadyRegistered));
    assert_eq!(registry.state_of(did), IdentityState::Updated);
}

#[test]
fn failed_anchoring_changes_nothing() {
    let mut registry = DID::new();
    let did = "did:example:123";
    assert_eq!(
        registry.register_did(did, 10, Err(SubmitError::Transient)),
        Err(IdentityError::AnchorFailed)
    );
    assert_eq!(registry.state_of(did), IdentityState::Unregistered);
    assert!(registry.lookup(did).is_none());
    assert_eq!(
        registry.register_did(did, 11, Err(SubmitError::Permanent)),
        Err(IdentityError::AnchorFailed)
    );
    assert!(registry.lookup(did).is_none());
    assert_eq!(registry.register_did(did, 12, anchored()), Ok(()));
    assert_eq!(
        registry.update_did(did, 20, Err(SubmitError::Transient)),
        Err(IdentityError::AnchorFailed)
    );
    assert_eq!(
        registry.revoke_did(did, 21, Err(SubmitError::Permanent)),
        Err(IdentityError::AnchorFailed)
    );
    let record = registry.lookup(did).unwrap();
    assert_eq!(record.state, IdentityState::Registered);
    assert_eq!(record.created_at, 12);
    assert_eq!(record.last_updated_at, 12);
}

#[test]
fn unregistered_identifier_can_only_be_registered() {
    let mut registry = DID::new();
    let did = "did:example:123";
    assert_eq!(registry.update_did(did, 10, anchored()), Err(IdentityError::InvalidState));
    assert_eq!(registry.revoke_did(did, 10, anchored()), Err(IdentityError::InvalidState));
    assert!(registry.lookup(did).is_none());
}

#[test]
fn revoked_identifier_accepts_nothing() {
    let mut registry = DID::new();
    let did = "did:example:123";
    registry.register_did(did, 10, anchored()).unwrap();
    registry.revoke_did(did, 20, anchored()).unwrap();
    assert_eq!(registry.update_did(did, 30, anchored()), Err(IdentityError::InvalidState));
    assert_eq!(registry.register_did(did, 30, anchored()), Err(IdentityError::InvalidState));
    assert_eq!(registry.revoke_did(did, 30, anchored()), Err(IdentityError::InvalidState));
    assert_eq!(
        registry.update_did(did, 30, Err(SubmitError::Transient)),
        Err(IdentityError::InvalidState)
    );
    let record = registry.lookup(did).unwrap();
    assert_eq!(record.state, IdentityState::Revoked);
    assert_eq!(record.last_updated_at, 20);
}

#[test]
fn of_two_revocations_one_succeeds() {
    let mut registry = DID::new();
    let did = "did:example:123";
    registry.register_did(did, 10, anchored()).unwrap();
    let first = registry.revoke_did(did, 20, anchored());
    let second = registry.revoke_did(did, 20, anchored());
    assert_eq!(first, Ok(()));
    assert_eq!(second, Err(IdentityError::InvalidState));
    assert_eq!(registry.state_of(did), IdentityState::Revoked);
}

#[test]
fn check_answers_without_changing() {
    let mut registry = DID::new();
    let did = "did:example:123";
    assert_eq!(registry.check(Operation::Register, did), Ok(()));
    assert_eq!(registry.check(Operation::Update, did), Err(IdentityError::InvalidState));
    assert_eq!(registry.state_of(did), IdentityState::Unregistered);
    registry.apply(Operation::Register, did, 1, anchored()).unwrap();
    assert_eq!(registry.check(Operation::Register, did), Err(IdentityError::AlreadyRegistered));
    assert_eq!(registry.check(Operation::Update, did), Ok(()));
    assert_eq!(registry.check(Operation::Revoke, did), Ok(()));
    assert_eq!(registry.state_of(did), IdentityState::Registered);
}

#[test]
fn identifiers_are_independent() {
    let mut registry = DID::new();
    registry.register_did("did:example:a", 1, anchored()).unwrap();
    registry.register_did("did:example:b", 2, anchored()).unwrap();
    registry.revoke_did("did:example:a", 3, anchored()).unwrap();
    assert_eq!(registry.state_of("did:example:a"), IdentityState::Revoked);
    assert_eq!(registry.state_of("did:example:b"), IdentityState::Registered);
    assert_eq!(registry.update_did("did:example:b", 4, anchored()), Ok(()));
    assert_eq!(registry.state_of("did:example:"), IdentityState::Unregistered);
}

#[test]
fn a_clock_that_runs_back_does_not_move_the_last_update_back() {
    let mut registry = DID::new();
    let did = "did:example:123";
    registry.register_did(did, 100, anchored()).unwrap();
    registry.update_did(did, 50, anchored()).unwrap();
    let record = registry.lookup(did).unwrap();
    assert_eq!(record.state, IdentityState::Updated);
    assert_eq!(record.created_at, 100);
    assert_eq!(record.last_updated_at, 100);
    registry.update_did(did, 150, anchored()).unwrap();
    assert_eq!(registry.lookup(did).unwrap().last_updated_at, 150);
    registry.revoke_did(did, 0, anchored()).unwrap();
    let record = registry.lookup(did).unwrap();
    assert_eq!(record.state, IdentityState::Revoked);
    assert_eq!(record.created_at, 100);
    assert_eq!(record.last_updated_at, 150);
}

#[test]
fn of_two_revocations_the_second_succeeds_where_the_ledger_failed_the_first() {
    let mut registry = DID::new();
    let did = "did:example:123";
    registry.register_did(did, 10, anchored()).unwrap();
    let first = registry.revoke_did(did, 20, Err(SubmitError::Transient));
    let second = registry.revoke_did(did, 21, anchored());
    assert_eq!(first, Err(IdentityError::AnchorFailed));
    assert_eq!(second, Ok(()));
    assert_eq!(registry.state_of(did), IdentityState::Revoked);
    assert_eq!(registry.lookup(did).unwrap().last_updated_at, 21);
}

#[test]
fn of_two_revocations_none_succeeds_where_the_ledger_failed_both() {
    let mut registry = DID::new();
    let did = "did:example:123";
    registry.register_did(did, 10, anchored()).unwrap();
    let first = registry.revoke_did(did, 20, Err(SubmitError::Transient));
    let second = registry.revoke_did(did, 21, Err(SubmitError::Permanent));
    assert_eq!(first, Err(IdentityError::AnchorFailed));
    assert_eq!(second, Err(IdentityError::AnchorFailed));
    assert_eq!(registry.state_of(did), IdentityState::Registered);
    assert_eq!(registry.lookup(did).unwrap().last_updated_at, 10);
}
