use did_reputation::did::{IdentityError, IdentityState, Operation, SubmitError};
use did_reputation::privacy::{ConfigError, CryptoError};
use did_reputation::string_map::StringMap;
use did_reputation::Lib;

fn anchored() -> Result<String, SubmitError> {
    Ok("0xabc".to_string())
}

fn table(pairs: &[(&str, i32)]) -> StringMap<i32> {
    let mut m = StringMap::new();
    for (key, value) in pairs {
        m.insert(key.to_string(), *value);
    }
    m
}

fn fixed_lib() -> Lib {
    match Lib::with_key_material(Some(vec![0; 32]), Some(vec![0; 16])) {
        Ok(lib) => lib,
        Err(_) => panic!("key material of the right length"),
    }
}

#[test]
fn new_core_is_empty() {
    let lib = Lib::new();
    assert!(lib.lookup("did:example:1").is_none());
    assert_eq!(lib.verify_score("did:example:1".to_string()), 0);
    assert_eq!(lib.attribute("did:example:1", "email"), None);
    assert_eq!(lib.verify("did:example:1"), Err(IdentityError::IdentityNotFound));
}

#[test]
fn wrong_key_material_makes_no_core() {
    assert!(matches!(
        Lib::with_key_material(Some(vec![0; 31]), Some(vec![0; 16])),
        Err(ConfigError::InvalidKeyMaterial)
    ));
    assert!(matches!(
        Lib::with_key_material(Some(vec![0; 32]), Some(vec![0; 17])),
        Err(ConfigError::InvalidKeyMaterial)
    ));
    assert!(Lib::with_key_material(None, None).is_ok());
}

#[test]
fn generated_identifier_can_be_registered() {
    let mut lib = Lib::new();
    let did = lib.generate_did();
    assert!(did.starts_with("did:example:"));
    assert_eq!(did.len(), 48);
    assert_eq!(lib.check(Operation::Register, &did), Ok(()));
    assert_eq!(lib.register_did(did.clone(), 5, anchored()), Ok(()));
    assert_eq!(lib.verify(&did), Ok((IdentityState::Registered, 0)));
}

#[test]
fn unknown_did_has_score_zero() {
    let lib = Lib::new();
    assert_eq!(lib.verify_score("unknown-did".to_string()), 0);
}

#[test]
fn facade_calculates_like_the_engine() {
    let lib = Lib::new();
    assert_eq!(lib.calculate_score(table(&[("a", 10), ("b", 20)]), table(&[("f1", 5), ("f2", 3)])), 46);
    assert_eq!(lib.calculate_score(table(&[("a", -1000)]), StringMap::new()), 0);
}

#[test]
fn attest_records_the_score() {
    let mut lib = Lib::new();
    let did = "did:example:1";
    lib.register_did(did.to_string(), 1, anchored()).unwrap();
    assert_eq!(lib.attest(did, table(&[("a", 10), ("b", 20)]), table(&[("f1", 5), ("f2", 3)])), Ok(46));
    assert_eq!(lib.verify_score(did.to_string()), 46);
    assert_eq!(lib.verify(did), Ok((IdentityState::Registered, 46)));
    assert_eq!(lib.attest(did, table(&[("a", -5)]), StringMap::new()), Ok(0));
    assert_eq!(lib.verify(did), Ok((IdentityState::Registered, 0)));
    lib.update_did(did.to_string(), 2, anchored()).unwrap();
    assert_eq!(lib.attest(did, table(&[("a", 7)]), StringMap::new()), Ok(7));
    assert_eq!(lib.verify(did), Ok((IdentityState::Updated, 7)));
}

#[test]
fn attest_needs_a_record() {
    let mut lib = Lib::new();
    assert_eq!(
        lib.attest("did:example:1", table(&[("a", 10)]), StringMap::new()),
        Err(IdentityError::IdentityNotFound)
    );
    assert_eq!(lib.verify_score("did:example:1".to_string()), 0);
    assert_eq!(
        lib.put_attribute("did:example:1", "email", "a@example.org"),
        Err(IdentityError::IdentityNotFound)
    );
    assert_eq!(lib.attribute("did:example:1", "email"), None);
}

#[test]
fn revoked_identifier_keeps_score_and_attributes() {
    let mut lib = fixed_lib();
    let did = "did:example:1";
    lib.register_did(did.to_string(), 1, anchored()).unwrap();
    lib.attest(did, table(&[("a", 10), ("b", 20)]), table(&[("f1", 5), ("f2", 3)])).unwrap();
    lib.put_attribute(did, "email", "a@example.org").unwrap();
    let blob = lib.attribute(did, "email");
    assert!(blob.is_some());
    assert_eq!(lib.revoke_did(did.to_string(), 2, anchored()), Ok(()));

    assert_eq!(lib.update_did(did.to_string(), 3, anchored()), Err(IdentityError::InvalidState));
    assert_eq!(lib.attest(did, table(&[("a", 1)]), StringMap::new()), Err(IdentityError::InvalidState));
    assert_eq!(lib.put_attribute(did, "email", "b@example.org"), Err(IdentityError::InvalidState));
    assert_eq!(lib.put_attribute(did, "phone", "1234"), Err(IdentityError::InvalidState));

    assert_eq!(lib.verify(did), Ok((IdentityState::Revoked, 46)));
    assert_eq!(lib.verify_score(did.to_string()), 46);
    assert_eq!(lib.attribute(did, "email"), blob);
    assert_eq!(lib.attribute(did, "phone"), None);
    let record = lib.lookup(did).unwrap();
    assert_eq!(record.state, IdentityState::Revoked);
    assert_eq!(record.last_updated_at, 2);
}

#[test]
fn two_revocations_through_the_facade() {
    let mut lib = Lib::new();
    let did = "did:example:1";
    lib.register_did(did.to_string(), 1, anchored()).unwrap();
    let results = [
        lib.revoke_did(did.to_string(), 2, anchored()),
        lib.revoke_did(did.to_string(), 2, anchored()),
    ];
    assert_eq!(results.iter().filter(|r| r.is_ok()).count(), 1);
    assert_eq!(results.iter().filter(|r| **r == Err(IdentityError::InvalidState)).count(), 1);
    assert_eq!(lib.verify(did), Ok((IdentityState::Revoked, 0)));
}

#[test]
fn registering_twice_through_the_facade() {
    let mut lib = Lib::new();
    let did = "did:example:1";
    assert_eq!(lib.register_did(did.to_string(), 1, anchored()), Ok(()));
    assert_eq!(lib.register_did(did.to_string(), 2, anchored()), Err(IdentityError::AlreadyRegistered));
    assert_eq!(lib.verify(did), Ok((IdentityState::Registered, 0)));
    assert_eq!(lib.lookup(did).unwrap().created_at, 1);
}

#[test]
fn failed_anchoring_through_the_facade() {
    let mut lib = Lib::new();
    let did = "did:example:1";
    assert_eq!(
        lib.register_did(did.to_string(), 1, Err(SubmitError::Permanent)),
        Err(IdentityError::AnchorFailed)
    );
    assert_eq!(lib.verify(did), Err(IdentityError::IdentityNotFound));
}

#[test]
fn attributes_are_stored_encrypted() {
    let mut lib = fixed_lib();
    let did = "did:example:1";
    lib.register_did(did.to_string(), 1, anchored()).unwrap();
    assert_eq!(lib.put_attribute(did, "email", "a@example.org"), Ok(()));
    assert_eq!(lib.put_attribute(did, "phone", "1234"), Ok(()));
    let email = lib.attribute(did, "email").expect("stored");
    let phone = lib.attribute(did, "phone").expect("stored");
    assert_ne!(email, "a@example.org");
    assert_eq!(Ok(email.clone()), lib.encrypt_data("a@example.org".to_string()));
    assert_eq!(lib.decrypt_data(email), Ok("a@example.org".to_string()));
    assert_eq!(lib.decrypt_data(phone), Ok("1234".to_string()));
    assert_eq!(lib.attribute(did, "address"), None);
    assert_eq!(lib.attribute("did:example:2", "email"), None);
    assert_eq!(lib.put_attribute(did, "email", "b@example.org"), Ok(()));
    let email = lib.attribute(did, "email").expect("stored");
    assert_eq!(lib.decrypt_data(email), Ok("b@example.org".to_string()));
    let phone = lib.attribute(did, "phone").expect("still stored");
    assert_eq!(lib.decrypt_data(phone), Ok("1234".to_string()));
}

#[test]
fn attributes_are_kept_per_identifier() {
    let mut lib = Lib::new();
    lib.register_did("did:example:1".to_string(), 1, anchored()).unwrap();
    lib.register_did("did:example:2".to_string(), 1, anchored()).unwrap();
    lib.put_attribute("did:example:1", "email", "one@example.org").unwrap();
    lib.put_attribute("did:example:2", "email", "two@example.org").unwrap();
    let one = lib.attribute("did:example:1", "email").unwrap();
    let two = lib.attribute("did:example:2", "email").unwrap();
    assert_eq!(lib.decrypt_data(one), Ok("one@example.org".to_string()));
    assert_eq!(lib.decrypt_data(two), Ok("two@example.org".to_string()));
}

#[test]
fn facade_round_trip() {
    let lib = Lib::new();
    let text = lib.encrypt_data("Hello, world!".to_string()).expect("encryption succeeds");
    assert_eq!(lib.decrypt_data(text), Ok("Hello, world!".to_string()));
    assert_eq!(lib.decrypt_data("???".to_string()), Err(CryptoError::DecodeError));
}

#[test]
fn facade_decryption_fails_early_like_the_layer() {
    let lib = Lib::new();
    assert_eq!(lib.decrypt_data("AAAA".to_string()), Err(CryptoError::DecryptionFailed));
    assert_eq!(lib.decrypt_data("not*base64!".to_string()), Err(CryptoError::DecodeError));
    assert_eq!(lib.encrypt_data("Hello, world!".to_string()).unwrap().len(), 24);
}
