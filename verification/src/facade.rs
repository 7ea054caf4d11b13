//! The facade: the registry, the scoring engine and the confidentiality layer
//! behind one value, which keeps scores and encrypted attributes in step with
//! the lifecycle of the identifiers they belong to.

use crate::did::{
    outcome, records_after, state_in, IdentifierRecord, IdentityError, IdentityState, Lifecycle,
    Operation, SubmitError, DID,
};
use crate::identifier::{is_generated_did, is_identifier, is_well_formed};
use crate::privacy::{
    decrypted_text, early_failure, encrypted, is_encryption_of, valid_key_material, ConfigError,
    CryptoError, Privacy, IV_LEN, KEY_LEN,
};
use crate::reputation::{score_of, Reputation, MAX_SCORE};
use crate::string_map::StringMap;
use vstd::prelude::*;
use vstd::utf8::encode_utf8;

verus! {

/// What `op` on `did` answers at the facade. A string that does not have the
/// form of an identifier is refused registration before anything else is
/// looked at; everything else is the registry's answer.
pub open spec fn admitted(
    records: Map<Seq<char>, Lifecycle>,
    op: Operation,
    did: Seq<char>,
    anchored: bool,
) -> Result<(), IdentityError> {
    if op == Operation::Register && !is_identifier(did) {
        Err(IdentityError::MalformedIdentifier)
    } else {
        outcome(records, op, did, anchored)
    }
}

/// The records after `op` on `did` at the facade: changed only where
/// `admitted` is `Ok`.
pub open spec fn admitted_records(
    records: Map<Seq<char>, Lifecycle>,
    op: Operation,
    did: Seq<char>,
    now: u64,
    anchored: bool,
) -> Map<Seq<char>, Lifecycle> {
    if op == Operation::Register && !is_identifier(did) {
        records
    } else {
        records_after(records, op, did, now, anchored)
    }
}

/// Registering an identifier that has just been registered fails with
/// `AlreadyRegistered`, whatever the ledger says, and the identifier stays
/// registered, with its record unchanged.
pub proof fn lemma_register_twice_is_refused(
    records: Map<Seq<char>, Lifecycle>,
    did: Seq<char>,
    first: u64,
    second: u64,
    anchored: bool,
)
    requires
        admitted(records, Operation::Register, did, true) is Ok,
    ensures
        ({
            let registered = admitted_records(records, Operation::Register, did, first, true);
            &&& state_in(registered, did) == IdentityState::Registered
            &&& admitted(registered, Operation::Register, did, anchored) == Err::<
                (),
                IdentityError,
            >(IdentityError::AlreadyRegistered)
            &&& admitted_records(registered, Operation::Register, did, second, anchored)
                == registered
        }),
{
}

/// Whether the score and the attributes of `did` may be changed: only while
/// `did` is registered and not revoked.
pub open spec fn mutation_allowed(records: Map<Seq<char>, Lifecycle>, did: Seq<char>) -> Result<
    (),
    IdentityError,
> {
    match state_in(records, did) {
        IdentityState::Unregistered => Err(IdentityError::IdentityNotFound),
        IdentityState::Revoked => Err(IdentityError::InvalidState),
        _ => Ok(()),
    }
}

/// The scores after an attestation that computed `score` for `did`.
pub open spec fn scores_after_attest(
    records: Map<Seq<char>, Lifecycle>,
    scores: Map<Seq<char>, i32>,
    did: Seq<char>,
    score: i32,
) -> Map<Seq<char>, i32> {
    if mutation_allowed(records, did) is Ok {
        scores.insert(did, score)
    } else {
        scores
    }
}

/// The encrypted attributes after `ciphertext` was to be stored for `did`
/// under `namespace`.
pub open spec fn blobs_after_put(
    records: Map<Seq<char>, Lifecycle>,
    blobs: Map<(Seq<char>, Seq<char>), Seq<char>>,
    did: Seq<char>,
    namespace: Seq<char>,
    ciphertext: Seq<char>,
) -> Map<(Seq<char>, Seq<char>), Seq<char>> {
    if mutation_allowed(records, did) is Ok {
        blobs.insert((did, namespace), ciphertext)
    } else {
        blobs
    }
}

/// Once an identifier is revoked, updating it, attesting a score for it and
/// storing an attribute for it all fail with `InvalidState`, and its score and
/// its attributes stay what they were.
pub proof fn lemma_revoked_rejects_mutation(
    records: Map<Seq<char>, Lifecycle>,
    scores: Map<Seq<char>, i32>,
    blobs: Map<(Seq<char>, Seq<char>), Seq<char>>,
    did: Seq<char>,
    revoked_at: u64,
    now: u64,
    anchored: bool,
    score: i32,
    namespace: Seq<char>,
    ciphertext: Seq<char>,
)
    requires
        admitted(records, Operation::Revoke, did, true) is Ok,
    ensures
        ({
            let revoked = admitted_records(records, Operation::Revoke, did, revoked_at, true);
            &&& state_in(revoked, did) == IdentityState::Revoked
            &&& admitted(revoked, Operation::Update, did, anchored) == Err::<(), IdentityError>(
                IdentityError::InvalidState,
            )
            &&& admitted_records(revoked, Operation::Update, did, now, anchored) == revoked
            &&& mutation_allowed(revoked, did) == Err::<(), IdentityError>(
                IdentityError::InvalidState,
            )
            &&& scores_after_attest(revoked, scores, did, score) == scores
            &&& blobs_after_put(revoked, blobs, did, namespace, ciphertext) == blobs
        }),
{
}

/// What holds of the core at all times: every record is kept under a string
/// that has the form of an identifier, and every score and every attribute
/// belongs to an identifier that has a record.
pub open spec fn consistent(
    records: Map<Seq<char>, Lifecycle>,
    scores: Map<Seq<char>, i32>,
    blobs: Map<(Seq<char>, Seq<char>), Seq<char>>,
) -> bool {
    &&& forall|did: Seq<char>| #[trigger] records.contains_key(did) ==> is_identifier(did)
    &&& forall|did: Seq<char>| #[trigger] scores.contains_key(did) ==> records.contains_key(did)
    &&& forall|k: (Seq<char>, Seq<char>)| #[trigger]
        blobs.contains_key(k) ==> records.contains_key(k.0)
}

/// No operation breaks the consistency of the core: not a transition, not an
/// attestation, not the storing of an attribute, whether it succeeds or fails.
pub proof fn lemma_operations_keep_consistency(
    records: Map<Seq<char>, Lifecycle>,
    scores: Map<Seq<char>, i32>,
    blobs: Map<(Seq<char>, Seq<char>), Seq<char>>,
    op: Operation,
    did: Seq<char>,
    now: u64,
    anchored: bool,
    score: i32,
    namespace: Seq<char>,
    ciphertext: Seq<char>,
)
    requires
        consistent(records, scores, blobs),
    ensures
        consistent(admitted_records(records, op, did, now, anchored), scores, blobs),
        consistent(records, scores_after_attest(records, scores, did, score), blobs),
        consistent(records, scores, blobs_after_put(records, blobs, did, namespace, ciphertext)),
{
    let after = admitted_records(records, op, did, now, anchored);
    assert forall|other: Seq<char>| #[trigger] after.contains_key(other) implies is_identifier(
        other,
    ) by {
        if other != did {
            assert(records.contains_key(other));
        } else if !records.contains_key(did) {
            assert(op == Operation::Register);
        }
    }
    assert forall|k: (Seq<char>, Seq<char>)| #[trigger]
        blobs.contains_key(k) implies after.contains_key(k.0) by {
        assert(records.contains_key(k.0));
    }
    let put = blobs_after_put(records, blobs, did, namespace, ciphertext);
    assert forall|k: (Seq<char>, Seq<char>)| #[trigger]
        put.contains_key(k) implies records.contains_key(k.0) by {
        if k != (did, namespace) {
            assert(blobs.contains_key(k));
        }
    }
}

/// The reputation core: identifiers, their scores and their encrypted attributes.
pub struct Lib {
    did_module: DID,
    reputation_module: Reputation,
    privacy_module: Privacy,
    attribute_blobs: StringMap<StringMap<String>>,
}

impl Lib {
    #[verifier::type_invariant]
    spec fn well_formed(&self) -> bool {
        consistent(self.records(), self.scores(), self.blobs())
    }

    /// The records of the registry.
    pub closed spec fn records(&self) -> Map<Seq<char>, Lifecycle> {
        self.did_module@
    }

    /// The scores on record.
    pub closed spec fn scores(&self) -> Map<Seq<char>, i32> {
        self.reputation_module@
    }

    /// The encrypted attributes, by identifier and namespace.
    pub closed spec fn blobs(&self) -> Map<(Seq<char>, Seq<char>), Seq<char>> {
        Map::new(
            |k: (Seq<char>, Seq<char>)|
                self.attribute_blobs@.contains_key(k.0) && self.attribute_blobs@[k.0]@.contains_key(
                    k.1,
                ),
            |k: (Seq<char>, Seq<char>)| self.attribute_blobs@[k.0]@[k.1]@,
        )
    }

    /// The key of the confidentiality layer.
    pub closed spec fn key(&self) -> Seq<u8> {
        self.privacy_module.key()
    }

    /// The initialisation vector of the confidentiality layer.
    pub closed spec fn iv(&self) -> Seq<u8> {
        self.privacy_module.iv()
    }

    /// An empty core with key material drawn at random.
    pub fn new() -> (lib: Lib)
        ensures
            lib.records() == Map::<Seq<char>, Lifecycle>::empty(),
            lib.scores() == Map::<Seq<char>, i32>::empty(),
            lib.blobs() == Map::<(Seq<char>, Seq<char>), Seq<char>>::empty(),
            lib.key().len() == KEY_LEN,
            lib.iv().len() == IV_LEN,
            consistent(lib.records(), lib.scores(), lib.blobs()),
    {
        let lib = Lib {
            did_module: DID::new(),
            reputation_module: Reputation::new(),
            privacy_module: Privacy::generate(),
            attribute_blobs: StringMap::new(),
        };
        assert(lib.blobs() =~= Map::<(Seq<char>, Seq<char>), Seq<char>>::empty());
        lib
    }

    /// An empty core with the key material given; what is not given is drawn
    /// at random. Key material of the wrong length is refused.
    pub fn with_key_material(key: Option<Vec<u8>>, iv: Option<Vec<u8>>) -> (r: Result<
        Lib,
        ConfigError,
    >)
        ensures
            r is Ok <==> valid_key_material(key, iv),
            r matches Err(e) ==> e == ConfigError::InvalidKeyMaterial,
            r matches Ok(lib) ==> {
                &&& lib.records() == Map::<Seq<char>, Lifecycle>::empty()
                &&& lib.scores() == Map::<Seq<char>, i32>::empty()
                &&& lib.blobs() == Map::<(Seq<char>, Seq<char>), Seq<char>>::empty()
                &&& lib.key().len() == KEY_LEN
                &&& lib.iv().len() == IV_LEN
                &&& key matches Some(k) ==> lib.key() == k@
                &&& iv matches Some(i) ==> lib.iv() == i@
                &&& consistent(lib.records(), lib.scores(), lib.blobs())
            },
    {
        let privacy_module = match Privacy::new(key, iv) {
            Ok(p) => p,
            Err(e) => {
                return Err(e);
            },
        };
        let lib = Lib {
            did_module: DID::new(),
            reputation_module: Reputation::new(),
            privacy_module,
            attribute_blobs: StringMap::new(),
        };
        assert(lib.blobs() =~= Map::<(Seq<char>, Seq<char>), Seq<char>>::empty());
        Ok(lib)
    }

    /// A new identifier, made of 16 bytes drawn at random. It is not registered yet.
    pub fn generate_did(&self) -> (did: String)
        ensures
            is_generated_did(did@),
            is_identifier(did@),
    {
        DID::generate_did()
    }

    /// Whether `op` on `did` would be accepted. Nothing is changed: this is the
    /// question to ask before the transition is submitted to the ledger.
    pub fn check(&self, op: Operation, did: &str) -> (r: Result<(), IdentityError>)
        ensures
            r == admitted(self.records(), op, did@, true),
    {
        match op {
            Operation::Register => {
                if !is_well_formed(did) {
                    return Err(IdentityError::MalformedIdentifier);
                }
            },
            _ => {},
        }
        self.did_module.check(op, did)
    }

    /// Carries out `op` on `did` at time `now`, given what the ledger answered
    /// to the submission of this transition. Where `op` is refused or the
    /// ledger failed, nothing is changed. Scores and attributes are never
    /// touched.
    pub fn apply(
        &mut self,
        op: Operation,
        did: &str,
        now: u64,
        anchor: Result<String, SubmitError>,
    ) -> (r: Result<(), IdentityError>)
        ensures
            r == admitted(old(self).records(), op, did@, anchor is Ok),
            final(self).records() == admitted_records(
                old(self).records(),
                op,
                did@,
                now,
                anchor is Ok,
            ),
            final(self).scores() == old(self).scores(),
            final(self).blobs() == old(self).blobs(),
            final(self).key() == old(self).key(),
            final(self).iv() == old(self).iv(),
            consistent(final(self).records(), final(self).scores(), final(self).blobs()),
    {
        proof {
            use_type_invariant(&*self);
        }
        match op {
            Operation::Register => {
                if !is_well_formed(did) {
                    return Err(IdentityError::MalformedIdentifier);
                }
            },
            _ => {},
        }
        let ghost records = self.records();
        let ghost scores = self.scores();
        let ghost blobs = self.blobs();
        proof {
            lemma_operations_keep_consistency(
                records,
                scores,
                blobs,
                op,
                did@,
                now,
                anchor is Ok,
                0,
                did@,
                did@,
            );
        }
        // The registry is changed outside the core, with scores and attributes
        // set aside, so that the core is consistent at every step.
        let mut reputation_module = Reputation::new();
        std::mem::swap(&mut reputation_module, &mut self.reputation_module);
        let mut attribute_blobs: StringMap<StringMap<String>> = StringMap::new();
        std::mem::swap(&mut attribute_blobs, &mut self.attribute_blobs);
        let mut did_module = DID::new();
        std::mem::swap(&mut did_module, &mut self.did_module);
        let r = did_module.apply(op, did, now, anchor);
        self.did_module = did_module;
        self.reputation_module = reputation_module;
        self.attribute_blobs = attribute_blobs;
        assert(self.blobs() =~= blobs);
        r
    }

    /// Registers `did` at time `now`, given what the ledger answered to the
    /// submission.
    pub fn register_did(
        &mut self,
        did: String,
        now: u64,
        anchor: Result<String, SubmitError>,
    ) -> (r: Result<(), IdentityError>)
        ensures
            r == admitted(old(self).records(), Operation::Register, did@, anchor is Ok),
            final(self).records() == admitted_records(
                old(self).records(),
                Operation::Register,
                did@,
                now,
                anchor is Ok,
            ),
            final(self).scores() == old(self).scores(),
            final(self).blobs() == old(self).blobs(),
            final(self).key() == old(self).key(),
            final(self).iv() == old(self).iv(),
            consistent(final(self).records(), final(self).scores(), final(self).blobs()),
    {
        self.apply(Operation::Register, did.as_str(), now, anchor)
    }

    /// Updates `did` at time `now`, given what the ledger answered to the
    /// submission.
    pub fn update_did(
        &mut self,
        did: String,
        now: u64,
        anchor: Result<String, SubmitError>,
    ) -> (r: Result<(), IdentityError>)
        ensures
            r == admitted(old(self).records(), Operation::Update, did@, anchor is Ok),
            final(self).records() == admitted_records(
                old(self).records(),
                Operation::Update,
                did@,
                now,
                anchor is Ok,
            ),
            final(self).scores() == old(self).scores(),
            final(self).blobs() == old(self).blobs(),
            final(self).key() == old(self).key(),
            final(self).iv() == old(self).iv(),
            consistent(final(self).records(), final(self).scores(), final(self).blobs()),
    {
        self.apply(Operation::Update, did.as_str(), now, anchor)
    }

    /// Revokes `did` at time `now`, given what the ledger answered to the
    /// submission. Its score and its attributes stay on record as they are.
    pub fn revoke_did(
        &mut self,
        did: String,
        now: u64,
        anchor: Result<String, SubmitError>,
    ) -> (r: Result<(), IdentityError>)
        ensures
            r == admitted(old(self).records(), Operation::Revoke, did@, anchor is Ok),
            final(self).records() == admitted_records(
                old(self).records(),
                Operation::Revoke,
                did@,
                now,
                anchor is Ok,
            ),
            final(self).scores() == old(self).scores(),
            final(self).blobs() == old(self).blobs(),
            final(self).key() == old(self).key(),
            final(self).iv() == old(self).iv(),
            consistent(final(self).records(), final(self).scores(), final(self).blobs()),
    {
        self.apply(Operation::Revoke, did.as_str(), now, anchor)
    }

    /// The record of `did`, if the registry has one.
    pub fn lookup(&self, did: &str) -> (r: Option<IdentifierRecord>)
        ensures
            r is Some <==> self.records().contains_key(did@),
            r matches Some(record) ==> {
                &&& record.identifier@ == did@
                &&& record.state == self.records()[did@].state
                &&& record.created_at == self.records()[did@].created_at
                &&& record.last_updated_at == self.records()[did@].last_updated_at
                &&& record.state != IdentityState::Unregistered
                &&& record.created_at <= record.last_updated_at
                &&& is_identifier(did@)
            },
            consistent(self.records(), self.scores(), self.blobs()),
    {
        proof {
            use_type_invariant(self);
        }
        self.did_module.lookup(did)
    }

    /// Computes a score from observations and weighted factors. Nothing is recorded.
    pub fn calculate_score(
        &self,
        data: StringMap<i32>,
        additional_factors: StringMap<i32>,
    ) -> (score: i32)
        ensures
            score == score_of(data@, additional_factors@),
            0 <= score <= MAX_SCORE,
    {
        self.reputation_module.calculate_score(data, additional_factors)
    }

    /// The score on record for `did`, or 0 where there is none. It never fails:
    /// an identifier that the registry does not know has the score 0 too.
    pub fn verify_score(&self, did: String) -> (score: i32)
        ensures
            score == if self.scores().contains_key(did@) {
                self.scores()[did@]
            } else {
                0
            },
            0 <= score <= MAX_SCORE,
    {
        self.reputation_module.verify_score(did.as_str())
    }

    /// Computes the score of `did` from fresh observations and records it. The
    /// registry is asked first: without a record of `did` this fails with
    /// `IdentityNotFound`, for a revoked one with `InvalidState`, and then
    /// nothing is changed.
    pub fn attest(
        &mut self,
        did: &str,
        observations: StringMap<i32>,
        factors: StringMap<i32>,
    ) -> (r: Result<i32, IdentityError>)
        ensures
            match mutation_allowed(old(self).records(), did@) {
                Ok(_) => r == Ok::<i32, IdentityError>(score_of(observations@, factors@) as i32),
                Err(e) => r == Err::<i32, IdentityError>(e),
            },
            final(self).scores() == scores_after_attest(
                old(self).records(),
                old(self).scores(),
                did@,
                score_of(observations@, factors@) as i32,
            ),
            final(self).records() == old(self).records(),
            final(self).blobs() == old(self).blobs(),
            final(self).key() == old(self).key(),
            final(self).iv() == old(self).iv(),
            consistent(final(self).records(), final(self).scores(), final(self).blobs()),
    {
        proof {
            use_type_invariant(&*self);
        }
        match self.did_module.state_of(did) {
            IdentityState::Unregistered => Err(IdentityError::IdentityNotFound),
            IdentityState::Revoked => Err(IdentityError::InvalidState),
            _ => {
                let score = self.reputation_module.calculate_score(observations, factors);
                let mut reputation_module = Reputation::new();
                std::mem::swap(&mut reputation_module, &mut self.reputation_module);
                reputation_module.set_score(did.to_owned(), score);
                self.reputation_module = reputation_module;
                Ok(score)
            },
        }
    }

    /// The state and the score of `did`. Without a record of `did` this fails
    /// with `IdentityNotFound`; a record without a score has the score 0.
    pub fn verify(&self, did: &str) -> (r: Result<(IdentityState, i32), IdentityError>)
        ensures
            match r {
                Ok((state, score)) => {
                    &&& self.records().contains_key(did@)
                    &&& state == self.records()[did@].state
                    &&& state != IdentityState::Unregistered
                    &&& score == if self.scores().contains_key(did@) {
                        self.scores()[did@]
                    } else {
                        0
                    }
                },
                Err(e) => e == IdentityError::IdentityNotFound && !self.records().contains_key(
                    did@,
                ),
            },
            r is Ok ==> is_identifier(did@),
            consistent(self.records(), self.scores(), self.blobs()),
    {
        proof {
            use_type_invariant(self);
        }
        match self.did_module.lookup(did) {
            Some(record) => Ok((record.state, self.reputation_module.verify_score(did))),
            None => Err(IdentityError::IdentityNotFound),
        }
    }

    /// Encrypts `data` under the key material of this core.
    pub fn encrypt_data(&self, data: String) -> (r: Result<String, CryptoError>)
        ensures
            r matches Ok(text) && is_encryption_of(
                self.key(),
                self.iv(),
                encode_utf8(data@),
                text@,
            ),
            r matches Ok(text) && decrypted_text(self.key(), self.iv(), text@) == Ok::<
                Seq<char>,
                CryptoError,
            >(data@),
    {
        self.privacy_module.encrypt_data(data.as_str())
    }

    /// Turns text that `encrypt_data` made back into what was encrypted.
    pub fn decrypt_data(&self, data: String) -> (r: Result<String, CryptoError>)
        ensures
            match r {
                Ok(text) => decrypted_text(self.key(), self.iv(), data@) == Ok::<
                    Seq<char>,
                    CryptoError,
                >(text@),
                Err(e) => decrypted_text(self.key(), self.iv(), data@) == Err::<
                    Seq<char>,
                    CryptoError,
                >(e),
            },
            early_failure(data@) matches Some(e) ==> r == Err::<String, CryptoError>(e),
    {
        self.privacy_module.decrypt_data(data.as_str())
    }

    /// Encrypts `plaintext` and stores it as the attribute `namespace` of `did`,
    /// in place of what was stored there. The registry is asked first: without a
    /// record of `did` this fails with `IdentityNotFound`, for a revoked one
    /// with `InvalidState`, and then nothing is changed.
    pub fn put_attribute(&mut self, did: &str, namespace: &str, plaintext: &str) -> (r: Result<
        (),
        IdentityError,
    >)
        ensures
            r == mutation_allowed(old(self).records(), did@),
            final(self).blobs() == blobs_after_put(
                old(self).records(),
                old(self).blobs(),
                did@,
                namespace@,
                encrypted(old(self).key(), old(self).iv(), encode_utf8(plaintext@)),
            ),
            final(self).records() == old(self).records(),
            final(self).scores() == old(self).scores(),
            final(self).key() == old(self).key(),
            final(self).iv() == old(self).iv(),
            consistent(final(self).records(), final(self).scores(), final(self).blobs()),
    {
        proof {
            use_type_invariant(&*self);
        }
        match self.did_module.state_of(did) {
            IdentityState::Unregistered => Err(IdentityError::IdentityNotFound),
            IdentityState::Revoked => Err(IdentityError::InvalidState),
            _ => {
                let ciphertext = self.privacy_module.encrypt_text(plaintext);
                let ghost target = self.blobs().insert((did@, namespace@), ciphertext@);
                let mut attribute_blobs: StringMap<StringMap<String>> = StringMap::new();
                std::mem::swap(&mut attribute_blobs, &mut self.attribute_blobs);
                let ghost before = attribute_blobs@;
                let mut of_did = match attribute_blobs.remove(did) {
                    Some(stored) => stored,
                    None => StringMap::new(),
                };
                of_did.insert(namespace.to_owned(), ciphertext);
                attribute_blobs.insert(did.to_owned(), of_did);
                proof {
                    let after = Map::new(
                        |k: (Seq<char>, Seq<char>)|
                            attribute_blobs@.contains_key(k.0)
                                && attribute_blobs@[k.0]@.contains_key(k.1),
                        |k: (Seq<char>, Seq<char>)| attribute_blobs@[k.0]@[k.1]@,
                    );
                    assert forall|k: (Seq<char>, Seq<char>)|
                        after.contains_key(k) <==> target.contains_key(k) by {
                        if k.0 != did@ {
                            assert(attribute_blobs@.contains_key(k.0) == before.contains_key(k.0));
                        }
                    }
                    assert(after =~= target);
                    assert forall|k: (Seq<char>, Seq<char>)| #[trigger]
                        target.contains_key(k) implies self.records().contains_key(k.0) by {
                        if k != (did@, namespace@) {
                            assert(old(self).blobs().contains_key(k));
                        }
                    }
                }
                self.attribute_blobs = attribute_blobs;
                assert(self.blobs() =~= target);
                Ok(())
            },
        }
    }

    /// The attribute `namespace` of `did` as it is stored: encrypted.
    pub fn attribute(&self, did: &str, namespace: &str) -> (r: Option<String>)
        ensures
            match r {
                Some(text) => self.blobs().contains_key((did@, namespace@)) && text@
                    == self.blobs()[(did@, namespace@)],
                None => !self.blobs().contains_key((did@, namespace@)),
            },
    {
        match self.attribute_blobs.get(did) {
            Some(of_did) => match of_did.get(namespace) {
                Some(text) => Some(text.clone()),
                None => None,
            },
            None => None,
        }
    }
}

} // verus!
