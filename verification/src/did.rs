//! The identifier registry: decentralized identifiers and their lifecycle.
//!
//! An identifier is unregistered until it is registered, can then be updated
//! any number of times, and ends revoked. Every transition is recorded on an
//! outside ledger first; the registry is told how that went and changes only
//! when it went well.

use crate::identifier::{generate, is_generated_did, is_identifier};
use crate::string_map::StringMap;
use vstd::prelude::*;

verus! {

/// Where an identifier stands in its lifecycle.
#[derive(Clone, Copy, Debug, PartialEq, Eq, Structural)]
pub enum IdentityState {
    /// Never registered: the registry holds no record of it.
    Unregistered,
    /// Registered and not changed since.
    Registered,
    /// Registered and updated at least once.
    Updated,
    /// Revoked, for good.
    Revoked,
}

/// Why an operation on an identifier was refused.
#[derive(Clone, Copy, Debug, PartialEq, Eq, Structural)]
pub enum IdentityError {
    /// The identifier is registered already.
    AlreadyRegistered,
    /// The ledger did not record the transition; nothing was changed.
    AnchorFailed,
    /// The identifier's state does not allow the operation.
    InvalidState,
    /// The registry holds no record of the identifier.
    IdentityNotFound,
    /// The string does not have the form of an identifier. The registry itself
    /// takes any string; the facade refuses to register one that is malformed.
    MalformedIdentifier,
}

/// A transition of an identifier's lifecycle.
#[derive(Clone, Copy, Debug, PartialEq, Eq, Structural)]
pub enum Operation {
    Register,
    Update,
    Revoke,
}

/// How submitting a transition to the ledger failed.
#[derive(Clone, Copy, Debug, PartialEq, Eq, Structural)]
pub enum SubmitError {
    /// The ledger could not be reached or was busy; another attempt may succeed.
    Transient,
    /// The ledger refused the transition; another attempt will not help.
    Permanent,
}

/// What the registry keeps for one identifier.
#[derive(Clone, Copy, Debug, PartialEq, Eq, Structural)]
pub struct Lifecycle {
    pub state: IdentityState,
    pub created_at: u64,
    pub last_updated_at: u64,
}

/// A record of the registry, as `lookup` hands it out.
#[derive(Clone, Debug)]
pub struct IdentifierRecord {
    pub identifier: String,
    pub state: IdentityState,
    pub created_at: u64,
    pub last_updated_at: u64,
}

/// The state machine: the state that `op` leads to from `state`, or why `op`
/// is refused there.
pub open spec fn next_state(state: IdentityState, op: Operation) -> Result<
    IdentityState,
    IdentityError,
> {
    match (op, state) {
        (Operation::Register, IdentityState::Unregistered) => Ok(IdentityState::Registered),
        (Operation::Register, IdentityState::Revoked) => Err(IdentityError::InvalidState),
        (Operation::Register, _) => Err(IdentityError::AlreadyRegistered),
        (Operation::Update, IdentityState::Registered) => Ok(IdentityState::Updated),
        (Operation::Update, IdentityState::Updated) => Ok(IdentityState::Updated),
        (Operation::Update, _) => Err(IdentityError::InvalidState),
        (Operation::Revoke, IdentityState::Registered) => Ok(IdentityState::Revoked),
        (Operation::Revoke, IdentityState::Updated) => Ok(IdentityState::Revoked),
        (Operation::Revoke, _) => Err(IdentityError::InvalidState),
    }
}

/// The state of `did` in a set of records: unregistered where there is none.
pub open spec fn state_in(records: Map<Seq<char>, Lifecycle>, did: Seq<char>) -> IdentityState {
    if records.contains_key(did) {
        records[did].state
    } else {
        IdentityState::Unregistered
    }
}

/// What `op` on `did` answers, given the records and whether the ledger
/// recorded the transition. The state is looked at first: an operation that
/// the state refuses fails with the state's error whatever the ledger said.
pub open spec fn outcome(
    records: Map<Seq<char>, Lifecycle>,
    op: Operation,
    did: Seq<char>,
    anchored: bool,
) -> Result<(), IdentityError> {
    match next_state(state_in(records, did), op) {
        Err(e) => Err(e),
        Ok(_) => if anchored {
            Ok(())
        } else {
            Err(IdentityError::AnchorFailed)
        },
    }
}

/// The time of the last update after a change at time `now`: `now`, unless
/// the clock has run back, in which case the time on record stays.
pub open spec fn later_of(on_record: u64, now: u64) -> u64 {
    if now < on_record {
        on_record
    } else {
        now
    }
}

/// The records after `op` on `did` at time `now`. They change only where
/// `outcome` is `Ok`: then `did` is in its next state, created at `now` if it
/// is new, and last updated at `now`, or at the time on record if that is later.
pub open spec fn records_after(
    records: Map<Seq<char>, Lifecycle>,
    op: Operation,
    did: Seq<char>,
    now: u64,
    anchored: bool,
) -> Map<Seq<char>, Lifecycle> {
    match next_state(state_in(records, did), op) {
        Ok(next) if anchored => records.insert(
            did,
            Lifecycle {
                state: next,
                created_at: if records.contains_key(did) {
                    records[did].created_at
                } else {
                    now
                },
                last_updated_at: if records.contains_key(did) {
                    later_of(records[did].last_updated_at, now)
                } else {
                    now
                },
            },
        ),
        _ => records,
    }
}

/// The state machine: the state that `op` leads to from `state`, or why `op`
/// is refused there.
pub fn transition(state: IdentityState, op: Operation) -> (r: Result<IdentityState, IdentityError>)
    ensures
        r == next_state(state, op),
{
    match op {
        Operation::Register => match state {
            IdentityState::Unregistered => Ok(IdentityState::Registered),
            IdentityState::Revoked => Err(IdentityError::InvalidState),
            _ => Err(IdentityError::AlreadyRegistered),
        },
        Operation::Update => match state {
            IdentityState::Registered | IdentityState::Updated => Ok(IdentityState::Updated),
            _ => Err(IdentityError::InvalidState),
        },
        Operation::Revoke => match state {
            IdentityState::Registered | IdentityState::Updated => Ok(IdentityState::Revoked),
            _ => Err(IdentityError::InvalidState),
        },
    }
}

/// What holds of the records of a registry at all times: none is
/// unregistered, and none was last updated before it was created.
pub open spec fn well_kept(records: Map<Seq<char>, Lifecycle>) -> bool {
    forall|did: Seq<char>| #[trigger]
        records.contains_key(did) ==> {
            &&& records[did].state != IdentityState::Unregistered
            &&& records[did].created_at <= records[did].last_updated_at
        }
}

/// The identifier registry.
pub struct DID {
    records: StringMap<Lifecycle>,
}

impl View for DID {
    type V = Map<Seq<char>, Lifecycle>;

    closed spec fn view(&self) -> Map<Seq<char>, Lifecycle> {
        self.records@
    }
}

impl DID {
    #[verifier::type_invariant]
    spec fn well_formed(&self) -> bool {
        well_kept(self.records@)
    }

    /// The state of `did`.
    pub open spec fn state(&self, did: Seq<char>) -> IdentityState {
        state_in(self@, did)
    }

    /// A registry without records.
    pub fn new() -> (r: DID)
        ensures
            r@ == Map::<Seq<char>, Lifecycle>::empty(),
            well_kept(r@),
    {
        DID { records: StringMap::new() }
    }

    /// A new identifier, made of 16 bytes drawn at random. The registry is not involved:
    /// the identifier is unregistered until `register_did` is called.
    pub fn generate_did() -> (did: String)
        ensures
            is_generated_did(did@),
            is_identifier(did@),
    {
        generate()
    }

    /// The state of `did`: unregistered where the registry has no record.
    pub fn state_of(&self, did: &str) -> (state: IdentityState)
        ensures
            state == self.state(did@),
    {
        match self.records.get(did) {
            Some(record) => record.state,
            None => IdentityState::Unregistered,
        }
    }

    /// The record of `did`, if there is one. A record is never unregistered.
    pub fn lookup(&self, did: &str) -> (r: Option<IdentifierRecord>)
        ensures
            r is Some <==> self@.contains_key(did@),
            r matches Some(record) ==> {
                &&& record.identifier@ == did@
                &&& record.state == self@[did@].state
                &&& record.created_at == self@[did@].created_at
                &&& record.last_updated_at == self@[did@].last_updated_at
                &&& record.state != IdentityState::Unregistered
                &&& record.created_at <= record.last_updated_at
            },
            well_kept(self@),
    {
        proof {
            use_type_invariant(self);
        }
        match self.records.get(did) {
            Some(record) => Some(
                IdentifierRecord {
                    identifier: did.to_owned(),
                    state: record.state,
                    created_at: record.created_at,
                    last_updated_at: record.last_updated_at,
                },
            ),
            None => None,
        }
    }

    /// Whether the state of `did` allows `op`. Nothing is changed: this is the
    /// question to ask before the transition is submitted to the ledger.
    pub fn check(&self, op: Operation, did: &str) -> (r: Result<(), IdentityError>)
        ensures
            r == outcome(self@, op, did@, true),
    {
        match transition(self.state_of(did), op) {
            Ok(_) => Ok(()),
            Err(e) => Err(e),
        }
    }

    /// Carries out `op` on `did` at time `now`, given what the ledger answered
    /// to the submission of this transition. The state is read again: where it
    /// refuses `op`, or the ledger failed, nothing is changed.
    pub fn apply(
        &mut self,
        op: Operation,
        did: &str,
        now: u64,
        anchor: Result<String, SubmitError>,
    ) -> (r: Result<(), IdentityError>)
        ensures
            r == outcome(old(self)@, op, did@, anchor is Ok),
            final(self)@ == records_after(old(self)@, op, did@, now, anchor is Ok),
            well_kept(final(self)@),
    {
        proof {
            use_type_invariant(&*self);
        }
        let current = self.records.get(did);
        let created_at = match current {
            Some(record) => record.created_at,
            None => now,
        };
        let last_updated_at = match current {
            Some(record) => if now < record.last_updated_at {
                record.last_updated_at
            } else {
                now
            },
            None => now,
        };
        let state = match current {
            Some(record) => record.state,
            None => IdentityState::Unregistered,
        };
        let next = match transition(state, op) {
            Ok(next) => next,
            Err(e) => {
                return Err(e);
            },
        };
        if anchor.is_err() {
            return Err(IdentityError::AnchorFailed);
        }
        let mut records: StringMap<Lifecycle> = StringMap::new();
        std::mem::swap(&mut records, &mut self.records);
        records.insert(did.to_owned(), Lifecycle { state: next, created_at, last_updated_at });
        self.records = records;
        Ok(())
    }

    /// Registers `did`: from unregistered to registered.
    pub fn register_did(
        &mut self,
        did: &str,
        now: u64,
        anchor: Result<String, SubmitError>,
    ) -> (r: Result<(), IdentityError>)
        ensures
            r == outcome(old(self)@, Operation::Register, did@, anchor is Ok),
            final(self)@ == records_after(old(self)@, Operation::Register, did@, now, anchor is Ok),
            well_kept(final(self)@),
    {
        self.apply(Operation::Register, did, now, anchor)
    }

    /// Updates `did`: from registered or updated to updated.
    pub fn update_did(
        &mut self,
        did: &str,
        now: u64,
        anchor: Result<String, SubmitError>,
    ) -> (r: Result<(), IdentityError>)
        ensures
            r == outcome(old(self)@, Operation::Update, did@, anchor is Ok),
            final(self)@ == records_after(old(self)@, Operation::Update, did@, now, anchor is Ok),
            well_kept(final(self)@),
    {
        self.apply(Operation::Update, did, now, anchor)
    }

    /// Revokes `did`: from registered or updated to revoked, where it stays.
    pub fn revoke_did(
        &mut self,
        did: &str,
        now: u64,
        anchor: Result<String, SubmitError>,
    ) -> (r: Result<(), IdentityError>)
        ensures
            r == outcome(old(self)@, Operation::Revoke, did@, anchor is Ok),
            final(self)@ == records_after(old(self)@, Operation::Revoke, did@, now, anchor is Ok),
            well_kept(final(self)@),
    {
        self.apply(Operation::Revoke, did, now, anchor)
    }
}

/// An operation that fails changes nothing: no transition is ever half done.
pub proof fn lemma_failure_changes_nothing(
    records: Map<Seq<char>, Lifecycle>,
    op: Operation,
    did: Seq<char>,
    now: u64,
    anchored: bool,
)
    requires
        outcome(records, op, did, anchored) is Err,
    ensures
        records_after(records, op, did, now, anchored) == records,
{
}

/// An operation on one identifier leaves every other identifier as it was.
pub proof fn lemma_others_untouched(
    records: Map<Seq<char>, Lifecycle>,
    op: Operation,
    did: Seq<char>,
    now: u64,
    anchored: bool,
    other: Seq<char>,
)
    requires
        other != did,
    ensures
        records_after(records, op, did, now, anchored).contains_key(other) == records.contains_key(
            other,
        ),
        records_after(records, op, did, now, anchored)[other] == records[other],
{
}

/// Registering an identifier that has just been registered fails with
/// `AlreadyRegistered`, whatever the ledger says, and the identifier stays
/// registered, with its record unchanged.
pub proof fn lemma_register_twice(
    records: Map<Seq<char>, Lifecycle>,
    did: Seq<char>,
    first: u64,
    second: u64,
    anchored: bool,
)
    requires
        outcome(records, Operation::Register, did, true) is Ok,
    ensures
        ({
            let registered = records_after(records, Operation::Register, did, first, true);
            &&& state_in(registered, did) == IdentityState::Registered
            &&& outcome(registered, Operation::Register, did, anchored) == Err::<
                (),
                IdentityError,
            >(IdentityError::AlreadyRegistered)
            &&& records_after(registered, Operation::Register, did, second, anchored) == registered
        }),
{
}

/// Revocation is final: on a revoked identifier every operation fails with
/// `InvalidState`, whatever the ledger says, and changes nothing.
pub proof fn lemma_revoked_is_terminal(
    records: Map<Seq<char>, Lifecycle>,
    op: Operation,
    did: Seq<char>,
    now: u64,
    anchored: bool,
)
    requires
        state_in(records, did) == IdentityState::Revoked,
    ensures
        outcome(records, op, did, anchored) == Err::<(), IdentityError>(
            IdentityError::InvalidState,
        ),
        records_after(records, op, did, now, anchored) == records,
{
}

/// Of two revocations of one identifier that can be revoked, carried out one
/// after the other, at most one succeeds. Where the ledger records the first,
/// the first succeeds and the second fails with `InvalidState`; where it
/// records only the second, the first fails with `AnchorFailed` and the second
/// succeeds. Either way the identifier ends revoked and the loser changes
/// nothing. Where the ledger records neither, both fail with `AnchorFailed`
/// and nothing is changed.
pub proof fn lemma_revoke_twice(
    records: Map<Seq<char>, Lifecycle>,
    did: Seq<char>,
    first: u64,
    second: u64,
    first_anchored: bool,
    second_anchored: bool,
)
    requires
        outcome(records, Operation::Revoke, did, true) is Ok,
    ensures
        ({
            let between = records_after(records, Operation::Revoke, did, first, first_anchored);
            let after = records_after(between, Operation::Revoke, did, second, second_anchored);
            let one = outcome(records, Operation::Revoke, did, first_anchored);
            let other = outcome(between, Operation::Revoke, did, second_anchored);
            &&& !(one is Ok && other is Ok)
            &&& first_anchored ==> {
                &&& one is Ok
                &&& other == Err::<(), IdentityError>(IdentityError::InvalidState)
                &&& after == between
            }
            &&& !first_anchored ==> {
                &&& one == Err::<(), IdentityError>(IdentityError::AnchorFailed)
                &&& between == records
                &&& other is Ok <==> second_anchored
            }
            &&& first_anchored || second_anchored ==> {
                &&& one is Ok || other is Ok
                &&& state_in(after, did) == IdentityState::Revoked
            }
            &&& !first_anchored && !second_anchored ==> after == records
        }),
{
}

/// Times on record never run back: after any operation at any time, the time
/// of the last update of `did` is no earlier than it was, its creation time is
/// what it was, and the records are still well kept.
pub proof fn lemma_times_do_not_run_back(
    records: Map<Seq<char>, Lifecycle>,
    op: Operation,
    did: Seq<char>,
    now: u64,
    anchored: bool,
)
    requires
        well_kept(records),
        records.contains_key(did),
    ensures
        ({
            let after = records_after(records, op, did, now, anchored);
            &&& after.contains_key(did)
            &&& after[did].created_at == records[did].created_at
            &&& records[did].last_updated_at <= after[did].last_updated_at
            &&& after[did].created_at <= after[did].last_updated_at
            &&& well_kept(after)
        }),
{
}

/// How far a state is along the lifecycle.
pub open spec fn progress(state: IdentityState) -> int {
    match state {
        IdentityState::Unregistered => 0,
        IdentityState::Registered => 1,
        IdentityState::Updated => 2,
        IdentityState::Revoked => 3,
    }
}

/// The lifecycle only moves forward: no operation takes an identifier back to
/// an earlier state, and none leaves it unregistered.
pub proof fn lemma_lifecycle_is_monotonic(
    records: Map<Seq<char>, Lifecycle>,
    op: Operation,
    did: Seq<char>,
    now: u64,
    anchored: bool,
)
    ensures
        progress(state_in(records, did)) <= progress(
            state_in(records_after(records, op, did, now, anchored), did),
        ),
        outcome(records, op, did, anchored) is Ok ==> state_in(
            records_after(records, op, did, now, anchored),
            did,
        ) != IdentityState::Unregistered,
{
}

} // verus!
