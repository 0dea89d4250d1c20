//! One reservation request from arrival to answer, as a state machine. The
//! caller performs each action (take the store lock, read the store, run a
//! command, write the store, release the lock, answer) and reports the event
//! that came of it. The machine validates the key before the lock is taken
//! and, once the store has changed, asks for it to be committed before the
//! lock is released.
use vstd::prelude::*;
use crate::command::Command;
use crate::document::{document_of, load, FormatError, StoreDocument};
use crate::keys::{key_read_as, key_bytes_of, FromBase64, ParseError, PublicKey};
use crate::service::{
    add_peer_args, response_of, ReserveError, ReserveIpRequest, ReserveIpResponse, ServiceImpl,
};
use crate::storage::Storage;

verus! {

#[derive(Clone, Copy, Debug, PartialEq, Eq, Structural)]
pub enum Phase {
    Start,
    Locking,
    Loading,
    Provisioning,
    Committing,
    Releasing,
    Finished,
}

/// Why a request failed.
#[derive(Clone, Debug, PartialEq, Eq)]
pub enum RequestError {
    InvalidArgument(ParseError),
    ResourceExhausted,
    /// The store file could not be read.
    StoreUnreadable,
    /// The store file holds no valid store.
    StoreCorrupt(FormatError),
    /// The command that admits the peer failed; the address stays assigned.
    CommandFailed,
    /// The store could not be written.
    CommitFailed,
}

/// What the caller reports.
pub enum Event {
    Begin,
    LockAcquired,
    /// The store document, or `None` where it could not be read.
    StoreLoaded(Option<StoreDocument>),
    CommandFinished(bool),
    StoreCommitted(bool),
    LockReleased,
}

/// What the caller is to do next.
pub enum Action {
    AcquireLock,
    LoadStore,
    RunCommand(Command),
    /// Write this document durably to the store file.
    CommitStore(StoreDocument),
    ReleaseLock,
    Respond(Result<ReserveIpResponse, RequestError>),
    /// The event does not fit the phase; nothing to do.
    Wait,
}

pub struct RequestCycle {
    pub phase: Phase,
    pub request: ReserveIpRequest,
    pub storage: Option<Storage>,
    /// The store changed and must be committed before the lock is released.
    pub changed: bool,
    pub commit_attempted: bool,
    pub outcome: Option<Result<ReserveIpResponse, RequestError>>,
}

impl RequestCycle {
    pub open spec fn wf(&self) -> bool {
        &&& (self.phase == Phase::Provisioning || self.phase == Phase::Committing) ==> {
            &&& self.storage is Some
            &&& self.storage->Some_0@.wf()
        }
        &&& self.phase == Phase::Committing ==> self.changed
        &&& self.phase == Phase::Releasing ==> (self.changed ==> self.commit_attempted)
        &&& (self.phase == Phase::Releasing || self.phase == Phase::Committing || self.phase
            == Phase::Provisioning) ==> self.outcome is Some
        &&& (self.phase == Phase::Start || self.phase == Phase::Locking || self.phase
            == Phase::Loading) ==> !self.changed
        &&& self.phase != Phase::Start && self.phase != Phase::Finished ==> key_bytes_of(
            self.request.public_key@,
        ) is Some
    }

    pub fn new(request: ReserveIpRequest) -> (r: RequestCycle)
        ensures
            r.wf(),
            r.phase == Phase::Start,
            r.request == request,
    {
        RequestCycle {
            phase: Phase::Start,
            request,
            storage: None,
            changed: false,
            commit_attempted: false,
            outcome: None,
        }
    }

    /// Takes the event that the last action brought and returns the next
    /// action.
    pub fn step(&mut self, service: &ServiceImpl, event: Event) -> (r: Action)
        requires
            old(self).wf(),
        ensures
            final(self).wf(),
            final(self).request == old(self).request,
            r is ReleaseLock ==> final(self).phase == Phase::Releasing,
            r is CommitStore ==> final(self).phase == Phase::Committing,
            r is Respond ==> final(self).phase == Phase::Finished,
            old(self).phase == Phase::Finished ==> r is Wait,
            (old(self).phase == Phase::Start && event is Begin) ==> match key_bytes_of(
                old(self).request.public_key@,
            ) {
                None => r matches Action::Respond(Err(RequestError::InvalidArgument(e)))
                    && key_read_as(old(self).request.public_key@, Err(e)),
                Some(_) => r is AcquireLock && final(self).phase == Phase::Locking,
            },
            (old(self).phase == Phase::Locking && event is LockAcquired) ==> r is LoadStore
                && final(self).phase == Phase::Loading,
            (old(self).phase == Phase::Loading && event is StoreLoaded) ==> match event {
                Event::StoreLoaded(None) => r is ReleaseLock && final(self).outcome == Some(
                    Err::<ReserveIpResponse, _>(RequestError::StoreUnreadable),
                ),
                Event::StoreLoaded(Some(d)) => match load(d@) {
                    Err(f) => r is ReleaseLock && final(self).outcome == Some(
                        Err::<ReserveIpResponse, _>(RequestError::StoreCorrupt(f)),
                    ),
                    Ok(s) => match s.reserve(
                        old(self).request.account@,
                        key_bytes_of(old(self).request.public_key@)->Some_0,
                    ) {
                        None => r is ReleaseLock && final(self).outcome == Some(
                            Err::<ReserveIpResponse, _>(RequestError::ResourceExhausted),
                        ),
                        Some((after, a)) => {
                            &&& final(self).phase == Phase::Provisioning
                            &&& final(self).storage->Some_0@ == after
                            &&& final(self).changed == (s.lookup(
                                old(self).request.account@,
                                key_bytes_of(old(self).request.public_key@)->Some_0,
                            ) is None)
                            &&& r matches Action::RunCommand(c) && c@.args == add_peer_args(
                                service.interface@,
                                key_bytes_of(old(self).request.public_key@)->Some_0,
                                a,
                            )
                            &&& final(self).outcome matches Some(Ok(resp)) && resp@ == response_of(
                                s,
                                a,
                            )
                        },
                    },
                },
                _ => true,
            },
            (old(self).phase == Phase::Provisioning && event is CommandFinished) ==> {
                &&& old(self).changed ==> (r matches Action::CommitStore(d) && d@ == document_of(
                    old(self).storage->Some_0@,
                ))
                &&& !old(self).changed ==> r is ReleaseLock
                &&& (event matches Event::CommandFinished(ok) && !ok) ==> final(self).outcome
                    == Some(Err::<ReserveIpResponse, _>(RequestError::CommandFailed))
                &&& (event matches Event::CommandFinished(ok) && ok) ==> final(self).outcome
                    == old(self).outcome
            },
            (old(self).phase == Phase::Committing && event is StoreCommitted) ==> {
                &&& r is ReleaseLock
                &&& (event matches Event::StoreCommitted(ok) && !ok) ==> final(self).outcome
                    == Some(Err::<ReserveIpResponse, _>(RequestError::CommitFailed))
                &&& (event matches Event::StoreCommitted(ok) && ok) ==> final(self).outcome
                    == old(self).outcome
            },
            (old(self).phase == Phase::Releasing && event is LockReleased) ==> (r matches Action::Respond(
                o,
            ) && Some(o) == old(self).outcome),
    {
        match self.phase {
            Phase::Start => {
                if !matches!(event, Event::Begin) {
                    return Action::Wait;
                }
                match PublicKey::from_base_64(self.request.public_key.as_str()) {
                    Ok(_) => {
                        self.phase = Phase::Locking;
                        Action::AcquireLock
                    },
                    Err(e) => {
                        self.phase = Phase::Finished;
                        Action::Respond(Err(RequestError::InvalidArgument(e)))
                    },
                }
            },
            Phase::Locking => {
                if !matches!(event, Event::LockAcquired) {
                    return Action::Wait;
                }
                self.phase = Phase::Loading;
                Action::LoadStore
            },
            Phase::Loading => {
                let loaded = match event {
                    Event::StoreLoaded(l) => l,
                    _ => {
                        return Action::Wait;
                    },
                };
                self.phase = Phase::Releasing;
                let doc = match loaded {
                    Some(d) => d,
                    None => {
                        self.outcome = Some(Err(RequestError::StoreUnreadable));
                        return Action::ReleaseLock;
                    },
                };
                let mut storage = match Storage::from_document(&doc) {
                    Ok(s) => s,
                    Err(f) => {
                        self.outcome = Some(Err(RequestError::StoreCorrupt(f)));
                        return Action::ReleaseLock;
                    },
                };
                match service.reserve_ip(&mut storage, &self.request) {
                    Ok(res) => {
                        self.phase = Phase::Provisioning;
                        self.changed = res.new_peer;
                        self.storage = Some(storage);
                        self.outcome = Some(Ok(res.response));
                        Action::RunCommand(res.add_peer)
                    },
                    Err(ReserveError::ResourceExhausted) => {
                        self.outcome = Some(Err(RequestError::ResourceExhausted));
                        Action::ReleaseLock
                    },
                    Err(ReserveError::InvalidArgument(e)) => {
                        self.outcome = Some(Err(RequestError::InvalidArgument(e)));
                        Action::ReleaseLock
                    },
                }
            },
            Phase::Provisioning => {
                let ok = match event {
                    Event::CommandFinished(ok) => ok,
                    _ => {
                        return Action::Wait;
                    },
                };
                if !ok {
                    self.outcome = Some(Err(RequestError::CommandFailed));
                }
                if self.changed {
                    self.phase = Phase::Committing;
                    match &self.storage {
                        Some(s) => Action::CommitStore(s.to_document()),
                        None => Action::Wait,
                    }
                } else {
                    self.phase = Phase::Releasing;
                    Action::ReleaseLock
                }
            },
            Phase::Committing => {
                let ok = match event {
                    Event::StoreCommitted(ok) => ok,
                    _ => {
                        return Action::Wait;
                    },
                };
                self.commit_attempted = true;
                if !ok {
                    self.outcome = Some(Err(RequestError::CommitFailed));
                }
                self.phase = Phase::Releasing;
                Action::ReleaseLock
            },
            Phase::Releasing => {
                if !matches!(event, Event::LockReleased) {
                    return Action::Wait;
                }
                self.phase = Phase::Finished;
                match self.outcome.take() {
                    Some(o) => Action::Respond(o),
                    None => Action::Wait,
                }
            },
            Phase::Finished => Action::Wait,
        }
    }
}

} // verus!
