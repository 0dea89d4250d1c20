use wgdhc::cycle::{Action, Event, Phase, RequestCycle, RequestError};
use wgdhc::document::StoreDocument;
use wgdhc::endpoint::Endpoint;
use wgdhc::keys::{PrivateKey, PublicKey};
use wgdhc::net::{IpAddress, Subnet};
use wgdhc::service::{ReserveIpRequest, ServiceImpl};
use wgdhc::storage::{Interface, ServerInfo, Storage};

const K1: &str = "AQEBAQEBAQEBAQEBAQEBAQEBAQEBAQEBAQEBAQEBAQE=";
const K2: &str = "AgICAgICAgICAgICAgICAgICAgICAgICAgICAgICAgI=";

fn document(prefix_len: u8) -> StoreDocument {
    Storage {
        interface: Interface {
            listen_port: 55000,
            private_key: PrivateKey { bytes: [7u8; 32] },
            address: Subnet { addr: IpAddress::V4(0x0A0B_0001), prefix_len },
        },
        server: ServerInfo {
            public_key: PublicKey { bytes: [9u8; 32] },
            endpoint: Endpoint { host: "vpn.example.com".to_string(), port: Some(51820) },
        },
        peers: Vec::new(),
    }
    .to_document()
}

fn request(key: &str) -> ReserveIpRequest {
    ReserveIpRequest { account: "alice".to_string(), public_key: key.to_string() }
}

/// Runs a cycle against a store held in memory, recording what was done.
fn drive(
    key: &str,
    store: &mut StoreDocument,
    command_ok: bool,
    commit_ok: bool,
) -> (Vec<&'static str>, Result<String, RequestError>) {
    let service = ServiceImpl::new("wg0");
    let mut cycle = RequestCycle::new(request(key));
    let mut log = Vec::new();
    let mut event = Event::Begin;
    loop {
        match cycle.step(&service, event) {
            Action::AcquireLock => {
                log.push("lock");
                event = Event::LockAcquired;
            }
            Action::LoadStore => {
                log.push("load");
                event = Event::StoreLoaded(Some(store.clone()));
            }
            Action::RunCommand(c) => {
                assert_eq!(c.program, "wg");
                log.push("command");
                event = Event::CommandFinished(command_ok);
            }
            Action::CommitStore(d) => {
                log.push("commit");
                if commit_ok {
                    *store = d;
                }
                event = Event::StoreCommitted(commit_ok);
            }
            Action::ReleaseLock => {
                log.push("release");
                event = Event::LockReleased;
            }
            Action::Respond(r) => {
                assert_eq!(cycle.phase, Phase::Finished);
                return (log, r.map(|resp| resp.address));
            }
            Action::Wait => panic!("the cycle stalled"),
        }
    }
}

#[test]
fn new_peer_is_committed_before_release() {
    let mut store = document(16);
    let (log, r) = drive(K1, &mut store, true, true);
    assert_eq!(log, vec!["lock", "load", "command", "commit", "release"]);
    assert_eq!(r.unwrap(), "10.11.0.2/16");
    assert_eq!(store.peers.len(), 1);
}

#[test]
fn known_peer_needs_no_commit() {
    let mut store = document(16);
    drive(K1, &mut store, true, true);
    let (log, r) = drive(K1, &mut store, true, true);
    assert_eq!(log, vec!["lock", "load", "command", "release"]);
    assert_eq!(r.unwrap(), "10.11.0.2/16");
}

#[test]
fn second_key_sees_first_commit() {
    let mut store = document(16);
    drive(K1, &mut store, true, true);
    let (_, r) = drive(K2, &mut store, true, true);
    assert_eq!(r.unwrap(), "10.11.0.3/16");
}

#[test]
fn invalid_key_never_takes_the_lock() {
    let mut store = document(16);
    let (log, r) = drive("bad key", &mut store, true, true);
    assert!(log.is_empty());
    assert!(matches!(r, Err(RequestError::InvalidArgument(_))));
}

#[test]
fn exhausted_subnet_releases_without_commit() {
    let mut store = document(32);
    let (log, r) = drive(K1, &mut store, true, true);
    assert_eq!(log, vec!["lock", "load", "release"]);
    assert_eq!(r, Err(RequestError::ResourceExhausted));
}

#[test]
fn failed_command_still_commits() {
    let mut store = document(16);
    let (log, r) = drive(K1, &mut store, false, true);
    assert_eq!(log, vec!["lock", "load", "command", "commit", "release"]);
    assert_eq!(r, Err(RequestError::CommandFailed));
    assert_eq!(store.peers.len(), 1);
}

#[test]
fn failed_commit_is_reported() {
    let mut store = document(16);
    let (log, r) = drive(K1, &mut store, true, false);
    assert_eq!(log, vec!["lock", "load", "command", "commit", "release"]);
    assert_eq!(r, Err(RequestError::CommitFailed));
    assert!(store.peers.is_empty());
}

#[test]
fn unreadable_store_is_reported() {
    let service = ServiceImpl::new("wg0");
    let mut cycle = RequestCycle::new(request(K1));
    assert!(matches!(cycle.step(&service, Event::Begin), Action::AcquireLock));
    assert!(matches!(cycle.step(&service, Event::LockAcquired), Action::LoadStore));
    assert!(matches!(cycle.step(&service, Event::StoreLoaded(None)), Action::ReleaseLock));
    match cycle.step(&service, Event::LockReleased) {
        Action::Respond(r) => assert_eq!(r.unwrap_err(), RequestError::StoreUnreadable),
        _ => panic!("expected an answer"),
    }
}

#[test]
fn corrupt_store_is_reported() {
    let mut store = document(16);
    store.interface.address = "garbage".to_string();
    let (log, r) = drive(K1, &mut store, true, true);
    assert_eq!(log, vec!["lock", "load", "release"]);
    assert_eq!(r, Err(RequestError::StoreCorrupt(wgdhc::document::FormatError::Subnet)));
}

#[test]
fn out_of_order_event_waits() {
    let service = ServiceImpl::new("wg0");
    let mut cycle = RequestCycle::new(request(K1));
    assert!(matches!(cycle.step(&service, Event::LockReleased), Action::Wait));
    assert_eq!(cycle.phase, Phase::Start);
}
