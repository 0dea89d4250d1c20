use wgdhc::endpoint::Endpoint;
use wgdhc::keys::{PrivateKey, PublicKey};
use wgdhc::net::{IpAddress, Subnet};
use wgdhc::service::{ReserveError, ReserveIpRequest, ServiceImpl};
use wgdhc::storage::{Interface, ServerInfo, Storage};

const K1: &str = "AQEBAQEBAQEBAQEBAQEBAQEBAQEBAQEBAQEBAQEBAQE=";
const K2: &str = "AgICAgICAgICAgICAgICAgICAgICAgICAgICAgICAgI=";
const K3: &str = "AwMDAwMDAwMDAwMDAwMDAwMDAwMDAwMDAwMDAwMDAwM=";
const K4: &str = "BAQEBAQEBAQEBAQEBAQEBAQEBAQEBAQEBAQEBAQEBAQ=";
const SERVER_KEY: &str = "CQkJCQkJCQkJCQkJCQkJCQkJCQkJCQkJCQkJCQkJCQk=";

fn v4(a: u8, b: u8, c: u8, d: u8) -> IpAddress {
    IpAddress::V4(u32::from_be_bytes([a, b, c, d]))
}

fn store(addr: IpAddress, prefix_len: u8) -> Storage {
    Storage {
        interface: Interface {
            listen_port: 55000,
            private_key: PrivateKey { bytes: [7u8; 32] },
            address: Subnet { addr, prefix_len },
        },
        server: ServerInfo {
            public_key: PublicKey { bytes: [9u8; 32] },
            endpoint: Endpoint { host: "vpn.example.com".to_string(), port: Some(51820) },
        },
        peers: Vec::new(),
    }
}

fn request(account: &str, key: &str) -> ReserveIpRequest {
    ReserveIpRequest { account: account.to_string(), public_key: key.to_string() }
}

#[test]
fn scenario_alice_two_keys_and_repeat() {
    let service = ServiceImpl::new("wg0");
    let mut s = store(v4(10, 11, 0, 1), 16);
    let r1 = service.reserve_ip(&mut s, &request("alice", K1)).unwrap();
    assert_eq!(r1.response.address, "10.11.0.2/16");
    assert!(r1.new_peer);
    let r2 = service.reserve_ip(&mut s, &request("alice", K2)).unwrap();
    assert_eq!(r2.response.address, "10.11.0.3/16");
    let r3 = service.reserve_ip(&mut s, &request("alice", K1)).unwrap();
    assert_eq!(r3.response.address, "10.11.0.2/16");
    assert!(!r3.new_peer);
    assert_eq!(s.peers.len(), 2);
}

#[test]
fn response_carries_server_identity() {
    let service = ServiceImpl::new("wg0");
    let mut s = store(v4(10, 11, 0, 1), 16);
    let r = service.reserve_ip(&mut s, &request("bob", K1)).unwrap();
    assert_eq!(r.response.server_public_key, SERVER_KEY);
    assert_eq!(r.response.endpoint, "vpn.example.com:51820");
    assert_eq!(r.peer.internal_addr, v4(10, 11, 0, 2));
}

#[test]
fn add_peer_command_uses_host_route() {
    let service = ServiceImpl::new("wg0");
    let mut s = store(v4(10, 11, 0, 1), 16);
    let r = service.reserve_ip(&mut s, &request("bob", K1)).unwrap();
    assert_eq!(r.add_peer.program, "wg");
    assert_eq!(r.add_peer.args, vec!["set", "wg0", "peer", K1, "allowed-ips", "10.11.0.2/32"]);
    assert!(r.add_peer.stdin.is_none());
}

#[test]
fn same_key_different_accounts_get_different_addresses() {
    let service = ServiceImpl::new("wg0");
    let mut s = store(v4(10, 11, 0, 1), 16);
    let a = service.reserve_ip(&mut s, &request("alice", K1)).unwrap();
    let b = service.reserve_ip(&mut s, &request("bob", K1)).unwrap();
    assert_ne!(a.peer.internal_addr, b.peer.internal_addr);
}

#[test]
fn reserving_twice_does_not_consume() {
    let service = ServiceImpl::new("wg0");
    let mut s = store(v4(10, 0, 0, 1), 24);
    let a = service.reserve_ip(&mut s, &request("carol", K3)).unwrap();
    let len = s.peers.len();
    let b = service.reserve_ip(&mut s, &request("carol", K3)).unwrap();
    assert_eq!(a.response.address, b.response.address);
    assert_eq!(s.peers.len(), len);
    let c = service.reserve_ip(&mut s, &request("carol", K4)).unwrap();
    assert_eq!(c.response.address, "10.0.0.3/24");
}

#[test]
fn distinct_keys_get_distinct_addresses_in_subnet() {
    let service = ServiceImpl::new("wg0");
    let mut s = store(v4(192, 168, 7, 1), 29);
    let mut seen = Vec::new();
    for i in 0..5u8 {
        let key = wgdhc::keys::SerdeBase64::encode(&[i + 20; 32]);
        let r = service.reserve_ip(&mut s, &request("dave", &key)).unwrap();
        let a = r.peer.internal_addr;
        assert!(s.interface.address.contains_usable(&a));
        assert_ne!(a, v4(192, 168, 7, 1));
        assert!(!seen.contains(&a));
        seen.push(a);
    }
    assert_eq!(seen[0], v4(192, 168, 7, 2));
    assert_eq!(seen[4], v4(192, 168, 7, 6));
}

#[test]
fn full_subnet_is_exhausted_and_unchanged() {
    let service = ServiceImpl::new("wg0");
    let mut s = store(v4(10, 0, 0, 1), 30);
    let r = service.reserve_ip(&mut s, &request("erin", K1)).unwrap();
    assert_eq!(r.response.address, "10.0.0.2/30");
    let before: Vec<_> = s.peers.iter().map(|p| (p.account.clone(), p.public_key, p.info)).collect();
    let e = service.reserve_ip(&mut s, &request("erin", K2)).unwrap_err();
    assert_eq!(e, ReserveError::ResourceExhausted);
    let after: Vec<_> = s.peers.iter().map(|p| (p.account.clone(), p.public_key, p.info)).collect();
    assert_eq!(before, after);
}

#[test]
fn exhausted_subnet_refuses_known_pair_too() {
    let service = ServiceImpl::new("wg0");
    let mut s = store(v4(10, 0, 0, 1), 30);
    service.reserve_ip(&mut s, &request("erin", K1)).unwrap();
    let e = service.reserve_ip(&mut s, &request("erin", K1)).unwrap_err();
    assert_eq!(e, ReserveError::ResourceExhausted);
}

#[test]
fn malformed_key_is_invalid_argument() {
    let service = ServiceImpl::new("wg0");
    let mut s = store(v4(10, 0, 0, 1), 24);
    let e = service.reserve_ip(&mut s, &request("f", "AAAA")).unwrap_err();
    assert!(matches!(e, ReserveError::InvalidArgument(wgdhc::keys::ParseError::IncorrectLength(_))));
    let e = service.reserve_ip(&mut s, &request("f", "???")).unwrap_err();
    assert!(matches!(e, ReserveError::InvalidArgument(wgdhc::keys::ParseError::NotBase64(_))));
    assert!(s.peers.is_empty());
}

#[test]
fn slash_32_has_no_free_address() {
    let service = ServiceImpl::new("wg0");
    let mut s = store(v4(10, 0, 0, 1), 32);
    assert_eq!(s.find_ip(), None);
    let e = service.reserve_ip(&mut s, &request("g", K1)).unwrap_err();
    assert_eq!(e, ReserveError::ResourceExhausted);
}

#[test]
fn ipv6_reservation() {
    let service = ServiceImpl::new("wg0");
    let mut s = store(IpAddress::V6(0xfd00_0000_0000_0000_0000_0000_0000_0000), 64);
    let r = service.reserve_ip(&mut s, &request("h", K1)).unwrap();
    assert_eq!(r.response.address, "fd00::1/64");
    assert_eq!(r.add_peer.args[5], "fd00::1/128");
}

#[test]
fn server_interface_setup_commands() {
    let s = store(v4(10, 11, 0, 1), 16);
    let cmds = wgdhc::service::setup_wireguard_interface("wg0", &s.interface);
    assert_eq!(cmds.len(), 4);
    assert_eq!(cmds[0].program, "ip");
    assert_eq!(cmds[0].args, vec!["link", "add", "wg0", "type", "wireguard"]);
    assert_eq!(cmds[1].args, vec!["address", "add", "10.11.0.1/16", "dev", "wg0"]);
    assert_eq!(cmds[2].program, "wg");
    assert_eq!(cmds[2].args, vec!["set", "wg0", "private-key", "/dev/stdin", "listen-port", "55000"]);
    assert_eq!(cmds[2].stdin.as_deref(), Some("BwcHBwcHBwcHBwcHBwcHBwcHBwcHBwcHBwcHBwcHBwc="));
    assert_eq!(cmds[3].args, vec!["link", "set", "up", "dev", "wg0"]);
}

#[test]
fn wireguard_add_peer_command() {
    let c = wgdhc::service::wireguard_add_peer(
        "wg1",
        &PublicKey { bytes: [2u8; 32] },
        &wgdhc::storage::PeerInfo::new(v4(10, 1, 2, 3)),
    );
    assert_eq!(c.args, vec!["set", "wg1", "peer", K2, "allowed-ips", "10.1.2.3/32"]);
}
