use wgdhc::endpoint::Endpoint;
use wgdhc::keys::{PrivateKey, PublicKey};
use wgdhc::net::{IpAddress, Subnet};
use wgdhc::storage::{Interface, PeerInfo, PeerRecord, ServerInfo, Storage};

fn v4(a: u8, b: u8, c: u8, d: u8) -> IpAddress {
    IpAddress::V4(u32::from_be_bytes([a, b, c, d]))
}

fn store(addr: IpAddress, prefix_len: u8) -> Storage {
    Storage {
        interface: Interface {
            listen_port: 55000,
            private_key: PrivateKey { bytes: [7u8; 32] },
            address: Subnet { addr, prefix_len },
        },
        server: ServerInfo {
            public_key: PublicKey { bytes: [9u8; 32] },
            endpoint: Endpoint { host: "vpn.example.com".to_string(), port: None },
        },
        peers: Vec::new(),
    }
}

#[test]
fn find_ip_skips_interface_address() {
    let s = store(v4(10, 11, 0, 1), 16);
    assert_eq!(s.find_ip(), Some(v4(10, 11, 0, 2)));
}

#[test]
fn find_ip_when_interface_is_not_first() {
    let s = store(v4(10, 0, 0, 5), 29);
    assert_eq!(s.find_ip(), Some(v4(10, 0, 0, 1)));
}

#[test]
fn find_ip_fills_gaps_in_order() {
    let mut s = store(v4(10, 0, 0, 1), 24);
    s.peers.push(PeerRecord {
        account: "a".to_string(),
        public_key: PublicKey { bytes: [1u8; 32] },
        info: PeerInfo::new(v4(10, 0, 0, 2)),
    });
    s.peers.push(PeerRecord {
        account: "b".to_string(),
        public_key: PublicKey { bytes: [2u8; 32] },
        info: PeerInfo::new(v4(10, 0, 0, 4)),
    });
    assert_eq!(s.find_ip(), Some(v4(10, 0, 0, 3)));
    assert!(s.is_used(&v4(10, 0, 0, 4)));
    assert!(!s.is_used(&v4(10, 0, 0, 3)));
}

#[test]
fn push_keeps_existing_address() {
    let mut s = store(v4(10, 0, 0, 1), 24);
    let k = PublicKey { bytes: [1u8; 32] };
    let first = s.push("acct", k, PeerInfo::new(v4(10, 0, 0, 2)));
    assert_eq!(first.internal_addr, v4(10, 0, 0, 2));
    let again = s.push("acct", k, PeerInfo::new(v4(10, 0, 0, 3)));
    assert_eq!(again.internal_addr, v4(10, 0, 0, 2));
    assert_eq!(s.peers.len(), 1);
    let other = s.push("other", k, PeerInfo::new(v4(10, 0, 0, 3)));
    assert_eq!(other.internal_addr, v4(10, 0, 0, 3));
    assert_eq!(s.peers.len(), 2);
}

#[test]
fn lookup_by_account_and_key() {
    let mut s = store(v4(10, 0, 0, 1), 24);
    let k = PublicKey { bytes: [1u8; 32] };
    s.push("acct", k, PeerInfo::new(v4(10, 0, 0, 2)));
    assert_eq!(s.lookup(&"acct".to_string(), &k), Some(PeerInfo::new(v4(10, 0, 0, 2))));
    assert_eq!(s.lookup(&"else".to_string(), &k), None);
    assert_eq!(s.lookup(&"acct".to_string(), &PublicKey { bytes: [2u8; 32] }), None);
}

#[test]
fn init_makes_empty_store() {
    let config = wgdhc::config::Config {
        service: wgdhc::config::Service {
            address: wgdhc::config::default_addr(),
            port: wgdhc::config::default_port(),
            endpoint: Endpoint::parse("vpn.example.com:55000").unwrap(),
        },
        storage: "/data/storage.yaml".to_string(),
        interface: "wg0".to_string(),
        internal_address: wgdhc::config::default_internal_addr(),
        wgport: wgdhc::config::default_wireguard_port(),
    };
    let pair = wgdhc::keys::KeyPair::gen();
    let s = Storage::init(&config, &pair);
    assert!(s.peers.is_empty());
    assert_eq!(s.interface.listen_port, 55000);
    assert_eq!(s.interface.address.text(), "10.11.0.1/16");
    assert_eq!(s.server.public_key, pair.public);
    assert_eq!(s.find_ip(), Some(v4(10, 11, 0, 2)));
}
