use wgdhc::client::{reserve_request, tunnel_commands, Arguments, ClientError};
use wgdhc::keys::{KeyPair, PrivateKey, PublicKey};
use wgdhc::service::ReserveIpResponse;

const K2: &str = "AgICAgICAgICAgICAgICAgICAgICAgICAgICAgICAgI=";
const K9: &str = "CQkJCQkJCQkJCQkJCQkJCQkJCQkJCQkJCQkJCQkJCQk=";

fn args() -> Arguments {
    Arguments {
        host: "http://vpn.example.com:5010".to_string(),
        account: "alice".to_string(),
        interface: "wg0".to_string(),
        persistent_keepalive: 5,
    }
}

fn response(address: &str, key: &str) -> ReserveIpResponse {
    ReserveIpResponse {
        address: address.to_string(),
        server_public_key: key.to_string(),
        endpoint: "vpn.example.com:51820".to_string(),
    }
}

#[test]
fn request_carries_account_and_key() {
    let pair = KeyPair { public: PublicKey { bytes: [2u8; 32] }, private: PrivateKey { bytes: [3u8; 32] } };
    let r = reserve_request(&args(), &pair);
    assert_eq!(r.account, "alice");
    assert_eq!(r.public_key, K2);
}

#[test]
fn tunnel_commands_for_answer() {
    let private = PrivateKey { bytes: [2u8; 32] };
    let cmds = tunnel_commands(&args(), &private, &response("10.11.0.2/16", K9)).unwrap();
    assert_eq!(cmds.len(), 5);
    assert_eq!(cmds[0].args, vec!["link", "add", "wg0", "type", "wireguard"]);
    assert_eq!(cmds[1].args, vec!["address", "add", "10.11.0.2/16", "dev", "wg0"]);
    assert_eq!(cmds[2].args, vec!["set", "wg0", "private-key", "/dev/stdin"]);
    assert_eq!(cmds[2].stdin.as_deref(), Some(K2));
    assert_eq!(cmds[3].args, vec!["link", "set", "up", "dev", "wg0"]);
    assert_eq!(
        cmds[4].args,
        vec![
            "set", "wg0", "peer", K9, "endpoint", "vpn.example.com:51820", "allowed-ips",
            "10.11.0.0/16", "persistent-keepalive", "5",
        ]
    );
}

#[test]
fn bad_server_key_is_reported() {
    let private = PrivateKey { bytes: [2u8; 32] };
    let e = tunnel_commands(&args(), &private, &response("10.11.0.2/16", "AAAA")).unwrap_err();
    assert!(matches!(e, ClientError::ServerKey(_)));
}

#[test]
fn bad_address_is_reported() {
    let private = PrivateKey { bytes: [2u8; 32] };
    let e = tunnel_commands(&args(), &private, &response("10.11.0.2", K9)).unwrap_err();
    assert_eq!(e, ClientError::Address);
}
