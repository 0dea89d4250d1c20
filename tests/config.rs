use wgdhc::config::{
    default_addr, default_internal_addr, default_port, default_wireguard_port,
    process_openning_error,
};
use wgdhc::net::IpAddress;

#[test]
fn defaults() {
    assert_eq!(default_port(), 5010);
    assert_eq!(default_wireguard_port(), 55000);
    assert_eq!(default_addr(), IpAddress::V4(0));
    assert_eq!(default_internal_addr().text(), "10.11.0.1/16");
}

#[test]
fn opening_error_messages() {
    assert_eq!(
        process_openning_error(true, "ignored"),
        "config file exists, you should run command with '--force' to override it"
    );
    assert_eq!(
        process_openning_error(false, "permission denied"),
        "error while openning config: permission denied"
    );
}
