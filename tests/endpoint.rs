use wgdhc::endpoint::{decimal_string, parse_port, Endpoint, EndpointError};

#[test]
fn endpoint_with_port() {
    let e = Endpoint::parse("vpn.example.com:51820").unwrap();
    assert_eq!(e.host, "vpn.example.com");
    assert_eq!(e.port, Some(51820));
    assert_eq!(e.text(), "vpn.example.com:51820");
}

#[test]
fn endpoint_without_port() {
    let e = Endpoint::parse("203.0.113.7").unwrap();
    assert_eq!(e.host, "203.0.113.7");
    assert_eq!(e.port, None);
    assert_eq!(e.text(), "203.0.113.7");
}

#[test]
fn endpoint_host_is_normalised() {
    let e = Endpoint::parse("VPN.Example.COM:80").unwrap();
    assert_eq!(e.text(), "vpn.example.com:80");
}

#[test]
fn endpoint_bad_port() {
    assert_eq!(Endpoint::parse("host:abc").unwrap_err(), EndpointError::InvalidPort);
    assert_eq!(Endpoint::parse("host:").unwrap_err(), EndpointError::InvalidPort);
    assert_eq!(Endpoint::parse("host:65536").unwrap_err(), EndpointError::InvalidPort);
}

#[test]
fn endpoint_bad_host() {
    assert_eq!(Endpoint::parse(":80").unwrap_err(), EndpointError::InvalidHost);
    assert_eq!(Endpoint::parse("").unwrap_err(), EndpointError::InvalidHost);
    assert_eq!(Endpoint::parse("bad host:80").unwrap_err(), EndpointError::InvalidHost);
}

#[test]
fn endpoint_bad_host_wins_over_bad_port() {
    assert_eq!(Endpoint::parse("bad host:x").unwrap_err(), EndpointError::InvalidHost);
}

#[test]
fn port_parsing_follows_u16() {
    assert_eq!(parse_port("0"), Some(0));
    assert_eq!(parse_port("+8080"), Some(8080));
    assert_eq!(parse_port("00080"), Some(80));
    assert_eq!(parse_port("65535"), Some(65535));
    assert_eq!(parse_port("65536"), None);
    assert_eq!(parse_port("999999999999"), None);
    assert_eq!(parse_port("+"), None);
    assert_eq!(parse_port("-1"), None);
    assert_eq!(parse_port(""), None);
    assert_eq!(parse_port("12a"), None);
    for s in ["7", "+7", "1234", "65535", "65536", "x", "+", ""] {
        assert_eq!(parse_port(s), s.parse::<u16>().ok());
    }
}

#[test]
fn decimal_text() {
    assert_eq!(decimal_string(0), "0");
    assert_eq!(decimal_string(7), "7");
    assert_eq!(decimal_string(55000), "55000");
    assert_eq!(decimal_string(u64::MAX), u64::MAX.to_string());
}

#[test]
fn endpoint_duplicate_keeps_fields() {
    let e = Endpoint::parse("example.org:1").unwrap();
    let d = e.duplicate();
    assert_eq!(d.host, e.host);
    assert_eq!(d.port, e.port);
}
