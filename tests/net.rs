use wgdhc::net::{IpAddress, Subnet};

fn v4(a: u8, b: u8, c: u8, d: u8) -> IpAddress {
    IpAddress::V4(u32::from_be_bytes([a, b, c, d]))
}

#[test]
fn host_range_of_slash_16() {
    let n = Subnet { addr: v4(10, 11, 0, 1), prefix_len: 16 };
    let (first, last) = n.host_range();
    assert_eq!(first, u32::from_be_bytes([10, 11, 0, 1]) as u128);
    assert_eq!(last, u32::from_be_bytes([10, 11, 255, 254]) as u128);
}

#[test]
fn host_range_of_slash_31_and_32() {
    let n = Subnet { addr: v4(10, 0, 0, 1), prefix_len: 31 };
    assert_eq!(n.host_range(), (0x0A00_0000, 0x0A00_0001));
    let n = Subnet { addr: v4(10, 0, 0, 1), prefix_len: 32 };
    assert_eq!(n.host_range(), (0x0A00_0001, 0x0A00_0001));
}

#[test]
fn host_range_of_slash_0_v4() {
    let n = Subnet { addr: v4(1, 2, 3, 4), prefix_len: 0 };
    assert_eq!(n.host_range(), (1, 0xFFFF_FFFE));
}

#[test]
fn host_range_of_ipv6() {
    let n = Subnet { addr: IpAddress::V6(0xfd00_0000_0000_0000_0000_0000_0000_0001), prefix_len: 126 };
    assert_eq!(
        n.host_range(),
        (0xfd00_0000_0000_0000_0000_0000_0000_0000, 0xfd00_0000_0000_0000_0000_0000_0000_0003)
    );
    let all = Subnet { addr: IpAddress::V6(5), prefix_len: 0 };
    assert_eq!(all.host_range(), (0, u128::MAX));
}

#[test]
fn subnet_text() {
    let n = Subnet { addr: v4(10, 11, 0, 2), prefix_len: 16 };
    assert_eq!(n.text(), "10.11.0.2/16");
    let h = Subnet::host_route(IpAddress::V6(1));
    assert_eq!(h.text(), "::1/128");
}

#[test]
fn subnet_parse() {
    assert_eq!(
        Subnet::parse("10.11.0.1/16"),
        Some(Subnet { addr: v4(10, 11, 0, 1), prefix_len: 16 })
    );
    assert_eq!(
        Subnet::parse("fd00::1/64"),
        Some(Subnet { addr: IpAddress::V6(0xfd00_0000_0000_0000_0000_0000_0000_0001), prefix_len: 64 })
    );
    assert_eq!(Subnet::parse("10.11.0.1/33"), None);
    assert_eq!(Subnet::parse("10.11.0.1"), None);
    assert_eq!(Subnet::parse("nonsense"), None);
}

#[test]
fn subnet_trunc() {
    let n = Subnet { addr: v4(10, 11, 0, 2), prefix_len: 16 };
    assert_eq!(n.trunc(), Subnet { addr: v4(10, 11, 0, 0), prefix_len: 16 });
    assert_eq!(n.trunc().text(), "10.11.0.0/16");
}

#[test]
fn contains_usable_excludes_interface_and_ends() {
    let n = Subnet { addr: v4(10, 0, 0, 1), prefix_len: 29 };
    assert!(!n.contains_usable(&v4(10, 0, 0, 0)));
    assert!(!n.contains_usable(&v4(10, 0, 0, 1)));
    assert!(n.contains_usable(&v4(10, 0, 0, 2)));
    assert!(n.contains_usable(&v4(10, 0, 0, 6)));
    assert!(!n.contains_usable(&v4(10, 0, 0, 7)));
    assert!(!n.contains_usable(&v4(10, 0, 0, 8)));
    assert!(!n.contains_usable(&IpAddress::V6(0x0A00_0002)));
}

#[test]
fn max_prefix_len_by_family() {
    assert_eq!(v4(1, 1, 1, 1).max_prefix_len(), 32);
    assert_eq!(IpAddress::V6(1).max_prefix_len(), 128);
}
