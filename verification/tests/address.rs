use websocket_bridge::address::{host_to_address, no_addr, strip_brackets, Address, AddressError};
use websocket_bridge::net::{IpAddr, SocketAddr, SocketAddrV6};

fn v4(ip: [u8; 4], port: u16) -> Address {
    Address::SocketAddr(SocketAddr::new(IpAddr::V4(ip), port))
}

fn v6(groups: [u16; 8], port: u16) -> Address {
    let mut ip = [0u8; 16];
    for i in 0..8 {
        ip[2 * i] = (groups[i] / 256) as u8;
        ip[2 * i + 1] = (groups[i] % 256) as u8;
    }
    Address::SocketAddr(SocketAddr::new(IpAddr::V6(ip), port))
}

fn domain(name: &str, port: u16) -> Address {
    Address::Domain(name.to_string(), port)
}

#[test]
fn default_is_unspecified() {
    assert_eq!(Address::default(), v4([0, 0, 0, 0], 0));
    assert_eq!(Address::default().to_string(), "0.0.0.0:0");
}

#[test]
fn from_socket_addr() {
    let s = SocketAddr::new(IpAddr::V4([1, 2, 3, 4]), 5);
    assert_eq!(Address::from(s), v4([1, 2, 3, 4], 5));
}

#[test]
fn clone_is_equal() {
    let a = domain("example.com", 80);
    assert_eq!(a.clone(), a);
    let b = v4([127, 0, 0, 1], 8080);
    assert_eq!(b.clone(), b);
}

#[test]
fn socket_addr_of_address() {
    let s = SocketAddr::new(IpAddr::V4([1, 2, 3, 4]), 5);
    assert_eq!(Address::SocketAddr(s).to_socket_addr(), Ok(s));
    assert_eq!(domain("example.com", 80).to_socket_addr(), Err(AddressError::InvalidInput));
}

#[test]
fn brackets_are_stripped() {
    assert_eq!(strip_brackets("[::1]"), "::1");
    assert_eq!(strip_brackets("[::1"), "[::1");
    assert_eq!(strip_brackets("::1]"), "::1]");
    assert_eq!(strip_brackets("["), "[");
    assert_eq!(strip_brackets("[]"), "");
    assert_eq!(strip_brackets(""), "");
    assert_eq!(strip_brackets("[[a]]"), "[a]");
    assert_eq!(strip_brackets("[\u{e9}]"), "\u{e9}");
}

#[test]
fn missing_address() {
    assert_eq!(no_addr(), AddressError::AddrNotAvailable);
}

#[test]
fn hosts() {
    assert_eq!(host_to_address("10.0.0.1", 80), v4([10, 0, 0, 1], 80));
    assert_eq!(host_to_address("[10.0.0.1]", 80), v4([10, 0, 0, 1], 80));
    assert_eq!(host_to_address("[::1]", 80), v6([0, 0, 0, 0, 0, 0, 0, 1], 80));
    assert_eq!(host_to_address("example.com", 80), domain("example.com", 80));
    assert_eq!(host_to_address("[example.com]", 80), domain("[example.com]", 80));
    assert_eq!(host_to_address("", 80), domain("", 80));
}

#[test]
fn parse_socket_addresses() {
    assert_eq!(Address::from_str("127.0.0.1:8080"), Ok(v4([127, 0, 0, 1], 8080)));
    assert_eq!(Address::from_str("[::1]:443"), Ok(v6([0, 0, 0, 0, 0, 0, 0, 1], 443)));
    assert_eq!(Address::from_str("::1:443"), Ok(v6([0, 0, 0, 0, 0, 0, 0, 1], 443)));
    assert_eq!(
        Address::from_str("[2001:db8::8:800:200c:417a]:1"),
        Ok(v6([0x2001, 0xdb8, 0, 0, 8, 0x800, 0x200c, 0x417a], 1))
    );
}

#[test]
fn parse_domains() {
    assert_eq!(Address::from_str("example.com:80"), Ok(domain("example.com", 80)));
    assert_eq!(Address::from_str("example.com:+80"), Ok(domain("example.com", 80)));
    assert_eq!(Address::from_str(":80"), Ok(domain("", 80)));
    assert_eq!(Address::from_str("a:b:80"), Ok(domain("a:b", 80)));
    assert_eq!(Address::from_str("256.0.0.1:80"), Ok(domain("256.0.0.1", 80)));
}

#[test]
fn parse_failures() {
    let bad = ["", "example.com", "80", "example.com:", "example.com:x", "example.com:65536",
        "example.com:-1", "example.com: 80", "example.com:+", "[::1]"];
    for s in bad {
        assert_eq!(Address::from_str(s), Err(AddressError::AddrNotAvailable), "{}", s);
    }
}

#[test]
fn largest_port() {
    assert_eq!(Address::from_str("h:65535"), Ok(domain("h", 65535)));
    assert_eq!(Address::from_str("h:00080"), Ok(domain("h", 80)));
}

#[test]
fn display() {
    assert_eq!(domain("example.com", 80).to_string(), "example.com:80");
    assert_eq!(v4([192, 168, 0, 255], 65535).to_string(), "192.168.0.255:65535");
    assert_eq!(v6([0, 0, 0, 0, 0, 0, 0, 1], 0).to_string(), "[::1]:0");
}

#[test]
fn text_of_address_denotes_it() {
    let addresses = [
        v4([1, 20, 255, 0], 9),
        v6([0, 0, 0, 0, 0, 0, 0, 0], 1),
        v6([0, 0, 0, 0, 0, 0xffff, 0xc000, 0x0201], 2),
        v6([1, 0, 0, 2, 0, 0, 0, 3], 3),
        v6([1, 2, 3, 4, 5, 6, 7, 8], 4),
        v6([0xfe80, 0, 1, 0, 1, 0, 1, 0], 5),
        v6([0, 0, 1, 1, 1, 1, 0, 0], 6),
        domain("example.com", 80),
    ];
    for a in addresses {
        assert_eq!(Address::from_str(&a.to_string()), Ok(a));
    }
}

#[test]
fn scope_is_shown_and_not_read() {
    let a = Address::SocketAddr(SocketAddr::V6(SocketAddrV6 {
        ip: [0xfe, 0x80, 0, 0, 0, 0, 0, 0, 0, 0, 0, 0, 0, 0, 0, 1],
        port: 80,
        flowinfo: 7,
        scope_id: 12,
    }));
    assert_eq!(a.to_string(), "[fe80::1%12]:80");
    assert_eq!(Address::from_str("[fe80::1%12]:80"), Ok(domain("[fe80::1%12]", 80)));
}

#[test]
fn messages_of_errors() {
    assert_eq!(AddressError::AddrNotAvailable.message(), "address not available");
    assert_eq!(AddressError::InvalidInput.message(), "invalid input");
    assert_eq!(AddressError::InvalidDomain.message(), "invalid domain");
    assert_eq!(AddressError::DomainName.message(), "domain name");
    assert_eq!(AddressError::InvalidAddress.message(), "invalid address");
    assert_eq!(AddressError::UnexpectedEof.message(), "early eof");
}

#[test]
fn parse_by_trait() {
    assert_eq!("example.com:80".parse::<Address>(), Ok(domain("example.com", 80)));
    assert_eq!("example.com".parse::<Address>(), Err(AddressError::AddrNotAvailable));
}
