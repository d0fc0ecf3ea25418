use websocket_bridge::address::{Address, AddressError};
use websocket_bridge::codec::{copy_range, AddressRead, AddressReader};
use websocket_bridge::net::{IpAddr, SocketAddr, SocketAddrV6};

fn v4() -> Address {
    Address::SocketAddr(SocketAddr::new(IpAddr::V4([127, 0, 0, 1]), 0x1f90))
}

fn v6() -> Address {
    Address::SocketAddr(SocketAddr::new(
        IpAddr::V6([0, 1, 2, 3, 4, 5, 6, 7, 8, 9, 10, 11, 12, 13, 14, 15]),
        443,
    ))
}

fn domain(name: &str, port: u16) -> Address {
    Address::Domain(name.to_string(), port)
}

fn written(a: &Address) -> Vec<u8> {
    let mut out = Vec::new();
    assert_eq!(a.write(&mut out), Ok(()));
    out
}

fn google() -> Vec<u8> {
    vec![3, 10, 103, 111, 111, 103, 108, 101, 46, 99, 111, 109, 0, 80]
}

#[test]
fn written_forms() {
    assert_eq!(written(&v4()), vec![1, 127, 0, 0, 1, 0x1f, 0x90]);
    assert_eq!(
        written(&v6()),
        vec![4, 0, 1, 2, 3, 4, 5, 6, 7, 8, 9, 10, 11, 12, 13, 14, 15, 1, 187]
    );
    assert_eq!(written(&domain("google.com", 80)), google());
    assert_eq!(written(&domain("\u{e9}", 1)), vec![3, 2, 0xc3, 0xa9, 0, 1]);
    assert_eq!(written(&domain("", 1)), vec![3, 0, 0, 1]);
}

#[test]
fn writing_appends() {
    let mut out = vec![5, 1, 0];
    assert_eq!(v4().write(&mut out), Ok(()));
    assert_eq!(out, vec![5, 1, 0, 1, 127, 0, 0, 1, 0x1f, 0x90]);
    let mut port = vec![9];
    Address::write_port(&mut port, 258);
    assert_eq!(port, vec![9, 1, 2]);
}

#[test]
fn lengths() {
    assert_eq!(v4().serialized_len(), Ok(7));
    assert_eq!(v6().serialized_len(), Ok(19));
    assert_eq!(domain("google.com", 80).serialized_len(), Ok(14));
    assert_eq!(domain(&"a".repeat(255), 80).serialized_len(), Ok(259));
}

#[test]
fn length_is_that_of_what_is_written() {
    for a in [v4(), v6(), domain("google.com", 80), domain("\u{20ac}", 80)] {
        assert_eq!(a.serialized_len(), Ok(written(&a).len()));
    }
}

#[test]
fn long_domains_are_refused() {
    let long = domain(&"a".repeat(256), 80);
    assert_eq!(long.serialized_len(), Err(AddressError::InvalidDomain));
    let mut out = vec![7];
    assert_eq!(long.write(&mut out), Err(AddressError::DomainName));
    assert_eq!(out, vec![7]);
    let octets = domain(&"\u{e9}".repeat(128), 80);
    assert_eq!(octets.serialized_len(), Err(AddressError::InvalidDomain));
}

#[test]
fn read_gives_back_what_was_written() {
    for a in [v4(), v6(), domain("google.com", 80), domain("", 0), domain("\u{20ac}.eu", 65535),
        domain(&"a".repeat(255), 80)] {
        let mut bytes = written(&a);
        let n = bytes.len();
        bytes.extend_from_slice(&[1, 2, 3]);
        assert_eq!(Address::read(&bytes), Ok((a, n)));
    }
}

#[test]
fn flow_and_scope_are_not_carried() {
    let a = Address::SocketAddr(SocketAddr::V6(SocketAddrV6 {
        ip: [1; 16],
        port: 80,
        flowinfo: 3,
        scope_id: 4,
    }));
    let b = Address::SocketAddr(SocketAddr::new(IpAddr::V6([1; 16]), 80));
    assert_eq!(Address::read(&written(&a)), Ok((b, 19)));
}

#[test]
fn write_gives_back_what_was_read() {
    let bytes = google();
    let (a, n) = Address::read(&bytes).unwrap();
    assert_eq!(n, bytes.len());
    assert_eq!(written(&a), bytes);
}

#[test]
fn reading_fails() {
    assert_eq!(Address::read(&[]), Err(AddressError::UnexpectedEof));
    assert_eq!(Address::read(&[1, 127, 0, 0]), Err(AddressError::UnexpectedEof));
    assert_eq!(Address::read(&[1, 127, 0, 0, 1, 0]), Err(AddressError::UnexpectedEof));
    assert_eq!(Address::read(&[3]), Err(AddressError::UnexpectedEof));
    assert_eq!(Address::read(&[3, 2, 97]), Err(AddressError::UnexpectedEof));
    assert_eq!(Address::read(&[3, 1, 97, 0]), Err(AddressError::UnexpectedEof));
    assert_eq!(Address::read(&[4; 18]), Err(AddressError::UnexpectedEof));
    assert_eq!(Address::read(&[3, 1, 0xff]), Err(AddressError::InvalidDomain));
    assert_eq!(Address::read(&[2, 0, 0]), Err(AddressError::InvalidAddress));
    assert_eq!(Address::read(&[0]), Err(AddressError::InvalidAddress));
}

#[test]
fn read_from_a_buffer() {
    let mut buf = vec![5, 1, 0];
    buf.extend_from_slice(&google());
    buf.push(0);
    assert_eq!(Address::read_from_buf(&buf, 3), Ok(domain("google.com", 80)));
    assert_eq!(
        Address::read_from_buf(&vec![9, 1, 127, 0, 0, 1, 0x1f, 0x90], 1),
        Ok(v4())
    );
    assert_eq!(Address::read_from_buf(&written(&v6()), 0), Ok(v6()));
    assert_eq!(Address::read_from_buf(&vec![0, 7], 1), Err(AddressError::InvalidAddress));
    assert_eq!(
        Address::read_from_buf(&vec![3, 2, 0xc3, 0x28, 0, 80], 0),
        Err(AddressError::InvalidDomain)
    );
}

#[test]
fn read_piece_by_piece() {
    let bytes = google();
    let mut reader = AddressReader::new();
    let mut at = 0;
    let mut sizes = Vec::new();
    let addr = loop {
        let n = reader.wants();
        sizes.push(n);
        match reader.feed(&bytes[at..at + n]) {
            Ok(AddressRead::More(next)) => {
                at += n;
                reader = next;
            }
            Ok(AddressRead::Done(addr)) => {
                break addr;
            }
            Err(e) => panic!("{:?}", e),
        }
    };
    assert_eq!(sizes, vec![1, 1, 10, 2]);
    assert_eq!(Address::read(&bytes), Ok((addr, 14)));
}

#[test]
fn pieces_of_an_ip_address() {
    let r = AddressReader::new().feed(&[1]).unwrap();
    let reader = match r {
        AddressRead::More(reader) => reader,
        AddressRead::Done(_) => panic!("too early"),
    };
    assert_eq!(reader.wants(), 4);
    let reader = match reader.feed(&[127, 0, 0, 1]).unwrap() {
        AddressRead::More(reader) => reader,
        AddressRead::Done(_) => panic!("too early"),
    };
    assert_eq!(reader.wants(), 2);
    assert_eq!(reader.feed(&[0x1f, 0x90]), Ok(AddressRead::Done(v4())));
    assert_eq!(AddressReader::new().feed(&[9]), Err(AddressError::InvalidAddress));
    assert_eq!(
        AddressReader::Domain(1).feed(&[0x80]),
        Err(AddressError::InvalidDomain)
    );
}

#[test]
fn ports() {
    assert_eq!(Address::read_port(0, 80), 80);
    assert_eq!(Address::read_port(0x1f, 0x90), 8080);
    for port in [0u16, 1, 255, 256, 65535] {
        let mut b = Vec::new();
        Address::write_port(&mut b, port);
        assert_eq!(Address::read_port(b[0], b[1]), port);
    }
}

#[test]
fn ranges_are_copied() {
    assert_eq!(copy_range(&[1, 2, 3, 4], 1, 3), vec![2, 3]);
    assert_eq!(copy_range(&[1, 2], 2, 2), Vec::<u8>::new());
}
