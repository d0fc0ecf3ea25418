use websocket_bridge::net::{parse_ip, IpAddr, SocketAddr, SocketAddrV6};
use websocket_bridge::text::{begins_with, parse_number, parse_port, push_number, to_digit, trim};

fn chars(s: &str) -> Vec<char> {
    s.chars().collect()
}

fn ip(s: &str) -> Option<IpAddr> {
    parse_ip(&chars(s))
}

fn v6(groups: [u16; 8]) -> IpAddr {
    let mut ip = [0u8; 16];
    for i in 0..8 {
        ip[2 * i] = (groups[i] / 256) as u8;
        ip[2 * i + 1] = (groups[i] % 256) as u8;
    }
    IpAddr::V6(ip)
}

fn text(addr: IpAddr) -> String {
    let mut out = String::new();
    SocketAddr::new(addr, 1).push_text(&mut out);
    out
}

#[test]
fn ipv4_is_read() {
    assert_eq!(ip("0.0.0.0"), Some(IpAddr::V4([0, 0, 0, 0])));
    assert_eq!(ip("255.255.255.255"), Some(IpAddr::V4([255, 255, 255, 255])));
    assert_eq!(ip("1.22.133.4"), Some(IpAddr::V4([1, 22, 133, 4])));
}

#[test]
fn ipv4_is_refused() {
    for s in ["", "1", "1.2.3", "1.2.3.4.5", "1.2.3.256", "01.2.3.4", "1.2.3.00", "1..3.4",
        "1.2.3.4 ", " 1.2.3.4", "1.2.3.a", "+1.2.3.4", "1.2.3.1000", "1.2.3."] {
        assert_eq!(ip(s), None, "{}", s);
    }
}

#[test]
fn ipv6_is_read() {
    assert_eq!(ip("::"), Some(v6([0, 0, 0, 0, 0, 0, 0, 0])));
    assert_eq!(ip("::1"), Some(v6([0, 0, 0, 0, 0, 0, 0, 1])));
    assert_eq!(ip("1::"), Some(v6([1, 0, 0, 0, 0, 0, 0, 0])));
    assert_eq!(ip("1:2:3:4:5:6:7:8"), Some(v6([1, 2, 3, 4, 5, 6, 7, 8])));
    assert_eq!(ip("1:2:3:4:5:6:7::"), Some(v6([1, 2, 3, 4, 5, 6, 7, 0])));
    assert_eq!(ip("::2:3:4:5:6:7:8"), Some(v6([0, 2, 3, 4, 5, 6, 7, 8])));
    assert_eq!(ip("ABCD:ef01::0000"), Some(v6([0xabcd, 0xef01, 0, 0, 0, 0, 0, 0])));
    assert_eq!(ip("::1.2.3.4"), Some(v6([0, 0, 0, 0, 0, 0, 0x102, 0x304])));
    assert_eq!(ip("::ffff:1.2.3.4"), Some(v6([0, 0, 0, 0, 0, 0xffff, 0x102, 0x304])));
    assert_eq!(ip("1:2:3:4:5:6:1.2.3.4"), Some(v6([1, 2, 3, 4, 5, 6, 0x102, 0x304])));
}

#[test]
fn ipv6_is_refused() {
    for s in [":", ":::", "1::2::3", "1:2:3:4:5:6:7", "1:2:3:4:5:6:7:8:9", "1:2:3:4:5:6:7:8::",
        "::1:2:3:4:5:6:7:8", "12345::", "g::", ":1:2:3:4:5:6:7:8", "1:2:3:4:5:6:7:8:",
        "1.2.3.4::", "::1.2.3.4:5", "1:2:3:4:5:6:7:1.2.3.4", "fe80::1%1", "[::1]", "::1 "] {
        assert_eq!(ip(s), None, "{}", s);
    }
}

#[test]
fn ipv6_text() {
    assert_eq!(text(v6([0, 0, 0, 0, 0, 0, 0, 0])), "[::]:1");
    assert_eq!(text(v6([1, 0, 0, 0, 0, 0, 0, 0])), "[1::]:1");
    assert_eq!(text(v6([0, 0, 0, 0, 0, 0xffff, 0x102, 0x304])), "[::ffff:1.2.3.4]:1");
    assert_eq!(text(v6([0, 0, 0, 0, 0, 0, 0x102, 0x304])), "[::102:304]:1");
    assert_eq!(text(v6([1, 0, 0, 2, 0, 0, 0, 3])), "[1:0:0:2::3]:1");
    assert_eq!(text(v6([1, 0, 0, 2, 3, 0, 0, 4])), "[1::2:3:0:0:4]:1");
    assert_eq!(text(v6([1, 0, 2, 0, 3, 0, 4, 0])), "[1:0:2:0:3:0:4:0]:1");
    assert_eq!(text(v6([0xabcd, 0xef, 0xf, 0, 1, 2, 3, 4])), "[abcd:ef:f:0:1:2:3:4]:1");
}

#[test]
fn ports_of_socket_addresses() {
    assert_eq!(SocketAddr::new(IpAddr::V4([1, 2, 3, 4]), 80).port(), 80);
    assert_eq!(SocketAddr::new(IpAddr::V6([0; 16]), 81).port(), 81);
}

#[test]
fn new_has_no_flow_or_scope() {
    assert_eq!(
        SocketAddr::new(IpAddr::V6([9; 16]), 81),
        SocketAddr::V6(SocketAddrV6 { ip: [9; 16], port: 81, flowinfo: 0, scope_id: 0 })
    );
}

#[test]
fn text_is_appended() {
    let mut out = String::from("to ");
    SocketAddr::new(IpAddr::V4([1, 2, 3, 4]), 80).push_text(&mut out);
    assert_eq!(out, "to 1.2.3.4:80");
}

#[test]
fn numbers() {
    assert_eq!(parse_number(&chars("ff"), 16, 255), Some(255));
    assert_eq!(parse_number(&chars("100"), 16, 255), None);
    assert_eq!(parse_number(&chars(""), 10, 255), None);
    assert_eq!(parse_number(&chars("00000000000000000007"), 10, 9), Some(7));
    assert_eq!(parse_number(&chars("99999999999999999999"), 10, 9), None);
    assert_eq!(to_digit('z', 36), Some(35));
    assert_eq!(to_digit('z', 35), None);
    assert_eq!(to_digit('F', 16), Some(15));
    let mut out = String::from("n=");
    push_number(&mut out, 4294967295, 10);
    assert_eq!(out, "n=4294967295");
    let mut hex = String::new();
    push_number(&mut hex, 0xbeef, 16);
    assert_eq!(hex, "beef");
    let mut zero = String::new();
    push_number(&mut zero, 0, 10);
    assert_eq!(zero, "0");
}

#[test]
fn port_texts() {
    assert_eq!(parse_port(&chars("80")), Some(80));
    assert_eq!(parse_port(&chars("+80")), Some(80));
    assert_eq!(parse_port(&chars("++80")), None);
    assert_eq!(parse_port(&chars("+")), None);
    assert_eq!(parse_port(&chars("")), None);
    assert_eq!(parse_port(&chars("65536")), None);
}

#[test]
fn blanks_are_cut_off() {
    assert_eq!(trim(&chars(" \t\n\u{3000}a b\u{a0} ")).to_vec(), chars("a b"));
    assert_eq!(trim(&chars("  ")).to_vec(), chars(""));
    assert_eq!(trim(&chars("x")).to_vec(), chars("x"));
}

#[test]
fn prefixes() {
    assert!(begins_with("ws://a", "ws://"));
    assert!(begins_with("ws://", "ws://"));
    assert!(begins_with("a", ""));
    assert!(!begins_with("ws:/", "ws://"));
    assert!(!begins_with("Ws://", "ws://"));
}
