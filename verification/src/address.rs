//! Addresses of the SOCKS5 protocol: a socket address, or a domain name with a port.
use vstd::prelude::*;
use crate::net::{
    ip_value, ipv4_text, ipv6_text, lemma_ip_value_valid, lemma_ipv4_round_trip,
    lemma_ipv6_round_trip, parse_ip, socket_of, socket_text, IpAddr, IpModel, SocketAddr,
    SocketModel,
};
use crate::text::{
    digits, last_index, last_index_of, lemma_digit_is_no_mark, lemma_digits_denote,
    lemma_last_index, lemma_no_last_index, lemma_port_of_digits, parse_port, port_value, push_number,
    to_chars,
};

verus! {

/// Address type in socks5.
#[derive(Debug, PartialEq, Eq)]
pub enum Address {
    /// SocketAddr
    SocketAddr(SocketAddr),
    /// Domain
    Domain(String, u16),
}

/// Why an address could not be read, written or converted.
#[derive(Debug, Clone, Copy, PartialEq, Eq, Structural)]
pub enum AddressError {
    /// The text is not a host and a port.
    AddrNotAvailable,
    /// A domain was given where a socket address is needed.
    InvalidInput,
    /// The domain is too long to be measured, or is not valid text.
    InvalidDomain,
    /// The domain is too long to be written.
    DomainName,
    /// The address type is none of those known.
    InvalidAddress,
    /// The input ended inside an address.
    UnexpectedEof,
}

/// What an `Address` stands for.
#[verifier::ext_equal]
pub enum AddressModel {
    Socket(SocketModel),
    Domain(Seq<char>, u16),
}

impl View for Address {
    type V = AddressModel;

    open spec fn view(&self) -> AddressModel {
        match *self {
            Address::SocketAddr(s) => AddressModel::Socket(s@),
            Address::Domain(domain, port) => AddressModel::Domain(domain@, port),
        }
    }
}

/// The octets of a socket address have the length that its version asks for.
pub open spec fn valid(addr: AddressModel) -> bool {
    match addr {
        AddressModel::Socket(s) => s.valid(),
        AddressModel::Domain(..) => true,
    }
}

impl AddressError {
    /// A short description.
    pub open spec fn text(self) -> Seq<char> {
        match self {
            AddressError::AddrNotAvailable => "address not available"@,
            AddressError::InvalidInput => "invalid input"@,
            AddressError::InvalidDomain => "invalid domain"@,
            AddressError::DomainName => "domain name"@,
            AddressError::InvalidAddress => "invalid address"@,
            AddressError::UnexpectedEof => "early eof"@,
        }
    }

    /// A short description.
    pub fn message(&self) -> (text: &'static str)
        ensures
            text@ == self.text(),
    {
        match self {
            AddressError::AddrNotAvailable => "address not available",
            AddressError::InvalidInput => "invalid input",
            AddressError::InvalidDomain => "invalid domain",
            AddressError::DomainName => "domain name",
            AddressError::InvalidAddress => "invalid address",
            AddressError::UnexpectedEof => "early eof",
        }
    }
}

// ---------------------------------------------------------------------------
// Conversions
// ---------------------------------------------------------------------------

impl Clone for Address {
    fn clone(&self) -> (r: Self)
        ensures
            r@ == self@,
    {
        match self {
            Address::SocketAddr(s) => Address::SocketAddr(*s),
            Address::Domain(domain, port) => Address::Domain(domain.clone(), *port),
        }
    }
}

impl Default for Address {
    fn default() -> (r: Self)
        ensures
            r@ == AddressModel::Socket(SocketModel::V4 { ip: seq![0u8, 0u8, 0u8, 0u8], port: 0 }),
    {
        let r = Address::SocketAddr(SocketAddr::new(IpAddr::V4([0, 0, 0, 0]), 0));
        assert(r@ =~~= AddressModel::Socket(
            SocketModel::V4 { ip: seq![0u8, 0u8, 0u8, 0u8], port: 0 },
        ));
        r
    }
}

impl From<SocketAddr> for Address {
    fn from(addr: SocketAddr) -> (r: Self) {
        Address::SocketAddr(addr)
    }
}

impl vstd::std_specs::convert::FromSpecImpl<SocketAddr> for Address {
    open spec fn obeys_from_spec() -> bool {
        true
    }

    open spec fn from_spec(addr: SocketAddr) -> Self {
        Address::SocketAddr(addr)
    }
}

impl Address {
    /// Convert `Address` to `SocketAddr`. If `Address` is a domain, return
    /// `AddressError::InvalidInput`.
    pub fn to_socket_addr(self) -> (r: Result<SocketAddr, AddressError>)
        ensures
            match self@ {
                AddressModel::Socket(s) => r is Ok && r->Ok_0@ == s,
                AddressModel::Domain(..) => r == Err::<SocketAddr, AddressError>(
                    AddressError::InvalidInput,
                ),
            },
    {
        match self {
            Address::SocketAddr(s) => Ok(s),
            Address::Domain(_, _) => Err(AddressError::InvalidInput),
        }
    }
}

// ---------------------------------------------------------------------------
// Text
// ---------------------------------------------------------------------------

/// The text of an address.
pub open spec fn address_text(addr: AddressModel) -> Seq<char> {
    match addr {
        AddressModel::Socket(s) => socket_text(s),
        AddressModel::Domain(domain, port) => domain + seq![':'] + digits(port as nat, 10),
    }
}

/// The text between a leading `[` and a trailing `]`, or the whole text where
/// it does not have both.
pub open spec fn without_brackets(host: Seq<char>) -> Seq<char> {
    if host.len() >= 2 && host[0] == '[' && host.last() == ']' {
        host.subrange(1, host.len() - 1)
    } else {
        host
    }
}

/// The address of a host and a port: a socket address where the host is an IP
/// address, in brackets or not, and else a domain.
pub open spec fn host_value(host: Seq<char>, port: u16) -> AddressModel {
    match ip_value(without_brackets(host)) {
        Some(ip) => AddressModel::Socket(socket_of(ip, port)),
        None => AddressModel::Domain(host, port),
    }
}

/// The address that a text denotes: what precedes its last colon is the host,
/// and what follows is the port.
pub open spec fn address_value(s: Seq<char>) -> Option<AddressModel> {
    match last_index(s, ':') {
        Some(i) => match port_value(s.skip(i + 1)) {
            Some(port) => Some(host_value(s.take(i), port)),
            None => None,
        },
        None => None,
    }
}

/// Removes a leading `[` and a trailing `]`, if both are there.
pub fn strip_brackets(host: &str) -> (inner: &str)
    ensures
        inner@ == without_brackets(host@),
{
    let len: usize = host.unicode_len();
    if len >= 2 && host.get_char(0) == '[' && host.get_char(len - 1) == ']' {
        host.substring_char(1, len - 1)
    } else {
        host
    }
}

/// The address of a host and a port.
pub fn host_to_address(host: &str, port: u16) -> (addr: Address)
    ensures
        addr@ == host_value(host@, port),
{
    match parse_ip(to_chars(strip_brackets(host)).as_slice()) {
        Some(ip) => Address::from(SocketAddr::new(ip, port)),
        None => Address::Domain(host.to_owned(), port),
    }
}

/// The error for a text that is not a host and a port.
pub fn no_addr() -> (e: AddressError)
    ensures
        e == AddressError::AddrNotAvailable,
{
    AddressError::AddrNotAvailable
}

impl Address {
    /// Reads an address from text.
    pub fn from_str(s: &str) -> (r: Result<Address, AddressError>)
        ensures
            match address_value(s@) {
                Some(addr) => r is Ok && r->Ok_0@ == addr,
                None => r == Err::<Address, AddressError>(AddressError::AddrNotAvailable),
            },
    {
        let chars = to_chars(s);
        let i: usize = match last_index_of(chars.as_slice(), ':') {
            Some(i) => i,
            None => {
                return Err(no_addr());
            },
        };
        let len: usize = chars.len();
        proof {
            assert(chars@.subrange(i + 1, len as int) =~= s@.skip(i + 1));
        }
        let port: u16 = match parse_port(vstd::slice::slice_subrange(chars.as_slice(), i + 1, len)) {
            Some(port) => port,
            None => {
                return Err(no_addr());
            },
        };
        let host = s.substring_char(0, i);
        assert(host@ =~= s@.take(i as int));
        Ok(host_to_address(host, port))
    }

    /// The text of the address.
    pub fn to_string(&self) -> (text: String)
        ensures
            text@ == address_text(self@),
    {
        match self {
            Address::SocketAddr(s) => {
                let mut text = String::new();
                s.push_text(&mut text);
                assert(text@ =~= address_text(self@));
                text
            },
            Address::Domain(domain, port) => {
                let mut text = domain.clone();
                text.push(':');
                push_number(&mut text, *port as u32, 10);
                assert(text@ =~= address_text(self@));
                text
            },
        }
    }
}

impl std::str::FromStr for Address {
    type Err = AddressError;

    /// Reads an address from text, as `Address::from_str` does.
    fn from_str(s: &str) -> (r: Result<Address, AddressError>)
        ensures
            match address_value(s@) {
                Some(addr) => r is Ok && r->Ok_0@ == addr,
                None => r == Err::<Address, AddressError>(AddressError::AddrNotAvailable),
            },
    {
        Address::from_str(s)
    }
}

// ---------------------------------------------------------------------------
// Laws
// ---------------------------------------------------------------------------

/// The address is one that a text can denote: neither flow information nor scope, and no
/// domain that is an IP address.
pub open spec fn denotable(addr: AddressModel) -> bool {
    match addr {
        AddressModel::Socket(SocketModel::V4 { .. }) => true,
        AddressModel::Socket(SocketModel::V6 { flowinfo, scope_id, .. }) => flowinfo == 0
            && scope_id == 0,
        AddressModel::Domain(domain, _) => ip_value(without_brackets(domain)) is None,
    }
}

/// The text of an address denotes that address.
pub proof fn lemma_text_round_trip(addr: AddressModel)
    requires
        valid(addr),
        denotable(addr),
    ensures
        address_value(address_text(addr)) == Some(addr),
{
    match addr {
        AddressModel::Socket(SocketModel::V4 { ip, port }) => {
            let host = ipv4_text(ip);
            lemma_ipv4_round_trip(ip);
            lemma_host_and_port(host, port);
            assert(host.contains(host[0]));
            assert(without_brackets(host) == host);
        },
        AddressModel::Socket(SocketModel::V6 { ip, port, .. }) => {
            let inner = ipv6_text(ip);
            let host = seq!['['] + inner + seq![']'];
            lemma_ipv6_round_trip(ip);
            lemma_host_and_port(host, port);
            assert(address_text(addr) =~= host + seq![':'] + digits(port as nat, 10));
            assert(without_brackets(host) =~= inner);
        },
        AddressModel::Domain(domain, port) => {
            lemma_host_and_port(domain, port);
        },
    }
}

/// A host and a port with a colon between denote the address of the two.
pub proof fn lemma_host_and_port(host: Seq<char>, port: u16)
    ensures
        address_value(host + seq![':'] + digits(port as nat, 10)) == Some(host_value(host, port)),
{
    let tail = digits(port as nat, 10);
    let s = host + seq![':'] + tail;
    lemma_digits_denote(port as nat, 10);
    lemma_digit_is_no_mark(tail, 10, ':');
    lemma_last_index(host, tail, ':');
    lemma_port_of_digits(port);
    assert(s.take(host.len() as int) =~= host);
    assert(s.skip(host.len() as int + 1) =~= tail);
}

/// What a text denotes is a valid address whose own text denotes it again.
pub proof fn lemma_read_then_text(s: Seq<char>)
    requires
        address_value(s) is Some,
    ensures
        ({
            let addr = address_value(s)->0;
            &&& valid(addr)
            &&& denotable(addr)
            &&& address_value(address_text(addr)) == Some(addr)
        }),
{
    let addr = address_value(s)->0;
    let host = s.take(last_index(s, ':')->0);
    lemma_ip_value_valid(without_brackets(host));
    lemma_text_round_trip(addr);
}

/// Brackets around a text are taken off, one pair of them. A text that does not have both is
/// left as it is.
pub proof fn lemma_brackets(inner: Seq<char>, host: Seq<char>)
    ensures
        without_brackets(seq!['['] + inner + seq![']']) == inner,
        host.len() < 2 || host[0] != '[' || host[host.len() - 1] != ']' ==> without_brackets(host)
            == host,
{
    let s = seq!['['] + inner + seq![']'];
    assert(s.subrange(1, s.len() - 1) =~= inner);
}

/// A host that is an IP address, in brackets or not, makes a socket address of those octets
/// and the port. Any other host makes a domain of that very text, brackets included.
pub proof fn lemma_host(host: Seq<char>, port: u16)
    ensures
        match ip_value(without_brackets(host)) {
            Some(IpModel::V4(octets)) => host_value(host, port) == AddressModel::Socket(
                SocketModel::V4 { ip: octets, port },
            ),
            Some(IpModel::V6(octets)) => host_value(host, port) == AddressModel::Socket(
                SocketModel::V6 { ip: octets, port, flowinfo: 0, scope_id: 0 },
            ),
            None => host_value(host, port) == AddressModel::Domain(host, port),
        },
{
}

/// The last colon parts the host from the port. Without a colon, or without a port behind
/// the last one, a text is no address; with both it is one, whatever the host.
pub proof fn lemma_last_colon(host: Seq<char>, port: Seq<char>, s: Seq<char>)
    requires
        !port.contains(':'),
        !s.contains(':'),
    ensures
        address_value(s) is None,
        port_value(port) is None ==> address_value(host + seq![':'] + port) is None,
        port_value(port) is Some ==> address_value(host + seq![':'] + port) == Some(
            host_value(host, port_value(port)->0),
        ),
{
    let text = host + seq![':'] + port;
    lemma_no_last_index(s, ':');
    lemma_last_index(host, port, ':');
    assert(text.take(host.len() as int) =~= host);
    assert(text.skip(host.len() as int + 1) =~= port);
}

/// A domain is written in front of a colon and the port in decimal, and a socket address as
/// such.
pub proof fn lemma_address_text(domain: Seq<char>, port: u16, socket: SocketModel)
    ensures
        address_text(AddressModel::Domain(domain, port)) == domain + seq![':'] + digits(
            port as nat,
            10,
        ),
        address_text(AddressModel::Socket(socket)) == socket_text(socket),
{
}

/// An address stands for its parts, and a socket address becomes the address of it.
pub proof fn lemma_address_stands_for_itself(addr: Address, socket: SocketAddr)
    ensures
        match addr {
            Address::SocketAddr(s) => addr@ == AddressModel::Socket(s@),
            Address::Domain(domain, port) => addr@ == AddressModel::Domain(domain@, port),
        },
        <Address as vstd::std_specs::convert::FromSpec<SocketAddr>>::from_spec(socket)
            == Address::SocketAddr(socket),
{
}

/// Each error has its own words.
pub proof fn lemma_error_words(e: AddressError)
    ensures
        e is AddrNotAvailable ==> e.text() == "address not available"@,
        e is InvalidInput ==> e.text() == "invalid input"@,
        e is InvalidDomain ==> e.text() == "invalid domain"@,
        e is DomainName ==> e.text() == "domain name"@,
        e is InvalidAddress ==> e.text() == "invalid address"@,
        e is UnexpectedEof ==> e.text() == "early eof"@,
{
}

} // verus!
