//! The binary form of an address in SOCKS5 messages.
//!
//! A type octet comes first: 1 for IPv4, 3 for a domain, 4 for IPv6. The four or
//! sixteen octets of the IP address follow, or one octet of length and the domain
//! in UTF-8. The port ends it, high octet first.
use vstd::prelude::*;
use vstd::utf8::{
    decode_utf8, decode_utf8_encode_utf8, encode_utf8, encode_utf8_decode_utf8,
    encode_utf8_valid_utf8, valid_utf8,
};
use crate::address::{valid, Address, AddressError, AddressModel};
use crate::net::{socket_of, IpAddr, IpModel, SocketAddr, SocketModel};

verus! {

// ---------------------------------------------------------------------------
// Model
// ---------------------------------------------------------------------------

/// A port as two octets.
pub open spec fn port_bytes(port: u16) -> Seq<u8> {
    seq![(port / 256) as u8, (port % 256) as u8]
}

/// The port that two octets denote.
pub open spec fn port_of(hi: u8, lo: u8) -> u16 {
    (hi as int * 256 + lo as int) as u16
}

/// An address that has a binary form: a domain must be shorter than 256 octets.
pub open spec fn serializable(addr: AddressModel) -> bool {
    match addr {
        AddressModel::Socket(_) => true,
        AddressModel::Domain(domain, _) => encode_utf8(domain).len() < 256,
    }
}

/// The binary form of an address.
pub open spec fn wire(addr: AddressModel) -> Seq<u8> {
    match addr {
        AddressModel::Socket(SocketModel::V4 { ip, port }) => seq![1u8] + ip + port_bytes(port),
        AddressModel::Socket(SocketModel::V6 { ip, port, .. }) => seq![4u8] + ip + port_bytes(port),
        AddressModel::Domain(domain, port) => seq![3u8, encode_utf8(domain).len() as u8]
            + encode_utf8(domain) + port_bytes(port),
    }
}

/// The address at the start of `b`, and the number of octets that it takes.
pub open spec fn wire_value(b: Seq<u8>) -> Result<(AddressModel, nat), AddressError> {
    if b.len() < 1 {
        Err(AddressError::UnexpectedEof)
    } else if b[0] == 1 {
        if b.len() < 7 {
            Err(AddressError::UnexpectedEof)
        } else {
            Ok(
                (
                    AddressModel::Socket(
                        socket_of(IpModel::V4(b.subrange(1, 5)), port_of(b[5], b[6])),
                    ),
                    7,
                ),
            )
        }
    } else if b[0] == 3 {
        if b.len() < 2 || b.len() < 2 + b[1] {
            Err(AddressError::UnexpectedEof)
        } else {
            let len = b[1] as int;
            if !valid_utf8(b.subrange(2, 2 + len)) {
                Err(AddressError::InvalidDomain)
            } else if b.len() < 4 + len {
                Err(AddressError::UnexpectedEof)
            } else {
                Ok(
                    (
                        AddressModel::Domain(
                            decode_utf8(b.subrange(2, 2 + len)),
                            port_of(b[2 + len], b[3 + len]),
                        ),
                        (4 + len) as nat,
                    ),
                )
            }
        }
    } else if b[0] == 4 {
        if b.len() < 19 {
            Err(AddressError::UnexpectedEof)
        } else {
            Ok(
                (
                    AddressModel::Socket(
                        socket_of(IpModel::V6(b.subrange(1, 17)), port_of(b[17], b[18])),
                    ),
                    19,
                ),
            )
        }
    } else {
        Err(AddressError::InvalidAddress)
    }
}

// ---------------------------------------------------------------------------
// Octets
// ---------------------------------------------------------------------------

/// `String::from_utf8` gives the text that the octets encode where they are valid
/// UTF-8, and an error where they are not.
#[verifier::external_body]
fn text_from_utf8(bytes: Vec<u8>) -> (text: Option<String>)
    ensures
        match text {
            Some(s) => valid_utf8(bytes@) && s@ == decode_utf8(bytes@),
            None => !valid_utf8(bytes@),
        },
{
    String::from_utf8(bytes).ok()
}

/// A copy of the octets from `from` up to `to`.
pub fn copy_range(b: &[u8], from: usize, to: usize) -> (r: Vec<u8>)
    requires
        from <= to <= b@.len(),
    ensures
        r@ == b@.subrange(from as int, to as int),
{
    vstd::slice::slice_to_vec(vstd::slice::slice_subrange(b, from, to))
}

fn copy_4(b: &[u8], from: usize) -> (r: [u8; 4])
    requires
        from + 4 <= b@.len(),
    ensures
        r@ == b@.subrange(from as int, from + 4),
{
    let mut r: [u8; 4] = [0;4];
    assert(from + 4 <= b.len());
    let mut i: usize = 0;
    while i < 4
        invariant
            0 <= i <= 4,
            from + 4 <= b.len(),
            forall|j: int| 0 <= j < i ==> r@[j] == b@[from + j],
        decreases 4 - i,
    {
        r[i] = b[from + i];
        i += 1;
    }
    assert(r@ =~= b@.subrange(from as int, from + 4));
    r
}

fn copy_16(b: &[u8], from: usize) -> (r: [u8; 16])
    requires
        from + 16 <= b@.len(),
    ensures
        r@ == b@.subrange(from as int, from + 16),
{
    let mut r: [u8; 16] = [0;16];
    assert(from + 16 <= b.len());
    let mut i: usize = 0;
    while i < 16
        invariant
            0 <= i <= 16,
            from + 16 <= b.len(),
            forall|j: int| 0 <= j < i ==> r@[j] == b@[from + j],
        decreases 16 - i,
    {
        r[i] = b[from + i];
        i += 1;
    }
    assert(r@ =~= b@.subrange(from as int, from + 16));
    r
}

// ---------------------------------------------------------------------------
// Writing
// ---------------------------------------------------------------------------

impl Address {
    /// Appends a port.
    pub fn write_port(writer: &mut Vec<u8>, port: u16)
        ensures
            final(writer)@ == old(writer)@ + port_bytes(port),
    {
        writer.push((port / 256) as u8);
        writer.push((port % 256) as u8);
        assert(writer@ =~= old(writer)@ + port_bytes(port));
    }

    /// Length of `Address` in bytes after serialized.
    pub fn serialized_len(&self) -> (r: Result<usize, AddressError>)
        ensures
            match r {
                Ok(n) => serializable(self@) && n == wire(self@).len(),
                Err(e) => !serializable(self@) && e == AddressError::InvalidDomain,
            },
    {
        match self {
            Address::SocketAddr(SocketAddr::V4(_)) => {
                // 1 byte for the type, 4 bytes for the IPv4 address, 2 bytes for the port
                Ok(1 + 4 + 2)
            },
            Address::SocketAddr(SocketAddr::V6(_)) => {
                // 1 byte for the type, 16 bytes for the IPv6 address, 2 bytes for the port
                Ok(1 + 16 + 2)
            },
            Address::Domain(domain, _) => {
                let len: usize = domain.as_str().as_bytes().len();
                if len >= 256 {
                    return Err(AddressError::InvalidDomain);
                }
                // 1 byte for the type, 1 byte for the length, the domain, 2 bytes for the port
                Ok(1 + 1 + len + 2)
            },
        }
    }

    /// Appends the binary form of the address. Where there is none, nothing is written.
    pub fn write(&self, writer: &mut Vec<u8>) -> (r: Result<(), AddressError>)
        ensures
            match r {
                Ok(_) => serializable(self@) && final(writer)@ == old(writer)@ + wire(self@),
                Err(e) => !serializable(self@) && e == AddressError::DomainName && final(writer)@
                    == old(writer)@,
            },
            self matches Address::SocketAddr(SocketAddr::V4(a)) ==> final(writer)@ == old(writer)@
                + seq![
                1u8,
                a.ip@[0],
                a.ip@[1],
                a.ip@[2],
                a.ip@[3],
                (a.port / 256) as u8,
                (a.port % 256) as u8,
            ],
            self matches Address::SocketAddr(SocketAddr::V6(a)) ==> final(writer)@ == old(writer)@
                + (seq![4u8] + a.ip@ + seq![(a.port / 256) as u8, (a.port % 256) as u8]),
    {
        match self {
            Address::SocketAddr(SocketAddr::V4(addr)) => {
                writer.push(0x01);
                writer.extend_from_slice(addr.ip.as_slice());
                Self::write_port(writer, addr.port);
            },
            Address::SocketAddr(SocketAddr::V6(addr)) => {
                writer.push(0x04);
                writer.extend_from_slice(addr.ip.as_slice());
                Self::write_port(writer, addr.port);
            },
            Address::Domain(domain, port) => {
                let bytes = domain.as_str().as_bytes();
                if bytes.len() >= 256 {
                    return Err(AddressError::DomainName);
                }
                writer.push(0x03);
                writer.push(bytes.len() as u8);
                writer.extend_from_slice(bytes);
                Self::write_port(writer, *port);
            },
        }
        assert(writer@ =~= old(writer)@ + wire(self@));
        Ok(())
    }
}

// ---------------------------------------------------------------------------
// Reading
// ---------------------------------------------------------------------------

impl Address {
    /// The port that two octets denote.
    pub fn read_port(hi: u8, lo: u8) -> (port: u16)
        ensures
            port == port_of(hi, lo),
    {
        hi as u16 * 256 + lo as u16
    }

    /// Reads the address that starts at `offset`. The buffer must hold all of it.
    pub fn read_from_buf(buf: &Vec<u8>, offset: usize) -> (r: Result<Address, AddressError>)
        requires
            offset < buf@.len(),
            wire_value(buf@.skip(offset as int)) != Err::<(AddressModel, nat), AddressError>(
                AddressError::UnexpectedEof,
            ),
        ensures
            match wire_value(buf@.skip(offset as int)) {
                Ok((addr, _)) => r is Ok && r->Ok_0@ == addr,
                Err(e) => r == Err::<Address, AddressError>(e),
            },
            buf@[offset as int] == 1 ==> match r {
                Ok(Address::SocketAddr(SocketAddr::V4(a))) => {
                    &&& forall|k: int|
                        0 <= k < 4 ==> (#[trigger] a.ip@[k]) == buf@[offset + 1 + k]
                    &&& a.port == buf@[offset + 5] * 256 + buf@[offset + 6]
                },
                _ => false,
            },
            buf@[offset as int] == 4 ==> match r {
                Ok(Address::SocketAddr(SocketAddr::V6(a))) => {
                    &&& forall|k: int|
                        0 <= k < 16 ==> (#[trigger] a.ip@[k]) == buf@[offset + 1 + k]
                    &&& a.port == buf@[offset + 17] * 256 + buf@[offset + 18]
                },
                _ => false,
            },
    {
        let ghost b = buf@.skip(offset as int);
        let len: usize = buf.len();
        let bytes = buf.as_slice();
        match buf[offset] {
            1 => {
                assert(buf@.subrange(offset + 1, offset + 5) =~= b.subrange(1, 5));
                let ip = copy_4(bytes, offset + 1);
                let port: u16 = Self::read_port(buf[offset + 5], buf[offset + 6]);
                Ok(Address::SocketAddr(SocketAddr::new(IpAddr::V4(ip), port)))
            },
            3 => {
                let size: usize = buf[offset + 1] as usize;
                let ghost domain = b.subrange(2, 2 + size);
                assert(buf@.subrange(offset + 2, offset + 2 + size) =~= domain);
                match text_from_utf8(copy_range(bytes, offset + 2, offset + 2 + size)) {
                    Some(domain) => {
                        let port: u16 = Self::read_port(
                            buf[offset + 2 + size],
                            buf[offset + 3 + size],
                        );
                        Ok(Address::Domain(domain, port))
                    },
                    None => Err(AddressError::InvalidDomain),
                }
            },
            4 => {
                assert(buf@.subrange(offset + 1, offset + 17) =~= b.subrange(1, 17));
                let ip = copy_16(bytes, offset + 1);
                let port: u16 = Self::read_port(buf[offset + 17], buf[offset + 18]);
                Ok(Address::SocketAddr(SocketAddr::new(IpAddr::V6(ip), port)))
            },
            _ => Err(AddressError::InvalidAddress),
        }
    }
}

/// What is still to be read of an address, when it arrives piece by piece.
#[derive(Debug, PartialEq, Eq)]
pub enum AddressReader {
    /// The type octet.
    Type,
    /// The octets of an IPv4 address.
    Ipv4,
    /// The octets of an IPv6 address.
    Ipv6,
    /// The length of a domain.
    DomainLen,
    /// A domain of the given length.
    Domain(usize),
    /// The port that goes with an IP address.
    IpPort(IpAddr),
    /// The port that goes with a domain.
    DomainPort(String),
}

/// The outcome of one piece.
#[derive(Debug, PartialEq, Eq)]
pub enum AddressRead {
    /// More is to be read.
    More(AddressReader),
    /// The address is complete.
    Done(Address),
}

/// What an `AddressReader` stands for.
#[verifier::ext_equal]
pub enum ReaderModel {
    Type,
    Ipv4,
    Ipv6,
    DomainLen,
    Domain(nat),
    IpPort(IpModel),
    DomainPort(Seq<char>),
}

/// What an `AddressRead` stands for.
#[verifier::ext_equal]
pub enum ReadModel {
    More(ReaderModel),
    Done(AddressModel),
}

impl View for AddressReader {
    type V = ReaderModel;

    open spec fn view(&self) -> ReaderModel {
        match *self {
            AddressReader::Type => ReaderModel::Type,
            AddressReader::Ipv4 => ReaderModel::Ipv4,
            AddressReader::Ipv6 => ReaderModel::Ipv6,
            AddressReader::DomainLen => ReaderModel::DomainLen,
            AddressReader::Domain(n) => ReaderModel::Domain(n as nat),
            AddressReader::IpPort(ip) => ReaderModel::IpPort(ip@),
            AddressReader::DomainPort(domain) => ReaderModel::DomainPort(domain@),
        }
    }
}

impl View for AddressRead {
    type V = ReadModel;

    open spec fn view(&self) -> ReadModel {
        match *self {
            AddressRead::More(reader) => ReadModel::More(reader@),
            AddressRead::Done(addr) => ReadModel::Done(addr@),
        }
    }
}

impl ReaderModel {
    /// The length of the next piece.
    pub open spec fn wants(self) -> nat {
        match self {
            ReaderModel::Type => 1,
            ReaderModel::Ipv4 => 4,
            ReaderModel::Ipv6 => 16,
            ReaderModel::DomainLen => 1,
            ReaderModel::Domain(n) => n,
            ReaderModel::IpPort(_) => 2,
            ReaderModel::DomainPort(_) => 2,
        }
    }

    /// The outcome of the next piece.
    pub open spec fn fed(self, piece: Seq<u8>) -> Result<ReadModel, AddressError> {
        match self {
            ReaderModel::Type => if piece[0] == 1 {
                Ok(ReadModel::More(ReaderModel::Ipv4))
            } else if piece[0] == 3 {
                Ok(ReadModel::More(ReaderModel::DomainLen))
            } else if piece[0] == 4 {
                Ok(ReadModel::More(ReaderModel::Ipv6))
            } else {
                Err(AddressError::InvalidAddress)
            },
            ReaderModel::Ipv4 => Ok(ReadModel::More(ReaderModel::IpPort(IpModel::V4(piece)))),
            ReaderModel::Ipv6 => Ok(ReadModel::More(ReaderModel::IpPort(IpModel::V6(piece)))),
            ReaderModel::DomainLen => Ok(ReadModel::More(ReaderModel::Domain(piece[0] as nat))),
            ReaderModel::Domain(_) => if valid_utf8(piece) {
                Ok(ReadModel::More(ReaderModel::DomainPort(decode_utf8(piece))))
            } else {
                Err(AddressError::InvalidDomain)
            },
            ReaderModel::IpPort(ip) => Ok(
                ReadModel::Done(AddressModel::Socket(socket_of(ip, port_of(piece[0], piece[1])))),
            ),
            ReaderModel::DomainPort(domain) => Ok(
                ReadModel::Done(AddressModel::Domain(domain, port_of(piece[0], piece[1]))),
            ),
        }
    }

    /// A bound on the number of pieces that are left.
    pub open spec fn pieces(self) -> nat {
        match self {
            ReaderModel::Type => 4,
            ReaderModel::DomainLen => 3,
            ReaderModel::Ipv4 => 2,
            ReaderModel::Ipv6 => 2,
            ReaderModel::Domain(_) => 2,
            ReaderModel::IpPort(_) => 1,
            ReaderModel::DomainPort(_) => 1,
        }
    }

    /// The address that comes of reading on from `b`, and the octets that it takes.
    pub open spec fn value(self, b: Seq<u8>) -> Result<(AddressModel, nat), AddressError>
        decreases self.pieces(),
    {
        if b.len() < self.wants() {
            Err(AddressError::UnexpectedEof)
        } else {
            match self.fed(b.take(self.wants() as int)) {
                Ok(ReadModel::Done(addr)) => Ok((addr, self.wants())),
                Ok(ReadModel::More(next)) => match next.value(b.skip(self.wants() as int)) {
                    Ok((addr, n)) => Ok((addr, n + self.wants())),
                    Err(e) => Err(e),
                },
                Err(e) => Err(e),
            }
        }
    }
}

/// Reading piece by piece gives what the whole input denotes.
pub proof fn lemma_pieces_read_the_whole(b: Seq<u8>)
    ensures
        ReaderModel::Type.value(b) == wire_value(b),
{
    reveal_with_fuel(ReaderModel::value, 4);
    if b.len() >= 1 {
        let b1 = b.skip(1);
        assert(b.take(1)[0] == b[0]);
        if b[0] == 1 {
            if b.len() >= 5 {
                assert(b1.take(4) =~= b.subrange(1, 5));
                let b2 = b1.skip(4);
                if b.len() >= 7 {
                    assert(b2.take(2)[0] == b[5] && b2.take(2)[1] == b[6]);
                }
            }
        } else if b[0] == 4 {
            if b.len() >= 17 {
                assert(b1.take(16) =~= b.subrange(1, 17));
                let b2 = b1.skip(16);
                if b.len() >= 19 {
                    assert(b2.take(2)[0] == b[17] && b2.take(2)[1] == b[18]);
                }
            }
        } else if b[0] == 3 {
            if b.len() >= 2 {
                let b2 = b1.skip(1);
                let len = b[1] as int;
                assert(b1.take(1)[0] == b[1]);
                if b.len() >= 2 + len {
                    assert(b2.take(len) =~= b.subrange(2, 2 + len));
                    let b3 = b2.skip(len);
                    if b.len() >= 4 + len {
                        assert(b3.take(2)[0] == b[2 + len] && b3.take(2)[1] == b[3 + len]);
                    }
                }
            }
        }
    }
}

impl AddressReader {
    /// A reader at the start of an address.
    pub fn new() -> (reader: AddressReader)
        ensures
            reader@ == ReaderModel::Type,
    {
        AddressReader::Type
    }

    /// The length of the next piece.
    pub fn wants(&self) -> (n: usize)
        ensures
            n == self@.wants(),
    {
        match self {
            AddressReader::Type => 1,
            AddressReader::Ipv4 => 4,
            AddressReader::Ipv6 => 16,
            AddressReader::DomainLen => 1,
            AddressReader::Domain(n) => *n,
            AddressReader::IpPort(_) => 2,
            AddressReader::DomainPort(_) => 2,
        }
    }

    /// Takes the next piece, of the length that the reader wants.
    pub fn feed(self, piece: &[u8]) -> (r: Result<AddressRead, AddressError>)
        requires
            piece@.len() == self@.wants(),
        ensures
            match self@.fed(piece@) {
                Ok(outcome) => r is Ok && r->Ok_0@ == outcome,
                Err(e) => r == Err::<AddressRead, AddressError>(e),
            },
    {
        match self {
            AddressReader::Type => match piece[0] {
                1 => Ok(AddressRead::More(AddressReader::Ipv4)),
                3 => Ok(AddressRead::More(AddressReader::DomainLen)),
                4 => Ok(AddressRead::More(AddressReader::Ipv6)),
                _ => Err(AddressError::InvalidAddress),
            },
            AddressReader::Ipv4 => {
                assert(piece@.subrange(0, 4) =~= piece@);
                Ok(AddressRead::More(AddressReader::IpPort(IpAddr::V4(copy_4(piece, 0)))))
            },
            AddressReader::Ipv6 => {
                assert(piece@.subrange(0, 16) =~= piece@);
                Ok(AddressRead::More(AddressReader::IpPort(IpAddr::V6(copy_16(piece, 0)))))
            },
            AddressReader::DomainLen => Ok(
                AddressRead::More(AddressReader::Domain(piece[0] as usize)),
            ),
            AddressReader::Domain(_) => match text_from_utf8(vstd::slice::slice_to_vec(piece)) {
                Some(domain) => Ok(AddressRead::More(AddressReader::DomainPort(domain))),
                None => Err(AddressError::InvalidDomain),
            },
            AddressReader::IpPort(ip) => {
                let port: u16 = Address::read_port(piece[0], piece[1]);
                Ok(AddressRead::Done(Address::SocketAddr(SocketAddr::new(ip, port))))
            },
            AddressReader::DomainPort(domain) => {
                let port: u16 = Address::read_port(piece[0], piece[1]);
                Ok(AddressRead::Done(Address::Domain(domain, port)))
            },
        }
    }
}

impl Address {
    /// Reads the address at the start of `reader`, and tells how many octets it took.
    pub fn read(reader: &[u8]) -> (r: Result<(Address, usize), AddressError>)
        ensures
            match wire_value(reader@) {
                Ok((addr, n)) => r is Ok && r->Ok_0.0@ == addr && r->Ok_0.1 == n,
                Err(e) => r == Err::<(Address, usize), AddressError>(e),
            },
    {
        proof {
            lemma_pieces_read_the_whole(reader@);
            assert(reader@.skip(0) =~= reader@);
        }
        let mut state = AddressReader::new();
        let mut at: usize = 0;
        loop
            invariant
                at <= reader@.len(),
                match state@.value(reader@.skip(at as int)) {
                    Ok((addr, n)) => wire_value(reader@) == Ok::<(AddressModel, nat), AddressError>(
                        (addr, n + at as nat),
                    ),
                    Err(e) => wire_value(reader@) == Err::<(AddressModel, nat), AddressError>(e),
                },
            decreases state@.pieces(),
        {
            let n: usize = state.wants();
            if reader.len() - at < n {
                return Err(AddressError::UnexpectedEof);
            }
            let piece = vstd::slice::slice_subrange(reader, at, at + n);
            proof {
                assert(piece@ =~= reader@.skip(at as int).take(n as int));
                assert(reader@.skip(at as int).skip(n as int) =~= reader@.skip(at + n));
            }
            match state.feed(piece) {
                Ok(AddressRead::Done(addr)) => {
                    return Ok((addr, at + n));
                },
                Ok(AddressRead::More(next)) => {
                    state = next;
                    at = at + n;
                },
                Err(e) => {
                    return Err(e);
                },
            }
        }
    }
}

// ---------------------------------------------------------------------------
// Laws
// ---------------------------------------------------------------------------

/// The address as the binary form carries it: IPv6 flow information and scope are dropped.
pub open spec fn carried(addr: AddressModel) -> AddressModel {
    match addr {
        AddressModel::Socket(SocketModel::V6 { ip, port, .. }) => AddressModel::Socket(
            SocketModel::V6 { ip, port, flowinfo: 0, scope_id: 0 },
        ),
        _ => addr,
    }
}

/// Two octets of a port give the port back.
pub proof fn lemma_port_round_trip(port: u16)
    ensures
        port_of(port_bytes(port)[0], port_bytes(port)[1]) == port,
{
}

/// What is written of an address is read back, whatever follows it, and reading
/// takes exactly the octets that were written.
pub proof fn lemma_write_then_read(addr: AddressModel, rest: Seq<u8>)
    requires
        valid(addr),
        serializable(addr),
    ensures
        wire_value(wire(addr) + rest) == Ok::<(AddressModel, nat), AddressError>(
            (carried(addr), wire(addr).len()),
        ),
{
    let b = wire(addr) + rest;
    match addr {
        AddressModel::Socket(SocketModel::V4 { ip, port }) => {
            assert(b.subrange(1, 5) =~= ip);
            assert(b[5] == port_bytes(port)[0] && b[6] == port_bytes(port)[1]);
        },
        AddressModel::Socket(SocketModel::V6 { ip, port, .. }) => {
            assert(b.subrange(1, 17) =~= ip);
            assert(b[17] == port_bytes(port)[0] && b[18] == port_bytes(port)[1]);
        },
        AddressModel::Domain(domain, port) => {
            let bytes = encode_utf8(domain);
            let len = bytes.len() as int;
            assert(b[1] == len);
            assert(b.subrange(2, 2 + len) =~= bytes);
            assert(b[2 + len] == port_bytes(port)[0] && b[3 + len] == port_bytes(port)[1]);
            encode_utf8_valid_utf8(domain);
            encode_utf8_decode_utf8(domain);
        },
    }
}

/// Whatever is read is a valid address with a binary form, which is what was read.
pub proof fn lemma_read_then_write(b: Seq<u8>)
    requires
        wire_value(b) is Ok,
    ensures
        ({
            let (addr, n) = wire_value(b)->Ok_0;
            &&& valid(addr)
            &&& serializable(addr)
            &&& n <= b.len()
            &&& wire(addr) == b.take(n as int)
        }),
{
    let (addr, n) = wire_value(b)->Ok_0;
    if b[0] == 3 {
        let len = b[1] as int;
        decode_utf8_encode_utf8(b.subrange(2, 2 + len));
    }
    assert(wire(addr) =~= b.take(n as int));
}

/// The length of a binary form tells the kinds of address apart as far as this:
/// 7 for IPv4, 19 for IPv6, and four more than the domain for a domain.
pub proof fn lemma_wire_len(addr: AddressModel)
    requires
        valid(addr),
    ensures
        wire(addr).len() == (match addr {
            AddressModel::Socket(SocketModel::V4 { .. }) => 7,
            AddressModel::Socket(SocketModel::V6 { .. }) => 19,
            AddressModel::Domain(domain, _) => 4 + encode_utf8(domain).len(),
        }),
{
}

/// An IPv4 address is read octet for octet in the order in which the octets stand, and its
/// port with the high octet first.
pub proof fn lemma_reads_ipv4(b: Seq<u8>, k: int)
    requires
        b.len() >= 7,
        b[0] == 1,
        0 <= k < 4,
    ensures
        wire_value(b) is Ok,
        wire_value(b)->Ok_0.1 == 7,
        ({
            let addr = wire_value(b)->Ok_0.0;
            &&& addr is Socket
            &&& addr->Socket_0 is V4
            &&& addr->Socket_0->V4_ip.len() == 4
            &&& addr->Socket_0->V4_ip[k] == b[1 + k]
            &&& addr->Socket_0->V4_port == b[5] * 256 + b[6]
        }),
{
}

/// An IPv6 address is read octet for octet in the order in which the octets stand, and its
/// port with the high octet first. It gets neither flow information nor scope.
pub proof fn lemma_reads_ipv6(b: Seq<u8>, k: int)
    requires
        b.len() >= 19,
        b[0] == 4,
        0 <= k < 16,
    ensures
        wire_value(b) is Ok,
        wire_value(b)->Ok_0.1 == 19,
        ({
            let addr = wire_value(b)->Ok_0.0;
            &&& addr is Socket
            &&& addr->Socket_0 is V6
            &&& addr->Socket_0->V6_ip.len() == 16
            &&& addr->Socket_0->V6_ip[k] == b[1 + k]
            &&& addr->Socket_0->V6_port == b[17] * 256 + b[18]
            &&& addr->Socket_0->flowinfo == 0
            &&& addr->Socket_0->scope_id == 0
        }),
{
}

/// A domain is read as the text that as many octets encode as the length says, and its port
/// from the two octets behind them.
pub proof fn lemma_reads_domain(b: Seq<u8>)
    requires
        b.len() >= 2,
        b[0] == 3,
        b.len() >= 4 + b[1],
        valid_utf8(b.subrange(2, 2 + b[1])),
    ensures
        wire_value(b) is Ok,
        wire_value(b)->Ok_0.1 == 4 + b[1],
        ({
            let addr = wire_value(b)->Ok_0.0;
            &&& addr is Domain
            &&& addr->Domain_0 == decode_utf8(b.subrange(2, 2 + b[1]))
            &&& addr->Domain_1 == b[2 + b[1]] * 256 + b[3 + b[1]]
        }),
{
}

/// What cannot be read: an unknown type, a domain that is no text, and an input that ends
/// before the address does. Nothing else fails.
pub proof fn lemma_read_failures(b: Seq<u8>)
    ensures
        wire_value(b) == Err::<(AddressModel, nat), AddressError>(AddressError::InvalidAddress)
            <==> b.len() >= 1 && b[0] != 1 && b[0] != 3 && b[0] != 4,
        wire_value(b) == Err::<(AddressModel, nat), AddressError>(AddressError::InvalidDomain)
            <==> b.len() >= 2 && b[0] == 3 && b.len() >= 2 + b[1] && !valid_utf8(
            b.subrange(2, 2 + b[1]),
        ),
        wire_value(b) == Err::<(AddressModel, nat), AddressError>(AddressError::UnexpectedEof)
            <==> {
            ||| b.len() == 0
            ||| b[0] == 1 && b.len() < 7
            ||| b[0] == 4 && b.len() < 19
            ||| b[0] == 3 && b.len() == 1
            ||| b[0] == 3 && b.len() < 2 + b[1]
            ||| b[0] == 3 && b.len() < 4 + b[1] && valid_utf8(b.subrange(2, 2 + b[1]))
        },
        match wire_value(b) {
            Ok(_) => true,
            Err(e) => e is InvalidAddress || e is InvalidDomain || e is UnexpectedEof,
        },
{
}

/// An IP address is written as its type, 1 or 4, its octets in their order, and its port
/// with the high octet first. Flow information and scope are not written.
pub proof fn lemma_writes_ip(ip: Seq<u8>, port: u16, flowinfo: u32, scope_id: u32, k: int)
    requires
        0 <= k < ip.len(),
    ensures
        ({
            let n = ip.len() as int;
            let b = wire(AddressModel::Socket(SocketModel::V4 { ip, port }));
            &&& b.len() == ip.len() + 3
            &&& b[0] == 1
            &&& b[1 + k] == ip[k]
            &&& b[1 + n] * 256 + b[2 + n] == port
        }),
        ({
            let n = ip.len() as int;
            let b = wire(AddressModel::Socket(SocketModel::V6 { ip, port, flowinfo, scope_id }));
            &&& b.len() == ip.len() + 3
            &&& b[0] == 4
            &&& b[1 + k] == ip[k]
            &&& b[1 + n] * 256 + b[2 + n] == port
        }),
{
}

/// A domain is written as the type 3, the number of its octets, these octets, and its port
/// with the high octet first. There are at most 255 octets of it.
pub proof fn lemma_writes_domain(domain: Seq<char>, port: u16)
    ensures
        ({
            let addr = AddressModel::Domain(domain, port);
            let octets = encode_utf8(domain);
            let n = octets.len() as int;
            let b = wire(addr);
            &&& serializable(addr) <==> octets.len() <= 255
            &&& b.len() == octets.len() + 4
            &&& b[0] == 3
            &&& octets.len() <= 255 ==> b[1] == octets.len()
            &&& b.subrange(2, 2 + n) == octets
            &&& b[2 + n] * 256 + b[3 + n] == port
        }),
{
    let b = wire(AddressModel::Domain(domain, port));
    let octets = encode_utf8(domain);
    let n = octets.len() as int;
    assert(b.subrange(2, 2 + n) =~= octets);
}

/// A socket address can always be written.
pub proof fn lemma_sockets_are_written(socket: SocketModel)
    ensures
        serializable(AddressModel::Socket(socket)),
{
}

/// A port is two octets, the high one first.
pub proof fn lemma_port_octets(port: u16, hi: u8, lo: u8)
    ensures
        port_bytes(port).len() == 2,
        port_bytes(port)[0] * 256 + port_bytes(port)[1] == port,
        port_of(hi, lo) == hi * 256 + lo,
{
}

/// The pieces that are asked for one after the other: the type, then four or sixteen octets,
/// or a length and as many octets, and then a port.
pub proof fn lemma_reader_asks(piece: Seq<u8>, ip: IpModel, domain: Seq<char>, n: nat)
    requires
        piece.len() > 0,
    ensures
        ReaderModel::Type.wants() == 1,
        ReaderModel::Ipv4.wants() == 4,
        ReaderModel::Ipv6.wants() == 16,
        ReaderModel::DomainLen.wants() == 1,
        ReaderModel::Domain(n).wants() == n,
        ReaderModel::IpPort(ip).wants() == 2,
        ReaderModel::DomainPort(domain).wants() == 2,
        piece[0] == 1 ==> ReaderModel::Type.fed(piece) == Ok::<ReadModel, AddressError>(
            ReadModel::More(ReaderModel::Ipv4),
        ),
        piece[0] == 3 ==> ReaderModel::Type.fed(piece) == Ok::<ReadModel, AddressError>(
            ReadModel::More(ReaderModel::DomainLen),
        ),
        piece[0] == 4 ==> ReaderModel::Type.fed(piece) == Ok::<ReadModel, AddressError>(
            ReadModel::More(ReaderModel::Ipv6),
        ),
        piece[0] != 1 && piece[0] != 3 && piece[0] != 4 ==> ReaderModel::Type.fed(piece) == Err::<
            ReadModel,
            AddressError,
        >(AddressError::InvalidAddress),
        ReaderModel::DomainLen.fed(piece) == Ok::<ReadModel, AddressError>(
            ReadModel::More(ReaderModel::Domain(piece[0] as nat)),
        ),
{
}

/// What the pieces are taken for: octets in their order, the text that octets encode, and a
/// port with the high octet first, which completes the address.
pub proof fn lemma_reader_takes(piece: Seq<u8>, ip: Seq<u8>, domain: Seq<char>, n: nat)
    ensures
        ReaderModel::Ipv4.fed(piece) == Ok::<ReadModel, AddressError>(
            ReadModel::More(ReaderModel::IpPort(IpModel::V4(piece))),
        ),
        ReaderModel::Ipv6.fed(piece) == Ok::<ReadModel, AddressError>(
            ReadModel::More(ReaderModel::IpPort(IpModel::V6(piece))),
        ),
        valid_utf8(piece) ==> ReaderModel::Domain(n).fed(piece) == Ok::<ReadModel, AddressError>(
            ReadModel::More(ReaderModel::DomainPort(decode_utf8(piece))),
        ),
        !valid_utf8(piece) ==> ReaderModel::Domain(n).fed(piece) == Err::<ReadModel, AddressError>(
            AddressError::InvalidDomain,
        ),
        ({
            let port = (piece[0] * 256 + piece[1]) as u16;
            &&& ReaderModel::IpPort(IpModel::V4(ip)).fed(piece) == Ok::<ReadModel, AddressError>(
                ReadModel::Done(AddressModel::Socket(SocketModel::V4 { ip, port })),
            )
            &&& ReaderModel::IpPort(IpModel::V6(ip)).fed(piece) == Ok::<ReadModel, AddressError>(
                ReadModel::Done(
                    AddressModel::Socket(SocketModel::V6 { ip, port, flowinfo: 0, scope_id: 0 }),
                ),
            )
            &&& ReaderModel::DomainPort(domain).fed(piece) == Ok::<ReadModel, AddressError>(
                ReadModel::Done(AddressModel::Domain(domain, port)),
            )
        }),
{
}

/// A reader and its outcomes stand for what they hold.
pub proof fn lemma_reader_stands_for_itself(reader: AddressReader, read: AddressRead)
    ensures
        match reader {
            AddressReader::Type => reader@ is Type,
            AddressReader::Ipv4 => reader@ is Ipv4,
            AddressReader::Ipv6 => reader@ is Ipv6,
            AddressReader::DomainLen => reader@ is DomainLen,
            AddressReader::Domain(n) => reader@ == ReaderModel::Domain(n as nat),
            AddressReader::IpPort(ip) => reader@ == ReaderModel::IpPort(ip@),
            AddressReader::DomainPort(domain) => reader@ == ReaderModel::DomainPort(domain@),
        },
        match read {
            AddressRead::More(next) => read@ == ReadModel::More(next@),
            AddressRead::Done(addr) => read@ == ReadModel::Done(addr@),
        },
{
}

} // verus!
