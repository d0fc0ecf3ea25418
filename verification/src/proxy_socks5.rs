//! The SOCKS5 handshake, answered on both ends of the tunnel.
//!
//! The client side answers the greeting of a SOCKS5 client itself; the server side
//! sends a greeting to the SOCKS5 server itself and keeps its answer back.
use vstd::prelude::*;

verus! {

/// Why a handshake message was not taken.
#[derive(Debug, Clone, Copy, PartialEq, Eq, Structural)]
pub enum Socks5Error {
    /// Not a greeting that is answered here.
    Ignored,
    /// Not the answer to a greeting.
    GreetingResponse,
    /// Not the answer to a request to connect.
    ConnectResponse,
}

impl Socks5Error {
    /// A short description.
    pub open spec fn text(self) -> Seq<char> {
        match self {
            Socks5Error::Ignored => "ignored"@,
            Socks5Error::GreetingResponse => "socks5 server greeting response [5, 1] not received"@,
            Socks5Error::ConnectResponse =>
                "socks5 server connect response [5, 0, 0, 1, 0, 0, 0, 0, 0, 0] not received"@,
        }
    }

    /// A short description.
    pub fn message(&self) -> (text: &'static str)
        ensures
            text@ == self.text(),
    {
        match self {
            Socks5Error::Ignored => "ignored",
            Socks5Error::GreetingResponse => "socks5 server greeting response [5, 1] not received",
            Socks5Error::ConnectResponse =>
                "socks5 server connect response [5, 0, 0, 1, 0, 0, 0, 0, 0, 0] not received",
        }
    }
}

// ---------------------------------------------------------------------------
// Messages
// ---------------------------------------------------------------------------

/// A greeting that is answered here.
#[derive(Debug, Clone, Copy, PartialEq, Eq, Structural)]
pub enum ClientGreeting {
    /// One method: no authentication.
    NoAuth,
    /// Two methods: no authentication, or GSSAPI.
    NoAuthOrGssapi,
}

impl ClientGreeting {
    /// The octets of the greeting.
    pub open spec fn bytes(self) -> Seq<u8> {
        match self {
            ClientGreeting::NoAuth => seq![5u8, 1u8, 0u8],
            ClientGreeting::NoAuthOrGssapi => seq![5u8, 2u8, 0u8, 1u8],
        }
    }

    /// The octets of the greeting.
    pub fn to_bytes(self) -> (b: Vec<u8>)
        ensures
            b@ == self.bytes(),
    {
        let b: Vec<u8> = match self {
            ClientGreeting::NoAuth => vec![5, 1, 0],
            ClientGreeting::NoAuthOrGssapi => vec![5, 2, 0, 1],
        };
        assert(b@ =~= self.bytes());
        b
    }
}

/// The greeting that a packet is, if it is one that is answered here.
pub open spec fn greeting_value(packet: Seq<u8>) -> Option<ClientGreeting> {
    if packet == ClientGreeting::NoAuth.bytes() {
        Some(ClientGreeting::NoAuth)
    } else if packet == ClientGreeting::NoAuthOrGssapi.bytes() {
        Some(ClientGreeting::NoAuthOrGssapi)
    } else {
        None
    }
}

/// The answer to a greeting: no authentication is needed.
pub open spec fn server_greeting() -> Seq<u8> {
    seq![5u8, 0u8]
}

/// The answer to a request to connect.
pub open spec fn connect_reply() -> Seq<u8> {
    seq![5u8, 0u8, 0u8, 1u8, 0u8, 0u8, 0u8, 0u8, 0u8, 0u8]
}

/// `buf` starts with a request to connect to an address of a known type.
pub open spec fn is_connect_request(buf: Seq<u8>) -> bool {
    &&& buf.len() > 5
    &&& buf[0] == 5
    &&& buf[1] == 1
    &&& buf[2] == 0
    &&& (buf[3] == 1 || buf[3] == 3 || buf[3] == 4)
}

/// `n` octets make an answer of the given length that starts with 5 and 0.
pub open spec fn is_answer(buf: Seq<u8>, n: nat, len: nat) -> bool {
    n == len && buf[0] == 5 && buf[1] == 0
}

/// The octets that decide on an answer of the given length are there.
pub open spec fn answer_readable(buf: Seq<u8>, n: nat, len: nat) -> bool {
    n == len ==> buf.len() >= 1 && (buf[0] == 5 ==> buf.len() >= 2)
}

// ---------------------------------------------------------------------------
// Client side
// ---------------------------------------------------------------------------

/// The greeting that the first `n` octets of `buf` are.
pub fn client_greeting(buf: &Vec<u8>, n: usize) -> (r: Option<ClientGreeting>)
    requires
        n <= buf@.len(),
    ensures
        r == greeting_value(buf@.take(n as int)),
{
    let ghost packet = buf@.take(n as int);
    if n == 3 && buf[0] == 5 && buf[1] == 1 && buf[2] == 0 {
        assert(packet =~= ClientGreeting::NoAuth.bytes());
        Some(ClientGreeting::NoAuth)
    } else if n == 4 && buf[0] == 5 && buf[1] == 2 && buf[2] == 0 && buf[3] == 1 {
        assert(packet =~= ClientGreeting::NoAuthOrGssapi.bytes());
        assert(packet[1] != ClientGreeting::NoAuth.bytes()[1]);
        Some(ClientGreeting::NoAuthOrGssapi)
    } else {
        proof {
            if packet == ClientGreeting::NoAuth.bytes() {
                assert(packet.len() == 3 && packet[0] == 5 && packet[1] == 1 && packet[2] == 0);
                assert(packet[0] == buf@[0] && packet[1] == buf@[1] && packet[2] == buf@[2]);
            }
            if packet == ClientGreeting::NoAuthOrGssapi.bytes() {
                assert(packet.len() == 4 && packet[0] == 5 && packet[1] == 2 && packet[2] == 0
                    && packet[3] == 1);
                assert(packet[0] == buf@[0] && packet[1] == buf@[1] && packet[2] == buf@[2]
                    && packet[3] == buf@[3]);
            }
        }
        None
    }
}

/// The answer to give the client where the first `n` octets of `buf`, at most 1024,
/// are a greeting: it is not passed on.
pub fn handle_client_socks5_greeting_request(buf: &Vec<u8>, n: usize) -> (r: Result<
    Vec<u8>,
    Socks5Error,
>)
    requires
        n <= buf@.len(),
        n <= 1024,
    ensures
        match greeting_value(buf@.take(n as int)) {
            Some(_) => r is Ok && r->Ok_0@ == server_greeting(),
            None => r == Err::<Vec<u8>, Socks5Error>(Socks5Error::Ignored),
        },
{
    match client_greeting(buf, n) {
        Some(_) => {
            let reply: Vec<u8> = vec![5, 0];
            assert(reply@ =~= server_greeting());
            Ok(reply)
        },
        None => Err(Socks5Error::Ignored),
    }
}

/// The answer to give the client at once where `buf` starts with a request to
/// connect, which is still passed on.
pub fn handle_client_socks5_connect_request(buf: &Vec<u8>, n: usize) -> (r: Option<Vec<u8>>)
    ensures
        match r {
            Some(reply) => is_connect_request(buf@) && reply@ == connect_reply(),
            None => !is_connect_request(buf@),
        },
{
    if buf.len() > 5 {
        if buf[0] == 0x05 && buf[1] == 0x01 && buf[2] == 0x00 {
            if buf[3] == 0x01 || buf[3] == 0x03 || buf[3] == 0x04 {
                let reply: Vec<u8> = vec![5, 0, 0, 1, 0, 0, 0, 0, 0, 0];
                assert(reply@ =~= connect_reply());
                return Some(reply);
            }
        }
    }
    None
}

// ---------------------------------------------------------------------------
// Server side
// ---------------------------------------------------------------------------

/// The greeting to send to the SOCKS5 server before anything else, whatever came first.
pub fn handle_server_side_socks5_request(buf: &Vec<u8>, n: usize) -> (greeting: Vec<u8>)
    ensures
        greeting@ == ClientGreeting::NoAuth.bytes(),
{
    ClientGreeting::NoAuth.to_bytes()
}

/// Takes the answer to the greeting: exactly the two octets 5 and 0.
pub fn handle_server_side_socks5_greeting_response(buf: &Vec<u8>, n: usize) -> (r: Result<
    (),
    Socks5Error,
>)
    requires
        answer_readable(buf@, n as nat, 2),
    ensures
        r == (if is_answer(buf@, n as nat, 2) {
            Ok::<(), Socks5Error>(())
        } else {
            Err::<(), Socks5Error>(Socks5Error::GreetingResponse)
        }),
{
    if n == 2 && buf[0] == 5 && buf[1] == 0 {
        Ok(())
    } else {
        Err(Socks5Error::GreetingResponse)
    }
}

/// Takes the answer to a request to connect: ten octets that start with 5 and 0.
pub fn handle_server_side_socks5_connect_response(buf: &Vec<u8>, n: usize) -> (r: Result<
    (),
    Socks5Error,
>)
    requires
        answer_readable(buf@, n as nat, 10),
        is_answer(buf@, n as nat, 10) ==> buf@.len() >= 10,
    ensures
        r == (if is_answer(buf@, n as nat, 10) {
            Ok::<(), Socks5Error>(())
        } else {
            Err::<(), Socks5Error>(Socks5Error::ConnectResponse)
        }),
{
    if n == 10 && buf[0] == 5 && buf[1] == 0 {
        Ok(())
    } else {
        Err(Socks5Error::ConnectResponse)
    }
}

// ---------------------------------------------------------------------------
// Laws
// ---------------------------------------------------------------------------

/// A greeting that is answered never counts as a request to connect.
pub proof fn lemma_greeting_is_no_request(packet: Seq<u8>)
    requires
        greeting_value(packet) is Some,
    ensures
        !is_connect_request(packet),
        !crate::status::asks_to_connect(packet, packet.len()),
        3 <= packet.len() <= 4,
{
}

/// Exactly two packets are greetings: 5, 1, 0 and 5, 2, 0, 1.
pub proof fn lemma_greetings(packet: Seq<u8>, greeting: ClientGreeting)
    ensures
        packet == ClientGreeting::NoAuth.bytes() <==> packet.len() == 3 && packet[0] == 5
            && packet[1] == 1 && packet[2] == 0,
        packet == ClientGreeting::NoAuthOrGssapi.bytes() <==> packet.len() == 4 && packet[0] == 5
            && packet[1] == 2 && packet[2] == 0 && packet[3] == 1,
        greeting_value(packet) == Some(greeting) <==> packet == greeting.bytes(),
        greeting_value(packet) is Some <==> {
            ||| packet.len() == 3 && packet[0] == 5 && packet[1] == 1 && packet[2] == 0
            ||| packet.len() == 4 && packet[0] == 5 && packet[1] == 2 && packet[2] == 0 && packet[3]
                == 1
        },
{
    let one = ClientGreeting::NoAuth.bytes();
    let two = ClientGreeting::NoAuthOrGssapi.bytes();
    assert(one.len() == 3 && one[0] == 5 && one[1] == 1 && one[2] == 0);
    assert(two.len() == 4 && two[0] == 5 && two[1] == 2 && two[2] == 0 && two[3] == 1);
    if packet.len() == 3 && packet[0] == 5 && packet[1] == 1 && packet[2] == 0 {
        assert(packet =~= one);
    }
    if packet.len() == 4 && packet[0] == 5 && packet[1] == 2 && packet[2] == 0 && packet[3] == 1 {
        assert(packet =~= two);
    }
}

/// A greeting is answered by 5 and 0, and a request to connect by 5, 0, 0, 1 and six zeros.
pub proof fn lemma_answers(packet: Seq<u8>)
    ensures
        packet == server_greeting() <==> packet.len() == 2 && packet[0] == 5 && packet[1] == 0,
        packet == connect_reply() <==> packet.len() == 10 && packet[0] == 5 && packet[1] == 0
            && packet[2] == 0 && packet[3] == 1 && packet[4] == 0 && packet[5] == 0 && packet[6]
            == 0 && packet[7] == 0 && packet[8] == 0 && packet[9] == 0,
{
    let short = server_greeting();
    let long = connect_reply();
    assert(short.len() == 2 && short[0] == 5 && short[1] == 0);
    assert(long.len() == 10 && long[0] == 5 && long[1] == 0 && long[2] == 0 && long[3] == 1
        && long[4] == 0 && long[5] == 0 && long[6] == 0 && long[7] == 0 && long[8] == 0 && long[9]
        == 0);
    if packet.len() == 2 && packet[0] == 5 && packet[1] == 0 {
        assert(packet =~= short);
    }
    if packet.len() == 10 && packet[0] == 5 && packet[1] == 0 && packet[2] == 0 && packet[3] == 1
        && packet[4] == 0 && packet[5] == 0 && packet[6] == 0 && packet[7] == 0 && packet[8] == 0
        && packet[9] == 0 {
        assert(packet =~= long);
    }
}

/// A request to connect has more than five octets, starts with 5, 1, 0 and goes on with a
/// type of address that is known.
pub proof fn lemma_connect_request(buf: Seq<u8>)
    ensures
        is_connect_request(buf) <==> buf.len() >= 6 && buf[0] == 5 && buf[1] == 1 && buf[2] == 0 && (
        buf[3] == 1 || buf[3] == 3 || buf[3] == 4),
{
}

/// An answer has the length that is waited for and starts with 5 and 0. To tell that it is
/// none, as many octets are looked at as it takes.
pub proof fn lemma_answer(buf: Seq<u8>, n: nat, len: nat)
    ensures
        is_answer(buf, n, len) <==> n == len && buf[0] == 5 && buf[1] == 0,
        buf.len() >= 2 ==> answer_readable(buf, n, len),
        n != len ==> answer_readable(buf, n, len),
        buf.len() == 1 && buf[0] != 5 ==> answer_readable(buf, n, len),
{
}

/// Each error has its own words.
pub proof fn lemma_socks5_error_words(e: Socks5Error)
    ensures
        e is Ignored ==> e.text() == "ignored"@,
        e is GreetingResponse ==> e.text()
            == "socks5 server greeting response [5, 1] not received"@,
        e is ConnectResponse ==> e.text()
            == "socks5 server connect response [5, 0, 0, 1, 0, 0, 0, 0, 0, 0] not received"@,
{
}

} // verus!
