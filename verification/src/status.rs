//! What is known of each connection, kept by the port of its TCP peer.
use vstd::prelude::*;
use std::collections::HashMap;
use std::time::SystemTime;
use crate::address::{address_text, Address};
use crate::codec::wire_value;

verus! {

broadcast use vstd::std_specs::hash::group_hash_axioms;

/// A point in time of the system's clock, which nothing here looks into.
#[verifier::external_type_specification]
#[verifier::external_body]
pub struct ExSystemTime(SystemTime);

/// How far a connection has come.
#[derive(Debug, Clone, Copy, PartialEq, Eq, Structural)]
pub enum ConnectionStatusCode {
    /// Accepted, nothing more.
    NEW,
    /// The SOCKS5 greeting was acknowledged.
    CONNECTED,
    /// Failed.
    ERROR,
    /// Closed.
    CLOSED,
}

/// What is known of one connection.
#[derive(Debug)]
pub struct ConnectionStatus {
    /// How far it has come.
    pub status: ConnectionStatusCode,
    /// The address that it was asked to connect to.
    pub address: String,
    /// When it was accepted or last acknowledged.
    pub last_active: SystemTime,
    /// The octets that came from the websocket.
    pub bytes_got: u32,
    /// The octets that came from the TCP socket.
    pub bytes_sent: u32,
}

/// What a `ConnectionStatus` stands for.
#[verifier::ext_equal]
pub struct StatusModel {
    pub status: ConnectionStatusCode,
    pub address: Seq<char>,
    pub last_active: SystemTime,
    pub bytes_got: u32,
    pub bytes_sent: u32,
}

impl View for ConnectionStatus {
    type V = StatusModel;

    open spec fn view(&self) -> StatusModel {
        StatusModel {
            status: self.status,
            address: self.address@,
            last_active: self.last_active,
            bytes_got: self.bytes_got,
            bytes_sent: self.bytes_sent,
        }
    }
}

/// The connections by port.
pub type StatusMap = HashMap<u16, ConnectionStatus>;

/// What a map of connections stands for.
pub open spec fn table(map: Map<u16, ConnectionStatus>) -> Map<u16, StatusModel> {
    map.map_values(|s: ConnectionStatus| s@)
}

// ---------------------------------------------------------------------------
// Model
// ---------------------------------------------------------------------------

/// A length as the counters take it, modulo two to the thirty-second.
pub open spec fn counted(n: nat) -> nat {
    n % 0x1_0000_0000
}

/// A connection that was just accepted.
pub open spec fn fresh(now: SystemTime) -> StatusModel {
    StatusModel {
        status: ConnectionStatusCode::NEW,
        address: Seq::empty(),
        last_active: now,
        bytes_got: 0,
        bytes_sent: 0,
    }
}

/// The acknowledgement of a SOCKS5 greeting.
pub open spec fn is_ack(x: Seq<u8>) -> bool {
    x.len() == 2 && x[0] == 5 && x[1] == 0
}

/// The connection's count of received octets has room for `n` more.
pub open spec fn room_to_receive(t: Map<u16, StatusModel>, port: u16, n: nat) -> bool {
    t.contains_key(port) ==> t[port].bytes_got + counted(n) <= u32::MAX
}

/// The connection's count of sent octets has room for `n` more.
pub open spec fn room_to_send(t: Map<u16, StatusModel>, port: u16, n: nat) -> bool {
    t.contains_key(port) ==> t[port].bytes_sent + counted(n) <= u32::MAX
}

/// The table after the octets `x` came from the websocket at the time `now`. An
/// acknowledged greeting makes the connection connected.
pub open spec fn received(t: Map<u16, StatusModel>, port: u16, x: Seq<u8>, now: SystemTime) -> Map<
    u16,
    StatusModel,
> {
    if t.contains_key(port) {
        let s = t[port];
        let counted = StatusModel { bytes_got: (s.bytes_got + counted(x.len())) as u32, ..s };
        t.insert(
            port,
            if is_ack(x) {
                StatusModel {
                    status: ConnectionStatusCode::CONNECTED,
                    last_active: now,
                    ..counted
                }
            } else {
                counted
            },
        )
    } else {
        t
    }
}

/// The first `n` octets of `buf` look like a request to connect.
pub open spec fn asks_to_connect(buf: Seq<u8>, n: nat) -> bool {
    n > 3 && buf[0] == 5 && buf[1] == 1
}

/// The text of the address that a request to connect names.
pub open spec fn asked_address(buf: Seq<u8>) -> Seq<char> {
    address_text(wire_value(buf.skip(3))->Ok_0.0)
}

/// The octets that are looked at are there, and a request to connect names an address.
pub open spec fn readable(buf: Seq<u8>, n: nat) -> bool {
    &&& n > 3 ==> buf.len() >= 1 && (buf[0] == 5 ==> buf.len() >= 2)
    &&& asks_to_connect(buf, n) ==> buf.len() > 3 && wire_value(buf.skip(3)) is Ok
}

/// The table after `n` octets from the TCP socket were counted, and nothing more.
pub open spec fn sent_count(t: Map<u16, StatusModel>, port: u16, n: nat) -> Map<u16, StatusModel> {
    if t.contains_key(port) {
        let s = t[port];
        t.insert(port, StatusModel { bytes_sent: (s.bytes_sent + counted(n)) as u32, ..s })
    } else {
        t
    }
}

/// The table after `n` octets came from the TCP socket. A request to connect
/// leaves its address.
pub open spec fn sent(t: Map<u16, StatusModel>, port: u16, buf: Seq<u8>, n: nat) -> Map<
    u16,
    StatusModel,
> {
    if t.contains_key(port) {
        let s = t[port];
        let counted = StatusModel { bytes_sent: (s.bytes_sent + counted(n)) as u32, ..s };
        t.insert(
            port,
            if asks_to_connect(buf, n) {
                StatusModel { address: asked_address(buf), ..counted }
            } else {
                counted
            },
        )
    } else {
        t
    }
}

/// The label of the connection after the same octets.
pub open spec fn label_after(label: Seq<char>, buf: Seq<u8>, n: nat) -> Seq<char> {
    if asks_to_connect(buf, n) {
        asked_address(buf)
    } else {
        label
    }
}

// ---------------------------------------------------------------------------
// Operations
// ---------------------------------------------------------------------------

/// `SystemTime::now` reads the clock. Nothing is claimed of the time that it gives.
#[verifier::external_body]
pub(crate) fn current_time() -> (now: SystemTime)
{
    SystemTime::now()
}

/// A length modulo two to the thirty-second.
fn as_count(n: usize) -> (c: u32)
    ensures
        c == counted(n as nat),
{
    let c: u32 = n as u32;
    proof {
        let w: u64 = n as u64;
        assert(w as u32 == w % 0x1_0000_0000) by (bit_vector);
        assert(n as u32 == w as u32);
    }
    c
}

/// Enters a connection that was accepted at the time `now`.
pub fn register_at(map: &mut StatusMap, port: u16, now: SystemTime)
    ensures
        table(final(map)@) == table(old(map)@).insert(port, fresh(now)),
{
    map.insert(
        port,
        ConnectionStatus {
            status: ConnectionStatusCode::NEW,
            address: String::new(),
            last_active: now,
            bytes_got: 0,
            bytes_sent: 0,
        },
    );
    assert(table(map@) =~= table(old(map)@).insert(port, fresh(now)));
}

/// Enters a connection that was just accepted.
pub fn register(map: &mut StatusMap, port: u16)
    ensures
        exists|now: SystemTime|
            table(final(map)@) == #[trigger] table(old(map)@).insert(port, fresh(now)),
{
    let now = current_time();
    register_at(map, port, now);
    assert(table(map@) == table(old(map)@).insert(port, fresh(now)));
}

/// Takes a connection out.
pub fn unregister(map: &mut StatusMap, port: u16)
    ensures
        table(final(map)@) == table(old(map)@).remove(port),
{
    map.remove(&port);
    assert(table(map@) =~= table(old(map)@).remove(port));
}

/// Whether the connection's count of received octets has room for `n` more.
pub fn has_room_to_receive(map: &StatusMap, port: u16, n: usize) -> (r: bool)
    ensures
        r == room_to_receive(table(map@), port, n as nat),
{
    match map.get(&port) {
        Some(s) => s.bytes_got as u64 + as_count(n) as u64 <= 0xffff_ffff,
        None => true,
    }
}

/// Whether the connection's count of sent octets has room for `n` more.
pub fn has_room_to_send(map: &StatusMap, port: u16, n: usize) -> (r: bool)
    ensures
        r == room_to_send(table(map@), port, n as nat),
{
    match map.get(&port) {
        Some(s) => s.bytes_sent as u64 + as_count(n) as u64 <= 0xffff_ffff,
        None => true,
    }
}

/// Whether the octets that are looked at are there, and a request to connect
/// names an address.
pub fn is_readable(buf: &Vec<u8>, n: usize) -> (r: bool)
    ensures
        r == readable(buf@, n as nat),
        n <= buf@.len() ==> (r <==> n <= 3 || buf@[0] != 5 || buf@[1] != 1 || wire_value(
            buf@.skip(3),
        ) is Ok),
{
    if n <= 3 {
        return true;
    }
    if buf.len() < 1 {
        return false;
    }
    if buf[0] != 5 {
        return true;
    }
    if buf.len() < 2 {
        return false;
    }
    if buf[1] != 1 {
        return true;
    }
    if buf.len() <= 3 {
        return false;
    }
    let rest = vstd::slice::slice_subrange(buf.as_slice(), 3, buf.len());
    assert(rest@ =~= buf@.skip(3));
    match Address::read(rest) {
        Ok(_) => true,
        Err(_) => false,
    }
}

/// Records octets that came from the websocket at the time `now`.
pub fn ws_to_tcp_status_at(map: &mut StatusMap, port: u16, x: &[u8], now: SystemTime)
    requires
        room_to_receive(table(old(map)@), port, x@.len()),
    ensures
        table(final(map)@) == received(table(old(map)@), port, x@, now),
{
    match map.remove(&port) {
        Some(mut s) => {
            s.bytes_got = s.bytes_got + as_count(x.len());
            if x.len() == 2 && x[0] == 5 && x[1] == 0 {
                // handshake ack
                s.status = ConnectionStatusCode::CONNECTED;
                s.last_active = now;
            }
            map.insert(port, s);
        },
        None => {},
    }
    assert(table(map@) =~= received(table(old(map)@), port, x@, now));
}

/// Records octets that just came from the websocket.
pub fn ws_to_tcp_status(map: &mut StatusMap, port: u16, x: &[u8])
    requires
        room_to_receive(table(old(map)@), port, x@.len()),
    ensures
        exists|now: SystemTime|
            table(final(map)@) == #[trigger] received(table(old(map)@), port, x@, now),
{
    let now = current_time();
    ws_to_tcp_status_at(map, port, x, now);
    assert(table(map@) == received(table(old(map)@), port, x@, now));
}

/// Counts `n` octets that came from the TCP socket.
pub fn count_sent(map: &mut StatusMap, port: u16, n: usize)
    requires
        room_to_send(table(old(map)@), port, n as nat),
    ensures
        table(final(map)@) == sent_count(table(old(map)@), port, n as nat),
{
    match map.remove(&port) {
        Some(mut s) => {
            s.bytes_sent = s.bytes_sent + as_count(n);
            map.insert(port, s);
        },
        None => {},
    }
    assert(table(map@) =~= sent_count(table(old(map)@), port, n as nat));
}

/// Records the first `n` octets of `buf`, which came from the TCP socket. A request
/// to connect sets the label and the connection's address.
pub fn tcp_to_ws_status(
    map: &mut StatusMap,
    label: &mut String,
    port: u16,
    buf: &Vec<u8>,
    n: usize,
)
    requires
        room_to_send(table(old(map)@), port, n as nat),
        readable(buf@, n as nat),
    ensures
        table(final(map)@) == sent(table(old(map)@), port, buf@, n as nat),
        final(label)@ == label_after(old(label)@, buf@, n as nat),
{
    let asked: Option<String> = if n > 3 && buf[0] == 5 && buf[1] == 1 {
        match Address::read_from_buf(buf, 3) {
            Ok(addr) => Some(addr.to_string()),
            Err(_) => None,
        }
    } else {
        None
    };
    count_sent(map, port, n);
    let ghost t = table(map@);
    assert(forall|p: u16| #[trigger] t.contains_key(p) == map@.contains_key(p));
    match asked {
        Some(text) => {
            match map.remove(&port) {
                Some(mut s) => {
                    s.address = text.clone();
                    map.insert(port, s);
                },
                None => {},
            }
            proof {
                let named = StatusModel { address: text@, ..t[port] };
                assert(table(map@) =~= (if t.contains_key(port) {
                    t.insert(port, named)
                } else {
                    t
                }));
            }
            *label = text;
        },
        None => {},
    }
    assert(table(map@) =~= sent(table(old(map)@), port, buf@, n as nat));
}

// ---------------------------------------------------------------------------
// Laws
// ---------------------------------------------------------------------------

/// A map of connections stands for the same ports with what is known of each.
pub proof fn lemma_table(map: Map<u16, ConnectionStatus>, port: u16)
    ensures
        table(map).contains_key(port) <==> map.contains_key(port),
        map.contains_key(port) ==> {
            let s = map[port];
            &&& table(map)[port].status == s.status
            &&& table(map)[port].address == s.address@
            &&& table(map)[port].last_active == s.last_active
            &&& table(map)[port].bytes_got == s.bytes_got
            &&& table(map)[port].bytes_sent == s.bytes_sent
        },
{
}

/// A length below two to the thirty-second counts in full, and beyond that what is left
/// over.
pub proof fn lemma_counted(n: nat)
    ensures
        n < 0x1_0000_0000 ==> counted(n) == n,
        counted(n) < 0x1_0000_0000,
        counted(n + 0x1_0000_0000) == counted(n),
{
}

/// A fresh connection is new, without an address, active when it came, and has no octets.
pub proof fn lemma_fresh(now: SystemTime)
    ensures
        fresh(now).status is NEW,
        fresh(now).address == Seq::<char>::empty(),
        fresh(now).last_active == now,
        fresh(now).bytes_got == 0,
        fresh(now).bytes_sent == 0,
{
}

/// There is room for octets unless the connection is known and its count would not fit in
/// thirty-two bits.
pub proof fn lemma_room(t: Map<u16, StatusModel>, port: u16, n: nat)
    ensures
        !t.contains_key(port) ==> room_to_receive(t, port, n) && room_to_send(t, port, n),
        t.contains_key(port) ==> {
            &&& room_to_receive(t, port, n) <==> t[port].bytes_got + counted(n) < 0x1_0000_0000
            &&& room_to_send(t, port, n) <==> t[port].bytes_sent + counted(n) < 0x1_0000_0000
        },
{
}

/// Octets from the websocket add to the count of those got. Exactly the two octets 5 and 0
/// make the connection connected and active now. Nothing else of it changes.
pub proof fn lemma_received(t: Map<u16, StatusModel>, port: u16, x: Seq<u8>, now: SystemTime)
    requires
        t.contains_key(port),
        room_to_receive(t, port, x.len()),
    ensures
        ({
            let s = received(t, port, x, now)[port];
            let ack = x.len() == 2 && x[0] == 5 && x[1] == 0;
            &&& received(t, port, x, now).contains_key(port)
            &&& s.bytes_got == t[port].bytes_got + counted(x.len())
            &&& s.bytes_sent == t[port].bytes_sent
            &&& s.address == t[port].address
            &&& ack ==> s.status is CONNECTED && s.last_active == now
            &&& !ack ==> s.status == t[port].status && s.last_active == t[port].last_active
        }),
{
}

/// Octets from the TCP socket add to the count of those sent. A packet of more than three
/// octets that starts with 5 and 1 sets the address to the one that its fourth octet
/// starts. Nothing else of the connection changes.
pub proof fn lemma_sent(t: Map<u16, StatusModel>, port: u16, buf: Seq<u8>, n: nat)
    requires
        t.contains_key(port),
        room_to_send(t, port, n),
    ensures
        ({
            let s = sent(t, port, buf, n)[port];
            let request = n > 3 && buf[0] == 5 && buf[1] == 1;
            &&& sent(t, port, buf, n).contains_key(port)
            &&& s.bytes_sent == t[port].bytes_sent + counted(n)
            &&& s.bytes_got == t[port].bytes_got
            &&& s.status == t[port].status
            &&& s.last_active == t[port].last_active
            &&& request ==> s.address == address_text(wire_value(buf.skip(3))->Ok_0.0)
            &&& !request ==> s.address == t[port].address
        }),
        ({
            let s = sent_count(t, port, n)[port];
            &&& sent_count(t, port, n).contains_key(port)
            &&& s.bytes_sent == t[port].bytes_sent + counted(n)
            &&& s.bytes_got == t[port].bytes_got
            &&& s.status == t[port].status
            &&& s.last_active == t[port].last_active
            &&& s.address == t[port].address
        }),
{
}

/// Recording the octets of one connection leaves every other as it is, and enters none.
pub proof fn lemma_others_stay(
    t: Map<u16, StatusModel>,
    port: u16,
    other: u16,
    x: Seq<u8>,
    n: nat,
    now: SystemTime,
)
    requires
        other != port || !t.contains_key(port),
    ensures
        received(t, port, x, now).contains_key(other) <==> t.contains_key(other),
        sent(t, port, x, n).contains_key(other) <==> t.contains_key(other),
        sent_count(t, port, n).contains_key(other) <==> t.contains_key(other),
        t.contains_key(other) ==> {
            &&& received(t, port, x, now)[other] == t[other]
            &&& sent(t, port, x, n)[other] == t[other]
            &&& sent_count(t, port, n)[other] == t[other]
        },
{
}

/// The label becomes the address that a packet of more than three octets starting with 5
/// and 1 names, and else stays.
pub proof fn lemma_label(label: Seq<char>, buf: Seq<u8>, n: nat)
    ensures
        n > 3 && buf[0] == 5 && buf[1] == 1 ==> label_after(label, buf, n) == address_text(
            wire_value(buf.skip(3))->Ok_0.0,
        ),
        n <= 3 || buf[0] != 5 || buf[1] != 1 ==> label_after(label, buf, n) == label,
{
}

/// A packet that lies in the buffer can be made out unless it has more than three octets,
/// starts with 5 and 1, and no address can be read behind its third octet.
pub proof fn lemma_readable(buf: Seq<u8>, n: nat)
    requires
        n <= buf.len(),
    ensures
        readable(buf, n) <==> n <= 3 || buf[0] != 5 || buf[1] != 1 || wire_value(buf.skip(3)) is Ok,
{
}

/// Beyond the end of the buffer, only octets that are looked at have to be there.
pub proof fn lemma_readable_beyond(buf: Seq<u8>, n: nat)
    requires
        n > buf.len(),
    ensures
        n <= 3 ==> readable(buf, n),
        n > 3 ==> (readable(buf, n) <==> {
            ||| buf.len() >= 1 && buf[0] != 5
            ||| buf.len() >= 2 && buf[0] == 5 && buf[1] != 1
            ||| buf.len() >= 4 && buf[0] == 5 && buf[1] == 1 && wire_value(buf.skip(3)) is Ok
        }),
{
}

} // verus!
