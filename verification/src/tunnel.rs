//! What the two ends of the tunnel do together, where the websocket between them
//! delivers every message that one end sends to the other, in order.
use vstd::prelude::*;
use crate::direction::Direction;
use crate::proxy_socks5::{greeting_value, server_greeting};
use crate::tcp_incoming::{
    lemma_tcp_forwards_what_it_reads, lemma_tcp_run_wf, reply_failed, taken, TcpCourse, TcpIncoming,
};
use crate::ws_incoming::{
    lemma_ws_hands_on_what_comes, messages, opening, WsCourse, WsModel,
};

verus! {

/// The websocket delivers to one end what the other sends.
pub open spec fn delivered(from: TcpIncoming, sent: TcpCourse, came: WsCourse) -> bool {
    messages(came) == from.forwarded(sent)
}

/// The packets that the task at one end takes from its TCP socket.
pub open spec fn read_at(side: Direction, port: u16, course: TcpCourse) -> Seq<Seq<u8>> {
    taken(TcpIncoming::initial(Some(side), port), course)
}

/// The task is not held up by its greeting: all that came was handed to the TCP socket.
pub open spec fn caught_up(state: WsModel) -> bool {
    state.phase !is Greeting && state.phase !is Signalling
}

/// Where no end handles the handshake, each end hands to its TCP socket exactly what
/// the other takes from its own.
pub proof fn lemma_tunnel_is_transparent(
    from_port: u16,
    sent: TcpCourse,
    to_port: u16,
    came: WsCourse,
)
    requires
        TcpIncoming::initial(None, from_port).legal(sent),
        WsModel::initial(None, to_port).legal(came),
        delivered(TcpIncoming::initial(None, from_port), sent, came),
    ensures
        WsModel::initial(None, to_port).handed(came) == taken(
            TcpIncoming::initial(None, from_port),
            sent,
        ),
{
    lemma_tcp_forwards_what_it_reads(None, from_port, sent);
    lemma_ws_hands_on_what_comes(None, to_port, came);
}

/// What goes to the SOCKS5 server of the packets that are taken from the client: all but a
/// first one that is a greeting whose answer was written.
pub open spec fn for_server(port: u16, course: TcpCourse) -> Seq<Seq<u8>> {
    let read = read_at(Direction::ClientSide, port, course);
    if read.len() > 0 && greeting_value(read[0]) is Some && !reply_failed(course) {
        read.skip(1)
    } else {
        read
    }
}

/// What goes to the client of the packets that are taken from the SOCKS5 server: all but a
/// first one that is the answer to the greeting.
pub open spec fn for_client(port: u16, course: TcpCourse) -> Seq<Seq<u8>> {
    let read = read_at(Direction::ServerSide, port, course);
    if read.len() > 0 && read[0] == server_greeting() {
        read.skip(1)
    } else {
        read
    }
}

/// The SOCKS5 server is handed one greeting from the server side, and then every packet
/// from the client but a greeting that was answered at the client side. Nothing is handed
/// to it before there is such a packet, and while the greeting is under way the packet
/// waits.
///
/// Where the client greets, is answered and goes on, the greeting from the server side thus
/// stands in place of the client's. Where the two are the same, the server is handed exactly
/// what is taken from the client.
pub proof fn lemma_tunnel_to_server(
    client_port: u16,
    sent: TcpCourse,
    server_port: u16,
    came: WsCourse,
)
    requires
        TcpIncoming::initial(Some(Direction::ClientSide), client_port).legal(sent),
        WsModel::initial(Some(Direction::ServerSide), server_port).legal(came),
        delivered(
            TcpIncoming::initial(Some(Direction::ClientSide), client_port),
            sent,
            came,
        ),
    ensures
        ({
            let far = WsModel::initial(Some(Direction::ServerSide), server_port);
            let read = read_at(Direction::ClientSide, client_port, sent);
            let rest = for_server(client_port, sent);
            let handed = far.handed(came);
            &&& handed == (if rest.len() == 0 {
                Seq::empty()
            } else if caught_up(far.run(came)) {
                seq![opening()] + rest
            } else {
                seq![opening()]
            })
            &&& read.len() > 1 && greeting_value(read[0]) is Some && !reply_failed(sent)
                && caught_up(far.run(came)) ==> {
                &&& handed == read.update(0, opening())
                &&& read[0] == opening() ==> handed == read
            }
        }),
{
    let read = read_at(Direction::ClientSide, client_port, sent);
    lemma_tcp_forwards_what_it_reads(Some(Direction::ClientSide), client_port, sent);
    lemma_ws_hands_on_what_comes(Some(Direction::ServerSide), server_port, came);
    if read.len() > 1 {
        assert(seq![opening()] + read.skip(1) =~= read.update(0, opening()));
        assert(read[0] == opening() ==> read.update(0, opening()) =~= read);
    }
}

/// The client is handed every packet from the SOCKS5 server but a first one that is the
/// answer to the greeting, since the client side gives the client its own. With that answer
/// in front, the client is handed exactly what is taken from the server.
pub proof fn lemma_tunnel_to_client(
    server_port: u16,
    sent: TcpCourse,
    client_port: u16,
    came: WsCourse,
)
    requires
        TcpIncoming::initial(Some(Direction::ServerSide), server_port).legal(sent),
        WsModel::initial(Some(Direction::ClientSide), client_port).legal(came),
        delivered(
            TcpIncoming::initial(Some(Direction::ServerSide), server_port),
            sent,
            came,
        ),
    ensures
        ({
            let read = read_at(Direction::ServerSide, server_port, sent);
            let handed = WsModel::initial(Some(Direction::ClientSide), client_port).handed(came);
            &&& handed == for_client(server_port, sent)
            &&& read.len() > 0 && read[0] == server_greeting() ==> seq![server_greeting()] + handed
                == read
        }),
{
    let read = read_at(Direction::ServerSide, server_port, sent);
    lemma_no_reply_at_server(server_port, sent);
    lemma_tcp_forwards_what_it_reads(Some(Direction::ServerSide), server_port, sent);
    lemma_ws_hands_on_what_comes(Some(Direction::ClientSide), client_port, came);
    if read.len() > 0 && read[0] == server_greeting() {
        assert(seq![server_greeting()] + read.skip(1) =~= read);
    }
}

/// At the server side no greeting is answered.
proof fn lemma_no_reply_at_server(port: u16, course: TcpCourse)
    requires
        TcpIncoming::initial(Some(Direction::ServerSide), port).legal(course),
    ensures
        !reply_failed(course),
    decreases course.len(),
{
    if course.len() > 0 {
        let before = course.drop_last();
        lemma_no_reply_at_server(port, before);
        lemma_tcp_run_wf(
            TcpIncoming::initial(Some(Direction::ServerSide), port),
            before,
        );
    }
}

} // verus!
