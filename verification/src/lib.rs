//! A bridge between TCP sockets and websockets that knows the SOCKS5 handshake.
pub mod address;
pub mod clean_up;
pub mod codec;
pub mod communicate;
pub mod direction;
pub mod manager;
pub mod net;
pub mod options;
pub mod proxy_socks5;
pub mod serve;
pub mod status;
pub mod tcp_incoming;
pub mod text;
pub mod tunnel;
pub mod ws_incoming;
