# websocket_bridge

A bridge that carries TCP connections over websockets. The client side accepts TCP
connections and opens a websocket for each; the server side accepts websockets and opens a
TCP connection for each. Both ends know the SOCKS5 handshake: the client side answers a
client's greeting itself, and the server side greets the SOCKS5 server itself, so that the
handshake costs no round trip through the tunnel.

## Layout

- `src/` is the library, verified with Verus. It performs no input or output: each task of a
  connection is a state that is handed what happened and answers with what to do next.
  - `text`, `net`, `address`: numbers, IP addresses and SOCKS5 addresses in text form
  - `codec`: SOCKS5 addresses in binary form
  - `proxy_socks5`: the messages of the handshake
  - `status`: the table of connections
  - `tcp_incoming`, `ws_incoming`: the two directions of a connection
  - `communicate`, `serve`, `clean_up`: how a connection begins and ends
  - `tunnel`: what both ends do together
  - `options`, `manager`: the program's options, and pooled websocket connections
- `app/` is the program: it owns the sockets and performs what the library decides.
- `tests/` runs the library on concrete values.
