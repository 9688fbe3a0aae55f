//! Tunnels UDP datagrams over one TCP connection.
//!
//! The library holds the logic of the tunnel: the endpoint model, the frame
//! codec, the stream deframer, and the decisions of the client and server
//! forwarders. The sockets and tasks that drive it live with the caller.
pub mod endpoint;
pub mod packets;
pub mod framer;
pub mod flows;
pub mod client;
pub mod server;
