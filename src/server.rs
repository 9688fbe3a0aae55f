//! The server forwarder's decisions for one accepted TCP connection: which
//! flow each frame belongs to, and when a flow must be opened.
//!
//! Frames are routed one at a time in the order they arrive, so the
//! datagrams of one origin reach the downstream destination in order.
use vstd::prelude::*;
use crate::endpoint::{Endpoint, EndpointView};
use crate::flows::FlowTable;
use crate::framer::Deframer;
use crate::packets::{decode_udp_packet, parse_body, DecodeError};

verus! {

/// What to do with one frame body.
#[derive(Debug, PartialEq, Eq)]
pub enum ServerAction {
    /// The body does not decode: drop it and go on with the next frame.
    Drop(DecodeError),
    /// Send `payload` downstream from the socket of flow `flow`.
    Forward { flow: usize, payload: Vec<u8> },
    /// `origin` has no flow yet: bind a socket on `bind_port` (0 lets the
    /// system choose), record the flow with `FlowTable::insert`, start its
    /// reader, and send `payload` downstream from it. If the bind fails the
    /// frame is dropped and no flow is recorded.
    Open { origin: Endpoint, bind_port: u16, payload: Vec<u8> },
}

/// The state of one server connection.
pub struct ServerConnection {
    /// Turns the TCP stream into frame bodies.
    pub deframer: Deframer,
    /// The flows of this connection.
    pub flows: FlowTable,
    /// The downstream UDP port on the loopback address.
    pub to_port: u16,
    /// New flow sockets bind to `to_port` instead of a port of the system's
    /// choosing.
    pub disable_port_remapping: bool,
}

/// The downstream destination: the loopback address at `port`.
pub open spec fn downstream_of(port: u16) -> EndpointView {
    EndpointView { v6: false, ip: seq![127u8, 0u8, 0u8, 1u8], port }
}

impl ServerConnection {
    /// The port new flow sockets bind to.
    pub open spec fn bind_port_spec(&self) -> u16 {
        if self.disable_port_remapping {
            self.to_port
        } else {
            0
        }
    }

    /// A fresh connection: nothing read yet, no flows.
    pub fn new(to_port: u16, disable_port_remapping: bool, max_body: u32) -> (r: ServerConnection)
        ensures
            r.deframer.pending_bytes() == Seq::<u8>::empty(),
            r.deframer.limit() == max_body,
            !r.deframer.has_failed(),
            r.flows@ == Seq::<EndpointView>::empty(),
            r.to_port == to_port,
            r.disable_port_remapping == disable_port_remapping,
    {
        ServerConnection {
            deframer: Deframer::new(max_body),
            flows: FlowTable::new(),
            to_port,
            disable_port_remapping,
        }
    }

    /// Where every payload is sent.
    pub fn downstream(&self) -> (r: Endpoint)
        ensures
            r@ == downstream_of(self.to_port),
    {
        let r = Endpoint::v4([127, 0, 0, 1], self.to_port);
        assert(r@.ip =~= seq![127u8, 0u8, 0u8, 1u8]);
        r
    }

    /// The port a new flow socket binds to.
    pub fn bind_port(&self) -> (r: u16)
        ensures
            r == self.bind_port_spec(),
    {
        if self.disable_port_remapping {
            self.to_port
        } else {
            0
        }
    }

    /// Decides what to do with one frame body.
    pub fn route(&self, body: Vec<u8>) -> (r: ServerAction)
        ensures
            match parse_body(body@) {
                Err(x) => r == ServerAction::Drop(x),
                Ok((o, p)) => if self.flows@.contains(o) {
                    match r {
                        ServerAction::Forward { flow, payload } => {
                            &&& flow < self.flows@.len()
                            &&& self.flows@[flow as int] == o
                            &&& payload@ == p
                        },
                        _ => false,
                    }
                } else {
                    match r {
                        ServerAction::Open { origin, bind_port, payload } => {
                            &&& origin@ == o
                            &&& bind_port == self.bind_port_spec()
                            &&& payload@ == p
                        },
                        _ => false,
                    }
                },
            },
    {
        match decode_udp_packet(body) {
            Err(x) => ServerAction::Drop(x),
            Ok((origin, payload)) => match self.flows.find(&origin) {
                Some(flow) => ServerAction::Forward { flow, payload },
                None => ServerAction::Open { origin, bind_port: self.bind_port(), payload },
            },
        }
    }
}

} // verus!
