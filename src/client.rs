//! The client forwarder's decisions. Datagrams from UDP senders are framed
//! with `encode_udp_packet`; what comes back over TCP is deframed and decoded
//! here, and each datagram goes to the endpoint its frame names.
use vstd::prelude::*;
use crate::endpoint::Endpoint;
use crate::framer::{scan, Deframer};
use crate::packets::{decode_udp_packet, decodes_to, DecodeError};

verus! {

/// Takes the bytes of one TCP read and returns, for each frame they
/// complete, in order, the destination and payload it carries, or why it
/// could not be decoded. A frame that does not decode is dropped on its own:
/// the frames after it are still delivered.
pub fn handle_tcp_data(deframer: &mut Deframer, chunk: &[u8]) -> (r: Vec<Result<(Endpoint, Vec<u8>), DecodeError>>)
    requires
        old(deframer).pending_bytes().len() + chunk@.len() <= usize::MAX,
    ensures
        final(deframer).limit() == old(deframer).limit(),
        old(deframer).has_failed() ==> r@.len() == 0 && *final(deframer) == *old(deframer),
        !old(deframer).has_failed() ==> ({
            let sc = scan(old(deframer).pending_bytes() + chunk@, old(deframer).limit());
            &&& r@.len() == sc.bodies.len()
            &&& forall|i: int| 0 <= i < r@.len() ==> decodes_to(#[trigger] r@[i], sc.bodies[i])
            &&& final(deframer).pending_bytes() == sc.rest
            &&& final(deframer).has_failed() == sc.too_large
        }),
{
    let bodies = deframer.feed(chunk);
    let mut out: Vec<Result<(Endpoint, Vec<u8>), DecodeError>> = Vec::new();
    let mut i: usize = 0;
    while i < bodies.len()
        invariant
            i <= bodies@.len(),
            out@.len() == i,
            forall|k: int| 0 <= k < i ==> decodes_to(#[trigger] out@[k], bodies@[k]@),
        decreases bodies@.len() - i,
    {
        let body = bodies[i].clone();
        out.push(decode_udp_packet(body));
        i = i + 1;
    }
    out
}

} // verus!
