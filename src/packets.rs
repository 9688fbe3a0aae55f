//! The frame codec.
//!
//! A frame is a 4-byte big-endian body length followed by the body. The body
//! is the IP version tag (4 or 6), the 4 or 16 address bytes, the big-endian
//! port, and the datagram payload. The length counts the body only.
use vstd::prelude::*;
use crate::endpoint::{Endpoint, EndpointView};

verus! {

/// Why a frame body could not be decoded.
#[derive(Clone, Copy, Debug, PartialEq, Eq, Structural)]
pub enum DecodeError {
    /// The first byte is neither 4 nor 6.
    BadVersion(u8),
    /// The body ends before the address and port do.
    Truncated,
}

/// The two big-endian bytes of `n`.
pub open spec fn be16(n: u16) -> Seq<u8> {
    seq![(n / 256) as u8, (n % 256) as u8]
}

/// The four big-endian bytes of `n`, for `n < 2^32`.
pub open spec fn be32(n: nat) -> Seq<u8> {
    seq![
        (n / 0x1000000 % 256) as u8,
        (n / 0x10000 % 256) as u8,
        (n / 0x100 % 256) as u8,
        (n % 256) as u8,
    ]
}

/// The number that the first four bytes of `s` spell, big-endian.
pub open spec fn be32_value(s: Seq<u8>) -> nat {
    (s[0] as nat) * 0x1000000 + (s[1] as nat) * 0x10000 + (s[2] as nat) * 0x100 + (s[3] as nat)
}

/// The address part of a body: version tag, address bytes, port.
pub open spec fn tag_bytes(e: EndpointView) -> Seq<u8> {
    seq![e.version_byte()] + e.ip + be16(e.port)
}

/// The body that carries payload `p` tagged with endpoint `e`.
pub open spec fn body_of(e: EndpointView, p: Seq<u8>) -> Seq<u8> {
    tag_bytes(e) + p
}

/// A body with its length header in front.
pub open spec fn framed(b: Seq<u8>) -> Seq<u8> {
    be32(b.len()) + b
}

/// The whole frame: body length, then body.
pub open spec fn frame_of(e: EndpointView, p: Seq<u8>) -> Seq<u8> {
    framed(body_of(e, p))
}

/// What a body decodes to.
pub open spec fn parse_body(s: Seq<u8>) -> Result<(EndpointView, Seq<u8>), DecodeError> {
    if s.len() == 0 {
        Err(DecodeError::Truncated)
    } else if s[0] == 4 {
        if s.len() < 7 {
            Err(DecodeError::Truncated)
        } else {
            Ok(
                (
                    EndpointView {
                        v6: false,
                        ip: s.subrange(1, 5),
                        port: (s[5] as nat * 256 + s[6] as nat) as u16,
                    },
                    s.subrange(7, s.len() as int),
                ),
            )
        }
    } else if s[0] == 6 {
        if s.len() < 19 {
            Err(DecodeError::Truncated)
        } else {
            Ok(
                (
                    EndpointView {
                        v6: true,
                        ip: s.subrange(1, 17),
                        port: (s[17] as nat * 256 + s[18] as nat) as u16,
                    },
                    s.subrange(19, s.len() as int),
                ),
            )
        }
    } else {
        Err(DecodeError::BadVersion(s[0]))
    }
}

/// `r` is what decoding body `s` gives.
pub open spec fn decodes_to(r: Result<(Endpoint, Vec<u8>), DecodeError>, s: Seq<u8>) -> bool {
    match r {
        Ok((e, p)) => parse_body(s) == Ok::<(EndpointView, Seq<u8>), DecodeError>((e@, p@)),
        Err(x) => parse_body(s) == Err::<(EndpointView, Seq<u8>), DecodeError>(x),
    }
}

/// Appends the bytes of `src` from `lo` up to `hi` to `dst`.
fn push_range(dst: &mut Vec<u8>, src: &[u8], lo: usize, hi: usize)
    requires
        lo <= hi <= src@.len(),
    ensures
        final(dst)@ == old(dst)@ + src@.subrange(lo as int, hi as int),
{
    let mut i: usize = lo;
    while i < hi
        invariant
            lo <= i <= hi <= src@.len(),
            dst@ == old(dst)@ + src@.subrange(lo as int, i as int),
        decreases hi - i,
    {
        dst.push(src[i]);
        i = i + 1;
        assert(src@.subrange(lo as int, i as int) =~= src@.subrange(lo as int, i - 1) + seq![src@[i - 1]]);
    }
}

/// Appends the bytes of `src` to `dst`.
fn push_all(dst: &mut Vec<u8>, src: &[u8])
    ensures
        final(dst)@ == old(dst)@ + src@,
{
    push_range(dst, src, 0, src.len());
    assert(src@.subrange(0, src@.len() as int) =~= src@);
}

/// The big-endian bytes of a length below 2^32.
fn be32_bytes(n: u32) -> (r: [u8; 4])
    ensures
        r@ == be32(n as nat),
        be32_value(r@) == n,
{
    let r = [(n / 0x1000000) as u8, (n / 0x10000 % 256) as u8, (n / 0x100 % 256) as u8, (n % 256) as u8];
    assert(r@ =~= be32(n as nat));
    r
}

/// Frames the first `size` bytes of `buf` as a datagram tagged with `addr`.
pub fn encode_udp_packet(buf: [u8; 65535], size: usize, addr: Endpoint) -> (r: Vec<u8>)
    requires
        size <= 65535,
    ensures
        r@ == frame_of(addr@, buf@.subrange(0, size as int)),
{
    let mut body: Vec<u8> = Vec::new();
    match addr {
        Endpoint::V4 { ip, port } => {
            body.push(4u8);
            push_all(&mut body, ip.as_slice());
        },
        Endpoint::V6 { ip, port } => {
            body.push(6u8);
            push_all(&mut body, ip.as_slice());
        },
    }
    let port = addr.port();
    body.push((port / 256) as u8);
    body.push((port % 256) as u8);
    assert(body@ =~= tag_bytes(addr@));
    push_range(&mut body, buf.as_slice(), 0, size);
    assert(body@ =~= body_of(addr@, buf@.subrange(0, size as int)));
    let len = body.len() as u32;
    let mut frame: Vec<u8> = Vec::new();
    push_all(&mut frame, be32_bytes(len).as_slice());
    push_all(&mut frame, body.as_slice());
    frame
}

/// Decodes a frame body into the endpoint it is tagged with and its payload.
pub fn decode_udp_packet(packet: Vec<u8>) -> (r: Result<(Endpoint, Vec<u8>), DecodeError>)
    ensures
        decodes_to(r, packet@),
{
    let n = packet.len();
    if n == 0 {
        return Err(DecodeError::Truncated);
    }
    let version = packet[0];
    if version == 4 {
        if n < 7 {
            return Err(DecodeError::Truncated);
        }
        let ip: [u8; 4] = [packet[1], packet[2], packet[3], packet[4]];
        let port = (packet[5] as u16) * 256 + packet[6] as u16;
        let mut payload: Vec<u8> = Vec::new();
        push_range(&mut payload, packet.as_slice(), 7, n);
        let e = Endpoint::v4(ip, port);
        assert(e@.ip =~= packet@.subrange(1, 5));
        assert(payload@ =~= packet@.subrange(7, n as int));
        Ok((e, payload))
    } else if version == 6 {
        if n < 19 {
            return Err(DecodeError::Truncated);
        }
        let ip: [u8; 16] = [
            packet[1], packet[2], packet[3], packet[4], packet[5], packet[6], packet[7], packet[8],
            packet[9], packet[10], packet[11], packet[12], packet[13], packet[14], packet[15], packet[16],
        ];
        let port = (packet[17] as u16) * 256 + packet[18] as u16;
        let mut payload: Vec<u8> = Vec::new();
        push_range(&mut payload, packet.as_slice(), 19, n);
        let e = Endpoint::v6(ip, port);
        assert(e@.ip =~= packet@.subrange(1, 17));
        assert(payload@ =~= packet@.subrange(19, n as int));
        Ok((e, payload))
    } else {
        Err(DecodeError::BadVersion(version))
    }
}

/// Decoding the body of an encoded frame gives back the endpoint and the
/// payload that went in.
pub proof fn lemma_decode_encode(e: EndpointView, p: Seq<u8>)
    requires
        e.wf(),
    ensures
        parse_body(body_of(e, p)) == Ok::<(EndpointView, Seq<u8>), DecodeError>((e, p)),
{
    let b = body_of(e, p);
    let n: int = if e.v6 { 17 } else { 5 };
    assert(b.subrange(1, n) =~= e.ip);
    assert(b.subrange(n + 2, b.len() as int) =~= p);
    assert(b[n] == (e.port / 256) as u8);
    assert(b[n + 1] == (e.port % 256) as u8);
    assert((b[n] as nat * 256 + b[n + 1] as nat) as u16 == e.port);
}

/// The header of a framed body spells the length of the body.
pub proof fn lemma_frame_header(b: Seq<u8>)
    requires
        b.len() < 0x1_0000_0000,
    ensures
        framed(b).len() == 4 + b.len(),
        be32_value(framed(b)) == b.len(),
        framed(b).subrange(4, framed(b).len() as int) == b,
{
    let f = framed(b);
    assert(f.subrange(4, f.len() as int) =~= b);
    assert(f[0] as nat * 0x1000000 + f[1] as nat * 0x10000 + f[2] as nat * 0x100 + f[3] as nat == b.len());
}

} // verus!
