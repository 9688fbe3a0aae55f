//! The stream deframer: turns the bytes of a TCP stream, however they are
//! split into reads, into the bodies of the frames they carry.
use vstd::prelude::*;
use crate::endpoint::EndpointView;
use crate::packets::{
    be32_value, body_of, frame_of, framed, lemma_decode_encode, lemma_frame_header, parse_body,
    DecodeError,
};

verus! {

/// The longest body that `encode_udp_packet` produces: an IPv6 tag and a
/// full receive buffer. A good default limit for a deframer.
pub const MAX_BODY: u32 = 1 + 16 + 2 + 65535;

/// What scanning a run of bytes yields: the complete bodies in order, the
/// unread bytes, and whether a header announced a body above the limit.
pub struct Scan {
    pub bodies: Seq<Seq<u8>>,
    pub rest: Seq<u8>,
    pub too_large: bool,
}

/// Scans `s` from a frame boundary. A header of length zero announces no
/// body and is skipped. Scanning stops at a header above `max`.
pub open spec fn scan(s: Seq<u8>, max: nat) -> Scan
    decreases s.len(),
{
    if s.len() < 4 {
        Scan { bodies: seq![], rest: s, too_large: false }
    } else {
        let n: int = be32_value(s) as int;
        if n > max {
            Scan { bodies: seq![], rest: s, too_large: true }
        } else if s.len() < 4 + n {
            Scan { bodies: seq![], rest: s, too_large: false }
        } else {
            let r = scan(s.subrange(4 + n, s.len() as int), max);
            if n == 0 {
                r
            } else {
                Scan { bodies: seq![s.subrange(4, 4 + n)] + r.bodies, rest: r.rest, too_large: r.too_large }
            }
        }
    }
}

/// The bodies produced by feeding `chunks` one after another to a deframer
/// that holds `pending`; feeding stops at an oversized header.
pub open spec fn scan_chunks(pending: Seq<u8>, chunks: Seq<Seq<u8>>, max: nat) -> Seq<Seq<u8>>
    decreases chunks.len(),
{
    if chunks.len() == 0 {
        seq![]
    } else {
        let sc = scan(pending + chunks[0], max);
        if sc.too_large {
            sc.bodies
        } else {
            sc.bodies + scan_chunks(sc.rest, chunks.drop_first(), max)
        }
    }
}

/// Scanning `x + y` is scanning `x`, then scanning what `x` left unread
/// followed by `y`.
pub proof fn lemma_scan_append(x: Seq<u8>, y: Seq<u8>, max: nat)
    ensures
        scan(x, max).too_large ==> scan(x + y, max) == (Scan {
            bodies: scan(x, max).bodies,
            rest: scan(x, max).rest + y,
            too_large: true,
        }),
        !scan(x, max).too_large ==> scan(x + y, max) == (Scan {
            bodies: scan(x, max).bodies + scan(scan(x, max).rest + y, max).bodies,
            rest: scan(scan(x, max).rest + y, max).rest,
            too_large: scan(scan(x, max).rest + y, max).too_large,
        }),
    decreases x.len(),
{
    let xy = x + y;
    if x.len() < 4 {
        assert(scan(x, max).bodies + scan(x + y, max).bodies =~= scan(x + y, max).bodies);
    } else {
        let n: int = be32_value(x) as int;
        assert(be32_value(xy) == n);
        if n > max {
        } else if x.len() < 4 + n {
            assert(scan(x, max).bodies + scan(x + y, max).bodies =~= scan(x + y, max).bodies);
        } else {
            let x2 = x.subrange(4 + n, x.len() as int);
            lemma_scan_append(x2, y, max);
            assert(xy.subrange(4 + n, xy.len() as int) =~= x2 + y);
            assert(xy.subrange(4, 4 + n) =~= x.subrange(4, 4 + n));
            if n != 0 && !scan(x2, max).too_large {
                let b = seq![x.subrange(4, 4 + n)];
                let r = scan(x2, max);
                assert(b + r.bodies + scan(r.rest + y, max).bodies =~= b + (r.bodies + scan(r.rest + y, max).bodies));
            }
        }
    }
}

/// What a scan leaves unread holds no complete body.
pub proof fn lemma_scan_rest(s: Seq<u8>, max: nat)
    requires
        !scan(s, max).too_large,
    ensures
        scan(scan(s, max).rest, max) == (Scan { bodies: seq![], rest: scan(s, max).rest, too_large: false }),
    decreases s.len(),
{
    if s.len() >= 4 {
        let n: int = be32_value(s) as int;
        if n <= max && s.len() >= 4 + n {
            lemma_scan_rest(s.subrange(4 + n, s.len() as int), max);
        }
    }
}

/// Feeding a stream in any partition into chunks yields the same bodies as
/// scanning the whole stream at once.
pub proof fn lemma_chunking(chunks: Seq<Seq<u8>>, max: nat)
    ensures
        scan_chunks(seq![], chunks, max) == scan(chunks.flatten(), max).bodies,
{
    lemma_chunking_from(seq![], chunks, max);
    assert(Seq::<u8>::empty() + chunks.flatten() =~= chunks.flatten());
}

proof fn lemma_chunking_from(pending: Seq<u8>, chunks: Seq<Seq<u8>>, max: nat)
    requires
        scan(pending, max) == (Scan { bodies: seq![], rest: pending, too_large: false }),
    ensures
        scan_chunks(pending, chunks, max) == scan(pending + chunks.flatten(), max).bodies,
    decreases chunks.len(),
{
    if chunks.len() == 0 {
        assert(pending + chunks.flatten() =~= pending);
    } else {
        let c = chunks[0];
        let tail = chunks.drop_first();
        let sc = scan(pending + c, max);
        lemma_scan_append(pending + c, tail.flatten(), max);
        assert(pending + chunks.flatten() =~= (pending + c) + tail.flatten());
        if !sc.too_large {
            lemma_scan_rest(pending + c, max);
            lemma_chunking_from(sc.rest, tail, max);
        }
    }
}

/// The bytes of a sequence of frames with the given bodies, one after another.
pub open spec fn frames_bytes(bodies: Seq<Seq<u8>>) -> Seq<u8> {
    bodies.map_values(|b: Seq<u8>| framed(b)).flatten()
}

/// Every body is non-empty and within the limit.
pub open spec fn bodies_within(bodies: Seq<Seq<u8>>, max: nat) -> bool {
    forall|i: int| 0 <= i < bodies.len() ==> 0 < (#[trigger] bodies[i]).len() <= max
}

/// Frames of non-empty bodies within the limit scan back to exactly their
/// bodies, in order, with nothing left over, whatever the bodies hold.
pub proof fn lemma_scan_frames(bodies: Seq<Seq<u8>>, max: nat)
    requires
        max < 0x1_0000_0000,
        bodies_within(bodies, max),
    ensures
        scan(frames_bytes(bodies), max) == (Scan { bodies, rest: seq![], too_large: false }),
    decreases bodies.len(),
{
    if bodies.len() == 0 {
        assert(frames_bytes(bodies) =~= seq![]);
        assert(bodies =~= seq![]);
    } else {
        let b = bodies[0];
        assert(0 < b.len() <= max);
        let tail = bodies.drop_first();
        assert forall|i: int| 0 <= i < tail.len() implies 0 < (#[trigger] tail[i]).len() <= max by {
            assert(tail[i] == bodies[i + 1]);
        }
        lemma_scan_frames(tail, max);
        let rest = frames_bytes(tail);
        assert(bodies.map_values(|b: Seq<u8>| framed(b)).drop_first() =~= tail.map_values(|b: Seq<u8>| framed(b)));
        assert(frames_bytes(bodies) == framed(b) + rest);
        lemma_frame_header(b);
        let s = framed(b) + rest;
        let n: int = b.len() as int;
        assert(be32_value(s) == n);
        assert(s.subrange(4 + n, s.len() as int) =~= rest);
        assert(s.subrange(4, 4 + n) =~= b);
        assert(bodies =~= seq![b] + tail);
    }
}

/// A stream made of frames of non-empty bodies within the limit, fed to a
/// fresh deframer in any partition into reads, yields exactly those bodies
/// in order.
pub proof fn lemma_deframe_any_chunking(bodies: Seq<Seq<u8>>, chunks: Seq<Seq<u8>>, max: nat)
    requires
        max < 0x1_0000_0000,
        bodies_within(bodies, max),
        chunks.flatten() == frames_bytes(bodies),
    ensures
        scan_chunks(seq![], chunks, max) == bodies,
{
    lemma_chunking(chunks, max);
    lemma_scan_frames(bodies, max);
}

/// A frame split across two reads at any offset yields its body exactly
/// once, as the whole frame in one read does.
pub proof fn lemma_split_frame(body: Seq<u8>, k: int, max: nat)
    requires
        max < 0x1_0000_0000,
        0 < body.len() <= max,
        0 <= k <= framed(body).len(),
    ensures
        scan_chunks(seq![], seq![framed(body).subrange(0, k), framed(body).subrange(k, framed(body).len() as int)], max)
            == seq![body],
{
    let f = framed(body);
    let chunks = seq![f.subrange(0, k), f.subrange(k, f.len() as int)];
    let bodies = seq![body];
    assert(bodies.map_values(|b: Seq<u8>| framed(b)) =~= seq![f]);
    seq![f].lemma_flatten_one_element();
    assert(chunks.drop_first() =~= seq![f.subrange(k, f.len() as int)]);
    chunks.drop_first().lemma_flatten_one_element();
    assert(chunks.flatten() =~= f);
    assert(bodies_within(bodies, max));
    lemma_deframe_any_chunking(bodies, chunks, max);
}

/// A datagram framed on one side is delivered whole on the other: the
/// deframer yields its body alone, which decodes to the endpoint and payload
/// that went in.
pub proof fn lemma_round_trip(e: EndpointView, p: Seq<u8>, max: nat)
    requires
        e.wf(),
        max < 0x1_0000_0000,
        body_of(e, p).len() <= max,
    ensures
        scan(frame_of(e, p), max) == (Scan { bodies: seq![body_of(e, p)], rest: seq![], too_large: false }),
        parse_body(body_of(e, p)) == Ok::<(EndpointView, Seq<u8>), DecodeError>((e, p)),
{
    let bodies = seq![body_of(e, p)];
    lemma_scan_frames(bodies, max);
    assert(bodies.map_values(|b: Seq<u8>| framed(b)) =~= seq![frame_of(e, p)]);
    seq![frame_of(e, p)].lemma_flatten_one_element();
    lemma_decode_encode(e, p);
}

/// The models of a list of byte vectors.
pub open spec fn views_of(v: Seq<Vec<u8>>) -> Seq<Seq<u8>> {
    v.map_values(|b: Vec<u8>| b@)
}

/// A stateful deframer over one TCP stream.
pub struct Deframer {
    /// Bytes received after the last complete frame.
    pending: Vec<u8>,
    /// The largest body length accepted.
    max_body: u32,
    /// Set once a header announced a body above the limit.
    failed: bool,
}

impl Deframer {
    /// The bytes received after the last complete frame.
    pub closed spec fn pending_bytes(&self) -> Seq<u8> {
        self.pending@
    }

    /// The largest body length accepted.
    pub closed spec fn limit(&self) -> nat {
        self.max_body as nat
    }

    /// Whether the stream announced an oversized body.
    pub closed spec fn has_failed(&self) -> bool {
        self.failed
    }

    /// A deframer at the start of a stream.
    pub fn new(max_body: u32) -> (r: Deframer)
        ensures
            r.pending_bytes() == Seq::<u8>::empty(),
            r.limit() == max_body,
            !r.has_failed(),
    {
        Deframer { pending: Vec::new(), max_body, failed: false }
    }

    /// Whether a header announced a body above the limit; the stream can then
    /// no longer be trusted and the connection is to be closed.
    pub fn is_failed(&self) -> (r: bool)
        ensures
            r == self.has_failed(),
    {
        self.failed
    }

    /// The number of bytes held after the last complete frame.
    pub fn pending_len(&self) -> (r: usize)
        ensures
            r == self.pending_bytes().len(),
    {
        self.pending.len()
    }

    /// The largest body length accepted.
    pub fn max_body(&self) -> (r: u32)
        ensures
            r == self.limit(),
    {
        self.max_body
    }

    /// Takes the bytes of one read and returns the bodies of the frames that
    /// they complete, in order. After a failure nothing more is returned.
    pub fn feed(&mut self, chunk: &[u8]) -> (r: Vec<Vec<u8>>)
        requires
            old(self).pending_bytes().len() + chunk@.len() <= usize::MAX,
        ensures
            final(self).limit() == old(self).limit(),
            old(self).has_failed() ==> r@.len() == 0 && *final(self) == *old(self),
            !old(self).has_failed() ==> ({
                let sc = scan(old(self).pending_bytes() + chunk@, old(self).limit());
                &&& views_of(r@) == sc.bodies
                &&& final(self).pending_bytes() == sc.rest
                &&& final(self).has_failed() == sc.too_large
            }),
    {
        if self.failed {
            return Vec::new();
        }
        let ghost max = self.max_body as nat;
        let ghost s = self.pending@ + chunk@;
        let mut data: Vec<u8> = Vec::new();
        std::mem::swap(&mut data, &mut self.pending);
        let mut i: usize = 0;
        while i < chunk.len()
            invariant
                i <= chunk@.len(),
                data@ == old(self).pending@ + chunk@.subrange(0, i as int),
                data@.len() <= usize::MAX,
                old(self).pending@.len() + chunk@.len() <= usize::MAX,
            decreases chunk@.len() - i,
        {
            data.push(chunk[i]);
            i = i + 1;
            assert(chunk@.subrange(0, i as int) =~= chunk@.subrange(0, i - 1) + seq![chunk@[i - 1]]);
        }
        assert(chunk@.subrange(0, chunk@.len() as int) =~= chunk@);
        assert(data@ == s);
        let len = data.len();
        let mut out: Vec<Vec<u8>> = Vec::new();
        let mut pos: usize = 0;
        let mut too_large = false;
        assert(s.subrange(0, len as int) =~= s);
        assert(views_of(out@) + scan(s, max).bodies =~= scan(s, max).bodies);
        loop
            invariant_except_break
                !too_large,
            invariant
                data@ == s,
                len == s.len(),
                pos <= len,
                max == self.max_body,
                scan(s, max) == (Scan {
                    bodies: views_of(out@) + scan(s.subrange(pos as int, len as int), max).bodies,
                    rest: scan(s.subrange(pos as int, len as int), max).rest,
                    too_large: scan(s.subrange(pos as int, len as int), max).too_large,
                }),
            ensures
                pos <= len,
                too_large ==> scan(s.subrange(pos as int, len as int), max) == (Scan {
                    bodies: seq![],
                    rest: s.subrange(pos as int, len as int),
                    too_large: true,
                }),
                !too_large ==> scan(s.subrange(pos as int, len as int), max) == (Scan {
                    bodies: seq![],
                    rest: s.subrange(pos as int, len as int),
                    too_large: false,
                }),
                scan(s, max) == (Scan {
                    bodies: views_of(out@) + scan(s.subrange(pos as int, len as int), max).bodies,
                    rest: scan(s.subrange(pos as int, len as int), max).rest,
                    too_large: scan(s.subrange(pos as int, len as int), max).too_large,
                }),
            decreases len - pos,
        {
            let ghost t = s.subrange(pos as int, len as int);
            if len - pos < 4 {
                break;
            }
            let n: u32 = (data[pos] as u32) * 0x1000000 + (data[pos + 1] as u32) * 0x10000
                + (data[pos + 2] as u32) * 0x100 + data[pos + 3] as u32;
            assert(n == be32_value(t));
            if n > self.max_body {
                too_large = true;
                break;
            }
            let n = n as usize;
            if len - pos - 4 < n {
                break;
            }
            let next = pos + 4 + n;
            assert(t.subrange(4 + n, t.len() as int) =~= s.subrange(next as int, len as int));
            if n > 0 {
                let mut body: Vec<u8> = Vec::new();
                let mut j: usize = pos + 4;
                while j < next
                    invariant
                        pos + 4 <= j <= next <= len,
                        data@ == s,
                        len == s.len(),
                        body@ == s.subrange(pos + 4, j as int),
                    decreases next - j,
                {
                    body.push(data[j]);
                    j = j + 1;
                    assert(s.subrange(pos + 4, j as int) =~= s.subrange(pos + 4, j - 1) + seq![s[j - 1]]);
                }
                assert(body@ =~= t.subrange(4, 4 + n));
                let ghost before = out@;
                out.push(body);
                assert(views_of(out@) =~= views_of(before) + seq![t.subrange(4, 4 + n)]);
                let ghost r = scan(s.subrange(next as int, len as int), max);
                assert(views_of(before) + (seq![t.subrange(4, 4 + n)] + r.bodies) =~= views_of(out@) + r.bodies);
            }
            pos = next;
        }
        let mut rest: Vec<u8> = Vec::new();
        let mut k: usize = pos;
        while k < len
            invariant
                pos <= k <= len,
                data@ == s,
                len == s.len(),
                rest@ == s.subrange(pos as int, k as int),
            decreases len - k,
        {
            rest.push(data[k]);
            k = k + 1;
            assert(s.subrange(pos as int, k as int) =~= s.subrange(pos as int, k - 1) + seq![s[k - 1]]);
        }
        self.pending = rest;
        self.failed = too_large;
        assert(views_of(out@) + seq![] =~= views_of(out@));
        out
    }
}

} // verus!
