//! Socket endpoints: an IP version, its address bytes and a port.
use vstd::prelude::*;

verus! {

/// The mathematical model of an endpoint.
pub struct EndpointView {
    /// True for IPv6, false for IPv4.
    pub v6: bool,
    /// The address bytes in network order: 4 for IPv4, 16 for IPv6.
    pub ip: Seq<u8>,
    pub port: u16,
}

impl EndpointView {
    /// The address length agrees with the IP version.
    pub open spec fn wf(self) -> bool {
        self.ip.len() == (if self.v6 { 16nat } else { 4nat })
    }

    /// The wire tag of the IP version.
    pub open spec fn version_byte(self) -> u8 {
        if self.v6 { 6u8 } else { 4u8 }
    }
}

/// A UDP socket endpoint, as carried in every frame.
#[allow(inconsistent_fields)]
#[derive(Clone, Copy, Debug)]
pub enum Endpoint {
    V4 { ip: [u8; 4], port: u16 },
    V6 { ip: [u8; 16], port: u16 },
}

impl View for Endpoint {
    type V = EndpointView;

    open spec fn view(&self) -> EndpointView {
        match self {
            Endpoint::V4 { ip, port } => EndpointView { v6: false, ip: ip@, port: *port },
            Endpoint::V6 { ip, port } => EndpointView { v6: true, ip: ip@, port: *port },
        }
    }
}

fn same_bytes_4(a: &[u8; 4], b: &[u8; 4]) -> (r: bool)
    ensures
        r == (a@ == b@),
{
    let mut i: usize = 0;
    while i < 4
        invariant
            i <= 4,
            forall|k: int| 0 <= k < i ==> a@[k] == b@[k],
        decreases 4 - i,
    {
        if a[i] != b[i] {
            return false;
        }
        i = i + 1;
    }
    assert(a@ =~= b@);
    true
}

fn same_bytes_16(a: &[u8; 16], b: &[u8; 16]) -> (r: bool)
    ensures
        r == (a@ == b@),
{
    let mut i: usize = 0;
    while i < 16
        invariant
            i <= 16,
            forall|k: int| 0 <= k < i ==> a@[k] == b@[k],
        decreases 16 - i,
    {
        if a[i] != b[i] {
            return false;
        }
        i = i + 1;
    }
    assert(a@ =~= b@);
    true
}

impl Endpoint {
    /// An IPv4 endpoint.
    pub fn v4(ip: [u8; 4], port: u16) -> (r: Endpoint)
        ensures
            r@ == (EndpointView { v6: false, ip: ip@, port }),
    {
        Endpoint::V4 { ip, port }
    }

    /// An IPv6 endpoint.
    pub fn v6(ip: [u8; 16], port: u16) -> (r: Endpoint)
        ensures
            r@ == (EndpointView { v6: true, ip: ip@, port }),
    {
        Endpoint::V6 { ip, port }
    }

    /// The port of the endpoint.
    pub fn port(&self) -> (r: u16)
        ensures
            r == self@.port,
    {
        match self {
            Endpoint::V4 { port, .. } => *port,
            Endpoint::V6 { port, .. } => *port,
        }
    }

    /// Whether the endpoint is an IPv6 one.
    pub fn is_v6(&self) -> (r: bool)
        ensures
            r == self@.v6,
    {
        matches!(self, Endpoint::V6 { .. })
    }
}

impl PartialEq for Endpoint {
    fn eq(&self, other: &Endpoint) -> (r: bool)
        ensures
            r == (self@ == other@),
    {
        match (self, other) {
            (Endpoint::V4 { ip: a, port: p }, Endpoint::V4 { ip: b, port: q }) => {
                *p == *q && same_bytes_4(a, b)
            },
            (Endpoint::V6 { ip: a, port: p }, Endpoint::V6 { ip: b, port: q }) => {
                *p == *q && same_bytes_16(a, b)
            },
            _ => false,
        }
    }
}

impl Eq for Endpoint {
}

impl vstd::std_specs::cmp::PartialEqSpecImpl for Endpoint {
    open spec fn obeys_eq_spec() -> bool {
        true
    }

    open spec fn eq_spec(&self, other: &Endpoint) -> bool {
        self@ == other@
    }
}

} // verus!
