//! The server's flow table: one entry per origin endpoint seen on a TCP
//! connection. A flow is named by its index, which never changes.
use vstd::prelude::*;
use crate::endpoint::{Endpoint, EndpointView};

verus! {

/// No endpoint occurs twice.
pub open spec fn distinct(t: Seq<EndpointView>) -> bool {
    forall|i: int, j: int| 0 <= i < j < t.len() ==> t[i] != t[j]
}

/// The table after a frame from `o` is routed: unchanged when `o` has a
/// flow, else with a new flow for `o` at the end.
pub open spec fn insert_if_absent(t: Seq<EndpointView>, o: EndpointView) -> Seq<EndpointView> {
    if t.contains(o) {
        t
    } else {
        t.push(o)
    }
}

/// The table after frames from `origins`, in order, on a fresh connection.
pub open spec fn table_after(origins: Seq<EndpointView>) -> Seq<EndpointView>
    decreases origins.len(),
{
    if origins.len() == 0 {
        seq![]
    } else {
        insert_if_absent(table_after(origins.drop_last()), origins.last())
    }
}

/// After frames from any sequence of origins, the table holds exactly one
/// entry for each distinct origin seen, and no other.
pub proof fn lemma_one_flow_per_origin(origins: Seq<EndpointView>)
    ensures
        distinct(table_after(origins)),
        forall|o: EndpointView| table_after(origins).contains(o) <==> origins.contains(o),
    decreases origins.len(),
{
    if origins.len() > 0 {
        let init = origins.drop_last();
        let o = origins.last();
        lemma_one_flow_per_origin(init);
        let t = table_after(init);
        let u = table_after(origins);
        assert(u == insert_if_absent(t, o));
        assert forall|x: EndpointView| t.contains(x) implies u.contains(x) by {
            let j = choose|j: int| 0 <= j < t.len() && t[j] == x;
            if !t.contains(o) {
                assert(u[j] == x);
            }
        }
        assert(u.contains(o)) by {
            if !t.contains(o) {
                assert(u[t.len() as int] == o);
            }
        }
        assert forall|x: EndpointView| u.contains(x) implies t.contains(x) || x == o by {
            if !t.contains(o) {
                let j = choose|j: int| 0 <= j < u.len() && u[j] == x;
                if j < t.len() {
                    assert(t[j] == x);
                }
            }
        }
        assert forall|x: EndpointView| init.contains(x) implies origins.contains(x) by {
            let j = choose|j: int| 0 <= j < init.len() && init[j] == x;
            assert(origins[j] == x);
        }
        assert forall|x: EndpointView| origins.contains(x) implies init.contains(x) || x == o by {
            let j = choose|j: int| 0 <= j < origins.len() && origins[j] == x;
            if j < init.len() {
                assert(init[j] == x);
            }
        }
        assert(origins[origins.len() - 1] == o);
        assert(distinct(u)) by {
            if !t.contains(o) {
                assert forall|i: int, j: int| 0 <= i < j < u.len() implies u[i] != u[j] by {
                    if j == t.len() {
                        assert(t[i] == u[i]);
                    }
                }
            }
        }
    }
}

/// A frame from an origin that already has a flow leaves the table as it is,
/// so the flow is reused.
pub proof fn lemma_flow_reused(origins: Seq<EndpointView>, o: EndpointView)
    requires
        origins.contains(o),
    ensures
        table_after(origins.push(o)) == table_after(origins),
{
    lemma_one_flow_per_origin(origins);
    assert(origins.push(o).drop_last() =~= origins);
}

/// Routing a frame never moves an existing flow.
pub proof fn lemma_flows_stay(origins: Seq<EndpointView>, o: EndpointView)
    ensures
        table_after(origins).is_prefix_of(table_after(origins.push(o))),
{
    assert(origins.push(o).drop_last() =~= origins);
    let t = table_after(origins);
    if !t.contains(o) {
        assert(t =~= t.push(o).subrange(0, t.len() as int));
    } else {
        assert(t =~= t.subrange(0, t.len() as int));
    }
}

/// The flow table of one TCP connection.
pub struct FlowTable {
    origins: Vec<Endpoint>,
}

impl View for FlowTable {
    type V = Seq<EndpointView>;

    closed spec fn view(&self) -> Seq<EndpointView> {
        self.origins@.map_values(|e: Endpoint| e@)
    }
}

impl FlowTable {
    #[verifier::type_invariant]
    spec fn inv(&self) -> bool {
        distinct(self@)
    }

    /// An empty table.
    pub fn new() -> (r: FlowTable)
        ensures
            r@ == Seq::<EndpointView>::empty(),
    {
        let r = FlowTable { origins: Vec::new() };
        assert(r@ =~= Seq::<EndpointView>::empty());
        r
    }

    /// The number of flows.
    pub fn len(&self) -> (r: usize)
        ensures
            r == self@.len(),
    {
        self.origins.len()
    }

    /// The flow of `origin`, if it has one.
    pub fn find(&self, origin: &Endpoint) -> (r: Option<usize>)
        ensures
            match r {
                Some(i) => i < self@.len() && self@[i as int] == origin@,
                None => !self@.contains(origin@),
            },
    {
        let mut i: usize = 0;
        while i < self.origins.len()
            invariant
                i <= self.origins@.len(),
                self@.len() == self.origins@.len(),
                forall|k: int| 0 <= k < i ==> self@[k] != origin@,
            decreases self.origins@.len() - i,
        {
            if self.origins[i] == *origin {
                return Some(i);
            }
            i = i + 1;
        }
        None
    }

    /// The origin of flow `flow`.
    pub fn origin(&self, flow: usize) -> (r: Endpoint)
        requires
            flow < self@.len(),
        ensures
            r@ == self@[flow as int],
    {
        self.origins[flow]
    }

    /// Records a flow for `origin`, unless it has one; returns its index.
    pub fn insert(&mut self, origin: Endpoint) -> (r: usize)
        ensures
            final(self)@ == insert_if_absent(old(self)@, origin@),
            r < final(self)@.len(),
            final(self)@[r as int] == origin@,
    {
        proof {
            use_type_invariant(&*self);
        }
        match self.find(&origin) {
            Some(i) => i,
            None => {
                let ghost before = self@;
                let n = self.origins.len();
                let mut origins: Vec<Endpoint> = Vec::new();
                std::mem::swap(&mut origins, &mut self.origins);
                origins.push(origin);
                proof {
                    let t = before.push(origin@);
                    assert forall|i: int, j: int| 0 <= i < j < t.len() implies t[i] != t[j] by {
                        if j == before.len() {
                            assert(before[i] == t[i]);
                        }
                    }
                    assert(origins@.map_values(|e: Endpoint| e@) =~= t);
                }
                self.origins = origins;
                assert(self@ =~= before.push(origin@));
                n
            },
        }
    }
}

} // verus!
