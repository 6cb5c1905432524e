//! Many drones exchanging packets: a model of a flood over the whole network.
use crate::control::ActionView;
use crate::packet::{FloodRequestView, NodeId, NodeType, PacketTypeView, PacketView};
use crate::protocol::{flood_copy_packet, DroneView};
use vstd::prelude::*;

verus! {

/// The drones of a network, by id, and the packets on their way, each with
/// the node it is addressed to.
pub struct NetworkView<C> {
    pub drones: Map<NodeId, DroneView<C>>,
    pub in_flight: Set<(NodeId, PacketView)>,
}

/// The packets that the actions put on the links.
pub open spec fn sent_packets(actions: Set<ActionView>) -> Set<(NodeId, PacketView)> {
    Set::new(|x: (NodeId, PacketView)| actions.contains(ActionView::Send(x.0, x.1)))
}

/// `q` is the flood request `(initiator_id, flood_id)`.
pub open spec fn is_flood_request_for(q: PacketView, key: (NodeId, u64)) -> bool {
    match q.pack_type {
        PacketTypeView::FloodRequest(r) => (r.initiator_id, r.flood_id) == key,
        _ => false,
    }
}

impl<C> NetworkView<C> {
    /// Node `m` takes the packet `p` off its link; a drone handles it and its
    /// sends go on the links, every send reaching its endpoint.
    pub open spec fn deliver(self, m: NodeId, p: PacketView, drop: bool) -> NetworkView<C> {
        let rest = self.in_flight.remove((m, p));
        if self.drones.contains_key(m) {
            let (after, actions) = self.drones[m].packet_step(p, drop);
            NetworkView {
                drones: self.drones.insert(m, after),
                in_flight: rest.union(sent_packets(actions)),
            }
        } else {
            NetworkView { drones: self.drones, in_flight: rest }
        }
    }
}

/// `b` follows from `a` by the delivery of one packet on its way.
pub open spec fn is_delivery<C>(a: NetworkView<C>, b: NetworkView<C>) -> bool {
    exists|m: NodeId, p: PacketView, drop: bool|
        a.in_flight.contains((m, p)) && b == #[trigger] a.deliver(m, p, drop)
}

/// Each network of the sequence follows from the one before by one delivery.
pub open spec fn is_run<C>(nets: Seq<NetworkView<C>>) -> bool {
    forall|i: int| 0 <= i < nets.len() - 1 ==> #[trigger] is_delivery(nets[i], nets[i + 1])
}

/// The request that initiator `n0` sends to its neighbor `b` to start a flood.
pub open spec fn flood_start_packet(n0: NodeId, flood_id: u64, b: NodeId) -> PacketView {
    PacketView {
        pack_type: PacketTypeView::FloodRequest(
            FloodRequestView {
                flood_id,
                initiator_id: n0,
                path_trace: seq![(n0, NodeType::Client)],
            },
        ),
        hops: seq![n0, b],
        hop_index: 1,
        session_id: 0,
    }
}

/// The start of a flood: one request from `n0` to each node of `first`.
pub open spec fn flood_start(n0: NodeId, flood_id: u64, first: Set<NodeId>) -> Set<(NodeId, PacketView)> {
    Set::new(|x: (NodeId, PacketView)| first.contains(x.0) && x.1 == flood_start_packet(n0, flood_id, x.0))
}

/// The drones reached from `first` over at most `k` links between drones.
pub open spec fn reachable_within<C>(drones: Map<NodeId, DroneView<C>>, first: Set<NodeId>, k: nat) -> Set<NodeId>
    decreases k,
{
    if k == 0 {
        first.filter(|b: NodeId| drones.contains_key(b))
    } else {
        let near = reachable_within(drones, first, (k - 1) as nat);
        near.union(
            Set::new(
                |b: NodeId|
                    drones.contains_key(b) && exists|a: NodeId|
                        near.contains(a) && #[trigger] drones[a].neighbors.contains_key(b),
            ),
        )
    }
}

/// Links between drones go both ways.
pub open spec fn links_symmetric<C>(drones: Map<NodeId, DroneView<C>>) -> bool {
    forall|a: NodeId, b: NodeId|
        drones.contains_key(a) && drones.contains_key(b) && #[trigger] drones[a].neighbors.contains_key(b)
            ==> #[trigger] drones[b].neighbors.contains_key(a)
}

/// `b` has met the flood, or a request of it is on its way to `b`.
pub open spec fn awaits_flood<C>(net: NetworkView<C>, b: NodeId, key: (NodeId, u64)) -> bool {
    ||| net.drones[b].seen.contains(key)
    ||| exists|q: PacketView| net.in_flight.contains((b, q)) && is_flood_request_for(q, key)
}

/// What holds at every point of a flood started from `net0`.
spec fn flood_invariant<C>(
    net0: NetworkView<C>,
    net: NetworkView<C>,
    key: (NodeId, u64),
    first: Set<NodeId>,
) -> bool {
    &&& net.drones.dom() == net0.drones.dom()
    &&& forall|x: NodeId|
        net0.drones.contains_key(x) ==> {
            &&& (#[trigger] net.drones[x]).id == x
            &&& net.drones[x].neighbors == net0.drones[x].neighbors
            &&& net.drones[x].neighbors.dom().finite()
            &&& !net.drones[x].crashing
        }
    &&& forall|m: NodeId, q: PacketView|
        #![trigger net.in_flight.contains((m, q))]
        net.in_flight.contains((m, q)) && is_flood_request_for(q, key) && net.drones.contains_key(m)
            ==> {
            &&& q.header_ok()
            &&& q.hop_index >= 1
            &&& q.current_hop() == m
            &&& net.drones[m].neighbors.contains_key(q.hops[q.hop_index - 1])
            &&& net.drones.contains_key(q.hops[q.hop_index - 1]) ==> net.drones[q.hops[q.hop_index
                - 1]].seen.contains(key)
        }
    &&& forall|a: NodeId, b: NodeId|
        net.drones.contains_key(a) && net.drones[a].seen.contains(key) && #[trigger] net.drones[a].neighbors.contains_key(b)
            && net.drones.contains_key(b) ==> awaits_flood(net, b, key)
    &&& forall|b: NodeId|
        #![trigger first.contains(b)]
        first.contains(b) && net.drones.contains_key(b) ==> awaits_flood(net, b, key)
}

proof fn lemma_step_shape<C>(d: DroneView<C>, p: PacketView, drop: bool, key: (NodeId, u64))
    ensures
        d.packet_step(p, drop).0.id == d.id,
        d.packet_step(p, drop).0.neighbors == d.neighbors,
        d.packet_step(p, drop).0.crashing == d.crashing,
        d.seen.subset_of(d.packet_step(p, drop).0.seen),
        d.packet_step(p, drop).0.seen.contains(key) && !d.seen.contains(key) ==> is_flood_request_for(p, key),
        is_flood_request_for(p, key) && !d.crashing && p.current_hop() == d.id ==> d.packet_step(
            p,
            drop,
        ).0.seen.contains(key),
{
}

proof fn lemma_flood_request_sends<C>(
    d: DroneView<C>,
    p: PacketView,
    drop: bool,
    n: NodeId,
    q: PacketView,
    key: (NodeId, u64),
)
    requires
        d.packet_step(p, drop).1.contains(ActionView::Send(n, q)),
        is_flood_request_for(q, key),
        is_flood_request_for(p, key) ==> p.header_ok(),
    ensures
        is_flood_request_for(p, key),
        !d.crashing,
        p.current_hop() == d.id,
        q.hop_index == p.hop_index + 1,
        q.hops == p.hops.take(p.hop_index + 1).push(n),
        d.is_neighbor(n),
{
    if let PacketTypeView::FloodRequest(request) = p.pack_type {
        let trace = request.path_trace.push((d.id, NodeType::Drone));
        let own = (request.initiator_id, request.flood_id);
        if !d.crashing && p.current_hop() == d.id && !d.seen.contains(own) && d.neighbors.len() != 1 {
            let extended = FloodRequestView { path_trace: trace, ..request };
            let f = |m: NodeId| d.forward(flood_copy_packet(p, extended, m));
            let m = choose|m: NodeId| d.flood_targets(p).contains(m) && f(m) == ActionView::Send(n, q);
            assert(own == key);
            assert(flood_copy_packet(p, extended, m).hops[p.hop_index + 1] == m);
        }
    }
}

proof fn lemma_flood_invariant_step<C>(
    net0: NetworkView<C>,
    net: NetworkView<C>,
    key: (NodeId, u64),
    first: Set<NodeId>,
    m: NodeId,
    p: PacketView,
    drop: bool,
)
    requires
        links_symmetric(net0.drones),
        flood_invariant(net0, net, key, first),
        net.in_flight.contains((m, p)),
    ensures
        flood_invariant(net0, net.deliver(m, p, drop), key, first),
{
    let next = net.deliver(m, p, drop);
    if net.drones.contains_key(m) {
        let d = net.drones[m];
        let (after, actions) = d.packet_step(p, drop);
        lemma_step_shape(d, p, drop, key);
        assert(next.drones.dom() =~= net0.drones.dom());
        // Requests of the flood on their way.
        assert forall|n: NodeId, q: PacketView|
            #![trigger next.in_flight.contains((n, q))]
            next.in_flight.contains((n, q)) && is_flood_request_for(q, key) && next.drones.contains_key(n)
                implies {
            &&& q.header_ok()
            &&& q.hop_index >= 1
            &&& q.current_hop() == n
            &&& next.drones[n].neighbors.contains_key(q.hops[q.hop_index - 1])
            &&& next.drones.contains_key(q.hops[q.hop_index - 1]) ==> next.drones[q.hops[q.hop_index
                - 1]].seen.contains(key)
        } by {
            if sent_packets(actions).contains((n, q)) {
                if is_flood_request_for(p, key) {
                    assert(net.in_flight.contains((m, p)));
                }
                lemma_flood_request_sends(d, p, drop, n, q, key);
                assert(q.hops[q.hop_index - 1] == m);
                assert(net0.drones[m].neighbors.contains_key(n));
            } else {
                assert(net.in_flight.contains((n, q)));
                let pr = q.hops[q.hop_index - 1];
                if net.drones.contains_key(pr) {
                    assert(net.drones[pr].seen.contains(key));
                }
            }
        }
        // Drones that met the flood.
        assert forall|a: NodeId, b: NodeId|
            next.drones.contains_key(a) && next.drones[a].seen.contains(key)
                && #[trigger] next.drones[a].neighbors.contains_key(b) && next.drones.contains_key(
                b,
            ) implies awaits_flood(next, b, key) by {
            if a == m && !d.seen.contains(key) {
                let pr = p.hops[p.hop_index - 1];
                assert(is_flood_request_for(p, key));
                assert(net.in_flight.contains((m, p)));
                if b == pr {
                    assert(net.drones[pr].seen.contains(key));
                    assert(pr != m);
                    assert(next.drones[pr].seen.contains(key));
                    assert(awaits_flood(next, b, key));
                } else if d.neighbors.len() == 1 {
                    assert(d.neighbors.dom().contains(pr));
                    assert(d.neighbors.dom().contains(b));
                    // The single neighbor is the predecessor, so this case cannot occur.
                    assert(d.neighbors.dom() =~= set![pr]) by {
                        lemma_singleton(d.neighbors.dom(), pr);
                    }
                    assert(b == pr);
                } else {
                    crate::laws::law_flood_reaches_neighbors(d, p, drop, b);
                    let request = p.pack_type->FloodRequest_0;
                    let extended = FloodRequestView {
                        path_trace: request.path_trace.push((d.id, NodeType::Drone)),
                        ..request
                    };
                    let q = flood_copy_packet(p, extended, b).advanced();
                    assert(sent_packets(actions).contains((b, q)));
                    assert(next.in_flight.contains((b, q)));
                    assert(is_flood_request_for(q, key));
                    assert(awaits_flood(next, b, key));
                }
            } else {
                assert(net.drones[a].seen.contains(key));
                assert(net.drones[a].neighbors.contains_key(b));
                lemma_awaits_kept(net, next, m, p, after, actions, b, key);
            }
        }
        assert forall|b: NodeId|
            #![trigger first.contains(b)]
            first.contains(b) && next.drones.contains_key(b) implies awaits_flood(next, b, key) by {
            assert(awaits_flood(net, b, key));
            if is_flood_request_for(p, key) {
                assert(net.in_flight.contains((m, p)));
            }
            lemma_awaits_kept(net, next, m, p, after, actions, b, key);
        }
    } else {
        assert forall|b: NodeId|
            net.drones.contains_key(b) && awaits_flood(net, b, key) implies awaits_flood(next, b, key) by {
            if !net.drones[b].seen.contains(key) {
                let q = choose|q: PacketView| net.in_flight.contains((b, q)) && is_flood_request_for(q, key);
                assert(next.in_flight.contains((b, q)));
            }
        }
    }
}

proof fn lemma_singleton(s: Set<NodeId>, x: NodeId)
    requires
        s.finite(),
        s.len() == 1,
        s.contains(x),
    ensures
        s == set![x],
{
    assert(s.remove(x).len() == 0);
    assert(s.remove(x) =~= Set::empty());
    assert(s =~= set![x]);
}

/// A drone that awaited the flood before the delivery still does after it.
proof fn lemma_awaits_kept<C>(
    net: NetworkView<C>,
    next: NetworkView<C>,
    m: NodeId,
    p: PacketView,
    after: DroneView<C>,
    actions: Set<ActionView>,
    b: NodeId,
    key: (NodeId, u64),
)
    requires
        net.drones.contains_key(m),
        !net.drones[m].crashing,
        next == (NetworkView {
            drones: net.drones.insert(m, after),
            in_flight: net.in_flight.remove((m, p)).union(sent_packets(actions)),
        }),
        net.drones[m].seen.subset_of(after.seen),
        is_flood_request_for(p, key) && p.current_hop() == net.drones[m].id ==> after.seen.contains(key),
        is_flood_request_for(p, key) ==> p.current_hop() == m && net.drones[m].id == m,
        net.drones.contains_key(b),
        awaits_flood(net, b, key),
    ensures
        awaits_flood(next, b, key),
{
    if !net.drones[b].seen.contains(key) {
        let q = choose|q: PacketView| net.in_flight.contains((b, q)) && is_flood_request_for(q, key);
        if (b, q) != (m, p) {
            assert(next.in_flight.contains((b, q)));
        }
    }
}

/// A flood started by `n0`, in a network of drones that are not crashing,
/// whose links go both ways and reach back to `n0`, and which have not met it
/// yet: once no packet is left on its way, every drone reachable from `n0`'s
/// first targets over links between drones has met the flood.
pub proof fn law_flood_reaches_reachable<C>(
    nets: Seq<NetworkView<C>>,
    n0: NodeId,
    flood_id: u64,
    first: Set<NodeId>,
    k: nat,
    v: NodeId,
)
    requires
        nets.len() >= 1,
        is_run(nets),
        nets[0].in_flight == flood_start(n0, flood_id, first),
        !nets[0].drones.contains_key(n0),
        links_symmetric(nets[0].drones),
        forall|x: NodeId|
            #[trigger] nets[0].drones.contains_key(x) ==> {
                &&& nets[0].drones[x].id == x
                &&& nets[0].drones[x].neighbors.dom().finite()
                &&& !nets[0].drones[x].crashing
                &&& !nets[0].drones[x].seen.contains((n0, flood_id))
            },
        forall|b: NodeId|
            first.contains(b) && #[trigger] nets[0].drones.contains_key(b)
                ==> nets[0].drones[b].neighbors.contains_key(n0),
        nets.last().in_flight.is_empty(),
        reachable_within(nets[0].drones, first, k).contains(v),
    ensures
        nets.last().drones[v].seen.contains((n0, flood_id)),
{
    let key = (n0, flood_id);
    let net0 = nets[0];
    assert(flood_invariant(net0, net0, key, first)) by {
        assert forall|b: NodeId|
            #![trigger first.contains(b)]
            first.contains(b) && net0.drones.contains_key(b) implies awaits_flood(net0, b, key) by {
            let q = flood_start_packet(n0, flood_id, b);
            assert(net0.in_flight.contains((b, q)));
            assert(is_flood_request_for(q, key));
        }
        assert forall|m: NodeId, q: PacketView|
            #![trigger net0.in_flight.contains((m, q))]
            net0.in_flight.contains((m, q)) && is_flood_request_for(q, key) && net0.drones.contains_key(m)
                implies q.hops[q.hop_index - 1] == n0 && q.current_hop() == m by {
        }
    }
    lemma_flood_invariant_run(nets, key, first, (nets.len() - 1) as nat);
    let last = nets.last();
    lemma_reached(net0, last, key, first, k);
}

proof fn lemma_flood_invariant_run<C>(nets: Seq<NetworkView<C>>, key: (NodeId, u64), first: Set<NodeId>, i: nat)
    requires
        i < nets.len(),
        is_run(nets),
        links_symmetric(nets[0].drones),
        flood_invariant(nets[0], nets[0], key, first),
    ensures
        flood_invariant(nets[0], nets[i as int], key, first),
    decreases i,
{
    if i > 0 {
        lemma_flood_invariant_run(nets, key, first, (i - 1) as nat);
        let j = i - 1;
        assert(is_delivery(nets[j], nets[j + 1]));
        let (m, p, drop) = choose|m: NodeId, p: PacketView, drop: bool|
            nets[i - 1].in_flight.contains((m, p)) && nets[i as int] == #[trigger] nets[i - 1].deliver(m, p, drop);
        lemma_flood_invariant_step(nets[0], nets[i - 1], key, first, m, p, drop);
    }
}

proof fn lemma_reached<C>(
    net0: NetworkView<C>,
    last: NetworkView<C>,
    key: (NodeId, u64),
    first: Set<NodeId>,
    k: nat,
)
    requires
        flood_invariant(net0, last, key, first),
        last.in_flight.is_empty(),
    ensures
        forall|v: NodeId|
            reachable_within(net0.drones, first, k).contains(v) ==> #[trigger] last.drones[v].seen.contains(key),
    decreases k,
{
    assert forall|b: NodeId| #[trigger] last.drones.contains_key(b) && awaits_flood(last, b, key) implies last.drones[b].seen.contains(key) by {
        if !last.drones[b].seen.contains(key) {
            let q = choose|q: PacketView| last.in_flight.contains((b, q)) && is_flood_request_for(q, key);
            assert(last.in_flight.contains((b, q)));
        }
    }
    if k > 0 {
        lemma_reached(net0, last, key, first, (k - 1) as nat);
        let near = reachable_within(net0.drones, first, (k - 1) as nat);
        assert forall|v: NodeId| reachable_within(net0.drones, first, k).contains(v) implies #[trigger] last.drones[v].seen.contains(key) by {
            if !near.contains(v) {
                let a = choose|a: NodeId| near.contains(a) && #[trigger] net0.drones[a].neighbors.contains_key(v);
                assert(last.drones[a].seen.contains(key));
                assert(net0.drones.contains_key(a)) by {
                    lemma_reachable_are_drones(net0.drones, first, (k - 1) as nat, a);
                }
                assert(last.drones[a].neighbors.contains_key(v));
            }
        }
    }
}

proof fn lemma_reachable_are_drones<C>(drones: Map<NodeId, DroneView<C>>, first: Set<NodeId>, k: nat, v: NodeId)
    requires
        reachable_within(drones, first, k).contains(v),
    ensures
        drones.contains_key(v),
    decreases k,
{
    if k > 0 && reachable_within(drones, first, (k - 1) as nat).contains(v) {
        lemma_reachable_are_drones(drones, first, (k - 1) as nat, v);
    }
}

} // verus!
