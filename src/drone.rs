//! The drone's executable state machine: each input is one call, which
//! updates the state and returns the actions its runner must perform.
use crate::control::{performs, Action, ActionView, Command, DroneEvent, DroneEventView};
use crate::packet::{
    FloodRequest, FloodRequestView, FloodResponse, Nack, NackType, NodeId, NodeType, Packet, PacketType,
    SourceRoutingHeader,
};
use crate::protocol::{
    flood_copy_packet, flood_response_packet, nack_packet, return_route, DroneView,
};
use std::collections::{HashMap, HashSet};
use vstd::prelude::*;
use vstd::std_specs::iter::IteratorSpec;

verus! {

broadcast use vstd::std_specs::hash::group_hash_axioms;

/// The routing core of one drone. It owns the endpoints that reach its
/// neighbors, of type `C`, and never performs I/O itself.
#[derive(Debug)]
pub struct DroneCore<C> {
    drone_id: NodeId,
    neighbors: HashMap<NodeId, C>,
    /// Flood ids already met, per initiator.
    floods_seen: HashMap<NodeId, HashSet<u64>>,
    crashing: bool,
}

impl<C> View for DroneCore<C> {
    type V = DroneView<C>;

    closed spec fn view(&self) -> DroneView<C> {
        DroneView {
            id: self.drone_id,
            neighbors: self.neighbors@,
            seen: Set::new(
                |k: (NodeId, u64)|
                    self.floods_seen@.contains_key(k.0) && self.floods_seen@[k.0]@.contains(k.1),
            ),
            crashing: self.crashing,
        }
    }
}

/// The way back from `hops[hop_index]`, starting at `me`.
fn return_route_vec(hops: &Vec<NodeId>, hop_index: usize, me: NodeId) -> (r: Vec<NodeId>)
    requires
        hop_index < hops.len(),
    ensures
        r@ == return_route(hops@, hop_index as int, me),
{
    let mut r: Vec<NodeId> = Vec::new();
    r.push(me);
    let mut i: usize = hop_index;
    while i > 0
        invariant
            i <= hop_index < hops.len(),
            r@ == seq![me] + hops@.subrange(i as int, hop_index as int).reverse(),
        decreases i,
    {
        i = i - 1;
        r.push(hops[i]);
        assert(hops@.subrange(i as int, hop_index as int).reverse() =~= hops@.subrange(
            i + 1,
            hop_index as int,
        ).reverse().push(hops@[i as int]));
    }
    assert(hops@.subrange(0, hop_index as int) =~= hops@.take(hop_index as int));
    r
}

/// The first `len` hops of a route, then `next`.
fn route_then(hops: &Vec<NodeId>, len: usize, next: NodeId) -> (r: Vec<NodeId>)
    requires
        len <= hops.len(),
    ensures
        r@ == hops@.take(len as int).push(next),
{
    let mut r: Vec<NodeId> = Vec::new();
    let mut i: usize = 0;
    while i < len
        invariant
            i <= len <= hops.len(),
            r@ == hops@.take(i as int),
        decreases len - i,
    {
        r.push(hops[i]);
        i = i + 1;
        assert(r@ =~= hops@.take(i as int));
    }
    r.push(next);
    r
}

/// A copy of a path trace.
fn copy_trace(trace: &Vec<(NodeId, NodeType)>) -> (r: Vec<(NodeId, NodeType)>)
    ensures
        r@ == trace@,
{
    let mut r: Vec<(NodeId, NodeType)> = Vec::new();
    let mut i: usize = 0;
    while i < trace.len()
        invariant
            i <= trace.len(),
            r@ == trace@.take(i as int),
        decreases trace.len() - i,
    {
        r.push(trace[i]);
        i = i + 1;
        assert(r@ =~= trace@.take(i as int));
    }
    assert(r@ =~= trace@);
    r
}

proof fn lemma_single_action(a: Action)
    ensures
        performs(seq![a], set![a@]),
{
    let views = seq![a].map_values(|x: Action| x@);
    assert(views =~= seq![a@]);
    assert(views[0] == a@);
    assert(views.to_set() =~= set![a@]) by {
        assert(views.contains(a@));
    }
}

proof fn lemma_two_actions(a: Action, b: Action)
    requires
        a@ != b@,
    ensures
        performs(seq![a, b], set![a@, b@]),
{
    let views = seq![a, b].map_values(|x: Action| x@);
    assert(views =~= seq![a@, b@]);
    assert(views[0] == a@ && views[1] == b@);
    assert(views.to_set() =~= set![a@, b@]) by {
        assert(views.contains(a@));
        assert(views.contains(b@));
    }
}

/// No action at all.
fn no_actions() -> (r: Vec<Action>)
    ensures
        performs(r@, Set::empty()),
{
    let r: Vec<Action> = Vec::new();
    assert(r@.map_values(|x: Action| x@).to_set() =~= Set::empty());
    r
}

/// One action, in a list of its own.
fn single(a: Action) -> (r: Vec<Action>)
    ensures
        performs(r@, set![a@]),
{
    let mut r: Vec<Action> = Vec::new();
    r.push(a);
    proof {
        assert(r@ =~= seq![a]);
        lemma_single_action(a);
    }
    r
}

impl<C> DroneCore<C> {
    pub fn new(id: NodeId, neighbors: HashMap<NodeId, C>) -> (r: Self)
        ensures
            r@ == (DroneView {
                id,
                neighbors: neighbors@,
                seen: Set::<(NodeId, u64)>::empty(),
                crashing: false,
            }),
    {
        let r = DroneCore {
            drone_id: id,
            neighbors,
            floods_seen: HashMap::new(),
            crashing: false,
        };
        assert(r@.seen =~= Set::<(NodeId, u64)>::empty());
        r
    }

    pub fn id(&self) -> (r: NodeId)
        ensures
            r == self@.id,
    {
        self.drone_id
    }

    pub fn is_crashing(&self) -> (r: bool)
        ensures
            r == self@.crashing,
    {
        self.crashing
    }

    /// The endpoint that reaches neighbor `id`.
    pub fn neighbor(&self, id: NodeId) -> (r: Option<&C>)
        ensures
            match r {
                Some(c) => self@.neighbors.contains_key(id) && *c == self@.neighbors[id],
                None => !self@.neighbors.contains_key(id),
            },
    {
        self.neighbors.get(&id)
    }

    pub fn add_sender(&mut self, id: NodeId, sender: C)
        ensures
            final(self)@ == (DroneView { neighbors: old(self)@.neighbors.insert(id, sender), ..old(self)@ }),
    {
        self.neighbors.insert(id, sender);
    }

    pub fn remove_channel(&mut self, id: NodeId)
        ensures
            final(self)@ == (DroneView { neighbors: old(self)@.neighbors.remove(id), ..old(self)@ }),
    {
        self.neighbors.remove(&id);
    }

    /// Applies a controller command.
    pub fn handle_command(&mut self, command: Command<C>)
        ensures
            final(self)@ == old(self)@.command_step(command),
    {
        match command {
            Command::AddSender(id, sender) => self.add_sender(id, sender),
            Command::RemoveSender(id) => self.remove_channel(id),
            Command::Crash => {
                self.crashing = true;
            },
        }
    }

    /// Whether the event loop ends now that the packet input is closed.
    pub fn handle_disconnect(&self) -> (stop: bool)
        ensures
            stop == self@.stops_on_disconnect(),
    {
        self.crashing
    }

    fn check_recipient(&self, packet: &Packet) -> (r: Result<(), NackType>)
        requires
            packet@.header_ok(),
        ensures
            r == (if packet@.current_hop() != self@.id {
                Err(NackType::UnexpectedRecipient(packet@.current_hop()))
            } else {
                Ok(())
            }),
    {
        let node_id = packet.routing_header.hops[packet.routing_header.hop_index];
        if node_id != self.drone_id {
            Err(NackType::UnexpectedRecipient(node_id))
        } else {
            Ok(())
        }
    }

    fn check_final_dest(&self, packet: &Packet) -> (r: Result<(), NackType>)
        requires
            packet@.header_ok(),
        ensures
            r == (if !packet@.has_next_hop() {
                Err(NackType::DestinationIsDrone)
            } else {
                Ok(())
            }),
    {
        if packet.routing_header.hops.len() - 1 == packet.routing_header.hop_index {
            Err(NackType::DestinationIsDrone)
        } else {
            Ok(())
        }
    }

    fn check_neighbor_recipient(&self, packet: &Packet) -> (r: Result<(), NackType>)
        requires
            packet@.header_ok(),
            packet@.has_next_hop(),
        ensures
            r == (if !self@.is_neighbor(packet@.next_hop()) {
                Err(NackType::ErrorInRouting(packet@.next_hop()))
            } else {
                Ok(())
            }),
    {
        let len = packet.routing_header.hops.len();
        let node_id = packet.routing_header.hops[packet.routing_header.hop_index + 1];
        if self.neighbors.contains_key(&node_id) {
            Ok(())
        } else {
            Err(NackType::ErrorInRouting(node_id))
        }
    }

    /// `drop` is the outcome of the drop draw for this packet.
    fn check_fragment_drop(&self, packet: &Packet, drop: bool) -> (r: Result<(), NackType>)
        ensures
            r == (if packet@.pack_type is MsgFragment && drop {
                Err(NackType::Dropped)
            } else {
                Ok(())
            }),
    {
        if let PacketType::MsgFragment(_) = &packet.pack_type {
            if drop {
                return Err(NackType::Dropped);
            }
        }
        Ok(())
    }

    /// The validator: the first check that fails.
    fn check_handling_errors(&self, packet: &Packet, drop: bool) -> (r: Result<(), NackType>)
        requires
            packet@.header_ok(),
        ensures
            r == (match self@.validate(packet@, drop) {
                None => Ok(()),
                Some(kind) => Err(kind),
            }),
    {
        self.check_recipient(packet)?;
        self.check_final_dest(packet)?;
        self.check_neighbor_recipient(packet)?;
        self.check_fragment_drop(packet, drop)?;
        Ok(())
    }

    /// The Nack of the given kind for `packet`, routed back from this drone.
    fn create_nack(&self, index: u64, packet: &Packet, nack_type: NackType) -> (r: Packet)
        requires
            packet@.header_ok(),
        ensures
            r@ == nack_packet(packet@, self@.id, index, nack_type),
    {
        let hops = return_route_vec(
            &packet.routing_header.hops,
            packet.routing_header.hop_index,
            self.drone_id,
        );
        Packet {
            routing_header: SourceRoutingHeader { hop_index: 0, hops },
            session_id: packet.session_id,
            pack_type: PacketType::Nack(Nack { fragment_index: index, nack_type }),
        }
    }

    /// The forwarder.
    fn forward_packet(&self, packet: Packet) -> (r: Action)
        requires
            packet@.header_ok(),
        ensures
            r@ == self@.forward(packet@),
    {
        let mut packet = packet;
        let len = packet.routing_header.hops.len();
        let next = packet.routing_header.hop_index + 1;
        if next < len {
            let next_node = packet.routing_header.hops[next];
            if self.neighbors.contains_key(&next_node) {
                packet.routing_header.hop_index = next;
                return Action::Send(next_node, packet);
            }
        }
        Action::Notify(DroneEvent::ControllerShortcut(packet))
    }

    /// What a fault of the given kind on `packet` leads to.
    fn handle_fault(&self, packet: Packet, kind: NackType) -> (r: Vec<Action>)
        requires
            packet@.header_ok(),
        ensures
            performs(r@, self@.fault(packet@, kind)),
    {
        let index = match &packet.pack_type {
            PacketType::MsgFragment(fragment) => fragment.fragment_index,
            PacketType::FloodRequest(_) => {
                return no_actions();
            },
            _ => {
                return single(Action::Notify(DroneEvent::ControllerShortcut(packet)));
            },
        };
        let nack = self.create_nack(index, &packet, kind);
        let reply = self.forward_packet(nack);
        if let NackType::Dropped = kind {
            let report = Action::Notify(DroneEvent::PacketDropped(packet));
            let mut r: Vec<Action> = Vec::new();
            r.push(report);
            r.push(reply);
            proof {
                assert(r@ =~= seq![report, reply]);
                lemma_two_actions(report, reply);
            }
            r
        } else {
            single(reply)
        }
    }

    /// A packet other than a flood request.
    fn relay(&self, packet: Packet, drop: bool) -> (r: Vec<Action>)
        requires
            packet@.header_ok(),
        ensures
            performs(r@, self@.relay(packet@, drop)),
    {
        if self.crashing {
            if let PacketType::MsgFragment(_) = &packet.pack_type {
                return self.handle_fault(packet, NackType::ErrorInRouting(self.drone_id));
            }
        }
        match self.check_handling_errors(&packet, drop) {
            Ok(()) => single(self.forward_packet(packet)),
            Err(kind) => self.handle_fault(packet, kind),
        }
    }

    /// Records a flood; true when it had not been met before.
    fn remember_flood(&mut self, initiator_id: NodeId, flood_id: u64) -> (is_new: bool)
        ensures
            is_new == !old(self)@.seen.contains((initiator_id, flood_id)),
            final(self)@ == (DroneView {
                seen: old(self)@.seen.insert((initiator_id, flood_id)),
                ..old(self)@
            }),
    {
        let mut ids = match self.floods_seen.remove(&initiator_id) {
            Some(ids) => ids,
            None => HashSet::new(),
        };
        let is_new = ids.insert(flood_id);
        self.floods_seen.insert(initiator_id, ids);
        proof {
            assert(self@.seen =~= old(self)@.seen.insert((initiator_id, flood_id)));
        }
        is_new
    }

    /// The copy of a flood request for neighbor `n`.
    fn flood_copy(packet: &Packet, request: &FloodRequest, n: NodeId) -> (r: Packet)
        requires
            packet@.header_ok(),
        ensures
            r@ == flood_copy_packet(packet@, request@, n),
    {
        let len = packet.routing_header.hops.len();
        let hops = route_then(&packet.routing_header.hops, packet.routing_header.hop_index + 1, n);
        let copy = FloodRequest {
            flood_id: request.flood_id,
            initiator_id: request.initiator_id,
            path_trace: copy_trace(&request.path_trace),
        };
        Packet {
            routing_header: SourceRoutingHeader { hop_index: packet.routing_header.hop_index, hops },
            session_id: 0,
            pack_type: PacketType::FloodRequest(copy),
        }
    }

    /// Passes a new flood request on to every neighbor but the one it came from.
    fn flood_fan_out(&self, packet: &Packet, request: &FloodRequest) -> (r: Vec<Action>)
        requires
            packet@.header_ok(),
        ensures
            performs(
                r@,
                self@.flood_targets(packet@).map(
                    |n: NodeId| self@.forward(flood_copy_packet(packet@, request@, n)),
                ),
            ),
    {
        let ghost p = packet@;
        let ghost d = self@;
        let ghost f = |n: NodeId| d.forward(flood_copy_packet(p, request@, n));
        let ghost targets = d.flood_targets(p);
        let ghost ks = self.neighbors.keys().remaining().unref();
        let ghost mut sent: Seq<NodeId> = Seq::empty();
        let ghost mut pos: Seq<int> = Seq::empty();
        assert(ks.to_set() == d.neighbors.dom());
        let hop_index = packet.routing_header.hop_index;
        let mut r: Vec<Action> = Vec::new();
        for n in it: self.neighbors.keys()
            invariant
                it.seq().unref() == ks,
                ks.no_duplicates(),
                ks.to_set() == d.neighbors.dom(),
                d == self@,
                p == packet@,
                p.header_ok(),
                hop_index == p.hop_index,
                f == (|n: NodeId| d.forward(flood_copy_packet(p, request@, n))),
                targets == d.flood_targets(p),
                sent.len() == r.len(),
                pos.len() == r.len(),
                forall|j: int| 0 <= j < r.len() ==> (#[trigger] r@[j])@ == f(sent[j]),
                forall|j: int|
                    0 <= j < r.len() ==> 0 <= #[trigger] pos[j] < it.index() && ks[pos[j]]
                        == sent[j],
                forall|j: int| 0 <= j < r.len() ==> targets.contains(#[trigger] sent[j]),
                forall|i: int|
                    0 <= i < it.index() && targets.contains(ks[i]) ==> sent.contains(
                        #[trigger] ks[i],
                    ),
                sent.no_duplicates(),
        {
            let ghost idx = it.index();
            let ghost sent0 = sent;
            assert(*n == ks[idx]);
            assert(ks.to_set().contains(ks[idx]));
            let from_predecessor = hop_index > 0 && packet.routing_header.hops[hop_index - 1] == *n;
            if !from_predecessor {
                let copy = Self::flood_copy(packet, request, *n);
                let action = self.forward_packet(copy);
                proof {
                    assert forall|j: int| 0 <= j < sent.len() implies sent[j] != *n by {
                        assert(ks[pos[j]] == sent[j]);
                    }
                    sent = sent.push(*n);
                    pos = pos.push(idx);
                }
                r.push(action);
            }
            assert forall|i: int| 0 <= i <= idx && targets.contains(ks[i]) implies sent.contains(
                ks[i],
            ) by {
                if i < idx {
                    let j = sent0.index_of(ks[i]);
                    assert(sent[j] == ks[i]);
                } else {
                    assert(sent[sent.len() - 1] == ks[i]);
                }
            }
        }
        proof {
            let views = r@.map_values(|a: Action| a@);
            assert forall|n: NodeId| d.neighbors.dom().contains(n) implies (#[trigger] f(n))
                == ActionView::Send(n, flood_copy_packet(p, request@, n).advanced()) by {
                assert(flood_copy_packet(p, request@, n).hops[p.hop_index + 1] == n);
            }
            assert(sent.to_set() =~= targets) by {
                assert forall|n: NodeId| sent.contains(n) implies targets.contains(n) by {
                    let j = sent.index_of(n);
                }
                assert forall|n: NodeId| targets.contains(n) implies sent.contains(n) by {
                    assert(ks.to_set().contains(n));
                    let i = ks.index_of(n);
                    assert(ks[i] == n);
                }
            }
            assert(views.no_duplicates()) by {
                assert forall|a: int, b: int|
                    0 <= a < views.len() && 0 <= b < views.len() && a != b implies views[a]
                    != views[b] by {
                    assert(targets.contains(sent[a]));
                    assert(targets.contains(sent[b]));
                    assert(views[a] == f(sent[a]));
                    assert(views[b] == f(sent[b]));
                }
            }
            assert(views.to_set() =~= targets.map(f)) by {
                assert forall|x: ActionView| views.to_set().contains(x) implies targets.map(
                    f,
                ).contains(x) by {
                    let j = views.index_of(x);
                    assert(views[j] == f(sent[j]));
                    assert(targets.contains(sent[j]));
                }
                assert forall|x: ActionView| targets.map(f).contains(x) implies views.to_set().contains(
                    x,
                ) by {
                    let n = choose|n: NodeId| targets.contains(n) && f(n) == x;
                    assert(sent.contains(n));
                    let j = sent.index_of(n);
                    assert(views[j] == x);
                }
            }
        }
        r
    }

    /// The flood engine.
    fn forward_flood_request(&mut self, packet: Packet) -> (r: Vec<Action>)
        requires
            packet@.header_ok(),
            packet@.pack_type is FloodRequest,
        ensures
            final(self)@ == old(self)@.flood_step(packet@, packet@.pack_type->FloodRequest_0).0,
            performs(r@, old(self)@.flood_step(packet@, packet@.pack_type->FloodRequest_0).1),
    {
        if self.crashing || self.check_recipient(&packet).is_err() {
            return no_actions();
        }
        let request = match &packet.pack_type {
            PacketType::FloodRequest(request) => request,
            _ => {
                return no_actions();
            },
        };
        let mut trace = copy_trace(&request.path_trace);
        trace.push((self.drone_id, NodeType::Drone));
        let ghost d = self@;
        let is_new = self.remember_flood(request.initiator_id, request.flood_id);
        if !is_new || self.neighbors.len() == 1 {
            let hops = return_route_vec(
                &packet.routing_header.hops,
                packet.routing_header.hop_index,
                self.drone_id,
            );
            let response = Packet {
                routing_header: SourceRoutingHeader { hop_index: 0, hops },
                session_id: 0,
                pack_type: PacketType::FloodResponse(
                    FloodResponse { flood_id: request.flood_id, path_trace: trace },
                ),
            };
            proof {
                assert(response@ == flood_response_packet(
                    packet@,
                    d.id,
                    request.flood_id,
                    request@.path_trace.push((d.id, NodeType::Drone)),
                ));
            }
            single(self.forward_packet(response))
        } else {
            let extended = FloodRequest {
                flood_id: request.flood_id,
                initiator_id: request.initiator_id,
                path_trace: trace,
            };
            let r = self.flood_fan_out(&packet, &extended);
            proof {
                let p = packet@;
                let ext = FloodRequestView {
                    path_trace: request@.path_trace.push((d.id, NodeType::Drone)),
                    ..request@
                };
                assert(extended@ == ext);
                let after = self@;
                assert(after.flood_targets(p) =~= d.flood_targets(p));
                assert(after.flood_targets(p).map(
                    |n: NodeId| after.forward(flood_copy_packet(p, extended@, n)),
                ) =~= d.flood_targets(p).map(|n: NodeId| d.forward(flood_copy_packet(p, ext, n))));
            }
            r
        }
    }

    /// Handles a packet from the packet input. `drop` is the outcome of the
    /// drop draw (a uniform draw in `[0, 1)` at most the drop rate); it
    /// matters only for a fragment that passes every other check.
    pub fn handle_packet(&mut self, packet: Packet, drop: bool) -> (r: Vec<Action>)
        requires
            packet@.header_ok(),
        ensures
            final(self)@ == old(self)@.packet_step(packet@, drop).0,
            performs(r@, old(self)@.packet_step(packet@, drop).1),
    {
        if let PacketType::FloodRequest(_) = &packet.pack_type {
            self.forward_flood_request(packet)
        } else {
            self.relay(packet, drop)
        }
    }

    /// Handles the outcome of an `Action::Send` of `packet`: `delivered`
    /// tells whether the neighbor's endpoint took it.
    pub fn handle_send_result(&mut self, packet: Packet, delivered: bool) -> (r: Vec<Action>)
        requires
            packet@.header_ok(),
            packet@.hop_index >= 1,
        ensures
            final(self)@ == old(self)@.send_result_step(packet@, delivered).0,
            performs(r@, old(self)@.send_result_step(packet@, delivered).1),
    {
        if delivered {
            return single(Action::Notify(DroneEvent::PacketSent(packet)));
        }
        let mut packet = packet;
        let next_node = packet.routing_header.hops[packet.routing_header.hop_index];
        self.remove_channel(next_node);
        packet.routing_header.hop_index = packet.routing_header.hop_index - 1;
        self.handle_fault(packet, NackType::ErrorInRouting(next_node))
    }
}

} // verus!
