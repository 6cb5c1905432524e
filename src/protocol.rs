//! The drone's behaviour as a mathematical state machine: what each input does
//! to the drone's state and which actions it asks for.
use crate::control::{ActionView, Command, DroneEventView};
use crate::packet::{
    FloodRequestView, FloodResponseView, Nack, NackType, NodeId, NodeType, PacketTypeView,
    PacketView,
};
use vstd::prelude::*;

verus! {

/// The state of a drone. `neighbors` maps each neighbor to the endpoint that
/// reaches it; `seen` holds the `(initiator_id, flood_id)` pairs of the floods
/// already met.
pub struct DroneView<C> {
    pub id: NodeId,
    pub neighbors: Map<NodeId, C>,
    pub seen: Set<(NodeId, u64)>,
    pub crashing: bool,
}

/// The way back from the current hop: this drone, then the hops before it,
/// nearest first.
pub open spec fn return_route(hops: Seq<NodeId>, hop_index: int, me: NodeId) -> Seq<NodeId> {
    seq![me] + hops.take(hop_index).reverse()
}

/// The Nack that `me` sends back along the route `p` has travelled.
pub open spec fn nack_packet(p: PacketView, me: NodeId, fragment_index: u64, kind: NackType) -> PacketView {
    PacketView {
        pack_type: PacketTypeView::Nack(Nack { fragment_index, nack_type: kind }),
        hops: return_route(p.hops, p.hop_index, me),
        hop_index: 0,
        session_id: p.session_id,
    }
}

/// The answer that `me` sends back along the route a flood request travelled.
pub open spec fn flood_response_packet(
    p: PacketView,
    me: NodeId,
    flood_id: u64,
    trace: Seq<(NodeId, NodeType)>,
) -> PacketView {
    PacketView {
        pack_type: PacketTypeView::FloodResponse(FloodResponseView { flood_id, path_trace: trace }),
        hops: return_route(p.hops, p.hop_index, me),
        hop_index: 0,
        session_id: 0,
    }
}

/// The copy of a flood request for neighbor `n`: the route travelled so far,
/// then `n`, with the index still on this drone.
pub open spec fn flood_copy_packet(p: PacketView, request: FloodRequestView, n: NodeId) -> PacketView {
    PacketView {
        pack_type: PacketTypeView::FloodRequest(request),
        hops: p.hops.take(p.hop_index + 1).push(n),
        hop_index: p.hop_index,
        session_id: 0,
    }
}

impl<C> DroneView<C> {
    pub open spec fn is_neighbor(self, n: NodeId) -> bool {
        self.neighbors.contains_key(n)
    }

    /// The forwarder: the packet goes one hop further when its next hop is a
    /// neighbor; otherwise it is handed to the controller.
    pub open spec fn forward(self, p: PacketView) -> ActionView {
        if p.has_next_hop() && self.is_neighbor(p.next_hop()) {
            ActionView::Send(p.next_hop(), p.advanced())
        } else {
            ActionView::Notify(DroneEventView::ControllerShortcut(p))
        }
    }

    /// The validator: the first check that fails, if any.
    pub open spec fn validate(self, p: PacketView, drop: bool) -> Option<NackType> {
        if p.current_hop() != self.id {
            Some(NackType::UnexpectedRecipient(p.current_hop()))
        } else if !p.has_next_hop() {
            Some(NackType::DestinationIsDrone)
        } else if !self.is_neighbor(p.next_hop()) {
            Some(NackType::ErrorInRouting(p.next_hop()))
        } else if p.pack_type is MsgFragment && drop {
            Some(NackType::Dropped)
        } else {
            None
        }
    }

    /// What a fault of the given kind on `p` leads to: a Nack back to the
    /// sender of a fragment (with a report of a drop), the controller's
    /// shortcut for acknowledgements and flood responses, and nothing for a
    /// flood request.
    pub open spec fn fault(self, p: PacketView, kind: NackType) -> Set<ActionView> {
        match p.pack_type {
            PacketTypeView::MsgFragment(f) => {
                let reply = self.forward(nack_packet(p, self.id, f.fragment_index, kind));
                if kind is Dropped {
                    set![ActionView::Notify(DroneEventView::PacketDropped(p)), reply]
                } else {
                    set![reply]
                }
            },
            PacketTypeView::FloodRequest(_) => Set::empty(),
            _ => set![ActionView::Notify(DroneEventView::ControllerShortcut(p))],
        }
    }

    /// A packet other than a flood request: a crashing drone refuses
    /// fragments; otherwise the packet is forwarded once it passes the
    /// validator.
    pub open spec fn relay(self, p: PacketView, drop: bool) -> Set<ActionView> {
        if self.crashing && p.pack_type is MsgFragment {
            self.fault(p, NackType::ErrorInRouting(self.id))
        } else {
            match self.validate(p, drop) {
                None => set![self.forward(p)],
                Some(kind) => self.fault(p, kind),
            }
        }
    }

    /// The neighbors that a new flood request is passed on to.
    pub open spec fn flood_targets(self, p: PacketView) -> Set<NodeId> {
        self.neighbors.dom().filter(|n: NodeId| !p.is_predecessor(n))
    }

    /// The flood engine.
    pub open spec fn flood_step(self, p: PacketView, request: FloodRequestView) -> (DroneView<C>, Set<ActionView>) {
        if self.crashing || p.current_hop() != self.id {
            (self, Set::empty())
        } else {
            let trace = request.path_trace.push((self.id, NodeType::Drone));
            let key = (request.initiator_id, request.flood_id);
            let after = DroneView { seen: self.seen.insert(key), ..self };
            if self.seen.contains(key) || self.neighbors.len() == 1 {
                let response = flood_response_packet(p, self.id, request.flood_id, trace);
                (after, set![self.forward(response)])
            } else {
                let extended = FloodRequestView { path_trace: trace, ..request };
                (after, self.flood_targets(p).map(|n: NodeId| self.forward(flood_copy_packet(p, extended, n))))
            }
        }
    }

    /// An inbound packet; `drop` is the outcome of the drop draw.
    pub open spec fn packet_step(self, p: PacketView, drop: bool) -> (DroneView<C>, Set<ActionView>) {
        match p.pack_type {
            PacketTypeView::FloodRequest(request) => self.flood_step(p, request),
            _ => (self, self.relay(p, drop)),
        }
    }

    pub open spec fn command_step(self, c: Command<C>) -> DroneView<C> {
        match c {
            Command::AddSender(id, ch) => DroneView { neighbors: self.neighbors.insert(id, ch), ..self },
            Command::RemoveSender(id) => DroneView { neighbors: self.neighbors.remove(id), ..self },
            Command::Crash => DroneView { crashing: true, ..self },
        }
    }

    /// The outcome of a send that was asked for: a report to the controller,
    /// or, when the neighbor's endpoint is closed, its removal and the fault
    /// handling of the packet at this hop.
    pub open spec fn send_result_step(self, p: PacketView, delivered: bool) -> (DroneView<C>, Set<ActionView>) {
        if delivered {
            (self, set![ActionView::Notify(DroneEventView::PacketSent(p))])
        } else {
            let next = p.current_hop();
            let after = DroneView { neighbors: self.neighbors.remove(next), ..self };
            (after, after.fault(p.rolled_back(), NackType::ErrorInRouting(next)))
        }
    }

    /// Whether the loop ends once the packet input is closed.
    pub open spec fn stops_on_disconnect(self) -> bool {
        self.crashing
    }
}

/// One input of the drone's state machine.
pub enum Input<C> {
    Command(Command<C>),
    /// A packet from the packet input, with the outcome of its drop draw.
    Packet(PacketView, bool),
    /// The outcome of a send that the drone asked for.
    SendResult(PacketView, bool),
}

impl<C> DroneView<C> {
    pub open spec fn step(self, input: Input<C>) -> (DroneView<C>, Set<ActionView>) {
        match input {
            Input::Command(c) => (self.command_step(c), Set::empty()),
            Input::Packet(p, drop) => self.packet_step(p, drop),
            Input::SendResult(p, delivered) => self.send_result_step(p, delivered),
        }
    }
}

/// The state after the first `n` inputs.
pub open spec fn state_after<C>(d: DroneView<C>, inputs: Seq<Input<C>>, n: nat) -> DroneView<C>
    decreases n,
{
    if n == 0 {
        d
    } else {
        state_after(d, inputs, (n - 1) as nat).step(inputs[n - 1]).0
    }
}

/// The actions asked for by input `i`.
pub open spec fn actions_at<C>(d: DroneView<C>, inputs: Seq<Input<C>>, i: nat) -> Set<ActionView> {
    state_after(d, inputs, i).step(inputs[i as int]).1
}

/// The action sends the flood request `(initiator_id, flood_id)` to a neighbor.
pub open spec fn sends_flood_request(a: ActionView, key: (NodeId, u64)) -> bool {
    match a {
        ActionView::Send(_, q) => match q.pack_type {
            PacketTypeView::FloodRequest(r) => (r.initiator_id, r.flood_id) == key,
            _ => false,
        },
        _ => false,
    }
}

/// The actions pass on the flood request `(initiator_id, flood_id)`.
pub open spec fn fans_out(actions: Set<ActionView>, key: (NodeId, u64)) -> bool {
    exists|a: ActionView| actions.contains(a) && sends_flood_request(a, key)
}

} // verus!
