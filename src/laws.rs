//! Properties of the drone's state machine, proved over its model.
use crate::control::{ActionView, Command, DroneEventView};
use crate::packet::{FloodRequestView, NackType, NodeId, NodeType, PacketTypeView, PacketView};
use crate::protocol::{
    actions_at, fans_out, flood_copy_packet, flood_response_packet, nack_packet, return_route, sends_flood_request,
    state_after, DroneView, Input,
};
use vstd::prelude::*;

verus! {

/// Adding a sender and then removing the same id leaves no neighbor of that
/// id, and the other neighbors as they were.
pub proof fn law_add_then_remove<C>(d: DroneView<C>, id: NodeId, sender: C)
    ensures
        !d.command_step(Command::AddSender(id, sender)).command_step(
            Command::RemoveSender(id),
        ).neighbors.contains_key(id),
        d.command_step(Command::AddSender(id, sender)).command_step(
            Command::RemoveSender(id),
        ).neighbors == d.neighbors.remove(id),
{
    let after = d.command_step(Command::AddSender(id, sender)).command_step(
        Command::RemoveSender(id),
    );
    assert(after.neighbors =~= d.neighbors.remove(id));
}

/// Once a drone has received `Crash`, it stays crashing whatever comes next,
/// so a closed packet input ends its loop at every later point.
pub proof fn law_crash_then_disconnect<C>(d: DroneView<C>, inputs: Seq<Input<C>>, i: nat, j: nat)
    requires
        i < j <= inputs.len(),
        inputs[i as int] matches Input::Command(c) && c is Crash,
    ensures
        state_after(d, inputs, j).stops_on_disconnect(),
    decreases j - i,
{
    if j == i + 1 {
        assert(state_after(d, inputs, j) == state_after(d, inputs, i).step(inputs[i as int]).0);
    } else {
        law_crash_then_disconnect(d, inputs, i, (j - 1) as nat);
        lemma_step_keeps_crashing(state_after(d, inputs, (j - 1) as nat), inputs[j - 1]);
    }
}

proof fn lemma_step_keeps_crashing<C>(d: DroneView<C>, input: Input<C>)
    ensures
        d.crashing ==> d.step(input).0.crashing,
{
}

/// A fragment addressed to another node, at a drone that is not crashing,
/// is answered by one Nack `UnexpectedRecipient` naming that node, routed back
/// along the hops travelled so far.
pub proof fn law_unexpected_recipient<C>(d: DroneView<C>, p: PacketView, drop: bool)
    requires
        p.header_ok(),
        p.pack_type is MsgFragment,
        p.current_hop() != d.id,
        !d.crashing,
    ensures
        d.packet_step(p, drop) == (d, set![
            d.forward(
                nack_packet(
                    p,
                    d.id,
                    p.pack_type->MsgFragment_0.fragment_index,
                    NackType::UnexpectedRecipient(p.current_hop()),
                ),
            ),
        ]),
{
}

/// A synthesized Nack starts at this drone, has one hop per hop travelled,
/// and ends at the first hop of the original route (when the drone was not
/// itself at hop 0 under another name).
pub proof fn law_nack_route(p: PacketView, me: NodeId, fragment_index: u64, kind: NackType)
    requires
        p.header_ok(),
    ensures
        nack_packet(p, me, fragment_index, kind).hops.len() == p.hop_index + 1,
        nack_packet(p, me, fragment_index, kind).hops[0] == me,
        nack_packet(p, me, fragment_index, kind).hop_index == 0,
        p.hop_index > 0 || p.hops[0] == me ==> nack_packet(p, me, fragment_index, kind).hops.last()
            == p.hops[0],
{
    let r = return_route(p.hops, p.hop_index, me);
    assert(r.len() == p.hop_index + 1);
    if p.hop_index > 0 {
        assert(r.last() == p.hops.take(p.hop_index).reverse()[p.hop_index - 1]);
    }
}

/// A packet other than a flood request that leaves the drone unchanged in
/// kind keeps its route and session and has its index advanced by one, to
/// the neighbor it is sent to.
pub proof fn law_forward_advances<C>(d: DroneView<C>, p: PacketView, drop: bool)
    requires
        p.header_ok(),
        !(p.pack_type is FloodRequest),
    ensures
        forall|n: NodeId, q: PacketView|
            #![trigger d.packet_step(p, drop).1.contains(ActionView::Send(n, q))]
            d.packet_step(p, drop).1.contains(ActionView::Send(n, q)) && q.pack_type == p.pack_type
                ==> {
                &&& q.hop_index == p.hop_index + 1
                &&& q.hops == p.hops
                &&& q.session_id == p.session_id
                &&& q.hops[q.hop_index] == n
                &&& d.is_neighbor(n)
            },
{
}

/// The flood engine never sends a flood request to the neighbor that the
/// request came from.
pub proof fn law_flood_skips_predecessor<C>(d: DroneView<C>, p: PacketView, drop: bool)
    requires
        p.header_ok(),
    ensures
        forall|n: NodeId, q: PacketView|
            #![trigger d.packet_step(p, drop).1.contains(ActionView::Send(n, q))]
            d.packet_step(p, drop).1.contains(ActionView::Send(n, q)) && q.pack_type is FloodRequest
                ==> !p.is_predecessor(n),
{
    assert forall|n: NodeId, q: PacketView|
        d.packet_step(p, drop).1.contains(ActionView::Send(n, q))
            && q.pack_type is FloodRequest implies !p.is_predecessor(n) by {
        if let PacketTypeView::FloodRequest(request) = p.pack_type {
            let trace = request.path_trace.push((d.id, NodeType::Drone));
            let key = (request.initiator_id, request.flood_id);
            if !d.crashing && p.current_hop() == d.id && !d.seen.contains(key)
                && d.neighbors.len() != 1 {
                let extended = FloodRequestView { path_trace: trace, ..request };
                let f = |m: NodeId| d.forward(flood_copy_packet(p, extended, m));
                let m = choose|m: NodeId| d.flood_targets(p).contains(m) && f(m) == ActionView::Send(n, q);
                assert(flood_copy_packet(p, extended, m).hops[p.hop_index + 1] == m);
            }
        }
    }
}

proof fn lemma_fan_out_records<C>(d: DroneView<C>, input: Input<C>, key: (NodeId, u64))
    ensures
        fans_out(d.step(input).1, key) ==> !d.seen.contains(key) && d.step(input).0.seen.contains(key),
{
    if fans_out(d.step(input).1, key) {
        let a = choose|a: ActionView| d.step(input).1.contains(a) && sends_flood_request(a, key);
        match input {
            Input::Command(_) => {},
            Input::Packet(p, drop) => {
                if let PacketTypeView::FloodRequest(request) = p.pack_type {
                    let trace = request.path_trace.push((d.id, NodeType::Drone));
                    let own = (request.initiator_id, request.flood_id);
                    if !d.crashing && p.current_hop() == d.id && !d.seen.contains(own)
                        && d.neighbors.len() != 1 {
                        let extended = FloodRequestView { path_trace: trace, ..request };
                        let f = |m: NodeId| d.forward(flood_copy_packet(p, extended, m));
                        let m = choose|m: NodeId| d.flood_targets(p).contains(m) && f(m) == a;
                        assert(own == key);
                    }
                }
            },
            Input::SendResult(p, delivered) => {},
        }
    }
}

proof fn lemma_step_keeps_seen<C>(d: DroneView<C>, input: Input<C>)
    ensures
        d.seen.subset_of(d.step(input).0.seen),
{
}

proof fn lemma_seen_grows<C>(d: DroneView<C>, inputs: Seq<Input<C>>, i: nat, j: nat)
    requires
        i <= j,
    ensures
        state_after(d, inputs, i).seen.subset_of(state_after(d, inputs, j).seen),
    decreases j - i,
{
    if i < j {
        lemma_seen_grows(d, inputs, i, (j - 1) as nat);
        lemma_step_keeps_seen(state_after(d, inputs, (j - 1) as nat), inputs[j - 1]);
    }
}

/// Over any run, a drone passes a given `(initiator_id, flood_id)` request on
/// to its neighbors at most once.
pub proof fn law_flood_fans_out_once<C>(
    d: DroneView<C>,
    inputs: Seq<Input<C>>,
    key: (NodeId, u64),
    i: nat,
    j: nat,
)
    requires
        i < j < inputs.len(),
    ensures
        !(fans_out(actions_at(d, inputs, i), key) && fans_out(actions_at(d, inputs, j), key)),
{
    if fans_out(actions_at(d, inputs, i), key) {
        lemma_fan_out_records(state_after(d, inputs, i), inputs[i as int], key);
        assert(state_after(d, inputs, i + 1) == state_after(d, inputs, i).step(inputs[i as int]).0);
        lemma_seen_grows(d, inputs, i + 1, j);
        lemma_fan_out_records(state_after(d, inputs, j), inputs[j as int], key);
    }
}

/// The packet `q`, held at position `j` of its route.
pub open spec fn held_at(q: PacketView, j: int) -> PacketView {
    PacketView { hop_index: j, ..q }
}

/// A Nack built at hop `k` of a route `[n0, ..., nk, ...]` goes back through
/// `[nk, n(k-1), ..., n0]` hop by hop, when the drones at `nk` to `n1` each
/// have the next node of that way among their neighbors.
pub proof fn law_nack_travels_back<C>(
    p: PacketView,
    fragment_index: u64,
    kind: NackType,
    drones: Seq<DroneView<C>>,
    drop: bool,
)
    requires
        p.header_ok(),
        p.hop_index >= 1,
        drones.len() == p.hop_index,
        forall|j: int|
            0 <= j < drones.len() ==> (#[trigger] drones[j]).id == nack_packet(
                p,
                drones[0].id,
                fragment_index,
                kind,
            ).hops[j] && drones[j].is_neighbor(
                nack_packet(p, drones[0].id, fragment_index, kind).hops[j + 1],
            ),
    ensures
        ({
            let q = nack_packet(p, drones[0].id, fragment_index, kind);
            &&& q.hops.len() == p.hop_index + 1
            &&& q.hops[0] == drones[0].id
            &&& forall|j: int| 1 <= j <= p.hop_index ==> #[trigger] q.hops[j] == p.hops[p.hop_index - j]
            &&& drones[0].forward(q) == ActionView::Send(q.hops[1], held_at(q, 1))
            &&& forall|j: int|
                1 <= j < drones.len() ==> (#[trigger] drones[j]).packet_step(held_at(q, j), drop) == (
                drones[j],
                set![ActionView::Send(q.hops[j + 1], held_at(q, j + 1))],
            )
        }),
{
    let q = nack_packet(p, drones[0].id, fragment_index, kind);
    assert(q.hops.len() == p.hop_index + 1);
    assert forall|j: int| 1 <= j <= p.hop_index implies #[trigger] q.hops[j] == p.hops[p.hop_index - j] by {
        assert(q.hops[j] == p.hops.take(p.hop_index).reverse()[j - 1]);
    }
    assert(drones[0].is_neighbor(q.hops[1]));
    assert(held_at(q, 1) == q.advanced());
    assert forall|j: int| 1 <= j < drones.len() implies (#[trigger] drones[j]).packet_step(
        held_at(q, j),
        drop,
    ) == (drones[j], set![ActionView::Send(q.hops[j + 1], held_at(q, j + 1))]) by {
        let h = held_at(q, j);
        assert(h.current_hop() == drones[j].id);
        assert(h.has_next_hop());
        assert(drones[j].is_neighbor(h.next_hop()));
        assert(h.advanced() == held_at(q, j + 1));
    }
}

/// The first time a drone that is not crashing and has more than one
/// neighbor meets a flood request addressed to it, every neighbor but the one
/// it came from is sent a copy addressed to that neighbor, carrying the trace
/// extended with this drone.
pub proof fn law_flood_reaches_neighbors<C>(d: DroneView<C>, p: PacketView, drop: bool, n: NodeId)
    requires
        p.header_ok(),
        p.pack_type is FloodRequest,
        !d.crashing,
        p.current_hop() == d.id,
        !d.seen.contains(
            (p.pack_type->FloodRequest_0.initiator_id, p.pack_type->FloodRequest_0.flood_id),
        ),
        d.neighbors.len() != 1,
        d.is_neighbor(n),
        !p.is_predecessor(n),
    ensures
        ({
            let request = p.pack_type->FloodRequest_0;
            let extended = FloodRequestView {
                path_trace: request.path_trace.push((d.id, NodeType::Drone)),
                ..request
            };
            let q = flood_copy_packet(p, extended, n).advanced();
            &&& d.packet_step(p, drop).1.contains(ActionView::Send(n, q))
            &&& q.header_ok()
            &&& q.current_hop() == n
            &&& q.hops.take(p.hop_index + 1) == p.hops.take(p.hop_index + 1)
        }),
{
    let request = p.pack_type->FloodRequest_0;
    let extended = FloodRequestView {
        path_trace: request.path_trace.push((d.id, NodeType::Drone)),
        ..request
    };
    let c = flood_copy_packet(p, extended, n);
    assert(c.hops[p.hop_index + 1] == n);
    assert(d.flood_targets(p).contains(n));
    let f = |m: NodeId| d.forward(flood_copy_packet(p, extended, m));
    assert(d.flood_targets(p).map(f).contains(f(n)));
    assert(c.hops.take(p.hop_index + 1) =~= p.hops.take(p.hop_index + 1));
}

/// A flood request that a drone has met before, or that reaches a drone with
/// a single neighbor, is answered by exactly one flood response, routed from
/// this drone back to the first hop of the request's route, with the trace
/// extended by this drone.
pub proof fn law_flood_answered<C>(d: DroneView<C>, p: PacketView, drop: bool)
    requires
        p.header_ok(),
        p.pack_type is FloodRequest,
        !d.crashing,
        p.current_hop() == d.id,
        d.seen.contains(
            (p.pack_type->FloodRequest_0.initiator_id, p.pack_type->FloodRequest_0.flood_id),
        ) || d.neighbors.len() == 1,
    ensures
        ({
            let request = p.pack_type->FloodRequest_0;
            let trace = request.path_trace.push((d.id, NodeType::Drone));
            let response = flood_response_packet(p, d.id, request.flood_id, trace);
            &&& d.packet_step(p, drop).1 == set![d.forward(response)]
            &&& response.pack_type is FloodResponse
            &&& response.hops[0] == d.id
            &&& response.hops.last() == p.hops[0]
            &&& response.hop_index == 0
        }),
{
    let request = p.pack_type->FloodRequest_0;
    let trace = request.path_trace.push((d.id, NodeType::Drone));
    let response = flood_response_packet(p, d.id, request.flood_id, trace);
    if p.hop_index > 0 {
        assert(response.hops.last() == p.hops.take(p.hop_index).reverse()[p.hop_index - 1]);
    }
}

} // verus!
