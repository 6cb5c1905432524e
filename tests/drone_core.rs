use rand::Rng;
use skydrone::{
    Ack, Action, DroneCore, DroneEvent, FloodRequest, FloodResponse, Fragment, Nack,
    NackType, NodeId, NodeType, Packet, PacketType, SourceRoutingHeader,
};
use std::collections::HashMap;

fn drone(id: NodeId, neighbors: &[NodeId]) -> DroneCore<String> {
    let mut map = HashMap::new();
    for n in neighbors {
        map.insert(*n, format!("to {}", n));
    }
    DroneCore::new(id, map)
}

fn packet(pack_type: PacketType, hops: Vec<NodeId>, hop_index: usize) -> Packet {
    Packet {
        routing_header: SourceRoutingHeader { hop_index, hops },
        session_id: 42,
        pack_type,
    }
}

fn fragment(index: u64) -> PacketType {
    PacketType::MsgFragment(Fragment {
        fragment_index: index,
        total_n_fragments: 10,
        length: 3,
        data: [7; 128],
    })
}

fn nack(index: u64, kind: NackType, hops: Vec<NodeId>, hop_index: usize) -> Packet {
    packet(
        PacketType::Nack(Nack { fragment_index: index, nack_type: kind }),
        hops,
        hop_index,
    )
}

fn flood_request(trace: Vec<(NodeId, NodeType)>, hops: Vec<NodeId>, hop_index: usize) -> Packet {
    packet(
        PacketType::FloodRequest(FloodRequest { flood_id: 5, initiator_id: 0, path_trace: trace }),
        hops,
        hop_index,
    )
}

#[test]
fn test() {
    let d = drone(2, &[1, 3]);
    assert_eq!(d.id(), 2);
    assert!(!d.is_crashing());
    assert_eq!(d.neighbor(3), Some(&"to 3".to_string()));
    assert_eq!(d.neighbor(4), None);
}

#[test]
fn successful_forward() {
    let mut d = drone(2, &[1, 3]);
    let p = packet(fragment(7), vec![1, 2, 3], 1);
    let actions = d.handle_packet(p.clone(), false);
    let sent = packet(fragment(7), vec![1, 2, 3], 2);
    assert_eq!(actions, vec![Action::Send(3, sent.clone())]);
    let reported = d.handle_send_result(sent.clone(), true);
    assert_eq!(reported, vec![Action::Notify(DroneEvent::PacketSent(sent))]);
}

#[test]
fn unexpected_recipient() {
    let mut d = drone(2, &[1, 3]);
    let actions = d.handle_packet(packet(fragment(7), vec![1, 9, 3], 1), false);
    let expected = nack(7, NackType::UnexpectedRecipient(9), vec![2, 1], 1);
    assert_eq!(actions, vec![Action::Send(1, expected)]);
}

#[test]
fn destination_is_drone() {
    let mut d = drone(2, &[1, 3]);
    let actions = d.handle_packet(packet(fragment(4), vec![1, 2], 1), false);
    let expected = nack(4, NackType::DestinationIsDrone, vec![2, 1], 1);
    assert_eq!(actions, vec![Action::Send(1, expected)]);
}

#[test]
fn error_in_routing_stale_neighbor() {
    let mut d = drone(2, &[1]);
    let actions = d.handle_packet(packet(fragment(7), vec![1, 2, 3], 1), false);
    let expected = nack(7, NackType::ErrorInRouting(3), vec![2, 1], 1);
    assert_eq!(actions, vec![Action::Send(1, expected)]);
}

#[test]
fn probabilistic_drop() {
    let mut d = drone(2, &[1, 3]);
    let pdr: f32 = 1.0;
    let drop = rand::thread_rng().gen_range(0.0..1.0) <= pdr;
    let p = packet(fragment(0), vec![1, 2, 3], 1);
    let actions = d.handle_packet(p.clone(), drop);
    let expected = nack(0, NackType::Dropped, vec![2, 1], 1);
    assert_eq!(
        actions,
        vec![Action::Notify(DroneEvent::PacketDropped(p)), Action::Send(1, expected)]
    );
}

#[test]
fn drop_decision_ignored_for_acks() {
    let mut d = drone(2, &[1, 3]);
    let ack = packet(PacketType::Ack(Ack { fragment_index: 3 }), vec![1, 2, 3], 1);
    let actions = d.handle_packet(ack, true);
    assert_eq!(
        actions,
        vec![Action::Send(3, packet(PacketType::Ack(Ack { fragment_index: 3 }), vec![1, 2, 3], 2))]
    );
}

#[test]
fn flood_dedup() {
    let mut d = drone(2, &[1, 3, 4]);
    let trace = vec![(0, NodeType::Client), (1, NodeType::Drone)];
    let request = flood_request(trace.clone(), vec![0, 1, 2], 2);
    let mut first = d.handle_packet(request.clone(), false);
    first.sort_by_key(|a| match a {
        Action::Send(n, _) => *n,
        Action::Notify(_) => 255,
    });
    let extended = vec![(0, NodeType::Client), (1, NodeType::Drone), (2, NodeType::Drone)];
    let copy = |n: NodeId| {
        let mut p = flood_request(extended.clone(), vec![0, 1, 2, n], 3);
        p.session_id = 0;
        Action::Send(n, p)
    };
    assert_eq!(first, vec![copy(3), copy(4)]);

    let second = d.handle_packet(request, false);
    let response = Packet {
        routing_header: SourceRoutingHeader { hop_index: 1, hops: vec![2, 1, 0] },
        session_id: 0,
        pack_type: PacketType::FloodResponse(FloodResponse { flood_id: 5, path_trace: extended }),
    };
    assert_eq!(second, vec![Action::Send(1, response)]);
}

#[test]
fn ack_shortcut_on_broken_link() {
    let mut d = drone(2, &[1]);
    let ack = packet(PacketType::Ack(Ack { fragment_index: 3 }), vec![1, 2, 3], 1);
    let actions = d.handle_packet(ack.clone(), false);
    assert_eq!(actions, vec![Action::Notify(DroneEvent::ControllerShortcut(ack))]);
}
