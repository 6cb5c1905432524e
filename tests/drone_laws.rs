use skydrone::{
    Ack, Action, Command, DroneCore, DroneEvent, FloodRequest, FloodResponse, Fragment, Nack,
    NackType, NodeId, NodeType, Packet, PacketType, SourceRoutingHeader,
};
use std::collections::HashMap;

fn drone_with(id: NodeId, neighbors: &[NodeId]) -> DroneCore<u32> {
    let mut map = HashMap::new();
    for n in neighbors {
        map.insert(*n, 100 + *n as u32);
    }
    DroneCore::new(id, map)
}

fn pkt(pack_type: PacketType, hops: Vec<NodeId>, hop_index: usize) -> Packet {
    Packet {
        routing_header: SourceRoutingHeader { hop_index, hops },
        session_id: 9,
        pack_type,
    }
}

fn frag(index: u64) -> PacketType {
    PacketType::MsgFragment(Fragment {
        fragment_index: index,
        total_n_fragments: 2,
        length: 1,
        data: [0; 128],
    })
}

fn nack_of(index: u64, kind: NackType) -> PacketType {
    PacketType::Nack(Nack { fragment_index: index, nack_type: kind })
}

#[test]
fn add_then_remove_sender() {
    let mut d = drone_with(2, &[1]);
    d.handle_command(Command::AddSender(7, 70));
    assert_eq!(d.neighbor(7), Some(&70));
    d.handle_command(Command::RemoveSender(7));
    assert_eq!(d.neighbor(7), None);
    assert_eq!(d.neighbor(1), Some(&101));
}

#[test]
fn add_sender_replaces_endpoint() {
    let mut d = drone_with(2, &[1]);
    d.handle_command(Command::AddSender(1, 5));
    assert_eq!(d.neighbor(1), Some(&5));
}

#[test]
fn remove_absent_sender_is_noop() {
    let mut d = drone_with(2, &[1]);
    d.handle_command(Command::RemoveSender(9));
    assert_eq!(d.neighbor(1), Some(&101));
}

#[test]
fn crash_then_disconnect_stops() {
    let mut d = drone_with(2, &[1, 3]);
    assert!(!d.handle_disconnect());
    d.handle_command(Command::Crash);
    assert!(d.is_crashing());
    assert!(d.handle_disconnect());
    d.handle_command(Command::AddSender(4, 4));
    assert!(d.handle_disconnect());
}

#[test]
fn crashing_drone_refuses_fragments() {
    let mut d = drone_with(2, &[1, 3]);
    d.handle_command(Command::Crash);
    let actions = d.handle_packet(pkt(frag(6), vec![1, 2, 3], 1), false);
    let expected = pkt(nack_of(6, NackType::ErrorInRouting(2)), vec![2, 1], 1);
    assert_eq!(actions, vec![Action::Send(1, expected)]);
}

#[test]
fn crashing_drone_still_forwards_acks() {
    let mut d = drone_with(2, &[1, 3]);
    d.handle_command(Command::Crash);
    let ack = PacketType::Ack(Ack { fragment_index: 1 });
    let actions = d.handle_packet(pkt(ack.clone(), vec![1, 2, 3], 1), false);
    assert_eq!(actions, vec![Action::Send(3, pkt(ack, vec![1, 2, 3], 2))]);
}

#[test]
fn crashing_drone_ignores_flood_requests() {
    let mut d = drone_with(2, &[1, 3]);
    d.handle_command(Command::Crash);
    let request = PacketType::FloodRequest(FloodRequest {
        flood_id: 1,
        initiator_id: 1,
        path_trace: vec![(1, NodeType::Client)],
    });
    assert_eq!(d.handle_packet(pkt(request, vec![1, 2], 1), false), vec![]);
}

#[test]
fn flood_request_to_wrong_drone_is_dropped() {
    let mut d = drone_with(2, &[1, 3]);
    let request = PacketType::FloodRequest(FloodRequest {
        flood_id: 1,
        initiator_id: 1,
        path_trace: vec![(1, NodeType::Client)],
    });
    assert_eq!(d.handle_packet(pkt(request, vec![1, 8], 1), false), vec![]);
}

#[test]
fn flood_leaf_answers_at_once() {
    let mut d = drone_with(2, &[1]);
    let request = PacketType::FloodRequest(FloodRequest {
        flood_id: 3,
        initiator_id: 1,
        path_trace: vec![(1, NodeType::Client)],
    });
    let actions = d.handle_packet(pkt(request, vec![1, 2], 1), false);
    let response = Packet {
        routing_header: SourceRoutingHeader { hop_index: 1, hops: vec![2, 1] },
        session_id: 0,
        pack_type: PacketType::FloodResponse(FloodResponse {
            flood_id: 3,
            path_trace: vec![(1, NodeType::Client), (2, NodeType::Drone)],
        }),
    };
    assert_eq!(actions, vec![Action::Send(1, response)]);
}

#[test]
fn flood_fan_out_skips_predecessor_only_once() {
    let mut d = drone_with(2, &[1, 3]);
    let request = PacketType::FloodRequest(FloodRequest {
        flood_id: 8,
        initiator_id: 1,
        path_trace: vec![(1, NodeType::Client)],
    });
    let first = d.handle_packet(pkt(request.clone(), vec![1, 2], 1), false);
    assert_eq!(first.len(), 1);
    match &first[0] {
        Action::Send(n, p) => {
            assert_eq!(*n, 3);
            assert_eq!(p.routing_header.hops, vec![1, 2, 3]);
            assert_eq!(p.routing_header.hop_index, 2);
        }
        other => panic!("unexpected action {:?}", other),
    }
    let again = d.handle_packet(pkt(request, vec![1, 2], 1), false);
    assert!(again.iter().all(|a| match a {
        Action::Send(_, p) => !matches!(p.pack_type, PacketType::FloodRequest(_)),
        Action::Notify(_) => true,
    }));
}

#[test]
fn nack_route_reverses_travelled_hops() {
    let mut d = drone_with(2, &[7, 8]);
    let actions = d.handle_packet(pkt(frag(1), vec![5, 6, 7, 2, 9], 3), false);
    let expected = pkt(nack_of(1, NackType::ErrorInRouting(9)), vec![2, 7, 6, 5], 1);
    assert_eq!(actions, vec![Action::Send(7, expected)]);
}

#[test]
fn nack_without_way_back_goes_to_controller() {
    let mut d = drone_with(2, &[]);
    let actions = d.handle_packet(pkt(frag(1), vec![2, 3], 0), false);
    let nack = pkt(nack_of(1, NackType::ErrorInRouting(3)), vec![2], 0);
    assert_eq!(actions, vec![Action::Notify(DroneEvent::ControllerShortcut(nack))]);
}

#[test]
fn nack_travels_back_hop_by_hop() {
    // Route 1 -> 2 -> 3 -> 4 -> 5; drone 4 has lost its link to 5.
    let mut d4 = drone_with(4, &[3]);
    let mut d3 = drone_with(3, &[2, 4]);
    let mut d2 = drone_with(2, &[1, 3]);
    let out = d4.handle_packet(pkt(frag(2), vec![1, 2, 3, 4, 5], 3), false);
    let kind = nack_of(2, NackType::ErrorInRouting(5));
    assert_eq!(out, vec![Action::Send(3, pkt(kind.clone(), vec![4, 3, 2, 1], 1))]);
    let out = d3.handle_packet(pkt(kind.clone(), vec![4, 3, 2, 1], 1), false);
    assert_eq!(out, vec![Action::Send(2, pkt(kind.clone(), vec![4, 3, 2, 1], 2))]);
    let out = d2.handle_packet(pkt(kind.clone(), vec![4, 3, 2, 1], 2), false);
    assert_eq!(out, vec![Action::Send(1, pkt(kind, vec![4, 3, 2, 1], 3))]);
}

#[test]
fn failed_send_removes_neighbor_and_nacks() {
    let mut d = drone_with(2, &[1, 3]);
    let sent = pkt(frag(4), vec![1, 2, 3], 2);
    let actions = d.handle_send_result(sent, false);
    assert_eq!(d.neighbor(3), None);
    let expected = pkt(nack_of(4, NackType::ErrorInRouting(3)), vec![2, 1], 1);
    assert_eq!(actions, vec![Action::Send(1, expected)]);
}

#[test]
fn failed_send_of_ack_goes_to_controller() {
    let mut d = drone_with(2, &[1, 3]);
    let ack = PacketType::Ack(Ack { fragment_index: 0 });
    let actions = d.handle_send_result(pkt(ack.clone(), vec![1, 2, 3], 2), false);
    assert_eq!(d.neighbor(3), None);
    assert_eq!(
        actions,
        vec![Action::Notify(DroneEvent::ControllerShortcut(pkt(ack, vec![1, 2, 3], 1)))]
    );
}

#[test]
fn failed_send_of_flood_request_is_silent() {
    let mut d = drone_with(2, &[1, 3]);
    let request = PacketType::FloodRequest(FloodRequest {
        flood_id: 1,
        initiator_id: 1,
        path_trace: vec![],
    });
    let actions = d.handle_send_result(pkt(request, vec![1, 2, 3], 2), false);
    assert_eq!(d.neighbor(3), None);
    assert_eq!(actions, vec![]);
}

#[test]
fn flood_reaches_every_drone() {
    // Client 0 is linked to drone 1; drones 1, 2, 3 form a triangle and 4 hangs off 3.
    let links: Vec<(NodeId, Vec<NodeId>)> = vec![
        (1, vec![0, 2, 3]),
        (2, vec![1, 3]),
        (3, vec![1, 2, 4]),
        (4, vec![3]),
    ];
    let mut drones: HashMap<NodeId, DroneCore<u32>> = HashMap::new();
    for (id, neighbors) in &links {
        drones.insert(*id, drone_with(*id, neighbors));
    }
    let start = Packet {
        routing_header: SourceRoutingHeader { hop_index: 1, hops: vec![0, 1] },
        session_id: 0,
        pack_type: PacketType::FloodRequest(FloodRequest {
            flood_id: 11,
            initiator_id: 0,
            path_trace: vec![(0, NodeType::Client)],
        }),
    };
    let mut queue: Vec<(NodeId, Packet)> = vec![(1, start)];
    let mut answers: Vec<FloodResponse> = Vec::new();
    let mut steps = 0;
    while let Some((to, packet)) = queue.pop() {
        steps += 1;
        assert!(steps < 1000);
        match drones.get_mut(&to) {
            Some(d) => {
                let mut pending = d.handle_packet(packet, false);
                while let Some(action) = pending.pop() {
                    if let Action::Send(n, p) = action {
                        queue.push((n, p.clone()));
                        pending.extend(d.handle_send_result(p, true));
                    }
                }
            }
            None => {
                if let PacketType::FloodResponse(r) = packet.pack_type {
                    assert_eq!(to, 0);
                    answers.push(r);
                }
            }
        }
    }
    for id in 1..=4u8 {
        assert!(answers.iter().any(|r| r.path_trace.iter().any(|(n, _)| *n == id)));
    }
    assert!(answers.iter().all(|r| r.flood_id == 11 && r.path_trace[0] == (0, NodeType::Client)));
}
