//! Routing core of a drone in a source-routed overlay network: packet
//! validation, forwarding, Nack synthesis and the flood engine, written as a
//! state machine that a runner feeds with commands and packets.

mod control;
mod drone;
mod laws;
mod network;
mod packet;
mod protocol;

pub use control::{performs, Action, ActionView, Command, DroneEvent, DroneEventView};
pub use drone::DroneCore;
pub use laws::{
    held_at, law_add_then_remove, law_crash_then_disconnect, law_flood_answered,
    law_flood_fans_out_once, law_flood_reaches_neighbors, law_flood_skips_predecessor, law_forward_advances, law_nack_route, law_nack_travels_back,
    law_unexpected_recipient,
};
pub use packet::{
    Ack, FloodRequest, FloodRequestView, FloodResponse, FloodResponseView, Fragment, Nack,
    NackType, NodeId, NodeType, Packet, PacketType, PacketTypeView, PacketView,
    SourceRoutingHeader,
};
pub use protocol::{
    actions_at, fans_out, flood_copy_packet, flood_response_packet, nack_packet, return_route,
    sends_flood_request, state_after, DroneView, Input,
};
pub use network::{
    awaits_flood, flood_start, flood_start_packet, is_delivery, is_flood_request_for, is_run,
    law_flood_reaches_reachable, links_symmetric, reachable_within, sent_packets, NetworkView,
};
