//! Packets as they travel between nodes, and their mathematical views.
use vstd::prelude::*;

verus! {

/// Identity of a node of the overlay.
pub type NodeId = u8;

/// Role of a node, as recorded in a flood's path trace.
#[derive(Clone, Copy, Debug, PartialEq, Eq, Structural)]
pub enum NodeType {
    Client,
    Drone,
    Server,
}

/// Why a packet could not be delivered.
#[derive(Clone, Copy, Debug, PartialEq, Eq, Structural)]
pub enum NackType {
    ErrorInRouting(NodeId),
    DestinationIsDrone,
    Dropped,
    UnexpectedRecipient(NodeId),
}

/// One fragment of a message.
#[derive(Clone, Copy, Debug, PartialEq, Eq)]
pub struct Fragment {
    pub fragment_index: u64,
    pub total_n_fragments: u64,
    pub length: u8,
    pub data: [u8; 128],
}

/// Positive acknowledgement of a fragment.
#[derive(Clone, Copy, Debug, PartialEq, Eq, Structural)]
pub struct Ack {
    pub fragment_index: u64,
}

/// Negative acknowledgement of a fragment.
#[derive(Clone, Copy, Debug, PartialEq, Eq, Structural)]
pub struct Nack {
    pub fragment_index: u64,
    pub nack_type: NackType,
}

/// Network discovery request, with the nodes it has passed so far.
#[derive(Clone, Debug, PartialEq, Eq)]
pub struct FloodRequest {
    pub flood_id: u64,
    pub initiator_id: NodeId,
    pub path_trace: Vec<(NodeId, NodeType)>,
}

/// Answer to a flood request, carrying the path it took.
#[derive(Clone, Debug, PartialEq, Eq)]
pub struct FloodResponse {
    pub flood_id: u64,
    pub path_trace: Vec<(NodeId, NodeType)>,
}

#[derive(Clone, Debug, PartialEq, Eq)]
pub enum PacketType {
    MsgFragment(Fragment),
    Ack(Ack),
    Nack(Nack),
    FloodRequest(FloodRequest),
    FloodResponse(FloodResponse),
}

/// The full source route, and the position of the node now holding the packet.
#[derive(Clone, Debug, PartialEq, Eq)]
pub struct SourceRoutingHeader {
    pub hop_index: usize,
    pub hops: Vec<NodeId>,
}

#[derive(Clone, Debug, PartialEq, Eq)]
pub struct Packet {
    pub routing_header: SourceRoutingHeader,
    pub session_id: u64,
    pub pack_type: PacketType,
}

pub struct FloodRequestView {
    pub flood_id: u64,
    pub initiator_id: NodeId,
    pub path_trace: Seq<(NodeId, NodeType)>,
}

pub struct FloodResponseView {
    pub flood_id: u64,
    pub path_trace: Seq<(NodeId, NodeType)>,
}

pub enum PacketTypeView {
    MsgFragment(Fragment),
    Ack(Ack),
    Nack(Nack),
    FloodRequest(FloodRequestView),
    FloodResponse(FloodResponseView),
}

/// A packet with its routing header flattened into `hops` and `hop_index`.
pub struct PacketView {
    pub pack_type: PacketTypeView,
    pub hops: Seq<NodeId>,
    pub hop_index: int,
    pub session_id: u64,
}

impl View for FloodRequest {
    type V = FloodRequestView;

    open spec fn view(&self) -> FloodRequestView {
        FloodRequestView {
            flood_id: self.flood_id,
            initiator_id: self.initiator_id,
            path_trace: self.path_trace@,
        }
    }
}

impl View for FloodResponse {
    type V = FloodResponseView;

    open spec fn view(&self) -> FloodResponseView {
        FloodResponseView { flood_id: self.flood_id, path_trace: self.path_trace@ }
    }
}

impl View for PacketType {
    type V = PacketTypeView;

    open spec fn view(&self) -> PacketTypeView {
        match self {
            PacketType::MsgFragment(f) => PacketTypeView::MsgFragment(*f),
            PacketType::Ack(a) => PacketTypeView::Ack(*a),
            PacketType::Nack(n) => PacketTypeView::Nack(*n),
            PacketType::FloodRequest(r) => PacketTypeView::FloodRequest(r@),
            PacketType::FloodResponse(r) => PacketTypeView::FloodResponse(r@),
        }
    }
}

impl View for Packet {
    type V = PacketView;

    open spec fn view(&self) -> PacketView {
        PacketView {
            pack_type: self.pack_type@,
            hops: self.routing_header.hops@,
            hop_index: self.routing_header.hop_index as int,
            session_id: self.session_id,
        }
    }
}

impl PacketView {
    /// The header points inside the route.
    pub open spec fn header_ok(self) -> bool {
        0 <= self.hop_index < self.hops.len()
    }

    /// The node that the header names as the current holder.
    pub open spec fn current_hop(self) -> NodeId {
        self.hops[self.hop_index]
    }

    /// A next hop exists after the current one.
    pub open spec fn has_next_hop(self) -> bool {
        self.hop_index + 1 < self.hops.len()
    }

    pub open spec fn next_hop(self) -> NodeId {
        self.hops[self.hop_index + 1]
    }

    /// The same packet, one hop further along its route.
    pub open spec fn advanced(self) -> PacketView {
        PacketView { hop_index: self.hop_index + 1, ..self }
    }

    /// The same packet, one hop back along its route.
    pub open spec fn rolled_back(self) -> PacketView {
        PacketView { hop_index: self.hop_index - 1, ..self }
    }

    /// The node the packet came from, when it did not start here.
    pub open spec fn is_predecessor(self, n: NodeId) -> bool {
        self.hop_index > 0 && self.hops[self.hop_index - 1] == n
    }
}

} // verus!
