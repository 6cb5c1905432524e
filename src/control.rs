//! What the drone receives from the simulation controller, what it reports
//! back, and the actions a step asks its runner to perform.
use crate::packet::{NodeId, Packet, PacketView};
use vstd::prelude::*;

verus! {

/// A controller command. `C` is the endpoint through which packets reach a
/// neighbor.
pub enum Command<C> {
    AddSender(NodeId, C),
    RemoveSender(NodeId),
    Crash,
}

/// A report to the simulation controller.
#[derive(Clone, Debug, PartialEq, Eq)]
pub enum DroneEvent {
    PacketSent(Packet),
    PacketDropped(Packet),
    ControllerShortcut(Packet),
}

/// Something the runner must do on the drone's behalf.
#[derive(Clone, Debug, PartialEq, Eq)]
pub enum Action {
    /// Enqueue the packet on the endpoint of this neighbor, then hand the
    /// outcome back through `DroneCore::handle_send_result`.
    Send(NodeId, Packet),
    /// Deliver the event to the controller.
    Notify(DroneEvent),
}

pub enum DroneEventView {
    PacketSent(PacketView),
    PacketDropped(PacketView),
    ControllerShortcut(PacketView),
}

pub enum ActionView {
    Send(NodeId, PacketView),
    Notify(DroneEventView),
}

impl View for DroneEvent {
    type V = DroneEventView;

    open spec fn view(&self) -> DroneEventView {
        match self {
            DroneEvent::PacketSent(p) => DroneEventView::PacketSent(p@),
            DroneEvent::PacketDropped(p) => DroneEventView::PacketDropped(p@),
            DroneEvent::ControllerShortcut(p) => DroneEventView::ControllerShortcut(p@),
        }
    }
}

impl View for Action {
    type V = ActionView;

    open spec fn view(&self) -> ActionView {
        match self {
            Action::Send(n, p) => ActionView::Send(*n, p@),
            Action::Notify(e) => ActionView::Notify(e@),
        }
    }
}

/// The actions, taken as a set: each listed once, and exactly those of `expected`.
pub open spec fn performs(actions: Seq<Action>, expected: Set<ActionView>) -> bool {
    let views = actions.map_values(|a: Action| a@);
    &&& views.no_duplicates()
    &&& views.to_set() == expected
}

} // verus!
