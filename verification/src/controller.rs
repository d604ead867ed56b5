use vstd::prelude::*;
use crate::drone::{advanced, DroneEvent};
use crate::ids::{contains_id, differs};
use crate::packet::{NodeId, Packet, PacketType, PacketTypeView};

verus! {

/// A command of the simulation controller to a drone.
#[derive(Clone, Copy, Debug, PartialEq, Eq, Structural)]
pub enum ControllerCommand {
    Crash,
    RemoveSender(NodeId),
}

/// The commands that crash drone `id`: the crash itself, then, when the
/// drone has a packet channel, the removal of `id` as a sender at every
/// other drone. Nothing when `id` is no drone.
pub open spec fn crash_commands_for(drones: Seq<NodeId>, id: NodeId, has_channel: bool) -> Seq<(NodeId, ControllerCommand)> {
    if !drones.contains(id) {
        Seq::empty()
    } else if has_channel {
        seq![(id, ControllerCommand::Crash)] + drones.filter(differs(id)).map_values(
            |n: NodeId| (n, ControllerCommand::RemoveSender(id)),
        )
    } else {
        seq![(id, ControllerCommand::Crash)]
    }
}

/// The commands the controller sends to crash drone `id`, given the ids of
/// its drones and whether `id` has a packet channel.
pub fn crash_commands(drones: &Vec<NodeId>, id: NodeId, has_channel: bool) -> (cmds: Vec<(NodeId, ControllerCommand)>)
    ensures
        cmds@ == crash_commands_for(drones@, id, has_channel),
{
    let mut cmds: Vec<(NodeId, ControllerCommand)> = Vec::new();
    if !contains_id(drones, id) {
        return cmds;
    }
    cmds.push((id, ControllerCommand::Crash));
    if !has_channel {
        return cmds;
    }
    let mut i: usize = 0;
    while i < drones.len()
        invariant
            i <= drones@.len(),
            cmds@ == seq![(id, ControllerCommand::Crash)] + drones@.subrange(0, i as int).filter(differs(id)).map_values(
                |n: NodeId| (n, ControllerCommand::RemoveSender(id)),
            ),
        decreases drones@.len() - i,
    {
        let n = drones[i];
        proof {
            reveal_with_fuel(Seq::filter, 1);
            assert(drones@.subrange(0, i as int + 1).drop_last() =~= drones@.subrange(0, i as int));
        }
        if n != id {
            cmds.push((n, ControllerCommand::RemoveSender(id)));
        }
        i = i + 1;
        assert(cmds@ =~= seq![(id, ControllerCommand::Crash)] + drones@.subrange(0, i as int).filter(differs(id)).map_values(
            |n: NodeId| (n, ControllerCommand::RemoveSender(id)),
        ));
    }
    assert(drones@.subrange(0, drones@.len() as int) =~= drones@);
    cmds
}

/// Where the controller delivers a packet a drone handed over: its last hop.
pub fn destination_of(packet: &Packet) -> (dest: NodeId)
    requires
        packet@.routing_header.hops.len() > 0,
    ensures
        dest == packet@.routing_header.hops.last(),
{
    packet.routing_header.hops[packet.routing_header.hops.len() - 1]
}

/// What the controller does with a drone's report: a packet handed over is
/// delivered to its destination; other reports are only shown.
pub fn handle_event(event: &DroneEvent) -> (dest: Option<NodeId>)
    requires
        event matches DroneEvent::ControllerShortcut(p) ==> p@.routing_header.hops.len() > 0,
    ensures
        dest == match event {
            DroneEvent::ControllerShortcut(p) => Some(p@.routing_header.hops.last()),
            _ => None::<NodeId>,
        },
{
    match event {
        DroneEvent::ControllerShortcut(p) => Some(destination_of(p)),
        _ => None,
    }
}

/// A fragment the controller injects: the next hop it goes to and the
/// packet one hop further along.
pub fn fragment_hop(packet: Packet) -> (res: (NodeId, Packet))
    requires
        packet@.routing_header.hop_index + 1 < packet@.routing_header.hops.len(),
    ensures
        res.0 == packet@.routing_header.hops[packet@.routing_header.hop_index + 1],
        res.1@ == advanced(packet@),
{
    let hi = packet.routing_header.hop_index;
    let n = packet.routing_header.hops.len();
    assert(hi + 1 < n);
    let next = packet.routing_header.hops[hi + 1];
    let mut p = packet;
    p.routing_header.hop_index = hi + 1;
    (next, p)
}

/// The hop the controller hands an ack to: the current one.
pub fn ack_hop(packet: &Packet) -> (hop: NodeId)
    requires
        packet@.routing_header.hop_index < packet@.routing_header.hops.len(),
    ensures
        hop == packet@.routing_header.hops[packet@.routing_header.hop_index as int],
{
    packet.routing_header.hops[packet.routing_header.hop_index]
}

/// The hop a flood request the controller starts goes to: the next one;
/// nothing for a packet that is no flood request.
pub fn flood_hop(packet: &Packet) -> (hop: Option<NodeId>)
    requires
        packet@.pack_type is FloodRequest ==> packet@.routing_header.hop_index + 1 < packet@.routing_header.hops.len(),
    ensures
        hop == if packet@.pack_type is FloodRequest {
            Some(packet@.routing_header.hops[packet@.routing_header.hop_index + 1])
        } else {
            None::<NodeId>
        },
{
    match &packet.pack_type {
        PacketType::FloodRequest(_) => {
            let hi = packet.routing_header.hop_index;
            let n = packet.routing_header.hops.len();
            assert(hi + 1 < n);
            Some(packet.routing_header.hops[hi + 1])
        },
        _ => None,
    }
}

} // verus!
