use vstd::prelude::*;
use crate::ids::{contains_id, push_unique};
use crate::packet::{
    create_nack, fragment_index_of, is_service_packet, nack_route, trace_ids, FloodRequest, FloodRequestView,
    FloodResponseView, Nack, NackType, NodeId, NodeKind, Packet, PacketType, PacketTypeView, PacketView, RouteView,
};

verus! {

/// What a drone reports to the simulation controller.
#[derive(Debug)]
pub enum DroneEvent {
    PacketSent(Packet),
    PacketDropped(Packet),
    ControllerShortcut(Packet),
}

/// One step of output of a drone.
#[derive(Debug)]
pub enum DroneAction {
    /// Send to a neighbour; when its channel is closed, service packets
    /// (acks, nacks, flood responses) go to the controller as a shortcut.
    Forward(NodeId, Packet),
    /// Send to a neighbour; a closed channel is a fatal error.
    Send(NodeId, Packet),
    /// Report to the simulation controller.
    Notify(DroneEvent),
}

pub enum DroneEventView {
    PacketSent(PacketView),
    PacketDropped(PacketView),
    ControllerShortcut(PacketView),
}

pub enum DroneActionView {
    Forward(NodeId, PacketView),
    Send(NodeId, PacketView),
    Notify(DroneEventView),
}

impl View for DroneEvent {
    type V = DroneEventView;

    open spec fn view(&self) -> DroneEventView {
        match self {
            DroneEvent::PacketSent(p) => DroneEventView::PacketSent(p@),
            DroneEvent::PacketDropped(p) => DroneEventView::PacketDropped(p@),
            DroneEvent::ControllerShortcut(p) => DroneEventView::ControllerShortcut(p@),
        }
    }
}

impl View for DroneAction {
    type V = DroneActionView;

    open spec fn view(&self) -> DroneActionView {
        match self {
            DroneAction::Forward(n, p) => DroneActionView::Forward(*n, p@),
            DroneAction::Send(n, p) => DroneActionView::Send(*n, p@),
            DroneAction::Notify(e) => DroneActionView::Notify(e@),
        }
    }
}

pub open spec fn actions_view(v: Seq<DroneAction>) -> Seq<DroneActionView> {
    v.map_values(|a: DroneAction| a@)
}

/// The same packet one hop further along its route.
pub open spec fn advanced(p: PacketView) -> PacketView {
    PacketView {
        routing_header: RouteView {
            hop_index: (p.routing_header.hop_index + 1) as usize,
            hops: p.routing_header.hops,
        },
        ..p
    }
}

/// The nack a drone answers `p` with.
pub open spec fn nack_for(p: PacketView, t: NackType) -> PacketView {
    PacketView {
        pack_type: PacketTypeView::Nack(Nack { fragment_index: fragment_index_of(p.pack_type), nack_type: t }),
        routing_header: RouteView { hop_index: 0, hops: nack_route(p.routing_header) },
        session_id: p.session_id,
    }
}

/// A packet whose next hop exists: at least two hops, the current one valid.
pub open spec fn routable(p: PacketView) -> bool {
    p.routing_header.hops.len() >= 2 && p.routing_header.hop_index < p.routing_header.hops.len()
}

/// Moving `p` one hop on: to the neighbour that is the next hop, or, when that
/// is no neighbour, to the controller (service packets only).
pub open spec fn step_actions(neighbours: Seq<NodeId>, p: PacketView) -> Seq<DroneActionView> {
    let q = advanced(p);
    let next = p.routing_header.hops[p.routing_header.hop_index + 1];
    if neighbours.contains(next) {
        seq![DroneActionView::Forward(next, q)]
    } else if is_service_packet(q.pack_type) {
        seq![DroneActionView::Notify(DroneEventView::ControllerShortcut(q))]
    } else {
        seq![]
    }
}

/// Forwarding `p`: one hop on, or, when the drone is the last hop, a nack
/// saying that the destination is a drone, sent back the way it came.
pub open spec fn forward_actions(neighbours: Seq<NodeId>, p: PacketView) -> Seq<DroneActionView> {
    if p.routing_header.hop_index + 1 < p.routing_header.hops.len() {
        step_actions(neighbours, p)
    } else {
        step_actions(neighbours, nack_for(p, NackType::DestinationIsDrone))
    }
}

/// The flood response a drone sends back for a request it has already seen.
pub open spec fn flood_response_for(me: NodeId, session_id: u64, f: FloodRequestView) -> PacketView {
    let trace = f.path_trace.push((me, NodeKind::Drone));
    PacketView {
        pack_type: PacketTypeView::FloodResponse(FloodResponseView { flood_id: f.flood_id, path_trace: trace }),
        routing_header: RouteView { hop_index: 0, hops: trace_ids(trace).reverse() },
        session_id,
    }
}

/// The flood request a drone passes on: its own id appended to the trace.
pub open spec fn extended_request(me: NodeId, p: PacketView, f: FloodRequestView) -> PacketView {
    PacketView {
        pack_type: PacketTypeView::FloodRequest(
            FloodRequestView { path_trace: f.path_trace.push((me, NodeKind::Drone)), ..f },
        ),
        ..p
    }
}

/// Sends `p` to every neighbour but `previous`, in the order of `neighbours`.
pub open spec fn broadcast_actions(neighbours: Seq<NodeId>, previous: NodeId, p: PacketView) -> Seq<DroneActionView>
    decreases neighbours.len(),
{
    if neighbours.len() == 0 {
        seq![]
    } else {
        let rest = broadcast_actions(neighbours.drop_last(), previous, p);
        if neighbours.last() == previous {
            rest
        } else {
            rest.push(DroneActionView::Send(neighbours.last(), p))
        }
    }
}

/// What a drone does with a message fragment; `dropped` is the outcome of
/// the drone's random drop test, which is made only when the next hop is a
/// neighbour.
pub open spec fn fragment_actions(me: NodeId, neighbours: Seq<NodeId>, p: PacketView, dropped: bool) -> Seq<DroneActionView> {
    let r = p.routing_header;
    let hi = r.hop_index as int;
    if hi + 1 >= r.hops.len() {
        forward_actions(neighbours, nack_for(p, NackType::DestinationIsDrone))
    } else if me != r.hops[hi] {
        forward_actions(neighbours, nack_for(p, NackType::UnexpectedRecipient(me)))
    } else {
        let next = r.hops[hi + 1];
        if !neighbours.contains(next) {
            forward_actions(neighbours, nack_for(p, NackType::ErrorInRouting(next)))
        } else if dropped {
            let back = nack_for(p, NackType::Dropped);
            let previous = back.routing_header.hops[1];
            let report = seq![DroneActionView::Notify(DroneEventView::PacketDropped(p))];
            if neighbours.contains(previous) {
                report.push(DroneActionView::Send(previous, advanced(back)))
            } else {
                report
            }
        } else {
            seq![
                DroneActionView::Notify(DroneEventView::PacketSent(p)),
                DroneActionView::Send(next, advanced(p)),
            ]
        }
    }
}

/// A packet a drone can receive: a flood request with a non-empty trace; a
/// fragment whose current hop is past the first and within the route; any
/// other packet with a route of two hops or more and its current hop within it.
pub open spec fn drone_receivable(p: PacketView) -> bool {
    match p.pack_type {
        PacketTypeView::FloodRequest(f) => f.path_trace.len() >= 1,
        PacketTypeView::MsgFragment(_) => 1 <= p.routing_header.hop_index < p.routing_header.hops.len(),
        _ => routable(p),
    }
}

/// The packet-handling state of a drone: its id, the floods it has seen and
/// the neighbours it can send to.
pub struct DroneState {
    pub id: NodeId,
    pub already_visited: Vec<(NodeId, u64)>,
    pub neighbours: Vec<NodeId>,
}

impl DroneState {
    pub open spec fn well_formed(&self) -> bool {
        self.neighbours@.no_duplicates()
    }

    pub open spec fn has_seen(&self, initiator: NodeId, flood_id: u64) -> bool {
        self.already_visited@.contains((initiator, flood_id))
    }

    pub fn new(id: NodeId, neighbours: Vec<NodeId>) -> (res: DroneState)
        requires
            neighbours@.no_duplicates(),
        ensures
            res.id == id,
            res.neighbours@ == neighbours@,
            res.already_visited@ == Seq::<(NodeId, u64)>::empty(),
            res.well_formed(),
    {
        DroneState { id, already_visited: Vec::new(), neighbours }
    }

    fn seen(&self, initiator: NodeId, flood_id: u64) -> (res: bool)
        ensures
            res == self.has_seen(initiator, flood_id),
    {
        let mut i: usize = 0;
        while i < self.already_visited.len()
            invariant
                i <= self.already_visited@.len(),
                forall|j: int| 0 <= j < i ==> self.already_visited@[j] != (initiator, flood_id),
            decreases self.already_visited@.len() - i,
        {
            let (a, b) = self.already_visited[i];
            if a == initiator && b == flood_id {
                assert(self.already_visited@[i as int] == (initiator, flood_id));
                return true;
            }
            i = i + 1;
        }
        false
    }

    /// Adds a neighbour; returns false, changing nothing, when it is one already.
    pub fn add_sender(&mut self, node_id: NodeId) -> (added: bool)
        requires
            old(self).well_formed(),
        ensures
            final(self).well_formed(),
            added == !old(self).neighbours@.contains(node_id),
            final(self).neighbours@ == if added { old(self).neighbours@.push(node_id) } else { old(self).neighbours@ },
            final(self).id == old(self).id,
            final(self).already_visited@ == old(self).already_visited@,
    {
        let added = !contains_id(&self.neighbours, node_id);
        push_unique(&mut self.neighbours, node_id);
        added
    }

    /// Removes a neighbour; returns whether it was one.
    pub fn remove_sender(&mut self, node_id: NodeId) -> (removed: bool)
        requires
            old(self).well_formed(),
        ensures
            final(self).well_formed(),
            removed == old(self).neighbours@.contains(node_id),
            final(self).neighbours@ == crate::ids::without_id(old(self).neighbours@, node_id),
            !final(self).neighbours@.contains(node_id),
            final(self).id == old(self).id,
            final(self).already_visited@ == old(self).already_visited@,
    {
        let removed = contains_id(&self.neighbours, node_id);
        crate::ids::remove_id(&mut self.neighbours, node_id);
        proof {
            crate::ids::lemma_filter_keeps_distinct(old(self).neighbours@, node_id);
        }
        removed
    }

    fn step(&self, p: Packet) -> (acts: Vec<DroneAction>)
        requires
            p@.routing_header.hop_index + 1 < p@.routing_header.hops.len(),
        ensures
            actions_view(acts@) == step_actions(self.neighbours@, p@),
    {
        let hi = p.routing_header.hop_index;
        let n = p.routing_header.hops.len();
        assert(hi + 1 < n);
        let mut q = p;
        q.routing_header.hop_index = hi + 1;
        let next = q.routing_header.hops[q.routing_header.hop_index];
        let mut acts: Vec<DroneAction> = Vec::new();
        if contains_id(&self.neighbours, next) {
            acts.push(DroneAction::Forward(next, q));
        } else if is_service(&q.pack_type) {
            acts.push(DroneAction::Notify(DroneEvent::ControllerShortcut(q)));
        }
        assert(actions_view(acts@) =~= step_actions(self.neighbours@, p@));
        acts
    }

    /// What forwarding a packet produces (see `forward_actions`).
    pub fn forward_packet(&self, p: Packet) -> (acts: Vec<DroneAction>)
        requires
            routable(p@),
        ensures
            actions_view(acts@) == forward_actions(self.neighbours@, p@),
    {
        if p.routing_header.hop_index < p.routing_header.hops.len() - 1 {
            self.step(p)
        } else {
            let nack = create_nack(&p, NackType::DestinationIsDrone);
            self.step(nack)
        }
    }

    /// The flood response for a request this drone has seen before.
    pub fn create_flood_response(&self, session_id: u64, flood: FloodRequest) -> (res: Packet)
        ensures
            res@ == flood_response_for(self.id, session_id, flood@),
    {
        let mut flood = flood;
        flood.path_trace.push((self.id, NodeKind::Drone));
        let res = flood.generate_response(session_id);
        res
    }

    fn broadcast(&self, previous: NodeId, p: &Packet) -> (acts: Vec<DroneAction>)
        ensures
            actions_view(acts@) == broadcast_actions(self.neighbours@, previous, p@),
    {
        let mut acts: Vec<DroneAction> = Vec::new();
        let mut i: usize = 0;
        while i < self.neighbours.len()
            invariant
                i <= self.neighbours@.len(),
                actions_view(acts@) == broadcast_actions(self.neighbours@.subrange(0, i as int), previous, p@),
            decreases self.neighbours@.len() - i,
        {
            let n = self.neighbours[i];
            proof {
                assert(self.neighbours@.subrange(0, i as int + 1).drop_last() =~= self.neighbours@.subrange(0, i as int));
            }
            if n != previous {
                acts.push(DroneAction::Send(n, p.duplicate()));
            }
            i = i + 1;
            assert(actions_view(acts@) =~= broadcast_actions(self.neighbours@.subrange(0, i as int), previous, p@));
        }
        assert(self.neighbours@.subrange(0, self.neighbours@.len() as int) =~= self.neighbours@);
        acts
    }

    /// Handles a flood request: a repeated one is answered with a flood
    /// response; a new one is recorded, extended with this drone, and passed
    /// to every neighbour but the one it came from.
    pub fn handle_flood_request(&mut self, p: Packet) -> (acts: Vec<DroneAction>)
        requires
            p@.pack_type is FloodRequest,
            drone_receivable(p@),
        ensures
            ({
                let f = p@.pack_type->FloodRequest_0;
                let seen = old(self).has_seen(f.initiator_id, f.flood_id);
                &&& final(self).id == old(self).id
                &&& final(self).neighbours@ == old(self).neighbours@
                &&& final(self).already_visited@ == if seen {
                    old(self).already_visited@
                } else {
                    old(self).already_visited@.push((f.initiator_id, f.flood_id))
                }
                &&& actions_view(acts@) == if seen {
                    forward_actions(old(self).neighbours@, flood_response_for(old(self).id, p@.session_id, f))
                } else {
                    broadcast_actions(old(self).neighbours@, f.path_trace.last().0, extended_request(old(self).id, p@, f))
                }
            }),
    {
        let Packet { pack_type, routing_header, session_id } = p;
        match pack_type {
            PacketType::FloodRequest(flood) => {
                if self.seen(flood.initiator_id, flood.flood_id) {
                    let response = self.create_flood_response(session_id, flood);
                    proof {
                        assert(trace_ids(flood@.path_trace.push((self.id, NodeKind::Drone))).len() >= 2);
                    }
                    self.forward_packet(response)
                } else {
                    self.already_visited.push((flood.initiator_id, flood.flood_id));
                    let mut flood = flood;
                    let last = flood.path_trace.len() - 1;
                    let (previous, _) = flood.path_trace[last];
                    flood.path_trace.push((self.id, NodeKind::Drone));
                    let forwarded = Packet { pack_type: PacketType::FloodRequest(flood), routing_header, session_id };
                    self.broadcast(previous, &forwarded)
                }
            },
            _ => {
                assert(false);
                Vec::new()
            },
        }
    }

    /// Handles a message fragment (see `fragment_actions`).
    pub fn handle_msg_fragment(&self, p: Packet, dropped: bool) -> (acts: Vec<DroneAction>)
        requires
            p@.pack_type is MsgFragment,
            drone_receivable(p@),
        ensures
            actions_view(acts@) == fragment_actions(self.id, self.neighbours@, p@, dropped),
    {
        let hi = p.routing_header.hop_index;
        let n = p.routing_header.hops.len();
        assert(hi < n);
        if hi + 1 >= n {
            let nack = create_nack(&p, NackType::DestinationIsDrone);
            return self.forward_packet(nack);
        }
        if self.id != p.routing_header.hops[hi] {
            let nack = create_nack(&p, NackType::UnexpectedRecipient(self.id));
            return self.forward_packet(nack);
        }
        let next = p.routing_header.hops[hi + 1];
        if !contains_id(&self.neighbours, next) {
            let nack = create_nack(&p, NackType::ErrorInRouting(next));
            return self.forward_packet(nack);
        }
        let mut acts: Vec<DroneAction> = Vec::new();
        if dropped {
            let mut back = create_nack(&p, NackType::Dropped);
            let previous = back.routing_header.hops[1];
            acts.push(DroneAction::Notify(DroneEvent::PacketDropped(p)));
            if contains_id(&self.neighbours, previous) {
                back.routing_header.hop_index = 1;
                acts.push(DroneAction::Send(previous, back));
            }
        } else {
            let mut q = p.duplicate();
            q.routing_header.hop_index = hi + 1;
            acts.push(DroneAction::Notify(DroneEvent::PacketSent(p)));
            acts.push(DroneAction::Send(next, q));
        }
        assert(actions_view(acts@) =~= fragment_actions(self.id, self.neighbours@, p@, dropped));
        acts
    }

    /// Handles any packet a drone receives; `dropped` is the outcome of the
    /// random drop test, consulted only for fragments bound for a neighbour.
    pub fn handle_packet(&mut self, p: Packet, dropped: bool) -> (acts: Vec<DroneAction>)
        requires
            drone_receivable(p@),
        ensures
            final(self).id == old(self).id,
            final(self).neighbours@ == old(self).neighbours@,
            match p@.pack_type {
                PacketTypeView::FloodRequest(f) => {
                    let seen = old(self).has_seen(f.initiator_id, f.flood_id);
                    &&& final(self).already_visited@ == if seen {
                        old(self).already_visited@
                    } else {
                        old(self).already_visited@.push((f.initiator_id, f.flood_id))
                    }
                    &&& actions_view(acts@) == if seen {
                        forward_actions(old(self).neighbours@, flood_response_for(old(self).id, p@.session_id, f))
                    } else {
                        broadcast_actions(old(self).neighbours@, f.path_trace.last().0, extended_request(old(self).id, p@, f))
                    }
                },
                PacketTypeView::MsgFragment(_) => {
                    &&& final(self).already_visited@ == old(self).already_visited@
                    &&& actions_view(acts@) == fragment_actions(old(self).id, old(self).neighbours@, p@, dropped)
                },
                _ => {
                    &&& final(self).already_visited@ == old(self).already_visited@
                    &&& actions_view(acts@) == forward_actions(old(self).neighbours@, p@)
                },
            },
    {
        match &p.pack_type {
            PacketType::FloodRequest(_) => self.handle_flood_request(p),
            PacketType::MsgFragment(_) => self.handle_msg_fragment(p, dropped),
            _ => self.forward_packet(p),
        }
    }

    /// What a crashing drone does with a packet still in its queue: service
    /// packets are forwarded, flood requests are dropped, and fragments are
    /// answered with an ErrorInRouting nack naming this drone.
    pub fn crash_packet(&self, p: Packet) -> (acts: Vec<DroneAction>)
        requires
            drone_receivable(p@),
        ensures
            actions_view(acts@) == match p@.pack_type {
                PacketTypeView::FloodRequest(_) => Seq::<DroneActionView>::empty(),
                PacketTypeView::MsgFragment(_) => forward_actions(
                    self.neighbours@,
                    nack_for(p@, NackType::ErrorInRouting(self.id)),
                ),
                _ => forward_actions(self.neighbours@, p@),
            },
    {
        match &p.pack_type {
            PacketType::FloodRequest(_) => {
                let acts: Vec<DroneAction> = Vec::new();
                assert(actions_view(acts@) =~= Seq::<DroneActionView>::empty());
                acts
            },
            PacketType::MsgFragment(_) => {
                let nack = create_nack(&p, NackType::ErrorInRouting(self.id));
                self.forward_packet(nack)
            },
            _ => self.forward_packet(p),
        }
    }

    /// Ends a crash: the drone forgets all its neighbours.
    pub fn finish_crash(&mut self)
        ensures
            final(self).neighbours@ == Seq::<NodeId>::empty(),
            final(self).id == old(self).id,
            final(self).already_visited@ == old(self).already_visited@,
            final(self).well_formed(),
    {
        self.neighbours.clear();
    }
}

/// `res` holds the items of `input` in reverse order, each a clone of the
/// item it mirrors.
pub open spec fn is_reversed_clone<T: Clone>(input: Seq<T>, res: Seq<T>) -> bool {
    &&& res.len() == input.len()
    &&& forall|i: int| 0 <= i < input.len() ==> cloned::<T>(input[input.len() - 1 - i], #[trigger] res[i])
}

/// Cloning a `T` gives a value equal to the original.
pub open spec fn clone_is_copy<T: Clone>() -> bool {
    forall|a: T, b: T| #[trigger] cloned::<T>(a, b) ==> a == b
}

/// The items of `input` in reverse order, each one cloned; for items whose
/// clone equals the original, exactly the reversed sequence.
pub fn reverse_vector<T: Clone>(input: &[T]) -> (res: Vec<T>)
    ensures
        is_reversed_clone(input@, res@),
        clone_is_copy::<T>() ==> res@ == input@.reverse(),
{
    let mut res: Vec<T> = Vec::new();
    let mut i: usize = input.len();
    while i > 0
        invariant
            i <= input@.len(),
            res@.len() == input@.len() - i,
            forall|j: int| 0 <= j < res@.len() ==> cloned::<T>(input@[input@.len() - 1 - j], #[trigger] res@[j]),
        decreases i,
    {
        i = i - 1;
        let item = input[i].clone();
        res.push(item);
    }
    proof {
        if clone_is_copy::<T>() {
            assert forall|j: int| 0 <= j < res@.len() implies res@[j] == input@.reverse()[j] by {
                assert(cloned::<T>(input@[input@.len() - 1 - j], res@[j]));
            }
            assert(res@ =~= input@.reverse());
        }
    }
    res
}

/// Reversing twice (as `reverse_vector` does) gives the input back, for
/// items whose clone equals the original.
pub proof fn lemma_reverse_twice<T: Clone>(input: Seq<T>, once: Seq<T>, twice: Seq<T>)
    requires
        clone_is_copy::<T>(),
        is_reversed_clone(input, once),
        is_reversed_clone(once, twice),
    ensures
        twice == input,
{
    let n = input.len() as int;
    assert forall|i: int| 0 <= i < n implies twice[i] == input[i] by {
        let j = n - 1 - i;
        assert(cloned::<T>(once[j], twice[i]));
        assert(cloned::<T>(input[n - 1 - j], once[j]));
        assert(n - 1 - j == i);
    }
    assert(twice =~= input);
}

/// Node ids are copied when cloned.
pub proof fn lemma_ids_clone_is_copy()
    ensures
        clone_is_copy::<NodeId>(),
{
    assert forall|a: NodeId, b: NodeId| #[trigger] cloned::<NodeId>(a, b) implies a == b by {}
}

/// For node ids, reversing twice (as `reverse_vector` does) gives the ids back.
pub proof fn lemma_reverse_ids_twice(input: Seq<NodeId>, once: Seq<NodeId>, twice: Seq<NodeId>)
    requires
        is_reversed_clone(input, once),
        is_reversed_clone(once, twice),
    ensures
        twice == input,
{
    lemma_ids_clone_is_copy();
    lemma_reverse_twice(input, once, twice);
}

/// Whether a packet is an ack, a nack or a flood response.
pub fn is_service(t: &PacketType) -> (res: bool)
    ensures
        res == is_service_packet(t@),
{
    match t {
        PacketType::Ack(_) | PacketType::Nack(_) | PacketType::FloodResponse(_) => true,
        _ => false,
    }
}


/// Adding a neighbour the drone did not have and removing it again leaves
/// its neighbours as they were.
pub proof fn lemma_add_then_remove_sender(neighbours: Seq<NodeId>, node_id: NodeId)
    requires
        !neighbours.contains(node_id),
    ensures
        crate::ids::without_id(neighbours.push(node_id), node_id) == neighbours,
{
    crate::ids::lemma_without_push(neighbours, node_id);
    crate::ids::lemma_without_absent(neighbours, node_id);
}


/// Every packet in `acts` goes to one of `neighbours`.
pub open spec fn sends_to_neighbours(acts: Seq<DroneActionView>, neighbours: Seq<NodeId>) -> bool {
    forall|i: int|
        0 <= i < acts.len() ==> match #[trigger] acts[i] {
            DroneActionView::Forward(n, _) => neighbours.contains(n),
            DroneActionView::Send(n, _) => neighbours.contains(n),
            DroneActionView::Notify(_) => true,
        }
}

proof fn lemma_broadcast_to_neighbours(neighbours: Seq<NodeId>, previous: NodeId, p: PacketView)
    ensures
        sends_to_neighbours(broadcast_actions(neighbours, previous, p), neighbours),
    decreases neighbours.len(),
{
    if neighbours.len() > 0 {
        let rest = neighbours.drop_last();
        lemma_broadcast_to_neighbours(rest, previous, p);
        let acts = broadcast_actions(neighbours, previous, p);
        let before = broadcast_actions(rest, previous, p);
        assert forall|i: int| 0 <= i < acts.len() implies match #[trigger] acts[i] {
            DroneActionView::Forward(n, _) => neighbours.contains(n),
            DroneActionView::Send(n, _) => neighbours.contains(n),
            DroneActionView::Notify(_) => true,
        } by {
            if i < before.len() {
                assert(acts[i] == before[i]);
                match before[i] {
                    DroneActionView::Forward(n, _) => {
                        let j = choose|j: int| 0 <= j < rest.len() && rest[j] == n;
                        assert(neighbours[j] == n);
                    },
                    DroneActionView::Send(n, _) => {
                        let j = choose|j: int| 0 <= j < rest.len() && rest[j] == n;
                        assert(neighbours[j] == n);
                    },
                    _ => {},
                }
            } else {
                assert(neighbours[neighbours.len() - 1] == neighbours.last());
            }
        }
    }
}

/// Whatever packet a drone handles, and whatever the drop test says, it
/// sends packets only to its neighbours.
pub proof fn lemma_drone_sends_only_to_neighbours(me: NodeId, neighbours: Seq<NodeId>, p: PacketView, dropped: bool)
    ensures
        sends_to_neighbours(forward_actions(neighbours, p), neighbours),
        sends_to_neighbours(fragment_actions(me, neighbours, p, dropped), neighbours),
        sends_to_neighbours(broadcast_actions(neighbours, me, p), neighbours),
        p.pack_type is FloodRequest ==> sends_to_neighbours(
            broadcast_actions(
                neighbours,
                p.pack_type->FloodRequest_0.path_trace.last().0,
                extended_request(me, p, p.pack_type->FloodRequest_0),
            ),
            neighbours,
        ),
{
    lemma_broadcast_to_neighbours(neighbours, me, p);
    if p.pack_type is FloodRequest {
        lemma_broadcast_to_neighbours(
            neighbours,
            p.pack_type->FloodRequest_0.path_trace.last().0,
            extended_request(me, p, p.pack_type->FloodRequest_0),
        );
    }
}

} // verus!
