use vstd::prelude::*;

verus! {

/// Identifier of a node in the simulated network.
pub type NodeId = u8;

/// Number of payload bytes a single fragment carries.
pub const FRAGMENT_DSIZE: usize = 128;

/// The role a node plays in a flood path trace.
#[derive(Clone, Copy, Debug, PartialEq, Eq, Structural)]
pub enum NodeKind {
    Client,
    Drone,
    Server,
}

/// Source routing: the full list of hops and the position of the current hop.
#[derive(Debug)]
pub struct SourceRoutingHeader {
    pub hop_index: usize,
    pub hops: Vec<NodeId>,
}

/// One slice of a serialized message.
#[derive(Clone, Copy, Debug)]
pub struct Fragment {
    pub fragment_index: u64,
    pub total_n_fragments: u64,
    pub length: u8,
    pub data: [u8; 128],
}

/// Why a packet could not be delivered.
#[derive(Clone, Copy, Debug, PartialEq, Eq, Structural)]
pub enum NackType {
    ErrorInRouting(NodeId),
    DestinationIsDrone,
    Dropped,
    UnexpectedRecipient(NodeId),
}

#[derive(Clone, Copy, Debug)]
pub struct Nack {
    pub fragment_index: u64,
    pub nack_type: NackType,
}

#[derive(Clone, Copy, Debug)]
pub struct Ack {
    pub fragment_index: u64,
}

#[derive(Debug)]
pub struct FloodRequest {
    pub flood_id: u64,
    pub initiator_id: NodeId,
    pub path_trace: Vec<(NodeId, NodeKind)>,
}

#[derive(Debug)]
pub struct FloodResponse {
    pub flood_id: u64,
    pub path_trace: Vec<(NodeId, NodeKind)>,
}

#[derive(Debug)]
pub enum PacketType {
    MsgFragment(Fragment),
    Ack(Ack),
    Nack(Nack),
    FloodRequest(FloodRequest),
    FloodResponse(FloodResponse),
}

#[derive(Debug)]
pub struct Packet {
    pub pack_type: PacketType,
    pub routing_header: SourceRoutingHeader,
    pub session_id: u64,
}

// ---------------------------------------------------------------------------
// Mathematical models
// ---------------------------------------------------------------------------

pub struct RouteView {
    pub hop_index: usize,
    pub hops: Seq<NodeId>,
}

pub struct FloodRequestView {
    pub flood_id: u64,
    pub initiator_id: NodeId,
    pub path_trace: Seq<(NodeId, NodeKind)>,
}

pub struct FloodResponseView {
    pub flood_id: u64,
    pub path_trace: Seq<(NodeId, NodeKind)>,
}

pub enum PacketTypeView {
    MsgFragment(Fragment),
    Ack(Ack),
    Nack(Nack),
    FloodRequest(FloodRequestView),
    FloodResponse(FloodResponseView),
}

pub struct PacketView {
    pub pack_type: PacketTypeView,
    pub routing_header: RouteView,
    pub session_id: u64,
}

impl View for SourceRoutingHeader {
    type V = RouteView;

    open spec fn view(&self) -> RouteView {
        RouteView { hop_index: self.hop_index, hops: self.hops@ }
    }
}

impl View for FloodRequest {
    type V = FloodRequestView;

    open spec fn view(&self) -> FloodRequestView {
        FloodRequestView {
            flood_id: self.flood_id,
            initiator_id: self.initiator_id,
            path_trace: self.path_trace@,
        }
    }
}

impl View for FloodResponse {
    type V = FloodResponseView;

    open spec fn view(&self) -> FloodResponseView {
        FloodResponseView { flood_id: self.flood_id, path_trace: self.path_trace@ }
    }
}

impl View for PacketType {
    type V = PacketTypeView;

    open spec fn view(&self) -> PacketTypeView {
        match self {
            PacketType::MsgFragment(f) => PacketTypeView::MsgFragment(*f),
            PacketType::Ack(a) => PacketTypeView::Ack(*a),
            PacketType::Nack(n) => PacketTypeView::Nack(*n),
            PacketType::FloodRequest(r) => PacketTypeView::FloodRequest(r@),
            PacketType::FloodResponse(r) => PacketTypeView::FloodResponse(r@),
        }
    }
}

impl View for Packet {
    type V = PacketView;

    open spec fn view(&self) -> PacketView {
        PacketView {
            pack_type: self.pack_type@,
            routing_header: self.routing_header@,
            session_id: self.session_id,
        }
    }
}

/// The fragment index a packet refers to: the fragment's own index, or 0
/// for packets that are not message fragments.
pub open spec fn fragment_index_of(t: PacketTypeView) -> u64 {
    match t {
        PacketTypeView::MsgFragment(f) => f.fragment_index,
        _ => 0,
    }
}

/// The hop ids of a path trace, in order.
pub open spec fn trace_ids(trace: Seq<(NodeId, NodeKind)>) -> Seq<NodeId> {
    trace.map_values(|p: (NodeId, NodeKind)| p.0)
}

/// Whether the packet is one that a drone forwards without inspection.
pub open spec fn is_service_packet(t: PacketTypeView) -> bool {
    t is Ack || t is Nack || t is FloodResponse
}

// ---------------------------------------------------------------------------
// Copies
// ---------------------------------------------------------------------------

/// Copies a vector of node ids.
pub fn copy_ids(v: &Vec<NodeId>) -> (res: Vec<NodeId>)
    ensures
        res@ == v@,
{
    let mut res: Vec<NodeId> = Vec::new();
    let mut i: usize = 0;
    while i < v.len()
        invariant
            i <= v@.len(),
            res@ == v@.subrange(0, i as int),
        decreases v@.len() - i,
    {
        res.push(v[i]);
        i = i + 1;
        assert(res@ =~= v@.subrange(0, i as int));
    }
    assert(v@.subrange(0, v@.len() as int) =~= v@);
    res
}

/// Copies a path trace.
pub fn copy_trace(v: &Vec<(NodeId, NodeKind)>) -> (res: Vec<(NodeId, NodeKind)>)
    ensures
        res@ == v@,
{
    let mut res: Vec<(NodeId, NodeKind)> = Vec::new();
    let mut i: usize = 0;
    while i < v.len()
        invariant
            i <= v@.len(),
            res@ == v@.subrange(0, i as int),
        decreases v@.len() - i,
    {
        let (a, b) = v[i];
        res.push((a, b));
        i = i + 1;
        assert(res@ =~= v@.subrange(0, i as int));
    }
    assert(v@.subrange(0, v@.len() as int) =~= v@);
    res
}

impl SourceRoutingHeader {
    pub fn new(hops: Vec<NodeId>, hop_index: usize) -> (res: SourceRoutingHeader)
        ensures
            res@ == (RouteView { hop_index, hops: hops@ }),
    {
        SourceRoutingHeader { hop_index, hops }
    }

    /// A header with no hops.
    pub fn empty_route() -> (res: SourceRoutingHeader)
        ensures
            res@ == (RouteView { hop_index: 0, hops: Seq::empty() }),
    {
        SourceRoutingHeader { hop_index: 0, hops: Vec::new() }
    }

    pub fn duplicate(&self) -> (res: SourceRoutingHeader)
        ensures
            res@ == self@,
    {
        SourceRoutingHeader { hop_index: self.hop_index, hops: copy_ids(&self.hops) }
    }
}

impl FloodRequest {
    pub fn duplicate(&self) -> (res: FloodRequest)
        ensures
            res@ == self@,
    {
        FloodRequest {
            flood_id: self.flood_id,
            initiator_id: self.initiator_id,
            path_trace: copy_trace(&self.path_trace),
        }
    }

    /// The flood response for this request: the path trace is kept, and the
    /// route runs back along it, starting at the last node of the trace.
    pub fn generate_response(&self, session_id: u64) -> (res: Packet)
        ensures
            res@ == (PacketView {
                pack_type: PacketTypeView::FloodResponse(
                    FloodResponseView { flood_id: self.flood_id, path_trace: self.path_trace@ },
                ),
                routing_header: RouteView {
                    hop_index: 0,
                    hops: trace_ids(self.path_trace@).reverse(),
                },
                session_id,
            }),
    {
        let mut hops: Vec<NodeId> = Vec::new();
        let mut i: usize = self.path_trace.len();
        while i > 0
            invariant
                i <= self.path_trace@.len(),
                hops@ == trace_ids(self.path_trace@.subrange(i as int, self.path_trace@.len() as int)).reverse(),
            decreases i,
        {
            i = i - 1;
            let (id, _) = self.path_trace[i];
            hops.push(id);
            assert(hops@ =~= trace_ids(self.path_trace@.subrange(i as int, self.path_trace@.len() as int)).reverse());
        }
        assert(self.path_trace@.subrange(0, self.path_trace@.len() as int) =~= self.path_trace@);
        Packet {
            pack_type: PacketType::FloodResponse(
                FloodResponse { flood_id: self.flood_id, path_trace: copy_trace(&self.path_trace) },
            ),
            routing_header: SourceRoutingHeader { hop_index: 0, hops },
            session_id,
        }
    }
}

impl FloodResponse {
    pub fn duplicate(&self) -> (res: FloodResponse)
        ensures
            res@ == self@,
    {
        FloodResponse { flood_id: self.flood_id, path_trace: copy_trace(&self.path_trace) }
    }
}

impl PacketType {
    pub fn duplicate(&self) -> (res: PacketType)
        ensures
            res@ == self@,
    {
        match self {
            PacketType::MsgFragment(f) => PacketType::MsgFragment(*f),
            PacketType::Ack(a) => PacketType::Ack(*a),
            PacketType::Nack(n) => PacketType::Nack(*n),
            PacketType::FloodRequest(r) => PacketType::FloodRequest(r.duplicate()),
            PacketType::FloodResponse(r) => PacketType::FloodResponse(r.duplicate()),
        }
    }
}

impl Packet {
    pub fn duplicate(&self) -> (res: Packet)
        ensures
            res@ == self@,
    {
        Packet {
            pack_type: self.pack_type.duplicate(),
            routing_header: self.routing_header.duplicate(),
            session_id: self.session_id,
        }
    }

    pub fn new_ack(routing_header: SourceRoutingHeader, session_id: u64, fragment_index: u64) -> (res: Packet)
        ensures
            res@ == (PacketView {
                pack_type: PacketTypeView::Ack(Ack { fragment_index }),
                routing_header: routing_header@,
                session_id,
            }),
    {
        Packet { pack_type: PacketType::Ack(Ack { fragment_index }), routing_header, session_id }
    }

    pub fn new_nack(routing_header: SourceRoutingHeader, session_id: u64, nack: Nack) -> (res: Packet)
        ensures
            res@ == (PacketView {
                pack_type: PacketTypeView::Nack(nack),
                routing_header: routing_header@,
                session_id,
            }),
    {
        Packet { pack_type: PacketType::Nack(nack), routing_header, session_id }
    }

    pub fn new_fragment(routing_header: SourceRoutingHeader, session_id: u64, fragment: Fragment) -> (res: Packet)
        ensures
            res@ == (PacketView {
                pack_type: PacketTypeView::MsgFragment(fragment),
                routing_header: routing_header@,
                session_id,
            }),
    {
        Packet { pack_type: PacketType::MsgFragment(fragment), routing_header, session_id }
    }

    pub fn new_flood_request(routing_header: SourceRoutingHeader, session_id: u64, flood_request: FloodRequest) -> (res: Packet)
        ensures
            res@ == (PacketView {
                pack_type: PacketTypeView::FloodRequest(flood_request@),
                routing_header: routing_header@,
                session_id,
            }),
    {
        Packet { pack_type: PacketType::FloodRequest(flood_request), routing_header, session_id }
    }

    /// The fragment index this packet refers to (0 unless it is a fragment).
    pub fn fragment_index(&self) -> (res: u64)
        ensures
            res == fragment_index_of(self.pack_type@),
    {
        match &self.pack_type {
            PacketType::MsgFragment(f) => f.fragment_index,
            _ => 0,
        }
    }
}

/// The route of a nack: the hops travelled so far, walked backwards from the
/// current hop to the source.
pub open spec fn nack_route(route: RouteView) -> Seq<NodeId> {
    route.hops.subrange(0, route.hop_index as int + 1).reverse()
}

/// Builds the nack a drone sends back for `packet`: it travels the hops
/// already taken in reverse, starting at index 0, and names the fragment the
/// packet carried (0 for other packets).
pub fn create_nack(packet: &Packet, nack_type: NackType) -> (res: Packet)
    requires
        packet@.routing_header.hop_index < packet@.routing_header.hops.len(),
    ensures
        res@ == (PacketView {
            pack_type: PacketTypeView::Nack(
                Nack { fragment_index: fragment_index_of(packet@.pack_type), nack_type },
            ),
            routing_header: RouteView { hop_index: 0, hops: nack_route(packet@.routing_header) },
            session_id: packet@.session_id,
        }),
{
    let hops = &packet.routing_header.hops;
    let top = packet.routing_header.hop_index;
    let n = hops.len();
    assert(top < n);
    let mut back: Vec<NodeId> = Vec::new();
    let mut i: usize = top + 1;
    while i > 0
        invariant
            top < hops@.len(),
            i <= top + 1,
            back@ == hops@.subrange(i as int, top + 1).reverse(),
        decreases i,
    {
        i = i - 1;
        back.push(hops[i]);
        assert(back@ =~= hops@.subrange(i as int, top + 1).reverse());
    }
    let nack = Nack { fragment_index: packet.fragment_index(), nack_type };
    Packet {
        pack_type: PacketType::Nack(nack),
        routing_header: SourceRoutingHeader { hop_index: 0, hops: back },
        session_id: packet.session_id,
    }
}

/// Builds the ack a client sends for a received packet: the whole route
/// reversed, starting at index 0, naming the received fragment.
pub fn create_ack(packet: &Packet) -> (res: Packet)
    ensures
        res@ == (PacketView {
            pack_type: PacketTypeView::Ack(Ack { fragment_index: fragment_index_of(packet@.pack_type) }),
            routing_header: RouteView { hop_index: 0, hops: packet@.routing_header.hops.reverse() },
            session_id: packet@.session_id,
        }),
{
    let hops = &packet.routing_header.hops;
    let mut back: Vec<NodeId> = Vec::new();
    let mut i: usize = hops.len();
    while i > 0
        invariant
            i <= hops@.len(),
            back@ == hops@.subrange(i as int, hops@.len() as int).reverse(),
        decreases i,
    {
        i = i - 1;
        back.push(hops[i]);
        assert(back@ =~= hops@.subrange(i as int, hops@.len() as int).reverse());
    }
    assert(hops@.subrange(0, hops@.len() as int) =~= hops@);
    Packet::new_ack(SourceRoutingHeader::new(back, 0), packet.session_id, packet.fragment_index())
}


/// The acknowledgement a client sends for a received packet, with the hop it
/// goes to: the hop before the client on the packet's route. The ack runs the
/// whole route backwards and leaves with its hop index at 1, as sending
/// moves it on by one.
pub fn ack_for(packet: &Packet) -> (res: (NodeId, Packet))
    requires
        1 <= packet@.routing_header.hop_index <= packet@.routing_header.hops.len(),
    ensures
        res.0 == packet@.routing_header.hops[packet@.routing_header.hop_index - 1],
        res.1@ == (PacketView {
            pack_type: PacketTypeView::Ack(Ack { fragment_index: fragment_index_of(packet@.pack_type) }),
            routing_header: RouteView { hop_index: 1, hops: packet@.routing_header.hops.reverse() },
            session_id: packet@.session_id,
        }),
{
    let previous = packet.routing_header.hops[packet.routing_header.hop_index - 1];
    let mut ack = create_ack(packet);
    ack.routing_header.hop_index = 1;
    (previous, ack)
}

/// A nack goes back the way its packet came: it starts at the node that
/// makes it and ends at the packet's source, over the hops already taken.
pub proof fn lemma_nack_route_goes_back(route: RouteView)
    requires
        route.hop_index < route.hops.len(),
    ensures
        nack_route(route).len() == route.hop_index + 1,
        nack_route(route)[0] == route.hops[route.hop_index as int],
        nack_route(route).last() == route.hops[0],
        forall|i: int| 0 <= i <= route.hop_index ==> #[trigger] nack_route(route)[i] == route.hops[route.hop_index - i],
{
}

/// A reversed route (that of an ack or a flood response) starts where the
/// route ended and ends where it started; reversing it again gives the route
/// back.
pub proof fn lemma_reversed_route(hops: Seq<NodeId>)
    requires
        hops.len() > 0,
    ensures
        hops.reverse()[0] == hops.last(),
        hops.reverse().last() == hops[0],
        hops.reverse().reverse() == hops,
{
    assert(hops.reverse().reverse() =~= hops);
}

} // verus!
