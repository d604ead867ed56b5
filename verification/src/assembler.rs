use vstd::prelude::*;
use crate::packet::{Fragment, NodeId, Packet, PacketTypeView, PacketView, RouteView, SourceRoutingHeader};

verus! {

/// Delivery statistics of a node, as seen by a client: how many of the
/// fragments routed through it were acknowledged and how many were dropped.
#[derive(Clone, Copy, Debug, PartialEq, Eq, Structural)]
pub struct NodeData {
    pub forwarded: u32,
    pub dropped: u32,
}

impl NodeData {
    pub fn new() -> (res: NodeData)
        ensures
            res == (NodeData { forwarded: 0, dropped: 0 }),
    {
        NodeData { forwarded: 0, dropped: 0 }
    }

    /// Forgets the statistics.
    pub fn reset(&mut self)
        ensures
            *final(self) == (NodeData { forwarded: 0, dropped: 0 }),
    {
        self.forwarded = 0;
        self.dropped = 0;
    }
}


/// The packet carrying fragment `f` of session `session_id` along `path`, from its start.
pub open spec fn fragment_packet(f: Fragment, path: Seq<NodeId>, session_id: u64) -> PacketView {
    PacketView {
        pack_type: PacketTypeView::MsgFragment(f),
        routing_header: RouteView { hop_index: 0, hops: path },
        session_id,
    }
}

/// One packet per fragment, in order, each routed along `path` from its start.
pub fn create_packet(fragments: &Vec<Fragment>, path: &Vec<NodeId>, session_id: u64) -> (res: Vec<Packet>)
    ensures
        res@.len() == fragments@.len(),
        forall|i: int| 0 <= i < res@.len() ==> (#[trigger] res@[i])@ == fragment_packet(fragments@[i], path@, session_id),
{
    let mut res: Vec<Packet> = Vec::new();
    let mut i: usize = 0;
    while i < fragments.len()
        invariant
            i <= fragments@.len(),
            res@.len() == i,
            forall|j: int| 0 <= j < i ==> (#[trigger] res@[j])@ == fragment_packet(fragments@[j], path@, session_id),
        decreases fragments@.len() - i,
    {
        let header = SourceRoutingHeader::new(crate::packet::copy_ids(path), 0);
        res.push(Packet::new_fragment(header, session_id, fragments[i]));
        i = i + 1;
    }
    res
}

/// The first fragment with the given index, if any.
pub fn find_fragment(fragments: &Vec<Fragment>, index: u64) -> (res: Option<Fragment>)
    ensures
        res matches Some(f) ==> f.fragment_index == index && exists|i: int|
            0 <= i < fragments@.len() && fragments@[i] == f && forall|j: int| 0 <= j < i ==> (#[trigger] fragments@[j]).fragment_index != index,
        res is None <==> forall|i: int| 0 <= i < fragments@.len() ==> (#[trigger] fragments@[i]).fragment_index != index,
{
    let mut i: usize = 0;
    while i < fragments.len()
        invariant
            i <= fragments@.len(),
            forall|j: int| 0 <= j < i ==> (#[trigger] fragments@[j]).fragment_index != index,
        decreases fragments@.len() - i,
    {
        if fragments[i].fragment_index == index {
            assert(fragments@[i as int] == fragments[i as int]);
            return Some(fragments[i]);
        }
        i = i + 1;
    }
    None
}


/// The number of fragments a message of `n` bytes is cut into.
pub open spec fn fragment_count(n: nat) -> nat {
    n / 128 + if n % 128 == 0 { 0nat } else { 1nat }
}

/// The bytes of fragment `i` of a message: bytes `128 * i` up to `128 * (i + 1)`, or to the end.
pub open spec fn chunk_of(bytes: Seq<u8>, i: int) -> Seq<u8> {
    let start = 128 * i;
    let end = if start + 128 < bytes.len() { start + 128 } else { bytes.len() as int };
    bytes.subrange(start, end)
}

/// Fragment `f` carries `payload`: its length, the payload at the start of
/// its data, and zeros after it.
pub open spec fn carries(f: Fragment, payload: Seq<u8>) -> bool {
    &&& payload.len() <= 128
    &&& f.length == payload.len()
    &&& f.data@.subrange(0, payload.len() as int) == payload
    &&& forall|k: int| payload.len() <= k < 128 ==> f.data@[k] == 0
}

/// The payload of a fragment: the first `length` bytes of its data.
pub open spec fn payload(f: Fragment) -> Seq<u8> {
    f.data@.subrange(0, f.length as int)
}

/// The payloads of the fragments, one after the other.
pub open spec fn concat_payloads(s: Seq<Fragment>) -> Seq<u8>
    decreases s.len(),
{
    if s.len() == 0 {
        Seq::empty()
    } else {
        concat_payloads(s.drop_last()) + payload(s.last())
    }
}

/// A fragment of a message: index `fragment_index` of `total_n_fragments`,
/// carrying `chunk` (at most 128 bytes).
pub fn fragment_from_bytes(fragment_index: u64, total_n_fragments: u64, chunk: &[u8]) -> (f: Fragment)
    requires
        chunk@.len() <= 128,
    ensures
        f.fragment_index == fragment_index,
        f.total_n_fragments == total_n_fragments,
        carries(f, chunk@),
{
    let mut data: [u8; 128] = [0u8; 128];
    let mut i: usize = 0;
    while i < chunk.len()
        invariant
            chunk@.len() <= 128,
            i <= chunk@.len(),
            forall|k: int| 0 <= k < i ==> data@[k] == chunk@[k],
            forall|k: int| chunk@.len() <= k < 128 ==> data@[k] == 0,
        decreases chunk@.len() - i,
    {
        data[i] = chunk[i];
        i = i + 1;
    }
    let f = Fragment { fragment_index, total_n_fragments, length: chunk.len() as u8, data };
    assert(f.data@.subrange(0, chunk@.len() as int) =~= chunk@);
    f
}

/// Cuts a serialized message into fragments of 128 bytes (the last one may be
/// shorter), indexed from 0 in order, each knowing the total.
pub fn fragment_message(bytes: &Vec<u8>) -> (fragments: Vec<Fragment>)
    ensures
        fragments@.len() == fragment_count(bytes@.len()),
        forall|i: int|
            0 <= i < fragments@.len() ==> {
                &&& (#[trigger] fragments@[i]).fragment_index == i
                &&& fragments@[i].total_n_fragments == fragment_count(bytes@.len())
                &&& carries(fragments@[i], chunk_of(bytes@, i))
            },
{
    let n = bytes.len();
    let total: usize = n / 128 + if n % 128 == 0 { 0 } else { 1 };
    let mut fragments: Vec<Fragment> = Vec::new();
    let mut f: usize = 0;
    while f < total
        invariant
            n == bytes@.len(),
            total == fragment_count(n as nat),
            f <= total,
            fragments@.len() == f,
            forall|i: int|
                0 <= i < f ==> {
                    &&& (#[trigger] fragments@[i]).fragment_index == i
                    &&& fragments@[i].total_n_fragments == total
                    &&& carries(fragments@[i], chunk_of(bytes@, i))
                },
        decreases total - f,
    {
        assert(f * 128 < n) by (nonlinear_arith)
            requires f < total, total == n / 128 + if n % 128 == 0 { 0int } else { 1int };
        let start = f * 128;
        let end = if n - start > 128 { start + 128 } else { n };
        let chunk = slice_of(bytes.as_slice(), start, end);
        let frag = fragment_from_bytes(f as u64, total as u64, chunk);
        fragments.push(frag);
        f = f + 1;
    }
    fragments
}

/// Reassembling the fragments that `fragment_message` cuts a message into
/// gives the message back.
pub proof fn lemma_fragment_round_trip(bytes: Seq<u8>, frags: Seq<Fragment>)
    requires
        frags.len() == fragment_count(bytes.len()),
        forall|i: int| 0 <= i < frags.len() ==> carries(#[trigger] frags[i], chunk_of(bytes, i)),
    ensures
        concat_payloads(frags) == bytes,
{
    let n = frags.len() as int;
    assert forall|k: int| 0 <= k <= n implies #[trigger] concat_payloads(frags.subrange(0, k))
        == bytes.subrange(0, if 128 * k < bytes.len() { 128 * k } else { bytes.len() as int }) by {
        lemma_prefix_payloads(bytes, frags, k);
    }
    assert(frags.subrange(0, n) =~= frags);
    assert(128 * n >= bytes.len());
    assert(bytes.subrange(0, bytes.len() as int) =~= bytes);
}

proof fn lemma_prefix_payloads(bytes: Seq<u8>, frags: Seq<Fragment>, k: int)
    requires
        frags.len() == fragment_count(bytes.len()),
        forall|i: int| 0 <= i < frags.len() ==> carries(#[trigger] frags[i], chunk_of(bytes, i)),
        0 <= k <= frags.len(),
    ensures
        concat_payloads(frags.subrange(0, k))
            == bytes.subrange(0, if 128 * k < bytes.len() { 128 * k } else { bytes.len() as int }),
    decreases k,
{
    if k == 0 {
        assert(frags.subrange(0, 0) =~= Seq::<Fragment>::empty());
        assert(bytes.subrange(0, 0) =~= Seq::<u8>::empty());
    } else {
        lemma_prefix_payloads(bytes, frags, k - 1);
        let pre = frags.subrange(0, k);
        assert(pre.drop_last() =~= frags.subrange(0, k - 1));
        assert(pre.last() == frags[k - 1]);
        let c = chunk_of(bytes, k - 1);
        assert(carries(frags[k - 1], c));
        assert(payload(frags[k - 1]) == c);
        assert(128 * (k - 1) < bytes.len());
        assert(bytes.subrange(0, 128 * (k - 1)) + c
            =~= bytes.subrange(0, if 128 * k < bytes.len() { 128 * k } else { bytes.len() as int }));
    }
}

/// `s[start..end]`.
pub fn slice_of(s: &[u8], start: usize, end: usize) -> (res: &[u8])
    requires
        start <= end <= s@.len(),
    ensures
        res@ == s@.subrange(start as int, end as int),
{
    vstd::slice::slice_subrange(s, start, end)
}

/// The payloads of the fragments, one after the other.
pub fn reassemble(fragments: &Vec<Fragment>) -> (bytes: Vec<u8>)
    requires
        forall|i: int| 0 <= i < fragments@.len() ==> (#[trigger] fragments@[i]).length <= 128,
    ensures
        bytes@ == concat_payloads(fragments@),
{
    let mut bytes: Vec<u8> = Vec::new();
    let mut i: usize = 0;
    while i < fragments.len()
        invariant
            i <= fragments@.len(),
            forall|j: int| 0 <= j < fragments@.len() ==> (#[trigger] fragments@[j]).length <= 128,
            bytes@ == concat_payloads(fragments@.subrange(0, i as int)),
        decreases fragments@.len() - i,
    {
        let f = fragments[i];
        let ghost before = bytes@;
        let mut k: usize = 0;
        let len = f.length as usize;
        assert(len <= 128);
        while k < len
            invariant
                len == f.length,
                len <= 128,
                k <= len,
                bytes@ == before + f.data@.subrange(0, k as int),
            decreases len - k,
        {
            bytes.push(f.data[k]);
            k = k + 1;
            assert(bytes@ =~= before + f.data@.subrange(0, k as int));
        }
        proof {
            assert(fragments@.subrange(0, i as int + 1).drop_last() =~= fragments@.subrange(0, i as int));
        }
        i = i + 1;
    }
    assert(fragments@.subrange(0, fragments@.len() as int) =~= fragments@);
    bytes
}


/// Fragments in strictly increasing order of index.
pub open spec fn sorted_by_index(s: Seq<Fragment>) -> bool {
    forall|i: int, j: int| 0 <= i < j < s.len() ==> s[i].fragment_index < s[j].fragment_index
}

/// Where a fragment with index `k` belongs in sorted fragments: after all
/// smaller indices, before all others.
pub open spec fn insertion_point(s: Seq<Fragment>, k: u64) -> int {
    choose|p: int| is_insertion_point(s, k, p)
}

pub open spec fn is_insertion_point(s: Seq<Fragment>, k: u64, p: int) -> bool {
    &&& 0 <= p <= s.len()
    &&& forall|i: int| 0 <= i < p ==> s[i].fragment_index < k
    &&& forall|i: int| p <= i < s.len() ==> s[i].fragment_index >= k
}

/// Sorted fragments with `f` added: it replaces a fragment with the same
/// index, or goes where its index belongs.
pub open spec fn insert_fragment(s: Seq<Fragment>, f: Fragment) -> Seq<Fragment> {
    let p = insertion_point(s, f.fragment_index);
    if p < s.len() && s[p].fragment_index == f.fragment_index {
        s.update(p, f)
    } else {
        s.insert(p, f)
    }
}

/// Copies a list of fragments.
pub fn copy_fragments(v: &Vec<Fragment>) -> (res: Vec<Fragment>)
    ensures
        res@ == v@,
{
    let mut res: Vec<Fragment> = Vec::new();
    let mut i: usize = 0;
    while i < v.len()
        invariant
            i <= v@.len(),
            res@ == v@.subrange(0, i as int),
        decreases v@.len() - i,
    {
        res.push(v[i]);
        i = i + 1;
        assert(res@ =~= v@.subrange(0, i as int));
    }
    assert(v@.subrange(0, v@.len() as int) =~= v@);
    res
}

/// Adds a fragment to fragments sorted by index (see `insert_fragment`).
pub fn add_fragment(frags: &mut Vec<Fragment>, f: Fragment)
    requires
        sorted_by_index(old(frags)@),
    ensures
        final(frags)@ == insert_fragment(old(frags)@, f),
        sorted_by_index(final(frags)@),
        forall|i: int| 0 <= i < final(frags)@.len() ==> #[trigger] final(frags)@[i] == f || old(frags)@.contains(final(frags)@[i]),
{
    let ghost s = frags@;
    let k = f.fragment_index;
    let mut p: usize = 0;
    while p < frags.len() && frags[p].fragment_index < k
        invariant
            frags@ == s,
            p <= s.len(),
            forall|i: int| 0 <= i < p ==> s[i].fragment_index < k,
        decreases s.len() - p,
    {
        p = p + 1;
    }
    proof {
        assert forall|i: int| p <= i < s.len() implies s[i].fragment_index >= k by {
            if i > p {
                assert(s[p as int].fragment_index < s[i].fragment_index);
            }
        }
        assert(is_insertion_point(s, k, p as int));
        let q = insertion_point(s, k);
        assert(is_insertion_point(s, k, q));
        if q < p {
            assert(s[q].fragment_index < k);
        }
        if p < q {
            assert(s[p as int].fragment_index < k);
        }
        assert(q == p);
    }
    if p < frags.len() && frags[p].fragment_index == k {
        frags.set(p, f);
        proof {
            assert forall|i: int| 0 <= i < frags@.len() implies #[trigger] frags@[i] == f || s.contains(frags@[i]) by {
                if i != p {
                    assert(frags@[i] == s[i]);
                }
            }
        }
    } else {
        frags.insert(p, f);
        proof {
            assert forall|i: int, j: int| 0 <= i < j < frags@.len() implies frags@[i].fragment_index < frags@[j].fragment_index by {
                if i < p && j > p {
                    assert(frags@[j] == s[j - 1]);
                } else if i < p && j == p {
                } else if i == p {
                    assert(frags@[j] == s[j - 1]);
                } else if i > p {
                    assert(frags@[i] == s[i - 1] && frags@[j] == s[j - 1]);
                }
            }
            assert forall|i: int| 0 <= i < frags@.len() implies #[trigger] frags@[i] == f || s.contains(frags@[i]) by {
                if i < p {
                    assert(frags@[i] == s[i]);
                } else if i > p {
                    assert(frags@[i] == s[i - 1]);
                }
            }
        }
    }
}

} // verus!
