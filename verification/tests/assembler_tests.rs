use rolling_drones::assembler::{
    add_fragment, create_packet, find_fragment, fragment_from_bytes, fragment_message, reassemble, NodeData,
};
use rolling_drones::packet::{Fragment, PacketType};

#[test]
fn node_data_starts_and_resets_at_zero() {
    let d = NodeData::new();
    assert_eq!(d, NodeData { forwarded: 0, dropped: 0 });
    let mut e = NodeData { forwarded: 4, dropped: 2 };
    e.reset();
    assert_eq!(e, NodeData::new());
}

#[test]
fn a_message_is_cut_into_128_byte_fragments() {
    let bytes: Vec<u8> = (0..300u32).map(|i| (i % 251) as u8).collect();
    let frags = fragment_message(&bytes);
    assert_eq!(frags.len(), 3);
    for (i, f) in frags.iter().enumerate() {
        assert_eq!(f.fragment_index, i as u64);
        assert_eq!(f.total_n_fragments, 3);
    }
    assert_eq!(frags[0].length, 128);
    assert_eq!(frags[1].length, 128);
    assert_eq!(frags[2].length, 44);
    assert_eq!(frags[2].data[43], bytes[299]);
    assert_eq!(frags[2].data[44], 0);
    assert_eq!(reassemble(&frags), bytes);
}

#[test]
fn round_trip_at_the_edges() {
    let empty: Vec<u8> = Vec::new();
    assert!(fragment_message(&empty).is_empty());
    assert_eq!(reassemble(&fragment_message(&empty)), empty);
    let exact = vec![9u8; 256];
    let frags = fragment_message(&exact);
    assert_eq!(frags.len(), 2);
    assert_eq!(frags[1].length, 128);
    assert_eq!(reassemble(&frags), exact);
    let one = vec![5u8];
    assert_eq!(reassemble(&fragment_message(&one)), one);
}

#[test]
fn fragments_are_kept_in_index_order() {
    let bytes: Vec<u8> = (0..400u32).map(|i| (i % 7) as u8).collect();
    let frags = fragment_message(&bytes);
    let mut got: Vec<Fragment> = Vec::new();
    add_fragment(&mut got, frags[3]);
    add_fragment(&mut got, frags[0]);
    add_fragment(&mut got, frags[2]);
    add_fragment(&mut got, frags[1]);
    add_fragment(&mut got, frags[2]);
    let order: Vec<u64> = got.iter().map(|f| f.fragment_index).collect();
    assert_eq!(order, vec![0, 1, 2, 3]);
    assert_eq!(reassemble(&got), bytes);
}

#[test]
fn a_fragment_holds_its_chunk_and_zeros() {
    let f = fragment_from_bytes(2, 5, &[1, 2, 3]);
    assert_eq!(f.fragment_index, 2);
    assert_eq!(f.total_n_fragments, 5);
    assert_eq!(f.length, 3);
    assert_eq!(&f.data[0..3], &[1, 2, 3]);
    assert!(f.data[3..].iter().all(|b| *b == 0));
}

#[test]
fn one_packet_per_fragment_on_the_path() {
    let frags = fragment_message(&vec![1u8; 200]);
    let packets = create_packet(&frags, &vec![1, 10, 3], 42);
    assert_eq!(packets.len(), 2);
    for (i, p) in packets.iter().enumerate() {
        assert_eq!(p.session_id, 42);
        assert_eq!(p.routing_header.hops, vec![1, 10, 3]);
        assert_eq!(p.routing_header.hop_index, 0);
        match &p.pack_type {
            PacketType::MsgFragment(f) => assert_eq!(f.fragment_index, i as u64),
            _ => panic!("expected a fragment"),
        }
    }
}

#[test]
fn finding_fragments_by_index() {
    let frags = fragment_message(&vec![3u8; 300]);
    assert_eq!(find_fragment(&frags, 1).map(|f| f.fragment_index), Some(1));
    assert!(find_fragment(&frags, 7).is_none());
}
