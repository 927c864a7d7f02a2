use mosh_client::network::{
    current_timestamp, timestamp_of, Fragment, FragmentAssembly, Fragmenter, FrameError, Packet,
    DEFAULT_MTU, MAX_FRAG_PAYLOAD,
};

#[test]
fn test_packet_roundtrip() {
    let pkt = Packet {
        timestamp: 12345,
        timestamp_reply: 54321,
        payload: b"hello world".to_vec(),
    };
    let bytes = pkt.to_bytes();
    let parsed = Packet::from_bytes(&bytes).unwrap();
    assert_eq!(parsed.timestamp, 12345);
    assert_eq!(parsed.timestamp_reply, 54321);
    assert_eq!(parsed.payload, b"hello world");
}

#[test]
fn test_fragment_roundtrip() {
    let frag = Fragment {
        id: 42,
        fragment_num: 3,
        is_final: true,
        contents: b"test data".to_vec(),
    };
    let bytes = frag.to_bytes();
    let parsed = Fragment::from_bytes(&bytes).unwrap();
    assert_eq!(parsed.id, 42);
    assert_eq!(parsed.fragment_num, 3);
    assert!(parsed.is_final);
    assert_eq!(parsed.contents, b"test data");
}

#[test]
fn test_fragment_not_final() {
    let frag = Fragment {
        id: 1,
        fragment_num: 5,
        is_final: false,
        contents: b"partial".to_vec(),
    };
    let bytes = frag.to_bytes();
    let parsed = Fragment::from_bytes(&bytes).unwrap();
    assert!(!parsed.is_final);
    assert_eq!(parsed.fragment_num, 5);
}

#[test]
fn test_fragmenter_single_fragment() {
    let mut fragmenter = Fragmenter::new();
    let data = vec![0u8; 100];
    let frags = fragmenter.make_fragments(&data, MAX_FRAG_PAYLOAD);
    assert_eq!(frags.len(), 1);
    assert!(frags[0].is_final);
    assert_eq!(frags[0].contents.len(), 100);
}

#[test]
fn test_fragmenter_multiple_fragments() {
    let mut fragmenter = Fragmenter::new();
    let data = vec![0u8; 250];
    let frags = fragmenter.make_fragments(&data, 100);
    assert_eq!(frags.len(), 3);
    assert!(!frags[0].is_final);
    assert!(!frags[1].is_final);
    assert!(frags[2].is_final);
    assert_eq!(frags[0].contents.len(), 100);
    assert_eq!(frags[1].contents.len(), 100);
    assert_eq!(frags[2].contents.len(), 50);
}

#[test]
fn test_fragmenter_reuses_id_for_identical_payload() {
    let mut fragmenter = Fragmenter::new();
    let data = b"same payload";
    let a = fragmenter.make_fragments(data, 100);
    let b = fragmenter.make_fragments(data, 100);
    assert_eq!(a[0].id, b[0].id);
}

#[test]
fn test_fragmenter_new_id_for_changed_payload() {
    let mut fragmenter = Fragmenter::new();
    let a = fragmenter.make_fragments(b"a", 100);
    let b = fragmenter.make_fragments(b"b", 100);
    assert_ne!(a[0].id, b[0].id);
}

#[test]
fn test_fragment_assembly() {
    let mut fragmenter = Fragmenter::new();
    let data = b"Hello, World! This is a longer message for fragmentation testing.";
    let frags = fragmenter.make_fragments(data, 20);
    assert!(frags.len() > 1);

    let mut assembly = FragmentAssembly::new();
    let mut result = None;
    for frag in frags {
        result = assembly.add_fragment(frag);
    }
    assert_eq!(result.unwrap(), data.to_vec());
}

#[test]
fn packet_bytes_are_timestamps_then_payload() {
    let pkt = Packet {
        timestamp: 12345,
        timestamp_reply: 54321,
        payload: b"hello world".to_vec(),
    };
    assert_eq!(
        pkt.to_bytes(),
        vec![0x30, 0x39, 0xD4, 0x31, 0x68, 0x65, 0x6C, 0x6C, 0x6F, 0x20, 0x77, 0x6F, 0x72, 0x6C, 0x64]
    );
}

#[test]
fn short_packet_is_refused() {
    assert_eq!(Packet::from_bytes(&[1, 2, 3]).err(), Some(FrameError::ShortPacket));
    assert_eq!(Packet::from_bytes(&[]).err(), Some(FrameError::ShortPacket));
    let heartbeat = Packet::from_bytes(&[0, 1, 0xFF, 0xFF]).unwrap();
    assert_eq!(heartbeat.timestamp, 1);
    assert_eq!(heartbeat.timestamp_reply, 0xFFFF);
    assert!(heartbeat.payload.is_empty());
}

#[test]
fn short_fragment_is_refused() {
    assert_eq!(Fragment::from_bytes(&[0u8; 9]).err(), Some(FrameError::ShortFragment));
    let empty = Fragment::from_bytes(&[0, 0, 0, 0, 0, 0, 0, 7, 0x80, 0x02]).unwrap();
    assert_eq!(empty.id, 7);
    assert!(empty.is_final);
    assert_eq!(empty.fragment_num, 2);
    assert!(empty.contents.is_empty());
}

#[test]
fn fragment_bytes_are_id_flag_number_contents() {
    let frag = Fragment {
        id: 0x0102_0304_0506_0708,
        fragment_num: 0x1234,
        is_final: true,
        contents: vec![0xAA, 0xBB],
    };
    assert_eq!(frag.to_bytes(), vec![1, 2, 3, 4, 5, 6, 7, 8, 0x92, 0x34, 0xAA, 0xBB]);
    let not_final = Fragment { is_final: false, ..frag.clone() };
    assert_eq!(not_final.to_bytes()[8..10], [0x12, 0x34]);
}

#[test]
fn fragment_payload_budget() {
    assert_eq!(DEFAULT_MTU, 1280);
    assert_eq!(MAX_FRAG_PAYLOAD, 1242);
}

#[test]
fn fragmenter_third_call_with_other_payload_gets_next_id() {
    let mut fragmenter = Fragmenter::new();
    let a = fragmenter.make_fragments(b"same payload", 100);
    let b = fragmenter.make_fragments(b"same payload", 100);
    let c = fragmenter.make_fragments(b"other", 100);
    assert_eq!(a[0].id, 1);
    assert_eq!(b[0].id, 1);
    assert_eq!(c[0].id, 2);
}

#[test]
fn fragmenter_new_id_for_changed_chunk_size() {
    let mut fragmenter = Fragmenter::new();
    let a = fragmenter.make_fragments(b"same payload", 100);
    let b = fragmenter.make_fragments(b"same payload", 99);
    assert_eq!(b[0].id, a[0].id + 1);
}

#[test]
fn empty_payload_gives_one_final_fragment() {
    let mut fragmenter = Fragmenter::new();
    let frags = fragmenter.make_fragments(&[], 10);
    assert_eq!(frags.len(), 1);
    assert!(frags[0].is_final);
    assert_eq!(frags[0].fragment_num, 0);
    assert!(frags[0].contents.is_empty());
}

#[test]
fn fragments_are_numbered_and_cut_in_order() {
    let mut fragmenter = Fragmenter::new();
    let data: Vec<u8> = (0u8..10).collect();
    let frags = fragmenter.make_fragments(&data, 4);
    assert_eq!(frags.len(), 3);
    assert_eq!(frags[0].contents, vec![0, 1, 2, 3]);
    assert_eq!(frags[1].contents, vec![4, 5, 6, 7]);
    assert_eq!(frags[2].contents, vec![8, 9]);
    for (i, f) in frags.iter().enumerate() {
        assert_eq!(f.fragment_num as usize, i);
        assert_eq!(f.is_final, i == 2);
        assert_eq!(f.id, 1);
    }
    let exact = fragmenter.make_fragments(&data[..8], 4);
    assert_eq!(exact.len(), 2);
    assert!(exact[1].is_final);
}

#[test]
fn reassembly_round_trips_for_many_sizes() {
    for len in [0usize, 1, 2, 19, 20, 21, 40, 41, 100] {
        for max in [1usize, 2, 7, 20, 1000] {
            let data: Vec<u8> = (0..len).map(|i| (i * 7 + 3) as u8).collect();
            let mut fragmenter = Fragmenter::new();
            let mut assembly = FragmentAssembly::new();
            let frags = fragmenter.make_fragments(&data, max);
            let n = frags.len();
            for (i, frag) in frags.into_iter().enumerate() {
                assert!(assembly.accepts(&frag));
                let out = assembly.add_fragment(frag);
                if i + 1 < n {
                    assert!(out.is_none());
                } else {
                    assert_eq!(out, Some(data.clone()));
                }
            }
        }
    }
}

#[test]
fn reassembly_takes_fragments_out_of_order() {
    let mut fragmenter = Fragmenter::new();
    let data = b"0123456789";
    let mut frags = fragmenter.make_fragments(data, 4);
    let last = frags.pop().unwrap();
    let mut assembly = FragmentAssembly::new();
    assert_eq!(assembly.add_fragment(last), None);
    let second = frags.pop().unwrap();
    assert_eq!(assembly.add_fragment(second.clone()), None);
    // A fragment that comes twice changes nothing.
    assert!(assembly.accepts(&second));
    assert_eq!(assembly.add_fragment(second), None);
    assert_eq!(assembly.add_fragment(frags.pop().unwrap()), Some(data.to_vec()));
}

#[test]
fn reassembly_starts_over_on_a_new_id() {
    let mut assembly = FragmentAssembly::new();
    let stale = Fragment { id: 1, fragment_num: 0, is_final: false, contents: b"old".to_vec() };
    assert_eq!(assembly.add_fragment(stale), None);
    let fresh = Fragment { id: 2, fragment_num: 0, is_final: true, contents: b"new".to_vec() };
    assert_eq!(assembly.add_fragment(fresh), Some(b"new".to_vec()));
}

#[test]
fn reassembly_refuses_a_contradicting_fragment() {
    let mut assembly = FragmentAssembly::new();
    let first = Fragment { id: 1, fragment_num: 1, is_final: false, contents: b"aa".to_vec() };
    assert_eq!(assembly.add_fragment(first), None);
    let other = Fragment { id: 1, fragment_num: 1, is_final: false, contents: b"bb".to_vec() };
    assert!(!assembly.accepts(&other));
    // More fragments than the final one allows.
    let early_final = Fragment { id: 1, fragment_num: 0, is_final: true, contents: vec![] };
    assert!(!assembly.accepts(&early_final));
}

#[test]
fn timestamp_is_milliseconds_modulo_65536() {
    assert_eq!(timestamp_of(0), 0);
    assert_eq!(timestamp_of(65535), 65535);
    assert_eq!(timestamp_of(65536), 0);
    assert_eq!(timestamp_of(1_700_000_000_123), (1_700_000_000_123u128 % 65536) as u16);
    let _ = current_timestamp();
}

#[test]
fn fragmenter_takes_a_call_that_repeats_or_has_an_id_left() {
    let mut fragmenter = Fragmenter::new();
    assert!(fragmenter.has_room_for(b"first", 100));
    let first = fragmenter.make_fragments(b"first", 100);
    assert!(fragmenter.has_room_for(b"first", 100));
    assert!(fragmenter.has_room_for(b"other", 100));
    let again = fragmenter.make_fragments(b"first", 100);
    assert_eq!(first, again);
    let other = fragmenter.make_fragments(b"first", 99);
    assert_eq!(other[0].id, first[0].id + 1);
}
