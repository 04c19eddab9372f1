use raptor_simulation::batch_id::{batch_file_name, generate_46b_batch_id};
use raptor_simulation::fanout::{shard_destination, shard_plan, SendWindow};
use raptor_simulation::frame::{create_packet, get_batch_id, parse_packet, FrameError, MAX_FRAME_PAYLOAD, MIN_PACKET_LEN};
use raptor_simulation::node::{forward_targets, NodeAddress, NodeType};
use raptor_simulation::{BATCH_ID_SIZE, HEADER_SIZE, MTU_SIZE};

fn sample_id(seed: u8) -> [u8; BATCH_ID_SIZE] {
    let mut id = [0u8; BATCH_ID_SIZE];
    for (i, b) in id.iter_mut().enumerate() {
        *b = b'a' + ((i as u8 + seed) % 26);
    }
    id
}

fn into_buffer(frame: &[u8]) -> ([u8; MTU_SIZE], usize) {
    let mut buf = [0u8; MTU_SIZE];
    buf[..frame.len()].copy_from_slice(frame);
    (buf, frame.len())
}

#[test]
fn frame_layout_is_exact() {
    let id = sample_id(0);
    let frame = create_packet(id, vec![9, 8, 7]).unwrap();
    assert_eq!(frame.len(), 2 + BATCH_ID_SIZE + 3);
    assert_eq!(frame[0], 0);
    assert_eq!(frame[1], 1);
    assert_eq!(&frame[2..48], &id[..]);
    assert_eq!(&frame[48..], &[9, 8, 7]);
}

#[test]
fn frame_accepts_largest_payload_and_rejects_one_more() {
    let id = sample_id(1);
    assert_eq!(MAX_FRAME_PAYLOAD, 1232);
    let ok = create_packet(id, vec![5u8; MAX_FRAME_PAYLOAD]).unwrap();
    assert_eq!(ok.len(), MTU_SIZE);
    assert_eq!(create_packet(id, vec![5u8; MAX_FRAME_PAYLOAD + 1]), Err(FrameError::PayloadTooLarge));
}

#[test]
fn frame_round_trip_through_parse() {
    let id = sample_id(2);
    let payload: Vec<u8> = (0..200u32).map(|i| (i * 7 % 251) as u8).collect();
    let frame = create_packet(id, payload.clone()).unwrap();
    let (buf, len) = into_buffer(&frame);
    let parsed = parse_packet(&buf, len).unwrap();
    assert_eq!(parsed.batch_id, id);
    assert_eq!(parsed.forward_flag, 1);
    assert_eq!(parsed.payload, payload);
}

#[test]
fn parse_drops_short_and_overlong_lengths() {
    let buf = [3u8; MTU_SIZE];
    assert_eq!(MIN_PACKET_LEN, 49);
    assert!(parse_packet(&buf, HEADER_SIZE).is_none());
    assert!(parse_packet(&buf, 0).is_none());
    assert!(parse_packet(&buf, MTU_SIZE + 1).is_none());
    let p = parse_packet(&buf, MIN_PACKET_LEN).unwrap();
    assert_eq!(p.payload, vec![3u8]);
}

#[test]
fn batch_id_is_read_from_bytes_two_to_forty_seven() {
    let mut buf = [0u8; MTU_SIZE];
    for (i, b) in buf.iter_mut().enumerate() {
        *b = (i % 256) as u8;
    }
    let id = get_batch_id(&buf);
    for i in 0..BATCH_ID_SIZE {
        assert_eq!(id[i], (i + 2) as u8);
    }
}

#[test]
fn generated_batch_ids_are_alphanumeric_and_fresh() {
    let a = generate_46b_batch_id();
    let b = generate_46b_batch_id();
    assert!(a.iter().all(|c| c.is_ascii_alphanumeric()));
    assert!(b.iter().all(|c| c.is_ascii_alphanumeric()));
    assert_ne!(a, b);
    assert_ne!(a, [0u8; BATCH_ID_SIZE]);
}

#[test]
fn batch_file_name_appends_suffix() {
    let id = sample_id(3);
    let name = batch_file_name(&id);
    let mut expected = id.to_vec();
    expected.extend_from_slice(b".BATCH");
    assert_eq!(name, expected);
}

#[test]
fn sharding_is_round_robin() {
    assert_eq!(shard_plan(7, 3), vec![0, 1, 2, 0, 1, 2, 0]);
    assert_eq!(shard_destination(11, 4), 3);
    assert_eq!(shard_plan(0, 2), Vec::<usize>::new());
}

#[test]
fn sharding_is_fair() {
    let plan = shard_plan(10, 3);
    let counts: Vec<usize> = (0..3).map(|k| plan.iter().filter(|&&d| d == k).count()).collect();
    assert_eq!(counts, vec![4, 3, 3]);
    let plan = shard_plan(9, 3);
    let counts: Vec<usize> = (0..3).map(|k| plan.iter().filter(|&&d| d == k).count()).collect();
    assert_eq!(counts, vec![3, 3, 3]);
}

#[test]
fn send_window_bounds_in_flight_sends() {
    let mut w = SendWindow::new(2);
    assert!(!w.must_wait());
    w.launch();
    w.launch();
    assert!(w.must_wait());
    w.complete();
    assert!(!w.must_wait());
    assert_eq!(w.in_flight, 1);
    let z = SendWindow::new(0);
    assert_eq!(z.cap, 1);
}

fn node(ip: &str, port: u16, role: NodeType) -> NodeAddress {
    NodeAddress { ip_addr: ip.to_string(), port, role }
}

#[test]
fn node_type_defaults_to_receiver() {
    assert_eq!(NodeType::default(), NodeType::Receiver);
}

#[test]
fn forwarding_goes_to_other_receivers_only() {
    let roster = vec![
        node("0.0.0.0", 1234, NodeType::Sender),
        node("0.0.0.0", 1235, NodeType::Receiver),
        node("0.0.0.0", 1236, NodeType::Receiver),
        node("10.0.0.1", 1235, NodeType::Receiver),
    ];
    let own = node("0.0.0.0", 1235, NodeType::Receiver);
    let peers = forward_targets(&roster, &own);
    let got: Vec<(String, u16)> = peers.iter().map(|n| (n.ip_addr.clone(), n.port)).collect();
    assert_eq!(got, vec![("0.0.0.0".to_string(), 1236), ("10.0.0.1".to_string(), 1235)]);
}

#[test]
fn batch_id_is_taken_from_the_draw() {
    let draw: Vec<u8> = (0..BATCH_ID_SIZE as u8).map(|i| b'A' + i % 26).collect();
    let id = raptor_simulation::batch_id::batch_id_from(&draw);
    assert_eq!(id.to_vec(), draw);
}
