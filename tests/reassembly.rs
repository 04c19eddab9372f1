use raptor_simulation::codec::{
    encode_into_packets, split_into_packets, transmission_params_for, EncodeError, TransmissionParams,
};
use raptor_simulation::frame::create_packet;
use raptor_simulation::reassembler::{CompletedBatch, Reassembler};
use raptor_simulation::{BATCH_ID_SIZE, MTU_SIZE};

fn object(len: usize, seed: u32) -> Vec<u8> {
    let mut x = seed.wrapping_mul(2654435761).wrapping_add(1);
    (0..len)
        .map(|_| {
            x = x.wrapping_mul(1664525).wrapping_add(1013904223);
            (x >> 24) as u8
        })
        .collect()
}

fn id_of(c: u8) -> [u8; BATCH_ID_SIZE] {
    [c; BATCH_ID_SIZE]
}

fn buffer(frame: &[u8]) -> ([u8; MTU_SIZE], usize) {
    let mut buf = [0u8; MTU_SIZE];
    buf[..frame.len()].copy_from_slice(frame);
    (buf, frame.len())
}

/// Feeds frames to a reassembler; returns the completions and how many
/// relay copies it asked for.
fn feed(r: &mut Reassembler, frames: &[Vec<u8>]) -> (Vec<CompletedBatch>, usize) {
    let mut done = vec![];
    let mut forwards = 0;
    for f in frames {
        let (buf, len) = buffer(f);
        let out = r.handle_packet(&buf, len);
        if let Some(fw) = out.forward {
            assert_eq!(fw[1], 0);
            assert_eq!(fw.len(), len);
            forwards += 1;
        }
        if let Some(c) = out.completed {
            done.push(c);
        }
    }
    (done, forwards)
}

fn receiver_for(len: usize) -> Reassembler {
    Reassembler::new(transmission_params_for(len).unwrap())
}

#[test]
fn encoding_rejects_empty_object() {
    assert_eq!(encode_into_packets(&[], 10), Err(EncodeError::EmptyObject));
    assert_eq!(split_into_packets(&[], id_of(b'q'), 10), Err(EncodeError::EmptyObject));
}

#[test]
fn encoding_rejects_too_many_repair_symbols() {
    let data = object(100, 11);
    assert_eq!(encode_into_packets(&data, u32::MAX), Err(EncodeError::TooManyRepairSymbols));
    assert_eq!(encode_into_packets(&data, 16720814), Err(EncodeError::TooManyRepairSymbols));
    assert_eq!(split_into_packets(&data, id_of(b'r'), 16720814), Err(EncodeError::TooManyRepairSymbols));
    assert_eq!(encode_into_packets(&[], u32::MAX), Err(EncodeError::EmptyObject));
}

#[test]
fn settle_completes_once_with_the_decoded_bytes() {
    let mut r = receiver_for(30000);
    let id = id_of(b'S');
    assert!(r.settle(id, None).is_none());
    assert!(!r.is_completed(&id));
    let done = r.settle(id, Some(vec![1, 2, 3])).unwrap();
    assert_eq!(done.batch_id, id);
    assert_eq!(done.contents, vec![1, 2, 3]);
    assert!(r.is_completed(&id));
    assert!(r.settle(id, Some(vec![4])).is_none());
}

#[test]
fn settle_frees_the_decoder_of_a_batch_in_progress() {
    let data = object(30000, 12);
    let id = id_of(b'T');
    let frames = split_into_packets(&data, id, 5).unwrap();
    let mut r = receiver_for(data.len());
    let (done, _) = feed(&mut r, &frames[..3]);
    assert!(done.is_empty());
    assert_eq!(r.received_count(&id), Some(3));
    assert!(r.settle(id, Some(vec![7])).is_some());
    assert_eq!(r.received_count(&id), None);
    let (after, fw) = feed(&mut r, &frames[3..]);
    assert!(after.is_empty());
    assert_eq!(fw, 0);
}

#[test]
fn encoded_symbols_fit_the_payload_budget() {
    let data = object(5000, 1);
    let symbols = encode_into_packets(&data, 3).unwrap();
    // 5000 bytes in 1176-byte symbols: 5 source symbols, then 3 repair symbols.
    assert_eq!(symbols.len(), 8);
    for s in &symbols {
        assert_eq!(s.len(), 4 + 1176);
    }
}

#[test]
fn split_frames_each_symbol() {
    let data = object(5000, 2);
    let id = id_of(b'k');
    let symbols = encode_into_packets(&data, 2).unwrap();
    let frames = split_into_packets(&data, id, 2).unwrap();
    assert_eq!(frames.len(), symbols.len());
    for (f, s) in frames.iter().zip(symbols.iter()) {
        assert_eq!(f, &create_packet(id, s.clone()).unwrap());
        assert_eq!(f.len(), 48 + 1180);
    }
}

#[test]
fn default_params_match_the_encoder() {
    let p = transmission_params_for(65536).unwrap();
    assert_eq!(p.transfer_length, 65536);
    assert_eq!(p.symbol_size, 1176);
    assert_eq!(p.alignment, 8);
    assert!(transmission_params_for(0).is_none());
}

#[test]
fn transmission_params_are_checked() {
    assert!(TransmissionParams::new(7038895, 1176, 1, 1, 8).is_some());
    assert!(TransmissionParams::new(0, 1176, 1, 1, 8).is_none());
    assert!(TransmissionParams::new(100, 0, 1, 1, 8).is_none());
    assert!(TransmissionParams::new(100, 1176, 0, 1, 8).is_none());
    assert!(TransmissionParams::new(100, 1175, 1, 1, 8).is_none());
    assert!(TransmissionParams::new(100, 1176, 1, 148, 8).is_none());
    assert!(TransmissionParams::new(100, 1176, 1, 147, 8).is_some());
    assert!(TransmissionParams::new(100, 1176, 2, 1, 8).is_none());
    assert!(TransmissionParams::new(2000, 1176, 2, 1, 8).is_some());
    // 56404 symbols of 8 bytes in one block: more than one block may hold.
    assert!(TransmissionParams::new(56404 * 8, 8, 1, 1, 8).is_none());
    assert!(TransmissionParams::new(56403 * 8, 8, 1, 1, 8).is_some());
}

#[test]
fn lossless_single_batch() {
    let data = object(65536, 3);
    let id = id_of(b'A');
    let frames = split_into_packets(&data, id, 100).unwrap();
    let mut r = receiver_for(data.len());
    let (done, _) = feed(&mut r, &frames);
    assert_eq!(done.len(), 1);
    assert_eq!(done[0].batch_id, id);
    assert_eq!(done[0].contents, data);
    assert!(r.is_completed(&id));
    assert_eq!(r.received_count(&id), None);
}

#[test]
fn lossy_with_overprovision() {
    let data = object(65536, 4);
    let id = id_of(b'B');
    let frames = split_into_packets(&data, id, 300).unwrap();
    let kept: Vec<Vec<u8>> = frames.iter().enumerate().filter(|(i, _)| i % 5 != 0).map(|(_, f)| f.clone()).collect();
    let mut r = receiver_for(data.len());
    let (done, _) = feed(&mut r, &kept);
    assert_eq!(done.len(), 1);
    assert_eq!(done[0].contents, data);
}

#[test]
fn lossy_exceeding_budget() {
    let data = object(65536, 5);
    let id = id_of(b'C');
    let frames = split_into_packets(&data, id, 10).unwrap();
    let kept: Vec<Vec<u8>> = frames.iter().step_by(2).cloned().collect();
    let mut r = receiver_for(data.len());
    let (done, _) = feed(&mut r, &kept);
    assert!(done.is_empty());
    assert!(!r.is_completed(&id));
    assert_eq!(r.received_count(&id), Some(kept.len() as u64));
}

#[test]
fn relay_through_first_hop_only() {
    let data = object(20000, 6);
    let id = id_of(b'D');
    let frames = split_into_packets(&data, id, 20).unwrap();
    // Three receivers; the sender reaches only receiver 0, which relays.
    let mut first = receiver_for(data.len());
    let mut relayed = vec![];
    for f in &frames {
        let (buf, len) = buffer(f);
        if let Some(fw) = first.handle_packet(&buf, len).forward {
            relayed.push(fw);
        }
    }
    assert!(!relayed.is_empty());
    let mut second = receiver_for(data.len());
    let mut third = receiver_for(data.len());
    let (d2, fw2) = feed(&mut second, &relayed);
    let (d3, fw3) = feed(&mut third, &relayed);
    assert_eq!(fw2, 0);
    assert_eq!(fw3, 0);
    assert_eq!(d2.len(), 1);
    assert_eq!(d3.len(), 1);
    assert_eq!(d2[0].contents, data);
    assert_eq!(d3[0].contents, data);
    assert!(first.is_completed(&id));
}

#[test]
fn two_concurrent_batches() {
    let data = object(30000, 7);
    let a = id_of(b'E');
    let b = id_of(b'F');
    let fa = split_into_packets(&data, a, 20).unwrap();
    let fb = split_into_packets(&data, b, 20).unwrap();
    let mut interleaved = vec![];
    for i in 0..fa.len().max(fb.len()) {
        if i < fa.len() {
            interleaved.push(fa[i].clone());
        }
        if i < fb.len() {
            interleaved.push(fb[i].clone());
        }
    }
    let mut r = receiver_for(data.len());
    let (done, _) = feed(&mut r, &interleaved);
    assert_eq!(done.len(), 2);
    assert_ne!(done[0].batch_id, done[1].batch_id);
    assert_eq!(done[0].contents, data);
    assert_eq!(done[1].contents, data);
}

#[test]
fn duplicate_stream_completes_once() {
    let data = object(30000, 8);
    let id = id_of(b'G');
    let frames = split_into_packets(&data, id, 20).unwrap();
    let mut r = receiver_for(data.len());
    let (first, fw1) = feed(&mut r, &frames);
    let (second, fw2) = feed(&mut r, &frames);
    assert_eq!(first.len(), 1);
    assert!(second.is_empty());
    assert!(fw1 > 0);
    assert_eq!(fw2, 0);
    assert_eq!(r.received_count(&id), None);
}

#[test]
fn short_and_malformed_packets_change_nothing_but_counts() {
    let mut r = receiver_for(30000);
    let id = id_of(b'H');
    let (buf, _) = buffer(&create_packet(id, vec![0u8; 10]).unwrap());
    let out = r.handle_packet(&buf, 48);
    assert!(out.forward.is_none() && out.completed.is_none());
    assert_eq!(r.received_count(&id), None);
    // A payload that is no symbol of the agreed size is counted and dropped.
    let out = r.handle_packet(&buf, 58);
    assert!(out.forward.is_some());
    assert!(out.completed.is_none());
    assert_eq!(r.received_count(&id), Some(1));
    let out = r.handle_packet(&buf, 58);
    assert!(out.completed.is_none());
    assert_eq!(r.received_count(&id), Some(2));
}

#[test]
fn unrelayed_packet_is_not_forwarded() {
    let data = object(3000, 9);
    let id = id_of(b'J');
    let frames = split_into_packets(&data, id, 2).unwrap();
    let mut copy = frames[0].clone();
    copy[1] = 0;
    let mut r = receiver_for(data.len());
    let (buf, len) = buffer(&copy);
    let out = r.handle_packet(&buf, len);
    assert!(out.forward.is_none());
    assert_eq!(r.received_count(&id), Some(1));
}
