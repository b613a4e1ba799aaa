use elix::checksum::checksum;
use elix::codec::{
    decode_ack, decode_chunk_count, decode_u32_at, encode_ack, encode_chunk_count, encode_frame,
    encode_u32, parse_frame,
};
use elix::plan::{chunk_count, split_into_chunks};
use elix::reassembly::{reassemble, Fragment, ReassemblyError};
use elix::receive::{check_ack, handler_step, AckCheck, HandlerStep, ReceiveSession};
use elix::send::{plan_batches, prepare_fragments, Batch};

const MAX: u32 = 16384;

fn sample(len: usize) -> Vec<u8> {
    (0..len).map(|i| (i * 31 % 251) as u8).collect()
}

/// Frames each fragment, lets the receiving handler read it, and returns what
/// it yielded together with the acknowledgment it sent back.
fn through_wire(f: &Fragment) -> (Fragment, Vec<u8>) {
    let frame = encode_frame(f.id, &f.payload);
    match handler_step(&frame, false, MAX) {
        HandlerStep::Reply { fragment, ack } => (fragment, ack),
        _ => panic!("a whole frame must give a fragment"),
    }
}

/// Sends `data` in chunks of `chunk_size`, `limit` at a time, delivering each
/// batch in reverse order, and returns the receiver's output.
fn transfer(data: &[u8], chunk_size: usize, limit: usize) -> Vec<u8> {
    let frags = prepare_fragments(data, chunk_size);
    let count = frags.len() as u32;
    let wire = decode_chunk_count(&encode_chunk_count(count)).unwrap();
    let mut session = ReceiveSession::new(wire);
    for b in plan_batches(count, limit) {
        for id in (b.start..b.end).rev() {
            assert!(session.wants_connection());
            session.record_accept();
            let (fragment, ack) = through_wire(&frags[id as usize]);
            assert_eq!(check_ack(frags[id as usize].checksum, &ack), AckCheck::Verified);
            session.record_outcome(HandlerStep::Reply { fragment, ack });
        }
    }
    assert!(!session.wants_connection());
    session.finish().unwrap()
}

#[test]
fn forty_thousand_bytes_make_three_chunks() {
    let data = sample(40000);
    let chunks = split_into_chunks(&data, 16384);
    let sizes: Vec<usize> = chunks.iter().map(|c| c.len()).collect();
    assert_eq!(sizes, vec![16384, 16384, 7232]);
    assert_eq!(chunk_count(40000, 16384), 3);
    let mut session = ReceiveSession::new(3);
    let mut accepts = 0;
    while session.wants_connection() {
        session.record_accept();
        accepts += 1;
    }
    assert_eq!(accepts, 3);
    assert_eq!(transfer(&data, 16384, 4), data);
}

#[test]
fn empty_file_makes_no_chunks_and_no_accepts() {
    assert_eq!(chunk_count(0, 16384), 0);
    assert!(split_into_chunks(&[], 16384).is_empty());
    assert!(prepare_fragments(&[], 16384).is_empty());
    let session = ReceiveSession::new(0);
    assert!(!session.wants_connection());
    assert_eq!(session.finish(), Ok(vec![]));
    assert_eq!(transfer(&[], 16384, 3), Vec::<u8>::new());
}

#[test]
fn whole_multiple_has_no_trailing_empty_chunk() {
    assert_eq!(chunk_count(3 * 16384, 16384), 3);
    let data = sample(2 * 100);
    let chunks = split_into_chunks(&data, 100);
    assert_eq!(chunks.len(), 2);
    assert!(chunks.iter().all(|c| c.len() == 100));
}

#[test]
fn later_fragment_arriving_first_keeps_byte_order() {
    let data = sample(300);
    let frags = prepare_fragments(&data, 200);
    assert_eq!(frags.len(), 2);
    let mut session = ReceiveSession::new(2);
    for id in [1usize, 0] {
        session.record_accept();
        let (fragment, ack) = through_wire(&frags[id]);
        session.record_outcome(HandlerStep::Reply { fragment, ack });
    }
    assert_eq!(session.fragments[0].id, 1);
    assert_eq!(session.finish().unwrap(), data);
}

#[test]
fn corrupted_fragment_warns_and_is_still_written() {
    let data = sample(30);
    let frags = prepare_fragments(&data, 10);
    let mut session = ReceiveSession::new(3);
    let mut warnings = 0;
    for f in &frags {
        let mut frame = encode_frame(f.id, &f.payload);
        if f.id == 1 {
            frame[8] ^= 0xff;
        }
        session.record_accept();
        let step = handler_step(&frame, false, MAX);
        if let HandlerStep::Reply { ack, .. } = &step {
            match check_ack(f.checksum, ack) {
                AckCheck::Verified => {}
                AckCheck::Mismatch { received } => {
                    assert_ne!(received, f.checksum);
                    warnings += 1;
                }
                AckCheck::Malformed => panic!("a four-byte ack is never malformed"),
            }
        }
        session.record_outcome(step);
    }
    assert_eq!(warnings, 1);
    let mut expected = data.clone();
    expected[10] ^= 0xff;
    assert_eq!(session.finish().unwrap(), expected);
}

#[test]
fn round_trip_over_sizes_and_limits() {
    for len in [0usize, 1, 9, 10, 11, 99, 1000] {
        let data = sample(len);
        for chunk_size in [1usize, 3, 10, 64, 5000] {
            for limit in [1usize, 2, 7] {
                assert_eq!(transfer(&data, chunk_size, limit), data);
            }
        }
    }
}

#[test]
fn checksum_is_crc32() {
    assert_eq!(checksum(b"123456789"), 0xCBF4_3926);
    assert_eq!(checksum(b""), 0);
}

#[test]
fn checksum_agrees_at_both_ends() {
    let data = sample(777);
    for f in prepare_fragments(&data, 100) {
        let (received, ack) = through_wire(&f);
        assert_eq!(received.checksum, f.checksum);
        assert_eq!(received.checksum, checksum(&f.payload));
        assert_eq!(decode_ack(&ack), Some(f.checksum));
    }
}

#[test]
fn batches_never_exceed_the_limit() {
    let batches = plan_batches(5, 2);
    assert_eq!(
        batches,
        vec![
            Batch { start: 0, end: 2 },
            Batch { start: 2, end: 4 },
            Batch { start: 4, end: 5 }
        ]
    );
    for limit in 1..10usize {
        let bs = plan_batches(23, limit);
        let mut next = 0;
        for b in &bs {
            assert_eq!(b.start, next);
            assert!(b.end > b.start && (b.end - b.start) as usize <= limit);
            next = b.end;
        }
        assert_eq!(next, 23);
    }
    assert!(plan_batches(0, 4).is_empty());
}

#[test]
fn little_endian_fields() {
    assert_eq!(encode_u32(0x0403_0201), vec![1, 2, 3, 4]);
    assert_eq!(decode_u32_at(&[9, 1, 2, 3, 4], 1), 0x0403_0201);
    assert_eq!(encode_ack(0xCBF4_3926), vec![0x26, 0x39, 0xF4, 0xCB]);
    assert_eq!(encode_chunk_count(3), vec![3, 0, 0, 0]);
    assert_eq!(decode_chunk_count(&[3, 0, 0]), None);
    assert_eq!(decode_ack(&[1, 2, 3, 4, 5]), None);
}

#[test]
fn frame_layout_and_parsing() {
    let frame = encode_frame(2, &[7, 8, 9]);
    assert_eq!(frame, vec![2, 0, 0, 0, 3, 0, 0, 0, 7, 8, 9]);
    assert_eq!(parse_frame(&frame), Some((2, vec![7, 8, 9])));
    assert_eq!(parse_frame(&frame[..10]), None);
    assert_eq!(parse_frame(&frame[..5]), None);
    let mut longer = frame.clone();
    longer.push(42);
    assert_eq!(parse_frame(&longer), Some((2, vec![7, 8, 9])));
}

#[test]
fn handler_waits_for_a_whole_frame() {
    let frame = encode_frame(5, &[1, 2, 3, 4]);
    assert!(matches!(handler_step(&frame[..3], false, MAX), HandlerStep::ReadMore));
    assert!(matches!(handler_step(&frame[..9], false, MAX), HandlerStep::ReadMore));
    assert!(matches!(handler_step(&frame[..9], true, MAX), HandlerStep::Truncated));
    assert!(matches!(handler_step(&[], true, MAX), HandlerStep::ClosedWithoutData));
    assert!(matches!(handler_step(&[], false, MAX), HandlerStep::ReadMore));
    match handler_step(&frame, true, MAX) {
        HandlerStep::Reply { fragment, ack } => {
            assert_eq!(fragment.id, 5);
            assert_eq!(fragment.payload, vec![1, 2, 3, 4]);
            assert_eq!(ack, encode_ack(checksum(&[1, 2, 3, 4])));
        }
        _ => panic!("a whole frame must give a fragment"),
    }
}

#[test]
fn connection_without_data_is_not_a_fragment() {
    let mut session = ReceiveSession::new(1);
    session.record_accept();
    session.record_outcome(handler_step(&[], true, MAX));
    assert_eq!(session.anomalies, 1);
    assert!(session.fragments.is_empty());
    assert_eq!(session.finish(), Err(ReassemblyError::MissingId { id: 0 }));
}

#[test]
fn ack_checks() {
    assert_eq!(check_ack(0x0403_0201, &[1, 2, 3, 4]), AckCheck::Verified);
    assert_eq!(
        check_ack(7, &[1, 2, 3, 4]),
        AckCheck::Mismatch { received: 0x0403_0201 }
    );
    assert_eq!(check_ack(7, &[1, 2]), AckCheck::Malformed);
}

#[test]
fn reassembly_errors() {
    let f = |id: u32, p: &[u8]| Fragment::new(id, p.to_vec());
    assert_eq!(
        reassemble(&vec![f(0, b"a"), f(3, b"b")], 2),
        Err(ReassemblyError::IdOutOfRange { id: 3 })
    );
    assert_eq!(
        reassemble(&vec![f(1, b"a"), f(1, b"b")], 2),
        Err(ReassemblyError::DuplicateId { id: 1 })
    );
    assert_eq!(
        reassemble(&vec![f(1, b"a")], 2),
        Err(ReassemblyError::MissingId { id: 0 })
    );
    assert_eq!(
        reassemble(&vec![f(2, b"c"), f(0, b"a"), f(1, b"b")], 3),
        Ok(b"abc".to_vec())
    );
}

#[test]
fn fragments_carry_ids_and_checksums() {
    let data = sample(25);
    let frags = prepare_fragments(&data, 10);
    assert_eq!(frags.len(), 3);
    for (i, f) in frags.iter().enumerate() {
        assert_eq!(f.id as usize, i);
        assert_eq!(f.payload, data[i * 10..(i * 10 + 10).min(25)].to_vec());
        assert_eq!(f.checksum, checksum(&f.payload));
    }
}

#[test]
fn every_arrival_order_gives_the_same_bytes() {
    let data = sample(25);
    let orders = [[0usize, 1, 2], [0, 2, 1], [1, 0, 2], [1, 2, 0], [2, 0, 1], [2, 1, 0]];
    for order in orders {
        let frags = prepare_fragments(&data, 10);
        let arrived: Vec<Fragment> = order
            .iter()
            .map(|&i| Fragment::new(frags[i].id, frags[i].payload.clone()))
            .collect();
        assert_eq!(reassemble(&arrived, 3), Ok(data.clone()));
    }
}

#[test]
fn oversized_header_is_refused_before_the_payload() {
    let mut header = encode_u32(0);
    header.extend(encode_u32(MAX + 1));
    assert!(matches!(handler_step(&header, false, MAX), HandlerStep::TooLarge));
    assert!(matches!(handler_step(&header, true, MAX), HandlerStep::TooLarge));
    let big = vec![0u8; MAX as usize + 1];
    let frame = encode_frame(0, &big);
    assert!(matches!(handler_step(&frame, false, MAX), HandlerStep::TooLarge));
    let exact = encode_frame(0, &big[..MAX as usize]);
    assert!(matches!(handler_step(&exact[..exact.len() - 1], false, MAX), HandlerStep::ReadMore));
    assert!(matches!(handler_step(&exact, false, MAX), HandlerStep::Reply { .. }));
    let mut session = ReceiveSession::new(1);
    session.record_accept();
    session.record_outcome(handler_step(&header, false, MAX));
    assert_eq!(session.anomalies, 1);
    assert!(session.fragments.is_empty());
}

#[test]
fn failed_connection_is_counted_apart() {
    let mut session = ReceiveSession::new(2);
    session.record_accept();
    session.record_failure();
    session.record_accept();
    let f = Fragment::new(1, vec![5]);
    let (fragment, ack) = through_wire(&f);
    session.record_outcome(HandlerStep::Reply { fragment, ack });
    assert_eq!(session.anomalies, 1);
    assert_eq!(session.finish(), Err(ReassemblyError::MissingId { id: 0 }));
}

#[test]
fn duplicate_fragment_in_session_is_an_error() {
    let mut session = ReceiveSession::new(2);
    for _ in 0..2 {
        session.record_accept();
        let (fragment, ack) = through_wire(&Fragment::new(0, vec![1]));
        session.record_outcome(HandlerStep::Reply { fragment, ack });
    }
    assert_eq!(session.finish(), Err(ReassemblyError::DuplicateId { id: 0 }));
}
