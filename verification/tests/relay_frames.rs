use agent_mux::orca_mux::relay::frame::{
    Frame, FrameDecoder, FrameError, FrameType, HEADER_LEN, MAX_MESSAGE_SIZE,
};

#[test]
fn round_trips_a_regular_frame() {
    let frame = Frame::new(FrameType::Regular, 7, 3, b"hello".to_vec());
    let mut decoder = FrameDecoder::new();
    decoder.feed(&frame.encode());
    let decoded = decoder.next_frame().unwrap().unwrap();
    assert_eq!(decoded.kind, FrameType::Regular);
    assert_eq!(decoded.id, 7);
    assert_eq!(decoded.ack, 3);
    assert_eq!(decoded.payload, b"hello");
    assert!(decoder.next_frame().unwrap().is_none());
}

#[test]
fn waits_for_a_full_frame_across_chunks() {
    let frame = Frame::new(FrameType::KeepAlive, 1, 1, Vec::new());
    let bytes = frame.encode();
    let (head, tail) = bytes.split_at(6);
    let mut decoder = FrameDecoder::new();
    decoder.feed(head);
    assert!(decoder.next_frame().unwrap().is_none());
    decoder.feed(tail);
    assert_eq!(
        decoder.next_frame().unwrap().unwrap().kind,
        FrameType::KeepAlive
    );
}

#[test]
fn decodes_two_frames_from_one_buffer() {
    let mut bytes = Frame::new(FrameType::Regular, 1, 0, b"a".to_vec()).encode();
    bytes.extend(Frame::new(FrameType::Handshake, 2, 1, b"bb".to_vec()).encode());
    let mut decoder = FrameDecoder::new();
    decoder.feed(&bytes);
    assert_eq!(decoder.next_frame().unwrap().unwrap().id, 1);
    let second = decoder.next_frame().unwrap().unwrap();
    assert_eq!(second.kind, FrameType::Handshake);
    assert_eq!(second.payload, b"bb");
}

#[test]
fn rejects_an_unknown_type() {
    let mut decoder = FrameDecoder::new();
    let mut bytes = vec![7u8];
    bytes.extend_from_slice(&0u32.to_be_bytes());
    bytes.extend_from_slice(&0u32.to_be_bytes());
    bytes.extend_from_slice(&0u32.to_be_bytes());
    decoder.feed(&bytes);
    assert!(matches!(
        decoder.next_frame(),
        Err(FrameError::UnknownType(7))
    ));
}

#[test]
fn frame_bytes_are_big_endian() {
    let bytes = Frame::new(FrameType::KeepAlive, 0x01020304, 0xa0b0c0d0, b"xy".to_vec()).encode();
    assert_eq!(bytes.len(), HEADER_LEN + 2);
    assert_eq!(
        bytes,
        vec![9, 1, 2, 3, 4, 0xa0, 0xb0, 0xc0, 0xd0, 0, 0, 0, 2, b'x', b'y']
    );
}

#[test]
fn oversized_payloads_are_refused_before_the_type() {
    let mut decoder = FrameDecoder::default();
    let mut bytes = vec![7u8, 0, 0, 0, 0, 0, 0, 0, 0];
    bytes.extend_from_slice(&(MAX_MESSAGE_SIZE as u32 + 1).to_be_bytes());
    decoder.feed(&bytes);
    let error = decoder.next_frame().unwrap_err();
    assert_eq!(error, FrameError::Oversized(MAX_MESSAGE_SIZE + 1));
    assert_eq!(
        error.message(),
        "relay frame payload of 16777217 bytes exceeds the 16777216-byte limit"
    );
    assert_eq!(FrameError::UnknownType(7).message(), "unknown relay frame type: 7");
}

#[test]
fn however_a_stream_is_cut_the_same_frames_come_out() {
    let mut bytes = Frame::new(FrameType::Regular, 1, 0, b"one".to_vec()).encode();
    bytes.extend(Frame::new(FrameType::KeepAlive, 2, 1, Vec::new()).encode());
    bytes.extend(Frame::new(FrameType::Handshake, 3, 1, b"three".to_vec()).encode());
    bytes.extend([7u8; HEADER_LEN - 4]);
    bytes.extend([0u8; 4]);
    for cut in 0..=bytes.len() {
        let mut decoder = FrameDecoder::new();
        let mut ids = Vec::new();
        let mut broken = 0;
        for part in [&bytes[..cut], &bytes[cut..]] {
            decoder.feed(part);
            loop {
                match decoder.next_frame() {
                    Ok(Some(frame)) => ids.push(frame.id),
                    Ok(None) => break,
                    Err(error) => {
                        assert_eq!(error, FrameError::UnknownType(7));
                        broken += 1;
                        break;
                    }
                }
            }
        }
        assert_eq!(ids, vec![1, 2, 3], "cut at {cut}");
        assert!(broken >= 1);
    }
}
