use bevy_spicy_networking::framing::{
    decode_frame, decode_header, encode_frame, encode_header, FrameError, FrameFormat,
    FrameReader, FrameStatus, DEFAULT_MAX_PACKET_LENGTH,
};

#[test]
fn default_limit_is_ten_mebibytes() {
    assert_eq!(DEFAULT_MAX_PACKET_LENGTH, 10 * 1024 * 1024);
}

#[test]
fn u32_header_is_big_endian() {
    assert_eq!(encode_header(FrameFormat::U32BigEndian, 0x0102_0304), vec![1, 2, 3, 4]);
    assert_eq!(encode_header(FrameFormat::U32BigEndian, 5), vec![0, 0, 0, 5]);
}

#[test]
fn u64_header_is_little_endian() {
    assert_eq!(
        encode_header(FrameFormat::U64LittleEndian, 0x0102_0304),
        vec![4, 3, 2, 1, 0, 0, 0, 0]
    );
}

#[test]
fn u32_header_keeps_low_bits_of_a_long_length() {
    if usize::BITS == 64 {
        let len = (1usize << 32) + 7;
        assert_eq!(encode_header(FrameFormat::U32BigEndian, len), vec![0, 0, 0, 7]);
    }
}

#[test]
fn headers_decode_to_their_length() {
    for len in [0usize, 1, 255, 256, 65_535, 1 << 20, u32::MAX as usize] {
        for format in [FrameFormat::U32BigEndian, FrameFormat::U64LittleEndian] {
            let header = encode_header(format, len);
            assert_eq!(header.len(), format.header_size());
            assert_eq!(decode_header(format, &header), len as u64);
        }
    }
}

#[test]
fn frame_is_header_then_payload() {
    let frame = encode_frame(FrameFormat::U32BigEndian, b"abc");
    assert_eq!(frame, vec![0, 0, 0, 3, b'a', b'b', b'c']);
    let frame = encode_frame(FrameFormat::U64LittleEndian, b"hi");
    assert_eq!(frame, vec![2, 0, 0, 0, 0, 0, 0, 0, b'h', b'i']);
}

#[test]
fn decode_gives_back_the_payload() {
    for format in [FrameFormat::U32BigEndian, FrameFormat::U64LittleEndian] {
        let payload: Vec<u8> = (0..100u8).collect();
        let mut bytes = encode_frame(format, &payload);
        let used = bytes.len();
        bytes.extend_from_slice(&[9, 9, 9]);
        match decode_frame(format, &bytes, 100) {
            FrameStatus::Complete { payload: p, consumed } => {
                assert_eq!(p, payload);
                assert_eq!(consumed, used);
            }
            other => panic!("unexpected {:?}", other),
        }
    }
}

#[test]
fn decode_waits_for_header_and_body() {
    let frame = encode_frame(FrameFormat::U32BigEndian, b"hello");
    for cut in 0..frame.len() {
        assert!(matches!(
            decode_frame(FrameFormat::U32BigEndian, &frame[..cut], 64),
            FrameStatus::Incomplete
        ));
    }
}

#[test]
fn decode_refuses_oversized_frame_after_header() {
    let frame = encode_frame(FrameFormat::U64LittleEndian, &[0u8; 20]);
    match decode_frame(FrameFormat::U64LittleEndian, &frame[..8], 19) {
        FrameStatus::Refused(FrameError::TooLarge { length, max }) => {
            assert_eq!(length, 20);
            assert_eq!(max, 19);
        }
        other => panic!("unexpected {:?}", other),
    }
    assert!(matches!(
        decode_frame(FrameFormat::U64LittleEndian, &frame, 20),
        FrameStatus::Complete { .. }
    ));
}

#[test]
fn stream_of_frames_decodes_in_order() {
    let payloads: Vec<Vec<u8>> = vec![b"one".to_vec(), vec![], b"three".to_vec()];
    let mut stream = Vec::new();
    for p in &payloads {
        stream.extend(encode_frame(FrameFormat::U32BigEndian, p));
    }
    let mut rest: &[u8] = &stream;
    let mut got = Vec::new();
    loop {
        match decode_frame(FrameFormat::U32BigEndian, rest, 16) {
            FrameStatus::Complete { payload, consumed } => {
                got.push(payload);
                rest = &rest[consumed..];
            }
            FrameStatus::Incomplete => break,
            FrameStatus::Refused(e) => panic!("refused {:?}", e),
        }
    }
    assert_eq!(got, payloads);
    assert!(rest.is_empty());
}

#[test]
fn reader_reads_header_then_body() {
    for format in [FrameFormat::U32BigEndian, FrameFormat::U64LittleEndian] {
        let frame = encode_frame(format, b"payload");
        let mut reader = FrameReader::new(format, 1024);
        let h = reader.next_read_len();
        assert_eq!(h, format.header_size());
        assert_eq!(reader.feed(&frame[..h]), Ok(None));
        assert_eq!(reader.next_read_len(), 7);
        assert_eq!(reader.feed(&frame[h..]), Ok(Some(b"payload".to_vec())));
        assert_eq!(reader.next_read_len(), h);
    }
}

#[test]
fn reader_accepts_empty_payload() {
    let frame = encode_frame(FrameFormat::U32BigEndian, &[]);
    let mut reader = FrameReader::new(FrameFormat::U32BigEndian, 0);
    assert_eq!(reader.feed(&frame), Ok(None));
    assert_eq!(reader.next_read_len(), 0);
    assert_eq!(reader.feed(&[]), Ok(Some(vec![])));
}

#[test]
fn reader_refuses_too_large_packet() {
    let mut reader = FrameReader::new(FrameFormat::U32BigEndian, 10);
    let header = encode_header(FrameFormat::U32BigEndian, 11);
    assert_eq!(reader.feed(&header), Err(FrameError::TooLarge { length: 11, max: 10 }));
    // The limit itself is accepted.
    let mut reader = FrameReader::new(FrameFormat::U32BigEndian, 10);
    let header = encode_header(FrameFormat::U32BigEndian, 10);
    assert_eq!(reader.feed(&header), Ok(None));
}

#[test]
fn reader_fed_a_stream_gives_back_the_payloads_in_order() {
    for format in [FrameFormat::U32BigEndian, FrameFormat::U64LittleEndian] {
        let payloads: Vec<Vec<u8>> = vec![b"first".to_vec(), vec![], b"third!".to_vec()];
        let mut stream = Vec::new();
        for p in &payloads {
            stream.extend(encode_frame(format, p));
        }
        let mut reader = FrameReader::new(format, 64);
        let mut pos = 0;
        let mut got = Vec::new();
        while pos < stream.len() {
            let n = reader.next_read_len();
            let piece = &stream[pos..pos + n];
            pos += n;
            if let Some(p) = reader.feed(piece).unwrap() {
                got.push(p);
            }
        }
        assert_eq!(got, payloads);
    }
}
