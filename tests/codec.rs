use websocket_server::frame::{decode, Frame, FrameError, OpCode};

fn masked(first: u8, key: [u8; 4], payload: &[u8]) -> Vec<u8> {
    let mut out = vec![first];
    let n = payload.len();
    if n < 126 {
        out.push(0x80 | n as u8);
    } else if n < 65536 {
        out.push(0x80 | 126);
        out.extend_from_slice(&(n as u16).to_be_bytes());
    } else {
        out.push(0x80 | 127);
        out.extend_from_slice(&(n as u64).to_be_bytes());
    }
    out.extend_from_slice(&key);
    for (i, b) in payload.iter().enumerate() {
        out.push(b ^ key[i % 4]);
    }
    out
}

#[test]
fn decode_masked_hello_from_the_rfc() {
    let wire = [0x81u8, 0x85, 0x37, 0xfa, 0x21, 0x3d, 0x7f, 0x9f, 0x4d, 0x51, 0x58];
    let (f, used) = decode(&wire).unwrap().unwrap();
    assert_eq!(used, 11);
    assert!(f.fin);
    assert_eq!(f.opcode, OpCode::Text);
    assert!(f.masked);
    assert_eq!(f.mask_key, Some([0x37, 0xfa, 0x21, 0x3d]));
    assert_eq!(f.payload, b"Hello".to_vec());
}

#[test]
fn decode_masked_recovers_payload_for_every_length_class() {
    let key = [0xde, 0xad, 0xbe, 0xef];
    for n in [0usize, 1, 5, 125, 126, 300, 65535, 65536, 70000] {
        let payload: Vec<u8> = (0..n).map(|i| (i * 7 % 251) as u8).collect();
        let wire = masked(0x82, key, &payload);
        let (f, used) = decode(&wire).unwrap().unwrap();
        assert_eq!(used, wire.len());
        assert_eq!(f.opcode, OpCode::Binary);
        assert_eq!(f.payload, payload);
    }
}

#[test]
fn decode_of_encode_round_trips() {
    let ops = [OpCode::Continuation, OpCode::Text, OpCode::Binary, OpCode::Close, OpCode::Ping, OpCode::Pong];
    for n in [0usize, 3, 125, 126, 127, 65535, 65536, 100000] {
        for (k, op) in ops.iter().enumerate() {
            let payload: Vec<u8> = (0..n).map(|i| (i + k) as u8).collect();
            let f = Frame { fin: k % 2 == 0, opcode: *op, masked: false, mask_key: None, payload: payload.clone() };
            let wire = f.encode();
            let (g, used) = decode(&wire).unwrap().unwrap();
            assert_eq!(used, wire.len());
            assert_eq!(g.fin, f.fin);
            assert_eq!(g.opcode, *op);
            assert!(!g.masked);
            assert_eq!(g.mask_key, None);
            assert_eq!(g.payload, payload);
        }
    }
}

#[test]
fn encode_writes_exact_headers() {
    let f = Frame::text(b"Hi there!".to_vec());
    let mut expected = vec![0x81u8, 9];
    expected.extend_from_slice(b"Hi there!");
    assert_eq!(f.encode(), expected);

    let f = Frame { fin: false, opcode: OpCode::Binary, masked: true, mask_key: Some([1, 2, 3, 4]), payload: vec![0; 126] };
    let wire = f.encode();
    assert_eq!(&wire[..4], &[0x02u8, 126, 0, 126]);
    assert_eq!(wire.len(), 4 + 126);

    let f = Frame { fin: true, opcode: OpCode::Ping, masked: false, mask_key: None, payload: vec![9; 65536] };
    let wire = f.encode();
    assert_eq!(&wire[..10], &[0x89u8, 127, 0, 0, 0, 0, 0, 1, 0, 0]);
    assert_eq!(wire.len(), 10 + 65536);
}

#[test]
fn decode_reports_incomplete_frames() {
    let wire = masked(0x81, [1, 2, 3, 4], b"hello world");
    for cut in 0..wire.len() {
        assert!(matches!(decode(&wire[..cut]), Ok(None)), "cut at {}", cut);
    }
    let long = masked(0x81, [1, 2, 3, 4], &vec![b'a'; 300]);
    assert!(matches!(decode(&long[..3]), Ok(None)));
}

#[test]
fn decode_takes_only_the_first_frame() {
    let mut wire = masked(0x81, [5, 6, 7, 8], b"one");
    let first = wire.len();
    wire.extend(masked(0x81, [5, 6, 7, 8], b"two"));
    let (f, used) = decode(&wire).unwrap().unwrap();
    assert_eq!(used, first);
    assert_eq!(f.payload, b"one".to_vec());
}

#[test]
fn decode_rejects_unknown_opcode() {
    for code in [3u8, 4, 5, 6, 7, 11, 12, 13, 14, 15] {
        let wire = [0x80 | code, 0x00];
        assert!(matches!(decode(&wire), Err(FrameError::UnknownOpcode)));
    }
}

#[test]
fn opcode_bits_round_trip() {
    for b in 0u8..16 {
        match OpCode::from_bits(b) {
            Some(op) => assert_eq!(op.to_bits(), b),
            None => assert!(![0u8, 1, 2, 8, 9, 10].contains(&b)),
        }
    }
}
