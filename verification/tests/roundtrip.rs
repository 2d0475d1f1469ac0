use tiny::fastcgi::{FastCGI, HeaderType};

/// Splits wire bytes into (header, payload) frames or panics.
fn frames_of(bytes: &[u8]) -> Vec<(tiny::fastcgi::Header, Vec<u8>)> {
    FastCGI::decode_frames(bytes).expect("well-formed frames")
}

#[test]
fn stdout_of_empty_payload_is_one_terminator() {
    let bytes = FastCGI::encode_stdout(9, &[]);
    let frames = frames_of(&bytes);
    assert_eq!(frames.len(), 1);
    assert!(matches!(frames[0].0.header_type, HeaderType::Stdout));
    assert_eq!(frames[0].0.request_id, 9);
    assert_eq!(frames[0].1.len(), 0);
}

#[test]
fn stdout_of_small_payload_is_chunk_plus_terminator() {
    let payload = b"hello world".to_vec();
    let bytes = FastCGI::encode_stdout(2, &payload);
    let frames = frames_of(&bytes);
    assert_eq!(frames.len(), 2);
    assert_eq!(frames[0].1, payload);
    assert_eq!(frames[1].1.len(), 0);
    for f in &frames {
        assert!(matches!(f.0.header_type, HeaderType::Stdout));
        assert_eq!(f.0.request_id, 2);
        assert_eq!(f.0.padding_length, 0);
    }
}

#[test]
fn stdout_chunking_counts_and_reassembles() {
    // ceil(S / 65535) data chunks plus one terminator, payloads reassembling
    // to the input, for sizes at and around the chunk boundary.
    for (size, chunks) in [
        (1usize, 1usize),
        (65535, 1),
        (65536, 2),
        (131070, 2),
        (131071, 3),
        (140000, 3),
    ] {
        let payload: Vec<u8> = (0..size).map(|i| (i % 251) as u8).collect();
        let bytes = FastCGI::encode_stdout(1, &payload);
        let frames = frames_of(&bytes);
        assert_eq!(frames.len(), chunks + 1, "size {}", size);
        assert_eq!(frames.last().unwrap().1.len(), 0);
        let mut joined = Vec::new();
        for f in &frames[..frames.len() - 1] {
            assert!(f.1.len() <= 65535);
            assert!(!f.1.is_empty());
            assert_eq!(f.0.content_length as usize, f.1.len());
            joined.extend_from_slice(&f.1);
        }
        assert_eq!(joined, payload, "size {}", size);
    }
}

#[test]
fn end_request_round_trips() {
    let bytes = FastCGI::encode_end_request(7, 0xAABBCCDD);
    let frames = frames_of(&bytes);
    assert_eq!(frames.len(), 1);
    let (h, p) = &frames[0];
    assert!(matches!(h.header_type, HeaderType::EndRequest));
    assert_eq!(h.request_id, 7);
    assert_eq!(p, &vec![0xAA, 0xBB, 0xCC, 0xDD, 0, 0, 0, 0]);
}

#[test]
fn get_values_result_round_trips() {
    let pairs = vec![
        (b"FCGI_MAX_CONNS".to_vec(), b"1".to_vec()),
        (b"FCGI_MAX_REQS".to_vec(), b"10".to_vec()),
    ];
    let bytes = FastCGI::encode_get_values_result(0, pairs.clone());
    let frames = frames_of(&bytes);
    assert_eq!(frames.len(), 1);
    let (h, p) = &frames[0];
    assert!(matches!(h.header_type, HeaderType::GetValuesResult));
    assert_eq!(h.request_id, 0);
    let decoded = FastCGI::read_param(p).expect("pairs");
    assert_eq!(decoded, pairs);
}

#[test]
fn unknown_type_round_trips() {
    let bytes = FastCGI::encode_unknown_type(3, 200);
    let frames = frames_of(&bytes);
    assert_eq!(frames.len(), 1);
    let (h, p) = &frames[0];
    assert!(matches!(h.header_type, HeaderType::UnknownType));
    assert_eq!(p, &vec![200, 0, 0, 0, 0, 0, 0, 0]);
}

#[test]
fn params_record_round_trips_through_read() {
    // Encode a params payload by hand, frame it, decode it with the record
    // decoder: the pairs survive unchanged.
    let mut payload = Vec::new();
    payload.extend_from_slice(&[14, 3]);
    payload.extend_from_slice(b"REQUEST_METHOD");
    payload.extend_from_slice(b"GET");
    let mut bytes = vec![1, 4, 0, 1, 0, payload.len() as u8, 0, 0];
    bytes.extend_from_slice(&payload);
    match FastCGI::read(&bytes, 0) {
        tiny::fastcgi::ReadStatus::Decoded(rec, used) => {
            assert_eq!(used, bytes.len());
            match rec.data {
                tiny::fastcgi::ContentData::Param(pairs) => {
                    assert_eq!(pairs.len(), 1);
                    assert_eq!(pairs[0].0, b"REQUEST_METHOD".to_vec());
                    assert_eq!(pairs[0].1, b"GET".to_vec());
                }
                _ => panic!("wrong payload"),
            }
        }
        _ => panic!("expected a record"),
    }
}
