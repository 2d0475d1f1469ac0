use tiny::fastcgi::{ContentData, FastCGI, Header, HeaderType, ReadStatus, Record, Role};

fn header_bytes(t: u8, request_id: u16, content_length: u16, padding: u8) -> Vec<u8> {
    vec![
        1,
        t,
        (request_id >> 8) as u8,
        (request_id & 0xff) as u8,
        (content_length >> 8) as u8,
        (content_length & 0xff) as u8,
        padding,
        0,
    ]
}

#[test]
fn read_header_accepts_version_one() {
    let bytes = header_bytes(1, 7, 8, 0);
    let h = FastCGI::read_header(&bytes).expect("header");
    assert_eq!(h.version, 1);
    assert!(matches!(h.header_type, HeaderType::BeginRequest));
    assert_eq!(h.request_id, 7);
    assert_eq!(h.content_length, 8);
    assert_eq!(h.padding_length, 0);
}

#[test]
fn read_header_rejects_other_versions() {
    let mut bytes = header_bytes(1, 7, 8, 0);
    bytes[0] = 2;
    assert!(FastCGI::read_header(&bytes).is_none());
}

#[test]
fn get_role_maps_the_three_roles() {
    assert!(matches!(FastCGI::get_role(1), Role::Responder));
    assert!(matches!(FastCGI::get_role(2), Role::Authorized));
    assert!(matches!(FastCGI::get_role(3), Role::Filter));
    assert!(matches!(FastCGI::get_role(0), Role::Error));
    assert!(matches!(FastCGI::get_role(9), Role::Error));
}

#[test]
fn header_type_codes_round_trip() {
    for code in 1u8..=11u8 {
        let t = FastCGI::get_header_type(code);
        assert_eq!(FastCGI::set_header_type(t), code);
    }
    assert!(matches!(FastCGI::get_header_type(42), HeaderType::Error(42)));
}

#[test]
fn read_param_decodes_short_pairs() {
    // "A" => "xy" with one-byte length prefixes.
    let payload = vec![1, 2, b'A', b'x', b'y'];
    let pairs = FastCGI::read_param(&payload).expect("pairs");
    assert_eq!(pairs.len(), 1);
    assert_eq!(pairs[0].0, b"A".to_vec());
    assert_eq!(pairs[0].1, b"xy".to_vec());
}

#[test]
fn read_param_decodes_long_length_prefix() {
    // A 128-byte value forces the four-byte prefix with the top bit set.
    let mut payload = vec![1, 0x80, 0, 0, 128, b'K'];
    let value = vec![7u8; 128];
    payload.extend_from_slice(&value);
    let pairs = FastCGI::read_param(&payload).expect("pairs");
    assert_eq!(pairs.len(), 1);
    assert_eq!(pairs[0].0, b"K".to_vec());
    assert_eq!(pairs[0].1, value);
}

#[test]
fn read_param_boundary_at_127_and_128() {
    // Length 127 still uses the one-byte form; its encoding round-trips.
    let key = vec![b'k'; 127];
    let mut payload = vec![127, 1];
    payload.extend_from_slice(&key);
    payload.push(b'v');
    let pairs = FastCGI::read_param(&payload).expect("pairs");
    assert_eq!(pairs[0].0, key);
    assert_eq!(pairs[0].1, vec![b'v']);
}

#[test]
fn read_param_rejects_empty_payload_and_empty_key() {
    assert!(FastCGI::read_param(&[]).is_none());
    // Zero-length key.
    assert!(FastCGI::read_param(&[0, 1, b'v']).is_none());
}

#[test]
fn read_param_rejects_length_past_boundary() {
    // Declared value length runs past the payload end.
    assert!(FastCGI::read_param(&[1, 5, b'k', b'v']).is_none());
    // Truncated four-byte prefix.
    assert!(FastCGI::read_param(&[0x80, 0, 0]).is_none());
}

#[test]
fn read_decodes_a_begin_request() {
    let mut bytes = header_bytes(1, 5, 8, 0);
    bytes.extend_from_slice(&[0, 1, 0, 0, 0, 0, 0, 0]);
    match FastCGI::read(&bytes, 0) {
        ReadStatus::Decoded(rec, used) => {
            assert_eq!(used, 16);
            assert_eq!(rec.header.request_id, 5);
            match rec.data {
                ContentData::BeginRequest(b) => {
                    assert!(matches!(b.role, Role::Responder));
                    assert_eq!(b.flags, 0);
                }
                _ => panic!("wrong payload"),
            }
        }
        _ => panic!("expected a record"),
    }
}

#[test]
fn read_needs_more_bytes_for_partial_records() {
    let bytes = header_bytes(1, 5, 8, 0);
    // Header only: the begin-request payload is missing.
    assert!(matches!(FastCGI::read(&bytes, 0), ReadStatus::NeedMoreBytes));
    // Not even a whole header.
    assert!(matches!(FastCGI::read(&bytes[..4], 0), ReadStatus::NeedMoreBytes));
}

#[test]
fn read_rejects_bad_version_and_zero_request_id() {
    let mut bytes = header_bytes(1, 5, 8, 0);
    bytes[0] = 9;
    assert!(matches!(FastCGI::read(&bytes, 0), ReadStatus::Reject(_)));
    let mut bytes = header_bytes(5, 0, 0, 0);
    bytes[0] = 1;
    assert!(matches!(FastCGI::read(&bytes, 0), ReadStatus::Reject(_)));
}

#[test]
fn read_rejects_output_only_types() {
    for t in [3u8, 6, 7, 10, 11] {
        let bytes = header_bytes(t, 4, 0, 0);
        assert!(
            matches!(FastCGI::read(&bytes, 0), ReadStatus::Reject(_)),
            "type {} must be rejected",
            t
        );
    }
}

#[test]
fn read_skips_padding() {
    let mut bytes = header_bytes(5, 3, 2, 3);
    bytes.extend_from_slice(&[10, 20, 0, 0, 0]);
    match FastCGI::read(&bytes, 0) {
        ReadStatus::Decoded(rec, used) => {
            assert_eq!(used, 13);
            match rec.data {
                ContentData::Stream(v) => assert_eq!(v, vec![10, 20]),
                _ => panic!("wrong payload"),
            }
        }
        _ => panic!("expected a record"),
    }
}

#[test]
fn record_array_writes_header_and_end_payload() {
    let record = Record {
        header: Header {
            version: 1,
            header_type: HeaderType::EndRequest,
            request_id: 258,
            content_length: 8,
            padding_length: 0,
            reserved: 0,
        },
        data: ContentData::End(tiny::fastcgi::End { code: 0x01020304, protocol: 0 }),
    };
    let bytes = FastCGI::record_array(record);
    assert_eq!(
        bytes,
        vec![1, 3, 1, 2, 0, 8, 0, 0, 1, 2, 3, 4, 0, 0, 0, 0]
    );
}

#[test]
fn decode_frames_splits_concatenated_records() {
    let mut bytes = Vec::new();
    bytes.extend_from_slice(&FastCGI::encode_unknown_type(4, 42));
    bytes.extend_from_slice(&FastCGI::encode_end_request(4, 0));
    let frames = FastCGI::decode_frames(&bytes).expect("frames");
    assert_eq!(frames.len(), 2);
    assert!(matches!(frames[0].0.header_type, HeaderType::UnknownType));
    assert_eq!(frames[0].1[0], 42);
    assert!(matches!(frames[1].0.header_type, HeaderType::EndRequest));
    assert!(FastCGI::decode_frames(&bytes[..bytes.len() - 1]).is_none());
}
