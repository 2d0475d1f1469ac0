use tiny::fastcgi::{ContentData, ReadStatus};
use tiny::reader::RecordReader;

fn stdin_record(request_id: u16, payload: &[u8]) -> Vec<u8> {
    let mut bytes = vec![
        1,
        5,
        (request_id >> 8) as u8,
        (request_id & 0xff) as u8,
        (payload.len() >> 8) as u8,
        (payload.len() & 0xff) as u8,
        0,
        0,
    ];
    bytes.extend_from_slice(payload);
    bytes
}

#[test]
fn a_partial_record_consumes_nothing() {
    let record = stdin_record(3, b"abc");
    let mut reader = RecordReader::new();
    reader.push(&record[..5]);
    assert!(matches!(reader.next_record(), ReadStatus::NeedMoreBytes));
    // Asking again consumes nothing and still waits.
    assert!(matches!(reader.next_record(), ReadStatus::NeedMoreBytes));
    reader.push(&record[5..]);
    match reader.next_record() {
        ReadStatus::Decoded(rec, used) => {
            assert_eq!(used, record.len());
            match rec.data {
                ContentData::Stream(v) => assert_eq!(v, b"abc".to_vec()),
                _ => panic!("wrong payload"),
            }
        }
        _ => panic!("expected a record"),
    }
}

#[test]
fn compaction_changes_no_outcome() {
    let mut stream = stdin_record(3, b"one");
    stream.extend_from_slice(&stdin_record(3, b"two"));
    let mut reader = RecordReader::new();
    reader.push(&stream);
    assert!(matches!(reader.next_record(), ReadStatus::Decoded(_, _)));
    // Compact between records: the second still decodes the same.
    reader.compact();
    match reader.next_record() {
        ReadStatus::Decoded(rec, _) => match rec.data {
            ContentData::Stream(v) => assert_eq!(v, b"two".to_vec()),
            _ => panic!("wrong payload"),
        },
        _ => panic!("expected a record"),
    }
    assert!(matches!(reader.next_record(), ReadStatus::NeedMoreBytes));
}

#[test]
fn delivery_split_does_not_matter() {
    // The same two records, delivered whole, byte by byte, or in odd
    // chunks, decode identically.
    let mut stream = stdin_record(9, b"hello");
    stream.extend_from_slice(&stdin_record(9, b""));
    for step in [1usize, 2, 3, 7, stream.len()] {
        let mut reader = RecordReader::new();
        let mut fed: usize = 0;
        let mut payloads: Vec<Option<Vec<u8>>> = Vec::new();
        loop {
            match reader.next_record() {
                ReadStatus::NeedMoreBytes => {
                    if fed == stream.len() {
                        break;
                    }
                    reader.compact();
                    let end = (fed + step).min(stream.len());
                    reader.push(&stream[fed..end]);
                    fed = end;
                }
                ReadStatus::Decoded(rec, _) => match rec.data {
                    ContentData::Stream(v) => payloads.push(Some(v)),
                    ContentData::Empty => payloads.push(None),
                    _ => panic!("wrong payload"),
                },
                ReadStatus::Reject(_) => panic!("nothing to reject"),
            }
        }
        assert_eq!(
            payloads,
            vec![Some(b"hello".to_vec()), None],
            "delivery step {}",
            step
        );
    }
}

#[test]
fn a_rejection_consumes_nothing() {
    // Version 2 is not this protocol's version.
    let mut bad = stdin_record(3, b"x");
    bad[0] = 2;
    let mut reader = RecordReader::new();
    reader.push(&bad);
    assert!(matches!(reader.next_record(), ReadStatus::Reject(_)));
    assert!(matches!(reader.next_record(), ReadStatus::Reject(_)));
}
