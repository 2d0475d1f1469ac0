use tiny::connection::{Connection, Status, StepAction};
use tiny::fastcgi::{FastCGI, HeaderType, ReadStatus, Record};
use tiny::reader::RecordReader;

fn record_bytes(t: u8, request_id: u16, payload: &[u8]) -> Vec<u8> {
    let mut bytes = vec![
        1,
        t,
        (request_id >> 8) as u8,
        (request_id & 0xff) as u8,
        (payload.len() >> 8) as u8,
        (payload.len() & 0xff) as u8,
        0,
        0,
    ];
    bytes.extend_from_slice(payload);
    bytes
}

fn begin_request_bytes(request_id: u16, role: u16) -> Vec<u8> {
    record_bytes(
        1,
        request_id,
        &[(role >> 8) as u8, (role & 0xff) as u8, 0, 0, 0, 0, 0, 0],
    )
}

fn params_payload(pairs: &[(&[u8], &[u8])]) -> Vec<u8> {
    let mut p = Vec::new();
    for (k, v) in pairs {
        assert!(k.len() < 128 && v.len() < 128);
        p.push(k.len() as u8);
        p.push(v.len() as u8);
        p.extend_from_slice(k);
        p.extend_from_slice(v);
    }
    p
}

/// Feeds a byte stream to a reader in deliveries of `step` bytes and runs
/// the connection on every decoded record, collecting what the driver did.
fn drive(stream: &[u8], step: usize) -> (Connection, Vec<&'static str>, Vec<Vec<u8>>) {
    let mut reader = RecordReader::new();
    let mut conn = Connection::new();
    let mut actions = Vec::new();
    let mut replies = Vec::new();
    let mut fed: usize = 0;
    loop {
        match reader.next_record() {
            ReadStatus::NeedMoreBytes => {
                if fed == stream.len() {
                    break;
                }
                reader.compact();
                let end = (fed + step).min(stream.len());
                reader.push(&stream[fed..end]);
                fed = end;
            }
            ReadStatus::Decoded(record, _) => {
                match conn.step(record) {
                    StepAction::Continue => actions.push("continue"),
                    StepAction::Reply(bytes) => {
                        actions.push("reply");
                        replies.push(bytes);
                    }
                    StepAction::Invoke => {
                        actions.push("invoke");
                        break;
                    }
                    StepAction::AbortReply(bytes) => {
                        actions.push("abort_reply");
                        replies.push(bytes);
                        break;
                    }
                    StepAction::Abort => {
                        actions.push("abort");
                        break;
                    }
                }
            }
            ReadStatus::Reject(_) => {
                actions.push("reject");
                break;
            }
        }
    }
    (conn, actions, replies)
}

/// A begin request, one params record, the empty params record, the empty
/// stdin record: the handler is invoked once with exactly that mapping and
/// no body, and the response is framed as stdout records plus end-request.
#[test]
fn scenario_responder_get() {
    let mut stream = begin_request_bytes(1, 1);
    stream.extend_from_slice(&record_bytes(
        4,
        1,
        &params_payload(&[(b"REQUEST_METHOD", b"GET")]),
    ));
    stream.extend_from_slice(&record_bytes(4, 1, &[]));
    stream.extend_from_slice(&record_bytes(5, 1, &[]));

    let (conn, actions, _) = drive(&stream, stream.len());
    assert_eq!(actions, vec!["continue", "continue", "continue", "invoke"]);
    assert!(matches!(conn.status, Status::Done));
    assert_eq!(conn.params.len(), 1);
    assert_eq!(conn.params[0].0, b"REQUEST_METHOD".to_vec());
    assert_eq!(conn.params[0].1, b"GET".to_vec());
    assert!(!conn.stdin_seen);

    let response = conn.respond(b"page".to_vec());
    let frames = FastCGI::decode_frames(&response).expect("frames");
    assert_eq!(frames.len(), 3);
    assert!(matches!(frames[0].0.header_type, HeaderType::Stdout));
    assert_eq!(frames[0].1, b"page".to_vec());
    assert!(matches!(frames[1].0.header_type, HeaderType::Stdout));
    assert_eq!(frames[1].1.len(), 0);
    assert!(matches!(frames[2].0.header_type, HeaderType::EndRequest));
    assert_eq!(frames[2].1, vec![0, 0, 0, 0, 0, 0, 0, 0]);
}

/// The same scenario delivered one byte at a time yields the same states,
/// the same mapping and the same actions.
#[test]
fn scenario_responder_get_byte_at_a_time() {
    let mut stream = begin_request_bytes(1, 1);
    stream.extend_from_slice(&record_bytes(
        4,
        1,
        &params_payload(&[(b"REQUEST_METHOD", b"GET")]),
    ));
    stream.extend_from_slice(&record_bytes(4, 1, &[]));
    stream.extend_from_slice(&record_bytes(5, 1, &[]));

    let (conn, actions, _) = drive(&stream, 1);
    assert_eq!(actions, vec!["continue", "continue", "continue", "invoke"]);
    assert!(matches!(conn.status, Status::Done));
    assert_eq!(conn.params.len(), 1);
    assert_eq!(conn.params[0].0, b"REQUEST_METHOD".to_vec());
    assert_eq!(conn.params[0].1, b"GET".to_vec());
}

/// One key/value set split over several params records — delivered byte by
/// byte — reassembles into the same mapping as one record, later values
/// overwriting earlier ones on a duplicate key.
#[test]
fn params_reassembly_across_records() {
    let mut stream = begin_request_bytes(1, 1);
    stream.extend_from_slice(&record_bytes(4, 1, &params_payload(&[(b"A", b"1")])));
    stream.extend_from_slice(&record_bytes(
        4,
        1,
        &params_payload(&[(b"B", b"2"), (b"A", b"3")]),
    ));
    stream.extend_from_slice(&record_bytes(4, 1, &[]));
    stream.extend_from_slice(&record_bytes(5, 1, &[]));
    let (split_conn, actions, _) = drive(&stream, 1);
    assert_eq!(
        actions,
        vec!["continue", "continue", "continue", "continue", "invoke"]
    );

    let mut one = begin_request_bytes(1, 1);
    one.extend_from_slice(&record_bytes(
        4,
        1,
        &params_payload(&[(b"A", b"1"), (b"B", b"2"), (b"A", b"3")]),
    ));
    one.extend_from_slice(&record_bytes(4, 1, &[]));
    one.extend_from_slice(&record_bytes(5, 1, &[]));
    let (one_conn, _, _) = drive(&one, one.len());

    // Same accumulated pair list, hence the same finalized mapping: the
    // later value won under the duplicate name.
    assert_eq!(split_conn.params, one_conn.params);
    assert_eq!(split_conn.param_value(b"A"), Some(&b"3".to_vec()));
    assert_eq!(split_conn.param_value(b"B"), Some(&b"2".to_vec()));
    assert_eq!(split_conn.param_value(b"C"), None);
    assert_eq!(one_conn.param_value(b"A"), Some(&b"3".to_vec()));
}

/// A params record bearing a request id other than the begin request's
/// aborts the connection: no handler invocation, no response.
#[test]
fn scenario_request_id_mismatch_aborts() {
    let mut stream = begin_request_bytes(1, 1);
    stream.extend_from_slice(&record_bytes(
        4,
        2,
        &params_payload(&[(b"REQUEST_METHOD", b"GET")]),
    ));
    stream.extend_from_slice(&record_bytes(4, 1, &[]));
    stream.extend_from_slice(&record_bytes(5, 1, &[]));
    let (conn, actions, replies) = drive(&stream, stream.len());
    assert_eq!(actions, vec!["continue", "abort"]);
    assert!(matches!(conn.status, Status::Aborted));
    assert!(replies.is_empty());
}

/// A capability query with request id zero is answered immediately with a
/// get-values-result record and moves no state.
#[test]
fn scenario_get_values_is_answered_in_place() {
    let mut stream = begin_request_bytes(1, 1);
    stream.extend_from_slice(&record_bytes(9, 0, b"any"));
    stream.extend_from_slice(&record_bytes(4, 1, &[]));
    let (conn, actions, replies) = drive(&stream, stream.len());
    assert_eq!(actions, vec!["continue", "reply", "continue"]);
    assert!(matches!(conn.status, Status::ParamsDone));
    assert_eq!(replies.len(), 1);
    let frames = FastCGI::decode_frames(&replies[0]).expect("frames");
    assert_eq!(frames.len(), 1);
    assert!(matches!(frames[0].0.header_type, HeaderType::GetValuesResult));
    assert_eq!(frames[0].0.request_id, 0);
    let caps = FastCGI::read_param(&frames[0].1).expect("pairs");
    assert_eq!(caps.len(), 3);
    assert_eq!(caps[0].0, b"FCGI_MAX_CONNS".to_vec());
    assert_eq!(caps[0].1, b"1".to_vec());
}

/// An abort request on an open request is answered with the minimal
/// end-request record and ends the connection.
#[test]
fn abort_request_gets_minimal_end_request() {
    let mut stream = begin_request_bytes(6, 1);
    stream.extend_from_slice(&record_bytes(2, 6, &[]));
    let (conn, actions, replies) = drive(&stream, stream.len());
    assert_eq!(actions, vec!["continue", "abort_reply"]);
    assert!(matches!(conn.status, Status::Aborted));
    let frames = FastCGI::decode_frames(&replies[0]).expect("frames");
    assert_eq!(frames.len(), 1);
    assert!(matches!(frames[0].0.header_type, HeaderType::EndRequest));
    assert_eq!(frames[0].0.request_id, 6);
}

/// A stdin record before the params stream is finalized is a protocol
/// violation and aborts the connection.
#[test]
fn stdin_before_params_done_aborts() {
    let mut stream = begin_request_bytes(1, 1);
    stream.extend_from_slice(&record_bytes(5, 1, b"body"));
    let (conn, actions, _) = drive(&stream, stream.len());
    assert_eq!(actions, vec!["continue", "abort"]);
    assert!(matches!(conn.status, Status::Aborted));
}

/// A second begin request on the same connection aborts it.
#[test]
fn second_begin_request_aborts() {
    let mut stream = begin_request_bytes(1, 1);
    stream.extend_from_slice(&begin_request_bytes(1, 1));
    let (conn, actions, _) = drive(&stream, stream.len());
    assert_eq!(actions, vec!["continue", "abort"]);
    assert!(matches!(conn.status, Status::Aborted));
}

/// Stdin records concatenate in arrival order into one body.
#[test]
fn stdin_concatenates_across_records() {
    let mut stream = begin_request_bytes(1, 1);
    stream.extend_from_slice(&record_bytes(4, 1, &[]));
    stream.extend_from_slice(&record_bytes(5, 1, b"hello "));
    stream.extend_from_slice(&record_bytes(5, 1, b"world"));
    stream.extend_from_slice(&record_bytes(5, 1, &[]));
    let (conn, actions, _) = drive(&stream, 3);
    assert_eq!(
        actions,
        vec!["continue", "continue", "continue", "continue", "invoke"]
    );
    assert!(conn.stdin_seen);
    assert_eq!(conn.stdin, b"hello world".to_vec());
}

/// An unknown record type is answered with an unknown-type record and the
/// request goes on unharmed.
#[test]
fn unknown_type_is_reported_and_ignored() {
    let mut stream = begin_request_bytes(1, 1);
    stream.extend_from_slice(&record_bytes(77, 1, &[]));
    stream.extend_from_slice(&record_bytes(4, 1, &[]));
    let (conn, actions, replies) = drive(&stream, stream.len());
    assert_eq!(actions, vec!["continue", "reply", "continue"]);
    assert!(matches!(conn.status, Status::ParamsDone));
    let frames = FastCGI::decode_frames(&replies[0]).expect("frames");
    assert!(matches!(frames[0].0.header_type, HeaderType::UnknownType));
    assert_eq!(frames[0].1[0], 77);
}

/// Stepping a record into a finished connection only aborts; there is no
/// second invocation.
#[test]
fn no_step_leaves_done() {
    let mut conn = Connection::new();
    conn.status = Status::Done;
    let record = Record {
        header: tiny::fastcgi::Header {
            version: 1,
            header_type: tiny::fastcgi::HeaderType::Params,
            request_id: 1,
            content_length: 0,
            padding_length: 0,
            reserved: 0,
        },
        data: tiny::fastcgi::ContentData::Empty,
    };
    assert!(matches!(conn.step(record), StepAction::Abort));
    assert!(matches!(conn.status, Status::Aborted));
}
