use tiny::control::{
    bytes_eq, dec_bytes, is_stop_token, parse_stop_reply, rpc_decision, stop_reply, stop_token,
    Mode,
};

#[test]
fn stop_token_is_prefix_plus_secret() {
    assert_eq!(stop_token(b"s3cret"), b"stop s3cret".to_vec());
    assert_eq!(stop_token(b""), b"stop ".to_vec());
}

/// The wrong secret is refused without a reply; the exact token stops.
#[test]
fn scenario_control_plane_stop() {
    let token = stop_token(b"right");
    assert_eq!(rpc_decision(b"stop wrong", &token), None);
    assert_eq!(rpc_decision(b"", &token), None);
    // A prefix of the token is not the token.
    assert_eq!(rpc_decision(b"stop righ", &token), None);
    assert_eq!(rpc_decision(b"stop right", &token), Some(Mode::Stop));
    // The reply carries the process id in decimal after the same prefix.
    let reply = stop_reply(4321);
    assert_eq!(reply, b"stop 4321".to_vec());
    assert_eq!(parse_stop_reply(&reply), Some(b"4321".to_vec()));
}

#[test]
fn dec_bytes_writes_decimal() {
    assert_eq!(dec_bytes(0), b"0".to_vec());
    assert_eq!(dec_bytes(7), b"7".to_vec());
    assert_eq!(dec_bytes(10), b"10".to_vec());
    assert_eq!(dec_bytes(65535), b"65535".to_vec());
    assert_eq!(dec_bytes(u64::MAX), b"18446744073709551615".to_vec());
}

#[test]
fn parse_stop_reply_refuses_short_or_alien_replies() {
    assert_eq!(parse_stop_reply(b"stop "), None);
    assert_eq!(parse_stop_reply(b"nope 123"), None);
    assert_eq!(parse_stop_reply(b""), None);
    assert_eq!(parse_stop_reply(b"stop 1"), Some(b"1".to_vec()));
}

/// The acceptor's peek comparison: only the exact token, whole, is the
/// in-band shutdown signal.
#[test]
fn peeked_bytes_must_equal_the_token() {
    let token = stop_token(b"k");
    assert!(is_stop_token(b"stop k", &token));
    assert!(!is_stop_token(b"stop", &token));
    assert!(!is_stop_token(b"stop kk", &token));
    assert!(!is_stop_token(b"", &token));
}

#[test]
fn bytes_eq_compares_contents() {
    assert!(bytes_eq(b"", b""));
    assert!(bytes_eq(b"abc", b"abc"));
    assert!(!bytes_eq(b"abc", b"abd"));
    assert!(!bytes_eq(b"abc", b"ab"));
}
