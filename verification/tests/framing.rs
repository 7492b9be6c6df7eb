//! The framing layer: fragment reassembly, the keepalive sub-protocol, and
//! the heartbeat timers.
use chagpt::constants::{LENGTH_LIMIT, PING_INTERVAL_MS, PING_TIMEOUT_MS};
use chagpt::ws::{Effect, Frame, WsActor};

fn dispatched_text(effects: &[Effect]) -> Option<Vec<u8>> {
    for e in effects {
        if let Effect::DispatchText(t) = e {
            return Some(t.clone());
        }
    }
    None
}

fn dispatched_binary(effects: &[Effect]) -> Option<Vec<u8>> {
    for e in effects {
        if let Effect::DispatchBinary(t) = e {
            return Some(t.clone());
        }
    }
    None
}

#[test]
fn handshake_on_start() {
    let mut ws = WsActor::new(true);
    let effects = ws.started(1000);
    assert_eq!(effects.len(), 1);
    match &effects[0] {
        Effect::Reply(p) => assert_eq!(
            p.as_slice(),
            b"0{\"pingInterval\":18320,\"pingTimeout\":10240,\"upgrades\":[]}".as_slice()
        ),
        _ => panic!("expected the handshake reply"),
    }
}

#[test]
fn no_handshake_without_engine_io() {
    let mut ws = WsActor::new(false);
    let effects = ws.started(1000);
    assert!(effects.is_empty());
}

#[test]
fn reassembly_matches_single_frame() {
    // A text message split into three chunks dispatches the same message a
    // single complete frame would.
    let mut ws = WsActor::new(false);
    assert!(ws.handle(Frame::FirstText(b"hel".to_vec()), 1).is_empty());
    assert!(ws.handle(Frame::Continue(b"lo wo".to_vec()), 2).is_empty());
    let effects = ws.handle(Frame::Last(b"rld".to_vec()), 3);
    assert_eq!(dispatched_text(&effects).unwrap(), b"hello world".to_vec());

    let mut single = WsActor::new(false);
    let effects = single.handle(Frame::Text(b"hello world".to_vec()), 3);
    assert_eq!(dispatched_text(&effects).unwrap(), b"hello world".to_vec());
}

#[test]
fn reassembled_text_gets_prefix_interpretation() {
    // With the keepalive protocol active, a reassembled text message is
    // read exactly as a text frame that arrived whole: the prefix is
    // interpreted, not dispatched.
    let mut ws = WsActor::new(true);
    ws.started(0);
    ws.handle(Frame::FirstText(b"4hel".to_vec()), 1);
    let effects = ws.handle(Frame::Last(b"lo".to_vec()), 2);
    assert_eq!(dispatched_text(&effects).unwrap(), b"hello".to_vec());

    // A fragmented ping is answered with a pong, like a whole one.
    let mut ws = WsActor::new(true);
    ws.started(0);
    ws.handle(Frame::FirstText(b"".to_vec()), 1);
    let effects = ws.handle(Frame::Last(b"2".to_vec()), 2);
    assert_eq!(effects.len(), 1);
    match &effects[0] {
        Effect::Reply(p) => assert_eq!(p.as_slice(), b"3"),
        _ => panic!("expected a pong reply"),
    }

    // A fragmented message with an unknown prefix is ignored.
    let mut ws = WsActor::new(true);
    ws.started(0);
    ws.handle(Frame::FirstText(b"9he".to_vec()), 1);
    assert!(ws.handle(Frame::Last(b"llo".to_vec()), 2).is_empty());
}

#[test]
fn reassembly_capped_at_limit() {
    let mut ws = WsActor::new(false);
    let first = vec![b'a'; LENGTH_LIMIT - 2];
    assert!(ws.handle(Frame::FirstBinary(first), 1).is_empty());
    // Ten more bytes would exceed the cap: only two fit.
    let effects = ws.handle(Frame::Last(vec![b'b'; 10]), 2);
    let out = dispatched_binary(&effects).unwrap();
    assert_eq!(out.len(), LENGTH_LIMIT);
    assert_eq!(out[LENGTH_LIMIT - 3], b'a');
    assert_eq!(out[LENGTH_LIMIT - 2], b'b');
    assert_eq!(out[LENGTH_LIMIT - 1], b'b');
}

#[test]
fn oversized_first_chunk_truncated() {
    let mut ws = WsActor::new(false);
    let first = vec![b'x'; LENGTH_LIMIT + 5];
    ws.handle(Frame::FirstBinary(first), 1);
    let effects = ws.handle(Frame::Last(Vec::new()), 2);
    assert_eq!(dispatched_binary(&effects).unwrap().len(), LENGTH_LIMIT);
}

#[test]
fn fragmented_text_cut_to_valid_utf8_prefix() {
    // The two bytes of a UTF-8 character split across chunks survive; a
    // trailing lone continuation byte is cut off.
    let mut ws = WsActor::new(false);
    ws.handle(Frame::FirstText(vec![b'a', 0xc3]), 1);
    let effects = ws.handle(Frame::Last(vec![0xa9, 0xc3]), 2);
    assert_eq!(dispatched_text(&effects).unwrap(), vec![b'a', 0xc3, 0xa9]);
}

#[test]
fn engine_io_prefixes() {
    let mut ws = WsActor::new(true);
    ws.started(0);
    // Ping: reply with a pong.
    let effects = ws.handle(Frame::Text(b"2".to_vec()), 1);
    assert_eq!(effects.len(), 1);
    match &effects[0] {
        Effect::Reply(p) => assert_eq!(p.as_slice(), b"3"),
        _ => panic!("expected a pong reply"),
    }
    // Pong: consumed silently.
    assert!(ws.handle(Frame::Text(b"3".to_vec()), 2).is_empty());
    // Message: stripped and dispatched.
    let effects = ws.handle(Frame::Text(b"4hello".to_vec()), 3);
    assert_eq!(dispatched_text(&effects).unwrap(), b"hello".to_vec());
    // Unknown prefix: ignored.
    assert!(ws.handle(Frame::Text(b"9hello".to_vec()), 4).is_empty());
    assert!(ws.handle(Frame::Text(Vec::new()), 5).is_empty());
}

#[test]
fn close_and_error_stop_the_connection() {
    let mut ws = WsActor::new(true);
    ws.started(0);
    let effects = ws.handle(Frame::Close, 1);
    assert!(matches!(effects.as_slice(), [Effect::Stop { echo: true }]));

    let mut ws = WsActor::new(true);
    ws.started(0);
    let effects = ws.handle(Frame::Error, 1);
    assert!(matches!(effects.as_slice(), [Effect::Stop { echo: false }]));
}

#[test]
fn idle_timeout_closes_connection() {
    let mut ws = WsActor::new(true);
    ws.started(1000);
    ws.handle(Frame::Text(b"4hi".to_vec()), 2000);
    // A tick just before the deadline does not close.
    let effects = ws.timer_fired(2000 + PING_TIMEOUT_MS - 1);
    assert!(!effects.iter().any(|e| matches!(e, Effect::Stop { .. })));
    // A tick at the deadline closes.
    let mut ws = WsActor::new(true);
    ws.started(1000);
    ws.handle(Frame::Text(b"4hi".to_vec()), 2000);
    let effects = ws.timer_fired(2000 + PING_TIMEOUT_MS);
    assert!(matches!(effects.as_slice(), [Effect::Stop { echo: false }]));
}

#[test]
fn pong_just_before_expiry_prevents_closure() {
    let mut ws = WsActor::new(true);
    ws.started(0);
    // The peer stays silent almost to the deadline, then pongs.
    let t1 = PING_TIMEOUT_MS - 1;
    ws.handle(Frame::Text(b"3".to_vec()), t1);
    // The old deadline passes without a closure.
    let effects = ws.timer_fired(PING_TIMEOUT_MS + 5);
    assert!(!effects.iter().any(|e| matches!(e, Effect::Stop { .. })));
    // The pushed-back deadline still closes eventually.
    let effects = ws.timer_fired(t1 + PING_TIMEOUT_MS);
    assert!(matches!(effects.as_slice(), [Effect::Stop { echo: false }]));
}

#[test]
fn ping_timer_sends_one_ping() {
    let mut ws = WsActor::new(true);
    ws.started(0);
    let effects = ws.timer_fired(PING_INTERVAL_MS);
    assert_eq!(effects.len(), 1);
    match &effects[0] {
        Effect::Reply(p) => assert_eq!(p.as_slice(), b"2"),
        _ => panic!("expected a ping"),
    }
    // Once fired it stays disarmed until the peer answers.
    let effects = ws.timer_fired(PING_INTERVAL_MS + 10);
    assert!(effects.is_empty());
}
