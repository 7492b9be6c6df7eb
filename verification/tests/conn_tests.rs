//! Whole connections: framing bound to a role, driven against the hub.
use chagpt::admin::ChaGPTAdminActor;
use chagpt::chagpt::ChaGPTActor;
use chagpt::conn::{Conn, RoleState};
use chagpt::constants::PING_TIMEOUT_MS;
use chagpt::emitter::DanmakuEmitter;
use chagpt::hub::{Hub, Output};
use chagpt::repertoire::{repertoire_saved, Program, Repertoire};
use chagpt::ws::Frame;

fn test_hub() -> Hub {
    Hub::new(b"admin-pass".to_vec(), b"emitter-pass".to_vec())
}

#[test]
fn audience_connection_lifecycle() {
    let mut hub = test_hub();
    repertoire_saved(
        &mut hub,
        Repertoire {
            programs: vec![Program {
                id: 1,
                name: b"n".to_vec(),
                performer: b"p".to_vec(),
                time: b"t".to_vec(),
            }],
            current: 0,
        },
        true,
    );

    let mut conn = Conn::new(5, RoleState::Audience(ChaGPTActor), true);
    let outs = conn.started(&mut hub, 1000);
    // The snapshot goes out before the keepalive handshake, as the connect
    // hook runs first.
    assert_eq!(outs.len(), 2);
    match (&outs[0], &outs[1]) {
        (Output::Reply(snapshot), Output::Reply(handshake)) => {
            assert!(snapshot.starts_with(b"4{\"type\":\"repertoire\""));
            assert!(handshake.starts_with(b"0{\"pingInterval\""));
        }
        _ => panic!("expected two replies"),
    }
    assert!(hub.contains_actor(5));

    // A prefixed submission frame turns into a persistence request.
    let outs = conn.handle_frame(
        &mut hub,
        Frame::Text(b"4{\"type\":\"propose\",\"content\":\"hi\",\"color\":2}".to_vec()),
        2000,
    );
    assert!(matches!(outs.as_slice(), [Output::PersistDanmaku { .. }]));

    // Silence past the timeout stops the connection, and its teardown
    // leaves the registry.
    let outs = conn.timer_fired(&mut hub, 2000 + PING_TIMEOUT_MS);
    assert!(matches!(outs.as_slice(), [Output::Stop { echo: false }]));
    conn.stopped(&mut hub);
    assert!(!hub.contains_actor(5));
}

#[test]
fn admin_connection_login_over_frames() {
    let mut hub = test_hub();
    let mut conn = Conn::new(8, RoleState::Admin(ChaGPTAdminActor::new()), true);
    conn.started(&mut hub, 0);
    let outs = conn.handle_frame(&mut hub, Frame::Text(b"4admin-pass".to_vec()), 10);
    assert_eq!(outs.len(), 1);
    match &outs[0] {
        Output::Reply(p) => assert_eq!(p.as_slice(), b"4admin-pass"),
        _ => panic!("expected the acknowledgement"),
    }
    assert_eq!(hub.current_admin, Some(8));

    // A second admin connection supersedes the first; the first's stale
    // teardown leaves the newer occupant installed.
    let mut newer = Conn::new(9, RoleState::Admin(ChaGPTAdminActor::new()), true);
    newer.started(&mut hub, 20);
    newer.handle_frame(&mut hub, Frame::Text(b"4admin-pass".to_vec()), 30);
    assert_eq!(hub.current_admin, Some(9));
    conn.stopped(&mut hub);
    assert_eq!(hub.current_admin, Some(9));

    // The occupant's own teardown releases the slot.
    newer.stopped(&mut hub);
    assert_eq!(hub.current_admin, None);
}

#[test]
fn emitter_connection_over_frames() {
    let mut hub = test_hub();
    let mut conn = Conn::new(3, RoleState::Emitter(DanmakuEmitter), true);
    conn.started(&mut hub, 0);
    conn.handle_frame(&mut hub, Frame::Text(b"4emitter-pass".to_vec()), 10);
    assert_eq!(hub.current_emitter, Some(3));
    conn.stopped(&mut hub);
    assert_eq!(hub.current_emitter, None);
}

#[test]
fn fragmented_submission_is_reassembled() {
    let mut hub = test_hub();
    let mut conn = Conn::new(5, RoleState::Audience(ChaGPTActor), false);
    conn.started(&mut hub, 0);
    conn.handle_frame(&mut hub, Frame::FirstText(b"{\"type\":\"propose\",".to_vec()), 1);
    conn.handle_frame(&mut hub, Frame::Continue(b"\"content\":\"hi\",".to_vec()), 2);
    let outs = conn.handle_frame(&mut hub, Frame::Last(b"\"color\":7}".to_vec()), 3);
    match outs.as_slice() {
        [Output::PersistDanmaku { content, color }] => {
            assert_eq!(content.as_slice(), b"hi");
            assert_eq!(*color, 7);
        }
        _ => panic!("expected one persistence request"),
    }
}

#[test]
fn close_frame_stops_with_echo() {
    let mut hub = test_hub();
    let mut conn = Conn::new(5, RoleState::Audience(ChaGPTActor), true);
    conn.started(&mut hub, 0);
    let outs = conn.handle_frame(&mut hub, Frame::Close, 1);
    assert!(matches!(outs.as_slice(), [Output::Stop { echo: true }]));
}
