//! The registries, the slots, the moderation pipeline, and the repertoire
//! cache, driven through the role handlers.
use chagpt::admin::ChaGPTAdminActor;
use chagpt::chagpt::ChaGPTActor;
use chagpt::danmaku::{danmaku_persisted, Danmaku};
use chagpt::emitter::DanmakuEmitter;
use chagpt::hub::{Hub, Output};
use chagpt::repertoire::{repertoire_loaded, repertoire_saved, Program, Repertoire};

fn test_hub() -> Hub {
    Hub::new(b"admin-pass".to_vec(), b"emitter-pass".to_vec())
}

fn sample_repertoire() -> Repertoire {
    Repertoire {
        programs: vec![Program {
            id: 1,
            name: b"overture".to_vec(),
            performer: b"the band".to_vec(),
            time: b"19:00".to_vec(),
        }],
        current: 0,
    }
}

#[test]
fn audience_membership_reflects_connect_disconnect() {
    let mut hub = test_hub();
    let audience = ChaGPTActor;
    audience.started(&mut hub, 10);
    audience.started(&mut hub, 11);
    assert!(hub.contains_actor(10));
    assert!(hub.contains_actor(11));
    // A double insert is a benign no-op.
    audience.started(&mut hub, 10);
    assert_eq!(hub.actors.len(), 2);
    audience.stopped(&mut hub, 10);
    assert!(!hub.contains_actor(10));
    assert!(hub.contains_actor(11));
    // A double remove is a benign no-op.
    audience.stopped(&mut hub, 10);
    assert_eq!(hub.actors.len(), 1);
}

#[test]
fn broadcast_to_empty_registry_is_noop() {
    let hub = test_hub();
    let outs = hub.broadcast(&b"4x".to_vec());
    assert!(outs.is_empty());
}

#[test]
fn broadcast_reaches_survivors_when_one_recipient_fails() {
    // The broadcast yields one independent send per member; a delivery
    // failure consumes only its own output, as the driving loop does.
    let mut hub = test_hub();
    let audience = ChaGPTActor;
    for id in [1u64, 2, 3] {
        audience.started(&mut hub, id);
    }
    let outs = hub.broadcast(&b"4x".to_vec());
    assert_eq!(outs.len(), 3);
    let failing = 2u64;
    let mut delivered = Vec::new();
    for out in &outs {
        match out {
            Output::Send { to, payload } => {
                if *to == failing {
                    continue; // the failed send is logged and swallowed
                }
                assert_eq!(payload.as_slice(), b"4x");
                delivered.push(*to);
            }
            _ => panic!("expected only sends"),
        }
    }
    assert_eq!(delivered, vec![1, 3]);
}

#[test]
fn admin_login_and_slot() {
    let mut hub = test_hub();
    let mut admin = ChaGPTAdminActor::new();
    // A wrong secret is silently ignored.
    let outs = admin.handle_text(&mut hub, 7, b"not-it");
    assert!(outs.is_empty());
    assert_eq!(hub.current_admin, None);
    // The right secret, with surrounding whitespace, logs in, acknowledges
    // with the secret, and takes the slot.
    let outs = admin.handle_text(&mut hub, 7, b"  admin-pass \n");
    assert_eq!(outs.len(), 1);
    match &outs[0] {
        Output::Reply(p) => assert_eq!(p.as_slice(), b"4admin-pass"),
        _ => panic!("expected the login acknowledgement"),
    }
    assert_eq!(hub.current_admin, Some(7));
}

#[test]
fn slots_hold_last_authenticated_connection() {
    let mut hub = test_hub();
    // Three emitter connections authenticate in sequence.
    let emitter = DanmakuEmitter;
    for id in [21u64, 22, 23] {
        emitter.handle_text(&mut hub, id, b"emitter-pass");
    }
    assert_eq!(hub.current_emitter, Some(23));
    // A stale disconnect from a superseded connection does not clear it.
    emitter.stopped(&mut hub, 21);
    assert_eq!(hub.current_emitter, Some(23));
    // The current occupant's own disconnect does.
    emitter.stopped(&mut hub, 23);
    assert_eq!(hub.current_emitter, None);

    // The admin slot likewise holds the last to authenticate.
    for id in [31u64, 32] {
        let mut admin = ChaGPTAdminActor::new();
        admin.handle_text(&mut hub, id, b"admin-pass");
    }
    assert_eq!(hub.current_admin, Some(32));
    // A stale admin disconnect does not clear the slot; the occupant's
    // own disconnect does.
    ChaGPTAdminActor::new().stopped(&mut hub, 31);
    assert_eq!(hub.current_admin, Some(32));
    ChaGPTAdminActor::new().stopped(&mut hub, 32);
    assert_eq!(hub.current_admin, None);
}

#[test]
fn submission_example_reaches_audience_and_admin() {
    // Submit {"type":"propose","content":"hi","color":16711680}; storage
    // assigns id 7; every audience member and the admin receive the
    // envelope.
    let mut hub = test_hub();
    let audience = ChaGPTActor;
    audience.started(&mut hub, 1);
    audience.started(&mut hub, 2);
    let mut admin = ChaGPTAdminActor::new();
    admin.handle_text(&mut hub, 9, b"admin-pass");

    let outs = audience.handle_text(&hub, b"{\"type\":\"propose\",\"content\":\"hi\",\"color\":16711680}");
    assert_eq!(outs.len(), 1);
    let (content, color) = match &outs[0] {
        Output::PersistDanmaku { content, color } => (content.clone(), *color),
        _ => panic!("expected a persistence request"),
    };
    assert_eq!(content.as_slice(), b"hi");
    assert_eq!(color, 16711680);

    let danmaku = Danmaku { id: 7, content, time: 1234, color };
    let outs = danmaku_persisted(&hub, &danmaku);
    let expected = b"4{\"type\":\"danmaku\",\"id\":7,\"content\":\"hi\",\"time\":1234,\"color\":16711680}";
    assert_eq!(outs.len(), 3);
    let mut targets = Vec::new();
    for out in &outs {
        match out {
            Output::Send { to, payload } => {
                assert_eq!(payload.as_slice(), expected.as_slice());
                targets.push(*to);
            }
            _ => panic!("expected only sends"),
        }
    }
    assert_eq!(targets, vec![1, 2, 9]);
}

#[test]
fn oversized_submission_is_dropped() {
    let hub = test_hub();
    let audience = ChaGPTActor;
    // 129 characters of content: parsed but never persisted.
    let long = "x".repeat(129);
    let text = format!("{{\"type\":\"propose\",\"content\":\"{}\",\"color\":1}}", long);
    assert!(audience.handle_text(&hub, text.as_bytes()).is_empty());
    // 128 characters pass.
    let ok = "x".repeat(128);
    let text = format!("{{\"type\":\"propose\",\"content\":\"{}\",\"color\":1}}", ok);
    assert_eq!(audience.handle_text(&hub, text.as_bytes()).len(), 1);
    // The cap counts scalar values, not bytes: 128 two-byte characters pass.
    let wide = "\u{00e9}".repeat(128);
    let text = format!("{{\"type\":\"propose\",\"content\":\"{}\",\"color\":1}}", wide);
    assert_eq!(audience.handle_text(&hub, text.as_bytes()).len(), 1);
}

#[test]
fn content_limit_is_configurable() {
    let mut hub = test_hub();
    let audience = ChaGPTActor;
    let long = "x".repeat(129);
    let text = format!("{{\"type\":\"propose\",\"content\":\"{}\",\"color\":1}}", long);
    // The default cap refuses it; a raised cap or no cap accepts it.
    assert!(audience.handle_text(&hub, text.as_bytes()).is_empty());
    hub.content_limit = Some(129);
    assert_eq!(audience.handle_text(&hub, text.as_bytes()).len(), 1);
    hub.content_limit = None;
    assert_eq!(audience.handle_text(&hub, text.as_bytes()).len(), 1);
}

#[test]
fn direct_to_emitter_shortcut_is_configurable() {
    let mut hub = test_hub();
    let audience = ChaGPTActor;
    audience.started(&mut hub, 1);
    hub.set_emitter(40);
    let danmaku = Danmaku { id: 1, content: b"hi".to_vec(), time: 5, color: 2 };
    // Moderated routing (the default): the emitter hears nothing.
    let outs = danmaku_persisted(&hub, &danmaku);
    assert_eq!(outs.len(), 1);
    assert!(outs.iter().all(|o| !matches!(o, Output::Send { to: 40, .. })));
    // The direct shortcut also sends the envelope to the emitter.
    hub.direct_to_emitter = true;
    let outs = danmaku_persisted(&hub, &danmaku);
    assert_eq!(outs.len(), 2);
    assert!(matches!(outs[1], Output::Send { to: 40, .. }));
}

#[test]
fn malformed_submission_is_dropped() {
    let hub = test_hub();
    let audience = ChaGPTActor;
    assert!(audience.handle_text(&hub, b"not json").is_empty());
    assert!(audience
        .handle_text(&hub, b"{\"type\":\"propose\",\"content\":\"hi\"}")
        .is_empty());
    assert!(audience
        .handle_text(&hub, b"{\"type\":\"other\",\"content\":\"hi\",\"color\":1}")
        .is_empty());
}

#[test]
fn snapshot_sent_only_after_an_update() {
    let mut hub = test_hub();
    let audience = ChaGPTActor;
    // Before any update: no snapshot.
    let outs = audience.started(&mut hub, 1);
    assert!(outs.is_empty());

    // A successful update replaces the cache and announces to the audience.
    let outs = repertoire_saved(&mut hub, sample_repertoire(), true);
    let expected = b"4{\"type\":\"repertoire\",\"programs\":[{\"id\":1,\"name\":\"overture\",\"performer\":\"the band\",\"time\":\"19:00\"}],\"current\":0}";
    assert_eq!(outs.len(), 1);
    match &outs[0] {
        Output::Send { to, payload } => {
            assert_eq!(*to, 1);
            assert_eq!(payload.as_slice(), expected.as_slice());
        }
        _ => panic!("expected the announcement"),
    }

    // A newly connecting member receives exactly that snapshot.
    let outs = audience.started(&mut hub, 2);
    assert_eq!(outs.len(), 1);
    match &outs[0] {
        Output::Reply(p) => assert_eq!(p.as_slice(), expected.as_slice()),
        _ => panic!("expected the snapshot"),
    }

    // A failed update changes nothing and stays silent.
    let mut other = sample_repertoire();
    other.current = 5;
    let outs = repertoire_saved(&mut hub, other, false);
    assert!(outs.is_empty());
    let outs = audience.started(&mut hub, 3);
    match &outs[0] {
        Output::Reply(p) => assert_eq!(p.as_slice(), expected.as_slice()),
        _ => panic!("expected the unchanged snapshot"),
    }
}

#[test]
fn startup_load_fills_the_cache() {
    let mut hub = test_hub();
    repertoire_loaded(&mut hub, sample_repertoire());
    let audience = ChaGPTActor;
    let outs = audience.started(&mut hub, 1);
    assert_eq!(outs.len(), 1);
}

#[test]
fn admin_update_and_relay() {
    let mut hub = test_hub();
    let mut admin = ChaGPTAdminActor::new();
    admin.handle_text(&mut hub, 9, b"admin-pass");

    // A schedule update asks storage to persist the new schedule.
    let outs = admin.handle_text(
        &mut hub,
        9,
        b"{\"type\":\"repertoire-update\",\"programs\":[{\"id\":1,\"name\":\"overture\",\"performer\":\"the band\",\"time\":\"19:00\"}],\"current\":0}",
    );
    assert_eq!(outs.len(), 1);
    match &outs[0] {
        Output::PersistRepertoire { repertoire } => {
            assert_eq!(repertoire.programs.len(), 1);
            assert_eq!(repertoire.programs[0].name.as_slice(), b"overture");
            assert_eq!(repertoire.current, 0);
        }
        _ => panic!("expected a persistence request"),
    }

    // A relay with no emitter registered goes nowhere.
    let relay = b"{\"type\":\"danmaku-checked\",\"content\":\"hi\",\"color\":255}";
    assert!(admin.handle_text(&mut hub, 9, relay).is_empty());

    // With an emitter registered, the relay reaches it and only it.
    let emitter = DanmakuEmitter;
    emitter.handle_text(&mut hub, 40, b"emitter-pass");
    let outs = admin.handle_text(&mut hub, 9, relay);
    assert_eq!(outs.len(), 1);
    match &outs[0] {
        Output::Send { to, payload } => {
            assert_eq!(*to, 40);
            assert_eq!(payload.as_slice(), b"4{\"content\":\"hi\",\"color\":255}");
        }
        _ => panic!("expected the relay"),
    }
}

#[test]
fn unauthenticated_admin_messages_ignored() {
    let mut hub = test_hub();
    let mut admin = ChaGPTAdminActor::new();
    let outs = admin.handle_text(
        &mut hub,
        9,
        b"{\"type\":\"danmaku-checked\",\"content\":\"hi\",\"color\":255}",
    );
    assert!(outs.is_empty());
    assert_eq!(hub.current_admin, None);
}
