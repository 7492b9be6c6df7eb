//! The wire-message parsers.
use chagpt::admin;
use chagpt::danmaku::Message;
use chagpt::db::JsonChecked;
use chagpt::json::{parse_admin, parse_propose, parse_repertoire, parse_string, parse_uint32};

fn propose(text: &[u8]) -> Option<(Vec<u8>, u32)> {
    parse_propose(text).map(|m| match m {
        Message::Propose { content, color } => (content, color),
    })
}

#[test]
fn propose_basic() {
    let r = propose(b"{\"type\":\"propose\",\"content\":\"hi\",\"color\":16711680}").unwrap();
    assert_eq!(r.0.as_slice(), b"hi");
    assert_eq!(r.1, 16711680);
}

#[test]
fn propose_any_field_order_and_whitespace() {
    let r = propose(b" { \"color\" : 5 , \"content\" : \"a b\" , \"type\" : \"propose\" } ")
        .unwrap();
    assert_eq!(r.0.as_slice(), b"a b");
    assert_eq!(r.1, 5);
}

#[test]
fn propose_rejects_malformed() {
    assert!(propose(b"").is_none());
    assert!(propose(b"null").is_none());
    assert!(propose(b"{\"type\":\"propose\",\"content\":\"hi\"}").is_none());
    assert!(propose(b"{\"content\":\"hi\",\"color\":1}").is_none());
    assert!(propose(b"{\"type\":\"other\",\"content\":\"hi\",\"color\":1}").is_none());
    // Duplicate fields reject the message.
    assert!(propose(b"{\"type\":\"propose\",\"content\":\"a\",\"content\":\"b\",\"color\":1}")
        .is_none());
    // Trailing bytes after the object reject it.
    assert!(propose(b"{\"type\":\"propose\",\"content\":\"hi\",\"color\":1}x").is_none());
    // A colour that does not fit in 32 bits rejects it.
    assert!(propose(b"{\"type\":\"propose\",\"content\":\"hi\",\"color\":4294967296}").is_none());
    assert!(propose(b"{\"type\":\"propose\",\"content\":\"hi\",\"color\":4294967295}").is_some());
    // Negative and fractional numbers are not unsigned integers.
    assert!(propose(b"{\"type\":\"propose\",\"content\":\"hi\",\"color\":-1}").is_none());
    assert!(propose(b"{\"type\":\"propose\",\"content\":\"hi\",\"color\":1.5}").is_none());
    assert!(propose(b"{\"type\":\"propose\",\"content\":\"hi\",\"color\":01}").is_none());
}

#[test]
fn unknown_members_are_skipped() {
    // Unknown members of any value shape are read and discarded.
    let r = propose(b"{\"type\":\"propose\",\"content\":\"hi\",\"color\":1,\"x\":2}").unwrap();
    assert_eq!(r.0.as_slice(), b"hi");
    let r = propose(
        b"{\"a\":null,\"b\":true,\"c\":false,\"d\":\"s\",\"e\":-1.5e+3,\"f\":[1,[2],{}],\"g\":{\"h\":[null]},\"type\":\"propose\",\"content\":\"hi\",\"color\":1}",
    )
    .unwrap();
    assert_eq!(r.1, 1);
    // A malformed ignored value still rejects the message.
    assert!(propose(b"{\"x\":01,\"type\":\"propose\",\"content\":\"hi\",\"color\":1}").is_none());
    assert!(propose(b"{\"x\":[1,,2],\"type\":\"propose\",\"content\":\"hi\",\"color\":1}")
        .is_none());
    assert!(propose(b"{\"x\":nul,\"type\":\"propose\",\"content\":\"hi\",\"color\":1}").is_none());
    // Containers in an ignored value may nest only up to the bound.
    let mut deep = Vec::new();
    deep.extend_from_slice(b"{\"x\":");
    for _ in 0..99 {
        deep.push(b'[');
    }
    for _ in 0..99 {
        deep.push(b']');
    }
    deep.extend_from_slice(b",\"type\":\"propose\",\"content\":\"hi\",\"color\":1}");
    assert!(propose(&deep).is_some());
    let mut too_deep = Vec::new();
    too_deep.extend_from_slice(b"{\"x\":");
    for _ in 0..101 {
        too_deep.push(b'[');
    }
    for _ in 0..101 {
        too_deep.push(b']');
    }
    too_deep.extend_from_slice(b",\"type\":\"propose\",\"content\":\"hi\",\"color\":1}");
    assert!(propose(&too_deep).is_none());
    // The other message kinds skip unknown members too.
    assert!(parse_admin(
        b"{\"type\":\"danmaku-checked\",\"content\":\"ok\",\"color\":9,\"extra\":{\"a\":1}}"
    )
    .is_some());
    assert!(parse_repertoire(b"{\"programs\":[],\"current\":0,\"extra\":null}").is_some());
}

#[test]
fn string_escapes() {
    let (v, _) = parse_string(b"\"a\\\"b\\\\c\\/d\\n\\t\\r\\f\\b\"", 0).unwrap();
    assert_eq!(v.as_slice(), b"a\"b\\c/d\n\t\r\x0c\x08");
    // \u escapes decode to UTF-8, ASCII and beyond.
    let (v, _) = parse_string(b"\"\\u0041\\u00e9\\u4e16\"", 0).unwrap();
    assert_eq!(v, "A\u{e9}\u{4e16}".as_bytes().to_vec());
    // A surrogate pair decodes to one astral scalar.
    let (v, _) = parse_string(b"\"\\ud83d\\ude00\"", 0).unwrap();
    assert_eq!(v, "\u{1f600}".as_bytes().to_vec());
    // A lone surrogate, in either half, is refused.
    assert!(parse_string(b"\"\\ud834\"", 0).is_none());
    assert!(parse_string(b"\"\\ude00\"", 0).is_none());
    assert!(parse_string(b"\"\\ud834x\"", 0).is_none());
    // Unterminated strings and raw control bytes are refused.
    assert!(parse_string(b"\"abc", 0).is_none());
    assert!(parse_string(b"\"a\x01b\"", 0).is_none());
}

#[test]
fn uint_parsing() {
    assert_eq!(parse_uint32(b"0", 0), Some((0, 1)));
    assert_eq!(parse_uint32(b"123abc", 0), Some((123, 3)));
    assert!(parse_uint32(b"abc", 0).is_none());
    assert!(parse_uint32(b"007", 0).is_none());
    assert!(parse_uint32(b"4294967296", 0).is_none());
}

#[test]
fn admin_messages() {
    let m = parse_admin(
        b"{\"current\":2,\"type\":\"repertoire-update\",\"programs\":[{\"id\":1,\"name\":\"a\",\"performer\":\"b\",\"time\":\"t\"},{\"time\":\"u\",\"id\":2,\"performer\":\"d\",\"name\":\"c\"}]}",
    )
    .unwrap();
    match m {
        admin::Message::RepUp { programs, current } => {
            assert_eq!(current, 2);
            assert_eq!(programs.len(), 2);
            assert_eq!(programs[0].id, 1);
            assert_eq!(programs[0].name.as_slice(), b"a");
            assert_eq!(programs[1].performer.as_slice(), b"d");
            assert_eq!(programs[1].time.as_slice(), b"u");
        }
        _ => panic!("expected a schedule update"),
    }

    let m = parse_admin(b"{\"type\":\"danmaku-checked\",\"content\":\"ok\",\"color\":9}").unwrap();
    match m {
        admin::Message::DanChk { content, color } => {
            assert_eq!(content.as_slice(), b"ok");
            assert_eq!(color, 9);
        }
        _ => panic!("expected a relay"),
    }

    // An empty programme list is a valid update.
    let m = parse_admin(b"{\"type\":\"repertoire-update\",\"programs\":[],\"current\":0}").unwrap();
    match m {
        admin::Message::RepUp { programs, .. } => assert!(programs.is_empty()),
        _ => panic!("expected a schedule update"),
    }

    // Fields of the other variant reject the message.
    assert!(parse_admin(
        b"{\"type\":\"danmaku-checked\",\"content\":\"ok\",\"color\":9,\"current\":1}"
    )
    .is_none());
    assert!(parse_admin(b"{\"type\":\"repertoire-update\",\"programs\":[]}").is_none());
}

#[test]
fn stored_repertoire_parses() {
    let r = parse_repertoire(
        b"{\"programs\":[{\"id\":1,\"name\":\"a\",\"performer\":\"b\",\"time\":\"t\"}],\"current\":1}",
    )
    .unwrap();
    assert_eq!(r.current, 1);
    assert_eq!(r.programs.len(), 1);
    assert!(parse_repertoire(b"{\"programs\":[]}").is_none());
}

#[test]
fn jsonb_version_byte() {
    let j = JsonChecked::from_sql(b"\x01{\"a\":1}").unwrap();
    assert_eq!(j.0.as_slice(), b"{\"a\":1}");
    assert!(JsonChecked::from_sql(b"\x02{}").is_err());
    assert!(JsonChecked::from_sql(b"").is_err());
}

#[test]
fn stored_repertoire_round_trip_through_jsonb() {
    let raw = b"\x01{\"programs\":[{\"id\":3,\"name\":\"n\",\"performer\":\"p\",\"time\":\"t\"}],\"current\":0}";
    let j = JsonChecked::from_sql(raw).unwrap();
    let r = parse_repertoire(&j.0).unwrap();
    assert_eq!(r.programs[0].id, 3);
}
