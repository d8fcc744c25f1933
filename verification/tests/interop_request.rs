//! Lines of the interop protocol, from the text to the answer.

use lazily::interop_peer::{Peer, PeerAction, PeerError};
use lazily::interop_request::{read_request, FrameVerdict, RequestFields, WrittenKey};

fn read(line: &str) -> RequestFields {
    match read_request(line) {
        Ok(fields) => fields,
        Err(error) => panic!("{}", error.message()),
    }
}

fn refusal(action: PeerAction) -> String {
    match action {
        PeerAction::Refuse(error) => error.message(),
        _ => panic!("expected a refusal"),
    }
}

#[test]
fn a_line_gives_the_members_it_has() {
    let fields = read(
        r#"{"cmd": "local_set", "node": 7, "key": "a/b", "state": {"Inline": [65]}, "at": 10}"#,
    );
    assert_eq!(fields.cmd.as_deref(), Some("local_set"));
    assert_eq!(fields.node, Some(7));
    assert!(matches!(&fields.key, WrittenKey::Text(key) if key == "a/b"));
    assert_eq!(fields.state.as_deref(), Some(r#"{"Inline":[65]}"#));
    assert_eq!(fields.at, Some(10));
    assert_eq!(fields.peer, None);
    assert_eq!(fields.frame, None);
    assert_eq!(fields.protocol_version, None);
    assert_eq!(fields.protocol_version_text, "null");
}

#[test]
fn a_member_of_another_kind_is_no_number_and_no_text() {
    let fields = read(
        r#"{"cmd": 3, "node": -1, "peer": 1.5, "at": "10", "key": 4, "protocol_version": "1"}"#,
    );
    assert_eq!(fields.cmd, None);
    assert_eq!(fields.node, None);
    assert_eq!(fields.peer, None);
    assert_eq!(fields.at, None);
    assert!(matches!(fields.key, WrittenKey::Unusable));
    assert_eq!(fields.protocol_version, None);
    assert_eq!(fields.protocol_version_text, "\"1\"");
}

#[test]
fn a_null_key_is_told_from_a_missing_one() {
    assert!(matches!(read(r#"{"key": null}"#).key, WrittenKey::Null));
    assert!(matches!(read("{}").key, WrittenKey::Unusable));
}

#[test]
fn a_line_that_is_no_json_is_refused() {
    match read_request("") {
        Err(error) => assert_eq!(
            error.message(),
            "invalid JSON: EOF while parsing a value at line 1 column 0"
        ),
        Ok(_) => panic!("an empty line is no request"),
    }
    match read_request("{} {}") {
        Err(PeerError::InvalidJson(reason)) => {
            assert_eq!(reason, "trailing characters at line 1 column 4")
        }
        _ => panic!("two values are no request"),
    }
}

#[test]
fn a_line_that_is_no_object_has_no_command() {
    let mut peer = Peer::new();
    for line in ["3", "null", "[1]", "\"hello\"", "{}"] {
        let request = read(line).judged(None, None, FrameVerdict::Decoded);
        assert_eq!(refusal(peer.handle(&request)), "missing cmd");
    }
}

#[test]
fn a_greeting_is_read_and_answered() {
    let mut peer = Peer::new();
    let line = r#"{"cmd": "hello", "peer": 1, "protocol_version": 2}"#;
    let request = read(line).judged(None, None, FrameVerdict::OtherKind);
    assert_eq!(
        refusal(peer.handle(&request)),
        "unsupported protocol_version 2"
    );
    let line = r#"{"cmd": "hello", "peer": 1, "protocol_version": 1}"#;
    let request = read(line).judged(None, None, FrameVerdict::OtherKind);
    assert!(matches!(
        peer.handle(&request),
        PeerAction::Greet { peer: 1 }
    ));
}

#[test]
fn verdicts_join_what_was_written() {
    let mut peer = Peer::new();
    let hello = r#"{"cmd": "hello", "peer": 1, "protocol_version": 1}"#;
    peer.handle(&read(hello).judged(None, None, FrameVerdict::OtherKind));

    let write = r#"{"cmd": "local_set", "node": 7, "key": "k", "state": {}, "at": 10}"#;
    let refused = |key: Option<&str>, state: Option<&str>| {
        read(write).judged(
            key.map(|reason| reason.to_string()),
            state.map(|reason| reason.to_string()),
            FrameVerdict::OtherKind,
        )
    };
    assert_eq!(
        refusal(peer.handle(&refused(Some("too long"), None))),
        "invalid key: too long"
    );
    assert_eq!(
        refusal(peer.handle(&refused(None, Some("no variant")))),
        "invalid IpcValue: no variant"
    );
    match peer.handle(&refused(None, None)) {
        PeerAction::Write {
            peer,
            node,
            key,
            at,
        } => assert_eq!((peer, node, key.as_deref(), at), (1, 7, Some("k"), 10)),
        _ => panic!("expected a write"),
    }

    let deliver = r#"{"cmd": "deliver", "frame": {"CrdtSync": {}}, "at": 11}"#;
    let malformed = FrameVerdict::Malformed("missing ops".to_string());
    assert_eq!(
        refusal(peer.handle(&read(deliver).judged(None, None, malformed))),
        "decode IpcMessage: missing ops"
    );
    assert_eq!(
        refusal(peer.handle(&read(deliver).judged(None, None, FrameVerdict::OtherKind))),
        "deliver requires CrdtSync"
    );
    assert!(matches!(
        peer.handle(&read(deliver).judged(None, None, FrameVerdict::Decoded)),
        PeerAction::Deliver { at: 11 }
    ));
}
