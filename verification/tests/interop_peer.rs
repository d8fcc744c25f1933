//! The decisions of the interop peer.

use lazily::interop_peer::{
    DecodedField, KeyField, PROTOCOL_VERSION, Peer, PeerAction, PeerError, PeerRequest,
};

fn request(cmd: Option<&str>) -> PeerRequest {
    PeerRequest {
        cmd: cmd.map(|cmd| cmd.to_string()),
        protocol_version: None,
        protocol_version_text: "null".to_string(),
        peer: None,
        node: None,
        key: KeyField::Unusable,
        state: DecodedField::Missing,
        frame: DecodedField::Missing,
        at: None,
    }
}

fn refusal(action: PeerAction) -> String {
    match action {
        PeerAction::Refuse(error) => error.message(),
        _ => panic!("expected a refusal"),
    }
}

fn greeted() -> Peer {
    let mut peer = Peer::new();
    let action = peer.handle(&PeerRequest {
        protocol_version: Some(PROTOCOL_VERSION),
        peer: Some(1),
        ..request(Some("hello"))
    });
    assert!(matches!(action, PeerAction::Greet { peer: 1 }));
    peer
}

#[test]
fn commands_are_told_apart() {
    let mut peer = Peer::new();
    assert_eq!(refusal(peer.handle(&request(None))), "missing cmd");
    assert_eq!(
        refusal(peer.handle(&request(Some("dance")))),
        "unknown command dance"
    );
    assert!(matches!(
        peer.handle(&request(Some("link_open"))),
        PeerAction::UnsupportedChannel
    ));
    assert_eq!(
        refusal(peer.handle(&request(Some("link")))),
        "unknown command link"
    );
    assert!(matches!(
        peer.handle(&request(Some("bye"))),
        PeerAction::Bye
    ));
}

#[test]
fn a_greeting_needs_its_version_and_a_peer() {
    let mut peer = Peer::new();
    assert_eq!(
        refusal(peer.handle(&request(Some("hello")))),
        "unsupported protocol_version null"
    );
    assert_eq!(
        refusal(peer.handle(&PeerRequest {
            protocol_version: Some(2),
            protocol_version_text: "2".to_string(),
            ..request(Some("hello"))
        })),
        "unsupported protocol_version 2"
    );
    assert_eq!(
        refusal(peer.handle(&PeerRequest {
            protocol_version: Some(1),
            ..request(Some("hello"))
        })),
        "hello requires peer"
    );
}

#[test]
fn nothing_works_before_a_greeting() {
    let mut peer = Peer::new();
    assert_eq!(
        refusal(peer.handle(&request(Some("local_set")))),
        "hello must run first"
    );
    assert_eq!(
        refusal(peer.handle(&request(Some("snapshot")))),
        "hello must run first"
    );
    assert_eq!(
        refusal(peer.handle(&PeerRequest {
            frame: DecodedField::Decoded,
            at: Some(1),
            ..request(Some("deliver"))
        })),
        "hello must run first"
    );
}

#[test]
fn a_local_write_is_validated_in_order() {
    let mut peer = greeted();
    let write = || request(Some("local_set"));
    assert_eq!(refusal(peer.handle(&write())), "local_set requires node");
    assert_eq!(
        refusal(peer.handle(&PeerRequest {
            node: Some(7),
            ..write()
        })),
        "local_set requires nullable key"
    );
    assert_eq!(
        refusal(peer.handle(&PeerRequest {
            node: Some(7),
            key: KeyField::Rejected("empty".to_string()),
            ..write()
        })),
        "invalid key: empty"
    );
    assert_eq!(
        refusal(peer.handle(&PeerRequest {
            node: Some(7),
            key: KeyField::Null,
            ..write()
        })),
        "local_set requires state"
    );
    assert_eq!(
        refusal(peer.handle(&PeerRequest {
            node: Some(7),
            key: KeyField::Null,
            state: DecodedField::Malformed("bad".to_string()),
            ..write()
        })),
        "invalid IpcValue: bad"
    );
    assert_eq!(
        refusal(peer.handle(&PeerRequest {
            node: Some(7),
            key: KeyField::Null,
            state: DecodedField::Decoded,
            ..write()
        })),
        "local_set requires at"
    );
    let action = peer.handle(&PeerRequest {
        node: Some(7),
        key: KeyField::Valid("k".to_string()),
        state: DecodedField::Decoded,
        at: Some(10),
        ..write()
    });
    match action {
        PeerAction::Write {
            peer,
            node,
            key,
            at,
        } => assert_eq!((peer, node, key, at), (1, 7, Some("k".to_string()), 10)),
        _ => panic!("expected a write"),
    }
    assert!(peer.judge_write(1).is_ok());
    match peer.judge_write(0) {
        Err(error) => assert_eq!(
            error.message(),
            "production runtime rejected its fresh local op"
        ),
        Ok(()) => panic!("a fresh write counts once"),
    }
}

#[test]
fn a_delivery_is_validated_in_order() {
    let mut peer = greeted();
    let deliver = || request(Some("deliver"));
    assert_eq!(refusal(peer.handle(&deliver())), "deliver requires frame");
    assert_eq!(
        refusal(peer.handle(&PeerRequest {
            frame: DecodedField::Malformed("cut".to_string()),
            ..deliver()
        })),
        "decode IpcMessage: cut"
    );
    assert_eq!(
        refusal(peer.handle(&PeerRequest {
            frame: DecodedField::OtherKind,
            ..deliver()
        })),
        "deliver requires CrdtSync"
    );
    assert_eq!(
        refusal(peer.handle(&PeerRequest {
            frame: DecodedField::Decoded,
            ..deliver()
        })),
        "deliver requires at"
    );
    assert!(matches!(
        peer.handle(&PeerRequest {
            frame: DecodedField::Decoded,
            at: Some(11),
            ..deliver()
        }),
        PeerAction::Deliver { at: 11 }
    ));
    assert!(matches!(
        peer.handle(&request(Some("snapshot"))),
        PeerAction::Snapshot
    ));
    assert_eq!(
        PeerError::EncodingFailed("x".to_string()).message(),
        "encode CrdtSync: x"
    );
}
