//! What a line of the interop protocol asks: the fields of a request.
//!
//! A line is read in two steps. The first takes the members that the protocol knows out of
//! the line's object. The second joins what the host's decoders say of the key, the state
//! and the frame, and gives the request that a peer decides on.

use vstd::prelude::*;

use crate::interop_peer::{
    DecodedField, KeyField, PeerAction, PeerError, PeerRequest, answer, error_text,
};
use crate::json_line::{Member, MemberState, member, members, parse, parsed};

verus! {

/// The key of a request as it was written.
pub enum WrittenKey {
    /// There is none, or it is neither null nor a text.
    Unusable,
    /// It is null.
    Null,
    /// A text.
    Text(String),
}

/// The model of a key as it was written.
pub enum WrittenKeyState {
    /// There is none, or it is neither null nor a text.
    Unusable,
    /// It is null.
    Null,
    /// A text.
    Text(Seq<char>),
}

/// The members that the protocol knows.
pub struct RequestMembers {
    /// The command.
    pub cmd: Option<Member>,
    /// The protocol version.
    pub protocol_version: Option<Member>,
    /// The peer.
    pub peer: Option<Member>,
    /// The node.
    pub node: Option<Member>,
    /// The key.
    pub key: Option<Member>,
    /// The state of a local write.
    pub state: Option<Member>,
    /// The frame of a delivery.
    pub frame: Option<Member>,
    /// The local time.
    pub at: Option<Member>,
}

/// The fields of a request, before anything of it is decoded.
pub struct RequestFields {
    /// The command, where it is a text.
    pub cmd: Option<String>,
    /// The protocol version, where it is a number.
    pub protocol_version: Option<u64>,
    /// The protocol version as it was written; null where there is none.
    pub protocol_version_text: String,
    /// The peer, where it is a number.
    pub peer: Option<u64>,
    /// The node, where it is a number.
    pub node: Option<u64>,
    /// The key.
    pub key: WrittenKey,
    /// The state of a local write, in JSON.
    pub state: Option<String>,
    /// The frame of a delivery, in JSON.
    pub frame: Option<String>,
    /// The local time, where it is a number.
    pub at: Option<u64>,
}

/// The model of a request's fields.
pub struct FieldsState {
    /// The command, where it is a text.
    pub cmd: Option<Seq<char>>,
    /// The protocol version, where it is a number.
    pub protocol_version: Option<u64>,
    /// The protocol version as it was written; null where there is none.
    pub protocol_version_text: Seq<char>,
    /// The peer, where it is a number.
    pub peer: Option<u64>,
    /// The node, where it is a number.
    pub node: Option<u64>,
    /// The key.
    pub key: WrittenKeyState,
    /// The state of a local write, in JSON.
    pub state: Option<Seq<char>>,
    /// The frame of a delivery, in JSON.
    pub frame: Option<Seq<char>>,
    /// The local time, where it is a number.
    pub at: Option<u64>,
}

/// The model of a text that may be there.
pub open spec fn text_view(text: Option<String>) -> Option<Seq<char>> {
    match text {
        Some(text) => Some(text@),
        None => None,
    }
}

impl View for RequestFields {
    type V = FieldsState;

    open spec fn view(&self) -> FieldsState {
        FieldsState {
            cmd: text_view(self.cmd),
            protocol_version: self.protocol_version,
            protocol_version_text: self.protocol_version_text@,
            peer: self.peer,
            node: self.node,
            key: match self.key {
                WrittenKey::Unusable => WrittenKeyState::Unusable,
                WrittenKey::Null => WrittenKeyState::Null,
                WrittenKey::Text(text) => WrittenKeyState::Text(text@),
            },
            state: text_view(self.state),
            frame: text_view(self.frame),
            at: self.at,
        }
    }
}

/// A member that may be there, by its model.
pub open spec fn member_view(member: Option<Member>) -> Option<MemberState> {
    match member {
        Some(member) => Some(member@),
        None => None,
    }
}

/// The members that the protocol knows, by name.
pub open spec fn listed(members: RequestMembers, name: Seq<char>) -> Option<MemberState> {
    if name == "cmd"@ {
        member_view(members.cmd)
    } else if name == "protocol_version"@ {
        member_view(members.protocol_version)
    } else if name == "peer"@ {
        member_view(members.peer)
    } else if name == "node"@ {
        member_view(members.node)
    } else if name == "key"@ {
        member_view(members.key)
    } else if name == "state"@ {
        member_view(members.state)
    } else if name == "frame"@ {
        member_view(members.frame)
    } else if name == "at"@ {
        member_view(members.at)
    } else {
        None
    }
}

/// The number of a member that may be there.
pub open spec fn number_in(found: Option<MemberState>) -> Option<u64> {
    match found {
        Some(member) => member.number,
        None => None,
    }
}

/// The text of a member that may be there.
pub open spec fn text_in(found: Option<MemberState>) -> Option<Seq<char>> {
    match found {
        Some(member) => member.text,
        None => None,
    }
}

/// A member that may be there, as it was written.
pub open spec fn written_in(found: Option<MemberState>) -> Option<Seq<char>> {
    match found {
        Some(member) => Some(member.written),
        None => None,
    }
}

/// The key that a member gives.
pub open spec fn key_in(found: Option<MemberState>) -> WrittenKeyState {
    match found {
        Some(member) => if member.null {
            WrittenKeyState::Null
        } else {
            match member.text {
                Some(text) => WrittenKeyState::Text(text),
                None => WrittenKeyState::Unusable,
            }
        },
        None => WrittenKeyState::Unusable,
    }
}

/// The fields of a request, by how its members are found.
pub open spec fn fields_by(found: spec_fn(Seq<char>) -> Option<MemberState>) -> FieldsState {
    FieldsState {
        cmd: text_in(found("cmd"@)),
        protocol_version: number_in(found("protocol_version"@)),
        protocol_version_text: match written_in(found("protocol_version"@)) {
            Some(written) => written,
            None => "null"@,
        },
        peer: number_in(found("peer"@)),
        node: number_in(found("node"@)),
        key: key_in(found("key"@)),
        state: written_in(found("state"@)),
        frame: written_in(found("frame"@)),
        at: number_in(found("at"@)),
    }
}

/// The fields of a request, by the members of its object.
pub open spec fn fields_in(object: Map<Seq<char>, MemberState>) -> FieldsState {
    fields_by(
        |name: Seq<char>|
            if object.contains_key(name) {
                Some(object[name])
            } else {
                None
            },
    )
}

/// The number of a member that may be there.
fn number_of(found: &Option<Member>) -> (number: Option<u64>)
    ensures
        number == number_in(member_view(*found)),
{
    match found {
        Some(member) => member.number,
        None => None,
    }
}

/// The text of a member that may be there.
fn text_of(found: Option<Member>) -> (text: Option<String>)
    ensures
        text_view(text) == text_in(member_view(found)),
{
    match found {
        Some(member) => member.text,
        None => None,
    }
}

/// A member that may be there, as it was written.
fn written_of(found: Option<Member>) -> (written: Option<String>)
    ensures
        text_view(written) == written_in(member_view(found)),
{
    match found {
        Some(member) => Some(member.written),
        None => None,
    }
}

impl RequestMembers {
    /// What a member is found to be, by its name.
    pub open spec fn find(self) -> spec_fn(Seq<char>) -> Option<MemberState> {
        |name: Seq<char>| listed(self, name)
    }

    /// The fields of the request.
    pub fn fields(self) -> (fields: RequestFields)
        ensures
            fields@ == fields_by(self.find()),
    {
        proof {
            names_differ();
        }
        let protocol_version = number_of(&self.protocol_version);
        let peer = number_of(&self.peer);
        let node = number_of(&self.node);
        let at = number_of(&self.at);
        let key = match self.key {
            None => WrittenKey::Unusable,
            Some(member) => if member.null {
                WrittenKey::Null
            } else {
                match member.text {
                    Some(text) => WrittenKey::Text(text),
                    None => WrittenKey::Unusable,
                }
            },
        };
        let protocol_version_text = match written_of(self.protocol_version) {
            Some(written) => written,
            None => "null".to_owned(),
        };
        RequestFields {
            cmd: text_of(self.cmd),
            protocol_version,
            protocol_version_text,
            peer,
            node,
            key,
            state: written_of(self.state),
            frame: written_of(self.frame),
            at,
        }
    }
}

/// No two names of the protocol are the same.
pub proof fn names_differ()
    ensures
        "cmd"@ != "protocol_version"@,
        "cmd"@ != "peer"@,
        "cmd"@ != "node"@,
        "cmd"@ != "key"@,
        "cmd"@ != "state"@,
        "cmd"@ != "frame"@,
        "cmd"@ != "at"@,
        "protocol_version"@ != "peer"@,
        "protocol_version"@ != "node"@,
        "protocol_version"@ != "key"@,
        "protocol_version"@ != "state"@,
        "protocol_version"@ != "frame"@,
        "protocol_version"@ != "at"@,
        "peer"@ != "node"@,
        "peer"@ != "key"@,
        "peer"@ != "state"@,
        "peer"@ != "frame"@,
        "peer"@ != "at"@,
        "node"@ != "key"@,
        "node"@ != "state"@,
        "node"@ != "frame"@,
        "node"@ != "at"@,
        "key"@ != "state"@,
        "key"@ != "frame"@,
        "key"@ != "at"@,
        "state"@ != "frame"@,
        "state"@ != "at"@,
        "frame"@ != "at"@,
{
    reveal_strlit("cmd");
    reveal_strlit("protocol_version");
    reveal_strlit("peer");
    reveal_strlit("node");
    reveal_strlit("key");
    reveal_strlit("state");
    reveal_strlit("frame");
    reveal_strlit("at");
    assert("protocol_version"@[1] != "peer"@[1]);
    assert("protocol_version"@[0] != "at"@[0]);
    assert("cmd"@[0] != "key"@[0]);
    assert("peer"@[0] != "node"@[0]);
    assert("state"@[0] != "frame"@[0]);
}

/// Reads a line: the fields of its request, or that it is not JSON.
pub fn read_request(line: &str) -> (result: Result<RequestFields, PeerError>)
    ensures
        match (result, parsed(line@)) {
            (Ok(fields), Ok(object)) => fields@ == fields_in(object),
            (Err(error), Err(reason)) => error_text(error) == "invalid JSON: "@ + reason,
            _ => false,
        },
{
    let value = match parse(line) {
        Ok(value) => value,
        Err(reason) => {
            return Err(PeerError::InvalidJson(reason));
        },
    };
    let found = RequestMembers {
        cmd: member(&value, "cmd"),
        protocol_version: member(&value, "protocol_version"),
        peer: member(&value, "peer"),
        node: member(&value, "node"),
        key: member(&value, "key"),
        state: member(&value, "state"),
        frame: member(&value, "frame"),
        at: member(&value, "at"),
    };
    proof {
        names_differ();
        assert(fields_by(found.find()) == fields_in(members(value)));
    }
    Ok(found.fields())
}

/// What a decoder says of a frame.
pub enum FrameVerdict {
    /// It does not decode, with the reason.
    Malformed(String),
    /// It decodes to something else than a synchronisation.
    OtherKind,
    /// It decodes to a synchronisation.
    Decoded,
}

/// The request that a peer decides on: the fields, with what the decoders say of the key,
/// the state and the frame where those were written. A reason is why something is refused.
pub open spec fn judged_request(
    fields: RequestFields,
    key: Option<String>,
    state: Option<String>,
    frame: FrameVerdict,
) -> PeerRequest {
    PeerRequest {
        cmd: fields.cmd,
        protocol_version: fields.protocol_version,
        protocol_version_text: fields.protocol_version_text,
        peer: fields.peer,
        node: fields.node,
        key: match (fields.key, key) {
            (WrittenKey::Unusable, _) => KeyField::Unusable,
            (WrittenKey::Null, _) => KeyField::Null,
            (WrittenKey::Text(text), None) => KeyField::Valid(text),
            (WrittenKey::Text(_), Some(reason)) => KeyField::Rejected(reason),
        },
        state: match (fields.state, state) {
            (None, _) => DecodedField::Missing,
            (Some(_), Some(reason)) => DecodedField::Malformed(reason),
            (Some(_), None) => DecodedField::Decoded,
        },
        frame: match (fields.frame, frame) {
            (None, _) => DecodedField::Missing,
            (Some(_), FrameVerdict::Malformed(reason)) => DecodedField::Malformed(reason),
            (Some(_), FrameVerdict::OtherKind) => DecodedField::OtherKind,
            (Some(_), FrameVerdict::Decoded) => DecodedField::Decoded,
        },
        at: fields.at,
    }
}

impl RequestFields {
    /// The request that a peer decides on, with what the decoders say of the key, the state
    /// and the frame. A verdict on something that was not written counts for nothing.
    pub fn judged(
        self,
        key: Option<String>,
        state: Option<String>,
        frame: FrameVerdict,
    ) -> (request: PeerRequest)
        ensures
            request == judged_request(self, key, state, frame),
    {
        PeerRequest {
            cmd: self.cmd,
            protocol_version: self.protocol_version,
            protocol_version_text: self.protocol_version_text,
            peer: self.peer,
            node: self.node,
            key: match (self.key, key) {
                (WrittenKey::Unusable, _) => KeyField::Unusable,
                (WrittenKey::Null, _) => KeyField::Null,
                (WrittenKey::Text(text), None) => KeyField::Valid(text),
                (WrittenKey::Text(_), Some(reason)) => KeyField::Rejected(reason),
            },
            state: match (self.state, state) {
                (None, _) => DecodedField::Missing,
                (Some(_), Some(reason)) => DecodedField::Malformed(reason),
                (Some(_), None) => DecodedField::Decoded,
            },
            frame: match (self.frame, frame) {
                (None, _) => DecodedField::Missing,
                (Some(_), FrameVerdict::Malformed(reason)) => DecodedField::Malformed(reason),
                (Some(_), FrameVerdict::OtherKind) => DecodedField::OtherKind,
                (Some(_), FrameVerdict::Decoded) => DecodedField::Decoded,
            },
            at: self.at,
        }
    }
}

/// A line whose JSON has no members, such as one that is no object, is refused for want of
/// a command, whatever the decoders say.
pub proof fn a_line_without_members_has_no_command(
    peer: Option<u64>,
    fields: RequestFields,
    key: Option<String>,
    state: Option<String>,
    frame: FrameVerdict,
)
    requires
        fields@ == fields_in(Map::empty()),
    ensures
        answer(peer, judged_request(fields, key, state, frame)) == PeerAction::Refuse(
            PeerError::MissingCommand,
        ),
{
    assert(fields@.cmd is None);
}

} // verus!
