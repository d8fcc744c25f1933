//! What an interop peer answers: the decisions behind its line protocol.
//!
//! The host reads a line into a request of plain fields, asks for the action, performs it
//! on its replicated plane and writes the answer. Every refusal has a fixed text.

use vstd::prelude::*;

use crate::value::{Key, Datum};

verus! {

/// The version of the line protocol.
pub const PROTOCOL_VERSION: u64 = 1;

/// The key field of a request.
pub enum KeyField {
    /// There is none, or it is neither null nor a text.
    Unusable,
    /// It is null.
    Null,
    /// A text that is a key.
    Valid(String),
    /// A text that is no key, with the reason.
    Rejected(String),
}

/// A field that is decoded as a whole.
pub enum DecodedField {
    /// There is none.
    Missing,
    /// It does not decode, with the reason.
    Malformed(String),
    /// It decodes to something else than what is wanted.
    OtherKind,
    /// It decodes.
    Decoded,
}

/// One request, by its fields.
pub struct PeerRequest {
    /// The command, where it is a text.
    pub cmd: Option<String>,
    /// The protocol version, where it is a number.
    pub protocol_version: Option<u64>,
    /// The protocol version as it was written; null where there is none.
    pub protocol_version_text: String,
    /// The peer, where it is a number.
    pub peer: Option<u64>,
    /// The node, where it is a number.
    pub node: Option<u64>,
    /// The key.
    pub key: KeyField,
    /// The state of a local write.
    pub state: DecodedField,
    /// The frame of a delivery.
    pub frame: DecodedField,
    /// The local time, where it is a number.
    pub at: Option<u64>,
}

/// Why a request is refused.
pub enum PeerError {
    /// A line that is not JSON, with the reason.
    InvalidJson(String),
    /// No command.
    MissingCommand,
    /// A command that is not known.
    UnknownCommand(String),
    /// A protocol version that is not spoken.
    UnsupportedVersion(String),
    /// A greeting without a peer.
    GreetingWithoutPeer,
    /// Nobody has greeted yet.
    NotGreeted,
    /// A local write without a node.
    WriteWithoutNode,
    /// A local write with a text that is no key.
    InvalidKey(String),
    /// A local write without a usable key.
    WriteWithoutKey,
    /// A local write with a state that does not decode.
    InvalidState(String),
    /// A local write without a state.
    WriteWithoutState,
    /// A local write without a time.
    WriteWithoutTime,
    /// The plane did not take a fresh local write.
    FreshWriteRejected,
    /// The frame of a local write does not encode.
    EncodingFailed(String),
    /// A delivery without a frame.
    DeliveryWithoutFrame,
    /// A delivery whose frame does not decode.
    InvalidFrame(String),
    /// A delivery of something else than a synchronisation.
    DeliveryOfOtherKind,
    /// A delivery without a time.
    DeliveryWithoutTime,
}

/// What the host does for a request.
pub enum PeerAction {
    /// Start a plane for a peer and answer with what this peer can do.
    Greet {
        /// The peer.
        peer: u64,
    },
    /// Write the request's state at a node, ingest the operation and answer with the
    /// frame.
    Write {
        /// The writing peer.
        peer: u64,
        /// The node.
        node: u64,
        /// The key, where there is one.
        key: Option<String>,
        /// The local time.
        at: u64,
    },
    /// Ingest the request's frame and answer with how many operations were new.
    Deliver {
        /// The local time.
        at: u64,
    },
    /// Answer with the converged cells.
    Snapshot,
    /// Answer and stop.
    Bye,
    /// Answer that there are no such channels.
    UnsupportedChannel,
    /// Answer with an error.
    Refuse(PeerError),
}

/// The state of a peer: who it is, once it was greeted.
pub struct Peer {
    peer_id: Option<u64>,
}

impl View for Peer {
    type V = Option<u64>;

    closed spec fn view(&self) -> Option<u64> {
        self.peer_id
    }
}

/// Whether a text starts with the prefix of the channel commands.
pub open spec fn is_channel_command(command: Seq<char>) -> bool {
    command.len() >= 5 && command.take(5) == "link_"@
}

/// How a greeting is answered.
pub open spec fn greeting(request: PeerRequest) -> PeerAction {
    if request.protocol_version != Some(PROTOCOL_VERSION) {
        PeerAction::Refuse(PeerError::UnsupportedVersion(request.protocol_version_text))
    } else {
        match request.peer {
            None => PeerAction::Refuse(PeerError::GreetingWithoutPeer),
            Some(peer) => PeerAction::Greet { peer },
        }
    }
}

/// How a local write is answered.
pub open spec fn local_write(peer: Option<u64>, request: PeerRequest) -> PeerAction {
    match (peer, request.node) {
        (None, _) => PeerAction::Refuse(PeerError::NotGreeted),
        (_, None) => PeerAction::Refuse(PeerError::WriteWithoutNode),
        (Some(peer), Some(node)) => match (request.key, request.state, request.at) {
            (KeyField::Unusable, _, _) => PeerAction::Refuse(PeerError::WriteWithoutKey),
            (KeyField::Rejected(reason), _, _) => PeerAction::Refuse(PeerError::InvalidKey(reason)),
            (_, DecodedField::Missing, _) => PeerAction::Refuse(PeerError::WriteWithoutState),
            (_, DecodedField::Malformed(reason), _) => PeerAction::Refuse(
                PeerError::InvalidState(reason),
            ),
            (_, _, None) => PeerAction::Refuse(PeerError::WriteWithoutTime),
            (KeyField::Null, _, Some(at)) => PeerAction::Write { peer, node, key: None, at },
            (KeyField::Valid(key), _, Some(at)) => PeerAction::Write {
                peer,
                node,
                key: Some(key),
                at,
            },
        },
    }
}

/// How a delivery is answered.
pub open spec fn delivery(peer: Option<u64>, request: PeerRequest) -> PeerAction {
    match (request.frame, request.at) {
        (DecodedField::Missing, _) => PeerAction::Refuse(PeerError::DeliveryWithoutFrame),
        (DecodedField::Malformed(reason), _) => PeerAction::Refuse(PeerError::InvalidFrame(reason)),
        (DecodedField::OtherKind, _) => PeerAction::Refuse(PeerError::DeliveryOfOtherKind),
        (DecodedField::Decoded, None) => PeerAction::Refuse(PeerError::DeliveryWithoutTime),
        (DecodedField::Decoded, Some(at)) => if peer is Some {
            PeerAction::Deliver { at }
        } else {
            PeerAction::Refuse(PeerError::NotGreeted)
        },
    }
}

/// How a request is answered.
pub open spec fn answer(peer: Option<u64>, request: PeerRequest) -> PeerAction {
    match request.cmd {
        None => PeerAction::Refuse(PeerError::MissingCommand),
        Some(command) => if command@ == "hello"@ {
            greeting(request)
        } else if command@ == "local_set"@ {
            local_write(peer, request)
        } else if command@ == "deliver"@ {
            delivery(peer, request)
        } else if command@ == "snapshot"@ {
            if peer is Some {
                PeerAction::Snapshot
            } else {
                PeerAction::Refuse(PeerError::NotGreeted)
            }
        } else if command@ == "bye"@ {
            PeerAction::Bye
        } else if is_channel_command(command@) {
            PeerAction::UnsupportedChannel
        } else {
            PeerAction::Refuse(PeerError::UnknownCommand(command))
        },
    }
}

/// Whether two actions are the same but for copies of texts.
pub open spec fn same_action(one: PeerAction, other: PeerAction) -> bool {
    match (one, other) {
        (PeerAction::Greet { peer: a }, PeerAction::Greet { peer: b }) => a == b,
        (
            PeerAction::Write { peer: a, node: m, key: k, at: s },
            PeerAction::Write { peer: b, node: n, key: l, at: t },
        ) => a == b && m == n && s == t && match (k, l) {
            (None, None) => true,
            (Some(x), Some(y)) => x@ == y@,
            _ => false,
        },
        (PeerAction::Deliver { at: s }, PeerAction::Deliver { at: t }) => s == t,
        (PeerAction::Snapshot, PeerAction::Snapshot) => true,
        (PeerAction::Bye, PeerAction::Bye) => true,
        (PeerAction::UnsupportedChannel, PeerAction::UnsupportedChannel) => true,
        (PeerAction::Refuse(a), PeerAction::Refuse(b)) => error_text(a) == error_text(b),
        _ => false,
    }
}

/// The text of a refusal.
pub open spec fn error_text(error: PeerError) -> Seq<char> {
    match error {
        PeerError::InvalidJson(reason) => "invalid JSON: "@ + reason@,
        PeerError::MissingCommand => "missing cmd"@,
        PeerError::UnknownCommand(command) => "unknown command "@ + command@,
        PeerError::UnsupportedVersion(version) => "unsupported protocol_version "@ + version@,
        PeerError::GreetingWithoutPeer => "hello requires peer"@,
        PeerError::NotGreeted => "hello must run first"@,
        PeerError::WriteWithoutNode => "local_set requires node"@,
        PeerError::InvalidKey(reason) => "invalid key: "@ + reason@,
        PeerError::WriteWithoutKey => "local_set requires nullable key"@,
        PeerError::InvalidState(reason) => "invalid IpcValue: "@ + reason@,
        PeerError::WriteWithoutState => "local_set requires state"@,
        PeerError::WriteWithoutTime => "local_set requires at"@,
        PeerError::FreshWriteRejected => "production runtime rejected its fresh local op"@,
        PeerError::EncodingFailed(reason) => "encode CrdtSync: "@ + reason@,
        PeerError::DeliveryWithoutFrame => "deliver requires frame"@,
        PeerError::InvalidFrame(reason) => "decode IpcMessage: "@ + reason@,
        PeerError::DeliveryOfOtherKind => "deliver requires CrdtSync"@,
        PeerError::DeliveryWithoutTime => "deliver requires at"@,
    }
}

/// A text with another behind it.
fn joined(text: &str, rest: &String) -> (joined: String)
    ensures
        joined@ == text@ + rest@,
{
    let mut joined = text.to_owned();
    joined.append(rest.as_str());
    joined
}

impl PeerError {
    /// The text of the refusal.
    pub fn message(&self) -> (text: String)
        ensures
            text@ == error_text(*self),
    {
        match self {
            PeerError::InvalidJson(reason) => joined("invalid JSON: ", reason),
            PeerError::MissingCommand => "missing cmd".to_owned(),
            PeerError::UnknownCommand(command) => joined("unknown command ", command),
            PeerError::UnsupportedVersion(version) => joined(
                "unsupported protocol_version ",
                version,
            ),
            PeerError::GreetingWithoutPeer => "hello requires peer".to_owned(),
            PeerError::NotGreeted => "hello must run first".to_owned(),
            PeerError::WriteWithoutNode => "local_set requires node".to_owned(),
            PeerError::InvalidKey(reason) => joined("invalid key: ", reason),
            PeerError::WriteWithoutKey => "local_set requires nullable key".to_owned(),
            PeerError::InvalidState(reason) => joined("invalid IpcValue: ", reason),
            PeerError::WriteWithoutState => "local_set requires state".to_owned(),
            PeerError::WriteWithoutTime => "local_set requires at".to_owned(),
            PeerError::FreshWriteRejected => {
                "production runtime rejected its fresh local op".to_owned()
            },
            PeerError::EncodingFailed(reason) => joined("encode CrdtSync: ", reason),
            PeerError::DeliveryWithoutFrame => "deliver requires frame".to_owned(),
            PeerError::InvalidFrame(reason) => joined("decode IpcMessage: ", reason),
            PeerError::DeliveryOfOtherKind => "deliver requires CrdtSync".to_owned(),
            PeerError::DeliveryWithoutTime => "deliver requires at".to_owned(),
        }
    }
}

/// Whether a command is a given one.
fn is_command(command: &String, name: &str) -> (answer: bool)
    ensures
        answer == (command@ == name@),
{
    let name = name.to_owned();
    command.same(&name)
}

/// Whether a text starts with the prefix of the channel commands.
fn starts_channel_command(command: &String) -> (answer: bool)
    ensures
        answer == is_channel_command(command@),
{
    proof {
        reveal_strlit("link_");
    }
    let text = command.as_str();
    if text.unicode_len() < 5 {
        return false;
    }
    let answer = text.get_char(0) == 'l' && text.get_char(1) == 'i' && text.get_char(2) == 'n'
        && text.get_char(3) == 'k' && text.get_char(4) == '_';
    proof {
        if answer {
            assert(command@.take(5) =~= "link_"@);
        } else if is_channel_command(command@) {
            let prefix = command@.take(5);
            assert(prefix[0] == command@[0] && prefix[1] == command@[1] && prefix[2] == command@[2]
                && prefix[3] == command@[3] && prefix[4] == command@[4]);
        }
    }
    answer
}

impl Peer {
    /// A peer that nobody greeted yet.
    pub fn new() -> (peer: Self)
        ensures
            peer@ is None,
    {
        Peer { peer_id: None }
    }

    /// Decides what to do for a request.
    pub fn handle(&mut self, request: &PeerRequest) -> (action: PeerAction)
        ensures
            same_action(action, answer(old(self)@, *request)),
            final(self)@ == match answer(old(self)@, *request) {
                PeerAction::Greet { peer } => Some(peer),
                _ => old(self)@,
            },
    {
        match &request.cmd {
            None => PeerAction::Refuse(PeerError::MissingCommand),
            Some(command) => if is_command(command, "hello") {
                self.hello(request)
            } else if is_command(command, "local_set") {
                self.local_set(request)
            } else if is_command(command, "deliver") {
                self.deliver(request)
            } else if is_command(command, "snapshot") {
                self.snapshot()
            } else if is_command(command, "bye") {
                PeerAction::Bye
            } else if starts_channel_command(command) {
                PeerAction::UnsupportedChannel
            } else {
                PeerAction::Refuse(PeerError::UnknownCommand(command.duplicate()))
            },
        }
    }

    /// Answers a greeting.
    fn hello(&mut self, request: &PeerRequest) -> (action: PeerAction)
        ensures
            same_action(action, greeting(*request)),
            final(self)@ == match greeting(*request) {
                PeerAction::Greet { peer } => Some(peer),
                _ => old(self)@,
            },
    {
        let spoken = match request.protocol_version {
            Some(version) => version == PROTOCOL_VERSION,
            None => false,
        };
        if !spoken {
            return PeerAction::Refuse(
                PeerError::UnsupportedVersion(request.protocol_version_text.duplicate()),
            );
        }
        match request.peer {
            None => PeerAction::Refuse(PeerError::GreetingWithoutPeer),
            Some(peer) => {
                self.peer_id = Some(peer);
                PeerAction::Greet { peer }
            },
        }
    }

    /// Answers a local write.
    fn local_set(&self, request: &PeerRequest) -> (action: PeerAction)
        ensures
            same_action(action, local_write(self@, *request)),
    {
        let peer = match self.peer_id {
            Some(peer) => peer,
            None => {
                return PeerAction::Refuse(PeerError::NotGreeted);
            },
        };
        let node = match request.node {
            Some(node) => node,
            None => {
                return PeerAction::Refuse(PeerError::WriteWithoutNode);
            },
        };
        let key = match &request.key {
            KeyField::Null => None,
            KeyField::Valid(key) => Some(key.duplicate()),
            KeyField::Rejected(reason) => {
                return PeerAction::Refuse(PeerError::InvalidKey(reason.duplicate()));
            },
            KeyField::Unusable => {
                return PeerAction::Refuse(PeerError::WriteWithoutKey);
            },
        };
        match &request.state {
            DecodedField::Missing => {
                return PeerAction::Refuse(PeerError::WriteWithoutState);
            },
            DecodedField::Malformed(reason) => {
                return PeerAction::Refuse(PeerError::InvalidState(reason.duplicate()));
            },
            _ => {},
        }
        match request.at {
            None => PeerAction::Refuse(PeerError::WriteWithoutTime),
            Some(at) => PeerAction::Write { peer, node, key, at },
        }
    }

    /// Answers a delivery.
    fn deliver(&self, request: &PeerRequest) -> (action: PeerAction)
        ensures
            same_action(action, delivery(self@, *request)),
    {
        match &request.frame {
            DecodedField::Missing => {
                return PeerAction::Refuse(PeerError::DeliveryWithoutFrame);
            },
            DecodedField::Malformed(reason) => {
                return PeerAction::Refuse(PeerError::InvalidFrame(reason.duplicate()));
            },
            DecodedField::OtherKind => {
                return PeerAction::Refuse(PeerError::DeliveryOfOtherKind);
            },
            DecodedField::Decoded => {},
        }
        match request.at {
            None => PeerAction::Refuse(PeerError::DeliveryWithoutTime),
            Some(at) => if self.peer_id.is_some() {
                PeerAction::Deliver { at }
            } else {
                PeerAction::Refuse(PeerError::NotGreeted)
            },
        }
    }

    /// Answers a request for the converged cells.
    fn snapshot(&self) -> (action: PeerAction)
        ensures
            same_action(
                action,
                if self@ is Some {
                    PeerAction::Snapshot
                } else {
                    PeerAction::Refuse(PeerError::NotGreeted)
                },
            ),
    {
        if self.peer_id.is_some() {
            PeerAction::Snapshot
        } else {
            PeerAction::Refuse(PeerError::NotGreeted)
        }
    }

    /// Judges a local write once the plane has ingested it: exactly one operation was new.
    pub fn judge_write(&self, applied: usize) -> (result: Result<(), PeerError>)
        ensures
            match result {
                Ok(_) => applied == 1,
                Err(error) => applied != 1 && error == PeerError::FreshWriteRejected,
            },
    {
        if applied == 1 {
            Ok(())
        } else {
            Err(PeerError::FreshWriteRejected)
        }
    }
}

/// Before a greeting nothing reaches the plane: every request is refused, is a greeting,
/// says goodbye or asks for a channel.
pub proof fn nothing_reaches_the_plane_before_a_greeting(request: PeerRequest)
    ensures
        !(answer(None, request) is Write),
        !(answer(None, request) is Deliver),
        !(answer(None, request) is Snapshot),
{
}

} // verus!
