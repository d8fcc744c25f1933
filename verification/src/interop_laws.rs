//! Laws of the interop peer: which request gets which answer, and what the fields of a line
//! are.

use vstd::prelude::*;

use crate::interop_peer::{
    DecodedField, KeyField, PeerAction, PeerError, PeerRequest, answer, delivery, error_text,
    greeting, is_channel_command, local_write, same_action,
};
use crate::interop_request::{
    FieldsState, FrameVerdict, RequestFields, RequestMembers, WrittenKey, WrittenKeyState,
    fields_by, fields_in, judged_request, member_view, names_differ,
};
use crate::json_line::MemberState;

verus! {

/// A greeting is taken exactly where it speaks version one and names a peer, and greets that
/// peer. Another version is refused before the peer is looked at.
pub proof fn a_greeting_needs_the_version_and_a_peer(request: PeerRequest)
    ensures
        ({
            let action = greeting(request);
            let spoken = request.protocol_version == Some(1u64);
            &&& action is Greet <==> spoken && request.peer is Some
            &&& action is Greet ==> request.peer == Some(action->Greet_peer)
            &&& !spoken ==> action == PeerAction::Refuse(
                PeerError::UnsupportedVersion(request.protocol_version_text),
            )
            &&& spoken && request.peer is None ==> action == PeerAction::Refuse(
                PeerError::GreetingWithoutPeer,
            )
        }),
{
}

/// A local write is done exactly where a greeted peer gets a node, a key that is null or
/// valid, a state that decodes and a time; and then with just these. What is missing or
/// wrong first, in that order, is what it is refused for.
pub proof fn a_write_needs_everything_in_turn(peer: Option<u64>, request: PeerRequest)
    ensures
        ({
            let action = local_write(peer, request);
            let keyed = request.key is Null || request.key is Valid;
            let stated = request.state is Decoded || request.state is OtherKind;
            &&& action is Write <==> peer is Some && request.node is Some && keyed && stated
                && request.at is Some
            &&& action matches PeerAction::Write { peer: writer, node, key, at } ==> {
                &&& peer == Some(writer)
                &&& request.node == Some(node)
                &&& request.at == Some(at)
                &&& request.key is Null ==> key is None
                &&& request.key matches KeyField::Valid(text) ==> key == Some(text)
            }
            &&& action is Write || action is Refuse
            &&& peer is None ==> action == PeerAction::Refuse(PeerError::NotGreeted)
            &&& peer is Some && request.node is None ==> action == PeerAction::Refuse(
                PeerError::WriteWithoutNode,
            )
            &&& peer is Some && request.node is Some ==> {
                &&& request.key is Unusable ==> action == PeerAction::Refuse(
                    PeerError::WriteWithoutKey,
                )
                &&& request.key matches KeyField::Rejected(reason) ==> action
                    == PeerAction::Refuse(PeerError::InvalidKey(reason))
                &&& keyed && request.state is Missing ==> action == PeerAction::Refuse(
                    PeerError::WriteWithoutState,
                )
                &&& keyed ==> (request.state matches DecodedField::Malformed(reason) ==> action
                    == PeerAction::Refuse(PeerError::InvalidState(reason)))
                &&& keyed && stated && request.at is None ==> action == PeerAction::Refuse(
                    PeerError::WriteWithoutTime,
                )
            }
        }),
{
}

/// A delivery is taken exactly where its frame decodes to a synchronisation, it has a time
/// and the peer was greeted. What is missing or wrong first, in that order, is what it is
/// refused for.
pub proof fn a_delivery_needs_everything_in_turn(peer: Option<u64>, request: PeerRequest)
    ensures
        ({
            let action = delivery(peer, request);
            let decoded = request.frame is Decoded;
            &&& action is Deliver <==> decoded && request.at is Some && peer is Some
            &&& action is Deliver ==> request.at == Some(action->Deliver_at)
            &&& request.frame is Missing ==> action == PeerAction::Refuse(
                PeerError::DeliveryWithoutFrame,
            )
            &&& request.frame matches DecodedField::Malformed(reason) ==> action
                == PeerAction::Refuse(PeerError::InvalidFrame(reason))
            &&& request.frame is OtherKind ==> action == PeerAction::Refuse(
                PeerError::DeliveryOfOtherKind,
            )
            &&& decoded && request.at is None ==> action == PeerAction::Refuse(
                PeerError::DeliveryWithoutTime,
            )
            &&& decoded && request.at is Some && peer is None ==> action == PeerAction::Refuse(
                PeerError::NotGreeted,
            )
        }),
{
}

/// Each command gets its own answer, a text that starts with `link_` that there is no such
/// channel, and any other that it is not known.
pub proof fn every_command_gets_its_answer(peer: Option<u64>, request: PeerRequest)
    ensures
        ({
            let action = answer(peer, request);
            &&& request.cmd is None ==> action == PeerAction::Refuse(PeerError::MissingCommand)
            &&& request.cmd matches Some(command) ==> {
                &&& command@ == "hello"@ ==> action == greeting(request)
                &&& command@ == "local_set"@ ==> action == local_write(peer, request)
                &&& command@ == "deliver"@ ==> action == delivery(peer, request)
                &&& command@ == "snapshot"@ && peer is Some ==> action is Snapshot
                &&& command@ == "snapshot"@ && peer is None ==> action == PeerAction::Refuse(
                    PeerError::NotGreeted,
                )
                &&& command@ == "bye"@ ==> action is Bye
                &&& (exists|rest: Seq<char>| command@ == #[trigger] ("link_"@ + rest)) ==> action
                    is UnsupportedChannel
                &&& command@ != "hello"@ && command@ != "local_set"@ && command@ != "deliver"@
                    && command@ != "snapshot"@ && command@ != "bye"@ && (forall|rest: Seq<char>|
                    command@ != #[trigger] ("link_"@ + rest)) ==> action == PeerAction::Refuse(
                    PeerError::UnknownCommand(command),
                )
            }
        }),
{
    reveal_strlit("hello");
    reveal_strlit("local_set");
    reveal_strlit("deliver");
    reveal_strlit("snapshot");
    reveal_strlit("bye");
    reveal_strlit("link_");
    assert("hello"@[0] != "local_set"@[0]);
    assert("hello"@[0] != "deliver"@[0]);
    assert("deliver"@[0] != "local_set"@[0]);
    if let Some(command) = request.cmd {
        if is_channel_command(command@) {
            let rest = command@.skip(5);
            assert(command@ =~= "link_"@ + rest);
            assert(command@[0] == command@.take(5)[0]);
            assert(command@[1] == command@.take(5)[1]);
        }
        if exists|rest: Seq<char>| command@ == #[trigger] ("link_"@ + rest) {
            let rest = choose|rest: Seq<char>| command@ == #[trigger] ("link_"@ + rest);
            assert(command@.take(5) =~= "link_"@);
            assert(command@[0] == 'l');
            assert(command@[1] == 'i');
        }
    }
}

/// Answers that are the same are of one kind and carry the same.
pub proof fn answers_that_are_the_same_do_the_same(one: PeerAction, other: PeerAction)
    requires
        same_action(one, other),
    ensures
        one is Greet <==> other is Greet,
        one is Greet ==> one->Greet_peer == other->Greet_peer,
        one is Write <==> other is Write,
        one is Write ==> {
            &&& one->Write_peer == other->Write_peer
            &&& one->node == other->node
            &&& one->Write_at == other->Write_at
            &&& one->key is Some <==> other->key is Some
            &&& one->key is Some ==> one->key->0@ == other->key->0@
        },
        one is Deliver <==> other is Deliver,
        one is Deliver ==> one->Deliver_at == other->Deliver_at,
        one is Snapshot <==> other is Snapshot,
        one is Bye <==> other is Bye,
        one is UnsupportedChannel <==> other is UnsupportedChannel,
        one is Refuse <==> other is Refuse,
        one is Refuse ==> error_text(one->Refuse_0) == error_text(other->Refuse_0),
{
}

/// A refusal that has a reason says what it is about and then the reason, to the letter.
pub proof fn refusals_end_with_their_reason(reason: String)
    ensures
        error_text(PeerError::InvalidJson(reason)) == "invalid JSON: "@ + reason@,
        error_text(PeerError::UnknownCommand(reason)) == "unknown command "@ + reason@,
        error_text(PeerError::UnsupportedVersion(reason)) == "unsupported protocol_version "@
            + reason@,
        error_text(PeerError::InvalidKey(reason)) == "invalid key: "@ + reason@,
        error_text(PeerError::InvalidState(reason)) == "invalid IpcValue: "@ + reason@,
        error_text(PeerError::EncodingFailed(reason)) == "encode CrdtSync: "@ + reason@,
        error_text(PeerError::InvalidFrame(reason)) == "decode IpcMessage: "@ + reason@,
{
}

/// A refusal for want of something names the command and what it requires.
pub proof fn refusals_name_what_is_required()
    ensures
        error_text(PeerError::MissingCommand) == "missing cmd"@,
        error_text(PeerError::NotGreeted) == "hello must run first"@,
        error_text(PeerError::GreetingWithoutPeer) == "hello"@ + " requires "@ + "peer"@,
        error_text(PeerError::WriteWithoutNode) == "local_set"@ + " requires "@ + "node"@,
        error_text(PeerError::WriteWithoutKey) == "local_set"@ + " requires "@ + "nullable key"@,
        error_text(PeerError::WriteWithoutState) == "local_set"@ + " requires "@ + "state"@,
        error_text(PeerError::WriteWithoutTime) == "local_set"@ + " requires "@ + "at"@,
        error_text(PeerError::DeliveryWithoutFrame) == "deliver"@ + " requires "@ + "frame"@,
        error_text(PeerError::DeliveryOfOtherKind) == "deliver"@ + " requires "@ + "CrdtSync"@,
        error_text(PeerError::DeliveryWithoutTime) == "deliver"@ + " requires "@ + "at"@,
        error_text(PeerError::FreshWriteRejected)
            == "production runtime rejected its fresh local op"@,
{
    reveal_strlit("hello");
    reveal_strlit("local_set");
    reveal_strlit("deliver");
    reveal_strlit(" requires ");
    reveal_strlit("peer");
    reveal_strlit("node");
    reveal_strlit("nullable key");
    reveal_strlit("state");
    reveal_strlit("at");
    reveal_strlit("frame");
    reveal_strlit("CrdtSync");
    reveal_strlit("hello requires peer");
    reveal_strlit("local_set requires node");
    reveal_strlit("local_set requires nullable key");
    reveal_strlit("local_set requires state");
    reveal_strlit("local_set requires at");
    reveal_strlit("deliver requires frame");
    reveal_strlit("deliver requires CrdtSync");
    reveal_strlit("deliver requires at");
    assert(error_text(PeerError::GreetingWithoutPeer) =~= "hello"@ + " requires "@ + "peer"@);
    assert(error_text(PeerError::WriteWithoutNode) =~= "local_set"@ + " requires "@ + "node"@);
    assert(error_text(PeerError::WriteWithoutKey) =~= "local_set"@ + " requires "@
        + "nullable key"@);
    assert(error_text(PeerError::WriteWithoutState) =~= "local_set"@ + " requires "@ + "state"@);
    assert(error_text(PeerError::WriteWithoutTime) =~= "local_set"@ + " requires "@ + "at"@);
    assert(error_text(PeerError::DeliveryWithoutFrame) =~= "deliver"@ + " requires "@ + "frame"@);
    assert(error_text(PeerError::DeliveryOfOtherKind) =~= "deliver"@ + " requires "@
        + "CrdtSync"@);
    assert(error_text(PeerError::DeliveryWithoutTime) =~= "deliver"@ + " requires "@ + "at"@);
}

/// Each field of a request is what the member of its name is, and only of its name: a number
/// where it is one, a text where it is one, or the member as it was written. A key is null,
/// a text or not usable.
pub proof fn fields_are_the_members_of_their_names(object: Map<Seq<char>, MemberState>)
    ensures
        ({
            let fields = fields_in(object);
            &&& fields.cmd == if object.contains_key("cmd"@) {
                object["cmd"@].text
            } else {
                None
            }
            &&& fields.protocol_version == if object.contains_key("protocol_version"@) {
                object["protocol_version"@].number
            } else {
                None
            }
            &&& object.contains_key("protocol_version"@) ==> fields.protocol_version_text
                == object["protocol_version"@].written
            &&& !object.contains_key("protocol_version"@) ==> fields.protocol_version_text
                == "null"@
            &&& fields.peer == if object.contains_key("peer"@) {
                object["peer"@].number
            } else {
                None
            }
            &&& fields.node == if object.contains_key("node"@) {
                object["node"@].number
            } else {
                None
            }
            &&& fields.at == if object.contains_key("at"@) {
                object["at"@].number
            } else {
                None
            }
            &&& fields.state == if object.contains_key("state"@) {
                Some(object["state"@].written)
            } else {
                None
            }
            &&& fields.frame == if object.contains_key("frame"@) {
                Some(object["frame"@].written)
            } else {
                None
            }
            &&& fields.key is Null <==> object.contains_key("key"@) && object["key"@].null
            &&& fields.key is Text <==> object.contains_key("key"@) && !object["key"@].null
                && object["key"@].text is Some
            &&& fields.key matches WrittenKeyState::Text(text) ==> object["key"@].text == Some(text)
        }),
{
}

/// The fields of some members are read each from the member of its own name.
pub proof fn members_are_found_by_their_names(members: RequestMembers)
    ensures
        ({
            let fields = fields_by(members.find());
            &&& member_view(members.cmd) is None ==> fields.cmd is None
            &&& member_view(members.cmd) is Some ==> fields.cmd == member_view(members.cmd)->0.text
            &&& member_view(members.protocol_version) is Some ==> fields.protocol_version
                == member_view(members.protocol_version)->0.number && fields.protocol_version_text
                == member_view(members.protocol_version)->0.written
            &&& member_view(members.protocol_version) is None ==> fields.protocol_version is None
                && fields.protocol_version_text == "null"@
            &&& member_view(members.peer) is None ==> fields.peer is None
            &&& member_view(members.peer) is Some ==> fields.peer == member_view(
                members.peer,
            )->0.number
            &&& member_view(members.node) is None ==> fields.node is None
            &&& member_view(members.node) is Some ==> fields.node == member_view(
                members.node,
            )->0.number
            &&& member_view(members.at) is None ==> fields.at is None
            &&& member_view(members.at) is Some ==> fields.at == member_view(members.at)->0.number
            &&& member_view(members.state) is None ==> fields.state is None
            &&& member_view(members.state) is Some ==> fields.state == Some(
                member_view(members.state)->0.written,
            )
            &&& member_view(members.frame) is None ==> fields.frame is None
            &&& member_view(members.frame) is Some ==> fields.frame == Some(
                member_view(members.frame)->0.written,
            )
            &&& fields.key is Null <==> member_view(members.key) is Some && member_view(
                members.key,
            )->0.null
        }),
{
    names_differ();
}

/// A verdict on what was written decides its field, and one on what was not written counts
/// for nothing. Every other field stays as it is.
pub proof fn verdicts_decide_what_was_written(
    fields: RequestFields,
    key: Option<String>,
    state: Option<String>,
    frame: FrameVerdict,
)
    ensures
        ({
            let request = judged_request(fields, key, state, frame);
            &&& request.cmd == fields.cmd
            &&& request.protocol_version == fields.protocol_version
            &&& request.protocol_version_text == fields.protocol_version_text
            &&& request.peer == fields.peer
            &&& request.node == fields.node
            &&& request.at == fields.at
            &&& request.key is Unusable <==> fields.key is Unusable
            &&& request.key is Null <==> fields.key is Null
            &&& fields.key matches WrittenKey::Text(text) ==> {
                &&& key is None ==> request.key == KeyField::Valid(text)
                &&& key matches Some(reason) ==> request.key == KeyField::Rejected(reason)
            }
            &&& request.state is Missing <==> fields.state is None
            &&& request.state is Decoded <==> fields.state is Some && state is None
            &&& fields.state is Some ==> (state matches Some(reason) ==> request.state
                == DecodedField::Malformed(reason))
            &&& request.frame is Missing <==> fields.frame is None
            &&& request.frame is Decoded <==> fields.frame is Some && frame is Decoded
            &&& request.frame is OtherKind <==> fields.frame is Some && frame is OtherKind
            &&& fields.frame is Some ==> (frame matches FrameVerdict::Malformed(reason)
                ==> request.frame == DecodedField::Malformed(reason))
        }),
{
}

/// The fields of a request stand for their own models.
pub proof fn fields_are_seen_as_they_are(fields: RequestFields)
    ensures
        ({
            let state: FieldsState = fields@;
            &&& state.cmd is Some <==> fields.cmd is Some
            &&& fields.cmd matches Some(text) ==> state.cmd == Some(text@)
            &&& state.protocol_version == fields.protocol_version
            &&& state.protocol_version_text == fields.protocol_version_text@
            &&& state.peer == fields.peer
            &&& state.node == fields.node
            &&& state.at == fields.at
            &&& state.key is Null <==> fields.key is Null
            &&& state.key is Unusable <==> fields.key is Unusable
            &&& fields.key matches WrittenKey::Text(text) ==> state.key == WrittenKeyState::Text(
                text@,
            )
            &&& state.state is Some <==> fields.state is Some
            &&& fields.state matches Some(text) ==> state.state == Some(text@)
            &&& state.frame is Some <==> fields.frame is Some
            &&& fields.frame matches Some(text) ==> state.frame == Some(text@)
        }),
{
}

} // verus!
