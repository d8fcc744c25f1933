//! Laws of the boundary projection: what an edit does to the bytes of a text, what each body
//! is answered, and how the cells are written out.

use vstd::prelude::*;
use vstd::utf8::*;

use crate::protobuf::{
    Body, BoundaryDecision, BoundaryError, CellState, CellTextSplice, DerivedCell, GraphInput,
    GraphInputKind, ProjectionState, ProtocolEnvelope, SnapshotPurpose, cell_text, cells_text,
    decimal, digit, remote_cells, snapshot_cells, spliced,
};

verus! {

/// The bytes of two texts in a row are the bytes of each in a row.
proof fn bytes_of_texts_in_a_row(one: Seq<char>, other: Seq<char>)
    ensures
        encode_utf8(one + other) == encode_utf8(one) + encode_utf8(other),
    decreases one.len(),
{
    if one.len() == 0 {
        assert(one + other =~= other);
        assert(encode_utf8(one) =~= Seq::empty());
        assert(encode_utf8(one) + encode_utf8(other) =~= encode_utf8(other));
    } else {
        bytes_of_texts_in_a_row(one.drop_first(), other);
        assert((one + other).drop_first() =~= one.drop_first() + other);
        assert((one + other)[0] == one[0]);
        assert(encode_utf8(one + other) =~= encode_utf8(one) + encode_utf8(other));
    }
}

/// An edit takes effect exactly where the sender saw the current revision and the stretch
/// lies within the text's bytes, between characters. Then the bytes of the stretch are
/// replaced by those of the insert, every other byte stays, and the revision grows by one.
/// Otherwise the edit is refused. A cell that is not there is empty at revision zero, and no
/// other cell moves either way.
pub proof fn an_edit_replaces_a_stretch_of_bytes(state: ProjectionState, splice: CellTextSplice)
    requires
        splice.local_offset_utf8 + splice.delete_length_utf8 <= usize::MAX,
    ensures
        ({
            let (after, result) = state.edited(splice);
            let id = splice.cell_id@;
            let there = state.cells.contains_key(id);
            let text = if there {
                state.cells[id].text
            } else {
                Seq::empty()
            };
            let revision = if there {
                state.cells[id].revision
            } else {
                0
            };
            let bytes = encode_utf8(text);
            let start = splice.local_offset_utf8 as int;
            let end = start + splice.delete_length_utf8;
            let fits = revision == splice.expected_cell_revision && end <= bytes.len()
                && is_char_boundary(bytes, start) && is_char_boundary(bytes, end);
            &&& result == if fits {
                Ok::<BoundaryDecision, BoundaryError>(BoundaryDecision::Apply)
            } else {
                Err(BoundaryError::InvalidSplice)
            }
            &&& after.cells.contains_key(id)
            &&& fits ==> {
                &&& encode_utf8(after.cells[id].text) == bytes.take(start) + encode_utf8(
                    splice.insert_text@,
                ) + bytes.skip(end)
                &&& revision < u64::MAX ==> after.cells[id].revision == revision + 1
            }
            &&& !fits ==> after.cells[id].text == text && after.cells[id].revision == revision
            &&& forall|other: Seq<char>|
                other != id ==> (#[trigger] after.cells.contains_key(other)
                    <==> state.cells.contains_key(other))
            &&& forall|other: Seq<char>|
                other != id && #[trigger] state.cells.contains_key(other) ==> after.cells[other]
                    == state.cells[other]
            &&& after.source_generation == state.source_generation
            &&& after.causal_epoch == state.causal_epoch
            &&& after.last_sequence == state.last_sequence
        }),
{
    let after = state.edited(splice).0;
    let id = splice.cell_id@;
    let text = state.cell(id).text;
    let bytes = encode_utf8(text);
    let start = splice.local_offset_utf8 as int;
    let end = start + splice.delete_length_utf8;
    let insert = splice.insert_text@;
    if end <= bytes.len() && is_char_boundary(bytes, start) && is_char_boundary(bytes, end) {
        encode_utf8_valid_utf8(text);
        valid_utf8_split(bytes, start);
        valid_utf8_split(bytes, end);
        let head = decode_utf8(bytes.subrange(0, start));
        let tail = decode_utf8(bytes.subrange(end, bytes.len() as int));
        decode_utf8_encode_utf8(bytes.subrange(0, start));
        decode_utf8_encode_utf8(bytes.subrange(end, bytes.len() as int));
        bytes_of_texts_in_a_row(head, insert);
        bytes_of_texts_in_a_row(head + insert, tail);
        assert(bytes.subrange(0, start) =~= bytes.take(start));
        assert(bytes.subrange(end, bytes.len() as int) =~= bytes.skip(end));
        assert(spliced(text, start, end, insert) == head + insert + tail);
    }
}

/// Each graph input gets its answer, and only an edit moves anything.
pub proof fn every_input_gets_its_answer(state: ProjectionState, input: GraphInput)
    ensures
        ({
            let (after, result) = state.given(input);
            let kind = input.input;
            &&& result == Err::<BoundaryDecision, BoundaryError>(BoundaryError::MissingInput)
                <==> kind is None
            &&& result == Err::<BoundaryDecision, BoundaryError>(BoundaryError::UnsupportedBody)
                <==> kind is Some && (kind->0 is SourceValueSet || kind->0 is KeyedMemberUpsert
                || kind->0 is KeyedMemberRemove)
            &&& result == Ok::<BoundaryDecision, BoundaryError>(BoundaryDecision::Observe)
                <==> kind is Some && kind->0 is SurfaceObservation
            &&& result == Ok::<BoundaryDecision, BoundaryError>(BoundaryDecision::Bootstrap)
                <==> (kind matches Some(GraphInputKind::BootstrapSnapshot(snapshot)) && (
            snapshot.purpose == Some(SnapshotPurpose::Bootstrap) || snapshot.purpose == Some(
                SnapshotPurpose::Recovery,
            )))
            &&& result == Err::<BoundaryDecision, BoundaryError>(
                BoundaryError::InvalidSnapshotPurpose,
            ) <==> (kind matches Some(GraphInputKind::BootstrapSnapshot(snapshot)) && (
            snapshot.purpose is None || snapshot.purpose == Some(SnapshotPurpose::Unspecified)))
            &&& kind matches Some(GraphInputKind::CellTextSplice(splice)) ==> (after, result)
                == state.edited(splice)
            &&& !(kind is Some && kind->0 is CellTextSplice) ==> after == state
        }),
{
}

/// Each body gets its answer: an input its own, a remote projection takes the place of every
/// cell, and nothing else is taken or moves anything.
pub proof fn every_body_gets_its_answer(state: ProjectionState, body: Option<Body>)
    ensures
        ({
            let (after, result) = state.carried(body);
            &&& body is None ==> result == Err::<BoundaryDecision, BoundaryError>(
                BoundaryError::MissingBody,
            ) && after == state
            &&& body matches Some(Body::GraphInput(input)) ==> (after, result) == state.given(input)
            &&& body matches Some(Body::DerivedProjection(projection)) ==> {
                &&& result == Ok::<BoundaryDecision, BoundaryError>(BoundaryDecision::Project)
                &&& after.cells == remote_cells(projection.cells@)
                &&& after.source_generation == state.source_generation
                &&& after.causal_epoch == state.causal_epoch
                &&& after.last_sequence == state.last_sequence
            }
            &&& body is Some && (body->0 is CapabilityHandshake || body->0 is EffectIntent
                || body->0 is DeliveryReceipt) ==> result == Err::<
                BoundaryDecision,
                BoundaryError,
            >(BoundaryError::UnsupportedBody) && after == state
        }),
{
}

/// An envelope of an older incarnation, or of an older epoch of the current one, is stale. A
/// newer one moves the fence there and starts its sequence at zero. Behind the fence only the
/// next sequence is taken; the watermark moves to it exactly where the body is not refused.
pub proof fn only_the_next_sequence_is_taken(state: ProjectionState, envelope: ProtocolEnvelope)
    ensures
        ({
            let (after, result) = state.admitted(envelope);
            let older = envelope.source_generation < state.source_generation || (
            envelope.source_generation == state.source_generation && envelope.causal_epoch
                < state.causal_epoch);
            let same = envelope.source_generation == state.source_generation
                && envelope.causal_epoch == state.causal_epoch;
            let last: int = if same {
                state.last_sequence as int
            } else {
                0
            };
            let before = ProjectionState {
                source_generation: envelope.source_generation,
                causal_epoch: envelope.causal_epoch,
                last_sequence: last as u64,
                cells: state.cells,
            };
            &&& older ==> result == Ok::<BoundaryDecision, BoundaryError>(
                BoundaryDecision::RejectStale,
            ) && after == state
            &&& !older ==> {
                &&& after.source_generation == envelope.source_generation
                &&& after.causal_epoch == envelope.causal_epoch
                &&& envelope.sequence <= last ==> result == Ok::<BoundaryDecision, BoundaryError>(
                    BoundaryDecision::Duplicate,
                ) && after == before
                &&& last + 1 < envelope.sequence ==> result == Ok::<
                    BoundaryDecision,
                    BoundaryError,
                >(BoundaryDecision::RejectGap) && after == before
                &&& envelope.sequence == last + 1 ==> {
                    &&& result == before.carried(envelope.body).1
                    &&& after.cells == before.carried(envelope.body).0.cells
                    &&& result is Ok ==> after.last_sequence == envelope.sequence
                    &&& result is Err ==> after.last_sequence == last
                }
            }
        }),
{
}

/// A projection that has admitted nothing is behind every fence and holds no cell.
pub proof fn a_new_projection_holds_no_cell()
    ensures
        ProjectionState::initial().source_generation == 0,
        ProjectionState::initial().causal_epoch == 0,
        ProjectionState::initial().last_sequence == 0,
        ProjectionState::initial().cells == Map::<Seq<char>, CellState>::empty(),
{
}

/// A remote projection holds exactly the cells that it names; of a name that comes more than
/// once, the last one.
pub proof fn the_last_remote_cell_of_a_name_stands(cells: Seq<DerivedCell>)
    ensures
        forall|id: Seq<char>| #[trigger]
            remote_cells(cells).contains_key(id) <==> exists|i: int|
                0 <= i < cells.len() && (#[trigger] cells[i]).cell_id@ == id,
        forall|i: int|
            0 <= i < cells.len() && (forall|j: int|
                i < j < cells.len() ==> (#[trigger] cells[j]).cell_id@ != cells[i].cell_id@)
                ==> remote_cells(cells)[(#[trigger] cells[i]).cell_id@].revision
                == cells[i].revision && remote_cells(cells)[cells[i].cell_id@].text
                == cells[i].text@,
    decreases cells.len(),
{
    if cells.len() > 0 {
        let fewer = cells.drop_last();
        the_last_remote_cell_of_a_name_stands(fewer);
        let last = cells.len() - 1;
        assert(cells.last() == cells[last]);
        assert forall|id: Seq<char>| #[trigger]
            remote_cells(cells).contains_key(id) <==> exists|i: int|
                0 <= i < cells.len() && (#[trigger] cells[i]).cell_id@ == id by {
            if remote_cells(fewer).contains_key(id) {
                let i = choose|i: int|
                    0 <= i < fewer.len() && (#[trigger] fewer[i]).cell_id@ == id;
                assert(cells[i].cell_id@ == id);
            }
            if exists|i: int| 0 <= i < cells.len() && (#[trigger] cells[i]).cell_id@ == id {
                let i = choose|i: int|
                    0 <= i < cells.len() && (#[trigger] cells[i]).cell_id@ == id;
                if i < last {
                    assert(fewer[i].cell_id@ == id);
                }
            }
        }
        assert forall|i: int|
            0 <= i < cells.len() && (forall|j: int|
                i < j < cells.len() ==> (#[trigger] cells[j]).cell_id@
                    != cells[i].cell_id@) implies remote_cells(
            cells,
        )[(#[trigger] cells[i]).cell_id@].revision == cells[i].revision && remote_cells(
            cells,
        )[cells[i].cell_id@].text == cells[i].text@ by {
            if i < last {
                assert(fewer[i] == cells[i]);
                assert forall|j: int| i < j < fewer.len() implies (#[trigger] fewer[j]).cell_id@
                    != fewer[i].cell_id@ by {
                    assert(cells[j].cell_id@ != cells[i].cell_id@);
                }
                assert(cells[last].cell_id@ != cells[i].cell_id@);
            }
        }
    }
}

/// An installed snapshot holds exactly the cells that it names, each at its first revision;
/// of a name that comes more than once, the last one.
pub proof fn the_last_snapshot_cell_of_a_name_stands(cells: Seq<(String, String)>)
    ensures
        forall|id: Seq<char>| #[trigger]
            snapshot_cells(cells).contains_key(id) <==> exists|i: int|
                0 <= i < cells.len() && (#[trigger] cells[i]).0@ == id,
        forall|id: Seq<char>| #[trigger]
            snapshot_cells(cells).contains_key(id) ==> snapshot_cells(cells)[id].revision == 1,
        forall|i: int|
            0 <= i < cells.len() && (forall|j: int|
                i < j < cells.len() ==> (#[trigger] cells[j]).0@ != cells[i].0@)
                ==> snapshot_cells(cells)[(#[trigger] cells[i]).0@].text == cells[i].1@,
    decreases cells.len(),
{
    if cells.len() > 0 {
        let fewer = cells.drop_last();
        the_last_snapshot_cell_of_a_name_stands(fewer);
        let last = cells.len() - 1;
        assert(cells.last() == cells[last]);
        assert forall|id: Seq<char>| #[trigger]
            snapshot_cells(cells).contains_key(id) <==> exists|i: int|
                0 <= i < cells.len() && (#[trigger] cells[i]).0@ == id by {
            if snapshot_cells(fewer).contains_key(id) {
                let i = choose|i: int| 0 <= i < fewer.len() && (#[trigger] fewer[i]).0@ == id;
                assert(cells[i].0@ == id);
            }
            if exists|i: int| 0 <= i < cells.len() && (#[trigger] cells[i]).0@ == id {
                let i = choose|i: int| 0 <= i < cells.len() && (#[trigger] cells[i]).0@ == id;
                if i < last {
                    assert(fewer[i].0@ == id);
                }
            }
        }
        assert forall|i: int|
            0 <= i < cells.len() && (forall|j: int|
                i < j < cells.len() ==> (#[trigger] cells[j]).0@
                    != cells[i].0@) implies snapshot_cells(cells)[(
        #[trigger] cells[i]).0@].text == cells[i].1@ by {
            if i < last {
                assert(fewer[i] == cells[i]);
                assert forall|j: int| i < j < fewer.len() implies (#[trigger] fewer[j]).0@
                    != fewer[i].0@ by {
                    assert(cells[j].0@ != cells[i].0@);
                }
                assert(cells[last].0@ != cells[i].0@);
            }
        }
    }
}

/// The number that some digits read from left to right come to.
pub open spec fn number_of(text: Seq<char>) -> int
    decreases text.len(),
{
    if text.len() == 0 {
        0
    } else {
        10 * number_of(text.drop_last()) + (text.last() as int - '0' as int)
    }
}

/// A number in decimal reads back as itself, is made of digits, and starts with zero only
/// where it is zero.
pub proof fn a_number_in_decimal_reads_back(value: nat)
    ensures
        number_of(decimal(value)) == value,
        decimal(value).len() > 0,
        forall|i: int|
            0 <= i < decimal(value).len() ==> '0' as int <= (#[trigger] decimal(value)[i]) as int
                && decimal(value)[i] as int <= '9' as int,
        decimal(value)[0] == '0' ==> value == 0 && decimal(value).len() == 1,
    decreases value,
{
    reveal_with_fuel(number_of, 2);
    let text = decimal(value);
    if value < 10 {
        assert(text.drop_last() =~= Seq::empty());
        assert(digit(value) as int == '0' as int + value);
    } else {
        a_number_in_decimal_reads_back(value / 10);
        assert(text.drop_last() =~= decimal(value / 10));
        assert(digit(value % 10) as int == '0' as int + value % 10);
        assert(text[0] == decimal(value / 10)[0]);
    }
}

/// A cell is written as its name, its revision in decimal and its text, with `@` and `=`
/// between them, and the cells in a row with bars between them.
pub proof fn cells_are_written_in_a_row(
    ids: Seq<Seq<char>>,
    id: Seq<char>,
    cells: Map<Seq<char>, CellState>,
)
    ensures
        ({
            let text = cell_text(id, cells[id]);
            let middle: int = id.len() + 1 + decimal(cells[id].revision as nat).len() as int;
            &&& text.take(id.len() as int) == id
            &&& text[id.len() as int] == '@'
            &&& text.subrange(id.len() as int + 1, middle) == decimal(cells[id].revision as nat)
            &&& text[middle] == '='
            &&& text.skip(middle + 1) == cells[id].text
        }),
        cells_text(Seq::empty(), cells).len() == 0,
        cells_text(seq![id], cells) == cell_text(id, cells[id]),
        ids.len() > 0 ==> {
            let all = cells_text(ids.push(id), cells);
            let fewer = cells_text(ids, cells);
            &&& all.take(fewer.len() as int) == fewer
            &&& all[fewer.len() as int] == '|'
            &&& all.skip(fewer.len() as int + 1) == cell_text(id, cells[id])
        },
{
    let text = cell_text(id, cells[id]);
    let number = decimal(cells[id].revision as nat);
    assert(text.take(id.len() as int) =~= id);
    let middle: int = id.len() + 1 + number.len() as int;
    assert(text.subrange(id.len() as int + 1, middle) =~= number);
    assert(text.skip(middle + 1) =~= cells[id].text);
    if ids.len() > 0 {
        let all = cells_text(ids.push(id), cells);
        let fewer = cells_text(ids, cells);
        assert(ids.push(id).drop_last() =~= ids);
        assert(all == fewer + seq!['|'] + text);
        assert(all.take(fewer.len() as int) =~= fewer);
        assert(all.skip(fewer.len() as int + 1) =~= text);
    }
}

} // verus!
