//! Semantic admission of decoded graph-boundary envelopes.
//!
//! Decoded messages own representation only. The projection is the layer that admits
//! them, and it comes to the same logical state whatever encoding they arrived in.

use vstd::prelude::*;
use vstd::utf8::*;

use crate::sorted::{SortedTable, ascending_is_in_order, in_order};

verus! {

/// The capability that both peers must advertise before they use this encoding.
pub const PROTOBUF_GRAPH_BOUNDARY_FEATURE: &'static str = "protobuf-graph-boundary-v1";

/// What a snapshot is for.
#[derive(Debug, Clone, Copy, PartialEq, Eq, Structural)]
pub enum SnapshotPurpose {
    /// Not said.
    Unspecified,
    /// To start from.
    Bootstrap,
    /// To recover with.
    Recovery,
}

/// A replacement of a stretch of a cell's text, in UTF-8 bytes.
pub struct CellTextSplice {
    /// The cell.
    pub cell_id: String,
    /// The revision that the sender saw.
    pub expected_cell_revision: u64,
    /// Where the stretch starts.
    pub local_offset_utf8: u64,
    /// How long the stretch is.
    pub delete_length_utf8: u64,
    /// What takes its place.
    pub insert_text: String,
}

/// A snapshot that arrives outside the ordinary flow.
pub struct BootstrapSnapshot {
    /// What it is for; nothing where the number on the wire names no purpose.
    pub purpose: Option<SnapshotPurpose>,
}

/// The concrete graph inputs.
pub enum GraphInputKind {
    /// An edit of a cell's text.
    CellTextSplice(CellTextSplice),
    /// A snapshot.
    BootstrapSnapshot(BootstrapSnapshot),
    /// Something the host saw.
    SurfaceObservation,
    /// A source that was set.
    SourceValueSet,
    /// A keyed member that joined or changed.
    KeyedMemberUpsert,
    /// A keyed member that left.
    KeyedMemberRemove,
}

/// A graph input.
pub struct GraphInput {
    /// The concrete input.
    pub input: Option<GraphInputKind>,
}

/// One cell of a remote projection.
pub struct DerivedCell {
    /// The cell.
    pub cell_id: String,
    /// Its revision.
    pub revision: u64,
    /// Its text.
    pub text: String,
}

/// A remote derived projection.
pub struct DerivedProjection {
    /// Its cells.
    pub cells: Vec<DerivedCell>,
}

/// What an envelope can carry.
pub enum Body {
    /// A graph input.
    GraphInput(GraphInput),
    /// A remote derived projection.
    DerivedProjection(DerivedProjection),
    /// What a peer can do.
    CapabilityHandshake,
    /// An effect that is wanted.
    EffectIntent,
    /// A receipt.
    DeliveryReceipt,
}

/// A decoded envelope.
pub struct ProtocolEnvelope {
    /// The incarnation of the source.
    pub source_generation: u64,
    /// The causal epoch within it.
    pub causal_epoch: u64,
    /// The position within the epoch.
    pub sequence: u64,
    /// What it carries.
    pub body: Option<Body>,
}

/// A stable cell in the projection.
pub struct ProjectedCell {
    /// Monotonic cell revision.
    pub revision: u64,
    /// Current text.
    pub text: String,
}

/// A stable cell, over views.
#[verifier::ext_equal]
pub struct CellState {
    /// Monotonic cell revision.
    pub revision: u64,
    /// Current text.
    pub text: Seq<char>,
}

impl View for ProjectedCell {
    type V = CellState;

    open spec fn view(&self) -> CellState {
        CellState { revision: self.revision, text: self.text@ }
    }
}

/// Semantic result of admitting one envelope.
#[derive(Debug, Clone, Copy, PartialEq, Eq, Structural)]
pub enum BoundaryDecision {
    /// Applied an ordinary mutation.
    Apply,
    /// Admitted an explicit snapshot.
    Bootstrap,
    /// Folded a remote derived projection.
    Project,
    /// Recorded a host observation without a mutation.
    Observe,
    /// Ignored an already admitted sequence.
    Duplicate,
    /// Rejected an older source generation or causal epoch.
    RejectStale,
    /// Rejected a sequence gap without advancing the watermark.
    RejectGap,
}

/// Semantic admission errors.
#[derive(Debug, Clone, Copy, PartialEq, Eq, Structural)]
pub enum BoundaryError {
    /// The envelope carried no body.
    MissingBody,
    /// The graph input carried no concrete input.
    MissingInput,
    /// A snapshot's purpose was absent or unknown.
    InvalidSnapshotPurpose,
    /// A splice did not match the cell's revision or its UTF-8 bounds.
    InvalidSplice,
    /// The envelope carried something that is not projected here.
    UnsupportedBody,
}

/// Where a splice starts.
pub open spec fn splice_start(splice: CellTextSplice) -> int {
    (splice.local_offset_utf8 as usize) as int
}

/// Where a splice ends: no further than a length can be.
pub open spec fn splice_end(splice: CellTextSplice) -> int {
    let end = splice_start(splice) + (splice.delete_length_utf8 as usize) as int;
    if end > usize::MAX {
        usize::MAX as int
    } else {
        end
    }
}

/// Whether a splice matches a cell: its revision, and characters at both ends.
pub open spec fn splice_fits(cell: CellState, splice: CellTextSplice) -> bool {
    let bytes = encode_utf8(cell.text);
    &&& cell.revision == splice.expected_cell_revision
    &&& splice_end(splice) <= bytes.len()
    &&& is_char_boundary(bytes, splice_start(splice))
    &&& is_char_boundary(bytes, splice_end(splice))
}

/// A text with a stretch of its bytes replaced.
pub open spec fn spliced(text: Seq<char>, start: int, end: int, insert: Seq<char>) -> Seq<char> {
    let bytes = encode_utf8(text);
    decode_utf8(bytes.subrange(0, start)) + insert + decode_utf8(
        bytes.subrange(end, bytes.len() as int),
    )
}

/// The cells of a remote projection; the last one under a name stands.
pub open spec fn remote_cells(cells: Seq<DerivedCell>) -> Map<Seq<char>, CellState>
    decreases cells.len(),
{
    if cells.len() == 0 {
        Map::empty()
    } else {
        let last = cells.last();
        remote_cells(cells.drop_last()).insert(
            last.cell_id@,
            CellState { revision: last.revision, text: last.text@ },
        )
    }
}

/// The cells of a snapshot, each at its first revision; the last one under a name stands.
pub open spec fn snapshot_cells(cells: Seq<(String, String)>) -> Map<Seq<char>, CellState>
    decreases cells.len(),
{
    if cells.len() == 0 {
        Map::empty()
    } else {
        let last = cells.last();
        snapshot_cells(cells.drop_last()).insert(
            last.0@,
            CellState { revision: 1, text: last.1@ },
        )
    }
}

/// A decimal digit.
pub open spec fn digit(value: nat) -> char {
    if value == 0 {
        '0'
    } else if value == 1 {
        '1'
    } else if value == 2 {
        '2'
    } else if value == 3 {
        '3'
    } else if value == 4 {
        '4'
    } else if value == 5 {
        '5'
    } else if value == 6 {
        '6'
    } else if value == 7 {
        '7'
    } else if value == 8 {
        '8'
    } else {
        '9'
    }
}

/// A number in decimal.
pub open spec fn decimal(value: nat) -> Seq<char>
    decreases value,
{
    if value < 10 {
        seq![digit(value)]
    } else {
        decimal(value / 10).push(digit(value % 10))
    }
}

/// A cell as text: its name, its revision and its text.
pub open spec fn cell_text(id: Seq<char>, cell: CellState) -> Seq<char> {
    id + seq!['@'] + decimal(cell.revision as nat) + seq!['='] + cell.text
}

/// Some cells as text, in order, with a bar between them.
pub open spec fn cells_text(ids: Seq<Seq<char>>, cells: Map<Seq<char>, CellState>) -> Seq<char>
    decreases ids.len(),
{
    if ids.len() == 0 {
        Seq::empty()
    } else if ids.len() == 1 {
        cell_text(ids[0], cells[ids[0]])
    } else {
        cells_text(ids.drop_last(), cells) + seq!['|'] + cell_text(ids.last(), cells[ids.last()])
    }
}

/// The projection, over views.
#[verifier::ext_equal]
pub struct ProjectionState {
    /// The newest incarnation of the source.
    pub source_generation: u64,
    /// The newest causal epoch within it.
    pub causal_epoch: u64,
    /// The last admitted position within the epoch.
    pub last_sequence: u64,
    /// The cells.
    pub cells: Map<Seq<char>, CellState>,
}

impl ProjectionState {
    /// Nothing admitted yet.
    pub open spec fn initial() -> Self {
        ProjectionState {
            source_generation: 0,
            causal_epoch: 0,
            last_sequence: 0,
            cells: Map::empty(),
        }
    }

    /// Whether an incarnation and epoch are older than the fence.
    pub open spec fn behind(self, generation: u64, epoch: u64) -> bool {
        generation < self.source_generation || generation == self.source_generation && epoch
            < self.causal_epoch
    }

    /// With the fence moved to an incarnation and epoch that are not behind it; a newer
    /// one starts its sequence anew.
    pub open spec fn fenced(self, generation: u64, epoch: u64) -> Self {
        if generation == self.source_generation && epoch == self.causal_epoch {
            self
        } else {
            ProjectionState {
                source_generation: generation,
                causal_epoch: epoch,
                last_sequence: 0,
                ..self
            }
        }
    }

    /// The cell under a name, empty at revision zero where there is none.
    pub open spec fn cell(self, id: Seq<char>) -> CellState {
        if self.cells.contains_key(id) {
            self.cells[id]
        } else {
            CellState { revision: 0, text: Seq::empty() }
        }
    }

    /// After an edit of a cell's text. A cell that an edit names is there afterwards, also
    /// where the edit does not fit.
    pub open spec fn edited(self, splice: CellTextSplice) -> (Self, Result<
        BoundaryDecision,
        BoundaryError,
    >) {
        let id = splice.cell_id@;
        let cell = self.cell(id);
        if splice_fits(cell, splice) {
            let text = spliced(
                cell.text,
                splice_start(splice),
                splice_end(splice),
                splice.insert_text@,
            );
            let after = CellState { revision: (cell.revision + 1) as u64, text };
            (
                ProjectionState { cells: self.cells.insert(id, after), ..self },
                Ok(BoundaryDecision::Apply),
            )
        } else {
            (
                ProjectionState { cells: self.cells.insert(id, cell), ..self },
                Err(BoundaryError::InvalidSplice),
            )
        }
    }

    /// After a graph input.
    pub open spec fn given(
        self,
        input: GraphInput,
    ) -> (Self, Result<BoundaryDecision, BoundaryError>) {
        match input.input {
            None => (self, Err(BoundaryError::MissingInput)),
            Some(GraphInputKind::CellTextSplice(splice)) => self.edited(splice),
            Some(GraphInputKind::BootstrapSnapshot(snapshot)) => (
                self,
                match snapshot.purpose {
                    None | Some(SnapshotPurpose::Unspecified) => Err(
                        BoundaryError::InvalidSnapshotPurpose,
                    ),
                    Some(_) => Ok(BoundaryDecision::Bootstrap),
                },
            ),
            Some(GraphInputKind::SurfaceObservation) => (self, Ok(BoundaryDecision::Observe)),
            Some(_) => (self, Err(BoundaryError::UnsupportedBody)),
        }
    }

    /// After what an envelope carries.
    pub open spec fn carried(self, body: Option<Body>) -> (Self, Result<
        BoundaryDecision,
        BoundaryError,
    >) {
        match body {
            None => (self, Err(BoundaryError::MissingBody)),
            Some(Body::GraphInput(input)) => self.given(input),
            Some(Body::DerivedProjection(projection)) => (
                ProjectionState { cells: remote_cells(projection.cells@), ..self },
                Ok(BoundaryDecision::Project),
            ),
            Some(_) => (self, Err(BoundaryError::UnsupportedBody)),
        }
    }

    /// After an envelope: fenced first, then in sequence, and the watermark moves with
    /// what was admitted.
    pub open spec fn admitted(self, envelope: ProtocolEnvelope) -> (Self, Result<
        BoundaryDecision,
        BoundaryError,
    >) {
        if self.behind(envelope.source_generation, envelope.causal_epoch) {
            (self, Ok(BoundaryDecision::RejectStale))
        } else {
            let fenced = self.fenced(envelope.source_generation, envelope.causal_epoch);
            if envelope.sequence <= fenced.last_sequence {
                (fenced, Ok(BoundaryDecision::Duplicate))
            } else if envelope.sequence != fenced.last_sequence + 1 {
                (fenced, Ok(BoundaryDecision::RejectGap))
            } else {
                let (after, result) = fenced.carried(envelope.body);
                match result {
                    Ok(_) => (
                        ProjectionState { last_sequence: envelope.sequence, ..after },
                        result,
                    ),
                    Err(_) => (after, result),
                }
            }
        }
    }

    /// Whether an envelope edits a cell whose revision cannot grow any more.
    pub open spec fn exhausts(self, envelope: ProtocolEnvelope) -> bool {
        &&& self.admitted(envelope).1 == Ok::<BoundaryDecision, BoundaryError>(
            BoundaryDecision::Apply,
        )
        &&& envelope.body matches Some(Body::GraphInput(input))
            && input.input matches Some(GraphInputKind::CellTextSplice(splice))
            && splice.expected_cell_revision == u64::MAX
    }
}

/// A pure logical reducer of boundary envelopes.
pub struct GraphBoundaryProjection {
    source_generation: u64,
    causal_epoch: u64,
    last_sequence: u64,
    cells: SortedTable<String, ProjectedCell>,
}

/// Projected cells, over views.
pub open spec fn cell_states(cells: Map<Seq<char>, ProjectedCell>) -> Map<Seq<char>, CellState> {
    cells.map_values(|cell: ProjectedCell| cell@)
}

impl View for GraphBoundaryProjection {
    type V = ProjectionState;

    closed spec fn view(&self) -> ProjectionState {
        ProjectionState {
            source_generation: self.source_generation,
            causal_epoch: self.causal_epoch,
            last_sequence: self.last_sequence,
            cells: cell_states(self.cells.map()),
        }
    }
}

/// Writes a decimal digit.
fn write_digit(out: &mut String, value: u64)
    requires
        value < 10,
    ensures
        final(out)@ == old(out)@.push(digit(value as nat)),
{
    match value {
        0 => {
            proof {
                reveal_strlit("0");
                assert("0"@ =~= seq!['0']);
            }
            out.append("0");
        },
        1 => {
            proof {
                reveal_strlit("1");
                assert("1"@ =~= seq!['1']);
            }
            out.append("1");
        },
        2 => {
            proof {
                reveal_strlit("2");
                assert("2"@ =~= seq!['2']);
            }
            out.append("2");
        },
        3 => {
            proof {
                reveal_strlit("3");
                assert("3"@ =~= seq!['3']);
            }
            out.append("3");
        },
        4 => {
            proof {
                reveal_strlit("4");
                assert("4"@ =~= seq!['4']);
            }
            out.append("4");
        },
        5 => {
            proof {
                reveal_strlit("5");
                assert("5"@ =~= seq!['5']);
            }
            out.append("5");
        },
        6 => {
            proof {
                reveal_strlit("6");
                assert("6"@ =~= seq!['6']);
            }
            out.append("6");
        },
        7 => {
            proof {
                reveal_strlit("7");
                assert("7"@ =~= seq!['7']);
            }
            out.append("7");
        },
        8 => {
            proof {
                reveal_strlit("8");
                assert("8"@ =~= seq!['8']);
            }
            out.append("8");
        },
        _ => {
            proof {
                reveal_strlit("9");
                assert("9"@ =~= seq!['9']);
            }
            out.append("9");
        },
    }
    proof {
        assert(out@ =~= old(out)@.push(digit(value as nat)));
    }
}

/// Writes a number in decimal.
fn write_decimal(out: &mut String, value: u64)
    ensures
        final(out)@ == old(out)@ + decimal(value as nat),
    decreases value,
{
    if value >= 10 {
        write_decimal(out, value / 10);
    }
    write_digit(out, value % 10);
    proof {
        assert(out@ =~= old(out)@ + decimal(value as nat));
    }
}

impl GraphBoundaryProjection {
    /// The projection is one that its operations can reach.
    pub closed spec fn wf(&self) -> bool {
        self.cells.wf()
    }

    /// Nothing admitted yet.
    pub fn new() -> (projection: Self)
        ensures
            projection.wf(),
            projection@ == ProjectionState::initial(),
    {
        let projection = GraphBoundaryProjection {
            source_generation: 0,
            causal_epoch: 0,
            last_sequence: 0,
            cells: SortedTable::new(),
        };
        proof {
            assert(projection@ =~= ProjectionState::initial());
        }
        projection
    }

    /// The stable projected cells, by name.
    pub fn cells(&self) -> (cells: &SortedTable<String, ProjectedCell>)
        requires
            self.wf(),
        ensures
            cells.wf(),
            cell_states(cells.map()) == self@.cells,
    {
        &self.cells
    }

    /// The logical projection as text: the cells by name.
    pub fn logical_projection(&self) -> (text: String)
        requires
            self.wf(),
        ensures
            text@ == cells_text(in_order::<String>(self@.cells.dom()), self@.cells),
    {
        let mut text = String::new();
        let count = self.cells.len();
        let ghost ids = self.cells.ids();
        let ghost cells = self@.cells;
        let mut index: usize = 0;
        proof {
            self.cells.wf_facts();
            ascending_is_in_order::<String>(ids);
            assert(cells.dom() =~= ids.to_set());
            assert(ids.take(0) =~= Seq::empty());
            assert(text@ =~= Seq::empty());
        }
        while index < count
            invariant
                self.wf(),
                ids == self.cells.ids(),
                cells == self@.cells,
                count == ids.len(),
                index <= count,
                forall|id: Seq<char>| ids.contains(id) <==> #[trigger] self.cells.map().contains_key(id),
                text@ == cells_text(ids.take(index as int), cells),
            decreases count - index,
        {
            let ghost id = ids[index as int];
            let ghost shown = ids.take(index as int);
            proof {
                reveal_strlit("|");
                reveal_strlit("@");
                reveal_strlit("=");
                assert("|"@ =~= seq!['|']);
                assert("@"@ =~= seq!['@']);
                assert("="@ =~= seq!['=']);
                assert(ids.take(index + 1).drop_last() =~= shown);
                assert(ids.take(index + 1).last() == id);
                assert(ids.contains(id));
                assert(self.cells.map().contains_key(id));
            }
            if index > 0 {
                text.append("|");
            }
            let ghost before = text@;
            let key = self.cells.key_at(index);
            let cell = self.cells.value_at(index);
            text.append(key.as_str());
            text.append("@");
            write_decimal(&mut text, cell.revision);
            text.append("=");
            text.append(cell.text.as_str());
            proof {
                assert(cells[id] == cell@);
                assert(text@ =~= before + cell_text(id, cells[id]));
                if index == 0 {
                    assert(ids.take(index + 1)[0] == id);
                    assert(text@ =~= cell_text(id, cells[id]));
                } else {
                    assert(text@ =~= cells_text(shown, cells) + seq!['|'] + cell_text(
                        id,
                        cells[id],
                    ));
                }
            }
            index = index + 1;
        }
        proof {
            assert(ids.take(index as int) =~= ids);
        }
        text
    }

    /// Admits one decoded envelope.
    pub fn admit_envelope(&mut self, envelope: &ProtocolEnvelope) -> (result: Result<
        BoundaryDecision,
        BoundaryError,
    >)
        requires
            old(self).wf(),
            !old(self)@.exhausts(*envelope),
        ensures
            final(self).wf(),
            (final(self)@, result) == old(self)@.admitted(*envelope),
    {
        let generation = envelope.source_generation;
        let epoch = envelope.causal_epoch;
        if generation < self.source_generation || (generation == self.source_generation && epoch
            < self.causal_epoch) {
            return Ok(BoundaryDecision::RejectStale);
        }
        if generation != self.source_generation || epoch != self.causal_epoch {
            self.source_generation = generation;
            self.causal_epoch = epoch;
            self.last_sequence = 0;
        }
        let ghost fenced = old(self)@.fenced(generation, epoch);
        proof {
            assert(self@ =~= fenced);
        }
        if envelope.sequence <= self.last_sequence {
            return Ok(BoundaryDecision::Duplicate);
        }
        if envelope.sequence != self.last_sequence + 1 {
            return Ok(BoundaryDecision::RejectGap);
        }
        let result = match &envelope.body {
            None => Err(BoundaryError::MissingBody),
            Some(Body::GraphInput(input)) => self.apply_input(input),
            Some(Body::DerivedProjection(projection)) => {
                self.take_projection(&projection.cells);
                Ok(BoundaryDecision::Project)
            },
            Some(_) => Err(BoundaryError::UnsupportedBody),
        };
        if result.is_ok() {
            self.last_sequence = envelope.sequence;
        }
        result
    }

    /// Replaces the cells by those of a remote projection.
    fn take_projection(&mut self, cells: &Vec<DerivedCell>)
        ensures
            final(self).wf(),
            final(self)@ == (ProjectionState { cells: remote_cells(cells@), ..old(self)@ }),
    {
        let mut taken: SortedTable<String, ProjectedCell> = SortedTable::new();
        let mut index: usize = 0;
        proof {
            assert(cells@.take(0) =~= Seq::empty());
            assert(cell_states(taken.map()) =~= Map::empty());
        }
        while index < cells.len()
            invariant
                taken.wf(),
                index <= cells@.len(),
                cell_states(taken.map()) == remote_cells(cells@.take(index as int)),
            decreases cells@.len() - index,
        {
            let ghost before = taken.map();
            let cell = &cells[index];
            let projected = ProjectedCell { revision: cell.revision, text: cell.text.clone() };
            let ghost added = projected@;
            taken.put(cell.cell_id.clone(), projected);
            proof {
                assert(cells@.take(index + 1).drop_last() =~= cells@.take(index as int));
                assert(cell_states(taken.map()) =~= cell_states(before).insert(
                    cell.cell_id@,
                    added,
                ));
            }
            index = index + 1;
        }
        proof {
            assert(cells@.take(index as int) =~= cells@);
        }
        self.cells = taken;
    }

    /// Applies a graph input.
    fn apply_input(
        &mut self,
        input: &GraphInput,
    ) -> (result: Result<BoundaryDecision, BoundaryError>)
        requires
            old(self).wf(),
            input.input matches Some(GraphInputKind::CellTextSplice(splice)) ==> (splice_fits(
                old(self)@.cell(splice.cell_id@),
                splice,
            ) ==> splice.expected_cell_revision < u64::MAX),
        ensures
            final(self).wf(),
            (final(self)@, result) == old(self)@.given(*input),
    {
        match &input.input {
            None => Err(BoundaryError::MissingInput),
            Some(GraphInputKind::CellTextSplice(splice)) => self.apply_splice(splice),
            Some(GraphInputKind::BootstrapSnapshot(snapshot)) => match snapshot.purpose {
                None => Err(BoundaryError::InvalidSnapshotPurpose),
                Some(SnapshotPurpose::Unspecified) => Err(BoundaryError::InvalidSnapshotPurpose),
                Some(_) => Ok(BoundaryDecision::Bootstrap),
            },
            Some(GraphInputKind::SurfaceObservation) => Ok(BoundaryDecision::Observe),
            Some(_) => Err(BoundaryError::UnsupportedBody),
        }
    }

    /// Edits a cell's text.
    fn apply_splice(&mut self, splice: &CellTextSplice) -> (result: Result<
        BoundaryDecision,
        BoundaryError,
    >)
        requires
            old(self).wf(),
            splice_fits(old(self)@.cell(splice.cell_id@), *splice) ==> splice.expected_cell_revision
                < u64::MAX,
        ensures
            final(self).wf(),
            (final(self)@, result) == old(self)@.edited(*splice),
    {
        let ghost before = self@;
        let ghost id = splice.cell_id@;
        let ghost cell = before.cell(id);
        if !self.cells.contains(&splice.cell_id) {
            let ghost map = self.cells.map();
            self.cells.put(
                splice.cell_id.clone(),
                ProjectedCell { revision: 0, text: String::new() },
            );
            proof {
                assert(self@.cells =~= before.cells.insert(id, cell));
            }
        } else {
            proof {
                assert(before.cells.insert(id, cell) =~= before.cells);
            }
        }
        let ghost map = self.cells.map();
        let (revision, text) = match self.cells.get(&splice.cell_id) {
            Some(found) => (found.revision, found.text.clone()),
            None => (0, String::new()),
        };
        proof {
            assert(self@.cells[id] == cell);
            assert(text@ == cell.text);
        }
        let start = splice.local_offset_utf8 as usize;
        let end = start.saturating_add(splice.delete_length_utf8 as usize);
        let length = text.as_str().as_bytes().len();
        if revision != splice.expected_cell_revision || end > length
            || !text.as_str().is_char_boundary(start) || !text.as_str().is_char_boundary(end) {
            return Err(BoundaryError::InvalidSplice);
        }
        let (head, _) = text.as_str().split_at(start);
        let (_, tail) = text.as_str().split_at(end);
        let mut edited = head.to_owned();
        edited.append(splice.insert_text.as_str());
        edited.append(tail);
        proof {
            let bytes = encode_utf8(cell.text);
            encode_utf8_decode_utf8(head@);
            encode_utf8_decode_utf8(tail@);
            assert(edited@ =~= spliced(cell.text, start as int, end as int, splice.insert_text@));
        }
        let ghost after = CellState { revision: (cell.revision + 1) as u64, text: edited@ };
        self.cells.put(
            splice.cell_id.clone(),
            ProjectedCell { revision: revision + 1, text: edited },
        );
        proof {
            assert(self@.cells =~= before.cells.insert(id, after));
        }
        Ok(BoundaryDecision::Apply)
    }

    /// Installs canonical cells after a snapshot passed admission.
    pub fn install_snapshot_cells(&mut self, cells: Vec<(String, String)>)
        ensures
            final(self).wf(),
            final(self)@ == (ProjectionState { cells: snapshot_cells(cells@), ..old(self)@ }),
    {
        let mut taken: SortedTable<String, ProjectedCell> = SortedTable::new();
        let mut index: usize = 0;
        proof {
            assert(cells@.take(0) =~= Seq::empty());
            assert(cell_states(taken.map()) =~= Map::empty());
        }
        while index < cells.len()
            invariant
                taken.wf(),
                index <= cells@.len(),
                cell_states(taken.map()) == snapshot_cells(cells@.take(index as int)),
            decreases cells@.len() - index,
        {
            let ghost before = taken.map();
            let projected = ProjectedCell { revision: 1, text: cells[index].1.clone() };
            let ghost added = projected@;
            taken.put(cells[index].0.clone(), projected);
            proof {
                assert(cells@.take(index + 1).drop_last() =~= cells@.take(index as int));
                assert(cell_states(taken.map()) =~= cell_states(before).insert(
                    cells@[index as int].0@,
                    added,
                ));
            }
            index = index + 1;
        }
        proof {
            assert(cells@.take(index as int) =~= cells@);
        }
        self.cells = taken;
    }
}

impl Default for GraphBoundaryProjection {
    fn default() -> (projection: Self)
        ensures
            projection.wf(),
            projection@ == ProjectionState::initial(),
    {
        GraphBoundaryProjection::new()
    }
}

/// An envelope that was admitted is a duplicate from then on, and changes nothing.
pub proof fn an_admitted_envelope_is_a_duplicate(state: ProjectionState, envelope: ProtocolEnvelope)
    requires
        state.admitted(envelope).1 matches Ok(decision) && decision != BoundaryDecision::RejectStale
            && decision != BoundaryDecision::RejectGap,
    ensures
        state.admitted(envelope).0.admitted(envelope) == (
            state.admitted(envelope).0,
            Ok::<BoundaryDecision, BoundaryError>(BoundaryDecision::Duplicate),
        ),
{
}

/// What is stale, seen before or ahead of its turn leaves the cells alone, and what is
/// stale leaves everything alone.
pub proof fn refusals_leave_the_cells(state: ProjectionState, envelope: ProtocolEnvelope)
    ensures
        state.admitted(envelope).1 matches Ok(decision) ==> match decision {
            BoundaryDecision::RejectStale => state.admitted(envelope).0 == state,
            BoundaryDecision::Duplicate | BoundaryDecision::RejectGap => state.admitted(
                envelope,
            ).0.cells == state.cells,
            BoundaryDecision::Bootstrap | BoundaryDecision::Observe => state.admitted(
                envelope,
            ).0.cells == state.cells,
            _ => true,
        },
{
}

/// The fence only moves forward, and within it the watermark does.
pub proof fn the_fence_only_moves_forward(state: ProjectionState, envelope: ProtocolEnvelope)
    ensures
        ({
            let after = state.admitted(envelope).0;
            &&& !state.behind(after.source_generation, after.causal_epoch)
            &&& after.source_generation == state.source_generation && after.causal_epoch
                == state.causal_epoch ==> after.last_sequence >= state.last_sequence
        }),
{
}

/// An edit that does not fit changes no text and no revision: all that it can do is leave
/// an empty cell at revision zero where there was none.
pub proof fn an_edit_that_does_not_fit_changes_no_text(
    state: ProjectionState,
    splice: CellTextSplice,
)
    requires
        state.edited(splice).1 is Err,
    ensures
        forall|id: Seq<char>| state.edited(splice).0.cell(id) == state.cell(id),
        forall|id: Seq<char>|
            state.edited(splice).0.cells.contains_key(id) <==> state.cells.contains_key(id) || id
                == splice.cell_id@,
{
}

/// A projection after some envelopes, one after the other.
pub open spec fn ran(state: ProjectionState, history: Seq<ProtocolEnvelope>) -> ProjectionState
    decreases history.len(),
{
    if history.len() == 0 {
        state
    } else {
        ran(state, history.drop_last()).admitted(history.last()).0
    }
}

/// Whether two projections are behind the same fence.
pub open spec fn same_fence(one: ProjectionState, other: ProjectionState) -> bool {
    one.source_generation == other.source_generation && one.causal_epoch == other.causal_epoch
}

/// Whether an envelope was taken: neither refused nor stale, seen before or ahead of its
/// turn.
pub open spec fn takes(state: ProjectionState, envelope: ProtocolEnvelope) -> bool {
    state.admitted(envelope).1 matches Ok(decision) && decision != BoundaryDecision::RejectStale
        && decision != BoundaryDecision::Duplicate && decision != BoundaryDecision::RejectGap
}

/// The sequences that a history took behind its last fence, in order.
pub open spec fn taken_in(history: Seq<ProtocolEnvelope>) -> Seq<u64>
    decreases history.len(),
{
    if history.len() == 0 {
        Seq::empty()
    } else {
        let before = ran(ProjectionState::initial(), history.drop_last());
        let envelope = history.last();
        let kept = if same_fence(before, before.admitted(envelope).0) {
            taken_in(history.drop_last())
        } else {
            Seq::empty()
        };
        if takes(before, envelope) {
            kept.push(envelope.sequence)
        } else {
            kept
        }
    }
}

/// What a history took behind its last fence is an unbroken run from one up to the
/// watermark.
pub proof fn what_was_taken_is_contiguous(history: Seq<ProtocolEnvelope>)
    ensures
        taken_in(history) == Seq::new(
            ran(ProjectionState::initial(), history).last_sequence as nat,
            |i: int| (i + 1) as u64,
        ),
    decreases history.len(),
{
    if history.len() > 0 {
        what_was_taken_is_contiguous(history.drop_last());
        let before = ran(ProjectionState::initial(), history.drop_last());
        let after = before.admitted(history.last()).0;
        assert(taken_in(history) =~= Seq::new(
            after.last_sequence as nat,
            |i: int| (i + 1) as u64,
        ));
    } else {
        assert(taken_in(history) =~= Seq::new(0, |i: int| (i + 1) as u64));
    }
}

/// After any history an envelope is stale exactly where its fence is older. Behind the
/// current fence it is a duplicate exactly where its sequence was taken, and ahead of its
/// turn exactly where neither it nor its predecessor was; sequence zero counts as seen.
pub proof fn verdicts_follow_what_was_taken(
    history: Seq<ProtocolEnvelope>,
    envelope: ProtocolEnvelope,
)
    ensures
        ({
            let state = ran(ProjectionState::initial(), history);
            let verdict = state.admitted(envelope).1;
            let taken = taken_in(history);
            let sequence = envelope.sequence;
            &&& (verdict == Ok::<BoundaryDecision, BoundaryError>(BoundaryDecision::RejectStale))
                == state.behind(envelope.source_generation, envelope.causal_epoch)
            &&& envelope.source_generation == state.source_generation && envelope.causal_epoch
                == state.causal_epoch ==> {
                &&& (verdict == Ok::<BoundaryDecision, BoundaryError>(BoundaryDecision::Duplicate))
                    == (sequence == 0 || taken.contains(sequence))
                &&& (verdict == Ok::<BoundaryDecision, BoundaryError>(BoundaryDecision::RejectGap))
                    == (sequence > 1 && !taken.contains(sequence) && !taken.contains(
                    (sequence - 1) as u64,
                ))
            }
        }),
{
    what_was_taken_is_contiguous(history);
    let state = ran(ProjectionState::initial(), history);
    let taken = taken_in(history);
    let sequence = envelope.sequence;
    assert forall|value: u64| 1 <= value <= state.last_sequence implies taken.contains(value) by {
        assert(taken[value - 1] == value);
    }
}

/// A sequence that was refused, for its body or for coming ahead of its turn, is not used
/// up: what comes under it next is judged as if nothing had come.
pub proof fn a_refused_sequence_is_not_used_up(
    state: ProjectionState,
    refused: ProtocolEnvelope,
    next: ProtocolEnvelope,
)
    requires
        state.admitted(refused).1 is Err || state.admitted(refused).1 == Ok::<
            BoundaryDecision,
            BoundaryError,
        >(BoundaryDecision::RejectGap),
        next.source_generation == refused.source_generation,
        next.causal_epoch == refused.causal_epoch,
        next.sequence == refused.sequence,
    ensures
        ({
            let after = state.admitted(refused).0;
            let fenced = state.fenced(refused.source_generation, refused.causal_epoch);
            &&& after.last_sequence == fenced.last_sequence
            &&& state.admitted(refused).1 is Err ==> after.admitted(next).1 == after.carried(
                next.body,
            ).1
            &&& state.admitted(refused).1 is Ok ==> after.admitted(next) == state.admitted(next)
        }),
{
}

/// An envelope that was taken stays behind whatever comes: sent again it is a duplicate
/// while its fence is the current one, and stale afterwards.
pub proof fn what_was_taken_is_never_taken_again(
    state: ProjectionState,
    envelope: ProtocolEnvelope,
    history: Seq<ProtocolEnvelope>,
)
    requires
        takes(state, envelope),
    ensures
        ({
            let taken = state.admitted(envelope).0;
            let later = ran(taken, history);
            later.admitted(envelope) == (
                later,
                Ok::<BoundaryDecision, BoundaryError>(
                    if same_fence(taken, later) {
                        BoundaryDecision::Duplicate
                    } else {
                        BoundaryDecision::RejectStale
                    },
                ),
            )
        }),
{
    watermarks_hold(state.admitted(envelope).0, history);
}

/// Over a history the fence only moves forward, and behind one fence the watermark does.
proof fn watermarks_hold(state: ProjectionState, history: Seq<ProtocolEnvelope>)
    ensures
        ({
            let later = ran(state, history);
            &&& !state.behind(later.source_generation, later.causal_epoch)
            &&& same_fence(state, later) ==> later.last_sequence >= state.last_sequence
        }),
    decreases history.len(),
{
    if history.len() > 0 {
        watermarks_hold(state, history.drop_last());
        the_fence_only_moves_forward(ran(state, history.drop_last()), history.last());
    }
}

} // verus!
