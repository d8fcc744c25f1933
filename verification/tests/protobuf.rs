//! The graph-boundary projection.

use lazily::protobuf::{
    Body, BootstrapSnapshot, BoundaryDecision, BoundaryError, CellTextSplice, DerivedCell,
    DerivedProjection, GraphBoundaryProjection, GraphInput, GraphInputKind,
    PROTOBUF_GRAPH_BOUNDARY_FEATURE, ProtocolEnvelope, SnapshotPurpose,
};

fn envelope(generation: u64, epoch: u64, sequence: u64, body: Option<Body>) -> ProtocolEnvelope {
    ProtocolEnvelope {
        source_generation: generation,
        causal_epoch: epoch,
        sequence,
        body,
    }
}

fn splice(id: &str, revision: u64, offset: u64, delete: u64, insert: &str) -> Option<Body> {
    Some(Body::GraphInput(GraphInput {
        input: Some(GraphInputKind::CellTextSplice(CellTextSplice {
            cell_id: id.to_string(),
            expected_cell_revision: revision,
            local_offset_utf8: offset,
            delete_length_utf8: delete,
            insert_text: insert.to_string(),
        })),
    }))
}

fn input(kind: GraphInputKind) -> Option<Body> {
    Some(Body::GraphInput(GraphInput { input: Some(kind) }))
}

#[test]
fn splices_edit_the_text_by_bytes() {
    let mut projection = GraphBoundaryProjection::new();
    assert_eq!(
        projection.admit_envelope(&envelope(1, 0, 1, splice("b", 0, 0, 0, "héllo"))),
        Ok(BoundaryDecision::Apply)
    );
    // Two bytes of one character go, one character comes.
    assert_eq!(
        projection.admit_envelope(&envelope(1, 0, 2, splice("b", 1, 1, 2, "e"))),
        Ok(BoundaryDecision::Apply)
    );
    assert_eq!(
        projection.admit_envelope(&envelope(1, 0, 3, splice("a", 0, 0, 0, "x"))),
        Ok(BoundaryDecision::Apply)
    );
    assert_eq!(projection.logical_projection(), "a@1=x|b@2=hello");
    assert_eq!(projection.cells().len(), 2);
}

#[test]
fn a_splice_must_match_revision_and_characters() {
    let mut projection = GraphBoundaryProjection::new();
    projection
        .admit_envelope(&envelope(1, 0, 1, splice("b", 0, 0, 0, "é")))
        .unwrap();
    for (revision, offset, delete) in [(0, 0, 0), (1, 1, 0), (1, 0, 1), (1, 0, 3), (1, u64::MAX, 9)]
    {
        assert_eq!(
            projection.admit_envelope(&envelope(1, 0, 2, splice("b", revision, offset, delete, ""))),
            Err(BoundaryError::InvalidSplice)
        );
    }
    assert_eq!(projection.logical_projection(), "b@1=é");
    // A cell that an edit names is there afterwards.
    assert_eq!(
        projection.admit_envelope(&envelope(1, 0, 2, splice("new", 7, 0, 0, "x"))),
        Err(BoundaryError::InvalidSplice)
    );
    assert_eq!(projection.logical_projection(), "b@1=é|new@0=");
}

#[test]
fn envelopes_are_fenced_and_sequenced() {
    let mut projection = GraphBoundaryProjection::default();
    let observe = || input(GraphInputKind::SurfaceObservation);
    assert_eq!(
        projection.admit_envelope(&envelope(2, 5, 1, observe())),
        Ok(BoundaryDecision::Observe)
    );
    assert_eq!(
        projection.admit_envelope(&envelope(2, 5, 1, observe())),
        Ok(BoundaryDecision::Duplicate)
    );
    assert_eq!(
        projection.admit_envelope(&envelope(2, 5, 3, observe())),
        Ok(BoundaryDecision::RejectGap)
    );
    assert_eq!(
        projection.admit_envelope(&envelope(2, 4, 2, observe())),
        Ok(BoundaryDecision::RejectStale)
    );
    assert_eq!(
        projection.admit_envelope(&envelope(1, 9, 2, observe())),
        Ok(BoundaryDecision::RejectStale)
    );
    // A newer epoch starts its sequence anew.
    assert_eq!(
        projection.admit_envelope(&envelope(2, 6, 1, observe())),
        Ok(BoundaryDecision::Observe)
    );
}

#[test]
fn every_malformed_envelope_has_its_error() {
    let mut projection = GraphBoundaryProjection::new();
    let cases = vec![
        (None, BoundaryError::MissingBody),
        (
            Some(Body::GraphInput(GraphInput { input: None })),
            BoundaryError::MissingInput,
        ),
        (
            input(GraphInputKind::BootstrapSnapshot(BootstrapSnapshot {
                purpose: None,
            })),
            BoundaryError::InvalidSnapshotPurpose,
        ),
        (
            input(GraphInputKind::BootstrapSnapshot(BootstrapSnapshot {
                purpose: Some(SnapshotPurpose::Unspecified),
            })),
            BoundaryError::InvalidSnapshotPurpose,
        ),
        (
            input(GraphInputKind::SourceValueSet),
            BoundaryError::UnsupportedBody,
        ),
        (
            input(GraphInputKind::KeyedMemberUpsert),
            BoundaryError::UnsupportedBody,
        ),
        (
            input(GraphInputKind::KeyedMemberRemove),
            BoundaryError::UnsupportedBody,
        ),
        (
            Some(Body::CapabilityHandshake),
            BoundaryError::UnsupportedBody,
        ),
        (Some(Body::EffectIntent), BoundaryError::UnsupportedBody),
        (Some(Body::DeliveryReceipt), BoundaryError::UnsupportedBody),
    ];
    for (body, error) in cases {
        assert_eq!(
            projection.admit_envelope(&envelope(1, 0, 1, body)),
            Err(error)
        );
    }
    // None of them used up the sequence.
    assert_eq!(
        projection.admit_envelope(&envelope(
            1,
            0,
            1,
            input(GraphInputKind::BootstrapSnapshot(BootstrapSnapshot {
                purpose: Some(SnapshotPurpose::Recovery),
            }))
        )),
        Ok(BoundaryDecision::Bootstrap)
    );
}

#[test]
fn snapshots_and_remote_projections_replace_the_cells() {
    let mut projection = GraphBoundaryProjection::new();
    projection.install_snapshot_cells(vec![
        ("b".to_string(), "two".to_string()),
        ("a".to_string(), "one".to_string()),
        ("b".to_string(), "three".to_string()),
    ]);
    assert_eq!(projection.logical_projection(), "a@1=one|b@1=three");
    assert_eq!(
        projection.admit_envelope(&envelope(
            1,
            0,
            1,
            Some(Body::DerivedProjection(DerivedProjection {
                cells: vec![DerivedCell {
                    cell_id: "z".to_string(),
                    revision: 1234567890,
                    text: "last".to_string(),
                }],
            }))
        )),
        Ok(BoundaryDecision::Project)
    );
    assert_eq!(projection.logical_projection(), "z@1234567890=last");
    assert_eq!(PROTOBUF_GRAPH_BOUNDARY_FEATURE, "protobuf-graph-boundary-v1");
}

#[test]
fn a_history_takes_each_sequence_once_and_in_turn() {
    let mut projection = GraphBoundaryProjection::new();
    let mut judge = |generation: u64, sequence: u64, body: Option<Body>| {
        projection.admit_envelope(&envelope(generation, 0, sequence, body))
    };
    let write = || splice("a", 0, 0, 0, "x");
    let observe = || input(GraphInputKind::SurfaceObservation);
    assert_eq!(judge(1, 2, observe()), Ok(BoundaryDecision::RejectGap));
    // A body that is refused does not use its sequence up.
    assert_eq!(judge(1, 1, None), Err(BoundaryError::MissingBody));
    assert_eq!(judge(1, 1, write()), Ok(BoundaryDecision::Apply));
    assert_eq!(judge(1, 1, write()), Ok(BoundaryDecision::Duplicate));
    assert_eq!(judge(1, 3, observe()), Ok(BoundaryDecision::RejectGap));
    assert_eq!(judge(1, 2, observe()), Ok(BoundaryDecision::Observe));
    assert_eq!(judge(1, 3, observe()), Ok(BoundaryDecision::Observe));
    // A newer incarnation counts from the start, and the older one is stale for good.
    assert_eq!(judge(2, 1, observe()), Ok(BoundaryDecision::Observe));
    assert_eq!(judge(1, 4, observe()), Ok(BoundaryDecision::RejectStale));
    assert_eq!(judge(1, 1, write()), Ok(BoundaryDecision::RejectStale));
    assert_eq!(judge(2, 0, observe()), Ok(BoundaryDecision::Duplicate));
}
