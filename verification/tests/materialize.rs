use compass::ids::next_id_after;
use compass::lsm::{fold_tail, full_segment, materialize, Fragment, Segment};
use compass::manifest::count_live;
use compass::models::{ChunkRelation, DocumentChunk, Timestamp};
use compass::string_map::StringMap;

fn chunk(id: u64, text: &str) -> DocumentChunk {
    DocumentChunk {
        id,
        collection: "t".into(),
        file_id: format!("f{id}"),
        chunk_index: 0,
        page: None,
        text: text.into(),
        metadata: StringMap::new(),
        doc_type: "chunk".into(),
        parent_id: None,
        group_id: None,
        embeddings: StringMap::new(),
        embedding: None,
    }
}

fn relation(id: &str, src: u64, tgt: u64) -> ChunkRelation {
    ChunkRelation {
        relation_id: id.into(),
        source_chunk_id: src,
        target_chunk_id: tgt,
        target_document_id: None,
        relation_type: "cites".into(),
        target_status: "found".into(),
        metadata: StringMap::new(),
        created_at: Timestamp { secs: 1_700_000_000, nanos: 0 },
    }
}

fn segment(chunks: Vec<DocumentChunk>, relations: Vec<ChunkRelation>, max_id: u64) -> Segment {
    Segment {
        version: 2,
        chunks,
        relations,
        max_id,
        tombstones: vec![],
        relation_tombstones: vec![],
    }
}

#[test]
fn empty_manifest_materializes_empty() {
    let r = materialize(vec![], vec![]);
    assert!(r.chunks.is_empty() && r.relations.is_empty());
    assert_eq!(r.max_id, 0);
}

#[test]
fn latest_wins_across_data_fragments() {
    let r = materialize(
        vec![],
        vec![Fragment::Data(vec![chunk(5, "old")]), Fragment::Data(vec![chunk(5, "new")])],
    );
    assert_eq!(r.chunks.len(), 1);
    assert_eq!(r.chunks.get(5).unwrap().text, "new", "latest fragment wins");
    assert_eq!(r.max_id, 5);
}

#[test]
fn tombstone_removes_and_prunes_relations() {
    let r = materialize(
        vec![],
        vec![
            Fragment::Data(vec![chunk(1, "a"), chunk(2, "b")]),
            Fragment::RelationUpsert(vec![relation("r1", 1, 2)]),
            Fragment::Tombstone(vec![2]),
        ],
    );
    assert_eq!(r.chunks.len(), 1);
    assert!(r.chunks.contains_key(1) && !r.chunks.contains_key(2));
    assert!(r.relations.is_empty(), "relation on deleted chunk 2 pruned");
}

#[test]
fn relation_delete_is_idempotent_noop() {
    let r = materialize(vec![], vec![Fragment::RelationDelete(vec!["ghost".into()])]);
    assert!(r.relations.is_empty());
}

#[test]
fn segment_and_fragment_layer_correctly() {
    let r = materialize(
        vec![segment(vec![chunk(1, "seg-v1")], vec![relation("r1", 1, 2)], 1)],
        vec![Fragment::Data(vec![chunk(1, "frag-v2"), chunk(2, "new")])],
    );
    assert_eq!(r.chunks.len(), 2);
    assert_eq!(r.chunks.get(1).unwrap().text, "frag-v2", "fragment overrides segment");
    assert_eq!(r.chunks.get(2).unwrap().text, "new");
    assert_eq!(r.relations.len(), 1);
    assert!(r.relations.contains_key("r1"));
}

#[test]
fn compensating_tombstone_prevents_resurrection() {
    let r = materialize(
        vec![],
        vec![
            Fragment::Data(vec![chunk(0, "a"), chunk(1, "b")]),
            Fragment::Tombstone(vec![0, 1]),
        ],
    );
    assert!(r.chunks.is_empty(), "compensated ingest must not resurrect");
}

#[test]
fn tail_segment_tombstones_apply_to_older_segments() {
    let seg_a = fold_tail(vec![
        Fragment::Data(vec![chunk(1, "old"), chunk(2, "keep")]),
        Fragment::RelationUpsert(vec![relation("r1", 1, 2)]),
    ]);
    assert!(seg_a.tombstones.is_empty());
    let seg_b = fold_tail(vec![Fragment::Tombstone(vec![1])]);
    assert_eq!(seg_b.tombstones, vec![1], "unmatched delete carried forward");

    let r = materialize(vec![seg_a, seg_b], vec![]);
    assert!(!r.chunks.contains_key(1), "older-segment chunk deleted");
    assert!(r.chunks.contains_key(2));
    assert!(r.relations.is_empty(), "incident relation pruned");
    assert_eq!(r.max_id, 2);
}

#[test]
fn folding_the_log_changes_nothing() {
    let log = || {
        vec![
            Fragment::Data(vec![chunk(3, "c"), chunk(4, "d")]),
            Fragment::RelationUpsert(vec![relation("r9", 3, 4)]),
            Fragment::Tombstone(vec![1, 4]),
            Fragment::RelationDelete(vec!["r1".into()]),
        ]
    };
    let base = || {
        segment(
            vec![chunk(1, "a"), chunk(2, "b")],
            vec![relation("r1", 1, 2), relation("r2", 2, 3)],
            2,
        )
    };
    let direct = materialize(vec![base()], log());
    let folded = materialize(vec![base(), fold_tail(log())], vec![]);
    assert_eq!(direct.max_id, folded.max_id);
    assert_eq!(direct.chunks.len(), folded.chunks.len());
    for i in 0..direct.chunks.len() {
        assert_eq!(direct.chunks.key_at(i), folded.chunks.key_at(i));
    }
    assert_eq!(direct.relations.len(), 1);
    assert_eq!(folded.relations.len(), 1);
    assert!(folded.relations.contains_key("r2"));

    let merged = materialize(vec![full_segment(folded)], vec![]);
    assert_eq!(merged.max_id, 4);
    assert_eq!(merged.chunks.len(), 2);
    assert!(merged.relations.contains_key("r2"));
}

#[test]
fn taken_back_edges_are_gone() {
    let r = materialize(
        vec![],
        vec![
            Fragment::RelationUpsert(vec![relation("a", 1, 2), relation("b", 2, 3)]),
            Fragment::RelationDelete(vec!["a".into(), "b".into()]),
        ],
    );
    assert!(r.relations.is_empty());
}

#[test]
fn the_first_id_is_not_used_again() {
    let log = || vec![Fragment::Data(vec![chunk(0, "a")]), Fragment::Tombstone(vec![0])];
    let live = materialize(vec![], log());
    assert_eq!((live.max_id, live.assigned, live.chunks.len()), (0, true, 0));
    assert_eq!(next_id_after(live.max_id, live.assigned), 1);

    let folded = materialize(vec![fold_tail(log())], vec![]);
    assert_eq!(next_id_after(folded.max_id, folded.assigned), 1);

    let merged = full_segment(folded);
    assert_eq!(merged.tombstones, vec![0]);
    let again = materialize(vec![merged], vec![]);
    assert_eq!(next_id_after(again.max_id, again.assigned), 1);

    let nothing = materialize(vec![full_segment(materialize(vec![], vec![]))], vec![]);
    assert_eq!(next_id_after(nothing.max_id, nothing.assigned), 0);
}

#[test]
fn compaction_counts_live_records() {
    let first = || fold_tail(vec![Fragment::Data(vec![chunk(0, "a"), chunk(1, "b")])]);
    assert_eq!(count_live(vec![first()]), 2);
    let second = fold_tail(vec![Fragment::Tombstone(vec![0])]);
    assert_eq!(count_live(vec![first(), second]), 1);
    assert_eq!(count_live(vec![]), 0);
}
