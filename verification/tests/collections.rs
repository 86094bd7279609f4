use compass::bucket::BucketConfig;
use compass::create::new_collection;
use compass::errors::failed;
use compass::flow::{
    after_append, after_commit, append_failed, check_allocated, check_deletes_by_filter,
    check_deletes_by_id, check_manages_spaces, check_serves_queries, leases_ids, not_in_bucket,
    reject_if_partitioned, route, second_attempt, writer_has_work, AfterAppend, AfterCommit,
    Append, DeleteStep, Route,
};
use compass::ingest::{build_batch, default_space_name, needs_embedding};
use compass::loaded::{dedup_ids, LoadedCollection};
use compass::lsm::{materialize, Fragment};
use compass::manifest::{
    manifest_unreadable, needs_reattach, reattach_still_needed, wants_compaction, CompactAction,
    Compaction, ConfigSync, FragmentKind, FragmentRef, Manifest, SegmentRef,
};
use compass::models::{
    CollectionConfig, CreateRelation, DocumentChunk, IngestChunk, MetadataValue, Timestamp,
    VectorSpaceConfig,
};
use compass::node::NodeRole;
use compass::refresh::{plan_fragment, plan_refresh, FragmentPlan, RefreshPlan};
use compass::relations::{build_relations, mint_relations, relation_ids, takes_back_relations};
use compass::relationships::RelationshipStore;
use compass::replay::{
    rebuilt_collection, rebuilt_metadata, rebuilt_metadata_now, rebuilt_vectors, replay_data,
};
use compass::storage_error::StorageError;
use compass::string_map::StringMap;
use compass::vector_plan::{
    keep_count, missing_positions, plan_vectors, IndexStep, SpaceState, VectorPlan,
};
use compass::vectors::SpaceRows;
use std::collections::HashSet;

fn at(secs: i64) -> Timestamp {
    Timestamp { secs, nanos: 0 }
}

fn loaded() -> LoadedCollection {
    let m = new_collection(NodeRole::Full, "docs", false, None, Some(2), None, at(1)).unwrap();
    LoadedCollection::created(m, 1)
}

fn ingest(client: Option<&str>, parent_ref: Option<&str>, embedding: Option<Vec<u32>>) -> IngestChunk {
    IngestChunk {
        file_id: "f".to_string(),
        chunk_index: 0,
        page: None,
        text: "text".to_string(),
        metadata: StringMap::new(),
        doc_type: "chunk".to_string(),
        parent_id: None,
        parent_ref: parent_ref.map(|s| s.to_string()),
        group_id: Some("g".to_string()),
        client_id: client.map(|s| s.to_string()),
        embeddings: StringMap::new(),
        embedding,
    }
}

fn chunk(id: u64, embedding: Option<Vec<u32>>) -> DocumentChunk {
    let mut embeddings = StringMap::new();
    if let Some(e) = embedding {
        embeddings.insert("default".to_string(), e);
    }
    DocumentChunk {
        id,
        collection: "docs".to_string(),
        file_id: format!("f{id}"),
        chunk_index: 0,
        page: None,
        text: format!("t{id}"),
        metadata: StringMap::new(),
        doc_type: "chunk".to_string(),
        parent_id: None,
        group_id: None,
        embeddings,
        embedding: None,
    }
}

#[test]
fn a_batch_is_built_and_committed() {
    let mut l = loaded();
    let chunks = vec![
        ingest(Some("p"), None, Some(vec![1, 2])),
        ingest(None, Some("p"), None),
    ];
    assert!(!needs_embedding(&chunks[0]));
    assert!(needs_embedding(&chunks[1]));
    let b = l.prepare_ingest("docs", &chunks, None, &vec![None, Some(vec![3, 4])]).unwrap();
    assert_eq!(l.next_id, 2);
    assert_eq!(b.client_ids.get("p"), Some(&0));
    assert_eq!(b.chunks[1].parent_id, Some(0));
    assert_eq!(b.chunks[0].embeddings.get("default"), Some(&vec![1, 2]));
    assert_eq!(b.chunks[1].embeddings.get("default"), Some(&vec![3, 4]));
    assert_eq!(b.space_vectors.get("default").unwrap().rows.len(), 2);

    l.add_relationships(b.relationships);
    l.count_batch(2);
    l.index_chunks(&b.chunks);
    assert_eq!(l.metadata.chunk_count, 2);
    assert_eq!(l.metadata.next_id, 2);
    assert!(l.live.contains(&0) && l.live.contains(&1));
    assert_eq!(l.relationships.get_parent(1), Some(0));
}

#[test]
fn a_wrong_dimension_refuses_the_batch() {
    let mut spaces: StringMap<VectorSpaceConfig> = StringMap::new();
    spaces.insert(
        "default".to_string(),
        VectorSpaceConfig { dims: 2, model: "m".to_string(), status: "active".to_string() },
    );
    let e = build_batch(
        "docs",
        &vec![ingest(None, None, Some(vec![1, 2])), ingest(None, None, Some(vec![1]))],
        &vec![5, 6],
        &vec![None, None],
        &spaces,
        &None,
        2,
    )
    .unwrap_err();
    assert_eq!(
        e.message(),
        "chunk 1: embedding for vector space 'default' has 1 dims, expected 2"
    );
    assert_eq!(default_space_name(&None), "default");
    let first = failed("first");
    assert_eq!(
        second_attempt(first, Err(failed("second"))).unwrap_err().message(),
        "first"
    );
}

#[test]
fn leased_ids_raise_the_counter() {
    let mut l = loaded();
    let b = l
        .prepare_ingest("docs", &vec![ingest(None, None, None)], Some(vec![41]), &vec![None])
        .unwrap();
    assert_eq!(b.chunks[0].id, 41);
    assert_eq!(l.next_id, 42);
    assert!(b.chunks[0].embeddings.is_empty());
}

#[test]
fn steps_after_the_append() {
    let mut l = loaded();
    assert_eq!(after_append(Some(&l), Some(0), true, false), AfterAppend::Apply);
    l.mark_applied(0);
    assert_eq!(l.metadata.applied_seq, 1);
    assert_eq!(after_append(Some(&l), Some(0), true, false), AfterAppend::AlreadyApplied);
    assert_eq!(after_append(None, Some(0), true, true), AfterAppend::Durable);
    assert_eq!(after_append(None, Some(0), true, false), AfterAppend::Erase);
    assert_eq!(after_append(None, None, false, true), AfterAppend::Missing);
    assert_eq!(after_commit(true, true, Some(3)), AfterCommit::Mark(3));
    assert_eq!(after_commit(true, false, None), AfterCommit::Done);
    assert_eq!(after_commit(false, true, Some(3)), AfterCommit::TakeBack);
    assert_eq!(after_commit(false, false, None), AfterCommit::Fail);
}

#[test]
fn a_batch_that_was_taken_back_is_dead() {
    let mut l = loaded();
    l.index_chunks(&vec![chunk(0, None), chunk(1, None), chunk(2, None)]);
    l.take_back(&vec![0, 2]);
    assert!(!l.live.contains(&0) && l.live.contains(&1));
    assert!(l.tombstones.contains(&2));
}

#[test]
fn deletes_count_each_chunk_once() {
    let mut l = loaded();
    l.index_chunks(&vec![chunk(1, None), chunk(2, None), chunk(5, None)]);
    l.count_batch(3);
    assert_eq!(dedup_ids(&vec![5, 5, 1, 5]), vec![5, 1]);
    let newly = l.deletable(&vec![5, 9, 5, 1]);
    assert_eq!(newly, vec![5, 1]);
    match l.after_delete_append(&newly, Some(0)) {
        DeleteStep::Apply(ids) => {
            l.bury(&ids);
            l.unindex(&ids);
        }
        other => panic!("{other:?}"),
    }
    assert_eq!(l.metadata.chunk_count, 1);
    assert!(matches!(l.after_delete_append(&newly, Some(0)), DeleteStep::Report(0)));
    l.mark_applied(0);
    assert!(matches!(l.after_delete_append(&newly, Some(0)), DeleteStep::Report(2)));
    let (texts, ids) = l.get_all_chunk_data(vec![chunk(1, None), chunk(2, None), chunk(5, None)]);
    assert_eq!(ids, vec![2]);
    assert_eq!(texts, vec!["t2"]);
}

#[test]
fn unallocated_ids_are_refused() {
    assert!(check_allocated("docs", &vec![1, 2], 3).is_ok());
    assert_eq!(
        check_allocated("docs", &vec![1, 7, 9], 3).unwrap_err().message(),
        "chunk id 7 was never allocated in 'docs' (allocator frontier 3)"
    );
}

#[test]
fn refusals_by_role_and_partition() {
    assert!(check_serves_queries(NodeRole::Full).is_ok());
    assert_eq!(
        check_serves_queries(NodeRole::Writer).unwrap_err().message(),
        "this node runs in writer role and does not serve queries"
    );
    assert_eq!(
        check_manages_spaces(NodeRole::Writer).unwrap_err().message(),
        "this node runs in writer role; manage vector spaces via a serving node"
    );
    assert_eq!(
        check_deletes_by_filter(NodeRole::Writer).unwrap_err().message(),
        "delete-by-filter needs a serving node's indexes; this node runs in writer role (delete \
         by explicit ids instead)"
    );
    assert_eq!(
        check_deletes_by_id("docs", NodeRole::Full, true).unwrap_err().message(),
        "collection 'docs' is partitioned: delete via filters (POST .../delete with the \
         partition field), not bare ids"
    );
    assert!(check_deletes_by_id("docs", NodeRole::Writer, true)
        .unwrap_err()
        .message()
        .contains("route the delete through a serving node"));
    assert!(check_deletes_by_id("docs", NodeRole::Writer, false).is_ok());
    assert_eq!(
        reject_if_partitioned("docs", "creating relations", true).unwrap_err().message(),
        "creating relations is not supported on a partitioned collection yet (collection 'docs' \
         is partitioned)"
    );
    assert!(reject_if_partitioned("docs", "creating relations", false).is_ok());
    assert!(matches!(route("docs", &Some("t".to_string())), Route::Partitions(f) if f == "t"));
    assert!(matches!(route("docs--part--a", &Some("t".to_string())), Route::Here));
    assert!(matches!(route("docs", &None), Route::Here));
    assert!(leases_ids(true, "docs", 1));
    assert!(leases_ids(false, "docs--part--a", 1));
    assert!(!leases_ids(false, "docs", 1));
    assert!(!leases_ids(true, "docs", 0));
    assert!(!writer_has_work("docs", 0).unwrap());
    assert!(writer_has_work("docs", 1).unwrap());
    assert!(writer_has_work("a/b", 1).is_err());
    assert!(not_in_bucket("docs").is_not_found());
    assert_eq!(
        append_failed(Append::Ingest, "x").message(),
        "cloud WAL append failed, ingest not applied: x"
    );
    assert_eq!(append_failed(Append::WriterIngest, "x").message(), "cloud WAL append failed: x");
    assert_eq!(
        append_failed(Append::Delete, "x").message(),
        "LSM tombstone append failed (delete not applied): x"
    );
    assert_eq!(
        append_failed(Append::WriterDelete, "x").message(),
        "LSM tombstone append failed: x"
    );
    assert_eq!(
        append_failed(Append::RelationUpsert, "x").message(),
        "cloud relation-upsert append failed: x"
    );
    assert_eq!(
        append_failed(Append::RelationDelete, "x").message(),
        "cloud relation-delete append failed: x"
    );
}

#[test]
fn replay_is_idempotent_and_quarantines() {
    let mut l = loaded();
    l.index_chunks(&vec![chunk(1, None)]);
    l.mark_deleted(&vec![2]);
    let b = replay_data(
        &l,
        vec![
            chunk(1, Some(vec![1, 2])),
            chunk(2, Some(vec![1, 2])),
            chunk(3, Some(vec![1, 2])),
            chunk(4, Some(vec![1])),
        ],
    );
    let ids: Vec<u64> = b.chunks.iter().map(|c| c.id).collect();
    assert_eq!(ids, vec![3]);
    assert_eq!(b.quarantined, vec![4]);
    l.index_chunks(&b.chunks);
    let again = replay_data(&l, vec![chunk(3, Some(vec![1, 2]))]);
    assert!(again.chunks.is_empty() && again.quarantined.is_empty());
}

#[test]
fn fragments_change_only_what_is_new() {
    let mut l = loaded();
    l.index_chunks(&vec![chunk(1, None)]);
    assert!(matches!(
        plan_fragment(&l, Fragment::Data(vec![chunk(1, None)])),
        FragmentPlan::Nothing { .. }
    ));
    match plan_fragment(&l, Fragment::Data(vec![chunk(2, None)])) {
        FragmentPlan::Ingest(b) => assert_eq!(b.chunks[0].id, 2),
        other => panic!("{other:?}"),
    }
    assert!(matches!(
        plan_fragment(&l, Fragment::Tombstone(vec![7, 1])),
        FragmentPlan::Delete(ids) if ids == vec![1]
    ));
    assert!(matches!(
        plan_fragment(&l, Fragment::Tombstone(vec![7])),
        FragmentPlan::Nothing { .. }
    ));
    assert!(matches!(
        plan_fragment(&l, Fragment::RelationDelete(vec!["r".to_string()])),
        FragmentPlan::DropEdges(ids) if ids == vec!["r".to_string()]
    ));
    assert!(matches!(
        plan_fragment(&l, Fragment::RelationUpsert(vec![])),
        FragmentPlan::PutEdges(_)
    ));
}

fn fragment(seq: u64) -> FragmentRef {
    FragmentRef { id: format!("f{seq}"), seq, kind: FragmentKind::Data }
}

fn manifest(segments: usize, seqs: &[u64], watermark: Option<u64>) -> Manifest {
    Manifest {
        segments: (0..segments)
            .map(|i| SegmentRef { id: format!("s{i}"), records: 2 })
            .collect(),
        uncompacted: seqs.iter().map(|s| fragment(*s)).collect(),
        next_seq: 100,
        compaction_watermark: watermark,
    }
}

#[test]
fn refresh_applies_or_rebuilds() {
    let mut l = loaded();
    for s in 0..5u64 {
        l.mark_applied(s);
    }
    let cfg = BucketConfig::from_collection(&l.metadata);
    let present = vec!["default".to_string()];
    let (sync, plan) =
        plan_refresh(&mut l, &Some(cfg), &present, manifest(0, &[3, 4, 5, 6], Some(4)));
    assert!(matches!(sync, ConfigSync::Unchanged));
    match plan {
        RefreshPlan::Apply(refs) => {
            let seqs: Vec<u64> = refs.iter().map(|f| f.seq).collect();
            assert_eq!(seqs, vec![5, 6]);
        }
        other => panic!("{other:?}"),
    }
    let (_, plan) = plan_refresh(&mut l, &None, &present, manifest(0, &[6], Some(5)));
    assert!(matches!(plan, RefreshPlan::Rebuild { recreated: false }));

    let mut changed = BucketConfig::from_collection(&l.metadata);
    changed.vector_spaces.insert(
        "wide".to_string(),
        VectorSpaceConfig { dims: 8, model: "m".to_string(), status: "building".to_string() },
    );
    changed.vector_spaces.remove("default");
    let (sync, _) = plan_refresh(&mut l, &Some(changed), &present, manifest(0, &[], None));
    match sync {
        ConfigSync::Synced { added, removed } => {
            assert_eq!(added, vec!["wide".to_string()]);
            assert_eq!(removed, vec!["default".to_string()]);
        }
        other => panic!("{other:?}"),
    }
    assert!(l.metadata.vector_spaces.contains_key("wide"));

    let mut other = BucketConfig::from_collection(&l.metadata);
    other.created_at = at(99);
    let (sync, plan) = plan_refresh(&mut l, &Some(other), &present, manifest(0, &[], None));
    assert!(matches!(sync, ConfigSync::Recreated));
    assert!(matches!(plan, RefreshPlan::Rebuild { recreated: true }));
    assert!(!needs_reattach(false, None, 0));
    assert!(needs_reattach(false, Some(u64::MAX), u64::MAX));
    assert!(reattach_still_needed(true, None, None, None));
    assert!(!reattach_still_needed(true, Some((at(1), 5)), Some(at(1)), Some(4)));
    assert!(reattach_still_needed(true, Some((at(1), 5)), Some(at(2)), Some(4)));
    assert!(!reattach_still_needed(true, Some((at(1), 5)), None, None));
    assert_eq!(
        manifest_unreadable("docs", true, "x").message(),
        "collection 'docs' was deleted in object storage"
    );
    assert_eq!(manifest_unreadable("docs", false, "x").message(), "x");
}

#[test]
fn manifests_grow_and_fold() {
    let mut m = Manifest::new();
    assert!(m.is_sound());
    for i in 0..4u64 {
        assert_eq!(m.append(format!("f{i}"), FragmentKind::Data), i);
    }
    m.fold(SegmentRef { id: "s".to_string(), records: 3 }, 2);
    assert!(m.is_sound());
    assert_eq!(m.compaction_watermark, Some(2));
    assert_eq!(m.uncompacted.len(), 1);
    assert_eq!(m.uncompacted[0].seq, 3);
    assert_eq!(m.segments.len(), 1);
    m.merge(SegmentRef { id: "t".to_string(), records: 5 });
    assert_eq!((m.segments.len(), m.uncompacted.len()), (1, 0));
    assert_eq!(m.compaction_watermark, Some(3));
    assert_eq!(m.next_seq, 4);
    assert!(!manifest(0, &[5, 5], None).is_sound());
    assert!(!manifest(0, &[5], Some(5)).is_sound());
    assert!(!manifest(0, &[100], None).is_sound());
    assert!(!manifest(0, &[], Some(100)).is_sound());
    assert!(manifest(0, &[5, 7], Some(4)).is_sound());
}

#[test]
fn compaction_folds_then_merges_another_time() {
    assert!(!wants_compaction(31));
    assert!(wants_compaction(32));
    let s = Compaction::start();
    let (s, a) = s.on_manifest(&manifest(9, &[4, 7, 5], None));
    assert_eq!(a, CompactAction::Fold { through: 7 });
    let (s, a) = s.on_written(false, 3).unwrap();
    assert_eq!(a, CompactAction::Reread);
    let (_, a) = s.on_manifest(&manifest(10, &[], Some(7)));
    assert_eq!(a, CompactAction::Count);

    let (s, a) = Compaction::start().on_manifest(&manifest(9, &[], None));
    assert_eq!(a, CompactAction::Reread);
    let (s, a) = s.on_manifest(&manifest(9, &[], None));
    assert_eq!(a, CompactAction::Merge);
    let (_, a) = s.on_written(false, 11).unwrap();
    assert_eq!(a, CompactAction::Done { records: 11 });
    let (_, a) = s.on_manifest(&manifest(8, &[], None));
    assert_eq!(a, CompactAction::Count);

    let mut c = Compaction::Merging { failed: 0 };
    for _ in 0..9 {
        c = c.on_written(true, 0).unwrap().0;
    }
    match c.on_written(true, 0) {
        Err(StorageError::Io(t)) => assert_eq!(
            t,
            "compaction failed after max CAS retries (persistent contention)"
        ),
        other => panic!("{other:?}"),
    }
    let mut c = Compaction::start();
    for _ in 0..10 {
        c = c.on_written(true, 0).unwrap().0;
    }
    assert_eq!(c, Compaction::Merging { failed: 0 });
}

fn rows(ids: &[u64]) -> SpaceRows {
    SpaceRows { rows: ids.iter().map(|i| (*i, vec![0, 0])).collect() }
}

fn state(n: u64, mapped: bool, in_use: bool, indexed: bool) -> SpaceState {
    SpaceState { key_map: (0..n).collect(), mapped, in_use, indexed }
}

#[test]
fn vectors_are_appended_where_they_can_be() {
    match plan_vectors(None, &rows(&[7]), None) {
        VectorPlan::Rebuild { keep: 0, key_map } => assert_eq!(key_map, vec![7]),
        other => panic!("{other:?}"),
    }
    match plan_vectors(Some(state(2, false, false, false)), &rows(&[7]), None) {
        VectorPlan::Rebuild { keep: 2, key_map } => assert_eq!(key_map, vec![0, 1, 7]),
        other => panic!("{other:?}"),
    }
    match plan_vectors(Some(state(2, true, true, false)), &rows(&[7]), None) {
        VectorPlan::Rebuild { keep: 2, key_map } => assert_eq!(key_map, vec![0, 1, 7]),
        other => panic!("{other:?}"),
    }
    match plan_vectors(Some(state(998, true, false, false)), &rows(&[7]), None) {
        VectorPlan::Append { base_key: 998, index: None, .. } => {}
        other => panic!("{other:?}"),
    }
    match plan_vectors(Some(state(999, true, false, true)), &rows(&[7]), None) {
        VectorPlan::Append { base_key: 999, index: Some(i), .. } => {
            assert_eq!(i, IndexStep { load: true, save: true, unsaved: 0 });
        }
        other => panic!("{other:?}"),
    }
    match plan_vectors(Some(state(2000, true, false, true)), &rows(&[7]), Some(14)) {
        VectorPlan::Append { index: Some(i), .. } => {
            assert_eq!(i, IndexStep { load: false, save: false, unsaved: 15 });
        }
        other => panic!("{other:?}"),
    }
    match plan_vectors(Some(state(2000, true, false, true)), &rows(&[7]), Some(15)) {
        VectorPlan::Append { index: Some(i), .. } => {
            assert_eq!(i, IndexStep { load: false, save: true, unsaved: 0 });
        }
        other => panic!("{other:?}"),
    }
    let mut counts: StringMap<u32> = StringMap::new();
    keep_count(&mut counts, "default", &None);
    assert!(counts.is_empty());
    keep_count(
        &mut counts,
        "default",
        &Some(IndexStep { load: false, save: false, unsaved: 15 }),
    );
    assert_eq!(counts.get("default"), Some(&15));
    assert_eq!(missing_positions(3, 10, Some(7)), (3, 7));
    let (a, b) = missing_positions(10, 10, Some(20));
    assert!(a >= b);
    let (a, b) = missing_positions(3, 10, None);
    assert!(a >= b);
}

#[test]
fn a_rebuild_follows_the_store() {
    let live = materialize(
        vec![],
        vec![
            Fragment::Data(vec![chunk(1, Some(vec![1, 2])), chunk(2, None), chunk(9, None)]),
            Fragment::Tombstone(vec![9]),
        ],
    );
    let m = rebuilt_metadata("docs", None, &live, 4, at(7));
    assert_eq!((m.chunk_count, m.next_id, m.applied_seq), (2, 10, 4));
    assert_eq!(m.created_at, at(7));
    assert_eq!(m.vector_spaces.get("default").unwrap().dims, 2);
    assert!(rebuilt_metadata_now("docs", None, &live, 4).created_at.secs > 1_600_000_000);
    let l = rebuilt_collection(m, &live, 3);
    assert!(l.live.contains(&1) && l.live.contains(&2) && !l.live.contains(&9));
    assert!(l.applied.covers(3) && !l.applied.covers(4));
    let vectors = rebuilt_vectors(&live, &l.metadata.vector_spaces);
    assert_eq!(vectors.get("default").unwrap().rows, vec![(1, vec![1, 2])]);
    let mut other = StringMap::new();
    other.insert("wide".to_string(), l.metadata.vector_spaces.get("default").unwrap().clone());
    let vectors = rebuilt_vectors(&live, &other);
    assert_eq!(vectors.len(), 1);
    assert!(vectors.get("wide").unwrap().rows.is_empty());
}

#[test]
fn a_restart_goes_on_where_it_stopped() {
    let mut m = loaded().metadata;
    m.applied_seq = 6;
    m.next_id = 3;
    let l = LoadedCollection::from_disk(m, &vec![1, 8, 2], &vec![2], RelationshipStore::new(), 4);
    assert_eq!(l.next_id, 9);
    assert!(l.live.contains(&8) && !l.live.contains(&2));
    assert!(l.applied.covers(5) && !l.applied.covers(6));
}

fn edge(source: u64, target: u64) -> CreateRelation {
    CreateRelation {
        source_chunk_id: source,
        target_chunk_id: target,
        target_document_id: None,
        relation_type: "cites".to_string(),
        metadata: StringMap::new(),
    }
}

#[test]
fn edges_are_made_with_fresh_ids() {
    let live: HashSet<u64> = [2u64].into_iter().collect();
    let made = mint_relations(vec![edge(1, 2), edge(1, 3)], Some(&live)).unwrap();
    assert_eq!(made[0].target_status, "found");
    assert_eq!(made[1].target_status, "missing");
    assert_eq!(made[0].relation_id.len(), 36);
    assert_eq!(made[0].relation_id.as_bytes()[14], b'4');
    assert_ne!(made[0].relation_id, made[1].relation_id);
    assert_eq!(made[0].created_at, made[1].created_at);
    assert!(made[0].created_at.secs > 1_600_000_000);
    assert_eq!(relation_ids(&made)[1], made[1].relation_id);

    let blind = build_relations(vec![edge(1, 2)], &vec!["x".to_string()], at(5), None).unwrap();
    assert_eq!(blind[0].target_status, "missing");
    assert_eq!(blind[0].relation_id, "x");
    assert_eq!(blind[0].created_at, at(5));
    assert_eq!(
        mint_relations(vec![edge(1, 2), edge(4, 4)], None).unwrap_err().message(),
        "A relation's source and target chunk must differ"
    );
    assert!(takes_back_relations(true, 1));
    assert!(!takes_back_relations(true, 0));
    assert!(!takes_back_relations(false, 1));
}

#[test]
fn metadata_values_keep_their_kind() {
    let c = CollectionConfig::default();
    assert_eq!(c.embed_model, "");
    assert!(c.partition_by.is_none());
    assert!(MetadataValue::Int(1).equals(&MetadataValue::Int(1)));
    assert!(!MetadataValue::Int(1).equals(&MetadataValue::String("1".to_string())));
}
