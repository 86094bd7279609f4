use compass::id_map::IdMap;
use compass::models::{
    AnnExplain, DocumentChunk, ExplainPlan, FilterCondition, FilterExplain, FilterValue,
    IngestChunk, MetadataValue, SearchHit,
};
use compass::errors::{collection_not_found, failed};
use compass::number::Number;
use compass::partitions::{
    alloc_ns, group_by_partition, is_partition_ns, parent_of, partition_ns,
    partition_values_from_filters, validate_partition_value, MAX_SEARCH_FANOUT,
};
use compass::routing::{request_targets, RoutedWrite, SearchOutcome};
use compass::string_map::StringMap;

fn in_set(values: Vec<String>) -> FilterValue {
    FilterValue::Condition(FilterCondition {
        gte: None,
        lte: None,
        contains: None,
        in_values: Some(values),
    })
}

fn exact(value: &str) -> FilterValue {
    FilterValue::Exact(MetadataValue::String(value.to_string()))
}

#[test]
fn namespace_roundtrip() {
    let ns = partition_ns("videos", "acme");
    assert_eq!(ns, "videos--part--acme");
    assert!(is_partition_ns(&ns));
    assert_eq!(parent_of(&ns), Some("videos"));
    assert_eq!(alloc_ns(&ns), "videos");
    assert!(!is_partition_ns("videos"));
    assert_eq!(parent_of("videos"), None);
    assert_eq!(alloc_ns("videos"), "videos");
}

#[test]
fn partition_value_rules() {
    assert!(validate_partition_value("acme-01").is_ok());
    assert!(validate_partition_value("").is_err());
    assert!(validate_partition_value("has space").is_err());
    assert!(validate_partition_value("a--part--b").is_err());
    assert!(validate_partition_value(&"x".repeat(65)).is_err());
}

#[test]
fn partition_value_limits_and_messages() {
    assert!(validate_partition_value(&"x".repeat(64)).is_ok());
    assert_eq!(
        validate_partition_value("has space").unwrap_err().message(),
        "partition value 'has space' is invalid: use letters, digits, and hyphens (max 64 chars)"
    );
    assert_eq!(
        validate_partition_value("a--part--b").unwrap_err().message(),
        "partition value 'a--part--b' must not contain '--part--'"
    );
}

#[test]
fn filter_routing() {
    let field = "tenant";
    let mut f: StringMap<FilterValue> = StringMap::new();
    assert!(partition_values_from_filters(field, &f).is_err());

    f.insert(field.to_string(), exact("acme"));
    assert_eq!(
        partition_values_from_filters(field, &f).unwrap(),
        vec!["acme".to_string()]
    );

    f.insert(field.to_string(), in_set(vec!["a".into(), "b".into()]));
    assert_eq!(partition_values_from_filters(field, &f).unwrap().len(), 2);

    let too_many: Vec<String> = (0..MAX_SEARCH_FANOUT + 1).map(|i| format!("t{i}")).collect();
    f.insert(field.to_string(), in_set(too_many));
    assert!(partition_values_from_filters(field, &f).is_err());
}

#[test]
fn routing_messages() {
    let f: StringMap<FilterValue> = StringMap::new();
    assert_eq!(
        partition_values_from_filters("tenant", &f).unwrap_err().message(),
        "this collection is partitioned by 'tenant': include filters.tenant (exact value, or \
         {\"in\": [...]} for up to 16 partitions)"
    );
    let mut many: StringMap<FilterValue> = StringMap::new();
    many.insert("tenant".to_string(), in_set((0..17).map(|i| format!("t{i}")).collect()));
    assert_eq!(
        partition_values_from_filters("tenant", &many).unwrap_err().message(),
        "filters.tenant names 17 partitions; max fan-out is 16"
    );
}

fn ingest(tenant: Option<&str>, file: &str) -> IngestChunk {
    let mut metadata: StringMap<MetadataValue> = StringMap::new();
    if let Some(t) = tenant {
        metadata.insert("tenant".to_string(), MetadataValue::String(t.to_string()));
    }
    IngestChunk {
        file_id: file.to_string(),
        chunk_index: 0,
        page: None,
        text: String::new(),
        metadata,
        doc_type: "chunk".to_string(),
        parent_id: None,
        parent_ref: None,
        group_id: None,
        client_id: None,
        embeddings: StringMap::new(),
        embedding: None,
    }
}

#[test]
fn batches_split_by_partition() {
    let groups = group_by_partition(
        "tenant",
        vec![ingest(Some("b"), "1"), ingest(Some("a"), "2"), ingest(Some("b"), "3")],
    )
    .unwrap();
    let entries = groups.into_entries();
    assert_eq!(entries.len(), 2);
    assert_eq!(entries[0].0, "a");
    assert_eq!(entries[0].1.len(), 1);
    assert_eq!(entries[1].0, "b");
    let files: Vec<&str> = entries[1].1.iter().map(|c| c.file_id.as_str()).collect();
    assert_eq!(files, vec!["1", "3"]);

    let e = group_by_partition("tenant", vec![ingest(None, "f9")]).unwrap_err();
    assert_eq!(
        e.message(),
        "chunk 'f9' is missing partition field 'tenant' (this collection is partitioned by it)"
    );
}

#[test]
fn requests_go_to_named_partitions() {
    let mut f: StringMap<FilterValue> = StringMap::new();
    f.insert("tenant".to_string(), in_set(vec!["a".into(), "b".into()]));
    assert_eq!(
        request_targets("docs", "tenant", &f, None).unwrap(),
        vec!["docs--part--a".to_string(), "docs--part--b".to_string()]
    );
    assert_eq!(
        request_targets("docs", "tenant", &f, Some(3)).unwrap_err().message(),
        "min_seq applies to a single partition's write history; filter to one partition value \
         when using it"
    );
    let mut one: StringMap<FilterValue> = StringMap::new();
    one.insert("tenant".to_string(), exact("a"));
    assert!(request_targets("docs", "tenant", &one, Some(3)).is_ok());
}

fn hit(id: u64, score: f32) -> SearchHit {
    SearchHit {
        chunk: DocumentChunk {
            id,
            collection: "t".to_string(),
            file_id: format!("f{id}"),
            chunk_index: 0,
            page: None,
            text: String::new(),
            metadata: StringMap::new(),
            doc_type: "chunk".to_string(),
            parent_id: None,
            group_id: None,
            embeddings: StringMap::new(),
            embedding: None,
        },
        score: score.to_bits(),
        source: "fts".to_string(),
        parent_metadata: None,
        relations: None,
    }
}

fn plan(eligible: u64) -> ExplainPlan {
    ExplainPlan {
        filter: FilterExplain {
            eligible_count: eligible,
            universe_count: 10,
            selectivity: Number::from_bits(0),
        },
        ann: AnnExplain {
            engine: "none".to_string(),
            candidates_inspected: None,
            ef_search_used: 64,
        },
    }
}

#[test]
fn partition_outcomes_merge_by_score() {
    let mut all = SearchOutcome::nothing();
    all.add(Ok(SearchOutcome {
        hits: vec![hit(1, 0.25), hit(2, -1.0), hit(3, 0.5)],
        total: 3,
        took_us: 10,
        explain: Some(plan(1)),
    }))
    .unwrap();
    assert!(all.add(Err(collection_not_found("docs--part--x"))).is_ok());
    assert_eq!(all.add(Err(failed("boom"))).unwrap_err().message(), "boom");
    all.add(Ok(SearchOutcome {
        hits: vec![hit(4, 0.5), hit(5, 0.75)],
        total: 2,
        took_us: 5,
        explain: Some(plan(2)),
    }))
    .unwrap();
    let out = all.finish(4);
    let ids: Vec<u64> = out.hits.iter().map(|h| h.chunk.id).collect();
    assert_eq!(ids, vec![5, 3, 4, 1]);
    assert_eq!(out.total, 5);
    assert_eq!(out.took_us, 15);
    assert_eq!(out.explain.unwrap().filter.eligible_count, 1);
}

#[test]
fn routed_writes_report_one_log_only() {
    let mut w = RoutedWrite::new(1);
    let mut ids: StringMap<u64> = StringMap::new();
    ids.insert("a".to_string(), 7);
    w.add_ingest(2, ids, Some(4));
    assert_eq!(w.total, 2);
    assert_eq!(w.seq(), Some(4));
    assert_eq!(w.client_ids.get("a"), Some(&7));

    let mut d = RoutedWrite::new(2);
    d.add_delete(Ok((3, Some(9)))).unwrap();
    assert!(d.add_delete(Err(collection_not_found("x"))).is_ok());
    assert!(d.add_delete(Err(failed("no"))).is_err());
    assert_eq!(d.total, 3);
    assert_eq!(d.seq(), None);
}

#[test]
fn id_maps_walk_in_order() {
    let mut m: IdMap<u64> = IdMap::new();
    m.insert(5, 50);
    m.insert(2, 20);
    m.insert(5, 51);
    assert_eq!(m.len(), 2);
    assert_eq!(m.key_at(0), 2);
    assert_eq!(m.get(5), Some(&51));
    assert_eq!(m.remove(2), Some(20));
    assert_eq!(m.remove(2), None);
}
