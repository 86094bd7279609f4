use compass::models::RelationDirection;
use compass::relation_store::{retries_open, RelationStore};
use compass::relation_tables::database_failed;
use serde_json::Value;

fn rel(id: &str, src: u64, tgt: u64, rtype: &str) -> Vec<u8> {
    let mut row = serde_json::Map::new();
    row.insert("relation_id".to_string(), Value::from(id));
    row.insert("source_chunk_id".to_string(), Value::from(src));
    row.insert("target_chunk_id".to_string(), Value::from(tgt));
    row.insert("target_document_id".to_string(), Value::Null);
    row.insert("relation_type".to_string(), Value::from(rtype));
    row.insert("target_status".to_string(), Value::from("unknown"));
    row.insert("metadata".to_string(), Value::Object(serde_json::Map::new()));
    row.insert("created_at".to_string(), Value::from("2024-01-01T00:00:00Z"));
    serde_json::to_vec(&Value::Object(row)).unwrap()
}

fn field(row: &[u8], name: &str) -> String {
    let v: Value = serde_json::from_slice(row).unwrap();
    v.get(name).unwrap().as_str().unwrap().to_string()
}

fn store() -> RelationStore {
    let db = redb::Database::builder()
        .create_with_backend(redb::backends::InMemoryBackend::new())
        .unwrap();
    RelationStore::with_database(db).unwrap()
}

#[test]
fn insert_then_read_outgoing_and_incoming() {
    let s = store();
    s.insert_batch(&vec![rel("r1", 1, 2, "cites"), rel("r2", 3, 1, "supersedes")])
        .unwrap();
    assert_eq!(s.count().unwrap(), 2);

    let out = s.for_chunk(1, RelationDirection::Outgoing, &None).unwrap();
    assert_eq!(out.len(), 1);
    assert_eq!(field(&out[0], "relation_id"), "r1");

    let inc = s.for_chunk(1, RelationDirection::Incoming, &None).unwrap();
    assert_eq!(inc.len(), 1);
    assert_eq!(field(&inc[0], "relation_id"), "r2");

    let both = s.for_chunk(1, RelationDirection::Both, &None).unwrap();
    assert_eq!(both.len(), 2);
}

#[test]
fn type_filter() {
    let s = store();
    s.insert_batch(&vec![
        rel("r1", 1, 2, "cites"),
        rel("r2", 1, 3, "supersedes"),
        rel("r3", 1, 4, "cites"),
    ])
    .unwrap();
    let cites = s
        .for_chunk(1, RelationDirection::Outgoing, &Some(vec!["cites".to_string()]))
        .unwrap();
    assert_eq!(cites.len(), 2);
    assert!(cites.iter().all(|r| field(r, "relation_type") == "cites"));
}

#[test]
fn delete_prunes_both_indexes() {
    let s = store();
    s.insert_batch(&vec![rel("r1", 1, 2, "cites")]).unwrap();
    assert!(s.delete("r1").unwrap());
    assert_eq!(s.count().unwrap(), 0);
    assert!(s.for_chunk(1, RelationDirection::Outgoing, &None).unwrap().is_empty());
    assert!(s.for_chunk(2, RelationDirection::Incoming, &None).unwrap().is_empty());
    assert!(!s.delete("nope").unwrap());
}

#[test]
fn for_chunks_batched() {
    let s = store();
    s.insert_batch(&vec![rel("r1", 1, 2, "cites"), rel("r2", 5, 6, "cites")])
        .unwrap();
    let map = s
        .for_chunks(&vec![1, 5, 99], RelationDirection::Outgoing, &None)
        .unwrap();
    assert_eq!(map.len(), 2);
    assert_eq!(field(&map.get(1).unwrap()[0], "relation_id"), "r1");
    assert_eq!(field(&map.get(5).unwrap()[0], "relation_id"), "r2");
}

#[test]
fn upsert_with_changed_endpoints_prunes_stale_index() {
    let s = store();
    s.insert_batch(&vec![rel("r1", 1, 2, "cites")]).unwrap();
    s.insert_batch(&vec![rel("r1", 3, 4, "cites")]).unwrap();
    assert_eq!(s.count().unwrap(), 1);

    assert!(s.for_chunk(1, RelationDirection::Both, &None).unwrap().is_empty());
    assert!(s.for_chunk(2, RelationDirection::Both, &None).unwrap().is_empty());
    assert_eq!(s.for_chunk(3, RelationDirection::Outgoing, &None).unwrap().len(), 1);
    assert_eq!(s.for_chunk(4, RelationDirection::Incoming, &None).unwrap().len(), 1);
}

#[test]
fn hub_chunk_many_edges() {
    let s = store();
    let edges: Vec<Vec<u8>> = (0..2_000u64)
        .map(|i| rel(&format!("r{i}"), 1, i + 2, "cites"))
        .collect();
    s.insert_batch(&edges).unwrap();
    assert_eq!(s.count().unwrap(), 2_000);
    let out = s.for_chunk(1, RelationDirection::Outgoing, &None).unwrap();
    assert_eq!(out.len(), 2_000);
    assert!(s.delete("r1000").unwrap());
    let out = s.for_chunk(1, RelationDirection::Outgoing, &None).unwrap();
    assert_eq!(out.len(), 1_999);
}

#[test]
fn both_directions_list_leaving_edges_first() {
    let s = store();
    s.insert_batch(&vec![
        rel("a", 9, 1, "cites"),
        rel("z", 1, 5, "cites"),
        rel("m", 1, 6, "cites"),
        rel("loop", 1, 1, "cites"),
    ])
    .unwrap();
    let both = s.for_chunk(1, RelationDirection::Both, &None).unwrap();
    let ids: Vec<String> = both.iter().map(|r| field(r, "relation_id")).collect();
    assert_eq!(ids, vec!["loop", "m", "z", "a"]);
    assert_eq!(both[1], rel("m", 1, 6, "cites"));
}

#[test]
fn a_row_that_is_no_edge_refuses_the_batch() {
    let s = store();
    let e = s
        .insert_batch(&vec![rel("r1", 1, 2, "cites"), b"{}".to_vec()])
        .unwrap_err();
    assert!(!e.is_not_found());
    assert_eq!(s.count().unwrap(), 0);
}

#[test]
fn a_stored_row_that_is_no_edge_stops_a_read() {
    let rows: redb::TableDefinition<&str, &[u8]> = redb::TableDefinition::new("relations");
    let index: redb::MultimapTableDefinition<u64, &str> =
        redb::MultimapTableDefinition::new("by_source_idx");
    let db = redb::Database::builder()
        .create_with_backend(redb::backends::InMemoryBackend::new())
        .unwrap();
    let txn = db.begin_write().unwrap();
    {
        let mut table = txn.open_table(rows).unwrap();
        table.insert("r1", b"{}".as_slice()).unwrap();
        let mut sources = txn.open_multimap_table(index).unwrap();
        sources.insert(1u64, "r1").unwrap();
    }
    txn.commit().unwrap();
    let s = RelationStore::with_database(db).unwrap();
    assert_eq!(s.count().unwrap(), 1);
    let text = "a stored relation is not an edge";
    assert_eq!(s.for_chunk(1, RelationDirection::Outgoing, &None).unwrap_err().message(), text);
    assert!(s.for_chunk(1, RelationDirection::Incoming, &None).unwrap().is_empty());
    assert_eq!(s.delete("r1").unwrap_err().message(), text);
    assert_eq!(s.prune_chunk(1).unwrap_err().message(), text);
    assert_eq!(s.insert_batch(&vec![rel("r1", 1, 2, "cites")]).unwrap_err().message(), text);
    assert_eq!(s.count().unwrap(), 1);
}

#[test]
fn a_database_error_keeps_its_text() {
    let e = redb::Error::TableIsMultimap("relations".to_string());
    let text = e.to_string();
    assert_eq!(database_failed(e).message(), text);

    let index: redb::MultimapTableDefinition<u64, &str> =
        redb::MultimapTableDefinition::new("relations");
    let db = redb::Database::builder()
        .create_with_backend(redb::backends::InMemoryBackend::new())
        .unwrap();
    let txn = db.begin_write().unwrap();
    txn.open_multimap_table(index).unwrap();
    txn.commit().unwrap();
    match RelationStore::with_database(db) {
        Ok(_) => panic!("a table of another kind was opened"),
        Err(e) => assert_eq!(e.message(), text),
    }
}

#[test]
fn repeated_upsert_changes_nothing() {
    let s = store();
    s.insert_batch(&vec![rel("r1", 1, 2, "cites"), rel("r1", 1, 2, "cites")])
        .unwrap();
    s.insert_batch(&vec![rel("r1", 1, 2, "cites")]).unwrap();
    assert_eq!(s.count().unwrap(), 1);
    assert_eq!(s.for_chunk(1, RelationDirection::Both, &None).unwrap().len(), 1);
}

#[test]
fn locked_database_is_tried_six_times() {
    assert!(retries_open(1, true));
    assert!(retries_open(5, true));
    assert!(!retries_open(6, true));
    assert!(!retries_open(1, false));
}

#[test]
fn pruning_a_chunk_takes_out_its_edges_only() {
    let s = store();
    s.insert_batch(&vec![
        rel("out", 1, 2, "cites"),
        rel("in", 3, 1, "cites"),
        rel("other", 2, 3, "cites"),
    ])
    .unwrap();
    s.prune_chunk(1).unwrap();
    assert_eq!(s.count().unwrap(), 1);
    assert!(s.for_chunk(1, RelationDirection::Both, &None).unwrap().is_empty());
    assert_eq!(s.for_chunk(2, RelationDirection::Both, &None).unwrap().len(), 1);
    s.prune_chunk(9).unwrap();
    assert_eq!(s.count().unwrap(), 1);
}

fn changed(field: &str, json: Option<Value>) -> Vec<u8> {
    let mut row: serde_json::Map<String, Value> =
        serde_json::from_slice(&rel("r1", 1, 2, "cites")).unwrap();
    match json {
        Some(v) => row.insert(field.to_string(), v),
        None => row.remove(field),
    };
    serde_json::to_vec(&Value::Object(row)).unwrap()
}

#[test]
fn every_field_of_an_edge_counts() {
    let s = store();
    let metadata = |v: Value| {
        let mut m = serde_json::Map::new();
        m.insert("k".to_string(), v);
        Some(Value::Object(m))
    };
    let refused = vec![
        changed("metadata", Some(Value::from(7))),
        changed("metadata", Some(Value::Null)),
        changed("metadata", metadata(Value::Null)),
        changed("metadata", metadata(Value::from(vec![1, 2]))),
        changed("metadata", metadata(Value::Object(serde_json::Map::new()))),
        changed("created_at", None),
        changed("created_at", Some(Value::from("yesterday"))),
        changed("target_document_id", Some(Value::from(7))),
        changed("target_status", Some(Value::Null)),
        changed("relation_type", None),
        changed("source_chunk_id", Some(Value::from(-1))),
        b"[]".to_vec(),
        b"{".to_vec(),
    ];
    for row in refused {
        assert!(s.insert_batch(&vec![row.clone()]).is_err(), "{}", String::from_utf8_lossy(&row));
    }
    let kept = vec![
        changed("metadata", None),
        changed("metadata", metadata(Value::from(vec!["a", "b"]))),
        changed("metadata", metadata(Value::from(-1.5))),
        changed("metadata", metadata(Value::from(true))),
        changed("metadata", metadata(Value::from("null"))),
        changed("target_document_id", None),
        changed("target_document_id", Some(Value::from("d"))),
        changed("target_status", None),
    ];
    for row in kept {
        s.insert_batch(&vec![row]).unwrap();
    }
    assert_eq!(s.count().unwrap(), 1);
}

#[test]
fn reads_follow_inserts_and_deletes() {
    let s = store();
    s.insert_batch(&vec![rel("a", 1, 2, "cites"), rel("b", 2, 1, "cites")]).unwrap();
    s.insert_batch(&vec![rel("a", 3, 1, "cites")]).unwrap();
    assert!(s.delete("b").unwrap());
    s.insert_batch(&vec![rel("b", 1, 1, "cites")]).unwrap();
    let both = s.for_chunk(1, RelationDirection::Both, &None).unwrap();
    assert_eq!(both, vec![rel("b", 1, 1, "cites"), rel("a", 3, 1, "cites")]);
    assert!(s.for_chunk(2, RelationDirection::Both, &None).unwrap().is_empty());
}

#[test]
fn a_field_stands_in_an_edge_once() {
    let s = store();
    let whole = String::from_utf8(rel("r1", 1, 2, "cites")).unwrap();
    let body = &whole[1..whole.len() - 1];
    for twice in [
        "\"relation_type\":\"cites\"",
        "\"source_chunk_id\":1",
        "\"metadata\":{}",
        "\"target_document_id\":null",
        "\"relation\\u005fid\":\"r1\"",
    ] {
        assert!(s.insert_batch(&vec![format!("{{{twice},{body}}}").into_bytes()]).is_err());
        assert!(s.insert_batch(&vec![format!("{{{body} , {twice} }}").into_bytes()]).is_err());
    }
    let odd = " { \"other\" : [1,{\"relation_id\":2},\"]},\\\"\"] , \"other\": 1e999 ,";
    s.insert_batch(&vec![format!("{odd}{body}}} ").into_bytes()]).unwrap();
    assert_eq!(s.for_chunk(1, RelationDirection::Outgoing, &None).unwrap().len(), 1);
    let bad = body.replace("\"metadata\":{}", "\"metadata\":{\"k\":null,\"k\":1}");
    assert!(s.insert_batch(&vec![format!("{{{bad}}}").into_bytes()]).is_err());
    let good = body.replace("\"metadata\":{}", "\"metadata\":{\"k\":[\"a\"],\"k\": -1.5 }");
    s.insert_batch(&vec![format!("{{{good}}}").into_bytes()]).unwrap();
}

#[test]
fn an_edge_may_be_a_list_of_its_fields() {
    let s = store();
    let row = |rest: &str| {
        format!("[\"r9\",7,8,null,\"cites\",\"unknown\",{{\"k\":[\"a,b\",\"]\"]}}{rest}]").into_bytes()
    };
    s.insert_batch(&vec![row(", \"2024-01-01T00:00:00Z\"")]).unwrap();
    assert_eq!(s.for_chunk(8, RelationDirection::Incoming, &None).unwrap().len(), 1);
    assert!(s.delete("r9").unwrap());
    assert!(s.insert_batch(&vec![row("")]).is_err());
    assert!(s.insert_batch(&vec![row(",\"2024-01-01T00:00:00Z\",1")]).is_err());
    assert!(s.insert_batch(&vec![row(",\"soon\"")]).is_err());
    assert!(s.insert_batch(&vec![b"[]".to_vec()]).is_err());
}
