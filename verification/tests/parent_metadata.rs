use compass::id_map::IdMap;
use compass::models::{DocumentChunk, MetadataValue};
use compass::parents::{build_parent_metadata_cache, parent_metadata_for};
use compass::string_map::StringMap;

fn base(id: u64, doc_type: &str) -> DocumentChunk {
    DocumentChunk {
        id,
        collection: "test".to_string(),
        file_id: format!("f{}", id),
        chunk_index: 0,
        page: None,
        text: String::new(),
        metadata: StringMap::new(),
        doc_type: doc_type.to_string(),
        parent_id: None,
        group_id: None,
        embeddings: StringMap::new(),
        embedding: None,
    }
}

fn segment(id: u64, parent_id: Option<u64>) -> DocumentChunk {
    let mut c = base(id, "segment");
    c.parent_id = parent_id;
    c
}

fn source_with_meta(id: u64, key: &str, val: &str) -> DocumentChunk {
    let mut c = base(id, "source");
    c.metadata.insert(key.to_string(), MetadataValue::String(val.to_string()));
    c
}

fn into_map(chunks: Vec<DocumentChunk>) -> IdMap<DocumentChunk> {
    let mut m = IdMap::new();
    for c in chunks {
        m.insert(c.id, c);
    }
    m
}

#[test]
fn segment_with_parent_gets_metadata() {
    let chunks = into_map(vec![source_with_meta(1, "title", "Keynote"), segment(2, Some(1))]);
    let cache = build_parent_metadata_cache(&vec![2], &chunks);
    let meta = parent_metadata_for(chunks.get(2).unwrap(), &cache);
    assert_eq!(
        meta.unwrap().get("title"),
        Some(&MetadataValue::String("Keynote".to_string()))
    );
}

#[test]
fn source_hit_gets_none() {
    let chunks = into_map(vec![source_with_meta(1, "title", "Keynote")]);
    let cache = build_parent_metadata_cache(&vec![1], &chunks);
    let meta = parent_metadata_for(chunks.get(1).unwrap(), &cache);
    assert!(meta.is_none());
}

#[test]
fn segment_without_parent_gets_none() {
    let chunks = into_map(vec![segment(2, None)]);
    let cache = build_parent_metadata_cache(&vec![2], &chunks);
    let meta = parent_metadata_for(chunks.get(2).unwrap(), &cache);
    assert!(meta.is_none());
}

#[test]
fn dedup_one_lookup_per_unique_parent() {
    let chunks = into_map(vec![
        source_with_meta(10, "source_id", "src-001"),
        segment(11, Some(10)),
        segment(12, Some(10)),
        segment(13, Some(10)),
    ]);
    let cache = build_parent_metadata_cache(&vec![11, 12, 13], &chunks);
    assert_eq!(cache.len(), 1, "expected one cache entry for the shared parent");
    assert!(cache.contains_key(10));
    for cid in [11, 12, 13] {
        let meta = parent_metadata_for(chunks.get(cid).unwrap(), &cache);
        assert_eq!(
            meta.unwrap().get("source_id"),
            Some(&MetadataValue::String("src-001".to_string()))
        );
    }
}

#[test]
fn orphan_segment_yields_none() {
    let chunks = into_map(vec![segment(5, Some(99))]);
    let cache = build_parent_metadata_cache(&vec![5], &chunks);
    assert!(!cache.contains_key(99), "orphan parent must not be cached");
    let meta = parent_metadata_for(chunks.get(5).unwrap(), &cache);
    assert!(meta.is_none(), "orphan segment must yield None");
}

#[test]
fn parent_exists_with_empty_metadata_yields_some_empty() {
    let chunks = into_map(vec![base(20, "source"), segment(21, Some(20))]);
    let cache = build_parent_metadata_cache(&vec![21], &chunks);
    let meta = parent_metadata_for(chunks.get(21).unwrap(), &cache);
    assert!(meta.is_some());
    assert!(meta.unwrap().is_empty());
}

#[test]
fn parent_metadata_for_cache_miss_returns_none() {
    let chunks = into_map(vec![source_with_meta(1, "title", "Keynote"), segment(2, Some(1))]);
    let cache = build_parent_metadata_cache(&vec![], &chunks);
    assert!(cache.is_empty());
    let meta = parent_metadata_for(chunks.get(2).unwrap(), &cache);
    assert!(meta.is_none());
}
