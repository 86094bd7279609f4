use compass::facets::facet_counts;
use compass::filter::{eligible_ids, filter_meta, matches_filters};
use compass::id_map::IdMap;
use compass::models::{DocumentChunk, FilterCondition, FilterValue, MetadataValue};
use compass::number::Number;
use compass::string_map::StringMap;
use std::collections::HashSet;

fn num(x: f64) -> Number {
    Number::from_bits(x.to_bits())
}

fn make_chunk(doc_type: &str, metadata: StringMap<MetadataValue>) -> DocumentChunk {
    DocumentChunk {
        id: 1,
        collection: "test".to_string(),
        file_id: "f1".to_string(),
        chunk_index: 0,
        page: None,
        text: "test".to_string(),
        metadata,
        doc_type: doc_type.to_string(),
        parent_id: None,
        group_id: None,
        embeddings: StringMap::new(),
        embedding: None,
    }
}

fn range(gte: Option<f64>, lte: Option<f64>) -> FilterValue {
    FilterValue::Condition(FilterCondition {
        gte: gte.map(num),
        lte: lte.map(num),
        contains: None,
        in_values: None,
    })
}

fn contains(text: &str) -> FilterValue {
    FilterValue::Condition(FilterCondition {
        gte: None,
        lte: None,
        contains: Some(text.to_string()),
        in_values: None,
    })
}

fn one_of(values: Vec<String>) -> FilterValue {
    FilterValue::Condition(FilterCondition {
        gte: None,
        lte: None,
        contains: None,
        in_values: Some(values),
    })
}

fn no_numbers() -> StringMap<Number> {
    StringMap::new()
}

#[test]
fn exact_match_backward_compat() {
    let mut meta = StringMap::new();
    meta.insert("department".to_string(), MetadataValue::String("Legal".to_string()));
    let chunk = make_chunk("chunk", meta);

    let mut filters = StringMap::new();
    filters.insert(
        "department".to_string(),
        FilterValue::Exact(MetadataValue::String("Legal".to_string())),
    );
    assert!(matches_filters(&chunk, &filters, &no_numbers()));

    filters.insert(
        "department".to_string(),
        FilterValue::Exact(MetadataValue::String("HR".to_string())),
    );
    assert!(!matches_filters(&chunk, &filters, &no_numbers()));
}

#[test]
fn numeric_range_gte() {
    let mut meta = StringMap::new();
    meta.insert("timerange_start".to_string(), MetadataValue::Float(num(2040.0)));
    let chunk = make_chunk("segment", meta);

    let mut filters = StringMap::new();
    filters.insert("timerange_start".to_string(), range(Some(2000.0), None));
    assert!(matches_filters(&chunk, &filters, &no_numbers()));

    filters.insert("timerange_start".to_string(), range(Some(2100.0), None));
    assert!(!matches_filters(&chunk, &filters, &no_numbers()));
}

#[test]
fn numeric_range_combined() {
    let mut meta = StringMap::new();
    meta.insert("priority".to_string(), MetadataValue::Int(5));
    let chunk = make_chunk("chunk", meta);

    let mut filters = StringMap::new();
    filters.insert("priority".to_string(), range(Some(3.0), Some(10.0)));
    assert!(matches_filters(&chunk, &filters, &no_numbers()));

    filters.insert("priority".to_string(), range(Some(6.0), Some(10.0)));
    assert!(!matches_filters(&chunk, &filters, &no_numbers()));
}

#[test]
fn contains_string_list() {
    let mut meta = StringMap::new();
    meta.insert(
        "tags".to_string(),
        MetadataValue::StringList(vec!["sports".to_string(), "goals".to_string()]),
    );
    let chunk = make_chunk("chunk", meta);

    let mut filters = StringMap::new();
    filters.insert("tags".to_string(), contains("sports"));
    assert!(matches_filters(&chunk, &filters, &no_numbers()));

    filters.insert("tags".to_string(), contains("music"));
    assert!(!matches_filters(&chunk, &filters, &no_numbers()));
}

#[test]
fn in_set_membership() {
    let chunk = make_chunk("segment", StringMap::new());

    let mut filters = StringMap::new();
    filters.insert(
        "doc_type".to_string(),
        one_of(vec!["segment".to_string(), "flow".to_string()]),
    );
    assert!(matches_filters(&chunk, &filters, &no_numbers()));

    filters.insert("doc_type".to_string(), one_of(vec!["source".to_string()]));
    assert!(!matches_filters(&chunk, &filters, &no_numbers()));
}

#[test]
fn doc_type_special_case() {
    let chunk = make_chunk("segment", StringMap::new());

    let mut filters = StringMap::new();
    filters.insert(
        "doc_type".to_string(),
        FilterValue::Exact(MetadataValue::String("segment".to_string())),
    );
    assert!(matches_filters(&chunk, &filters, &no_numbers()));
}

#[test]
fn missing_field_returns_false() {
    let chunk = make_chunk("chunk", StringMap::new());

    let mut filters = StringMap::new();
    filters.insert(
        "nonexistent".to_string(),
        FilterValue::Exact(MetadataValue::String("value".to_string())),
    );
    assert!(!matches_filters(&chunk, &filters, &no_numbers()));
}

#[test]
fn texts_that_spell_numbers_compare_as_numbers() {
    let mut meta = StringMap::new();
    meta.insert("year".to_string(), MetadataValue::String("2024".to_string()));
    let chunk = make_chunk("chunk", meta);
    let mut filters = StringMap::new();
    filters.insert("year".to_string(), range(Some(2000.0), None));
    assert!(!matches_filters(&chunk, &filters, &no_numbers()));
    let mut numbers = StringMap::new();
    numbers.insert("2024".to_string(), num(2024.0));
    assert!(matches_filters(&chunk, &filters, &numbers));
}

#[test]
fn document_type_hides_metadata_of_that_name() {
    let mut meta = StringMap::new();
    meta.insert("doc_type".to_string(), MetadataValue::String("other".to_string()));
    let chunk = make_chunk("segment", meta);
    let seen = filter_meta(&chunk);
    assert_eq!(
        seen.get("doc_type"),
        Some(&MetadataValue::String("segment".to_string()))
    );
}

#[test]
fn eligible_chunks_are_live_and_match() {
    let mut chunks: IdMap<DocumentChunk> = IdMap::new();
    for id in [1u64, 2, 3, 4] {
        let mut c = make_chunk(if id == 2 { "source" } else { "segment" }, StringMap::new());
        c.id = id;
        chunks.insert(id, c);
    }
    let live: HashSet<u64> = [1u64, 2, 4].into_iter().collect();
    let mut filters = StringMap::new();
    filters.insert("doc_type".to_string(), one_of(vec!["segment".to_string()]));
    assert_eq!(eligible_ids(&chunks, &live, &filters, &no_numbers()), vec![1, 4]);
}

#[test]
fn facets_count_live_texts() {
    let mut chunks: IdMap<DocumentChunk> = IdMap::new();
    for (id, kind) in [(1u64, "report"), (2, "memo"), (3, "report"), (4, "memo")] {
        let mut meta = StringMap::new();
        meta.insert("kind".to_string(), MetadataValue::String(kind.to_string()));
        meta.insert("lang".to_string(), MetadataValue::String("en".to_string()));
        meta.insert("size".to_string(), MetadataValue::Int(3));
        let mut c = make_chunk("chunk", meta);
        c.id = id;
        chunks.insert(id, c);
    }
    let live: HashSet<u64> = [1u64, 2, 3].into_iter().collect();
    let all = facet_counts(&chunks, &live, &vec![]);
    assert_eq!(all.get("kind").unwrap().get("report"), Some(&2));
    assert_eq!(all.get("kind").unwrap().get("memo"), Some(&1));
    assert_eq!(all.get("lang").unwrap().get("en"), Some(&3));
    assert!(!all.contains_key("size"));
    assert!(facet_counts(&chunks, &HashSet::new(), &vec![]).is_empty());
    assert!(facet_counts(&chunks, &live, &vec!["no such field".to_string()]).is_empty());
    let some = facet_counts(&chunks, &live, &vec!["lang".to_string()]);
    assert!(!some.contains_key("kind"));
    assert!(some.contains_key("lang"));
}
