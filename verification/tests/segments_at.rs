use compass::models::{DocumentChunk, MetadataValue};
use compass::number::Number;
use compass::string_map::StringMap;
use compass::temporal::{segment_in_time_window, segments_at};
use std::collections::HashSet;

fn num(x: f64) -> Number {
    Number::from_bits(x.to_bits())
}

fn in_window(c: &DocumentChunk, t: Option<f64>, lo: Option<f64>, hi: Option<f64>) -> bool {
    segment_in_time_window(c, t.map(num), lo.map(num), hi.map(num), &StringMap::new())
}

fn bare_segment(id: u64) -> DocumentChunk {
    DocumentChunk {
        id,
        collection: "test".to_string(),
        file_id: format!("f{id}"),
        chunk_index: 0,
        page: None,
        text: String::new(),
        metadata: StringMap::new(),
        doc_type: "segment".to_string(),
        parent_id: None,
        group_id: Some("a".to_string()),
        embeddings: StringMap::new(),
        embedding: None,
    }
}

fn make_segment(group_id: &str, ts_ms: f64, te_ms: f64) -> DocumentChunk {
    let mut c = bare_segment(1);
    c.metadata.insert("timerange_start_ms".to_string(), MetadataValue::Float(num(ts_ms)));
    c.metadata.insert("timerange_end_ms".to_string(), MetadataValue::Float(num(te_ms)));
    c.group_id = Some(group_id.to_string());
    c
}

fn make_instant(group_id: &str, t_ms: f64) -> DocumentChunk {
    make_segment(group_id, t_ms, t_ms)
}

#[test]
fn point_inside_window() {
    let c = make_segment("a", 100.0, 200.0);
    assert!(in_window(&c, Some(150.0), None, None));
}

#[test]
fn point_outside_window() {
    let c = make_segment("a", 100.0, 200.0);
    assert!(!in_window(&c, Some(250.0), None, None));
}

#[test]
fn point_boundaries_inclusive() {
    let c = make_segment("a", 100.0, 200.0);
    assert!(in_window(&c, Some(100.0), None, None));
    assert!(in_window(&c, Some(200.0), None, None));
}

#[test]
fn range_overlap_matches() {
    let c = make_segment("a", 100.0, 200.0);
    assert!(in_window(&c, None, Some(180.0), Some(300.0)));
}

#[test]
fn range_no_overlap() {
    let c = make_segment("a", 100.0, 200.0);
    assert!(!in_window(&c, None, Some(250.0), Some(400.0)));
}

#[test]
fn range_open_lower_bound() {
    let c = make_segment("a", 100.0, 200.0);
    assert!(in_window(&c, None, None, Some(150.0)));
    assert!(!in_window(&c, None, None, Some(50.0)));
}

#[test]
fn range_open_upper_bound() {
    let c = make_segment("a", 100.0, 200.0);
    assert!(in_window(&c, None, Some(150.0), None));
    assert!(!in_window(&c, None, Some(300.0), None));
}

#[test]
fn missing_metadata_with_filter_excludes() {
    let c = bare_segment(2);
    assert!(!in_window(&c, Some(100.0), None, None));
    assert!(!in_window(&c, None, Some(0.0), Some(1000.0)));
}

#[test]
fn no_filter_matches_all() {
    let with_meta = make_segment("a", 100.0, 200.0);
    assert!(in_window(&with_meta, None, None, None));
    let without_meta = bare_segment(3);
    assert!(in_window(&without_meta, None, None, None));
}

#[test]
fn point_lookup_takes_precedence_over_range() {
    let c = make_segment("a", 100.0, 200.0);
    assert!(in_window(&c, Some(150.0), Some(300.0), Some(400.0)));
    assert!(!in_window(&c, Some(250.0), Some(100.0), Some(300.0)));
}

#[test]
fn instant_matches_exact_point_query() {
    let c = make_instant("a", 5200.0);
    assert!(in_window(&c, Some(5200.0), None, None));
    assert!(!in_window(&c, Some(5199.0), None, None));
    assert!(!in_window(&c, Some(5201.0), None, None));
}

#[test]
fn instant_matches_overlapping_range_query() {
    let c = make_instant("a", 5200.0);
    assert!(in_window(&c, None, Some(5000.0), Some(6000.0)));
    assert!(in_window(&c, None, Some(5200.0), Some(5200.0)));
    assert!(!in_window(&c, None, Some(5201.0), Some(6000.0)));
}

#[test]
fn segments_come_in_order_of_their_start() {
    let mut late = make_segment("a", 300.0, 400.0);
    late.id = 10;
    let mut early = make_segment("a", -5.0, 20.0);
    early.id = 11;
    let mut tie = make_segment("a", 300.0, 310.0);
    tie.id = 12;
    let missing = bare_segment(13);
    let mut deleted = make_segment("a", 0.0, 1.0);
    deleted.id = 14;
    let mut other = make_segment("b", 0.0, 1.0);
    other.id = 15;
    let mut source = make_segment("a", 0.0, 1.0);
    source.id = 16;
    source.doc_type = "source".to_string();
    let gone: HashSet<u64> = [14u64].into_iter().collect();
    let found = segments_at(
        vec![missing, late, early, tie, deleted, other, source],
        &gone,
        "a",
        None,
        None,
        None,
        &StringMap::new(),
    );
    let ids: Vec<u64> = found.iter().map(|c| c.id).collect();
    assert_eq!(ids, vec![11, 10, 12, 13]);
}
