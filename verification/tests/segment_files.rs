use compass::index::{decode_key_map, encode_key_map};
use compass::segment::{
    decode_segment_v2, segment_format, wants_clusters, ClusterSections, Section, SegmentFormat,
    SegmentParts, SegmentRow,
};
use compass::segment_assemble::{
    assemble_segment, attach_embeddings, decode_ids, decode_relation_ids, gather_sections,
};
use compass::segment_encode::{encode_segment, encode_segment_v2};
use compass::models::DocumentChunk;
use compass::storage_error::StorageError;
use compass::string_map::StringMap;

fn bits(v: &[f32]) -> Vec<u32> {
    v.iter().map(|x| x.to_bits()).collect()
}

fn row(id: u64, json: &str, spaces: Vec<(&str, Vec<f32>)>) -> SegmentRow {
    let mut embeddings = StringMap::new();
    for (name, v) in spaces {
        embeddings.insert(name.to_string(), bits(&v));
    }
    SegmentRow { id, row: json.as_bytes().to_vec(), embeddings }
}

fn no_clusters() -> StringMap<ClusterSections> {
    StringMap::new()
}

fn bare(id: u64) -> DocumentChunk {
    DocumentChunk {
        id,
        collection: "t".into(),
        file_id: format!("f{id}"),
        chunk_index: 0,
        page: None,
        text: String::new(),
        metadata: StringMap::new(),
        doc_type: "chunk".into(),
        parent_id: None,
        group_id: None,
        embeddings: StringMap::new(),
        embedding: None,
    }
}

#[test]
fn segment_v2_roundtrip_with_embeddings_and_tombstones() {
    let parts = SegmentParts {
        rows: vec![
            row(1, "{\"id\":1}", vec![("default", vec![0.1, 0.2, 0.3, 0.4])]),
            row(
                2,
                "{\"id\":2}",
                vec![("default", vec![0.5, 0.6, 0.7, 0.8]), ("wide", vec![1.0; 8])],
            ),
        ],
        relations: b"[\"r1\"]".to_vec(),
        max_id: 42,
        tombstones: vec![7, 9],
        relation_tombstones: vec!["dead".into()],
    };
    let bytes = encode_segment_v2(parts, &no_clusters()).unwrap();
    assert_eq!(&bytes[0..8], b"CSEG0003");
    assert_eq!(segment_format(&bytes), SegmentFormat::Binary);
    let (max_id, sections) = decode_segment_v2(&bytes).unwrap();
    assert_eq!(max_id, 42);

    let mut tombstones = vec![];
    let mut relation_tombstones = vec![];
    let mut relations = vec![];
    let mut rows_seen = false;
    let mut spaces = vec![];
    for s in sections {
        match s {
            Section::Tombstones(ids) => tombstones = ids,
            Section::RelationTombstones(ids) => relation_tombstones = ids,
            Section::Relations(b) => relations = b,
            Section::Rows(b) => {
                let text = String::from_utf8(b).unwrap();
                assert!(text.contains("{\"id\":1}") && text.contains("{\"id\":2}"));
                rows_seen = true;
            }
            Section::Embeddings { space, rows } => spaces.push((space, rows)),
            _ => {}
        }
    }
    assert!(rows_seen);
    assert_eq!(tombstones, vec![7, 9]);
    assert_eq!(relation_tombstones, vec!["dead".to_string()]);
    assert_eq!(relations, b"[\"r1\"]".to_vec());
    let back = attach_embeddings(vec![bare(1), bare(2)], &spaces);
    assert_eq!(back.len(), 2);
    let c2b = back.iter().find(|c| c.id == 2).unwrap();
    assert_eq!(c2b.embeddings.get("default"), Some(&bits(&[0.5, 0.6, 0.7, 0.8])));
    assert_eq!(c2b.embeddings.get("wide").unwrap().len(), 8);
}

#[test]
fn clustered_spaces_have_no_flat_section() {
    assert!(wants_clusters(4096, 8, 4096));
    assert!(!wants_clusters(4095, 8, 4096));
    assert!(!wants_clusters(5000, 0, 4096));
    let mut clusters = StringMap::new();
    clusters.insert(
        "default".to_string(),
        ClusterSections { cent: vec![1, 2, 3], clu: vec![4, 5] },
    );
    let parts = SegmentParts {
        rows: vec![row(1, "{}", vec![("default", vec![1.0, 2.0])])],
        relations: b"[]".to_vec(),
        max_id: 1,
        tombstones: vec![],
        relation_tombstones: vec![],
    };
    let bytes = encode_segment_v2(parts, &clusters).unwrap();
    let toc_len = u32::from_le_bytes(bytes[16..20].try_into().unwrap()) as usize;
    let toc = std::str::from_utf8(&bytes[20..20 + toc_len]).unwrap();
    assert!(toc.contains("cent:default"), "toc: {toc}");
    assert!(toc.contains("clu:default"), "toc: {toc}");
    assert!(!toc.contains("emb:default"), "toc: {toc}");
    let (_, sections) = decode_segment_v2(&bytes).unwrap();
    let mut found = 0;
    for s in sections {
        match s {
            Section::Centroids { space, body } => {
                assert_eq!((space.as_str(), body), ("default", vec![1, 2, 3]));
                found += 1;
            }
            Section::Clusters { space, body } => {
                assert_eq!((space.as_str(), body), ("default", vec![4, 5]));
                found += 1;
            }
            _ => {}
        }
    }
    assert_eq!(found, 2);
}

#[test]
fn a_full_segment_carries_no_deletes() {
    let bytes = encode_segment(vec![row(3, "{}", vec![])], b"[]".to_vec(), 3, &no_clusters()).unwrap();
    let (max_id, sections) = decode_segment_v2(&bytes).unwrap();
    assert_eq!(max_id, 3);
    for s in sections {
        if let Section::Tombstones(ids) = s {
            assert!(ids.is_empty());
        }
    }
}

#[test]
fn damaged_segments_are_refused() {
    let bytes = encode_segment(vec![row(3, "{}", vec![])], b"[]".to_vec(), 3, &no_clusters()).unwrap();
    for cut in 0..bytes.len() {
        match decode_segment_v2(&bytes[..cut]) {
            Err(StorageError::Io(_)) => {}
            other => panic!("cut at {cut}: {other:?}"),
        }
    }
    assert_eq!(segment_format(b"{\"chunks\":[]}"), SegmentFormat::Json);
    assert_eq!(segment_format(b"CSEG0002"), SegmentFormat::Binary);
}

#[test]
fn uneven_vectors_are_refused() {
    let parts = SegmentParts {
        rows: vec![
            row(1, "{}", vec![("default", vec![1.0, 2.0])]),
            row(2, "{}", vec![("default", vec![1.0])]),
        ],
        relations: b"[]".to_vec(),
        max_id: 2,
        tombstones: vec![],
        relation_tombstones: vec![],
    };
    assert!(matches!(encode_segment_v2(parts, &no_clusters()), Err(StorageError::Io(_))));
}

#[test]
fn id_lists_read_from_json() {
    assert_eq!(decode_ids(b"[3,1,2]").unwrap(), vec![3, 1, 2]);
    assert!(decode_ids(b"[-1]").is_err());
    assert_eq!(decode_relation_ids(b"[\"a\",\"b\"]").unwrap(), vec!["a", "b"]);
    assert!(decode_relation_ids(b"nope").is_err());
}

#[test]
fn key_maps_read_back() {
    let ids = vec![7u64, u64::MAX, 0];
    let bytes = encode_key_map(&ids);
    assert_eq!(bytes.len(), 28);
    assert_eq!(&bytes[0..4], &[3, 0, 0, 0]);
    assert_eq!(decode_key_map(&bytes), ids);
    assert!(decode_key_map(&vec![1, 2]).is_empty());
}

#[test]
fn a_segment_comes_back_whole() {
    let parts = SegmentParts {
        rows: vec![
            row(9, "{\"id\":9}", vec![("wide", vec![1.0, 2.0])]),
            row(4, "{\"id\":4}", vec![("default", vec![0.5]), ("wide", vec![-0.0, 3.0])]),
            row(6, "{\"id\":6}", vec![]),
        ],
        relations: b"[]".to_vec(),
        max_id: 11,
        tombstones: vec![10, 2],
        relation_tombstones: vec!["dead".into()],
    };
    let bytes = encode_segment_v2(parts, &no_clusters()).unwrap();
    let (max_id, sections) = decode_segment_v2(&bytes).unwrap();
    let body = gather_sections(sections);
    assert_eq!(body.rows, b"{\"id\":4}{\"id\":6}{\"id\":9}".to_vec());
    assert_eq!(body.relations, Some(b"[]".to_vec()));
    assert!(body.meta.is_none() && body.clustered.is_empty());
    let s = assemble_segment(max_id, body, vec![bare(4), bare(6), bare(9)], vec![]);
    assert_eq!((s.version, s.max_id), (2, 11));
    assert_eq!(s.tombstones, vec![10, 2]);
    assert_eq!(s.relation_tombstones, vec!["dead".to_string()]);
    assert_eq!(s.chunks[0].embeddings.get("wide"), Some(&bits(&[-0.0, 3.0])));
    assert_eq!(s.chunks[0].embeddings.get("default"), Some(&bits(&[0.5])));
    assert!(s.chunks[1].embeddings.is_empty());
    assert_eq!(s.chunks[2].embeddings.get("wide"), Some(&bits(&[1.0, 2.0])));
    assert_eq!(s.chunks[2].embeddings.len(), 1);
}
