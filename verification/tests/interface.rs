use compass::api::{
    add_deleted, api_key, authorized, check_delete_request, check_relations_request,
    collection_to_info, created_response, ct_eq, delete_chunk_response, delete_relation_response,
    error_response, idle_rebuild_status, list_vector_spaces, max_concurrency,
    partial_delete_error, query_types, relations_error, relations_response, segments_error,
    AuthConfig, ChunkRelationsQuery,
};
use compass::create::new_collection;
use compass::embed::{choose_embedding, load_table, token_rows, usable};
use compass::errors::{collection_not_found, failed};
use compass::index::{
    cuda_available, gpu_available, CuvsHnswIndex, IndexError, IndexParams, LoadableIndex,
    VectorIndex,
};
use compass::metrics::{add, gauges, inc, render, Counters};
use compass::models::{DeleteResponse, RelationDirection, Timestamp};
use compass::node::NodeRole;
use compass::order::{standing, Standing};
use compass::text::{decimal_text, find_text, strip_text_prefix, text_contains};

#[test]
fn keys_open_the_interface() {
    assert!(ct_eq(b"abc", b"abc"));
    assert!(!ct_eq(b"abc", b"abd"));
    assert!(!ct_eq(b"abc", b"ab"));
    assert!(ct_eq(b"", b""));
    let locked = AuthConfig { expected_key: Some("k".to_string()) };
    assert!(authorized(&locked, Some("Bearer k")));
    assert!(!authorized(&locked, Some("Bearer kk")));
    assert!(!authorized(&locked, Some("bearer k")));
    assert!(!authorized(&locked, Some("k")));
    assert!(!authorized(&locked, None));
    let open = AuthConfig { expected_key: None };
    assert!(authorized(&open, None));
    assert_eq!(api_key(Some(String::new())), None);
    assert_eq!(api_key(Some("k".to_string())), Some("k".to_string()));
    assert_eq!(api_key(None), None);
}

#[test]
fn concurrency_is_bounded() {
    assert_eq!(max_concurrency(Some(8)), 8);
    assert_eq!(max_concurrency(Some(0)), usize::MAX >> 4);
    assert_eq!(max_concurrency(None), usize::MAX >> 4);
    assert_eq!(max_concurrency(Some(usize::MAX)), usize::MAX >> 4);
}

#[test]
fn errors_become_answers() {
    let missing = collection_not_found("docs");
    assert_eq!(
        error_response(&missing, 500),
        (404, "Collection 'docs' not found".to_string())
    );
    let e = failed("disk path");
    assert_eq!(
        error_response(&e, 500),
        (500, "internal error (see server logs)".to_string())
    );
    assert_eq!(error_response(&e, 400), (400, "disk path".to_string()));
    assert_eq!(relations_error(&missing).0, 404);
    assert_eq!(
        relations_error(&failed("A relation's source and target chunk must differ")).0,
        400
    );
    assert_eq!(
        relations_error(&e),
        (500, "internal error (see server logs)".to_string())
    );
    assert_eq!(segments_error(&missing).0, 404);
    assert_eq!(segments_error(&e), (500, "disk path".to_string()));
}

#[test]
fn deletes_are_answered() {
    assert_eq!(
        delete_chunk_response(7, 0, None).unwrap_err(),
        (404, "chunk 7 not found or already deleted".to_string())
    );
    let d = delete_chunk_response(7, 1, Some(3)).unwrap();
    assert_eq!((d.deleted, d.seq), (1, Some(3)));
    assert!(check_delete_request(0, 1).is_ok());
    assert_eq!(
        check_delete_request(0, 0).unwrap_err(),
        (400, "provide `ids` and/or `filters` to select chunks to delete".to_string())
    );
    let mut sum = DeleteResponse { deleted: 0, seq: None };
    add_deleted(&mut sum, 2, Some(5));
    add_deleted(&mut sum, 1, None);
    assert_eq!((sum.deleted, sum.seq), (3, Some(5)));
    assert_eq!(
        partial_delete_error(&failed("x"), 2),
        (
            500,
            "internal error (see server logs) (2 chunk(s) were already deleted by `ids` before \
             the error)"
                .to_string()
        )
    );
    assert_eq!(partial_delete_error(&collection_not_found("d"), 0).0, 404);
}

fn types(s: &str) -> Option<Vec<String>> {
    query_types(&ChunkRelationsQuery {
        direction: RelationDirection::default(),
        types: Some(s.to_string()),
    })
}

#[test]
fn relation_requests_are_checked() {
    assert_eq!(
        check_relations_request(0).unwrap_err(),
        (400, "relations must contain at least one edge".to_string())
    );
    assert!(check_relations_request(10_000).is_ok());
    assert_eq!(
        check_relations_request(10_001).unwrap_err().1,
        "too many relations in one request: 10001 (max 10000); split into batches"
    );
    assert_eq!(delete_relation_response(true).unwrap(), 204);
    assert_eq!(
        delete_relation_response(false).unwrap_err(),
        (404, "relation not found".to_string())
    );
    assert_eq!(created_response(vec![]).created, 0);
    assert_eq!(relations_response(vec![]).total, 0);
    assert_eq!(
        types("cites, supersedes "),
        Some(vec!["cites".to_string(), "supersedes".to_string()])
    );
    assert_eq!(types(",,"), None);
    assert_eq!(types(""), None);
    assert_eq!(types(" \u{3000}a b\t,"), Some(vec!["a b".to_string()]));
    assert_eq!(
        query_types(&ChunkRelationsQuery { direction: RelationDirection::Both, types: None }),
        None
    );
}

#[test]
fn collections_are_shown() {
    let c = new_collection(
        NodeRole::Full,
        "docs",
        false,
        None,
        Some(4),
        None,
        Timestamp { secs: 1, nanos: 0 },
    )
    .unwrap();
    let info = collection_to_info(&c);
    assert_eq!((info.name.as_str(), info.embedding_dims, info.chunk_count), ("docs", 4, 0));
    let spaces = list_vector_spaces(&c);
    assert_eq!(spaces.len(), 1);
    assert_eq!((spaces[0].name.as_str(), spaces[0].dims), ("default", 4));
    let s = idle_rebuild_status(Some(&c), "docs", "default").unwrap();
    assert_eq!(s.percent.bits, 100.0f64.to_bits());
    assert_eq!(s.status, "active");
    assert_eq!(
        idle_rebuild_status(Some(&c), "docs", "wide").unwrap_err().message(),
        "Vector space 'wide' not found"
    );
    assert_eq!(
        idle_rebuild_status(None, "docs", "wide").unwrap_err().message(),
        "Collection 'docs' not found"
    );

    let mut m = Counters::new();
    inc(&mut m.ingest_requests_total);
    add(&mut m.ingest_chunks_total, 12);
    m.search_requests_total = u64::MAX;
    inc(&mut m.search_requests_total);
    let text = render(&m, &gauges(&vec![c]));
    assert_eq!(
        text,
        "compass_ingest_requests_total 1\ncompass_ingest_chunks_total 12\n\
         compass_search_requests_total 0\ncompass_delete_requests_total 0\n\
         compass_refresh_fragments_applied_total 0\ncompass_refresh_reattaches_total 0\n\
         compass_attach_total 0\ncompass_attach_seconds_sum_millis 0\n\
         compass_compactions_total 0\ncompass_quarantined_chunks_total 0\n\
         compass_collection_chunks{collection=\"docs\"} 0\n\
         compass_collection_applied_seq{collection=\"docs\"} 0\n"
    );
}

#[test]
fn the_gpu_index_waits_for_its_build() {
    assert!(!gpu_available());
    assert!(cuda_available());
    let p = IndexParams::default();
    assert_eq!(
        (p.dims, p.capacity, p.connectivity, p.ef_construction, p.ef_search),
        (768, 0, 16, 128, 64)
    );
    let mut i = CuvsHnswIndex::new(IndexParams { dims: 2, ..p }).unwrap();
    assert!(i.is_empty());
    assert_eq!((i.len(), i.dims(), i.backend_name()), (0, 2, "cuvs-hnsw"));
    assert_eq!(i.chunk_at(5), 5);
    assert_eq!(
        i.build(&vec![vec![0, 0]], &vec![]).unwrap_err().message(),
        "backend error: vectors (1) and chunk_ids (0) length mismatch"
    );
    assert_eq!(
        i.build(&vec![vec![0]], &vec![1]).unwrap_err(),
        IndexError::DimMismatch { expected: 2, actual: 1 }
    );
    assert_eq!(
        i.add_batch(&vec![vec![0, 0]], &vec![1]).unwrap_err(),
        IndexError::Backend(
            "cuVS build failed: cuVS build path not yet wired in this build; see \
             crates/compass-vector-gpu/src/lib.rs"
                .to_string()
        )
    );
    assert_eq!(
        i.add(1, &vec![0, 0]).unwrap_err().message(),
        "unsupported: incremental add not supported on CAGRA-built indexes; rebuild via build()"
    );
    assert_eq!(
        i.search(&vec![0], 3).unwrap_err().message(),
        "dimension mismatch: expected 2, got 1"
    );
    assert_eq!(
        i.search(&vec![0, 0], 3).unwrap_err(),
        IndexError::Backend("search called before build".to_string())
    );
    assert_eq!(
        i.save("x").unwrap_err(),
        IndexError::Backend("save called before build".to_string())
    );
    assert_eq!(
        CuvsHnswIndex::load("x", p).unwrap_err().message(),
        "io error: cuVS deserialize failed: cuVS deserialize path not yet wired"
    );
    assert_eq!(
        IndexError::GpuUnavailable("none".to_string()).message(),
        "gpu unavailable: none"
    );
}

#[test]
fn the_best_usable_embedding_is_taken() {
    let zero = vec![0u32, (-0.0f32).to_bits()];
    let one = vec![0u32, 1.0f32.to_bits()];
    assert!(!usable(&zero) && !usable(&vec![]) && usable(&one));
    assert_eq!(choose_embedding(Some(one.clone()), None).unwrap(), one);
    assert_eq!(choose_embedding(Some(zero.clone()), Some(one.clone())).unwrap(), one);
    assert_eq!(
        choose_embedding(Some(zero), None).unwrap_err(),
        "No embedding model available. Download BGE-small or create a distilled model."
    );
}

fn safetensors_file(name: &str, shape: &str, data: &[u8]) -> Vec<u8> {
    let header = format!(
        "{{\"{name}\":{{\"dtype\":\"F16\",\"shape\":{shape},\"data_offsets\":[0,{}]}}}}",
        data.len()
    );
    let mut file = (header.len() as u64).to_le_bytes().to_vec();
    file.extend_from_slice(header.as_bytes());
    file.extend_from_slice(data);
    file
}

#[test]
fn token_tables_load_row_by_row() {
    let data = [1u8, 0, 2, 0, 0, 0x3c, 4, 1, 5, 0, 6, 0];
    assert_eq!(
        token_rows(2, 3, &data.to_vec()),
        vec![vec![1, 2, 0x3c00], vec![260, 5, 6]]
    );
    let t = load_table(&safetensors_file("embeddings", "[2,3]", &data)).unwrap();
    assert_eq!(t.dims, 3);
    assert_eq!(t.rows, vec![vec![1, 2, 0x3c00], vec![260, 5, 6]]);
    assert_eq!(t.known_tokens(&vec![1, 7, 0, 2]), vec![1, 0]);
    assert!(load_table(&safetensors_file("other", "[2,3]", &data)).is_none());
    assert!(load_table(&safetensors_file("embeddings", "[6]", &data)).is_none());
    assert!(load_table(&vec![1, 2, 3]).is_none());
}

fn with_header(header: &str, data: &[u8]) -> Vec<u8> {
    let mut file = (header.len() as u64).to_le_bytes().to_vec();
    file.extend_from_slice(header.as_bytes());
    file.extend_from_slice(data);
    file
}

#[test]
fn a_table_of_impossible_size_is_refused() {
    let huge = "{\"embeddings\":{\"dtype\":\"U8\",\"shape\":[18446744073709551600],\
                \"data_offsets\":[0,18446744073709551600]}}";
    assert!(load_table(&with_header(huge, &[])).is_none());
    let noted = "{\"__metadata__\":{\"id\":\"98765432109876543210987654321 \\\" 9\"},\
                 \"embeddings\":{\"dtype\":\"F16\",\"shape\":[1,1],\"data_offsets\":[0,2]}}";
    assert_eq!(load_table(&with_header(noted, &[1, 2])).unwrap().rows, vec![vec![513]]);
}

#[test]
fn texts() {
    assert_eq!(decimal_text(0), "0");
    assert_eq!(decimal_text(u64::MAX), "18446744073709551615");
    assert_eq!(find_text("aßcaß", "ß"), Some(1));
    assert_eq!(find_text("abc", ""), Some(0));
    assert!(text_contains("not found", "found"));
    assert!(!text_contains("not", "found"));
    assert_eq!(strip_text_prefix("Bearer k", "Bearer "), Some("k"));
    assert_eq!(strip_text_prefix("k", "Bearer "), None);
    assert_eq!(standing("a", "b"), Standing::Before);
    assert_eq!(standing("b", "a"), Standing::After);
    assert_eq!(standing("é", "é"), Standing::Same);
}
