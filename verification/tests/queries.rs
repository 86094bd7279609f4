use compass::cold::{cold_candidates, note_cold_search, serve_from, ServeFrom};
use compass::id_map::IdMap;
use compass::models::{
    ChunkRelation, DocumentChunk, FilterExplain, FilterValue, MetadataValue, RecencyConfig,
    RelationDirection, SearchRequest, Timestamp,
};
use compass::number::{score_rank, Number};
use compass::routing::answer_search;
use compass::search::{
    after_refresh, awaited_seq, build_hits, explain_plan, has_scoring, ids_of_candidates, keep_eligible,
    keep_top, live_candidates, plan_search, recency_of, top_ids, ScoredCandidate, SearchMode, VectorRun,
};
use compass::string_map::StringMap;
use std::collections::HashSet;

fn num(x: f64) -> Number {
    Number::from_bits(x.to_bits())
}

fn request(mode: &str) -> SearchRequest {
    SearchRequest {
        query: "q".to_string(),
        mode: mode.to_string(),
        vector_space: None,
        top_k: 10,
        query_vector: None,
        filters: StringMap::new(),
        score_weights: None,
        recency: None,
        recency_preset: None,
        recency_field: None,
        boosts: vec![],
        relationship_boost: None,
        include_relations: false,
        relation_direction: RelationDirection::Outgoing,
        relation_types: None,
        min_seq: None,
        explain: false,
    }
}

fn candidate(id: u64, score: f32, source: &str) -> ScoredCandidate {
    ScoredCandidate {
        chunk_id: id,
        base_score: score.to_bits(),
        final_score: score.to_bits(),
        source: source.to_string(),
    }
}

fn ids(v: &Vec<ScoredCandidate>) -> Vec<u64> {
    ids_of_candidates(v)
}

#[test]
fn a_request_names_its_indexes() {
    assert_eq!(SearchMode::from_str_param("fts"), SearchMode::Fts);
    assert_eq!(SearchMode::from_str_param("semantic"), SearchMode::Semantic);
    assert_eq!(SearchMode::from_str_param("hybrid"), SearchMode::Hybrid);
    assert!(SearchMode::Hybrid.asks_fts() && SearchMode::Hybrid.asks_vectors());
    assert!(!SearchMode::Fts.asks_vectors());
    assert!(!SearchMode::Semantic.asks_fts());

    let p = plan_search(&request("fts"), &None);
    assert_eq!((p.fetch, p.space.as_str(), p.filtered), (30, "default", false));
    let p = plan_search(&request("fts"), &Some("wide".to_string()));
    assert_eq!(p.space, "wide");
    let mut r = request("semantic");
    r.vector_space = Some("own".to_string());
    r.filters.insert(
        "a".to_string(),
        FilterValue::Exact(MetadataValue::Bool(true)),
    );
    let p = plan_search(&r, &Some("wide".to_string()));
    assert_eq!(p.space, "own");
    assert!(p.filtered);
    assert_eq!(p.mode, SearchMode::Semantic);
}

#[test]
fn explicit_recency_overrides_the_preset() {
    let mut r = request("fts");
    assert!(recency_of(&r).is_none());
    assert!(!has_scoring(&r));
    r.recency_preset = Some("mild".to_string());
    assert!(recency_of(&r).is_none());
    r.recency_field = Some("created_at".to_string());
    let c = recency_of(&r).unwrap();
    assert_eq!(c.field, "created_at");
    assert_eq!(c.half_life_days, num(30.0));
    assert_eq!(c.min_score, num(0.3));
    assert!(has_scoring(&r));
    r.recency = Some(RecencyConfig {
        field: "day".to_string(),
        half_life_days: num(1.0),
        min_score: num(0.0),
    });
    assert_eq!(recency_of(&r).unwrap().field, "day");
    r.recency = None;
    r.recency_preset = Some("unknown".to_string());
    assert!(recency_of(&r).is_none());
}

#[test]
fn recency_presets() {
    for (name, days, floor) in
        [("aggressive", 3.0, 0.05), ("recent", 7.0, 0.2), ("mild", 30.0, 0.3), ("archive", 90.0, 0.5)]
    {
        let c = RecencyConfig::from_preset(name, "f".to_string()).unwrap();
        assert_eq!((c.half_life_days, c.min_score), (num(days), num(floor)));
    }
    assert!(RecencyConfig::from_preset("none", "f".to_string()).is_none());
}

#[test]
fn waiting_for_a_write() {
    assert!(after_refresh(3, 4, false).is_ok());
    assert_eq!(
        after_refresh(4, 4, true).unwrap_err().message(),
        "min_seq 4 is beyond the collection's write history (4)"
    );
    assert_eq!(
        after_refresh(3, 4, true).unwrap_err().message(),
        "timed out waiting for min_seq 3 to be applied"
    );
}

#[test]
fn candidates_by_mode() {
    let fts = vec![(1u64, 1.0f32.to_bits()), (2, 0.5f32.to_bits())];
    let semantic = vec![(3u64, 0.9f32.to_bits())];
    let merged = || vec![candidate(1, 0.1, "both"), candidate(3, 0.2, "semantic")];
    let gone: HashSet<u64> = [1u64].into_iter().collect();
    let none: HashSet<u64> = HashSet::new();

    let c = live_candidates(SearchMode::Fts, &fts, &semantic, merged(), &none);
    assert_eq!(ids(&c), vec![1, 2]);
    assert_eq!(c[0].source, "fts");
    assert_eq!(c[1].final_score, 0.5f32.to_bits());
    let c = live_candidates(SearchMode::Semantic, &fts, &semantic, merged(), &none);
    assert_eq!(ids(&c), vec![3]);
    assert_eq!(c[0].source, "semantic");
    let c = live_candidates(SearchMode::Hybrid, &fts, &semantic, merged(), &gone);
    assert_eq!(ids(&c), vec![3]);
    let c = live_candidates(SearchMode::Hybrid, &vec![], &vec![], merged(), &none);
    assert!(c.is_empty());

    let eligible: HashSet<u64> = [2u64].into_iter().collect();
    assert_eq!(keep_eligible(fts.clone(), &eligible, true).len(), 1);
    assert_eq!(keep_eligible(fts, &eligible, false).len(), 2);
    assert_eq!(ids(&keep_top(merged(), 1)), vec![1]);
    assert_eq!(keep_top(merged(), 5).len(), 2);
}

fn chunk(id: u64, doc_type: &str, parent_id: Option<u64>) -> DocumentChunk {
    DocumentChunk {
        id,
        collection: "t".to_string(),
        file_id: format!("f{id}"),
        chunk_index: 0,
        page: None,
        text: String::new(),
        metadata: StringMap::new(),
        doc_type: doc_type.to_string(),
        parent_id,
        group_id: None,
        embeddings: StringMap::new(),
        embedding: None,
    }
}

#[test]
fn hits_carry_parents_and_relations() {
    let mut source = chunk(1, "source", None);
    source.metadata.insert("title".to_string(), MetadataValue::String("T".to_string()));
    let mut chunks = IdMap::new();
    chunks.insert(1, source);
    chunks.insert(2, chunk(2, "segment", Some(1)));
    let mut relations: IdMap<Vec<ChunkRelation>> = IdMap::new();
    relations.insert(
        2,
        vec![ChunkRelation {
            relation_id: "r".to_string(),
            source_chunk_id: 2,
            target_chunk_id: 8,
            target_document_id: None,
            relation_type: "cites".to_string(),
            target_status: "found".to_string(),
            metadata: StringMap::new(),
            created_at: Timestamp { secs: 0, nanos: 0 },
        }],
    );
    let live: HashSet<u64> = [1u64, 2].into_iter().collect();
    let candidates =
        vec![candidate(2, 0.5, "fts"), candidate(7, 0.4, "fts"), candidate(1, 0.3, "fts")];
    let hits = build_hits(&candidates, &chunks, &relations, &live, true);
    assert_eq!(hits.len(), 2);
    assert_eq!(hits[0].chunk.id, 2);
    assert_eq!(
        hits[0].parent_metadata.as_ref().unwrap().get("title"),
        Some(&MetadataValue::String("T".to_string()))
    );
    assert_eq!(hits[0].relations.as_ref().unwrap()[0].target_status, "missing");
    assert!(hits[1].parent_metadata.is_none());
    assert!(hits[1].relations.as_ref().unwrap().is_empty());
    let plain = build_hits(&candidates, &chunks, &relations, &live, false);
    assert!(plain[0].relations.is_none());
}

#[test]
fn explained_plans() {
    let filter = || FilterExplain {
        eligible_count: 3,
        universe_count: 10,
        selectivity: num(0.3),
    };
    let p = explain_plan(filter(), VectorRun::NotRun, 64);
    assert_eq!((p.ann.engine.as_str(), p.ann.candidates_inspected), ("none", None));
    assert_eq!(p.ann.ef_search_used, 64);
    assert_eq!(p.filter.eligible_count, 3);
    let p = explain_plan(filter(), VectorRun::Unfiltered, 64);
    assert_eq!((p.ann.engine.as_str(), p.ann.candidates_inspected), ("hnsw", None));
    let run = VectorRun::Filtered { used_hnsw: true, candidates_inspected: 9 };
    let p = explain_plan(filter(), run, 64);
    assert_eq!((p.ann.engine.as_str(), p.ann.candidates_inspected), ("hnsw", Some(9)));
    let run = VectorRun::Filtered { used_hnsw: false, candidates_inspected: 9 };
    let p = explain_plan(filter(), run, 64);
    assert_eq!((p.ann.engine.as_str(), p.ann.candidates_inspected), ("brute_force", None));
}

#[test]
fn numbers_compare_as_doubles_do() {
    let xs = [
        0.0, -0.0, 1.0, -1.0, 2040.0, 1e300, -1e300, f64::INFINITY, f64::NEG_INFINITY, f64::NAN,
        f64::MIN_POSITIVE, 5e-324,
    ];
    for a in xs {
        for b in xs {
            assert_eq!(num(a).less(num(b)), a < b, "{a} < {b}");
            assert_eq!(num(a).at_most(num(b)), a <= b, "{a} <= {b}");
            assert_eq!(num(a).equals(num(b)), a == b, "{a} == {b}");
            assert_eq!(
                num(a).total_rank() <= num(b).total_rank(),
                a.total_cmp(&b).is_le(),
                "{a} total {b}"
            );
        }
    }
    for i in [0i64, 1, -1, 5, i64::MAX, i64::MIN, (1 << 53) + 1, (1 << 53) + 3, 999_999_999_999] {
        assert_eq!(Number::from_int(i).bits, (i as f64).to_bits(), "{i}");
    }
    for (a, b) in [(0.5f32, 0.25f32), (0.0, -1.0), (-0.5, -0.75)] {
        assert!(score_rank(a.to_bits()) > score_rank(b.to_bits()));
    }
    assert_eq!(score_rank(0.0f32.to_bits()), score_rank((-0.0f32).to_bits()));
}

#[test]
fn defaults_of_requests() {
    assert_eq!(compass::models::default_batch_size(), 64);
    assert_eq!(compass::models::default_top_k(), 10);
    assert_eq!(compass::models::default_search_mode(), "hybrid");
    assert_eq!(compass::models::default_dims(), 384);
    assert_eq!(compass::models::default_embed_model(), "bge-small");
    assert_eq!(compass::models::default_doc_type(), "chunk");
    assert_eq!(compass::models::default_space_status(), "active");
    assert_eq!(compass::models::default_agg_mode(), "max");
    assert_eq!(compass::models::default_min_score(), num(0.1));
    assert_eq!(compass::models::default_boost_weight(), num(1.0));
    assert_eq!(compass::models::default_parent_weight(), num(0.3));
    assert_eq!(compass::models::default_sibling_weight(), num(0.1));
    assert_eq!(compass::models::default_rrf_k(), num(60.0));
    assert_eq!(compass::models::default_score_weight(), num(1.0));
}

#[test]
fn cold_collections_are_served_from_storage() {
    assert_eq!(
        serve_from("frozen", true, false, SearchMode::Semantic).unwrap(),
        ServeFrom::Storage
    );
    assert_eq!(
        serve_from("frozen", true, true, SearchMode::Fts).unwrap(),
        ServeFrom::Indexes
    );
    assert_eq!(
        serve_from("frozen", false, false, SearchMode::Fts).unwrap(),
        ServeFrom::Indexes
    );
    let e = serve_from("frozen", true, false, SearchMode::Fts).unwrap_err();
    assert!(e.message().contains("cold"));

    let mut chunks = IdMap::new();
    for id in [1u64, 3, 4] {
        let mut c = chunk(id, "chunk", None);
        let kind = if id % 2 == 0 { "even" } else { "odd" };
        c.metadata.insert("kind".to_string(), MetadataValue::String(kind.to_string()));
        chunks.insert(id, c);
    }
    let results: Vec<(u64, u32)> = vec![(2, 9), (3, 8), (4, 7), (1, 6)];
    let all = cold_candidates(&results, &chunks, &StringMap::new(), &StringMap::new(), 2);
    assert_eq!(ids(&all), vec![3, 4]);
    assert_eq!(all[0].source, "semantic-cold");
    let mut filters = StringMap::new();
    filters.insert(
        "kind".to_string(),
        FilterValue::Exact(MetadataValue::String("odd".to_string())),
    );
    let odd = cold_candidates(&results, &chunks, &filters, &StringMap::new(), 10);
    assert_eq!(ids(&odd), vec![3, 1]);

    let mut hits: StringMap<u64> = StringMap::new();
    assert!(!note_cold_search(&mut hits, "warmup", 2));
    assert!(note_cold_search(&mut hits, "warmup", 2));
    assert!(!note_cold_search(&mut hits, "warmup", 0));
    assert_eq!(hits.get("warmup"), Some(&3));
}

#[test]
fn an_answer_has_what_was_asked_for() {
    let mut req = request("fts");
    req.top_k = 2;
    let mut chunks = IdMap::new();
    chunks.insert(1, chunk(1, "chunk", None));
    chunks.insert(3, chunk(3, "chunk", None));
    let found = || vec![candidate(1, 3.0, "fts"), candidate(2, 2.0, "fts"), candidate(3, 1.0, "fts")];
    assert_eq!(top_ids(&found(), 2), vec![1, 2]);
    let live: HashSet<u64> = [1, 3].into_iter().collect();
    let plan = || {
        explain_plan(
            FilterExplain { eligible_count: 1, universe_count: 2, selectivity: num(0.5) },
            VectorRun::NotRun,
            64,
        )
    };
    let out = answer_search(&req, found(), &chunks, &IdMap::new(), &live, plan(), 7);
    assert_eq!((out.hits.len(), out.total, out.took_us), (1, 2, 7));
    assert_eq!(out.hits[0].chunk.id, 1);
    assert!(out.hits[0].relations.is_none() && out.explain.is_none());
    req.explain = true;
    req.include_relations = true;
    req.top_k = 9;
    let out = answer_search(&req, found(), &chunks, &IdMap::new(), &live, plan(), 0);
    assert_eq!((out.hits.len(), out.total), (2, 3));
    assert_eq!(out.explain.unwrap().ann.engine, "none");
    assert!(out.hits.iter().all(|h| h.relations.is_some()));

    assert_eq!(awaited_seq(Some(999), false), None);
    assert_eq!(awaited_seq(Some(5), true), Some(5));
    assert_eq!(awaited_seq(None, true), None);
}
