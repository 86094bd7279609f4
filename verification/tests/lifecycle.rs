use compass::bucket::{
    activate_space, add_space, after_cas, choose_default, config_key, expected_dims, manifest_key,
    remove_space, spaces_equal, BucketConfig, CasAction, CasOutcome,
};
use compass::create::{
    after_create_step, check_create_request, lost_create_race, new_collection, new_collection_now,
    partition_config, partition_is_ready, seeds_local_allocator, CreateAction, CreateStage,
    StepOutcome,
};
use compass::errors::{failed, space_not_found};
use compass::models::{Collection, CollectionConfig, Timestamp, VectorSpaceConfig};
use compass::node::{
    attach_locked, attach_needed, attach_probed, boot_plan, check_deletable, eviction_stands,
    eviction_victim, loads_collections, next_lru_tick, node_options, partitions_of, runs_refresher,
    unattached_names, visible_collections, AttachStep, BootAction, NodeRole,
};
use compass::string_map::StringMap;

fn at() -> Timestamp {
    Timestamp { secs: 1_700_000_000, nanos: 5 }
}

fn made(name: &str) -> Collection {
    new_collection(NodeRole::Full, name, false, None, Some(4), None, at()).unwrap()
}

fn space(dims: usize) -> VectorSpaceConfig {
    VectorSpaceConfig { dims, model: "m".to_string(), status: "active".to_string() }
}

fn texts(v: &[&str]) -> Vec<String> {
    v.iter().map(|s| s.to_string()).collect()
}

#[test]
fn a_new_collection_has_one_space() {
    let c = made("docs");
    assert_eq!(c.name, "docs");
    assert_eq!(c.created_at, at());
    assert_eq!(c.embedding_dims, 4);
    assert_eq!(c.default_vector_space.as_deref(), Some("default"));
    assert_eq!(c.vector_spaces.get("default").unwrap().dims, 4);
    assert_eq!(c.vector_spaces.get("default").unwrap().status, "active");
    assert_eq!((c.chunk_count, c.next_id, c.applied_seq), (0, 0, 0));
    let d = new_collection(NodeRole::Full, "docs", false, None, None, None, at()).unwrap();
    assert_eq!(d.embedding_dims, 384);
}

#[test]
fn creation_is_stamped_with_the_time() {
    let c = new_collection_now(NodeRole::Full, "docs", false, None, None, None).unwrap();
    assert!(c.created_at.secs > 1_600_000_000);
    assert!(c.created_at.nanos < 1_000_000_000);
}

#[test]
fn creation_refusals() {
    let writer = new_collection(NodeRole::Writer, "docs", false, None, None, None, at());
    assert_eq!(
        writer.unwrap_err().message(),
        "this node runs in writer role; create collections via a serving node"
    );
    let exists = new_collection(NodeRole::Full, "docs", true, None, None, None, at());
    assert_eq!(exists.unwrap_err().message(), "Collection 'docs' already exists");
    assert!(new_collection(NodeRole::Full, "a b", false, None, None, None, at()).is_err());
    assert!(check_create_request("docs--part--a", &None).is_err());
    assert!(check_create_request("docs", &None).is_ok());
}

#[test]
fn creation_is_all_or_nothing() {
    let done = |s| after_create_step(s, "docs", StepOutcome::Done);
    assert!(matches!(
        done(CreateStage::WriteConfig),
        CreateAction::Next(CreateStage::InitNamespace)
    ));
    assert!(matches!(
        done(CreateStage::InitNamespace),
        CreateAction::Next(CreateStage::SeedAllocator)
    ));
    assert!(matches!(done(CreateStage::SeedAllocator), CreateAction::Finished));
    match after_create_step(
        CreateStage::InitNamespace,
        "docs",
        StepOutcome::Failed("disk".to_string()),
    ) {
        CreateAction::Undo { delete_config, error, .. } => {
            assert!(delete_config);
            assert!(!error.is_not_found());
        }
        other => panic!("{other:?}"),
    }
}

#[test]
fn partitions_inherit_the_model() {
    let parent = CollectionConfig {
        embed_model: "bge".to_string(),
        partition_by: Some("tenant".to_string()),
    };
    let c = partition_config(&parent);
    assert_eq!(c.embed_model, "bge");
    assert!(c.partition_by.is_none());
    assert!(partition_is_ready(false, true, false));
    assert!(partition_is_ready(true, false, true));
    assert!(!partition_is_ready(false, false, true));
    assert!(lost_create_race(&failed("Collection 'x' already exists")));
    assert!(!lost_create_race(&failed("disk full")));
    assert!(seeds_local_allocator(false, "docs", &parent));
    assert!(!seeds_local_allocator(true, "docs", &parent));
}

#[test]
fn vector_spaces_come_and_go() {
    let mut spaces: StringMap<VectorSpaceConfig> = StringMap::new();
    spaces.insert("default".to_string(), space(4));
    let before = spaces.clone();
    add_space(&mut spaces, "wide", 8, "big").unwrap();
    assert_eq!(spaces.get("wide").unwrap().status, "building");
    assert!(!spaces_equal(&before, &spaces));
    assert_eq!(
        add_space(&mut spaces, "wide", 8, "big").unwrap_err().message(),
        "Vector space 'wide' already exists"
    );
    activate_space(&mut spaces, "wide");
    assert_eq!(spaces.get("wide").unwrap().status, "active");
    assert_eq!(expected_dims(&spaces, "wide", 4), 8);
    assert_eq!(expected_dims(&spaces, "none", 4), 4);

    let mut default_space = Some("default".to_string());
    assert_eq!(
        remove_space(&mut spaces, &default_space, "default").unwrap_err().message(),
        "Cannot delete the default vector space. Switch default first."
    );
    assert!(spaces.contains_key("default"));
    assert_eq!(
        choose_default(&spaces, &mut default_space, "none").unwrap_err().message(),
        space_not_found("none").message()
    );
    choose_default(&spaces, &mut default_space, "wide").unwrap();
    assert_eq!(default_space.as_deref(), Some("wide"));
    remove_space(&mut spaces, &default_space, "default").unwrap();
    assert!(!spaces.contains_key("default"));
}

#[test]
fn bucket_configuration_round_trip() {
    let c = made("docs");
    let b = BucketConfig::from_collection(&c);
    assert_eq!(config_key("docs"), "docs/collection.json");
    assert_eq!(manifest_key("docs"), "docs/manifest");
    let p = b.for_partition("docs--part--a");
    assert_eq!(p.name, "docs--part--a");
    assert!(p.config.partition_by.is_none());
    let back = b.into_collection();
    assert_eq!(back.name, "docs");
    assert_eq!(back.embedding_dims, 4);
    assert!(spaces_equal(&back.vector_spaces, &c.vector_spaces));
}

#[test]
fn conditional_writes_give_up_after_ten_attempts() {
    assert!(matches!(after_cas(1, CasOutcome::Written), CasAction::Done));
    assert!(matches!(after_cas(9, CasOutcome::Conflict), CasAction::Retry));
    match after_cas(10, CasOutcome::Conflict) {
        CasAction::Fail(e) => assert_eq!(
            e.message(),
            "bucket config CAS failed after max retries (persistent contention)"
        ),
        other => panic!("{other:?}"),
    }
    assert!(matches!(
        after_cas(1, CasOutcome::Failed("x".to_string())),
        CasAction::Fail(_)
    ));
}

#[test]
fn roles_and_options() {
    assert_eq!(NodeRole::from_setting(Some("writer")), NodeRole::Writer);
    assert_eq!(NodeRole::from_setting(Some("reader")), NodeRole::Full);
    assert_eq!(NodeRole::from_setting(None), NodeRole::Full);
    let local = node_options("local-disk", NodeRole::Full, true, 3);
    assert!(!local.cloud_mode);
    assert!(loads_collections(&local));
    let cloud = node_options("object-store:s3", NodeRole::Full, true, 3);
    assert!(cloud.cloud_mode && cloud.lazy_attach);
    assert!(runs_refresher(&cloud, 5));
    assert!(!runs_refresher(&cloud, 0));
    assert!(!runs_refresher(&local, 5));
}

#[test]
fn start_up_registers_or_rebuilds() {
    let lazy = node_options("object-store:s3", NodeRole::Full, true, 0);
    let found = texts(&["a", "b"]);
    let plan = boot_plan(&lazy, &found, &texts(&["a"]));
    assert!(plan.iter().any(|x| matches!(x, BootAction::Register(n) if n == "b")));
    let eager = node_options("object-store:s3", NodeRole::Full, false, 0);
    let plan = boot_plan(&eager, &found, &texts(&["a"]));
    assert_eq!(plan.len(), 1);
    assert!(matches!(&plan[0], BootAction::Rebuild(n) if n == "b"));
}

#[test]
fn attaching_on_demand() {
    let lazy = node_options("object-store:s3", NodeRole::Full, true, 0);
    assert!(matches!(attach_needed(&lazy, "docs", true), AttachStep::Ready));
    assert!(matches!(attach_needed(&lazy, "docs", false), AttachStep::Lock));
    assert!(matches!(attach_locked("docs", true, false), Ok(AttachStep::Ready)));
    assert!(matches!(attach_locked("docs", false, true), Ok(AttachStep::Rebuild)));
    assert!(matches!(attach_locked("docs", false, false), Ok(AttachStep::Probe)));
    assert!(attach_probed("docs", false, false).unwrap_err().is_not_found());
    assert!(matches!(attach_probed("docs", true, false), Ok(AttachStep::Rebuild)));
}

#[test]
fn the_least_recently_used_collection_is_evicted() {
    let attached: Vec<(String, u64)> =
        vec![("a".to_string(), 5), ("b".to_string(), 2), ("c".to_string(), 9)];
    assert_eq!(eviction_victim(2, &attached, "c"), Some("b".to_string()));
    assert_eq!(eviction_victim(3, &attached, "c"), None);
    assert!(eviction_stands(2, 3, true));
    assert!(!eviction_stands(2, 2, true));
    assert!(!eviction_stands(2, 3, false));
    let mut tick: u64 = 1;
    assert_eq!(next_lru_tick(&mut tick), 1);
    assert_eq!(next_lru_tick(&mut tick), 2);
}

#[test]
fn listing_hides_partitions() {
    let v = visible_collections(vec![made("docs"), made("docs--part--a")]);
    assert_eq!(v.len(), 1);
    assert_eq!(v[0].name, "docs");
    assert_eq!(
        unattached_names(true, &texts(&["a"]), &texts(&["a", "b", "docs--part--x"])),
        texts(&["b"])
    );
    assert!(unattached_names(false, &texts(&["a"]), &texts(&["b"])).is_empty());
    assert_eq!(
        partitions_of("docs", &texts(&["docs--part--a", "docs2--part--a", "docs", "docs--part--b"])),
        texts(&["docs--part--a", "docs--part--b"])
    );
    assert!(check_deletable("docs", false, false, false).unwrap_err().is_not_found());
    assert!(check_deletable("docs", false, false, true).is_ok());
}
