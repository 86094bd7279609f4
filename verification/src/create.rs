//! Creating collections and partitions, locally and in object storage.
use crate::clock::now;
use crate::duplicate::text_view;
use crate::errors::{failed, failure, EngineError, ErrorView};
use crate::models::{
    Collection, CollectionConfig, CollectionView, ConfigView, SpaceView, Timestamp,
    VectorSpaceConfig,
};
use crate::names::{invalid_name, valid_name, validate_name_segment};
use crate::node::NodeRole;
use crate::partitions::{is_partition_ns, separator, PART_SEP};
use crate::string_map::StringMap;
use crate::text::{contains_text, own, text_contains};
use vstd::prelude::*;
use vstd::string::*;

verus! {

/// The error for a name that a user may not give a collection.
pub open spec fn reserved_name(name: Seq<char>) -> ErrorView {
    failure(
        "Collection name '"@ + name + "' contains the reserved partition separator '"@
            + separator() + "'"@,
    )
}

/// What users may not ask for, before anything else is looked at: a name with
/// the partition separator, or partitioning by a field without a name.
pub open spec fn request_error(name: Seq<char>, config: Option<ConfigView>) -> Option<ErrorView> {
    if contains_text(name, separator()) {
        Some(reserved_name(name))
    } else if config is Some && config->0.partition_by == Some(Seq::<char>::empty()) {
        Some(failure("partition_by must name a metadata field"@))
    } else {
        None
    }
}

/// What an optional configuration says.
pub open spec fn config_view(c: Option<CollectionConfig>) -> Option<ConfigView> {
    match c {
        Some(c) => Some(c@),
        None => None,
    }
}

/// Refuses what users may not ask for.
pub fn check_create_request(name: &str, config: &Option<CollectionConfig>) -> (r: Result<
    (),
    EngineError,
>)
    ensures
        r is Ok <==> request_error(name@, config_view(*config)) is None,
        r matches Err(e) ==> request_error(name@, config_view(*config)) == Some(e@),
{
    if is_partition_ns(name) {
        let mut s = own("Collection name '");
        s.append(name);
        s.append("' contains the reserved partition separator '");
        s.append(PART_SEP);
        s.append("'");
        return Err(EngineError::Failed(s));
    }
    if let Some(cfg) = config {
        if let Some(field) = &cfg.partition_by {
            if field.as_str().is_empty() {
                proof {
                    assert(field@ =~= Seq::<char>::empty());
                }
                return Err(failed("partition_by must name a metadata field"));
            }
        }
    }
    Ok(())
}

/// What stands in the way of a new collection on this node.
pub open spec fn create_error(role: NodeRole, name: Seq<char>, exists_here: bool) -> Option<
    ErrorView,
> {
    if role == NodeRole::Writer {
        Some(failure("this node runs in writer role; create collections via a serving node"@))
    } else if !valid_name(name) {
        Some(invalid_name(name, "Collection"@))
    } else if exists_here {
        Some(failure("Collection '"@ + name + "' already exists"@))
    } else {
        None
    }
}

/// The vector spaces of a new collection: those given, else one named "default".
pub open spec fn initial_spaces(
    given: Option<Map<Seq<char>, SpaceView>>,
    dims: Option<usize>,
) -> Map<Seq<char>, SpaceView> {
    match given {
        Some(m) => m,
        None => Map::empty().insert(
            "default"@,
            SpaceView {
                dims: if dims is Some {
                    dims->0
                } else {
                    384
                },
                model: "bge-small-en-v1.5"@,
                status: "active"@,
            },
        ),
    }
}

/// What optional vector spaces say.
pub open spec fn spaces_given(o: Option<StringMap<VectorSpaceConfig>>) -> Option<
    Map<Seq<char>, SpaceView>,
> {
    match o {
        Some(m) => Some(m@),
        None => None,
    }
}

/// A default space and the dimensions that go with it: one of the spaces with
/// its dimensions, or none and 384 when there are no spaces.
pub open spec fn is_default_choice(
    spaces: Map<Seq<char>, SpaceView>,
    space: Option<Seq<char>>,
    dims: usize,
) -> bool {
    match space {
        Some(s) => spaces.contains_key(s) && dims == spaces[s].dims,
        None => spaces == Map::<Seq<char>, SpaceView>::empty() && dims == 384,
    }
}

/// Chooses a default space: the first in dictionary order.
fn default_choice(spaces: &StringMap<VectorSpaceConfig>) -> (r: (Option<String>, usize))
    ensures
        is_default_choice(spaces@, text_view(r.0), r.1),
{
    if spaces.is_empty() {
        (None, 384)
    } else {
        (Some(spaces.key_at(0).clone()), spaces.value_at(0).dims)
    }
}

/// A new collection with nothing in it.
pub open spec fn is_new_collection(
    c: CollectionView,
    name: Seq<char>,
    given: Option<Map<Seq<char>, SpaceView>>,
    dims: Option<usize>,
    config: Option<ConfigView>,
    now: Timestamp,
) -> bool {
    &&& c.name == name
    &&& c.created_at == now
    &&& c.vector_spaces == initial_spaces(given, dims)
    &&& is_default_choice(c.vector_spaces, c.default_vector_space, c.embedding_dims)
    &&& c.chunk_count == 0
    &&& c.next_id == 0
    &&& c.applied_seq == 0
    &&& c.config == (match config {
        Some(x) => x,
        None => ConfigView { embed_model: Seq::empty(), partition_by: None },
    })
}

/// The metadata of a new collection, or what stands in its way.
pub fn new_collection(
    role: NodeRole,
    name: &str,
    exists_here: bool,
    vector_spaces: Option<StringMap<VectorSpaceConfig>>,
    embedding_dims: Option<usize>,
    config: Option<CollectionConfig>,
    now: Timestamp,
) -> (r: Result<Collection, EngineError>)
    ensures
        r is Ok <==> create_error(role, name@, exists_here) is None,
        r matches Err(e) ==> create_error(role, name@, exists_here) == Some(e@),
        r matches Ok(c) ==> is_new_collection(
            c@,
            name@,
            spaces_given(vector_spaces),
            embedding_dims,
            config_view(config),
            now,
        ),
{
    match role {
        NodeRole::Writer => {
            return Err(
                failed("this node runs in writer role; create collections via a serving node"),
            );
        },
        NodeRole::Full => {},
    }
    match validate_name_segment(name, "Collection") {
        Ok(()) => {},
        Err(e) => {
            return Err(e);
        },
    }
    if exists_here {
        let mut s = own("Collection '");
        s.append(name);
        s.append("' already exists");
        return Err(EngineError::Failed(s));
    }
    let spaces: StringMap<VectorSpaceConfig> = match vector_spaces {
        Some(m) => m,
        None => {
            let dims: usize = match embedding_dims {
                Some(d) => d,
                None => 384,
            };
            let mut m: StringMap<VectorSpaceConfig> = StringMap::new();
            m.insert(
                own("default"),
                VectorSpaceConfig {
                    dims,
                    model: own("bge-small-en-v1.5"),
                    status: own("active"),
                },
            );
            m
        },
    };
    let (default_space, dims) = default_choice(&spaces);
    let config: CollectionConfig = match config {
        Some(c) => c,
        None => CollectionConfig::default(),
    };
    Ok(
        Collection {
            name: own(name),
            created_at: now,
            vector_spaces: spaces,
            default_vector_space: default_space,
            embedding_dims: dims,
            chunk_count: 0,
            next_id: 0,
            config,
            applied_seq: 0,
        },
    )
}

/// The metadata of a collection created now, or what stands in its way.
pub fn new_collection_now(
    role: NodeRole,
    name: &str,
    exists_here: bool,
    vector_spaces: Option<StringMap<VectorSpaceConfig>>,
    embedding_dims: Option<usize>,
    config: Option<CollectionConfig>,
) -> (r: Result<Collection, EngineError>)
    ensures
        r is Ok <==> create_error(role, name@, exists_here) is None,
        r matches Err(e) ==> create_error(role, name@, exists_here) == Some(e@),
        r matches Ok(c) ==> is_new_collection(
            c@,
            name@,
            spaces_given(vector_spaces),
            embedding_dims,
            config_view(config),
            c.created_at,
        ),
{
    let at = now();
    new_collection(role, name, exists_here, vector_spaces, embedding_dims, config, at)
}

// ── Making the collection durable ───────────────────────────────────────

/// Where the creation of a collection in object storage stands.
#[derive(Debug, Clone, Copy, PartialEq, Eq, Structural)]
pub enum CreateStage {
    /// Its configuration is being written, if there is none yet.
    WriteConfig,
    /// Its empty manifest is being written, if there is none yet.
    InitNamespace,
    /// Its id allocator is being seeded.
    SeedAllocator,
}

/// How a step of a creation went.
#[derive(Debug)]
pub enum StepOutcome {
    Done,
    /// Something was there already; the text is the error's.
    AlreadyExists(String),
    Failed(String),
}

/// What to do after a step of a creation.
#[derive(Debug)]
pub enum CreateAction {
    /// Go on with this stage.
    Next(CreateStage),
    /// The collection is created.
    Finished,
    /// Undo and report the error. The local collection goes in any case.
    Undo { delete_config: bool, delete_namespace: bool, error: EngineError },
}

/// What a creation does after a step.
#[verifier::ext_equal]
pub enum CreateView {
    Next(CreateStage),
    Finished,
    Undo { delete_config: bool, delete_namespace: bool, error: ErrorView },
}

impl View for CreateAction {
    type V = CreateView;

    open spec fn view(&self) -> CreateView {
        match self {
            CreateAction::Next(s) => CreateView::Next(*s),
            CreateAction::Finished => CreateView::Finished,
            CreateAction::Undo { delete_config, delete_namespace, error } => CreateView::Undo {
                delete_config: *delete_config,
                delete_namespace: *delete_namespace,
                error: error@,
            },
        }
    }
}

/// What a creation does after a step. A configuration that was there before is
/// left alone; one that this creation wrote goes when the namespace turns out
/// to hold data. Partitions draw ids from their parent and seed no allocator.
pub open spec fn created(stage: CreateStage, name: Seq<char>, outcome: StepOutcome) -> CreateView {
    match stage {
        CreateStage::WriteConfig => match outcome {
            StepOutcome::Done => CreateView::Next(CreateStage::InitNamespace),
            StepOutcome::AlreadyExists(_) => CreateView::Undo {
                delete_config: false,
                delete_namespace: false,
                error: failure("Collection '"@ + name + "' already exists in object storage"@),
            },
            StepOutcome::Failed(t) => CreateView::Undo {
                delete_config: false,
                delete_namespace: false,
                error: failure("bucket config write failed: "@ + t@),
            },
        },
        CreateStage::InitNamespace => match outcome {
            StepOutcome::Done => if contains_text(name, separator()) {
                CreateView::Finished
            } else {
                CreateView::Next(CreateStage::SeedAllocator)
            },
            StepOutcome::AlreadyExists(_) => CreateView::Undo {
                delete_config: true,
                delete_namespace: false,
                error: failure("namespace '"@ + name + "' already has data in object storage"@),
            },
            StepOutcome::Failed(t) => CreateView::Undo {
                delete_config: true,
                delete_namespace: false,
                error: failure("bucket manifest init failed: "@ + t@),
            },
        },
        CreateStage::SeedAllocator => match outcome {
            StepOutcome::Done => CreateView::Finished,
            StepOutcome::AlreadyExists(t) => CreateView::Undo {
                delete_config: false,
                delete_namespace: true,
                error: failure("id allocator seed failed: "@ + t@),
            },
            StepOutcome::Failed(t) => CreateView::Undo {
                delete_config: false,
                delete_namespace: true,
                error: failure("id allocator seed failed: "@ + t@),
            },
        },
    }
}

fn prefixed_error(prefix: &str, text: &str) -> (r: EngineError)
    ensures
        r@ == failure(prefix@ + text@),
{
    let mut s = own(prefix);
    s.append(text);
    EngineError::Failed(s)
}

fn named_error(before: &str, name: &str, after: &str) -> (r: EngineError)
    ensures
        r@ == failure(before@ + name@ + after@),
{
    let mut s = own(before);
    s.append(name);
    s.append(after);
    EngineError::Failed(s)
}

/// What to do after a step of a creation in object storage.
pub fn after_create_step(stage: CreateStage, name: &str, outcome: StepOutcome) -> (r: CreateAction)
    ensures
        r@ == created(stage, name@, outcome),
{
    match stage {
        CreateStage::WriteConfig => match outcome {
            StepOutcome::Done => CreateAction::Next(CreateStage::InitNamespace),
            StepOutcome::AlreadyExists(_) => CreateAction::Undo {
                delete_config: false,
                delete_namespace: false,
                error: named_error("Collection '", name, "' already exists in object storage"),
            },
            StepOutcome::Failed(t) => CreateAction::Undo {
                delete_config: false,
                delete_namespace: false,
                error: prefixed_error("bucket config write failed: ", t.as_str()),
            },
        },
        CreateStage::InitNamespace => match outcome {
            StepOutcome::Done => {
                if is_partition_ns(name) {
                    CreateAction::Finished
                } else {
                    CreateAction::Next(CreateStage::SeedAllocator)
                }
            },
            StepOutcome::AlreadyExists(_) => CreateAction::Undo {
                delete_config: true,
                delete_namespace: false,
                error: named_error("namespace '", name, "' already has data in object storage"),
            },
            StepOutcome::Failed(t) => CreateAction::Undo {
                delete_config: true,
                delete_namespace: false,
                error: prefixed_error("bucket manifest init failed: ", t.as_str()),
            },
        },
        CreateStage::SeedAllocator => match outcome {
            StepOutcome::Done => CreateAction::Finished,
            StepOutcome::AlreadyExists(t) => CreateAction::Undo {
                delete_config: false,
                delete_namespace: true,
                error: prefixed_error("id allocator seed failed: ", t.as_str()),
            },
            StepOutcome::Failed(t) => CreateAction::Undo {
                delete_config: false,
                delete_namespace: true,
                error: prefixed_error("id allocator seed failed: ", t.as_str()),
            },
        },
    }
}

/// Whether a node without object storage seeds an id allocator for a new
/// collection: partitioned collections need one for their partitions to share.
pub fn seeds_local_allocator(cloud_mode: bool, name: &str, config: &CollectionConfig) -> (r: bool)
    ensures
        r == (!cloud_mode && config@.partition_by is Some && !contains_text(name@, separator())),
{
    !cloud_mode && config.partition_by.is_some() && !is_partition_ns(name)
}

// ── Partitions on first sight ───────────────────────────────────────────

/// The configuration of a new partition: the parent's embedding model, itself
/// not partitioned.
pub fn partition_config(parent: &CollectionConfig) -> (r: CollectionConfig)
    ensures
        r@ == (ConfigView { embed_model: parent@.embed_model, partition_by: None }),
{
    CollectionConfig { embed_model: parent.embed_model.clone(), partition_by: None }
}

/// Whether a partition's namespace is there for use already: attached, or, with
/// object storage, registered for attaching.
pub fn partition_is_ready(cloud_mode: bool, attached: bool, registered: bool) -> (r: bool)
    ensures
        r == (attached || (cloud_mode && registered)),
{
    attached || (cloud_mode && registered)
}

/// Whether a failed creation of a partition means that another request created
/// it first.
pub fn lost_create_race(e: &EngineError) -> (r: bool)
    ensures
        r == contains_text(e@.text, "already"@),
{
    text_contains(e.message().as_str(), "already")
}

// ── Laws ────────────────────────────────────────────────────────────────

/// A creation in object storage ends with everything in place or with nothing
/// of it: what was written so far is removed whenever a step fails, and a
/// configuration or data of someone else never is.
pub proof fn law_create_is_all_or_nothing(stage: CreateStage, name: Seq<char>, outcome: StepOutcome)
    ensures
        created(stage, name, outcome) is Undo <==> !(outcome is Done),
        stage == CreateStage::WriteConfig && created(stage, name, outcome) is Undo ==> created(
            stage,
            name,
            outcome,
        ) matches CreateView::Undo { delete_config: false, delete_namespace: false, error: _ },
        stage == CreateStage::InitNamespace && created(stage, name, outcome) is Undo ==> created(
            stage,
            name,
            outcome,
        ) matches CreateView::Undo { delete_config: true, delete_namespace: false, error: _ },
        stage == CreateStage::SeedAllocator && created(stage, name, outcome) is Undo ==> created(
            stage,
            name,
            outcome,
        ) matches CreateView::Undo { delete_config: false, delete_namespace: true, error: _ },
{
}

/// Every way in which another request can have been first makes an error that is
/// recognised as a lost race.
pub proof fn law_lost_races_are_recognised(name: Seq<char>, t: String)
    ensures
        contains_text(create_error(NodeRole::Full, name, true)->0.text, "already"@) <== valid_name(
            name,
        ),
        contains_text(
            created(CreateStage::WriteConfig, name, StepOutcome::AlreadyExists(t))->error.text,
            "already"@,
        ),
        contains_text(
            created(CreateStage::InitNamespace, name, StepOutcome::AlreadyExists(t))->error.text,
            "already"@,
        ),
{
    reveal_strlit("already");
    reveal_strlit("' already exists");
    reveal_strlit("' already exists in object storage");
    reveal_strlit("' already has data in object storage");
    let w = "already"@;
    let a = "Collection '"@ + name + "' already exists"@;
    let i: int = ("Collection '"@ + name).len() as int + 2;
    assert(a.subrange(i, i + 7) =~= w);
    assert(crate::text::occurs_at(a, w, i));
    let b = "Collection '"@ + name + "' already exists in object storage"@;
    assert(b.subrange(i, i + 7) =~= w);
    assert(crate::text::occurs_at(b, w, i));
    let c = "namespace '"@ + name + "' already has data in object storage"@;
    let j: int = ("namespace '"@ + name).len() as int + 2;
    assert(c.subrange(j, j + 7) =~= w);
    assert(crate::text::occurs_at(c, w, j));
}

/// A new collection has the name, the date and the configuration given, holds nothing, and
/// has the vector spaces given, or else one named `default`, as wide as asked for, or 384
/// components wide.
pub proof fn law_new_collection_is_as_asked(
    c: CollectionView,
    name: Seq<char>,
    given: Option<Map<Seq<char>, SpaceView>>,
    dims: Option<usize>,
    config: Option<ConfigView>,
    now: Timestamp,
    s: Seq<char>,
)
    requires
        is_new_collection(c, name, given, dims, config, now),
    ensures
        c.name == name && c.created_at == now,
        c.chunk_count == 0 && c.next_id == 0 && c.applied_seq == 0,
        config matches Some(x) ==> c.config == x,
        config is None ==> c.config.partition_by is None && c.config.embed_model.len() == 0,
        given matches Some(m) ==> c.vector_spaces == m,
        given is None ==> (c.vector_spaces.contains_key(s) <==> s == "default"@),
        given is None ==> c.vector_spaces["default"@].status == "active"@
            && c.vector_spaces["default"@].model == "bge-small-en-v1.5"@,
        given is None ==> c.default_vector_space == Some("default"@),
        given is None && dims is Some ==> c.vector_spaces["default"@].dims == dims->0
            && c.embedding_dims == dims->0,
        given is None && dims is None ==> c.vector_spaces["default"@].dims == 384
            && c.embedding_dims == 384,
        c.default_vector_space matches Some(d) ==> c.vector_spaces.contains_key(d)
            && c.embedding_dims == c.vector_spaces[d].dims,
        c.vector_spaces.contains_key(s) ==> c.default_vector_space is Some,
        c.default_vector_space is None ==> c.embedding_dims == 384,
{
    if given is None {
        assert(c.vector_spaces.contains_key("default"@));
    }
    if c.vector_spaces.contains_key(s) && c.default_vector_space is None {
        assert(!Map::<Seq<char>, SpaceView>::empty().contains_key(s));
    }
}

/// A request is refused for a name with the partition separator in it, for partitioning by
/// a field without a name, and for nothing else.
pub proof fn law_refused_requests(name: Seq<char>, config: Option<ConfigView>)
    ensures
        request_error(name, config) is Some <==> contains_text(name, "--part--"@) || (
        config matches Some(c) && c.partition_by matches Some(f) && f.len() == 0),
        request_error(name, config) matches Some(e) ==> !e.not_found,
{
    if let Some(c) = config {
        if let Some(f) = c.partition_by {
            if f.len() == 0 {
                assert(f =~= Seq::<char>::empty());
            }
        }
    }
}

/// A collection is created by a serving node, under a valid name, and where there is none of
/// that name, and under no other condition.
pub proof fn law_who_creates(role: NodeRole, name: Seq<char>, exists_here: bool)
    ensures
        create_error(role, name, exists_here) is None <==> role != NodeRole::Writer && valid_name(
            name,
        ) && !exists_here,
        create_error(role, name, exists_here) matches Some(e) ==> !e.not_found,
{
}

/// A creation writes the configuration, then the manifest, then seeds the ids, which the
/// partition of a collection does not do: it shares its parent's.
pub proof fn law_create_goes_in_order(name: Seq<char>)
    ensures
        created(CreateStage::WriteConfig, name, StepOutcome::Done) == CreateView::Next(
            CreateStage::InitNamespace,
        ),
        contains_text(name, "--part--"@) ==> created(
            CreateStage::InitNamespace,
            name,
            StepOutcome::Done,
        ) is Finished,
        !contains_text(name, "--part--"@) ==> created(
            CreateStage::InitNamespace,
            name,
            StepOutcome::Done,
        ) == CreateView::Next(CreateStage::SeedAllocator),
        created(CreateStage::SeedAllocator, name, StepOutcome::Done) is Finished,
{
}

} // verus!
