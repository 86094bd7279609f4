//! A collection's configuration in object storage, and the changes made to it
//! and to a node's own copy: adding, removing, activating and choosing vector
//! spaces.
use crate::duplicate::{duplicate_text, text_view, Duplicate};
use crate::errors::{failed, failure, missing_space, space_not_found, EngineError, ErrorView};
use crate::models::{
    Collection, CollectionConfig, CollectionView, ConfigView, SpaceView, Timestamp,
    VectorSpaceConfig,
};
use crate::string_map::StringMap;
use crate::text::{own, text_eq};
use vstd::prelude::*;
use vstd::string::*;

verus! {

/// Version of the configuration object.
pub const BUCKET_CONFIG_VERSION: u8 = 1;

/// The configuration of a collection as object storage holds it: everything but
/// the node's own counters.
#[derive(Debug, Clone)]
pub struct BucketConfig {
    pub version: u8,
    pub name: String,
    pub created_at: Timestamp,
    pub vector_spaces: StringMap<VectorSpaceConfig>,
    pub default_vector_space: Option<String>,
    pub embedding_dims: usize,
    pub config: CollectionConfig,
}

/// What a configuration in object storage says.
#[verifier::ext_equal]
pub struct BucketView {
    pub version: u8,
    pub name: Seq<char>,
    pub created_at: Timestamp,
    pub vector_spaces: Map<Seq<char>, SpaceView>,
    pub default_vector_space: Option<Seq<char>>,
    pub embedding_dims: usize,
    pub config: ConfigView,
}

impl View for BucketConfig {
    type V = BucketView;

    open spec fn view(&self) -> BucketView {
        BucketView {
            version: self.version,
            name: self.name@,
            created_at: self.created_at,
            vector_spaces: self.vector_spaces@,
            default_vector_space: text_view(self.default_vector_space),
            embedding_dims: self.embedding_dims,
            config: self.config@,
        }
    }
}

impl Duplicate for BucketConfig {
    fn duplicate(&self) -> (r: BucketConfig) {
        BucketConfig {
            version: self.version,
            name: self.name.clone(),
            created_at: self.created_at,
            vector_spaces: self.vector_spaces.duplicate(),
            default_vector_space: duplicate_text(&self.default_vector_space),
            embedding_dims: self.embedding_dims,
            config: self.config.duplicate(),
        }
    }
}

/// The part of a collection's metadata that object storage holds.
pub open spec fn bucket_part(c: CollectionView) -> BucketView {
    BucketView {
        version: BUCKET_CONFIG_VERSION,
        name: c.name,
        created_at: c.created_at,
        vector_spaces: c.vector_spaces,
        default_vector_space: c.default_vector_space,
        embedding_dims: c.embedding_dims,
        config: c.config,
    }
}

/// The metadata of a collection that is known from object storage only: nothing
/// counted yet.
pub open spec fn uncounted(b: BucketView) -> CollectionView {
    CollectionView {
        name: b.name,
        created_at: b.created_at,
        vector_spaces: b.vector_spaces,
        default_vector_space: b.default_vector_space,
        embedding_dims: b.embedding_dims,
        chunk_count: 0,
        next_id: 0,
        config: b.config,
        applied_seq: 0,
    }
}

impl BucketConfig {
    /// The part of a collection's metadata that object storage holds.
    pub fn from_collection(c: &Collection) -> (r: BucketConfig)
        ensures
            r@ == bucket_part(c@),
    {
        BucketConfig {
            version: BUCKET_CONFIG_VERSION,
            name: c.name.clone(),
            created_at: c.created_at,
            vector_spaces: c.vector_spaces.duplicate(),
            default_vector_space: duplicate_text(&c.default_vector_space),
            embedding_dims: c.embedding_dims,
            config: c.config.duplicate(),
        }
    }

    /// The metadata of a collection that is known from object storage only.
    pub fn into_collection(self) -> (r: Collection)
        ensures
            r@ == uncounted(self@),
    {
        Collection {
            name: self.name,
            created_at: self.created_at,
            vector_spaces: self.vector_spaces,
            default_vector_space: self.default_vector_space,
            embedding_dims: self.embedding_dims,
            chunk_count: 0,
            next_id: 0,
            config: self.config,
            applied_seq: 0,
        }
    }

    /// The configuration of a partition: the parent's, under the partition's
    /// name, itself not partitioned.
    pub fn for_partition(&self, ns: &str) -> (r: BucketConfig)
        ensures
            r@ == (BucketView {
                name: ns@,
                config: ConfigView { partition_by: None, ..self@.config },
                ..self@
            }),
    {
        let mut c = self.duplicate();
        c.name = own(ns);
        c.config.partition_by = None;
        c
    }
}

/// The key of a collection's configuration.
pub fn config_key(ns: &str) -> (r: String)
    ensures
        r@ == ns@ + "/collection.json"@,
{
    let mut s = own(ns);
    s.append("/collection.json");
    s
}

/// The key of a collection's manifest.
pub fn manifest_key(ns: &str) -> (r: String)
    ensures
        r@ == ns@ + "/manifest"@,
{
    let mut s = own(ns);
    s.append("/manifest");
    s
}

// ── Vector spaces ───────────────────────────────────────────────────────

/// The error for a vector space that is already there.
pub open spec fn space_exists(name: Seq<char>) -> ErrorView {
    failure("Vector space '"@ + name + "' already exists"@)
}

/// The error for deleting the default vector space.
pub open spec fn space_is_default() -> ErrorView {
    failure("Cannot delete the default vector space. Switch default first."@)
}

/// A vector space that is still to be built.
pub open spec fn building(dims: usize, model: Seq<char>) -> SpaceView {
    SpaceView { dims, model, status: "building"@ }
}

/// Adds a vector space, to be built.
pub fn add_space(
    spaces: &mut StringMap<VectorSpaceConfig>,
    name: &str,
    dims: usize,
    model: &str,
) -> (r: Result<(), EngineError>)
    ensures
        r is Ok <==> !old(spaces)@.contains_key(name@),
        r is Ok ==> final(spaces)@ == old(spaces)@.insert(name@, building(dims, model@)),
        r matches Err(e) ==> e@ == space_exists(name@) && final(spaces)@ == old(spaces)@,
{
    if spaces.contains_key(name) {
        let mut s = own("Vector space '");
        s.append(name);
        s.append("' already exists");
        return Err(EngineError::Failed(s));
    }
    spaces.insert(
        own(name),
        VectorSpaceConfig { dims, model: own(model), status: own("building") },
    );
    Ok(())
}

/// Refuses to delete the default vector space.
pub fn check_not_default(default_space: &Option<String>, name: &str) -> (r: Result<(), EngineError>)
    ensures
        r is Ok <==> text_view(*default_space) != Some(name@),
        r matches Err(e) ==> e@ == space_is_default(),
{
    if let Some(d) = default_space {
        if text_eq(d.as_str(), name) {
            return Err(failed("Cannot delete the default vector space. Switch default first."));
        }
    }
    Ok(())
}

/// Removes a vector space, unless it is the default.
pub fn remove_space(
    spaces: &mut StringMap<VectorSpaceConfig>,
    default_space: &Option<String>,
    name: &str,
) -> (r: Result<(), EngineError>)
    ensures
        r is Ok <==> text_view(*default_space) != Some(name@),
        r is Ok ==> final(spaces)@ == old(spaces)@.remove(name@),
        r matches Err(e) ==> e@ == space_is_default() && final(spaces)@ == old(spaces)@,
{
    match check_not_default(default_space, name) {
        Ok(()) => {
            spaces.remove(name);
            Ok(())
        },
        Err(e) => Err(e),
    }
}

/// Makes a vector space the default.
pub fn choose_default(
    spaces: &StringMap<VectorSpaceConfig>,
    default_space: &mut Option<String>,
    name: &str,
) -> (r: Result<(), EngineError>)
    ensures
        r is Ok <==> spaces@.contains_key(name@),
        r is Ok ==> text_view(*final(default_space)) == Some(name@),
        r matches Err(e) ==> e@ == missing_space(name@) && *final(default_space) == *old(
            default_space,
        ),
{
    if !spaces.contains_key(name) {
        return Err(space_not_found(name));
    }
    *default_space = Some(own(name));
    Ok(())
}

/// The spaces with one of them active; a space that is not there stays away.
pub open spec fn activated(spaces: Map<Seq<char>, SpaceView>, name: Seq<char>) -> Map<
    Seq<char>,
    SpaceView,
> {
    if spaces.contains_key(name) {
        spaces.insert(name, SpaceView { status: "active"@, ..spaces[name] })
    } else {
        spaces
    }
}

/// Marks a vector space as active.
pub fn activate_space(spaces: &mut StringMap<VectorSpaceConfig>, name: &str)
    ensures
        final(spaces)@ == activated(old(spaces)@, name@),
{
    let ghost before = spaces@;
    match spaces.remove(name) {
        Some(mut c) => {
            c.status = own("active");
            spaces.insert(own(name), c);
            proof {
                assert(spaces@ =~= activated(before, name@));
            }
        },
        None => {
            proof {
                assert(spaces@ =~= before);
            }
        },
    }
}

/// The dimensions of a vector space: as configured, else those assumed of a
/// space that is not listed.
pub open spec fn space_dims(
    spaces: Map<Seq<char>, SpaceView>,
    name: Seq<char>,
    fallback: usize,
) -> usize {
    if spaces.contains_key(name) {
        spaces[name].dims
    } else {
        fallback
    }
}

/// The dimensions of a vector space.
pub fn expected_dims(spaces: &StringMap<VectorSpaceConfig>, name: &str, fallback: usize) -> (r:
    usize)
    ensures
        r == space_dims(spaces@, name@, fallback),
{
    match spaces.get(name) {
        Some(c) => c.dims,
        None => fallback,
    }
}

/// Whether two sets of vector spaces say the same.
pub fn spaces_equal(
    a: &StringMap<VectorSpaceConfig>,
    b: &StringMap<VectorSpaceConfig>,
) -> (r: bool)
    ensures
        r == (a@ == b@),
{
    let n: usize = a.len();
    let m: usize = b.len();
    if n != m {
        return false;
    }
    let mut i: usize = 0;
    while i < n
        invariant
            n == a.pairs().len(),
            a@ == crate::assoc::pairs_map(a.pairs()),
            i <= n,
            forall|j: int|
                0 <= j < i ==> b@.contains_key(#[trigger] a.key(j)) && b@[a.key(j)] == a@[a.key(j)],
        decreases n - i,
    {
        let k = a.key_at(i);
        let v = a.value_at(i);
        match b.get(k.as_str()) {
            Some(w) => {
                if !v.equals(w) {
                    return false;
                }
            },
            None => {
                return false;
            },
        }
        i = i + 1;
    }
    proof {
        assert forall|k: Seq<char>| #[trigger] a@.contains_key(k) implies b@.contains_key(k)
            && b@[k] == a@[k] by {
            let j = choose|j: int| 0 <= j < a.pairs().len() && (#[trigger] a.pairs()[j]).0 == k;
            assert(a.key(j) == k);
        }
        assert(a@.dom().subset_of(b@.dom()));
        vstd::set_lib::lemma_subset_equality(a@.dom(), b@.dom());
        assert(a@ =~= b@);
    }
    true
}

// ── Optimistic updates ──────────────────────────────────────────────────

/// How often an update is tried against a changing object.
pub const MAX_CAS_ATTEMPTS: u32 = 10;

/// How a conditional write went.
#[derive(Debug)]
pub enum CasOutcome {
    Written,
    /// The object changed since it was read.
    Conflict,
    Failed(String),
}

/// What to do after a conditional write.
#[derive(Debug)]
pub enum CasAction {
    Done,
    /// Read the object again, change it again, write again.
    Retry,
    Fail(EngineError),
}

/// What to do after the conditional write of attempt `attempt`, counted from 1.
pub fn after_cas(attempt: u32, outcome: CasOutcome) -> (r: CasAction)
    ensures
        match outcome {
            CasOutcome::Written => r is Done,
            CasOutcome::Conflict => if attempt < MAX_CAS_ATTEMPTS {
                r is Retry
            } else {
                r matches CasAction::Fail(e) && e@ == failure(
                    "bucket config CAS failed after max retries (persistent contention)"@,
                )
            },
            CasOutcome::Failed(t) => r matches CasAction::Fail(e) && e@ == failure(t@),
        },
{
    match outcome {
        CasOutcome::Written => CasAction::Done,
        CasOutcome::Conflict => {
            if attempt < MAX_CAS_ATTEMPTS {
                CasAction::Retry
            } else {
                CasAction::Fail(
                    failed("bucket config CAS failed after max retries (persistent contention)"),
                )
            }
        },
        CasOutcome::Failed(t) => CasAction::Fail(EngineError::Failed(t)),
    }
}

// ── Laws ────────────────────────────────────────────────────────────────

/// A node that reads a configuration back from object storage knows everything
/// that was put there, and counts from nothing.
pub proof fn law_bucket_keeps_configuration(c: CollectionView)
    ensures
        bucket_part(uncounted(bucket_part(c))) == bucket_part(c),
        uncounted(bucket_part(c)) == (CollectionView {
            chunk_count: 0,
            next_id: 0,
            applied_seq: 0,
            ..c
        }),
{
}

/// Adding a vector space and removing it again leaves the others as they were.
pub proof fn law_add_then_remove(
    spaces: Map<Seq<char>, SpaceView>,
    name: Seq<char>,
    dims: usize,
    model: Seq<char>,
)
    requires
        !spaces.contains_key(name),
    ensures
        spaces.insert(name, building(dims, model)).remove(name) == spaces,
{
    assert(spaces.insert(name, building(dims, model)).remove(name) =~= spaces);
}

/// The default space is never removed: after a removal that was let through, it
/// is there if it was there before.
pub proof fn law_default_stays(
    spaces: Map<Seq<char>, SpaceView>,
    default_space: Seq<char>,
    name: Seq<char>,
)
    requires
        spaces.contains_key(default_space),
        name != default_space,
    ensures
        spaces.remove(name).contains_key(default_space),
        spaces.remove(name)[default_space] == spaces[default_space],
{
}

/// A vector space has the dimensions that it is configured with; one that is not listed
/// has those assumed of the collection.
pub proof fn law_configured_dims_count(
    spaces: Map<Seq<char>, SpaceView>,
    name: Seq<char>,
    config: SpaceView,
    fallback: usize,
)
    ensures
        space_dims(spaces.insert(name, config), name, fallback) == config.dims,
        space_dims(spaces.remove(name), name, fallback) == fallback,
{
}

/// What object storage holds of a collection is its configuration, field by field.
pub proof fn law_bucket_part_is_the_configuration(c: CollectionView)
    ensures
        bucket_part(c).name == c.name,
        bucket_part(c).created_at == c.created_at,
        bucket_part(c).vector_spaces == c.vector_spaces,
        bucket_part(c).default_vector_space == c.default_vector_space,
        bucket_part(c).embedding_dims == c.embedding_dims,
        bucket_part(c).config == c.config,
        bucket_part(c).version == 1,
{
}

/// A collection known from object storage only has its configuration from there, field
/// by field, and has counted nothing.
pub proof fn law_uncounted_has_the_configuration(b: BucketView)
    ensures
        uncounted(b).name == b.name,
        uncounted(b).created_at == b.created_at,
        uncounted(b).vector_spaces == b.vector_spaces,
        uncounted(b).default_vector_space == b.default_vector_space,
        uncounted(b).embedding_dims == b.embedding_dims,
        uncounted(b).config == b.config,
        uncounted(b).chunk_count == 0,
        uncounted(b).next_id == 0,
        uncounted(b).applied_seq == 0,
{
}

/// A new space has the dimensions and the model asked for and is yet to be built.
/// Activating a space changes its status and nothing else, and touches no other space.
pub proof fn law_activation_changes_the_status_only(
    spaces: Map<Seq<char>, SpaceView>,
    name: Seq<char>,
    other: Seq<char>,
    dims: usize,
    model: Seq<char>,
)
    ensures
        building(dims, model).dims == dims && building(dims, model).model == model && building(
            dims,
            model,
        ).status == "building"@,
        spaces.contains_key(name) ==> activated(spaces, name).contains_key(name) && activated(
            spaces,
            name,
        )[name].status == "active"@ && activated(spaces, name)[name].dims == spaces[name].dims
            && activated(spaces, name)[name].model == spaces[name].model,
        !spaces.contains_key(name) ==> !activated(spaces, name).contains_key(name),
        other != name ==> activated(spaces, name).contains_key(other) == spaces.contains_key(other),
        other != name && spaces.contains_key(other) ==> activated(spaces, name)[other]
            == spaces[other],
{
}

/// A space that is added has the width and the model asked for, and is being built.
pub proof fn law_added_space_is_building(dims: usize, model: Seq<char>, name: Seq<char>)
    ensures
        building(dims, model).dims == dims && building(dims, model).model == model,
        building(dims, model).status == "building"@,
        !space_exists(name).not_found && !space_is_default().not_found,
        crate::text::contains_text(space_exists(name).text, name),
{
    crate::text::law_holding_a_text(
        space_exists(name).text,
        name,
        "Vector space '"@,
        "' already exists"@,
    );
}

/// A configuration is of version 1, and a change to it is tried 10 times.
pub proof fn law_configuration_limits(c: CollectionView)
    ensures
        bucket_part(c).version == 1,
        MAX_CAS_ATTEMPTS == 10,
{
}

} // verus!
