//! The data types of the engine: typed metadata, chunks, collections, vector
//! spaces, relations, and the requests and responses of the API.
//!
//! Numbers with a fraction are held as IEEE 754 bit patterns: metadata and
//! query numbers as [`Number`], components of embeddings and scores as the
//! `u32` pattern of a single-precision number.
use crate::duplicate::{duplicate_text, duplicate_texts, text_view, text_views, Duplicate};
use crate::number::{nearest_bits, num_eq, Number};
use crate::string_map::StringMap;
use crate::text::{own, text_eq};
use vstd::prelude::*;
use vstd::string::*;

verus! {

impl View for Number {
    type V = u64;

    open spec fn view(&self) -> u64 {
        self.bits
    }
}

impl Duplicate for Number {
    fn duplicate(&self) -> (r: Number) {
        *self
    }
}

/// A moment in time: whole seconds since the epoch and the nanoseconds after.
#[derive(Debug, Clone, Copy, PartialEq, Eq, Structural)]
pub struct Timestamp {
    pub secs: i64,
    pub nanos: u32,
}

// ── Metadata ────────────────────────────────────────────────────────────

/// A typed metadata value.
#[derive(Debug, Clone, PartialEq)]
pub enum MetadataValue {
    Bool(bool),
    Int(i64),
    Float(Number),
    String(String),
    StringList(Vec<String>),
}

/// What a metadata value says.
#[verifier::ext_equal]
pub enum MetaView {
    Bool(bool),
    Int(i64),
    Float(u64),
    Text(Seq<char>),
    TextList(Seq<Seq<char>>),
}

impl View for MetadataValue {
    type V = MetaView;

    open spec fn view(&self) -> MetaView {
        match self {
            MetadataValue::Bool(b) => MetaView::Bool(*b),
            MetadataValue::Int(i) => MetaView::Int(*i),
            MetadataValue::Float(f) => MetaView::Float(f.bits),
            MetadataValue::String(s) => MetaView::Text(s@),
            MetadataValue::StringList(l) => MetaView::TextList(text_views(l@)),
        }
    }
}

impl Duplicate for MetadataValue {
    fn duplicate(&self) -> (r: MetadataValue) {
        match self {
            MetadataValue::Bool(b) => MetadataValue::Bool(*b),
            MetadataValue::Int(i) => MetadataValue::Int(*i),
            MetadataValue::Float(f) => MetadataValue::Float(*f),
            MetadataValue::String(s) => MetadataValue::String(s.clone()),
            MetadataValue::StringList(l) => MetadataValue::StringList(duplicate_texts(l)),
        }
    }
}

/// Equality of values of one kind; numbers with a fraction compare as numbers.
pub open spec fn meta_eq(a: MetaView, b: MetaView) -> bool {
    match (a, b) {
        (MetaView::Bool(x), MetaView::Bool(y)) => x == y,
        (MetaView::Int(x), MetaView::Int(y)) => x == y,
        (MetaView::Float(x), MetaView::Float(y)) => num_eq(x, y),
        (MetaView::Text(x), MetaView::Text(y)) => x == y,
        (MetaView::TextList(x), MetaView::TextList(y)) => x == y,
        _ => false,
    }
}

/// The numeric reading of a value: numbers as they are, integers rounded to
/// the nearest number, and texts that `numbers` has a reading for.
pub open spec fn meta_number(v: MetaView, numbers: Map<Seq<char>, u64>) -> Option<u64> {
    match v {
        MetaView::Float(b) => Some(b),
        MetaView::Int(i) => Some(nearest_bits(i as int) as u64),
        MetaView::Text(s) => if numbers.contains_key(s) {
            Some(numbers[s])
        } else {
            None
        },
        _ => None,
    }
}

/// The bits of an optional number.
pub open spec fn number_view(o: Option<Number>) -> Option<u64> {
    match o {
        Some(n) => Some(n.bits),
        None => None,
    }
}

/// Whether two lists of texts are equal.
pub fn texts_eq(a: &Vec<String>, b: &Vec<String>) -> (r: bool)
    ensures
        r == (text_views(a@) == text_views(b@)),
{
    if a.len() != b.len() {
        proof {
            assert(text_views(a@).len() != text_views(b@).len());
        }
        return false;
    }
    let mut i: usize = 0;
    while i < a.len()
        invariant
            a@.len() == b@.len(),
            i <= a@.len(),
            forall|k: int| 0 <= k < i ==> (#[trigger] a@[k])@ == b@[k]@,
        decreases a.len() - i,
    {
        if !text_eq(a[i].as_str(), b[i].as_str()) {
            proof {
                assert(text_views(a@)[i as int] != text_views(b@)[i as int]);
            }
            return false;
        }
        i = i + 1;
    }
    proof {
        assert(text_views(a@) =~= text_views(b@));
    }
    true
}

/// Whether a list holds a text.
pub fn texts_contain(l: &Vec<String>, s: &str) -> (r: bool)
    ensures
        r == text_views(l@).contains(s@),
{
    let mut i: usize = 0;
    while i < l.len()
        invariant
            i <= l@.len(),
            forall|k: int| 0 <= k < i ==> (#[trigger] l@[k])@ != s@,
        decreases l.len() - i,
    {
        if text_eq(l[i].as_str(), s) {
            proof {
                assert(text_views(l@)[i as int] == s@);
            }
            return true;
        }
        i = i + 1;
    }
    proof {
        if text_views(l@).contains(s@) {
            let k = choose|k: int| 0 <= k < text_views(l@).len() && text_views(l@)[k] == s@;
            assert(l@[k]@ == s@);
        }
    }
    false
}

impl MetadataValue {
    /// The numeric reading of the value. `numbers` gives the reading of the
    /// texts that spell a number; a text that it does not list spells none.
    pub fn as_f64(&self, numbers: &StringMap<Number>) -> (r: Option<Number>)
        ensures
            number_view(r) == meta_number(self@, numbers@),
    {
        match self {
            MetadataValue::Float(f) => Some(*f),
            MetadataValue::Int(i) => Some(Number::from_int(*i)),
            MetadataValue::String(s) => {
                match numbers.get(s.as_str()) {
                    Some(n) => Some(*n),
                    None => None,
                }
            },
            _ => None,
        }
    }

    /// The text of a text value.
    pub fn as_str(&self) -> (r: Option<&str>)
        ensures
            r is Some <==> self@ is Text,
            r matches Some(s) ==> self@ == MetaView::Text(s@),
    {
        match self {
            MetadataValue::String(s) => Some(s.as_str()),
            _ => None,
        }
    }

    /// Whether two values are equal.
    pub fn equals(&self, other: &MetadataValue) -> (r: bool)
        ensures
            r == meta_eq(self@, other@),
    {
        match (self, other) {
            (MetadataValue::Bool(x), MetadataValue::Bool(y)) => *x == *y,
            (MetadataValue::Int(x), MetadataValue::Int(y)) => *x == *y,
            (MetadataValue::Float(x), MetadataValue::Float(y)) => x.equals(*y),
            (MetadataValue::String(x), MetadataValue::String(y)) => text_eq(
                x.as_str(),
                y.as_str(),
            ),
            (MetadataValue::StringList(x), MetadataValue::StringList(y)) => texts_eq(x, y),
            _ => false,
        }
    }
}

// ── Vector spaces ───────────────────────────────────────────────────────

/// One named vector space of a collection.
#[derive(Debug, Clone, PartialEq, Eq)]
pub struct VectorSpaceConfig {
    /// Number of components of the vectors in this space.
    pub dims: usize,
    /// The embedding model that made them.
    pub model: String,
    /// "active", "building" or "deprecated".
    pub status: String,
}

/// What a vector space configuration says.
#[verifier::ext_equal]
pub struct SpaceView {
    pub dims: usize,
    pub model: Seq<char>,
    pub status: Seq<char>,
}

impl View for VectorSpaceConfig {
    type V = SpaceView;

    open spec fn view(&self) -> SpaceView {
        SpaceView { dims: self.dims, model: self.model@, status: self.status@ }
    }
}

impl Duplicate for VectorSpaceConfig {
    fn duplicate(&self) -> (r: VectorSpaceConfig) {
        VectorSpaceConfig {
            dims: self.dims,
            model: self.model.clone(),
            status: self.status.clone(),
        }
    }
}

impl VectorSpaceConfig {
    /// Whether two configurations say the same.
    pub fn equals(&self, other: &VectorSpaceConfig) -> (r: bool)
        ensures
            r == (self@ == other@),
    {
        self.dims == other.dims && text_eq(self.model.as_str(), other.model.as_str()) && text_eq(
            self.status.as_str(),
            other.status.as_str(),
        )
    }
}

/// The status of a space that names none: "active".
pub fn default_space_status() -> (r: String)
    ensures
        r@ == "active"@,
{
    own("active")
}

// ── Chunks ──────────────────────────────────────────────────────────────

/// A single indexed chunk.
#[derive(Debug, Clone)]
pub struct DocumentChunk {
    /// Id assigned at ingest, unique in the collection.
    pub id: u64,
    pub collection: String,
    /// Source file identifier.
    pub file_id: String,
    /// Position of the chunk in its source file.
    pub chunk_index: u32,
    pub page: Option<u32>,
    pub text: String,
    pub metadata: StringMap<MetadataValue>,
    /// "source", "flow", "segment" or "chunk".
    pub doc_type: String,
    pub parent_id: Option<u64>,
    pub group_id: Option<String>,
    /// Embeddings by vector space.
    pub embeddings: StringMap<Vec<u32>>,
    /// A single embedding without a space name.
    pub embedding: Option<Vec<u32>>,
}

/// What a chunk says.
#[verifier::ext_equal]
pub struct ChunkView {
    pub id: u64,
    pub collection: Seq<char>,
    pub file_id: Seq<char>,
    pub chunk_index: u32,
    pub page: Option<u32>,
    pub text: Seq<char>,
    pub metadata: Map<Seq<char>, MetaView>,
    pub doc_type: Seq<char>,
    pub parent_id: Option<u64>,
    pub group_id: Option<Seq<char>>,
    pub embeddings: Map<Seq<char>, Seq<u32>>,
    pub embedding: Option<Seq<u32>>,
}

/// The components of an optional vector.
pub open spec fn vector_view(o: Option<Vec<u32>>) -> Option<Seq<u32>> {
    match o {
        Some(v) => Some(v@),
        None => None,
    }
}

/// A copy of an optional vector.
pub fn duplicate_vector(o: &Option<Vec<u32>>) -> (r: Option<Vec<u32>>)
    ensures
        vector_view(r) == vector_view(*o),
{
    match o {
        Some(v) => Some(v.duplicate()),
        None => None,
    }
}

impl View for DocumentChunk {
    type V = ChunkView;

    open spec fn view(&self) -> ChunkView {
        ChunkView {
            id: self.id,
            collection: self.collection@,
            file_id: self.file_id@,
            chunk_index: self.chunk_index,
            page: self.page,
            text: self.text@,
            metadata: self.metadata@,
            doc_type: self.doc_type@,
            parent_id: self.parent_id,
            group_id: text_view(self.group_id),
            embeddings: self.embeddings@,
            embedding: vector_view(self.embedding),
        }
    }
}

impl Duplicate for DocumentChunk {
    fn duplicate(&self) -> (r: DocumentChunk) {
        DocumentChunk {
            id: self.id,
            collection: self.collection.clone(),
            file_id: self.file_id.clone(),
            chunk_index: self.chunk_index,
            page: self.page,
            text: self.text.clone(),
            metadata: self.metadata.duplicate(),
            doc_type: self.doc_type.clone(),
            parent_id: self.parent_id,
            group_id: duplicate_text(&self.group_id),
            embeddings: self.embeddings.duplicate(),
            embedding: duplicate_vector(&self.embedding),
        }
    }
}

/// What each chunk of a list says.
pub open spec fn chunk_views(s: Seq<DocumentChunk>) -> Seq<ChunkView> {
    Seq::new(s.len(), |i: int| s[i]@)
}

/// The type of a chunk that names none: "chunk".
pub fn default_doc_type() -> (r: String)
    ensures
        r@ == "chunk"@,
{
    own("chunk")
}

// ── Collections ─────────────────────────────────────────────────────────

/// Per-collection configuration.
#[derive(Debug, Clone)]
pub struct CollectionConfig {
    pub embed_model: String,
    /// The metadata field by which the collection is partitioned.
    pub partition_by: Option<String>,
}

/// What a collection configuration says.
#[verifier::ext_equal]
pub struct ConfigView {
    pub embed_model: Seq<char>,
    pub partition_by: Option<Seq<char>>,
}

impl View for CollectionConfig {
    type V = ConfigView;

    open spec fn view(&self) -> ConfigView {
        ConfigView { embed_model: self.embed_model@, partition_by: text_view(self.partition_by) }
    }
}

impl Duplicate for CollectionConfig {
    fn duplicate(&self) -> (r: CollectionConfig) {
        CollectionConfig {
            embed_model: self.embed_model.clone(),
            partition_by: duplicate_text(&self.partition_by),
        }
    }
}

impl Default for CollectionConfig {
    fn default() -> (r: CollectionConfig)
        ensures
            r@ == (ConfigView { embed_model: Seq::<char>::empty(), partition_by: None }),
    {
        CollectionConfig { embed_model: String::new(), partition_by: None }
    }
}

/// The embedding model of a configuration that names none.
pub fn default_embed_model() -> (r: String)
    ensures
        r@ == "bge-small"@,
{
    own("bge-small")
}

/// The dimensions of a collection that names none.
pub fn default_dims() -> (r: usize)
    ensures
        r == 384,
{
    384
}

/// A collection's metadata.
#[derive(Debug, Clone)]
pub struct Collection {
    pub name: String,
    pub created_at: Timestamp,
    pub vector_spaces: StringMap<VectorSpaceConfig>,
    pub default_vector_space: Option<String>,
    /// Dimensions assumed of a vector space that is not listed.
    pub embedding_dims: usize,
    /// Number of live chunks.
    pub chunk_count: u64,
    /// One past the highest chunk id ever assigned.
    pub next_id: u64,
    pub config: CollectionConfig,
    /// Number of leading log entries reflected in the local indexes.
    pub applied_seq: u64,
}

/// What a collection's metadata says.
#[verifier::ext_equal]
pub struct CollectionView {
    pub name: Seq<char>,
    pub created_at: Timestamp,
    pub vector_spaces: Map<Seq<char>, SpaceView>,
    pub default_vector_space: Option<Seq<char>>,
    pub embedding_dims: usize,
    pub chunk_count: u64,
    pub next_id: u64,
    pub config: ConfigView,
    pub applied_seq: u64,
}

impl View for Collection {
    type V = CollectionView;

    open spec fn view(&self) -> CollectionView {
        CollectionView {
            name: self.name@,
            created_at: self.created_at,
            vector_spaces: self.vector_spaces@,
            default_vector_space: text_view(self.default_vector_space),
            embedding_dims: self.embedding_dims,
            chunk_count: self.chunk_count,
            next_id: self.next_id,
            config: self.config@,
            applied_seq: self.applied_seq,
        }
    }
}

impl Duplicate for Collection {
    fn duplicate(&self) -> (r: Collection) {
        Collection {
            name: self.name.clone(),
            created_at: self.created_at,
            vector_spaces: self.vector_spaces.duplicate(),
            default_vector_space: duplicate_text(&self.default_vector_space),
            embedding_dims: self.embedding_dims,
            chunk_count: self.chunk_count,
            next_id: self.next_id,
            config: self.config.duplicate(),
            applied_seq: self.applied_seq,
        }
    }
}

// ── Relations ───────────────────────────────────────────────────────────

/// A directed, typed edge between two chunks.
#[derive(Debug, Clone)]
pub struct ChunkRelation {
    pub relation_id: String,
    pub source_chunk_id: u64,
    pub target_chunk_id: u64,
    pub target_document_id: Option<String>,
    pub relation_type: String,
    /// "found", "missing" or "unknown".
    pub target_status: String,
    pub metadata: StringMap<MetadataValue>,
    pub created_at: Timestamp,
}

/// What an edge says.
#[verifier::ext_equal]
pub struct RelationView {
    pub relation_id: Seq<char>,
    pub source_chunk_id: u64,
    pub target_chunk_id: u64,
    pub target_document_id: Option<Seq<char>>,
    pub relation_type: Seq<char>,
    pub target_status: Seq<char>,
    pub metadata: Map<Seq<char>, MetaView>,
    pub created_at: Timestamp,
}

impl View for ChunkRelation {
    type V = RelationView;

    open spec fn view(&self) -> RelationView {
        RelationView {
            relation_id: self.relation_id@,
            source_chunk_id: self.source_chunk_id,
            target_chunk_id: self.target_chunk_id,
            target_document_id: text_view(self.target_document_id),
            relation_type: self.relation_type@,
            target_status: self.target_status@,
            metadata: self.metadata@,
            created_at: self.created_at,
        }
    }
}

impl Duplicate for ChunkRelation {
    fn duplicate(&self) -> (r: ChunkRelation) {
        ChunkRelation {
            relation_id: self.relation_id.clone(),
            source_chunk_id: self.source_chunk_id,
            target_chunk_id: self.target_chunk_id,
            target_document_id: duplicate_text(&self.target_document_id),
            relation_type: self.relation_type.clone(),
            target_status: self.target_status.clone(),
            metadata: self.metadata.duplicate(),
            created_at: self.created_at,
        }
    }
}

/// What each edge of a list says.
pub open spec fn relation_views(s: Seq<ChunkRelation>) -> Seq<RelationView> {
    Seq::new(s.len(), |i: int| s[i]@)
}

/// An edge to be created.
#[derive(Debug, Clone)]
pub struct CreateRelation {
    pub source_chunk_id: u64,
    pub target_chunk_id: u64,
    pub target_document_id: Option<String>,
    pub relation_type: String,
    pub metadata: StringMap<MetadataValue>,
}

/// Which endpoint of an edge a chunk must be.
#[derive(Debug, Clone, Copy, PartialEq, Eq, Structural)]
pub enum RelationDirection {
    Outgoing,
    Incoming,
    Both,
}

impl Default for RelationDirection {
    fn default() -> (r: RelationDirection)
        ensures
            r == RelationDirection::Outgoing,
    {
        RelationDirection::Outgoing
    }
}

// ── Filters ─────────────────────────────────────────────────────────────

/// A filter with operators; every one that is set must hold.
#[derive(Debug, Clone, PartialEq)]
pub struct FilterCondition {
    pub gte: Option<Number>,
    pub lte: Option<Number>,
    pub contains: Option<String>,
    pub in_values: Option<Vec<String>>,
}

/// A filter on one metadata field.
#[derive(Debug, Clone, PartialEq)]
pub enum FilterValue {
    Condition(FilterCondition),
    Exact(MetadataValue),
}

/// What a filter says.
#[verifier::ext_equal]
pub enum FilterView {
    Condition {
        gte: Option<u64>,
        lte: Option<u64>,
        contains: Option<Seq<char>>,
        in_values: Option<Seq<Seq<char>>>,
    },
    Exact(MetaView),
}

/// The texts of an optional list.
pub open spec fn texts_view(o: Option<Vec<String>>) -> Option<Seq<Seq<char>>> {
    match o {
        Some(v) => Some(text_views(v@)),
        None => None,
    }
}

impl View for FilterValue {
    type V = FilterView;

    open spec fn view(&self) -> FilterView {
        match self {
            FilterValue::Condition(c) => FilterView::Condition {
                gte: number_view(c.gte),
                lte: number_view(c.lte),
                contains: text_view(c.contains),
                in_values: texts_view(c.in_values),
            },
            FilterValue::Exact(v) => FilterView::Exact(v@),
        }
    }
}

// ── Requests ────────────────────────────────────────────────────────────

/// Request to create a collection.
#[derive(Debug, Clone)]
pub struct CreateCollectionRequest {
    pub name: String,
    pub vector_spaces: Option<StringMap<VectorSpaceConfig>>,
    pub embedding_dims: Option<usize>,
    pub config: Option<CollectionConfig>,
}

/// Request to ingest chunks.
#[derive(Debug, Clone)]
pub struct IngestRequest {
    pub chunks: Vec<IngestChunk>,
}

/// A chunk to be ingested, before it has an id.
#[derive(Debug, Clone)]
pub struct IngestChunk {
    /// The caller's id, by which other chunks of the batch may refer to it.
    pub client_id: Option<String>,
    pub file_id: String,
    pub chunk_index: u32,
    pub page: Option<u32>,
    pub text: String,
    pub metadata: StringMap<MetadataValue>,
    pub doc_type: String,
    /// Parent from an earlier ingest.
    pub parent_id: Option<u64>,
    /// Parent in this batch, by its client id.
    pub parent_ref: Option<String>,
    pub group_id: Option<String>,
    pub embeddings: StringMap<Vec<u32>>,
    pub embedding: Option<Vec<u32>>,
}

/// What a chunk to be ingested says.
#[verifier::ext_equal]
pub struct IngestView {
    pub client_id: Option<Seq<char>>,
    pub file_id: Seq<char>,
    pub chunk_index: u32,
    pub page: Option<u32>,
    pub text: Seq<char>,
    pub metadata: Map<Seq<char>, MetaView>,
    pub doc_type: Seq<char>,
    pub parent_id: Option<u64>,
    pub parent_ref: Option<Seq<char>>,
    pub group_id: Option<Seq<char>>,
    pub embeddings: Map<Seq<char>, Seq<u32>>,
    pub embedding: Option<Seq<u32>>,
}

impl View for IngestChunk {
    type V = IngestView;

    open spec fn view(&self) -> IngestView {
        IngestView {
            client_id: text_view(self.client_id),
            file_id: self.file_id@,
            chunk_index: self.chunk_index,
            page: self.page,
            text: self.text@,
            metadata: self.metadata@,
            doc_type: self.doc_type@,
            parent_id: self.parent_id,
            parent_ref: text_view(self.parent_ref),
            group_id: text_view(self.group_id),
            embeddings: self.embeddings@,
            embedding: vector_view(self.embedding),
        }
    }
}

/// What each chunk to be ingested says.
pub open spec fn ingest_views(s: Seq<IngestChunk>) -> Seq<IngestView> {
    Seq::new(s.len(), |i: int| s[i]@)
}

/// Newer documents score higher: the score halves every `half_life_days`, down
/// to `min_score`.
#[derive(Debug, Clone)]
pub struct RecencyConfig {
    /// The metadata field that holds the timestamp.
    pub field: String,
    pub half_life_days: Number,
    pub min_score: Number,
}

/// The half-life and the floor of a recency preset, as bit patterns.
pub open spec fn preset_bits(name: Seq<char>) -> Option<(u64, u64)> {
    if name == "recent"@ {
        Some((0x401c_0000_0000_0000, 0x3fc9_9999_9999_999a))
    } else if name == "mild"@ {
        Some((0x403e_0000_0000_0000, 0x3fd3_3333_3333_3333))
    } else if name == "aggressive"@ {
        Some((0x4008_0000_0000_0000, 0x3fa9_9999_9999_999a))
    } else if name == "archive"@ {
        Some((0x4056_8000_0000_0000, 0x3fe0_0000_0000_0000))
    } else {
        None
    }
}

impl RecencyConfig {
    /// The configuration behind a preset name: "recent" halves in 7 days with
    /// floor 0.2, "mild" in 30 with 0.3, "aggressive" in 3 with 0.05,
    /// "archive" in 90 with 0.5.
    pub fn from_preset(name: &str, field: String) -> (r: Option<RecencyConfig>)
        ensures
            r is Some <==> preset_bits(name@) is Some,
            r matches Some(c) ==> c.field@ == field@ && preset_bits(name@) == Some(
                (c.half_life_days.bits, c.min_score.bits),
            ),
    {
        let (half_life_bits, min_bits): (u64, u64) = if text_eq(name, "recent") {
            (0x401c_0000_0000_0000, 0x3fc9_9999_9999_999a)
        } else if text_eq(name, "mild") {
            (0x403e_0000_0000_0000, 0x3fd3_3333_3333_3333)
        } else if text_eq(name, "aggressive") {
            (0x4008_0000_0000_0000, 0x3fa9_9999_9999_999a)
        } else if text_eq(name, "archive") {
            (0x4056_8000_0000_0000, 0x3fe0_0000_0000_0000)
        } else {
            return None;
        };
        Some(
            RecencyConfig {
                field,
                half_life_days: Number { bits: half_life_bits },
                min_score: Number { bits: min_bits },
            },
        )
    }
}

impl Duplicate for RecencyConfig {
    fn duplicate(&self) -> (r: RecencyConfig) {
        RecencyConfig {
            field: self.field.clone(),
            half_life_days: self.half_life_days,
            min_score: self.min_score,
        }
    }
}

/// What a recency configuration says: field, half-life and floor.
impl View for RecencyConfig {
    type V = (Seq<char>, u64, u64);

    open spec fn view(&self) -> (Seq<char>, u64, u64) {
        (self.field@, self.half_life_days.bits, self.min_score.bits)
    }
}

/// Multiplies the score when a field matches.
#[derive(Debug, Clone)]
pub struct BoostConfig {
    pub field: String,
    pub value: Option<String>,
    pub gte: Option<Number>,
    pub lte: Option<Number>,
    pub weight: Number,
}

/// Raises scores by parent and sibling matches.
#[derive(Debug, Clone)]
pub struct RelationshipBoostConfig {
    pub parent_weight: Number,
    pub sibling_weight: Number,
    /// "max", "avg" or "sum".
    pub mode: String,
}

/// The aggregation of a relationship boost that names none.
pub fn default_agg_mode() -> (r: String)
    ensures
        r@ == "max"@,
{
    own("max")
}

/// Weights for blending full-text and semantic scores.
#[derive(Debug, Clone)]
pub struct ScoreWeights {
    pub rrf_k: Number,
    pub fts_weight: Number,
    pub semantic_weight: Number,
}

/// A search request.
#[derive(Debug, Clone)]
pub struct SearchRequest {
    pub query: String,
    /// "fts", "semantic" or "hybrid".
    pub mode: String,
    pub vector_space: Option<String>,
    pub top_k: usize,
    pub query_vector: Option<Vec<u32>>,
    pub filters: StringMap<FilterValue>,
    pub score_weights: Option<ScoreWeights>,
    pub recency: Option<RecencyConfig>,
    pub recency_preset: Option<String>,
    pub recency_field: Option<String>,
    pub boosts: Vec<BoostConfig>,
    pub relationship_boost: Option<RelationshipBoostConfig>,
    /// Attach each hit's relations to the response.
    pub include_relations: bool,
    pub relation_direction: RelationDirection,
    pub relation_types: Option<Vec<String>>,
    /// Wait until this log entry is reflected locally.
    pub min_seq: Option<u64>,
    /// Attach the query plan to the response.
    pub explain: bool,
}

impl Duplicate for FilterValue {
    fn duplicate(&self) -> (r: FilterValue) {
        match self {
            FilterValue::Condition(c) => {
                let in_values: Option<Vec<String>> = match &c.in_values {
                    Some(v) => Some(duplicate_texts(v)),
                    None => None,
                };
                FilterValue::Condition(
                    FilterCondition {
                        gte: c.gte,
                        lte: c.lte,
                        contains: duplicate_text(&c.contains),
                        in_values,
                    },
                )
            },
            FilterValue::Exact(v) => FilterValue::Exact(v.duplicate()),
        }
    }
}

/// The mode of a search that names none.
pub fn default_search_mode() -> (r: String)
    ensures
        r@ == "hybrid"@,
{
    own("hybrid")
}

/// The number of results of a search that names none.
pub fn default_top_k() -> (r: usize)
    ensures
        r == 10,
{
    10
}

/// The floor of a recency configuration that names none: 0.1.
pub fn default_min_score() -> (r: Number)
    ensures
        r.bits == 0x3fb9_9999_9999_999a,
{
    Number { bits: 0x3fb9_9999_9999_999a }
}

/// The weight of a boost that names none: 1.
pub fn default_boost_weight() -> (r: Number)
    ensures
        r.bits == nearest_bits(1),
{
    Number::from_int(1)
}

/// The parent weight of a relationship boost that names none: 0.3.
pub fn default_parent_weight() -> (r: Number)
    ensures
        r.bits == 0x3fd3_3333_3333_3333,
{
    Number { bits: 0x3fd3_3333_3333_3333 }
}

/// The sibling weight of a relationship boost that names none: 0.1.
pub fn default_sibling_weight() -> (r: Number)
    ensures
        r.bits == 0x3fb9_9999_9999_999a,
{
    Number { bits: 0x3fb9_9999_9999_999a }
}

/// The rank constant of score weights that name none: 60.
pub fn default_rrf_k() -> (r: Number)
    ensures
        r.bits == nearest_bits(60),
{
    Number::from_int(60)
}

/// The weight of a ranking that score weights do not name: 1.
pub fn default_score_weight() -> (r: Number)
    ensures
        r.bits == nearest_bits(1),
{
    Number::from_int(1)
}

/// Request for facet counts.
#[derive(Debug, Clone)]
pub struct FacetRequest {
    pub query: Option<String>,
    pub fields: Vec<String>,
}

/// Request to add a vector space.
#[derive(Debug, Clone)]
pub struct AddVectorSpaceRequest {
    pub name: String,
    pub dims: usize,
    pub model: String,
}

/// Request to embed a collection anew.
#[derive(Debug, Clone)]
pub struct RebuildRequest {
    pub embed_endpoint: Option<String>,
    pub batch_size: usize,
}

/// The batch size of a rebuild that names none.
pub fn default_batch_size() -> (r: usize)
    ensures
        r == 64,
{
    64
}

/// Request to switch the default vector space.
#[derive(Debug, Clone)]
pub struct SetDefaultSpaceRequest {
    pub name: String,
}

/// Request to create edges.
#[derive(Debug, Clone)]
pub struct CreateRelationsRequest {
    pub relations: Vec<CreateRelation>,
}

/// Request to delete chunks by id and by filter.
#[derive(Debug, Clone)]
pub struct DeleteRequest {
    pub ids: Vec<u64>,
    pub filters: StringMap<FilterValue>,
}

// ── Responses ───────────────────────────────────────────────────────────

/// One search result.
#[derive(Debug, Clone)]
pub struct SearchHit {
    pub chunk: DocumentChunk,
    /// The final score, as a single-precision bit pattern.
    pub score: u32,
    /// "fts", "semantic" or "both".
    pub source: String,
    pub parent_metadata: Option<StringMap<MetadataValue>>,
    pub relations: Option<Vec<ChunkRelation>>,
}

/// Response to a search.
#[derive(Debug, Clone)]
pub struct SearchResponse {
    pub results: Vec<SearchHit>,
    pub total: usize,
    pub took_us: u64,
    pub mode: String,
    pub explain: Option<ExplainPlan>,
}

/// How selective the filter of a query was.
#[derive(Debug, Clone)]
pub struct FilterExplain {
    pub eligible_count: u64,
    pub universe_count: u64,
    pub selectivity: Number,
}

/// How the nearest neighbours of a query were found.
#[derive(Debug, Clone)]
pub struct AnnExplain {
    /// "hnsw", "brute_force" or "none".
    pub engine: String,
    pub candidates_inspected: Option<u64>,
    pub ef_search_used: u64,
}

/// The plan of a query.
#[derive(Debug, Clone)]
pub struct ExplainPlan {
    pub filter: FilterExplain,
    pub ann: AnnExplain,
}

/// Response to a request for facet counts.
#[derive(Debug, Clone)]
pub struct FacetResponse {
    pub facets: StringMap<StringMap<u64>>,
    pub took_us: u64,
}

/// Response to an ingest.
#[derive(Debug, Clone)]
pub struct IngestResponse {
    pub indexed: usize,
    pub id_map: StringMap<u64>,
    pub took_ms: u64,
}

/// What the API shows of a collection.
#[derive(Debug, Clone)]
pub struct CollectionInfo {
    pub name: String,
    pub created_at: Timestamp,
    pub embedding_dims: usize,
    pub chunk_count: u64,
    pub vector_spaces: StringMap<VectorSpaceConfig>,
    pub default_vector_space: Option<String>,
}

/// What the API shows of a vector space.
#[derive(Debug, Clone)]
pub struct VectorSpaceInfo {
    pub name: String,
    pub dims: usize,
    pub model: String,
    pub status: String,
}

/// Progress of a rebuild.
#[derive(Debug, Clone)]
pub struct RebuildStatus {
    pub status: String,
    pub embedded: u64,
    pub total: u64,
    pub percent: Number,
}

/// Response to a health check.
#[derive(Debug, Clone)]
pub struct HealthResponse {
    pub status: String,
    pub collections: usize,
    pub version: String,
}

/// Response to a creation of edges.
#[derive(Debug, Clone)]
pub struct CreateRelationsResponse {
    pub relations: Vec<ChunkRelation>,
    pub created: usize,
}

/// Response to a request for a chunk's edges.
#[derive(Debug, Clone)]
pub struct ChunkRelationsResponse {
    pub relations: Vec<ChunkRelation>,
    pub total: usize,
}

/// Response to a delete.
#[derive(Debug, Clone)]
pub struct DeleteResponse {
    pub deleted: usize,
    pub seq: Option<u64>,
}

// ── Laws ────────────────────────────────────────────────────────────────

/// A number in metadata is itself; a whole number counts as the nearest number, a text as
/// what it reads as, if it reads as one, and nothing else has a number.
pub proof fn law_number_of_a_value(
    b: u64,
    i: i64,
    s: Seq<char>,
    t: bool,
    l: Seq<Seq<char>>,
    numbers: Map<Seq<char>, u64>,
)
    ensures
        meta_number(MetaView::Float(b), numbers) == Some(b),
        meta_number(MetaView::Int(i), numbers) == Some(nearest_bits(i as int) as u64),
        numbers.contains_key(s) ==> meta_number(MetaView::Text(s), numbers) == Some(numbers[s]),
        !numbers.contains_key(s) ==> meta_number(MetaView::Text(s), numbers) is None,
        meta_number(MetaView::Bool(t), numbers) is None,
        meta_number(MetaView::TextList(l), numbers) is None,
{
}

/// Equality of values does not depend on the side, holds of a value and itself unless it
/// is no number, and holds only of values that are the same or of numbers that are equal.
pub proof fn law_equal_values(a: MetaView, b: MetaView)
    ensures
        meta_eq(a, b) == meta_eq(b, a),
        !(a is Float) ==> (meta_eq(a, b) <==> a == b),
        (a matches MetaView::Float(x) ==> (meta_eq(a, b) <==> (b matches MetaView::Float(y)
            && num_eq(x, y)))),
{
}

/// A chunk's view tells each of its fields.
pub proof fn law_chunk_view_is_its_fields(c: DocumentChunk)
    ensures
        c@.id == c.id && c@.collection == c.collection@ && c@.file_id == c.file_id@,
        c@.chunk_index == c.chunk_index && c@.page == c.page && c@.text == c.text@,
        c@.metadata == c.metadata@ && c@.doc_type == c.doc_type@,
        c@.parent_id == c.parent_id && c@.embeddings == c.embeddings@,
        c.group_id is None ==> c@.group_id is None,
        c.group_id matches Some(g) ==> c@.group_id == Some(g@),
        c.embedding is None ==> c@.embedding is None,
        c.embedding matches Some(v) ==> c@.embedding == Some(v@),
{
}

/// The view of a chunk to be ingested tells each of its fields.
pub proof fn law_ingest_view_is_its_fields(c: IngestChunk)
    ensures
        c@.file_id == c.file_id@ && c@.chunk_index == c.chunk_index && c@.page == c.page,
        c@.text == c.text@ && c@.metadata == c.metadata@ && c@.doc_type == c.doc_type@,
        c@.parent_id == c.parent_id && c@.embeddings == c.embeddings@,
        c.client_id is None ==> c@.client_id is None,
        c.client_id matches Some(x) ==> c@.client_id == Some(x@),
        c.parent_ref is None ==> c@.parent_ref is None,
        c.parent_ref matches Some(x) ==> c@.parent_ref == Some(x@),
        c.group_id is None ==> c@.group_id is None,
        c.group_id matches Some(x) ==> c@.group_id == Some(x@),
        c.embedding is None ==> c@.embedding is None,
        c.embedding matches Some(v) ==> c@.embedding == Some(v@),
{
}

/// An edge's view tells each of its fields.
pub proof fn law_relation_view_is_its_fields(r: ChunkRelation)
    ensures
        r@.relation_id == r.relation_id@ && r@.relation_type == r.relation_type@,
        r@.source_chunk_id == r.source_chunk_id && r@.target_chunk_id == r.target_chunk_id,
        r@.target_status == r.target_status@ && r@.metadata == r.metadata@,
        r@.created_at == r.created_at,
        r.target_document_id is None ==> r@.target_document_id is None,
        r.target_document_id matches Some(d) ==> r@.target_document_id == Some(d@),
{
}

/// A collection's view tells each of its fields.
pub proof fn law_collection_view_is_its_fields(c: Collection)
    ensures
        c@.name == c.name@ && c@.created_at == c.created_at && c@.chunk_count == c.chunk_count,
        c@.vector_spaces == c.vector_spaces@ && c@.embedding_dims == c.embedding_dims,
        c@.next_id == c.next_id && c@.applied_seq == c.applied_seq,
        c@.config.embed_model == c.config.embed_model@,
        c.config.partition_by is None ==> c@.config.partition_by is None,
        c.config.partition_by matches Some(p) ==> c@.config.partition_by == Some(p@),
        c.default_vector_space is None ==> c@.default_vector_space is None,
        c.default_vector_space matches Some(s) ==> c@.default_vector_space == Some(s@),
{
}

/// The views of a space and of a metadata value tell what they hold.
pub proof fn law_space_and_value_views(s: VectorSpaceConfig, b: bool, i: i64, n: Number, t: String)
    ensures
        s@.dims == s.dims && s@.model == s.model@ && s@.status == s.status@,
        MetadataValue::Bool(b)@ == MetaView::Bool(b),
        MetadataValue::Int(i)@ == MetaView::Int(i),
        MetadataValue::Float(n)@ == MetaView::Float(n.bits),
        MetadataValue::String(t)@ == MetaView::Text(t@),
{
}

/// A filter's view tells each of its bounds and lists.
pub proof fn law_filter_view_is_its_parts(c: FilterCondition, v: MetadataValue)
    ensures
        FilterValue::Exact(v)@ == FilterView::Exact(v@),
        (FilterValue::Condition(c)@ matches FilterView::Condition { gte, lte, contains, in_values }
            && (c.gte is Some <==> gte is Some) && (c.gte matches Some(n) ==> gte == Some(n.bits))
            && (c.lte is Some <==> lte is Some) && (c.lte matches Some(n) ==> lte == Some(n.bits))
            && (c.contains is Some <==> contains is Some) && (c.contains matches Some(t) ==> contains
            == Some(t@)) && (c.in_values is Some <==> in_values is Some) && (
        c.in_values matches Some(l) ==> in_values->0.len() == l@.len() && forall|i: int|
            0 <= i < l@.len() ==> #[trigger] in_values->0[i] == l@[i]@)),
{
}

} // verus!
