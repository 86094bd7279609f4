//! Vector index backends: what every backend offers, and the one that builds its
//! graph on a GPU.
//!
//! Vectors are lists of single-precision bit patterns.
use crate::le::{le32, le64, push_u32, push_u64, read_u32, read_u64, u32_at, u64_at};
use crate::number::score_key;
use crate::text::{decimal, decimal_text, own};
use vstd::prelude::*;
use vstd::string::*;

verus! {

/// A vector that was found.
#[derive(Debug, Clone, Copy, PartialEq, Eq, Structural)]
pub struct VectorMatch {
    /// The chunk, not the position in the index.
    pub chunk_id: u64,
    /// The similarity, as a single-precision bit pattern.
    pub score: u32,
}

/// How an index is built.
#[derive(Debug, Clone, Copy, PartialEq, Eq, Structural)]
pub struct IndexParams {
    pub dims: usize,
    /// Expected number of vectors; no hard cap.
    pub capacity: usize,
    /// Most edges per node of the graph.
    pub connectivity: usize,
    /// Beam width while the graph is built.
    pub ef_construction: usize,
    /// Beam width while the graph is searched.
    pub ef_search: usize,
}

impl Default for IndexParams {
    fn default() -> (r: IndexParams)
        ensures
            r == (IndexParams {
                dims: 768,
                capacity: 0,
                connectivity: 16,
                ef_construction: 128,
                ef_search: 64,
            }),
    {
        IndexParams {
            dims: 768,
            capacity: 0,
            connectivity: 16,
            ef_construction: 128,
            ef_search: 64,
        }
    }
}

/// An error of a backend.
#[derive(Debug, Clone, PartialEq, Eq)]
pub enum IndexError {
    /// An index could not be stored or loaded.
    Io(String),
    /// A vector has the wrong number of components.
    DimMismatch { expected: usize, actual: usize },
    Backend(String),
    GpuUnavailable(String),
    /// The backend does not offer this.
    Unsupported(String),
}

impl IndexError {
    /// What the error's message says.
    pub open spec fn text(&self) -> Seq<char> {
        match self {
            IndexError::Io(s) => "io error: "@ + s@,
            IndexError::DimMismatch { expected, actual } => "dimension mismatch: expected "@
                + decimal(*expected as nat) + ", got "@ + decimal(*actual as nat),
            IndexError::Backend(s) => "backend error: "@ + s@,
            IndexError::GpuUnavailable(s) => "gpu unavailable: "@ + s@,
            IndexError::Unsupported(s) => "unsupported: "@ + s@,
        }
    }

    /// The error's message.
    pub fn message(&self) -> (r: String)
        ensures
            r@ == self.text(),
    {
        match self {
            IndexError::Io(s) => {
                let mut m = own("io error: ");
                m.append(s.as_str());
                m
            },
            IndexError::DimMismatch { expected, actual } => {
                let mut m = own("dimension mismatch: expected ");
                m.append(decimal_text(*expected as u64).as_str());
                m.append(", got ");
                m.append(decimal_text(*actual as u64).as_str());
                m
            },
            IndexError::Backend(s) => {
                let mut m = own("backend error: ");
                m.append(s.as_str());
                m
            },
            IndexError::GpuUnavailable(s) => {
                let mut m = own("gpu unavailable: ");
                m.append(s.as_str());
                m
            },
            IndexError::Unsupported(s) => {
                let mut m = own("unsupported: ");
                m.append(s.as_str());
                m
            },
        }
    }
}

/// The scores fall, or stay the same, from each match to the next.
pub open spec fn best_first(matches: Seq<VectorMatch>) -> bool {
    forall|i: int, j: int|
        0 <= i < j < matches.len() ==> score_key((#[trigger] matches[i]).score) >= score_key(
            (#[trigger] matches[j]).score,
        )
}

/// A vector index backend.
pub trait VectorIndex: Sized {
    /// The number of vectors in the index.
    spec fn size(&self) -> nat;

    /// The number of components of a vector.
    spec fn width(&self) -> nat;

    /// Builds the index from vectors and the chunks that they belong to, in place
    /// of what it held.
    fn build(&mut self, vectors: &Vec<Vec<u32>>, chunk_ids: &Vec<u64>) -> (r: Result<
        (),
        IndexError,
    >)
        ensures
            r is Ok ==> final(self).size() == vectors@.len(),
            final(self).width() == old(self).width(),
    ;

    /// Adds one vector. Not every backend can.
    fn add(&mut self, chunk_id: u64, vector: &Vec<u32>) -> (r: Result<(), IndexError>)
        ensures
            r is Ok ==> final(self).size() == old(self).size() + 1,
            r is Err ==> final(self).size() == old(self).size(),
            final(self).width() == old(self).width(),
    ;

    /// Finds the `top_k` vectors nearest to a query, the best first.
    fn search(&self, query: &Vec<u32>, top_k: usize) -> (r: Result<Vec<VectorMatch>, IndexError>)
        ensures
            query@.len() != self.width() ==> r is Err,
            r matches Ok(v) ==> v@.len() <= top_k,
            r matches Ok(v) ==> best_first(v@),
    ;

    fn len(&self) -> (r: usize)
        ensures
            r == self.size(),
    ;

    /// Whether the index holds no vector.
    fn is_empty(&self) -> (r: bool)
        ensures
            r == (self.size() == 0),
    {
        self.len() == 0
    }

    fn dims(&self) -> (r: usize)
        ensures
            r == self.width(),
    ;

    /// Stores the index under a path.
    fn save(&self, path: &str) -> (r: Result<(), IndexError>);

    /// What the backend is called.
    fn backend_name(&self) -> (r: &'static str);
}

/// A backend whose indexes can be loaded from where they were stored.
pub trait LoadableIndex: VectorIndex {
    fn load(path: &str, params: IndexParams) -> (r: Result<Self, IndexError>)
        ensures
            r matches Ok(i) ==> i.width() == params.dims,
    ;
}

/// Whether a GPU backend is linked: none is.
pub fn gpu_available() -> (r: bool)
    ensures
        !r,
{
    false
}

// ── The GPU backend ─────────────────────────────────────────────────────

/// A graph built on the GPU. No build of one is wired up.
#[derive(Debug)]
pub struct HnswHandle {}

/// An index whose graph is built on the GPU and searched on the CPU.
#[derive(Debug)]
pub struct CuvsHnswIndex {
    params: IndexParams,
    index: Option<HnswHandle>,
    key_to_chunk_id: Vec<u64>,
}

/// Whether there is a CUDA device. The probe answers yes until builds are wired
/// up.
pub fn cuda_available() -> (r: bool)
    ensures
        r,
{
    true
}

fn build_hnsw_from_cagra(vectors: &Vec<Vec<u32>>, params: &IndexParams) -> (r: Result<
    HnswHandle,
    String,
>)
    ensures
        r matches Err(e) && e@
            == "cuVS build path not yet wired in this build; see crates/compass-vector-gpu/src/lib.rs"@,
{
    Err(
        own(
            "cuVS build path not yet wired in this build; see crates/compass-vector-gpu/src/lib.rs",
        ),
    )
}

/// The error of a build.
pub open spec fn is_build_error(e: IndexError) -> bool {
    e matches IndexError::Backend(s) && s@
        == "cuVS build failed: cuVS build path not yet wired in this build; see crates/compass-vector-gpu/src/lib.rs"@
}

/// The error for lists that do not match.
pub open spec fn is_length_error(e: IndexError, vectors: nat, ids: nat) -> bool {
    e matches IndexError::Backend(s) && s@ == "vectors ("@ + decimal(vectors)
        + ") and chunk_ids ("@ + decimal(ids) + ") length mismatch"@
}

/// The error for a vector with the wrong number of components.
pub open spec fn is_dims_error(e: IndexError, expected: nat, actual: nat) -> bool {
    e matches IndexError::DimMismatch { expected: x, actual: a } && x == expected && a == actual
}

/// What refuses a build: lists that do not match, then a first vector of the
/// wrong size; else the build itself, which is not wired up.
pub open spec fn build_refused(
    dims: nat,
    vectors: Seq<Vec<u32>>,
    ids: nat,
    e: IndexError,
) -> bool {
    if vectors.len() != ids {
        is_length_error(e, vectors.len(), ids)
    } else if vectors.len() > 0 && vectors[0]@.len() != dims {
        is_dims_error(e, dims, vectors[0]@.len())
    } else {
        is_build_error(e)
    }
}

impl CuvsHnswIndex {
    /// The parameters of the index.
    pub closed spec fn parameters(&self) -> IndexParams {
        self.params
    }

    /// The graph was built or loaded.
    pub closed spec fn built(&self) -> bool {
        self.index is Some
    }

    /// The chunk of each vector, by position.
    pub closed spec fn keys(&self) -> Seq<u64> {
        self.key_to_chunk_id@
    }

    /// An empty index.
    pub fn new(params: IndexParams) -> (r: Result<CuvsHnswIndex, IndexError>)
        ensures
            r matches Ok(i) && i.parameters() == params && !i.built() && i.keys().len() == 0,
    {
        if !cuda_available() {
            return Err(IndexError::GpuUnavailable(own("no CUDA-capable device detected")));
        }
        Ok(CuvsHnswIndex { params, index: None, key_to_chunk_id: Vec::new() })
    }

    /// Adds many vectors at once, in place of what the index held.
    pub fn add_batch(&mut self, vectors: &Vec<Vec<u32>>, chunk_ids: &Vec<u64>) -> (r: Result<
        (),
        IndexError,
    >)
        ensures
            *final(self) == *old(self),
            r matches Err(e) && build_refused(
                old(self).parameters().dims as nat,
                vectors@,
                chunk_ids@.len(),
                e,
            ),
    {
        if vectors.len() != chunk_ids.len() {
            let mut m = own("vectors (");
            m.append(decimal_text(vectors.len() as u64).as_str());
            m.append(") and chunk_ids (");
            m.append(decimal_text(chunk_ids.len() as u64).as_str());
            m.append(") length mismatch");
            return Err(IndexError::Backend(m));
        }
        if vectors.len() > 0 && vectors[0].len() != self.params.dims {
            return Err(
                IndexError::DimMismatch { expected: self.params.dims, actual: vectors[0].len() },
            );
        }
        match build_hnsw_from_cagra(vectors, &self.params) {
            Ok(handle) => {
                self.index = Some(handle);
                let mut keys: Vec<u64> = Vec::new();
                let mut i: usize = 0;
                while i < chunk_ids.len()
                    invariant
                        i <= chunk_ids@.len(),
                    decreases chunk_ids.len() - i,
                {
                    keys.push(chunk_ids[i]);
                    i = i + 1;
                }
                self.key_to_chunk_id = keys;
                Ok(())
            },
            Err(e) => {
                let mut m = own("cuVS build failed: ");
                m.append(e.as_str());
                proof {
                    reveal_strlit("cuVS build failed: ");
                    reveal_strlit(
                        "cuVS build path not yet wired in this build; see crates/compass-vector-gpu/src/lib.rs",
                    );
                    reveal_strlit(
                        "cuVS build failed: cuVS build path not yet wired in this build; see crates/compass-vector-gpu/src/lib.rs",
                    );
                    assert(m@
                        =~= "cuVS build failed: cuVS build path not yet wired in this build; see crates/compass-vector-gpu/src/lib.rs"@);
                }
                Err(IndexError::Backend(m))
            },
        }
    }

    /// The chunk at a position of the graph; a position without one stands for
    /// itself.
    pub fn chunk_at(&self, internal_key: u64) -> (r: u64)
        ensures
            r == (if internal_key < self.keys().len() {
                self.keys()[internal_key as int]
            } else {
                internal_key
            }),
    {
        let n: usize = self.key_to_chunk_id.len();
        if internal_key < n as u64 {
            self.key_to_chunk_id[internal_key as usize]
        } else {
            internal_key
        }
    }
}

impl VectorIndex for CuvsHnswIndex {
    open spec fn size(&self) -> nat {
        self.keys().len()
    }

    open spec fn width(&self) -> nat {
        self.parameters().dims as nat
    }

    fn build(&mut self, vectors: &Vec<Vec<u32>>, chunk_ids: &Vec<u64>) -> (r: Result<
        (),
        IndexError,
    >)
        ensures
            *final(self) == *old(self),
            r matches Err(e) && build_refused(
                old(self).parameters().dims as nat,
                vectors@,
                chunk_ids@.len(),
                e,
            ),
    {
        self.add_batch(vectors, chunk_ids)
    }

    fn add(&mut self, chunk_id: u64, vector: &Vec<u32>) -> (r: Result<(), IndexError>)
        ensures
            *final(self) == *old(self),
            r matches Err(IndexError::Unsupported(s)) && s@
                == "incremental add not supported on CAGRA-built indexes; rebuild via build()"@,
    {
        Err(
            IndexError::Unsupported(
                own("incremental add not supported on CAGRA-built indexes; rebuild via build()"),
            ),
        )
    }

    fn search(&self, query: &Vec<u32>, top_k: usize) -> (r: Result<Vec<VectorMatch>, IndexError>)
        ensures
            r matches Err(e) && if query@.len() != self.parameters().dims {
                is_dims_error(e, self.parameters().dims as nat, query@.len())
            } else if !self.built() {
                e matches IndexError::Backend(s) && s@ == "search called before build"@
            } else {
                e matches IndexError::Backend(s) && s@
                    == "cuVS search failed: cuVS search path not yet wired"@
            },
    {
        if query.len() != self.params.dims {
            return Err(
                IndexError::DimMismatch { expected: self.params.dims, actual: query.len() },
            );
        }
        match &self.index {
            None => Err(IndexError::Backend(own("search called before build"))),
            Some(_) => Err(
                IndexError::Backend(own("cuVS search failed: cuVS search path not yet wired")),
            ),
        }
    }

    fn len(&self) -> (r: usize) {
        self.key_to_chunk_id.len()
    }

    fn dims(&self) -> (r: usize) {
        self.params.dims
    }

    fn save(&self, path: &str) -> (r: Result<(), IndexError>)
        ensures
            r matches Err(e) && if !self.built() {
                e matches IndexError::Backend(s) && s@ == "save called before build"@
            } else {
                e matches IndexError::Io(s) && s@
                    == "cuVS serialize failed: cuVS serialize path not yet wired"@
            },
    {
        match &self.index {
            None => Err(IndexError::Backend(own("save called before build"))),
            Some(_) => Err(
                IndexError::Io(own("cuVS serialize failed: cuVS serialize path not yet wired")),
            ),
        }
    }

    fn backend_name(&self) -> (r: &'static str)
        ensures
            r@ == "cuvs-hnsw"@,
    {
        "cuvs-hnsw"
    }
}

impl LoadableIndex for CuvsHnswIndex {
    fn load(path: &str, params: IndexParams) -> (r: Result<CuvsHnswIndex, IndexError>)
        ensures
            r matches Err(IndexError::Io(s)) && s@
                == "cuVS deserialize failed: cuVS deserialize path not yet wired"@,
    {
        Err(
            IndexError::Io(own("cuVS deserialize failed: cuVS deserialize path not yet wired")),
        )
    }
}

// ── Key maps ────────────────────────────────────────────────────────────

/// The bytes of a list of ids.
pub open spec fn id_bytes(ids: Seq<u64>) -> Seq<u8>
    decreases ids.len(),
{
    if ids.len() == 0 {
        Seq::empty()
    } else {
        id_bytes(ids.drop_last()) + le64(ids.last())
    }
}

/// The stored form of a key map: the number of ids in four bytes, then the ids.
pub open spec fn key_map_bytes(ids: Seq<u64>) -> Seq<u8> {
    le32((ids.len() % 0x1_0000_0000) as u32) + id_bytes(ids)
}

proof fn lemma_id_bytes(ids: Seq<u64>)
    ensures
        id_bytes(ids).len() == 8 * ids.len(),
        forall|k: int| 0 <= k < ids.len() ==> u64_at(id_bytes(ids), 8 * k) == #[trigger] ids[k],
    decreases ids.len(),
{
    broadcast use crate::le::lemma_le64;

    if ids.len() > 0 {
        let init = ids.drop_last();
        lemma_id_bytes(init);
        let all = id_bytes(ids);
        assert forall|k: int| 0 <= k < ids.len() implies u64_at(all, 8 * k) == #[trigger] ids[k] by {
            if k < init.len() {
                assert(all.subrange(8 * k, 8 * k + 8) =~= id_bytes(init).subrange(
                    8 * k,
                    8 * k + 8,
                ));
                assert(u64_at(id_bytes(init), 8 * k) == init[k]);
            } else {
                assert(all.subrange(8 * k, 8 * k + 8) =~= le64(ids.last()));
            }
        }
    }
}

/// The stored form of a key map.
pub fn encode_key_map(ids: &Vec<u64>) -> (r: Vec<u8>)
    ensures
        r@ == key_map_bytes(ids@),
{
    let mut buf: Vec<u8> = Vec::new();
    let count: u32 = ((ids.len() as u64) % 0x1_0000_0000) as u32;
    push_u32(&mut buf, count);
    let mut i: usize = 0;
    proof {
        assert(buf@ =~= le32(count));
        assert(ids@.subrange(0, 0) =~= Seq::empty());
        assert(buf@ =~= le32(count) + id_bytes(ids@.subrange(0, 0)));
    }
    while i < ids.len()
        invariant
            i <= ids@.len(),
            buf@ == le32(count) + id_bytes(ids@.subrange(0, i as int)),
        decreases ids.len() - i,
    {
        push_u64(&mut buf, ids[i]);
        proof {
            let longer = ids@.subrange(0, i + 1);
            assert(longer.drop_last() =~= ids@.subrange(0, i as int));
            assert(buf@ =~= le32(count) + id_bytes(longer));
        }
        i = i + 1;
    }
    proof {
        assert(ids@.subrange(0, ids@.len() as int) =~= ids@);
    }
    buf
}

/// The number of ids that the stored form of a key map announces.
pub open spec fn announced(bytes: Seq<u8>) -> int {
    if bytes.len() < 4 {
        0
    } else {
        u32_at(bytes, 0) as int
    }
}

/// Reads the stored form of a key map; fewer than four bytes are an empty one.
pub fn decode_key_map(bytes: &Vec<u8>) -> (r: Vec<u64>)
    requires
        bytes@.len() < 4 || bytes@.len() >= 4 + 8 * announced(bytes@),
    ensures
        r@.len() == announced(bytes@),
        forall|k: int| 0 <= k < r@.len() ==> #[trigger] r@[k] == u64_at(bytes@, 4 + 8 * k),
{
    let mut ids: Vec<u64> = Vec::new();
    if bytes.len() < 4 {
        return ids;
    }
    let count: usize = read_u32(bytes.as_slice(), 0) as usize;
    let size: usize = bytes.len();
    let mut i: usize = 0;
    let mut pos: usize = 4;
    while i < count
        invariant
            i <= count,
            count == announced(bytes@),
            size == bytes@.len(),
            size >= 4 + 8 * count,
            pos == 4 + 8 * i,
            ids@.len() == i,
            forall|k: int| 0 <= k < i ==> #[trigger] ids@[k] == u64_at(bytes@, 4 + 8 * k),
        decreases count - i,
    {
        ids.push(read_u64(bytes.as_slice(), pos));
        pos = pos + 8;
        i = i + 1;
    }
    ids
}

/// A key map reads back as it was written. This leaves out maps of 2^32 ids and
/// more, whose number the stored form cannot hold.
pub proof fn law_key_map_reads_back(ids: Seq<u64>)
    requires
        ids.len() < 0x1_0000_0000,
    ensures
        announced(key_map_bytes(ids)) == ids.len(),
        key_map_bytes(ids).len() == 4 + 8 * ids.len(),
        forall|k: int|
            0 <= k < ids.len() ==> u64_at(key_map_bytes(ids), 4 + 8 * k) == #[trigger] ids[k],
{
    broadcast use crate::le::lemma_le32;

    lemma_id_bytes(ids);
    let b = key_map_bytes(ids);
    let n = ids.len() as u32;
    assert(b.subrange(0, 4) =~= le32(n));
    assert forall|k: int| 0 <= k < ids.len() implies u64_at(b, 4 + 8 * k) == #[trigger] ids[k] by {
        assert(b.subrange(4 + 8 * k, 4 + 8 * k + 8) =~= id_bytes(ids).subrange(8 * k, 8 * k + 8));
        assert(u64_at(id_bytes(ids), 8 * k) == ids[k]);
    }
}

/// Of matches that come best first, none scores higher than one before it.
pub proof fn law_matches_come_best_first(matches: Seq<VectorMatch>, i: int, j: int)
    requires
        best_first(matches),
        0 <= i <= j < matches.len(),
    ensures
        score_key(matches[j].score) <= score_key(matches[i].score),
{
}

/// A build is refused first for ids that are not one for each vector, then for vectors of
/// another width than the index has, and otherwise for want of a device.
pub proof fn law_refused_builds(dims: nat, vectors: Seq<Vec<u32>>, ids: nat, e: IndexError)
    requires
        build_refused(dims, vectors, ids, e),
    ensures
        vectors.len() > 0 && vectors.len() == ids && vectors[0]@.len() != dims ==> (
        e matches IndexError::DimMismatch { expected, actual } && expected == dims && actual
            == vectors[0]@.len()),
        vectors.len() != ids ==> (e matches IndexError::Backend(s) && s@ == "vectors ("@ + decimal(
            vectors.len(),
        ) + ") and chunk_ids ("@ + decimal(ids) + ") length mismatch"@),
        vectors.len() == ids && (vectors.len() == 0 || vectors[0]@.len() == dims)
            ==> e is Backend,
{
}

/// A key map announces the number in its first 4 bytes, and none where it is shorter.
pub proof fn law_announced_keys(bytes: Seq<u8>)
    ensures
        bytes.len() >= 4 ==> announced(bytes) == u32_at(bytes, 0),
        bytes.len() < 4 ==> announced(bytes) == 0,
{
}

} // verus!
