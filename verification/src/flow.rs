//! The decisions between the steps of an ingest and a delete.
//!
//! A batch is first appended to the log in object storage, which makes it
//! durable, and then applied locally. No lock is held during the append, so
//! that much may have changed once it returns: the collection may be gone, or
//! the refresher may have applied the entry already.
use crate::duplicate::text_view;
use crate::errors::{failed, failure, not_found, EngineError, ErrorView};
use crate::ids::counter_after;
use crate::ingest::{
    batch_embeddings, build_batch, dims_fit, first_misfit, is_batch_of, keeps_what_was_sent,
    IngestBatch,
};
use crate::loaded::{assigned, is_live, with_all, LoadedCollection};
use crate::models::{ingest_views, IngestChunk};
use crate::names::{invalid_name, valid_name, validate_name_segment};
use crate::node::NodeRole;
use crate::partitions::{is_partition_ns, separator};
use crate::text::{contains_text, decimal, decimal_text, own};
use vstd::prelude::*;
use vstd::string::*;

verus! {

// ── Refusals ────────────────────────────────────────────────────────────

/// Refuses a query on a node that only writes.
pub fn check_serves_queries(role: NodeRole) -> (r: Result<(), EngineError>)
    ensures
        r is Ok <==> role != NodeRole::Writer,
        r matches Err(e) ==> e@ == failure(
            "this node runs in writer role and does not serve queries"@,
        ),
{
    match role {
        NodeRole::Writer => Err(
            failed("this node runs in writer role and does not serve queries"),
        ),
        _ => Ok(()),
    }
}

/// Refuses a change of vector spaces on a node that only writes.
pub fn check_manages_spaces(role: NodeRole) -> (r: Result<(), EngineError>)
    ensures
        r is Ok <==> role != NodeRole::Writer,
        r matches Err(e) ==> e@ == failure(
            "this node runs in writer role; manage vector spaces via a serving node"@,
        ),
{
    match role {
        NodeRole::Writer => Err(
            failed(
                "this node runs in writer role; manage vector spaces via a serving node",
            ),
        ),
        _ => Ok(()),
    }
}

/// Refuses a delete by filter on a node that only writes: it has no index to
/// tell what a filter matches.
pub fn check_deletes_by_filter(role: NodeRole) -> (r: Result<(), EngineError>)
    ensures
        r is Ok <==> role != NodeRole::Writer,
        r matches Err(e) ==> e@ == failure(
            "delete-by-filter needs a serving node's indexes; this node runs in writer role (delete by explicit ids instead)"@,
        ),
{
    match role {
        NodeRole::Writer => Err(
            failed(
                "delete-by-filter needs a serving node's indexes; this node runs in writer role (delete by explicit ids instead)",
            ),
        ),
        _ => Ok(()),
    }
}

/// Where a request on a collection goes.
#[derive(Debug)]
pub enum Route {
    /// To the collection itself.
    Here,
    /// To its partitions, by this metadata field.
    Partitions(String),
}

/// Where a request on a collection goes: to partitions if the collection has a
/// partition field and is no partition itself.
pub fn route(name: &str, partition_by: &Option<String>) -> (r: Route)
    ensures
        match r {
            Route::Here => contains_text(name@, separator()) || *partition_by is None,
            Route::Partitions(field) => !contains_text(name@, separator()) && text_view(
                *partition_by,
            ) == Some(field@),
        },
{
    if is_partition_ns(name) {
        return Route::Here;
    }
    match partition_by {
        Some(field) => Route::Partitions(field.clone()),
        None => Route::Here,
    }
}

/// Refuses what a partitioned collection does not support.
pub fn reject_if_partitioned(name: &str, what: &str, partitioned: bool) -> (r: Result<
    (),
    EngineError,
>)
    ensures
        r is Ok <==> !partitioned,
        r matches Err(e) ==> e@ == failure(
            what@ + " is not supported on a partitioned collection yet (collection '"@ + name@
                + "' is partitioned)"@,
        ),
{
    if partitioned {
        let mut s = own(what);
        s.append(" is not supported on a partitioned collection yet (collection '");
        s.append(name);
        s.append("' is partitioned)");
        Err(EngineError::Failed(s))
    } else {
        Ok(())
    }
}

/// What a delete by ids on a partitioned collection is told: a node that only
/// writes cannot serve the delete by filters either.
pub open spec fn bare_ids_text(role: NodeRole) -> Seq<char> {
    match role {
        NodeRole::Writer => "' is partitioned: route the delete through a serving node, via filters (POST .../delete with the partition field), not bare ids"@,
        _ => "' is partitioned: delete via filters (POST .../delete with the partition field), not bare ids"@,
    }
}

/// Refuses a delete by ids on a partitioned collection: ids alone do not say
/// which partition holds them.
pub fn check_deletes_by_id(name: &str, role: NodeRole, partitioned: bool) -> (r: Result<
    (),
    EngineError,
>)
    ensures
        r is Ok <==> !partitioned,
        r matches Err(e) ==> e@ == failure("collection '"@ + name@ + bare_ids_text(role)),
{
    if partitioned {
        let mut s = own("collection '");
        s.append(name);
        match role {
            NodeRole::Writer => s.append(
                "' is partitioned: route the delete through a serving node, via filters (POST .../delete with the partition field), not bare ids",
            ),
            _ => s.append(
                "' is partitioned: delete via filters (POST .../delete with the partition field), not bare ids",
            ),
        }
        Err(EngineError::Failed(s))
    } else {
        Ok(())
    }
}

/// The error for a collection that object storage does not have.
pub fn not_in_bucket(name: &str) -> (r: EngineError)
    ensures
        r@ == (ErrorView {
            not_found: true,
            text: "Collection '"@ + name@ + "' not found in object storage"@,
        }),
{
    let mut s = own("Collection '");
    s.append(name);
    s.append("' not found in object storage");
    not_found(s)
}

/// What was appended to the log.
#[derive(Debug, Clone, Copy, PartialEq, Eq, Structural)]
pub enum Append {
    Ingest,
    WriterIngest,
    Delete,
    WriterDelete,
    RelationUpsert,
    RelationDelete,
}

/// What the error for a failed append begins with.
pub open spec fn append_failure(what: Append) -> Seq<char> {
    match what {
        Append::Ingest => "cloud WAL append failed, ingest not applied: "@,
        Append::WriterIngest => "cloud WAL append failed: "@,
        Append::Delete => "LSM tombstone append failed (delete not applied): "@,
        Append::WriterDelete => "LSM tombstone append failed: "@,
        Append::RelationUpsert => "cloud relation-upsert append failed: "@,
        Append::RelationDelete => "cloud relation-delete append failed: "@,
    }
}

/// The error for a failed append.
pub fn append_failed(what: Append, text: &str) -> (r: EngineError)
    ensures
        r@ == failure(append_failure(what) + text@),
{
    let mut s = match what {
        Append::Ingest => own("cloud WAL append failed, ingest not applied: "),
        Append::WriterIngest => own("cloud WAL append failed: "),
        Append::Delete => own("LSM tombstone append failed (delete not applied): "),
        Append::WriterDelete => own("LSM tombstone append failed: "),
        Append::RelationUpsert => own("cloud relation-upsert append failed: "),
        Append::RelationDelete => own("cloud relation-delete append failed: "),
    };
    s.append(text);
    EngineError::Failed(s)
}

// ── Ingest ──────────────────────────────────────────────────────────────

/// Whether the ids of a batch come from leased blocks. Partitions lease theirs
/// from the allocator of the whole collection, also on a local node: counters
/// of their own would collide.
pub fn leases_ids(cloud_mode: bool, name: &str, count: usize) -> (r: bool)
    ensures
        r == ((cloud_mode || contains_text(name@, separator())) && count > 0),
{
    (cloud_mode || is_partition_ns(name)) && count > 0
}

/// Whether a writer has anything to append: a batch without chunks is answered
/// at once. The name is checked first, before anything is looked up by it.
pub fn writer_has_work(name: &str, count: usize) -> (r: Result<bool, EngineError>)
    ensures
        r is Ok <==> valid_name(name@),
        r matches Ok(work) ==> work == (count > 0),
        r matches Err(e) ==> e@ == invalid_name(name@, "Collection"@),
{
    match validate_name_segment(name, "Collection") {
        Ok(()) => Ok(count > 0),
        Err(e) => Err(e),
    }
}

impl LoadedCollection {
    /// Makes the stored form of a batch: assigns its ids, and builds it by the
    /// collection's own configuration. Ids that were assigned stay assigned if
    /// the batch is refused.
    pub fn prepare_ingest(
        &mut self,
        name: &str,
        chunks: &Vec<IngestChunk>,
        leased: Option<Vec<u64>>,
        built_in: &Vec<Option<Vec<u32>>>,
    ) -> (r: Result<IngestBatch, EngineError>)
        requires
            leased matches Some(ids) ==> ids@.len() == chunks@.len() && forall|i: int|
                0 <= i < ids@.len() ==> #[trigger] ids@[i] < u64::MAX,
            leased is None ==> old(self).next_id + chunks@.len() <= u64::MAX,
        ensures
            r is Ok <==> forall|i: int|
                0 <= i < chunks@.len() ==> dims_fit(
                    #[trigger] batch_embeddings(
                        ingest_views(chunks@),
                        built_in@,
                        old(self).metadata.vector_spaces@,
                        text_view(old(self).metadata.default_vector_space),
                        old(self).metadata.embedding_dims,
                        i,
                    ),
                    old(self).metadata.vector_spaces@,
                    old(self).metadata.embedding_dims,
                ),
            r matches Ok(b) ==> is_batch_of(
                b,
                name@,
                ingest_views(chunks@),
                assigned(lease_view(leased), old(self).next_id, chunks@.len()),
                built_in@,
                old(self).metadata.vector_spaces@,
                text_view(old(self).metadata.default_vector_space),
                old(self).metadata.embedding_dims,
            ),
            r matches Ok(b) ==> forall|i: int|
                0 <= i < b.chunks@.len() ==> (#[trigger] b.chunks@[i]).id < final(self).next_id,
            r matches Ok(b) ==> b.chunks@.len() == chunks@.len() && forall|i: int|
                0 <= i < chunks@.len() ==> #[trigger] keeps_what_was_sent(b.chunks@[i], chunks@[i])
                    && b.chunks@[i].collection@ == name@,
            r matches Err(e) ==> exists|i: int, s: Seq<char>|
                0 <= i < chunks@.len() && #[trigger] first_misfit(
                    ingest_views(chunks@),
                    built_in@,
                    old(self).metadata.vector_spaces@,
                    text_view(old(self).metadata.default_vector_space),
                    old(self).metadata.embedding_dims,
                    i,
                    s,
                    e@,
                ),
            old(self).next_id <= final(self).next_id,
            final(self).next_id == counter_after(
                lease_view(leased),
                old(self).next_id,
                chunks@.len(),
            ),
            *final(self) == (LoadedCollection { next_id: final(self).next_id, ..*old(self) }),
    {
        let ids = self.assign_ids(leased, chunks.len());
        let r = build_batch(
            name,
            chunks,
            &ids,
            built_in,
            &self.metadata.vector_spaces,
            &self.metadata.default_vector_space,
            self.metadata.embedding_dims,
        );
        proof {
            if r is Ok {
                let b = r->Ok_0;
                assert forall|i: int| 0 <= i < b.chunks@.len() implies (
                #[trigger] b.chunks@[i]).id < self.next_id by {
                    assert(b.chunks@[i]@.id == ids@[i]);
                }
            }
        }
        r
    }
}

/// What leased ids are.
pub open spec fn lease_view(o: Option<Vec<u64>>) -> Option<Seq<u64>> {
    match o {
        Some(ids) => Some(ids@),
        None => None,
    }
}

/// The batch that a writer appends after it has built it anew against a fresh
/// configuration. If that fails too, the first error counts.
pub fn second_attempt(
    first_error: EngineError,
    second: Result<IngestBatch, EngineError>,
) -> (r: Result<IngestBatch, EngineError>)
    ensures
        r is Ok <==> second is Ok,
        r matches Ok(b) ==> second == Ok::<IngestBatch, EngineError>(b),
        r matches Err(e) ==> e@ == first_error@,
{
    match second {
        Ok(b) => Ok(b),
        Err(_) => Err(first_error),
    }
}

/// What to do once the batch is in the log.
#[derive(Debug, Clone, Copy, PartialEq, Eq, Structural)]
pub enum AfterAppend {
    /// Apply it locally.
    Apply,
    /// The refresher has applied it: done.
    AlreadyApplied,
    /// The collection is not attached any more, but it exists: done, the next
    /// attach applies the batch.
    Durable,
    /// The collection was deleted: delete the batch from the log too, and
    /// report that the collection does not exist.
    Erase,
    /// Report that the collection does not exist.
    Missing,
}

/// What to do once the batch is in the log. `attached` is the collection, if
/// this node still has it.
pub fn after_append(
    attached: Option<&LoadedCollection>,
    appended: Option<u64>,
    cloud_mode: bool,
    in_bucket: bool,
) -> (r: AfterAppend)
    ensures
        r == (match attached {
            Some(l) => if appended is Some && l.applied.applied(appended->0) {
                AfterAppend::AlreadyApplied
            } else {
                AfterAppend::Apply
            },
            None => if cloud_mode && in_bucket {
                AfterAppend::Durable
            } else if cloud_mode {
                AfterAppend::Erase
            } else {
                AfterAppend::Missing
            },
        }),
{
    match attached {
        Some(l) => {
            if l.already_applied(appended) {
                AfterAppend::AlreadyApplied
            } else {
                AfterAppend::Apply
            }
        },
        None => {
            if cloud_mode && in_bucket {
                AfterAppend::Durable
            } else if cloud_mode {
                AfterAppend::Erase
            } else {
                AfterAppend::Missing
            }
        },
    }
}

/// What to do once the batch was, or was not, committed locally.
#[derive(Debug, Clone, Copy, PartialEq, Eq, Structural)]
pub enum AfterCommit {
    /// Record the log entry as applied.
    Mark(u64),
    Done,
    /// Take the batch back, here and in the log, and report the error.
    TakeBack,
    /// Report the error.
    Fail,
}

/// What to do once the batch was, or was not, committed locally. A batch that is
/// durable but could not be committed must not come back later.
pub fn after_commit(committed: bool, cloud_mode: bool, appended: Option<u64>) -> (r: AfterCommit)
    ensures
        r == (if committed {
            match appended {
                Some(seq) => AfterCommit::Mark(seq),
                None => AfterCommit::Done,
            }
        } else if cloud_mode {
            AfterCommit::TakeBack
        } else {
            AfterCommit::Fail
        }),
{
    if committed {
        match appended {
            Some(seq) => AfterCommit::Mark(seq),
            None => AfterCommit::Done,
        }
    } else if cloud_mode {
        AfterCommit::TakeBack
    } else {
        AfterCommit::Fail
    }
}

impl LoadedCollection {
    /// Takes back a batch whose local commit failed after it had become durable:
    /// its ids count as deleted, so that nothing that was written of it is ever
    /// returned. The log gets a tombstone for the same ids.
    pub fn take_back(&mut self, ids: &Vec<u64>)
        ensures
            final(self).tombstones@ == with_all(old(self).tombstones@, ids@),
            final(self).live@ == old(self).live@.difference(ids@.to_set()),
            *final(self) == (LoadedCollection {
                tombstones: final(self).tombstones,
                live: final(self).live,
                ..*old(self)
            }),
            old(self).wf() ==> final(self).wf(),
    {
        self.mark_deleted(ids);
        self.unindex(ids);
    }

    // ── Delete ──────────────────────────────────────────────────────────

    /// What is left to apply of a delete that is in the log: nothing if the
    /// refresher has applied it, and then all of it counts; else what is still
    /// live.
    pub fn after_delete_append(&self, newly: &Vec<u64>, appended: Option<u64>) -> (r: DeleteStep)
        ensures
            match r {
                DeleteStep::Report(n) => {
                    ||| appended is Some && self.applied.applied(appended->0) && n == newly@.len()
                    ||| !(appended is Some && self.applied.applied(appended->0)) && n == 0
                        && newly@.filter(is_live(self.live@)).len() == 0
                },
                DeleteStep::Apply(ids) => {
                    &&& !(appended is Some && self.applied.applied(appended->0))
                    &&& ids@ == newly@.filter(is_live(self.live@))
                    &&& ids@.len() > 0
                },
            },
    {
        if self.already_applied(appended) {
            return DeleteStep::Report(newly.len());
        }
        let ids = self.live_among(newly);
        if ids.len() == 0 {
            return DeleteStep::Report(0);
        }
        DeleteStep::Apply(ids)
    }
}

/// What is left to do of a delete that is in the log.
#[derive(Debug)]
pub enum DeleteStep {
    /// Nothing; report so many chunks.
    Report(usize),
    /// Apply the delete of these chunks, and report them.
    Apply(Vec<u64>),
}

/// The position of the first id that is not below the frontier.
pub open spec fn first_unallocated(ids: Seq<u64>, frontier: u64, i: int) -> bool {
    &&& 0 <= i < ids.len()
    &&& ids[i] >= frontier
    &&& forall|j: int| 0 <= j < i ==> #[trigger] ids[j] < frontier
}

/// The error for an id that was never allocated.
pub open spec fn unallocated(name: Seq<char>, id: u64, frontier: u64) -> ErrorView {
    failure(
        "chunk id "@ + decimal(id as nat) + " was never allocated in '"@ + name
            + "' (allocator frontier "@ + decimal(frontier as nat) + ")"@,
    )
}

/// Refuses a delete of ids that were never allocated: such a delete would raise
/// the highest id ever seen for good.
pub fn check_allocated(name: &str, ids: &Vec<u64>, frontier: u64) -> (r: Result<(), EngineError>)
    ensures
        r is Ok <==> forall|i: int| 0 <= i < ids@.len() ==> #[trigger] ids@[i] < frontier,
        r matches Err(e) ==> exists|i: int| #[trigger]
            first_unallocated(ids@, frontier, i) && e@ == unallocated(name@, ids@[i], frontier),
{
    let mut i: usize = 0;
    while i < ids.len()
        invariant
            i <= ids@.len(),
            forall|j: int| 0 <= j < i ==> #[trigger] ids@[j] < frontier,
        decreases ids.len() - i,
    {
        if ids[i] >= frontier {
            let mut s = own("chunk id ");
            s.append(decimal_text(ids[i]).as_str());
            s.append(" was never allocated in '");
            s.append(name);
            s.append("' (allocator frontier ");
            s.append(decimal_text(frontier).as_str());
            s.append(")");
            proof {
                assert(first_unallocated(ids@, frontier, i as int));
            }
            return Err(EngineError::Failed(s));
        }
        i = i + 1;
    }
    Ok(())
}

// ── Laws ────────────────────────────────────────────────────────────────

/// The id that a refused delete names was never allocated, every one before it was, and
/// the error names the id, the collection and the frontier.
pub proof fn law_refused_delete_names_the_id(
    name: Seq<char>,
    ids: Seq<u64>,
    frontier: u64,
    i: int,
    j: int,
)
    requires
        first_unallocated(ids, frontier, i),
    ensures
        0 <= i < ids.len() && frontier <= ids[i],
        0 <= j < i ==> ids[j] < frontier,
        contains_text(unallocated(name, ids[i], frontier).text, name),
        contains_text(unallocated(name, ids[i], frontier).text, decimal(ids[i] as nat)),
        contains_text(unallocated(name, ids[i], frontier).text, decimal(frontier as nat)),
        !unallocated(name, ids[i], frontier).not_found,
{
    let text = unallocated(name, ids[i], frontier).text;
    let id = decimal(ids[i] as nat);
    let f = decimal(frontier as nat);
    let a = "chunk id "@;
    let b = " was never allocated in '"@;
    let c = "' (allocator frontier "@;
    assert(text =~= a + id + (b + name + c + f + ")"@));
    crate::text::law_holding_a_text(text, id, a, b + name + c + f + ")"@);
    assert(text =~= (a + id + b) + name + (c + f + ")"@));
    crate::text::law_holding_a_text(text, name, a + id + b, c + f + ")"@);
    crate::text::law_holding_a_text(text, f, a + id + b + name + c, ")"@);
}

/// The ids of a lease are those that are assigned.
pub proof fn law_leased_ids_are_assigned(ids: Vec<u64>, next_id: u64, count: nat)
    ensures
        assigned(lease_view(Some(ids)), next_id, count) == ids@,
        lease_view(None) is None,
{
}

/// What a failed append leaves undone is said by each operation in its own words.
pub proof fn law_failed_appends_in_words()
    ensures
        append_failure(Append::Ingest) == "cloud WAL append failed, ingest not applied: "@,
        append_failure(Append::WriterIngest) == "cloud WAL append failed: "@,
        append_failure(Append::Delete) == "LSM tombstone append failed (delete not applied): "@,
        append_failure(Append::WriterDelete) == "LSM tombstone append failed: "@,
        append_failure(Append::RelationUpsert) == "cloud relation-upsert append failed: "@,
        append_failure(Append::RelationDelete) == "cloud relation-delete append failed: "@,
{
}

} // verus!
