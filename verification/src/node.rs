//! What a node is and which collections it holds: roles, start-up, attaching on
//! demand, eviction, listing and deletion.
use crate::duplicate::text_views;
use crate::errors::{collection_not_found, missing_collection, EngineError};
use crate::models::{texts_contain, Collection};
use crate::names::{invalid_name, valid_name, validate_name_segment};
use crate::partitions::{is_partition_ns, separator, PART_SEP};
use crate::text::{contains_text, own, starts_with_text, strip_text_prefix, text_eq};
use vstd::prelude::*;
use vstd::string::*;

verus! {

/// What a node does.
#[derive(Debug, Clone, Copy, PartialEq, Eq, Structural)]
pub enum NodeRole {
    /// Serves reads and writes from full local indexes.
    Full,
    /// Appends writes durably; no local indexes, no reads.
    Writer,
}

impl NodeRole {
    /// The role that a setting names: "writer", else full.
    pub fn from_setting(value: Option<&str>) -> (r: NodeRole)
        ensures
            r == (if value is Some && value->0@ == "writer"@ {
                NodeRole::Writer
            } else {
                NodeRole::Full
            }),
    {
        match value {
            Some(v) => {
                if text_eq(v, "writer") {
                    NodeRole::Writer
                } else {
                    NodeRole::Full
                }
            },
            None => NodeRole::Full,
        }
    }
}

/// How a node runs.
#[derive(Debug, Clone, Copy, PartialEq, Eq, Structural)]
pub struct NodeOptions {
    pub role: NodeRole,
    /// The source of truth is object storage, not the local disk.
    pub cloud_mode: bool,
    /// Collections are attached on their first request.
    pub lazy_attach: bool,
    /// The most collections attached at a time; 0 for no limit.
    pub max_attached: usize,
}

/// How a node runs on a storage backend. Writer role and lazy attach mean
/// nothing without object storage.
pub fn node_options(
    backend_name: &str,
    role: NodeRole,
    lazy_attach: bool,
    max_attached: usize,
) -> (r: NodeOptions)
    ensures
        r.cloud_mode == (backend_name@ != "local-disk"@),
        r.role == (if r.cloud_mode {
            role
        } else {
            NodeRole::Full
        }),
        r.lazy_attach == (r.cloud_mode && lazy_attach),
        r.max_attached == max_attached,
{
    let cloud_mode = !text_eq(backend_name, "local-disk");
    let role = if cloud_mode {
        role
    } else {
        NodeRole::Full
    };
    NodeOptions { role, cloud_mode, lazy_attach: cloud_mode && lazy_attach, max_attached }
}

/// Whether the node loads collections at start: a writer serves none.
pub fn loads_collections(opts: &NodeOptions) -> (r: bool)
    ensures
        r == (opts.role != NodeRole::Writer),
{
    match opts.role {
        NodeRole::Writer => false,
        NodeRole::Full => true,
    }
}

/// Whether the node keeps its indexes in step with object storage in the
/// background.
pub fn runs_refresher(opts: &NodeOptions, interval_secs: u64) -> (r: bool)
    ensures
        r == (opts.role != NodeRole::Writer && opts.cloud_mode && interval_secs > 0),
{
    loads_collections(opts) && opts.cloud_mode && interval_secs > 0
}

/// What to do at start about a collection found in object storage.
#[derive(Debug)]
pub enum BootAction {
    /// Remember it; attach it on its first request.
    Register(String),
    /// Rebuild its local indexes.
    Rebuild(String),
}

/// What a start-up action says.
pub open spec fn boot_action_is(a: BootAction, lazy: bool, ns: Seq<char>) -> bool {
    match a {
        BootAction::Register(n) => lazy && n@ == ns,
        BootAction::Rebuild(n) => !lazy && n@ == ns,
    }
}

/// The collections in object storage that are not on the local disk.
pub open spec fn to_recover(found: Seq<Seq<char>>, loaded: Seq<Seq<char>>) -> Seq<Seq<char>> {
    found.filter(|n: Seq<char>| !loaded.contains(n))
}

/// What to do at start about the collections found in object storage: those
/// that are not loaded yet are registered or rebuilt, in the order found.
pub fn boot_plan(opts: &NodeOptions, found: &Vec<String>, loaded: &Vec<String>) -> (r: Vec<
    BootAction,
>)
    ensures
        opts.cloud_mode ==> r@.len() == to_recover(text_views(found@), text_views(loaded@)).len(),
        opts.cloud_mode ==> forall|i: int|
            0 <= i < r@.len() ==> boot_action_is(
                #[trigger] r@[i],
                opts.lazy_attach,
                to_recover(text_views(found@), text_views(loaded@))[i],
            ),
        !opts.cloud_mode ==> r@.len() == 0,
{
    let mut out: Vec<BootAction> = Vec::new();
    if !opts.cloud_mode {
        return out;
    }
    let ghost all = text_views(found@);
    let ghost have = text_views(loaded@);
    let ghost p = |n: Seq<char>| !have.contains(n);
    let mut i: usize = 0;
    proof {
        reveal(Seq::filter);
        assert(all.subrange(0, 0) =~= Seq::empty());
    }
    while i < found.len()
        invariant
            i <= found@.len(),
            all == text_views(found@),
            have == text_views(loaded@),
            p == (|n: Seq<char>| !have.contains(n)),
            out@.len() == all.subrange(0, i as int).filter(p).len(),
            forall|k: int|
                0 <= k < out@.len() ==> boot_action_is(
                    #[trigger] out@[k],
                    opts.lazy_attach,
                    all.subrange(0, i as int).filter(p)[k],
                ),
        decreases found.len() - i,
    {
        proof {
            let shorter = all.subrange(0, i as int);
            assert(all.subrange(0, i + 1) =~= shorter.push(all[i as int]));
            crate::assoc::lemma_filter_push(shorter, all[i as int], p);
        }
        if !texts_contain(loaded, found[i].as_str()) {
            if opts.lazy_attach {
                out.push(BootAction::Register(found[i].clone()));
            } else {
                out.push(BootAction::Rebuild(found[i].clone()));
            }
        }
        i = i + 1;
    }
    proof {
        assert(all.subrange(0, all.len() as int) =~= all);
        assert(to_recover(all, have) == all.filter(p));
    }
    out
}

// ── Attaching on demand ─────────────────────────────────────────────────

/// What serving a request against a collection takes.
#[derive(Debug, Clone, Copy, PartialEq, Eq, Structural)]
pub enum AttachStep {
    /// The collection is ready, or never attached on demand.
    Ready,
    /// Take the collection's attach lock and look again.
    Lock,
    /// Look for the collection in object storage.
    Probe,
    /// Remember the collection and rebuild its local indexes.
    Rebuild,
}

/// Collections attached on demand: all of them on a lazy node, and partitions on
/// any node with object storage, since any writer can make one at any time.
pub open spec fn attaches_on_demand(opts: NodeOptions, ns: Seq<char>) -> bool {
    opts.lazy_attach || (opts.cloud_mode && contains_text(ns, separator()))
}

/// The first look at a collection before a request.
pub fn attach_needed(opts: &NodeOptions, ns: &str, attached: bool) -> (r: AttachStep)
    ensures
        r == (if attaches_on_demand(*opts, ns@) && !attached {
            AttachStep::Lock
        } else {
            AttachStep::Ready
        }),
{
    let dynamic_partition = opts.cloud_mode && is_partition_ns(ns);
    if (opts.lazy_attach || dynamic_partition) && !attached {
        AttachStep::Lock
    } else {
        AttachStep::Ready
    }
}

/// The second look, under the attach lock: another request may have attached the
/// collection meanwhile. A name that is not known must be a valid one before
/// object storage is asked for it.
pub fn attach_locked(ns: &str, attached: bool, registered: bool) -> (r: Result<
    AttachStep,
    EngineError,
>)
    ensures
        r is Err <==> !attached && !registered && !valid_name(ns@),
        r matches Err(e) ==> e@ == invalid_name(ns@, "Collection"@),
        r matches Ok(s) ==> s == (if attached {
            AttachStep::Ready
        } else if registered {
            AttachStep::Rebuild
        } else {
            AttachStep::Probe
        }),
{
    if attached {
        return Ok(AttachStep::Ready);
    }
    if registered {
        return Ok(AttachStep::Rebuild);
    }
    match validate_name_segment(ns, "Collection") {
        Ok(()) => Ok(AttachStep::Probe),
        Err(e) => Err(e),
    }
}

/// What to do after object storage was asked for the collection's configuration
/// and manifest.
pub fn attach_probed(ns: &str, has_config: bool, has_manifest: bool) -> (r: Result<
    AttachStep,
    EngineError,
>)
    ensures
        r is Ok <==> has_config || has_manifest,
        r matches Ok(s) ==> s == AttachStep::Rebuild,
        r matches Err(e) ==> e@ == missing_collection(ns@),
{
    if has_config || has_manifest {
        Ok(AttachStep::Rebuild)
    } else {
        Err(collection_not_found(ns))
    }
}

// ── Eviction ────────────────────────────────────────────────────────────

/// A collection may be evicted: it is another one than the one just attached,
/// and none of the others was used longer ago.
pub open spec fn least_recently_used(
    attached: Seq<(String, u64)>,
    just_attached: Seq<char>,
    i: int,
) -> bool {
    &&& 0 <= i < attached.len()
    &&& attached[i].0@ != just_attached
    &&& forall|j: int|
        0 <= j < attached.len() && (#[trigger] attached[j]).0@ != just_attached ==> attached[i].1
            <= attached[j].1
}

/// The collection to detach when more are attached than the node may hold: the
/// least recently used one, never the one just attached.
pub fn eviction_victim(
    max_attached: usize,
    attached: &Vec<(String, u64)>,
    just_attached: &str,
) -> (r: Option<String>)
    ensures
        r is Some <==> max_attached > 0 && attached@.len() > max_attached && exists|i: int|
            0 <= i < attached@.len() && (#[trigger] attached@[i]).0@ != just_attached@,
        r matches Some(n) ==> exists|i: int| #[trigger]
            least_recently_used(attached@, just_attached@, i) && n@ == attached@[i].0@,
{
    if max_attached == 0 || attached.len() <= max_attached {
        return None;
    }
    let mut best: Option<usize> = None;
    let mut i: usize = 0;
    while i < attached.len()
        invariant
            i <= attached@.len(),
            best is None <==> forall|j: int|
                0 <= j < i ==> (#[trigger] attached@[j]).0@ == just_attached@,
            best matches Some(b) ==> b < i && attached@[b as int].0@ != just_attached@ && forall|
                j: int,
            |
                0 <= j < i && (#[trigger] attached@[j]).0@ != just_attached@
                    ==> attached@[b as int].1 <= attached@[j].1,
        decreases attached.len() - i,
    {
        if !text_eq(attached[i].0.as_str(), just_attached) {
            best = match best {
                None => Some(i),
                Some(b) => {
                    if attached[i].1 < attached[b].1 {
                        Some(i)
                    } else {
                        Some(b)
                    }
                },
            };
        }
        i = i + 1;
    }
    match best {
        Some(b) => {
            proof {
                assert(least_recently_used(attached@, just_attached@, b as int));
            }
            Some(attached[b].0.clone())
        },
        None => None,
    }
}

/// Whether the eviction still stands once the victim's attach lock is held.
pub fn eviction_stands(max_attached: usize, attached: usize, victim_attached: bool) -> (r: bool)
    ensures
        r == (attached > max_attached && victim_attached),
{
    attached > max_attached && victim_attached
}

// ── Listing and deletion ────────────────────────────────────────────────

/// The collections that users see: partitions are shown by their parent.
pub fn visible_collections(attached: Vec<Collection>) -> (r: Vec<Collection>)
    ensures
        r@ == attached@.filter(|c: Collection| !contains_text(c.name@, separator())),
{
    let ghost all = attached@;
    let ghost p = |c: Collection| !contains_text(c.name@, separator());
    let mut out: Vec<Collection> = Vec::new();
    let mut done: Ghost<int> = Ghost(0);
    proof {
        reveal(Seq::filter);
        assert(all.subrange(0, 0) =~= Seq::empty());
    }
    for c in it: attached
        invariant
            it.seq() == all,
            done@ == it.index(),
            0 <= done@ <= all.len(),
            p == (|c: Collection| !contains_text(c.name@, separator())),
            out@ == all.subrange(0, done@).filter(p),
    {
        proof {
            let shorter = all.subrange(0, done@);
            assert(all.subrange(0, done@ + 1) =~= shorter.push(c));
            crate::assoc::lemma_filter_push(shorter, c, p);
            done@ = done@ + 1;
        }
        if !is_partition_ns(c.name.as_str()) {
            out.push(c);
        }
    }
    proof {
        assert(all.subrange(0, all.len() as int) =~= all);
    }
    out
}

/// A registered collection that a listing must ask object storage about: it is
/// not attached, and it is no partition.
pub open spec fn unattached(listed: Seq<Seq<char>>) -> spec_fn(Seq<char>) -> bool {
    |n: Seq<char>| !listed.contains(n) && !contains_text(n, separator())
}

/// The registered collections that a listing must ask object storage about.
pub fn unattached_names(lazy_attach: bool, listed: &Vec<String>, registered: &Vec<String>) -> (r:
    Vec<String>)
    ensures
        text_views(r@) == (if lazy_attach {
            text_views(registered@).filter(unattached(text_views(listed@)))
        } else {
            Seq::empty()
        }),
{
    let mut out: Vec<String> = Vec::new();
    if !lazy_attach {
        proof {
            assert(text_views(out@) =~= Seq::empty());
        }
        return out;
    }
    let ghost all = text_views(registered@);
    let ghost p = unattached(text_views(listed@));
    let mut i: usize = 0;
    proof {
        reveal(Seq::filter);
        assert(all.subrange(0, 0) =~= Seq::empty());
        assert(text_views(out@) =~= Seq::empty());
    }
    while i < registered.len()
        invariant
            i <= registered@.len(),
            all == text_views(registered@),
            p == unattached(text_views(listed@)),
            text_views(out@) == all.subrange(0, i as int).filter(p),
        decreases registered.len() - i,
    {
        proof {
            let shorter = all.subrange(0, i as int);
            assert(all.subrange(0, i + 1) =~= shorter.push(all[i as int]));
            crate::assoc::lemma_filter_push(shorter, all[i as int], p);
        }
        let n = registered[i].as_str();
        if !texts_contain(listed, n) && !is_partition_ns(n) {
            let ghost before = text_views(out@);
            out.push(own(n));
            proof {
                assert(text_views(out@) =~= before.push(n@));
            }
        }
        i = i + 1;
    }
    proof {
        assert(all.subrange(0, all.len() as int) =~= all);
    }
    out
}

/// The prefix of the namespaces of a collection's partitions.
pub open spec fn partition_prefix(name: Seq<char>) -> Seq<char> {
    name + separator()
}

/// The partitions that go with a collection when it is deleted, each once:
/// those known from any source. A partition has none of its own.
pub fn partitions_of(name: &str, known: &Vec<String>) -> (r: Vec<String>)
    ensures
        contains_text(name@, separator()) ==> r@.len() == 0,
        text_views(r@).no_duplicates(),
        !contains_text(name@, separator()) ==> forall|n: Seq<char>| #[trigger]
            text_views(r@).contains(n) <==> text_views(known@).contains(n) && starts_with_text(
                n,
                partition_prefix(name@),
            ),
{
    let mut out: Vec<String> = Vec::new();
    if is_partition_ns(name) {
        return out;
    }
    let mut prefix = own(name);
    prefix.append(PART_SEP);
    let ghost all = text_views(known@);
    let mut i: usize = 0;
    while i < known.len()
        invariant
            i <= known@.len(),
            all == text_views(known@),
            prefix@ == partition_prefix(name@),
            text_views(out@).no_duplicates(),
            forall|n: Seq<char>| #[trigger]
                text_views(out@).contains(n) <==> all.subrange(0, i as int).contains(n)
                    && starts_with_text(n, partition_prefix(name@)),
        decreases known.len() - i,
    {
        let k = known[i].as_str();
        let ghost before = text_views(out@);
        let ghost shorter = all.subrange(0, i as int);
        let ghost longer = all.subrange(0, i + 1);
        if strip_text_prefix(k, prefix.as_str()).is_some() && !texts_contain(&out, k) {
            out.push(own(k));
        }
        proof {
            assert(longer =~= shorter.push(k@));
            assert forall|n: Seq<char>|
                longer.contains(n) == (shorter.contains(n) || n == k@) by {
                if shorter.contains(n) {
                    let j = choose|j: int| 0 <= j < shorter.len() && shorter[j] == n;
                    assert(longer[j] == n);
                }
                if n == k@ {
                    assert(longer[i as int] == n);
                }
            }
            if out@.len() > before.len() {
                assert(text_views(out@) =~= before.push(k@));
                assert forall|n: Seq<char>|
                    text_views(out@).contains(n) == (before.contains(n) || n == k@) by {
                    if before.contains(n) {
                        let j = choose|j: int| 0 <= j < before.len() && before[j] == n;
                        assert(text_views(out@)[j] == n);
                    }
                    if n == k@ {
                        assert(text_views(out@)[before.len() as int] == n);
                    }
                }
            }
            assert forall|n: Seq<char>| #[trigger]
                text_views(out@).contains(n) == (longer.contains(n) && starts_with_text(
                    n,
                    partition_prefix(name@),
                )) by {
                assert(before.contains(n) == (shorter.contains(n) && starts_with_text(
                    n,
                    partition_prefix(name@),
                )));
            }
        }
        i = i + 1;
    }
    proof {
        assert(all.subrange(0, all.len() as int) =~= all);
    }
    out
}

/// Whether a collection that is to be deleted exists anywhere.
pub fn check_deletable(name: &str, attached: bool, registered: bool, in_bucket: bool) -> (r: Result<
    (),
    EngineError,
>)
    ensures
        r is Ok <==> attached || registered || in_bucket,
        r matches Err(e) ==> e@ == missing_collection(name@),
{
    if attached || registered || in_bucket {
        Ok(())
    } else {
        Err(collection_not_found(name))
    }
}

/// The next stamp of a use: stamps only grow.
pub fn next_lru_tick(tick: &mut u64) -> (r: u64)
    ensures
        r == *old(tick),
        *final(tick) == (if *old(tick) == u64::MAX {
            0u64
        } else {
            (*old(tick) + 1) as u64
        }),
{
    let t: u64 = *tick;
    *tick = t.wrapping_add(1);
    t
}

// ── Laws ────────────────────────────────────────────────────────────────

/// Deleting a collection takes exactly its own partitions along: the partitions
/// of a collection with another name stay, unless one name with its separator
/// begins the other's.
pub proof fn law_other_partitions_stay(a: Seq<char>, b: Seq<char>, v: Seq<char>)
    requires
        starts_with_text(crate::partitions::partition_name(b, v), partition_prefix(a)),
        !contains_text(b + separator().drop_last(), separator()),
        !contains_text(a + separator().drop_last(), separator()),
    ensures
        a == b,
{
    let ns = crate::partitions::partition_name(b, v);
    let rest = ns.subrange(partition_prefix(a).len() as int, ns.len() as int);
    assert(ns =~= crate::partitions::partition_name(a, rest)) by {
        assert(ns.subrange(0, partition_prefix(a).len() as int) == partition_prefix(a));
        assert(ns =~= partition_prefix(a) + rest);
    }
    crate::partitions::law_parent_of_partition(b, v);
    crate::partitions::law_parent_of_partition(a, rest);
}

/// A node recovers exactly the collections that it finds and has not loaded: it registers
/// them where it attaches on demand, and rebuilds them otherwise.
pub proof fn law_recovered_at_boot(
    found: Seq<Seq<char>>,
    loaded: Seq<Seq<char>>,
    n: Seq<char>,
    lazy: bool,
    a: BootAction,
)
    ensures
        to_recover(found, loaded).contains(n) <==> found.contains(n) && !loaded.contains(n),
        boot_action_is(a, lazy, n) && lazy ==> (a matches BootAction::Register(x) && x@ == n),
        boot_action_is(a, lazy, n) && !lazy ==> (a matches BootAction::Rebuild(x) && x@ == n),
{
    crate::assoc::lemma_filter_contains(found, |n: Seq<char>| !loaded.contains(n), n);
}

/// A node attaches on demand where it was told to, and attaches the partitions of a
/// collection on demand wherever it works on object storage.
pub proof fn law_attached_on_demand(opts: NodeOptions, ns: Seq<char>)
    ensures
        opts.lazy_attach ==> attaches_on_demand(opts, ns),
        opts.cloud_mode && contains_text(ns, separator()) ==> attaches_on_demand(opts, ns),
        !opts.lazy_attach && !opts.cloud_mode ==> !attaches_on_demand(opts, ns),
        !opts.lazy_attach && !contains_text(ns, separator()) ==> !attaches_on_demand(opts, ns),
{
}

/// The collection that is given up is not the one just attached, and no other one was
/// left unused for longer.
pub proof fn law_the_least_used_goes(
    attached: Seq<(String, u64)>,
    just_attached: Seq<char>,
    i: int,
    j: int,
)
    requires
        least_recently_used(attached, just_attached, i),
    ensures
        0 <= i < attached.len() && attached[i].0@ != just_attached,
        0 <= j < attached.len() && attached[j].0@ != just_attached ==> attached[i].1
            <= attached[j].1,
{
}

/// Listed beside the attached collections are exactly the registered ones that are not
/// attached, and no partition.
pub proof fn law_registered_collections_are_listed(
    listed: Seq<Seq<char>>,
    registered: Seq<Seq<char>>,
    n: Seq<char>,
)
    ensures
        registered.filter(unattached(listed)).contains(n) <==> registered.contains(n)
            && !listed.contains(n) && !contains_text(n, separator()),
{
    crate::assoc::lemma_filter_contains(registered, unattached(listed), n);
}

/// Every partition of a collection is known by the collection's prefix.
pub proof fn law_partitions_have_the_prefix(name: Seq<char>, v: Seq<char>)
    ensures
        starts_with_text(crate::partitions::partition_name(name, v), partition_prefix(name)),
        partition_prefix(name) == name + "--part--"@,
{
    let ns = crate::partitions::partition_name(name, v);
    assert(ns =~= partition_prefix(name) + v);
    crate::text::law_holding_a_text(ns, v, partition_prefix(name), v);
}

} // verus!
