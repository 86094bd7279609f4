//! Counters and gauges in the text form that Prometheus reads.
use crate::models::Collection;
use crate::text::{contains_text, decimal, decimal_text, law_holding_a_text, own};
use vstd::prelude::*;
use vstd::string::*;

verus! {

/// What a node has counted since it started.
#[derive(Debug, Clone, Copy)]
pub struct Counters {
    pub ingest_requests_total: u64,
    pub ingest_chunks_total: u64,
    pub search_requests_total: u64,
    pub delete_requests_total: u64,
    pub refresh_fragments_applied_total: u64,
    pub refresh_reattaches_total: u64,
    pub attach_total: u64,
    pub attach_seconds_sum_millis: u64,
    pub compactions_total: u64,
    pub quarantined_chunks_total: u64,
}

impl Counters {
    /// Nothing counted yet.
    pub fn new() -> (r: Counters)
        ensures
            forall|i: int| 0 <= i < 10 ==> #[trigger] counts(r)[i] == 0,
    {
        Counters {
            ingest_requests_total: 0,
            ingest_chunks_total: 0,
            search_requests_total: 0,
            delete_requests_total: 0,
            refresh_fragments_applied_total: 0,
            refresh_reattaches_total: 0,
            attach_total: 0,
            attach_seconds_sum_millis: 0,
            compactions_total: 0,
            quarantined_chunks_total: 0,
        }
    }
}

/// Counts one more; the count wraps around.
pub fn inc(counter: &mut u64)
    ensures
        *final(counter) == (*old(counter) + 1) % 0x1_0000_0000_0000_0000,
{
    *counter = counter.wrapping_add(1);
}

/// Counts so many more; the count wraps around.
pub fn add(counter: &mut u64, n: u64)
    ensures
        *final(counter) == (*old(counter) + n) % 0x1_0000_0000_0000_0000,
{
    *counter = counter.wrapping_add(n);
}

/// The names of the counters, in the order in which they are shown.
pub open spec fn names() -> Seq<Seq<char>> {
    seq![
        "compass_ingest_requests_total "@,
        "compass_ingest_chunks_total "@,
        "compass_search_requests_total "@,
        "compass_delete_requests_total "@,
        "compass_refresh_fragments_applied_total "@,
        "compass_refresh_reattaches_total "@,
        "compass_attach_total "@,
        "compass_attach_seconds_sum_millis "@,
        "compass_compactions_total "@,
        "compass_quarantined_chunks_total "@,
    ]
}

/// The counts, in the order in which they are shown.
pub open spec fn counts(c: Counters) -> Seq<u64> {
    seq![
        c.ingest_requests_total,
        c.ingest_chunks_total,
        c.search_requests_total,
        c.delete_requests_total,
        c.refresh_fragments_applied_total,
        c.refresh_reattaches_total,
        c.attach_total,
        c.attach_seconds_sum_millis,
        c.compactions_total,
        c.quarantined_chunks_total,
    ]
}

/// The lines of the first `n` counters: a name, a space, the count.
pub open spec fn counter_lines(c: Counters, n: nat) -> Seq<char>
    decreases n,
{
    if n == 0 {
        Seq::empty()
    } else {
        counter_lines(c, (n - 1) as nat) + names()[n - 1] + decimal(counts(c)[n - 1] as nat)
            + "\n"@
    }
}

fn push_line(out: &mut String, name: &str, n: u64)
    ensures
        final(out)@ == old(out)@ + name@ + decimal(n as nat) + "\n"@,
{
    out.append(name);
    out.append(decimal_text(n).as_str());
    out.append("\n");
}

/// Shows every counter, then the gauges given.
pub fn render(c: &Counters, extra_gauges: &str) -> (r: String)
    ensures
        r@ == counter_lines(*c, 10) + extra_gauges@,
{
    let mut out = own("");
    proof {
        reveal_strlit("");
        reveal_with_fuel(counter_lines, 11);
        assert(out@ =~= counter_lines(*c, 0));
    }
    push_line(&mut out, "compass_ingest_requests_total ", c.ingest_requests_total);
    push_line(&mut out, "compass_ingest_chunks_total ", c.ingest_chunks_total);
    push_line(&mut out, "compass_search_requests_total ", c.search_requests_total);
    push_line(&mut out, "compass_delete_requests_total ", c.delete_requests_total);
    push_line(
        &mut out,
        "compass_refresh_fragments_applied_total ",
        c.refresh_fragments_applied_total,
    );
    push_line(&mut out, "compass_refresh_reattaches_total ", c.refresh_reattaches_total);
    push_line(&mut out, "compass_attach_total ", c.attach_total);
    push_line(&mut out, "compass_attach_seconds_sum_millis ", c.attach_seconds_sum_millis);
    push_line(&mut out, "compass_compactions_total ", c.compactions_total);
    push_line(&mut out, "compass_quarantined_chunks_total ", c.quarantined_chunks_total);
    out.append(extra_gauges);
    out
}

/// The lines of a collection: its chunks and the frontier of its log.
pub open spec fn gauge_lines(name: Seq<char>, chunks: u64, applied: u64) -> Seq<char> {
    "compass_collection_chunks{collection=\""@ + name + "\"} "@ + decimal(chunks as nat) + "\n"@
        + "compass_collection_applied_seq{collection=\""@ + name + "\"} "@ + decimal(applied as nat)
        + "\n"@
}

/// The lines of some collections.
pub open spec fn all_gauges(s: Seq<Collection>) -> Seq<char>
    decreases s.len(),
{
    if s.len() == 0 {
        Seq::empty()
    } else {
        let c = s.last();
        all_gauges(s.drop_last()) + gauge_lines(c.name@, c.chunk_count, c.applied_seq)
    }
}

/// Shows the gauges of some collections.
pub fn gauges(collections: &Vec<Collection>) -> (r: String)
    ensures
        r@ == all_gauges(collections@),
{
    let mut out = own("");
    let mut i: usize = 0;
    proof {
        reveal_strlit("");
        assert(collections@.subrange(0, 0) =~= Seq::empty());
        assert(out@ =~= all_gauges(collections@.subrange(0, 0)));
    }
    while i < collections.len()
        invariant
            i <= collections@.len(),
            out@ == all_gauges(collections@.subrange(0, i as int)),
        decreases collections.len() - i,
    {
        let c = &collections[i];
        let ghost before = out@;
        out.append("compass_collection_chunks{collection=\"");
        out.append(c.name.as_str());
        out.append("\"} ");
        out.append(decimal_text(c.chunk_count).as_str());
        out.append("\n");
        out.append("compass_collection_applied_seq{collection=\"");
        out.append(c.name.as_str());
        out.append("\"} ");
        out.append(decimal_text(c.applied_seq).as_str());
        out.append("\n");
        proof {
            let longer = collections@.subrange(0, i + 1);
            assert(longer.drop_last() =~= collections@.subrange(0, i as int));
            assert(longer.last() == *c);
            assert(out@ =~= before + gauge_lines(c.name@, c.chunk_count, c.applied_seq));
        }
        i = i + 1;
    }
    proof {
        assert(collections@.subrange(0, collections@.len() as int) =~= collections@);
    }
    out
}

// ── Laws ────────────────────────────────────────────────────────────────

proof fn lemma_line_is_there(c: Counters, n: nat, i: int)
    requires
        0 <= i < n,
        n <= 10,
    ensures
        contains_text(counter_lines(c, n), names()[i] + decimal(counts(c)[i] as nat) + "\n"@),
    decreases n,
{
    let all = counter_lines(c, n);
    let line = names()[i] + decimal(counts(c)[i] as nat) + "\n"@;
    let before = counter_lines(c, (n - 1) as nat);
    if i == n - 1 {
        assert(all =~= before + line + Seq::empty());
        law_holding_a_text(all, line, before, Seq::empty());
    } else {
        lemma_line_is_there(c, (n - 1) as nat, i);
        let k = choose|k: int| crate::text::occurs_at(before, line, k);
        let last = names()[n - 1] + decimal(counts(c)[n - 1] as nat) + "\n"@;
        assert(all =~= before + last);
        assert(all.subrange(k, k + line.len()) =~= before.subrange(k, k + line.len()));
        assert(crate::text::occurs_at(all, line, k));
    }
}

/// Each counter is shown on a line of its own under its name.
pub proof fn law_each_counter_has_its_line(c: Counters)
    ensures
        ({
            let all = counter_lines(c, 10);
            &&& contains_text(
                all,
                "compass_ingest_requests_total "@ + decimal(c.ingest_requests_total as nat) + "\n"@,
            )
            &&& contains_text(
                all,
                "compass_ingest_chunks_total "@ + decimal(c.ingest_chunks_total as nat) + "\n"@,
            )
            &&& contains_text(
                all,
                "compass_search_requests_total "@ + decimal(c.search_requests_total as nat) + "\n"@,
            )
            &&& contains_text(
                all,
                "compass_delete_requests_total "@ + decimal(c.delete_requests_total as nat) + "\n"@,
            )
            &&& contains_text(
                all,
                "compass_refresh_fragments_applied_total "@ + decimal(
                    c.refresh_fragments_applied_total as nat,
                ) + "\n"@,
            )
            &&& contains_text(
                all,
                "compass_refresh_reattaches_total "@ + decimal(c.refresh_reattaches_total as nat)
                    + "\n"@,
            )
            &&& contains_text(
                all,
                "compass_attach_total "@ + decimal(c.attach_total as nat) + "\n"@,
            )
            &&& contains_text(
                all,
                "compass_attach_seconds_sum_millis "@ + decimal(c.attach_seconds_sum_millis as nat)
                    + "\n"@,
            )
            &&& contains_text(
                all,
                "compass_compactions_total "@ + decimal(c.compactions_total as nat) + "\n"@,
            )
            &&& contains_text(
                all,
                "compass_quarantined_chunks_total "@ + decimal(c.quarantined_chunks_total as nat)
                    + "\n"@,
            )
        }),
{
    lemma_line_is_there(c, 10, 0);
    lemma_line_is_there(c, 10, 1);
    lemma_line_is_there(c, 10, 2);
    lemma_line_is_there(c, 10, 3);
    lemma_line_is_there(c, 10, 4);
    lemma_line_is_there(c, 10, 5);
    lemma_line_is_there(c, 10, 6);
    lemma_line_is_there(c, 10, 7);
    lemma_line_is_there(c, 10, 8);
    lemma_line_is_there(c, 10, 9);
}

/// The gauges of a list of collections are those of each, one after the other: the number
/// of its chunks and its applied sequence number, each labelled with its name.
pub proof fn law_gauges_of_each_collection(s: Seq<Collection>, c: Collection)
    ensures
        all_gauges(s.push(c)) == all_gauges(s) + gauge_lines(c.name@, c.chunk_count, c.applied_seq),
        all_gauges(Seq::empty()).len() == 0,
        contains_text(
            all_gauges(s.push(c)),
            "compass_collection_chunks{collection=\""@ + c.name@ + "\"} "@ + decimal(
                c.chunk_count as nat,
            ) + "\n"@,
        ),
        contains_text(
            all_gauges(s.push(c)),
            "compass_collection_applied_seq{collection=\""@ + c.name@ + "\"} "@ + decimal(
                c.applied_seq as nat,
            ) + "\n"@,
        ),
{
    assert(s.push(c).drop_last() =~= s);
    let all = all_gauges(s.push(c));
    let a = "compass_collection_chunks{collection=\""@ + c.name@ + "\"} "@ + decimal(
        c.chunk_count as nat,
    ) + "\n"@;
    let b = "compass_collection_applied_seq{collection=\""@ + c.name@ + "\"} "@ + decimal(
        c.applied_seq as nat,
    ) + "\n"@;
    assert(all =~= all_gauges(s) + a + b);
    law_holding_a_text(all, a, all_gauges(s), b);
    assert(all =~= (all_gauges(s) + a) + b + Seq::empty());
    law_holding_a_text(all, b, all_gauges(s) + a, Seq::empty());
}

} // verus!
