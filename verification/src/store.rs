//! The revenue store and its read queries.
//!
//! The store is an append-only table of canonical records keyed by
//! timestamp: at most one record per exact epoch second ever persists,
//! and re-ingesting a timestamp is a silent no-op (first write wins).
//! Read queries filter rows to a window, truncate each row's timestamp
//! to the start of its bucket, and sum amounts per bucket.

use vstd::prelude::*;
use crate::amount::AMOUNT_MAX;
use crate::calendar::{
    month_start_day, month_start_of_day, week_start_day, week_start_of_day, MAX_DAY, MAX_TIME,
};
use crate::feed::{valid_record, CanonicalRecord};

verus! {

/// Bucket width of a read view. `RawDaily` performs no grouping at all:
/// one output row per stored record, values passed through unsummed.
#[derive(Clone, Copy, PartialEq, Eq, Structural, Debug)]
pub enum Granularity {
    RawDaily,
    Week,
    Month,
}

/// One row of a read view: the bucket's starting epoch second and the
/// summed amounts of the rows that fell into it.
#[derive(Clone, Copy, PartialEq, Eq, Structural, Debug)]
pub struct AggregateBucket {
    pub time: i64,
    pub revenue: i128,
    pub creator_revenue: i128,
}

/// The epoch second at which the bucket holding `t` starts: the record's
/// own second for `RawDaily`, midnight of the Monday of its week for
/// `Week`, midnight of the first of its month for `Month`.
pub open spec fn bucket_key_spec(g: Granularity, t: int) -> int {
    match g {
        Granularity::RawDaily => t,
        Granularity::Week => 86400 * week_start_of_day(t / 86400),
        Granularity::Month => 86400 * month_start_of_day(t / 86400),
    }
}

pub fn bucket_key(g: Granularity, t: i64) -> (k: i64)
    requires
        0 <= t < MAX_TIME,
    ensures
        k == bucket_key_spec(g, t as int),
        -604800 <= k <= t,
{
    match g {
        Granularity::RawDaily => t,
        Granularity::Week => {
            let day = t / 86400;
            assert(0 <= day < MAX_DAY);
            assert(86400 * day <= t);
            86400 * week_start_day(day)
        },
        Granularity::Month => {
            let day = t / 86400;
            assert(0 <= day < MAX_DAY);
            assert(86400 * day <= t);
            86400 * month_start_day(day)
        },
    }
}

/// Some stored row carries exactly this timestamp.
pub open spec fn has_time(rows: Seq<CanonicalRecord>, t: int) -> bool {
    exists|i: int| 0 <= i < rows.len() && rows[i].time == t
}

/// No two rows share a timestamp.
pub open spec fn times_unique(rows: Seq<CanonicalRecord>) -> bool {
    forall|i: int, j: int| 0 <= i < j < rows.len() ==> rows[i].time != rows[j].time
}

/// Store well-formedness: unique keys, every row valid.
pub open spec fn store_wf(rows: Seq<CanonicalRecord>) -> bool {
    &&& times_unique(rows)
    &&& forall|i: int| 0 <= i < rows.len() ==> valid_record(#[trigger] rows[i])
}

/// Insert-if-absent of a single record: skip silently when the
/// timestamp is already present, never updating the stored values.
pub open spec fn upsert_one(rows: Seq<CanonicalRecord>, r: CanonicalRecord) -> Seq<
    CanonicalRecord,
> {
    if has_time(rows, r.time as int) {
        rows
    } else {
        rows.push(r)
    }
}

/// Insert-if-absent of a whole batch, in order.
pub open spec fn upsert_all(rows: Seq<CanonicalRecord>, rs: Seq<CanonicalRecord>) -> Seq<
    CanonicalRecord,
>
    decreases rs.len(),
{
    if rs.len() == 0 {
        rows
    } else {
        upsert_one(upsert_all(rows, rs.drop_last()), rs.last())
    }
}

/// A timestamp present before an upsert is still present after it.
pub proof fn lemma_upsert_all_preserves_time(
    rows: Seq<CanonicalRecord>,
    rs: Seq<CanonicalRecord>,
    t: int,
)
    requires
        has_time(rows, t),
    ensures
        has_time(upsert_all(rows, rs), t),
    decreases rs.len(),
{
    if rs.len() > 0 {
        lemma_upsert_all_preserves_time(rows, rs.drop_last(), t);
        let inner = upsert_all(rows, rs.drop_last());
        let i = choose|i: int| 0 <= i < inner.len() && inner[i].time == t;
        assert(upsert_all(rows, rs)[i].time == t);
    }
}

/// After upserting a batch, every timestamp of the batch is present.
pub proof fn lemma_upsert_all_present(rows: Seq<CanonicalRecord>, rs: Seq<CanonicalRecord>)
    ensures
        forall|i: int|
            0 <= i < rs.len() ==> has_time(upsert_all(rows, rs), #[trigger] rs[i].time as int),
    decreases rs.len(),
{
    if rs.len() > 0 {
        lemma_upsert_all_present(rows, rs.drop_last());
        let inner = upsert_all(rows, rs.drop_last());
        let out = upsert_all(rows, rs);
        assert forall|i: int|
            0 <= i < rs.len() implies has_time(out, #[trigger] rs[i].time as int) by {
            if i < rs.len() - 1 {
                assert(rs.drop_last()[i] == rs[i]);
                assert(has_time(inner, rs[i].time as int));
                let j = choose|j: int| 0 <= j < inner.len() && inner[j].time == rs[i].time as int;
                assert(out[j].time == rs[i].time as int);
            } else {
                if has_time(inner, rs.last().time as int) {
                } else {
                    assert(out[inner.len() as int].time == rs.last().time as int);
                }
            }
        }
    }
}

/// Upserting a batch whose timestamps are all already present changes
/// nothing.
pub proof fn lemma_upsert_all_noop(rows: Seq<CanonicalRecord>, rs: Seq<CanonicalRecord>)
    requires
        forall|i: int| 0 <= i < rs.len() ==> has_time(rows, #[trigger] rs[i].time as int),
    ensures
        upsert_all(rows, rs) == rows,
    decreases rs.len(),
{
    if rs.len() > 0 {
        assert forall|i: int|
            0 <= i < rs.drop_last().len() implies has_time(
            rows,
            #[trigger] rs.drop_last()[i].time as int,
        ) by {
            assert(rs.drop_last()[i] == rs[i]);
        }
        lemma_upsert_all_noop(rows, rs.drop_last());
        assert(has_time(rows, rs.last().time as int));
    }
}

/// Idempotent ingestion: upserting the same batch a second time leaves
/// the store exactly as the first pass left it.
pub proof fn lemma_upsert_idempotent(rows: Seq<CanonicalRecord>, rs: Seq<CanonicalRecord>)
    ensures
        upsert_all(upsert_all(rows, rs), rs) == upsert_all(rows, rs),
{
    lemma_upsert_all_present(rows, rs);
    lemma_upsert_all_noop(upsert_all(rows, rs), rs);
}

/// A row's contribution to the revenue sum of bucket `k`: its revenue
/// when it lies in the window and truncates to `k`, zero otherwise.
pub open spec fn row_contrib_rev(r: CanonicalRecord, g: Granularity, cutoff: int, k: int) -> int {
    if r.time >= cutoff && bucket_key_spec(g, r.time as int) == k {
        r.revenue as int
    } else {
        0
    }
}

pub open spec fn row_contrib_cre(r: CanonicalRecord, g: Granularity, cutoff: int, k: int) -> int {
    if r.time >= cutoff && bucket_key_spec(g, r.time as int) == k {
        r.creator_revenue as int
    } else {
        0
    }
}

/// Revenue summed over the rows of bucket `k` within the window.
pub open spec fn bucket_sum_rev(
    rows: Seq<CanonicalRecord>,
    g: Granularity,
    cutoff: int,
    k: int,
) -> int
    decreases rows.len(),
{
    if rows.len() == 0 {
        0
    } else {
        bucket_sum_rev(rows.drop_last(), g, cutoff, k) + row_contrib_rev(rows.last(), g, cutoff, k)
    }
}

pub open spec fn bucket_sum_cre(
    rows: Seq<CanonicalRecord>,
    g: Granularity,
    cutoff: int,
    k: int,
) -> int
    decreases rows.len(),
{
    if rows.len() == 0 {
        0
    } else {
        bucket_sum_cre(rows.drop_last(), g, cutoff, k) + row_contrib_cre(rows.last(), g, cutoff, k)
    }
}

/// Revenue summed over every row within the window, before bucketing.
pub open spec fn window_sum_rev(rows: Seq<CanonicalRecord>, cutoff: int) -> int
    decreases rows.len(),
{
    if rows.len() == 0 {
        0
    } else {
        window_sum_rev(rows.drop_last(), cutoff) + if rows.last().time >= cutoff {
            rows.last().revenue as int
        } else {
            0
        }
    }
}

pub open spec fn window_sum_cre(rows: Seq<CanonicalRecord>, cutoff: int) -> int
    decreases rows.len(),
{
    if rows.len() == 0 {
        0
    } else {
        window_sum_cre(rows.drop_last(), cutoff) + if rows.last().time >= cutoff {
            rows.last().creator_revenue as int
        } else {
            0
        }
    }
}

/// Some row within the window truncates to bucket `k`.
pub open spec fn bucket_nonempty(
    rows: Seq<CanonicalRecord>,
    g: Granularity,
    cutoff: int,
    k: int,
) -> bool {
    exists|i: int|
        0 <= i < rows.len() && rows[i].time >= cutoff && bucket_key_spec(g, rows[i].time as int)
            == k
}

/// Revenue totalled over a view's output rows.
pub open spec fn total_rev(out: Seq<AggregateBucket>) -> int
    decreases out.len(),
{
    if out.len() == 0 {
        0
    } else {
        total_rev(out.drop_last()) + out.last().revenue
    }
}

pub open spec fn total_cre(out: Seq<AggregateBucket>) -> int
    decreases out.len(),
{
    if out.len() == 0 {
        0
    } else {
        total_cre(out.drop_last()) + out.last().creator_revenue
    }
}

proof fn lemma_sums_push(rows: Seq<CanonicalRecord>, r: CanonicalRecord, g: Granularity, cutoff: int, k: int)
    ensures
        bucket_sum_rev(rows.push(r), g, cutoff, k) == bucket_sum_rev(rows, g, cutoff, k)
            + row_contrib_rev(r, g, cutoff, k),
        bucket_sum_cre(rows.push(r), g, cutoff, k) == bucket_sum_cre(rows, g, cutoff, k)
            + row_contrib_cre(r, g, cutoff, k),
{
    assert(rows.push(r).drop_last() =~= rows);
}

proof fn lemma_window_push(rows: Seq<CanonicalRecord>, r: CanonicalRecord, cutoff: int)
    ensures
        window_sum_rev(rows.push(r), cutoff) == window_sum_rev(rows, cutoff) + if r.time >= cutoff {
            r.revenue as int
        } else {
            0
        },
        window_sum_cre(rows.push(r), cutoff) == window_sum_cre(rows, cutoff) + if r.time >= cutoff {
            r.creator_revenue as int
        } else {
            0
        },
{
    assert(rows.push(r).drop_last() =~= rows);
}

/// A bucket no row of the window truncates to sums to zero.
proof fn lemma_bucket_sum_absent(rows: Seq<CanonicalRecord>, g: Granularity, cutoff: int, k: int)
    requires
        forall|i: int|
            0 <= i < rows.len() ==> !(#[trigger] rows[i].time >= cutoff && bucket_key_spec(
                g,
                rows[i].time as int,
            ) == k),
    ensures
        bucket_sum_rev(rows, g, cutoff, k) == 0,
        bucket_sum_cre(rows, g, cutoff, k) == 0,
    decreases rows.len(),
{
    if rows.len() > 0 {
        assert(forall|i: int| 0 <= i < rows.drop_last().len() ==> rows.drop_last()[i] == rows[i]);
        lemma_bucket_sum_absent(rows.drop_last(), g, cutoff, k);
    }
}

proof fn lemma_total_update(out: Seq<AggregateBucket>, pos: int, b: AggregateBucket)
    requires
        0 <= pos < out.len(),
    ensures
        total_rev(out.update(pos, b)) == total_rev(out) - out[pos].revenue + b.revenue,
        total_cre(out.update(pos, b)) == total_cre(out) - out[pos].creator_revenue
            + b.creator_revenue,
    decreases out.len(),
{
    let u = out.update(pos, b);
    if pos == out.len() - 1 {
        assert(u.drop_last() =~= out.drop_last());
        assert(u.last() == b);
    } else {
        assert(u.drop_last() =~= out.drop_last().update(pos, b));
        assert(u.last() == out.last());
        lemma_total_update(out.drop_last(), pos, b);
    }
}

proof fn lemma_total_insert(out: Seq<AggregateBucket>, pos: int, b: AggregateBucket)
    requires
        0 <= pos <= out.len(),
    ensures
        total_rev(out.insert(pos, b)) == total_rev(out) + b.revenue,
        total_cre(out.insert(pos, b)) == total_cre(out) + b.creator_revenue,
    decreases out.len(),
{
    let u = out.insert(pos, b);
    if pos == out.len() {
        assert(u.drop_last() =~= out);
        assert(u.last() == b);
    } else {
        assert(u.drop_last() =~= out.drop_last().insert(pos, b));
        assert(u.last() == out.last());
        lemma_total_insert(out.drop_last(), pos, b);
    }
}

/// The full characterization of a bucketed read view over the rows of a
/// store: output strictly ascending by bucket start with no duplicate
/// keys, one output row for every populated bucket and none for an
/// empty one, and each output value the exact window sum of its bucket.
pub open spec fn bucketed_result_ok(
    rows: Seq<CanonicalRecord>,
    g: Granularity,
    cutoff: int,
    out: Seq<AggregateBucket>,
) -> bool {
    &&& forall|i: int, j: int| 0 <= i < j < out.len() ==> out[i].time < out[j].time
    &&& forall|i: int|
        0 <= i < out.len() ==> bucket_nonempty(rows, g, cutoff, #[trigger] out[i].time as int)
    &&& forall|i: int|
        0 <= i < out.len() ==> #[trigger] out[i].revenue == bucket_sum_rev(
            rows,
            g,
            cutoff,
            out[i].time as int,
        ) && out[i].creator_revenue == bucket_sum_cre(rows, g, cutoff, out[i].time as int)
    &&& forall|i: int|
        0 <= i < rows.len() && #[trigger] rows[i].time >= cutoff ==> exists|j: int|
            0 <= j < out.len() && out[j].time == bucket_key_spec(g, rows[i].time as int)
}

/// The revenue table: an in-memory relation keyed by timestamp.
pub struct RevenueStore {
    pub rows: Vec<CanonicalRecord>,
}

impl RevenueStore {
    pub open spec fn wf(&self) -> bool {
        store_wf(self.rows@)
    }

    /// An empty table, as first created at process start.
    pub fn new() -> (s: Self)
        ensures
            s.wf(),
            s.rows@ == Seq::<CanonicalRecord>::empty(),
    {
        RevenueStore { rows: Vec::new() }
    }

    /// Whether a row with exactly this timestamp is stored.
    pub fn contains_time(&self, t: i64) -> (b: bool)
        ensures
            b == has_time(self.rows@, t as int),
    {
        let mut i: usize = 0;
        while i < self.rows.len()
            invariant
                0 <= i <= self.rows@.len(),
                forall|j: int| 0 <= j < i ==> self.rows@[j].time != t,
            decreases self.rows@.len() - i,
        {
            if self.rows[i].time == t {
                return true;
            }
            i += 1;
        }
        false
    }

    /// Idempotent bulk upsert: insert each record whose timestamp is
    /// absent, skip each one already present, in batch order.
    pub fn upsert(&mut self, rs: &Vec<CanonicalRecord>)
        requires
            old(self).wf(),
            forall|i: int| 0 <= i < rs@.len() ==> valid_record(#[trigger] rs@[i]),
        ensures
            final(self).wf(),
            final(self).rows@ == upsert_all(old(self).rows@, rs@),
    {
        let mut i: usize = 0;
        while i < rs.len()
            invariant
                0 <= i <= rs@.len(),
                forall|j: int| 0 <= j < rs@.len() ==> valid_record(#[trigger] rs@[j]),
                store_wf(self.rows@),
                self.rows@ == upsert_all(old(self).rows@, rs@.subrange(0, i as int)),
            decreases rs@.len() - i,
        {
            let r = rs[i];
            if !self.contains_time(r.time) {
                self.rows.push(r);
            }
            proof {
                let sub1 = rs@.subrange(0, i + 1 as int);
                assert(sub1.drop_last() =~= rs@.subrange(0, i as int));
                assert(sub1.last() == rs@[i as int]);
            }
            i += 1;
        }
        proof {
            assert(rs@.subrange(0, rs@.len() as int) =~= rs@);
        }
    }

    /// Bucketed aggregation: keep the rows with `time >= now - since`
    /// (a row at the exact cutoff is included), truncate each kept
    /// row's timestamp to its bucket start at the given granularity,
    /// sum the amounts within each bucket, and return the buckets
    /// ascending by start. Only populated buckets appear, and the
    /// output totals equal the window totals of the raw rows.
    #[verifier::loop_isolation(false)]
    #[verifier::rlimit(100)]
    pub fn query_bucketed(&self, g: Granularity, now: i64, since: i64) -> (out: Vec<
        AggregateBucket,
    >)
        requires
            self.wf(),
            0 <= now < MAX_TIME,
            0 <= since,
        ensures
            bucketed_result_ok(self.rows@, g, now - since, out@),
            total_rev(out@) == window_sum_rev(self.rows@, now - since),
            total_cre(out@) == window_sum_cre(self.rows@, now - since),
    {
        let cutoff: i64 = now - since;
        let mut out: Vec<AggregateBucket> = Vec::new();
        let mut idx: usize = 0;
        while idx < self.rows.len()
            invariant
                0 <= idx <= self.rows@.len(),
                bucketed_result_ok(self.rows@.subrange(0, idx as int), g, cutoff as int, out@),
                out_bounded(out@, idx as int),
                total_rev(out@) == window_sum_rev(self.rows@.subrange(0, idx as int), cutoff as int),
                total_cre(out@) == window_sum_cre(self.rows@.subrange(0, idx as int), cutoff as int),
            decreases self.rows@.len() - idx,
        {
            let ghost processed = self.rows@.subrange(0, idx as int);
            let ghost processed1 = self.rows@.subrange(0, idx + 1 as int);
            let r = self.rows[idx];
            proof {
                assert(processed1 =~= processed.push(r));
                assert(valid_record(r));
                lemma_window_push(processed, r, cutoff as int);
            }
            if r.time >= cutoff {
                add_window_row(&mut out, g, cutoff, r, Ghost(processed), Ghost(idx as int));
            } else {
                proof {
                    assert forall|i: int| 0 <= i < out@.len() implies (#[trigger] out@[i]).revenue
                        == bucket_sum_rev(processed1, g, cutoff as int, out@[i].time as int)
                        && out@[i].creator_revenue == bucket_sum_cre(
                        processed1,
                        g,
                        cutoff as int,
                        out@[i].time as int,
                    ) by {
                        lemma_sums_push(processed, r, g, cutoff as int, out@[i].time as int);
                    }
                    assert forall|i: int| 0 <= i < out@.len() implies bucket_nonempty(
                        processed1,
                        g,
                        cutoff as int,
                        (#[trigger] out@[i]).time as int,
                    ) by {
                        let w = choose|w: int|
                            0 <= w < processed.len() && processed[w].time >= cutoff
                                && bucket_key_spec(g, processed[w].time as int) == out@[i].time
                                as int;
                        assert(processed1[w] == processed[w]);
                    }
                }
            }
            idx += 1;
        }
        proof {
            assert(self.rows@.subrange(0, self.rows@.len() as int) =~= self.rows@);
        }
        out
    }
}

/// Partial sums in a view under construction stay within `n` times the
/// largest representable amount, leaving headroom for one more row.
pub open spec fn out_bounded(out: Seq<AggregateBucket>, n: int) -> bool {
    forall|i: int|
        0 <= i < out.len() ==> -n * (AMOUNT_MAX as int) <= (#[trigger] out[i]).revenue <= n * (
        AMOUNT_MAX as int) && -n * (AMOUNT_MAX as int) <= out[i].creator_revenue <= n * (AMOUNT_MAX
            as int)
}

/// Fold one in-window row into the view under construction, either
/// merging it into its bucket's row or inserting a fresh bucket row at
/// the sorted position.
#[verifier::loop_isolation(false)]
#[verifier::rlimit(100)]
fn add_window_row(
    out: &mut Vec<AggregateBucket>,
    g: Granularity,
    cutoff: i64,
    r: CanonicalRecord,
    Ghost(processed): Ghost<Seq<CanonicalRecord>>,
    Ghost(n): Ghost<int>,
)
    requires
        valid_record(r),
        r.time >= cutoff,
        0 <= n < 0x1_0000_0000_0000_0000,
        bucketed_result_ok(processed, g, cutoff as int, old(out)@),
        out_bounded(old(out)@, n),
    ensures
        bucketed_result_ok(processed.push(r), g, cutoff as int, final(out)@),
        out_bounded(final(out)@, n + 1),
        total_rev(final(out)@) == total_rev(old(out)@) + r.revenue,
        total_cre(final(out)@) == total_cre(old(out)@) + r.creator_revenue,
{
    let ghost processed1 = processed.push(r);
    proof {
        assert(processed1.drop_last() =~= processed);
        assert(processed1.last() == r);
        assert(forall|j: int| 0 <= j < processed.len() ==> processed1[j] == #[trigger] processed[j]);
    }
    let k = bucket_key(g, r.time);
    let mut pos: usize = 0;
    while pos < out.len() && out[pos].time < k
        invariant
            0 <= pos <= out@.len(),
            out@ == old(out)@,
            forall|j: int| 0 <= j < pos ==> (#[trigger] out@[j]).time < k,
        decreases out@.len() - pos,
    {
        pos += 1;
    }
    if pos < out.len() && out[pos].time == k {
        merge_bucket_row(out, pos, g, cutoff, r, k, Ghost(processed), Ghost(n));
    } else {
        insert_bucket_row(out, pos, g, cutoff, r, k, Ghost(processed), Ghost(n));
    }
}

/// Add the row's amounts onto the already-present row of its bucket.
#[verifier::rlimit(100)]
fn merge_bucket_row(
    out: &mut Vec<AggregateBucket>,
    pos: usize,
    g: Granularity,
    cutoff: i64,
    r: CanonicalRecord,
    k: i64,
    Ghost(processed): Ghost<Seq<CanonicalRecord>>,
    Ghost(n): Ghost<int>,
)
    requires
        valid_record(r),
        r.time >= cutoff,
        k == bucket_key_spec(g, r.time as int),
        0 <= n < 0x1_0000_0000_0000_0000,
        bucketed_result_ok(processed, g, cutoff as int, old(out)@),
        out_bounded(old(out)@, n),
        0 <= pos < old(out)@.len(),
        old(out)@[pos as int].time == k,
    ensures
        bucketed_result_ok(processed.push(r), g, cutoff as int, final(out)@),
        out_bounded(final(out)@, n + 1),
        total_rev(final(out)@) == total_rev(old(out)@) + r.revenue,
        total_cre(final(out)@) == total_cre(old(out)@) + r.creator_revenue,
{
    let ghost processed1 = processed.push(r);
    let ghost out0 = old(out)@;
    proof {
        assert(processed1.drop_last() =~= processed);
        assert(processed1.last() == r);
        assert(forall|j: int| 0 <= j < processed.len() ==> processed1[j] == #[trigger] processed[j]);
        assert((n + 1) * (AMOUNT_MAX as int) <= 0x1_0000_0000_0000_0000 * (AMOUNT_MAX as int));
    }
    let b = out[pos];
    let nb = AggregateBucket {
        time: b.time,
        revenue: b.revenue + (r.revenue as i128),
        creator_revenue: b.creator_revenue + (r.creator_revenue as i128),
    };
    out.set(pos, nb);
    proof {
        lemma_total_update(out0, pos as int, nb);
        assert(forall|i: int| 0 <= i < out@.len() ==> (#[trigger] out@[i]).time == out0[i].time);
        assert forall|i: int| 0 <= i < out@.len() implies (#[trigger] out@[i]).revenue
            == bucket_sum_rev(processed1, g, cutoff as int, out@[i].time as int)
            && out@[i].creator_revenue == bucket_sum_cre(
            processed1,
            g,
            cutoff as int,
            out@[i].time as int,
        ) by {
            lemma_sums_push(processed, r, g, cutoff as int, out0[i].time as int);
            if i != pos {
                if i < pos {
                    assert(out0[i].time < out0[pos as int].time);
                } else {
                    assert(out0[pos as int].time < out0[i].time);
                }
                assert(out0[i].time != k);
            }
        }
        assert forall|i: int| 0 <= i < out@.len() implies bucket_nonempty(
            processed1,
            g,
            cutoff as int,
            (#[trigger] out@[i]).time as int,
        ) by {
            let w = choose|w: int|
                0 <= w < processed.len() && processed[w].time >= cutoff && bucket_key_spec(
                    g,
                    processed[w].time as int,
                ) == out0[i].time as int;
            assert(processed1[w] == processed[w]);
        }
        assert forall|i: int|
            0 <= i < processed1.len() && (#[trigger] processed1[i]).time >= cutoff implies exists|
            j: int,
        |
            0 <= j < out@.len() && out@[j].time == bucket_key_spec(
                g,
                processed1[i].time as int,
            ) by {
            if i < processed.len() {
                let w = choose|w: int|
                    0 <= w < out0.len() && out0[w].time == bucket_key_spec(
                        g,
                        processed[i].time as int,
                    );
                assert(out@[w].time == bucket_key_spec(g, processed1[i].time as int));
            } else {
                assert(out@[pos as int].time == bucket_key_spec(g, r.time as int));
            }
        }
    }
}

/// Open a fresh bucket row for the record, at its sorted position.
#[verifier::rlimit(100)]
fn insert_bucket_row(
    out: &mut Vec<AggregateBucket>,
    pos: usize,
    g: Granularity,
    cutoff: i64,
    r: CanonicalRecord,
    k: i64,
    Ghost(processed): Ghost<Seq<CanonicalRecord>>,
    Ghost(n): Ghost<int>,
)
    requires
        valid_record(r),
        r.time >= cutoff,
        k == bucket_key_spec(g, r.time as int),
        0 <= n < 0x1_0000_0000_0000_0000,
        bucketed_result_ok(processed, g, cutoff as int, old(out)@),
        out_bounded(old(out)@, n),
        0 <= pos <= old(out)@.len(),
        forall|j: int| 0 <= j < pos ==> (#[trigger] old(out)@[j]).time < k,
        pos < old(out)@.len() ==> old(out)@[pos as int].time > k,
    ensures
        bucketed_result_ok(processed.push(r), g, cutoff as int, final(out)@),
        out_bounded(final(out)@, n + 1),
        total_rev(final(out)@) == total_rev(old(out)@) + r.revenue,
        total_cre(final(out)@) == total_cre(old(out)@) + r.creator_revenue,
{
    let ghost processed1 = processed.push(r);
    let ghost out0 = old(out)@;
    proof {
        assert(processed1.drop_last() =~= processed);
        assert(processed1.last() == r);
        assert(forall|j: int| 0 <= j < processed.len() ==> processed1[j] == #[trigger] processed[j]);
    }
    let nb = AggregateBucket {
        time: k,
        revenue: r.revenue as i128,
        creator_revenue: r.creator_revenue as i128,
    };
    out.insert(pos, nb);
    proof {
        lemma_total_insert(out0, pos as int, nb);
        assert(forall|j: int| 0 <= j < pos ==> out@[j] == #[trigger] out0[j]);
        assert(forall|j: int| pos < j < out@.len() ==> #[trigger] out@[j] == out0[j - 1]);
        assert(out@[pos as int] == nb);
        assert forall|i: int| 0 <= i < out0.len() implies (#[trigger] out0[i]).time != k by {
            if i >= pos {
                if i > pos {
                    assert(out0[pos as int].time < out0[i].time);
                }
            }
        }
        assert forall|i: int|
            0 <= i < processed.len() implies !((#[trigger] processed[i]).time >= cutoff
            && bucket_key_spec(g, processed[i].time as int) == k) by {
            if processed[i].time >= cutoff && bucket_key_spec(g, processed[i].time as int) == k {
                let w = choose|w: int|
                    0 <= w < out0.len() && out0[w].time == bucket_key_spec(
                        g,
                        processed[i].time as int,
                    );
                assert(out0[w].time == k);
            }
        }
        lemma_bucket_sum_absent(processed, g, cutoff as int, k as int);
        assert forall|i: int, j: int| 0 <= i < j < out@.len() implies (#[trigger] out@[i]).time < (
        #[trigger] out@[j]).time by {
            if i == pos {
                if j - 1 > pos {
                    assert(out@[j] == out0[j - 1]);
                    assert(out0[pos as int].time < out0[j - 1].time);
                } else {
                    assert(out@[j] == out0[pos as int]);
                }
            } else if j == pos {
                assert(out@[i] == out0[i]);
            }
        }
        assert forall|i: int| 0 <= i < out@.len() implies (#[trigger] out@[i]).revenue
            == bucket_sum_rev(processed1, g, cutoff as int, out@[i].time as int)
            && out@[i].creator_revenue == bucket_sum_cre(
            processed1,
            g,
            cutoff as int,
            out@[i].time as int,
        ) by {
            lemma_sums_push(processed, r, g, cutoff as int, out@[i].time as int);
            if i == pos {
                assert(out@[i] == nb);
                assert(bucket_sum_rev(processed, g, cutoff as int, k as int) == 0);
                assert(bucket_sum_cre(processed, g, cutoff as int, k as int) == 0);
            } else {
                let oi = if i < pos {
                    i
                } else {
                    i - 1
                };
                assert(out@[i] == out0[oi]);
                assert(out0[oi].time != k);
            }
        }
        assert forall|i: int| 0 <= i < out@.len() implies bucket_nonempty(
            processed1,
            g,
            cutoff as int,
            (#[trigger] out@[i]).time as int,
        ) by {
            if i == pos {
                assert(processed1[processed.len() as int].time >= cutoff);
                assert(bucket_key_spec(g, r.time as int) == k as int);
            } else {
                let oi = if i < pos {
                    i
                } else {
                    i - 1
                };
                let w = choose|w: int|
                    0 <= w < processed.len() && processed[w].time >= cutoff && bucket_key_spec(
                        g,
                        processed[w].time as int,
                    ) == out0[oi].time as int;
                assert(processed1[w] == processed[w]);
                assert(out@[i].time == out0[oi].time);
            }
        }
        assert forall|i: int|
            0 <= i < processed1.len() && (#[trigger] processed1[i]).time >= cutoff implies exists|
            j: int,
        |
            0 <= j < out@.len() && out@[j].time == bucket_key_spec(
                g,
                processed1[i].time as int,
            ) by {
            if i < processed.len() {
                let w = choose|w: int|
                    0 <= w < out0.len() && out0[w].time == bucket_key_spec(
                        g,
                        processed[i].time as int,
                    );
                if w < pos {
                    assert(out@[w].time == bucket_key_spec(g, processed1[i].time as int));
                } else {
                    assert(out@[w + 1].time == bucket_key_spec(g, processed1[i].time as int));
                }
            } else {
                assert(out@[pos as int].time == bucket_key_spec(g, r.time as int));
            }
        }
    }
}


} // verus!
