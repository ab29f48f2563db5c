//! The ingestion cycle and the four fixed read views.
//!
//! The scheduler's loop itself lives outside the library: it waits out
//! the interval, performs the network fetch, and hands the outcome to
//! `ingest_cycle`, which makes every decision of one cycle. The four
//! views are thin parameterizations of the store's bucketed query, with
//! windows of a fixed number of days ending at the caller's `now`.

use vstd::prelude::*;
use crate::calendar::MAX_TIME;
use crate::feed::{normalize_all, normalize_all_spec, FetchError, RawEntry};
use crate::store::{
    bucketed_result_ok, total_cre, total_rev, upsert_all, window_sum_cre, window_sum_rev,
    AggregateBucket, Granularity, RevenueStore,
};

verus! {

pub const TWO_YEARS_SECS: i64 = 730 * 86400;

pub const ONE_MONTH_SECS: i64 = 30 * 86400;

pub const ONE_QUARTER_SECS: i64 = 91 * 86400;

pub const ONE_YEAR_SECS: i64 = 365 * 86400;

/// One ingestion cycle, given the outcome of the fetch: a successful
/// fetch has its whole batch normalized and upserted in order; a failed
/// fetch leaves the store untouched, and the loop simply lives on to
/// the next tick. Returns whether the cycle stored anything.
pub fn ingest_cycle(store: &mut RevenueStore, fetched: Result<Vec<RawEntry>, FetchError>) -> (stored:
    bool)
    requires
        old(store).wf(),
        fetched is Ok ==> forall|i: int|
            0 <= i < fetched->Ok_0@.len() ==> 0 <= (#[trigger] fetched->Ok_0@[i]).time < MAX_TIME,
    ensures
        final(store).wf(),
        stored == fetched is Ok,
        fetched is Ok ==> final(store).rows@ == upsert_all(
            old(store).rows@,
            normalize_all_spec(fetched->Ok_0@),
        ),
        fetched is Err ==> final(store).rows@ == old(store).rows@,
{
    match fetched {
        Ok(entries) => {
            let records = normalize_all(&entries);
            store.upsert(&records);
            true
        },
        Err(_) => false,
    }
}

/// Monthly buckets over the last two years (730 days).
pub fn get_monthly_data_last_2_years(store: &RevenueStore, now: i64) -> (out: Vec<AggregateBucket>)
    requires
        store.wf(),
        0 <= now < MAX_TIME,
    ensures
        bucketed_result_ok(store.rows@, Granularity::Month, now - TWO_YEARS_SECS, out@),
        total_rev(out@) == window_sum_rev(store.rows@, now - TWO_YEARS_SECS),
        total_cre(out@) == window_sum_cre(store.rows@, now - TWO_YEARS_SECS),
{
    store.query_bucketed(Granularity::Month, now, TWO_YEARS_SECS)
}

/// Raw daily rows over the last month (30 days): no grouping, one
/// output row per stored record.
pub fn get_daily_data_last_month(store: &RevenueStore, now: i64) -> (out: Vec<AggregateBucket>)
    requires
        store.wf(),
        0 <= now < MAX_TIME,
    ensures
        bucketed_result_ok(store.rows@, Granularity::RawDaily, now - ONE_MONTH_SECS, out@),
        total_rev(out@) == window_sum_rev(store.rows@, now - ONE_MONTH_SECS),
        total_cre(out@) == window_sum_cre(store.rows@, now - ONE_MONTH_SECS),
{
    store.query_bucketed(Granularity::RawDaily, now, ONE_MONTH_SECS)
}

/// Weekly buckets over the last quarter (91 days).
pub fn get_weekly_data_last_quarter(store: &RevenueStore, now: i64) -> (out: Vec<AggregateBucket>)
    requires
        store.wf(),
        0 <= now < MAX_TIME,
    ensures
        bucketed_result_ok(store.rows@, Granularity::Week, now - ONE_QUARTER_SECS, out@),
        total_rev(out@) == window_sum_rev(store.rows@, now - ONE_QUARTER_SECS),
        total_cre(out@) == window_sum_cre(store.rows@, now - ONE_QUARTER_SECS),
{
    store.query_bucketed(Granularity::Week, now, ONE_QUARTER_SECS)
}

/// Weekly buckets over the last year (365 days).
pub fn get_weekly_data_last_year(store: &RevenueStore, now: i64) -> (out: Vec<AggregateBucket>)
    requires
        store.wf(),
        0 <= now < MAX_TIME,
    ensures
        bucketed_result_ok(store.rows@, Granularity::Week, now - ONE_YEAR_SECS, out@),
        total_rev(out@) == window_sum_rev(store.rows@, now - ONE_YEAR_SECS),
        total_cre(out@) == window_sum_cre(store.rows@, now - ONE_YEAR_SECS),
{
    store.query_bucketed(Granularity::Week, now, ONE_YEAR_SECS)
}

} // verus!
