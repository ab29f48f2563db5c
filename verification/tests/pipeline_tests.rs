use platform_revenue::calendar::{date_of_day, Date};
use platform_revenue::feed::{normalize, FetchError, RawEntry};
use platform_revenue::pipeline::{
    get_daily_data_last_month, get_monthly_data_last_2_years, get_weekly_data_last_quarter,
    ingest_cycle, ONE_MONTH_SECS,
};
use platform_revenue::store::{Granularity, RevenueStore};

fn entry(time: i64, revenue: &str, creator_revenue: &str) -> RawEntry {
    RawEntry {
        time,
        revenue: revenue.as_bytes().to_vec(),
        creator_revenue: creator_revenue.as_bytes().to_vec(),
    }
}

#[test]
fn normalization_is_tolerant() {
    let r = normalize(&entry(1_700_000_000, "abc", "12.5"));
    assert_eq!(r.time, 1_700_000_000);
    assert_eq!(r.revenue, 0);
    assert_eq!(r.creator_revenue, 12_500_000);
}

#[test]
fn two_entries_one_day_scenario() {
    let mut store = RevenueStore::new();
    let feed = vec![entry(1_700_000_000, "10.00", "2.00"), entry(1_700_000_001, "5.00", "1.00")];
    let stored = ingest_cycle(&mut store, Ok(feed));
    assert!(stored);

    // both entries fall on 2023-11-14
    assert_eq!(date_of_day(1_700_000_000 / 86400), Date { year: 2023, month: 11, day: 14 });

    // the raw-daily month view returns the two rows separately
    let daily = get_daily_data_last_month(&store, 1_700_000_001);
    assert_eq!(daily.len(), 2);
    assert_eq!(daily[0].time, 1_700_000_000);
    assert_eq!(daily[0].revenue, 10_000_000);
    assert_eq!(daily[0].creator_revenue, 2_000_000);
    assert_eq!(daily[1].time, 1_700_000_001);
    assert_eq!(daily[1].revenue, 5_000_000);
    assert_eq!(daily[1].creator_revenue, 1_000_000);

    // a month-granularity view folds them into one 2023-11-01 bucket
    let monthly = get_monthly_data_last_2_years(&store, 1_700_000_001);
    assert_eq!(monthly.len(), 1);
    assert_eq!(monthly[0].time, 19662 * 86400);
    assert_eq!(date_of_day(monthly[0].time / 86400), Date { year: 2023, month: 11, day: 1 });
    assert_eq!(monthly[0].revenue, 15_000_000);
    assert_eq!(monthly[0].creator_revenue, 3_000_000);
}

#[test]
fn failed_fetch_leaves_the_store_untouched() {
    let mut store = RevenueStore::new();
    ingest_cycle(&mut store, Ok(vec![entry(50, "1", "1")]));
    let before = store.rows.clone();
    assert!(!ingest_cycle(&mut store, Err(FetchError::Transport)));
    assert!(!ingest_cycle(&mut store, Err(FetchError::Status(500))));
    assert!(!ingest_cycle(&mut store, Err(FetchError::Decode)));
    assert_eq!(store.rows, before);
}

#[test]
fn reingesting_the_same_feed_changes_nothing() {
    let mut store = RevenueStore::new();
    let feed = vec![entry(1_700_000_000, "10.00", "2.00"), entry(1_700_000_001, "5.00", "1.00")];
    ingest_cycle(&mut store, Ok(feed.clone()));
    let once = store.rows.clone();
    ingest_cycle(&mut store, Ok(feed));
    assert_eq!(store.rows, once);
}

#[test]
fn monthly_buckets_conserve_the_window_totals() {
    let mut store = RevenueStore::new();
    // October and November 2023 rows, ingested out of order
    let feed = vec![
        entry(1_700_000_001, "5.00", "1.00"),
        entry(1_697_000_000, "7.25", "0.75"),
        entry(1_700_000_000, "10.00", "2.00"),
    ];
    ingest_cycle(&mut store, Ok(feed));
    let monthly = get_monthly_data_last_2_years(&store, 1_700_000_001);
    assert_eq!(monthly.len(), 2);
    // strictly ascending bucket starts, no duplicates
    assert!(monthly[0].time < monthly[1].time);
    assert_eq!(date_of_day(monthly[0].time / 86400), Date { year: 2023, month: 10, day: 1 });
    assert_eq!(date_of_day(monthly[1].time / 86400), Date { year: 2023, month: 11, day: 1 });
    // conservation: bucket totals equal the raw totals of the window
    let total_rev: i128 = monthly.iter().map(|b| b.revenue).sum();
    let total_cre: i128 = monthly.iter().map(|b| b.creator_revenue).sum();
    assert_eq!(total_rev, 22_250_000);
    assert_eq!(total_cre, 3_750_000);
}

#[test]
fn window_filtering_uses_an_inclusive_cutoff() {
    let mut store = RevenueStore::new();
    let now: i64 = 1_700_000_000;
    let cutoff = now - ONE_MONTH_SECS;
    let feed = vec![
        entry(cutoff - 1, "100.00", "1.00"), // just too old: excluded
        entry(cutoff, "3.00", "0.50"),       // exactly at the boundary: included
        entry(now, "4.00", "0.25"),
    ];
    ingest_cycle(&mut store, Ok(feed));
    let daily = get_daily_data_last_month(&store, now);
    assert_eq!(daily.len(), 2);
    assert_eq!(daily[0].time, cutoff);
    assert_eq!(daily[0].revenue, 3_000_000);
    assert_eq!(daily[1].time, now);
    assert_eq!(daily[1].revenue, 4_000_000);
}

#[test]
fn weekly_buckets_split_on_mondays() {
    let mut store = RevenueStore::new();
    // Sunday 2023-11-12 and Monday 2023-11-13 lie in different weeks
    let sunday: i64 = 19673 * 86400;
    let monday: i64 = 19674 * 86400;
    let feed = vec![entry(sunday, "1.00", "0.10"), entry(monday, "2.00", "0.20")];
    ingest_cycle(&mut store, Ok(feed));
    let weekly = get_weekly_data_last_quarter(&store, 1_700_000_001);
    assert_eq!(weekly.len(), 2);
    assert_eq!(date_of_day(weekly[0].time / 86400), Date { year: 2023, month: 11, day: 6 });
    assert_eq!(date_of_day(weekly[1].time / 86400), Date { year: 2023, month: 11, day: 13 });
    assert_eq!(weekly[0].revenue, 1_000_000);
    assert_eq!(weekly[1].revenue, 2_000_000);
}

#[test]
fn query_bucketed_groups_by_requested_granularity() {
    let mut store = RevenueStore::new();
    let feed = vec![entry(1_700_000_000, "10.00", "2.00"), entry(1_700_000_001, "5.00", "1.00")];
    ingest_cycle(&mut store, Ok(feed));
    let by_month = store.query_bucketed(Granularity::Month, 1_700_000_001, 1_000_000_000);
    assert_eq!(by_month.len(), 1);
    let by_week = store.query_bucketed(Granularity::Week, 1_700_000_001, 1_000_000_000);
    assert_eq!(by_week.len(), 1);
    assert_eq!(by_week[0].time, 19674 * 86400);
    let raw = store.query_bucketed(Granularity::RawDaily, 1_700_000_001, 1_000_000_000);
    assert_eq!(raw.len(), 2);
}
