use platform_revenue::feed::CanonicalRecord;
use platform_revenue::store::RevenueStore;

fn rec(time: i64, revenue: i64, creator_revenue: i64) -> CanonicalRecord {
    CanonicalRecord { time, revenue, creator_revenue }
}

#[test]
fn upsert_inserts_absent_rows_in_order() {
    let mut store = RevenueStore::new();
    let batch = vec![rec(10, 1, 2), rec(20, 3, 4)];
    store.upsert(&batch);
    assert_eq!(store.rows, batch);
}

#[test]
fn upsert_is_idempotent() {
    let mut store = RevenueStore::new();
    let batch = vec![rec(1_700_000_000, 10_000_000, 2_000_000), rec(1_700_000_001, 5_000_000, 1_000_000)];
    store.upsert(&batch);
    let after_once = store.rows.clone();
    store.upsert(&batch);
    assert_eq!(store.rows, after_once);
    assert_eq!(store.rows.len(), 2);
}

#[test]
fn duplicate_timestamps_keep_the_first_write() {
    let mut store = RevenueStore::new();
    store.upsert(&vec![rec(100, 7, 8), rec(100, 9, 10)]);
    assert_eq!(store.rows.len(), 1);
    assert_eq!(store.rows[0], rec(100, 7, 8));
    // a later batch cannot update the stored values either
    store.upsert(&vec![rec(100, 11, 12)]);
    assert_eq!(store.rows.len(), 1);
    assert_eq!(store.rows[0], rec(100, 7, 8));
}

#[test]
fn no_two_rows_share_a_time() {
    let mut store = RevenueStore::new();
    store.upsert(&vec![rec(1, 1, 1), rec(2, 2, 2), rec(1, 3, 3)]);
    store.upsert(&vec![rec(2, 4, 4), rec(3, 5, 5)]);
    let times: Vec<i64> = store.rows.iter().map(|r| r.time).collect();
    for i in 0..times.len() {
        for j in (i + 1)..times.len() {
            assert_ne!(times[i], times[j]);
        }
    }
    assert_eq!(times, vec![1, 2, 3]);
}

#[test]
fn contains_time_reports_membership() {
    let mut store = RevenueStore::new();
    assert!(!store.contains_time(5));
    store.upsert(&vec![rec(5, 1, 1)]);
    assert!(store.contains_time(5));
    assert!(!store.contains_time(6));
}
