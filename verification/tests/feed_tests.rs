use platform_revenue::feed::{normalize, status_is_success, RawEntry};

#[test]
fn status_codes_in_the_2xx_range_are_success() {
    assert!(status_is_success(200));
    assert!(status_is_success(204));
    assert!(status_is_success(299));
    assert!(!status_is_success(199));
    assert!(!status_is_success(300));
    assert!(!status_is_success(404));
    assert!(!status_is_success(500));
}

#[test]
fn normalization_keeps_the_epoch_second_exactly() {
    let r = normalize(
        &RawEntry { time: 1_234, revenue: b"0.5".to_vec(), creator_revenue: b"".to_vec() },
    );
    assert_eq!(r.time, 1_234);
    assert_eq!(r.revenue, 500_000);
    assert_eq!(r.creator_revenue, 0);
}

#[test]
fn both_amount_fields_parse_independently() {
    let r = normalize(
        &RawEntry { time: 0, revenue: b"1.25".to_vec(), creator_revenue: b"bogus".to_vec() },
    );
    assert_eq!(r.revenue, 1_250_000);
    assert_eq!(r.creator_revenue, 0);
}
