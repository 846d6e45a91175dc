use responder::stats::{Stats, TimeSpan, MAX_NANOS};

#[test]
fn test_stats_aggregate() {
    let mut stats = Stats {
        elapsed_time: TimeSpan::from_millis(500),
        content_length: 1000,
    };

    stats.aggregate(&Stats {
        elapsed_time: TimeSpan::from_millis(1500),
        content_length: 3000,
    });

    assert_eq!(
        stats,
        Stats {
            elapsed_time: TimeSpan::from_secs(2),
            content_length: 4000,
        }
    );
}

#[test]
fn test_stats_aggregate_empty() {
    let mut stats = Stats {
        elapsed_time: TimeSpan::from_millis(500),
        content_length: 1000,
    };

    let stats2 = stats.clone();
    stats.aggregate(&Stats::new());

    assert_eq!(stats, stats2);
}

#[test]
fn new_stats_are_empty() {
    let stats = Stats::new();
    assert_eq!(stats.elapsed_time.as_nanos(), 0);
    assert_eq!(stats.content_length, 0);
    assert_eq!(stats.elapsed_time, TimeSpan::default());
}

#[test]
fn time_span_units() {
    assert_eq!(TimeSpan::from_millis(1500).as_nanos(), 1_500_000_000);
    assert_eq!(TimeSpan::from_millis(1500).as_millis(), 1500);
    assert_eq!(TimeSpan::from_millis(1500).as_secs(), 1);
    assert_eq!(TimeSpan::from_millis(1500).subsec_nanos(), 500_000_000);
    assert_eq!(TimeSpan::from_secs(2).as_nanos(), 2_000_000_000);
    assert_eq!(TimeSpan::from_secs(u64::MAX).as_secs(), u64::MAX);
    assert_eq!(TimeSpan::from_nanos(999_999).unwrap().as_millis(), 0);
    assert_eq!(TimeSpan::from_nanos(1_000_000).unwrap().as_millis(), 1);
}

#[test]
fn time_span_limits() {
    assert_eq!(MAX_NANOS, u64::MAX as u128 * 1_000_000_000 + 999_999_999);
    assert_eq!(TimeSpan::from_nanos(MAX_NANOS).unwrap().as_nanos(), MAX_NANOS);
    assert_eq!(TimeSpan::from_nanos(MAX_NANOS + 1), None);
    let max = TimeSpan::from_nanos(MAX_NANOS).unwrap();
    let one = TimeSpan::from_nanos(1).unwrap();
    assert_eq!(max.checked_add(one), None);
    assert_eq!(max.checked_add(TimeSpan::default()), Some(max));
    assert_eq!(
        TimeSpan::from_millis(500).checked_add(TimeSpan::from_millis(1500)),
        Some(TimeSpan::from_secs(2))
    );
    assert_eq!(
        TimeSpan::from_millis(500).plus(TimeSpan::from_millis(1500)),
        TimeSpan::from_secs(2)
    );
}

#[test]
fn aggregate_is_guarded_by_can_aggregate() {
    let small = Stats {
        elapsed_time: TimeSpan::from_millis(1),
        content_length: 1,
    };
    let long = Stats {
        elapsed_time: TimeSpan::from_nanos(MAX_NANOS).unwrap(),
        content_length: 0,
    };
    let big = Stats {
        elapsed_time: TimeSpan::default(),
        content_length: usize::MAX,
    };
    assert!(small.can_aggregate(&small));
    assert!(!long.can_aggregate(&small));
    assert!(!big.can_aggregate(&small));
    assert!(long.can_aggregate(&big));
    let mut total = long;
    total.aggregate(&big);
    assert_eq!(total.elapsed_time.as_nanos(), MAX_NANOS);
    assert_eq!(total.content_length, usize::MAX);
}

#[test]
fn rate_needs_a_millisecond() {
    let mut stats = Stats::new();
    assert!(!stats.rate_is_defined());
    stats.elapsed_time = TimeSpan::from_nanos(999_999).unwrap();
    assert!(!stats.rate_is_defined());
    stats.elapsed_time = TimeSpan::from_millis(1);
    assert!(stats.rate_is_defined());
    stats.elapsed_time = TimeSpan::from_millis(500);
    assert!(stats.rate_is_defined());
}
