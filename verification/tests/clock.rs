use std::time::Duration;

use alloygbm_engine::clock::{duration_ns, saturating_nanos};

#[test]
fn durations_convert_to_saturated_nanoseconds() {
    assert_eq!(duration_ns(&Duration::from_nanos(1_234)), 1_234);
    assert_eq!(duration_ns(&Duration::from_secs(2)), 2_000_000_000);
    assert_eq!(duration_ns(&Duration::MAX), u64::MAX);
    assert_eq!(saturating_nanos(u64::MAX as u128 + 1), u64::MAX);
    assert_eq!(saturating_nanos(7), 7);
}
