use bridge_pool::error::ErrorKind;
use bridge_pool::shutdown_timeout::GlobalShutdownTimeout;
use std::time::Duration;
#[test]
fn global_shutdown_timeout_rejects_out_of_range() {
    // Below minimum: 4 seconds
    let too_short = GlobalShutdownTimeout::new(Duration::from_secs(4));
    assert!(too_short.is_err(), "4s should be rejected as too short");

    // Above maximum: 16 seconds
    let too_long = GlobalShutdownTimeout::new(Duration::from_secs(16));
    assert!(too_long.is_err(), "16s should be rejected as too long");

    // Zero duration
    let zero = GlobalShutdownTimeout::new(Duration::ZERO);
    assert!(zero.is_err(), "0s should be rejected");
}

#[test]
fn global_shutdown_timeout_as_duration() {
    let timeout = GlobalShutdownTimeout::new(Duration::from_secs(10)).expect("10s is valid");

    assert_eq!(timeout.as_duration(), Duration::from_secs(10));
}

#[test]
fn global_shutdown_timeout_subsecond_boundaries() {
    // 4.999s has secs=4, rejected (floor is 5 whole seconds)
    let just_under_min = GlobalShutdownTimeout::new(Duration::from_millis(4999));
    assert!(
        just_under_min.is_err(),
        "4.999s should be rejected (secs=4, under minimum)"
    );

    // 5.001s has secs=5, accepted
    let just_over_min = GlobalShutdownTimeout::new(Duration::from_millis(5001));
    assert!(just_over_min.is_ok(), "5.001s should be accepted (secs=5)");

    // 5.5s accepted (mid-range subsecond)
    let mid_subsec = GlobalShutdownTimeout::new(Duration::from_millis(5500));
    assert!(mid_subsec.is_ok(), "5.5s should be accepted");

    // 10.123s accepted (arbitrary subsecond)
    let arbitrary_subsec = GlobalShutdownTimeout::new(Duration::from_millis(10123));
    assert!(arbitrary_subsec.is_ok(), "10.123s should be accepted");

    // 15.0s exactly accepted (maximum boundary)
    let exact_max = GlobalShutdownTimeout::new(Duration::from_secs(15));
    assert!(exact_max.is_ok(), "15.0s exactly should be accepted");

    // 15.001s rejected (ceiling is exactly 15s)
    let just_over_max = GlobalShutdownTimeout::new(Duration::from_millis(15001));
    assert!(
        just_over_max.is_err(),
        "15.001s should be rejected (over maximum)"
    );

    // 15s + 1 nanosecond rejected
    let one_nano_over =
        GlobalShutdownTimeout::new(Duration::from_secs(15) + Duration::from_nanos(1));
    assert!(
        one_nano_over.is_err(),
        "15s + 1ns should be rejected (ceiling is exactly 15s)"
    );
}

#[test]
fn global_shutdown_timeout_default() {
    let default_timeout = GlobalShutdownTimeout::default();

    // Assert exact default value, not just range - ensures intentional changes
    assert_eq!(
        default_timeout.as_duration(),
        Duration::from_secs(10),
        "Default should be exactly 10s"
    );
}

#[test]
fn a_refused_timeout_is_named_in_the_error() {
    let error = GlobalShutdownTimeout::new(Duration::from_millis(4500)).unwrap_err();
    assert_eq!(error.kind(), ErrorKind::InvalidInput);
    assert_eq!(error.to_string(), "Global shutdown timeout must be at least 5s, got 4.5s");
    let error = GlobalShutdownTimeout::new(Duration::from_secs(16)).unwrap_err();
    assert_eq!(error.kind(), ErrorKind::InvalidInput);
    assert_eq!(error.to_string(), "Global shutdown timeout must be at most 15s, got 16s");
}
