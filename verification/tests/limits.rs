use foxprox::limits::{validate_audit_queue_capacity, validate_max_udp_flows, WorkerLimiter};
use std::io;

#[test]
fn combined_rejects_zero_worker_capacity_before_tun_setup() {
    let error = match WorkerLimiter::new(0) {
        Ok(_) => panic!("zero-capacity worker limiter unexpectedly succeeded"),
        Err(error) => error,
    };
    assert_eq!(error.kind(), io::ErrorKind::InvalidInput);
}

#[test]
fn combined_rejects_zero_audit_capacity_before_tun_setup() {
    assert_eq!(
        validate_audit_queue_capacity(0).unwrap_err().kind(),
        io::ErrorKind::InvalidInput
    );
    assert!(validate_audit_queue_capacity(8192).is_ok());
}

#[test]
fn worker_limiter_enforces_capacity_and_releases_on_drop() {
    let limiter = WorkerLimiter::new(1).unwrap();
    let permit = limiter.try_acquire().unwrap();
    assert_eq!(limiter.active_count(), 1);
    assert!(limiter.try_acquire().is_none());
    drop(permit);
    assert_eq!(limiter.active_count(), 0);
    assert!(limiter.try_acquire().is_some());
}

#[test]
fn worker_limiter_rejects_zero_capacity() {
    let error = match WorkerLimiter::new(0) {
        Ok(_) => panic!("zero-capacity worker limiter unexpectedly succeeded"),
        Err(error) => error,
    };
    assert_eq!(error.kind(), io::ErrorKind::InvalidInput);
}

#[test]
fn udp_flow_limit_rejects_zero_capacity() {
    assert_eq!(
        validate_max_udp_flows(0).unwrap_err().kind(),
        io::ErrorKind::InvalidInput
    );
}

#[test]
fn worker_limiter_admits_up_to_capacity_across_clones() {
    let limiter = WorkerLimiter::new(2).unwrap();
    let shared = limiter.clone();
    let first = limiter.try_acquire().unwrap();
    let second = shared.try_acquire().unwrap();
    assert_eq!(limiter.active_count(), 2);
    assert!(shared.try_acquire().is_none());
    drop(first);
    assert_eq!(shared.active_count(), 1);
    drop(second);
    assert_eq!(limiter.active_count(), 0);
    assert_eq!(limiter.max_workers(), 2);
}

#[test]
fn udp_flow_limit_accepts_positive_capacity() {
    assert!(validate_max_udp_flows(4096).is_ok());
}

#[test]
fn udp_audit_rejects_zero_capacity() {
    assert_eq!(
        validate_audit_queue_capacity(0).unwrap_err().kind(),
        io::ErrorKind::InvalidInput
    );
}
