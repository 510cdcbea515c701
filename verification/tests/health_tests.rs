use storage_engine::health::{HealthCheck, FAILURE_THRESHOLD};

#[test]
fn test_successful_write() {
    let mut health = HealthCheck::new();
    health.record_successful_write(1_700_000_000);

    let status = health.get_health_status();
    assert!(status.is_healthy);
    assert_eq!(status.total_processed, 1);
    assert_eq!(status.failed_writes, 0);
}

#[test]
fn test_failed_writes() {
    let mut health = HealthCheck::new();

    // Record 6 failed writes
    for _ in 0..6 {
        health.record_failed_write();
    }

    let status = health.get_health_status();
    assert!(!status.is_healthy);
    assert_eq!(status.failed_writes, 6);
}

#[test]
fn test_recovery() {
    let mut health = HealthCheck::new();

    // Record failures then a success
    for _ in 0..3 {
        health.record_failed_write();
    }
    health.record_successful_write(1_700_000_000);

    let status = health.get_health_status();
    assert!(status.is_healthy);
    assert_eq!(status.failed_writes, 0);
}

#[test]
fn test_threshold_is_six_consecutive_failures() {
    let mut health = HealthCheck::new();

    // Exactly at the threshold the system is still healthy; one more
    // failure withdraws health, and a single success restores it.
    for _ in 0..FAILURE_THRESHOLD {
        health.record_failed_write();
    }
    assert!(health.get_health_status().is_healthy);

    health.record_failed_write();
    assert!(!health.get_health_status().is_healthy);
    assert_eq!(health.get_health_status().failed_writes, 6);

    health.record_successful_write(42);
    let status = health.get_health_status();
    assert!(status.is_healthy);
    assert_eq!(status.failed_writes, 0);
    assert_eq!(status.last_write, 42);
    assert_eq!(status.total_processed, 1);
}

#[test]
fn test_queue_size_and_detailed_status() {
    let mut health = HealthCheck::new();
    health.update_queue_size(17);
    assert_eq!(health.get_health_status().queue_size, 17);

    let detailed = health.get_detailed_status(99);
    assert_eq!(detailed.queue_size, 17);
    assert_eq!(detailed.uptime_seconds, 99);
    assert!(detailed.is_healthy);
}

#[test]
fn test_update_status() {
    let mut health = HealthCheck::new();
    health.update_status(false);
    assert!(!health.get_health_status().is_healthy);
    health.update_status(true);
    assert!(health.get_health_status().is_healthy);
}
