#![allow(unused_mut)]
use tc_otel::connection_manager::{ConnectionConfig, ConnectionManager, ConnectionRejection};
use tc_otel::time::{Duration, Tick};

const NOW: Tick = Tick { nanos: 5_000_000_000 };

fn localhost() -> String {
    "127.0.0.1".to_string()
}

fn ip(last: u8) -> String {
    format!("192.168.1.{}", last)
}

// ---- Max connections limit (100) ----

#[test]
fn test_max_connections_enforced() {
    let config = ConnectionConfig {
        max_connections: 100,
        max_connections_per_ip: 200, // high so per-IP doesn't interfere
        rate_limit_per_sec_per_ip: 200,
        ..Default::default()
    };
    let mut mgr = ConnectionManager::new(config);

    // Acquire 100 connections from different IPs
    let mut permits = Vec::new();
    for i in 0..100u8 {
        let result = mgr.try_acquire(&ip(i), NOW);
        assert!(result.is_ok(), "Connection {} should succeed", i);
        permits.push(result.unwrap());
    }
    assert_eq!(mgr.active_connections(), 100);

    // Connection 101 should be rejected
    let result = mgr.try_acquire(&ip(200), NOW);
    assert!(matches!(
        result,
        Err(ConnectionRejection::MaxConnectionsReached)
    ));
}

#[test]
fn test_connection_slot_released_on_drop() {
    let config = ConnectionConfig {
        max_connections: 2,
        max_connections_per_ip: 10,
        rate_limit_per_sec_per_ip: 100,
        ..Default::default()
    };
    let mut mgr = ConnectionManager::new(config);

    let p1 = mgr.try_acquire(&ip(1), NOW).unwrap();
    let p2 = mgr.try_acquire(&ip(2), NOW).unwrap();
    assert_eq!(mgr.active_connections(), 2);

    // At limit
    assert!(mgr.try_acquire(&ip(3), NOW).is_err());

    // Drop one permit
    mgr.release(p1);
    assert_eq!(mgr.active_connections(), 1);

    // Should succeed now
    let p3 = mgr.try_acquire(&ip(3), NOW).unwrap();
    assert_eq!(mgr.active_connections(), 2);

    mgr.release(p2);
    mgr.release(p3);
    assert_eq!(mgr.active_connections(), 0);
}

#[test]
fn test_custom_max_connections() {
    let config = ConnectionConfig {
        max_connections: 5,
        max_connections_per_ip: 10,
        rate_limit_per_sec_per_ip: 100,
        ..Default::default()
    };
    let mut mgr = ConnectionManager::new(config);

    let mut permits = Vec::new();
    for i in 0..5 {
        permits.push(mgr.try_acquire(&ip(i as u8), NOW).unwrap());
    }
    assert!(mgr.try_acquire(&ip(100), NOW).is_err());
    assert_eq!(mgr.active_connections(), 5);
}

// ---- Idle timeout configuration ----

#[test]
fn test_idle_timeout_300s() {
    let config = ConnectionConfig::default();
    let mut mgr = ConnectionManager::new(config);
    assert_eq!(mgr.idle_timeout(), Duration::from_secs(300));
}

#[test]
fn test_custom_idle_timeout() {
    let config = ConnectionConfig {
        idle_timeout_secs: 600,
        ..Default::default()
    };
    let mut mgr = ConnectionManager::new(config);
    assert_eq!(mgr.idle_timeout(), Duration::from_secs(600));
}

// ---- Connection rejection ----

#[test]
fn test_rejection_error_message_max_connections() {
    let rejection = ConnectionRejection::MaxConnectionsReached;
    let msg = rejection.to_string();
    assert!(msg.contains("maximum connection limit"));
}

#[test]
fn test_rejection_error_message_per_ip() {
    let rejection = ConnectionRejection::PerIpLimitReached {
        ip: localhost(),
        current: 10,
    };
    let msg = rejection.to_string();
    assert!(msg.contains("per-IP"));
    assert!(msg.contains("127.0.0.1"));
}

#[test]
fn test_rejection_no_resource_leak() {
    let config = ConnectionConfig {
        max_connections: 2,
        max_connections_per_ip: 10,
        rate_limit_per_sec_per_ip: 100,
        ..Default::default()
    };
    let mut mgr = ConnectionManager::new(config);

    let p1 = mgr.try_acquire(&ip(1), NOW).unwrap();
    let p2 = mgr.try_acquire(&ip(2), NOW).unwrap();

    // Rejected connection should not consume a slot
    let _ = mgr.try_acquire(&ip(3), NOW);
    assert_eq!(mgr.active_connections(), 2);

    // After dropping, slots are freed
    mgr.release(p1);
    mgr.release(p2);
    assert_eq!(mgr.active_connections(), 0);
}

// ---- Idle connection cleanup ----

#[test]
fn test_idle_timeout_measured_from_config() {
    let config = ConnectionConfig {
        idle_timeout_secs: 300,
        ..Default::default()
    };
    let mut mgr = ConnectionManager::new(config);
    assert_eq!(mgr.idle_timeout(), Duration::from_secs(300));
}

#[test]
fn test_cleanup_releases_slot_on_drop() {
    let config = ConnectionConfig {
        max_connections: 1,
        max_connections_per_ip: 10,
        rate_limit_per_sec_per_ip: 100,
        ..Default::default()
    };
    let mut mgr = ConnectionManager::new(config);

    // Simulates server closing an idle connection
    let permit = mgr.try_acquire(&ip(1), NOW).unwrap();
    assert_eq!(mgr.active_connections(), 1);
    assert_eq!(mgr.connections_for_ip(&ip(1)), 1);

    // Drop permit (simulates server-initiated close)
    mgr.release(permit);
    assert_eq!(mgr.active_connections(), 0);
    assert_eq!(mgr.connections_for_ip(&ip(1)), 0);

    // Slot is reusable
    let _p = mgr.try_acquire(&ip(2), NOW).unwrap();
    assert_eq!(mgr.active_connections(), 1);
}

// ---- Per-IP rate limiting ----

#[test]
fn test_rate_limit_per_ip() {
    let config = ConnectionConfig {
        max_connections: 100,
        max_connections_per_ip: 100,
        rate_limit_per_sec_per_ip: 3,
        ..Default::default()
    };
    let mut mgr = ConnectionManager::new(config);

    let test_ip = ip(1);

    // First 3 connections should succeed (within 1 second window)
    let mut permits = Vec::new();
    for _ in 0..3 {
        let p = mgr.try_acquire(&test_ip, NOW).unwrap();
        permits.push(p);
    }

    // 4th connection within same second should be rate limited
    let result = mgr.try_acquire(&test_ip, NOW);
    assert!(
        matches!(result, Err(ConnectionRejection::RateLimitExceeded { .. })),
        "Should be rate limited"
    );

    // Different IP should NOT be rate limited
    let other = mgr.try_acquire(&ip(2), NOW);
    assert!(other.is_ok(), "Different IP should not be rate limited");
}

// ---- Graceful shutdown ----

#[test]
fn test_shutdown_rejects_new_connections() {
    let mut mgr = ConnectionManager::new(ConnectionConfig::default());

    // Pre-existing connection
    let _permit = mgr.try_acquire(&ip(1), NOW).unwrap();

    // Initiate shutdown
    mgr.shutdown();
    assert!(mgr.is_shutting_down());

    // New connections should be rejected
    let result = mgr.try_acquire(&ip(2), NOW);
    assert!(matches!(result, Err(ConnectionRejection::ShuttingDown)));
}

#[test]
fn test_shutdown_existing_connections_still_held() {
    let mut mgr = ConnectionManager::new(ConnectionConfig::default());

    let permit = mgr.try_acquire(&ip(1), NOW).unwrap();
    assert_eq!(mgr.active_connections(), 1);

    mgr.shutdown();

    // Existing connection is still counted
    assert_eq!(mgr.active_connections(), 1);

    // Only when dropped does it release
    mgr.release(permit);
    assert_eq!(mgr.active_connections(), 0);
}

// ---- Connected IPs ----

#[test]
fn test_connected_ips() {
    let config = ConnectionConfig {
        max_connections: 100,
        max_connections_per_ip: 10,
        rate_limit_per_sec_per_ip: 100,
        ..Default::default()
    };
    let mut mgr = ConnectionManager::new(config);

    let _p1 = mgr.try_acquire(&ip(1), NOW).unwrap();
    let _p2 = mgr.try_acquire(&ip(1), NOW).unwrap();
    let _p3 = mgr.try_acquire(&ip(2), NOW).unwrap();

    let ips = mgr.connected_ips();
    assert_eq!(ips.len(), 2);

    let ip1_count = ips.iter().find(|(i, _)| *i == ip(1)).map(|(_, c)| *c);
    let ip2_count = ips.iter().find(|(i, _)| *i == ip(2)).map(|(_, c)| *c);
    assert_eq!(ip1_count, Some(2));
    assert_eq!(ip2_count, Some(1));
}

#[test]
fn test_connected_ips_empty() {
    let mut mgr = ConnectionManager::new(ConnectionConfig::default());
    assert!(mgr.connected_ips().is_empty());
}

// ---- Per-IP tracking ----

#[test]
fn test_per_ip_tracking() {
    let config = ConnectionConfig {
        max_connections: 100,
        max_connections_per_ip: 10,
        rate_limit_per_sec_per_ip: 100,
        ..Default::default()
    };
    let mut mgr = ConnectionManager::new(config);

    let ip1 = ip(1);
    let ip2 = ip(2);

    let _p1a = mgr.try_acquire(&ip1, NOW).unwrap();
    let _p1b = mgr.try_acquire(&ip1, NOW).unwrap();
    let _p2a = mgr.try_acquire(&ip2, NOW).unwrap();

    assert_eq!(mgr.connections_for_ip(&ip1), 2);
    assert_eq!(mgr.connections_for_ip(&ip2), 1);
    assert_eq!(mgr.connections_for_ip(&ip(3)), 0);
    assert_eq!(mgr.active_connections(), 3);
}

#[test]
fn test_per_ip_limit_enforced() {
    let config = ConnectionConfig {
        max_connections: 100,
        max_connections_per_ip: 3,
        rate_limit_per_sec_per_ip: 100,
        ..Default::default()
    };
    let mut mgr = ConnectionManager::new(config);

    let test_ip = ip(1);
    let mut permits = Vec::new();
    for _ in 0..3 {
        permits.push(mgr.try_acquire(&test_ip, NOW).unwrap());
    }

    // 4th from same IP should be rejected
    let result = mgr.try_acquire(&test_ip, NOW);
    assert!(matches!(
        result,
        Err(ConnectionRejection::PerIpLimitReached { .. })
    ));

    // Different IP should work
    assert!(mgr.try_acquire(&ip(2), NOW).is_ok());
}

#[test]
fn test_per_ip_count_decrements_on_disconnect() {
    let config = ConnectionConfig {
        max_connections: 100,
        max_connections_per_ip: 2,
        rate_limit_per_sec_per_ip: 100,
        ..Default::default()
    };
    let mut mgr = ConnectionManager::new(config);

    let test_ip = ip(1);
    let p1 = mgr.try_acquire(&test_ip, NOW).unwrap();
    let p2 = mgr.try_acquire(&test_ip, NOW).unwrap();
    assert!(mgr.try_acquire(&test_ip, NOW).is_err());

    mgr.release(p1);
    assert_eq!(mgr.connections_for_ip(&test_ip), 1);

    // Can now accept a new connection from same IP
    let _p3 = mgr.try_acquire(&test_ip, NOW).unwrap();
    assert_eq!(mgr.connections_for_ip(&test_ip), 2);

    mgr.release(p2);
    assert_eq!(mgr.connections_for_ip(&test_ip), 1);
}

// ---- Keep-alive heartbeat ----

#[test]
fn test_keepalive_interval_config() {
    let config = ConnectionConfig {
        keepalive_interval_secs: 60,
        ..Default::default()
    };
    let mut mgr = ConnectionManager::new(config);
    assert_eq!(mgr.keepalive_interval(), Duration::from_secs(60));
}

#[test]
fn test_custom_keepalive_interval() {
    let config = ConnectionConfig {
        keepalive_interval_secs: 30,
        ..Default::default()
    };
    let mut mgr = ConnectionManager::new(config);
    assert_eq!(mgr.keepalive_interval(), Duration::from_secs(30));
}

// ---- Backpressure handling ----

#[test]
fn test_send_buffer_size_config() {
    let config = ConnectionConfig {
        send_buffer_size: 1_048_576, // 1 MB
        ..Default::default()
    };
    let mut mgr = ConnectionManager::new(config);
    assert_eq!(mgr.send_buffer_size(), 1_048_576);
}

#[test]
fn test_custom_send_buffer_size() {
    let config = ConnectionConfig {
        send_buffer_size: 512 * 1024, // 512 KB
        ..Default::default()
    };
    let mut mgr = ConnectionManager::new(config);
    assert_eq!(mgr.send_buffer_size(), 512 * 1024);
}

// ---- Error path resource cleanup ----

#[test]
fn test_permit_drop_releases_all_resources() {
    let config = ConnectionConfig {
        max_connections: 1,
        max_connections_per_ip: 10,
        rate_limit_per_sec_per_ip: 100,
        ..Default::default()
    };
    let mut mgr = ConnectionManager::new(config);

    let test_ip = ip(1);

    // Acquire and drop multiple times to verify no leaks
    for _ in 0..10 {
        let permit = mgr.try_acquire(&test_ip, NOW).unwrap();
        assert_eq!(mgr.active_connections(), 1);
        assert_eq!(mgr.connections_for_ip(&test_ip), 1);
        mgr.release(permit);
        assert_eq!(mgr.active_connections(), 0);
        assert_eq!(mgr.connections_for_ip(&test_ip), 0);
    }
}

#[test]
fn test_per_ip_entry_cleaned_on_last_disconnect() {
    let config = ConnectionConfig {
        max_connections: 100,
        max_connections_per_ip: 10,
        rate_limit_per_sec_per_ip: 100,
        ..Default::default()
    };
    let mut mgr = ConnectionManager::new(config);

    let test_ip = ip(1);
    let p1 = mgr.try_acquire(&test_ip, NOW).unwrap();
    let p2 = mgr.try_acquire(&test_ip, NOW).unwrap();

    mgr.release(p1);
    // Still one connection, entry should exist
    assert_eq!(mgr.connections_for_ip(&test_ip), 1);

    mgr.release(p2);
    // No connections, entry should be cleaned up
    assert_eq!(mgr.connections_for_ip(&test_ip), 0);
}

// ---- Default configuration ----

#[test]
fn test_default_config_values() {
    let config = ConnectionConfig::default();
    assert_eq!(config.max_connections, 100);
    assert_eq!(config.idle_timeout_secs, 300);
    assert_eq!(config.max_connections_per_ip, 10);
    assert_eq!(config.rate_limit_per_sec_per_ip, 10);
    assert_eq!(config.keepalive_interval_secs, 60);
    assert_eq!(config.send_buffer_size, 1_048_576);
    assert_eq!(config.shutdown_timeout_secs, 30);
}

// ---- Connection permit IP tracking ----

#[test]
fn test_permit_reports_ip() {
    let mut mgr = ConnectionManager::new(ConnectionConfig::default());
    let test_ip = ip(42);
    let permit = mgr.try_acquire(&test_ip, NOW).unwrap();
    assert_eq!(*permit.ip(), test_ip);
}

#[test]
fn test_shutdown_wait_for_drain() {
    let config = ConnectionConfig {
        shutdown_timeout_secs: 1,
        max_connections_per_ip: 10,
        rate_limit_per_sec_per_ip: 100,
        ..Default::default()
    };
    let mut mgr = ConnectionManager::new(config);
    let permit = mgr.try_acquire(&ip(1), NOW).unwrap();
    mgr.shutdown();
    assert_eq!(mgr.drained(100_000_000), None);
    mgr.release(permit);
    assert_eq!(mgr.active_connections(), 0);
    assert_eq!(mgr.drained(100_000_000), Some(true), "Should drain before timeout");
}

#[test]
fn test_shutdown_timeout_on_stubborn_connections() {
    let config = ConnectionConfig {
        shutdown_timeout_secs: 0,
        max_connections_per_ip: 10,
        rate_limit_per_sec_per_ip: 100,
        ..Default::default()
    };
    let mut mgr = ConnectionManager::new(config);
    let _permit = mgr.try_acquire(&ip(1), NOW).unwrap();
    mgr.shutdown();
    assert_eq!(mgr.drained(0), Some(false), "Should timeout with stubborn connection");
}

#[test]
fn rate_limit_looks_back_one_second() {
    let config = ConnectionConfig {
        max_connections: 100,
        max_connections_per_ip: 100,
        rate_limit_per_sec_per_ip: 2,
        ..Default::default()
    };
    let mut mgr = ConnectionManager::new(config);
    let at = |nanos: u64| Tick { nanos };
    let first = mgr.try_acquire("10.0.0.1", at(1_000_000_000)).unwrap();
    mgr.release(first);
    let _second = mgr.try_acquire("10.0.0.1", at(1_500_000_000)).unwrap();
    assert!(matches!(
        mgr.try_acquire("10.0.0.1", at(1_999_999_999)),
        Err(ConnectionRejection::RateLimitExceeded { .. })
    ));
    assert!(mgr.try_acquire("10.0.0.1", at(2_500_000_000)).is_ok());
}

#[test]
fn totals_count_what_was_taken_and_refused() {
    let mut mgr = ConnectionManager::new(ConnectionConfig { max_connections: 1, ..Default::default() });
    let permit = mgr.try_acquire("10.0.0.1", NOW).unwrap();
    assert!(mgr.try_acquire("10.0.0.2", NOW).is_err());
    mgr.release(permit);
    mgr.shutdown();
    assert!(mgr.try_acquire("10.0.0.1", NOW).is_err());
    assert_eq!(mgr.total_accepted(), 1);
    assert_eq!(mgr.total_rejected(), 2);
}

#[test]
fn messages_of_all_refusals() {
    let texts: Vec<String> = vec![
        ConnectionRejection::MaxConnectionsReached.to_string(),
        ConnectionRejection::PerIpLimitReached { ip: ip(7), current: 10 }.to_string(),
        ConnectionRejection::RateLimitExceeded { ip: ip(7) }.to_string(),
        ConnectionRejection::ShuttingDown.to_string(),
    ];
    for (i, a) in texts.iter().enumerate() {
        for b in texts.iter().skip(i + 1) {
            assert_ne!(a, b);
        }
    }
    assert_eq!(texts[1], "per-IP connection limit reached for 192.168.1.7 (10 active)");
}
