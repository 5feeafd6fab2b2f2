//! The circuit breaker: state transitions, backoff, probes and recovery.

use llamesh::circuit_breaker::{
    default_enabled, default_failure_threshold, default_half_open_probe_interval_ms,
    default_open_duration_base_ms, default_open_duration_max_ms, default_success_threshold,
    CircuitBreaker, CircuitBreakerConfig, CircuitState, PeerCircuit,
};

const MS: u64 = 1_000_000;

#[test]
fn test_circuit_starts_closed() {
    let mut cb = CircuitBreaker::new(CircuitBreakerConfig::default());
    assert!(cb.should_allow("peer-1"));
    assert_eq!(cb.get_state("peer-1"), CircuitState::Closed);
}

#[test]
fn test_circuit_opens_after_failures() {
    let config = CircuitBreakerConfig {
        failure_threshold: 3,
        ..Default::default()
    };
    let mut cb = CircuitBreaker::new(config);

    cb.record_failure("peer-1");
    cb.record_failure("peer-1");
    assert!(cb.should_allow("peer-1")); // Still closed

    cb.record_failure("peer-1");
    assert_eq!(cb.get_state("peer-1"), CircuitState::Open);
    assert!(!cb.should_allow("peer-1")); // Now blocked
}

#[test]
fn test_success_resets_failure_count() {
    let config = CircuitBreakerConfig {
        failure_threshold: 3,
        ..Default::default()
    };
    let mut cb = CircuitBreaker::new(config);

    cb.record_failure("peer-1");
    cb.record_failure("peer-1");
    cb.record_success("peer-1"); // Reset

    cb.record_failure("peer-1");
    cb.record_failure("peer-1");
    assert!(cb.should_allow("peer-1")); // Still closed (only 2 failures)
}

#[test]
fn test_disabled_circuit_breaker() {
    let config = CircuitBreakerConfig {
        enabled: false,
        failure_threshold: 1,
        ..Default::default()
    };
    let mut cb = CircuitBreaker::new(config);

    cb.record_failure("peer-1");
    cb.record_failure("peer-1");
    cb.record_failure("peer-1");

    // Should still allow even after many failures
    assert!(cb.should_allow("peer-1"));
}

#[test]
fn test_backoff_calculation() {
    let cb = CircuitBreaker::new(CircuitBreakerConfig {
        open_duration_base_ms: 1000,
        open_duration_max_ms: 30000,
        ..Default::default()
    });

    assert_eq!(cb.calculate_backoff(1), 1000);
    assert_eq!(cb.calculate_backoff(2), 2000);
    assert_eq!(cb.calculate_backoff(3), 4000);
    assert_eq!(cb.calculate_backoff(4), 8000);
    assert_eq!(cb.calculate_backoff(5), 16000);
    assert_eq!(cb.calculate_backoff(6), 30000); // Capped
}

#[test]
fn test_half_open_to_closed_on_success() {
    let config = CircuitBreakerConfig {
        failure_threshold: 2,
        success_threshold: 2,
        open_duration_base_ms: 1,
        ..Default::default()
    };
    let mut cb = CircuitBreaker::new(config);

    // Open the circuit
    cb.record_failure_at("peer-1", 0);
    cb.record_failure_at("peer-1", 0);
    assert_eq!(cb.get_state("peer-1"), CircuitState::Open);

    // Let the backoff pass and trigger half-open
    assert!(cb.should_allow_at("peer-1", 5 * MS)); // Transitions to HalfOpen
    assert_eq!(cb.get_state("peer-1"), CircuitState::HalfOpen);

    // Successes in half-open close the circuit
    cb.record_success_at("peer-1", 5 * MS);
    assert_eq!(cb.get_state("peer-1"), CircuitState::HalfOpen);
    cb.record_success_at("peer-1", 5 * MS);
    assert_eq!(cb.get_state("peer-1"), CircuitState::Closed);
}

#[test]
fn test_half_open_to_open_on_failure() {
    let config = CircuitBreakerConfig {
        failure_threshold: 2,
        success_threshold: 2,
        open_duration_base_ms: 1,
        ..Default::default()
    };
    let mut cb = CircuitBreaker::new(config);

    // Open the circuit
    cb.record_failure_at("peer-1", 0);
    cb.record_failure_at("peer-1", 0);
    assert_eq!(cb.get_state("peer-1"), CircuitState::Open);

    // Let the backoff pass and transition to half-open
    cb.should_allow_at("peer-1", 5 * MS);
    assert_eq!(cb.get_state("peer-1"), CircuitState::HalfOpen);

    // Failure in half-open reopens circuit
    cb.record_failure_at("peer-1", 5 * MS);
    assert_eq!(cb.get_state("peer-1"), CircuitState::Open);
}

#[test]
fn test_reset_clears_circuit() {
    let config = CircuitBreakerConfig {
        failure_threshold: 2,
        ..Default::default()
    };
    let mut cb = CircuitBreaker::new(config);

    // Open the circuit
    cb.record_failure("peer-1");
    cb.record_failure("peer-1");
    assert_eq!(cb.get_state("peer-1"), CircuitState::Open);

    // Reset should clear state
    cb.reset("peer-1");
    assert_eq!(cb.get_state("peer-1"), CircuitState::Closed);
    assert!(cb.should_allow("peer-1"));
}

#[test]
fn test_get_all_states() {
    let config = CircuitBreakerConfig {
        failure_threshold: 1,
        ..Default::default()
    };
    let mut cb = CircuitBreaker::new(config);

    // Create circuits for multiple peers
    cb.should_allow("peer-1"); // Creates closed circuit
    cb.record_failure("peer-2"); // Opens circuit

    let states = cb.get_all_states();
    assert_eq!(states.get("peer-1"), Some(&CircuitState::Closed));
    assert_eq!(states.get("peer-2"), Some(&CircuitState::Open));
}

#[test]
fn sync_gate_drives_recovery_through_record_paths() {
    // Recovery must work through should_allow_sync plus the two recording
    // calls alone.
    let config = CircuitBreakerConfig {
        failure_threshold: 2,
        success_threshold: 2,
        open_duration_base_ms: 1,
        half_open_probe_interval_ms: 0, // no limit on probes; tested separately
        ..Default::default()
    };
    let mut cb = CircuitBreaker::new(config);

    cb.record_failure_at("p", 0);
    cb.record_failure_at("p", 0);
    assert_eq!(cb.get_state("p"), CircuitState::Open);
    assert!(!cb.should_allow_sync_at("p", 0));

    let later = 5 * MS;
    assert!(cb.should_allow_sync_at("p", later)); // probe admitted after backoff

    cb.record_success_at("p", later); // successful probe: half-open
    assert_eq!(cb.get_state("p"), CircuitState::HalfOpen);
    cb.record_success_at("p", later); // second success: closed
    assert_eq!(cb.get_state("p"), CircuitState::Closed);
}

#[test]
fn failed_probe_reopens_with_escalated_backoff() {
    let config = CircuitBreakerConfig {
        failure_threshold: 1,
        open_duration_base_ms: 40,
        open_duration_max_ms: 10_000,
        half_open_probe_interval_ms: 0,
        ..Default::default()
    };
    let mut cb = CircuitBreaker::new(config);

    cb.record_failure_at("p", 0); // open; backoff 40ms
    assert!(!cb.should_allow_sync_at("p", 0));
    assert!(cb.should_allow_sync_at("p", 50 * MS)); // probe admitted

    // A failed probe restarts the block window with doubled backoff.
    cb.record_failure_at("p", 50 * MS);
    assert_eq!(cb.get_state("p"), CircuitState::Open);
    assert!(!cb.should_allow_sync_at("p", 50 * MS));
    assert!(!cb.should_allow_sync_at("p", 100 * MS)); // still inside the 80ms backoff
    assert!(cb.should_allow_sync_at("p", 150 * MS)); // escalated backoff elapsed
}

#[test]
fn stale_results_inside_backoff_window_do_not_change_state() {
    let config = CircuitBreakerConfig {
        failure_threshold: 1,
        open_duration_base_ms: 60_000,
        ..Default::default()
    };
    let mut cb = CircuitBreaker::new(config);
    cb.record_failure("p");
    assert_eq!(cb.get_state("p"), CircuitState::Open);

    // Late results from requests sent before the circuit opened must
    // neither recover nor escalate the circuit.
    cb.record_success("p");
    assert_eq!(cb.get_state("p"), CircuitState::Open);
    cb.record_failure("p");
    assert_eq!(cb.get_state("p"), CircuitState::Open);
    assert!(!cb.should_allow_sync("p"));
}

#[test]
fn probe_gating_limits_admissions_per_interval() {
    let config = CircuitBreakerConfig {
        failure_threshold: 1,
        success_threshold: 2,
        open_duration_base_ms: 1,
        half_open_probe_interval_ms: 60_000,
        ..Default::default()
    };
    let mut cb = CircuitBreaker::new(config);
    cb.record_failure_at("p", 0);
    let later = 5 * MS;

    assert!(cb.should_allow_sync_at("p", later)); // first probe admitted
    assert!(!cb.should_allow_sync_at("p", later)); // backlog herd denied
    assert!(!cb.should_allow_sync_at("p", later));

    // Recovery through probe successes reopens unrestricted traffic.
    cb.record_success_at("p", later);
    cb.record_success_at("p", later);
    assert_eq!(cb.get_state("p"), CircuitState::Closed);
    assert!(cb.should_allow_sync_at("p", later));
    assert!(cb.should_allow_sync_at("p", later));
}

#[test]
fn test_should_allow_sync_closed() {
    let mut cb = CircuitBreaker::new(CircuitBreakerConfig::default());
    cb.should_allow("peer-1"); // Initialize
    assert!(cb.should_allow_sync("peer-1"));
}

#[test]
fn test_should_allow_sync_open() {
    let config = CircuitBreakerConfig {
        failure_threshold: 1,
        open_duration_base_ms: 60000, // Long backoff
        ..Default::default()
    };
    let mut cb = CircuitBreaker::new(config);

    cb.record_failure("peer-1");
    assert!(!cb.should_allow_sync("peer-1")); // Blocked
}

#[test]
fn test_should_allow_sync_unknown_peer() {
    let mut cb = CircuitBreaker::new(CircuitBreakerConfig::default());
    assert!(cb.should_allow_sync("unknown-peer")); // Unknown = closed
}

#[test]
fn test_backoff_zero_consecutive_opens() {
    let cb = CircuitBreaker::new(CircuitBreakerConfig {
        open_duration_base_ms: 1000,
        ..Default::default()
    });
    // Edge case: 0 consecutive opens (shouldn't happen but handle gracefully)
    assert_eq!(cb.calculate_backoff(0), 1000);
}

#[test]
fn test_backoff_overflow_protection() {
    let cb = CircuitBreaker::new(CircuitBreakerConfig {
        open_duration_base_ms: 1000,
        open_duration_max_ms: 60000,
        ..Default::default()
    });
    // Large consecutive opens shouldn't overflow
    assert_eq!(cb.calculate_backoff(100), 60000);
    assert_eq!(cb.calculate_backoff(u32::MAX), 60000);
}

#[test]
fn backoff_of_a_large_base_is_capped_not_wrapped() {
    let config = CircuitBreakerConfig {
        open_duration_base_ms: u64::MAX / 2,
        open_duration_max_ms: u64::MAX,
        ..Default::default()
    };
    assert_eq!(config.calculate_backoff(1), u64::MAX / 2);
    assert_eq!(config.calculate_backoff(2), u64::MAX - 1);
    assert_eq!(config.calculate_backoff(3), u64::MAX);
    let capped = CircuitBreakerConfig {
        open_duration_base_ms: 5_000,
        open_duration_max_ms: 3_000,
        ..Default::default()
    };
    assert_eq!(capped.calculate_backoff(1), 3_000);
}

#[test]
fn the_default_configuration() {
    let config = CircuitBreakerConfig::default();
    assert_eq!(config.failure_threshold, 5);
    assert_eq!(config.success_threshold, 2);
    assert_eq!(config.open_duration_base_ms, 5_000);
    assert_eq!(config.open_duration_max_ms, 60_000);
    assert_eq!(config.half_open_probe_interval_ms, 1_000);
    assert!(config.enabled);
    assert_eq!(default_failure_threshold(), 5);
    assert_eq!(default_success_threshold(), 2);
    assert_eq!(default_open_duration_base_ms(), 5_000);
    assert_eq!(default_open_duration_max_ms(), 60_000);
    assert_eq!(default_half_open_probe_interval_ms(), 1_000);
    assert!(default_enabled());
}

#[test]
fn backoff_ends_exactly_when_its_time_has_passed() {
    let config = CircuitBreakerConfig {
        failure_threshold: 1,
        open_duration_base_ms: 40,
        half_open_probe_interval_ms: 0,
        ..Default::default()
    };
    let mut cb = CircuitBreaker::new(config);
    cb.record_failure_at("p", 7);
    assert!(!cb.should_allow_sync_at("p", 40 * MS + 6));
    assert!(cb.should_allow_sync_at("p", 40 * MS + 7));
}

#[test]
fn a_second_probe_comes_after_the_interval() {
    let mut circuit = PeerCircuit::new(3 * MS);
    assert!(circuit.try_claim_probe(100, 13 * MS));
    assert_eq!(circuit.last_probe_ms, 10);
    assert!(!circuit.try_claim_probe(100, 112 * MS));
    assert_eq!(circuit.last_probe_ms, 10);
    assert!(circuit.try_claim_probe(100, 113 * MS));
    assert_eq!(circuit.last_probe_ms, 110);
    circuit.reset_probe();
    assert_eq!(circuit.last_probe_ms, 0);
    assert!(circuit.try_claim_probe(100, 113 * MS));
    // No interval: every claim is granted and none is recorded.
    assert!(circuit.try_claim_probe(0, 113 * MS));
    assert!(circuit.try_claim_probe(0, 113 * MS));
}

#[test]
fn the_sync_admission_leaves_the_state_alone() {
    let config = CircuitBreakerConfig {
        failure_threshold: 1,
        open_duration_base_ms: 1,
        half_open_probe_interval_ms: 0,
        ..Default::default()
    };
    let mut cb = CircuitBreaker::new(config);
    cb.record_failure_at("p", 0);
    assert!(cb.should_allow_sync_at("p", 10 * MS));
    assert_eq!(cb.get_state("p"), CircuitState::Open);
    assert!(cb.should_allow_sync_at("q", 10 * MS));
    assert_eq!(cb.get_all_states().len(), 1);
}

#[test]
fn circuits_of_different_peers_are_independent() {
    let config = CircuitBreakerConfig {
        failure_threshold: 1,
        ..Default::default()
    };
    let mut cb = CircuitBreaker::new(config);
    cb.record_failure_at("a", 0);
    assert!(!cb.should_allow_at("a", 0));
    assert!(cb.should_allow_at("b", 0));
    assert_eq!(cb.circuit("a", 0).failure_count, 1);
    assert_eq!(cb.circuit("b", 0).failure_count, 0);
    assert!(cb.failure_room("a"));
    assert!(cb.failure_room("never seen"));
    cb.reset("a");
    assert_eq!(cb.get_all_states().len(), 1);
}

#[test]
fn times_are_counted_from_one_origin() {
    let config = CircuitBreakerConfig {
        failure_threshold: 1,
        success_threshold: 1,
        open_duration_base_ms: 10,
        open_duration_max_ms: 10,
        ..Default::default()
    };
    let mut cb = CircuitBreaker::new(config);
    let origin = cb.epoch;
    let opens_match = |cb: &CircuitBreaker| {
        let circuit = cb.circuit("p", 0);
        (circuit.state == CircuitState::Closed) == (circuit.consecutive_opens == 0)
    };
    cb.record_failure_at("p", MS);
    assert!(opens_match(&cb));
    assert!(cb.should_allow_at("p", 20 * MS));
    assert!(opens_match(&cb));
    cb.record_failure_at("p", 21 * MS);
    assert!(opens_match(&cb));
    assert!(cb.should_allow_at("p", 40 * MS));
    cb.record_success_at("p", 41 * MS);
    assert!(opens_match(&cb));
    assert_eq!(cb.get_state("p"), CircuitState::Closed);
    cb.record_failure("p");
    cb.record_success("p");
    cb.should_allow("p");
    cb.should_allow_sync("p");
    cb.reset("p");
    assert_eq!(cb.epoch, origin);
}

#[test]
fn the_threshold_counts_from_the_last_success() {
    let config = CircuitBreakerConfig {
        failure_threshold: 3,
        ..Default::default()
    };
    let mut cb = CircuitBreaker::new(config);
    for now in [1, 2] {
        cb.record_failure_at("p", now);
        assert!(cb.circuit("p", 0).failure_count < 3);
    }
    cb.record_success_at("p", 3);
    for now in [4, 5] {
        cb.record_failure_at("p", now);
        assert_eq!(cb.get_state("p"), CircuitState::Closed);
        assert!(cb.circuit("p", 0).failure_count < 3);
    }
    cb.record_failure_at("p", 6);
    assert_eq!(cb.get_state("p"), CircuitState::Open);
    assert_eq!(cb.circuit("p", 0).last_state_change, 6);
}
