//! Counters, snapshots and the text exposition of the metrics.

use llamesh::build_manager::BuildStatus;
use llamesh::circuit_breaker::{CircuitBreaker, CircuitBreakerConfig};
use llamesh::instance::ParsedModelParams;
use llamesh::metrics::{
    HashMetrics, HashMetricsSnapshot, Metrics, NodeResourceMetricsSnapshot, ProcessInfo, QueueDropReason,
    MAX_LATENCY_SAMPLES,
};
use llamesh::prometheus::{escape_label_value, render_prometheus_with_circuit_breaker};

const VERSION: &str = "1.20.3";

fn process() -> ProcessInfo {
    ProcessInfo {
        version: VERSION.to_string(),
        token_counting_disabled_total: 0,
        skipped_stream_cleanups_total: 0,
    }
}

#[test]
fn test_escape_label_value() {
    assert_eq!(escape_label_value("normal"), "normal");
    assert_eq!(escape_label_value("with\"quote"), "with\\\"quote");
    assert_eq!(escape_label_value("with\\slash"), "with\\\\slash");
    assert_eq!(escape_label_value("multi\nline"), "multi\\nline");
}

#[test]
fn test_metrics_collection() {
    let mut metrics = Metrics::new();

    metrics.inc_requests();
    metrics.inc_requests();
    metrics.inc_errors();
    metrics.dec_current_requests(); // 2 -> 1

    assert_eq!(metrics.requests_total, 2);
    assert_eq!(metrics.errors_total, 1);
    assert_eq!(metrics.current_requests, 1);
}

#[test]
fn test_hash_metrics() {
    let mut metrics = Metrics::new();
    let args_hash = "abc123def456";

    let hm = metrics.get_hash_metrics(args_hash);
    hm.add_display_name("gpt:fast");
    hm.count_requests(5);
    hm.count_errors(1);
    hm.count_tokens(100);

    // Add some latencies
    hm.observe_latency(100);
    hm.observe_latency(200);
    hm.observe_memory(1000, 2000);
    metrics.observe_node_resources(NodeResourceMetricsSnapshot {
        llamesh_vram_mb: 3000,
        llamesh_sysmem_mb: 4000,
        external_vram_mb: 500,
        effective_vram_mb: 3500,
        effective_sysmem_mb: 4000,
        device_vram_used_mb: 3500,
        device_vram_total_mb: 24000,
        gpu_telemetry_available: true,
        active_instances: 2,
        max_vram_mb: 23500,
        max_sysmem_mb: 185000,
    });

    let snapshot = metrics.snapshot("node-test".into(), "v1".into(), None, &process());
    let hash_snap = snapshot
        .hashes
        .get(args_hash)
        .expect("Hash metrics missing");

    assert_eq!(hash_snap.requests_total, 5);
    assert_eq!(hash_snap.errors_total, 1);
    assert_eq!(hash_snap.tokens_generated_total, 100);
    let avg_latency_ms = hash_snap.total_latency_ms as f64 / hash_snap.requests_total as f64;
    assert_eq!(avg_latency_ms, 60.0); // 300 / 5
    assert_eq!(hash_snap.p95_latency_ms, 100); // 95th percentile of [100, 200]: idx=floor((2-1)*0.95)=0
    assert_eq!(hash_snap.peak_vram_mb, 1000);
    assert_eq!(hash_snap.peak_sysmem_mb, 2000);
    assert_eq!(hash_snap.sample_count, 1);
    assert!(hash_snap.display_names.contains(&"gpt:fast".to_string()));
    assert_eq!(snapshot.node_resources.llamesh_vram_mb, 3000);
    assert_eq!(snapshot.node_resources.external_vram_mb, 500);
    assert!(snapshot.node_resources.gpu_telemetry_available);
    assert_eq!(snapshot.node_resources.active_instances, 2);
    assert_eq!(snapshot.node_resources.max_vram_mb, 23500);
    assert_eq!(snapshot.node_resources.max_sysmem_mb, 185000);
}

#[test]
fn test_prometheus_rendering() {
    let mut metrics = Metrics::new();
    metrics.inc_requests();
    metrics.observe_node_resources(NodeResourceMetricsSnapshot {
        llamesh_vram_mb: 100,
        llamesh_sysmem_mb: 200,
        external_vram_mb: 50,
        effective_vram_mb: 150,
        effective_sysmem_mb: 200,
        device_vram_used_mb: 150,
        device_vram_total_mb: 1000,
        gpu_telemetry_available: true,
        active_instances: 3,
        max_vram_mb: 900,
        max_sysmem_mb: 4096,
    });

    let hm = metrics.get_hash_metrics("abc123");
    hm.add_display_name("gpt\"cool\"");
    hm.count_requests(1);
    hm.observe_latency(50);

    let output = render_prometheus_with_circuit_breaker(&metrics, None, "abc123def", &process());

    assert!(output.contains("proxy_requests_total 1"));
    assert!(output.contains("proxy_node_external_vram_mb 50"));
    assert!(output.contains("proxy_node_gpu_telemetry_available 1"));
    assert!(output.contains("proxy_node_active_instances 3"));
    assert!(output.contains("proxy_node_max_vram_mb 900"));
    assert!(output.contains("proxy_node_max_sysmem_mb 4096"));
    assert!(output.contains("proxy_hash_requests_total{hash=\"abc123\""));
    assert!(output.contains("names=\"gpt\\\"cool\\\"\""));
}

#[test]
fn test_prometheus_build_info() {
    let metrics = Metrics::new();
    let output = render_prometheus_with_circuit_breaker(&metrics, None, "6ed481eea", &process());

    // build_info is rendered as a constant gauge carrying the proxy version
    // and the llama.cpp binary version in labels.
    assert!(output.contains("# TYPE proxy_build_info gauge"));
    assert!(output.contains(&format!(
        "proxy_build_info{{version=\"{VERSION}\",llama_cpp_version=\"6ed481eea\"}} 1"
    )));
}

#[test]
fn test_prometheus_build_info_escapes_llama_cpp_version() {
    let metrics = Metrics::new();
    let output =
        render_prometheus_with_circuit_breaker(&metrics, None, "weird\"\\\nver", &process());

    assert!(output.contains(&format!(
        "proxy_build_info{{version=\"{VERSION}\",llama_cpp_version=\"weird\\\"\\\\\\nver\"}} 1"
    )));
}

#[test]
fn queue_drop_counters_round_trip_through_snapshot() {
    let mut metrics = Metrics::new();
    metrics.record_queue_drop(QueueDropReason::Full);
    metrics.record_queue_drop(QueueDropReason::Timeout);
    metrics.record_queue_drop(QueueDropReason::Timeout);
    metrics.record_queue_drop(QueueDropReason::GlobalLimit);
    metrics.set_queue_length(7);

    let snapshot = metrics.snapshot("n".into(), "v".into(), None, &process());
    assert_eq!(snapshot.queue_drops_full, 1);
    assert_eq!(snapshot.queue_drops_timeout, 2);
    assert_eq!(snapshot.queue_drops_global_limit, 1);
    assert_eq!(snapshot.queue_length, 7);

    // Drop counters are cumulative and survive a restart; the queue depth
    // is a runtime gauge and starts fresh.
    let restored = Metrics::from_snapshot(snapshot);
    assert_eq!(restored.queue_drops_full, 1);
    assert_eq!(restored.queue_drops_timeout, 2);
    assert_eq!(restored.queue_drops_global_limit, 1);
    assert_eq!(restored.queue_length, 0);
}

#[test]
fn queue_wait_and_pending_metrics_surface_in_snapshot() {
    let mut metrics = Metrics::new();
    metrics.inc_pending_tokens();
    metrics.inc_pending_tokens();
    metrics.observe_queue_wait(120);
    metrics.observe_queue_wait(80);

    let snapshot = metrics.snapshot("n".into(), "v".into(), None, &process());
    assert_eq!(snapshot.queue_pending_tokens, 2);
    assert_eq!(snapshot.queue_wait_total_ms, 200);
    assert_eq!(snapshot.queue_wait_count, 2);

    // These are runtime metrics: like queue_length they start fresh after a restart.
    let restored = Metrics::from_snapshot(snapshot);
    assert_eq!(restored.queue_pending_tokens, 0);
    assert_eq!(restored.queue_wait_total_ms, 0);
    assert_eq!(restored.queue_wait_count, 0);
}

#[test]
fn render_groups_per_hash_families_contiguously() {
    // All samples of a metric family are contiguous, with more than one hash present.
    let mut metrics = Metrics::new();
    for (hash, name) in [("hash-a", "model-a:default"), ("hash-b", "model-b:fast")] {
        let hm = metrics.get_hash_metrics(hash);
        hm.add_display_name(name);
        hm.count_requests(5);
        hm.observe_latency(12);
        hm.observe_memory(1000, 2000);
    }

    let out = render_prometheus_with_circuit_breaker(&metrics, None, "test", &process());

    // Two hashes are present, so each per-hash family must have two samples.
    for family in [
        "proxy_hash_requests_total",
        "proxy_hash_errors_total",
        "proxy_hash_tokens_generated_total",
        "proxy_hash_total_latency_ms",
        "proxy_hash_p95_latency_ms",
        "proxy_hash_peak_vram_mb",
        "proxy_hash_peak_sysmem_mb",
    ] {
        let sample_lines: Vec<usize> = out
            .lines()
            .enumerate()
            .filter(|(_, l)| l.starts_with(&format!("{family}{{")))
            .map(|(i, _)| i)
            .collect();
        assert_eq!(
            sample_lines.len(),
            2,
            "expected 2 samples for {family}, got {}",
            sample_lines.len()
        );
        // Contiguous: the two sample lines must be adjacent.
        assert_eq!(
            sample_lines[1] - sample_lines[0],
            1,
            "samples for {family} are not contiguous (interleaved family)"
        );
        // HELP/TYPE precede the family's samples exactly once.
        assert_eq!(
            out.matches(&format!("# TYPE {family} ")).count(),
            1,
            "expected exactly one TYPE line for {family}"
        );
    }
}

#[test]
fn render_includes_queue_length_and_drops() {
    let mut metrics = Metrics::new();
    metrics.set_queue_length(3);
    metrics.record_queue_drop(QueueDropReason::Timeout);

    let out = render_prometheus_with_circuit_breaker(&metrics, None, "test", &process());
    assert!(out.contains("proxy_queue_length 3\n"));
    assert!(out.contains("proxy_queue_drops_total{reason=\"full\"} 0\n"));
    assert!(out.contains("proxy_queue_drops_total{reason=\"timeout\"} 1\n"));
    assert!(out.contains("proxy_queue_drops_total{reason=\"global_limit\"} 0\n"));
}

#[test]
fn test_snapshot_includes_proxy_version() {
    let metrics = Metrics::new();
    let snapshot = metrics.snapshot(
        "node-a".to_string(),
        "llama-cpp-1234".to_string(),
        None,
        &process(),
    );

    // The proxy version is distinct from the llama.cpp binary version.
    assert_eq!(snapshot.version, VERSION);
    assert_eq!(snapshot.llama_cpp_version, "llama-cpp-1234");
}

#[test]
fn test_parsed_params_survive_snapshot_round_trip() {
    let mut metrics = Metrics::new();
    let params = ParsedModelParams {
        n_ctx: Some(4096),
        n_ctx_train: Some(131072),
        n_slots: Some(4),
        arch: Some("llama".to_string()),
        ..Default::default()
    };
    metrics
        .get_hash_metrics("hash-a")
        .set_parsed_params(params, Some("b1234-abcdef".to_string()));

    let snapshot = metrics.snapshot("node-a".to_string(), "llama".to_string(), None, &process());
    let mut restored = Metrics::from_snapshot(snapshot);

    let hm = restored.get_hash_metrics("hash-a");
    let params = hm
        .get_parsed_params(Some("b1234-abcdef"))
        .expect("parsed params should survive the snapshot round trip");
    assert_eq!(params.n_ctx, Some(4096));
    assert_eq!(params.n_ctx_train, Some(131072));
    assert_eq!(params.n_slots, Some(4));
    assert_eq!(params.arch.as_deref(), Some("llama"));
}

#[test]
fn test_parsed_params_withheld_across_llama_cpp_upgrade() {
    let mut hm = HashMetrics::default();
    let params = ParsedModelParams {
        n_ctx: Some(4096),
        ..Default::default()
    };
    hm.set_parsed_params(params, Some("b1000-old".to_string()));

    // Same binary: served.
    assert!(hm.get_parsed_params(Some("b1000-old")).is_some());
    // Different binary (same args hash): withheld.
    assert!(hm.get_parsed_params(Some("b2000-new")).is_none());
    // Current version unknown: nothing to compare against, so served.
    assert!(hm.get_parsed_params(None).is_some());
}

#[test]
fn test_parsed_params_without_recorded_version_always_served() {
    let mut hm = HashMetrics::default();
    let params = ParsedModelParams {
        n_ctx: Some(2048),
        ..Default::default()
    };
    hm.set_parsed_params(params, None);

    assert!(hm.get_parsed_params(Some("b2000-new")).is_some());
    assert!(hm.get_parsed_params(None).is_some());
}

#[test]
fn test_has_memory_data() {
    let mut metrics = Metrics::new();
    let args_hash = "test_hash";

    // Initially no data
    assert!(!metrics.has_memory_data(args_hash));

    // After observing memory
    let hm = metrics.get_hash_metrics(args_hash);
    hm.observe_memory(1000, 2000);

    assert!(metrics.has_memory_data(args_hash));
}

#[test]
fn test_latency_samples_capacity() {
    let mut hm = HashMetrics::default();
    // Add more than 100 samples to verify capacity management
    for i in 0..150 {
        hm.observe_latency(i as u64);
    }
    let samples = &hm.latency_samples;
    assert!(samples.len() <= 100);
    // Should contain recent samples (50-149), not first ones
    assert_eq!(*samples.front().unwrap(), 50);
    assert_eq!(*samples.back().unwrap(), 149);
}

#[test]
fn test_observe_memory_peak_tracking() {
    let mut hm = HashMetrics::default();

    hm.observe_memory(100, 200);
    assert_eq!(hm.peak_vram_mb, 100);
    assert_eq!(hm.peak_sysmem_mb, 200);

    // Lower values shouldn't reduce peak
    hm.observe_memory(50, 100);
    assert_eq!(hm.peak_vram_mb, 100);
    assert_eq!(hm.peak_sysmem_mb, 200);

    // Higher values should increase peak
    hm.observe_memory(200, 300);
    assert_eq!(hm.peak_vram_mb, 200);
    assert_eq!(hm.peak_sysmem_mb, 300);
}

#[test]
fn test_display_names_deduplication() {
    let mut hm = HashMetrics::default();
    hm.add_display_name("model:fast");
    hm.add_display_name("model:fast"); // Duplicate
    hm.add_display_name("model:slow");

    let names = &hm.display_names;
    assert_eq!(names.len(), 2);
}

#[test]
fn test_escape_label_value_empty() {
    assert_eq!(escape_label_value(""), "");
}

#[test]
fn test_escape_label_value_special_chars() {
    // Multiple special chars
    assert_eq!(escape_label_value("a\"b\\c\nd"), "a\\\"b\\\\c\\nd");
}

#[test]
fn test_metrics_current_requests_underflow() {
    let mut metrics = Metrics::new();
    let before = metrics.current_requests;
    metrics.dec_current_requests();
    let after = metrics.current_requests;
    // Just verify it doesn't panic; actual behavior may vary
    assert!(after != before || before == 0);
}

#[test]
fn the_percentile_index_matches_the_floating_point_one() {
    for n in 1..=MAX_LATENCY_SAMPLES {
        let mut hm = HashMetrics::default();
        for i in (0..n).rev() {
            hm.observe_latency(1_000 + i as u64);
        }
        let index = ((n as f64 - 1.0) * 0.95).floor() as u64;
        assert_eq!(hm.p95_latency_ms(), 1_000 + index, "{n} samples");
    }
    assert_eq!(HashMetrics::default().p95_latency_ms(), 0);
}

#[test]
fn memory_is_learned_once_it_was_observed() {
    let mut metrics = Metrics::new();
    assert_eq!(metrics.get_learned_memory("h"), None);
    metrics.get_hash_metrics("h");
    assert_eq!(metrics.get_learned_memory("h"), None);
    metrics
        .get_hash_metrics("h")
        .observe_memory_at(10, 20, "noon".to_string());
    assert_eq!(metrics.get_learned_memory("h"), Some((10, 20)));
    assert_eq!(metrics.get_hash_metrics("h").last_memory_update, "noon");
}

#[test]
fn totals_outlive_a_restart() {
    let mut metrics = Metrics::new();
    metrics.inc_requests();
    metrics.inc_errors();
    let hm = metrics.get_hash_metrics("h");
    hm.count_requests(2);
    hm.count_tokens(7);
    hm.observe_latency(30);
    hm.observe_memory_at(5, 6, "t".to_string());
    hm.add_display_name("m:p");
    let snapshot = metrics.snapshot_at(
        "n".into(),
        "v".into(),
        None,
        &process(),
        "2026-01-01T00:00:00+00:00".into(),
    );
    assert_eq!(snapshot.updated_at, "2026-01-01T00:00:00+00:00");
    assert_eq!(snapshot.current_requests, 1);
    let mut restored = Metrics::from_snapshot(snapshot);
    assert_eq!(restored.requests_total, 1);
    assert_eq!(restored.errors_total, 1);
    assert_eq!(restored.current_requests, 0);
    let hm = restored.get_hash_metrics("h");
    assert_eq!(hm.requests_total, 2);
    assert_eq!(hm.tokens_generated_total, 7);
    assert_eq!(hm.total_latency_ms, 30);
    assert_eq!((hm.peak_vram_mb, hm.peak_sysmem_mb), (5, 6));
    assert_eq!(hm.display_names, vec!["m:p"]);
    assert_eq!(hm.latency_samples.len(), 0);
}

#[test]
fn the_snapshot_carries_the_build_and_the_process() {
    let metrics = Metrics::new();
    let status = BuildStatus {
        is_building: true,
        last_build_error: Some("e".to_string()),
        last_build_at: Some("t".to_string()),
    };
    let info = ProcessInfo {
        version: "9".to_string(),
        token_counting_disabled_total: 3,
        skipped_stream_cleanups_total: 4,
    };
    let snapshot = metrics.snapshot("n".into(), "v".into(), Some(status), &info);
    assert!(snapshot.is_building);
    assert_eq!(snapshot.last_build_error.as_deref(), Some("e"));
    assert_eq!(snapshot.last_build_at.as_deref(), Some("t"));
    assert_eq!(snapshot.token_counting_disabled_total, 3);
    assert_eq!(snapshot.skipped_stream_cleanups_total, 4);
    assert!(snapshot.updated_at.contains('T'));
    assert!(!metrics
        .snapshot("n".into(), "v".into(), None, &process())
        .is_building);
}

#[test]
fn an_increment_and_a_decrement_cancel_out() {
    let mut metrics = Metrics::new();
    metrics.inc_pending_tokens();
    metrics.dec_pending_tokens();
    assert_eq!(metrics.queue_pending_tokens, 0);
    metrics.inc_requests();
    metrics.dec_current_requests();
    assert_eq!(metrics.current_requests, 0);
    assert_eq!(metrics.requests_total, 1);
}

#[test]
fn circuit_states_are_rendered_per_peer() {
    let mut breaker = CircuitBreaker::new(CircuitBreakerConfig {
        failure_threshold: 1,
        open_duration_base_ms: 1,
        ..Default::default()
    });
    breaker.should_allow_at("a\"", 0);
    breaker.record_failure_at("b", 0);
    breaker.record_failure_at("c", 0);
    breaker.should_allow_at("c", 10_000_000);
    let metrics = Metrics::new();
    let out = render_prometheus_with_circuit_breaker(&metrics, Some(&breaker), "v", &process());
    let lines: Vec<&str> = out.lines().collect();
    let header = lines
        .iter()
        .position(|l| l.starts_with("# TYPE ") && l.contains("circuit_breaker_state"))
        .expect("circuit family");
    assert!(lines[header + 1].contains("peer=\"a\\\"\"") && lines[header + 1].ends_with("} 0"));
    assert!(lines[header + 2].contains("peer=\"b\"") && lines[header + 2].ends_with("} 1"));
    assert!(lines[header + 3].contains("peer=\"c\"") && lines[header + 3].ends_with("} 2"));
    let without = render_prometheus_with_circuit_breaker(&metrics, None, "v", &process());
    assert!(!without.contains("circuit_breaker"));
}

#[test]
fn an_empty_store_renders_every_scalar_family() {
    let out = render_prometheus_with_circuit_breaker(&Metrics::new(), None, "v", &process());
    let mut families = 0;
    for line in out.lines() {
        if let Some(rest) = line.strip_prefix("# TYPE ") {
            families += 1;
            let name = rest.split(' ').next().unwrap();
            assert_eq!(out.matches(&format!("# HELP {name} ")).count(), 1, "{name}");
        }
    }
    assert!(families >= 20, "{families}");
    assert!(out.ends_with('\n'));
}

#[test]
fn latency_without_requests_is_not_restored() {
    let snapshot = |requests_total: u64| HashMetricsSnapshot {
        display_names: vec!["m:p".to_string(), "m:p".to_string()],
        requests_total,
        errors_total: 1,
        tokens_generated_total: 2,
        total_latency_ms: 500,
        p95_latency_ms: 7,
        peak_vram_mb: 3,
        peak_sysmem_mb: 4,
        sample_count: 5,
        parsed_model_params: None,
    };
    assert_eq!(HashMetrics::from_snapshot(snapshot(0)).total_latency_ms, 0);
    let restored = HashMetrics::from_snapshot(snapshot(2));
    assert_eq!(restored.total_latency_ms, 500);
    assert_eq!(restored.requests_total, 2);
    assert_eq!(restored.display_names, vec!["m:p"]);
    assert!(restored.latency_samples.is_empty());
}
