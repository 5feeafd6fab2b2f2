use llamesh::config::{
    default_idle_timeout_seconds, ClusterConfig, ClusterTlsConfig, HttpConfig, LlamaCppConfig,
    LlamaCppPorts, ModelDefaults, NodeConfig, PortRange, ServerTlsConfig, WedgeDetectorConfig,
};
use llamesh::cookbook::{parse_llama_server_args, Cookbook, Model, Profile};

fn text(v: &serde_yaml::Value, key: &str) -> Option<String> {
    v.get(key).and_then(|x| x.as_str()).map(|s| s.to_string())
}

fn number(v: &serde_yaml::Value, key: &str) -> Option<u64> {
    v.get(key).and_then(|x| x.as_u64())
}

fn flag(v: &serde_yaml::Value, key: &str) -> bool {
    v.get(key)
        .and_then(|x| x.as_bool())
        .unwrap_or(llamesh::config::default_enabled())
}

fn profile_from(v: &serde_yaml::Value) -> Result<Profile, String> {
    let line = text(v, "llama_server_args").ok_or("llama_server_args is missing")?;
    Ok(Profile {
        id: text(v, "id").ok_or("id is missing")?,
        description: text(v, "description"),
        enabled: flag(v, "enabled"),
        model_path: text(v, "model_path"),
        hf_repo: text(v, "hf_repo"),
        hf_file: text(v, "hf_file"),
        idle_timeout_seconds: number(v, "idle_timeout_seconds")
            .unwrap_or(default_idle_timeout_seconds()),
        max_instances: number(v, "max_instances").map(|n| n as usize),
        llama_server_args: parse_llama_server_args(&line).map_err(|e| e.message())?,
        estimated_vram_mb: number(v, "estimated_vram_mb"),
        estimated_sysmem_mb: number(v, "estimated_sysmem_mb"),
        max_wait_in_queue_ms: number(v, "max_wait_in_queue_ms"),
        max_request_duration_ms: number(v, "max_request_duration_ms"),
        startup_timeout_seconds: number(v, "startup_timeout_seconds"),
        download_timeout_seconds: number(v, "download_timeout_seconds"),
        max_queue_size: number(v, "max_queue_size").map(|n| n as usize),
        min_eviction_tenure_secs: number(v, "min_eviction_tenure_secs"),
    })
}

fn parse_cookbook(yaml: &str) -> Result<Cookbook, String> {
    let root: serde_yaml::Value = serde_yaml::from_str(yaml).map_err(|e| e.to_string())?;
    let mut models = Vec::new();
    for m in root.get("models").and_then(|x| x.as_sequence()).unwrap() {
        let mut profiles = Vec::new();
        for p in m.get("profiles").and_then(|x| x.as_sequence()).unwrap() {
            profiles.push(profile_from(p)?);
        }
        models.push(Model {
            name: text(m, "name").ok_or("name is missing")?,
            description: text(m, "description"),
            enabled: flag(m, "enabled"),
            profiles,
        });
    }
    Ok(Cookbook { models })
}

fn defaults() -> ModelDefaults {
    ModelDefaults {
        max_concurrent_requests_per_instance: 4,
        max_queue_size_per_model: 32,
        max_instances_per_model: 5,
        max_wait_in_queue_ms: 60_000,
        max_request_duration_ms: 300_000,
        min_eviction_tenure_secs: 15,
    }
}

fn profile_with_args(args: &[&str]) -> Profile {
    Profile {
        id: "p".into(),
        description: None,
        enabled: true,
        model_path: Some("/tmp/model.gguf".into()),
        hf_repo: None,
        hf_file: None,
        idle_timeout_seconds: 10,
        max_instances: None,
        llama_server_args: args.iter().map(|s| s.to_string()).collect(),
        estimated_vram_mb: None,
        estimated_sysmem_mb: None,
        max_wait_in_queue_ms: None,
        max_request_duration_ms: None,
        startup_timeout_seconds: None,
        download_timeout_seconds: None,
        max_queue_size: None,
        min_eviction_tenure_secs: None,
    }
}

#[test]
fn effective_max_instances_falls_back_to_defaults() {
    let profile = profile_with_args(&[]);
    assert_eq!(profile.effective_max_instances(&defaults()), 5);
}

#[test]
fn effective_max_instances_prefers_profile_value() {
    let mut profile = profile_with_args(&[]);
    profile.max_instances = Some(2);
    assert_eq!(profile.effective_max_instances(&defaults()), 2);
}

#[test]
fn effective_max_instances_supports_zero() {
    let mut profile = profile_with_args(&[]);
    profile.max_instances = Some(0);
    assert_eq!(profile.effective_max_instances(&defaults()), 0);
}

#[test]
fn effective_max_queue_size_falls_back_to_defaults() {
    let profile = profile_with_args(&[]);
    assert_eq!(profile.effective_max_queue_size(&defaults()), 32);
}

#[test]
fn effective_max_queue_size_prefers_profile_value() {
    let mut profile = profile_with_args(&[]);
    profile.max_queue_size = Some(100);
    assert_eq!(profile.effective_max_queue_size(&defaults()), 100);
}

#[test]
fn effective_max_queue_size_supports_zero() {
    let mut profile = profile_with_args(&[]);
    profile.max_queue_size = Some(0);
    assert_eq!(profile.effective_max_queue_size(&defaults()), 0);
}

#[test]
fn detects_embedding_support() {
    let profile = profile_with_args(&["--embedding"]);
    assert!(profile.supports_embeddings());
    assert!(!profile.supports_text_mode());
}

#[test]
fn detects_rerank_support() {
    let profile = profile_with_args(&["--reranking"]);
    assert!(profile.supports_rerank());
    assert!(!profile.supports_text_mode());
}

#[test]
fn generic_profiles_support_text_mode() {
    let profile = profile_with_args(&["-c", "4096"]);
    assert!(profile.supports_text_mode());
    assert!(!profile.supports_embeddings());
    assert!(!profile.supports_rerank());
}

#[test]
fn effective_startup_timeout_defaults_to_60_for_local_models() {
    let profile = profile_with_args(&["-c", "4096"]);
    assert_eq!(profile.effective_startup_timeout_seconds(), 60);
}

#[test]
fn effective_startup_timeout_uses_custom_startup_timeout() {
    let mut profile = profile_with_args(&["-c", "4096"]);
    profile.startup_timeout_seconds = Some(120);
    assert_eq!(profile.effective_startup_timeout_seconds(), 120);
}

#[test]
fn effective_startup_timeout_defaults_to_3600_for_hf_models() {
    let mut profile = profile_with_args(&["-c", "4096"]);
    profile.model_path = None;
    profile.hf_repo = Some("org/model-GGUF".into());
    assert_eq!(profile.effective_startup_timeout_seconds(), 3600);
}

#[test]
fn effective_startup_timeout_uses_custom_download_timeout() {
    let mut profile = profile_with_args(&["-c", "4096"]);
    profile.model_path = None;
    profile.hf_repo = Some("org/model-GGUF".into());
    profile.download_timeout_seconds = Some(7200);
    assert_eq!(profile.effective_startup_timeout_seconds(), 7200);
}

#[test]
fn effective_startup_timeout_detects_hf_in_args() {
    let profile = profile_with_args(&["--hf-repo", "org/model-GGUF"]);
    assert_eq!(profile.effective_startup_timeout_seconds(), 3600);
}

#[test]
fn validate_cluster_tls_requires_server_tls() {
    let mut config = NodeConfig {
        node_id: "test".into(),
        listen_addr: "0.0.0.0:8080".into(),
        public_url: None,
        max_vram_mb: 0,
        max_sysmem_mb: 0,
        max_instances_per_node: 1,
        metrics_path: ".".into(),
        default_model: "m".into(),
        model_defaults: defaults(),
        llama_cpp_ports: None,
        llama_cpp: LlamaCppConfig {
            repo_url: "".into(),
            repo_path: "".into(),
            build_path: "".into(),
            binary_path: "".into(),
            branch: "".into(),
            build_args: vec![],
            build_command_args: vec![],
            auto_update_interval_seconds: 0,
            enabled: false,
            keep_builds: 3,
        },
        cluster: ClusterConfig {
            enabled: false,
            peers: vec![],
            gossip_interval_seconds: 1,
            max_concurrent_gossip: 16,
            discovery: Default::default(),
            noise: Default::default(),
            circuit_breaker: Default::default(),
            version_mismatch_action: "warn".to_string(),
        },
        http: HttpConfig {
            request_body_limit_bytes: 1_048_576,
            idle_timeout_seconds: 120,
            body_read_timeout_ms: 30_000,
            protocol_detect_timeout_ms: 10_000,
        },
        auth: None,
        server_tls: Some(ServerTlsConfig {
            enabled: false,
            cert_path: "".into(),
            key_path: "".into(),
        }),
        cluster_tls: Some(ClusterTlsConfig {
            enabled: true,
            ca_cert_path: "".into(),
            client_cert_path: "".into(),
            client_key_path: "".into(),
        }),
        shutdown_grace_period_seconds: 30,
        max_hops: 10,
        logging: None,
        max_total_queue_entries: 0,
        upstream_read_timeout_ms: 600_000,
        wedge_detector: WedgeDetectorConfig::default(),
    };

    assert!(config.validate().is_err());

    if let Some(ref mut server_tls) = config.server_tls {
        server_tls.enabled = true;
    }
    assert!(config.validate().is_ok());
}

fn config_with_ports(ports: Option<LlamaCppPorts>) -> NodeConfig {
    NodeConfig {
        node_id: "test".into(),
        listen_addr: "0.0.0.0:8080".into(),
        public_url: None,
        max_vram_mb: 0,
        max_sysmem_mb: 0,
        max_instances_per_node: 1,
        metrics_path: ".".into(),
        default_model: "m".into(),
        model_defaults: defaults(),
        llama_cpp_ports: ports,
        llama_cpp: LlamaCppConfig {
            repo_url: "".into(),
            repo_path: "".into(),
            build_path: "".into(),
            binary_path: "".into(),
            branch: "".into(),
            build_args: vec![],
            build_command_args: vec![],
            auto_update_interval_seconds: 0,
            enabled: false,
            keep_builds: 3,
        },
        cluster: ClusterConfig {
            enabled: false,
            peers: vec![],
            gossip_interval_seconds: 1,
            max_concurrent_gossip: 16,
            discovery: Default::default(),
            noise: Default::default(),
            circuit_breaker: Default::default(),
            version_mismatch_action: "warn".to_string(),
        },
        http: HttpConfig {
            request_body_limit_bytes: 1_048_576,
            idle_timeout_seconds: 120,
            body_read_timeout_ms: 30_000,
            protocol_detect_timeout_ms: 10_000,
        },
        auth: None,
        server_tls: None,
        cluster_tls: None,
        shutdown_grace_period_seconds: 30,
        max_hops: 10,
        logging: None,
        max_total_queue_entries: 0,
        upstream_read_timeout_ms: 600_000,
        wedge_detector: WedgeDetectorConfig::default(),
    }
}

#[test]
fn validate_accepts_absent_port_config() {
    assert!(config_with_ports(None).validate().is_ok());
}

#[test]
fn validate_accepts_empty_ports_with_valid_range() {
    let ports = LlamaCppPorts {
        ports: Some(vec![]),
        ranges: Some(vec![PortRange {
            start: 8200,
            end: 8299,
        }]),
    };
    assert!(config_with_ports(Some(ports)).validate().is_ok());
}

#[test]
fn validate_accepts_explicit_ports_only() {
    let ports = LlamaCppPorts {
        ports: Some(vec![8200, 8201]),
        ranges: None,
    };
    assert!(config_with_ports(Some(ports)).validate().is_ok());
}

#[test]
fn validate_rejects_inverted_port_range() {
    let ports = LlamaCppPorts {
        ports: None,
        ranges: Some(vec![PortRange {
            start: 8299,
            end: 8200,
        }]),
    };
    assert!(config_with_ports(Some(ports)).validate().is_err());
}

#[test]
fn validate_rejects_inverted_range_even_with_other_ports() {
    let ports = LlamaCppPorts {
        ports: Some(vec![8200]),
        ranges: Some(vec![PortRange {
            start: 8299,
            end: 8250,
        }]),
    };
    assert!(config_with_ports(Some(ports)).validate().is_err());
}

#[test]
fn validate_rejects_port_config_with_no_usable_ports() {
    let empty = LlamaCppPorts {
        ports: Some(vec![]),
        ranges: Some(vec![]),
    };
    assert!(config_with_ports(Some(empty)).validate().is_err());
    let none_none = LlamaCppPorts {
        ports: None,
        ranges: None,
    };
    assert!(config_with_ports(Some(none_none)).validate().is_err());
}

fn config_with_cluster(
    enabled: bool,
    gossip_interval_seconds: u64,
    max_concurrent_gossip: usize,
) -> NodeConfig {
    let mut config = config_with_ports(None);
    config.cluster.enabled = enabled;
    config.cluster.gossip_interval_seconds = gossip_interval_seconds;
    config.cluster.max_concurrent_gossip = max_concurrent_gossip;
    config
}

#[test]
fn validate_accepts_valid_gossip_settings_when_cluster_enabled() {
    assert!(config_with_cluster(true, 5, 16).validate().is_ok());
    assert!(config_with_cluster(true, 1, 1).validate().is_ok());
}

#[test]
fn validate_rejects_zero_gossip_interval_when_cluster_enabled() {
    assert!(config_with_cluster(true, 0, 16).validate().is_err());
}

#[test]
fn validate_rejects_zero_max_concurrent_gossip_when_cluster_enabled() {
    assert!(config_with_cluster(true, 5, 0).validate().is_err());
}

#[test]
fn validate_ignores_zero_gossip_settings_when_cluster_disabled() {
    assert!(config_with_cluster(false, 0, 0).validate().is_ok());
}

#[test]
fn validate_accepts_valid_circuit_breaker_when_cluster_enabled() {
    assert!(config_with_cluster(true, 5, 16).validate().is_ok());
    let mut config = config_with_cluster(true, 5, 16);
    config.cluster.circuit_breaker.failure_threshold = 1;
    config.cluster.circuit_breaker.success_threshold = 1;
    config.cluster.circuit_breaker.open_duration_base_ms = 1;
    config.cluster.circuit_breaker.open_duration_max_ms = 1;
    config.cluster.circuit_breaker.half_open_probe_interval_ms = 0;
    assert!(config.validate().is_ok());
}

#[test]
fn validate_rejects_zero_circuit_breaker_thresholds() {
    let mut config = config_with_cluster(true, 5, 16);
    config.cluster.circuit_breaker.failure_threshold = 0;
    assert!(config.validate().is_err());

    let mut config = config_with_cluster(true, 5, 16);
    config.cluster.circuit_breaker.success_threshold = 0;
    assert!(config.validate().is_err());
}

#[test]
fn validate_rejects_zero_circuit_breaker_backoff_durations() {
    let mut config = config_with_cluster(true, 5, 16);
    config.cluster.circuit_breaker.open_duration_base_ms = 0;
    assert!(config.validate().is_err());

    let mut config = config_with_cluster(true, 5, 16);
    config.cluster.circuit_breaker.open_duration_max_ms = 0;
    assert!(config.validate().is_err());
}

#[test]
fn validate_rejects_circuit_breaker_base_backoff_above_max() {
    let mut config = config_with_cluster(true, 5, 16);
    config.cluster.circuit_breaker.open_duration_base_ms = 2000;
    config.cluster.circuit_breaker.open_duration_max_ms = 1000;
    assert!(config.validate().is_err());
}

#[test]
fn validate_ignores_circuit_breaker_tuning_when_breaker_disabled() {
    let mut config = config_with_cluster(true, 5, 16);
    config.cluster.circuit_breaker.enabled = false;
    config.cluster.circuit_breaker.failure_threshold = 0;
    config.cluster.circuit_breaker.open_duration_base_ms = 0;
    assert!(config.validate().is_ok());
}

#[test]
fn validate_ignores_circuit_breaker_tuning_when_cluster_disabled() {
    let mut config = config_with_cluster(false, 5, 16);
    config.cluster.circuit_breaker.failure_threshold = 0;
    config.cluster.circuit_breaker.open_duration_base_ms = 0;
    assert!(config.validate().is_ok());
}

#[test]
fn validate_accepts_valid_wedge_detector_when_enabled() {
    let mut config = config_with_ports(None);
    config.wedge_detector.enabled = true;
    config.wedge_detector.window_ms = 600_000;
    config.wedge_detector.sample_interval_ms = 5_000;
    assert!(config.validate().is_ok());
    config.wedge_detector.sample_interval_ms = 600_000;
    assert!(config.validate().is_ok());
}

#[test]
fn validate_rejects_zero_wedge_window_ms_when_enabled() {
    let mut config = config_with_ports(None);
    config.wedge_detector.enabled = true;
    config.wedge_detector.window_ms = 0;
    assert!(config.validate().is_err());
}

#[test]
fn validate_rejects_zero_wedge_sample_interval_when_enabled() {
    let mut config = config_with_ports(None);
    config.wedge_detector.enabled = true;
    config.wedge_detector.sample_interval_ms = 0;
    assert!(config.validate().is_err());
}

#[test]
fn validate_rejects_wedge_sample_interval_above_window() {
    let mut config = config_with_ports(None);
    config.wedge_detector.enabled = true;
    config.wedge_detector.window_ms = 5_000;
    config.wedge_detector.sample_interval_ms = 10_000;
    assert!(config.validate().is_err());
}

#[test]
fn validate_ignores_wedge_detector_tuning_when_disabled() {
    let mut config = config_with_ports(None);
    config.wedge_detector.enabled = false;
    config.wedge_detector.window_ms = 0;
    config.wedge_detector.sample_interval_ms = 0;
    assert!(config.validate().is_ok());
}

#[test]
fn validate_rejects_zero_max_instances_per_node_in_standalone_mode() {
    let mut config = config_with_cluster(false, 5, 16);
    config.max_instances_per_node = 0;
    assert!(config.validate().is_err());
}

#[test]
fn validate_rejects_zero_max_instances_per_node_in_cluster_mode() {
    let mut config = config_with_cluster(true, 5, 16);
    config.max_instances_per_node = 0;
    assert!(config.validate().is_err());
}

#[test]
fn validate_accepts_positive_max_instances_per_node_in_standalone_mode() {
    let mut config = config_with_cluster(false, 5, 16);
    config.max_instances_per_node = 1;
    assert!(config.validate().is_ok());
}

#[test]
fn validate_accepts_positive_max_instances_per_node_in_cluster_mode() {
    let mut config = config_with_cluster(true, 5, 16);
    config.max_instances_per_node = 1;
    assert!(config.validate().is_ok());
}

#[test]
fn validate_accepts_positive_http_settings() {
    assert!(config_with_ports(None).validate().is_ok());
}

#[test]
fn validate_rejects_zero_request_body_limit() {
    let mut config = config_with_ports(None);
    config.http.request_body_limit_bytes = 0;
    assert!(config.validate().is_err());
}

#[test]
fn validate_rejects_zero_idle_timeout() {
    let mut config = config_with_ports(None);
    config.http.idle_timeout_seconds = 0;
    assert!(config.validate().is_err());
}

#[test]
fn validate_rejects_zero_body_read_timeout() {
    let mut config = config_with_ports(None);
    config.http.body_read_timeout_ms = 0;
    assert!(config.validate().is_err());
}

#[test]
fn validate_rejects_zero_protocol_detect_timeout() {
    let mut config = config_with_ports(None);
    config.http.protocol_detect_timeout_ms = 0;
    assert!(config.validate().is_err());
}

#[test]
fn validate_profile_missing_model_source() {
    let profile = Profile {
        id: "test".into(),
        description: None,
        enabled: true,
        model_path: None,
        hf_repo: None,
        hf_file: None,
        idle_timeout_seconds: 10,
        max_instances: None,
        llama_server_args: vec!["-c".into(), "4096".into()],
        estimated_vram_mb: None,
        estimated_sysmem_mb: None,
        max_wait_in_queue_ms: None,
        max_request_duration_ms: None,
        startup_timeout_seconds: None,
        download_timeout_seconds: None,
        max_queue_size: None,
        min_eviction_tenure_secs: None,
    };
    assert!(profile.validate("test_model").is_err());
}

#[test]
fn validate_profile_both_model_sources() {
    let profile = Profile {
        id: "test".into(),
        description: None,
        enabled: true,
        model_path: Some("/path/to/model.gguf".into()),
        hf_repo: Some("org/model-GGUF".into()),
        hf_file: None,
        idle_timeout_seconds: 10,
        max_instances: None,
        llama_server_args: vec![],
        estimated_vram_mb: None,
        estimated_sysmem_mb: None,
        max_wait_in_queue_ms: None,
        max_request_duration_ms: None,
        startup_timeout_seconds: None,
        download_timeout_seconds: None,
        max_queue_size: None,
        min_eviction_tenure_secs: None,
    };
    assert!(profile.validate("test_model").is_err());
}

#[test]
fn validate_profile_model_in_args() {
    let profile = Profile {
        id: "test".into(),
        description: None,
        enabled: true,
        model_path: None,
        hf_repo: None,
        hf_file: None,
        idle_timeout_seconds: 10,
        max_instances: None,
        llama_server_args: vec!["-m".into(), "/path/to/model.gguf".into()],
        estimated_vram_mb: None,
        estimated_sysmem_mb: None,
        max_wait_in_queue_ms: None,
        max_request_duration_ms: None,
        startup_timeout_seconds: None,
        download_timeout_seconds: None,
        max_queue_size: None,
        min_eviction_tenure_secs: None,
    };
    assert!(profile.validate("test_model").is_ok());
}

#[test]
fn validate_profile_hf_in_args() {
    let profile = Profile {
        id: "test".into(),
        description: None,
        enabled: true,
        model_path: None,
        hf_repo: None,
        hf_file: None,
        idle_timeout_seconds: 10,
        max_instances: None,
        llama_server_args: vec!["--hf-repo".into(), "org/model-GGUF".into()],
        estimated_vram_mb: None,
        estimated_sysmem_mb: None,
        max_wait_in_queue_ms: None,
        max_request_duration_ms: None,
        startup_timeout_seconds: None,
        download_timeout_seconds: None,
        max_queue_size: None,
        min_eviction_tenure_secs: None,
    };
    assert!(profile.validate("test_model").is_ok());
}

#[test]
fn validate_rejects_duplicate_profile_id() {
    let yaml = r#"
models:
  - name: foo
    profiles:
      - id: fast
        model_path: /tmp/m.gguf
        llama_server_args: ""
      - id: fast
        model_path: /tmp/m.gguf
        llama_server_args: ""
"#;
    let cb = parse_cookbook(yaml).unwrap();
    assert!(cb.validate().is_err());
}

#[test]
fn validate_rejects_case_insensitive_duplicate() {
    let yaml = r#"
models:
  - name: Foo
    profiles:
      - id: Default
        model_path: /tmp/m.gguf
        llama_server_args: ""
  - name: foo
    profiles:
      - id: default
        model_path: /tmp/m.gguf
        llama_server_args: ""
"#;
    let cb = parse_cookbook(yaml).unwrap();
    assert!(cb.validate().is_err());
}

#[test]
fn validate_allows_disabled_duplicate() {
    let yaml = r#"
models:
  - name: foo
    profiles:
      - id: fast
        model_path: /tmp/m.gguf
        llama_server_args: ""
      - id: fast
        enabled: false
        model_path: /tmp/m.gguf
        llama_server_args: ""
"#;
    let cb = parse_cookbook(yaml).unwrap();
    assert!(cb.validate().is_ok());
}

#[test]
fn validate_accepts_unique_identifiers() {
    let yaml = r#"
models:
  - name: foo
    profiles:
      - id: fast
        model_path: /tmp/m.gguf
        llama_server_args: ""
      - id: quality
        model_path: /tmp/m.gguf
        llama_server_args: ""
  - name: bar
    profiles:
      - id: fast
        model_path: /tmp/m.gguf
        llama_server_args: ""
"#;
    let cb = parse_cookbook(yaml).unwrap();
    assert!(cb.validate().is_ok());
}

#[test]
fn supports_embedding_variant_flags() {
    let p1 = profile_with_args(&["--embedding"]);
    let p2 = profile_with_args(&["--embeddings"]);
    assert!(p1.supports_embeddings());
    assert!(p2.supports_embeddings());
}

#[test]
fn supports_rerank_variant_flags() {
    let p1 = profile_with_args(&["--rerank"]);
    let p2 = profile_with_args(&["--reranking"]);
    assert!(p1.supports_rerank());
    assert!(p2.supports_rerank());
}

#[test]
fn test_has_flag() {
    let p = profile_with_args(&["-c", "4096", "--model", "/path/model.gguf"]);
    assert!(p.has_flag(&["-m", "--model"]));
    assert!(p.has_flag(&["-c", "--context-size"]));
    assert!(!p.has_flag(&["--embedding"]));
}


#[test]
fn parses_simple_args() {
    let yaml = r#"
models:
  - name: test
    profiles:
      - id: default
        model_path: /tmp/model.gguf
        idle_timeout_seconds: 10
        llama_server_args: "-fa on --no-kv-offload"
"#;
    let cookbook = parse_cookbook(yaml).unwrap();
    let args = &cookbook.models[0].profiles[0].llama_server_args;
    assert_eq!(args, &["-fa", "on", "--no-kv-offload"]);
}

#[test]
fn parses_empty_string() {
    let yaml = r#"
models:
  - name: test
    profiles:
      - id: default
        model_path: /tmp/model.gguf
        idle_timeout_seconds: 10
        llama_server_args: ""
"#;
    let cookbook = parse_cookbook(yaml).unwrap();
    let args = &cookbook.models[0].profiles[0].llama_server_args;
    assert!(args.is_empty());
}

#[test]
fn parses_quoted_args_single() {
    let yaml = r#"
models:
  - name: test
    profiles:
      - id: default
        model_path: /tmp/model.gguf
        idle_timeout_seconds: 10
        llama_server_args: "--api-key 'my secret key'"
"#;
    let cookbook = parse_cookbook(yaml).unwrap();
    let args = &cookbook.models[0].profiles[0].llama_server_args;
    assert_eq!(args, &["--api-key", "my secret key"]);
}

#[test]
fn parses_quoted_args_double() {
    let yaml = r#"
models:
  - name: test
    profiles:
      - id: default
        model_path: /tmp/model.gguf
        idle_timeout_seconds: 10
        llama_server_args: '-m "/path with spaces/model.gguf"'
"#;
    let cookbook = parse_cookbook(yaml).unwrap();
    let args = &cookbook.models[0].profiles[0].llama_server_args;
    assert_eq!(args, &["-m", "/path with spaces/model.gguf"]);
}

#[test]
fn parses_json_in_args() {
    let yaml = r#"
models:
  - name: test
    profiles:
      - id: default
        model_path: /tmp/model.gguf
        idle_timeout_seconds: 10
        llama_server_args: "--chat-template-kwargs '{\"reasoning_effort\": \"high\"}'"
"#;
    let cookbook = parse_cookbook(yaml).unwrap();
    let args = &cookbook.models[0].profiles[0].llama_server_args;
    assert_eq!(
        args,
        &["--chat-template-kwargs", "{\"reasoning_effort\": \"high\"}"]
    );
}

#[test]
fn rejects_unmatched_quotes() {
    let yaml = r#"
models:
  - name: test
    profiles:
      - id: default
        model_path: /tmp/model.gguf
        idle_timeout_seconds: 10
        llama_server_args: "--api-key 'unmatched"
"#;
    let result = parse_cookbook(yaml);
    assert!(result.is_err());
    let err = result.unwrap_err();
    assert!(err.contains("unmatched") || err.contains("Invalid shell syntax"));
}

#[test]
fn parses_key_equals_value() {
    let yaml = r#"
models:
  - name: test
    profiles:
      - id: default
        model_path: /tmp/model.gguf
        idle_timeout_seconds: 10
        llama_server_args: "--ctx-size=4096 -fa=on"
"#;
    let cookbook = parse_cookbook(yaml).unwrap();
    let args = &cookbook.models[0].profiles[0].llama_server_args;
    assert_eq!(args, &["--ctx-size=4096", "-fa=on"]);
}

#[test]
fn parses_whitespace_only_as_empty() {
    let yaml = r#"
models:
  - name: test
    profiles:
      - id: default
        model_path: /tmp/model.gguf
        idle_timeout_seconds: 10
        llama_server_args: "   "
"#;
    let cookbook = parse_cookbook(yaml).unwrap();
    let args = &cookbook.models[0].profiles[0].llama_server_args;
    assert!(args.is_empty());
}

#[test]
fn parses_max_queue_size() {
    let yaml = r#"
models:
  - name: test
    profiles:
      - id: default
        model_path: /tmp/model.gguf
        idle_timeout_seconds: 10
        max_queue_size: 128
        llama_server_args: ""
"#;
    let cookbook = parse_cookbook(yaml).unwrap();
    let profile = &cookbook.models[0].profiles[0];
    assert_eq!(profile.max_queue_size, Some(128));
}

#[test]
fn max_queue_size_defaults_to_none() {
    let yaml = r#"
models:
  - name: test
    profiles:
      - id: default
        model_path: /tmp/model.gguf
        idle_timeout_seconds: 10
        llama_server_args: ""
"#;
    let cookbook = parse_cookbook(yaml).unwrap();
    let profile = &cookbook.models[0].profiles[0];
    assert_eq!(profile.max_queue_size, None);
}

#[test]
fn profile_enabled_defaults_to_true() {
    let yaml = r#"
models:
  - name: test
    profiles:
      - id: default
        model_path: /tmp/model.gguf
        idle_timeout_seconds: 10
        llama_server_args: ""
"#;
    let cookbook = parse_cookbook(yaml).unwrap();
    assert!(cookbook.models[0].profiles[0].enabled);
}

#[test]
fn parses_profile_enabled_false() {
    let yaml = r#"
models:
  - name: test
    profiles:
      - id: default
        enabled: false
        model_path: /tmp/model.gguf
        idle_timeout_seconds: 10
        llama_server_args: ""
"#;
    let cookbook = parse_cookbook(yaml).unwrap();
    assert!(!cookbook.models[0].profiles[0].enabled);
}
