//! Rules of the configuration and the cookbook, one by one.

use llamesh::config::{
    around_numbers, check_api_key_auth, default_binary_path, default_build_args, default_build_path,
    default_mdns_service_name, default_metrics_path, default_repo_path, find_name, AuthConfig,
    ClusterConfig, ClusterNoiseConfig, ClusterTlsConfig, ConfigError, DiscoveryConfig, Header,
    HttpConfig, LlamaCppConfig, LlamaCppPorts, LoggingConfig, ModelDefaults, NodeConfig, PortRange,
    SecretsConfig, ServerTlsConfig, WedgeDetectorConfig,
};
use llamesh::cookbook::{
    accept_words, parse_llama_server_args, Cookbook, CookbookError, Model, Profile, SourceError,
};

fn defaults() -> ModelDefaults {
    ModelDefaults {
        max_concurrent_requests_per_instance: 4,
        max_queue_size_per_model: 32,
        max_instances_per_model: 5,
        max_wait_in_queue_ms: 60_000,
        max_request_duration_ms: 300_000,
        min_eviction_tenure_secs: 15,
    }
}

fn profile_with_args(args: &[&str]) -> Profile {
    Profile {
        id: "p".into(),
        description: None,
        enabled: true,
        model_path: Some("/tmp/model.gguf".into()),
        hf_repo: None,
        hf_file: None,
        idle_timeout_seconds: 10,
        max_instances: None,
        llama_server_args: args.iter().map(|s| s.to_string()).collect(),
        estimated_vram_mb: None,
        estimated_sysmem_mb: None,
        max_wait_in_queue_ms: None,
        max_request_duration_ms: None,
        startup_timeout_seconds: None,
        download_timeout_seconds: None,
        max_queue_size: None,
        min_eviction_tenure_secs: None,
    }
}

fn config_with_ports(ports: Option<LlamaCppPorts>) -> NodeConfig {
    NodeConfig {
        node_id: "test".into(),
        listen_addr: "0.0.0.0:8080".into(),
        public_url: None,
        max_vram_mb: 0,
        max_sysmem_mb: 0,
        max_instances_per_node: 1,
        metrics_path: ".".into(),
        default_model: "m".into(),
        model_defaults: defaults(),
        llama_cpp_ports: ports,
        llama_cpp: LlamaCppConfig {
            repo_url: "".into(),
            repo_path: "".into(),
            build_path: "".into(),
            binary_path: "".into(),
            branch: "".into(),
            build_args: vec![],
            build_command_args: vec![],
            auto_update_interval_seconds: 0,
            enabled: false,
            keep_builds: 3,
        },
        cluster: ClusterConfig {
            enabled: false,
            peers: vec![],
            gossip_interval_seconds: 1,
            max_concurrent_gossip: 16,
            discovery: Default::default(),
            noise: Default::default(),
            circuit_breaker: Default::default(),
            version_mismatch_action: "warn".to_string(),
        },
        http: HttpConfig {
            request_body_limit_bytes: 1_048_576,
            idle_timeout_seconds: 120,
            body_read_timeout_ms: 30_000,
            protocol_detect_timeout_ms: 10_000,
        },
        auth: None,
        server_tls: None,
        cluster_tls: None,
        shutdown_grace_period_seconds: 30,
        max_hops: 10,
        logging: None,
        max_total_queue_entries: 0,
        upstream_read_timeout_ms: 600_000,
        wedge_detector: WedgeDetectorConfig::default(),
    }
}

fn good() -> NodeConfig {
    config_with_ports(None)
}

fn clustered() -> NodeConfig {
    let mut config = good();
    config.cluster.enabled = true;
    config
}

fn problem(config: &NodeConfig) -> ConfigError {
    config.validate().unwrap_err()
}

#[test]
fn every_rule_has_its_error() {
    assert!(good().validate().is_ok());
    assert!(clustered().validate().is_ok());

    let tls = |enabled: bool| {
        Some(ServerTlsConfig {
            enabled,
            cert_path: "c".to_string(),
            key_path: "k".to_string(),
        })
    };
    let mut config = good();
    config.cluster_tls = Some(ClusterTlsConfig {
        enabled: true,
        ca_cert_path: "ca".to_string(),
        client_cert_path: "c".to_string(),
        client_key_path: "k".to_string(),
    });
    assert_eq!(problem(&config), ConfigError::ServerTlsMissing);
    config.server_tls = tls(false);
    assert_eq!(problem(&config), ConfigError::ServerTlsDisabled);
    config.server_tls = tls(true);
    assert!(config.validate().is_ok());

    let config = config_with_ports(Some(LlamaCppPorts {
        ports: None,
        ranges: Some(vec![PortRange { start: 9, end: 8 }]),
    }));
    let error = problem(&config);
    assert_eq!(error, ConfigError::InvertedPortRange { start: 9, end: 8 });
    assert_eq!(
        error.message(),
        "llama_cpp_ports range has start 9 greater than end 8; ranges are inclusive and must \
         have start <= end"
    );
    let config = config_with_ports(Some(LlamaCppPorts {
        ports: Some(vec![]),
        ranges: Some(vec![]),
    }));
    assert_eq!(problem(&config), ConfigError::NoUsablePorts);

    let mut config = clustered();
    config.cluster.gossip_interval_seconds = 0;
    assert_eq!(problem(&config), ConfigError::ZeroGossipInterval);
    let mut config = clustered();
    config.cluster.max_concurrent_gossip = 0;
    assert_eq!(problem(&config), ConfigError::ZeroConcurrentGossip);
    let mut config = clustered();
    config.cluster.circuit_breaker.failure_threshold = 0;
    assert_eq!(problem(&config), ConfigError::ZeroFailureThreshold);
    let mut config = clustered();
    config.cluster.circuit_breaker.success_threshold = 0;
    assert_eq!(problem(&config), ConfigError::ZeroSuccessThreshold);
    let mut config = clustered();
    config.cluster.circuit_breaker.open_duration_base_ms = 0;
    assert_eq!(problem(&config), ConfigError::ZeroBackoffBase);
    let mut config = clustered();
    config.cluster.circuit_breaker.open_duration_max_ms = 0;
    assert_eq!(problem(&config), ConfigError::ZeroBackoffMax);
    let mut config = clustered();
    config.cluster.circuit_breaker.open_duration_base_ms = 7;
    config.cluster.circuit_breaker.open_duration_max_ms = 6;
    let error = problem(&config);
    assert_eq!(error, ConfigError::BackoffBaseAboveMax { base: 7, max: 6 });
    assert!(error
        .message()
        .contains("open_duration_base_ms (7) is greater than open_duration_max_ms (6)"));

    let mut config = good();
    config.max_instances_per_node = 0;
    assert_eq!(problem(&config), ConfigError::ZeroInstanceCap);
    let mut config = good();
    config.http.request_body_limit_bytes = 0;
    assert_eq!(problem(&config), ConfigError::ZeroBodyLimit);
    let mut config = good();
    config.http.idle_timeout_seconds = 0;
    assert_eq!(problem(&config), ConfigError::ZeroIdleTimeout);
    let mut config = good();
    config.http.body_read_timeout_ms = 0;
    assert_eq!(problem(&config), ConfigError::ZeroBodyReadTimeout);
    let mut config = good();
    config.http.protocol_detect_timeout_ms = 0;
    assert_eq!(problem(&config), ConfigError::ZeroProtocolDetectTimeout);

    let mut config = good();
    config.wedge_detector = WedgeDetectorConfig {
        enabled: true,
        window_ms: 0,
        sample_interval_ms: 1,
    };
    assert_eq!(problem(&config), ConfigError::ZeroWedgeWindow);
    config.wedge_detector.window_ms = 5;
    config.wedge_detector.sample_interval_ms = 0;
    assert_eq!(problem(&config), ConfigError::ZeroWedgeSampleInterval);
    config.wedge_detector.sample_interval_ms = 6;
    let error = problem(&config);
    assert_eq!(
        error,
        ConfigError::WedgeSampleAboveWindow {
            sample: 6,
            window: 5
        }
    );
    assert!(error
        .message()
        .contains("sample_interval_ms (6) is greater than window_ms (5)"));
}

#[test]
fn messages_name_the_setting() {
    for (error, words) in [
        (ConfigError::ServerTlsDisabled, "Server TLS is disabled"),
        (ConfigError::ServerTlsMissing, "Server TLS is not configured"),
        (ConfigError::NoUsablePorts, "no usable ports"),
        (ConfigError::ZeroGossipInterval, "gossip_interval_seconds is 0"),
        (ConfigError::ZeroConcurrentGossip, "max_concurrent_gossip is 0"),
        (ConfigError::ZeroFailureThreshold, "failure_threshold is 0"),
        (ConfigError::ZeroSuccessThreshold, "success_threshold is 0"),
        (ConfigError::ZeroBackoffBase, "open_duration_base_ms is 0"),
        (ConfigError::ZeroBackoffMax, "open_duration_max_ms is 0"),
        (ConfigError::ZeroInstanceCap, "max_instances_per_node is 0"),
        (ConfigError::ZeroBodyLimit, "request_body_limit_bytes is 0"),
        (ConfigError::ZeroIdleTimeout, "idle_timeout_seconds is 0"),
        (ConfigError::ZeroBodyReadTimeout, "body_read_timeout_ms is 0"),
        (
            ConfigError::ZeroProtocolDetectTimeout,
            "protocol_detect_timeout_ms is 0",
        ),
        (ConfigError::ZeroWedgeWindow, "window_ms is 0"),
        (
            ConfigError::ZeroWedgeSampleInterval,
            "sample_interval_ms is 0",
        ),
    ] {
        assert!(error.message().contains(words), "{words}");
        assert!(!error.message().contains("  "), "{words}");
    }
    assert_eq!(around_numbers("a", 1, "b", 2, "c"), "a1b2c");
}

fn auth(header: &str) -> AuthConfig {
    AuthConfig {
        enabled: true,
        required_header: header.to_string(),
        allowed_keys: vec!["k".to_string()],
    }
}

#[test]
fn secrets_replace_what_they_hold() {
    let mut config = good();
    config.auth = Some(auth("old"));
    config.merge_secrets(SecretsConfig {
        auth: Some(auth("new")),
        server_tls: None,
        cluster_tls: None,
    });
    assert_eq!(config.auth.as_ref().unwrap().required_header, "new");
    config.merge_secrets(SecretsConfig {
        auth: None,
        server_tls: Some(ServerTlsConfig {
            enabled: true,
            cert_path: "c".to_string(),
            key_path: "k".to_string(),
        }),
        cluster_tls: None,
    });
    assert_eq!(config.auth.as_ref().unwrap().required_header, "new");
    assert_eq!(config.server_tls.as_ref().unwrap().cert_path, "c");
    assert!(config.cluster_tls.is_none());
}

#[test]
fn headers_are_found_in_any_case() {
    let header = |name: &str, value: Option<&str>| Header {
        name: name.to_string(),
        value: value.map(|v| v.to_string()),
    };
    let headers = vec![
        header("x-other", Some("o")),
        header("authorization", Some("Bearer k")),
        header("x-binary", None),
    ];
    assert_eq!(
        auth("Authorization").get_header_value(&headers),
        Some("Bearer k")
    );
    assert_eq!(auth("X-BINARY").get_header_value(&headers), None);
    assert_eq!(auth("missing").get_header_value(&headers), None);
}

#[test]
fn key_files_stand_in_the_configured_directory() {
    let mut noise = ClusterNoiseConfig::default();
    assert_eq!(noise.effective_config_dir(Some("/home/u"), "/etc/x"), "/etc/x");
    noise.config_dir = Some("~/keys".to_string());
    assert_eq!(
        noise.effective_config_dir(Some("/home/u"), "/etc/x"),
        "/home/u/keys"
    );
    assert_eq!(noise.effective_config_dir(None, "/etc/x"), "~/keys");
    noise.config_dir = Some("/srv/keys".to_string());
    assert_eq!(
        noise.effective_config_dir(Some("/home/u"), "/etc/x"),
        "/srv/keys"
    );
    assert_eq!(noise.effective_private_key_path("/d"), "/d/node.key");
    assert_eq!(noise.effective_known_peers_path("/d"), "/d/known_peers");
    noise.private_key_path = Some("/p".to_string());
    noise.known_peers_path = Some("/q".to_string());
    assert_eq!(noise.effective_private_key_path("/d"), "/p");
    assert_eq!(noise.effective_known_peers_path("/d"), "/q");
}

#[test]
fn the_defaults_of_the_configuration() {
    assert_eq!(default_metrics_path(), "./node-metrics.json");
    assert_eq!(default_repo_path(), "./llama.cpp");
    assert!(default_build_path().starts_with("./llama.cpp"));
    assert!(default_binary_path().ends_with("llama-server"));
    assert!(!default_build_args().is_empty());
    assert_eq!(
        DiscoveryConfig::default().service_name,
        default_mdns_service_name()
    );
    assert!(ClusterNoiseConfig::default().enabled);
    assert!(LoggingConfig::default().max_keep_files > 0);
    assert!(!WedgeDetectorConfig::default().enabled);
    assert_eq!(find_name(&vec!["a".to_string(), "b".to_string()], "b"), Some(1));
    assert_eq!(find_name(&vec!["a".to_string()], "A"), None);
}

#[test]
fn arguments_are_split_like_in_a_shell() {
    assert_eq!(
        parse_llama_server_args("-m 'a b' --x=\"c d\" e\\ f # comment").unwrap(),
        vec!["-m", "a b", "--x=c d", "e f"]
    );
    let error = parse_llama_server_args("-m 'a").unwrap_err();
    assert_eq!(
        error.message(),
        "Invalid shell syntax in llama_server_args: '-m 'a'. Check for unmatched quotes."
    );
    assert_eq!(accept_words("x", Some(vec![])).unwrap(), Vec::<String>::new());
    assert_eq!(accept_words("x", None).unwrap_err().args, "x");
}

#[test]
fn the_api_key_is_read_from_the_arguments() {
    assert_eq!(
        profile_with_args(&["--api-key", "k1"]).get_api_key().as_deref(),
        Some("k1")
    );
    assert_eq!(
        profile_with_args(&["-m", "--api-key=k2"]).get_api_key().as_deref(),
        Some("k2")
    );
    assert_eq!(profile_with_args(&["--api-key"]).get_api_key(), None);
    assert_eq!(profile_with_args(&[]).get_api_key(), None);
}

#[test]
fn flags_are_found_in_any_case() {
    let profile = profile_with_args(&["--Embedding", "-M"]);
    assert!(profile.has_flag(&["--embedding"]));
    assert!(profile.supports_embeddings());
    assert!(!profile.has_flag(&["--rerank"]));
    assert!(!profile.has_flag(&[]));
    assert_eq!(profile.effective_min_eviction_tenure_secs(&defaults()), 15);
}

fn model(name: &str, ids: &[&str]) -> Model {
    Model {
        name: name.to_string(),
        description: None,
        enabled: true,
        profiles: ids
            .iter()
            .map(|id| Profile {
                id: id.to_string(),
                ..profile_with_args(&[])
            })
            .collect(),
    }
}

#[test]
fn the_first_problem_of_a_cookbook_is_reported() {
    let mut cookbook = Cookbook {
        models: vec![model("A", &["x", "y"]), model("a", &["Z", "Y"])],
    };
    let error = cookbook.validate().unwrap_err();
    match &error {
        CookbookError::Duplicate { first, second, key } => {
            assert_eq!((first.as_str(), second.as_str(), key.as_str()), ("A:y", "a:Y", "a:y"));
        }
        _ => panic!("expected a duplicate"),
    }
    assert!(error
        .message()
        .starts_with("Duplicate model:profile identifier: 'A:y' and 'a:Y' both resolve to 'a:y'."));
    cookbook.models[1].profiles[0].model_path = None;
    let error = cookbook.validate().unwrap_err();
    assert!(error.message().starts_with("Profile a:Z must specify either"));
    assert!(matches!(
        error,
        CookbookError::Source {
            error: SourceError::Missing,
            ..
        }
    ));
    cookbook.models[1].profiles[0].model_path = Some("m".to_string());
    cookbook.models[1].profiles[0].hf_repo = Some("r".to_string());
    assert_eq!(
        cookbook.models[1].profiles[0].check_source(),
        Some(SourceError::Ambiguous)
    );
    assert!(cookbook.models[1].profiles[0].validate("a").is_err());
    cookbook.models[1].profiles[0].hf_repo = None;
    cookbook.models[1].enabled = false;
    assert!(cookbook.validate().is_ok());
}

#[test]
fn names_are_compared_in_lower_case_of_all_scripts() {
    let cookbook = Cookbook {
        models: vec![model("ÄÖ", &["x"]), model("äö", &["X"])],
    };
    assert!(cookbook.validate().is_err());
    assert!(Cookbook {
        models: vec![model("m", &["a", "b"])]
    }
    .validate()
    .is_ok());
    let keys = vec![vec!["k".to_string()], vec!["k".to_string()]];
    assert!(cookbook.validate_keyed(&keys).is_err());
    assert_eq!(cookbook.find_clash(&keys, 1, 0), Some((0, 0)));
    assert_eq!(cookbook.find_clash(&keys, 0, 0), None);
}

#[test]
fn requests_show_an_allowed_key_where_keys_are_asked_for() {
    let auth = |enabled: bool| {
        Some(AuthConfig {
            enabled,
            required_header: "Authorization".to_string(),
            allowed_keys: vec!["one".to_string(), "two".to_string()],
        })
    };
    let shown = |value: &str| {
        vec![Header {
            name: "authorization".to_string(),
            value: Some(value.to_string()),
        }]
    };
    assert!(check_api_key_auth(&auth(true), &shown("Bearer two")));
    assert!(check_api_key_auth(&auth(true), &shown("one")));
    assert!(!check_api_key_auth(&auth(true), &shown("three")));
    assert!(!check_api_key_auth(&auth(true), &shown("Bearer ")));
    assert!(!check_api_key_auth(&auth(true), &vec![]));
    assert!(check_api_key_auth(&auth(false), &vec![]));
    assert!(check_api_key_auth(&None, &vec![]));
}

#[test]
fn what_is_enabled_is_served() {
    let mut off = model("c", &["x"]);
    off.enabled = false;
    let mut cookbook = Cookbook {
        models: vec![model("a", &["x", "y"]), off, model("b", &["z"])],
    };
    assert_eq!(cookbook.supported_models(), vec!["a:x", "a:y", "b:z"]);
    cookbook.models[0].profiles[0].enabled = false;
    assert_eq!(cookbook.supported_models(), vec!["a:y", "b:z"]);
}

#[test]
fn tls_beside_noise_is_deprecated() {
    let mut config = good();
    let tls = |enabled: bool| {
        Some(ClusterTlsConfig {
            enabled,
            ca_cert_path: "ca".to_string(),
            client_cert_path: "c".to_string(),
            client_key_path: "k".to_string(),
        })
    };
    config.cluster.noise.enabled = true;
    assert_eq!(config.deprecation_notice(), None);
    config.cluster_tls = tls(false);
    assert_eq!(config.deprecation_notice(), None);
    config.cluster_tls = tls(true);
    assert_eq!(
        config.deprecation_notice(),
        Some(
            "DEPRECATION: cluster_tls is deprecated when noise is enabled. Both are configured - \
             noise will be preferred for new connections. Remove cluster_tls configuration to \
             silence this warning."
        )
    );
    config.cluster.noise.enabled = false;
    assert_eq!(config.deprecation_notice(), None);
}

#[test]
fn a_file_without_a_repository_is_ignored() {
    let notice =
        "Profile m:p specifies 'hf_file' without 'hf_repo'; 'hf_file' will be ignored";
    let mut profile = profile_with_args(&[]);
    profile.model_path = Some("m.gguf".to_string());
    profile.hf_repo = None;
    profile.hf_file = None;
    assert_eq!(profile.ignored_file_notice("m"), None);
    profile.hf_file = Some("f".to_string());
    assert_eq!(profile.ignored_file_notice("m").as_deref(), Some(notice));
    let mut by_repo = profile.clone();
    by_repo.model_path = None;
    by_repo.hf_repo = Some("r".to_string());
    assert_eq!(by_repo.ignored_file_notice("m"), None);
    let mut by_args = profile.clone();
    by_args.llama_server_args = vec!["--hf-repo".to_string(), "r".to_string()];
    assert_eq!(by_args.ignored_file_notice("m"), None);
    let mut without_source = profile.clone();
    without_source.model_path = None;
    assert_eq!(without_source.ignored_file_notice("m"), None);
    let cookbook = Cookbook {
        models: vec![Model {
            name: "m".to_string(),
            description: None,
            enabled: false,
            profiles: vec![by_repo, profile],
        }],
    };
    assert_eq!(cookbook.notices(), vec![notice]);
}
