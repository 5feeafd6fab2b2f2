//! Configuration of a node and its cookbook of models: defaults, validation and derived values.
use vstd::prelude::*;
use crate::circuit_breaker::CircuitBreakerConfig;
use crate::instance::bearer;
use crate::paths::{join_path, joined_path, texts};
use crate::text::{
    begins_with, chars_of, decimal, push_decimal, same, starts_with, text_of, to_lowercase,
    unicode_lowercase,
};

verus! {

/// Configuration of a node.
#[derive(Debug, Clone)]
pub struct NodeConfig {
    pub node_id: String,
    pub listen_addr: String,
    pub public_url: Option<String>,
    pub max_vram_mb: u64,
    pub max_sysmem_mb: u64,
    pub max_instances_per_node: usize,
    pub metrics_path: String,
    pub default_model: String,
    pub model_defaults: ModelDefaults,
    pub llama_cpp_ports: Option<LlamaCppPorts>,
    pub llama_cpp: LlamaCppConfig,
    pub cluster: ClusterConfig,
    pub http: HttpConfig,
    pub auth: Option<AuthConfig>,
    pub server_tls: Option<ServerTlsConfig>,
    pub cluster_tls: Option<ClusterTlsConfig>,
    pub shutdown_grace_period_seconds: u64,
    pub max_hops: usize,
    pub logging: Option<LoggingConfig>,
    /// Limit on queue entries across all models; 0 for none.
    pub max_total_queue_entries: usize,
    /// Longest silence, in milliseconds, of a local instance that holds a request; 0 for no limit.
    pub upstream_read_timeout_ms: u64,
    /// Watchdog for instances that hold a request and do nothing.
    pub wedge_detector: WedgeDetectorConfig,
}

/// Configuration of the watchdog for wedged instances.
#[derive(Debug, Clone)]
pub struct WedgeDetectorConfig {
    pub enabled: bool,
    /// How long an instance must be inactive while it holds a request, in milliseconds.
    pub window_ms: u64,
    /// How often activity is sampled, in milliseconds.
    pub sample_interval_ms: u64,
}

/// The parts of a configuration that may be kept in a file of their own.
#[derive(Debug, Clone)]
pub struct SecretsConfig {
    pub auth: Option<AuthConfig>,
    pub server_tls: Option<ServerTlsConfig>,
    pub cluster_tls: Option<ClusterTlsConfig>,
}

/// Configuration of logging to files.
#[derive(Debug, Clone)]
pub struct LoggingConfig {
    pub enabled: bool,
    pub directory: String,
    pub filename: String,
    pub max_keep_files: u64,
    pub compression: bool,
}

/// Limits that hold for a model unless its profile overrides them.
#[derive(Debug, Clone)]
pub struct ModelDefaults {
    pub max_concurrent_requests_per_instance: usize,
    /// 0 for no limit.
    pub max_queue_size_per_model: usize,
    pub max_instances_per_model: usize,
    /// 0 to wait forever.
    pub max_wait_in_queue_ms: u64,
    /// 0 for no limit.
    pub max_request_duration_ms: u64,
    /// How long a busy instance is protected from a competing model.
    pub min_eviction_tenure_secs: u64,
}

/// The ports that instances may listen on.
#[derive(Debug, Clone)]
pub struct LlamaCppPorts {
    pub ports: Option<Vec<u16>>,
    pub ranges: Option<Vec<PortRange>>,
}

/// Ports from `start` to `end`, both included.
#[derive(Debug, Clone)]
pub struct PortRange {
    pub start: u16,
    pub end: u16,
}

/// Where llama.cpp comes from and how it is built.
#[derive(Debug, Clone)]
pub struct LlamaCppConfig {
    pub repo_url: String,
    pub repo_path: String,
    pub build_path: String,
    pub binary_path: String,
    pub branch: String,
    pub build_args: Vec<String>,
    pub build_command_args: Vec<String>,
    pub auto_update_interval_seconds: u64,
    pub enabled: bool,
    pub keep_builds: usize,
}

/// Configuration of the cluster.
#[derive(Debug, Clone)]
pub struct ClusterConfig {
    pub enabled: bool,
    /// Addresses of peers, besides those that are discovered.
    pub peers: Vec<String>,
    pub gossip_interval_seconds: u64,
    pub max_concurrent_gossip: usize,
    pub discovery: DiscoveryConfig,
    pub noise: ClusterNoiseConfig,
    pub circuit_breaker: CircuitBreakerConfig,
    /// `warn`, `reject_major` or `reject_any`.
    pub version_mismatch_action: String,
}

/// Configuration of peer discovery.
#[derive(Debug, Clone)]
pub struct DiscoveryConfig {
    pub mdns: bool,
    pub service_name: String,
}

/// Configuration of the Noise transport between nodes.
#[derive(Debug, Clone)]
pub struct ClusterNoiseConfig {
    pub enabled: bool,
    /// Trust on first use.
    pub tofu: bool,
    pub config_dir: Option<String>,
    pub private_key_path: Option<String>,
    pub previous_key_path: Option<String>,
    pub known_peers_path: Option<String>,
    /// If not empty, only these keys are accepted.
    pub allowed_keys: Vec<String>,
    pub session_ttl_seconds: u64,
}

/// Limits of the HTTP server.
#[derive(Debug, Clone)]
pub struct HttpConfig {
    pub request_body_limit_bytes: usize,
    pub idle_timeout_seconds: u64,
    pub body_read_timeout_ms: u64,
    pub protocol_detect_timeout_ms: u64,
}

/// Configuration of API keys.
#[derive(Debug, Clone)]
pub struct AuthConfig {
    pub enabled: bool,
    pub required_header: String,
    pub allowed_keys: Vec<String>,
}

/// TLS of the HTTP server.
#[derive(Debug, Clone)]
pub struct ServerTlsConfig {
    pub enabled: bool,
    pub cert_path: String,
    pub key_path: String,
}

/// Mutual TLS between nodes.
#[derive(Debug, Clone)]
pub struct ClusterTlsConfig {
    pub enabled: bool,
    pub ca_cert_path: String,
    pub client_cert_path: String,
    pub client_key_path: String,
}

/// Ten minutes: longer than any plausible gap between tokens.
pub fn default_wedge_window_ms() -> (r: u64)
    ensures
        r == 600_000,
{
    600_000
}

pub fn default_wedge_sample_interval_ms() -> (r: u64)
    ensures
        r == 5_000,
{
    5_000
}

pub fn default_shutdown_grace_period_seconds() -> (r: u64)
    ensures
        r == 30,
{
    30
}

pub fn default_max_hops() -> (r: usize)
    ensures
        r == 10,
{
    10
}

/// No limit across models.
pub fn default_max_total_queue_entries() -> (r: usize)
    ensures
        r == 0,
{
    0
}

/// Off, since any limit would abort long requests that do not stream.
pub fn default_upstream_read_timeout_ms() -> (r: u64)
    ensures
        r == 0,
{
    0
}

pub fn default_max_instances_per_node() -> (r: usize)
    ensures
        r == 100,
{
    100
}

pub fn default_metrics_path() -> (r: String)
    ensures
        r@ == "./node-metrics.json"@,
{
    "./node-metrics.json".to_owned()
}

pub fn default_log_directory() -> (r: String)
    ensures
        r@ == "./logs"@,
{
    "./logs".to_owned()
}

pub fn default_log_filename() -> (r: String)
    ensures
        r@ == "proxy.log"@,
{
    "proxy.log".to_owned()
}

pub fn default_max_keep_files() -> (r: u64)
    ensures
        r == 7,
{
    7
}

pub fn default_compression() -> (r: bool)
    ensures
        r,
{
    true
}

pub fn default_max_wait_in_queue_ms() -> (r: u64)
    ensures
        r == 60_000,
{
    60_000
}

pub fn default_max_request_duration_ms() -> (r: u64)
    ensures
        r == 0,
{
    0
}

pub fn default_min_eviction_tenure_secs() -> (r: u64)
    ensures
        r == 15,
{
    15
}

pub fn default_keep_builds() -> (r: usize)
    ensures
        r == 3,
{
    3
}

pub fn default_build_enabled() -> (r: bool)
    ensures
        r,
{
    true
}

pub fn default_repo_path() -> (r: String)
    ensures
        r@ == "./llama.cpp"@,
{
    "./llama.cpp".to_owned()
}

pub fn default_build_path() -> (r: String)
    ensures
        r@ == "./llama.cpp/build"@,
{
    "./llama.cpp/build".to_owned()
}

pub fn default_binary_path() -> (r: String)
    ensures
        r@ == "./llama.cpp/bin/llama-server"@,
{
    "./llama.cpp/bin/llama-server".to_owned()
}

pub fn default_build_args() -> (r: Vec<String>)
    ensures
        texts(r@) == seq!["-DGGML_CUDA=ON"@, "-DGGML_CUDA_FA_ALL_QUANTS=ON"@],
{
    let mut args: Vec<String> = Vec::new();
    args.push("-DGGML_CUDA=ON".to_owned());
    args.push("-DGGML_CUDA_FA_ALL_QUANTS=ON".to_owned());
    assert(texts(args@) =~= seq!["-DGGML_CUDA=ON"@, "-DGGML_CUDA_FA_ALL_QUANTS=ON"@]);
    args
}

pub fn default_version_mismatch_action() -> (r: String)
    ensures
        r@ == "warn"@,
{
    "warn".to_owned()
}

pub fn default_max_concurrent_gossip() -> (r: usize)
    ensures
        r == 16,
{
    16
}

pub fn default_true() -> (r: bool)
    ensures
        r,
{
    true
}

pub fn default_mdns_service_name() -> (r: String)
    ensures
        r@ == "_llama-mesh._tcp.local"@,
{
    "_llama-mesh._tcp.local".to_owned()
}

pub fn default_session_ttl() -> (r: u64)
    ensures
        r == 3600,
{
    3600
}

pub fn default_enabled() -> (r: bool)
    ensures
        r,
{
    true
}

pub fn default_idle_timeout_seconds() -> (r: u64)
    ensures
        r == 300,
{
    300
}

pub fn default_body_read_timeout_ms() -> (r: u64)
    ensures
        r == 30_000,
{
    30_000
}

pub fn default_protocol_detect_timeout_ms() -> (r: u64)
    ensures
        r == 10_000,
{
    10_000
}

impl Default for WedgeDetectorConfig {
    fn default() -> (r: Self)
        ensures
            !r.enabled,
            r.window_ms == 600_000,
            r.sample_interval_ms == 5_000,
    {
        WedgeDetectorConfig {
            enabled: false,
            window_ms: default_wedge_window_ms(),
            sample_interval_ms: default_wedge_sample_interval_ms(),
        }
    }
}

impl Default for LoggingConfig {
    fn default() -> (r: Self)
        ensures
            !r.enabled,
            r.directory@ == "./logs"@,
            r.filename@ == "proxy.log"@,
            r.max_keep_files == 7,
            r.compression,
    {
        LoggingConfig {
            enabled: false,
            directory: default_log_directory(),
            filename: default_log_filename(),
            max_keep_files: default_max_keep_files(),
            compression: default_compression(),
        }
    }
}

impl Default for DiscoveryConfig {
    fn default() -> (r: Self)
        ensures
            r.mdns,
            r.service_name@ == "_llama-mesh._tcp.local"@,
    {
        DiscoveryConfig { mdns: true, service_name: default_mdns_service_name() }
    }
}

impl Default for ClusterNoiseConfig {
    fn default() -> (r: Self)
        ensures
            r.enabled,
            r.tofu,
            r.config_dir is None,
            r.private_key_path is None,
            r.previous_key_path is None,
            r.known_peers_path is None,
            r.allowed_keys@.len() == 0,
            r.session_ttl_seconds == 3600,
    {
        ClusterNoiseConfig {
            enabled: true,
            tofu: true,
            config_dir: None,
            private_key_path: None,
            previous_key_path: None,
            known_peers_path: None,
            allowed_keys: Vec::new(),
            session_ttl_seconds: default_session_ttl(),
        }
    }
}

/// What is wrong with the configuration of a node.
#[derive(Debug, Clone, Copy, PartialEq, Eq, Structural)]
pub enum ConfigError {
    ServerTlsDisabled,
    ServerTlsMissing,
    InvertedPortRange { start: u16, end: u16 },
    NoUsablePorts,
    ZeroGossipInterval,
    ZeroConcurrentGossip,
    ZeroFailureThreshold,
    ZeroSuccessThreshold,
    ZeroBackoffBase,
    ZeroBackoffMax,
    BackoffBaseAboveMax { base: u64, max: u64 },
    ZeroInstanceCap,
    ZeroBodyLimit,
    ZeroIdleTimeout,
    ZeroBodyReadTimeout,
    ZeroProtocolDetectTimeout,
    ZeroWedgeWindow,
    ZeroWedgeSampleInterval,
    WedgeSampleAboveWindow { sample: u64, window: u64 },
}

/// Mutual TLS between nodes needs TLS on the server.
pub open spec fn tls_problem(
    cluster_tls: Option<ClusterTlsConfig>,
    server_tls: Option<ServerTlsConfig>,
) -> Option<ConfigError> {
    if cluster_tls is Some && cluster_tls->0.enabled {
        match server_tls {
            None => Some(ConfigError::ServerTlsMissing),
            Some(tls) => if tls.enabled {
                None
            } else {
                Some(ConfigError::ServerTlsDisabled)
            },
        }
    } else {
        None
    }
}

/// The first range that ends before it starts.
pub open spec fn inverted_range(ranges: Seq<PortRange>) -> Option<ConfigError>
    decreases ranges.len(),
{
    if ranges.len() == 0 {
        None
    } else if ranges[0].start > ranges[0].end {
        Some(ConfigError::InvertedPortRange { start: ranges[0].start, end: ranges[0].end })
    } else {
        inverted_range(ranges.drop_first())
    }
}

/// Configured ports must be in order, and there must be some.
pub open spec fn ports_problem(ports: Option<LlamaCppPorts>) -> Option<ConfigError> {
    match ports {
        None => None,
        Some(p) => {
            let inverted = match p.ranges {
                Some(ranges) => inverted_range(ranges@),
                None => None,
            };
            if inverted is Some {
                inverted
            } else if (p.ports is None || p.ports->0@.len() == 0) && (p.ranges is None
                || p.ranges->0@.len() == 0) {
                Some(ConfigError::NoUsablePorts)
            } else {
                None
            }
        },
    }
}

/// The thresholds and times of an enabled breaker are positive, and the base is not above the
/// maximum.
pub open spec fn breaker_problem(cb: CircuitBreakerConfig) -> Option<ConfigError> {
    if !cb.enabled {
        None
    } else if cb.failure_threshold == 0 {
        Some(ConfigError::ZeroFailureThreshold)
    } else if cb.success_threshold == 0 {
        Some(ConfigError::ZeroSuccessThreshold)
    } else if cb.open_duration_base_ms == 0 {
        Some(ConfigError::ZeroBackoffBase)
    } else if cb.open_duration_max_ms == 0 {
        Some(ConfigError::ZeroBackoffMax)
    } else if cb.open_duration_base_ms > cb.open_duration_max_ms {
        Some(
            ConfigError::BackoffBaseAboveMax {
                base: cb.open_duration_base_ms,
                max: cb.open_duration_max_ms,
            },
        )
    } else {
        None
    }
}

/// An enabled cluster needs a gossip interval, permits to gossip, and a sound breaker.
pub open spec fn cluster_problem(cluster: ClusterConfig) -> Option<ConfigError> {
    if !cluster.enabled {
        None
    } else if cluster.gossip_interval_seconds == 0 {
        Some(ConfigError::ZeroGossipInterval)
    } else if cluster.max_concurrent_gossip == 0 {
        Some(ConfigError::ZeroConcurrentGossip)
    } else {
        breaker_problem(cluster.circuit_breaker)
    }
}

/// The limits of the HTTP server are positive.
pub open spec fn http_problem(http: HttpConfig) -> Option<ConfigError> {
    if http.request_body_limit_bytes == 0 {
        Some(ConfigError::ZeroBodyLimit)
    } else if http.idle_timeout_seconds == 0 {
        Some(ConfigError::ZeroIdleTimeout)
    } else if http.body_read_timeout_ms == 0 {
        Some(ConfigError::ZeroBodyReadTimeout)
    } else if http.protocol_detect_timeout_ms == 0 {
        Some(ConfigError::ZeroProtocolDetectTimeout)
    } else {
        None
    }
}

/// The times of an enabled watchdog are positive, and it samples at least once per window.
pub open spec fn wedge_problem(wedge: WedgeDetectorConfig) -> Option<ConfigError> {
    if !wedge.enabled {
        None
    } else if wedge.window_ms == 0 {
        Some(ConfigError::ZeroWedgeWindow)
    } else if wedge.sample_interval_ms == 0 {
        Some(ConfigError::ZeroWedgeSampleInterval)
    } else if wedge.sample_interval_ms > wedge.window_ms {
        Some(
            ConfigError::WedgeSampleAboveWindow {
                sample: wedge.sample_interval_ms,
                window: wedge.window_ms,
            },
        )
    } else {
        None
    }
}

/// The first thing that is wrong with a configuration, in the order TLS, ports, cluster,
/// instances, HTTP, watchdog.
pub open spec fn config_problem(c: NodeConfig) -> Option<ConfigError> {
    if tls_problem(c.cluster_tls, c.server_tls) is Some {
        tls_problem(c.cluster_tls, c.server_tls)
    } else if ports_problem(c.llama_cpp_ports) is Some {
        ports_problem(c.llama_cpp_ports)
    } else if cluster_problem(c.cluster) is Some {
        cluster_problem(c.cluster)
    } else if c.max_instances_per_node == 0 {
        Some(ConfigError::ZeroInstanceCap)
    } else if http_problem(c.http) is Some {
        http_problem(c.http)
    } else {
        wedge_problem(c.wedge_detector)
    }
}

/// Whether both ways of encryption between nodes are on. Noise is then preferred, and TLS is
/// deprecated.
pub open spec fn tls_beside_noise(c: NodeConfig) -> bool {
    c.cluster_tls is Some && c.cluster_tls->0.enabled && c.cluster.noise.enabled
}

pub const CLUSTER_TLS_DEPRECATED: &'static str = "DEPRECATION: cluster_tls is deprecated when noise is enabled. Both are configured - \
    noise will be preferred for new connections. Remove cluster_tls configuration to \
    silence this warning.";

/// A check that found something, or nothing.
pub open spec fn check_result(problem: Option<ConfigError>) -> Result<(), ConfigError> {
    match problem {
        Some(e) => Err(e),
        None => Ok(()),
    }
}

fn check_ranges(ranges: &Vec<PortRange>) -> (r: Result<(), ConfigError>)
    ensures
        r == check_result(inverted_range(ranges@)),
{
    let mut i: usize = 0;
    assert(ranges@.skip(0) =~= ranges@);
    while i < ranges.len()
        invariant
            i <= ranges@.len(),
            inverted_range(ranges@) == inverted_range(ranges@.skip(i as int)),
        decreases ranges@.len() - i,
    {
        if ranges[i].start > ranges[i].end {
            return Err(
                ConfigError::InvertedPortRange { start: ranges[i].start, end: ranges[i].end },
            );
        }
        assert(ranges@.skip(i as int).drop_first() =~= ranges@.skip(i + 1));
        i = i + 1;
    }
    Ok(())
}

impl NodeConfig {
    /// Takes over what the secrets hold; what they leave out stays.
    pub fn merge_secrets(&mut self, secrets: SecretsConfig)
        ensures
            *final(self) == merged(*old(self), secrets),
    {
        if let Some(auth) = secrets.auth {
            self.auth = Some(auth);
        }
        if let Some(server_tls) = secrets.server_tls {
            self.server_tls = Some(server_tls);
        }
        if let Some(cluster_tls) = secrets.cluster_tls {
            self.cluster_tls = Some(cluster_tls);
        }
    }

    /// What to tell the operator where TLS between nodes is still on beside Noise.
    pub fn deprecation_notice(&self) -> (r: Option<&'static str>)
        ensures
            match r {
                Some(text) => tls_beside_noise(*self) && text@ == CLUSTER_TLS_DEPRECATED@,
                None => !tls_beside_noise(*self),
            },
    {
        match &self.cluster_tls {
            Some(tls) => if tls.enabled && self.cluster.noise.enabled {
                Some(CLUSTER_TLS_DEPRECATED)
            } else {
                None
            },
            None => None,
        }
    }

    /// Checks a configuration for values that load cleanly and fail at run time.
    pub fn validate(&self) -> (r: Result<(), ConfigError>)
        ensures
            r == check_result(config_problem(*self)),
    {
        if let Some(cluster_tls) = &self.cluster_tls {
            if cluster_tls.enabled {
                if let Some(server_tls) = &self.server_tls {
                    if !server_tls.enabled {
                        return Err(ConfigError::ServerTlsDisabled);
                    }
                } else {
                    return Err(ConfigError::ServerTlsMissing);
                }
            }
        }
        // An inverted range, or neither ports nor ranges, would leave no port to start an
        // instance on.
        if let Some(ports) = &self.llama_cpp_ports {
            if let Some(ranges) = &ports.ranges {
                if let Err(e) = check_ranges(ranges) {
                    return Err(e);
                }
            }
            let explicit_ports: usize = match &ports.ports {
                Some(p) => p.len(),
                None => 0,
            };
            let range_count: usize = match &ports.ranges {
                Some(r) => r.len(),
                None => 0,
            };
            if explicit_ports == 0 && range_count == 0 {
                return Err(ConfigError::NoUsablePorts);
            }
        }
        // A zero interval or no permits would stop gossip without a word.
        if self.cluster.enabled {
            if self.cluster.gossip_interval_seconds == 0 {
                return Err(ConfigError::ZeroGossipInterval);
            }
            if self.cluster.max_concurrent_gossip == 0 {
                return Err(ConfigError::ZeroConcurrentGossip);
            }
            // The probe interval may be 0, which turns probe gating off.
            let cb = &self.cluster.circuit_breaker;
            if cb.enabled {
                if cb.failure_threshold == 0 {
                    return Err(ConfigError::ZeroFailureThreshold);
                }
                if cb.success_threshold == 0 {
                    return Err(ConfigError::ZeroSuccessThreshold);
                }
                if cb.open_duration_base_ms == 0 {
                    return Err(ConfigError::ZeroBackoffBase);
                }
                if cb.open_duration_max_ms == 0 {
                    return Err(ConfigError::ZeroBackoffMax);
                }
                if cb.open_duration_base_ms > cb.open_duration_max_ms {
                    return Err(
                        ConfigError::BackoffBaseAboveMax {
                            base: cb.open_duration_base_ms,
                            max: cb.open_duration_max_ms,
                        },
                    );
                }
            }
        }
        // Without a single instance the node can serve nothing of its own cookbook.
        if self.max_instances_per_node == 0 {
            return Err(ConfigError::ZeroInstanceCap);
        }
        // A timeout of zero elapses at once; it does not mean "none".
        if self.http.request_body_limit_bytes == 0 {
            return Err(ConfigError::ZeroBodyLimit);
        }
        if self.http.idle_timeout_seconds == 0 {
            return Err(ConfigError::ZeroIdleTimeout);
        }
        if self.http.body_read_timeout_ms == 0 {
            return Err(ConfigError::ZeroBodyReadTimeout);
        }
        if self.http.protocol_detect_timeout_ms == 0 {
            return Err(ConfigError::ZeroProtocolDetectTimeout);
        }
        if self.wedge_detector.enabled {
            if self.wedge_detector.window_ms == 0 {
                return Err(ConfigError::ZeroWedgeWindow);
            }
            if self.wedge_detector.sample_interval_ms == 0 {
                return Err(ConfigError::ZeroWedgeSampleInterval);
            }
            if self.wedge_detector.sample_interval_ms > self.wedge_detector.window_ms {
                return Err(
                    ConfigError::WedgeSampleAboveWindow {
                        sample: self.wedge_detector.sample_interval_ms,
                        window: self.wedge_detector.window_ms,
                    },
                );
            }
        }
        Ok(())
    }
}

pub const SERVER_TLS_DISABLED: &'static str = "Cluster TLS is enabled but Server TLS is disabled. Server TLS is required for mTLS \
    to work.";

pub const SERVER_TLS_MISSING: &'static str = "Cluster TLS is enabled but Server TLS is not configured.";

pub const NO_USABLE_PORTS: &'static str = "llama_cpp_ports is configured but provides no usable ports; specify a non-empty \
    `ports` list or at least one `ranges` entry, or omit llama_cpp_ports to use \
    OS-assigned ephemeral ports";

pub const ZERO_GOSSIP_INTERVAL: &'static str = "cluster.gossip_interval_seconds is 0, but cluster mode is enabled; the gossip loop \
    requires a non-zero interval (a zero interval panics the gossip task). Set \
    gossip_interval_seconds to at least 1.";

pub const ZERO_CONCURRENT_GOSSIP: &'static str = "cluster.max_concurrent_gossip is 0, but cluster mode is enabled; with no permits \
    every outbound gossip attempt times out and is skipped, so the node never gossips. \
    Set max_concurrent_gossip to at least 1, or disable cluster mode.";

pub const ZERO_FAILURE_THRESHOLD: &'static str = "cluster.circuit_breaker.failure_threshold is 0; the circuit would open without any \
    failures, blocking all traffic to a peer. Set it to at least 1, or disable the \
    circuit breaker.";

pub const ZERO_SUCCESS_THRESHOLD: &'static str = "cluster.circuit_breaker.success_threshold is 0; a half-open circuit would close \
    without a successful recovery probe. Set it to at least 1.";

pub const ZERO_BACKOFF_BASE: &'static str = "cluster.circuit_breaker.open_duration_base_ms is 0; the open-state backoff would \
    collapse to zero, so a failing peer is re-probed with no spacing. Set a positive \
    base backoff.";

pub const ZERO_BACKOFF_MAX: &'static str = "cluster.circuit_breaker.open_duration_max_ms is 0; a zero cap forces every backoff \
    to zero, so a failing peer is re-probed with no spacing. Set a positive maximum \
    backoff.";

pub const ZERO_INSTANCE_CAP: &'static str = "max_instances_per_node is 0; the node can never spawn a local llama-server instance, \
     so any model in its cookbook is unservable. In a cluster the node still routes \
    locally-known models to itself and times out instead of forwarding. Set \
    max_instances_per_node to at least 1.";

pub const ZERO_BODY_LIMIT: &'static str = "http.request_body_limit_bytes is 0; every request carrying a body would be rejected \
    as too large. Set a positive byte limit.";

pub const ZERO_IDLE_TIMEOUT: &'static str = "http.idle_timeout_seconds is 0; idle connections would be torn down the moment they \
    go idle, defeating HTTP keep-alive. Set a positive timeout.";

pub const ZERO_BODY_READ_TIMEOUT: &'static str = "http.body_read_timeout_ms is 0; a zero timeout elapses immediately, so every request \
     body read would time out. Set a positive timeout, or omit it for the default.";

pub const ZERO_PROTOCOL_DETECT_TIMEOUT: &'static str = "http.protocol_detect_timeout_ms is 0; a zero timeout elapses immediately, so every \
    connection's protocol detection would time out. Set a positive timeout, or omit it \
    for the default.";

pub const ZERO_WEDGE_WINDOW: &'static str = "wedge_detector.window_ms is 0; a zero window would flag an instance as wedged on its \
     first no-activity sample, killing legitimately-idle-between-tokens instances. Set a \
     positive window (e.g. 600000 for 10 minutes).";

pub const ZERO_WEDGE_SAMPLE_INTERVAL: &'static str = "wedge_detector.sample_interval_ms is 0; a zero interval elapses immediately and \
    would spin the sampler. Set a positive interval (e.g. 5000).";

pub const INVERTED_PORT_RANGE_A: &'static str = "llama_cpp_ports range has start ";

pub const INVERTED_PORT_RANGE_B: &'static str = " greater than end ";

pub const INVERTED_PORT_RANGE_C: &'static str = "; ranges are inclusive and must have start <= end";

pub const BACKOFF_BASE_ABOVE_MAX_A: &'static str = "cluster.circuit_breaker.open_duration_base_ms (";

pub const BACKOFF_BASE_ABOVE_MAX_B: &'static str = ") is greater than open_duration_max_ms (";

pub const BACKOFF_BASE_ABOVE_MAX_C: &'static str = "); the base backoff is immediately capped to the maximum, so the exponential backoff \
     never takes effect. Set base <= max.";

pub const WEDGE_SAMPLE_ABOVE_WINDOW_A: &'static str = "wedge_detector.sample_interval_ms (";

pub const WEDGE_SAMPLE_ABOVE_WINDOW_B: &'static str = ") is greater than window_ms (";

pub const WEDGE_SAMPLE_ABOVE_WINDOW_C: &'static str = "); the watchdog samples less often than the window it must confirm, so it could \
    never observe a sustained wedge. Set sample_interval_ms <= window_ms.";

/// The words for what is wrong.
pub open spec fn config_error_text(e: ConfigError) -> Seq<char> {
    match e {
        ConfigError::ServerTlsDisabled => SERVER_TLS_DISABLED@,
        ConfigError::ServerTlsMissing => SERVER_TLS_MISSING@,
        ConfigError::InvertedPortRange { start, end } => INVERTED_PORT_RANGE_A@ + decimal(start as nat) + INVERTED_PORT_RANGE_B@ + decimal(
            end as nat,
        ) + INVERTED_PORT_RANGE_C@,
        ConfigError::NoUsablePorts => NO_USABLE_PORTS@,
        ConfigError::ZeroGossipInterval => ZERO_GOSSIP_INTERVAL@,
        ConfigError::ZeroConcurrentGossip => ZERO_CONCURRENT_GOSSIP@,
        ConfigError::ZeroFailureThreshold => ZERO_FAILURE_THRESHOLD@,
        ConfigError::ZeroSuccessThreshold => ZERO_SUCCESS_THRESHOLD@,
        ConfigError::ZeroBackoffBase => ZERO_BACKOFF_BASE@,
        ConfigError::ZeroBackoffMax => ZERO_BACKOFF_MAX@,
        ConfigError::BackoffBaseAboveMax { base, max } => BACKOFF_BASE_ABOVE_MAX_A@ + decimal(base as nat) + BACKOFF_BASE_ABOVE_MAX_B@ + decimal(
            max as nat,
        ) + BACKOFF_BASE_ABOVE_MAX_C@,
        ConfigError::ZeroInstanceCap => ZERO_INSTANCE_CAP@,
        ConfigError::ZeroBodyLimit => ZERO_BODY_LIMIT@,
        ConfigError::ZeroIdleTimeout => ZERO_IDLE_TIMEOUT@,
        ConfigError::ZeroBodyReadTimeout => ZERO_BODY_READ_TIMEOUT@,
        ConfigError::ZeroProtocolDetectTimeout => ZERO_PROTOCOL_DETECT_TIMEOUT@,
        ConfigError::ZeroWedgeWindow => ZERO_WEDGE_WINDOW@,
        ConfigError::ZeroWedgeSampleInterval => ZERO_WEDGE_SAMPLE_INTERVAL@,
        ConfigError::WedgeSampleAboveWindow { sample, window } => WEDGE_SAMPLE_ABOVE_WINDOW_A@ + decimal(sample as nat) + WEDGE_SAMPLE_ABOVE_WINDOW_B@ + decimal(
            window as nat,
        ) + WEDGE_SAMPLE_ABOVE_WINDOW_C@,
    }
}

/// A text with two numbers in it.
pub fn around_numbers(a: &str, x: u64, b: &str, y: u64, c: &str) -> (r: String)
    ensures
        r@ == a@ + decimal(x as nat) + b@ + decimal(y as nat) + c@,
{
    let mut out = a.to_owned();
    push_decimal(&mut out, x);
    out.append(b);
    push_decimal(&mut out, y);
    out.append(c);
    assert(out@ =~= a@ + decimal(x as nat) + b@ + decimal(y as nat) + c@);
    out
}

impl ConfigError {
    /// What is wrong, and how to mend it.
    pub fn message(&self) -> (r: String)
        ensures
            r@ == config_error_text(*self),
    {
        match *self {
            ConfigError::ServerTlsDisabled => SERVER_TLS_DISABLED.to_owned(),
            ConfigError::ServerTlsMissing => SERVER_TLS_MISSING.to_owned(),
            ConfigError::InvertedPortRange { start, end } => around_numbers(
                INVERTED_PORT_RANGE_A,
                start as u64,
                INVERTED_PORT_RANGE_B,
                end as u64,
                INVERTED_PORT_RANGE_C,
            ),
            ConfigError::NoUsablePorts => NO_USABLE_PORTS.to_owned(),
            ConfigError::ZeroGossipInterval => ZERO_GOSSIP_INTERVAL.to_owned(),
            ConfigError::ZeroConcurrentGossip => ZERO_CONCURRENT_GOSSIP.to_owned(),
            ConfigError::ZeroFailureThreshold => ZERO_FAILURE_THRESHOLD.to_owned(),
            ConfigError::ZeroSuccessThreshold => ZERO_SUCCESS_THRESHOLD.to_owned(),
            ConfigError::ZeroBackoffBase => ZERO_BACKOFF_BASE.to_owned(),
            ConfigError::ZeroBackoffMax => ZERO_BACKOFF_MAX.to_owned(),
            ConfigError::BackoffBaseAboveMax { base, max } => around_numbers(
                BACKOFF_BASE_ABOVE_MAX_A,
                base as u64,
                BACKOFF_BASE_ABOVE_MAX_B,
                max as u64,
                BACKOFF_BASE_ABOVE_MAX_C,
            ),
            ConfigError::ZeroInstanceCap => ZERO_INSTANCE_CAP.to_owned(),
            ConfigError::ZeroBodyLimit => ZERO_BODY_LIMIT.to_owned(),
            ConfigError::ZeroIdleTimeout => ZERO_IDLE_TIMEOUT.to_owned(),
            ConfigError::ZeroBodyReadTimeout => ZERO_BODY_READ_TIMEOUT.to_owned(),
            ConfigError::ZeroProtocolDetectTimeout => ZERO_PROTOCOL_DETECT_TIMEOUT.to_owned(),
            ConfigError::ZeroWedgeWindow => ZERO_WEDGE_WINDOW.to_owned(),
            ConfigError::ZeroWedgeSampleInterval => ZERO_WEDGE_SAMPLE_INTERVAL.to_owned(),
            ConfigError::WedgeSampleAboveWindow { sample, window } => around_numbers(
                WEDGE_SAMPLE_ABOVE_WINDOW_A,
                sample as u64,
                WEDGE_SAMPLE_ABOVE_WINDOW_B,
                window as u64,
                WEDGE_SAMPLE_ABOVE_WINDOW_C,
            ),
        }
    }
}

/// A configuration that passes validation has none of the faults that only show at run time.
pub proof fn law_valid_config(c: NodeConfig)
    requires
        config_problem(c) is None,
    ensures
        c.cluster_tls is Some && c.cluster_tls->0.enabled ==> c.server_tls is Some
            && c.server_tls->0.enabled,
        c.llama_cpp_ports is Some && c.llama_cpp_ports->0.ranges is Some ==> forall|i: int|
            0 <= i < c.llama_cpp_ports->0.ranges->0@.len() ==> (
            #[trigger] c.llama_cpp_ports->0.ranges->0@[i]).start
                <= c.llama_cpp_ports->0.ranges->0@[i].end,
        c.llama_cpp_ports is Some ==> c.llama_cpp_ports->0.ports is Some
            && c.llama_cpp_ports->0.ports->0@.len() > 0 || c.llama_cpp_ports->0.ranges is Some
            && c.llama_cpp_ports->0.ranges->0@.len() > 0,
        c.cluster.enabled ==> c.cluster.gossip_interval_seconds > 0
            && c.cluster.max_concurrent_gossip > 0,
        c.cluster.enabled && c.cluster.circuit_breaker.enabled ==> {
            let cb = c.cluster.circuit_breaker;
            cb.failure_threshold > 0 && cb.success_threshold > 0 && 0 < cb.open_duration_base_ms
                <= cb.open_duration_max_ms
        },
        c.max_instances_per_node > 0,
        c.http.request_body_limit_bytes > 0,
        c.http.idle_timeout_seconds > 0,
        c.http.body_read_timeout_ms > 0,
        c.http.protocol_detect_timeout_ms > 0,
        c.wedge_detector.enabled ==> 0 < c.wedge_detector.sample_interval_ms
            <= c.wedge_detector.window_ms,
{
    if c.llama_cpp_ports is Some && c.llama_cpp_ports->0.ranges is Some {
        lemma_no_inverted_range(c.llama_cpp_ports->0.ranges->0@);
    }
}

proof fn lemma_no_inverted_range(ranges: Seq<PortRange>)
    requires
        inverted_range(ranges) is None,
    ensures
        forall|i: int|
            0 <= i < ranges.len() ==> (#[trigger] ranges[i]).start <= ranges[i].end,
    decreases ranges.len(),
{
    if ranges.len() > 0 {
        let rest = ranges.drop_first();
        lemma_no_inverted_range(rest);
        assert forall|i: int| 0 <= i < ranges.len() implies (#[trigger] ranges[i]).start
            <= ranges[i].end by {
            if i > 0 {
                assert(rest[i - 1] == ranges[i]);
            }
        }
    }
}

/// The configuration after secrets were merged.
pub open spec fn merged(c: NodeConfig, s: SecretsConfig) -> NodeConfig {
    NodeConfig {
        auth: if s.auth is Some {
            s.auth
        } else {
            c.auth
        },
        server_tls: if s.server_tls is Some {
            s.server_tls
        } else {
            c.server_tls
        },
        cluster_tls: if s.cluster_tls is Some {
            s.cluster_tls
        } else {
            c.cluster_tls
        },
        ..c
    }
}

/// Merging the same secrets twice is merging them once, and secrets that hold nothing change
/// nothing.
pub proof fn law_merge_secrets(c: NodeConfig, s: SecretsConfig)
    ensures
        merged(merged(c, s), s) == merged(c, s),
        s.auth is None && s.server_tls is None && s.cluster_tls is None ==> merged(c, s) == c,
{
}

/// The directory for keys: the configured one, with a leading `~/` replaced by the home directory
/// where there is one; else the default.
pub open spec fn config_dir_text(
    configured: Option<String>,
    home: Option<Seq<char>>,
    fallback: Seq<char>,
) -> Seq<char> {
    match configured {
        None => fallback,
        Some(s) => if begins_with(s@, "~/"@) && home is Some {
            joined_path(home->0, s@.skip(2))
        } else {
            s@
        },
    }
}

impl ClusterNoiseConfig {
    /// The directory for keys. `home` is the home directory, where it is known, and `fallback` the
    /// directory to use where none is configured.
    pub fn effective_config_dir(&self, home: Option<&str>, fallback: &str) -> (r: String)
        ensures
            r@ == config_dir_text(
                self.config_dir,
                match home {
                    Some(h) => Some(h@),
                    None => None,
                },
                fallback@,
            ),
    {
        match &self.config_dir {
            Some(s) => {
                if starts_with(s.as_str(), "~/") {
                    if let Some(h) = home {
                        proof {
                            reveal_strlit("~/");
                        }
                        let v = chars_of(s.as_str());
                        let rest = text_of(&v, 2, v.len());
                        assert(rest@ =~= s@.skip(2));
                        return join_path(h, rest.as_str());
                    }
                }
                s.clone()
            },
            None => fallback.to_owned(),
        }
    }

    /// The path of the private key: the configured one, else `node.key` in the directory for keys.
    pub fn effective_private_key_path(&self, config_dir: &str) -> (r: String)
        ensures
            r@ == match self.private_key_path {
                Some(p) => p@,
                None => joined_path(config_dir@, "node.key"@),
            },
    {
        match &self.private_key_path {
            Some(p) => p.clone(),
            None => join_path(config_dir, "node.key"),
        }
    }

    /// The path of the known peers: the configured one, else `known_peers` in the directory for
    /// keys.
    pub fn effective_known_peers_path(&self, config_dir: &str) -> (r: String)
        ensures
            r@ == match self.known_peers_path {
                Some(p) => p@,
                None => joined_path(config_dir@, "known_peers"@),
            },
    {
        match &self.known_peers_path {
            Some(p) => p.clone(),
            None => join_path(config_dir, "known_peers"),
        }
    }
}

/// A header of a request; its value is there if it is visible ASCII.
#[derive(Debug, Clone)]
pub struct Header {
    pub name: String,
    pub value: Option<String>,
}

/// The position of the first name that is `wanted`, or the number of names where there is none.
pub open spec fn name_position(names: Seq<Seq<char>>, wanted: Seq<char>) -> int
    decreases names.len(),
{
    if names.len() == 0 || names[0] == wanted {
        0
    } else {
        1 + name_position(names.drop_first(), wanted)
    }
}

/// The position of the first name that is `wanted`.
pub fn find_name(names: &Vec<String>, wanted: &str) -> (r: Option<usize>)
    ensures
        match r {
            Some(i) => i < names@.len() && i == name_position(texts(names@), wanted@),
            None => name_position(texts(names@), wanted@) == names@.len(),
        },
{
    let mut i: usize = 0;
    assert(texts(names@).skip(0) =~= texts(names@));
    while i < names.len()
        invariant
            i <= names@.len(),
            name_position(texts(names@), wanted@) == i + name_position(
                texts(names@).skip(i as int),
                wanted@,
            ),
        decreases names@.len() - i,
    {
        if same(names[i].as_str(), wanted) {
            return Some(i);
        }
        assert(texts(names@).skip(i as int).drop_first() =~= texts(names@).skip(i + 1));
        i = i + 1;
    }
    None
}

/// The names of headers in lower case.
pub open spec fn lowered_names(headers: Seq<Header>) -> Seq<Seq<char>> {
    headers.map_values(|h: Header| unicode_lowercase(h.name@))
}

/// The position of the first header with a name, in whatever case it is written, or the number of
/// headers.
pub open spec fn header_position(headers: Seq<Header>, name: Seq<char>) -> int {
    name_position(lowered_names(headers), unicode_lowercase(name))
}

/// The case in which the name of a header is written makes no difference.
pub proof fn law_header_ignores_case(headers: Seq<Header>, a: Seq<char>, b: Seq<char>)
    requires
        unicode_lowercase(a) == unicode_lowercase(b),
    ensures
        header_position(headers, a) == header_position(headers, b),
{
}

impl AuthConfig {
    /// The value of the first header whose name is the required one, in whatever case.
    pub fn get_header_value<'a>(&self, headers: &'a Vec<Header>) -> (r: Option<&'a str>)
        ensures
            ({
                let i = header_position(headers@, self.required_header@);
                match r {
                    Some(v) => i < headers@.len() && headers@[i].value is Some
                        && headers@[i].value->0@ == v@,
                    None => i == headers@.len() || 0 <= i < headers@.len()
                        && headers@[i].value is None,
                }
            }),
    {
        let wanted = to_lowercase(self.required_header.as_str());
        let mut names: Vec<String> = Vec::new();
        let mut i: usize = 0;
        while i < headers.len()
            invariant
                i <= headers@.len(),
                names@.len() == i,
                forall|j: int|
                    0 <= j < i ==> (#[trigger] names@[j])@ == unicode_lowercase(headers@[j].name@),
            decreases headers@.len() - i,
        {
            names.push(to_lowercase(headers[i].name.as_str()));
            i = i + 1;
        }
        assert(texts(names@) =~= lowered_names(headers@));
        match find_name(&names, wanted.as_str()) {
            Some(k) => match &headers[k].value {
                Some(v) => Some(v.as_str()),
                None => None,
            },
            None => None,
        }
    }
}

/// Whether the value of a header shows a key: as it is, or as a bearer token.
pub open spec fn shows_key(value: Seq<char>, key: Seq<char>) -> bool {
    value == key || value == "Bearer "@ + key
}

/// Whether a request with these headers is let in: the required header shows an allowed key, or no
/// key is asked for.
pub open spec fn admitted(auth: AuthConfig, headers: Seq<Header>) -> bool {
    let i = header_position(headers, auth.required_header@);
    !auth.enabled || (i < headers.len() && headers[i].value is Some && exists|k: int|
        0 <= k < auth.allowed_keys@.len() && shows_key(
            headers[i].value->0@,
            (#[trigger] auth.allowed_keys@[k])@,
        ))
}

/// Decides whether a request with these headers is let in.
pub fn check_api_key_auth(auth: &Option<AuthConfig>, headers: &Vec<Header>) -> (r: bool)
    ensures
        r == (auth is None || admitted(auth->0, headers@)),
{
    let keys = match auth {
        Some(keys) => keys,
        None => return true,
    };
    if !keys.enabled {
        return true;
    }
    let value = match keys.get_header_value(headers) {
        Some(value) => value,
        None => return false,
    };
    let ghost at = header_position(headers@, keys.required_header@);
    let mut k: usize = 0;
    while k < keys.allowed_keys.len()
        invariant
            auth == Some(*keys),
            at < headers@.len(),
            headers@[at].value is Some,
            headers@[at].value->0@ == value@,
            at == header_position(headers@, keys.required_header@),
            k <= keys.allowed_keys@.len(),
            forall|j: int|
                0 <= j < k ==> !shows_key(value@, (#[trigger] keys.allowed_keys@[j])@),
        decreases keys.allowed_keys@.len() - k,
    {
        let key = keys.allowed_keys[k].as_str();
        if same(value, key) || same(value, bearer(key).as_str()) {
            assert(shows_key(value@, keys.allowed_keys@[k as int]@));
            return true;
        }
        k = k + 1;
    }
    false
}

/// Where keys are asked for, nobody is let in without the required header.
pub proof fn law_no_entry_without_header(auth: AuthConfig, headers: Seq<Header>)
    requires
        auth.enabled,
        header_position(headers, auth.required_header@) >= headers.len(),
    ensures
        !admitted(auth, headers),
{
}

/// Which part of the configuration each message speaks of.
pub proof fn law_messages_name_the_setting()
    ensures
        begins_with(config_error_text(ConfigError::ServerTlsDisabled), "Cluster TLS is enabled but Server TLS is disabled."@),
        begins_with(config_error_text(ConfigError::ServerTlsMissing), "Cluster TLS is enabled but Server TLS is not configured."@),
        begins_with(config_error_text(ConfigError::NoUsablePorts), "llama_cpp_ports is configured but provides no usable ports;"@),
        begins_with(config_error_text(ConfigError::ZeroGossipInterval), "cluster.gossip_interval_seconds is 0,"@),
        begins_with(config_error_text(ConfigError::ZeroConcurrentGossip), "cluster.max_concurrent_gossip is 0,"@),
        begins_with(config_error_text(ConfigError::ZeroFailureThreshold), "cluster.circuit_breaker.failure_threshold is 0;"@),
        begins_with(config_error_text(ConfigError::ZeroSuccessThreshold), "cluster.circuit_breaker.success_threshold is 0;"@),
        begins_with(config_error_text(ConfigError::ZeroBackoffBase), "cluster.circuit_breaker.open_duration_base_ms is 0;"@),
        begins_with(config_error_text(ConfigError::ZeroBackoffMax), "cluster.circuit_breaker.open_duration_max_ms is 0;"@),
        begins_with(config_error_text(ConfigError::ZeroInstanceCap), "max_instances_per_node is 0;"@),
        begins_with(config_error_text(ConfigError::ZeroBodyLimit), "http.request_body_limit_bytes is 0;"@),
        begins_with(config_error_text(ConfigError::ZeroIdleTimeout), "http.idle_timeout_seconds is 0;"@),
        begins_with(config_error_text(ConfigError::ZeroBodyReadTimeout), "http.body_read_timeout_ms is 0;"@),
        begins_with(config_error_text(ConfigError::ZeroProtocolDetectTimeout), "http.protocol_detect_timeout_ms is 0;"@),
        begins_with(config_error_text(ConfigError::ZeroWedgeWindow), "wedge_detector.window_ms is 0;"@),
        begins_with(config_error_text(ConfigError::ZeroWedgeSampleInterval), "wedge_detector.sample_interval_ms is 0;"@),
{
    assert(begins_with(config_error_text(ConfigError::ServerTlsDisabled), "Cluster TLS is enabled but Server TLS is disabled."@)) by {
        reveal_strlit("Cluster TLS is enabled but Server TLS is disabled. Server TLS is required for mTLS to work.");
        reveal_strlit("Cluster TLS is enabled but Server TLS is disabled.");
        assert(config_error_text(ConfigError::ServerTlsDisabled).subrange(0, 50) =~= "Cluster TLS is enabled but Server TLS is disabled."@);
    }
    assert(begins_with(config_error_text(ConfigError::ServerTlsMissing), "Cluster TLS is enabled but Server TLS is not configured."@)) by {
        reveal_strlit("Cluster TLS is enabled but Server TLS is not configured.");
        reveal_strlit("Cluster TLS is enabled but Server TLS is not configured.");
        assert(config_error_text(ConfigError::ServerTlsMissing).subrange(0, 56) =~= "Cluster TLS is enabled but Server TLS is not configured."@);
    }
    assert(begins_with(config_error_text(ConfigError::NoUsablePorts), "llama_cpp_ports is configured but provides no usable ports;"@)) by {
        reveal_strlit("llama_cpp_ports is configured but provides no usable ports; specify a non-empty `ports` list or at least one `ranges` entry, or omit llama_cpp_ports to use OS-assigned ephemeral ports");
        reveal_strlit("llama_cpp_ports is configured but provides no usable ports;");
        assert(config_error_text(ConfigError::NoUsablePorts).subrange(0, 59) =~= "llama_cpp_ports is configured but provides no usable ports;"@);
    }
    assert(begins_with(config_error_text(ConfigError::ZeroGossipInterval), "cluster.gossip_interval_seconds is 0,"@)) by {
        reveal_strlit("cluster.gossip_interval_seconds is 0, but cluster mode is enabled; the gossip loop requires a non-zero interval (a zero interval panics the gossip task). Set gossip_interval_seconds to at least 1.");
        reveal_strlit("cluster.gossip_interval_seconds is 0,");
        assert(config_error_text(ConfigError::ZeroGossipInterval).subrange(0, 37) =~= "cluster.gossip_interval_seconds is 0,"@);
    }
    assert(begins_with(config_error_text(ConfigError::ZeroConcurrentGossip), "cluster.max_concurrent_gossip is 0,"@)) by {
        reveal_strlit("cluster.max_concurrent_gossip is 0, but cluster mode is enabled; with no permits every outbound gossip attempt times out and is skipped, so the node never gossips. Set max_concurrent_gossip to at least 1, or disable cluster mode.");
        reveal_strlit("cluster.max_concurrent_gossip is 0,");
        assert(config_error_text(ConfigError::ZeroConcurrentGossip).subrange(0, 35) =~= "cluster.max_concurrent_gossip is 0,"@);
    }
    assert(begins_with(config_error_text(ConfigError::ZeroFailureThreshold), "cluster.circuit_breaker.failure_threshold is 0;"@)) by {
        reveal_strlit("cluster.circuit_breaker.failure_threshold is 0; the circuit would open without any failures, blocking all traffic to a peer. Set it to at least 1, or disable the circuit breaker.");
        reveal_strlit("cluster.circuit_breaker.failure_threshold is 0;");
        assert(config_error_text(ConfigError::ZeroFailureThreshold).subrange(0, 47) =~= "cluster.circuit_breaker.failure_threshold is 0;"@);
    }
    assert(begins_with(config_error_text(ConfigError::ZeroSuccessThreshold), "cluster.circuit_breaker.success_threshold is 0;"@)) by {
        reveal_strlit("cluster.circuit_breaker.success_threshold is 0; a half-open circuit would close without a successful recovery probe. Set it to at least 1.");
        reveal_strlit("cluster.circuit_breaker.success_threshold is 0;");
        assert(config_error_text(ConfigError::ZeroSuccessThreshold).subrange(0, 47) =~= "cluster.circuit_breaker.success_threshold is 0;"@);
    }
    assert(begins_with(config_error_text(ConfigError::ZeroBackoffBase), "cluster.circuit_breaker.open_duration_base_ms is 0;"@)) by {
        reveal_strlit("cluster.circuit_breaker.open_duration_base_ms is 0; the open-state backoff would collapse to zero, so a failing peer is re-probed with no spacing. Set a positive base backoff.");
        reveal_strlit("cluster.circuit_breaker.open_duration_base_ms is 0;");
        assert(config_error_text(ConfigError::ZeroBackoffBase).subrange(0, 51) =~= "cluster.circuit_breaker.open_duration_base_ms is 0;"@);
    }
    assert(begins_with(config_error_text(ConfigError::ZeroBackoffMax), "cluster.circuit_breaker.open_duration_max_ms is 0;"@)) by {
        reveal_strlit("cluster.circuit_breaker.open_duration_max_ms is 0; a zero cap forces every backoff to zero, so a failing peer is re-probed with no spacing. Set a positive maximum backoff.");
        reveal_strlit("cluster.circuit_breaker.open_duration_max_ms is 0;");
        assert(config_error_text(ConfigError::ZeroBackoffMax).subrange(0, 50) =~= "cluster.circuit_breaker.open_duration_max_ms is 0;"@);
    }
    assert(begins_with(config_error_text(ConfigError::ZeroInstanceCap), "max_instances_per_node is 0;"@)) by {
        reveal_strlit("max_instances_per_node is 0; the node can never spawn a local llama-server instance, so any model in its cookbook is unservable. In a cluster the node still routes locally-known models to itself and times out instead of forwarding. Set max_instances_per_node to at least 1.");
        reveal_strlit("max_instances_per_node is 0;");
        assert(config_error_text(ConfigError::ZeroInstanceCap).subrange(0, 28) =~= "max_instances_per_node is 0;"@);
    }
    assert(begins_with(config_error_text(ConfigError::ZeroBodyLimit), "http.request_body_limit_bytes is 0;"@)) by {
        reveal_strlit("http.request_body_limit_bytes is 0; every request carrying a body would be rejected as too large. Set a positive byte limit.");
        reveal_strlit("http.request_body_limit_bytes is 0;");
        assert(config_error_text(ConfigError::ZeroBodyLimit).subrange(0, 35) =~= "http.request_body_limit_bytes is 0;"@);
    }
    assert(begins_with(config_error_text(ConfigError::ZeroIdleTimeout), "http.idle_timeout_seconds is 0;"@)) by {
        reveal_strlit("http.idle_timeout_seconds is 0; idle connections would be torn down the moment they go idle, defeating HTTP keep-alive. Set a positive timeout.");
        reveal_strlit("http.idle_timeout_seconds is 0;");
        assert(config_error_text(ConfigError::ZeroIdleTimeout).subrange(0, 31) =~= "http.idle_timeout_seconds is 0;"@);
    }
    assert(begins_with(config_error_text(ConfigError::ZeroBodyReadTimeout), "http.body_read_timeout_ms is 0;"@)) by {
        reveal_strlit("http.body_read_timeout_ms is 0; a zero timeout elapses immediately, so every request body read would time out. Set a positive timeout, or omit it for the default.");
        reveal_strlit("http.body_read_timeout_ms is 0;");
        assert(config_error_text(ConfigError::ZeroBodyReadTimeout).subrange(0, 31) =~= "http.body_read_timeout_ms is 0;"@);
    }
    assert(begins_with(config_error_text(ConfigError::ZeroProtocolDetectTimeout), "http.protocol_detect_timeout_ms is 0;"@)) by {
        reveal_strlit("http.protocol_detect_timeout_ms is 0; a zero timeout elapses immediately, so every connection's protocol detection would time out. Set a positive timeout, or omit it for the default.");
        reveal_strlit("http.protocol_detect_timeout_ms is 0;");
        assert(config_error_text(ConfigError::ZeroProtocolDetectTimeout).subrange(0, 37) =~= "http.protocol_detect_timeout_ms is 0;"@);
    }
    assert(begins_with(config_error_text(ConfigError::ZeroWedgeWindow), "wedge_detector.window_ms is 0;"@)) by {
        reveal_strlit("wedge_detector.window_ms is 0; a zero window would flag an instance as wedged on its first no-activity sample, killing legitimately-idle-between-tokens instances. Set a positive window (e.g. 600000 for 10 minutes).");
        reveal_strlit("wedge_detector.window_ms is 0;");
        assert(config_error_text(ConfigError::ZeroWedgeWindow).subrange(0, 30) =~= "wedge_detector.window_ms is 0;"@);
    }
    assert(begins_with(config_error_text(ConfigError::ZeroWedgeSampleInterval), "wedge_detector.sample_interval_ms is 0;"@)) by {
        reveal_strlit("wedge_detector.sample_interval_ms is 0; a zero interval elapses immediately and would spin the sampler. Set a positive interval (e.g. 5000).");
        reveal_strlit("wedge_detector.sample_interval_ms is 0;");
        assert(config_error_text(ConfigError::ZeroWedgeSampleInterval).subrange(0, 39) =~= "wedge_detector.sample_interval_ms is 0;"@);
    }
}

/// Messages about two numbers tell both, the one that is too large first.
pub proof fn law_messages_tell_the_numbers(start: u16, end: u16, a: u64, b: u64)
    ensures
        config_error_text(ConfigError::InvertedPortRange { start, end })
            == "llama_cpp_ports range has start "@ + decimal(start as nat) + " greater than end "@
            + decimal(end as nat) + "; ranges are inclusive and must have start <= end"@,
        config_error_text(ConfigError::BackoffBaseAboveMax { base: a, max: b })
            == "cluster.circuit_breaker.open_duration_base_ms ("@ + decimal(a as nat)
            + ") is greater than open_duration_max_ms ("@ + decimal(b as nat)
            + "); the base backoff is immediately capped to the maximum, so the exponential backoff never takes effect. Set base <= max."@,
        config_error_text(ConfigError::WedgeSampleAboveWindow { sample: a, window: b })
            == "wedge_detector.sample_interval_ms ("@ + decimal(a as nat)
            + ") is greater than window_ms ("@ + decimal(b as nat)
            + "); the watchdog samples less often than the window it must confirm, so it could never observe a sustained wedge. Set sample_interval_ms <= window_ms."@,
{
}

/// A configuration has no fault exactly if it has none of those that show at run time.
pub proof fn law_sound_config_passes(c: NodeConfig)
    requires
        c.cluster_tls is Some && c.cluster_tls->0.enabled ==> c.server_tls is Some
            && c.server_tls->0.enabled,
        c.llama_cpp_ports is Some && c.llama_cpp_ports->0.ranges is Some ==> forall|i: int|
            0 <= i < c.llama_cpp_ports->0.ranges->0@.len() ==> (
            #[trigger] c.llama_cpp_ports->0.ranges->0@[i]).start
                <= c.llama_cpp_ports->0.ranges->0@[i].end,
        c.llama_cpp_ports is Some ==> c.llama_cpp_ports->0.ports is Some
            && c.llama_cpp_ports->0.ports->0@.len() > 0 || c.llama_cpp_ports->0.ranges is Some
            && c.llama_cpp_ports->0.ranges->0@.len() > 0,
        c.cluster.enabled ==> c.cluster.gossip_interval_seconds > 0
            && c.cluster.max_concurrent_gossip > 0,
        c.cluster.enabled && c.cluster.circuit_breaker.enabled ==> {
            let cb = c.cluster.circuit_breaker;
            cb.failure_threshold > 0 && cb.success_threshold > 0 && 0 < cb.open_duration_base_ms
                <= cb.open_duration_max_ms
        },
        c.max_instances_per_node > 0,
        c.http.request_body_limit_bytes > 0,
        c.http.idle_timeout_seconds > 0,
        c.http.body_read_timeout_ms > 0,
        c.http.protocol_detect_timeout_ms > 0,
        c.wedge_detector.enabled ==> 0 < c.wedge_detector.sample_interval_ms
            <= c.wedge_detector.window_ms,
    ensures
        config_problem(c) is None,
        check_result(config_problem(c)) == Ok::<(), ConfigError>(()),
{
    if c.llama_cpp_ports is Some && c.llama_cpp_ports->0.ranges is Some {
        lemma_ranges_in_order(c.llama_cpp_ports->0.ranges->0@);
    }
}

proof fn lemma_ranges_in_order(ranges: Seq<PortRange>)
    requires
        forall|i: int|
            0 <= i < ranges.len() ==> (#[trigger] ranges[i]).start <= ranges[i].end,
    ensures
        inverted_range(ranges) is None,
    decreases ranges.len(),
{
    if ranges.len() > 0 {
        let rest = ranges.drop_first();
        assert forall|i: int| 0 <= i < rest.len() implies (#[trigger] rest[i]).start
            <= rest[i].end by {
            assert(rest[i] == ranges[i + 1]);
        }
        assert(ranges[0].start <= ranges[0].end);
        lemma_ranges_in_order(rest);
    }
}

/// Of several ranges that end before they start, the first is reported.
pub proof fn law_first_inverted_range(good: Seq<PortRange>, bad: PortRange, more: Seq<PortRange>)
    requires
        forall|i: int| 0 <= i < good.len() ==> (#[trigger] good[i]).start <= good[i].end,
        bad.start > bad.end,
    ensures
        inverted_range(good + seq![bad] + more) == Some(
            ConfigError::InvertedPortRange { start: bad.start, end: bad.end },
        ),
    decreases good.len(),
{
    let all = good + seq![bad] + more;
    if good.len() > 0 {
        assert(all[0] == good[0]);
        assert(all.drop_first() =~= good.drop_first() + seq![bad] + more);
        assert forall|i: int| 0 <= i < good.drop_first().len() implies (
        #[trigger] good.drop_first()[i]).start <= good.drop_first()[i].end by {
            assert(good.drop_first()[i] == good[i + 1]);
        }
        law_first_inverted_range(good.drop_first(), bad, more);
    } else {
        assert(all[0] == bad);
    }
}

/// What is wrong with TLS, with ports and with instances, and that the first of these counts.
pub proof fn law_faults_of_tls_and_ports(c: NodeConfig)
    ensures
        config_problem(c) == Some(ConfigError::ServerTlsMissing) <==> c.cluster_tls is Some
            && c.cluster_tls->0.enabled && c.server_tls is None,
        config_problem(c) == Some(ConfigError::ServerTlsDisabled) <==> c.cluster_tls is Some
            && c.cluster_tls->0.enabled && c.server_tls is Some && !c.server_tls->0.enabled,
        (c.cluster_tls is None || !c.cluster_tls->0.enabled) && c.llama_cpp_ports is Some && (
        c.llama_cpp_ports->0.ports is None || c.llama_cpp_ports->0.ports->0@.len() == 0) && (
        c.llama_cpp_ports->0.ranges is None || c.llama_cpp_ports->0.ranges->0@.len() == 0)
            ==> config_problem(c) == Some(ConfigError::NoUsablePorts),
        (c.cluster_tls is None || !c.cluster_tls->0.enabled) && c.llama_cpp_ports is None
            && !c.cluster.enabled && c.max_instances_per_node == 0 ==> config_problem(c) == Some(
            ConfigError::ZeroInstanceCap,
        ),
{
    if c.llama_cpp_ports is Some && c.llama_cpp_ports->0.ranges is Some {
        lemma_inverted_range_kind(c.llama_cpp_ports->0.ranges->0@);
    }
}

proof fn lemma_inverted_range_kind(ranges: Seq<PortRange>)
    ensures
        inverted_range(ranges) is Some ==> inverted_range(ranges)->0 is InvertedPortRange,
    decreases ranges.len(),
{
    if ranges.len() > 0 {
        lemma_inverted_range_kind(ranges.drop_first());
    }
}

/// What is wrong with the cluster, with its breaker, with the HTTP server and with the watchdog.
pub proof fn law_faults_by_setting(
    cluster: ClusterConfig,
    cb: CircuitBreakerConfig,
    http: HttpConfig,
    wedge: WedgeDetectorConfig,
    base: u64,
    max: u64,
)
    ensures
        !cluster.enabled ==> cluster_problem(cluster) is None,
        cluster_problem(cluster) == Some(ConfigError::ZeroGossipInterval) <==> cluster.enabled
            && cluster.gossip_interval_seconds == 0,
        cluster_problem(cluster) == Some(ConfigError::ZeroConcurrentGossip) <==> cluster.enabled
            && cluster.gossip_interval_seconds > 0 && cluster.max_concurrent_gossip == 0,
        cluster.enabled && cluster.gossip_interval_seconds > 0 && cluster.max_concurrent_gossip > 0
            ==> cluster_problem(cluster) == breaker_problem(cluster.circuit_breaker),
        !cb.enabled ==> breaker_problem(cb) is None,
        breaker_problem(cb) == Some(ConfigError::ZeroFailureThreshold) <==> cb.enabled
            && cb.failure_threshold == 0,
        breaker_problem(cb) == Some(ConfigError::ZeroSuccessThreshold) <==> cb.enabled
            && cb.failure_threshold > 0 && cb.success_threshold == 0,
        breaker_problem(cb) == Some(ConfigError::ZeroBackoffBase) <==> cb.enabled
            && cb.failure_threshold > 0 && cb.success_threshold > 0 && cb.open_duration_base_ms
            == 0,
        breaker_problem(cb) == Some(ConfigError::ZeroBackoffMax) <==> cb.enabled
            && cb.failure_threshold > 0 && cb.success_threshold > 0 && cb.open_duration_base_ms > 0
            && cb.open_duration_max_ms == 0,
        breaker_problem(cb) == Some(ConfigError::BackoffBaseAboveMax { base, max }) <==> cb.enabled
            && cb.failure_threshold > 0 && cb.success_threshold > 0 && cb.open_duration_base_ms
            == base && cb.open_duration_max_ms == max && 0 < max < base,
        http_problem(http) == Some(ConfigError::ZeroBodyLimit) <==> http.request_body_limit_bytes
            == 0,
        http_problem(http) == Some(ConfigError::ZeroIdleTimeout) <==> http.request_body_limit_bytes
            > 0 && http.idle_timeout_seconds == 0,
        http_problem(http) == Some(ConfigError::ZeroBodyReadTimeout)
            <==> http.request_body_limit_bytes > 0 && http.idle_timeout_seconds > 0
            && http.body_read_timeout_ms == 0,
        http_problem(http) == Some(ConfigError::ZeroProtocolDetectTimeout)
            <==> http.request_body_limit_bytes > 0 && http.idle_timeout_seconds > 0
            && http.body_read_timeout_ms > 0 && http.protocol_detect_timeout_ms == 0,
        !wedge.enabled ==> wedge_problem(wedge) is None,
        wedge_problem(wedge) == Some(ConfigError::ZeroWedgeWindow) <==> wedge.enabled
            && wedge.window_ms == 0,
        wedge_problem(wedge) == Some(ConfigError::ZeroWedgeSampleInterval) <==> wedge.enabled
            && wedge.window_ms > 0 && wedge.sample_interval_ms == 0,
        wedge_problem(wedge) == Some(
            ConfigError::WedgeSampleAboveWindow { sample: base, window: max },
        ) <==> wedge.enabled && wedge.sample_interval_ms == base && wedge.window_ms == max && 0
            < max < base,
{
}

/// A fault of the cluster, of the HTTP server or of the watchdog is the fault of a configuration
/// in which everything that is checked before it is sound, and never before that.
pub proof fn law_order_of_faults(c: NodeConfig)
    requires
        c.cluster_tls is Some && c.cluster_tls->0.enabled ==> c.server_tls is Some
            && c.server_tls->0.enabled,
        c.llama_cpp_ports is Some && c.llama_cpp_ports->0.ranges is Some ==> forall|i: int|
            0 <= i < c.llama_cpp_ports->0.ranges->0@.len() ==> (
            #[trigger] c.llama_cpp_ports->0.ranges->0@[i]).start
                <= c.llama_cpp_ports->0.ranges->0@[i].end,
        c.llama_cpp_ports is Some ==> c.llama_cpp_ports->0.ports is Some
            && c.llama_cpp_ports->0.ports->0@.len() > 0 || c.llama_cpp_ports->0.ranges is Some
            && c.llama_cpp_ports->0.ranges->0@.len() > 0,
    ensures
        cluster_problem(c.cluster) is Some ==> config_problem(c) == cluster_problem(c.cluster),
        cluster_problem(c.cluster) is None && c.max_instances_per_node == 0 ==> config_problem(c)
            == Some(ConfigError::ZeroInstanceCap),
        cluster_problem(c.cluster) is None && c.max_instances_per_node > 0 && http_problem(
            c.http,
        ) is Some ==> config_problem(c) == http_problem(c.http),
        cluster_problem(c.cluster) is None && c.max_instances_per_node > 0 && http_problem(
            c.http,
        ) is None ==> config_problem(c) == wedge_problem(c.wedge_detector),
        config_problem(c) is Some <==> check_result(config_problem(c)) is Err,
        config_problem(c) is Some ==> check_result(config_problem(c)) == Err::<(), ConfigError>(
            config_problem(c)->0,
        ),
{
    if c.llama_cpp_ports is Some && c.llama_cpp_ports->0.ranges is Some {
        lemma_ranges_in_order(c.llama_cpp_ports->0.ranges->0@);
    }
}

/// With sound TLS the ports are looked at next: the first range that ends before it starts is
/// reported, and else that there are none.
pub proof fn law_faults_of_ports(
    c: NodeConfig,
    good: Seq<PortRange>,
    bad: PortRange,
    more: Seq<PortRange>,
)
    requires
        c.cluster_tls is Some && c.cluster_tls->0.enabled ==> c.server_tls is Some
            && c.server_tls->0.enabled,
        c.llama_cpp_ports is Some,
        forall|i: int| 0 <= i < good.len() ==> (#[trigger] good[i]).start <= good[i].end,
        bad.start > bad.end,
    ensures
        c.llama_cpp_ports->0.ranges is Some && c.llama_cpp_ports->0.ranges->0@ == good + seq![bad]
            + more ==> config_problem(c) == Some(
            ConfigError::InvertedPortRange { start: bad.start, end: bad.end },
        ),
        (c.llama_cpp_ports->0.ports is None || c.llama_cpp_ports->0.ports->0@.len() == 0) && (
        c.llama_cpp_ports->0.ranges is None || c.llama_cpp_ports->0.ranges->0@.len() == 0)
            ==> config_problem(c) == Some(ConfigError::NoUsablePorts),
{
    law_first_inverted_range(good, bad, more);
}

/// The deprecation of TLS between nodes is told exactly where it is on together with Noise.
pub proof fn law_when_tls_is_deprecated(c: NodeConfig)
    ensures
        c.cluster_tls is None ==> !tls_beside_noise(c),
        c.cluster_tls is Some ==> (tls_beside_noise(c) <==> c.cluster_tls->0.enabled
            && c.cluster.noise.enabled),
{
}

/// Each of the secrets takes the place of what the configuration says, and one that is missing
/// leaves it; nothing else changes.
pub proof fn law_secrets_take_their_places(c: NodeConfig, s: SecretsConfig)
    ensures
        s.auth is Some ==> merged(c, s).auth == s.auth,
        s.auth is None ==> merged(c, s).auth == c.auth,
        s.server_tls is Some ==> merged(c, s).server_tls == s.server_tls,
        s.server_tls is None ==> merged(c, s).server_tls == c.server_tls,
        s.cluster_tls is Some ==> merged(c, s).cluster_tls == s.cluster_tls,
        s.cluster_tls is None ==> merged(c, s).cluster_tls == c.cluster_tls,
        (NodeConfig {
            auth: c.auth,
            server_tls: c.server_tls,
            cluster_tls: c.cluster_tls,
            ..merged(c, s)
        }) == c,
{
}

/// A directory that begins with `~/` stands in the home directory, where there is one; any other
/// stays as it is written; and only where none is written the default is taken.
pub proof fn law_directory_for_keys(
    written: String,
    rest: Seq<char>,
    home: Seq<char>,
    known: Option<Seq<char>>,
    fallback: Seq<char>,
)
    ensures
        config_dir_text(None, known, fallback) == fallback,
        config_dir_text(Some(written), None, fallback) == written@,
        written@ == seq!['~', '/'] + rest ==> config_dir_text(Some(written), Some(home), fallback)
            == joined_path(home, rest),
        written@.len() < 2 || written@[0] != '~' || written@[1] != '/' ==> config_dir_text(
            Some(written),
            known,
            fallback,
        ) == written@,
{
    reveal_strlit("~/");
    assert("~/"@ =~= seq!['~', '/']);
    if written@ == seq!['~', '/'] + rest {
        assert(written@.subrange(0, 2) =~= "~/"@);
        assert(written@.skip(2) =~= rest);
    }
    if begins_with(written@, "~/"@) {
        assert(written@.subrange(0, 2)[0] == '~');
        assert(written@.subrange(0, 2)[1] == '/');
    }
}

proof fn lemma_name_position(names: Seq<Seq<char>>, wanted: Seq<char>)
    ensures
        0 <= name_position(names, wanted) <= names.len(),
        name_position(names, wanted) < names.len() ==> names[name_position(names, wanted)]
            == wanted,
        forall|j: int| 0 <= j < name_position(names, wanted) ==> names[j] != wanted,
    decreases names.len(),
{
    if names.len() > 0 && names[0] != wanted {
        let rest = names.drop_first();
        lemma_name_position(rest, wanted);
        assert forall|j: int| 0 <= j < name_position(names, wanted) implies names[j] != wanted by {
            if j > 0 {
                assert(rest[j - 1] == names[j]);
            }
        }
    }
}

/// The header that counts is the first whose name is the wanted one, apart from case.
pub proof fn law_which_header_counts(headers: Seq<Header>, name: Seq<char>, i: int)
    requires
        0 <= i < headers.len(),
        unicode_lowercase(headers[i].name@) == unicode_lowercase(name),
        forall|j: int|
            0 <= j < i ==> unicode_lowercase((#[trigger] headers[j]).name@) != unicode_lowercase(
                name,
            ),
    ensures
        header_position(headers, name) == i,
{
    let names = lowered_names(headers);
    lemma_name_position(names, unicode_lowercase(name));
    let p = header_position(headers, name);
    assert(names[i] == unicode_lowercase(headers[i].name@));
    if p < i {
        assert(names[p] == unicode_lowercase(headers[p].name@));
    }
}

/// Where keys are asked for, a request is let in exactly if the first header of the required name
/// has for its value one of the allowed keys, alone or after `Bearer ` and one blank. Where none is
/// asked for, everyone is let in.
pub proof fn law_who_is_let_in(auth: AuthConfig, headers: Seq<Header>, i: int, k: int)
    ensures
        !auth.enabled ==> admitted(auth, headers),
        auth.enabled && (forall|j: int|
            0 <= j < headers.len() ==> unicode_lowercase((#[trigger] headers[j]).name@)
                != unicode_lowercase(auth.required_header@)) ==> !admitted(auth, headers),
        auth.enabled && 0 <= i < headers.len() && unicode_lowercase(headers[i].name@)
            == unicode_lowercase(auth.required_header@) && (forall|j: int|
            0 <= j < i ==> unicode_lowercase((#[trigger] headers[j]).name@) != unicode_lowercase(
                auth.required_header@,
            )) ==> {
            &&& headers[i].value is None ==> !admitted(auth, headers)
            &&& headers[i].value is Some && 0 <= k < auth.allowed_keys@.len() && (
            headers[i].value->0@ == auth.allowed_keys@[k]@ || headers[i].value->0@ == seq![
                'B',
                'e',
                'a',
                'r',
                'e',
                'r',
                ' ',
            ] + auth.allowed_keys@[k]@) ==> admitted(auth, headers)
            &&& headers[i].value is Some && (forall|j: int|
                0 <= j < auth.allowed_keys@.len() ==> headers[i].value->0@ != (
                #[trigger] auth.allowed_keys@[j])@ && headers[i].value->0@ != seq![
                    'B',
                    'e',
                    'a',
                    'r',
                    'e',
                    'r',
                    ' ',
                ] + auth.allowed_keys@[j]@) ==> !admitted(auth, headers)
        },
{
    reveal_strlit("Bearer ");
    assert("Bearer "@ =~= seq!['B', 'e', 'a', 'r', 'e', 'r', ' ']);
    let names = lowered_names(headers);
    let wanted = unicode_lowercase(auth.required_header@);
    lemma_name_position(names, wanted);
    let p = header_position(headers, auth.required_header@);
    if p < headers.len() {
        assert(names[p] == unicode_lowercase(headers[p].name@));
    }
    if 0 <= i < headers.len() && unicode_lowercase(headers[i].name@) == wanted && (forall|j: int|
        0 <= j < i ==> unicode_lowercase((#[trigger] headers[j]).name@) != wanted) {
        law_which_header_counts(headers, auth.required_header@, i);
        if headers[i].value is Some && 0 <= k < auth.allowed_keys@.len() && (headers[i].value->0@
            == auth.allowed_keys@[k]@ || headers[i].value->0@ == "Bearer "@
            + auth.allowed_keys@[k]@) {
            assert(shows_key(headers[i].value->0@, auth.allowed_keys@[k]@));
        }
    }
}

} // verus!
