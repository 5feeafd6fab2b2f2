//! Counters of a node and of the launch arguments it serves, and their snapshots.
use vstd::prelude::*;
use std::collections::VecDeque;
use crate::build_manager::BuildStatus;
use crate::clock::utc_now_rfc3339;
use crate::instance::ParsedModelParams;
use crate::paths::texts;
use crate::sort::{sort_numbers, sorted_numbers};
use crate::string_map::{
    distinct_keys, entries_map, has_key, lemma_position, lemma_push_entry,
    lemma_same_keys, lemma_update_value, position, StringMap,
};
use crate::text::same;

verus! {

/// How many latencies are kept for the percentile.
pub const MAX_LATENCY_SAMPLES: usize = 100;

/// What a startup log said of the model, and the version of llama.cpp that wrote it.
#[derive(Debug)]
pub struct PersistedParsedParams {
    pub params: ParsedModelParams,
    /// None while no version was known.
    pub llama_cpp_version: Option<String>,
}

impl Clone for PersistedParsedParams {
    fn clone(&self) -> (r: Self)
        ensures
            r == *self,
    {
        PersistedParsedParams {
            params: self.params.clone(),
            llama_cpp_version: self.llama_cpp_version.clone(),
        }
    }
}

/// What is counted for one set of launch arguments.
#[derive(Debug)]
pub struct HashMetrics {
    pub requests_total: u64,
    pub errors_total: u64,
    pub tokens_generated_total: u64,
    pub total_latency_ms: u64,
    /// The last latencies, the newest last.
    pub latency_samples: VecDeque<u64>,
    pub peak_vram_mb: u64,
    pub peak_sysmem_mb: u64,
    pub sample_count: u64,
    pub last_memory_update: String,
    /// The names under which these arguments are known.
    pub display_names: Vec<String>,
    /// What the last startup log said. The hash pins it to the arguments; the version beside it
    /// pins it to the binary.
    pub parsed_params: Option<PersistedParsedParams>,
}

/// The larger of two numbers.
pub open spec fn larger(a: u64, b: u64) -> u64 {
    if a >= b {
        a
    } else {
        b
    }
}

/// The sum of two counters, which starts again from zero when it is full.
pub open spec fn counted(a: u64, b: u64) -> u64 {
    ((a + b) % 0x1_0000_0000_0000_0000) as u64
}

fn count(a: u64, b: u64) -> (r: u64)
    ensures
        r == counted(a, b),
{
    a.wrapping_add(b)
}

/// One less, but not less than zero.
pub open spec fn one_less(a: u64) -> u64 {
    if a == 0 {
        0
    } else {
        (a - 1) as u64
    }
}

/// The last latencies after one more.
pub open spec fn with_sample(samples: Seq<u64>, ms: u64) -> Seq<u64> {
    if samples.len() >= MAX_LATENCY_SAMPLES {
        samples.drop_first().push(ms)
    } else {
        samples.push(ms)
    }
}

/// The 95th percentile of some numbers: of `n` sorted ones the one at `(n - 1) * 0.95`, rounded
/// down; 0 of none.
pub open spec fn percentile_95(samples: Seq<u64>) -> u64 {
    if samples.len() == 0 {
        0
    } else {
        sorted_numbers(samples)[(samples.len() - 1) * 95 / 100]
    }
}

/// Nothing counted.
pub open spec fn is_fresh(h: HashMetrics) -> bool {
    &&& h.requests_total == 0
    &&& h.errors_total == 0
    &&& h.tokens_generated_total == 0
    &&& h.total_latency_ms == 0
    &&& h.latency_samples@.len() == 0
    &&& h.peak_vram_mb == 0
    &&& h.peak_sysmem_mb == 0
    &&& h.sample_count == 0
    &&& h.last_memory_update@.len() == 0
    &&& h.display_names@.len() == 0
    &&& h.parsed_params is None
}

/// Whether the parameters that were kept hold for the running version: not if both versions are
/// known and differ.
pub open spec fn params_hold(stored: Option<String>, current: Option<Seq<char>>) -> bool {
    stored is Some && current is Some ==> stored->0@ == current->0
}

impl Default for HashMetrics {
    fn default() -> (r: Self)
        ensures
            r.wf(),
            is_fresh(r),
    {
        HashMetrics {
            requests_total: 0,
            errors_total: 0,
            tokens_generated_total: 0,
            total_latency_ms: 0,
            latency_samples: VecDeque::new(),
            peak_vram_mb: 0,
            peak_sysmem_mb: 0,
            sample_count: 0,
            last_memory_update: String::new(),
            display_names: Vec::new(),
            parsed_params: None,
        }
    }
}

impl HashMetrics {
    /// The latencies are within their limit, and no name stands there twice.
    pub open spec fn wf(&self) -> bool {
        &&& self.latency_samples@.len() <= MAX_LATENCY_SAMPLES
        &&& texts(self.display_names@).no_duplicates()
    }

    /// Counts requests.
    pub fn count_requests(&mut self, n: u64)
        ensures
            *final(self) == (HashMetrics {
                requests_total: counted(old(self).requests_total, n),
                ..*old(self)
            }),
    {
        self.requests_total = count(self.requests_total, n);
    }

    /// Counts errors.
    pub fn count_errors(&mut self, n: u64)
        ensures
            *final(self) == (HashMetrics {
                errors_total: counted(old(self).errors_total, n),
                ..*old(self)
            }),
    {
        self.errors_total = count(self.errors_total, n);
    }

    /// Counts tokens.
    pub fn count_tokens(&mut self, n: u64)
        ensures
            *final(self) == (HashMetrics {
                tokens_generated_total: counted(old(self).tokens_generated_total, n),
                ..*old(self)
            }),
    {
        self.tokens_generated_total = count(self.tokens_generated_total, n);
    }

    /// Takes note of how long a request took. The oldest of a hundred makes room.
    pub fn observe_latency(&mut self, ms: u64)
        requires
            old(self).wf(),
        ensures
            final(self).wf(),
            final(self).latency_samples@ == with_sample(old(self).latency_samples@, ms),
            *final(self) == (HashMetrics {
                total_latency_ms: counted(old(self).total_latency_ms, ms),
                latency_samples: final(self).latency_samples,
                ..*old(self)
            }),
    {
        self.total_latency_ms = count(self.total_latency_ms, ms);
        if self.latency_samples.len() >= MAX_LATENCY_SAMPLES {
            let _ = self.latency_samples.pop_front();
        }
        self.latency_samples.push_back(ms);
        assert(self.latency_samples@ =~= with_sample(old(self).latency_samples@, ms));
    }

    /// Takes note of how much memory an instance needs at the time `now`.
    pub fn observe_memory_at(&mut self, vram_mb: u64, sysmem_mb: u64, now: String)
        ensures
            *final(self) == (HashMetrics {
                peak_vram_mb: larger(old(self).peak_vram_mb, vram_mb),
                peak_sysmem_mb: larger(old(self).peak_sysmem_mb, sysmem_mb),
                sample_count: counted(old(self).sample_count, 1),
                last_memory_update: now,
                ..*old(self)
            }),
    {
        if vram_mb > self.peak_vram_mb {
            self.peak_vram_mb = vram_mb;
        }
        if sysmem_mb > self.peak_sysmem_mb {
            self.peak_sysmem_mb = sysmem_mb;
        }
        self.sample_count = count(self.sample_count, 1);
        self.last_memory_update = now;
    }

    /// Takes note of how much memory an instance needs.
    pub fn observe_memory(&mut self, vram_mb: u64, sysmem_mb: u64)
        ensures
            *final(self) == (HashMetrics {
                peak_vram_mb: larger(old(self).peak_vram_mb, vram_mb),
                peak_sysmem_mb: larger(old(self).peak_sysmem_mb, sysmem_mb),
                sample_count: counted(old(self).sample_count, 1),
                last_memory_update: final(self).last_memory_update,
                ..*old(self)
            }),
    {
        self.observe_memory_at(vram_mb, sysmem_mb, utc_now_rfc3339());
    }

    /// Adds a name, unless it is there.
    pub fn add_display_name(&mut self, name: &str)
        requires
            old(self).wf(),
        ensures
            final(self).wf(),
            texts(final(self).display_names@) == with_name(
                texts(old(self).display_names@),
                name@,
            ),
            *final(self) == (HashMetrics {
                display_names: final(self).display_names,
                ..*old(self)
            }),
    {
        add_name(&mut self.display_names, name);
    }

    /// Keeps what a startup log said, in the place of what was kept.
    pub fn set_parsed_params(
        &mut self,
        params: ParsedModelParams,
        llama_cpp_version: Option<String>,
    )
        ensures
            *final(self) == (HashMetrics {
                parsed_params: Some(PersistedParsedParams { params, llama_cpp_version }),
                ..*old(self)
            }),
    {
        self.parsed_params = Some(PersistedParsedParams { params, llama_cpp_version });
    }

    /// What the last startup log said, unless it was written by another version than the one that
    /// runs now: the same arguments may mean something else to another build.
    pub fn get_parsed_params(&self, current_llama_cpp_version: Option<&str>) -> (r: Option<
        ParsedModelParams,
    >)
        ensures
            ({
                let current = match current_llama_cpp_version {
                    Some(v) => Some(v@),
                    None => None,
                };
                match self.parsed_params {
                    Some(stored) => if params_hold(stored.llama_cpp_version, current) {
                        r == Some(stored.params)
                    } else {
                        r is None
                    },
                    None => r is None,
                }
            }),
    {
        match &self.parsed_params {
            Some(stored) => {
                if let Some(v) = &stored.llama_cpp_version {
                    if let Some(c) = current_llama_cpp_version {
                        if !same(v.as_str(), c) {
                            return None;
                        }
                    }
                }
                Some(stored.params.clone())
            },
            None => None,
        }
    }

    /// The 95th percentile of the last latencies.
    pub fn p95_latency_ms(&self) -> (r: u64)
        ensures
            r == percentile_95(self.latency_samples@),
    {
        let n: usize = self.latency_samples.len();
        if n == 0 {
            return 0;
        }
        let mut v: Vec<u64> = Vec::new();
        let mut i: usize = 0;
        while i < n
            invariant
                i <= n == self.latency_samples@.len(),
                v@ == self.latency_samples@.take(i as int),
            decreases n - i,
        {
            v.push(self.latency_samples[i]);
            i = i + 1;
            assert(v@ =~= self.latency_samples@.take(i as int));
        }
        assert(v@ =~= self.latency_samples@);
        let sorted = sort_numbers(&v);
        let last: usize = n - 1;
        let idx: usize = last / 100 * 95 + last % 100 * 95 / 100;
        assert(idx == last * 95 / 100);
        sorted[idx]
    }
}

/// Names after one more.
pub open spec fn with_name(names: Seq<Seq<char>>, name: Seq<char>) -> Seq<Seq<char>> {
    if names.contains(name) {
        names
    } else {
        names.push(name)
    }
}

fn add_name(names: &mut Vec<String>, name: &str)
    requires
        texts(old(names)@).no_duplicates(),
    ensures
        texts(final(names)@).no_duplicates(),
        texts(final(names)@) == with_name(texts(old(names)@), name@),
        texts(old(names)@).contains(name@) ==> *final(names) == *old(names),
{
    let ghost before = texts(names@);
    let mut i: usize = 0;
    while i < names.len()
        invariant
            i <= names@.len(),
            *names == *old(names),
            before == texts(names@),
            before.no_duplicates(),
            forall|j: int| 0 <= j < i ==> #[trigger] before[j] != name@,
        decreases names@.len() - i,
    {
        assert(before[i as int] == names@[i as int]@);
        if same(names[i].as_str(), name) {
            assert(before.contains(name@));
            return;
        }
        i = i + 1;
    }
    assert(!before.contains(name@));
    names.push(name.to_owned());
    assert(texts(names@) =~= before.push(name@));
}

/// Why a request was dropped from a queue.
#[derive(Debug, Clone, Copy, PartialEq, Eq, Structural)]
pub enum QueueDropReason {
    /// The queue of the model was full.
    Full,
    /// The request waited too long.
    Timeout,
    /// The queues of the node were full.
    GlobalLimit,
}

/// What is counted for a node.
#[derive(Debug)]
pub struct Metrics {
    pub requests_total: u64,
    pub errors_total: u64,
    pub current_requests: u64,
    pub queue_pending_tokens: u64,
    /// The time that requests waited, in milliseconds.
    pub queue_wait_total_ms: u64,
    /// How many requests waited.
    pub queue_wait_count: u64,
    /// How many requests wait now.
    pub queue_length: u64,
    pub queue_drops_full: u64,
    pub queue_drops_timeout: u64,
    pub queue_drops_global_limit: u64,
    /// What is counted for each set of launch arguments.
    pub hash_metrics: StringMap<HashMetrics>,
    pub node_llamesh_vram_mb: u64,
    pub node_llamesh_sysmem_mb: u64,
    pub node_external_vram_mb: u64,
    pub node_effective_vram_mb: u64,
    pub node_effective_sysmem_mb: u64,
    pub node_device_vram_used_mb: u64,
    pub node_device_vram_total_mb: u64,
    pub node_gpu_telemetry_available: bool,
    pub node_active_instances: u64,
    /// The limit on VRAM that the configuration sets.
    pub node_max_vram_mb: u64,
    /// The limit on system memory that the configuration sets.
    pub node_max_sysmem_mb: u64,
}

/// What a node uses of its resources.
#[derive(Debug, Clone, Copy, PartialEq, Eq, Structural)]
pub struct NodeResourceMetricsSnapshot {
    pub llamesh_vram_mb: u64,
    pub llamesh_sysmem_mb: u64,
    pub external_vram_mb: u64,
    pub effective_vram_mb: u64,
    pub effective_sysmem_mb: u64,
    pub device_vram_used_mb: u64,
    pub device_vram_total_mb: u64,
    pub gpu_telemetry_available: bool,
    pub active_instances: u64,
    pub max_vram_mb: u64,
    pub max_sysmem_mb: u64,
}

impl Default for NodeResourceMetricsSnapshot {
    fn default() -> (r: Self)
        ensures
            r == no_resources(),
    {
        NodeResourceMetricsSnapshot {
            llamesh_vram_mb: 0,
            llamesh_sysmem_mb: 0,
            external_vram_mb: 0,
            effective_vram_mb: 0,
            effective_sysmem_mb: 0,
            device_vram_used_mb: 0,
            device_vram_total_mb: 0,
            gpu_telemetry_available: false,
            active_instances: 0,
            max_vram_mb: 0,
            max_sysmem_mb: 0,
        }
    }
}

/// Nothing used.
pub open spec fn no_resources() -> NodeResourceMetricsSnapshot {
    NodeResourceMetricsSnapshot {
        llamesh_vram_mb: 0,
        llamesh_sysmem_mb: 0,
        external_vram_mb: 0,
        effective_vram_mb: 0,
        effective_sysmem_mb: 0,
        device_vram_used_mb: 0,
        device_vram_total_mb: 0,
        gpu_telemetry_available: false,
        active_instances: 0,
        max_vram_mb: 0,
        max_sysmem_mb: 0,
    }
}

/// What a node last said of its resources.
pub open spec fn resources_of(m: Metrics) -> NodeResourceMetricsSnapshot {
    NodeResourceMetricsSnapshot {
        llamesh_vram_mb: m.node_llamesh_vram_mb,
        llamesh_sysmem_mb: m.node_llamesh_sysmem_mb,
        external_vram_mb: m.node_external_vram_mb,
        effective_vram_mb: m.node_effective_vram_mb,
        effective_sysmem_mb: m.node_effective_sysmem_mb,
        device_vram_used_mb: m.node_device_vram_used_mb,
        device_vram_total_mb: m.node_device_vram_total_mb,
        gpu_telemetry_available: m.node_gpu_telemetry_available,
        active_instances: m.node_active_instances,
        max_vram_mb: m.node_max_vram_mb,
        max_sysmem_mb: m.node_max_sysmem_mb,
    }
}

/// The counts for launch arguments as they are written down. The average latency is the total
/// over the requests, and nothing where there were none.
#[derive(Debug)]
pub struct HashMetricsSnapshot {
    pub display_names: Vec<String>,
    pub requests_total: u64,
    pub errors_total: u64,
    pub tokens_generated_total: u64,
    pub total_latency_ms: u64,
    pub p95_latency_ms: u64,
    pub peak_vram_mb: u64,
    pub peak_sysmem_mb: u64,
    pub sample_count: u64,
    pub parsed_model_params: Option<PersistedParsedParams>,
}

/// What is known of the process that counts.
#[derive(Debug, Clone)]
pub struct ProcessInfo {
    /// The version of this program.
    pub version: String,
    /// How often tokens could not be counted.
    pub token_counting_disabled_total: u64,
    /// How often the cleanup after a stream was skipped.
    pub skipped_stream_cleanups_total: u64,
}

/// The counts of a node as they are written down.
#[derive(Debug)]
pub struct MetricsSnapshot {
    pub node_id: String,
    /// The version of this program.
    pub version: String,
    pub llama_cpp_version: String,
    pub requests_total: u64,
    pub errors_total: u64,
    pub current_requests: u64,
    pub queue_length: u64,
    pub queue_drops_full: u64,
    pub queue_drops_timeout: u64,
    pub queue_drops_global_limit: u64,
    pub queue_pending_tokens: u64,
    pub queue_wait_total_ms: u64,
    pub queue_wait_count: u64,
    pub token_counting_disabled_total: u64,
    pub skipped_stream_cleanups_total: u64,
    pub hashes: StringMap<HashMetricsSnapshot>,
    pub updated_at: String,
    pub is_building: bool,
    pub last_build_error: Option<String>,
    pub last_build_at: Option<String>,
    pub node_resources: NodeResourceMetricsSnapshot,
}

/// Whether a snapshot holds what is counted for launch arguments.
pub open spec fn hash_snapshot_of(h: HashMetrics, s: HashMetricsSnapshot) -> bool {
    &&& texts(s.display_names@) == texts(h.display_names@)
    &&& s.requests_total == h.requests_total
    &&& s.errors_total == h.errors_total
    &&& s.tokens_generated_total == h.tokens_generated_total
    &&& s.total_latency_ms == h.total_latency_ms
    &&& s.p95_latency_ms == percentile_95(h.latency_samples@)
    &&& s.peak_vram_mb == h.peak_vram_mb
    &&& s.peak_sysmem_mb == h.peak_sysmem_mb
    &&& s.sample_count == h.sample_count
    &&& s.parsed_model_params == h.parsed_params
}

/// Whether a snapshot holds what is counted for a node.
pub open spec fn snapshot_of(m: Metrics, s: MetricsSnapshot) -> bool {
    &&& s.requests_total == m.requests_total
    &&& s.errors_total == m.errors_total
    &&& s.current_requests == m.current_requests
    &&& s.queue_length == m.queue_length
    &&& s.queue_drops_full == m.queue_drops_full
    &&& s.queue_drops_timeout == m.queue_drops_timeout
    &&& s.queue_drops_global_limit == m.queue_drops_global_limit
    &&& s.queue_pending_tokens == m.queue_pending_tokens
    &&& s.queue_wait_total_ms == m.queue_wait_total_ms
    &&& s.queue_wait_count == m.queue_wait_count
    &&& s.node_resources == resources_of(m)
    &&& s.hashes.wf()
    &&& s.hashes@.dom() == m.hash_metrics@.dom()
    &&& forall|k: Seq<char>| #[trigger]
        s.hashes@.contains_key(k) ==> hash_snapshot_of(m.hash_metrics@[k], s.hashes@[k])
}

/// Names without repetition, each where it first stands.
pub open spec fn deduplicated(names: Seq<Seq<char>>) -> Seq<Seq<char>>
    decreases names.len(),
{
    if names.len() == 0 {
        names
    } else {
        with_name(deduplicated(names.drop_last()), names.last())
    }
}

/// The total latency that a snapshot gives back: that of its requests, so none where there were
/// no requests.
pub open spec fn latency_restored(s: HashMetricsSnapshot) -> u64 {
    if s.requests_total == 0 {
        0
    } else {
        s.total_latency_ms
    }
}

/// Whether counts for launch arguments are what a snapshot gives back: all of it but the
/// latencies and the time of the last measurement, which start afresh.
pub open spec fn hash_restored(s: HashMetricsSnapshot, h: HashMetrics) -> bool {
    &&& h.wf()
    &&& texts(h.display_names@) == deduplicated(texts(s.display_names@))
    &&& h.requests_total == s.requests_total
    &&& h.errors_total == s.errors_total
    &&& h.tokens_generated_total == s.tokens_generated_total
    &&& h.total_latency_ms == latency_restored(s)
    &&& h.latency_samples@.len() == 0
    &&& h.peak_vram_mb == s.peak_vram_mb
    &&& h.peak_sysmem_mb == s.peak_sysmem_mb
    &&& h.sample_count == s.sample_count
    &&& h.last_memory_update@.len() == 0
    &&& h.parsed_params == s.parsed_model_params
}

/// Whether counts are what a snapshot gives back: the totals go on, and what is measured while the
/// node runs starts afresh.
pub open spec fn restored_from(s: MetricsSnapshot, m: Metrics) -> bool {
    &&& m.requests_total == s.requests_total
    &&& m.errors_total == s.errors_total
    &&& m.current_requests == 0
    &&& m.queue_pending_tokens == 0
    &&& m.queue_wait_total_ms == 0
    &&& m.queue_wait_count == 0
    &&& m.queue_length == 0
    &&& m.queue_drops_full == s.queue_drops_full
    &&& m.queue_drops_timeout == s.queue_drops_timeout
    &&& m.queue_drops_global_limit == s.queue_drops_global_limit
    &&& resources_of(m) == no_resources()
    &&& m.hash_metrics@.dom() == s.hashes@.dom()
    &&& forall|k: Seq<char>| #[trigger]
        m.hash_metrics@.contains_key(k) ==> hash_restored(s.hashes@[k], m.hash_metrics@[k])
}

impl Metrics {
    /// Each set of launch arguments is counted once.
    pub open spec fn wf(&self) -> bool {
        &&& self.hash_metrics.wf()
        &&& forall|i: int|
            0 <= i < self.hash_metrics.entries@.len() ==> (
            #[trigger] self.hash_metrics.entries@[i]).1.wf()
    }

    /// Nothing counted.
    pub fn new() -> (r: Metrics)
        ensures
            r.wf(),
            r.requests_total == 0,
            r.errors_total == 0,
            r.current_requests == 0,
            r.queue_pending_tokens == 0,
            r.queue_wait_total_ms == 0,
            r.queue_wait_count == 0,
            r.queue_length == 0,
            r.queue_drops_full == 0,
            r.queue_drops_timeout == 0,
            r.queue_drops_global_limit == 0,
            resources_of(r) == no_resources(),
            r.hash_metrics@ == Map::<Seq<char>, HashMetrics>::empty(),
    {
        Metrics {
            requests_total: 0,
            errors_total: 0,
            current_requests: 0,
            queue_pending_tokens: 0,
            queue_wait_total_ms: 0,
            queue_wait_count: 0,
            queue_length: 0,
            queue_drops_full: 0,
            queue_drops_timeout: 0,
            queue_drops_global_limit: 0,
            hash_metrics: StringMap::new(),
            node_llamesh_vram_mb: 0,
            node_llamesh_sysmem_mb: 0,
            node_external_vram_mb: 0,
            node_effective_vram_mb: 0,
            node_effective_sysmem_mb: 0,
            node_device_vram_used_mb: 0,
            node_device_vram_total_mb: 0,
            node_gpu_telemetry_available: false,
            node_active_instances: 0,
            node_max_vram_mb: 0,
            node_max_sysmem_mb: 0,
        }
    }

    /// A request has come in.
    pub fn inc_requests(&mut self)
        ensures
            *final(self) == (Metrics {
                requests_total: counted(old(self).requests_total, 1),
                current_requests: counted(old(self).current_requests, 1),
                ..*old(self)
            }),
    {
        self.requests_total = count(self.requests_total, 1);
        self.current_requests = count(self.current_requests, 1);
    }

    /// A request is done. A count of zero stays zero.
    pub fn dec_current_requests(&mut self)
        ensures
            *final(self) == (Metrics {
                current_requests: one_less(old(self).current_requests),
                ..*old(self)
            }),
    {
        self.current_requests = self.current_requests.saturating_sub(1);
    }

    pub fn inc_errors(&mut self)
        ensures
            *final(self) == (Metrics {
                errors_total: counted(old(self).errors_total, 1),
                ..*old(self)
            }),
    {
        self.errors_total = count(self.errors_total, 1);
    }

    /// A waiter was notified.
    pub fn inc_pending_tokens(&mut self)
        ensures
            *final(self) == (Metrics {
                queue_pending_tokens: counted(old(self).queue_pending_tokens, 1),
                ..*old(self)
            }),
    {
        self.queue_pending_tokens = count(self.queue_pending_tokens, 1);
    }

    /// A waiter got its slot or gave up. A count of zero stays zero.
    pub fn dec_pending_tokens(&mut self)
        ensures
            *final(self) == (Metrics {
                queue_pending_tokens: one_less(old(self).queue_pending_tokens),
                ..*old(self)
            }),
    {
        self.queue_pending_tokens = self.queue_pending_tokens.saturating_sub(1);
    }

    /// A request waited.
    pub fn observe_queue_wait(&mut self, ms: u64)
        ensures
            *final(self) == (Metrics {
                queue_wait_total_ms: counted(old(self).queue_wait_total_ms, ms),
                queue_wait_count: counted(old(self).queue_wait_count, 1),
                ..*old(self)
            }),
    {
        self.queue_wait_total_ms = count(self.queue_wait_total_ms, ms);
        self.queue_wait_count = count(self.queue_wait_count, 1);
    }

    /// How many requests wait now.
    pub fn set_queue_length(&mut self, length: u64)
        ensures
            *final(self) == (Metrics { queue_length: length, ..*old(self) }),
    {
        self.queue_length = length;
    }

    /// A request was dropped from a queue.
    pub fn record_queue_drop(&mut self, reason: QueueDropReason)
        ensures
            *final(self) == match reason {
                QueueDropReason::Full => Metrics {
                    queue_drops_full: counted(old(self).queue_drops_full, 1),
                    ..*old(self)
                },
                QueueDropReason::Timeout => Metrics {
                    queue_drops_timeout: counted(old(self).queue_drops_timeout, 1),
                    ..*old(self)
                },
                QueueDropReason::GlobalLimit => Metrics {
                    queue_drops_global_limit: counted(old(self).queue_drops_global_limit, 1),
                    ..*old(self)
                },
            },
    {
        match reason {
            QueueDropReason::Full => {
                self.queue_drops_full = count(self.queue_drops_full, 1);
            },
            QueueDropReason::Timeout => {
                self.queue_drops_timeout = count(self.queue_drops_timeout, 1);
            },
            QueueDropReason::GlobalLimit => {
                self.queue_drops_global_limit = count(self.queue_drops_global_limit, 1);
            },
        }
    }

    /// The counts for launch arguments, to be changed in place; fresh ones where there are none.
    pub fn get_hash_metrics(&mut self, args_hash: &str) -> (r: &mut HashMetrics)
        requires
            old(self).wf(),
        ensures
            r.wf(),
            if old(self).hash_metrics@.contains_key(args_hash@) {
                *r == old(self).hash_metrics@[args_hash@]
            } else {
                is_fresh(*r)
            },
            final(self).hash_metrics@ == old(self).hash_metrics@.insert(args_hash@, *final(r)),
            final(r).wf() ==> final(self).wf(),
            *final(self) == (Metrics { hash_metrics: final(self).hash_metrics, ..*old(self) }),
    {
        let ghost before = self.hash_metrics.entries@;
        let i: usize = match self.hash_metrics.find(args_hash) {
            Some(i) => i,
            None => {
                let fresh = HashMetrics::default();
                self.hash_metrics.entries.push((args_hash.to_owned(), fresh));
                self.hash_metrics.entries.len() - 1
            },
        };
        let ghost mid = self.hash_metrics.entries@;
        proof {
            if has_key(before, args_hash@) {
                assert(mid == before);
            } else {
                lemma_push_entry(before, mid[i as int].0, mid[i as int].1);
                assert(mid =~= before.push((mid[i as int].0, mid[i as int].1)));
            }
            assert forall|v: HashMetrics|
                #![trigger mid.update(i as int, (mid[i as int].0, v))]
                distinct_keys(mid.update(i as int, (mid[i as int].0, v))) && entries_map(
                    mid.update(i as int, (mid[i as int].0, v)),
                ) == entries_map(mid).insert(args_hash@, v) by {
                lemma_update_value(mid, i as int, v);
            }
            assert forall|v: HashMetrics| #[trigger]
                entries_map(mid).insert(args_hash@, v) == entries_map(before).insert(
                    args_hash@,
                    v,
                ) by {
                assert(entries_map(mid).insert(args_hash@, v) =~= entries_map(before).insert(
                    args_hash@,
                    v,
                ));
            }
        }
        self.hash_metrics.value_mut(i)
    }

    /// The peaks of memory for launch arguments, once they were measured.
    pub fn get_learned_memory(&self, args_hash: &str) -> (r: Option<(u64, u64)>)
        ensures
            r == if self.hash_metrics@.contains_key(args_hash@)
                && self.hash_metrics@[args_hash@].sample_count != 0 {
                Some(
                    (
                        self.hash_metrics@[args_hash@].peak_vram_mb,
                        self.hash_metrics@[args_hash@].peak_sysmem_mb,
                    ),
                )
            } else {
                None
            },
    {
        match self.hash_metrics.get(args_hash) {
            Some(h) => if h.sample_count == 0 {
                None
            } else {
                Some((h.peak_vram_mb, h.peak_sysmem_mb))
            },
            None => None,
        }
    }

    /// Whether the memory for launch arguments was ever measured.
    pub fn has_memory_data(&self, args_hash: &str) -> (r: bool)
        ensures
            r == (self.hash_metrics@.contains_key(args_hash@)
                && self.hash_metrics@[args_hash@].sample_count > 0),
    {
        match self.hash_metrics.get(args_hash) {
            Some(h) => h.sample_count > 0,
            None => false,
        }
    }

    /// What the node uses of its resources now.
    pub fn observe_node_resources(&mut self, snapshot: NodeResourceMetricsSnapshot)
        ensures
            resources_of(*final(self)) == snapshot,
            *final(self) == (Metrics {
                node_llamesh_vram_mb: snapshot.llamesh_vram_mb,
                node_llamesh_sysmem_mb: snapshot.llamesh_sysmem_mb,
                node_external_vram_mb: snapshot.external_vram_mb,
                node_effective_vram_mb: snapshot.effective_vram_mb,
                node_effective_sysmem_mb: snapshot.effective_sysmem_mb,
                node_device_vram_used_mb: snapshot.device_vram_used_mb,
                node_device_vram_total_mb: snapshot.device_vram_total_mb,
                node_gpu_telemetry_available: snapshot.gpu_telemetry_available,
                node_active_instances: snapshot.active_instances,
                node_max_vram_mb: snapshot.max_vram_mb,
                node_max_sysmem_mb: snapshot.max_sysmem_mb,
                ..*old(self)
            }),
    {
        self.node_llamesh_vram_mb = snapshot.llamesh_vram_mb;
        self.node_llamesh_sysmem_mb = snapshot.llamesh_sysmem_mb;
        self.node_external_vram_mb = snapshot.external_vram_mb;
        self.node_effective_vram_mb = snapshot.effective_vram_mb;
        self.node_effective_sysmem_mb = snapshot.effective_sysmem_mb;
        self.node_device_vram_used_mb = snapshot.device_vram_used_mb;
        self.node_device_vram_total_mb = snapshot.device_vram_total_mb;
        self.node_gpu_telemetry_available = snapshot.gpu_telemetry_available;
        self.node_active_instances = snapshot.active_instances;
        self.node_max_vram_mb = snapshot.max_vram_mb;
        self.node_max_sysmem_mb = snapshot.max_sysmem_mb;
    }
}

fn copy_names(names: &Vec<String>) -> (r: Vec<String>)
    ensures
        texts(r@) == texts(names@),
{
    let r = names.clone();
    assert(texts(r@) =~= texts(names@));
    r
}

impl HashMetrics {
    /// The counts as they are written down.
    pub fn snapshot(&self) -> (r: HashMetricsSnapshot)
        ensures
            hash_snapshot_of(*self, r),
    {
        HashMetricsSnapshot {
            display_names: copy_names(&self.display_names),
            requests_total: self.requests_total,
            errors_total: self.errors_total,
            tokens_generated_total: self.tokens_generated_total,
            total_latency_ms: self.total_latency_ms,
            p95_latency_ms: self.p95_latency_ms(),
            peak_vram_mb: self.peak_vram_mb,
            peak_sysmem_mb: self.peak_sysmem_mb,
            sample_count: self.sample_count,
            parsed_model_params: match &self.parsed_params {
                Some(p) => Some(p.clone()),
                None => None,
            },
        }
    }

    /// The counts that a snapshot gives back.
    pub fn from_snapshot(s: HashMetricsSnapshot) -> (r: HashMetrics)
        ensures
            hash_restored(s, r),
    {
        let mut names: Vec<String> = Vec::new();
        let mut i: usize = 0;
        let ghost all = texts(s.display_names@);
        assert(texts(names@) =~= deduplicated(all.take(0)));
        assert(texts(names@).no_duplicates());
        while i < s.display_names.len()
            invariant
                i <= s.display_names@.len(),
                all == texts(s.display_names@),
                texts(names@).no_duplicates(),
                texts(names@) == deduplicated(all.take(i as int)),
            decreases s.display_names@.len() - i,
        {
            add_name(&mut names, s.display_names[i].as_str());
            assert(all.take(i + 1).drop_last() =~= all.take(i as int));
            assert(all.take(i + 1).last() == s.display_names@[i as int]@);
            i = i + 1;
        }
        assert(all.take(i as int) =~= all);
        HashMetrics {
            requests_total: s.requests_total,
            errors_total: s.errors_total,
            tokens_generated_total: s.tokens_generated_total,
            total_latency_ms: if s.requests_total == 0 {
                0
            } else {
                s.total_latency_ms
            },
            latency_samples: VecDeque::new(),
            peak_vram_mb: s.peak_vram_mb,
            peak_sysmem_mb: s.peak_sysmem_mb,
            sample_count: s.sample_count,
            last_memory_update: String::new(),
            display_names: names,
            parsed_params: s.parsed_model_params,
        }
    }
}

impl Metrics {
    fn snapshot_hashes(&self) -> (r: StringMap<HashMetricsSnapshot>)
        requires
            self.hash_metrics.wf(),
        ensures
            r.wf(),
            r@.dom() == self.hash_metrics@.dom(),
            forall|k: Seq<char>| #[trigger]
                r@.contains_key(k) ==> hash_snapshot_of(self.hash_metrics@[k], r@[k]),
    {
        let mut out: Vec<(String, HashMetricsSnapshot)> = Vec::new();
        let mut i: usize = 0;
        let ghost from = self.hash_metrics.entries@;
        while i < self.hash_metrics.entries.len()
            invariant
                i == out@.len(),
                i <= from.len(),
                from == self.hash_metrics.entries@,
                forall|j: int|
                    0 <= j < i ==> (#[trigger] out@[j]).0@ == from[j].0@ && hash_snapshot_of(
                        from[j].1,
                        out@[j].1,
                    ),
            decreases from.len() - i,
        {
            let entry = &self.hash_metrics.entries[i];
            out.push((entry.0.clone(), entry.1.snapshot()));
            i = i + 1;
        }
        let r = StringMap { entries: out };
        proof {
            lemma_same_keys(from, out@);
            assert(r@.dom() =~= self.hash_metrics@.dom());
            assert forall|k: Seq<char>| #[trigger] r@.contains_key(k) implies hash_snapshot_of(
                self.hash_metrics@[k],
                r@[k],
            ) by {
                lemma_position(out@, k);
                let p = position(out@, k);
                assert(hash_snapshot_of(from[p].1, out@[p].1));
            }
        }
        r
    }

    /// The counts as they are written down at the time `updated_at`.
    pub fn snapshot_at(
        &self,
        node_id: String,
        llama_cpp_version: String,
        build_status: Option<BuildStatus>,
        process: &ProcessInfo,
        updated_at: String,
    ) -> (r: MetricsSnapshot)
        requires
            self.wf(),
        ensures
            snapshot_of(*self, r),
            r.node_id == node_id,
            r.version@ == process.version@,
            r.llama_cpp_version == llama_cpp_version,
            r.token_counting_disabled_total == process.token_counting_disabled_total,
            r.skipped_stream_cleanups_total == process.skipped_stream_cleanups_total,
            r.updated_at == updated_at,
            match build_status {
                Some(b) => r.is_building == b.is_building && r.last_build_error
                    == b.last_build_error && r.last_build_at == b.last_build_at,
                None => !r.is_building && r.last_build_error is None && r.last_build_at is None,
            },
    {
        let hashes = self.snapshot_hashes();
        let (is_building, last_build_error, last_build_at) = match build_status {
            Some(b) => (b.is_building, b.last_build_error, b.last_build_at),
            None => (false, None, None),
        };
        MetricsSnapshot {
            node_id,
            version: process.version.clone(),
            llama_cpp_version,
            requests_total: self.requests_total,
            errors_total: self.errors_total,
            current_requests: self.current_requests,
            queue_length: self.queue_length,
            queue_drops_full: self.queue_drops_full,
            queue_drops_timeout: self.queue_drops_timeout,
            queue_drops_global_limit: self.queue_drops_global_limit,
            queue_pending_tokens: self.queue_pending_tokens,
            queue_wait_total_ms: self.queue_wait_total_ms,
            queue_wait_count: self.queue_wait_count,
            token_counting_disabled_total: process.token_counting_disabled_total,
            skipped_stream_cleanups_total: process.skipped_stream_cleanups_total,
            hashes,
            updated_at,
            is_building,
            last_build_error,
            last_build_at,
            node_resources: NodeResourceMetricsSnapshot {
                llamesh_vram_mb: self.node_llamesh_vram_mb,
                llamesh_sysmem_mb: self.node_llamesh_sysmem_mb,
                external_vram_mb: self.node_external_vram_mb,
                effective_vram_mb: self.node_effective_vram_mb,
                effective_sysmem_mb: self.node_effective_sysmem_mb,
                device_vram_used_mb: self.node_device_vram_used_mb,
                device_vram_total_mb: self.node_device_vram_total_mb,
                gpu_telemetry_available: self.node_gpu_telemetry_available,
                active_instances: self.node_active_instances,
                max_vram_mb: self.node_max_vram_mb,
                max_sysmem_mb: self.node_max_sysmem_mb,
            },
        }
    }

    /// The counts as they are written down now.
    pub fn snapshot(
        &self,
        node_id: String,
        llama_cpp_version: String,
        build_status: Option<BuildStatus>,
        process: &ProcessInfo,
    ) -> (r: MetricsSnapshot)
        requires
            self.wf(),
        ensures
            snapshot_of(*self, r),
            r.node_id == node_id,
            r.version@ == process.version@,
            r.llama_cpp_version == llama_cpp_version,
            r.token_counting_disabled_total == process.token_counting_disabled_total,
            r.skipped_stream_cleanups_total == process.skipped_stream_cleanups_total,
            match build_status {
                Some(b) => r.is_building == b.is_building && r.last_build_error
                    == b.last_build_error && r.last_build_at == b.last_build_at,
                None => !r.is_building && r.last_build_error is None && r.last_build_at is None,
            },
    {
        self.snapshot_at(node_id, llama_cpp_version, build_status, process, utc_now_rfc3339())
    }

    /// The counts that a snapshot gives back.
    pub fn from_snapshot(snapshot: MetricsSnapshot) -> (r: Metrics)
        requires
            snapshot.hashes.wf(),
        ensures
            r.wf(),
            restored_from(snapshot, r),
    {
        let ghost from = snapshot.hashes.entries@;
        let mut entries = snapshot.hashes.entries;
        let mut out: Vec<(String, HashMetrics)> = Vec::new();
        // The entries are taken from the back, so that none is copied.
        while entries.len() > 0
            invariant
                entries@.len() + out@.len() == from.len(),
                entries@ == from.take(entries@.len() as int),
                forall|j: int|
                    0 <= j < out@.len() ==> (#[trigger] out@[j]).0 == from[from.len() - 1 - j].0
                        && hash_restored(from[from.len() - 1 - j].1, out@[j].1),
            decreases entries@.len(),
        {
            let ghost n = entries@.len() as int;
            if let Some((hash, s)) = entries.pop() {
                assert(from[n - 1] == (hash, s));
                out.push((hash, HashMetrics::from_snapshot(s)));
                assert(entries@ =~= from.take(n - 1));
            }
        }
        let mut restored: Vec<(String, HashMetrics)> = Vec::new();
        let ghost backwards = out@;
        while out.len() > 0
            invariant
                backwards.len() == from.len(),
                out@.len() + restored@.len() == backwards.len(),
                out@ == backwards.take(out@.len() as int),
                forall|j: int|
                    0 <= j < backwards.len() ==> (#[trigger] backwards[j]).0
                        == from[from.len() - 1 - j].0 && hash_restored(
                        from[from.len() - 1 - j].1,
                        backwards[j].1,
                    ),
                forall|j: int|
                    0 <= j < restored@.len() ==> (#[trigger] restored@[j]).0 == from[j].0
                        && hash_restored(from[j].1, restored@[j].1),
            decreases out@.len(),
        {
            let ghost n = out@.len() as int;
            if let Some(entry) = out.pop() {
                assert(backwards[n - 1] == entry);
                restored.push(entry);
                assert(out@ =~= backwards.take(n - 1));
            }
        }
        let r = Metrics {
            requests_total: snapshot.requests_total,
            errors_total: snapshot.errors_total,
            current_requests: 0,
            queue_pending_tokens: 0,
            queue_wait_total_ms: 0,
            queue_wait_count: 0,
            queue_length: 0,
            queue_drops_full: snapshot.queue_drops_full,
            queue_drops_timeout: snapshot.queue_drops_timeout,
            queue_drops_global_limit: snapshot.queue_drops_global_limit,
            hash_metrics: StringMap { entries: restored },
            node_llamesh_vram_mb: 0,
            node_llamesh_sysmem_mb: 0,
            node_external_vram_mb: 0,
            node_effective_vram_mb: 0,
            node_effective_sysmem_mb: 0,
            node_device_vram_used_mb: 0,
            node_device_vram_total_mb: 0,
            node_gpu_telemetry_available: false,
            node_active_instances: 0,
            node_max_vram_mb: 0,
            node_max_sysmem_mb: 0,
        };
        proof {
            lemma_same_keys(from, restored@);
            assert(r.hash_metrics@.dom() =~= snapshot.hashes@.dom());
            assert forall|k: Seq<char>| #[trigger] r.hash_metrics@.contains_key(
                k,
            ) implies hash_restored(snapshot.hashes@[k], r.hash_metrics@[k]) by {
                lemma_position(restored@, k);
                let p = position(restored@, k);
                assert(hash_restored(from[p].1, restored@[p].1));
            }
        }
        r
    }
}

proof fn lemma_deduplicated_same(names: Seq<Seq<char>>)
    requires
        names.no_duplicates(),
    ensures
        deduplicated(names) == names,
    decreases names.len(),
{
    if names.len() > 0 {
        let rest = names.drop_last();
        lemma_deduplicated_same(rest);
        assert(!rest.contains(names.last()));
        assert(rest.push(names.last()) =~= names);
    }
}

/// Totals survive a restart: what a snapshot of a node gives back counts the same requests,
/// errors, drops, tokens, latencies, peaks and model parameters, while everything that is measured
/// as the node runs starts afresh.
pub proof fn law_totals_survive_restart(before: Metrics, s: MetricsSnapshot, after: Metrics)
    requires
        before.wf(),
        snapshot_of(before, s),
        restored_from(s, after),
    ensures
        after.requests_total == before.requests_total,
        after.errors_total == before.errors_total,
        after.queue_drops_full == before.queue_drops_full,
        after.queue_drops_timeout == before.queue_drops_timeout,
        after.queue_drops_global_limit == before.queue_drops_global_limit,
        after.current_requests == 0,
        after.queue_length == 0,
        after.queue_pending_tokens == 0,
        after.queue_wait_total_ms == 0,
        after.queue_wait_count == 0,
        after.hash_metrics@.dom() == before.hash_metrics@.dom(),
        forall|k: Seq<char>| #[trigger]
            after.hash_metrics@.contains_key(k) ==> {
                let a = after.hash_metrics@[k];
                let b = before.hash_metrics@[k];
                &&& a.requests_total == b.requests_total
                &&& a.errors_total == b.errors_total
                &&& a.tokens_generated_total == b.tokens_generated_total
                &&& b.requests_total > 0 ==> a.total_latency_ms == b.total_latency_ms
                &&& a.peak_vram_mb == b.peak_vram_mb
                &&& a.peak_sysmem_mb == b.peak_sysmem_mb
                &&& a.sample_count == b.sample_count
                &&& a.parsed_params == b.parsed_params
                &&& texts(a.display_names@) == texts(b.display_names@)
                &&& a.latency_samples@.len() == 0
            },
{
    assert forall|k: Seq<char>| #[trigger] after.hash_metrics@.contains_key(k) implies texts(
        after.hash_metrics@[k].display_names@,
    ) == texts(before.hash_metrics@[k].display_names@) && hash_restored(
        s.hashes@[k],
        after.hash_metrics@[k],
    ) && hash_snapshot_of(before.hash_metrics@[k], s.hashes@[k]) by {
        assert(s.hashes@.contains_key(k));
        let entries = before.hash_metrics.entries@;
        assert(before.hash_metrics@.contains_key(k));
        lemma_position(entries, k);
        assert(entries[position(entries, k)].1.wf());
        lemma_deduplicated_same(texts(before.hash_metrics@[k].display_names@));
    }
}

/// The latencies after some more, one after another.
pub open spec fn with_samples(samples: Seq<u64>, more: Seq<u64>) -> Seq<u64>
    decreases more.len(),
{
    if more.len() == 0 {
        samples
    } else {
        with_sample(with_samples(samples, more.drop_last()), more.last())
    }
}

/// Of any number of latencies the last hundred are kept, in their order.
pub proof fn law_last_latencies_kept(more: Seq<u64>)
    ensures
        with_samples(Seq::empty(), more) == if more.len() <= MAX_LATENCY_SAMPLES {
            more
        } else {
            more.skip(more.len() - MAX_LATENCY_SAMPLES)
        },
    decreases more.len(),
{
    if more.len() > 0 {
        law_last_latencies_kept(more.drop_last());
        let kept = with_samples(Seq::empty(), more.drop_last());
        if more.len() <= MAX_LATENCY_SAMPLES {
            assert(with_sample(kept, more.last()) =~= more);
        } else {
            assert(with_sample(kept, more.last()) =~= more.skip(
                more.len() - MAX_LATENCY_SAMPLES,
            ));
        }
    } else {
        assert(more =~= Seq::<u64>::empty());
    }
}

/// A percentile is one of the numbers.
pub proof fn law_percentile_is_a_sample(samples: Seq<u64>)
    requires
        samples.len() > 0,
    ensures
        samples.contains(percentile_95(samples)),
{
    let leq = |a: u64, b: u64| a <= b;
    assert(vstd::relations::total_ordering(leq));
    samples.lemma_sort_by_ensures(leq);
    let sorted = sorted_numbers(samples);
    samples.to_multiset_ensures();
    sorted.to_multiset_ensures();
    assert(sorted == samples.sort_by(leq));
    assert(sorted.len() == samples.len());
    let i = (samples.len() - 1) * 95 / 100;
    assert(0 <= i < sorted.len());
    assert(sorted.contains(sorted[i]));
}

/// A peak never falls, and is never below what was measured.
pub proof fn law_peak_never_falls(peak: u64, measured: u64)
    ensures
        larger(peak, measured) >= peak,
        larger(peak, measured) >= measured,
        larger(peak, measured) == peak || larger(peak, measured) == measured,
{
}

/// A request that is done is no longer counted as current, and no number of them brings the count
/// below zero.
pub proof fn law_count_returns(n: u64)
    requires
        n < u64::MAX,
    ensures
        one_less(counted(n, 1)) == n,
        one_less(0) == 0,
{
}

/// Counters add up until they are full, and then go on from zero.
pub proof fn law_counters_add_up(a: u64, b: u64)
    ensures
        a + b <= u64::MAX ==> counted(a, b) == a + b,
        a + b > u64::MAX ==> counted(a, b) == a + b - u64::MAX - 1,
        a > 0 ==> one_less(a) == a - 1,
        one_less(0) == 0,
{
}

/// The 95th percentile of some numbers is the one that stands at 95 hundredths of the way from the
/// least to the greatest, rounded down to a number, when they are put in order; of none it is 0.
pub proof fn law_percentile_by_rank(samples: Seq<u64>)
    ensures
        samples.len() == 0 ==> percentile_95(samples) == 0,
        samples.len() > 0 ==> exists|ranked: Seq<u64>|
            #![trigger ranked.to_multiset()]
            {
                &&& ranked.to_multiset() == samples.to_multiset()
                &&& ranked.len() == samples.len()
                &&& forall|i: int, j: int| 0 <= i <= j < ranked.len() ==> ranked[i] <= ranked[j]
                &&& percentile_95(samples) == ranked[(samples.len() - 1) * 95 / 100]
            },
{
    if samples.len() > 0 {
        let leq = |a: u64, b: u64| a <= b;
        samples.lemma_sort_by_ensures(leq);
        let ranked = sorted_numbers(samples);
        ranked.to_multiset_ensures();
        samples.to_multiset_ensures();
        assert(ranked.len() == samples.len());
        assert forall|i: int, j: int| 0 <= i <= j < ranked.len() implies ranked[i] <= ranked[j] by {
            if i < j {
                assert(leq(ranked[i], ranked[j]));
            }
        }
        assert(ranked.to_multiset() == samples.to_multiset());
    }
}

/// Of any number of latencies the last hundred are kept.
pub proof fn law_a_hundred_latencies(more: Seq<u64>)
    ensures
        more.len() <= 100 ==> with_samples(Seq::empty(), more) == more,
        more.len() > 100 ==> with_samples(Seq::empty(), more) == more.skip(more.len() - 100),
{
    law_last_latencies_kept(more);
}

/// What is written down of a node is what it has counted, each count under its name.
pub proof fn law_snapshot_tells_the_counts(m: Metrics, s: MetricsSnapshot, k: Seq<char>)
    requires
        snapshot_of(m, s),
    ensures
        s.requests_total == m.requests_total,
        s.errors_total == m.errors_total,
        s.current_requests == m.current_requests,
        s.queue_length == m.queue_length,
        s.queue_drops_full == m.queue_drops_full,
        s.queue_drops_timeout == m.queue_drops_timeout,
        s.queue_drops_global_limit == m.queue_drops_global_limit,
        s.queue_pending_tokens == m.queue_pending_tokens,
        s.queue_wait_total_ms == m.queue_wait_total_ms,
        s.queue_wait_count == m.queue_wait_count,
        s.node_resources.llamesh_vram_mb == m.node_llamesh_vram_mb,
        s.node_resources.llamesh_sysmem_mb == m.node_llamesh_sysmem_mb,
        s.node_resources.external_vram_mb == m.node_external_vram_mb,
        s.node_resources.effective_vram_mb == m.node_effective_vram_mb,
        s.node_resources.effective_sysmem_mb == m.node_effective_sysmem_mb,
        s.node_resources.device_vram_used_mb == m.node_device_vram_used_mb,
        s.node_resources.device_vram_total_mb == m.node_device_vram_total_mb,
        s.node_resources.gpu_telemetry_available == m.node_gpu_telemetry_available,
        s.node_resources.active_instances == m.node_active_instances,
        s.node_resources.max_vram_mb == m.node_max_vram_mb,
        s.node_resources.max_sysmem_mb == m.node_max_sysmem_mb,
        s.hashes@.contains_key(k) <==> m.hash_metrics@.contains_key(k),
        s.hashes@.contains_key(k) ==> ({
            let a = s.hashes@[k];
            let b = m.hash_metrics@[k];
            &&& texts(a.display_names@) == texts(b.display_names@)
            &&& a.requests_total == b.requests_total
            &&& a.errors_total == b.errors_total
            &&& a.tokens_generated_total == b.tokens_generated_total
            &&& a.total_latency_ms == b.total_latency_ms
            &&& a.p95_latency_ms == percentile_95(b.latency_samples@)
            &&& a.peak_vram_mb == b.peak_vram_mb
            &&& a.peak_sysmem_mb == b.peak_sysmem_mb
            &&& a.sample_count == b.sample_count
            &&& a.parsed_model_params == b.parsed_params
        }),
{
    assert(s.hashes@.dom().contains(k) <==> m.hash_metrics@.dom().contains(k));
}

/// What a snapshot gives back: the totals, the drops and the counts for launch arguments go on;
/// what is in flight, waits or is in use starts from nothing.
pub proof fn law_restored_from_snapshot(s: MetricsSnapshot, m: Metrics, k: Seq<char>)
    requires
        restored_from(s, m),
    ensures
        m.requests_total == s.requests_total,
        m.errors_total == s.errors_total,
        m.queue_drops_full == s.queue_drops_full,
        m.queue_drops_timeout == s.queue_drops_timeout,
        m.queue_drops_global_limit == s.queue_drops_global_limit,
        m.current_requests == 0 && m.queue_pending_tokens == 0 && m.queue_length == 0,
        m.queue_wait_total_ms == 0 && m.queue_wait_count == 0,
        m.node_llamesh_vram_mb == 0 && m.node_llamesh_sysmem_mb == 0,
        m.node_external_vram_mb == 0 && m.node_effective_vram_mb == 0,
        m.node_effective_sysmem_mb == 0 && m.node_device_vram_used_mb == 0,
        m.node_device_vram_total_mb == 0 && !m.node_gpu_telemetry_available,
        m.node_active_instances == 0 && m.node_max_vram_mb == 0 && m.node_max_sysmem_mb == 0,
        m.hash_metrics@.contains_key(k) <==> s.hashes@.contains_key(k),
        m.hash_metrics@.contains_key(k) ==> ({
            let a = m.hash_metrics@[k];
            let b = s.hashes@[k];
            &&& a.requests_total == b.requests_total
            &&& a.errors_total == b.errors_total
            &&& a.tokens_generated_total == b.tokens_generated_total
            &&& a.total_latency_ms == if b.requests_total == 0 {
                0
            } else {
                b.total_latency_ms
            }
            &&& a.peak_vram_mb == b.peak_vram_mb
            &&& a.peak_sysmem_mb == b.peak_sysmem_mb
            &&& a.sample_count == b.sample_count
            &&& a.parsed_params == b.parsed_model_params
            &&& a.latency_samples@.len() == 0
            &&& a.last_memory_update@.len() == 0
            &&& texts(a.display_names@) == deduplicated(texts(b.display_names@))
        }),
{
    assert(s.hashes@.dom().contains(k) <==> m.hash_metrics@.dom().contains(k));
    let r = resources_of(m);
    let n = no_resources();
    assert(r.llamesh_vram_mb == n.llamesh_vram_mb && r.max_sysmem_mb == n.max_sysmem_mb);
}

/// Names are kept once: whatever was added is there, nothing else, no name twice, and the names
/// that are new come last in their order.
pub proof fn law_names_kept_once(names: Seq<Seq<char>>, name: Seq<char>, other: Seq<char>)
    ensures
        deduplicated(names).contains(name) <==> names.contains(name),
        deduplicated(names).no_duplicates(),
        deduplicated(names.push(name)) == if names.contains(name) {
            deduplicated(names)
        } else {
            deduplicated(names).push(name)
        },
        names.contains(name) ==> with_name(names, name) == names,
        !names.contains(name) ==> with_name(names, name) == names.push(name),
    decreases names.len(),
{
    assert(names.push(name).drop_last() =~= names);
    if names.len() > 0 {
        let before = names.drop_last();
        law_names_kept_once(before, name, other);
        law_names_kept_once(before, names.last(), other);
        assert(before.push(names.last()) =~= names);
        let d = deduplicated(before);
        let e = deduplicated(names);
        if e.contains(name) {
            let i = choose|i: int| 0 <= i < e.len() && e[i] == name;
            if i < d.len() && d[i] == name {
                assert(d.contains(name));
                let j = choose|j: int| 0 <= j < before.len() && before[j] == name;
                assert(names[j] == name);
            } else {
                assert(names[names.len() - 1] == name);
            }
        }
        if names.contains(name) {
            let j = choose|j: int| 0 <= j < names.len() && names[j] == name;
            if j < before.len() {
                assert(before[j] == name);
                assert(d.contains(name));
                let i = choose|i: int| 0 <= i < d.len() && d[i] == name;
                assert(e[i] == name);
            } else if !before.contains(name) {
                assert(e[e.len() - 1] == name);
            } else {
                let i = choose|i: int| 0 <= i < d.len() && d[i] == name;
                assert(e[i] == name);
            }
        }
        assert(!d.contains(names.last()) ==> d.push(names.last()).no_duplicates());
    } else {
        assert(!names.contains(name));
    }
}

/// Parameters that were kept are given out unless they are known to come from another version.
pub proof fn law_parameters_of_another_version(stored: Option<String>, current: Option<Seq<char>>)
    ensures
        stored is None ==> params_hold(stored, current),
        current is None ==> params_hold(stored, current),
        stored is Some && current is Some ==> (params_hold(stored, current) <==> stored->0@
            == current->0),
{
}

/// Launch arguments of which nothing is known have no counts, no names and no parameters.
pub proof fn law_fresh_counts(h: HashMetrics)
    requires
        is_fresh(h),
    ensures
        h.requests_total == 0 && h.errors_total == 0 && h.tokens_generated_total == 0,
        h.total_latency_ms == 0 && h.latency_samples@.len() == 0,
        h.peak_vram_mb == 0 && h.peak_sysmem_mb == 0 && h.sample_count == 0,
        h.last_memory_update@.len() == 0 && h.display_names@.len() == 0,
        h.parsed_params is None,
{
}

/// Counts for launch arguments are sound with a hundred latencies at most and no name twice.
pub proof fn law_sound_counts(h: HashMetrics)
    ensures
        h.wf() <==> h.latency_samples@.len() <= 100 && texts(h.display_names@).no_duplicates(),
        MAX_LATENCY_SAMPLES == 100,
{
}

/// A node that has said nothing uses nothing, and what it says of its resources is kept under the
/// same names.
pub proof fn law_resources_by_name(m: Metrics)
    ensures
        ({
            let n = no_resources();
            let r = resources_of(m);
            &&& n.llamesh_vram_mb == 0 && n.llamesh_sysmem_mb == 0 && n.external_vram_mb == 0
            &&& n.effective_vram_mb == 0 && n.effective_sysmem_mb == 0 && n.device_vram_used_mb == 0
            &&& n.device_vram_total_mb == 0 && !n.gpu_telemetry_available && n.active_instances == 0
            &&& n.max_vram_mb == 0 && n.max_sysmem_mb == 0
            &&& r.llamesh_vram_mb == m.node_llamesh_vram_mb
            &&& r.llamesh_sysmem_mb == m.node_llamesh_sysmem_mb
            &&& r.external_vram_mb == m.node_external_vram_mb
            &&& r.effective_vram_mb == m.node_effective_vram_mb
            &&& r.effective_sysmem_mb == m.node_effective_sysmem_mb
            &&& r.device_vram_used_mb == m.node_device_vram_used_mb
            &&& r.device_vram_total_mb == m.node_device_vram_total_mb
            &&& r.gpu_telemetry_available == m.node_gpu_telemetry_available
            &&& r.active_instances == m.node_active_instances
            &&& r.max_vram_mb == m.node_max_vram_mb
            &&& r.max_sysmem_mb == m.node_max_sysmem_mb
        }),
{
}

} // verus!
