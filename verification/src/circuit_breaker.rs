//! Circuit breaker for peer connections.
//!
//! Prevents cascading failures by tracking peer health and temporarily blocking requests to
//! unhealthy peers.
//!
//! State transitions:
//! - Closed to Open: the failures reach the threshold
//! - Open to HalfOpen: the backoff has elapsed
//! - HalfOpen to Closed: the successes reach the threshold
//! - HalfOpen to Open: any failure, with a longer backoff
use vstd::prelude::*;
use vstd::arithmetic::power2::pow2;
use crate::clock::{instant_now, nanos_since};
use crate::string_map::StringMap;

verus! {

/// The states of a circuit.
#[derive(Debug, Clone, Copy, PartialEq, Eq, Structural)]
pub enum CircuitState {
    /// Normal operation: requests are allowed.
    Closed,
    /// Requests are blocked.
    Open,
    /// Testing recovery: a trickle of requests is allowed.
    HalfOpen,
}

/// What is known of one peer. Times are nanoseconds since the breaker was made.
#[derive(Debug, Clone, Copy)]
pub struct PeerCircuit {
    pub state: CircuitState,
    pub failure_count: u32,
    pub success_count: u32,
    pub last_failure: Option<u64>,
    pub last_state_change: u64,
    pub consecutive_opens: u32,
    /// When the circuit was made; `last_probe_ms` counts from here.
    pub created: u64,
    /// Milliseconds since `created` of the last admitted probe; 0 for never.
    pub last_probe_ms: u64,
}

/// How a circuit breaker behaves.
#[derive(Debug, Clone, Copy)]
pub struct CircuitBreakerConfig {
    /// Failures before a circuit opens.
    pub failure_threshold: u32,
    /// Successes in the half-open state that close a circuit.
    pub success_threshold: u32,
    /// Backoff after the first opening, in milliseconds.
    pub open_duration_base_ms: u64,
    /// Longest backoff, in milliseconds.
    pub open_duration_max_ms: u64,
    /// Shortest time between recovery probes, in milliseconds. With 0 every request is admitted
    /// once the backoff has elapsed.
    pub half_open_probe_interval_ms: u64,
    /// Whether the breaker does anything at all.
    pub enabled: bool,
}

pub fn default_failure_threshold() -> (r: u32)
    ensures
        r == 5,
{
    5
}

pub fn default_success_threshold() -> (r: u32)
    ensures
        r == 2,
{
    2
}

pub fn default_open_duration_base_ms() -> (r: u64)
    ensures
        r == 5000,
{
    5000
}

pub fn default_open_duration_max_ms() -> (r: u64)
    ensures
        r == 60000,
{
    60000
}

pub fn default_half_open_probe_interval_ms() -> (r: u64)
    ensures
        r == 1000,
{
    1000
}

pub fn default_enabled() -> (r: bool)
    ensures
        r,
{
    true
}

impl Default for CircuitBreakerConfig {
    fn default() -> (r: Self)
        ensures
            r.failure_threshold == 5,
            r.success_threshold == 2,
            r.open_duration_base_ms == 5000,
            r.open_duration_max_ms == 60000,
            r.half_open_probe_interval_ms == 1000,
            r.enabled,
    {
        CircuitBreakerConfig {
            failure_threshold: default_failure_threshold(),
            success_threshold: default_success_threshold(),
            open_duration_base_ms: default_open_duration_base_ms(),
            open_duration_max_ms: default_open_duration_max_ms(),
            half_open_probe_interval_ms: default_half_open_probe_interval_ms(),
            enabled: default_enabled(),
        }
    }
}

/// The nanoseconds from `from` to `now`; none where `now` is not later.
pub open spec fn elapsed(from: u64, now: u64) -> nat {
    if now >= from {
        (now - from) as nat
    } else {
        0
    }
}

/// How often the base backoff is doubled after `opens` openings in a row: not for the first, and
/// at most ten times.
pub open spec fn doublings(opens: u32) -> nat {
    if opens <= 1 {
        0
    } else if opens - 1 < 10 {
        (opens - 1) as nat
    } else {
        10
    }
}

/// The backoff after `opens` openings in a row, in milliseconds.
pub open spec fn backoff_ms(config: CircuitBreakerConfig, opens: u32) -> nat {
    let raw = config.open_duration_base_ms as nat * pow2(doublings(opens));
    if raw <= config.open_duration_max_ms {
        raw
    } else {
        config.open_duration_max_ms as nat
    }
}

/// Whether the backoff of an open circuit is over.
pub open spec fn backoff_over(config: CircuitBreakerConfig, c: PeerCircuit, now: u64) -> bool {
    elapsed(c.last_state_change, now) >= backoff_ms(config, c.consecutive_opens) * 1_000_000
}

/// The circuit of a peer of which nothing has been heard.
pub open spec fn new_circuit(now: u64) -> PeerCircuit {
    PeerCircuit {
        state: CircuitState::Closed,
        failure_count: 0,
        success_count: 0,
        last_failure: None,
        last_state_change: now,
        consecutive_opens: 0,
        created: now,
        last_probe_ms: 0,
    }
}

/// The stamp of a probe at `now`: whole milliseconds since the circuit was made, at least 1, so
/// that a probe in the first millisecond differs from none.
pub open spec fn probe_stamp(c: PeerCircuit, now: u64) -> u64 {
    let ms = elapsed(c.created, now) / 1_000_000;
    if ms == 0 {
        1
    } else {
        ms as u64
    }
}

/// Whether a recovery probe may go out: none has, or the last one is at least the interval ago.
pub open spec fn probe_free(c: PeerCircuit, interval_ms: u64, now: u64) -> bool {
    ||| interval_ms == 0
    ||| c.last_probe_ms == 0
    ||| probe_stamp(c, now) >= c.last_probe_ms && probe_stamp(c, now) - c.last_probe_ms
        >= interval_ms
}

/// The circuit after an attempt to claim a probe.
pub open spec fn after_claim(c: PeerCircuit, interval_ms: u64, now: u64) -> PeerCircuit {
    if interval_ms != 0 && probe_free(c, interval_ms, now) {
        PeerCircuit { last_probe_ms: probe_stamp(c, now), ..c }
    } else {
        c
    }
}

/// The half-open circuit that an open one becomes when its backoff is over.
pub open spec fn half_opened(c: PeerCircuit, now: u64) -> PeerCircuit {
    PeerCircuit {
        state: CircuitState::HalfOpen,
        last_state_change: now,
        success_count: 0,
        last_probe_ms: 0,
        ..c
    }
}

/// The circuit after a request was asked for, and whether it is allowed.
pub open spec fn allow_step(config: CircuitBreakerConfig, c: PeerCircuit, now: u64) -> (
    PeerCircuit,
    bool,
) {
    let interval = config.half_open_probe_interval_ms;
    match c.state {
        CircuitState::Closed => (c, true),
        CircuitState::Open => if backoff_over(config, c, now) {
            let h = half_opened(c, now);
            (after_claim(h, interval, now), probe_free(h, interval, now))
        } else {
            (c, false)
        },
        CircuitState::HalfOpen => (after_claim(c, interval, now), probe_free(c, interval, now)),
    }
}

/// The circuit after a request was asked for that may change no state, and whether it is allowed.
pub open spec fn sync_step(config: CircuitBreakerConfig, c: PeerCircuit, now: u64) -> (
    PeerCircuit,
    bool,
) {
    let interval = config.half_open_probe_interval_ms;
    if c.state == CircuitState::Closed {
        (c, true)
    } else if c.state == CircuitState::Open && !backoff_over(config, c, now) {
        (c, false)
    } else {
        (after_claim(c, interval, now), probe_free(c, interval, now))
    }
}

/// The closed circuit that a recovered one becomes.
pub open spec fn recovered(c: PeerCircuit, successes: u32, now: u64) -> PeerCircuit {
    PeerCircuit {
        state: CircuitState::Closed,
        last_state_change: now,
        success_count: successes,
        failure_count: 0,
        consecutive_opens: 0,
        last_probe_ms: 0,
        ..c
    }
}

/// The circuit after a request succeeded.
pub open spec fn success_step(
    config: CircuitBreakerConfig,
    c: PeerCircuit,
    now: u64,
) -> PeerCircuit {
    match c.state {
        CircuitState::HalfOpen => {
            let successes = (c.success_count + 1) as u32;
            if successes >= config.success_threshold {
                recovered(c, successes, now)
            } else {
                PeerCircuit { success_count: successes, ..c }
            }
        },
        CircuitState::Closed => PeerCircuit { failure_count: 0, ..c },
        CircuitState::Open => if backoff_over(config, c, now) {
            if 1 >= config.success_threshold {
                recovered(c, 1, now)
            } else {
                PeerCircuit {
                    state: CircuitState::HalfOpen,
                    last_state_change: now,
                    success_count: 1,
                    ..c
                }
            }
        } else {
            c
        },
    }
}

/// Whether a failure at `now` opens the circuit, or opens it again.
pub open spec fn failure_opens(config: CircuitBreakerConfig, c: PeerCircuit, now: u64) -> bool {
    match c.state {
        CircuitState::Closed => c.failure_count + 1 >= config.failure_threshold,
        CircuitState::HalfOpen => true,
        CircuitState::Open => backoff_over(config, c, now),
    }
}

/// Whether the counts of a circuit have room for one more failure.
pub open spec fn failure_fits(config: CircuitBreakerConfig, c: PeerCircuit, now: u64) -> bool {
    &&& c.failure_count < u32::MAX
    &&& failure_opens(config, c, now) ==> c.consecutive_opens < u32::MAX
}

/// The circuit after a request failed.
pub open spec fn failure_step(
    config: CircuitBreakerConfig,
    c: PeerCircuit,
    now: u64,
) -> PeerCircuit {
    let counted = PeerCircuit {
        failure_count: (c.failure_count + 1) as u32,
        last_failure: Some(now),
        ..c
    };
    if !failure_opens(config, c, now) {
        counted
    } else if c.state == CircuitState::Closed {
        PeerCircuit {
            state: CircuitState::Open,
            last_state_change: now,
            consecutive_opens: (c.consecutive_opens + 1) as u32,
            ..counted
        }
    } else {
        PeerCircuit {
            state: CircuitState::Open,
            last_state_change: now,
            consecutive_opens: (c.consecutive_opens + 1) as u32,
            success_count: 0,
            last_probe_ms: 0,
            ..counted
        }
    }
}

/// Whether the successes of a half-open circuit are still below the threshold.
pub open spec fn successes_pending(config: CircuitBreakerConfig, c: PeerCircuit) -> bool {
    c.state == CircuitState::HalfOpen ==> c.success_count == 0 || c.success_count
        < config.success_threshold
}

impl CircuitBreakerConfig {
    /// The backoff after `consecutive_opens` openings in a row, in milliseconds: the base,
    /// doubled with each opening after the first, and never more than the maximum.
    pub fn calculate_backoff(&self, consecutive_opens: u32) -> (r: u64)
        ensures
            r == backoff_ms(*self, consecutive_opens),
    {
        let exponent: u32 = if consecutive_opens <= 1 {
            0
        } else if consecutive_opens - 1 < 10 {
            consecutive_opens - 1
        } else {
            10
        };
        let mut factor: u64 = 1;
        let mut k: u32 = 0;
        proof {
            vstd::arithmetic::power2::lemma2_to64();
        }
        while k < exponent
            invariant
                k <= exponent <= 10,
                factor == pow2(k as nat),
                factor <= pow2(10),
                pow2(10) == 1024,
            decreases exponent - k,
        {
            proof {
                vstd::arithmetic::power2::lemma_pow2_unfold((k + 1) as nat);
                if k + 1 < 10 {
                    vstd::arithmetic::power2::lemma_pow2_strictly_increases((k + 1) as nat, 10);
                }
            }
            factor = factor * 2;
            k = k + 1;
        }
        proof {
            assert(self.open_duration_base_ms * factor <= u64::MAX * 1024) by (nonlinear_arith)
                requires
                    0 <= self.open_duration_base_ms <= u64::MAX,
                    0 <= factor <= 1024,
            ;
        }
        let raw: u128 = self.open_duration_base_ms as u128 * factor as u128;
        if raw <= self.open_duration_max_ms as u128 {
            raw as u64
        } else {
            self.open_duration_max_ms
        }
    }
}

impl PeerCircuit {
    /// The circuit of a peer of which nothing has been heard.
    pub fn new(now: u64) -> (r: PeerCircuit)
        ensures
            r == new_circuit(now),
    {
        PeerCircuit {
            state: CircuitState::Closed,
            failure_count: 0,
            success_count: 0,
            last_failure: None,
            last_state_change: now,
            consecutive_opens: 0,
            created: now,
            last_probe_ms: 0,
        }
    }

    /// Tries to claim a recovery probe. At most one probe is admitted per `interval_ms`, so a
    /// recovering peer sees a trickle of probes instead of the whole queued backlog. With an
    /// interval of 0 every request is admitted.
    pub fn try_claim_probe(&mut self, interval_ms: u64, now: u64) -> (r: bool)
        ensures
            r == probe_free(*old(self), interval_ms, now),
            *final(self) == after_claim(*old(self), interval_ms, now),
    {
        if interval_ms == 0 {
            return true;
        }
        let ms: u64 = now.saturating_sub(self.created) / 1_000_000;
        let now_ms: u64 = if ms == 0 {
            1
        } else {
            ms
        };
        let last: u64 = self.last_probe_ms;
        if last != 0 && now_ms.saturating_sub(last) < interval_ms {
            return false;
        }
        self.last_probe_ms = now_ms;
        true
    }

    /// Forgets the last probe.
    pub fn reset_probe(&mut self)
        ensures
            *final(self) == (PeerCircuit { last_probe_ms: 0, ..*old(self) }),
    {
        self.last_probe_ms = 0;
    }

    /// Whether the backoff of this circuit, taken as open, is over.
    pub fn backoff_elapsed(&self, config: &CircuitBreakerConfig, now: u64) -> (r: bool)
        ensures
            r == backoff_over(*config, *self, now),
    {
        let backoff: u64 = config.calculate_backoff(self.consecutive_opens);
        let waited: u64 = now.saturating_sub(self.last_state_change);
        waited as u128 >= backoff as u128 * 1_000_000
    }

    /// Asks whether a request may go out; an open circuit whose backoff is over turns half-open.
    pub fn allow(&mut self, config: &CircuitBreakerConfig, now: u64) -> (r: bool)
        ensures
            (*final(self), r) == allow_step(*config, *old(self), now),
    {
        match self.state {
            CircuitState::Closed => true,
            CircuitState::Open => {
                if self.backoff_elapsed(config, now) {
                    self.state = CircuitState::HalfOpen;
                    self.last_state_change = now;
                    self.success_count = 0;
                    self.reset_probe();
                    self.try_claim_probe(config.half_open_probe_interval_ms, now)
                } else {
                    false
                }
            },
            CircuitState::HalfOpen => self.try_claim_probe(config.half_open_probe_interval_ms, now),
        }
    }

    /// Asks whether a request may go out without changing the state of the circuit.
    pub fn allow_sync(&mut self, config: &CircuitBreakerConfig, now: u64) -> (r: bool)
        ensures
            (*final(self), r) == sync_step(*config, *old(self), now),
    {
        match self.state {
            CircuitState::Closed => true,
            CircuitState::HalfOpen => self.try_claim_probe(config.half_open_probe_interval_ms, now),
            CircuitState::Open => {
                if !self.backoff_elapsed(config, now) {
                    return false;
                }
                self.try_claim_probe(config.half_open_probe_interval_ms, now)
            },
        }
    }

    /// Takes note of a request that succeeded.
    pub fn succeed(&mut self, config: &CircuitBreakerConfig, now: u64)
        requires
            successes_pending(*config, *old(self)),
        ensures
            *final(self) == success_step(*config, *old(self), now),
    {
        match self.state {
            CircuitState::HalfOpen => {
                self.success_count = self.success_count + 1;
                if self.success_count >= config.success_threshold {
                    self.state = CircuitState::Closed;
                    self.last_state_change = now;
                    self.failure_count = 0;
                    self.consecutive_opens = 0;
                    self.reset_probe();
                }
            },
            CircuitState::Closed => {
                self.failure_count = 0;
            },
            CircuitState::Open => {
                // A success after the backoff is a recovery probe that came through. One inside
                // it answers a request that was sent before the circuit opened.
                if self.backoff_elapsed(config, now) {
                    self.last_state_change = now;
                    self.success_count = 1;
                    if self.success_count >= config.success_threshold {
                        self.state = CircuitState::Closed;
                        self.failure_count = 0;
                        self.consecutive_opens = 0;
                        self.reset_probe();
                    } else {
                        self.state = CircuitState::HalfOpen;
                    }
                }
            },
        }
    }

    /// Takes note of a request that failed.
    pub fn fail(&mut self, config: &CircuitBreakerConfig, now: u64)
        requires
            failure_fits(*config, *old(self), now),
        ensures
            *final(self) == failure_step(*config, *old(self), now),
    {
        let lapsed = self.backoff_elapsed(config, now);
        self.failure_count = self.failure_count + 1;
        self.last_failure = Some(now);
        match self.state {
            CircuitState::Closed => {
                if self.failure_count >= config.failure_threshold {
                    self.state = CircuitState::Open;
                    self.last_state_change = now;
                    self.consecutive_opens = self.consecutive_opens + 1;
                }
            },
            CircuitState::HalfOpen => {
                self.state = CircuitState::Open;
                self.last_state_change = now;
                self.consecutive_opens = self.consecutive_opens + 1;
                self.success_count = 0;
                self.reset_probe();
            },
            CircuitState::Open => {
                // A failure after the backoff is a recovery probe that did not come through: the
                // block starts again, for longer.
                if lapsed {
                    self.last_state_change = now;
                    self.consecutive_opens = self.consecutive_opens + 1;
                    self.success_count = 0;
                    self.reset_probe();
                }
            },
        }
    }
}

/// The circuits of all peers.
pub struct CircuitBreaker {
    pub circuits: StringMap<PeerCircuit>,
    pub config: CircuitBreakerConfig,
    /// The zero of every time in the circuits.
    pub epoch: std::time::Instant,
}

/// The circuit of a peer, or a new one where there is none.
pub open spec fn circuit_of(
    circuits: Map<Seq<char>, PeerCircuit>,
    peer: Seq<char>,
    now: u64,
) -> PeerCircuit {
    if circuits.contains_key(peer) {
        circuits[peer]
    } else {
        new_circuit(now)
    }
}

/// The state of a peer's circuit; closed where there is none.
pub open spec fn state_of(circuits: Map<Seq<char>, PeerCircuit>, peer: Seq<char>) -> CircuitState {
    if circuits.contains_key(peer) {
        circuits[peer].state
    } else {
        CircuitState::Closed
    }
}

/// Whether the counts of a peer's circuit have room for one more failure at any time.
pub open spec fn has_failure_room(circuits: Map<Seq<char>, PeerCircuit>, peer: Seq<char>) -> bool {
    circuits.contains_key(peer) ==> circuits[peer].failure_count < u32::MAX
        && circuits[peer].consecutive_opens < u32::MAX
}

impl View for CircuitBreaker {
    type V = Map<Seq<char>, PeerCircuit>;

    open spec fn view(&self) -> Map<Seq<char>, PeerCircuit> {
        self.circuits@
    }
}

impl CircuitBreaker {
    /// Each peer has one circuit, and the successes of the half-open ones are below the threshold.
    pub open spec fn wf(&self) -> bool {
        &&& self.circuits.wf()
        &&& forall|peer: Seq<char>| #[trigger]
            self@.contains_key(peer) ==> successes_pending(self.config, self@[peer])
    }

    /// A breaker without circuits.
    pub fn new(config: CircuitBreakerConfig) -> (r: CircuitBreaker)
        ensures
            r.wf(),
            r.config == config,
            r@ == Map::<Seq<char>, PeerCircuit>::empty(),
    {
        CircuitBreaker { circuits: StringMap::new(), config, epoch: instant_now() }
    }

    /// The circuit of a peer, or a new one where there is none.
    pub fn circuit(&self, peer_id: &str, now: u64) -> (r: PeerCircuit)
        ensures
            r == circuit_of(self@, peer_id@, now),
    {
        match self.circuits.get(peer_id) {
            Some(c) => *c,
            None => PeerCircuit::new(now),
        }
    }

    /// Asks at `now` whether a request to a peer may go out.
    pub fn should_allow_at(&mut self, peer_id: &str, now: u64) -> (r: bool)
        requires
            old(self).wf(),
        ensures
            final(self).wf(),
            final(self).config == old(self).config,
            final(self).epoch == old(self).epoch,
            !old(self).config.enabled ==> r && final(self)@ == old(self)@,
            old(self).config.enabled ==> {
                let (c, allowed) = allow_step(
                    old(self).config,
                    circuit_of(old(self)@, peer_id@, now),
                    now,
                );
                r == allowed && final(self)@ == old(self)@.insert(peer_id@, c)
            },
    {
        if !self.config.enabled {
            return true;
        }
        let mut c = self.circuit(peer_id, now);
        let allowed = c.allow(&self.config, now);
        self.circuits.insert(peer_id.to_owned(), c);
        allowed
    }

    /// Asks whether a request to a peer may go out. An open circuit whose backoff is over turns
    /// half-open.
    pub fn should_allow(&mut self, peer_id: &str) -> (r: bool)
        requires
            old(self).wf(),
        ensures
            final(self).wf(),
            final(self).config == old(self).config,
            final(self).epoch == old(self).epoch,
            !old(self).config.enabled ==> r && final(self)@ == old(self)@,
            old(self).config.enabled ==> exists|now: u64|
                {
                    let (c, allowed) = #[trigger] allow_step(
                        old(self).config,
                        circuit_of(old(self)@, peer_id@, now),
                        now,
                    );
                    r == allowed && final(self)@ == old(self)@.insert(peer_id@, c)
                },
    {
        let now: u64 = nanos_since(&self.epoch);
        self.should_allow_at(peer_id, now)
    }

    /// Asks at `now` whether a request to a peer may go out, changing the state of no circuit:
    /// a peer without a circuit gets none, and an open circuit whose backoff is over stays open
    /// while it admits one probe per interval.
    pub fn should_allow_sync_at(&mut self, peer_id: &str, now: u64) -> (r: bool)
        requires
            old(self).wf(),
        ensures
            final(self).wf(),
            final(self).config == old(self).config,
            final(self).epoch == old(self).epoch,
            !old(self).config.enabled || !old(self)@.contains_key(peer_id@) ==> r && final(self)@
                == old(self)@,
            old(self).config.enabled && old(self)@.contains_key(peer_id@) ==> {
                let (c, allowed) = sync_step(old(self).config, old(self)@[peer_id@], now);
                r == allowed && final(self)@ == old(self)@.insert(peer_id@, c)
            },
    {
        if !self.config.enabled {
            return true;
        }
        let mut c: PeerCircuit = match self.circuits.get(peer_id) {
            Some(c) => *c,
            None => return true,
        };
        let allowed = c.allow_sync(&self.config, now);
        self.circuits.insert(peer_id.to_owned(), c);
        allowed
    }

    /// Asks whether a request to a peer may go out, changing the state of no circuit.
    pub fn should_allow_sync(&mut self, peer_id: &str) -> (r: bool)
        requires
            old(self).wf(),
        ensures
            final(self).wf(),
            final(self).config == old(self).config,
            final(self).epoch == old(self).epoch,
            !old(self).config.enabled || !old(self)@.contains_key(peer_id@) ==> r && final(self)@
                == old(self)@,
            old(self).config.enabled && old(self)@.contains_key(peer_id@) ==> exists|now: u64|
                {
                    let (c, allowed) = #[trigger] sync_step(
                        old(self).config,
                        old(self)@[peer_id@],
                        now,
                    );
                    r == allowed && final(self)@ == old(self)@.insert(peer_id@, c)
                },
    {
        let now: u64 = nanos_since(&self.epoch);
        self.should_allow_sync_at(peer_id, now)
    }

    /// Takes note at `now` of a request to a peer that succeeded.
    pub fn record_success_at(&mut self, peer_id: &str, now: u64)
        requires
            old(self).wf(),
        ensures
            final(self).wf(),
            final(self).config == old(self).config,
            final(self).epoch == old(self).epoch,
            !old(self).config.enabled ==> final(self)@ == old(self)@,
            old(self).config.enabled ==> final(self)@ == old(self)@.insert(
                peer_id@,
                success_step(old(self).config, circuit_of(old(self)@, peer_id@, now), now),
            ),
    {
        if !self.config.enabled {
            return;
        }
        let mut c = self.circuit(peer_id, now);
        c.succeed(&self.config, now);
        self.circuits.insert(peer_id.to_owned(), c);
    }

    /// Takes note of a request to a peer that succeeded.
    pub fn record_success(&mut self, peer_id: &str)
        requires
            old(self).wf(),
        ensures
            final(self).wf(),
            final(self).config == old(self).config,
            final(self).epoch == old(self).epoch,
            !old(self).config.enabled ==> final(self)@ == old(self)@,
            old(self).config.enabled ==> exists|now: u64|
                final(self)@ == old(self)@.insert(
                    peer_id@,
                    #[trigger] success_step(
                        old(self).config,
                        circuit_of(old(self)@, peer_id@, now),
                        now,
                    ),
                ),
    {
        let now: u64 = nanos_since(&self.epoch);
        self.record_success_at(peer_id, now)
    }

    /// Takes note at `now` of a request to a peer that failed.
    pub fn record_failure_at(&mut self, peer_id: &str, now: u64)
        requires
            old(self).wf(),
            old(self).config.enabled ==> failure_fits(
                old(self).config,
                circuit_of(old(self)@, peer_id@, now),
                now,
            ),
        ensures
            final(self).wf(),
            final(self).config == old(self).config,
            final(self).epoch == old(self).epoch,
            !old(self).config.enabled ==> final(self)@ == old(self)@,
            old(self).config.enabled ==> final(self)@ == old(self)@.insert(
                peer_id@,
                failure_step(old(self).config, circuit_of(old(self)@, peer_id@, now), now),
            ),
    {
        if !self.config.enabled {
            return;
        }
        let mut c = self.circuit(peer_id, now);
        c.fail(&self.config, now);
        self.circuits.insert(peer_id.to_owned(), c);
    }

    /// Takes note of a request to a peer that failed.
    pub fn record_failure(&mut self, peer_id: &str)
        requires
            old(self).wf(),
            old(self).config.enabled ==> has_failure_room(old(self)@, peer_id@),
        ensures
            final(self).wf(),
            final(self).config == old(self).config,
            final(self).epoch == old(self).epoch,
            !old(self).config.enabled ==> final(self)@ == old(self)@,
            old(self).config.enabled ==> exists|now: u64|
                final(self)@ == old(self)@.insert(
                    peer_id@,
                    #[trigger] failure_step(
                        old(self).config,
                        circuit_of(old(self)@, peer_id@, now),
                        now,
                    ),
                ),
    {
        let now: u64 = nanos_since(&self.epoch);
        self.record_failure_at(peer_id, now)
    }

    /// Whether the counts of a peer's circuit have room for one more failure.
    pub fn failure_room(&self, peer_id: &str) -> (r: bool)
        ensures
            r == has_failure_room(self@, peer_id@),
    {
        match self.circuits.get(peer_id) {
            Some(c) => c.failure_count < u32::MAX && c.consecutive_opens < u32::MAX,
            None => true,
        }
    }

    /// The state of a peer's circuit.
    pub fn get_state(&self, peer_id: &str) -> (r: CircuitState)
        ensures
            r == state_of(self@, peer_id@),
    {
        match self.circuits.get(peer_id) {
            Some(c) => c.state,
            None => CircuitState::Closed,
        }
    }

    /// The state of every circuit.
    pub fn get_all_states(&self) -> (r: StringMap<CircuitState>)
        requires
            self.wf(),
        ensures
            r.wf(),
            r@ == self@.map_values(|c: PeerCircuit| c.state),
            r.entries@.len() == self.circuits.entries@.len(),
            forall|i: int|
                0 <= i < r.entries@.len() ==> (#[trigger] r.entries@[i]).0@
                    == self.circuits.entries@[i].0@ && r.entries@[i].1
                    == self.circuits.entries@[i].1.state,
    {
        let mut states: Vec<(String, CircuitState)> = Vec::new();
        let mut i: usize = 0;
        while i < self.circuits.entries.len()
            invariant
                i == states@.len(),
                i <= self.circuits.entries@.len(),
                forall|j: int|
                    0 <= j < i ==> (#[trigger] states@[j]).0@ == self.circuits.entries@[j].0@
                        && states@[j].1 == self.circuits.entries@[j].1.state,
            decreases self.circuits.entries@.len() - i,
        {
            states.push((self.circuits.entries[i].0.clone(), self.circuits.entries[i].1.state));
            i = i + 1;
        }
        let r = StringMap { entries: states };
        proof {
            crate::string_map::lemma_same_keys(self.circuits.entries@, r.entries@);
            assert forall|k: Seq<char>| #[trigger] r@.contains_key(k) implies r@[k]
                == self@[k].state by {
                crate::string_map::lemma_position(r.entries@, k);
                let p = crate::string_map::position(r.entries@, k);
                assert(r.entries@[p].1 == self.circuits.entries@[p].1.state);
            }
            assert(r@ =~= self@.map_values(|c: PeerCircuit| c.state));
        }
        r
    }

    /// The backoff after `consecutive_opens` openings in a row, in milliseconds.
    pub fn calculate_backoff(&self, consecutive_opens: u32) -> (r: u64)
        ensures
            r == backoff_ms(self.config, consecutive_opens),
    {
        self.config.calculate_backoff(consecutive_opens)
    }

    /// Forgets a peer's circuit.
    pub fn reset(&mut self, peer_id: &str)
        requires
            old(self).wf(),
        ensures
            final(self).wf(),
            final(self).config == old(self).config,
            final(self).epoch == old(self).epoch,
            final(self)@ == old(self)@.remove(peer_id@),
    {
        let ghost before = self@;
        let _ = self.circuits.remove(peer_id);
        proof {
            assert forall|peer: Seq<char>| #[trigger] self@.contains_key(
                peer,
            ) implies successes_pending(self.config, self@[peer]) by {
                assert(before.contains_key(peer));
            }
        }
    }
}

/// The circuit after failures at the given times, one after another.
pub open spec fn failures(
    config: CircuitBreakerConfig,
    c: PeerCircuit,
    times: Seq<u64>,
) -> PeerCircuit
    decreases times.len(),
{
    if times.len() == 0 {
        c
    } else {
        failure_step(config, failures(config, c, times.drop_last()), times.last())
    }
}

/// The circuit after successes at the given times, one after another.
pub open spec fn successes(
    config: CircuitBreakerConfig,
    c: PeerCircuit,
    times: Seq<u64>,
) -> PeerCircuit
    decreases times.len(),
{
    if times.len() == 0 {
        c
    } else {
        success_step(config, successes(config, c, times.drop_last()), times.last())
    }
}

/// Fewer failures in a row than the threshold leave a new circuit closed, with all of them
/// counted.
pub proof fn law_closed_below_threshold(config: CircuitBreakerConfig, made: u64, times: Seq<u64>)
    requires
        times.len() < config.failure_threshold,
    ensures
        failures(config, new_circuit(made), times).state == CircuitState::Closed,
        failures(config, new_circuit(made), times).failure_count == times.len(),
        failures(config, new_circuit(made), times).consecutive_opens == 0,
    decreases times.len(),
{
    if times.len() > 0 {
        law_closed_below_threshold(config, made, times.drop_last());
    }
}

/// As many failures in a row as the threshold open a new circuit, at the time of the last one.
pub proof fn law_opens_at_threshold(config: CircuitBreakerConfig, made: u64, times: Seq<u64>)
    requires
        times.len() == config.failure_threshold,
        times.len() > 0,
    ensures
        failures(config, new_circuit(made), times).state == CircuitState::Open,
        failures(config, new_circuit(made), times).last_state_change == times.last(),
        failures(config, new_circuit(made), times).consecutive_opens == 1,
{
    law_closed_below_threshold(config, made, times.drop_last());
}

/// A success in between starts the count of a closed circuit again.
pub proof fn law_success_resets_count(config: CircuitBreakerConfig, c: PeerCircuit, now: u64)
    requires
        c.state == CircuitState::Closed,
    ensures
        success_step(config, c, now) == (PeerCircuit { failure_count: 0, ..c }),
{
}

/// While the backoff of an open circuit runs, no request goes out, nothing that is asked changes the
/// circuit, a success changes nothing, and a failure is only counted.
pub proof fn law_open_blocks_until_backoff(config: CircuitBreakerConfig, c: PeerCircuit, now: u64)
    requires
        c.state == CircuitState::Open,
        elapsed(c.last_state_change, now) < backoff_ms(config, c.consecutive_opens) * 1_000_000,
    ensures
        allow_step(config, c, now) == (c, false),
        sync_step(config, c, now) == (c, false),
        success_step(config, c, now) == c,
        failure_step(config, c, now) == (PeerCircuit {
            failure_count: (c.failure_count + 1) as u32,
            last_failure: Some(now),
            ..c
        }),
{
}

/// When its backoff is over, an open circuit lets a request out, and turns
/// half-open.
pub proof fn law_first_probe_after_backoff(config: CircuitBreakerConfig, c: PeerCircuit, now: u64)
    requires
        c.state == CircuitState::Open,
        backoff_over(config, c, now),
    ensures
        allow_step(config, c, now).1,
        allow_step(config, c, now).0.state == CircuitState::HalfOpen,
        allow_step(config, c, now).0.success_count == 0,
{
}

/// A failure of a circuit that is being tested opens it again with one more opening in a row, and
/// at that moment no request goes out, unless the backoff is zero.
pub proof fn law_failed_probe_reopens(config: CircuitBreakerConfig, c: PeerCircuit, now: u64)
    requires
        c.state == CircuitState::HalfOpen || c.state == CircuitState::Open && backoff_over(
            config,
            c,
            now,
        ),
        failure_fits(config, c, now),
        config.open_duration_base_ms > 0,
        config.open_duration_max_ms > 0,
    ensures
        failure_step(config, c, now).state == CircuitState::Open,
        failure_step(config, c, now).consecutive_opens == c.consecutive_opens + 1,
        failure_step(config, c, now).last_state_change == now,
        !allow_step(config, failure_step(config, c, now), now).1,
        !sync_step(config, failure_step(config, c, now), now).1,
{
    let after = failure_step(config, c, now);
    let d = doublings(after.consecutive_opens);
    vstd::arithmetic::power2::lemma_pow2_pos(d);
    assert(config.open_duration_base_ms as nat * pow2(d) > 0) by (nonlinear_arith)
        requires
            config.open_duration_base_ms > 0,
            pow2(d) > 0,
    ;
}

/// The backoff never shrinks with more openings in a row, and never exceeds the maximum.
pub proof fn law_backoff_monotone(config: CircuitBreakerConfig, fewer: u32, more: u32)
    requires
        fewer <= more,
    ensures
        backoff_ms(config, fewer) <= backoff_ms(config, more) <= config.open_duration_max_ms,
{
    let a = doublings(fewer);
    let b = doublings(more);
    if a < b {
        vstd::arithmetic::power2::lemma_pow2_strictly_increases(a, b);
    }
    assert(config.open_duration_base_ms as nat * pow2(a) <= config.open_duration_base_ms as nat
        * pow2(b)) by (nonlinear_arith)
        requires
            pow2(a) <= pow2(b),
    ;
}

/// Up to the eleventh opening in a row each opening doubles the backoff, as far as the maximum
/// allows.
pub proof fn law_backoff_doubles(config: CircuitBreakerConfig, opens: u32)
    requires
        1 <= opens <= 10,
    ensures
        backoff_ms(config, (opens + 1) as u32) == if 2 * backoff_ms(config, opens)
            <= config.open_duration_max_ms {
            2 * backoff_ms(config, opens)
        } else {
            config.open_duration_max_ms as nat
        },
{
    let d = doublings(opens);
    vstd::arithmetic::power2::lemma_pow2_unfold(d + 1);
    assert(config.open_duration_base_ms as nat * (2 * pow2(d)) == 2 * (
    config.open_duration_base_ms as nat * pow2(d))) by (nonlinear_arith);
}

/// Of two claims in one probe interval at most the first is admitted.
pub proof fn law_one_probe_per_interval(c: PeerCircuit, interval_ms: u64, first: u64, second: u64)
    requires
        interval_ms > 0,
        first <= second,
        probe_free(c, interval_ms, first),
        probe_stamp(c, second) - probe_stamp(c, first) < interval_ms,
    ensures
        !probe_free(after_claim(c, interval_ms, first), interval_ms, second),
        after_claim(after_claim(c, interval_ms, first), interval_ms, second) == after_claim(
            c,
            interval_ms,
            first,
        ),
{
}

/// Without an interval every claim is admitted.
pub proof fn law_no_interval_admits_all(c: PeerCircuit, now: u64)
    ensures
        probe_free(c, 0, now),
        after_claim(c, 0, now) == c,
{
}

/// As many successes as the threshold close a circuit that has just turned half-open, and forget
/// its failures and openings; fewer leave it half-open.
pub proof fn law_recovery_closes(config: CircuitBreakerConfig, c: PeerCircuit, times: Seq<u64>)
    requires
        c.state == CircuitState::HalfOpen,
        c.success_count == 0,
        0 < times.len() <= config.success_threshold,
    ensures
        times.len() < config.success_threshold ==> successes(config, c, times) == (PeerCircuit {
            success_count: times.len() as u32,
            ..c
        }),
        times.len() == config.success_threshold ==> successes(config, c, times) == recovered(
            c,
            times.len() as u32,
            times.last(),
        ),
    decreases times.len(),
{
    reveal_with_fuel(successes, 2);
    if times.len() > 1 {
        law_recovery_closes(config, c, times.drop_last());
    }
}

/// Asking without a change of state touches nothing but the stamp of the last probe.
pub proof fn law_sync_step_keeps_state(config: CircuitBreakerConfig, c: PeerCircuit, now: u64)
    ensures
        sync_step(config, c, now).0 == (PeerCircuit {
            last_probe_ms: sync_step(config, c, now).0.last_probe_ms,
            ..c
        }),
{
}

/// Successes alone bring a peer back, without anyone asking first: as many as
/// the threshold, the first of them after the backoff, close an open circuit.
pub proof fn law_recovery_through_results(
    config: CircuitBreakerConfig,
    c: PeerCircuit,
    times: Seq<u64>,
)
    requires
        c.state == CircuitState::Open,
        0 < times.len() <= config.success_threshold,
        backoff_over(config, c, times[0]),
    ensures
        times.len() < config.success_threshold ==> successes(config, c, times).state
            == CircuitState::HalfOpen && successes(config, c, times).success_count == times.len(),
        times.len() == config.success_threshold ==> successes(config, c, times).state
            == CircuitState::Closed && successes(config, c, times).failure_count == 0
            && successes(config, c, times).consecutive_opens == 0,
    decreases times.len(),
{
    reveal_with_fuel(successes, 2);
    if times.len() > 1 {
        law_recovery_through_results(config, c, times.drop_last());
    }
}

/// A circuit that was reset is closed and lets requests out.
pub proof fn law_reset_allows(
    config: CircuitBreakerConfig,
    circuits: Map<Seq<char>, PeerCircuit>,
    peer: Seq<char>,
    now: u64,
)
    ensures
        state_of(circuits.remove(peer), peer) == CircuitState::Closed,
        allow_step(config, circuit_of(circuits.remove(peer), peer, now), now).1,
{
}

/// Whether a circuit is closed if and only if it has not opened since it last recovered.
pub open spec fn opens_match(c: PeerCircuit) -> bool {
    c.state == CircuitState::Closed <==> c.consecutive_opens == 0
}

/// A closed circuit is exactly one with no openings in a row: it is so of a new circuit, and no
/// step changes it.
pub proof fn law_closed_without_opens(config: CircuitBreakerConfig, c: PeerCircuit, now: u64)
    requires
        opens_match(c),
    ensures
        opens_match(new_circuit(now)),
        opens_match(allow_step(config, c, now).0),
        opens_match(sync_step(config, c, now).0),
        opens_match(success_step(config, c, now)),
        failure_fits(config, c, now) ==> opens_match(failure_step(config, c, now)),
{
}

/// Something that happens to a circuit, and when.
pub enum CircuitEvent {
    /// A request is asked for.
    Ask { now: u64 },
    /// A request is asked for that may change no state.
    AskSync { now: u64 },
    Success { now: u64 },
    Failure { now: u64 },
}

/// The circuit after an event.
pub open spec fn event_step(
    config: CircuitBreakerConfig,
    c: PeerCircuit,
    event: CircuitEvent,
) -> PeerCircuit {
    match event {
        CircuitEvent::Ask { now } => allow_step(config, c, now).0,
        CircuitEvent::AskSync { now } => sync_step(config, c, now).0,
        CircuitEvent::Success { now } => success_step(config, c, now),
        CircuitEvent::Failure { now } => failure_step(config, c, now),
    }
}

/// The circuit after some events, one after another.
pub open spec fn circuit_after(
    config: CircuitBreakerConfig,
    c: PeerCircuit,
    events: Seq<CircuitEvent>,
) -> PeerCircuit
    decreases events.len(),
{
    if events.len() == 0 {
        c
    } else {
        event_step(config, circuit_after(config, c, events.drop_last()), events.last())
    }
}

/// Whether the counts of a circuit have room for every failure among some events.
pub open spec fn events_fit(
    config: CircuitBreakerConfig,
    c: PeerCircuit,
    events: Seq<CircuitEvent>,
) -> bool
    decreases events.len(),
{
    events.len() == 0 || events_fit(config, c, events.drop_last()) && match events.last() {
        CircuitEvent::Failure { now } => failure_fits(
            config,
            circuit_after(config, c, events.drop_last()),
            now,
        ),
        _ => true,
    }
}

/// Whatever has happened since a circuit was made: while it is closed its failures are below the
/// threshold, it is closed exactly if it has no openings in a row, and while it is half-open its
/// successes are below their threshold.
pub proof fn law_reachable_circuits(
    config: CircuitBreakerConfig,
    made: u64,
    events: Seq<CircuitEvent>,
)
    requires
        config.failure_threshold > 0,
        events_fit(config, new_circuit(made), events),
    ensures
        ({
            let c = circuit_after(config, new_circuit(made), events);
            &&& c.state == CircuitState::Closed ==> c.failure_count < config.failure_threshold
            &&& opens_match(c)
            &&& successes_pending(config, c)
        }),
    decreases events.len(),
{
    if events.len() > 0 {
        law_reachable_circuits(config, made, events.drop_last());
    }
}

/// The threshold counts from the last success: whatever a closed circuit has been through, fewer
/// failures than the threshold after a success leave it closed with all of them counted, and as
/// many as the threshold open it at the time of the last one.
pub proof fn law_threshold_counts_from_success(
    config: CircuitBreakerConfig,
    c: PeerCircuit,
    success: u64,
    times: Seq<u64>,
)
    requires
        c.state == CircuitState::Closed,
        opens_match(c),
        0 < config.failure_threshold,
        times.len() <= config.failure_threshold,
    ensures
        ({
            let after = failures(config, success_step(config, c, success), times);
            &&& times.len() < config.failure_threshold ==> after.state == CircuitState::Closed
                && after.failure_count == times.len() && after.consecutive_opens == 0
            &&& times.len() == config.failure_threshold ==> after.state == CircuitState::Open
                && after.last_state_change == times.last() && after.consecutive_opens == 1
        }),
    decreases times.len(),
{
    if times.len() > 0 {
        law_threshold_counts_from_success(config, c, success, times.drop_last());
    }
}

/// Whole milliseconds from one time to a later one, at least one.
pub open spec fn whole_ms(from: u64, to: u64) -> int {
    if to - from < 1_000_000 {
        1
    } else {
        (to - from) / 1_000_000
    }
}

/// A half-open circuit lets a request out exactly when none has been let out since it turned
/// half-open, or no interval is set, or the last one that was is at least the interval ago; and
/// then notes the time. Otherwise nothing changes. Asking without a change of state does the same.
pub proof fn law_half_open_probes(config: CircuitBreakerConfig, c: PeerCircuit, now: u64)
    requires
        c.state == CircuitState::HalfOpen,
        c.created <= now,
    ensures
        ({
            let interval = config.half_open_probe_interval_ms;
            let (after, allowed) = allow_step(config, c, now);
            &&& allowed <==> interval == 0 || c.last_probe_ms == 0 || whole_ms(c.created, now)
                - c.last_probe_ms >= interval
            &&& after.state == CircuitState::HalfOpen
            &&& allowed && interval > 0 ==> after.last_probe_ms == whole_ms(c.created, now)
            &&& !allowed || interval == 0 ==> after.last_probe_ms == c.last_probe_ms
            &&& after.failure_count == c.failure_count && after.success_count == c.success_count
                && after.last_failure == c.last_failure && after.last_state_change
                == c.last_state_change && after.consecutive_opens == c.consecutive_opens
                && after.created == c.created
            &&& sync_step(config, c, now) == (after, allowed)
        }),
{
}

/// After a probe of a half-open circuit another is let out exactly when the interval has passed,
/// however often was asked in between and whether or not the probe has succeeded by then, as long
/// as the circuit is half-open.
pub proof fn law_next_probe_after_interval(
    config: CircuitBreakerConfig,
    c: PeerCircuit,
    first: u64,
    asked: u64,
    succeeded: u64,
    second: u64,
)
    requires
        c.state == CircuitState::HalfOpen,
        config.half_open_probe_interval_ms > 0,
        c.created <= first <= asked <= second,
        allow_step(config, c, first).1,
        whole_ms(c.created, asked) - whole_ms(c.created, first)
            < config.half_open_probe_interval_ms,
        c.success_count + 1 < config.success_threshold,
    ensures
        ({
            let probed = allow_step(config, c, first).0;
            let waiting = allow_step(config, probed, asked);
            let half_way = success_step(config, waiting.0, succeeded);
            let due = whole_ms(c.created, second) - whole_ms(c.created, first)
                >= config.half_open_probe_interval_ms;
            &&& !waiting.1
            &&& allow_step(config, waiting.0, second).1 <==> due
            &&& sync_step(config, waiting.0, second).1 <==> due
            &&& half_way.state == CircuitState::HalfOpen
            &&& allow_step(config, half_way, second).1 <==> due
            &&& sync_step(config, half_way, second).1 <==> due
        }),
{
}

/// A closed circuit lets every request out, and asking leaves it as it is.
pub proof fn law_closed_lets_out(config: CircuitBreakerConfig, c: PeerCircuit, now: u64)
    requires
        c.state == CircuitState::Closed,
    ensures
        allow_step(config, c, now) == (c, true),
        sync_step(config, c, now) == (c, true),
{
}

/// When the backoff of an open circuit is over, the first that asks is let out and turns it
/// half-open at that time with its successes at none; the failures and openings stay counted.
/// Before that nobody is, and nothing changes.
pub proof fn law_open_turns_half_open(config: CircuitBreakerConfig, c: PeerCircuit, now: u64)
    requires
        c.state == CircuitState::Open,
        c.created <= now,
        c.last_state_change <= now,
    ensures
        ({
            let (after, allowed) = allow_step(config, c, now);
            let interval = config.half_open_probe_interval_ms;
            &&& allowed <==> now - c.last_state_change >= backoff_ms(config, c.consecutive_opens)
                * 1_000_000
            &&& !allowed ==> after == c
            &&& allowed ==> after.state == CircuitState::HalfOpen && after.last_state_change == now
                && after.success_count == 0
            &&& allowed && interval > 0 ==> after.last_probe_ms == whole_ms(c.created, now)
            &&& allowed && interval == 0 ==> after.last_probe_ms == 0
            &&& after.failure_count == c.failure_count && after.last_failure == c.last_failure
                && after.consecutive_opens == c.consecutive_opens && after.created == c.created
        }),
{
}

/// An open circuit stays open while it is asked without a change of state: its probes are those of
/// a half-open one once the backoff is over, and before that there are none.
pub proof fn law_open_probes_without_change(config: CircuitBreakerConfig, c: PeerCircuit, now: u64)
    requires
        c.state == CircuitState::Open,
        c.created <= now,
        c.last_state_change <= now,
    ensures
        ({
            let (after, allowed) = sync_step(config, c, now);
            let interval = config.half_open_probe_interval_ms;
            &&& allowed <==> now - c.last_state_change >= backoff_ms(config, c.consecutive_opens)
                * 1_000_000 && (interval == 0 || c.last_probe_ms == 0 || whole_ms(c.created, now)
                - c.last_probe_ms >= interval)
            &&& !allowed ==> after == c
            &&& allowed && interval > 0 ==> after.last_probe_ms == whole_ms(c.created, now)
            &&& after.state == CircuitState::Open
            &&& after.last_state_change == c.last_state_change
        }),
{
}

/// The first opening in a row waits for the base and a second one twice as long, up to the
/// maximum; from the eleventh on the wait stays the same.
pub proof fn law_backoff_from_base(config: CircuitBreakerConfig, opens: u32)
    ensures
        config.open_duration_base_ms <= config.open_duration_max_ms ==> backoff_ms(config, 0)
            == config.open_duration_base_ms && backoff_ms(config, 1)
            == config.open_duration_base_ms,
        config.open_duration_base_ms > config.open_duration_max_ms ==> backoff_ms(config, 0)
            == config.open_duration_max_ms && backoff_ms(config, 1) == config.open_duration_max_ms,
        opens >= 11 ==> backoff_ms(config, opens) == backoff_ms(config, 11),
        2 * config.open_duration_base_ms <= config.open_duration_max_ms ==> backoff_ms(config, 2)
            == 2 * config.open_duration_base_ms,
{
    vstd::arithmetic::power2::lemma2_to64();
    assert(pow2(0) == 1 && pow2(1) == 2);
    let base = config.open_duration_base_ms as nat;
    assert(base * pow2(0) == base) by (nonlinear_arith)
        requires
            pow2(0) == 1,
    ;
    assert(base * pow2(1) == 2 * base) by (nonlinear_arith)
        requires
            pow2(1) == 2,
    ;
}

/// Every failure is counted and its time kept. It opens a closed circuit if the count reaches the
/// threshold, and one that is being tested at once; an open one whose backoff runs stays as it is.
/// An opening counts as one more in a row, and begins at that time.
pub proof fn law_failure_counts(config: CircuitBreakerConfig, c: PeerCircuit, now: u64)
    requires
        c.failure_count < u32::MAX,
        c.consecutive_opens < u32::MAX,
        c.last_state_change <= now,
    ensures
        ({
            let after = failure_step(config, c, now);
            let opens = c.state == CircuitState::Closed && c.failure_count + 1
                >= config.failure_threshold || c.state == CircuitState::HalfOpen || c.state
                == CircuitState::Open && now - c.last_state_change >= backoff_ms(
                config,
                c.consecutive_opens,
            ) * 1_000_000;
            &&& after.failure_count == c.failure_count + 1
            &&& after.last_failure == Some(now)
            &&& after.created == c.created
            &&& opens ==> after.state == CircuitState::Open && after.last_state_change == now
                && after.consecutive_opens == c.consecutive_opens + 1
            &&& opens && c.state != CircuitState::Closed ==> after.success_count == 0
                && after.last_probe_ms == 0
            &&& !opens ==> after.state == c.state && after.last_state_change == c.last_state_change
                && after.consecutive_opens == c.consecutive_opens
            &&& !opens || c.state == CircuitState::Closed ==> after.success_count
                == c.success_count && after.last_probe_ms == c.last_probe_ms
        }),
{
}

/// A success forgets the failures of a closed circuit. A half-open one it brings one closer to the
/// threshold, at which it closes at that time, with no failures, no openings and no probe; an open
/// one it turns half-open once the backoff is over, and before that it does nothing.
pub proof fn law_success_counts(config: CircuitBreakerConfig, c: PeerCircuit, now: u64)
    requires
        c.success_count < u32::MAX,
        c.last_state_change <= now,
    ensures
        ({
            let after = success_step(config, c, now);
            let due = c.state == CircuitState::Open && now - c.last_state_change >= backoff_ms(
                config,
                c.consecutive_opens,
            ) * 1_000_000;
            let closes = c.state == CircuitState::HalfOpen && c.success_count + 1
                >= config.success_threshold || due && 1 >= config.success_threshold;
            &&& c.state == CircuitState::Closed ==> after.state == CircuitState::Closed
                && after.failure_count == 0 && after.consecutive_opens == c.consecutive_opens
                && after.last_state_change == c.last_state_change && after.success_count
                == c.success_count && after.last_probe_ms == c.last_probe_ms
            &&& c.state == CircuitState::Open && !due ==> after == c
            &&& closes ==> after.state == CircuitState::Closed && after.last_state_change == now
                && after.failure_count == 0 && after.consecutive_opens == 0 && after.last_probe_ms
                == 0
            &&& c.state == CircuitState::HalfOpen && !closes ==> after.state
                == CircuitState::HalfOpen && after.success_count == c.success_count + 1
                && after.failure_count == c.failure_count && after.last_state_change
                == c.last_state_change && after.consecutive_opens == c.consecutive_opens
                && after.last_probe_ms == c.last_probe_ms
            &&& due && !closes ==> after.state == CircuitState::HalfOpen && after.last_state_change
                == now && after.success_count == 1 && after.failure_count == c.failure_count
                && after.consecutive_opens == c.consecutive_opens && after.last_probe_ms
                == c.last_probe_ms
            &&& after.created == c.created && after.last_failure == c.last_failure
        }),
{
}

/// A peer of which nothing has been heard has a closed circuit without any counts, made now, and a
/// peer that is known keeps its own.
pub proof fn law_unknown_peer_is_closed(
    circuits: Map<Seq<char>, PeerCircuit>,
    peer: Seq<char>,
    now: u64,
)
    ensures
        !circuits.contains_key(peer) ==> ({
            let c = circuit_of(circuits, peer, now);
            &&& c.state == CircuitState::Closed && c.failure_count == 0 && c.success_count == 0
            &&& c.last_failure is None && c.consecutive_opens == 0 && c.last_probe_ms == 0
            &&& c.created == now && c.last_state_change == now
            &&& state_of(circuits, peer) == CircuitState::Closed
        }),
        circuits.contains_key(peer) ==> circuit_of(circuits, peer, now) == circuits[peer]
            && state_of(circuits, peer) == circuits[peer].state,
{
}

/// A clock that has not moved on since a change lets no backoff be over but one of no length.
pub proof fn law_no_time_no_backoff(config: CircuitBreakerConfig, c: PeerCircuit, now: u64)
    requires
        now <= c.last_state_change,
    ensures
        backoff_over(config, c, now) <==> backoff_ms(config, c.consecutive_opens) == 0,
{
}

/// A probe is noted by the whole milliseconds since the circuit was made, but by one in the first
/// millisecond, and by one too where the clock stands before the circuit was made.
pub proof fn law_stamp_of_probe(c: PeerCircuit, now: u64)
    ensures
        now < c.created + 2_000_000 ==> probe_stamp(c, now) == 1,
        now >= c.created + 1_000_000 ==> probe_stamp(c, now) * 1_000_000 <= now - c.created && now
            - c.created < (probe_stamp(c, now) + 1) * 1_000_000,
        elapsed(c.created, now) == if now > c.created {
            (now - c.created) as nat
        } else {
            0
        },
{
}

/// There is room for another failure of a peer that is not known, and of one that is as long as
/// neither of its counts is full.
pub proof fn law_room_for_failures(
    config: CircuitBreakerConfig,
    circuits: Map<Seq<char>, PeerCircuit>,
    peer: Seq<char>,
    now: u64,
)
    ensures
        !circuits.contains_key(peer) ==> has_failure_room(circuits, peer),
        circuits.contains_key(peer) ==> (has_failure_room(circuits, peer)
            <==> circuits[peer].failure_count < u32::MAX && circuits[peer].consecutive_opens
            < u32::MAX),
        has_failure_room(circuits, peer) ==> failure_fits(
            config,
            circuit_of(circuits, peer, now),
            now,
        ),
{
}

} // verus!
