//! Rounds of gossip: whom to tell, what counts as told, and who may tell this node.
use vstd::prelude::*;
use crate::circuit_breaker::{
    circuit_of, failure_fits, failure_step, has_failure_room, state_of, success_step, sync_step,
    CircuitBreaker, CircuitBreakerConfig, CircuitState, PeerCircuit,
};
use crate::cluster::{
    mismatch_to_log, process_gossip_message, schemed, taken_in, version_rejected, versions_noted,
    with_scheme, GossipMessage, GossipOutcome, PeerInfo, PeerState, PeerTable,
};
use crate::config::NodeConfig;
use crate::net::Endpoint;
use crate::paths::{law_last_piece, lemma_pieces_some, pieces, split, texts};
use crate::string_map::StringMap;
use crate::text::{same, trim_trailing, without_trailing};

verus! {

/// Someone to tell.
#[derive(Debug, Clone)]
pub struct GossipTarget {
    /// The address of the peer.
    pub peer_url: String,
    /// Where the message goes.
    pub url: String,
    /// The name of the peer's circuit: its node id, or its address while that is unknown.
    pub breaker_key: String,
    /// The node id that the peer must prove, where it is known.
    pub expected_node_id: Option<String>,
}

/// Everyone who may be told: the seeds, the discovered, the known.
pub open spec fn candidates(
    seeds: Seq<Seq<char>>,
    discovered: Seq<Seq<char>>,
    known: Seq<(String, PeerState)>,
) -> Seq<Seq<char>> {
    seeds + discovered.map_values(|a: Seq<char>| schemed(a)) + known.map_values(
        |e: (String, PeerState)| e.1.address@,
    )
}

/// Where the message to a peer goes.
pub open spec fn gossip_url(peer_url: Seq<char>) -> Seq<char> {
    without_trailing(peer_url, seq!['/']) + "/cluster/gossip"@
}

/// Whether a known peer has this address.
pub open spec fn address_known(known: Seq<(String, PeerState)>, address: Seq<char>) -> bool {
    exists|i: int| 0 <= i < known.len() && (#[trigger] known[i]).1.address@ == address
}

/// Whether the known peer at `i` has this address and node id.
pub open spec fn names_peer(
    known: Seq<(String, PeerState)>,
    i: int,
    address: Seq<char>,
    id: Seq<char>,
) -> bool {
    0 <= i < known.len() && known[i].1.address@ == address && known[i].1.node_id@ == id
}

/// Whether a target is drawn up as it should be for its address.
pub open spec fn target_ok(known: Seq<(String, PeerState)>, t: GossipTarget) -> bool {
    &&& t.url@ == gossip_url(t.peer_url@)
    &&& match t.expected_node_id {
        Some(id) => t.breaker_key@ == id@ && exists|i: int| #[trigger]
            names_peer(known, i, t.peer_url@, id@),
        None => t.breaker_key@ == t.peer_url@ && !address_known(known, t.peer_url@),
    }
}

/// The addresses of targets.
pub open spec fn target_urls(targets: Seq<GossipTarget>) -> Seq<Seq<char>> {
    targets.map_values(|t: GossipTarget| t.peer_url@)
}

/// The node id of a known peer with this address. Of several the last one counts.
fn node_id_at(known: &StringMap<PeerState>, address: &str) -> (r: Option<String>)
    ensures
        match r {
            Some(id) => exists|i: int| #[trigger]
                names_peer(known.entries@, i, address@, id@),
            None => !address_known(known.entries@, address@),
        },
{
    let mut i: usize = known.entries.len();
    while i > 0
        invariant
            i <= known.entries@.len(),
            forall|j: int|
                i <= j < known.entries@.len() ==> (#[trigger] known.entries@[j]).1.address@
                    != address@,
        decreases i,
    {
        i = i - 1;
        if same(known.entries[i].1.address.as_str(), address) {
            let found = Some(known.entries[i].1.node_id.clone());
            assert(names_peer(known.entries@, i as int, address@, found->0@));
            return found;
        }
    }
    None
}

fn make_target(known: &StringMap<PeerState>, peer_url: &str) -> (r: GossipTarget)
    ensures
        r.peer_url@ == peer_url@,
        target_ok(known.entries@, r),
{
    let mut url = trim_trailing(peer_url, &['/']);
    assert(['/']@ =~= seq!['/']);
    url.append("/cluster/gossip");
    let expected_node_id = node_id_at(known, peer_url);
    let breaker_key = match &expected_node_id {
        Some(id) => id.clone(),
        None => peer_url.to_owned(),
    };
    GossipTarget { peer_url: peer_url.to_owned(), url, breaker_key, expected_node_id }
}

/// Whether targets are exactly those among the first candidates that are not this node, each once.
pub open spec fn covers(
    targets: Seq<GossipTarget>,
    known: Seq<(String, PeerState)>,
    candidates: Seq<Seq<char>>,
    own_address: Seq<char>,
) -> bool {
    &&& target_urls(targets).no_duplicates()
    &&& forall|u: Seq<char>| #[trigger]
        target_urls(targets).contains(u) <==> candidates.contains(u) && u != own_address
    &&& forall|i: int| 0 <= i < targets.len() ==> target_ok(known, #[trigger] targets[i])
}

fn add_target(
    targets: &mut Vec<GossipTarget>,
    known: &StringMap<PeerState>,
    peer_url: &str,
    own_address: &str,
    Ghost(seen): Ghost<Seq<Seq<char>>>,
)
    requires
        covers(old(targets)@, known.entries@, seen, own_address@),
    ensures
        covers(final(targets)@, known.entries@, seen.push(peer_url@), own_address@),
{
    let ghost before = targets@;
    let ghost more = seen.push(peer_url@);
    assert(more[seen.len() as int] == peer_url@);
    assert forall|u: Seq<char>| #[trigger] more.contains(u) <==> seen.contains(u) || u
        == peer_url@ by {
        if seen.contains(u) {
            let k = choose|k: int| 0 <= k < seen.len() && seen[k] == u;
            assert(more[k] == u);
        }
        if more.contains(u) && u != peer_url@ {
            let k = choose|k: int| 0 <= k < more.len() && more[k] == u;
            assert(seen[k] == u);
        }
    }
    if same(peer_url, own_address) {
        return;
    }
    let mut i: usize = 0;
    while i < targets.len()
        invariant
            i <= targets@.len(),
            targets@ == before,
            more == seen.push(peer_url@),
            peer_url@ != own_address@,
            covers(before, known.entries@, seen, own_address@),
            forall|u: Seq<char>| #[trigger]
                more.contains(u) <==> seen.contains(u) || u == peer_url@,
            forall|j: int| 0 <= j < i ==> (#[trigger] before[j]).peer_url@ != peer_url@,
        decreases targets@.len() - i,
    {
        if same(targets[i].peer_url.as_str(), peer_url) {
            assert(target_urls(before)[i as int] == peer_url@);
            assert(target_urls(before).contains(peer_url@));
            return;
        }
        i = i + 1;
    }
    let t = make_target(known, peer_url);
    targets.push(t);
    proof {
        let after = target_urls(targets@);
        assert(after =~= target_urls(before).push(peer_url@));
        assert(!target_urls(before).contains(peer_url@)) by {
            if target_urls(before).contains(peer_url@) {
                let k = choose|k: int|
                    0 <= k < target_urls(before).len() && target_urls(before)[k] == peer_url@;
                assert(before[k].peer_url@ == peer_url@);
            }
        }
        assert forall|u: Seq<char>| #[trigger] after.contains(u) <==> more.contains(u) && u
            != own_address@ by {
            assert(after[before.len() as int] == peer_url@);
            if target_urls(before).contains(u) {
                let k = choose|k: int|
                    0 <= k < target_urls(before).len() && target_urls(before)[k] == u;
                assert(after[k] == u);
            }
            if after.contains(u) && u != peer_url@ {
                let k = choose|k: int| 0 <= k < after.len() && after[k] == u;
                assert(target_urls(before)[k] == u);
            }
        }
        assert forall|i: int| 0 <= i < targets@.len() implies target_ok(
            known.entries@,
            #[trigger] targets@[i],
        ) by {
            if i < before.len() {
                assert(targets@[i] == before[i]);
            }
        }
    }
}

/// Whom to tell in a round of gossip: the seeds, the peers that were discovered, and the known
/// peers, each once, but not this node itself.
pub fn plan_gossip_round(
    seeds: &Vec<String>,
    discovered: &Vec<String>,
    known: &StringMap<PeerState>,
    own_address: &str,
) -> (r: Vec<GossipTarget>)
    ensures
        covers(
            r@,
            known.entries@,
            candidates(texts(seeds@), texts(discovered@), known.entries@),
            own_address@,
        ),
{
    let ghost all = candidates(texts(seeds@), texts(discovered@), known.entries@);
    let ghost entries = known.entries@;
    let mut targets: Vec<GossipTarget> = Vec::new();
    assert(all.take(0) =~= Seq::<Seq<char>>::empty());
    assert(target_urls(targets@) =~= Seq::<Seq<char>>::empty());
    let mut i: usize = 0;
    while i < seeds.len()
        invariant
            i <= seeds@.len(),
            all == candidates(texts(seeds@), texts(discovered@), known.entries@),
            covers(targets@, known.entries@, all.take(i as int), own_address@),
        decreases seeds@.len() - i,
    {
        assert(all[i as int] == seeds@[i as int]@);
        add_target(&mut targets, known, seeds[i].as_str(), own_address, Ghost(all.take(i as int)));
        assert(all.take(i as int).push(seeds@[i as int]@) =~= all.take(i + 1));
        i = i + 1;
    }
    let ghost n = seeds@.len() as int;
    let mut j: usize = 0;
    while j < discovered.len()
        invariant
            j <= discovered@.len(),
            n == seeds@.len(),
            all == candidates(texts(seeds@), texts(discovered@), known.entries@),
            covers(targets@, known.entries@, all.take(n + j), own_address@),
        decreases discovered@.len() - j,
    {
        let url = with_scheme(discovered[j].as_str());
        assert(texts(discovered@)[j as int] == discovered@[j as int]@);
        assert(all[n + j] == url@);
        add_target(&mut targets, known, url.as_str(), own_address, Ghost(all.take(n + j)));
        assert(all.take(n + j).push(url@) =~= all.take(n + j + 1));
        j = j + 1;
    }
    let ghost m = n + discovered@.len();
    let mut k: usize = 0;
    while k < known.entries.len()
        invariant
            k <= known.entries@.len(),
            m == seeds@.len() + discovered@.len(),
            all == candidates(texts(seeds@), texts(discovered@), known.entries@),
            covers(targets@, known.entries@, all.take(m + k), own_address@),
        decreases known.entries@.len() - k,
    {
        assert(all[m + k] == known.entries@[k as int].1.address@);
        add_target(
            &mut targets,
            known,
            known.entries[k].1.address.as_str(),
            own_address,
            Ghost(all.take(m + k)),
        );
        assert(all.take(m + k).push(known.entries@[k as int].1.address@) =~= all.take(
            m + k + 1,
        ));
        k = k + 1;
    }
    assert(all.take(m + k) =~= all);
    targets
}

/// The known peers as they are passed on.
pub fn known_peers_info(known: &StringMap<PeerState>) -> (r: Vec<PeerInfo>)
    ensures
        r@.len() == known.entries@.len(),
        forall|i: int|
            0 <= i < r@.len() ==> (#[trigger] r@[i]).node_id@ == known.entries@[i].1.node_id@
                && r@[i].address@ == known.entries@[i].1.address@,
{
    let mut out: Vec<PeerInfo> = Vec::new();
    let mut i: usize = 0;
    while i < known.entries.len()
        invariant
            i == out@.len(),
            i <= known.entries@.len(),
            forall|j: int|
                0 <= j < i ==> (#[trigger] out@[j]).node_id@ == known.entries@[j].1.node_id@
                    && out@[j].address@ == known.entries@[j].1.address@,
        decreases known.entries@.len() - i,
    {
        out.push(
            PeerInfo {
                node_id: known.entries[i].1.node_id.clone(),
                address: known.entries[i].1.address.clone(),
            },
        );
        i = i + 1;
    }
    out
}

/// Whether a peer was told: it answered with a status of success, and its answer could be read to
/// the end. An answer that stalls is a failure whatever its status.
pub fn gossip_succeeded(status: u16, drained: bool) -> (r: bool)
    ensures
        r == (200 <= status < 300 && drained),
{
    200 <= status && status < 300 && drained
}

/// What came of telling a peer: the status of its answer, and whether that could be read to the
/// end; nothing where there was no answer.
#[derive(Debug, Clone, Copy, PartialEq, Eq, Structural)]
pub struct GossipAnswer {
    pub status: u16,
    pub drained: bool,
}

/// Whether a peer was told.
pub open spec fn was_told(answer: Option<GossipAnswer>) -> bool {
    answer is Some && 200 <= answer->0.status < 300 && answer->0.drained
}

/// Claims at `now` the recovery probe of a peer for a message of gossip, if one is free. A circuit
/// that is closed has none.
pub fn claim_gossip_probe_at(breaker: &mut CircuitBreaker, key: &str, now: u64) -> (r: bool)
    requires
        old(breaker).wf(),
    ensures
        final(breaker).wf(),
        final(breaker).config == old(breaker).config,
        final(breaker).epoch == old(breaker).epoch,
        !old(breaker).config.enabled || state_of(old(breaker)@, key@) == CircuitState::Closed ==> !r
            && final(breaker)@ == old(breaker)@,
        old(breaker).config.enabled && state_of(old(breaker)@, key@) != CircuitState::Closed ==> {
            let (c, allowed) = sync_step(old(breaker).config, old(breaker)@[key@], now);
            r == allowed && final(breaker)@ == old(breaker)@.insert(key@, c)
        },
{
    if !breaker.config.enabled || breaker.get_state(key) == CircuitState::Closed {
        return false;
    }
    breaker.should_allow_sync_at(key, now)
}

/// Claims the recovery probe of a peer for a message of gossip, if one is free.
pub fn claim_gossip_probe(breaker: &mut CircuitBreaker, key: &str) -> (r: bool)
    requires
        old(breaker).wf(),
    ensures
        final(breaker).wf(),
        final(breaker).config == old(breaker).config,
        final(breaker).epoch == old(breaker).epoch,
        !old(breaker).config.enabled || state_of(old(breaker)@, key@) == CircuitState::Closed ==> !r
            && final(breaker)@ == old(breaker)@,
        old(breaker).config.enabled && state_of(old(breaker)@, key@) != CircuitState::Closed
            ==> exists|now: u64|
            {
                let (c, allowed) = #[trigger] sync_step(
                    old(breaker).config,
                    old(breaker)@[key@],
                    now,
                );
                r == allowed && final(breaker)@ == old(breaker)@.insert(key@, c)
            },
{
    if !breaker.config.enabled || breaker.get_state(key) == CircuitState::Closed {
        return false;
    }
    breaker.should_allow_sync(key)
}

/// Whether what came of a message of gossip counts: a circuit that is not closed heeds it only if
/// the message held the recovery probe.
pub open spec fn gossip_counts(state: CircuitState, claimed: bool) -> bool {
    state == CircuitState::Closed || claimed
}

/// The circuit of a peer after it was told or not. `claimed` says whether the message held the
/// recovery probe.
pub open spec fn gossip_step(
    config: CircuitBreakerConfig,
    c: PeerCircuit,
    told: bool,
    claimed: bool,
    now: u64,
) -> PeerCircuit {
    if !gossip_counts(c.state, claimed) {
        c
    } else if told {
        success_step(config, c, now)
    } else {
        failure_step(config, c, now)
    }
}

/// Whether a circuit has recovered from one moment to another.
pub open spec fn has_recovered(before: CircuitState, after: CircuitState) -> bool {
    before != CircuitState::Closed && after == CircuitState::Closed
}

/// Takes note at `now` in the peer's circuit of what came of telling it, and says whether the
/// circuit recovered, so that those who wait for the peer are to be woken. `claimed` says whether
/// the message held the recovery probe.
pub fn record_gossip_at(
    breaker: &mut CircuitBreaker,
    key: &str,
    answer: Option<GossipAnswer>,
    claimed: bool,
    now: u64,
) -> (r: bool)
    requires
        old(breaker).wf(),
        old(breaker).config.enabled && !was_told(answer) && gossip_counts(
            state_of(old(breaker)@, key@),
            claimed,
        ) ==> failure_fits(old(breaker).config, circuit_of(old(breaker)@, key@, now), now),
    ensures
        final(breaker).wf(),
        final(breaker).config == old(breaker).config,
        final(breaker).epoch == old(breaker).epoch,
        final(breaker)@ == if !old(breaker).config.enabled {
            old(breaker)@
        } else {
            old(breaker)@.insert(
                key@,
                gossip_step(
                    old(breaker).config,
                    circuit_of(old(breaker)@, key@, now),
                    was_told(answer),
                    claimed,
                    now,
                ),
            )
        },
        r == has_recovered(state_of(old(breaker)@, key@), state_of(final(breaker)@, key@)),
{
    let told = match answer {
        Some(a) => gossip_succeeded(a.status, a.drained),
        None => false,
    };
    let before = breaker.get_state(key);
    if before != CircuitState::Closed && !claimed {
        assert(breaker@.insert(key@, breaker@[key@]) =~= breaker@);
        return false;
    }
    if told {
        breaker.record_success_at(key, now);
    } else {
        breaker.record_failure_at(key, now);
    }
    before != CircuitState::Closed && breaker.get_state(key) == CircuitState::Closed
}

/// Takes note in the peer's circuit of what came of telling it, and says whether the circuit
/// recovered.
pub fn record_gossip(
    breaker: &mut CircuitBreaker,
    key: &str,
    answer: Option<GossipAnswer>,
    claimed: bool,
) -> (r: bool)
    requires
        old(breaker).wf(),
        old(breaker).config.enabled && !was_told(answer) && gossip_counts(
            state_of(old(breaker)@, key@),
            claimed,
        ) ==> has_failure_room(old(breaker)@, key@),
    ensures
        final(breaker).wf(),
        final(breaker).config == old(breaker).config,
        final(breaker).epoch == old(breaker).epoch,
        !old(breaker).config.enabled || !gossip_counts(state_of(old(breaker)@, key@), claimed)
            ==> final(breaker)@ == old(breaker)@,
        old(breaker).config.enabled && gossip_counts(state_of(old(breaker)@, key@), claimed)
            ==> exists|now: u64|
            final(breaker)@ == old(breaker)@.insert(
                key@,
                #[trigger] gossip_step(
                    old(breaker).config,
                    circuit_of(old(breaker)@, key@, now),
                    was_told(answer),
                    claimed,
                    now,
                ),
            ),
        r == has_recovered(state_of(old(breaker)@, key@), state_of(final(breaker)@, key@)),
{
    let told = match answer {
        Some(a) => gossip_succeeded(a.status, a.drained),
        None => false,
    };
    let ghost circuits = breaker@;
    let ghost config = breaker.config;
    let before = breaker.get_state(key);
    if before != CircuitState::Closed && !claimed {
        return false;
    }
    if told {
        breaker.record_success(key);
        proof {
            if config.enabled {
                let now = choose|now: u64|
                    breaker@ == circuits.insert(
                        key@,
                        #[trigger] success_step(config, circuit_of(circuits, key@, now), now),
                    );
                assert(gossip_step(config, circuit_of(circuits, key@, now), true, claimed, now)
                    == success_step(config, circuit_of(circuits, key@, now), now));
            }
        }
    } else {
        breaker.record_failure(key);
        proof {
            if config.enabled {
                let now = choose|now: u64|
                    breaker@ == circuits.insert(
                        key@,
                        #[trigger] failure_step(config, circuit_of(circuits, key@, now), now),
                    );
                assert(gossip_step(config, circuit_of(circuits, key@, now), false, claimed, now)
                    == failure_step(config, circuit_of(circuits, key@, now), now));
            }
        }
    }
    before != CircuitState::Closed && breaker.get_state(key) == CircuitState::Closed
}

/// A message of gossip without the recovery probe drives no recovery: it leaves a circuit that is
/// not closed as it is. On a closed one it counts like any request.
pub proof fn law_no_recovery_without_probe(
    config: CircuitBreakerConfig,
    c: PeerCircuit,
    told: bool,
    now: u64,
)
    ensures
        c.state != CircuitState::Closed ==> gossip_step(config, c, told, false, now) == c,
        c.state == CircuitState::Closed ==> gossip_step(config, c, told, false, now) == if told {
            success_step(config, c, now)
        } else {
            failure_step(config, c, now)
        },
        !has_recovered(c.state, gossip_step(config, c, told, false, now).state),
{
}

/// Who is at the other end of a connection.
#[derive(Debug, Clone)]
pub struct PeerIdentity {
    pub authenticated: bool,
    /// The common name of its certificate.
    pub node_id: Option<String>,
}

/// Why a message is refused.
#[derive(Debug, Clone)]
pub enum GossipRefusal {
    NoiseRequired,
    CertificateRequired,
    CertificateWithoutName,
    WrongName { certificate: String, claimed: String },
    MutualTlsRequired,
}

/// Whether mutual TLS between nodes is on.
pub open spec fn cluster_tls_on(config: NodeConfig) -> bool {
    config.cluster_tls is Some && config.cluster_tls->0.enabled
}

/// Whether a sender may speak for a node, over plain or TLS connections: with mutual TLS it shows
/// a certificate with that name; without it, it may unless messages must come over Noise.
pub open spec fn may_gossip(
    config: NodeConfig,
    identity: Option<PeerIdentity>,
    claimed: Seq<char>,
) -> bool {
    if cluster_tls_on(config) {
        identity is Some && identity->0.authenticated && identity->0.node_id is Some
            && identity->0.node_id->0@ == claimed
    } else {
        !config.cluster.noise.enabled
    }
}

/// The reason why a sender may not speak for a node.
pub open spec fn refusal_ok(
    config: NodeConfig,
    identity: Option<PeerIdentity>,
    claimed: Seq<char>,
    refusal: GossipRefusal,
) -> bool {
    match refusal {
        GossipRefusal::NoiseRequired => !cluster_tls_on(config) && config.cluster.noise.enabled,
        GossipRefusal::MutualTlsRequired => cluster_tls_on(config) && identity is None,
        GossipRefusal::CertificateRequired => cluster_tls_on(config) && identity is Some
            && !identity->0.authenticated,
        GossipRefusal::CertificateWithoutName => cluster_tls_on(config) && identity is Some
            && identity->0.authenticated && identity->0.node_id is None,
        GossipRefusal::WrongName { certificate, claimed: c } => cluster_tls_on(config)
            && identity is Some && identity->0.authenticated && identity->0.node_id is Some
            && identity->0.node_id->0@ == certificate@ && certificate@ != claimed && c@ == claimed,
    }
}

/// Checks whether a sender may speak for a node.
pub fn authorize_gossip(
    config: &NodeConfig,
    identity: Option<&PeerIdentity>,
    claimed: &str,
) -> (r: Result<(), GossipRefusal>)
    ensures
        ({
            let id = match identity {
                Some(i) => Some(*i),
                None => None,
            };
            match r {
                Ok(_) => may_gossip(*config, id, claimed@),
                Err(e) => !may_gossip(*config, id, claimed@) && refusal_ok(
                    *config,
                    id,
                    claimed@,
                    e,
                ),
            }
        }),
{
    let tls = match &config.cluster_tls {
        Some(c) => c.enabled,
        None => false,
    };
    if config.cluster.noise.enabled && !tls {
        return Err(GossipRefusal::NoiseRequired);
    }
    if tls {
        match identity {
            Some(id) => {
                if !id.authenticated {
                    return Err(GossipRefusal::CertificateRequired);
                }
                match &id.node_id {
                    Some(cn) => {
                        if !same(cn.as_str(), claimed) {
                            return Err(
                                GossipRefusal::WrongName {
                                    certificate: cn.clone(),
                                    claimed: claimed.to_owned(),
                                },
                            );
                        }
                    },
                    None => return Err(GossipRefusal::CertificateWithoutName),
                }
            },
            None => return Err(GossipRefusal::MutualTlsRequired),
        }
    }
    Ok(())
}

pub const WRONG_NAME_A: &'static str = "Certificate CN '";

pub const WRONG_NAME_B: &'static str = "' does not match Node ID '";

/// The words for a refusal.
pub open spec fn refusal_text(e: GossipRefusal) -> Seq<char> {
    match e {
        GossipRefusal::NoiseRequired => "Noise transport required for gossip"@,
        GossipRefusal::CertificateRequired => "Client certificate required"@,
        GossipRefusal::CertificateWithoutName => "Client certificate missing CN"@,
        GossipRefusal::WrongName { certificate, claimed } => WRONG_NAME_A@ + certificate@
            + WRONG_NAME_B@ + claimed@ + "'"@,
        GossipRefusal::MutualTlsRequired => "Mutual TLS required for gossip"@,
    }
}

impl GossipRefusal {
    /// The HTTP status: a wrong name is forbidden, everything else unauthorized.
    pub fn status(&self) -> (r: u16)
        ensures
            r == if self is WrongName {
                403u16
            } else {
                401u16
            },
    {
        match self {
            GossipRefusal::WrongName { .. } => 403,
            _ => 401,
        }
    }

    /// Why the message is refused.
    pub fn message(&self) -> (r: String)
        ensures
            r@ == refusal_text(*self),
    {
        match self {
            GossipRefusal::NoiseRequired => "Noise transport required for gossip".to_owned(),
            GossipRefusal::CertificateRequired => "Client certificate required".to_owned(),
            GossipRefusal::CertificateWithoutName => "Client certificate missing CN".to_owned(),
            GossipRefusal::WrongName { certificate, claimed } => {
                let mut out = WRONG_NAME_A.to_owned();
                out.append(certificate.as_str());
                out.append(WRONG_NAME_B);
                out.append(claimed.as_str());
                out.append("'");
                out
            },
            GossipRefusal::MutualTlsRequired => "Mutual TLS required for gossip".to_owned(),
        }
    }
}

/// Takes in a message that came over a plain or TLS connection, if its sender may speak for the
/// node that it claims to be. A message that is refused changes nothing.
pub fn handle_gossip(
    table: &mut PeerTable,
    config: &NodeConfig,
    local_version: &str,
    identity: Option<&PeerIdentity>,
    msg: GossipMessage,
    source: Option<Endpoint>,
    now: u64,
) -> (r: Result<GossipOutcome, GossipRefusal>)
    requires
        old(table).wf(),
    ensures
        final(table).wf(),
        ({
            let id = match identity {
                Some(i) => Some(*i),
                None => None,
            };
            match r {
                Ok(outcome) => {
                    &&& may_gossip(*config, id, msg.origin.node_id@)
                    &&& outcome.accepted == !version_rejected(
                        config.cluster.version_mismatch_action@,
                        local_version@,
                        msg.origin.version@,
                    )
                    &&& outcome.log_mismatch == mismatch_to_log(
                        old(table).logged_peer_versions@,
                        msg.origin.node_id@,
                        msg.origin.version@,
                        local_version@,
                    )
                    &&& versions_noted(
                        old(table).logged_peer_versions@,
                        final(table).logged_peer_versions@,
                        msg.origin.node_id@,
                        msg.origin.version@,
                        local_version@,
                    )
                    &&& !outcome.accepted ==> final(table).peers@ == old(table).peers@
                    &&& outcome.accepted ==> taken_in(
                        old(table).peers@,
                        final(table).peers@,
                        *config,
                        msg,
                        source,
                        now,
                    )
                },
                Err(e) => {
                    &&& !may_gossip(*config, id, msg.origin.node_id@)
                    &&& refusal_ok(*config, id, msg.origin.node_id@, e)
                    &&& *final(table) == *old(table)
                },
            }
        }),
{
    if let Err(e) = authorize_gossip(config, identity, msg.origin.node_id.as_str()) {
        return Err(e);
    }
    Ok(process_gossip_message(table, config, local_version, msg, source, now))
}

/// A round of gossip never addresses this node, and reaches every seed, discovered peer and known
/// peer that is not this node.
pub proof fn law_round_reaches_all_others(
    targets: Seq<GossipTarget>,
    known: Seq<(String, PeerState)>,
    seeds: Seq<Seq<char>>,
    discovered: Seq<Seq<char>>,
    own_address: Seq<char>,
)
    requires
        covers(targets, known, candidates(seeds, discovered, known), own_address),
    ensures
        !target_urls(targets).contains(own_address),
        forall|i: int|
            0 <= i < seeds.len() && #[trigger] seeds[i] != own_address ==> target_urls(
                targets,
            ).contains(seeds[i]),
        forall|i: int|
            0 <= i < discovered.len() && schemed(#[trigger] discovered[i]) != own_address
                ==> target_urls(targets).contains(schemed(discovered[i])),
        forall|i: int|
            0 <= i < known.len() && (#[trigger] known[i]).1.address@ != own_address
                ==> target_urls(targets).contains(known[i].1.address@),
{
    let all = candidates(seeds, discovered, known);
    assert forall|i: int| 0 <= i < seeds.len() && #[trigger] seeds[i]
        != own_address implies target_urls(targets).contains(seeds[i]) by {
        assert(all[i] == seeds[i]);
        assert(all.contains(seeds[i]));
    }
    assert forall|i: int| 0 <= i < discovered.len() && schemed(#[trigger] discovered[i])
        != own_address implies target_urls(targets).contains(schemed(discovered[i])) by {
        assert(all[seeds.len() + i] == schemed(discovered[i]));
        assert(all.contains(schemed(discovered[i])));
    }
    assert forall|i: int| 0 <= i < known.len() && (#[trigger] known[i]).1.address@
        != own_address implies target_urls(targets).contains(known[i].1.address@) by {
        assert(all[seeds.len() + discovered.len() + i] == known[i].1.address@);
        assert(all.contains(known[i].1.address@));
    }
}

/// The address that a node gives of itself: its public one, else the loopback address with the
/// port on which it listens.
pub open spec fn advertised_address(config: NodeConfig) -> Seq<char> {
    match config.public_url {
        Some(url) => url@,
        None => "http://127.0.0.1:"@ + pieces(config.listen_addr@, ':').last(),
    }
}

/// The address that a node gives of itself.
pub fn own_address(config: &NodeConfig) -> (r: String)
    ensures
        r@ == advertised_address(*config),
{
    match &config.public_url {
        Some(url) => url.as_str().to_owned(),
        None => {
            let parts = split(config.listen_addr.as_str(), ':');
            proof {
                lemma_pieces_some(config.listen_addr@, ':');
                assert(texts(parts@).len() == parts@.len());
                assert(texts(parts@).last() == parts@.last()@);
            }
            let mut out = "http://127.0.0.1:".to_owned();
            out.append(parts[parts.len() - 1].as_str());
            out
        },
    }
}

/// Who is told in a round: the seeds as they are, the discovered as URLs, and the known at their
/// addresses, each once, and nobody else; never this node.
pub proof fn law_round_reaches_only_these(
    targets: Seq<GossipTarget>,
    known: Seq<(String, PeerState)>,
    seeds: Seq<Seq<char>>,
    discovered: Seq<Seq<char>>,
    own_address: Seq<char>,
    k: int,
    l: int,
)
    requires
        covers(targets, known, candidates(seeds, discovered, known), own_address),
        0 <= k < targets.len(),
        0 <= l < targets.len(),
    ensures
        targets[k].peer_url@ != own_address,
        k != l ==> targets[k].peer_url@ != targets[l].peer_url@,
        seeds.contains(targets[k].peer_url@) || (exists|i: int|
            0 <= i < discovered.len() && schemed(#[trigger] discovered[i]) == targets[k].peer_url@)
            || exists|i: int|
            0 <= i < known.len() && (#[trigger] known[i]).1.address@ == targets[k].peer_url@,
{
    let all = candidates(seeds, discovered, known);
    let url = targets[k].peer_url@;
    let urls = target_urls(targets);
    assert(urls[k] == url);
    assert(urls[l] == targets[l].peer_url@);
    assert(urls.contains(url));
    let p = choose|p: int| 0 <= p < all.len() && all[p] == url;
    if p < seeds.len() {
        assert(seeds[p] == url);
    } else if p < seeds.len() + discovered.len() {
        assert(schemed(discovered[p - seeds.len()]) == url);
    } else {
        assert(known[p - seeds.len() - discovered.len()].1.address@ == url);
    }
}

/// A message goes to `/cluster/gossip` at the peer, whatever slashes its address ends in. Where the
/// peer is known by that address it must prove the node id that is known, and that names its
/// circuit; else its address does, and nothing is to be proved.
pub proof fn law_where_messages_go(known: Seq<(String, PeerState)>, t: GossipTarget, stem: Seq<char>)
    requires
        target_ok(known, t),
    ensures
        stem.len() == 0 || stem.last() != '/' ==> gossip_url(stem) == stem + "/cluster/gossip"@,
        gossip_url(stem.push('/')) == gossip_url(stem),
        t.url@ == gossip_url(t.peer_url@),
        t.expected_node_id is None <==> forall|i: int|
            0 <= i < known.len() ==> (#[trigger] known[i]).1.address@ != t.peer_url@,
        t.expected_node_id is None ==> t.breaker_key@ == t.peer_url@,
        t.expected_node_id is Some ==> t.breaker_key@ == t.expected_node_id->0@ && exists|i: int|
            0 <= i < known.len() && (#[trigger] known[i]).1.address@ == t.peer_url@
                && known[i].1.node_id@ == t.expected_node_id->0@,
{
    let set = seq!['/'];
    assert(set[0] == '/');
    assert(set.contains('/'));
    assert(stem.push('/').drop_last() =~= stem);
    if stem.len() > 0 && stem.last() != '/' {
        assert(!set.contains(stem.last()));
    }
    if t.expected_node_id is Some {
        let id = t.expected_node_id->0@;
        let i = choose|i: int| #[trigger] names_peer(known, i, t.peer_url@, id);
        assert(known[i].1.address@ == t.peer_url@);
    }
}

/// A peer was told if it answered with a status from 200 to 299 that could be read to the end.
pub proof fn law_who_was_told(status: u16, drained: bool)
    ensures
        !was_told(None),
        was_told(Some(GossipAnswer { status, drained })) <==> drained && status >= 200 && status
            <= 299,
{
}

/// Who may tell this node: with mutual TLS only who shows a certificate in the name that it claims;
/// without it anyone, unless Noise is on. The refusal says what is missing, and there is always
/// exactly one reason.
pub proof fn law_who_may_gossip(
    config: NodeConfig,
    authenticated: bool,
    name: Option<String>,
    claimed: Seq<char>,
    refusal: GossipRefusal,
)
    ensures
        ({
            let tls = config.cluster_tls is Some && config.cluster_tls->0.enabled;
            let shown = Some(PeerIdentity { authenticated, node_id: name });
            let named = name is Some && name->0@ == claimed;
            &&& !tls ==> may_gossip(config, shown, claimed) == !config.cluster.noise.enabled
            &&& !tls ==> may_gossip(config, None, claimed) == !config.cluster.noise.enabled
            &&& tls ==> !may_gossip(config, None, claimed)
            &&& tls ==> (may_gossip(config, shown, claimed) <==> authenticated && named)
            &&& refusal_ok(config, None, claimed, refusal) ==> if tls {
                refusal is MutualTlsRequired
            } else {
                refusal is NoiseRequired && config.cluster.noise.enabled
            }
            &&& refusal_ok(config, shown, claimed, refusal) && tls ==> !(authenticated && named) && if
                !authenticated {
                refusal is CertificateRequired
            } else if name is None {
                refusal is CertificateWithoutName
            } else {
                refusal is WrongName
            }
            &&& refusal_ok(config, shown, claimed, refusal) && !tls ==> refusal is NoiseRequired
                && config.cluster.noise.enabled
        }),
{
}

/// What a refusal says.
pub proof fn law_refusal_words(certificate: String, claimed: String)
    ensures
        refusal_text(GossipRefusal::NoiseRequired) == "Noise transport required for gossip"@,
        refusal_text(GossipRefusal::CertificateRequired) == "Client certificate required"@,
        refusal_text(GossipRefusal::CertificateWithoutName) == "Client certificate missing CN"@,
        refusal_text(GossipRefusal::MutualTlsRequired) == "Mutual TLS required for gossip"@,
        refusal_text(GossipRefusal::WrongName { certificate, claimed }) == "Certificate CN '"@
            + certificate@ + "' does not match Node ID '"@ + claimed@ + "'"@,
{
}

/// A message of gossip that held the probe drives the circuit like any request that did: enough
/// successes bring the peer back, and that is told exactly once.
pub proof fn law_recovery_is_told_once(
    config: CircuitBreakerConfig,
    c: PeerCircuit,
    first: u64,
    second: u64,
)
    requires
        c.state == CircuitState::HalfOpen,
        c.success_count < u32::MAX,
        c.success_count + 1 >= config.success_threshold,
    ensures
        ({
            let after = gossip_step(config, c, true, true, first);
            &&& after.state == CircuitState::Closed
            &&& has_recovered(c.state, after.state)
            &&& !has_recovered(after.state, gossip_step(config, after, true, true, second).state)
            &&& gossip_step(config, c, false, true, first).state == CircuitState::Open
        }),
{
}

/// A node gives its public address, if it has one, else this machine with the port that it listens
/// on.
pub proof fn law_address_given(config: NodeConfig, host: Seq<char>, port: Seq<char>)
    requires
        !port.contains(':'),
    ensures
        config.public_url is Some ==> advertised_address(config) == config.public_url->0@,
        config.public_url is None && config.listen_addr@ == host + seq![':'] + port
            ==> advertised_address(config) == "http://127.0.0.1:"@ + port,
{
    crate::paths::law_last_piece(host, port, ':');
    assert(host.push(':') + port =~= host + seq![':'] + port);
}

/// A sender that shows a certificate in another name is told both names, each in its place.
pub proof fn law_wrong_name_tells_both(
    config: NodeConfig,
    name: String,
    claimed: Seq<char>,
    refusal: GossipRefusal,
)
    requires
        config.cluster_tls is Some,
        config.cluster_tls->0.enabled,
        name@ != claimed,
        refusal_ok(
            config,
            Some(PeerIdentity { authenticated: true, node_id: Some(name) }),
            claimed,
            refusal,
        ),
    ensures
        refusal is WrongName,
        refusal->certificate@ == name@,
        refusal->WrongName_claimed@ == claimed,
{
}

/// A message that held the recovery probe counts in every state like a request that succeeded or
/// failed. Those who wait are woken exactly where a circuit that was not closed is closed.
pub proof fn law_probe_counts_like_request(
    config: CircuitBreakerConfig,
    c: PeerCircuit,
    now: u64,
    state: CircuitState,
)
    ensures
        gossip_step(config, c, true, true, now) == success_step(config, c, now),
        gossip_step(config, c, false, true, now) == failure_step(config, c, now),
        has_recovered(CircuitState::Open, CircuitState::Closed),
        has_recovered(CircuitState::HalfOpen, CircuitState::Closed),
        !has_recovered(CircuitState::Closed, state),
        !has_recovered(state, CircuitState::Open),
        !has_recovered(state, CircuitState::HalfOpen),
{
}

/// Targets are told apart by the addresses of their peers.
pub proof fn law_targets_by_address(targets: Seq<GossipTarget>, k: int)
    requires
        0 <= k < targets.len(),
    ensures
        target_urls(targets).len() == targets.len(),
        target_urls(targets)[k] == targets[k].peer_url@,
{
}

/// A node that listens on a port alone gives this machine with that port.
pub proof fn law_address_of_bare_port(config: NodeConfig)
    requires
        config.public_url is None,
        !config.listen_addr@.contains(':'),
    ensures
        advertised_address(config) == "http://127.0.0.1:"@ + config.listen_addr@,
{
    law_last_piece(Seq::empty(), config.listen_addr@, ':');
    assert(seq![config.listen_addr@].last() == config.listen_addr@);
}

/// Every target of a round is drawn up for its address: where its message goes, what its peer must
/// prove, and what its circuit is called.
pub proof fn law_every_target_is_drawn_up(
    targets: Seq<GossipTarget>,
    known: Seq<(String, PeerState)>,
    candidates: Seq<Seq<char>>,
    own_address: Seq<char>,
    k: int,
)
    requires
        covers(targets, known, candidates, own_address),
        0 <= k < targets.len(),
    ensures
        ({
            let t = targets[k];
            &&& t.url@ == gossip_url(t.peer_url@)
            &&& t.expected_node_id is None <==> forall|i: int|
                0 <= i < known.len() ==> (#[trigger] known[i]).1.address@ != t.peer_url@
            &&& t.expected_node_id is None ==> t.breaker_key@ == t.peer_url@
            &&& t.expected_node_id is Some ==> t.breaker_key@ == t.expected_node_id->0@
                && exists|i: int|
                0 <= i < known.len() && (#[trigger] known[i]).1.address@ == t.peer_url@
                    && known[i].1.node_id@ == t.expected_node_id->0@
        }),
{
    assert(target_ok(known, targets[k]));
    law_where_messages_go(known, targets[k], Seq::empty());
}

} // verus!
