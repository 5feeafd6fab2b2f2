//! Gossip between the nodes of a cluster: which peers are told, and what is learned from them.
use vstd::prelude::*;
use crate::config::NodeConfig;
use crate::net::{
    broadcast_v4, canonical, endpoint_text, ipv6_text, law_mapped_addresses, link_local_v6, loopback,
    multicast, unspecified, Endpoint, IpAddress,
};
use crate::paths::texts;
use crate::string_map::StringMap;
use crate::text::{
    begins_with, chars_of, contains, decimal, find_char, index_of_char, lemma_index_of_char, occurs,
    same, starts_with, text_of,
};

verus! {

/// A peer as it is passed on.
#[derive(Debug, Clone)]
pub struct PeerInfo {
    pub node_id: String,
    pub address: String,
}

/// What is known of a peer.
#[derive(Debug)]
pub struct PeerState {
    pub node_id: String,
    pub address: String,
    /// Whether the address was derived from the source of a connection. It belongs to the
    /// receiver and is never taken from a message.
    pub address_from_source: bool,
    pub version: String,
    pub llama_cpp_version: String,
    /// Seconds since the Unix epoch.
    pub last_seen: u64,
    /// Seconds since the Unix epoch; 0 while it is unknown.
    pub started_at_unix: u64,
    pub supported_models: Vec<String>,
    pub active_instances: usize,
    pub max_instances: usize,
    pub current_requests: usize,
    pub available_vram: u64,
    pub available_sysmem: u64,
    pub llamesh_vram_mb: u64,
    pub llamesh_sysmem_mb: u64,
    pub external_vram_mb: u64,
    pub device_vram_used_mb: u64,
    pub device_vram_total_mb: u64,
    pub gpu_telemetry_available: bool,
    pub max_vram: u64,
    pub max_sysmem: u64,
    pub total_queue_length: usize,
    /// Figures per model, in the form in which they are passed on.
    pub model_stats: Vec<(String, String)>,
    pub ready: bool,
    pub loaded_models: Vec<String>,
}

/// What a node tells its peers.
#[derive(Debug)]
pub struct GossipMessage {
    pub origin: PeerState,
    pub known_peers: Vec<PeerInfo>,
}

/// A URL without `http://` or `https://` before it.
pub open spec fn after_scheme(url: Seq<char>) -> Seq<char> {
    if begins_with(url, "http://"@) {
        url.skip(7)
    } else if begins_with(url, "https://"@) {
        url.skip(8)
    } else {
        url
    }
}

/// Where the host of a URL without its scheme ends, outside square brackets: at the first of `:`,
/// `/`, `?` and `#`, or at the end.
pub open spec fn host_end(a: Seq<char>) -> int {
    let before_path = if index_of_char(a, ':') <= index_of_char(a, '/') {
        index_of_char(a, ':')
    } else {
        index_of_char(a, '/')
    };
    let before_query = if index_of_char(a, '?') <= index_of_char(a, '#') {
        index_of_char(a, '?')
    } else {
        index_of_char(a, '#')
    };
    if before_path <= before_query {
        before_path
    } else {
        before_query
    }
}

/// The host in a URL: what stands in square brackets, else what comes before the port, the path,
/// the query and the fragment.
pub open spec fn url_host(url: Seq<char>) -> Seq<char> {
    let a = after_scheme(url);
    let close = index_of_char(a, ']');
    if a.len() > 0 && a[0] == '[' {
        if close < a.len() {
            a.subrange(1, close)
        } else {
            a
        }
    } else {
        a.take(host_end(a))
    }
}

/// The host in a URL, with its square brackets where it has some.
pub open spec fn bracketed_host(url: Seq<char>) -> Seq<char> {
    let a = after_scheme(url);
    let close = index_of_char(a, ']');
    if a.len() > 0 && a[0] == '[' {
        if close < a.len() {
            a.take(close + 1)
        } else {
            a
        }
    } else {
        a.take(host_end(a))
    }
}

/// Whether the host in a URL is this machine.
pub open spec fn loopback_url(url: Seq<char>) -> bool {
    let host = bracketed_host(url);
    host == "localhost"@ || host == "127.0.0.1"@ || begins_with(host, "127."@) || host == "::1"@
        || host == "[::1]"@
}

fn strip_scheme(url: &str) -> (r: Vec<char>)
    ensures
        r@ == after_scheme(url@),
{
    let v = chars_of(url);
    proof {
        reveal_strlit("http://");
        reveal_strlit("https://");
    }
    if starts_with(url, "http://") {
        let rest = chars_of(text_of(&v, 7, v.len()).as_str());
        assert(rest@ =~= url@.skip(7));
        rest
    } else if starts_with(url, "https://") {
        let rest = chars_of(text_of(&v, 8, v.len()).as_str());
        assert(rest@ =~= url@.skip(8));
        rest
    } else {
        v
    }
}

fn find_host_end(a: &Vec<char>) -> (r: usize)
    ensures
        r == host_end(a@),
        r <= a@.len(),
{
    assert(a@.skip(0) =~= a@);
    let colon: usize = find_char(a, ':', 0);
    let slash: usize = find_char(a, '/', 0);
    let question: usize = find_char(a, '?', 0);
    let hash: usize = find_char(a, '#', 0);
    let before_path: usize = if colon <= slash {
        colon
    } else {
        slash
    };
    let before_query: usize = if question <= hash {
        question
    } else {
        hash
    };
    if before_path <= before_query {
        before_path
    } else {
        before_query
    }
}

/// The host in a URL, such as `node-b` in `http://node-b:8080` and in `http://node-b/mesh`.
pub fn extract_host_from_url(url: &str) -> (r: String)
    ensures
        r@ == url_host(url@),
{
    let a = strip_scheme(url);
    assert(a@.skip(0) =~= a@);
    proof {
        lemma_index_of_char(a@, ']');
    }
    if a.len() > 0 && a[0] == '[' {
        let close: usize = find_char(&a, ']', 0);
        if close < a.len() {
            text_of(&a, 1, close)
        } else {
            assert(a@.subrange(0, a@.len() as int) =~= a@);
            text_of(&a, 0, a.len())
        }
    } else {
        let end: usize = find_host_end(&a);
        assert(a@.subrange(0, end as int) =~= a@.take(end as int));
        text_of(&a, 0, end)
    }
}

/// Whether the host in a URL is this machine: `localhost`, `127.x.x.x` or `::1`.
pub fn is_loopback_address(url: &str) -> (r: bool)
    ensures
        r == loopback_url(url@),
{
    let a = strip_scheme(url);
    assert(a@.skip(0) =~= a@);
    let host = if a.len() > 0 && a[0] == '[' {
        let close: usize = find_char(&a, ']', 0);
        if close < a.len() {
            assert(a@.subrange(0, close + 1) =~= a@.take(close + 1));
            text_of(&a, 0, close + 1)
        } else {
            assert(a@.subrange(0, a@.len() as int) =~= a@);
            text_of(&a, 0, a.len())
        }
    } else {
        let end: usize = find_host_end(&a);
        assert(a@.subrange(0, end as int) =~= a@.take(end as int));
        text_of(&a, 0, end)
    };
    assert(host@ == bracketed_host(url@));
    same(host.as_str(), "localhost") || same(host.as_str(), "127.0.0.1") || starts_with(
        host.as_str(),
        "127.",
    ) || same(host.as_str(), "::1") || same(host.as_str(), "[::1]")
}

/// What is read from a parsed URL: its normal form, its scheme, and its port, which may be the
/// default port of the scheme.
#[derive(Debug, Clone)]
pub struct UrlParts {
    pub text: String,
    pub scheme: String,
    pub port: Option<u16>,
}

/// The parts of a URL as texts.
pub open spec fn parts_view(parts: Option<UrlParts>) -> Option<(Seq<char>, Seq<char>, Option<u16>)> {
    match parts {
        Some(p) => Some((p.text@, p.scheme@, p.port)),
        None => None,
    }
}

/// What `reqwest::Url::parse` makes of a text: the normal form of the URL, its scheme, and its
/// explicit or default port; nothing where the text is no absolute URL.
pub uninterp spec fn parsed_url(s: Seq<char>) -> Option<(Seq<char>, Seq<char>, Option<u16>)>;

/// `reqwest::Url::parse`, with what `as_str`, `scheme` and `port_or_known_default` say of the
/// result. All of it depends on the text alone. Two URLs are equal to `reqwest` if their normal
/// forms are.
#[verifier::external_body]
pub(crate) fn parse_url(s: &str) -> (r: Option<UrlParts>)
    ensures
        parts_view(r) == parsed_url(s@),
{
    match reqwest::Url::parse(s) {
        Ok(url) => Some(
            UrlParts {
                text: url.as_str().to_string(),
                scheme: url.scheme().to_string(),
                port: url.port_or_known_default(),
            },
        ),
        Err(_) => None,
    }
}

/// An address with a scheme: `http://` unless it has one.
pub open spec fn schemed(address: Seq<char>) -> Seq<char> {
    if occurs(address, "://"@) {
        address
    } else {
        "http://"@ + address
    }
}

/// An address with a scheme: `http://` unless it has one.
pub fn with_scheme(address: &str) -> (r: String)
    ensures
        r@ == schemed(address@),
{
    if contains(address, "://") {
        address.to_owned()
    } else {
        let mut out = "http://".to_owned();
        out.append(address);
        out
    }
}

/// The parts of a URL if it is one of the web, else nothing.
pub open spec fn web_url(
    parts: Option<(Seq<char>, Seq<char>, Option<u16>)>,
) -> Option<(Seq<char>, Seq<char>, Option<u16>)> {
    if parts is Some && ((parts->0).1 == "http"@ || (parts->0).1 == "https"@) {
        parts
    } else {
        None
    }
}

/// The URL of a peer; an address without a scheme is one of `http`.
pub open spec fn peer_url(address: Seq<char>) -> Option<(Seq<char>, Seq<char>, Option<u16>)> {
    web_url(parsed_url(schemed(address)))
}

/// Keeps the parts of a URL if it is one of the web.
pub fn keep_web_url(parts: Option<UrlParts>) -> (r: Option<UrlParts>)
    ensures
        parts_view(r) == web_url(parts_view(parts)),
{
    match parts {
        Some(p) => {
            if same(p.scheme.as_str(), "http") || same(p.scheme.as_str(), "https") {
                Some(p)
            } else {
                None
            }
        },
        None => None,
    }
}

/// The URL of a peer; an address without a scheme is one of `http`.
pub fn parse_peer_url(address: &str) -> (r: Option<UrlParts>)
    ensures
        parts_view(r) == peer_url(address@),
{
    keep_web_url(parse_url(with_scheme(address).as_str()))
}

/// Whether two URLs are there and the same.
pub open spec fn urls_match(
    left: Option<(Seq<char>, Seq<char>, Option<u16>)>,
    right: Option<(Seq<char>, Seq<char>, Option<u16>)>,
) -> bool {
    left is Some && right is Some && (left->0).0 == (right->0).0
}

/// Whether two URLs are there and the same.
pub fn same_url(left: &Option<UrlParts>, right: &Option<UrlParts>) -> (r: bool)
    ensures
        r == urls_match(parts_view(*left), parts_view(*right)),
{
    match left {
        Some(l) => match right {
            Some(r) => same(l.text.as_str(), r.text.as_str()),
            None => false,
        },
        None => false,
    }
}

/// Whether two addresses are the same URL, apart from how it is written.
pub open spec fn same_peer(left: Seq<char>, right: Seq<char>) -> bool {
    urls_match(peer_url(left), peer_url(right))
}

/// Whether two addresses are the same URL, without guessing at aliases and without dropping a
/// difference in scheme, port or path.
pub fn same_peer_url(left: &str, right: &str) -> (r: bool)
    ensures
        r == same_peer(left@, right@),
{
    same_url(&parse_peer_url(left), &parse_peer_url(right))
}

/// Whether a source address can be reached from elsewhere. A link-local IPv6 address cannot, since
/// a URL does not keep its interface.
pub open spec fn reachable(ip: IpAddress) -> bool {
    !unspecified(ip) && !loopback(ip) && !multicast(ip) && !broadcast_v4(ip) && !link_local_v6(ip)
}

/// The URL of a peer that advertised `parts` and speaks from `source`: the address that it speaks
/// from with the scheme and port that it advertised.
pub open spec fn derived_url(
    parts: Option<(Seq<char>, Seq<char>, Option<u16>)>,
    source: Endpoint,
) -> Option<Seq<char>> {
    let ip = canonical(source.ip);
    if reachable(ip) && parts is Some && (parts->0).2 is Some && (parts->0).2->0 != 0 {
        Some((parts->0).1 + "://"@ + endpoint_text(Endpoint { ip, port: (parts->0).2->0 }))
    } else {
        None
    }
}

/// The URL of a peer that advertised a URL with the given parts and speaks from `source`.
pub fn derive_url(parts: &Option<UrlParts>, source: Endpoint) -> (r: Option<String>)
    ensures
        match r {
            Some(u) => derived_url(parts_view(*parts), source) == Some(u@),
            None => derived_url(parts_view(*parts), source) is None,
        },
{
    let ip = source.ip.to_canonical();
    if ip.is_unspecified() || ip.is_loopback() || ip.is_multicast() || ip.is_broadcast_v4()
        || ip.is_link_local_v6() {
        return None;
    }
    match parts {
        Some(p) => match p.port {
            Some(port) => {
                if port == 0 {
                    return None;
                }
                let mut out = p.scheme.clone();
                out.append("://");
                out.append(Endpoint { ip, port }.to_text().as_str());
                Some(out)
            },
            None => None,
        },
        None => None,
    }
}

/// The URL of a peer that advertised an address of no use elsewhere and speaks from `source`.
pub fn source_peer_url(advertised: &str, source: Endpoint) -> (r: Option<String>)
    ensures
        match r {
            Some(u) => derived_url(peer_url(advertised@), source) == Some(u@),
            None => derived_url(peer_url(advertised@), source) is None,
        },
{
    derive_url(&parse_peer_url(advertised), source)
}

/// Whether a peer's mismatched version is to be logged, and the versions that were. A version is
/// logged when it is first seen of the peer or has changed, so that a lasting mismatch is logged
/// once.
pub fn note_version_mismatch_for_logging(
    logged: &mut StringMap<String>,
    node_id: &str,
    peer_version: &str,
) -> (r: bool)
    requires
        old(logged).wf(),
    ensures
        final(logged).wf(),
        r == !(old(logged)@.contains_key(node_id@) && old(logged)@[node_id@]@ == peer_version@),
        !r ==> final(logged)@ == old(logged)@,
        r ==> final(logged)@.contains_key(node_id@) && final(logged)@[node_id@]@ == peer_version@
            && final(logged)@ == old(logged)@.insert(node_id@, final(logged)@[node_id@]),
{
    if let Some(v) = logged.get(node_id) {
        if same(v.as_str(), peer_version) {
            return false;
        }
    }
    logged.insert(node_id.to_owned(), peer_version.to_owned());
    true
}

/// What comes before the first dot of a version.
pub open spec fn major_version(v: Seq<char>) -> Seq<char> {
    v.take(index_of_char(v, '.'))
}

fn major_of(v: &str) -> (r: String)
    ensures
        r@ == major_version(v@),
{
    let c = chars_of(v);
    assert(c@.skip(0) =~= c@);
    let dot: usize = find_char(&c, '.', 0);
    assert(c@.subrange(0, dot as int) =~= c@.take(dot as int));
    text_of(&c, 0, dot)
}

/// Whether a peer with another version is turned away: always, if only its major version differs,
/// or never.
pub open spec fn version_rejected(
    action: Seq<char>,
    local: Seq<char>,
    peer: Seq<char>,
) -> bool {
    peer != local && (action == "reject_any"@ || action == "reject_major"@ && major_version(local)
        != major_version(peer))
}

/// Whether a peer with another version is turned away.
pub fn rejects_version(action: &str, local: &str, peer: &str) -> (r: bool)
    ensures
        r == version_rejected(action@, local@, peer@),
{
    if same(peer, local) {
        false
    } else if same(action, "reject_any") {
        true
    } else if same(action, "reject_major") {
        !same(major_of(local).as_str(), major_of(peer).as_str())
    } else {
        false
    }
}

/// The position of the first seed that names `node_id` as its host and is no loopback address, or
/// the number of seeds.
pub open spec fn seed_position(seeds: Seq<Seq<char>>, node_id: Seq<char>) -> int
    decreases seeds.len(),
{
    if seeds.len() == 0 || url_host(seeds[0]) == node_id && !loopback_url(seeds[0]) {
        0
    } else {
        1 + seed_position(seeds.drop_first(), node_id)
    }
}

fn find_seed(seeds: &Vec<String>, node_id: &str) -> (r: usize)
    ensures
        r == seed_position(texts(seeds@), node_id@),
        r <= seeds@.len(),
{
    let mut i: usize = 0;
    assert(texts(seeds@).skip(0) =~= texts(seeds@));
    while i < seeds.len()
        invariant
            i <= seeds@.len(),
            seed_position(texts(seeds@), node_id@) == i + seed_position(
                texts(seeds@).skip(i as int),
                node_id@,
            ),
        decreases seeds@.len() - i,
    {
        let seed = seeds[i].as_str();
        if same(extract_host_from_url(seed).as_str(), node_id) && !is_loopback_address(seed) {
            return i;
        }
        assert(texts(seeds@).skip(i as int).drop_first() =~= texts(seeds@).skip(i + 1));
        i = i + 1;
    }
    i
}

/// Whether one of the seeds is the same URL as `address`.
pub open spec fn is_seed(seeds: Seq<Seq<char>>, address: Seq<char>) -> bool {
    exists|i: int| 0 <= i < seeds.len() && same_peer(#[trigger] seeds[i], address)
}

fn any_same_seed(seeds: &Vec<String>, address: &str) -> (r: bool)
    ensures
        r == is_seed(texts(seeds@), address@),
{
    let mut i: usize = 0;
    while i < seeds.len()
        invariant
            i <= seeds@.len(),
            forall|j: int| 0 <= j < i ==> !same_peer(#[trigger] texts(seeds@)[j], address@),
        decreases seeds@.len() - i,
    {
        assert(texts(seeds@)[i as int] == seeds@[i as int]@);
        if same_peer_url(seeds[i].as_str(), address) {
            return true;
        }
        i = i + 1;
    }
    false
}

/// The address to keep for a peer, and whether it was derived from a source. A public
/// advertisement is taken as it is. A loopback one gives way, in this order, to the known address
/// if it is authoritative or a configured seed, to a seed with the peer's name as its host, to the
/// address derived from the source, and to whatever is known.
pub open spec fn chosen_route(
    advertised: Seq<char>,
    node_id: Seq<char>,
    known: Option<(Seq<char>, bool)>,
    known_is_seed: bool,
    seeds: Seq<Seq<char>>,
    derived: Option<Seq<char>>,
) -> (Seq<char>, bool) {
    let s = seed_position(seeds, node_id);
    if !loopback_url(advertised) {
        (advertised, false)
    } else if known is Some && !loopback_url((known->0).0) && (!(known->0).1 || known_is_seed) {
        ((known->0).0, false)
    } else if s < seeds.len() {
        (seeds[s], false)
    } else if derived is Some {
        (derived->0, true)
    } else if known is Some {
        known->0
    } else {
        (advertised, false)
    }
}

/// An address, and whether it was derived from a source.
#[derive(Debug, Clone)]
pub struct Route {
    pub address: String,
    pub from_source: bool,
}

/// The text of a string, where there is one.
pub open spec fn opt_text(s: Option<String>) -> Option<Seq<char>> {
    match s {
        Some(t) => Some(t@),
        None => None,
    }
}

/// A route as a text and a flag, where there is one.
pub open spec fn opt_route(r: Option<Route>) -> Option<(Seq<char>, bool)> {
    match r {
        Some(route) => Some((route.address@, route.from_source)),
        None => None,
    }
}

/// Chooses the address to keep for a peer.
pub fn choose_route(
    advertised: &str,
    node_id: &str,
    known: Option<Route>,
    known_is_seed: bool,
    seeds: &Vec<String>,
    derived: Option<String>,
) -> (r: Route)
    ensures
        (r.address@, r.from_source) == chosen_route(
            advertised@,
            node_id@,
            opt_route(known),
            known_is_seed,
            texts(seeds@),
            opt_text(derived),
        ),
{
    if !is_loopback_address(advertised) {
        return Route { address: advertised.to_owned(), from_source: false };
    }
    if let Some(k) = &known {
        if !is_loopback_address(k.address.as_str()) && (!k.from_source || known_is_seed) {
            return Route { address: k.address.clone(), from_source: false };
        }
    }
    let s: usize = find_seed(seeds, node_id);
    if s < seeds.len() {
        assert(texts(seeds@)[s as int] == seeds@[s as int]@);
        return Route { address: seeds[s].clone(), from_source: false };
    }
    // Only a derived address is refreshed. The port is the advertised one: the port of the
    // connection is ephemeral.
    if let Some(d) = derived {
        return Route { address: d, from_source: true };
    }
    match known {
        Some(k) => k,
        None => Route { address: advertised.to_owned(), from_source: false },
    }
}

/// The peers of a node.
pub struct PeerTable {
    pub peers: StringMap<PeerState>,
    /// The mismatched version last logged of each peer.
    pub logged_peer_versions: StringMap<String>,
}

/// What became of a message.
#[derive(Debug, Clone, Copy, PartialEq, Eq, Structural)]
pub struct GossipOutcome {
    /// Whether it was taken in.
    pub accepted: bool,
    /// Whether a version mismatch is to be logged.
    pub log_mismatch: bool,
}

/// What is known of a peer that was only heard of.
pub open spec fn is_placeholder(p: PeerState, info: PeerInfo, now: u64) -> bool {
    &&& p.node_id@ == info.node_id@
    &&& p.address@ == info.address@
    &&& !p.address_from_source
    &&& p.version@ == "unknown"@
    &&& p.llama_cpp_version@ == "unknown"@
    &&& p.last_seen == now
    &&& p.started_at_unix == 0
    &&& p.supported_models@.len() == 0
    &&& p.active_instances == 0
    &&& p.max_instances == 0
    &&& p.current_requests == 0
    &&& p.available_vram == 0
    &&& p.available_sysmem == 0
    &&& p.llamesh_vram_mb == 0
    &&& p.llamesh_sysmem_mb == 0
    &&& p.external_vram_mb == 0
    &&& p.device_vram_used_mb == 0
    &&& p.device_vram_total_mb == 0
    &&& !p.gpu_telemetry_available
    &&& p.max_vram == 0
    &&& p.max_sysmem == 0
    &&& p.total_queue_length == 0
    &&& p.model_stats@.len() == 0
    &&& !p.ready
    &&& p.loaded_models@.len() == 0
}

fn placeholder(info: &PeerInfo, now: u64) -> (r: PeerState)
    ensures
        is_placeholder(r, *info, now),
{
    PeerState {
        node_id: info.node_id.clone(),
        address: info.address.clone(),
        address_from_source: false,
        version: "unknown".to_owned(),
        llama_cpp_version: "unknown".to_owned(),
        last_seen: now,
        started_at_unix: 0,
        supported_models: Vec::new(),
        active_instances: 0,
        max_instances: 0,
        current_requests: 0,
        available_vram: 0,
        available_sysmem: 0,
        llamesh_vram_mb: 0,
        llamesh_sysmem_mb: 0,
        external_vram_mb: 0,
        device_vram_used_mb: 0,
        device_vram_total_mb: 0,
        gpu_telemetry_available: false,
        max_vram: 0,
        max_sysmem: 0,
        total_queue_length: 0,
        model_stats: Vec::new(),
        ready: false,
        loaded_models: Vec::new(),
    }
}

/// Whether the peer `k` is first mentioned at position `i`.
pub open spec fn first_mention(known: Seq<PeerInfo>, k: Seq<char>, i: int) -> bool {
    &&& 0 <= i < known.len()
    &&& known[i].node_id@ == k
    &&& forall|j: int| 0 <= j < i ==> (#[trigger] known[j]).node_id@ != k
}

/// What the peers a message mentions add: those that are not known yet, and are not this node,
/// come in as they are first mentioned; nothing else changes.
pub open spec fn heard_of(
    before: Map<Seq<char>, PeerState>,
    after: Map<Seq<char>, PeerState>,
    known: Seq<PeerInfo>,
    my_id: Seq<char>,
    now: u64,
) -> bool {
    &&& forall|k: Seq<char>| #[trigger]
        before.contains_key(k) ==> after.contains_key(k) && after[k] == before[k]
    &&& forall|k: Seq<char>| #[trigger]
        after.contains_key(k) && !before.contains_key(k) ==> k != my_id && exists|i: int|
            #[trigger] first_mention(known, k, i) && is_placeholder(after[k], known[i], now)
    &&& forall|i: int|
        0 <= i < known.len() && (#[trigger] known[i]).node_id@ != my_id ==> after.contains_key(
            known[i].node_id@,
        )
}

/// Takes in the peers that a message mentions.
pub fn add_heard_of(
    peers: &mut StringMap<PeerState>,
    known: &Vec<PeerInfo>,
    my_id: &str,
    now: u64,
)
    requires
        old(peers).wf(),
    ensures
        final(peers).wf(),
        heard_of(old(peers)@, final(peers)@, known@, my_id@, now),
{
    let ghost before = peers@;
    let mut i: usize = 0;
    assert(known@.take(0) =~= Seq::<PeerInfo>::empty());
    while i < known.len()
        invariant
            i <= known@.len(),
            peers.wf(),
            heard_of(before, peers@, known@.take(i as int), my_id@, now),
        decreases known@.len() - i,
    {
        let info = &known[i];
        let ghost mid = peers@;
        let ghost seen = known@.take(i as int);
        let ghost more = known@.take(i + 1);
        assert(more =~= seen.push(*info));
        if !same(info.node_id.as_str(), my_id) && !peers.contains_key(info.node_id.as_str()) {
            peers.insert(info.node_id.clone(), placeholder(info, now));
        }
        proof {
            let id = info.node_id@;
            assert forall|k: Seq<char>, a: int| #[trigger] first_mention(seen, k, a) implies
                first_mention(more, k, a) && more[a] == seen[a] by {
                assert forall|j: int| 0 <= j < a implies (#[trigger] more[j]).node_id@ != k by {
                    assert(seen[j] == more[j]);
                }
            }
            assert forall|k: Seq<char>| #[trigger]
                peers@.contains_key(k) && !before.contains_key(k) implies k != my_id@ && exists|
                a: int,
            | #[trigger] first_mention(more, k, a) && is_placeholder(
                peers@[k],
                more[a],
                now,
            ) by {
                if mid.contains_key(k) {
                    let a = choose|a: int| #[trigger]
                        first_mention(seen, k, a) && is_placeholder(mid[k], seen[a], now);
                    assert(first_mention(more, k, a));
                } else {
                    assert(k == id);
                    assert forall|j: int| 0 <= j < i implies (#[trigger] more[j]).node_id@
                        != k by {
                        assert(seen[j] == more[j]);
                        if seen[j].node_id@ == k {
                            assert(mid.contains_key(seen[j].node_id@));
                        }
                    }
                    assert(first_mention(more, k, i as int));
                }
            }
            assert forall|j: int| 0 <= j < more.len() && (#[trigger] more[j]).node_id@
                != my_id@ implies peers@.contains_key(more[j].node_id@) by {
                if j < i {
                    assert(seen[j] == more[j]);
                    assert(mid.contains_key(seen[j].node_id@));
                }
            }
        }
        i = i + 1;
    }
    assert(known@.take(i as int) =~= known@);
}

impl PeerTable {
    /// Each peer stands in each table once.
    pub open spec fn wf(&self) -> bool {
        self.peers.wf() && self.logged_peer_versions.wf()
    }

    /// A node that knows no peers.
    pub fn new() -> (r: PeerTable)
        ensures
            r.wf(),
            r.peers@ == Map::<Seq<char>, PeerState>::empty(),
            r.logged_peer_versions@ == Map::<Seq<char>, String>::empty(),
    {
        PeerTable { peers: StringMap::new(), logged_peer_versions: StringMap::new() }
    }
}

/// The known address of a peer, and whether it was derived from a source.
pub open spec fn known_route(
    peers: Map<Seq<char>, PeerState>,
    node_id: Seq<char>,
) -> Option<(Seq<char>, bool)> {
    if peers.contains_key(node_id) {
        Some((peers[node_id].address@, peers[node_id].address_from_source))
    } else {
        None
    }
}

/// The address to keep for a peer that sent a message.
pub open spec fn resolved_route(
    peers: Map<Seq<char>, PeerState>,
    seeds: Seq<Seq<char>>,
    origin: PeerState,
    source: Option<Endpoint>,
) -> (Seq<char>, bool) {
    let known = known_route(peers, origin.node_id@);
    chosen_route(
        origin.address@,
        origin.node_id@,
        known,
        known is Some && is_seed(seeds, (known->0).0),
        seeds,
        match source {
            Some(s) => derived_url(peer_url(origin.address@), s),
            None => None,
        },
    )
}

/// What is kept of the sender of a message: all that it says of itself but its address, which is
/// resolved, and the time, which is this node's.
pub open spec fn is_kept(stored: PeerState, origin: PeerState, route: (Seq<char>, bool), now: u64) -> bool {
    &&& stored == (PeerState {
        address: stored.address,
        address_from_source: stored.address_from_source,
        last_seen: now,
        ..origin
    })
    &&& stored.address@ == route.0
    &&& stored.address_from_source == route.1
}

/// The peers after a message was taken in: its sender is kept, and then the peers that it
/// mentions are heard of.
pub open spec fn taken_in(
    before: Map<Seq<char>, PeerState>,
    after: Map<Seq<char>, PeerState>,
    config: NodeConfig,
    msg: GossipMessage,
    source: Option<Endpoint>,
    now: u64,
) -> bool {
    let id = msg.origin.node_id@;
    &&& after.contains_key(id)
    &&& is_kept(
        after[id],
        msg.origin,
        resolved_route(before, texts(config.cluster.peers@), msg.origin, source),
        now,
    )
    &&& heard_of(before.insert(id, after[id]), after, msg.known_peers@, config.node_id@, now)
}

/// Whether the versions that were logged change as a peer's version asks: a version like the own
/// one is forgotten, another is noted.
pub open spec fn versions_noted(
    before: Map<Seq<char>, String>,
    after: Map<Seq<char>, String>,
    node_id: Seq<char>,
    version: Seq<char>,
    local: Seq<char>,
) -> bool {
    if version == local {
        after == before.remove(node_id)
    } else {
        &&& after.contains_key(node_id)
        &&& after[node_id]@ == version
        &&& after.remove(node_id) == before.remove(node_id)
    }
}

/// Takes in a message from a peer. `source` is the other end of the connection that it came by,
/// and `now` the time in seconds since the Unix epoch. A message of a peer whose version is turned
/// away changes nothing but the versions that were logged.
pub fn process_gossip_message(
    table: &mut PeerTable,
    config: &NodeConfig,
    local_version: &str,
    msg: GossipMessage,
    source: Option<Endpoint>,
    now: u64,
) -> (r: GossipOutcome)
    requires
        old(table).wf(),
    ensures
        final(table).wf(),
        r.accepted == !version_rejected(
            config.cluster.version_mismatch_action@,
            local_version@,
            msg.origin.version@,
        ),
        r.log_mismatch == mismatch_to_log(
            old(table).logged_peer_versions@,
            msg.origin.node_id@,
            msg.origin.version@,
            local_version@,
        ),
        versions_noted(
            old(table).logged_peer_versions@,
            final(table).logged_peer_versions@,
            msg.origin.node_id@,
            msg.origin.version@,
            local_version@,
        ),
        !r.accepted ==> final(table).peers@ == old(table).peers@,
        r.accepted ==> taken_in(
            old(table).peers@,
            final(table).peers@,
            *config,
            msg,
            source,
            now,
        ),
{
    let GossipMessage { origin, known_peers } = msg;
    let ghost before = table.peers@;
    let ghost versions = table.logged_peer_versions@;
    let matches = same(origin.version.as_str(), local_version);
    let mut log_mismatch = false;
    if matches {
        let _ = table.logged_peer_versions.remove(origin.node_id.as_str());
    } else {
        log_mismatch =
        note_version_mismatch_for_logging(
            &mut table.logged_peer_versions,
            origin.node_id.as_str(),
            origin.version.as_str(),
        );
        assert(table.logged_peer_versions@.remove(origin.node_id@) =~= versions.remove(
            origin.node_id@,
        ));
    }
    if rejects_version(
        config.cluster.version_mismatch_action.as_str(),
        local_version,
        origin.version.as_str(),
    ) {
        return GossipOutcome { accepted: false, log_mismatch };
    }
    let known: Option<Route> = match table.peers.get(origin.node_id.as_str()) {
        Some(p) => Some(
            Route { address: p.address.clone(), from_source: p.address_from_source },
        ),
        None => None,
    };
    let known_is_seed: bool = match &known {
        Some(k) => any_same_seed(&config.cluster.peers, k.address.as_str()),
        None => false,
    };
    let derived: Option<String> = match source {
        Some(s) => source_peer_url(origin.address.as_str(), s),
        None => None,
    };
    let route = choose_route(
        origin.address.as_str(),
        origin.node_id.as_str(),
        known,
        known_is_seed,
        &config.cluster.peers,
        derived,
    );
    let id = origin.node_id.clone();
    let stored = PeerState {
        address: route.address,
        address_from_source: route.from_source,
        last_seen: now,
        ..origin
    };
    table.peers.insert(id, stored);
    add_heard_of(&mut table.peers, &known_peers, config.node_id.as_str(), now);
    proof {
        let after = table.peers@;
        assert(before.insert(id@, stored).contains_key(id@));
        assert(after[id@] == stored);
    }
    GossipOutcome { accepted: true, log_mismatch }
}

/// Whether a message is a reason to log that versions differ.
pub open spec fn mismatch_to_log(
    logged: Map<Seq<char>, String>,
    node_id: Seq<char>,
    version: Seq<char>,
    local: Seq<char>,
) -> bool {
    version != local && !(logged.contains_key(node_id) && logged[node_id]@ == version)
}

/// A mismatch is logged once: after a message was looked at, another with the same version is no
/// reason to log, until the peer has had another version.
pub proof fn law_mismatch_logged_once(
    before: Map<Seq<char>, String>,
    after: Map<Seq<char>, String>,
    node_id: Seq<char>,
    version: Seq<char>,
    local: Seq<char>,
    other: Seq<char>,
)
    requires
        versions_noted(before, after, node_id, version, local),
    ensures
        !mismatch_to_log(after, node_id, version, local),
        version == local && other != local ==> mismatch_to_log(after, node_id, other, local),
        version != local && other != local && other != version ==> mismatch_to_log(
            after,
            node_id,
            other,
            local,
        ),
{
}

/// Two addresses of the same peer are the same either way round, and through a third.
pub proof fn law_same_peer_equivalence(a: Seq<char>, b: Seq<char>, c: Seq<char>)
    ensures
        same_peer(a, b) == same_peer(b, a),
        same_peer(a, b) && same_peer(b, c) ==> same_peer(a, c),
        same_peer(a, a) == (peer_url(a) is Some),
{
}

/// The port of the connection plays no part in a derived address: it is ephemeral.
pub proof fn law_derived_url_ignores_source_port(
    parts: Option<(Seq<char>, Seq<char>, Option<u16>)>,
    ip: IpAddress,
    port1: u16,
    port2: u16,
)
    ensures
        derived_url(parts, Endpoint { ip, port: port1 }) == derived_url(
            parts,
            Endpoint { ip, port: port2 },
        ),
{
}

/// Nothing is derived from a source that cannot be reached from elsewhere, not even where an IPv6
/// address stands for it.
pub proof fn law_no_url_from_unreachable_source(
    parts: Option<(Seq<char>, Seq<char>, Option<u16>)>,
    source: Endpoint,
)
    requires
        !reachable(canonical(source.ip)),
    ensures
        derived_url(parts, source) is None,
{
}

/// A public advertisement is taken as it is, whatever was known.
pub proof fn law_public_advertisement_wins(
    advertised: Seq<char>,
    node_id: Seq<char>,
    known: Option<(Seq<char>, bool)>,
    known_is_seed: bool,
    seeds: Seq<Seq<char>>,
    derived: Option<Seq<char>>,
)
    requires
        !loopback_url(advertised),
    ensures
        chosen_route(advertised, node_id, known, known_is_seed, seeds, derived) == (
            advertised,
            false,
        ),
{
}

/// A loopback advertisement never replaces an authoritative address, wherever it comes from.
pub proof fn law_authoritative_address_kept(
    advertised: Seq<char>,
    node_id: Seq<char>,
    address: Seq<char>,
    known_is_seed: bool,
    seeds: Seq<Seq<char>>,
    derived: Option<Seq<char>>,
)
    requires
        loopback_url(advertised),
        !loopback_url(address),
    ensures
        chosen_route(
            advertised,
            node_id,
            Some((address, false)),
            known_is_seed,
            seeds,
            derived,
        ) == (address, false),
{
}

/// A loopback advertisement never replaces an address that is one of the configured seeds, and
/// makes it authoritative even where it was derived.
pub proof fn law_seed_address_kept(
    advertised: Seq<char>,
    node_id: Seq<char>,
    known: (Seq<char>, bool),
    seeds: Seq<Seq<char>>,
    derived: Option<Seq<char>>,
)
    requires
        loopback_url(advertised),
        !loopback_url(known.0),
    ensures
        chosen_route(advertised, node_id, Some(known), true, seeds, derived) == (known.0, false),
{
}

/// A derived address follows the source of the next message, unless a seed stands in its way, and
/// stays as it is, still derived, where there is no such source.
pub proof fn law_derived_address_follows_source(
    advertised: Seq<char>,
    node_id: Seq<char>,
    address: Seq<char>,
    seeds: Seq<Seq<char>>,
    derived: Option<Seq<char>>,
)
    requires
        loopback_url(advertised),
        seed_position(seeds, node_id) >= seeds.len(),
    ensures
        chosen_route(
            advertised,
            node_id,
            Some((address, true)),
            false,
            seeds,
            derived,
        ) == match derived {
            Some(d) => (d, true),
            None => (address, true),
        },
{
}

/// What a message mentions never changes a peer that is known, and never brings in this node.
pub proof fn law_heard_of_changes_nothing_known(
    before: Map<Seq<char>, PeerState>,
    after: Map<Seq<char>, PeerState>,
    known: Seq<PeerInfo>,
    my_id: Seq<char>,
    now: u64,
    k: Seq<char>,
)
    requires
        heard_of(before, after, known, my_id, now),
    ensures
        before.contains_key(k) ==> after.contains_key(k) && after[k] == before[k],
        !before.contains_key(my_id) ==> !after.contains_key(my_id),
{
}

/// A peer that was only heard of is never turned away as out of date: it was seen now.
pub proof fn law_heard_of_is_fresh(
    before: Map<Seq<char>, PeerState>,
    after: Map<Seq<char>, PeerState>,
    known: Seq<PeerInfo>,
    my_id: Seq<char>,
    now: u64,
    k: Seq<char>,
)
    requires
        heard_of(before, after, known, my_id, now),
        after.contains_key(k),
        !before.contains_key(k),
    ensures
        after[k].last_seen == now,
        !after[k].ready,
        !after[k].address_from_source,
{
}

/// A message of another peer leaves what is known of a peer as it is.
pub proof fn law_message_concerns_its_sender(
    before: Map<Seq<char>, PeerState>,
    after: Map<Seq<char>, PeerState>,
    config: NodeConfig,
    msg: GossipMessage,
    source: Option<Endpoint>,
    now: u64,
    k: Seq<char>,
)
    requires
        taken_in(before, after, config, msg, source, now),
        before.contains_key(k),
        k != msg.origin.node_id@,
    ensures
        after.contains_key(k),
        after[k] == before[k],
{
    let id = msg.origin.node_id@;
    assert(before.insert(id, after[id]).contains_key(k));
}

/// Where an address came from is never taken from the message.
pub proof fn law_provenance_is_local(
    before: Map<Seq<char>, PeerState>,
    seeds: Seq<Seq<char>>,
    origin: PeerState,
    source: Option<Endpoint>,
    claimed: bool,
)
    ensures
        resolved_route(before, seeds, origin, source) == resolved_route(
            before,
            seeds,
            PeerState { address_from_source: claimed, ..origin },
            source,
        ),
{
}

/// What is kept of the sender of a message is what it says of itself, all but its address, where
/// that came from, and the time, which is the time at which this node heard of it.
pub proof fn law_sender_is_kept_as_it_says(
    before: Map<Seq<char>, PeerState>,
    after: Map<Seq<char>, PeerState>,
    config: NodeConfig,
    msg: GossipMessage,
    source: Option<Endpoint>,
    now: u64,
)
    requires
        taken_in(before, after, config, msg, source, now),
    ensures
        after.contains_key(msg.origin.node_id@),
        ({
            let kept = after[msg.origin.node_id@];
            let said = msg.origin;
            &&& kept.last_seen == now
            &&& kept.node_id@ == said.node_id@
            &&& kept.version@ == said.version@
            &&& kept.llama_cpp_version@ == said.llama_cpp_version@
            &&& kept.started_at_unix == said.started_at_unix
            &&& kept.supported_models@ == said.supported_models@
            &&& kept.active_instances == said.active_instances
            &&& kept.max_instances == said.max_instances
            &&& kept.current_requests == said.current_requests
            &&& kept.available_vram == said.available_vram
            &&& kept.available_sysmem == said.available_sysmem
            &&& kept.llamesh_vram_mb == said.llamesh_vram_mb
            &&& kept.llamesh_sysmem_mb == said.llamesh_sysmem_mb
            &&& kept.external_vram_mb == said.external_vram_mb
            &&& kept.device_vram_used_mb == said.device_vram_used_mb
            &&& kept.device_vram_total_mb == said.device_vram_total_mb
            &&& kept.gpu_telemetry_available == said.gpu_telemetry_available
            &&& kept.max_vram == said.max_vram
            &&& kept.max_sysmem == said.max_sysmem
            &&& kept.total_queue_length == said.total_queue_length
            &&& kept.model_stats@ == said.model_stats@
            &&& kept.ready == said.ready
            &&& kept.loaded_models@ == said.loaded_models@
        }),
{
}

/// Whether a seed can stand for a node: it names the node as its host, and is no loopback address.
pub open spec fn seed_names(seed: Seq<char>, node_id: Seq<char>) -> bool {
    url_host(seed) == node_id && !loopback_url(seed)
}

proof fn lemma_seed_position(seeds: Seq<Seq<char>>, node_id: Seq<char>)
    ensures
        0 <= seed_position(seeds, node_id) <= seeds.len(),
        seed_position(seeds, node_id) < seeds.len() ==> seed_names(
            seeds[seed_position(seeds, node_id)],
            node_id,
        ),
        forall|j: int|
            0 <= j < seed_position(seeds, node_id) ==> !seed_names(#[trigger] seeds[j], node_id),
    decreases seeds.len(),
{
    if seeds.len() > 0 && !seed_names(seeds[0], node_id) {
        let rest = seeds.drop_first();
        lemma_seed_position(rest, node_id);
        assert forall|j: int| 0 <= j < seed_position(seeds, node_id) implies !seed_names(
            #[trigger] seeds[j],
            node_id,
        ) by {
            if j > 0 {
                assert(rest[j - 1] == seeds[j]);
            }
        }
    }
}

/// Which address is kept of the sender of a message: the one it advertises, if others can use it.
/// Else the one that is known, if others can use that and it was not derived, or is a seed. Else
/// the first seed that names the sender. Else the one that it speaks from. Else the one that is
/// known, and at last the one that it advertises. Only the one that it speaks from is derived.
pub proof fn law_address_of_sender(
    before: Map<Seq<char>, PeerState>,
    after: Map<Seq<char>, PeerState>,
    config: NodeConfig,
    msg: GossipMessage,
    source: Option<Endpoint>,
    now: u64,
)
    requires
        taken_in(before, after, config, msg, source, now),
    ensures
        ({
            let id = msg.origin.node_id@;
            let kept = after[id];
            let seeds = config.cluster.peers@;
            let usable = !loopback_url(msg.origin.address@);
            let known = before.contains_key(id);
            let holds = known && !loopback_url(before[id].address@) && (
            !before[id].address_from_source || exists|i: int|
                0 <= i < seeds.len() && same_peer((#[trigger] seeds[i])@, before[id].address@));
            let named = exists|i: int|
                0 <= i < seeds.len() && seed_names((#[trigger] seeds[i])@, id);
            let derived = if source is Some {
                derived_url(peer_url(msg.origin.address@), source->0)
            } else {
                None
            };
            &&& usable ==> kept.address@ == msg.origin.address@ && !kept.address_from_source
            &&& !usable && holds ==> kept.address@ == before[id].address@
                && !kept.address_from_source
            &&& !usable && !holds && named ==> !kept.address_from_source && exists|i: int|
                0 <= i < seeds.len() && kept.address@ == (#[trigger] seeds[i])@ && seed_names(
                    seeds[i]@,
                    id,
                ) && forall|j: int| 0 <= j < i ==> !seed_names((#[trigger] seeds[j])@, id)
            &&& !usable && !holds && !named && derived is Some ==> kept.address@ == derived->0
                && kept.address_from_source
            &&& !usable && !holds && !named && derived is None && known ==> kept.address@
                == before[id].address@ && kept.address_from_source
                == before[id].address_from_source
            &&& !usable && !holds && !named && derived is None && !known ==> kept.address@
                == msg.origin.address@ && !kept.address_from_source
        }),
{
    let id = msg.origin.node_id@;
    let list = config.cluster.peers@;
    let seeds = texts(list);
    lemma_seed_position(seeds, id);
    let s = seed_position(seeds, id);
    assert forall|i: int| 0 <= i < list.len() implies (#[trigger] list[i])@ == seeds[i] by {}
    if s < seeds.len() {
        assert(seed_names(list[s]@, id));
        assert forall|j: int| 0 <= j < s implies !seed_names((#[trigger] list[j])@, id) by {
            assert(!seed_names(seeds[j], id));
        }
    } else {
        assert forall|j: int| 0 <= j < list.len() implies !seed_names((#[trigger] list[j])@, id) by {
            assert(!seed_names(seeds[j], id));
        }
    }
    if before.contains_key(id) {
        let address = before[id].address@;
        assert(is_seed(seeds, address) <==> exists|i: int|
            0 <= i < list.len() && same_peer((#[trigger] list[i])@, address)) by {
            if is_seed(seeds, address) {
                let i = choose|i: int| 0 <= i < seeds.len() && same_peer(#[trigger] seeds[i], address);
                assert(same_peer(list[i]@, address));
            }
            if exists|i: int| 0 <= i < list.len() && same_peer((#[trigger] list[i])@, address) {
                let i = choose|i: int|
                    0 <= i < list.len() && same_peer((#[trigger] list[i])@, address);
                assert(same_peer(seeds[i], address));
            }
        }
    }
}

/// Who is known after a message: everyone who was, the sender, and whoever the message mentions but
/// this node. One who was only mentioned is known by name and address alone, as of now, and is not
/// ready.
pub proof fn law_who_is_known_after(
    before: Map<Seq<char>, PeerState>,
    after: Map<Seq<char>, PeerState>,
    config: NodeConfig,
    msg: GossipMessage,
    source: Option<Endpoint>,
    now: u64,
    k: Seq<char>,
)
    requires
        taken_in(before, after, config, msg, source, now),
    ensures
        after.contains_key(k) <==> before.contains_key(k) || k == msg.origin.node_id@ || k
            != config.node_id@ && exists|i: int|
            0 <= i < msg.known_peers@.len() && (#[trigger] msg.known_peers@[i]).node_id@ == k,
        after.contains_key(k) && !before.contains_key(k) && k != msg.origin.node_id@ ==> ({
            let p = after[k];
            &&& p.node_id@ == k
            &&& exists|i: int|
                0 <= i < msg.known_peers@.len() && (#[trigger] msg.known_peers@[i]).node_id@ == k
                    && p.address@ == msg.known_peers@[i].address@ && forall|j: int|
                    0 <= j < i ==> (#[trigger] msg.known_peers@[j]).node_id@ != k
            &&& !p.address_from_source && !p.ready && !p.gpu_telemetry_available
            &&& p.version@ == "unknown"@ && p.llama_cpp_version@ == "unknown"@
            &&& p.last_seen == now && p.started_at_unix == 0
            &&& p.supported_models@.len() == 0 && p.loaded_models@.len() == 0
            &&& p.model_stats@.len() == 0 && p.active_instances == 0 && p.max_instances == 0
            &&& p.current_requests == 0 && p.total_queue_length == 0
            &&& p.available_vram == 0 && p.available_sysmem == 0
            &&& p.llamesh_vram_mb == 0 && p.llamesh_sysmem_mb == 0 && p.external_vram_mb == 0
            &&& p.device_vram_used_mb == 0 && p.device_vram_total_mb == 0
            &&& p.max_vram == 0 && p.max_sysmem == 0
        }),
{
    let id = msg.origin.node_id@;
    let mid = before.insert(id, after[id]);
    let known = msg.known_peers@;
    assert(mid.contains_key(k) <==> before.contains_key(k) || k == id);
    if after.contains_key(k) && !mid.contains_key(k) {
        let i = choose|i: int|
            #[trigger] first_mention(known, k, i) && is_placeholder(after[k], known[i], now);
        assert(known[i].node_id@ == k);
    }
    if k != config.node_id@ && exists|i: int|
        0 <= i < known.len() && (#[trigger] known[i]).node_id@ == k {
        let i = choose|i: int| 0 <= i < known.len() && (#[trigger] known[i]).node_id@ == k;
        assert(after.contains_key(known[i].node_id@));
    }
}

/// A peer of the same version is never turned away. Of another version it is if any difference is
/// to be rejected, or if major ones are and what stands before the first dot differs; with any
/// other setting it is not.
pub proof fn law_when_versions_reject(action: Seq<char>, local: Seq<char>, peer: Seq<char>)
    ensures
        !version_rejected(action, local, local),
        peer != local ==> version_rejected("reject_any"@, local, peer),
        version_rejected("reject_major"@, local, peer) <==> major_version(local) != major_version(
            peer,
        ),
        action != "reject_any"@ && action != "reject_major"@ ==> !version_rejected(
            action,
            local,
            peer,
        ),
        !version_rejected("warn"@, local, peer),
{
    reveal_strlit("reject_any");
    reveal_strlit("reject_major");
    reveal_strlit("warn");
    assert("warn"@.len() == 4 && "reject_any"@.len() == 10 && "reject_major"@.len() == 12);
}

/// The major version is what stands before the first dot, or all where there is none.
pub proof fn law_major_version(major: Seq<char>, rest: Seq<char>)
    requires
        !major.contains('.'),
    ensures
        major_version(major + seq!['.'] + rest) == major,
        major_version(major) == major,
{
    let v = major + seq!['.'] + rest;
    lemma_index_of_char(v, '.');
    lemma_index_of_char(major, '.');
    let i = index_of_char(v, '.');
    assert(v[major.len() as int] == '.');
    if i < major.len() {
        assert(v[i] == major[i]);
        assert(major.contains(major[i]));
    }
    assert(v.take(major.len() as int) =~= major);
    let j = index_of_char(major, '.');
    if j < major.len() {
        assert(major.contains(major[j]));
    }
    assert(major.take(major.len() as int) =~= major);
}

/// A difference in versions is logged if it is new of the peer. What was logged of it is then kept,
/// or forgotten once the versions agree, and what was logged of other peers stays.
pub proof fn law_what_is_logged(
    before: Map<Seq<char>, String>,
    after: Map<Seq<char>, String>,
    node_id: Seq<char>,
    version: Seq<char>,
    local: Seq<char>,
    other: Seq<char>,
)
    requires
        versions_noted(before, after, node_id, version, local),
    ensures
        mismatch_to_log(before, node_id, version, local) <==> version != local && (
        !before.contains_key(node_id) || before[node_id]@ != version),
        after.contains_key(node_id) <==> version != local,
        version != local ==> after[node_id]@ == version,
        other != node_id ==> (after.contains_key(other) <==> before.contains_key(other)),
        other != node_id && before.contains_key(other) ==> after[other] == before[other],
{
    if other != node_id {
        assert(after.remove(node_id).contains_key(other) <==> after.contains_key(other));
        assert(before.remove(node_id).contains_key(other) <==> before.contains_key(other));
        if before.contains_key(other) {
            assert(after.remove(node_id)[other] == after[other]);
            assert(before.remove(node_id)[other] == before[other]);
        }
    }
}

/// Whether a character may end a host.
pub open spec fn ends_host(c: char) -> bool {
    c == ':' || c == '/' || c == '?' || c == '#'
}

/// The host of a URL of the web is what stands between the scheme and the port, path, query or
/// fragment. It is this machine if it is `localhost` or begins with `127.`.
pub proof fn law_host_of_url(secure: bool, host: Seq<char>, rest: Seq<char>)
    requires
        host.len() > 0,
        host[0] != '[',
        forall|i: int| 0 <= i < host.len() ==> !ends_host(#[trigger] host[i]),
        rest.len() > 0 ==> ends_host(rest[0]),
    ensures
        ({
            let url = (if secure {
                "https://"@
            } else {
                "http://"@
            }) + host + rest;
            &&& url_host(url) == host
            &&& loopback_url(url) <==> host == "localhost"@ || host.len() >= 4 && host.take(4)
                == seq!['1', '2', '7', '.']
        }),
{
    reveal_strlit("https://");
    reveal_strlit("http://");
    reveal_strlit("localhost");
    reveal_strlit("127.0.0.1");
    reveal_strlit("127.");
    reveal_strlit("::1");
    reveal_strlit("[::1]");
    let scheme = if secure {
        "https://"@
    } else {
        "http://"@
    };
    let url = scheme + host + rest;
    let a = host + rest;
    if secure {
        assert(url[4] == 's');
        assert(url.subrange(0, 8) =~= "https://"@);
        assert(url.take(8) =~= "https://"@);
        assert(!begins_with(url, "http://"@)) by {
            assert("http://"@[4] == ':');
            if begins_with(url, "http://"@) {
                assert(url.subrange(0, 7)[4] == url[4]);
            }
        }
        assert(url.skip(8) =~= a);
    } else {
        assert(url.subrange(0, 7) =~= "http://"@);
        assert(url.take(7) =~= "http://"@);
        assert(url.skip(7) =~= a);
    }
    assert(after_scheme(url) == a);
    lemma_index_of_char(a, ':');
    lemma_index_of_char(a, '/');
    lemma_index_of_char(a, '?');
    lemma_index_of_char(a, '#');
    let end = host_end(a);
    assert(a[0] == host[0]);
    if end < host.len() {
        assert(a[end] == host[end]);
        assert(ends_host(host[end]));
    }
    if rest.len() > 0 {
        assert(a[host.len() as int] == rest[0]);
    }
    assert(end == host.len());
    assert(a.take(end) =~= host);
    assert(bracketed_host(url) == host);
    assert(host != "::1"@) by {
        assert("::1"@[0] == ':');
    }
    assert(host != "[::1]"@) by {
        assert("[::1]"@[0] == '[');
    }
    if host.len() >= 4 {
        assert(host.take(4) =~= host.subrange(0, 4));
        assert("127."@ =~= seq!['1', '2', '7', '.']);
    }
    if host == "127.0.0.1"@ {
        assert(host.take(4) =~= seq!['1', '2', '7', '.']);
    }
}

/// The host of a URL with an IPv6 address is what stands in the brackets, whatever follows them. It
/// is this machine if it is `::1`.
pub proof fn law_bracketed_host_of_url(inner: Seq<char>, rest: Seq<char>)
    requires
        !inner.contains(']'),
    ensures
        ({
            let url = "http://"@ + seq!['['] + inner + seq![']'] + rest;
            &&& url_host(url) == inner
            &&& loopback_url(url) <==> inner == seq![':', ':', '1']
        }),
{
    reveal_strlit("http://");
    reveal_strlit("localhost");
    reveal_strlit("127.0.0.1");
    reveal_strlit("127.");
    reveal_strlit("::1");
    reveal_strlit("[::1]");
    let url = "http://"@ + seq!['['] + inner + seq![']'] + rest;
    let a = seq!['['] + inner + seq![']'] + rest;
    assert(url.subrange(0, 7) =~= "http://"@);
    assert(url.take(7) =~= "http://"@);
    assert(url.skip(7) =~= a);
    lemma_index_of_char(a, ']');
    let close = index_of_char(a, ']');
    assert(a[inner.len() as int + 1] == ']');
    if close < inner.len() + 1 {
        assert(a[0] == '[');
        assert(a[close] == inner[close - 1]);
        assert(inner.contains(inner[close - 1]));
    }
    assert(close == inner.len() + 1);
    assert(a.subrange(1, close) =~= inner);
    let host = a.take(close + 1);
    assert(host =~= seq!['['] + inner + seq![']']);
    assert(host[0] == '[');
    assert("localhost"@[0] == 'l' && "127.0.0.1"@[0] == '1' && "::1"@[0] == ':');
    assert(!begins_with(host, "127."@)) by {
        if begins_with(host, "127."@) {
            assert(host.subrange(0, 4)[0] == host[0]);
            assert("127."@[0] == '1');
        }
    }
    if inner == seq![':', ':', '1'] {
        assert(host =~= "[::1]"@);
    }
    if host == "[::1]"@ {
        assert(inner =~= host.subrange(1, 4));
        assert(inner =~= seq![':', ':', '1']);
    }
}

/// An address is one of `http` unless it says otherwise.
pub proof fn law_scheme_is_http_by_default(address: Seq<char>, scheme: Seq<char>, rest: Seq<char>)
    ensures
        schemed(scheme + "://"@ + rest) == scheme + "://"@ + rest,
        !occurs(address, "://"@) ==> schemed(address) == "http://"@ + address,
{
    let s = scheme + "://"@ + rest;
    assert(s.subrange(scheme.len() as int, scheme.len() as int + "://"@.len() as int) =~= "://"@);
    assert(crate::text::occurs_at(s, "://"@, scheme.len() as int));
}

/// Only URLs of `http` and `https` are URLs of peers, and two are the same if their normal forms
/// are.
pub proof fn law_urls_of_peers(
    text: Seq<char>,
    scheme: Seq<char>,
    port: Option<u16>,
    other: (Seq<char>, Seq<char>, Option<u16>),
)
    ensures
        web_url(None) is None,
        scheme == "http"@ || scheme == "https"@ ==> web_url(Some((text, scheme, port))) == Some(
            (text, scheme, port),
        ),
        scheme != "http"@ && scheme != "https"@ ==> web_url(Some((text, scheme, port))) is None,
        urls_match(Some((text, scheme, port)), Some(other)) <==> text == other.0,
        !urls_match(None, Some(other)),
        !urls_match(Some(other), None),
{
}

/// A derived address has the scheme and the port that were advertised and the address that the
/// peer speaks from, and there is none without a port.
pub proof fn law_derived_address_form(
    text: Seq<char>,
    scheme: Seq<char>,
    port: u16,
    v: u32,
    ephemeral: u16,
)
    requires
        v != 0,
        v / 0x100_0000 != 127,
        v / 0x100_0000 < 224,
    ensures
        port != 0 ==> derived_url(
            Some((text, scheme, Some(port))),
            Endpoint { ip: IpAddress::V4(v), port: ephemeral },
        ) == Some(
            scheme + "://"@ + decimal((v / 0x100_0000) as nat) + "."@ + decimal(
                (v / 0x1_0000 % 0x100) as nat,
            ) + "."@ + decimal((v / 0x100 % 0x100) as nat) + "."@ + decimal((v % 0x100) as nat)
                + ":"@ + decimal(port as nat),
        ),
        derived_url(
            Some((text, scheme, Some(0))),
            Endpoint { ip: IpAddress::V4(v), port: ephemeral },
        ) is None,
        derived_url(
            Some((text, scheme, None)),
            Endpoint { ip: IpAddress::V4(v), port: ephemeral },
        ) is None,
        derived_url(None, Endpoint { ip: IpAddress::V4(v), port: ephemeral }) is None,
{
    if port != 0 {
        let d = derived_url(
            Some((text, scheme, Some(port))),
            Endpoint { ip: IpAddress::V4(v), port: ephemeral },
        )->0;
        assert(d =~= scheme + "://"@ + decimal((v / 0x100_0000) as nat) + "."@ + decimal(
            (v / 0x1_0000 % 0x100) as nat,
        ) + "."@ + decimal((v / 0x100 % 0x100) as nat) + "."@ + decimal((v % 0x100) as nat) + ":"@
            + decimal(port as nat));
    }
}

/// Which sources can be reached from elsewhere: of IPv4 all but `0.0.0.0`, `127.0.0.0/8`,
/// `224.0.0.0/4` and `255.255.255.255`; of IPv6 all but `::`, `::1`, `fe80::/10` and `ff00::/8`.
pub proof fn law_reachable_sources(v4: u32, v6: u128)
    ensures
        reachable(IpAddress::V4(v4)) <==> v4 != 0 && !(0x7f00_0000 <= v4 <= 0x7fff_ffff) && !(
        0xe000_0000 <= v4 <= 0xefff_ffff) && v4 != 0xffff_ffff,
        reachable(IpAddress::V6(v6)) <==> v6 > 1 && !(0xfe80_0000_0000_0000_0000_0000_0000_0000
            <= v6 < 0xfec0_0000_0000_0000_0000_0000_0000_0000) && v6
            < 0xff00_0000_0000_0000_0000_0000_0000_0000,
{
    assert(v4 / 0x100_0000 == 127 <==> 0x7f00_0000 <= v4 <= 0x7fff_ffff);
    assert(224 <= v4 / 0x100_0000 <= 239 <==> 0xe000_0000 <= v4 <= 0xefff_ffff);
}

/// An address without a scheme has its host at its beginning.
pub proof fn law_host_without_scheme(host: Seq<char>, rest: Seq<char>)
    requires
        host.len() > 0,
        host[0] != '[',
        forall|i: int| 0 <= i < host.len() ==> !ends_host(#[trigger] host[i]),
        rest.len() > 0 ==> ends_host(rest[0]),
        !begins_with(host + rest, "http://"@),
        !begins_with(host + rest, "https://"@),
    ensures
        url_host(host + rest) == host,
        loopback_url(host + rest) <==> host == "localhost"@ || host.len() >= 4 && host.take(4)
            == seq!['1', '2', '7', '.'],
{
    reveal_strlit("localhost");
    reveal_strlit("127.0.0.1");
    reveal_strlit("127.");
    reveal_strlit("::1");
    reveal_strlit("[::1]");
    let a = host + rest;
    assert(after_scheme(a) == a);
    lemma_index_of_char(a, ':');
    lemma_index_of_char(a, '/');
    lemma_index_of_char(a, '?');
    lemma_index_of_char(a, '#');
    let end = host_end(a);
    assert(a[0] == host[0]);
    if end < host.len() {
        assert(a[end] == host[end]);
        assert(ends_host(host[end]));
    }
    if rest.len() > 0 {
        assert(a[host.len() as int] == rest[0]);
    }
    assert(end == host.len());
    assert(a.take(end) =~= host);
    assert(bracketed_host(a) == host);
    assert(host != "::1"@) by {
        assert("::1"@[0] == ':');
    }
    assert(host != "[::1]"@) by {
        assert("[::1]"@[0] == '[');
    }
    if host.len() >= 4 {
        assert(host.take(4) =~= host.subrange(0, 4));
        assert("127."@ =~= seq!['1', '2', '7', '.']);
    }
    if host == "127.0.0.1"@ {
        assert(host.take(4) =~= seq!['1', '2', '7', '.']);
    }
}

/// A bracket that is not closed is part of the host, which is then all that follows the scheme, and
/// no other machine is taken for this one by it.
pub proof fn law_open_bracket_in_url(inner: Seq<char>)
    requires
        !inner.contains(']'),
    ensures
        url_host("https://"@ + seq!['['] + inner) == seq!['['] + inner,
        url_host("http://"@ + seq!['['] + inner) == seq!['['] + inner,
        !loopback_url("http://"@ + seq!['['] + inner),
{
    reveal_strlit("https://");
    reveal_strlit("http://");
    reveal_strlit("localhost");
    reveal_strlit("127.0.0.1");
    reveal_strlit("127.");
    reveal_strlit("::1");
    reveal_strlit("[::1]");
    let a = seq!['['] + inner;
    let plain = "http://"@ + seq!['['] + inner;
    let secure = "https://"@ + seq!['['] + inner;
    assert(plain.subrange(0, 7) =~= "http://"@);
    assert(plain.skip(7) =~= a);
    assert(secure.subrange(0, 8) =~= "https://"@);
    assert(secure.skip(8) =~= a);
    assert(secure[4] == 's');
    assert(!begins_with(secure, "http://"@)) by {
        assert("http://"@[4] == ':');
        if begins_with(secure, "http://"@) {
            assert(secure.subrange(0, 7)[4] == secure[4]);
        }
    }
    lemma_index_of_char(a, ']');
    let close = index_of_char(a, ']');
    if close < a.len() {
        assert(a[close] == inner[close - 1]);
        assert(inner.contains(inner[close - 1]));
    }
    assert(a[0] == '[');
    assert("localhost"@[0] == 'l' && "127.0.0.1"@[0] == '1' && "::1"@[0] == ':');
    assert(!begins_with(a, "127."@)) by {
        if begins_with(a, "127."@) {
            assert(a.subrange(0, 4)[0] == a[0]);
            assert("127."@[0] == '1');
        }
    }
    if a == "[::1]"@ {
        assert(inner[3] == a[4]);
        assert(a[4] == ']');
        assert(inner.contains(inner[3]));
    }
}

/// The URL of a peer is what its address with a scheme is parsed to, and two addresses are the same
/// if both are URLs of peers with one normal form.
pub proof fn law_urls_by_address(
    address: Seq<char>,
    other: Seq<char>,
    a: (Seq<char>, Seq<char>, Option<u16>),
    b: (Seq<char>, Seq<char>, Option<u16>),
)
    requires
        parsed_url(schemed(address)) == Some(a),
        parsed_url(schemed(other)) == Some(b),
    ensures
        a.1 == "http"@ || a.1 == "https"@ ==> peer_url(address) == Some(a),
        a.1 != "http"@ && a.1 != "https"@ ==> peer_url(address) is None,
        same_peer(address, other) <==> (a.1 == "http"@ || a.1 == "https"@) && (b.1 == "http"@ || b.1
            == "https"@) && a.0 == b.0,
{
}

/// An address that is no URL is the address of no peer.
pub proof fn law_no_url_no_peer(address: Seq<char>, other: Seq<char>)
    requires
        parsed_url(schemed(address)) is None,
    ensures
        peer_url(address) is None,
        !same_peer(address, other),
        !same_peer(other, address),
{
}

/// A derived address names an IPv6 source in square brackets, and an IPv6 source that stands for
/// an IPv4 address like that address.
pub proof fn law_derived_address_of_ipv6(
    parts: Option<(Seq<char>, Seq<char>, Option<u16>)>,
    v6: u128,
    v4: u32,
    ephemeral: u16,
)
    ensures
        v6 == 0xffff_0000_0000 + v4 ==> derived_url(
            parts,
            Endpoint { ip: IpAddress::V6(v6), port: ephemeral },
        ) == derived_url(parts, Endpoint { ip: IpAddress::V4(v4), port: ephemeral }),
        parts is Some && (parts->0).2 is Some && (parts->0).2->0 != 0 && v6 > 0xffff_ffff_ffff && v6
            < 0xfe80_0000_0000_0000_0000_0000_0000_0000 ==> derived_url(
            parts,
            Endpoint { ip: IpAddress::V6(v6), port: ephemeral },
        ) == Some(
            (parts->0).1 + "://"@ + ("["@ + ipv6_text(v6) + "]:"@ + decimal(
                (parts->0).2->0 as nat,
            )),
        ),
{
    law_mapped_addresses(v4, v6);
    law_reachable_sources(v4, v6);
}

/// The parts of a URL and of a route, and a text that may be missing, are what they are made of.
pub proof fn law_texts_of_parts(p: UrlParts, route: Route, s: String)
    ensures
        parts_view(Some(p)) == Some((p.text@, p.scheme@, p.port)),
        parts_view(None) is None,
        opt_route(Some(route)) == Some((route.address@, route.from_source)),
        opt_route(None) is None,
        opt_text(Some(s)) == Some(s@),
        opt_text(None) is None,
{
}

} // verus!
