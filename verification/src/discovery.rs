//! Peers that are found on the local network or named in the configuration.
use vstd::prelude::*;
use crate::cluster::opt_text;
use crate::config::ClusterConfig;
use crate::net::{
    endpoint_text, ip_le, link_local_v6, loopback, multicast, unspecified, Endpoint, IpAddress,
};
use crate::paths::texts;
use crate::string_map::{lemma_position, lemma_position_unique, position, StringMap};
use crate::text::{
    ascii_lowercase, chars_at, chars_of, lemma_text_le_total, lemma_text_le_transitive, not_after,
    occurs_at, same, text_le, text_of, to_ascii_lowercase, to_lowercase, trim_trailing,
    unicode_lowercase, without_trailing,
};

verus! {

/// A peer that was found.
#[derive(Debug, Hash, PartialEq, Eq)]
pub struct DiscoveredPeer {
    pub node_id: String,
    pub cluster_addr: String,
    pub public_key: Option<String>,
}

/// A peer with its strings as texts.
pub struct FoundPeer {
    pub node_id: Seq<char>,
    pub cluster_addr: Seq<char>,
    pub public_key: Option<Seq<char>>,
}

impl View for DiscoveredPeer {
    type V = FoundPeer;

    open spec fn view(&self) -> FoundPeer {
        FoundPeer {
            node_id: self.node_id@,
            cluster_addr: self.cluster_addr@,
            public_key: opt_text(self.public_key),
        }
    }
}

impl Clone for DiscoveredPeer {
    fn clone(&self) -> (r: Self)
        ensures
            r == *self,
    {
        DiscoveredPeer {
            node_id: self.node_id.clone(),
            cluster_addr: self.cluster_addr.clone(),
            public_key: self.public_key.clone(),
        }
    }
}

fn same_peer_info(a: &DiscoveredPeer, b: &DiscoveredPeer) -> (r: bool)
    ensures
        r == (a@ == b@),
{
    let keys = match &a.public_key {
        Some(x) => match &b.public_key {
            Some(y) => same(x.as_str(), y.as_str()),
            None => false,
        },
        None => b.public_key.is_none(),
    };
    keys && same(a.node_id.as_str(), b.node_id.as_str()) && same(
        a.cluster_addr.as_str(),
        b.cluster_addr.as_str(),
    )
}

/// The peers in a list.
pub open spec fn found(items: Seq<DiscoveredPeer>) -> Seq<FoundPeer> {
    items.map_values(|p: DiscoveredPeer| p@)
}

/// A set of peers.
#[derive(Debug)]
pub struct PeerSet {
    pub items: Vec<DiscoveredPeer>,
}

impl View for PeerSet {
    type V = Set<FoundPeer>;

    open spec fn view(&self) -> Set<FoundPeer> {
        found(self.items@).to_set()
    }
}

/// The peers of a set that do not belong to a node.
pub open spec fn other_nodes(peers: Set<FoundPeer>, node_id: Seq<char>) -> Set<FoundPeer> {
    peers.filter(|p: FoundPeer| p.node_id != node_id)
}

/// The peers of a set that do not have an address.
pub open spec fn other_addresses(peers: Set<FoundPeer>, addr: Seq<char>) -> Set<FoundPeer> {
    peers.filter(|p: FoundPeer| p.cluster_addr != addr)
}

proof fn lemma_found_push(items: Seq<DiscoveredPeer>, p: DiscoveredPeer)
    ensures
        found(items.push(p)) == found(items).push(p@),
        found(items.push(p)).to_set() == found(items).to_set().insert(p@),
{
    assert(found(items.push(p)) =~= found(items).push(p@));
    let a = found(items);
    let b = a.push(p@);
    assert forall|v: FoundPeer| #[trigger] b.contains(v) <==> a.contains(v) || v == p@ by {
        assert(b[a.len() as int] == p@);
        if a.contains(v) {
            let k = choose|k: int| 0 <= k < a.len() && a[k] == v;
            assert(b[k] == v);
        }
        if b.contains(v) && v != p@ {
            let k = choose|k: int| 0 <= k < b.len() && b[k] == v;
            assert(a[k] == v);
        }
    }
    assert(b.to_set() =~= a.to_set().insert(p@));
}

impl PeerSet {
    /// No peer stands in the list twice.
    pub open spec fn wf(&self) -> bool {
        found(self.items@).no_duplicates()
    }

    pub fn new() -> (r: PeerSet)
        ensures
            r.wf(),
            r@ == Set::<FoundPeer>::empty(),
    {
        let r = PeerSet { items: Vec::new() };
        assert(found(r.items@) =~= Seq::<FoundPeer>::empty());
        assert(r@ =~= Set::<FoundPeer>::empty());
        r
    }

    pub fn len(&self) -> (r: usize)
        ensures
            r == self.items@.len(),
    {
        self.items.len()
    }

    pub fn contains(&self, peer: &DiscoveredPeer) -> (r: bool)
        ensures
            r == self@.contains(peer@),
    {
        let ghost all = found(self.items@);
        let mut i: usize = 0;
        while i < self.items.len()
            invariant
                i <= self.items@.len(),
                all == found(self.items@),
                forall|j: int| 0 <= j < i ==> #[trigger] all[j] != peer@,
            decreases self.items@.len() - i,
        {
            assert(all[i as int] == self.items@[i as int]@);
            if same_peer_info(&self.items[i], peer) {
                assert(all.contains(peer@));
                return true;
            }
            i = i + 1;
        }
        assert(!all.contains(peer@));
        false
    }

    /// Adds a peer, unless it is there.
    pub fn insert(&mut self, peer: DiscoveredPeer)
        requires
            old(self).wf(),
        ensures
            final(self).wf(),
            final(self)@ == old(self)@.insert(peer@),
    {
        let ghost before = self.items@;
        if self.contains(&peer) {
            assert(self@.insert(peer@) =~= self@);
            return;
        }
        self.items.push(peer);
        proof {
            lemma_found_push(before, peer);
            assert(!found(before).contains(peer@));
        }
    }

    /// Takes out the peers of a node.
    pub fn remove_node(&mut self, node_id: &str)
        requires
            old(self).wf(),
        ensures
            final(self).wf(),
            final(self)@ == other_nodes(old(self)@, node_id@),
    {
        let ghost all = self.items@;
        let mut kept: Vec<DiscoveredPeer> = Vec::new();
        let mut i: usize = 0;
        proof {
            assert(found(kept@) =~= Seq::<FoundPeer>::empty());
            assert(found(kept@).to_set() =~= other_nodes(found(all.take(0)).to_set(), node_id@));
        }
        while i < self.items.len()
            invariant
                i <= self.items@.len(),
                all == self.items@,
                found(all).no_duplicates(),
                found(kept@).no_duplicates(),
                forall|j: int|
                    0 <= j < kept@.len() ==> exists|a: int|
                        0 <= a < i && #[trigger] all[a]@ == (#[trigger] kept@[j])@,
                found(kept@).to_set() == other_nodes(found(all.take(i as int)).to_set(), node_id@),
            decreases self.items@.len() - i,
        {
            let ghost before = kept@;
            let ghost p = all[i as int];
            proof {
                assert(all.take(i + 1) =~= all.take(i as int).push(p));
                lemma_found_push(all.take(i as int), p);
            }
            if !same(self.items[i].node_id.as_str(), node_id) {
                kept.push(self.items[i].clone());
                proof {
                    lemma_found_push(before, p);
                    assert(!found(before).contains(p@)) by {
                        if found(before).contains(p@) {
                            let j = choose|j: int|
                                0 <= j < found(before).len() && found(before)[j] == p@;
                            assert(before[j]@ == p@);
                            let a = choose|a: int|
                                0 <= a < i && #[trigger] all[a]@ == before[j]@;
                            assert(found(all)[a] == found(all)[i as int]);
                        }
                    }
                    assert forall|j: int| 0 <= j < kept@.len() implies exists|a: int|
                        0 <= a < i + 1 && #[trigger] all[a]@ == (#[trigger] kept@[j])@ by {
                        if j < before.len() {
                            assert(kept@[j] == before[j]);
                            let a = choose|a: int|
                                0 <= a < i && #[trigger] all[a]@ == before[j]@;
                            assert(all[a]@ == kept@[j]@);
                        } else {
                            assert(all[i as int]@ == kept@[j]@);
                        }
                    }
                }
            }
            assert(found(kept@).to_set() =~= other_nodes(
                found(all.take(i + 1)).to_set(),
                node_id@,
            ));
            i = i + 1;
        }
        assert(all.take(i as int) =~= all);
        self.items = kept;
    }

    /// Takes out the peers with an address.
    pub fn remove_address(&mut self, addr: &str)
        requires
            old(self).wf(),
        ensures
            final(self).wf(),
            final(self)@ == other_addresses(old(self)@, addr@),
    {
        let ghost all = self.items@;
        let mut kept: Vec<DiscoveredPeer> = Vec::new();
        let mut i: usize = 0;
        proof {
            assert(found(kept@) =~= Seq::<FoundPeer>::empty());
            assert(found(kept@).to_set() =~= other_addresses(found(all.take(0)).to_set(), addr@));
        }
        while i < self.items.len()
            invariant
                i <= self.items@.len(),
                all == self.items@,
                found(all).no_duplicates(),
                found(kept@).no_duplicates(),
                forall|j: int|
                    0 <= j < kept@.len() ==> exists|a: int|
                        0 <= a < i && #[trigger] all[a]@ == (#[trigger] kept@[j])@,
                found(kept@).to_set() == other_addresses(
                    found(all.take(i as int)).to_set(),
                    addr@,
                ),
            decreases self.items@.len() - i,
        {
            let ghost before = kept@;
            let ghost p = all[i as int];
            proof {
                assert(all.take(i + 1) =~= all.take(i as int).push(p));
                lemma_found_push(all.take(i as int), p);
            }
            if !same(self.items[i].cluster_addr.as_str(), addr) {
                kept.push(self.items[i].clone());
                proof {
                    lemma_found_push(before, p);
                    assert(!found(before).contains(p@)) by {
                        if found(before).contains(p@) {
                            let j = choose|j: int|
                                0 <= j < found(before).len() && found(before)[j] == p@;
                            assert(before[j]@ == p@);
                            let a = choose|a: int|
                                0 <= a < i && #[trigger] all[a]@ == before[j]@;
                            assert(found(all)[a] == found(all)[i as int]);
                        }
                    }
                    assert forall|j: int| 0 <= j < kept@.len() implies exists|a: int|
                        0 <= a < i + 1 && #[trigger] all[a]@ == (#[trigger] kept@[j])@ by {
                        if j < before.len() {
                            assert(kept@[j] == before[j]);
                            let a = choose|a: int|
                                0 <= a < i && #[trigger] all[a]@ == before[j]@;
                            assert(all[a]@ == kept@[j]@);
                        } else {
                            assert(all[i as int]@ == kept@[j]@);
                        }
                    }
                }
            }
            assert(found(kept@).to_set() =~= other_addresses(
                found(all.take(i + 1)).to_set(),
                addr@,
            ));
            i = i + 1;
        }
        assert(all.take(i as int) =~= all);
        self.items = kept;
    }
}

/// A peer that the configuration names.
pub open spec fn explicit_peer(addr: Seq<char>) -> FoundPeer {
    FoundPeer { node_id: "explicit:"@ + addr, cluster_addr: addr, public_key: None }
}

fn make_explicit(addr: &str) -> (r: DiscoveredPeer)
    ensures
        r@ == explicit_peer(addr@),
{
    let mut node_id = "explicit:".to_owned();
    node_id.append(addr);
    DiscoveredPeer { node_id, cluster_addr: addr.to_owned(), public_key: None }
}

/// The name of a service as it is compared: without the dots at its end, and in lower case.
pub open spec fn service_key(fullname: Seq<char>) -> Seq<char> {
    ascii_lowercase(without_trailing(fullname, seq!['.']))
}

/// Whether a service is the first by name among those of a node.
pub open spec fn is_first_service(
    services: Map<Seq<char>, DiscoveredPeer>,
    node_id: Seq<char>,
    name: Seq<char>,
) -> bool {
    &&& services.contains_key(name)
    &&& services[name].node_id@ == node_id
    &&& forall|other: Seq<char>|
        #![trigger services.contains_key(other)]
        services.contains_key(other) && services[other].node_id@ == node_id ==> text_le(
            name,
            other,
        )
}

/// The peers after the services of a node were looked at again: the node is there once, as its
/// first service by name says, or not at all. The order in which services came plays no part.
pub open spec fn reconciled(
    peers: Set<FoundPeer>,
    services: Map<Seq<char>, DiscoveredPeer>,
    node_id: Seq<char>,
) -> Set<FoundPeer> {
    let rest = other_nodes(peers, node_id);
    if exists|name: Seq<char>| is_first_service(services, node_id, name) {
        rest.insert(services[choose|name: Seq<char>| is_first_service(services, node_id, name)]@)
    } else {
        rest
    }
}

/// The services after one of them was resolved or removed.
pub open spec fn services_after(
    services: Map<Seq<char>, DiscoveredPeer>,
    fullname: Seq<char>,
    peer: Option<DiscoveredPeer>,
) -> Map<Seq<char>, DiscoveredPeer> {
    match peer {
        Some(p) => services.insert(service_key(fullname), p),
        None => services.remove(service_key(fullname)),
    }
}

/// The peers after a service was resolved or removed: the node that it stood for and the one that
/// it stands for are looked at again; all others stay as they are.
pub open spec fn peers_after(
    peers: Set<FoundPeer>,
    services: Map<Seq<char>, DiscoveredPeer>,
    fullname: Seq<char>,
    peer: Option<DiscoveredPeer>,
) -> Set<FoundPeer> {
    let now = services_after(services, fullname, peer);
    let key = service_key(fullname);
    let first = if services.contains_key(key) {
        reconciled(peers, now, services[key].node_id@)
    } else {
        peers
    };
    match peer {
        Some(p) => reconciled(first, now, p.node_id@),
        None => first,
    }
}

fn first_service(services: &StringMap<DiscoveredPeer>, node_id: &str) -> (r: Option<usize>)
    requires
        services.wf(),
    ensures
        match r {
            Some(i) => i < services.entries@.len() && is_first_service(
                services@,
                node_id@,
                services.entries@[i as int].0@,
            ) && services@[services.entries@[i as int].0@] == services.entries@[i as int].1,
            None => forall|name: Seq<char>| !is_first_service(services@, node_id@, name),
        },
{
    let ghost entries = services.entries@;
    let mut best: Option<usize> = None;
    let mut i: usize = 0;
    while i < services.entries.len()
        invariant
            i <= entries.len(),
            entries == services.entries@,
            match best {
                Some(b) => b < i && entries[b as int].1.node_id@ == node_id@ && forall|j: int|
                    0 <= j < i && (#[trigger] entries[j]).1.node_id@ == node_id@ ==> text_le(
                        entries[b as int].0@,
                        entries[j].0@,
                    ),
                None => forall|j: int|
                    0 <= j < i ==> (#[trigger] entries[j]).1.node_id@ != node_id@,
            },
        decreases entries.len() - i,
    {
        if same(services.entries[i].1.node_id.as_str(), node_id) {
            let ghost x = entries[i as int].0@;
            proof {
                lemma_text_le_total(x, x);
            }
            match best {
                Some(b) => {
                    let ghost y = entries[b as int].0@;
                    proof {
                        lemma_text_le_total(x, y);
                        assert forall|j: int| 0 <= j < i && (
                        #[trigger] entries[j]).1.node_id@ == node_id@ && text_le(x, y) implies
                            text_le(x, entries[j].0@) by {
                            lemma_text_le_transitive(x, y, entries[j].0@);
                        }
                    }
                    if !not_after(
                        services.entries[b].0.as_str(),
                        services.entries[i].0.as_str(),
                    ) {
                        best = Some(i);
                    }
                },
                None => {
                    best = Some(i);
                },
            }
        }
        i = i + 1;
    }
    proof {
        match best {
            Some(b) => {
                let name = entries[b as int].0@;
                lemma_position_unique(entries, b as int);
                assert(services@.contains_key(name));
                assert(services@[name] == entries[b as int].1);
                assert forall|other: Seq<char>|
                    #![trigger services@.contains_key(other)]
                    services@.contains_key(other) && services@[other].node_id@
                        == node_id@ implies text_le(name, other) by {
                    lemma_position(entries, other);
                    let p = position(entries, other);
                    assert(entries[p].1.node_id@ == node_id@);
                }
                assert(is_first_service(services@, node_id@, name));
            },
            None => {
                assert forall|name: Seq<char>| !is_first_service(services@, node_id@, name) by {
                    if is_first_service(services@, node_id@, name) {
                        lemma_position(entries, name);
                        let p = position(entries, name);
                        assert(entries[p].1.node_id@ == node_id@);
                    }
                }
            },
        }
    }
    best
}

proof fn lemma_first_service_unique(
    services: Map<Seq<char>, DiscoveredPeer>,
    node_id: Seq<char>,
    a: Seq<char>,
    b: Seq<char>,
)
    requires
        is_first_service(services, node_id, a),
        is_first_service(services, node_id, b),
    ensures
        a == b,
{
    lemma_text_le_total(a, b);
}

fn reconcile_node(peers: &mut PeerSet, services: &StringMap<DiscoveredPeer>, node_id: &str)
    requires
        old(peers).wf(),
        services.wf(),
    ensures
        final(peers).wf(),
        final(peers)@ == reconciled(old(peers)@, services@, node_id@),
{
    peers.remove_node(node_id);
    match first_service(services, node_id) {
        Some(i) => {
            proof {
                let name = services.entries@[i as int].0@;
                let chosen = choose|name: Seq<char>| is_first_service(services@, node_id@, name);
                lemma_first_service_unique(services@, node_id@, name, chosen);
            }
            peers.insert(services.entries[i].1.clone());
        },
        None => {},
    }
}

/// Takes note of a service that was resolved to a peer, or removed. Only the nodes that the
/// service stood for and stands for are touched; a service that was never seen owns no peer.
pub fn replace_service_peer(
    services: &mut StringMap<DiscoveredPeer>,
    peers: &mut PeerSet,
    fullname: &str,
    peer: Option<DiscoveredPeer>,
)
    requires
        old(services).wf(),
        old(peers).wf(),
    ensures
        final(services).wf(),
        final(peers).wf(),
        final(services)@ == services_after(old(services)@, fullname@, peer),
        final(peers)@ == peers_after(old(peers)@, old(services)@, fullname@, peer),
{
    assert(['.']@ =~= seq!['.']);
    let key = to_ascii_lowercase(trim_trailing(fullname, &['.']).as_str());
    let previous: Option<String> = match services.get(key.as_str()) {
        Some(p) => Some(p.node_id.clone()),
        None => None,
    };
    let next: Option<String> = match peer {
        Some(p) => {
            let id = p.node_id.clone();
            services.insert(key, p);
            Some(id)
        },
        None => {
            let _ = services.remove(key.as_str());
            None
        },
    };
    if let Some(id) = previous {
        reconcile_node(peers, services, id.as_str());
    }
    if let Some(id) = next {
        reconcile_node(peers, services, id.as_str());
    }
}

/// Whether an address that a service announces can be put into a URL and reached.
pub open spec fn announceable(ip: IpAddress) -> bool {
    !unspecified(ip) && !multicast(ip) && !loopback(ip) && !link_local_v6(ip)
}

/// Whether an address is the first that can be used.
pub open spec fn first_announceable(addresses: Seq<IpAddress>, ip: IpAddress) -> bool {
    &&& addresses.contains(ip)
    &&& announceable(ip)
    &&& forall|j: int|
        0 <= j < addresses.len() && announceable(#[trigger] addresses[j]) ==> ip_le(
            ip,
            addresses[j],
        )
}

/// The endpoint of a service: the first address that can be used, IPv4 before IPv6, in whatever
/// order they come.
pub fn peer_endpoint(addresses: &Vec<IpAddress>, port: u16) -> (r: Option<Endpoint>)
    ensures
        match r {
            Some(e) => e.port == port && first_announceable(addresses@, e.ip),
            None => forall|j: int|
                0 <= j < addresses@.len() ==> !announceable(#[trigger] addresses@[j]),
        },
{
    let mut best: Option<IpAddress> = None;
    let mut i: usize = 0;
    while i < addresses.len()
        invariant
            i <= addresses@.len(),
            match best {
                Some(ip) => announceable(ip) && addresses@.contains(ip) && forall|j: int|
                    0 <= j < i && announceable(#[trigger] addresses@[j]) ==> ip_le(
                        ip,
                        addresses@[j],
                    ),
                None => forall|j: int| 0 <= j < i ==> !announceable(#[trigger] addresses@[j]),
            },
        decreases addresses@.len() - i,
    {
        let ip = addresses[i];
        assert(addresses@.contains(addresses@[i as int]));
        if !ip.is_unspecified() && !ip.is_multicast() && !ip.is_loopback()
            && !ip.is_link_local_v6() {
            match best {
                Some(b) => {
                    if !b.not_after(&ip) {
                        best = Some(ip);
                    }
                },
                None => {
                    best = Some(ip);
                },
            }
        }
        i = i + 1;
    }
    match best {
        Some(ip) => Some(Endpoint { ip, port }),
        None => None,
    }
}

/// The peer that a resolved service stands for: none if it is this node, or cannot be reached.
pub fn resolved_peer(
    node_id: &str,
    local_node_id: &str,
    addresses: &Vec<IpAddress>,
    port: u16,
    public_key: Option<String>,
) -> (r: Option<DiscoveredPeer>)
    ensures
        match r {
            Some(p) => node_id@ != local_node_id@ && p.node_id@ == node_id@ && p.public_key
                == public_key && exists|ip: IpAddress| #[trigger]
                first_announceable(addresses@, ip) && p.cluster_addr@ == endpoint_text(
                    Endpoint { ip, port },
                ),
            None => node_id@ == local_node_id@ || forall|j: int|
                0 <= j < addresses@.len() ==> !announceable(#[trigger] addresses@[j]),
        },
{
    if same(node_id, local_node_id) {
        return None;
    }
    match peer_endpoint(addresses, port) {
        Some(e) => {
            let p = DiscoveredPeer {
                node_id: node_id.to_owned(),
                cluster_addr: e.to_text(),
                public_key,
            };
            assert(first_announceable(addresses@, e.ip));
            assert(e == Endpoint { ip: e.ip, port });
            Some(p)
        },
        None => None,
    }
}

/// A text without the copies of `p` that it ends in.
pub open spec fn without_suffixes(s: Seq<char>, p: Seq<char>) -> Seq<char>
    decreases s.len(),
{
    if p.len() > 0 && s.len() >= p.len() && occurs_at(s, p, s.len() - p.len()) {
        without_suffixes(s.take(s.len() - p.len()), p)
    } else {
        s
    }
}

/// The type of a service in the form that the network wants: it ends in `.local.`.
pub open spec fn service_type_text(service_type: Seq<char>) -> Seq<char> {
    without_suffixes(without_trailing(service_type, seq!['.']), ".local"@) + ".local."@
}

/// The type of a service in the form that the network wants.
pub fn normalize_service_type(service_type: &str) -> (r: String)
    ensures
        r@ == service_type_text(service_type@),
{
    assert(['.']@ =~= seq!['.']);
    let trimmed = trim_trailing(service_type, &['.']);
    let v = chars_of(trimmed.as_str());
    let p = chars_of(".local");
    proof {
        reveal_strlit(".local");
    }
    let mut end: usize = v.len();
    assert(v@.take(end as int) =~= v@);
    while end >= p.len() && chars_at(&chars_of(text_of(&v, 0, end).as_str()), &p, end - p.len())
        invariant
            end <= v@.len(),
            p@ == ".local"@,
            p@.len() == 6,
            without_suffixes(v@, p@) == without_suffixes(v@.take(end as int), p@),
        decreases end,
    {
        proof {
            assert(v@.subrange(0, end as int) =~= v@.take(end as int));
            assert(v@.take(end as int).take(end - 6) =~= v@.take(end - 6));
        }
        end = end - p.len();
    }
    proof {
        assert(v@.subrange(0, end as int) =~= v@.take(end as int));
    }
    let mut out = text_of(&v, 0, end);
    out.append(".local.");
    out
}

/// The network interfaces to announce on.
#[derive(Debug, Clone, Copy, PartialEq, Eq, Structural)]
pub enum AnnounceOn {
    AllV4,
    AllV6,
    Address(IpAddress),
}

/// The interfaces to announce on: those that the node listens on.
pub fn announce_on(listen: IpAddress) -> (r: AnnounceOn)
    ensures
        r == match listen {
            IpAddress::V4(v) => if v == 0 {
                AnnounceOn::AllV4
            } else {
                AnnounceOn::Address(listen)
            },
            IpAddress::V6(v) => if v == 0 {
                AnnounceOn::AllV6
            } else {
                AnnounceOn::Address(listen)
            },
        },
{
    match listen {
        IpAddress::V4(v) => if v == 0 {
            AnnounceOn::AllV4
        } else {
            AnnounceOn::Address(listen)
        },
        IpAddress::V6(v) => if v == 0 {
            AnnounceOn::AllV6
        } else {
            AnnounceOn::Address(listen)
        },
    }
}

/// The digits of an identifier in text.
pub const ULID_DIGITS: &'static str = "0123456789ABCDEFGHJKMNPQRSTVWXYZ";

/// Whether `s` has the form of an identifier: 26 digits.
pub open spec fn is_ulid_text(s: Seq<char>) -> bool {
    &&& s.len() == 26
    &&& forall|i: int| 0 <= i < s.len() ==> ULID_DIGITS@.contains(#[trigger] s[i])
}

/// `ulid::Ulid::new` and `ulid::Ulid::to_string`: an identifier made of the time and chance, as 26
/// digits of Crockford's base 32. Which digits they are is not claimed.
#[verifier::external_body]
pub(crate) fn new_ulid() -> (r: String)
    ensures
        is_ulid_text(r@),
{
    ulid::Ulid::new().to_string()
}

/// The host name to announce for an identifier.
pub fn service_hostname(id: &str) -> (r: String)
    ensures
        r@ == "llamesh-"@ + unicode_lowercase(id@) + ".local."@,
{
    let mut out = "llamesh-".to_owned();
    out.append(to_lowercase(id).as_str());
    out.append(".local.");
    out
}

/// A host name of its own to announce. Address records belong to a host name, so a name that other
/// services use would mix their addresses with those of the node.
pub fn fresh_service_hostname() -> (r: String)
    ensures
        exists|id: Seq<char>|
            is_ulid_text(id) && r@ == "llamesh-"@ + #[trigger] unicode_lowercase(id) + ".local."@,
{
    let id = new_ulid();
    service_hostname(id.as_str())
}

/// The peers that were found, from whatever source.
pub struct Discovery {
    pub peers: PeerSet,
    /// The addresses that the configuration names.
    pub explicit_peers: Vec<String>,
    /// The services that are there.
    pub services: StringMap<DiscoveredPeer>,
}

/// The peers that the configuration names.
pub open spec fn explicit_set(addrs: Seq<Seq<char>>) -> Set<FoundPeer> {
    addrs.map_values(|a: Seq<char>| explicit_peer(a)).to_set()
}

impl Discovery {
    /// Each peer and each service is there once.
    pub open spec fn wf(&self) -> bool {
        self.peers.wf() && self.services.wf()
    }

    /// The peers that the configuration names.
    pub fn new(config: &ClusterConfig) -> (r: Discovery)
        ensures
            r.wf(),
            r.peers@ == explicit_set(texts(config.peers@)),
            texts(r.explicit_peers@) == texts(config.peers@),
            r.services@ == Map::<Seq<char>, DiscoveredPeer>::empty(),
    {
        let mut peers = PeerSet::new();
        let ghost all = texts(config.peers@);
        let mut i: usize = 0;
        assert(peers@ =~= explicit_set(all.take(0)));
        while i < config.peers.len()
            invariant
                i <= config.peers@.len(),
                all == texts(config.peers@),
                peers.wf(),
                peers@ == explicit_set(all.take(i as int)),
            decreases config.peers@.len() - i,
        {
            let addr = config.peers[i].as_str();
            peers.insert(make_explicit(addr));
            proof {
                let a = all.take(i as int).map_values(|a: Seq<char>| explicit_peer(a));
                let b = all.take(i + 1).map_values(|a: Seq<char>| explicit_peer(a));
                assert(b =~= a.push(explicit_peer(addr@)));
                assert forall|v: FoundPeer| #[trigger] b.contains(v) <==> a.contains(v) || v
                    == explicit_peer(addr@) by {
                    assert(b[a.len() as int] == explicit_peer(addr@));
                    if a.contains(v) {
                        let k = choose|k: int| 0 <= k < a.len() && a[k] == v;
                        assert(b[k] == v);
                    }
                    if b.contains(v) && v != explicit_peer(addr@) {
                        let k = choose|k: int| 0 <= k < b.len() && b[k] == v;
                        assert(a[k] == v);
                    }
                }
                assert(b.to_set() =~= a.to_set().insert(explicit_peer(addr@)));
            }
            i = i + 1;
        }
        assert(all.take(i as int) =~= all);
        let explicit_peers = config.peers.clone();
        assert(texts(explicit_peers@) =~= texts(config.peers@));
        Discovery { peers, explicit_peers, services: StringMap::new() }
    }

    /// The peers that were found.
    pub fn get_peers(&self) -> (r: Vec<DiscoveredPeer>)
        ensures
            r@ == self.peers.items@,
    {
        let mut out: Vec<DiscoveredPeer> = Vec::new();
        let mut i: usize = 0;
        while i < self.peers.items.len()
            invariant
                i <= self.peers.items@.len(),
                out@ == self.peers.items@.take(i as int),
            decreases self.peers.items@.len() - i,
        {
            out.push(self.peers.items[i].clone());
            i = i + 1;
            assert(out@ =~= self.peers.items@.take(i as int));
        }
        assert(out@ =~= self.peers.items@);
        out
    }

    /// The addresses of the peers that were found.
    pub fn get_peer_addrs(&self) -> (r: Vec<String>)
        ensures
            texts(r@) == found(self.peers.items@).map_values(|p: FoundPeer| p.cluster_addr),
    {
        let mut out: Vec<String> = Vec::new();
        let mut i: usize = 0;
        while i < self.peers.items.len()
            invariant
                i == out@.len(),
                i <= self.peers.items@.len(),
                forall|j: int|
                    0 <= j < i ==> (#[trigger] out@[j])@ == self.peers.items@[j].cluster_addr@,
            decreases self.peers.items@.len() - i,
        {
            out.push(self.peers.items[i].cluster_addr.clone());
            i = i + 1;
        }
        assert(texts(out@) =~= found(self.peers.items@).map_values(
            |p: FoundPeer| p.cluster_addr,
        ));
        out
    }

    /// Adds a peer by its address.
    pub fn add_peer(&mut self, addr: &str)
        requires
            old(self).wf(),
        ensures
            final(self).wf(),
            final(self).peers@ == old(self).peers@.insert(explicit_peer(addr@)),
            final(self).services == old(self).services,
            final(self).explicit_peers == old(self).explicit_peers,
    {
        self.peers.insert(make_explicit(addr));
    }

    /// Removes the peers with an address.
    pub fn remove_peer(&mut self, addr: &str)
        requires
            old(self).wf(),
        ensures
            final(self).wf(),
            final(self).peers@ == other_addresses(old(self).peers@, addr@),
            final(self).services == old(self).services,
            final(self).explicit_peers == old(self).explicit_peers,
    {
        self.peers.remove_address(addr);
    }

    /// Takes note of a service that was resolved to a peer, or removed.
    pub fn note_service(&mut self, fullname: &str, peer: Option<DiscoveredPeer>)
        requires
            old(self).wf(),
        ensures
            final(self).wf(),
            final(self).services@ == services_after(old(self).services@, fullname@, peer),
            final(self).peers@ == peers_after(
                old(self).peers@,
                old(self).services@,
                fullname@,
                peer,
            ),
            final(self).explicit_peers == old(self).explicit_peers,
    {
        replace_service_peer(&mut self.services, &mut self.peers, fullname, peer);
    }
}

/// Peers of nodes that a service does not stand for stay as they are, whatever becomes of it.
pub proof fn law_unrelated_peers_stay(
    peers: Set<FoundPeer>,
    services: Map<Seq<char>, DiscoveredPeer>,
    fullname: Seq<char>,
    peer: Option<DiscoveredPeer>,
    other: FoundPeer,
)
    requires
        services.contains_key(service_key(fullname)) ==> services[service_key(
            fullname,
        )].node_id@ != other.node_id,
        peer is Some ==> peer->0.node_id@ != other.node_id,
    ensures
        peers_after(peers, services, fullname, peer).contains(other) == peers.contains(other),
{
    let now = services_after(services, fullname, peer);
    let key = service_key(fullname);
    if services.contains_key(key) {
        lemma_reconciled_others(peers, now, services[key].node_id@, other);
    }
    let first = if services.contains_key(key) {
        reconciled(peers, now, services[key].node_id@)
    } else {
        peers
    };
    if peer is Some {
        lemma_reconciled_others(first, now, peer->0.node_id@, other);
    }
}

proof fn lemma_reconciled_others(
    peers: Set<FoundPeer>,
    services: Map<Seq<char>, DiscoveredPeer>,
    node_id: Seq<char>,
    other: FoundPeer,
)
    requires
        other.node_id != node_id,
    ensures
        reconciled(peers, services, node_id).contains(other) == peers.contains(other),
{
    if exists|name: Seq<char>| is_first_service(services, node_id, name) {
        let name = choose|name: Seq<char>| is_first_service(services, node_id, name);
        assert(services[name]@.node_id == node_id);
    }
}

/// Removing a service that was never seen changes nothing.
pub proof fn law_unknown_removal_changes_nothing(
    peers: Set<FoundPeer>,
    services: Map<Seq<char>, DiscoveredPeer>,
    fullname: Seq<char>,
)
    requires
        !services.contains_key(service_key(fullname)),
    ensures
        peers_after(peers, services, fullname, None) == peers,
        services_after(services, fullname, None) == services,
{
    assert(services_after(services, fullname, None) =~= services);
}

/// A node that was looked at again is there once at most, and exactly if a service stands for it.
pub proof fn law_one_endpoint_per_node(
    peers: Set<FoundPeer>,
    services: Map<Seq<char>, DiscoveredPeer>,
    node_id: Seq<char>,
    a: FoundPeer,
    b: FoundPeer,
)
    requires
        reconciled(peers, services, node_id).contains(a),
        reconciled(peers, services, node_id).contains(b),
        a.node_id == node_id,
        b.node_id == node_id,
    ensures
        a == b,
        exists|name: Seq<char>| #[trigger]
            services.contains_key(name) && services[name]@ == a,
{
    assert(exists|name: Seq<char>| is_first_service(services, node_id, name));
    let name = choose|name: Seq<char>| is_first_service(services, node_id, name);
    assert(services.contains_key(name) && services[name]@ == a);
}

/// A service that comes and goes leaves the peers as they were, if its node was not among them and
/// no other service stands for it. The case of its name, and a dot at its end, make no difference.
pub proof fn law_removal_undoes_arrival(
    peers: Set<FoundPeer>,
    services: Map<Seq<char>, DiscoveredPeer>,
    arrived: Seq<char>,
    removed: Seq<char>,
    peer: DiscoveredPeer,
)
    requires
        service_key(arrived) == service_key(removed),
        !services.contains_key(service_key(arrived)),
        forall|name: Seq<char>| #[trigger]
            services.contains_key(name) ==> services[name].node_id@ != peer.node_id@,
        forall|p: FoundPeer| #[trigger] peers.contains(p) ==> p.node_id != peer.node_id@,
    ensures
        peers_after(
            peers_after(peers, services, arrived, Some(peer)),
            services_after(services, arrived, Some(peer)),
            removed,
            None,
        ) == peers,
        services_after(services_after(services, arrived, Some(peer)), removed, None) == services,
{
    let key = service_key(arrived);
    let with = services_after(services, arrived, Some(peer));
    let without = services_after(with, removed, None);
    assert(without =~= services);
    let there = peers_after(peers, services, arrived, Some(peer));
    let gone = peers_after(there, with, removed, None);
    let id = peer.node_id@;
    assert(gone == reconciled(there, without, id));
    assert forall|name: Seq<char>| !is_first_service(without, id, name) by {}
    assert forall|p: FoundPeer| #[trigger] gone.contains(p) == peers.contains(p) by {
        if p.node_id != id {
            lemma_reconciled_others(peers, with, id, p);
            lemma_reconciled_others(there, without, id, p);
        }
    }
    assert(gone =~= peers);
}

/// Whether the services say that a peer stands for its node.
pub open spec fn stands_for_node(services: Map<Seq<char>, DiscoveredPeer>, p: FoundPeer) -> bool {
    exists|name: Seq<char>| #[trigger]
        is_first_service(services, p.node_id, name) && services[name]@ == p
}

/// Whether an event concerns a node: its service stood for the node, or stands for it now.
pub open spec fn concerns(
    services: Map<Seq<char>, DiscoveredPeer>,
    fullname: Seq<char>,
    peer: Option<DiscoveredPeer>,
    node_id: Seq<char>,
) -> bool {
    let key = service_key(fullname);
    ||| services.contains_key(key) && services[key].node_id@ == node_id
    ||| peer is Some && peer->0.node_id@ == node_id
}

proof fn lemma_reconciled_own(
    peers: Set<FoundPeer>,
    services: Map<Seq<char>, DiscoveredPeer>,
    p: FoundPeer,
)
    ensures
        reconciled(peers, services, p.node_id).contains(p) == stands_for_node(services, p),
{
    let node_id = p.node_id;
    if exists|name: Seq<char>| is_first_service(services, node_id, name) {
        let chosen = choose|name: Seq<char>| is_first_service(services, node_id, name);
        if stands_for_node(services, p) {
            let name = choose|name: Seq<char>| #[trigger]
                is_first_service(services, node_id, name) && services[name]@ == p;
            lemma_first_service_unique(services, node_id, name, chosen);
        }
    }
}

/// After an event a peer of a node that it concerns is there exactly if the services say so; all
/// other peers are there exactly if they were.
pub proof fn law_peers_follow_services(
    peers: Set<FoundPeer>,
    services: Map<Seq<char>, DiscoveredPeer>,
    fullname: Seq<char>,
    peer: Option<DiscoveredPeer>,
    p: FoundPeer,
)
    ensures
        peers_after(peers, services, fullname, peer).contains(p) == if concerns(
            services,
            fullname,
            peer,
            p.node_id,
        ) {
            stands_for_node(services_after(services, fullname, peer), p)
        } else {
            peers.contains(p)
        },
{
    let now = services_after(services, fullname, peer);
    let key = service_key(fullname);
    let first = if services.contains_key(key) {
        reconciled(peers, now, services[key].node_id@)
    } else {
        peers
    };
    if services.contains_key(key) {
        if services[key].node_id@ == p.node_id {
            lemma_reconciled_own(peers, now, p);
        } else {
            lemma_reconciled_others(peers, now, services[key].node_id@, p);
        }
    }
    if peer is Some {
        if peer->0.node_id@ == p.node_id {
            lemma_reconciled_own(first, now, p);
        } else {
            lemma_reconciled_others(first, now, peer->0.node_id@, p);
        }
    }
}

proof fn lemma_first_service_kept(
    services: Map<Seq<char>, DiscoveredPeer>,
    fullname: Seq<char>,
    peer: Option<DiscoveredPeer>,
    node_id: Seq<char>,
    name: Seq<char>,
)
    requires
        !concerns(services, fullname, peer, node_id),
    ensures
        is_first_service(services, node_id, name) == is_first_service(
            services_after(services, fullname, peer),
            node_id,
            name,
        ),
        is_first_service(services, node_id, name) ==> services_after(
            services,
            fullname,
            peer,
        )[name] == services[name],
{
    let now = services_after(services, fullname, peer);
    let key = service_key(fullname);
    assert forall|other: Seq<char>|
        (services.contains_key(other) && services[other].node_id@ == node_id) == (
        #[trigger] now.contains_key(other) && now[other].node_id@ == node_id) by {
        if other != key {
            assert(now.contains_key(other) == services.contains_key(other));
        }
    }
    if is_first_service(services, node_id, name) {
        assert(name != key);
        assert(now.contains_key(name));
    }
    if is_first_service(now, node_id, name) {
        assert(name != key);
        assert(services.contains_key(name));
        assert forall|other: Seq<char>|
            #![trigger services.contains_key(other)]
            services.contains_key(other) && services[other].node_id@ == node_id implies text_le(
            name,
            other,
        ) by {
            assert(now.contains_key(other) && now[other].node_id@ == node_id);
        }
    }
}

proof fn lemma_stands_kept(
    services: Map<Seq<char>, DiscoveredPeer>,
    fullname: Seq<char>,
    peer: Option<DiscoveredPeer>,
    p: FoundPeer,
)
    requires
        !concerns(services, fullname, peer, p.node_id),
    ensures
        stands_for_node(services, p) == stands_for_node(
            services_after(services, fullname, peer),
            p,
        ),
{
    let now = services_after(services, fullname, peer);
    if stands_for_node(services, p) {
        let name = choose|name: Seq<char>| #[trigger]
            is_first_service(services, p.node_id, name) && services[name]@ == p;
        lemma_first_service_kept(services, fullname, peer, p.node_id, name);
        assert(is_first_service(now, p.node_id, name) && now[name]@ == p);
    }
    if stands_for_node(now, p) {
        let name = choose|name: Seq<char>| #[trigger]
            is_first_service(now, p.node_id, name) && now[name]@ == p;
        lemma_first_service_kept(services, fullname, peer, p.node_id, name);
        assert(is_first_service(services, p.node_id, name) && services[name]@ == p);
    }
}

/// The order of events plays no part: two events of different services, whatever nodes they stand
/// for, lead to the same services and the same peers either way round.
pub proof fn law_event_order_plays_no_part(
    peers: Set<FoundPeer>,
    services: Map<Seq<char>, DiscoveredPeer>,
    name1: Seq<char>,
    peer1: Option<DiscoveredPeer>,
    name2: Seq<char>,
    peer2: Option<DiscoveredPeer>,
)
    requires
        service_key(name1) != service_key(name2),
    ensures
        services_after(services_after(services, name1, peer1), name2, peer2) == services_after(
            services_after(services, name2, peer2),
            name1,
            peer1,
        ),
        peers_after(
            peers_after(peers, services, name1, peer1),
            services_after(services, name1, peer1),
            name2,
            peer2,
        ) == peers_after(
            peers_after(peers, services, name2, peer2),
            services_after(services, name2, peer2),
            name1,
            peer1,
        ),
{
    let s1 = services_after(services, name1, peer1);
    let s2 = services_after(services, name2, peer2);
    let s12 = services_after(s1, name2, peer2);
    let s21 = services_after(s2, name1, peer1);
    assert(s12 =~= s21);
    let p1 = peers_after(peers, services, name1, peer1);
    let p2 = peers_after(peers, services, name2, peer2);
    let p12 = peers_after(p1, s1, name2, peer2);
    let p21 = peers_after(p2, s2, name1, peer1);
    assert forall|p: FoundPeer| #[trigger] p12.contains(p) == p21.contains(p) by {
        law_peers_follow_services(peers, services, name1, peer1, p);
        law_peers_follow_services(peers, services, name2, peer2, p);
        law_peers_follow_services(p1, s1, name2, peer2, p);
        law_peers_follow_services(p2, s2, name1, peer1, p);
        assert(concerns(s1, name2, peer2, p.node_id) == concerns(
            services,
            name2,
            peer2,
            p.node_id,
        ));
        assert(concerns(s2, name1, peer1, p.node_id) == concerns(
            services,
            name1,
            peer1,
            p.node_id,
        ));
        if !concerns(s1, name2, peer2, p.node_id) {
            lemma_stands_kept(s1, name2, peer2, p);
        }
        if !concerns(s2, name1, peer1, p.node_id) {
            lemma_stands_kept(s2, name1, peer1, p);
        }
    }
    assert(p12 =~= p21);
}

/// The name of a service is compared without regard to the case of its letters and to the dots at
/// its end.
pub proof fn law_service_names(name: Seq<char>, other: Seq<char>)
    ensures
        service_key(name.push('.')) == service_key(name),
        name.len() == 0 || name.last() != '.' ==> service_key(name) == ascii_lowercase(name),
        name.len() > 0 && other.len() > 0 && name.last() != '.' && other.last() != '.' ==> (
        service_key(name) == service_key(other) <==> ascii_lowercase(name) == ascii_lowercase(
            other,
        )),
{
    let set = seq!['.'];
    assert(set[0] == '.');
    assert(set.contains('.'));
    assert(name.push('.').drop_last() =~= name);
    if name.len() > 0 && name.last() != '.' {
        assert(!set.contains(name.last()));
    }
    if other.len() > 0 && other.last() != '.' {
        assert(!set.contains(other.last()));
    }
}

/// The services that are there: one that was resolved stands for its peer from then on, one that
/// was removed for none, and all others for what they did.
pub proof fn law_services_there(
    services: Map<Seq<char>, DiscoveredPeer>,
    fullname: Seq<char>,
    peer: DiscoveredPeer,
    key: Seq<char>,
)
    ensures
        services_after(services, fullname, Some(peer)).contains_key(service_key(fullname)),
        services_after(services, fullname, Some(peer))[service_key(fullname)] == peer,
        !services_after(services, fullname, None).contains_key(service_key(fullname)),
        key != service_key(fullname) ==> ({
            let a = services_after(services, fullname, Some(peer));
            let b = services_after(services, fullname, None);
            &&& a.contains_key(key) <==> services.contains_key(key)
            &&& b.contains_key(key) <==> services.contains_key(key)
            &&& services.contains_key(key) ==> a[key] == services[key] && b[key] == services[key]
        }),
{
}

/// Which peer stands for a node: the one of its service whose name comes first.
pub proof fn law_who_stands_for_a_node(
    services: Map<Seq<char>, DiscoveredPeer>,
    p: FoundPeer,
    name: Seq<char>,
)
    requires
        services.contains_key(name),
        services[name]@ == p,
        forall|other: Seq<char>| #[trigger]
            services.contains_key(other) && services[other].node_id@ == p.node_id ==> text_le(
                name,
                other,
            ),
    ensures
        stands_for_node(services, p),
        forall|q: FoundPeer| #[trigger]
            stands_for_node(services, q) && q.node_id == p.node_id ==> q == p,
{
    assert(services[name].node_id@ == p.node_id);
    assert(is_first_service(services, p.node_id, name));
    assert forall|q: FoundPeer| #[trigger]
        stands_for_node(services, q) && q.node_id == p.node_id implies q == p by {
        let b = choose|b: Seq<char>| #[trigger]
            is_first_service(services, q.node_id, b) && services[b]@ == q;
        lemma_first_service_unique(services, p.node_id, name, b);
    }
}

/// A node without services is not among the peers that services found.
pub proof fn law_nobody_stands_without_service(
    services: Map<Seq<char>, DiscoveredPeer>,
    p: FoundPeer,
)
    requires
        forall|name: Seq<char>| #[trigger]
            services.contains_key(name) ==> services[name]@ != p,
    ensures
        !stands_for_node(services, p),
{
}

/// A peer is taken out by its node, or by its address, and no other with it.
pub proof fn law_who_is_taken_out(peers: Set<FoundPeer>, p: FoundPeer, node: Seq<char>, addr: Seq<char>)
    ensures
        other_nodes(peers, node).contains(p) <==> peers.contains(p) && p.node_id != node,
        other_addresses(peers, addr).contains(p) <==> peers.contains(p) && p.cluster_addr != addr,
{
}

/// A peer of the configuration is known by its address, with a name made from it and no key.
pub proof fn law_configured_peers(addrs: Seq<Seq<char>>, p: FoundPeer)
    ensures
        explicit_set(addrs).contains(p) <==> addrs.contains(p.cluster_addr) && p.node_id
            == "explicit:"@ + p.cluster_addr && p.public_key is None,
{
    let all = addrs.map_values(|a: Seq<char>| explicit_peer(a));
    if explicit_set(addrs).contains(p) {
        assert(all.contains(p));
        let i = choose|i: int| 0 <= i < all.len() && all[i] == p;
        assert(addrs[i] == p.cluster_addr);
    }
    if addrs.contains(p.cluster_addr) && p.node_id == "explicit:"@ + p.cluster_addr
        && p.public_key is None {
        let i = choose|i: int| 0 <= i < addrs.len() && addrs[i] == p.cluster_addr;
        assert(all[i] == p);
        assert(all.contains(p));
    }
}

/// Which addresses of a service can be used: of IPv4 all but `0.0.0.0`, `127.0.0.0/8` and
/// `224.0.0.0/4`; of IPv6 all but `::`, `::1`, `fe80::/10` and `ff00::/8`.
pub proof fn law_usable_addresses(v4: u32, v6: u128)
    ensures
        announceable(IpAddress::V4(v4)) <==> v4 != 0 && !(0x7f00_0000 <= v4 <= 0x7fff_ffff) && !(
        0xe000_0000 <= v4 <= 0xefff_ffff),
        announceable(IpAddress::V6(v6)) <==> v6 > 1 && !(0xfe80_0000_0000_0000_0000_0000_0000_0000
            <= v6 < 0xfec0_0000_0000_0000_0000_0000_0000_0000) && v6
            < 0xff00_0000_0000_0000_0000_0000_0000_0000,
{
}

/// The endpoint of a service is an IPv4 address if one can be used, and the least that can be used
/// of its family; the order in which the addresses come plays no part.
pub proof fn law_endpoint_choice(
    addresses: Seq<IpAddress>,
    others: Seq<IpAddress>,
    ip: IpAddress,
    other: IpAddress,
)
    requires
        first_announceable(addresses, ip),
    ensures
        addresses.contains(ip) && announceable(ip),
        ip is V6 ==> forall|j: int|
            0 <= j < addresses.len() && (#[trigger] addresses[j]) is V4 ==> !announceable(
                addresses[j],
            ),
        forall|j: int|
            0 <= j < addresses.len() && announceable(#[trigger] addresses[j]) ==> match (
                ip,
                addresses[j],
            ) {
                (IpAddress::V4(a), IpAddress::V4(b)) => a <= b,
                (IpAddress::V6(a), IpAddress::V6(b)) => a <= b,
                _ => true,
            },
        first_announceable(others, other) && (forall|a: IpAddress| #[trigger]
            others.contains(a) <==> addresses.contains(a)) ==> other == ip,
{
    if first_announceable(others, other) && (forall|a: IpAddress| #[trigger]
        others.contains(a) <==> addresses.contains(a)) {
        assert(addresses.contains(other));
        assert(others.contains(ip));
        let i = choose|i: int| 0 <= i < addresses.len() && addresses[i] == other;
        let j = choose|j: int| 0 <= j < others.len() && others[j] == ip;
        assert(ip_le(ip, addresses[i]));
        assert(ip_le(other, others[j]));
    }
}

/// The type of a service ends in `.local.` once, whether or not it was written with it.
pub proof fn law_service_type_form(name: Seq<char>)
    requires
        name.len() > 0,
        name.last() != '.',
        !(name.len() >= 6 && name.skip(name.len() - 6) == ".local"@),
    ensures
        service_type_text(name) == name + ".local."@,
        service_type_text(name.push('.')) == name + ".local."@,
        service_type_text(name + ".local"@) == name + ".local."@,
        service_type_text(name + ".local."@) == name + ".local."@,
{
    reveal_strlit(".local");
    reveal_strlit(".local.");
    let set = seq!['.'];
    let p = ".local"@;
    assert(set[0] == '.');
    assert(set.contains('.'));
    assert(!set.contains(name.last()));
    assert(without_trailing(name, set) == name);
    assert(name.push('.').drop_last() =~= name);
    assert(without_trailing(name.push('.'), set) == name);
    if name.len() >= 6 {
        assert(name.skip(name.len() - 6) =~= name.subrange(name.len() - 6, name.len() as int));
    }
    assert(!(name.len() >= p.len() && occurs_at(name, p, name.len() - p.len())));
    assert(without_suffixes(name, p) == name);
    let local = name + p;
    assert(local.last() == 'l');
    assert(!set.contains(local.last()));
    assert(without_trailing(local, set) == local);
    assert(local.subrange(name.len() as int, name.len() as int + 6) =~= p);
    assert(occurs_at(local, p, local.len() - p.len()));
    assert(local.take(local.len() - p.len()) =~= name);
    assert(without_suffixes(local, p) == name);
    let dotted = name + ".local."@;
    assert(dotted.last() == '.');
    assert(dotted.drop_last() =~= local);
    assert(without_trailing(dotted, set) == without_trailing(local, set));
}

/// However often the type of a service was written with `.local`, it ends in it once.
pub proof fn law_service_type_repeated(name: Seq<char>)
    requires
        name.len() == 0 || name.last() != '.',
    ensures
        service_type_text(name + ".local"@) == service_type_text(name),
        service_type_text(name + ".local."@) == service_type_text(name),
        service_type_text(Seq::empty()) == ".local."@,
{
    reveal_strlit(".local");
    reveal_strlit(".local.");
    let set = seq!['.'];
    let p = ".local"@;
    assert(set[0] == '.');
    assert(set.contains('.'));
    if name.len() > 0 {
        assert(!set.contains(name.last()));
    }
    assert(without_trailing(name, set) == name);
    let local = name + p;
    assert(local.last() == 'l');
    assert(!set.contains(local.last()));
    assert(without_trailing(local, set) == local);
    assert(local.subrange(name.len() as int, name.len() as int + 6) =~= p);
    assert(occurs_at(local, p, local.len() - p.len()));
    assert(local.take(local.len() - p.len()) =~= name);
    let dotted = name + ".local."@;
    assert(dotted.last() == '.');
    assert(dotted.drop_last() =~= local);
    assert(without_trailing(dotted, set) == without_trailing(local, set));
    assert(Seq::<char>::empty() + ".local."@ =~= ".local."@);
}

/// An identifier has twenty-six characters, all of them digits or capital letters, and none of them
/// one of the letters that look like a digit or are left out.
pub proof fn law_form_of_identifiers(s: Seq<char>, i: int)
    requires
        is_ulid_text(s),
        0 <= i < s.len(),
    ensures
        s.len() == 26,
        '0' <= s[i] <= '9' || 'A' <= s[i] <= 'Z',
        s[i] != 'I' && s[i] != 'L' && s[i] != 'O' && s[i] != 'U',
{
    reveal_strlit("0123456789ABCDEFGHJKMNPQRSTVWXYZ");
    assert(ULID_DIGITS@.contains(s[i]));
    let k = choose|k: int| 0 <= k < ULID_DIGITS@.len() && ULID_DIGITS@[k] == s[i];
    assert(0 <= k < 32);
}

/// A set of peers holds exactly those in its list.
pub proof fn law_peers_of_list(peers: PeerSet, p: FoundPeer)
    ensures
        peers@.contains(p) <==> exists|i: int|
            0 <= i < peers.items@.len() && ({
                let q = #[trigger] peers.items@[i];
                &&& q.node_id@ == p.node_id
                &&& q.cluster_addr@ == p.cluster_addr
                &&& q.public_key is None <==> p.public_key is None
                &&& q.public_key is Some ==> q.public_key->0@ == p.public_key->0
            }),
{
    let list = found(peers.items@);
    if peers@.contains(p) {
        let i = choose|i: int| 0 <= i < list.len() && list[i] == p;
        assert(peers.items@[i]@ == p);
    }
    if exists|i: int|
        0 <= i < peers.items@.len() && ({
            let q = #[trigger] peers.items@[i];
            &&& q.node_id@ == p.node_id
            &&& q.cluster_addr@ == p.cluster_addr
            &&& q.public_key is None <==> p.public_key is None
            &&& q.public_key is Some ==> q.public_key->0@ == p.public_key->0
        }) {
        let i = choose|i: int|
            0 <= i < peers.items@.len() && ({
                let q = #[trigger] peers.items@[i];
                &&& q.node_id@ == p.node_id
                &&& q.cluster_addr@ == p.cluster_addr
                &&& q.public_key is None <==> p.public_key is None
                &&& q.public_key is Some ==> q.public_key->0@ == p.public_key->0
            });
        assert(list[i] == peers.items@[i]@);
        assert(list[i] == p);
        assert(list.contains(p));
    }
}

} // verus!
