//! Decisions of the API server: what becomes of a connection, a request to rebuild or prewarm, a
//! message over Noise, and a shutdown.
use vstd::prelude::*;
use crate::cluster::{
    mismatch_to_log, opt_text, process_gossip_message, taken_in, version_rejected, versions_noted,
    GossipMessage, GossipOutcome, PeerTable,
};
use crate::config::NodeConfig;
use crate::net::Endpoint;
use crate::string_map::StringMap;
use crate::text::{ascii_lowercase, same};

verus! {

/// What the first bytes of a connection look like.
#[derive(Debug, Clone, Copy, PartialEq, Eq, Structural)]
pub enum DetectedProtocol {
    Tls,
    Http,
    Http2,
    Noise,
}

/// What came of waiting for a connection.
#[derive(Debug, Clone, Copy, PartialEq, Eq, Structural)]
pub enum AcceptEvent {
    Accepted,
    Failed,
    ShutdownRequested,
}

/// What to do after waiting for a connection.
#[derive(Debug, Clone, Copy, PartialEq, Eq, Structural)]
pub enum AcceptAction {
    /// Find out what the connection speaks.
    Detect,
    /// Wait for the next one.
    Wait,
    /// Take no more connections.
    Stop,
}

/// Decides what to do after waiting for a connection. One that comes while the node goes down is
/// not served.
pub fn after_accept(event: AcceptEvent, draining: bool) -> (r: AcceptAction)
    ensures
        r == match event {
            AcceptEvent::Accepted => if draining {
                AcceptAction::Stop
            } else {
                AcceptAction::Detect
            },
            AcceptEvent::Failed => AcceptAction::Wait,
            AcceptEvent::ShutdownRequested => AcceptAction::Stop,
        },
{
    match event {
        AcceptEvent::Accepted => if draining {
            AcceptAction::Stop
        } else {
            AcceptAction::Detect
        },
        AcceptEvent::Failed => AcceptAction::Wait,
        AcceptEvent::ShutdownRequested => AcceptAction::Stop,
    }
}

/// How to serve a connection.
#[derive(Debug, Clone, Copy, PartialEq, Eq, Structural)]
pub enum ConnectionAction {
    ServeTls,
    ServeHttp,
    ServeNoise,
    /// TLS was spoken, and there is no certificate.
    RefuseTls,
    /// Nothing was recognised in time.
    Close,
}

/// Decides how to serve a connection by what it speaks; `None` where that was not found out.
pub fn dispatch_connection(protocol: Option<DetectedProtocol>, tls_configured: bool) -> (r:
    ConnectionAction)
    ensures
        r == match protocol {
            None => ConnectionAction::Close,
            Some(DetectedProtocol::Tls) => if tls_configured {
                ConnectionAction::ServeTls
            } else {
                ConnectionAction::RefuseTls
            },
            Some(DetectedProtocol::Http) => ConnectionAction::ServeHttp,
            Some(DetectedProtocol::Http2) => ConnectionAction::ServeHttp,
            Some(DetectedProtocol::Noise) => ConnectionAction::ServeNoise,
        },
{
    match protocol {
        None => ConnectionAction::Close,
        Some(p) => match p {
            DetectedProtocol::Tls => if tls_configured {
                ConnectionAction::ServeTls
            } else {
                ConnectionAction::RefuseTls
            },
            DetectedProtocol::Http => ConnectionAction::ServeHttp,
            DetectedProtocol::Http2 => ConnectionAction::ServeHttp,
            DetectedProtocol::Noise => ConnectionAction::ServeNoise,
        },
    }
}

/// Whether the server speaks TLS.
pub fn tls_enabled(config: &NodeConfig) -> (r: bool)
    ensures
        r == (config.server_tls is Some && config.server_tls->0.enabled),
{
    match &config.server_tls {
        Some(tls) => tls.enabled,
        None => false,
    }
}

/// Whether nodes speak Noise with each other.
pub fn noise_enabled(config: &NodeConfig) -> (r: bool)
    ensures
        r == (config.cluster.enabled && config.cluster.noise.enabled),
{
    config.cluster.enabled && config.cluster.noise.enabled
}

/// What `base64::engine::general_purpose::STANDARD` makes of bytes: their Base64 form with the
/// standard alphabet and padding.
pub uninterp spec fn base64_text(bytes: Seq<u8>) -> Seq<char>;

/// `base64::Engine::encode` with the standard engine: the text depends on the bytes alone.
#[verifier::external_body]
pub(crate) fn encode_base64(bytes: &[u8]) -> (r: String)
    ensures
        r@ == base64_text(bytes@),
{
    base64::Engine::encode(&base64::engine::general_purpose::STANDARD, bytes)
}

/// The public key of a peer in the form in which keys are kept and compared, given its encoding.
pub fn key_with_prefix(encoded: &str) -> (r: String)
    ensures
        r@ == "noise25519:"@ + encoded@,
{
    let mut out = "noise25519:".to_owned();
    out.append(encoded);
    out
}

/// The public key of a peer in the form in which keys are kept and compared.
pub fn peer_key_text(key: &[u8]) -> (r: String)
    ensures
        r@ == "noise25519:"@ + base64_text(key@),
{
    key_with_prefix(encode_base64(key).as_str())
}

/// The node that a peer says it is.
pub fn claimed_node_id(node_id: Option<&str>) -> (r: String)
    ensures
        r@ == match node_id {
            Some(id) => id@,
            None => "unknown"@,
        },
{
    match node_id {
        Some(id) => id.to_owned(),
        None => "unknown".to_owned(),
    }
}

/// Whether a request over Noise is a message of gossip; any other is a request to the API.
pub fn is_gossip_request(method: &str, path: &str) -> (r: bool)
    ensures
        r == (method@ == "POST"@ && path@ == "/cluster/gossip"@),
{
    same(method, "POST") && same(path, "/cluster/gossip")
}

/// Where a connection over Noise stands: what is to be done next.
#[derive(Debug, Clone, Copy, PartialEq, Eq, Structural)]
pub enum NoiseStage {
    /// Shake hands, within a time.
    Handshake,
    /// Hold the key of the peer against those that are known or allowed.
    VerifyPeer,
    /// Read a request.
    ReadRequest,
    /// Answer a request: a message of gossip, or one to the API.
    Answer { gossip: bool },
    /// Nothing more.
    Closed,
}

/// Where a connection over Noise begins; `configured` says whether this node speaks Noise.
pub open spec fn first_noise_stage(configured: bool) -> NoiseStage {
    if configured {
        NoiseStage::Handshake
    } else {
        NoiseStage::Closed
    }
}

/// Where a connection over Noise stands after something was done (`ok`) or failed. Whatever fails
/// ends it. `gossip` says whether the request that was read is a message of gossip.
pub open spec fn next_noise_stage(stage: NoiseStage, ok: bool, gossip: bool) -> NoiseStage {
    if !ok {
        NoiseStage::Closed
    } else {
        match stage {
            NoiseStage::Handshake => NoiseStage::VerifyPeer,
            NoiseStage::VerifyPeer => NoiseStage::ReadRequest,
            NoiseStage::ReadRequest => NoiseStage::Answer { gossip },
            NoiseStage::Answer { .. } => NoiseStage::ReadRequest,
            NoiseStage::Closed => NoiseStage::Closed,
        }
    }
}

/// Begins a connection over Noise.
pub fn begin_noise(configured: bool) -> (r: NoiseStage)
    ensures
        r == first_noise_stage(configured),
{
    if configured {
        NoiseStage::Handshake
    } else {
        NoiseStage::Closed
    }
}

/// Moves a connection over Noise on. `method` and `path` are those of the request, where one was
/// read.
pub fn advance_noise(stage: NoiseStage, ok: bool, method: &str, path: &str) -> (r: NoiseStage)
    ensures
        r == next_noise_stage(
            stage,
            ok,
            method@ == "POST"@ && path@ == "/cluster/gossip"@,
        ),
{
    if !ok {
        return NoiseStage::Closed;
    }
    match stage {
        NoiseStage::Handshake => NoiseStage::VerifyPeer,
        NoiseStage::VerifyPeer => NoiseStage::ReadRequest,
        NoiseStage::ReadRequest => NoiseStage::Answer { gossip: is_gossip_request(method, path) },
        NoiseStage::Answer { .. } => NoiseStage::ReadRequest,
        NoiseStage::Closed => NoiseStage::Closed,
    }
}

/// Whether requests of the peer are read and answered.
pub open spec fn is_served(stage: NoiseStage) -> bool {
    stage is ReadRequest || stage is Answer
}

/// Only a peer whose key was verified is served, and a connection that was closed stays so.
pub proof fn law_only_verified_peers_served(stage: NoiseStage, ok: bool, gossip: bool)
    ensures
        is_served(next_noise_stage(stage, ok, gossip)) ==> ok && (is_served(stage) || stage
            == NoiseStage::VerifyPeer),
        next_noise_stage(stage, ok, gossip) == NoiseStage::VerifyPeer ==> ok && stage
            == NoiseStage::Handshake,
        next_noise_stage(NoiseStage::Closed, ok, gossip) == NoiseStage::Closed,
{
}

/// Whether a character may stand in the name of a header.
pub open spec fn is_header_name_char(c: char) -> bool {
    ||| '0' <= c <= '9'
    ||| 'a' <= c <= 'z'
    ||| 'A' <= c <= 'Z'
    ||| seq!['!', '#', '$', '%', '&', '\'', '*', '+', '-', '.', '^', '_', '`', '|', '~'].contains(c)
}

/// Whether a text is the name of a header.
pub open spec fn is_header_name(name: Seq<char>) -> bool {
    &&& 0 < name.len() < 65536
    &&& forall|i: int| 0 <= i < name.len() ==> is_header_name_char(#[trigger] name[i])
}

/// Whether a text may be the value of a header: it holds no control character but tabs.
pub open spec fn is_header_value(value: Seq<char>) -> bool {
    forall|i: int|
        0 <= i < value.len() ==> (#[trigger] value[i] >= ' ' && value[i] != '\x7f') || value[i] == '\t'
}

/// The name of a header in small letters, by `http::HeaderName::from_bytes`. It is taken for
/// granted that this accepts the names that `is_header_name` describes and no others, and gives
/// them back with capital letters made small.
#[verifier::external_body]
fn header_name(name: &str) -> (r: Option<String>)
    ensures
        match r {
            Some(n) => is_header_name(name@) && n@ == ascii_lowercase(name@),
            None => !is_header_name(name@),
        },
{
    match axum::http::HeaderName::from_bytes(name.as_bytes()) {
        Ok(n) => Some(n.as_str().to_owned()),
        Err(_) => None,
    }
}

/// Whether `http::HeaderValue::from_str` accepts a text. It is taken for granted that this accepts
/// the values that `is_header_value` describes and no others.
#[verifier::external_body]
fn header_value_accepted(value: &str) -> (r: bool)
    ensures
        r == is_header_value(value@),
{
    axum::http::HeaderValue::from_str(value).is_ok()
}

/// The headers that reach the API of those in a request over Noise, by their names in small
/// letters. Of several with one name the last counts. Whatever is no header is left out.
pub open spec fn kept_headers(headers: Seq<(String, String)>) -> Map<Seq<char>, Seq<char>>
    decreases headers.len(),
{
    if headers.len() == 0 {
        Map::empty()
    } else {
        let before = kept_headers(headers.drop_last());
        let (name, value) = headers.last();
        if is_header_name(name@) && is_header_value(value@) {
            before.insert(ascii_lowercase(name@), value@)
        } else {
            before
        }
    }
}

/// The headers of a request to the API that came over Noise.
pub fn noise_request_headers(headers: &Vec<(String, String)>) -> (r: StringMap<String>)
    ensures
        r.wf(),
        r@.map_values(|v: String| v@) == kept_headers(headers@),
{
    let mut out: StringMap<String> = StringMap::new();
    let mut i: usize = 0;
    assert(out@.map_values(|v: String| v@) =~= kept_headers(headers@.take(0)));
    while i < headers.len()
        invariant
            i <= headers@.len(),
            out.wf(),
            out@.map_values(|v: String| v@) == kept_headers(headers@.take(i as int)),
        decreases headers@.len() - i,
    {
        let ghost before = out@;
        assert(headers@.take(i + 1).drop_last() =~= headers@.take(i as int));
        assert(headers@.take(i + 1).last() == headers@[i as int]);
        let accepted = header_value_accepted(headers[i].1.as_str());
        if let Some(name) = header_name(headers[i].0.as_str()) {
            if accepted {
                let value = headers[i].1.as_str().to_owned();
                let ghost key = name@;
                out.insert(name, value);
                assert(out@.map_values(|v: String| v@) =~= before.map_values(
                    |v: String| v@,
                ).insert(key, headers@[i as int].1@));
            }
        }
        i = i + 1;
    }
    assert(headers@.take(i as int) =~= headers@);
    out
}

/// What `http::request::Builder` says against a request with this method and this URI; nothing
/// where it makes one.
pub uninterp spec fn request_fault(method: Seq<char>, uri: Seq<char>) -> Option<Seq<char>>;

/// `http::request::Builder` with a method and a URI: what its error says, if `body` gives one. It
/// depends on the two texts alone.
#[verifier::external_body]
fn check_request(method: &str, uri: &str) -> (r: Option<String>)
    ensures
        opt_text(r) == request_fault(method@, uri@),
{
    match axum::http::Request::builder().method(method).uri(uri).body(()) {
        Ok(_) => None,
        Err(e) => Some(e.to_string()),
    }
}

/// The headers with which a request over Noise reaches the API, or the status and the text of the
/// answer to one that has a fault.
pub fn screen_noise_request(
    fault: Option<String>,
    headers: &Vec<(String, String)>,
) -> (r: Result<StringMap<String>, (u16, String)>)
    ensures
        match r {
            Ok(kept) => fault is None && kept.wf() && kept@.map_values(|v: String| v@)
                == kept_headers(headers@),
            Err(answer) => fault is Some && answer.0 == 400 && answer.1@ == "Invalid request: "@
                + fault->0@,
        },
{
    match fault {
        None => Ok(noise_request_headers(headers)),
        Some(error) => {
            let mut text = "Invalid request: ".to_owned();
            text.append(error.as_str());
            Err((400, text))
        },
    }
}

/// Takes a request over Noise to the API: its headers, or the status and the text of the answer to
/// one whose method or path is none.
pub fn accept_noise_request(
    method: &str,
    path: &str,
    headers: &Vec<(String, String)>,
) -> (r: Result<StringMap<String>, (u16, String)>)
    ensures
        match r {
            Ok(kept) => request_fault(method@, path@) is None && kept.wf() && kept@.map_values(
                |v: String| v@,
            ) == kept_headers(headers@),
            Err(answer) => request_fault(method@, path@) is Some && answer.0 == 400 && answer.1@
                == "Invalid request: "@ + request_fault(method@, path@)->0,
        },
{
    screen_noise_request(check_request(method, path), headers)
}

/// Whatever is in a request over Noise, only headers with names in small letters and good values
/// reach the API.
pub proof fn law_kept_headers_are_headers(headers: Seq<(String, String)>, key: Seq<char>)
    requires
        kept_headers(headers).contains_key(key),
    ensures
        is_header_name(key),
        ascii_lowercase(key) == key,
        is_header_value(kept_headers(headers)[key]),
    decreases headers.len(),
{
    if headers.len() > 0 {
        let (name, value) = headers.last();
        if is_header_name(name@) && is_header_value(value@) && key == ascii_lowercase(name@) {
            assert forall|i: int| 0 <= i < key.len() implies is_header_name_char(#[trigger] key[i]) by {
                assert(is_header_name_char(name@[i]));
            }
            assert(ascii_lowercase(key) =~= key);
        } else {
            law_kept_headers_are_headers(headers.drop_last(), key);
        }
    }
}

/// What becomes of a message over Noise.
#[derive(Debug, Clone, Copy, PartialEq, Eq, Structural)]
pub enum NoiseGossip {
    /// It claims to come from another node than the one that proved its key.
    WrongNode,
    Handled { outcome: GossipOutcome },
}

impl NoiseGossip {
    /// The HTTP status of the answer.
    pub fn status(&self) -> (r: u16)
        ensures
            r == match *self {
                NoiseGossip::WrongNode => 403u16,
                NoiseGossip::Handled { .. } => 200u16,
            },
    {
        match *self {
            NoiseGossip::WrongNode => 403,
            NoiseGossip::Handled { .. } => 200,
        }
    }

    /// What the answer says is wrong, if anything is.
    pub fn error(&self) -> (r: Option<&'static str>)
        ensures
            match *self {
                NoiseGossip::WrongNode => r is Some && r->0@ == "Peer node_id mismatch"@,
                NoiseGossip::Handled { .. } => r is None,
            },
    {
        match *self {
            NoiseGossip::WrongNode => Some("Peer node_id mismatch"),
            NoiseGossip::Handled { .. } => None,
        }
    }
}

/// The status and the text of the answer to a message over Noise that cannot be read, for the
/// reason `error`.
pub fn unreadable_gossip(error: &str) -> (r: (u16, String))
    ensures
        r.0 == 400,
        r.1@ == "Invalid JSON: "@ + error@,
{
    let mut text = "Invalid JSON: ".to_owned();
    text.append(error);
    (400, text)
}

/// Takes in a message over Noise from the node that proved its key as `peer_node_id`. A message
/// that claims to come from another node is refused, and changes nothing.
pub fn handle_noise_gossip(
    table: &mut PeerTable,
    config: &NodeConfig,
    local_version: &str,
    peer_node_id: &str,
    msg: GossipMessage,
    remote: Endpoint,
    now: u64,
) -> (r: NoiseGossip)
    requires
        old(table).wf(),
    ensures
        final(table).wf(),
        match r {
            NoiseGossip::WrongNode => msg.origin.node_id@ != peer_node_id@ && *final(table)
                == *old(table),
            NoiseGossip::Handled { outcome } => {
                &&& msg.origin.node_id@ == peer_node_id@
                &&& outcome.accepted == !version_rejected(
                    config.cluster.version_mismatch_action@,
                    local_version@,
                    msg.origin.version@,
                )
                &&& outcome.log_mismatch == mismatch_to_log(
                        old(table).logged_peer_versions@,
                        msg.origin.node_id@,
                        msg.origin.version@,
                        local_version@,
                    )
                &&& versions_noted(
                    old(table).logged_peer_versions@,
                    final(table).logged_peer_versions@,
                    msg.origin.node_id@,
                    msg.origin.version@,
                    local_version@,
                )
                &&& !outcome.accepted ==> final(table).peers@ == old(table).peers@
                &&& outcome.accepted ==> taken_in(
                    old(table).peers@,
                    final(table).peers@,
                    *config,
                    msg,
                    Some(remote),
                    now,
                )
            },
        },
{
    if !same(msg.origin.node_id.as_str(), peer_node_id) {
        return NoiseGossip::WrongNode;
    }
    let outcome = process_gossip_message(table, config, local_version, msg, Some(remote), now);
    NoiseGossip::Handled { outcome }
}

/// What becomes of a shutdown.
#[derive(Debug, Clone, Copy, PartialEq, Eq, Structural)]
pub enum DrainStep {
    /// Nothing is left to do.
    Idle,
    /// The time is up.
    Expired,
    /// Look again in half a second.
    Wait,
}

/// Decides whether a node that goes down waits for its requests: until there are none, or the
/// grace period is over.
pub fn drain_step(idle: bool, waited_ns: u64, grace_secs: u64) -> (r: DrainStep)
    ensures
        r == if idle {
            DrainStep::Idle
        } else if waited_ns >= grace_secs * 1_000_000_000 {
            DrainStep::Expired
        } else {
            DrainStep::Wait
        },
{
    if idle {
        DrainStep::Idle
    } else if waited_ns as u128 >= grace_secs as u128 * 1_000_000_000 {
        DrainStep::Expired
    } else {
        DrainStep::Wait
    }
}

/// An answer with a status, a word for it and a message.
#[derive(Debug)]
pub struct Reply {
    pub http_status: u16,
    pub status: &'static str,
    pub message: String,
}

/// Whether an answer is this one.
pub open spec fn is_reply(r: Reply, http_status: u16, status: Seq<char>, message: Seq<char>) -> bool {
    r.http_status == http_status && r.status@ == status && r.message@ == message
}

/// The answer to a request to rebuild: it is begun, unless a build is under way.
pub fn rebuild_reply(lock_free: bool) -> (r: Reply)
    ensures
        if lock_free {
            is_reply(r, 202, "accepted"@, "Rebuild triggered in background"@)
        } else {
            is_reply(r, 409, "error"@, "Rebuild already in progress"@)
        },
{
    if lock_free {
        Reply {
            http_status: 202,
            status: "accepted",
            message: "Rebuild triggered in background".to_owned(),
        }
    } else {
        Reply {
            http_status: 409,
            status: "error",
            message: "Rebuild already in progress".to_owned(),
        }
    }
}

/// What came of a request to prewarm a model.
#[derive(Debug, Clone)]
pub enum Prewarm {
    /// The request names no model.
    NoModel,
    UnknownModel,
    Failed { error: String },
    Done,
}

/// The answer to a request to prewarm a model.
pub fn prewarm_reply(outcome: Prewarm) -> (r: Reply)
    ensures
        match outcome {
            Prewarm::NoModel => is_reply(r, 400, "error"@, "Missing model field"@),
            Prewarm::UnknownModel => is_reply(r, 404, "error"@, "Model not found"@),
            Prewarm::Failed { error } => is_reply(r, 503, "error"@, error@),
            Prewarm::Done => is_reply(r, 200, "ok"@, "Model prewarmed"@),
        },
{
    match outcome {
        Prewarm::NoModel => Reply {
            http_status: 400,
            status: "error",
            message: "Missing model field".to_owned(),
        },
        Prewarm::UnknownModel => Reply {
            http_status: 404,
            status: "error",
            message: "Model not found".to_owned(),
        },
        Prewarm::Failed { error } => Reply { http_status: 503, status: "error", message: error },
        Prewarm::Done => Reply {
            http_status: 200,
            status: "ok",
            message: "Model prewarmed".to_owned(),
        },
    }
}

/// The course of a connection over Noise: from the handshake to the check of the peer, from there
/// to a request, from a request to its answer, and from an answer to the next request. Whatever
/// fails ends it, and it never shakes hands again.
pub proof fn law_course_over_noise(stage: NoiseStage, ok: bool, gossip: bool, g: bool)
    ensures
        first_noise_stage(true) == NoiseStage::Handshake,
        first_noise_stage(false) == NoiseStage::Closed,
        next_noise_stage(stage, ok, gossip) == NoiseStage::VerifyPeer <==> ok && stage
            == NoiseStage::Handshake,
        next_noise_stage(stage, ok, gossip) == NoiseStage::ReadRequest <==> ok && (stage
            == NoiseStage::VerifyPeer || stage is Answer),
        next_noise_stage(stage, ok, gossip) == (NoiseStage::Answer { gossip: g }) <==> ok && stage
            == NoiseStage::ReadRequest && g == gossip,
        next_noise_stage(stage, ok, gossip) == NoiseStage::Closed <==> !ok || stage
            == NoiseStage::Closed,
        next_noise_stage(stage, ok, gossip) != NoiseStage::Handshake,
{
}

/// Which characters may stand in the name of a header, by code point: no control characters, no
/// blanks, no delimiters, and nothing beyond ASCII.
pub proof fn law_header_name_characters(c: char)
    ensures
        c as u32 <= 32 || c as u32 >= 127 ==> !is_header_name_char(c),
        c == '"' || c == '(' || c == ')' || c == ',' || c == '/' || c == ':' || c == ';' || c == '<'
            || c == '=' || c == '>' || c == '?' || c == '@' || c == '[' || c == '\\' || c == ']' || c
            == '{' || c == '}' ==> !is_header_name_char(c),
        32 < (c as u32) && (c as u32) < 127 && !(c == '"' || c == '(' || c == ')' || c == ',' || c
            == '/' || c == ':' || c == ';' || c == '<' || c == '=' || c == '>' || c == '?' || c
            == '@' || c == '[' || c == '\\' || c == ']' || c == '{' || c == '}')
            ==> is_header_name_char(c),
{
    let others = seq!['!', '#', '$', '%', '&', '\'', '*', '+', '-', '.', '^', '_', '`', '|', '~'];
    assert(others[0] == '!' && others[1] == '#' && others[2] == '$' && others[3] == '%'
        && others[4] == '&' && others[5] == '\'' && others[6] == '*' && others[7] == '+'
        && others[8] == '-' && others[9] == '.' && others[10] == '^' && others[11] == '_'
        && others[12] == '`' && others[13] == '|' && others[14] == '~');
}

/// A name of a header has at least one character and fewer than 65536; a value has none below a
/// blank but tabs, and no delete character.
pub proof fn law_header_forms(name: Seq<char>, value: Seq<char>, c: char)
    ensures
        !is_header_name(Seq::empty()),
        name.len() >= 65536 ==> !is_header_name(name),
        0 < name.len() < 65535 ==> (is_header_name(name.push(c)) <==> is_header_name(name)
            && is_header_name_char(c)),
        is_header_name(seq![c]) <==> is_header_name_char(c),
        is_header_value(Seq::empty()),
        is_header_value(value.push(c)) <==> is_header_value(value) && (c as u32 == 9 || c as u32
            >= 32 && c as u32 != 127),
{
    let more = name.push(c);
    if 0 < name.len() < 65535 {
        if is_header_name(more) {
            assert forall|i: int| 0 <= i < name.len() implies is_header_name_char(
                #[trigger] name[i],
            ) by {
                assert(is_header_name_char(more[i]));
            }
            assert(is_header_name_char(more[name.len() as int]));
        }
    }
    let one = seq![c];
    if is_header_name(one) {
        assert(is_header_name_char(one[0]));
    }
    let longer = value.push(c);
    if is_header_value(longer) {
        assert forall|i: int| 0 <= i < value.len() implies (#[trigger] value[i] >= ' ' && value[i]
            != '\x7f') || value[i] == '\t' by {
            assert(longer[i] == value[i]);
        }
        assert(longer[value.len() as int] == c);
    }
}

/// Each header of a request reaches the API under its name in small letters, a later one of the
/// same name in place of an earlier one; what is no header changes nothing.
pub proof fn law_which_headers_reach(
    headers: Seq<(String, String)>,
    name: String,
    value: String,
    other: Seq<char>,
)
    ensures
        kept_headers(Seq::empty()) == Map::<Seq<char>, Seq<char>>::empty(),
        !is_header_name(name@) || !is_header_value(value@) ==> kept_headers(
            headers.push((name, value)),
        ) == kept_headers(headers),
        is_header_name(name@) && is_header_value(value@) ==> ({
            let after = kept_headers(headers.push((name, value)));
            let before = kept_headers(headers);
            &&& after.contains_key(ascii_lowercase(name@))
            &&& after[ascii_lowercase(name@)] == value@
            &&& other != ascii_lowercase(name@) ==> (after.contains_key(other)
                <==> before.contains_key(other)) && (before.contains_key(other) ==> after[other]
                == before[other])
        }),
{
    assert(headers.push((name, value)).drop_last() =~= headers);
}

/// An answer is known by its status, its word and its message.
pub proof fn law_replies(r: Reply, http_status: u16, status: Seq<char>, message: Seq<char>)
    ensures
        is_reply(r, http_status, status, message) <==> r.http_status == http_status && r.status@
            == status && r.message@ == message,
{
}

} // verus!
