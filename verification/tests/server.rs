//! Decisions of the server and of the program around it.

use llamesh::connection::{
    tcp_state_is_closed, ConnectionHandle, TCP_CLOSE, TCP_CLOSE_WAIT, TCP_CLOSING, TCP_LAST_ACK,
};
use llamesh::health::{healthz, readyz, Health, Load};
use llamesh::mock_server::{
    authorized, halves, slot_count, split_words, stream_event, SlotTable, StreamEvent,
    MOCK_CONTENT,
};
use llamesh::server::{
    accept_noise_request, advance_noise, after_accept, begin_noise, claimed_node_id, dispatch_connection, drain_step, is_gossip_request,
    key_with_prefix, noise_request_headers, peer_key_text, screen_noise_request, prewarm_reply, rebuild_reply, AcceptAction, AcceptEvent,
    ConnectionAction, DetectedProtocol, DrainStep, NoiseStage, Prewarm,
};
use llamesh::startup::{
    after_attempt, first_build_wanted, initial_build_retry_delays, reload_wanted,
    scheduled_update_retry_delays, FileChange, RetryStep,
};

#[test]
fn test_invalid_fd_reports_gone() {
    // The state of an invalid descriptor cannot be read.
    let mut handle = ConnectionHandle::new(-1);
    assert!(handle.needs_check());
    assert!(handle.is_client_gone(None));
}

#[test]
fn test_cached_flag_avoids_repeated_syscalls() {
    let mut handle = ConnectionHandle::new(-1);
    assert!(handle.is_client_gone(None));
    // Second call uses cached flag
    assert!(!handle.needs_check());
    assert!(handle.is_client_gone(Some(1)));
    assert!(handle.disconnected);
}

#[test]
fn half_closed_connections_count_as_closed() {
    let closed: Vec<u8> = (0..16).filter(|s| tcp_state_is_closed(Some(*s))).collect();
    assert_eq!(
        closed,
        vec![TCP_CLOSE, TCP_CLOSE_WAIT, TCP_LAST_ACK, TCP_CLOSING]
    );
    let mut handle = ConnectionHandle::new(3);
    assert!(!handle.is_client_gone(Some(1)));
    assert!(handle.is_client_gone(Some(TCP_CLOSE_WAIT)));
}

const NO_LOAD: Load = Load {
    vram_mb: 0,
    sysmem_mb: 0,
    max_vram_mb: 1024,
    max_sysmem_mb: 1024,
};

#[test]
fn test_healthz_no_models() {
    let health = healthz(false, false);
    assert_eq!(health.http_status(), 503);
    assert_eq!(health, Health::NoModels);
}

#[test]
fn test_readyz_binary_missing() {
    // Binary missing should return 503
    let health = readyz(false, false, false, false, NO_LOAD);
    assert_eq!(health.http_status(), 503);
    assert_eq!(health, Health::BinaryMissing);
}

#[test]
fn test_readyz_draining() {
    let health = readyz(true, false, false, false, NO_LOAD);
    assert_eq!(health.http_status(), 503);
    assert_eq!(health, Health::Draining);
}

#[test]
fn a_full_node_is_ready_without_room() {
    let full = Load {
        vram_mb: 1024,
        ..NO_LOAD
    };
    assert_eq!(
        readyz(false, true, true, true, full),
        Health::Ready { can_spawn: false }
    );
    let ready = readyz(false, true, true, true, NO_LOAD);
    assert_eq!(ready, Health::Ready { can_spawn: true });
    assert_eq!(ready.http_status(), 200);
    assert_eq!(ready.status_word(true), "ready");
    assert_eq!(ready.message(), None);
    // What is ready is well.
    assert_eq!(healthz(true, true), Health::Well);
    assert_eq!(Health::Well.http_status(), 200);
    assert_eq!(Health::Well.status_word(false), "ok");
    assert_eq!(Health::NoModels.status_word(true), "not_ready");
    assert_eq!(Health::NoModels.status_word(false), "error");
    assert_eq!(Health::NoModels.message(), Some("No models configured"));
    assert_eq!(Health::BinaryMissing.message(), Some("Binary missing"));
    assert_eq!(Health::Draining.message(), Some("Node is draining"));
    assert_eq!(
        readyz(false, true, false, true, NO_LOAD),
        Health::NoModels
    );
    assert_eq!(healthz(true, false), Health::BinaryMissing);
}

#[test]
fn connections_are_dispatched_by_protocol() {
    assert_eq!(
        after_accept(AcceptEvent::Accepted, false),
        AcceptAction::Detect
    );
    assert_eq!(
        after_accept(AcceptEvent::Accepted, true),
        AcceptAction::Stop
    );
    assert_eq!(after_accept(AcceptEvent::Failed, false), AcceptAction::Wait);
    assert_eq!(
        after_accept(AcceptEvent::ShutdownRequested, false),
        AcceptAction::Stop
    );
    assert_eq!(
        dispatch_connection(Some(DetectedProtocol::Tls), true),
        ConnectionAction::ServeTls
    );
    assert_eq!(
        dispatch_connection(Some(DetectedProtocol::Tls), false),
        ConnectionAction::RefuseTls
    );
    assert_eq!(
        dispatch_connection(Some(DetectedProtocol::Http2), false),
        ConnectionAction::ServeHttp
    );
    assert_eq!(
        dispatch_connection(Some(DetectedProtocol::Noise), false),
        ConnectionAction::ServeNoise
    );
    assert_eq!(dispatch_connection(None, true), ConnectionAction::Close);
}

#[test]
fn keys_are_written_in_base64() {
    assert_eq!(peer_key_text(b"hello"), "noise25519:aGVsbG8=");
    assert_eq!(peer_key_text(&[0xff, 0xfe, 0xfd]), "noise25519://79");
    assert_eq!(peer_key_text(b""), "noise25519:");
    assert_eq!(key_with_prefix("x"), "noise25519:x");
    assert_eq!(claimed_node_id(Some("n")), "n");
    assert_eq!(claimed_node_id(None), "unknown");
    assert!(is_gossip_request("POST", "/cluster/gossip"));
    assert!(!is_gossip_request("GET", "/cluster/gossip"));
    assert!(!is_gossip_request("POST", "/v1/models"));
}

#[test]
fn a_shutdown_waits_for_the_grace_period() {
    let second: u64 = 1_000_000_000;
    assert_eq!(drain_step(true, 0, 30), DrainStep::Idle);
    assert_eq!(drain_step(false, 0, 30), DrainStep::Wait);
    assert_eq!(drain_step(false, 30 * second - 1, 30), DrainStep::Wait);
    assert_eq!(drain_step(false, 30 * second, 30), DrainStep::Expired);
    assert_eq!(drain_step(false, u64::MAX, u64::MAX), DrainStep::Wait);
}

#[test]
fn administrative_replies() {
    assert_eq!(rebuild_reply(true).http_status, 202);
    assert_eq!(rebuild_reply(false).http_status, 409);
    assert_eq!(rebuild_reply(false).status, "error");
    assert_eq!(prewarm_reply(Prewarm::NoModel).http_status, 400);
    assert_eq!(prewarm_reply(Prewarm::UnknownModel).http_status, 404);
    let failed = prewarm_reply(Prewarm::Failed {
        error: "no memory".to_string(),
    });
    assert_eq!(failed.http_status, 503);
    assert_eq!(failed.message, "no memory");
    assert_eq!(prewarm_reply(Prewarm::Done).status, "ok");
}

#[test]
fn scheduled_update_recovers_from_transient_failure() {
    let delays = scheduled_update_retry_delays();
    let mut calls = 0;
    let outcome = loop {
        calls += 1;
        let ok = calls != 1;
        match after_attempt(ok, calls - 1, &delays) {
            RetryStep::RetryAfter { .. } => {}
            step => break step,
        }
    };
    assert_eq!(outcome, RetryStep::Succeeded);
    assert_eq!(calls, 2);
}

#[test]
fn retries_end_with_the_delays() {
    let delays = initial_build_retry_delays();
    assert_eq!(delays, vec![10, 30, 60, 120, 300, 600]);
    let mut waited = 0;
    let mut failures = 0;
    loop {
        match after_attempt(false, failures, &delays) {
            RetryStep::RetryAfter { seconds } => waited += seconds,
            step => {
                assert_eq!(step, RetryStep::Exhausted);
                break;
            }
        }
        failures += 1;
    }
    assert_eq!(failures, 6);
    assert_eq!(waited, 1120);
    assert!(first_build_wanted(3, 3));
    assert!(!first_build_wanted(3, 4));
}

#[test]
fn only_changed_contents_of_the_cookbook_count() {
    let names = vec![
        None,
        Some("other.yaml".to_string()),
        Some("cookbook.yaml".to_string()),
    ];
    assert!(reload_wanted(
        &names,
        "cookbook.yaml",
        FileChange::DataModified
    ));
    assert!(reload_wanted(&names, "cookbook.yaml", FileChange::Renamed));
    assert!(!reload_wanted(
        &names,
        "cookbook.yaml",
        FileChange::MetadataModified
    ));
    assert!(!reload_wanted(&names, "third.yaml", FileChange::Created));
    assert!(!reload_wanted(&names, "cookbook.yaml", FileChange::Other));
}

#[test]
fn slots_are_taken_and_given_back() {
    assert_eq!(slot_count(Some(3), Some(4)), 3);
    assert_eq!(slot_count(None, Some(4)), 4);
    assert_eq!(slot_count(None, None), 1);
    let mut table = SlotTable::new(2);
    assert_eq!(table.acquire(), Some(0));
    assert_eq!(table.acquire(), Some(1));
    assert_eq!(table.acquire(), None);
    assert_eq!(table.counts(), (0, 2));
    table.release(0);
    table.release(7);
    assert_eq!(table.counts(), (1, 1));
    assert_eq!(table.acquire(), Some(0));
    table.note_request();
    assert_eq!(
        table.metrics_text("1.5"),
        "# HELP llama_server_uptime_seconds Uptime of the server\n\
         # TYPE llama_server_uptime_seconds gauge\n\
         llama_server_uptime_seconds 1.5\n\
         # HELP llama_server_requests_total Total number of requests\n\
         # TYPE llama_server_requests_total counter\n\
         llama_server_requests_total 1\n\
         # HELP llama_server_slots_idle Number of idle slots\n\
         # TYPE llama_server_slots_idle gauge\n\
         llama_server_slots_idle 0\n\
         # HELP llama_server_slots_processing Number of processing slots\n\
         # TYPE llama_server_slots_processing gauge\n\
         llama_server_slots_processing 2\n"
    );
}

#[test]
fn a_stream_of_words() {
    let words = split_words(MOCK_CONTENT);
    assert_eq!(
        words,
        MOCK_CONTENT
            .split_whitespace()
            .map(|w| w.to_string())
            .collect::<Vec<_>>()
    );
    assert_eq!(split_words("  a\t\nb  "), vec!["a", "b"]);
    assert!(split_words(" ").is_empty());
    let n = words.len();
    assert!(matches!(stream_event(&words, 0), StreamEvent::Word { text } if text == "This "));
    assert!(matches!(stream_event(&words, n), StreamEvent::Stop));
    assert!(matches!(stream_event(&words, n + 1), StreamEvent::Usage));
    assert!(matches!(stream_event(&words, n + 2), StreamEvent::Done));
    assert!(matches!(stream_event(&words, n + 3), StreamEvent::End));
}

#[test]
fn the_mock_checks_its_key_and_splits_its_body() {
    assert!(authorized(None, None));
    assert!(authorized(Some("k"), Some("Bearer k")));
    assert!(!authorized(Some("k"), Some("Bearer K")));
    assert!(!authorized(Some("k"), None));
    assert_eq!(
        halves(&vec![1, 2, 3]),
        (vec![1], vec![2, 3])
    );
    assert_eq!(halves(&vec![]), (vec![], vec![]));
}

#[test]
fn a_noise_connection_serves_verified_peers_only() {
    assert_eq!(begin_noise(false), NoiseStage::Closed);
    let mut stage = begin_noise(true);
    assert_eq!(stage, NoiseStage::Handshake);
    stage = advance_noise(stage, true, "", "");
    assert_eq!(stage, NoiseStage::VerifyPeer);
    assert_eq!(advance_noise(stage, false, "", ""), NoiseStage::Closed);
    stage = advance_noise(stage, true, "", "");
    assert_eq!(stage, NoiseStage::ReadRequest);
    assert_eq!(
        advance_noise(stage, true, "POST", "/cluster/gossip"),
        NoiseStage::Answer { gossip: true }
    );
    stage = advance_noise(stage, true, "GET", "/cluster/gossip");
    assert_eq!(stage, NoiseStage::Answer { gossip: false });
    assert_eq!(advance_noise(stage, true, "", ""), NoiseStage::ReadRequest);
    assert_eq!(advance_noise(stage, false, "", ""), NoiseStage::Closed);
    assert_eq!(advance_noise(NoiseStage::Closed, true, "", ""), NoiseStage::Closed);
}

#[test]
fn only_good_headers_come_through_noise() {
    let pairs = [
        ("Content-Type", "text/plain"),
        ("X-Key", "first"),
        ("x-key", "second\tpart"),
        ("bad name", "v"),
        ("", "v"),
        ("x-line", "two\nlines"),
        ("x-del", "a\u{7f}"),
        ("x-wide", "caf\u{e9}"),
        ("x-quote\"", "v"),
        ("!#$%&'*+-.^_`|~0Z", ""),
    ];
    let headers: Vec<(String, String)> = pairs
        .iter()
        .map(|(n, v)| (n.to_string(), v.to_string()))
        .collect();
    let kept = noise_request_headers(&headers);
    assert_eq!(kept.len(), 4);
    assert_eq!(kept.get("content-type").map(|v| v.as_str()), Some("text/plain"));
    assert_eq!(kept.get("x-key").map(|v| v.as_str()), Some("second\tpart"));
    assert_eq!(kept.get("x-wide").map(|v| v.as_str()), Some("caf\u{e9}"));
    assert_eq!(kept.get("!#$%&'*+-.^_`|~0z").map(|v| v.as_str()), Some(""));

    let longest = "n".repeat(65535);
    let too_long = "n".repeat(65536);
    assert_eq!(noise_request_headers(&vec![(longest, String::new())]).len(), 1);
    assert_eq!(noise_request_headers(&vec![(too_long, String::new())]).len(), 0);
}

#[test]
fn a_busy_server_answers_so() {
    let mut table = SlotTable::new(1);
    assert_eq!(table.begin_request(), Ok(0));
    assert_eq!(table.begin_request(), Err(503));
    table.release(0);
    assert_eq!(table.begin_request(), Ok(0));
    assert_eq!(SlotTable::new(0).begin_request(), Err(503));
}

#[test]
fn a_request_over_noise_needs_a_method_and_a_path() {
    let headers = vec![("X-A".to_string(), "1".to_string())];
    let kept = accept_noise_request("GET", "/v1/models", &headers).unwrap();
    assert_eq!(kept.get("x-a").map(|v| v.as_str()), Some("1"));
    for (method, path) in [("GE T", "/v1/models"), ("", "/"), ("GET", "/a b"), ("GET", "")] {
        let (status, text) = accept_noise_request(method, path, &headers).unwrap_err();
        assert_eq!(status, 400);
        assert!(text.starts_with("Invalid request: "));
        assert!(text.len() > "Invalid request: ".len());
    }
    let (status, text) = screen_noise_request(Some("no".to_string()), &headers).unwrap_err();
    assert_eq!((status, text.as_str()), (400, "Invalid request: no"));
    assert_eq!(screen_noise_request(None, &headers).unwrap().len(), 1);
}

#[test]
fn slots_begin_idle_and_without_a_prompt() {
    let table = SlotTable::new(2);
    assert!(table.slots.iter().all(|s| s.state == 0 && s.prompt.is_empty()));
}
