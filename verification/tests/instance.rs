//! Instances of the model server: identity, startup log, readiness.

use llamesh::instance::{
    bearer, compute_args_hash, filter_args, library_path, note_label, note_line, note_value,
    parse_llama_server_log, short_hex, ChildPoll, Instance, InstanceStatus, ParsedModelParams,
    ReadyError, MAX_STARTUP_LOG_LINES, MIN_STARTUP_TIMEOUT_SECS,
};

fn texts(items: &[&str]) -> Vec<String> {
    items.iter().map(|s| s.to_string()).collect()
}

fn instance() -> Instance {
    Instance::new(
        "test-id".to_string(),
        "test-model".to_string(),
        "default".to_string(),
        "127.0.0.1".to_string(),
        8080,
        "hash123".to_string(),
        false,
    )
}

#[test]
fn test_instance_status_transitions() {
    // Test that InstanceStatus can be cloned and compared
    let status = InstanceStatus::Starting;
    assert_eq!(status, InstanceStatus::Starting);

    let status = InstanceStatus::Ready;
    assert_eq!(status, InstanceStatus::Ready);

    let status = InstanceStatus::Failed;
    assert_eq!(status, InstanceStatus::Failed);
}

#[test]
fn test_instance_creation() {
    let instance = Instance::new(
        "test-id".to_string(),
        "test-model".to_string(),
        "default".to_string(),
        "127.0.0.1".to_string(),
        8080,
        "abc123".to_string(),
        false,
    );

    assert_eq!(instance.id, "test-id");
    assert_eq!(instance.model_name, "test-model");
    assert_eq!(instance.profile_id, "default");
    assert_eq!(instance.host, "127.0.0.1");
    assert_eq!(instance.port, 8080);
    assert_eq!(instance.in_flight_requests, 0);
    assert_eq!(instance.args_hash, "abc123");
    assert!(!instance.is_cold_start);
    assert!(!instance.draining);
    assert_eq!(instance.status, InstanceStatus::Starting);
}

#[test]
fn test_compute_args_hash_determinism() {
    // Same args should produce same hash
    let args1 = texts(&["-m", "/models/foo.gguf", "-c", "4096"]);
    let args2 = texts(&["-m", "/models/foo.gguf", "-c", "4096"]);
    assert_eq!(compute_args_hash(&args1), compute_args_hash(&args2));

    // Different args should produce different hash
    let args3 = texts(&["-m", "/models/foo.gguf", "-c", "8192"]);
    assert_ne!(compute_args_hash(&args1), compute_args_hash(&args3));
}

#[test]
fn test_compute_args_hash_filters_host_port() {
    let args_with_host_port = texts(&[
        "-m",
        "/models/foo.gguf",
        "--host",
        "0.0.0.0",
        "--port",
        "8080",
    ]);
    let args_without = texts(&["-m", "/models/foo.gguf"]);

    // Should produce same hash since --host and --port are filtered out
    assert_eq!(
        compute_args_hash(&args_with_host_port),
        compute_args_hash(&args_without)
    );
}

#[test]
fn test_compute_args_hash_order_independent() {
    // Args in different order should produce same hash (after sorting)
    let args1 = texts(&["-c", "4096", "-m", "/models/foo.gguf"]);
    let args2 = texts(&["-m", "/models/foo.gguf", "-c", "4096"]);
    assert_eq!(compute_args_hash(&args1), compute_args_hash(&args2));
}

#[test]
fn test_get_pid_returns_none_before_spawn() {
    // Before spawn, get_pid should return None
    assert!(instance().get_pid().is_none());
}

#[test]
fn test_clear_startup_log() {
    let mut instance = instance();

    // Add some data to the startup log
    instance.push_startup_line("test log data".to_string());
    assert!(!instance.startup_log.is_empty());

    // Clear it
    instance.clear_startup_log();
    assert!(instance.startup_log.is_empty());
}

#[test]
fn test_get_parsed_params_default_none() {
    // Before parsing, should be None
    assert!(instance().get_parsed_params().is_none());
}

#[test]
fn test_parse_llama_server_log_extracts_params() {
    let lines = vec![
        "print_info: n_ctx_train = 32768".to_string(),
        "print_info: n_vocab = 128256".to_string(),
        "print_info: arch = llama".to_string(),
    ];
    let params = parse_llama_server_log(&lines);
    assert_eq!(params.n_ctx_train, Some(32768));
    assert_eq!(params.n_vocab, Some(128256));
    assert_eq!(params.arch, Some("llama".to_string()));
}

#[test]
fn test_parse_llama_server_log_empty() {
    let lines: Vec<String> = vec!["no matching lines here".to_string()];
    let params = parse_llama_server_log(&lines);
    // All fields should be None
    assert!(params.n_ctx_train.is_none());
    assert!(params.arch.is_none());
}

#[test]
fn test_parsed_model_params_default() {
    let params = ParsedModelParams::default();
    assert!(params.n_ctx_train.is_none());
    assert!(params.n_layer.is_none());
    assert!(params.arch.is_none());
    assert!(params.model_name.is_none());
}

#[test]
fn the_hash_is_the_head_of_the_digest_in_hex() {
    // SHA-256 of the empty input starts with these bytes.
    assert_eq!(compute_args_hash(&[]), "e3b0c44298fc1c14");
    assert_eq!(
        short_hex(&vec![0, 1, 0x9f, 0xa0, 0xff, 16, 17, 18, 19]),
        "00019fa0ff101112"
    );
    assert_eq!(compute_args_hash(&texts(&["a"])).len(), 16);
}

#[test]
fn host_and_port_leave_with_their_values() {
    assert_eq!(
        filter_args(&texts(&["--port", "1", "-m", "x", "--host"])),
        texts(&["-m", "x"])
    );
    assert_eq!(
        filter_args(&texts(&["--host", "--port", "1", "-m"])),
        texts(&["1", "-m"])
    );
}

#[test]
fn a_whole_startup_log() {
    let lines = texts(&[
        "print_info: n_embd           = 4096",
        "print_info: n_layer          = 32",
        "print_info: n_head           = 32",
        "print_info: n_head_kv        = 8",
        "print_info: n_ff             = 14336",
        "print_info: rope type        = 0",
        "print_info: freq_base_train  = 500000.0",
        "print_info: n_ctx_orig_yarn  = 8192",
        "print_info: n_ctx_train      = not a number",
    ]);
    let params = parse_llama_server_log(&lines);
    assert_eq!(params.n_embd, Some(4096));
    assert_eq!(params.n_layer, Some(32));
    assert_eq!(params.n_head, Some(32));
    assert_eq!(params.n_head_kv, Some(8));
    assert_eq!(params.n_ff, Some(14336));
    assert_eq!(params.freq_base_train.as_deref(), Some("500000.0"));
    assert_eq!(params.n_ctx_orig_yarn, Some(8192));
    assert_eq!(params.n_ctx_train, None);
}

#[test]
fn values_and_labels_are_noted() {
    let mut params = ParsedModelParams::default();
    note_value(&mut params, "n_vocab", "12");
    assert_eq!(params.n_vocab, Some(12));
    note_value(&mut params, "unknown", "12");
    let before = format!("{params:?}");
    note_label(&mut params, "nothing to see");
    assert_eq!(format!("{params:?}"), before);
    note_line(
        &mut params,
        "print_info: arch = qwen",
        &Some(("arch".to_string(), "qwen".to_string())),
    );
    assert_eq!(params.arch.as_deref(), Some("qwen"));
    let copy = params.clone();
    assert_eq!(copy.arch.as_deref(), Some("qwen"));
}

#[test]
fn the_startup_log_is_bounded_and_parsed_once() {
    let mut instance = instance();
    assert!(!instance.parse_and_store_startup_params());
    for i in 0..MAX_STARTUP_LOG_LINES + 5 {
        instance.push_startup_line(format!("line {i}"));
    }
    assert_eq!(instance.startup_log.len(), MAX_STARTUP_LOG_LINES);

    let mut other = self::instance();
    other.push_startup_line("print_info: arch = llama".to_string());
    other.parse_and_store_startup_params();
    assert_eq!(
        other.get_parsed_params().unwrap().arch.as_deref(),
        Some("llama")
    );
}

#[test]
fn waiting_ends_with_the_process_or_the_time() {
    let running = || {
        let mut started = instance();
        started.child = Some(7);
        started
    };
    let mut first = running();
    assert!(first.keep_waiting(0, 60, ChildPoll::Running).is_ok());
    assert_eq!(
        first.keep_waiting(0, 60, ChildPoll::Exited),
        Err(ReadyError::Exited)
    );
    assert_eq!(first.status, InstanceStatus::Failed);

    let mut second = running();
    let second_ns = 1_000_000_000;
    assert!(second
        .keep_waiting(59 * second_ns, 60, ChildPoll::Running)
        .is_ok());
    assert_eq!(
        second.keep_waiting(61 * second_ns, 60, ChildPoll::Running),
        Err(ReadyError::TimedOut)
    );
    // No limit stands for the least one.
    let mut third = running();
    assert!(third
        .keep_waiting(MIN_STARTUP_TIMEOUT_SECS * second_ns - 1, 0, ChildPoll::Running)
        .is_ok());
    assert_eq!(
        third.keep_waiting(MIN_STARTUP_TIMEOUT_SECS * second_ns, 0, ChildPoll::Running),
        Err(ReadyError::TimedOut)
    );
    // One that was never started is gone.
    assert_eq!(
        instance().keep_waiting(0, 60, ChildPoll::Running),
        Err(ReadyError::Exited)
    );
    assert_ne!(
        ReadyError::Exited.message(),
        ReadyError::TimedOut.message()
    );
}

#[test]
fn a_successful_probe_makes_the_instance_ready() {
    let mut instance = instance();
    assert!(!instance.note_probe(None));
    assert!(!instance.note_probe(Some(503)));
    assert_eq!(instance.status, InstanceStatus::Starting);
    assert!(instance.note_probe(Some(200)));
    assert_eq!(instance.status, InstanceStatus::Ready);
    assert_eq!(instance.health_url(), "http://127.0.0.1:8080/health");
    let mut other = self::instance();
    other.mark_ready();
    assert_eq!(other.status, InstanceStatus::Ready);
}

#[test]
fn an_instance_without_a_process_is_not_alive() {
    let mut instance = instance();
    assert!(!instance.is_alive(ChildPoll::Running));
    instance.child = Some(7);
    assert_eq!(instance.get_pid(), Some(7));
    assert!(instance.is_alive(ChildPoll::Running));
    assert!(!instance.is_alive(ChildPoll::Exited));
}

#[test]
fn the_environment_of_the_child() {
    assert_eq!(library_path("/opt/bin", ""), "/opt/bin");
    assert_eq!(library_path("/opt/bin", "/usr/lib"), "/opt/bin:/usr/lib");
    assert_eq!(bearer("k"), "Bearer k");
}

#[test]
fn an_inline_address_plays_no_part_in_the_hash() {
    let plain = texts(&["-m", "model.gguf"]);
    let inline = texts(&["-m", "--host=10.0.0.1", "model.gguf", "--port=9"]);
    assert_eq!(compute_args_hash(&plain), compute_args_hash(&inline));
    // The flag takes the next argument with it, whatever that is.
    let swallowed = texts(&["--host", "-m", "model.gguf"]);
    assert_ne!(compute_args_hash(&plain), compute_args_hash(&swallowed));
}

#[test]
fn a_hash_is_sixteen_digits() {
    for args in [texts(&[]), texts(&["-m", "x"]), texts(&["-c", "8"])] {
        let hash = compute_args_hash(&args);
        assert_eq!(hash.len(), 16);
        assert!(hash.chars().all(|c| c.is_ascii_digit() || ('a'..='f').contains(&c)));
    }
}

#[test]
fn a_frequency_base_is_kept_if_it_is_a_number() {
    let numbers = [
        "500000.0", "1", "1.", ".5", "-2.5e-3", "+1E+10", "inf", "-Infinity", "NaN", "0e0",
    ];
    let others = ["", ".", "e5", "1e", "1e+", "1.2.3", "0x10", "1 000", "--1", "infinit", "-"];
    for text in numbers {
        let mut params = ParsedModelParams::default();
        note_value(&mut params, "freq_base_train", text);
        assert_eq!(params.freq_base_train.as_deref(), Some(text));
        assert!(text.parse::<f64>().is_ok());
    }
    for text in others {
        let mut params = ParsedModelParams::default();
        note_value(&mut params, "freq_base_train", "1.0");
        note_value(&mut params, "freq_base_train", text);
        assert_eq!(params.freq_base_train, None, "{text}");
        assert!(text.parse::<f64>().is_err());
    }
}
