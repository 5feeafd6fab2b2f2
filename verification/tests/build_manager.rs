//! Updates and builds of the model server, and the output of their commands.

use llamesh::build_manager::{
    build_layout, commit_from_output, next_swap_step, old_builds, symlink_already_current,
    temporary_extension, version_from_resolved_binary, BuildEntry, BuildManager, BuildRun,
    BuildStep, StepOutcome, SwapStep, BINARY_CACHE_TTL_NS,
};
use llamesh::command_output::{
    decode_output_line, read_line_capped, shorten_line, take_line_bytes, trim_output_line,
    OutputTail, COMMAND_OUTPUT_MAX_LINE_BYTES, COMMAND_OUTPUT_MAX_LINE_LEN,
    COMMAND_OUTPUT_TAIL_LINES,
};
use llamesh::config::LlamaCppConfig;

fn config(binary_path: &str) -> LlamaCppConfig {
    LlamaCppConfig {
        repo_url: "".into(),
        repo_path: "".into(),
        build_path: "".into(),
        binary_path: binary_path.into(),
        branch: "".into(),
        build_args: vec![],
        build_command_args: vec![],
        auto_update_interval_seconds: 0,
        enabled: false,
        keep_builds: 3,
    }
}

#[test]
fn test_version_from_resolved_binary() {
    assert_eq!(
        version_from_resolved_binary("/srv/llama.cpp/build-e37abd6b5/bin/llama-server").as_deref(),
        Some("e37abd6b5")
    );

    // Base name containing dashes: the commit is the suffix after the
    // last dash.
    assert_eq!(
        version_from_resolved_binary("/x/my-build-dir-cd5044661/bin/llama-server").as_deref(),
        Some("cd5044661")
    );

    // Non-hex or too-short suffixes are not commits.
    assert_eq!(
        version_from_resolved_binary("/opt/llama-builds/bin/llama-server"),
        None
    );
    assert_eq!(
        version_from_resolved_binary("/opt/build-v2/bin/llama-server"),
        None
    );

    // Hand-supplied binaries without the managed layout.
    assert_eq!(
        version_from_resolved_binary("/usr/local/bin/llama-server"),
        None
    );
    assert_eq!(version_from_resolved_binary("llama-server"), None);
}

fn ok() -> StepOutcome {
    StepOutcome {
        ok: true,
        error: String::new(),
        commit: "0123abcde".to_string(),
    }
}

fn failed(error: &str) -> StepOutcome {
    StepOutcome {
        ok: false,
        error: error.to_string(),
        commit: String::new(),
    }
}

/// Runs an update with a world that does what is asked, but for the steps in `refused`. Returns the
/// steps that were taken.
fn run_update(
    bm: &mut BuildManager,
    repo_exists: bool,
    refused: &[BuildStep],
) -> (Vec<BuildStep>, BuildRun) {
    let mut run = bm.begin_update(repo_exists);
    let mut steps = vec![];
    while run.step != BuildStep::Finished && run.step != BuildStep::Aborted {
        steps.push(run.step);
        let outcome = if refused.contains(&run.step) {
            failed("refused")
        } else {
            ok()
        };
        bm.advance_update(&mut run, &outcome);
        assert!(steps.len() < 40);
    }
    (steps, run)
}

#[test]
fn test_build_manager_flow() {
    let mut config = config("/tmp/link");
    config.build_path = "/repo/build".to_string();
    config.enabled = true;
    let mut bm = BuildManager::new(config);

    // A first update clones, builds and swaps the binary in.
    let (steps, run) = run_update(
        &mut bm,
        false,
        &[BuildStep::DetectTag, BuildStep::LookForBinary],
    );
    assert_eq!(run.step, BuildStep::Finished);
    assert_eq!(
        steps,
        vec![
            BuildStep::Clone,
            BuildStep::Fetch,
            BuildStep::DetectTag,
            BuildStep::Checkout { is_tag: false },
            BuildStep::Reset,
            BuildStep::ReadCommit,
            BuildStep::LookForBinary,
            BuildStep::MakeBuildDir,
            BuildStep::Configure,
            BuildStep::Compile,
            BuildStep::VerifyNew,
            BuildStep::SwapNew,
            BuildStep::Cleanup,
        ]
    );
    let layout = run.layout.unwrap();
    assert_eq!(layout.build_dir, "/repo/build-0123abcde");
    assert_eq!(layout.binary, "/repo/build-0123abcde/bin/llama-server");

    // The build status was recorded
    let status = bm.build_status();
    assert!(!status.is_building);
    assert!(status.last_build_error.is_none());
    assert!(status.last_build_at.is_some());
    assert_eq!(bm.get_version(), "0123abcde");
    let gen_after_first = bm.binary_generation();
    assert_eq!(gen_after_first, 1);

    // Re-run with the same commit: the verified binary is already live.
    let (steps, run) = run_update(&mut bm, true, &[BuildStep::DetectTag]);
    assert_eq!(run.step, BuildStep::Finished);
    assert_eq!(steps.last(), Some(&BuildStep::CompareLink));
    assert_eq!(
        bm.binary_generation(),
        gen_after_first,
        "same-commit no-op rebuild must not signal a binary swap"
    );

    // If the link points somewhere else, the same situation must swap (and signal) again.
    let (steps, run) = run_update(
        &mut bm,
        true,
        &[BuildStep::DetectTag, BuildStep::CompareLink],
    );
    assert_eq!(run.step, BuildStep::Finished);
    assert_eq!(steps.last(), Some(&BuildStep::SwapExisting));
    assert_eq!(
        bm.binary_generation(),
        gen_after_first + 1,
        "stale link must be re-pointed and the swap signaled"
    );
}

#[test]
fn a_failed_step_aborts_and_is_recorded() {
    let mut config = config("/tmp/link");
    config.build_path = "/repo/build".to_string();
    config.enabled = true;
    let mut bm = BuildManager::new(config);
    let (_, run) = run_update(
        &mut bm,
        true,
        &[BuildStep::LookForBinary, BuildStep::Compile],
    );
    assert_eq!(run.step, BuildStep::Aborted);
    assert_eq!(
        bm.build_status().last_build_error.as_deref(),
        Some("refused")
    );
    assert!(!bm.is_building());
    assert_eq!(bm.get_version(), "unknown");
    assert_eq!(bm.binary_generation(), 0);
}

#[test]
fn a_build_path_without_a_name_aborts() {
    let mut config = config("/tmp/link");
    config.build_path = "/".to_string();
    config.enabled = true;
    let mut bm = BuildManager::new(config);
    let (steps, run) = run_update(&mut bm, true, &[]);
    assert_eq!(run.step, BuildStep::Aborted);
    assert_eq!(steps.last(), Some(&BuildStep::ReadCommit));
    assert!(bm
        .build_status()
        .last_build_error
        .unwrap()
        .contains("no valid directory name"));
}

#[test]
fn a_tag_is_not_reset_and_a_broken_binary_is_rebuilt() {
    let mut config = config("/tmp/link");
    config.build_path = "build".to_string();
    config.enabled = true;
    let mut bm = BuildManager::new(config);
    let (steps, run) = run_update(&mut bm, true, &[BuildStep::VerifyExisting]);
    assert_eq!(run.step, BuildStep::Finished);
    assert_eq!(
        &steps[1..5],
        &[
            BuildStep::DetectTag,
            BuildStep::Checkout { is_tag: true },
            BuildStep::ReadCommit,
            BuildStep::LookForBinary,
        ]
    );
    assert_eq!(steps[6], BuildStep::MakeBuildDir);
    assert_eq!(run.layout.unwrap().build_dir, "build-0123abcde");
}

#[test]
fn a_disabled_update_does_nothing_and_succeeds() {
    let mut bm = BuildManager::new(config("/b"));
    bm.record_build_failure("before");
    let run = bm.begin_update_at(false, "now".to_string());
    assert_eq!(run.step, BuildStep::Finished);
    assert_eq!(bm.build_status().last_build_error, None);
    assert_eq!(bm.build_status().last_build_at.as_deref(), Some("now"));
}

#[test]
fn building_is_reported_while_it_lasts() {
    let mut config = config("/tmp/link");
    config.build_path = "/r/build".to_string();
    config.enabled = true;
    let mut bm = BuildManager::new(config);
    let mut run = bm.begin_update_at(true, "now".to_string());
    while run.step != BuildStep::Compile {
        let outcome = if run.step == BuildStep::LookForBinary {
            failed("none")
        } else {
            ok()
        };
        bm.advance_update_at(&mut run, &outcome, "now".to_string());
    }
    assert!(bm.is_building());
    assert!(bm.build_status().is_building);
    bm.advance_update_at(&mut run, &failed("bad"), "later".to_string());
    assert!(!bm.is_building());
    assert_eq!(bm.build_status().last_build_at.as_deref(), Some("later"));
}

#[test]
fn symlink_already_current_detects_live_and_stale_links() {
    // No link exists yet.
    assert!(!symlink_already_current(None, Some("/t/target-bin")));
    assert!(symlink_already_current(
        Some("/t/target-bin"),
        Some("/t/target-bin")
    ));
    assert!(!symlink_already_current(
        Some("/t/target-bin"),
        Some("/t/other-bin")
    ));
    // Dangling link (target removed) must not count as current.
    assert!(!symlink_already_current(None, None));
}

#[test]
fn test_is_building_initially_false() {
    let bm = BuildManager::new(config("/nonexistent"));
    assert!(!bm.is_building());
}

#[test]
fn test_is_binary_available_nonexistent() {
    let mut bm = BuildManager::new(config("/nonexistent/path/binary"));
    assert!(!bm.is_binary_available_cached(0, false));
}

#[test]
fn test_can_serve_false_when_no_binary() {
    let bm = BuildManager::new(config("/nonexistent/path/binary"));
    assert!(!bm.can_serve(false));
}

#[test]
fn test_get_version_default() {
    let bm = BuildManager::new(config("/nonexistent"));
    let version = bm.get_version();
    assert_eq!(version, "unknown");
}

#[test]
fn test_get_version_reflects_only_recorded_running_version() {
    let mut bm = BuildManager::new(config("/nonexistent"));

    // Until a binary is actually swapped in, no commit is reported.
    assert_eq!(bm.get_version(), "unknown");

    bm.record_running_version("06d26dfdf");
    assert_eq!(bm.get_version(), "06d26dfdf");

    // A subsequent successful swap moves the reported version forward.
    bm.record_running_version("deadbeef");
    assert_eq!(bm.get_version(), "deadbeef");
}

#[test]
fn test_invalidate_binary_cache() {
    let mut bm = BuildManager::new(config("/nonexistent"));
    // Just verify it doesn't panic
    bm.invalidate_binary_cache();
}

#[test]
fn the_binary_is_looked_for_once_a_second() {
    let mut bm = BuildManager::new(config("/b"));
    assert!(bm.binary_check_due(0));
    assert!(bm.is_binary_available_cached(0, true));
    assert!(!bm.binary_check_due(BINARY_CACHE_TTL_NS - 1));
    // What is remembered is answered, whatever a look would have shown.
    assert!(bm.is_binary_available_cached(BINARY_CACHE_TTL_NS - 1, false));
    assert!(bm.binary_check_due(BINARY_CACHE_TTL_NS));
    assert!(!bm.is_binary_available_cached(BINARY_CACHE_TTL_NS, false));
    bm.invalidate_binary_cache();
    assert!(bm.binary_check_due(BINARY_CACHE_TTL_NS));
    let generation = bm.binary_generation();
    bm.signal_binary_swap();
    assert_eq!(bm.binary_generation(), generation + 1);
}

#[test]
fn test_build_status_initial() {
    let bm = BuildManager::new(config("/nonexistent"));
    let status = bm.build_status();
    assert!(!status.is_building);
    assert!(status.last_build_error.is_none());
    assert!(status.last_build_at.is_none());
}

#[test]
fn test_can_serve_true_while_building() {
    let mut bm = BuildManager::new(config("/some/binary"));

    // Binary exists and not building: can serve
    assert!(bm.can_serve(true));

    // Binary exists and building: should STILL serve
    bm.building = true;
    assert!(
        bm.can_serve(true),
        "Node must continue serving during builds when binary exists"
    );
}

#[test]
fn test_record_build_success_clears_error() {
    let mut bm = BuildManager::new(config("/nonexistent"));

    // Simulate a failure first
    bm.record_build_failure("some error");
    let status = bm.build_status();
    assert_eq!(status.last_build_error.as_deref(), Some("some error"));
    assert!(status.last_build_at.is_some());

    // Now record success - error should be cleared
    bm.record_build_success();
    let status = bm.build_status();
    assert!(status.last_build_error.is_none());
    assert!(status.last_build_at.is_some());
}

/// Feeds the output of a command to a tail, as it is read.
fn tail_of(output: &[u8]) -> OutputTail {
    let mut tail = OutputTail::new();
    let mut pos = 0;
    let mut kept = Vec::new();
    while let Some(next) = read_line_capped(output, pos, &mut kept, COMMAND_OUTPUT_MAX_LINE_BYTES) {
        tail.push(decode_output_line(&kept));
        kept.clear();
        pos = next;
    }
    tail
}

#[test]
fn test_run_command_failure_includes_status_and_output() {
    let tail = tail_of(b"configuring\nCMake Error: CUDA Toolkit not found\n");
    let err = tail.failure_message("exit status: 3", "sh");
    assert!(err.contains("exit status: 3"), "missing status: {err}");
    assert!(
        err.contains("CMake Error: CUDA Toolkit not found"),
        "missing stderr line: {err}"
    );
    assert!(err.contains("configuring"), "missing stdout line: {err}");
}

#[test]
fn test_run_command_failure_without_output() {
    let err = tail_of(b"").failure_message("exit status: 7", "sh");
    assert!(err.contains("exit status: 7"), "missing status: {err}");
    assert!(err.contains("no output captured"), "{err}");
}

#[test]
fn test_run_command_failure_output_tail_is_bounded() {
    let output: String = (1..=200).map(|i| format!("line-{i}\n")).collect();
    let tail = tail_of(output.as_bytes());
    assert_eq!(tail.lines.len(), COMMAND_OUTPUT_TAIL_LINES);
    let err = tail.failure_message("exit status: 1", "sh");
    // Only the last COMMAND_OUTPUT_TAIL_LINES (40) lines are kept: 161..=200
    assert!(err.contains("line-200"), "{err}");
    assert!(err.contains("line-161\n"), "{err}");
    assert!(!err.contains("line-160\n"), "{err}");
    assert!(!err.contains("line-1\n"), "{err}");
}

#[test]
fn test_run_command_failure_truncates_long_lines() {
    let output = format!("{}\n", "x".repeat(1000));
    let err = tail_of(output.as_bytes()).failure_message("exit status: 1", "sh");
    let long_line = err
        .lines()
        .find(|l| l.starts_with('x'))
        .expect("truncated output line present");
    assert!(
        long_line.chars().filter(|&c| c == 'x').count() == COMMAND_OUTPUT_MAX_LINE_LEN,
        "line not truncated to limit: {} chars",
        long_line.len()
    );
    assert!(long_line.ends_with('…'), "missing truncation marker");
}

#[test]
fn test_run_command_bounds_newline_free_output() {
    // A child emitting a huge line with no newline must not grow the
    // capture buffer without bound; the tail entry is still truncated.
    let output = vec![b'y'; 1_000_000];
    let err = tail_of(&output).failure_message("exit status: 1", "sh");
    let long_line = err
        .lines()
        .find(|l| l.starts_with('y'))
        .expect("captured line present");
    assert!(
        long_line.chars().filter(|&c| c == 'y').count() == COMMAND_OUTPUT_MAX_LINE_LEN,
        "line not truncated to limit"
    );
    assert!(long_line.ends_with('…'), "missing truncation marker");
}

#[test]
fn test_read_line_capped() {
    let data: Vec<u8> = [b"short\n".to_vec(), vec![b'z'; 20000], b"\nnext\n".to_vec()].concat();
    let cap = COMMAND_OUTPUT_MAX_LINE_BYTES;

    let mut buf = Vec::new();
    let pos = read_line_capped(&data, 0, &mut buf, cap).unwrap();
    assert_eq!(buf, b"short\n");

    // Over-long line: capped at `cap` bytes, remainder discarded
    buf.clear();
    let pos = read_line_capped(&data, pos, &mut buf, cap).unwrap();
    assert_eq!(buf.len(), cap);
    assert!(buf.iter().all(|&b| b == b'z'));

    // The next line is read intact: the overflow didn't bleed into it
    buf.clear();
    let pos = read_line_capped(&data, pos, &mut buf, cap).unwrap();
    assert_eq!(buf, b"next\n");

    buf.clear();
    assert!(read_line_capped(&data, pos, &mut buf, cap).is_none());
}

#[test]
fn a_line_may_come_in_parts() {
    let mut kept = Vec::new();
    let first = take_line_bytes(&mut kept, b"abc", 10);
    assert!(!first.complete);
    assert_eq!(first.consumed, 3);
    let second = take_line_bytes(&mut kept, b"de\nfg", 10);
    assert!(second.complete);
    assert_eq!(second.consumed, 3);
    assert_eq!(kept, b"abcde\n");
}

#[test]
fn output_is_decoded_trimmed_and_shortened() {
    assert_eq!(decode_output_line(b"a\xffb\n"), "a\u{fffd}b");
    assert_eq!(trim_output_line("text \r\n"), "text ".trim_end_matches(['\r', '\n']));
    let exact = "é".repeat(COMMAND_OUTPUT_MAX_LINE_LEN / 2);
    assert_eq!(shorten_line(&exact), exact);
    assert_eq!(shorten_line(&format!("{exact}x")), format!("{exact}…"));
    // A character that the limit would split is left out whole.
    let split = format!("x{exact}");
    let cut = "é".repeat(COMMAND_OUTPUT_MAX_LINE_LEN / 2 - 1);
    assert_eq!(shorten_line(&split), format!("x{cut}…"));
}

fn entry(name: &str, created: Option<i128>, active: bool) -> BuildEntry {
    BuildEntry {
        name: name.to_string(),
        created,
        active,
    }
}

fn removed(entries: &Vec<BuildEntry>, keep: usize) -> Vec<&str> {
    let mut names: Vec<&str> = old_builds(entries, "build", keep)
        .into_iter()
        .map(|i| entries[i].name.as_str())
        .collect();
    names.sort();
    names
}

#[test]
fn cleanup_preserves_active_build() {
    // The live link points at the middle build, so the active build is neither the newest nor
    // the oldest.
    let entries = vec![
        entry("build", Some(9), false),
        entry("build-aaaaaaaaa", Some(1), false),
        entry("build-bbbbbbbbb", Some(2), true),
        entry("build-ccccccccc", Some(3), false),
    ];
    // The active build survives; the other two are removed.
    assert_eq!(
        removed(&entries, 0),
        vec!["build-aaaaaaaaa", "build-ccccccccc"]
    );
}

#[test]
fn cleanup_keeps_configured_non_active_builds() {
    let entries = vec![
        entry("build-100000000", Some(10), true),
        entry("build-200000000", Some(20), false),
        entry("build-300000000", Some(30), false),
        entry("build-400000000", Some(40), false),
    ];
    // Active kept, plus the two most recent non-active builds; the oldest
    // non-active build is removed.
    assert_eq!(removed(&entries, 2), vec!["build-200000000"]);
}

#[test]
fn only_builds_are_cleaned_up() {
    let entries = vec![
        entry("other", Some(1), false),
        entry("builder-1", Some(1), false),
        entry("build-1", Some(1), false),
    ];
    assert_eq!(removed(&entries, 0), vec!["build-1"]);
    assert!(removed(&entries, 5).is_empty());
}

#[test]
fn where_a_build_goes() {
    let layout = build_layout("/a//b/./build/", "c0ffee").unwrap();
    assert_eq!(layout.build_dir, "/a/b/build-c0ffee");
    assert_eq!(layout.binary, "/a/b/build-c0ffee/bin/llama-server");
    assert_eq!(build_layout("build", "x").unwrap().build_dir, "build-x");
    assert_eq!(
        build_layout("./llama.cpp/build", "x").unwrap().build_dir,
        "./llama.cpp/build-x"
    );
    assert!(build_layout("/", "x").is_none());
    assert!(build_layout("a/..", "x").is_none());
    assert!(build_layout("", "x").is_none());
}

#[test]
fn the_commit_is_read_from_output() {
    assert_eq!(commit_from_output(b" 06d26dfdf\n"), "06d26dfdf");
    assert_eq!(commit_from_output(b""), "");
}

#[test]
fn a_link_is_swapped_in_with_one_retry() {
    assert_eq!(next_swap_step(SwapStep::Link, true), SwapStep::Rename);
    assert_eq!(next_swap_step(SwapStep::Link, false), SwapStep::LinkAgain);
    assert_eq!(
        next_swap_step(SwapStep::LinkAgain, false),
        SwapStep::Failed {
            remove_temporary: false
        }
    );
    assert_eq!(
        next_swap_step(SwapStep::LinkAgain, true),
        SwapStep::RenameSecond
    );
    assert_eq!(next_swap_step(SwapStep::Rename, true), SwapStep::Swapped);
    assert_eq!(
        next_swap_step(SwapStep::RenameSecond, false),
        SwapStep::Failed {
            remove_temporary: true
        }
    );
    assert_eq!(temporary_extension(12, None), "tmp.12");
    assert_eq!(temporary_extension(12, Some(7)), "tmp.12.7");
}

#[test]
fn a_version_is_read_from_managed_binaries_alone() {
    assert_eq!(version_from_resolved_binary("/srv/build-e37abd6b5/lib/other"), None);
    assert_eq!(version_from_resolved_binary("/srv/build-e37abd6b5/bin/other"), None);
    assert_eq!(version_from_resolved_binary("/srv/build-e37abd6b5/lib/llama-server"), None);
    for build_path in ["/srv/build", "build", "./llama.cpp/build/"] {
        let layout = build_layout(build_path, "e37abd6b5").unwrap();
        assert_eq!(
            version_from_resolved_binary(&layout.binary).as_deref(),
            Some("e37abd6b5")
        );
    }
}

#[test]
fn the_last_lines_of_output_are_kept() {
    for count in [0usize, 1, 39, 40, 41, 100] {
        let mut tail = OutputTail::new();
        for n in 0..count {
            tail.push(n.to_string());
        }
        let first = count.saturating_sub(COMMAND_OUTPUT_TAIL_LINES);
        let expected: Vec<String> = (first..count).map(|n| n.to_string()).collect();
        assert_eq!(tail.lines.iter().cloned().collect::<Vec<_>>(), expected);
    }
}
