use codex_core::hooks::command_runner::build_command;
use codex_core::hooks::command_runner::run_step;
use codex_core::hooks::command_runner::CommandExecutionPolicy;
use codex_core::hooks::command_runner::CommandRunResult;
use codex_core::hooks::command_runner::CommandShell;
use codex_core::hooks::command_runner::ConfiguredHandler;
use codex_core::hooks::command_runner::RunEvent;
use codex_core::hooks::command_runner::RunReport;
use codex_core::hooks::command_runner::RunStep;
use codex_core::hooks::command_runner::ShellPlatform;
use codex_core::hooks::interrupt::judge_run;
use codex_core::hooks::interrupt::looks_like_json;
use codex_core::hooks::interrupt::parse_completed;
use codex_core::hooks::interrupt::parse_interrupt;
use codex_core::hooks::interrupt::HookCompletedEvent;
use codex_core::hooks::interrupt::HookOutputEntry;
use codex_core::hooks::interrupt::HookOutputEntryKind;
use codex_core::hooks::interrupt::HookRunStatus;
use codex_core::hooks::interrupt::InterruptReason;
use codex_core::hooks::interrupt::InterruptRequest;
use codex_core::ids::ThreadId;

#[test]
fn shutdown_bounded_policy_caps_timeout() {
    assert_eq!(CommandExecutionPolicy::Standard.effective_timeout_sec(600), 600);
    assert_eq!(
        CommandExecutionPolicy::shutdown_bounded().effective_timeout_sec(600),
        8
    );
    assert_eq!(
        CommandExecutionPolicy::ShutdownBounded { timeout_cap_sec: 3 }.effective_timeout_sec(2),
        2
    );
}

#[test]
fn timeout_is_never_below_a_second() {
    assert_eq!(CommandExecutionPolicy::Standard.effective_timeout_sec(0), 1);
    assert_eq!(
        CommandExecutionPolicy::ShutdownBounded { timeout_cap_sec: 0 }.effective_timeout_sec(5),
        1
    );
}

fn report_of(step: RunStep) -> (bool, RunReport) {
    match step {
        RunStep::Finish { kill, report } => (kill, report),
        _ => panic!("the run should be over"),
    }
}

#[test]
fn shutdown_bounded_timeout_uses_capped_timeout() {
    let policy = CommandExecutionPolicy::ShutdownBounded { timeout_cap_sec: 1 };
    assert!(matches!(
        run_step(RunEvent::InputWritten, policy, 10),
        RunStep::Wait { timeout_sec: 1 }
    ));
    let (kill, report) = report_of(run_step(RunEvent::TimedOut, policy, 10));
    assert!(kill);
    assert_eq!(report.exit_code, None);
    assert_eq!(report.error.as_deref(), Some("hook timed out after 1s"));
}

#[test]
fn run_reports_each_way_to_end() {
    let policy = CommandExecutionPolicy::Standard;
    assert!(matches!(run_step(RunEvent::Spawned, policy, 10), RunStep::WriteInput));

    let (kill, report) = report_of(run_step(
        RunEvent::SpawnFailed { message: "no such file".to_string() },
        policy,
        10,
    ));
    assert!(!kill);
    assert_eq!(report.error.as_deref(), Some("no such file"));

    let (kill, report) = report_of(run_step(
        RunEvent::InputFailed { message: "broken pipe".to_string() },
        policy,
        10,
    ));
    assert!(kill);
    assert_eq!(report.error.as_deref(), Some("failed to write hook stdin: broken pipe"));

    let (kill, report) = report_of(run_step(
        RunEvent::WaitFailed { message: "lost child".to_string() },
        policy,
        10,
    ));
    assert!(kill);
    assert_eq!(report.error.as_deref(), Some("lost child"));

    let (kill, report) = report_of(run_step(
        RunEvent::Exited {
            exit_code: Some(3),
            stdout: vec![0x68, 0x69, 0xff],
            stderr: vec![0x21],
        },
        policy,
        10,
    ));
    assert!(!kill);
    assert_eq!(report.exit_code, Some(3));
    assert_eq!(report.stdout, "hi\u{fffd}");
    assert_eq!(report.stderr, "!");
    assert_eq!(report.error, None);
}

#[test]
fn durations_that_are_too_long_are_cut() {
    let empty = || RunReport {
        exit_code: None,
        stdout: String::new(),
        stderr: String::new(),
        error: None,
    };
    assert_eq!(CommandRunResult::new(1, 2, 1500, empty()).duration_ms, 1500);
    assert_eq!(CommandRunResult::new(1, 2, u128::MAX, empty()).duration_ms, i64::MAX);
}

fn configured(command: &str) -> ConfiguredHandler {
    ConfiguredHandler {
        command: command.to_string(),
        timeout_sec: 600,
        env: vec![("KEY".to_string(), "value".to_string())],
    }
}

#[test]
fn commands_run_in_the_named_shell() {
    let shell = CommandShell {
        program: "/bin/sh".to_string(),
        args: vec!["-lc".to_string()],
    };
    let plan = build_command(&shell, &configured("sleep 2"), ShellPlatform::Unix, None);
    assert_eq!(plan.program, "/bin/sh");
    assert_eq!(plan.args, vec!["-lc".to_string(), "sleep 2".to_string()]);
    assert_eq!(plan.env, vec![("KEY".to_string(), "value".to_string())]);
}

#[test]
fn commands_run_in_the_shell_of_the_user_by_default() {
    let shell = CommandShell { program: String::new(), args: Vec::new() };
    let plan = build_command(
        &shell,
        &configured("ls"),
        ShellPlatform::Unix,
        Some("/bin/zsh".to_string()),
    );
    assert_eq!(plan.program, "/bin/zsh");
    assert_eq!(plan.args, vec!["-lc".to_string(), "ls".to_string()]);
    let plan = build_command(&shell, &configured("ls"), ShellPlatform::Unix, None);
    assert_eq!(plan.program, "/bin/sh");
    let plan = build_command(&shell, &configured("dir"), ShellPlatform::Windows, None);
    assert_eq!(plan.program, "cmd.exe");
    assert_eq!(plan.args, vec!["/C".to_string(), "dir".to_string()]);
    assert_eq!(ShellPlatform::Unix.variable(), "SHELL");
    assert_eq!(ShellPlatform::Windows.variable(), "COMSPEC");
}

fn run_result(exit_code: Option<i32>, stdout: &str, stderr: &str) -> CommandRunResult {
    CommandRunResult {
        started_at: 1,
        completed_at: 2,
        duration_ms: 1,
        report: RunReport {
            exit_code,
            stdout: stdout.to_string(),
            stderr: stderr.to_string(),
            error: None,
        },
    }
}

fn turn() -> Option<String> {
    Some("turn-1".to_string())
}

fn assert_failed(parsed: &HookCompletedEvent, text: &str) {
    assert_eq!(parsed.run.status, HookRunStatus::Failed);
    assert_eq!(
        parsed.run.entries,
        vec![HookOutputEntry {
            kind: HookOutputEntryKind::Error,
            text: text.to_string(),
        }]
    );
}

#[test]
fn empty_stdout_succeeds() {
    let parsed = parse_completed(&run_result(Some(0), "", ""), None);
    assert_eq!(parsed.turn_id, None);
    assert_eq!(parsed.run.status, HookRunStatus::Completed);
    assert!(parsed.run.entries.is_empty());
    assert_eq!(
        (parsed.run.started_at, parsed.run.completed_at, parsed.run.duration_ms),
        (1, 2, 1)
    );
}

#[test]
fn system_message_becomes_warning() {
    let parsed = parse_completed(
        &run_result(Some(0), r#"{"systemMessage":"watch the tide"}"#, ""),
        turn(),
    );
    assert_eq!(parsed.turn_id, turn());
    assert_eq!(parsed.run.status, HookRunStatus::Completed);
    assert_eq!(
        parsed.run.entries,
        vec![HookOutputEntry {
            kind: HookOutputEntryKind::Warning,
            text: "watch the tide".to_string(),
        }]
    );
}

#[test]
fn control_fields_fail_with_invalid_json_output() {
    let parsed = parse_completed(&run_result(Some(0), r#"{"continue":true}"#, ""), turn());
    assert_failed(&parsed, "hook returned invalid interrupt hook JSON output");
}

#[test]
fn stop_reason_field_fails_with_invalid_json_output() {
    let parsed = parse_completed(&run_result(Some(0), r#"{"stopReason":null}"#, ""), turn());
    assert_failed(&parsed, "hook returned invalid interrupt hook JSON output");
}

#[test]
fn suppress_output_field_fails_with_invalid_json_output() {
    let parsed = parse_completed(&run_result(Some(0), r#"{"suppressOutput":false}"#, ""), turn());
    assert_failed(&parsed, "hook returned invalid interrupt hook JSON output");
}

#[test]
fn decision_field_fails_with_invalid_json_output() {
    let parsed = parse_completed(&run_result(Some(0), r#"{"decision":"block"}"#, ""), turn());
    assert_failed(&parsed, "hook returned invalid interrupt hook JSON output");
}

#[test]
fn malformed_json_fails_with_invalid_json_output() {
    let parsed = parse_completed(
        &run_result(Some(0), r#"{"systemMessage":"watch the tide""#, ""),
        turn(),
    );
    assert_failed(&parsed, "hook returned invalid interrupt hook JSON output");
}

#[test]
fn non_json_stdout_fails() {
    let parsed = parse_completed(&run_result(Some(0), "aloha", ""), turn());
    assert_failed(&parsed, "Interrupt hook returned non-JSON stdout");
}

#[test]
fn exit_code_two_is_ordinary_failure() {
    let parsed = parse_completed(&run_result(Some(2), "", "ignored"), turn());
    assert_failed(&parsed, "hook exited with code 2");
}

#[test]
fn missing_exit_code_and_errors_are_failures() {
    let parsed = parse_completed(&run_result(None, "", ""), turn());
    assert_failed(&parsed, "hook exited without a status code");
    let parsed = parse_completed(&run_result(Some(-1), "", ""), turn());
    assert_failed(&parsed, "hook exited with code -1");
    let mut result = run_result(Some(0), "", "");
    result.report.error = Some("hook timed out after 1s".to_string());
    assert_failed(&parse_completed(&result, turn()), "hook timed out after 1s");
}

#[test]
fn interrupt_output_is_read_from_its_object() {
    assert_eq!(parse_interrupt(" {} "), Some(None));
    assert_eq!(parse_interrupt(r#"{"systemMessage":null}"#), Some(None));
    assert_eq!(parse_interrupt(r#"{"systemMessage":3}"#), None);
    assert_eq!(parse_interrupt("[]"), None);
    assert!(looks_like_json("  [1"));
    assert!(!looks_like_json(""));
}

#[test]
fn verdict_follows_what_was_read() {
    let (status, entries) = judge_run(&None, Some(0), "{}", Some(Some("note".to_string())));
    assert_eq!(status, HookRunStatus::Completed);
    assert_eq!(entries.len(), 1);
    let (status, entries) = judge_run(&None, Some(0), "{}", Some(None));
    assert_eq!(status, HookRunStatus::Completed);
    assert!(entries.is_empty());
    let (status, _) = judge_run(&None, Some(0), "{}", None);
    assert_eq!(status, HookRunStatus::Failed);
}

#[test]
fn hooks_are_told_of_the_interrupted_turn() {
    let id = "67e55044-10b1-426f-9247-bb680e5fe0c8";
    let request = InterruptRequest {
        session_id: ThreadId::from_string(id).expect("identifier"),
        turn_id: "turn-1".to_string(),
        cwd: "/work".to_string(),
        transcript_path: None,
        model: "model".to_string(),
        permission_mode: "default".to_string(),
        reason: InterruptReason::AutoReview,
    };
    let input = request.command_input();
    assert_eq!(input.session_id, id);
    assert_eq!(input.hook_event_name, "Interrupt");
    assert_eq!(input.reason, "auto_review");
    assert_eq!(input.transcript_path, None);
    assert_eq!(InterruptReason::User.as_str(), "user");
    assert_eq!(InterruptReason::Shutdown.as_str(), "shutdown");
}
