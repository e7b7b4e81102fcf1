use codex_core::pty::job::close_result;
use codex_core::pty::job::start_step;
use codex_core::pty::job::ClosePlan;
use codex_core::pty::job::JobError;
use codex_core::pty::job::KillOnCloseJob;
use codex_core::pty::job::StageReply;
use codex_core::pty::job::StartStage;
use codex_core::pty::job::StartStep;
use codex_core::sandboxing::bwrap::classify_exit;
use codex_core::sandboxing::bwrap::find_system_bwrap_in_search_paths;
use codex_core::sandboxing::bwrap::plan_system_bwrap_warning;
use codex_core::sandboxing::bwrap::probe_args;
use codex_core::sandboxing::bwrap::probe_step;
use codex_core::sandboxing::bwrap::probe_warning;
use codex_core::sandboxing::bwrap::proc_version_indicates_wsl1;
use codex_core::sandboxing::bwrap::resolve_true_command;
use codex_core::sandboxing::bwrap::ProbeEvent;
use codex_core::sandboxing::bwrap::ProbeStderr;
use codex_core::sandboxing::bwrap::ProbeStep;
use codex_core::sandboxing::bwrap::ReadEvent;
use codex_core::sandboxing::bwrap::SystemBwrapProbeResult;
use codex_core::sandboxing::bwrap::WarningPlan;

fn failure(step: StartStep) -> (JobError, bool) {
    match step {
        StartStep::Fail { error, terminate } => (error, terminate),
        _ => panic!("the start should fail"),
    }
}

fn forced() -> StageReply {
    StageReply::Failed { message: "forced".to_string() }
}

#[test]
fn closing_job_is_idempotent() {
    let mut job = KillOnCloseJob::new();
    assert_eq!(job.close(), Some(ClosePlan { terminate: None }));
    assert_eq!(job.close(), None);
    assert!(job.accepts().is_err());
}

#[test]
fn job_creation_failure_retains_stage_context() {
    let (error, terminate) = failure(start_step(StartStage::Create, forced()));
    assert!(error.message.contains("failed to create job object"));
    assert!(!terminate);
}

#[test]
fn job_configuration_failure_retains_stage_context() {
    let (error, terminate) = failure(start_step(StartStage::Configure, forced()));
    assert!(error
        .message
        .contains("failed to configure kill-on-close job object"));
    assert!(!terminate);
}

#[test]
fn assignment_failure_terminates_suspended_process() {
    let (error, terminate) = failure(start_step(StartStage::Assign, forced()));
    assert!(error
        .message
        .contains("failed to assign suspended process to job"));
    assert!(terminate);
}

#[test]
fn resume_failure_terminates_suspended_process() {
    let (error, terminate) = failure(start_step(StartStage::Resume, forced()));
    assert!(error.message.contains("failed to resume suspended process"));
    assert_eq!(error.cause, "forced");
    assert!(terminate);
}

#[test]
fn unexpected_resume_count_terminates_suspended_process() {
    let (error, terminate) = failure(start_step(
        StartStage::Resume,
        StageReply::Resumed { previous_suspend_count: 0 },
    ));
    assert_eq!(error.message, "failed to resume suspended process");
    assert_eq!(
        error.cause,
        "expected suspended process thread count 1, got 0"
    );
    assert!(terminate);
}

#[test]
fn starts_go_through_every_stage() {
    assert!(matches!(
        start_step(StartStage::Create, StageReply::Done),
        StartStep::Next(StartStage::Configure)
    ));
    assert!(matches!(
        start_step(StartStage::Configure, StageReply::Done),
        StartStep::Next(StartStage::Assign)
    ));
    assert!(matches!(
        start_step(StartStage::Assign, StageReply::Done),
        StartStep::Next(StartStage::Resume)
    ));
    assert!(matches!(
        start_step(StartStage::Resume, StageReply::Resumed { previous_suspend_count: 1 }),
        StartStep::Running
    ));
}

#[test]
fn jobs_are_ended_with_a_code() {
    let mut job = KillOnCloseJob::new();
    assert_eq!(job.accepts(), Ok(()));
    assert_eq!(job.terminate_and_close(3), Some(ClosePlan { terminate: Some(3) }));
    assert_eq!(job.take_and_close(Some(3)), None);
    assert_eq!(close_result::<String>(None, Ok(())), Ok(()));
    assert_eq!(
        close_result(Some(Err("t".to_string())), Err("c".to_string())),
        Err("t".to_string())
    );
    assert_eq!(
        close_result(Some(Ok(())), Err("c".to_string())),
        Err("c".to_string())
    );
}

#[test]
fn warnings_depend_on_permissions_and_machine() {
    let plan = plan_system_bwrap_warning;
    assert!(matches!(plan(false, false, false, true, false), WarningPlan::Silent));
    let WarningPlan::Warn(text) = plan(true, false, false, true, true) else {
        panic!("a warning is due");
    };
    assert!(text.contains("WSL1"));
    let WarningPlan::Warn(text) = plan(true, false, false, false, false) else {
        panic!("a warning is due");
    };
    assert!(text.contains("could not find bubblewrap"));
    assert!(matches!(
        plan(true, true, false, false, true),
        WarningPlan::Probe { unshare_network: false }
    ));
    assert!(matches!(
        plan(true, true, true, false, true),
        WarningPlan::Probe { unshare_network: true }
    ));
    assert!(matches!(
        plan(true, false, false, false, true),
        WarningPlan::Probe { unshare_network: true }
    ));
}

#[test]
fn probes_are_told_apart_by_their_errors() {
    assert_eq!(classify_exit(true, "anything"), SystemBwrapProbeResult::Available);
    assert_eq!(
        classify_exit(false, "bwrap: loopback: Failed RTM_NEWADDR: Operation not permitted"),
        SystemBwrapProbeResult::UserNamespaceUnavailable
    );
    assert_eq!(
        classify_exit(false, "bwrap: /proc/sys: Transport endpoint is not connected"),
        SystemBwrapProbeResult::ProcSysDisconnected
    );
    assert_eq!(
        classify_exit(false, "Transport endpoint is not connected"),
        SystemBwrapProbeResult::Failed
    );
    assert_eq!(probe_warning(SystemBwrapProbeResult::Failed), None);
    assert_eq!(probe_warning(SystemBwrapProbeResult::Available), None);
    assert!(probe_warning(SystemBwrapProbeResult::ProcSysDisconnected)
        .expect("warning")
        .contains("/proc/sys"));
    assert!(probe_warning(SystemBwrapProbeResult::UserNamespaceUnavailable)
        .expect("warning")
        .contains("user namespaces"));
}

#[test]
fn probes_are_started_polled_and_ended() {
    let failed = |kill| ProbeStep::Finish { kill, result: SystemBwrapProbeResult::Failed };
    assert!(matches!(
        probe_step(ProbeEvent::SpawnFailed { executable_busy: true, past_deadline: false }),
        ProbeStep::Respawn { .. }
    ));
    assert_eq!(
        probe_step(ProbeEvent::SpawnFailed { executable_busy: true, past_deadline: true }),
        failed(false)
    );
    assert_eq!(
        probe_step(ProbeEvent::Spawned { errors_readable: true }),
        ProbeStep::Poll { delay_ms: 0 }
    );
    assert_eq!(probe_step(ProbeEvent::Spawned { errors_readable: false }), failed(true));
    assert!(matches!(
        probe_step(ProbeEvent::Running { past_deadline: false }),
        ProbeStep::Poll { .. }
    ));
    assert_eq!(probe_step(ProbeEvent::Running { past_deadline: true }), failed(true));
    assert_eq!(probe_step(ProbeEvent::PollInterrupted), ProbeStep::Poll { delay_ms: 0 });
    assert_eq!(probe_step(ProbeEvent::PollFailed), failed(true));
    let mut errors = b"\xff setting up uid map: Permission denied".to_vec();
    errors.push(b'\n');
    assert_eq!(
        probe_step(ProbeEvent::Exited { success: false, errors }),
        ProbeStep::Finish {
            kill: false,
            result: SystemBwrapProbeResult::UserNamespaceUnavailable
        }
    );
}

#[test]
fn probes_run_a_command_that_is_there() {
    assert_eq!(resolve_true_command(true, true), Some("/usr/bin/true"));
    assert_eq!(resolve_true_command(false, true), Some("/bin/true"));
    assert_eq!(resolve_true_command(false, false), None);
    assert_eq!(
        probe_args(true, "/bin/true").join(" "),
        "--unshare-user --unshare-net --ro-bind / / /bin/true"
    );
    assert_eq!(
        probe_args(false, "/bin/true").join(" "),
        "--unshare-user --ro-bind / / /bin/true"
    );
}

#[test]
fn errors_are_kept_in_order_and_bounded() {
    let mut errors = ProbeStderr::new();
    errors.begin();
    assert!(errors.on_read(ReadEvent::Chunk(b"abc".to_vec())));
    assert!(errors.on_read(ReadEvent::Interrupted));
    assert!(errors.on_read(ReadEvent::Chunk(b"def".to_vec())));
    assert!(!errors.on_read(ReadEvent::End));
    assert_eq!(errors.bytes, b"abcdef".to_vec());
    let mut errors = ProbeStderr::new();
    errors.begin();
    assert!(!errors.on_read(ReadEvent::Failed));
    for _ in 0..40 {
        errors.begin();
        errors.on_read(ReadEvent::Chunk(vec![b'x'; 4096]));
    }
    assert_eq!(errors.bytes.len(), 64 * 1024);
}

#[test]
fn wsl1_is_told_by_its_version() {
    assert!(proc_version_indicates_wsl1("Linux version 4.4.0-22621-Microsoft"));
    assert!(proc_version_indicates_wsl1("Linux version 5.15.0-microsoft-standard-WSL1"));
    assert!(!proc_version_indicates_wsl1(
        "Linux version 6.6.87.2-microsoft-standard-WSL2"
    ));
    assert!(!proc_version_indicates_wsl1("Linux version 6.8.0-generic"));
    assert!(proc_version_indicates_wsl1("wsl wsl1"));
    assert!(!proc_version_indicates_wsl1("wsl wsl2 wsl1"));
    assert!(!proc_version_indicates_wsl1("wsl"));
    assert!(proc_version_indicates_wsl1("Linux version 4.4.0-22621-Microsoft (WSL)"));
    assert!(!proc_version_indicates_wsl1("Linux version 6.6.87.2-microsoft-standard-WSL"));
    assert!(proc_version_indicates_wsl1("wsl99999999999 wsl1"));
}

#[test]
fn executables_of_the_workspace_are_not_taken() {
    let found = vec![
        Some("/work/bin/bwrap".to_string()),
        None,
        Some("/usr/bin/bwrap".to_string()),
    ];
    assert_eq!(
        find_system_bwrap_in_search_paths(&found, "/work").as_deref(),
        Some("/usr/bin/bwrap")
    );
    assert_eq!(
        find_system_bwrap_in_search_paths(&vec![Some("/work/bwrap".to_string())], "/work"),
        None
    );
    assert_eq!(
        find_system_bwrap_in_search_paths(&vec![Some("/workbench/bwrap".to_string())], "/work")
            .as_deref(),
        Some("/workbench/bwrap")
    );
}
