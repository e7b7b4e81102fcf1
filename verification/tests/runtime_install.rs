use codex_core::runtime_install::executor::after_unix_target;
use codex_core::runtime_install::executor::checksum_argv;
use codex_core::runtime_install::executor::download_argv;
use codex_core::runtime_install::executor::ensure_not_cancelled;
use codex_core::runtime_install::executor::extract_argv;
use codex_core::runtime_install::executor::is_rooted_on;
use codex_core::runtime_install::executor::list_argv;
use codex_core::runtime_install::executor::move_argv;
use codex_core::runtime_install::executor::parse_checksum;
use codex_core::runtime_install::executor::parse_entries;
use codex_core::runtime_install::executor::parse_install_target;
use codex_core::runtime_install::executor::unix_target_argv;
use codex_core::runtime_install::executor::windows_target_argv;
use codex_core::runtime_install::executor::CommandRun;
use codex_core::runtime_install::executor::Discovery;
use codex_core::runtime_install::executor::InstallTarget;
use codex_core::runtime_install::executor::ProcessEvent;
use codex_core::runtime_install::executor::RunStep;
use codex_core::runtime_install::executor::RuntimeArchiveFormat;
use codex_core::runtime_install::executor::TargetPlatform;
use codex_core::runtime_install::installer::begin_install;
use codex_core::runtime_install::installer::dir_path;
use codex_core::runtime_install::installer::download_notification;
use codex_core::runtime_install::installer::install_step;
use codex_core::runtime_install::installer::is_reuse_candidate;
use codex_core::runtime_install::installer::outer_step;
use codex_core::runtime_install::installer::phase_notification;
use codex_core::runtime_install::installer::prepare_install;
use codex_core::runtime_install::installer::reuse_outcome;
use codex_core::runtime_install::installer::reuse_response;
use codex_core::runtime_install::installer::task;
use codex_core::runtime_install::installer::verify_archive_checksum;
use codex_core::runtime_install::installer::Dir;
use codex_core::runtime_install::installer::OuterReply;
use codex_core::runtime_install::installer::OuterStage;
use codex_core::runtime_install::installer::ProgressPhase;
use codex_core::runtime_install::installer::Reply;
use codex_core::runtime_install::installer::RuntimeInstallStatus;
use codex_core::runtime_install::installer::Stage;
use codex_core::runtime_install::installer::Task;
use codex_core::runtime_install::validation::assert_archive_entries_stay_within_directory;
use codex_core::runtime_install::validation::finish_validation;
use codex_core::runtime_install::validation::internal_error;
use codex_core::runtime_install::validation::is_sha256;
use codex_core::runtime_install::validation::python_candidate;
use codex_core::runtime_install::validation::python_missing;
use codex_core::runtime_install::validation::require_runtime_directory;
use codex_core::runtime_install::validation::require_runtime_file;
use codex_core::runtime_install::validation::runtime_archive_format;
use codex_core::runtime_install::validation::runtime_layout;
use codex_core::runtime_install::validation::runtime_root_directory_name;
use codex_core::runtime_install::validation::validate_manifest;
use codex_core::runtime_install::validation::validate_runtime_root;
use codex_core::runtime_install::validation::ErrorKind;
use codex_core::runtime_install::validation::InstalledRuntimeMetadata;
use codex_core::runtime_install::validation::PathAnswer;
use codex_core::runtime_install::validation::RootAnswers;
use codex_core::runtime_install::validation::RuntimeError;
use codex_core::runtime_install::validation::RuntimeInstallManifest;
use codex_core::runtime_install::validation::RuntimeInstallPaths;

fn manifest() -> RuntimeInstallManifest {
    RuntimeInstallManifest {
        archive_name: None,
        archive_sha256: "0".repeat(64),
        archive_size_bytes: None,
        archive_url: "https://example.com/archive.tar.xz".to_string(),
        bundle_format_version: Some(2),
        bundle_version: Some("v1".to_string()),
        format: Some("tar.xz".to_string()),
        runtime_root_directory_name: None,
    }
}

fn metadata(version: &str) -> InstalledRuntimeMetadata {
    InstalledRuntimeMetadata {
        bundle_format_version: Some(2),
        bundle_version: Some(version.to_string()),
        bundled_plugins: None,
        bundled_skills: None,
        skills_to_remove: None,
    }
}

fn paths() -> RuntimeInstallPaths {
    finish_validation(
        "/r",
        metadata("v1"),
        "/r/node".to_string(),
        "/r/node_modules".to_string(),
        "/r/python".to_string(),
    )
    .expect("paths")
}

fn complete() -> RootAnswers {
    RootAnswers {
        metadata: Some(metadata("v1")),
        node: PathAnswer::File,
        node_modules: PathAnswer::Directory,
        python: vec![PathAnswer::Missing, PathAnswer::File],
    }
}

#[test]
fn complete_runtimes_are_valid() {
    let found = validate_runtime_root("/r", None, TargetPlatform::Unix, complete()).expect("paths");
    assert_eq!(found.node_path, "/r/dependencies/node/bin/node");
    assert_eq!(found.python_path, "/r/dependencies/python/bin/python");
    let found = validate_runtime_root("/r", Some(1), TargetPlatform::Unix, complete()).expect("paths");
    assert_eq!(found.node_path, "/r/bin/node");
    assert_eq!(found.python_path, "/r/python/bin/python");
    let mut answers = complete();
    answers.python = vec![PathAnswer::Failed("denied".to_string()), PathAnswer::File];
    let error = validate_runtime_root("/r", None, TargetPlatform::Unix, answers).expect_err("python");
    assert_eq!(error.kind, ErrorKind::Internal);
    let mut answers = complete();
    answers.metadata = None;
    let error = validate_runtime_root("/r", None, TargetPlatform::Unix, answers).expect_err("metadata");
    assert_eq!(error.message, "runtime metadata is missing");
    assert!(require_runtime_file("/f", "node executable", &PathAnswer::Directory).is_err());
    assert!(require_runtime_directory("/d", "modules", &PathAnswer::File).is_err());
}

#[test]
fn targets_are_asked_for_on_both_platforms() {
    let failed = || Err(internal_error("no sh"));
    assert!(matches!(after_unix_target(failed(), false), Discovery::TryWindows));
    let Discovery::Done(Err(error)) = after_unix_target(failed(), true) else {
        panic!("canceled");
    };
    assert_eq!(error.message, "runtime install canceled");
    assert!(matches!(
        after_unix_target(Ok("unix\n/x\n".to_string()), true),
        Discovery::Done(Ok(_))
    ));
}

#[test]
fn archive_traversal_entries_are_rejected() {
    let entries = vec![
        "codex-primary-runtime/runtime.json".to_string(),
        "../x".to_string(),
    ];

    let error = assert_archive_entries_stay_within_directory(&entries, "/tmp/extract")
        .expect_err("entry should be rejected");

    assert!(error.message.contains("would extract outside target"));
    assert_eq!(error.message, "archive entry '../x' would extract outside target");
}

#[test]
fn entries_may_wander_inside_their_directory() {
    let stays = |entry: &str| {
        assert_archive_entries_stay_within_directory(&vec![entry.to_string()], "/tmp/extract").is_ok()
    };
    assert!(stays("a/../b"));
    assert!(stays("."));
    assert!(!stays("/etc/passwd"));
    assert!(!stays("a/../../b"));
    assert!(!stays("../extracted"));
    assert!(stays("../extract/x"));
}

#[test]
fn install_runtime_reuses_current_runtime_without_downloading_archive() {
    assert!(is_reuse_candidate(&manifest(), &Some(metadata("v1"))));
    assert!(!is_reuse_candidate(&manifest(), &Some(metadata("v2"))));
    assert!(!is_reuse_candidate(&manifest(), &None));
    let response = reuse_response(&manifest(), paths());

    assert_eq!(response.status, RuntimeInstallStatus::AlreadyCurrent);
    assert_eq!(response.bundle_version.as_deref(), Some("v1"));
    assert!(matches!(
        outer_step(OuterStage::Reuse, OuterReply::Reused(response)),
        OuterStage::Finished(Ok(_))
    ));
}

#[test]
fn validate_runtime_root_rejects_missing_node_executable() {
    let layout = runtime_layout("/r", Some(2), Some(2), TargetPlatform::Unix);
    assert_eq!(layout.node_path, "/r/dependencies/node/bin/node");
    let mut answers = complete();
    answers.node = PathAnswer::Missing;
    let error = validate_runtime_root("/r", Some(2), TargetPlatform::Unix, answers)
        .expect_err("node executable should be required");

    assert!(error.message.contains("node executable is missing"));
}

#[test]
fn validate_runtime_root_rejects_missing_node_modules_directory() {
    let layout = runtime_layout("/r", Some(2), Some(2), TargetPlatform::Unix);
    assert_eq!(layout.node_modules_path, "/r/dependencies/node/node_modules");
    let mut answers = complete();
    answers.node_modules = PathAnswer::Missing;
    let error = validate_runtime_root("/r", Some(2), TargetPlatform::Unix, answers)
        .expect_err("node_modules directory should be required");

    assert!(error.message.contains("node modules directory is missing"));
}

#[test]
fn validate_runtime_root_rejects_missing_python_executable() {
    let layout = runtime_layout("/r", Some(2), Some(2), TargetPlatform::Unix);
    assert_eq!(
        layout.python_candidates,
        vec![
            "/r/dependencies/python/bin/python3".to_string(),
            "/r/dependencies/python/bin/python".to_string(),
        ]
    );
    for candidate in &layout.python_candidates {
        assert_eq!(python_candidate(candidate, &PathAnswer::Missing), Ok(false));
    }
    let mut answers = complete();
    answers.python = vec![PathAnswer::Missing, PathAnswer::Directory];
    let error = validate_runtime_root("/r", Some(2), TargetPlatform::Unix, answers)
        .expect_err("python executable should be required");

    assert!(error.message.contains("python executable is missing"));
    assert_eq!(error, python_missing(&layout.python_root));
}

#[test]
fn install_from_archive_rejects_checksum_mismatch() {
    let error = verify_archive_checksum(&manifest(), &"1".repeat(64))
        .expect_err("checksum mismatch should fail");

    assert!(error.message.contains("checksum mismatch"));
    let turn = install_step(
        &manifest(),
        "/s/payload",
        Stage::Checksum,
        Reply::Digest("1".repeat(64)),
        false,
    );
    assert_eq!(turn.stage, Stage::Finished(Err(error)));
}

fn replies(there: bool) -> Vec<(Task, Reply)> {
    let mut steps = vec![
        (Task::ReadMetadata, Reply::Metadata(None)),
        (Task::CreateDir(Dir::InstallRoot), Reply::Done),
        (Task::Checksum, Reply::Digest("0".repeat(64))),
        (Task::MakeStaging, Reply::Done),
        (Task::CreateDir(Dir::Extract), Reply::Done),
        (Task::ListEntries, Reply::Entries(vec!["./codex-primary-runtime/runtime.json".to_string()])),
        (Task::Extract, Reply::Done),
        (Task::Validate(Dir::Extracted), Reply::Paths(paths())),
        (Task::Remove(Dir::Previous), Reply::Done),
        (Task::CheckExists(Dir::Installed), Reply::Exists(there)),
    ];
    if there {
        steps.push((Task::Move { from: Dir::Installed, to: Dir::Previous }, Reply::Done));
    }
    steps.push((Task::Move { from: Dir::Extracted, to: Dir::Installed }, Reply::Done));
    steps
}

fn run(steps: Vec<(Task, Reply)>, cancelled: bool) -> (Stage, Vec<ProgressPhase>) {
    let begun = begin_install(&manifest(), cancelled);
    let mut stage = begun.stage;
    let mut phases = Vec::new();
    phases.extend(begun.progress);
    for (expected, reply) in steps {
        assert_eq!(task(&stage), expected);
        let turn = install_step(&manifest(), "/s/payload", stage, reply, cancelled);
        stage = turn.stage;
        phases.extend(turn.progress);
    }
    (stage, phases)
}

#[test]
fn install_from_archive_reports_install_progress() {
    let mut steps = replies(true);
    steps.push((Task::Validate(Dir::Installed), Reply::Paths(paths())));
    steps.push((Task::Remove(Dir::Previous), Reply::Done));
    steps.push((Task::RemoveStaging, Reply::Done));
    let (stage, phases) = run(steps, false);
    let Stage::Finished(Ok(response)) = stage else {
        panic!("install should succeed");
    };
    assert_eq!(response.status, RuntimeInstallStatus::Installed);
    assert_eq!(
        phases,
        vec![
            ProgressPhase::Verifying,
            ProgressPhase::Extracting,
            ProgressPhase::Validating,
            ProgressPhase::Installed,
        ]
    );
}

#[test]
fn install_from_archive_stops_when_canceled() {
    let (stage, phases) = run(Vec::new(), true);
    let Stage::Finished(Err(error)) = stage else {
        panic!("canceled install should fail");
    };
    assert_eq!(error.message, "runtime install canceled");
    assert_eq!(phases, Vec::new());
    assert_eq!(ensure_not_cancelled(true), Err(error));
    assert_eq!(ensure_not_cancelled(false), Ok(()));
}

#[test]
fn installs_stop_where_they_are_canceled() {
    let turn = install_step(
        &manifest(),
        "/s/payload",
        Stage::Checksum,
        Reply::Digest("0".repeat(64)),
        true,
    );
    let Stage::Finished(Err(error)) = turn.stage else {
        panic!("canceled install should fail");
    };
    assert_eq!(error.message, "runtime install canceled");
}

#[test]
fn current_runtimes_are_reused_where_they_are_complete() {
    let current = || (Task::ReadMetadata, Reply::Metadata(Some(metadata("v1"))));
    let (stage, phases) =
        run(vec![current(), (Task::Validate(Dir::Installed), Reply::Paths(paths()))], false);
    let Ok(OuterReply::Reused(response)) = reuse_outcome(stage) else {
        panic!("current runtime should be reused");
    };
    assert_eq!(response.status, RuntimeInstallStatus::AlreadyCurrent);
    assert_eq!(phases, vec![ProgressPhase::Installed]);

    let broken = Reply::Failed(internal_error("broken"));
    let (stage, phases) = run(vec![current(), (Task::Validate(Dir::Installed), broken)], false);
    assert_eq!(stage, Stage::CreateRoot);
    assert_eq!(phases, Vec::new());
    assert_eq!(reuse_outcome(stage), Ok(OuterReply::Done));

    let (stage, _) = run(vec![(Task::ReadMetadata, Reply::Metadata(Some(metadata("v0"))))], false);
    assert_eq!(stage, Stage::CreateRoot);
    let (stage, _) = run(vec![], false);
    assert_eq!(reuse_outcome(stage), Err(Stage::ReadInstalled));
    let mut unnamed = manifest();
    unnamed.bundle_version = None;
    assert_eq!(begin_install(&unnamed, false).stage, Stage::CreateRoot);
    unnamed.runtime_root_directory_name = Some("a/b".to_string());
    assert!(matches!(begin_install(&unnamed, true).stage, Stage::Finished(Err(_))));
}

#[test]
fn failed_installs_bring_the_old_runtime_back() {
    let mut steps = replies(true);
    steps.push((Task::Validate(Dir::Installed), Reply::Failed(internal_error("broken"))));
    steps.push((Task::Remove(Dir::Installed), Reply::Done));
    steps.push((Task::CheckExists(Dir::Previous), Reply::Exists(true)));
    steps.push((Task::Move { from: Dir::Previous, to: Dir::Installed }, Reply::Done));
    steps.push((Task::RemoveStaging, Reply::Done));
    let (stage, _) = run(steps, false);
    assert_eq!(stage, Stage::Finished(Err(internal_error("broken"))));
}

#[test]
fn directories_of_an_install_stand_apart() {
    let path = |dir| dir_path("/root", "/staging", "name", dir);
    assert_eq!(path(Dir::InstallRoot), "/root");
    assert_eq!(path(Dir::Extract), "/staging/payload");
    assert_eq!(path(Dir::Extracted), "/staging/payload/name");
    assert_eq!(path(Dir::Installed), "/root/name");
    assert_eq!(path(Dir::Previous), "/root/name.previous");
}

#[test]
fn progress_is_told_with_the_version() {
    let note = phase_notification(&Some("v1".to_string()), ProgressPhase::Checking);
    assert_eq!((note.bundle_version.as_deref(), note.phase), (Some("v1"), ProgressPhase::Checking));
    assert_eq!((note.downloaded_bytes, note.total_bytes), (None, None));
    let note = download_notification(&None, 5, Some(9));
    assert_eq!(
        (note.phase, note.downloaded_bytes, note.total_bytes),
        (ProgressPhase::Downloading, Some(5), Some(9))
    );
}

fn message_of(result: Result<(), RuntimeError>) -> String {
    result.expect_err("manifest should be refused").message
}

#[test]
fn manifests_are_validated() {
    assert_eq!(validate_manifest(&manifest()), Ok(()));
    let mut bad = manifest();
    bad.archive_url = " ".to_string();
    assert!(message_of(validate_manifest(&bad)).contains("archiveUrl"));
    let mut bad = manifest();
    bad.archive_sha256 = "g".repeat(64);
    assert!(message_of(validate_manifest(&bad)).contains("archiveSha256"));
    let mut bad = manifest();
    bad.archive_name = Some("a/b".to_string());
    assert!(message_of(validate_manifest(&bad)).contains("archiveName"));
    let mut bad = manifest();
    bad.runtime_root_directory_name = Some("..".to_string());
    assert_eq!(
        validate_manifest(&bad).expect_err("name").kind,
        ErrorKind::InvalidParams
    );
    assert!(is_sha256(&"aF0".repeat(22)[..64]));
    assert!(!is_sha256("aF0"));
    assert_eq!(
        runtime_root_directory_name(&manifest()).as_deref(),
        Ok("codex-primary-runtime")
    );
    let mut zip = manifest();
    zip.format = None;
    assert_eq!(runtime_archive_format(&zip), Ok(RuntimeArchiveFormat::TarXz));
    zip.archive_url = "https://example.com/A.ZIP".to_string();
    assert_eq!(runtime_archive_format(&zip), Ok(RuntimeArchiveFormat::Zip));
    zip.format = Some("rar".to_string());
    assert!(runtime_archive_format(&zip).is_err());
    let prepared = prepare_install(&manifest()).expect("prepared");
    assert_eq!(prepared.archive_name, "node-runtime.tar.xz");
}

#[test]
fn bundled_paths_stay_within_the_runtime() {
    let mut installed = metadata("v1");
    installed.bundled_plugins = Some(vec!["plugins".to_string()]);
    installed.bundled_skills = Some(vec!["skills/a".to_string()]);
    installed.skills_to_remove = Some(vec!["old".to_string()]);
    let finish = |installed| {
        finish_validation("/r", installed, "/n".to_string(), "/m".to_string(), "/p".to_string())
    };
    let found = finish(installed).expect("paths");
    assert_eq!(found.bundled_plugin_marketplace_paths, vec!["/r/plugins".to_string()]);
    assert_eq!(found.bundled_skill_paths, vec!["/r/skills/a/SKILL.md".to_string()]);
    assert_eq!(found.skills_to_remove, vec!["old".to_string()]);
    let mut escaping = metadata("v1");
    escaping.bundled_skills = Some(vec!["../x".to_string()]);
    assert_eq!(
        finish(escaping).expect_err("path").message,
        "runtime-contained path must stay within the runtime root"
    );
}

#[test]
fn commands_are_built_for_each_platform() {
    let unix = TargetPlatform::Unix;
    let windows = TargetPlatform::Windows;
    assert_eq!(move_argv(unix, "/a", "/b").join(" "), "mv /a /b");
    assert_eq!(
        list_argv(RuntimeArchiveFormat::Zip, unix, "/a.zip").join(" "),
        "unzip -Z1 /a.zip"
    );
    assert_eq!(
        extract_argv(RuntimeArchiveFormat::TarXz, windows, "/a", "/d").join(" "),
        "tar -xJf /a -C /d"
    );
    assert_eq!(download_argv(unix, "u", "/d").join(" "), "curl --fail --location --silent --show-error --output /d u");
    assert_eq!(checksum_argv(unix, "/a").last().map(String::as_str), Some("/a"));
    assert_eq!(checksum_argv(windows, "/a")[0], "powershell");
    assert_eq!(unix_target_argv()[0], "sh");
    assert_eq!(windows_target_argv()[0], "powershell");
    assert_eq!((unix.runtime_name(), windows.runtime_name()), ("unix", "win32"));
}

#[test]
fn outputs_of_commands_are_read() {
    assert_eq!(parse_checksum("abc  /tmp/a\n").as_deref(), Ok("abc"));
    assert!(parse_checksum(" \n").is_err());
    assert_eq!(parse_entries("a\r\n\nb\n"), vec!["a".to_string(), "b".to_string()]);
    assert_eq!(
        parse_install_target("unix\n/home/u/.cache/codex-runtimes\n"),
        Ok(InstallTarget {
            install_root: "/home/u/.cache/codex-runtimes".to_string(),
            platform: TargetPlatform::Unix,
        })
    );
    assert!(parse_install_target("beos\n/x\n").is_err());
    assert!(parse_install_target("unix\n").is_err());
    assert!(parse_install_target("unix\nrelative\n").is_err());
    assert!(is_rooted_on(TargetPlatform::Windows, "C:\\Users"));
    assert!(!is_rooted_on(TargetPlatform::Unix, "C:\\Users"));
}

fn ended(events: Vec<ProcessEvent>) -> Result<String, RuntimeError> {
    let mut run = CommandRun::new();
    for event in events {
        match run.on_event(event, "op") {
            RunStep::Running(next) => run = next,
            RunStep::Done(result) => return result,
        }
    }
    panic!("the command should end");
}

#[test]
fn commands_end_with_their_output_or_an_error() {
    assert_eq!(
        ended(vec![
            ProcessEvent::Stdout(b"a".to_vec()),
            ProcessEvent::Stderr(b"x".to_vec()),
            ProcessEvent::Stdout(b"b".to_vec()),
            ProcessEvent::Exited(0),
            ProcessEvent::Closed,
        ])
        .as_deref(),
        Ok("ab")
    );
    let message = |events| ended(events).expect_err("error").message;
    assert_eq!(
        message(vec![
            ProcessEvent::Pty(b" no \xff\n".to_vec()),
            ProcessEvent::Exited(3),
            ProcessEvent::Closed
        ]),
        "op failed (exit code 3): no \u{fffd}"
    );
    assert_eq!(message(vec![ProcessEvent::Closed]), "op failed (exit code -1): ");
    assert!(message(vec![
        ProcessEvent::Stdout(vec![0xff]),
        ProcessEvent::Exited(0),
        ProcessEvent::Closed
    ])
    .starts_with("op returned invalid UTF-8: invalid utf-8 sequence"));
    assert_eq!(
        message(vec![ProcessEvent::Failed("gone".to_string())]),
        "op process failed: gone"
    );
    assert_eq!(
        message(vec![ProcessEvent::StreamFailed("gone".to_string())]),
        "op output stream failed: gone"
    );
    assert_eq!(message(vec![ProcessEvent::Cancelled]), "runtime install canceled");
}
