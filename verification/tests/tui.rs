use codex_core::login::external_provided::AccountPlanType;
use codex_core::rollout::filename::CivilTime;
use codex_core::tui::input_queue::server_queued_item_preview;
use codex_core::tui::input_queue::InputQueueState;
use codex_core::tui::input_queue::PendingInputPreview;
use codex_core::tui::input_queue::PendingSteer;
use codex_core::tui::input_queue::QueuedItem;
use codex_core::tui::input_queue::QueuedItemProvenance;
use codex_core::tui::input_queue::QueuedItemStatus;
use codex_core::tui::input_queue::ThreadQueueListResponse;
use codex_core::tui::input_queue::UserMessage;
use codex_core::tui::input_queue::UserMessageHistoryRecord;
use codex_core::tui::reset_credits::compose_details;
use codex_core::tui::reset_credits::compose_reset_credits_data;
use codex_core::tui::reset_credits::rate_limit_reset_scope;
use codex_core::tui::reset_credits::show_time;
use codex_core::tui::reset_credits::shown_expiries;
use codex_core::tui::reset_credits::RateLimitResetCredit;
use codex_core::tui::reset_credits::RateLimitResetCreditStatus;
use codex_core::tui::reset_credits::RateLimitResetCreditsSummary;
use codex_core::tui::reset_credits::RateLimitResetScope;
use codex_core::tui::reset_credits::RateLimitSnapshotDisplay;
use codex_core::tui::reset_credits::RateLimitWindowDisplay;
use codex_core::tui::reset_credits::StatusResetCreditDetail;
use codex_core::tui::reset_credits::StatusResetCreditsData;
use codex_core::tui::session_resume::cwd_step;
use codex_core::tui::session_resume::history_cwd;
use codex_core::tui::session_resume::initial_step;
use codex_core::tui::session_resume::is_compressed_rollout_path;
use codex_core::tui::session_resume::on_choice;
use codex_core::tui::session_resume::resolve_session_thread_id;
use codex_core::tui::session_resume::verified_rollout_path_for_thread;
use codex_core::tui::session_resume::session_cwd;
use codex_core::tui::session_resume::session_model;
use codex_core::tui::session_resume::state_from_ends;
use codex_core::tui::session_resume::CwdChoice;
use codex_core::tui::session_resume::CwdStep;
use codex_core::tui::session_resume::InitialStep;
use codex_core::tui::session_resume::ResumeReader;
use codex_core::tui::session_resume::RolloutResumeState;
use codex_core::tui::session_resume::SessionMetadata;
use codex_core::tui::session_resume::TailScan;
use codex_core::tui::session_resume::TurnContextResumeState;
use codex_core::tui::tab_status::clear_tab_status_sequence;
use codex_core::tui::tab_status::set_tab_status_sequence;
use codex_core::tui::tab_status::TabStatus;
use codex_core::tui::tab_status::TabStatusOutput;
use codex_core::tui::tab_status_state::TabStatusLine;
use codex_core::tui::tab_status_state::TabStatusState;

#[test]
fn working_emits_orange_with_matching_text_color() {
    assert_eq!(
        set_tab_status_sequence(TabStatus::Working),
        "\x1b]21337;status=Working;indicator=#ff9500;status-color=#ff9500\x07"
    );
}

#[test]
fn waiting_emits_blue_with_matching_text_color() {
    assert_eq!(
        set_tab_status_sequence(TabStatus::Waiting),
        "\x1b]21337;status=Waiting;indicator=#5f87ff;status-color=#5f87ff\x07"
    );
}

#[test]
fn idle_uses_dim_text_color() {
    assert_eq!(
        set_tab_status_sequence(TabStatus::Idle),
        "\x1b]21337;status=Idle;indicator=#00d75f;status-color=#888888\x07"
    );
}

#[test]
fn clear_emits_empty_fields() {
    assert_eq!(
        clear_tab_status_sequence(),
        "\x1b]21337;status=;indicator=;status-color=\x07"
    );
}

#[test]
fn nothing_is_sent_to_what_is_no_terminal() {
    let output = TabStatusOutput { emitted: false };
    assert_eq!(output.set(false, TabStatus::Idle), None);
    assert_eq!(
        output.set(true, TabStatus::Idle),
        Some(set_tab_status_sequence(TabStatus::Idle))
    );
    assert_eq!(output.clear(true), None);
    let output = TabStatusOutput { emitted: true };
    assert_eq!(output.clear(true), Some(clear_tab_status_sequence()));
    assert_eq!(output.clear(false), None);
}

#[test]
fn activity_rolls_forward_and_resets_for_a_new_turn() {
    let mut state = TabStatusState::new();
    assert!(state.set_current_activity(Some(" Run cargo test ".to_string())));
    assert_eq!(state.current_activity().as_deref(), Some("Run cargo test"));

    assert!(state.set_current_activity(None));
    assert_eq!(state.current_activity().as_deref(), None);
    assert_eq!(state.last_activity().as_deref(), Some("Run cargo test"));

    state.reset_for_new_turn();
    assert_eq!(state.last_activity().as_deref(), None);
}

fn line(status: TabStatus, detail: &str) -> TabStatusLine {
    TabStatusLine { status, detail: Some(detail.to_string()) }
}

#[test]
fn throttle_defers_detail_changes_but_not_status_changes() {
    let mut state = TabStatusState::new();
    let started_at = 10_000;
    let desired = line(TabStatus::Working, "first");
    state.refresh(&desired, started_at);

    assert_eq!(
        state.refresh_delay(TabStatus::Working, started_at + 100),
        Some(150)
    );
    assert_eq!(state.refresh_delay(TabStatus::Waiting, started_at + 100), None);
    let unchanged_at = started_at + 300;
    state.refresh(&desired, unchanged_at);
    assert_eq!(
        state.refresh_delay(TabStatus::Working, unchanged_at + 100),
        None
    );
}

#[test]
fn caches_only_bounded_sanitized_detail() {
    let mut state = TabStatusState::new();
    state.refresh(&line(TabStatus::Working, &"x".repeat(1_000)), 0);
    assert_eq!(
        state.last_status(),
        &Some(line(
            TabStatus::Working,
            &format!("{}\u{2026}", "x".repeat(200))
        ))
    );
}

#[test]
fn pending_lines_differ_from_the_shown_one() {
    let mut state = TabStatusState::new();
    state.set_enabled(true);
    let first = line(TabStatus::Idle, "a");
    assert_eq!(state.pending(&first), Some(line(TabStatus::Idle, "a")));
    state.refresh(&first, 5);
    assert_eq!(state.pending(&first), None);
    assert!(!state.set_current_activity(None));
}

fn queued_item(text: &str, status: QueuedItemStatus) -> QueuedItem {
    QueuedItem {
        id: text.to_string(),
        message: text.to_string(),
        image_count: 0,
        provenance: QueuedItemProvenance::User,
        status,
    }
}

fn message(text: &str) -> UserMessage {
    UserMessage { text: text.to_string() }
}

#[test]
fn preview_keeps_queue_categories_separate() {
    let mut state = InputQueueState::new();
    state
        .user_message_queue
        .items
        .push(queued_item("server queued", QueuedItemStatus::Pending));
    state.queued_user_messages.push(message("local queued"));
    state.rejected_steers_queue.push(message("rejected"));
    state.pending_steers.push(PendingSteer {
        user_message: message("pending"),
        history_record: UserMessageHistoryRecord::UserMessageText,
    });

    assert_eq!(
        state.preview(),
        PendingInputPreview {
            queued_messages: vec!["server queued".to_string(), "local queued".to_string()],
            pending_steers: vec!["pending".to_string()],
            rejected_steers: vec!["rejected".to_string()],
            has_editable_queued_message: true,
        }
    );
}

#[test]
fn snapshot_replaces_the_displayed_server_queue() {
    let mut state = InputQueueState::new();
    state
        .user_message_queue
        .items
        .push(queued_item("old", QueuedItemStatus::Pending));

    state
        .user_message_queue
        .set_snapshot(ThreadQueueListResponse {
            data: vec![queued_item("current", QueuedItemStatus::Pending)],
            next_cursor: None,
        });

    assert_eq!(state.preview().queued_messages, vec!["current"]);
}

#[test]
fn preview_includes_external_provenance_and_failure() {
    let mut item = queued_item(
        "run the release check",
        QueuedItemStatus::Failed {
            error: "thread unavailable".to_string(),
        },
    );
    item.provenance = QueuedItemProvenance::ExternalEvent {
        source: "deploy-hook".to_string(),
    };
    let mut state = InputQueueState::new();
    state.user_message_queue.items.push(item);

    assert_eq!(
        state.preview().queued_messages,
        vec!["[failed: thread unavailable] [deploy-hook] run the release check"]
    );
    assert!(!state.blocks_local_queue_autosend());
}

#[test]
fn server_queue_state_distinguishes_follow_ups_from_refreshes() {
    let mut state = InputQueueState::new();
    state
        .user_message_queue
        .items
        .push(queued_item("pending", QueuedItemStatus::Pending));
    assert!(state.blocks_local_queue_autosend());
    assert!(state.has_queued_follow_up_messages());

    state.user_message_queue.items.clear();
    state.user_message_queue.has_more = true;
    assert!(state.blocks_local_queue_autosend());
    assert!(state.has_queued_follow_up_messages());

    state.user_message_queue.has_more = false;
    state.user_message_queue.refresh_in_flight = true;
    assert!(state.blocks_local_queue_autosend());
    assert!(!state.has_queued_follow_up_messages());
}

#[test]
fn clear_resets_local_and_server_queue_state() {
    let mut state = InputQueueState::new();
    state
        .user_message_queue
        .items
        .push(queued_item("server queued", QueuedItemStatus::Pending));
    state.user_message_queue.has_more = true;
    state.user_message_queue.refresh_in_flight = true;
    state.queued_user_messages.push(message("local queued"));
    state.user_turn_pending_start = true;

    state.clear();

    assert_eq!(
        state.preview(),
        PendingInputPreview {
            queued_messages: Vec::new(),
            pending_steers: Vec::new(),
            rejected_steers: Vec::new(),
            has_editable_queued_message: false,
        }
    );
    assert!(!state.user_turn_pending_start);
    assert!(!state.blocks_local_queue_autosend());
}

#[test]
fn messages_of_images_alone_are_counted() {
    let mut item = queued_item("", QueuedItemStatus::Pending);
    item.image_count = 2;
    assert_eq!(server_queued_item_preview(&item), "[image]\n[image]");
    item.image_count = 0;
    assert_eq!(server_queued_item_preview(&item), "[queued input]");
    let claimed = queued_item("go", QueuedItemStatus::Claimed);
    assert!(server_queued_item_preview(&claimed).ends_with("go"));
}

fn credit(expires_at: Option<i64>) -> RateLimitResetCredit {
    RateLimitResetCredit {
        status: RateLimitResetCreditStatus::Available,
        expires_at,
    }
}

fn composed(summary: RateLimitResetCreditsSummary) -> StatusResetCreditsData {
    compose_reset_credits_data(&Some(summary), &Vec::new(), None).expect("reset credits display")
}

#[test]
fn count_only_summary_has_no_synthetic_details() {
    let display = composed(RateLimitResetCreditsSummary {
        available_count: 2,
        credits: None,
    });

    assert_eq!(
        display,
        StatusResetCreditsData {
            summary: "2 available".to_string(),
            details: Vec::new(),
        }
    );
}

#[test]
fn zero_summary_ignores_unexpected_credit_details() {
    let display = composed(RateLimitResetCreditsSummary {
        available_count: 0,
        credits: Some(vec![credit(Some(1_800_000_000))]),
    });

    assert_eq!(
        display,
        StatusResetCreditsData {
            summary: "none available".to_string(),
            details: Vec::new(),
        }
    );
}

#[test]
fn truncated_details_explain_the_omitted_count() {
    let display = composed(RateLimitResetCreditsSummary {
        available_count: 3,
        credits: Some(vec![credit(None)]),
    });

    assert_eq!(
        display.details,
        vec![
            StatusResetCreditDetail {
                text: "#1 does not expire".to_string(),
                scope: Some("Full reset (Weekly + 5h)"),
            },
            StatusResetCreditDetail {
                text: "+2 more without expiry details".to_string(),
                scope: None,
            },
        ]
    );
}

#[test]
fn canonical_codex_id_selects_monthly_window_when_display_name_differs() {
    let snapshot = RateLimitSnapshotDisplay {
        limit_id: "codex".to_string(),
        primary: Some(RateLimitWindowDisplay { label: "monthly".to_string() }),
        secondary: None,
    };

    assert_eq!(
        rate_limit_reset_scope(&vec![snapshot], Some(AccountPlanType::Business)),
        RateLimitResetScope::Monthly
    );
}

#[test]
fn credits_that_expire_first_are_shown_first() {
    let mut spent = credit(Some(1));
    spent.status = RateLimitResetCreditStatus::Unavailable;
    let credits = vec![credit(None), credit(Some(20)), spent, credit(Some(10))];
    assert_eq!(shown_expiries(&credits, 2), vec![Some(10), Some(20)]);
    assert_eq!(shown_expiries(&credits, 9), vec![Some(10), Some(20), None]);
    let display = composed(RateLimitResetCreditsSummary {
        available_count: 2,
        credits: Some(vec![credit(Some(i64::MAX)), credit(Some(1_800_000_000))]),
    });
    assert!(display.details[0].text.starts_with("#1 expires "));
    assert!(display.details[0].text.contains(" on 1"));
    assert!(display.details[0].text.ends_with(" Jan 2027"));
    assert_eq!(display.details[1].text, "#2 has an unknown expiration");
    assert_eq!(compose_reset_credits_data(&None, &Vec::new(), None), None);
}

#[test]
fn times_are_shown_with_the_name_of_the_month() {
    let at = |year, month, day, hour, minute| {
        show_time(CivilTime { year, month, day, hour, minute, second: 59 })
    };
    assert_eq!(at(2026, 5, 1, 9, 30), "09:30 on 1 May 2026");
    assert_eq!(at(2026, 12, 31, 23, 5), "23:05 on 31 Dec 2026");
    assert_eq!(at(7, 1, 10, 0, 0), "00:00 on 10 Jan 0007");
    assert_eq!(at(-3, 2, 2, 0, 0), "00:00 on 2 Feb -0003");
    assert_eq!(at(12345, 9, 2, 0, 0), "00:00 on 2 Sep +12345");
}

#[test]
fn details_take_the_labels_that_they_are_given() {
    let details = compose_details(
        &vec![Some(10), None],
        &vec![Some("09:30 on 1 May 2026".to_string()), None],
        RateLimitResetScope::Monthly.status_label(),
        3,
    );
    let texts: Vec<&str> = details.iter().map(|detail| detail.text.as_str()).collect();
    assert_eq!(
        texts,
        vec![
            "#1 expires 09:30 on 1 May 2026",
            "#2 does not expire",
            "+1 more without expiry details",
        ]
    );
    assert_eq!(details[0].scope, Some("Full reset (Monthly)"));
    assert_eq!(
        RateLimitResetScope::Monthly.usage_description(),
        "Reset your current monthly usage limit."
    );
    assert_eq!(
        rate_limit_reset_scope(&Vec::new(), Some(AccountPlanType::Free)),
        RateLimitResetScope::Monthly
    );
    assert_eq!(
        rate_limit_reset_scope(&Vec::new(), Some(AccountPlanType::Plus)),
        RateLimitResetScope::WeeklyAndFiveHour
    );
}

const THREAD: u128 = 0x67e55044_10b1_426f_9247_bb680e5fe0c8;
const THREAD_TEXT: &str = "67e55044-10b1-426f-9247-bb680e5fe0c8";

fn rollout_line(timestamp: &str, item_type: &str, payload: &str) -> String {
    format!(r#"{{"timestamp":"{timestamp}","type":"{item_type}","payload":{payload}}}"#)
}

fn session_line(cwd: &str) -> String {
    rollout_line(
        "t0",
        "session_meta",
        &format!(
            r#"{{"id":"{THREAD_TEXT}","cwd":"{cwd}","originator":"test","cli_version":"test"}}"#
        ),
    )
}

fn turn_line(timestamp: &str, cwd: &str, model: &str) -> String {
    rollout_line(
        timestamp,
        "turn_context",
        &format!(r#"{{"cwd":"{cwd}","model":"{model}"}}"#),
    )
}

fn resume_state(lines: &[String]) -> Result<RolloutResumeState, String> {
    let mut reader = ResumeReader::new();
    for line in lines {
        reader.read_line(line);
    }
    reader.finish("rollout.jsonl")
}

#[test]
fn rollout_resume_state_prefers_latest_turn_context() {
    let state = resume_state(&[
        session_line("/tmp/original"),
        turn_line("t1", "/tmp/middle", "middle"),
        turn_line("t2", "/tmp/latest", "latest"),
    ])
    .expect("state");

    assert_eq!(state.thread_id, Some(THREAD));
    assert_eq!(state.cwd.as_deref(), Some("/tmp/latest"));
    assert_eq!(state.model, Some("latest".to_string()));
}

#[test]
fn rollout_resume_state_falls_back_to_session_meta() {
    let state = resume_state(&[session_line("/tmp/session")]).expect("state");

    assert_eq!(state.thread_id, Some(THREAD));
    assert_eq!(state.cwd.as_deref(), Some("/tmp/session"));
    assert_eq!(state.model, None);
}

#[test]
fn records_are_read_as_lists_too() {
    let state = resume_state(&[
        format!(r#"["session_meta",["{THREAD_TEXT}","/tmp/session"]]"#),
        r#"["turn_context",{"model":"m","cwd":"/tmp/turn"}]"#.to_string(),
    ])
    .expect("state");
    assert_eq!(state.thread_id, Some(THREAD));
    assert_eq!(state.cwd.as_deref(), Some("/tmp/turn"));
    assert_eq!(state.model, Some("m".to_string()));

    let state = resume_state(&[
        session_line("/tmp/session"),
        r#"["turn_context",["/tmp/turn"]]"#.to_string(),
        r#"["turn_context",["/tmp/turn","m"],null]"#.to_string(),
    ])
    .expect("state");
    assert_eq!(state.cwd.as_deref(), Some("/tmp/session"));
    assert_eq!(state.model, None);
}

#[test]
fn rollout_resume_state_skips_malformed_lines() {
    let state = resume_state(&[session_line("/tmp/session"), "{".to_string()]).expect("state");

    assert_eq!(state.thread_id, Some(THREAD));
    assert_eq!(state.cwd.as_deref(), Some("/tmp/session"));
}

#[test]
fn rollouts_without_a_record_are_refused() {
    assert!(resume_state(&["{".to_string(), String::new()]).is_err());
    assert!(resume_state(&[]).is_err());
}

fn tail_of(chunks: &[&[u8]]) -> Option<TurnContextResumeState> {
    let mut scan = TailScan::new();
    for chunk in chunks {
        if let Some(found) = scan.take_chunk(chunk) {
            return Some(found);
        }
    }
    scan.finish()
}

#[test]
fn reading_backwards_finds_the_last_turn() {
    let whole = format!(
        "{}\n{}\n{}\n{{",
        session_line("/tmp/original"),
        turn_line("t1", "/tmp/middle", "middle"),
        turn_line("t2", "/tmp/latest", "latest"),
    );
    let bytes = whole.as_bytes();
    let expected = TurnContextResumeState {
        cwd: "/tmp/latest".to_string(),
        model: "latest".to_string(),
    };
    assert_eq!(tail_of(&[bytes]), Some(expected));
    for cut in [1, 5, 40, bytes.len() - 1] {
        let found = tail_of(&[&bytes[cut..], &bytes[..cut]]).expect("turn");
        assert_eq!((found.cwd.as_str(), found.model.as_str()), ("/tmp/latest", "latest"));
    }
    let session = session_line("/tmp/only");
    assert_eq!(tail_of(&[session.as_bytes()]), None);
}

#[test]
fn first_records_name_the_session() {
    assert!(matches!(initial_step("  "), InitialStep::Continue));
    let InitialStep::Done(Some(meta)) = initial_step(&session_line("/tmp/a")) else {
        panic!("session expected");
    };
    assert_eq!(meta, SessionMetadata { id: THREAD, cwd: "/tmp/a".to_string() });
    let state = state_from_ends(
        meta,
        Some(TurnContextResumeState { cwd: "/tmp/b".to_string(), model: "m".to_string() }),
    );
    assert_eq!(
        state,
        RolloutResumeState {
            thread_id: Some(THREAD),
            cwd: Some("/tmp/b".to_string()),
            model: Some("m".to_string()),
        }
    );
    assert!(is_compressed_rollout_path("/s/rollout-x.jsonl.zst"));
    assert!(!is_compressed_rollout_path("/s/rollout-x.jsonl"));
}

fn read_state() -> Option<RolloutResumeState> {
    Some(RolloutResumeState {
        thread_id: Some(7),
        cwd: Some("/read".to_string()),
        model: Some("read".to_string()),
    })
}

#[test]
fn what_is_known_of_a_session_is_put_together() {
    assert_eq!(resolve_session_thread_id(Some(THREAD_TEXT), None), Some(THREAD));
    assert_eq!(resolve_session_thread_id(Some("nonsense"), read_state()), None);
    assert_eq!(resolve_session_thread_id(None, read_state()), Some(7));
    assert_eq!(session_model(Some("kept".to_string()), read_state()).as_deref(), Some("kept"));
    assert_eq!(session_model(None, read_state()).as_deref(), Some("read"));
    assert_eq!(session_cwd(7, read_state(), None).as_deref(), Some("/read"));
    assert_eq!(
        history_cwd(false, None, Some("/known".to_string())).as_deref(),
        Some("/known")
    );
}

#[test]
fn users_are_asked_where_folders_differ() {
    assert!(matches!(cwd_step(None, true, true), CwdStep::Continue(None)));
    let CwdStep::Prompt { history_cwd } = cwd_step(Some("/old".to_string()), true, true) else {
        panic!("a prompt is due");
    };
    assert_eq!(history_cwd, "/old");
    assert!(matches!(
        cwd_step(Some("/old".to_string()), true, false),
        CwdStep::Continue(Some(_))
    ));
    let choose = |choice| on_choice(choice, "/now".to_string(), "/old".to_string());
    assert!(matches!(choose(CwdChoice::Exit), CwdStep::Exit));
    assert!(matches!(choose(CwdChoice::Current), CwdStep::Continue(Some(cwd)) if cwd == "/now"));
    assert!(matches!(choose(CwdChoice::Session), CwdStep::Continue(Some(cwd)) if cwd == "/old"));
}

#[test]
fn only_the_file_of_the_thread_is_taken() {
    let path = || Some("/s/rollout.jsonl".to_string());
    assert_eq!(verified_rollout_path_for_thread(path(), Some(THREAD), THREAD), path());
    let compressed = Some("/s/rollout.jsonl.zst".to_string());
    assert_eq!(
        verified_rollout_path_for_thread(compressed, Some(THREAD), THREAD).as_deref(),
        Some("/s/rollout.jsonl")
    );
    assert_eq!(verified_rollout_path_for_thread(path(), Some(THREAD + 1), THREAD), None);
    assert_eq!(verified_rollout_path_for_thread(path(), None, THREAD), None);
    assert_eq!(verified_rollout_path_for_thread(None, Some(THREAD), THREAD), None);
}
