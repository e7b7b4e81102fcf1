use codex_core::ids::ThreadId;
use codex_core::state::artifacts::after_cached;
use codex_core::state::artifacts::after_record_written;
use codex_core::state::artifacts::cached_artifact;
use codex_core::state::artifacts::check_artifact_time;
use codex_core::state::artifacts::check_rollout_owner;
use codex_core::state::artifacts::created_record;
use codex_core::state::artifacts::list_thread_artifacts;
use codex_core::state::artifacts::rollout_thread_artifacts;
use codex_core::state::artifacts::state_db_unavailable;
use codex_core::state::artifacts::stored_artifact_from_rollout;
use codex_core::state::artifacts::stored_artifact_from_state;
use codex_core::state::artifacts::writable_path_error;
use codex_core::state::artifacts::ArtifactChange;
use codex_core::state::artifacts::ArtifactRecord;
use codex_core::state::artifacts::RolloutThreadArtifact;
use codex_core::state::artifacts::StoredThreadArtifact;
use codex_core::state::artifacts::ThreadArtifact;
use codex_core::state::artifacts::ThreadStoreError;
use codex_core::state::automation::AutomationDispatchMode;
use codex_core::state::automation::ApprovalPolicy;
use codex_core::state::automation::AutomationDispatchSettings;
use codex_core::state::automation::AutomationStatus;
use codex_core::state::automation::AutomationTarget;
use codex_core::state::automation::ColumnFaults;
use codex_core::state::automations::AutomationCreateParams;
use codex_core::state::automations::AutomationTable;
use codex_core::state::automations::AutomationUpdateParams;
use codex_core::state::automations::DispatchSettingsParams;
use codex_core::state::migrations::inspect_existing_database;
use codex_core::state::migrations::inspect_ledger;
use codex_core::state::migrations::inspect_runtime_db_migration;
use codex_core::state::migrations::AppliedMigration;
use codex_core::state::migrations::KnownMigration;
use codex_core::state::migrations::RuntimeDbMigrationIssue;
use codex_core::state::migrations::RuntimeDbMigrationStatus;
use codex_core::state::queue::record_from_row;
use codex_core::state::queue::QueueStore;
use codex_core::state::queue::QueuedItemRow;
use codex_core::state::queue::QueuedItemState;
use codex_core::state::schedule::compute_next_heartbeat_cooldown_at;
use codex_core::state::schedule::compute_next_run_at;
use codex_core::state::schedule::deterministic_automation_jitter_seconds;
use codex_core::state::schedule::heartbeat_interval_duration;
use codex_core::state::schedule::next_scheduled;
use codex_core::state::schedule::should_jitter;
use codex_core::state::schedule::AutomationKind;
use codex_core::state::schedule::AutomationSchedule;
use codex_core::state::schedule::ScheduleFrequency;
use codex_core::state::schedule::Weekday;

const THREAD: ThreadId = ThreadId { value: 0x123 };
const OTHER: ThreadId = ThreadId { value: 0x456 };

// Thursday, the 1st of January 2026, at 12:34:56.
const NOW: i64 = 1_767_270_896;

fn no_faults() -> ColumnFaults {
    ColumnFaults { dispatch: None, reasoning_effort: None }
}

fn cron_create_params(owner_thread_id: ThreadId, cwd: &str) -> AutomationCreateParams {
    AutomationCreateParams {
        owner_thread_id,
        name: "Nightly sweep".to_string(),
        prompt: "Summarize what changed.".to_string(),
        status: AutomationStatus::Active,
        rrule: Some("FREQ=DAILY;BYHOUR=9;BYMINUTE=30".to_string()),
        model: Some("gpt-5".to_string()),
        reasoning_effort: None,
        target: AutomationTarget::Cron { cwds: vec![cwd.to_string()] },
        dispatch_settings: None,
    }
}

fn heartbeat_create_params(owner_thread_id: ThreadId, thread_id: ThreadId) -> AutomationCreateParams {
    AutomationCreateParams {
        owner_thread_id,
        name: "Heartbeat".to_string(),
        prompt: "Check whether to continue.".to_string(),
        status: AutomationStatus::Active,
        rrule: Some("FREQ=HOURLY;INTERVAL=1".to_string()),
        model: None,
        reasoning_effort: None,
        target: AutomationTarget::Heartbeat { thread_id },
        dispatch_settings: None,
    }
}

fn paused_update(id: &str, owner_thread_id: ThreadId, cwd: &str) -> AutomationUpdateParams {
    AutomationUpdateParams {
        id: id.to_string(),
        owner_thread_id,
        name: "Paused sweep".to_string(),
        prompt: "Wait for now.".to_string(),
        status: AutomationStatus::Paused,
        rrule: Some("FREQ=DAILY;BYHOUR=10;BYMINUTE=0".to_string()),
        model: None,
        reasoning_effort: None,
        target: AutomationTarget::Cron { cwds: vec![cwd.to_string()] },
        dispatch_settings: None,
    }
}

#[test]
fn create_update_delete_cron_automation_round_trips() {
    let mut table = AutomationTable::new();
    let id = "automation-1";
    let created = table
        .create_automation(&cron_create_params(THREAD, "/workspace"), id.to_string(), no_faults(), NOW)
        .expect("create automation");
    assert_eq!(table.get_automation(id, no_faults()).expect("get").as_ref(), Some(&created));

    assert_eq!(created.owner_thread_id, THREAD);
    assert_eq!(created.name, "Nightly sweep");
    assert_eq!(created.prompt, "Summarize what changed.");
    assert_eq!(created.status, AutomationStatus::Active);
    assert_eq!(
        created.target,
        AutomationTarget::Cron {
            cwds: vec!["/workspace".to_string()]
        }
    );
    assert!(created.next_run_at.is_some());
    assert_eq!(created.model.as_deref(), Some("gpt-5"));

    let updated = table
        .update_automation(&paused_update(id, THREAD, "/workspace"), no_faults(), no_faults(), NOW + 5)
        .expect("update automation")
        .expect("automation should exist");

    assert_eq!(updated.name, "Paused sweep");
    assert_eq!(updated.status, AutomationStatus::Paused);
    assert_eq!(updated.next_run_at, None);
    assert_eq!((updated.created_at, updated.updated_at), (NOW, NOW + 5));
    assert_eq!(table.list_order().len(), 1);
    assert!(table.delete_automation(id));
    assert_eq!(table.get_automation(id, no_faults()).expect("get"), None);
    assert!(!table.delete_automation(id));
}

#[test]
fn active_heartbeat_targets_are_unique() {
    let mut table = AutomationTable::new();
    let params = heartbeat_create_params(THREAD, OTHER);

    table
        .create_automation(&params, "automation-1".to_string(), no_faults(), NOW)
        .expect("create first heartbeat");
    let duplicate = table
        .create_automation(&params, "automation-2".to_string(), no_faults(), NOW)
        .expect_err("duplicate active heartbeat should fail");

    assert!(
        duplicate.contains("active heartbeat already exists"),
        "{duplicate}"
    );
    assert_eq!(table.rows.len(), 1);
    let mut paused = heartbeat_create_params(THREAD, OTHER);
    paused.status = AutomationStatus::Paused;
    let stored = table
        .create_automation(&paused, "automation-3".to_string(), no_faults(), NOW)
        .expect("paused heartbeat");
    assert_eq!(stored.next_run_at, None);
}

#[test]
fn dispatch_settings_are_read_back() {
    let mut table = AutomationTable::new();
    let mut params = cron_create_params(THREAD, "/workspace");
    params.dispatch_settings = Some(DispatchSettingsParams {
        workspace_roots: vec!["/a".to_string(), "/b c".to_string()],
        approval_policy: "\"never\"".to_string(),
        approvals_reviewer: "\"user\"".to_string(),
        permission_profile: "{}".to_string(),
    });
    let created = table
        .create_automation(&params, "automation-1".to_string(), no_faults(), NOW)
        .expect("create");
    assert_eq!(
        created.dispatch_settings,
        Some(AutomationDispatchSettings {
            workspace_roots: vec!["/a".to_string(), "/b c".to_string()],
            approval_policy: ApprovalPolicy::Json("\"never\"".to_string()),
            approvals_reviewer: Some("\"user\"".to_string()),
            permission_profile: Some("{}".to_string()),
        })
    );
    let row = &table.rows[0];
    assert_eq!(row.dispatch_workspace_roots_json.as_deref(), Some(r#"["/a","/b c"]"#));
    assert_eq!(row.dispatch_approval_policy_json.as_deref(), Some("\"never\""));
    assert_eq!(row.dispatch_approvals_reviewer_json.as_deref(), Some("\"user\""));
    assert_eq!(row.dispatch_permission_profile_json.as_deref(), Some("{}"));

    table.rows[0].dispatch_approval_policy_json = None;
    let read = table.get_automation("automation-1", no_faults()).expect("get").expect("automation");
    let settings = read.dispatch_settings.expect("settings");
    assert_eq!(settings.approval_policy, ApprovalPolicy::OnRequest);
    table.rows[0].dispatch_workspace_roots_json = Some("[1]".to_string());
    let error = table.get_automation("automation-1", no_faults()).expect_err("roots are paths");
    assert!(error.contains("path string"), "{error}");
}

#[test]
fn automations_belong_to_their_owner() {
    let mut table = AutomationTable::new();
    let id = "automation-1";
    table
        .create_automation(&cron_create_params(THREAD, "/workspace"), id.to_string(), no_faults(), NOW)
        .expect("create automation");
    let update = paused_update(id, THREAD, "/workspace");
    assert_eq!(
        table.update_automation_if_owner(&update, OTHER, no_faults(), no_faults(), NOW),
        Ok(None)
    );
    assert!(!table.delete_automation_if_owner(id, OTHER));
    let missing = paused_update("automation-9", THREAD, "/workspace");
    assert_eq!(table.update_automation(&missing, no_faults(), no_faults(), NOW), Ok(None));
    let mut other_kind = paused_update(id, THREAD, "/workspace");
    other_kind.target = AutomationTarget::Heartbeat { thread_id: OTHER };
    assert_eq!(
        table.update_automation(&other_kind, no_faults(), no_faults(), NOW),
        Err("changing automation kind is not supported".to_string())
    );
    assert!(table.delete_automation_if_owner(id, THREAD));
}

#[test]
fn automations_are_validated() {
    let mut table = AutomationTable::new();
    let mut params = cron_create_params(THREAD, "/workspace");
    params.name = "  ".to_string();
    assert!(table.create_automation(&params, "a".to_string(), no_faults(), NOW).is_err());
    params.name = "x".repeat(257);
    assert!(table.create_automation(&params, "a".to_string(), no_faults(), NOW).is_err());
    params.name = "x".repeat(256);
    params.prompt = String::new();
    assert!(table.create_automation(&params, "a".to_string(), no_faults(), NOW).is_err());
    params.prompt = "go".to_string();
    params.target = AutomationTarget::Cron { cwds: Vec::new() };
    assert!(table.create_automation(&params, "a".to_string(), no_faults(), NOW).is_err());
    let mut heartbeat = heartbeat_create_params(THREAD, OTHER);
    heartbeat.dispatch_settings = Some(DispatchSettingsParams {
        workspace_roots: Vec::new(),
        approval_policy: "\"never\"".to_string(),
        approvals_reviewer: "\"user\"".to_string(),
        permission_profile: "{}".to_string(),
    });
    assert!(table.create_automation(&heartbeat, "a".to_string(), no_faults(), NOW).is_err());
    let mut bad_rule = cron_create_params(THREAD, "/workspace");
    bad_rule.rrule = Some("FREQ=YEARLY".to_string());
    assert_eq!(
        table.create_automation(&bad_rule, "a".to_string(), no_faults(), NOW),
        Err("unsupported rrule frequency: YEARLY".to_string())
    );
    assert!(table.rows.is_empty());
}

#[test]
fn automations_are_listed_by_their_last_change() {
    let mut table = AutomationTable::new();
    for (id, at) in [("b", 10), ("a", 10), ("c", 20)] {
        table
            .create_automation(&cron_create_params(THREAD, "/w"), id.to_string(), no_faults(), at)
            .expect("create");
    }
    let ids: Vec<&str> = table
        .list_order()
        .into_iter()
        .map(|index| table.rows[index].id.as_str())
        .collect();
    assert_eq!(ids, vec!["c", "a", "b"]);
}

#[test]
fn names_of_kinds_and_states_are_read_back() {
    assert_eq!(AutomationKind::parse("cron"), Ok(AutomationKind::Cron));
    assert_eq!(AutomationKind::Heartbeat.as_str(), "heartbeat");
    assert!(AutomationKind::parse("other").is_err());
    assert_eq!(AutomationStatus::parse("ACTIVE"), Ok(AutomationStatus::Active));
    assert_eq!(AutomationStatus::Paused.as_str(), "PAUSED");
    assert!(AutomationStatus::parse("active").is_err());
    assert_eq!(
        AutomationDispatchMode::parse(AutomationDispatchMode::Manual.as_str()),
        Ok(AutomationDispatchMode::Manual)
    );
    assert!(AutomationDispatchMode::parse("").is_err());
}

fn schedule(rrule: &str) -> AutomationSchedule {
    AutomationSchedule::parse(rrule).expect("schedule")
}

#[test]
fn schedules_are_read_from_rules() {
    assert_eq!(
        schedule("DTSTART:20260101\n RRULE: freq=weekly;byday=mo, fr;BYHOUR=9;BYMINUTE=5;COUNT=1"),
        AutomationSchedule {
            frequency: ScheduleFrequency::Weekly,
            interval: 1,
            hour: Some(9),
            minute: Some(5),
            weekdays: vec![Weekday::Mon, Weekday::Fri],
            one_shot: true,
        }
    );
    let refused = [
        ("", "rrule must include FREQ"),
        ("FREQ", "invalid rrule component: FREQ"),
        ("FREQ=DAILY", "DAILY rrules require BYHOUR and BYMINUTE"),
        ("FREQ=HOURLY;INTERVAL=0", "rrule INTERVAL must be >= 1"),
        ("FREQ=HOURLY;INTERVAL=x", "invalid rrule INTERVAL"),
        ("FREQ=HOURLY;COUNT=2", "rrule COUNT > 1 is not supported"),
        ("FREQ=HOURLY;BYMINUTE=60", "rrule BYMINUTE must be <= 59"),
        ("FREQ=HOURLY;BYHOUR=1", "HOURLY rrules only support BYMINUTE, INTERVAL, and COUNT"),
        ("FREQ=MINUTELY;BYMINUTE=1", "MINUTELY rrules only support FREQ, INTERVAL, and COUNT"),
        ("FREQ=WEEKLY;INTERVAL=2;BYDAY=MO", "WEEKLY rrules only support INTERVAL=1"),
        ("FREQ=WEEKLY;BYHOUR=1;BYMINUTE=1", "WEEKLY rrules require BYDAY"),
        ("FREQ=WEEKLY;BYDAY=XX", "invalid rrule weekday: XX"),
        ("FREQ=DAILY;BYHOUR=1;BYMINUTE=1;BYDAY=MO", "DAILY rrules do not support BYDAY"),
    ];
    for (rrule, message) in refused {
        assert_eq!(AutomationSchedule::parse(rrule), Err(message.to_string()), "{rrule}");
    }
}

#[test]
fn next_runs_follow_the_calendar() {
    let midnight = NOW - NOW.rem_euclid(86_400);
    let at = |day: i64, hour: i64, minute: i64| midnight + day * 86_400 + hour * 3_600 + minute * 60;
    let next = |rrule: &str| next_scheduled(&schedule(rrule), NOW).expect("time");
    assert_eq!(next("FREQ=MINUTELY;INTERVAL=30"), at(0, 13, 4));
    assert_eq!(next("FREQ=HOURLY;BYMINUTE=40"), at(0, 12, 40));
    assert_eq!(next("FREQ=HOURLY;BYMINUTE=34;INTERVAL=2"), at(0, 14, 34));
    assert_eq!(next("FREQ=HOURLY"), at(0, 13, 34));
    assert_eq!(next("FREQ=DAILY;BYHOUR=9;BYMINUTE=30"), at(1, 9, 30));
    assert_eq!(next("FREQ=DAILY;BYHOUR=12;BYMINUTE=35"), at(0, 12, 35));
    assert_eq!(next("FREQ=WEEKLY;BYDAY=TH;BYHOUR=9;BYMINUTE=0"), at(7, 9, 0));
    assert_eq!(next("FREQ=WEEKLY;BYDAY=MO,TH;BYHOUR=9;BYMINUTE=0"), at(4, 9, 0));
    let last: i64 = 8_210_266_876_799;
    assert!(next_scheduled(&schedule("FREQ=HOURLY"), last).is_err());
    assert!(next_scheduled(&schedule("FREQ=MINUTELY"), -8_334_601_228_800).is_ok());
}

#[test]
fn runs_are_spread_by_their_name() {
    // ("ab" hashes to 97 * 131 + 98; the run is added after another round)
    let hash: i64 = (97 * 131 + 98) * 131 + 1_000;
    assert_eq!(deterministic_automation_jitter_seconds("ab", 1_000), hash % 120);
    assert_eq!(deterministic_automation_jitter_seconds("", 7), 7);
    let daily = schedule("FREQ=DAILY;BYHOUR=9;BYMINUTE=30");
    let hourly = schedule("FREQ=HOURLY");
    let once = schedule("FREQ=HOURLY;COUNT=1");
    assert!(should_jitter(AutomationKind::Cron, &hourly));
    assert!(!should_jitter(AutomationKind::Heartbeat, &hourly));
    assert!(should_jitter(AutomationKind::Heartbeat, &daily));
    assert!(!should_jitter(AutomationKind::Cron, &once));
    let scheduled = next_scheduled(&daily, NOW).expect("time");
    assert_eq!(
        compute_next_run_at(AutomationKind::Cron, "ab", &daily, None, NOW),
        Ok(Some(scheduled + deterministic_automation_jitter_seconds("ab", scheduled)))
    );
    assert_eq!(
        compute_next_run_at(AutomationKind::Cron, "ab", &once, Some(NOW), NOW),
        Ok(None)
    );
}

#[test]
fn heartbeats_wait_for_their_thread() {
    let cooldown = |rrule: &str, last: Option<i64>, touched: Option<i64>| {
        compute_next_heartbeat_cooldown_at(rrule, last, touched, NOW, "ab").expect("time")
    };
    let rrule = "FREQ=MINUTELY;INTERVAL=30";
    assert_eq!(cooldown(rrule, Some(NOW - 10), Some(NOW - 5)), Some(NOW - 5 + 1_800));
    assert_eq!(cooldown(rrule, Some(NOW - 3), None), Some(NOW - 3 + 1_800));
    assert_eq!(cooldown(rrule, None, None), None);
    assert_eq!(cooldown("FREQ=HOURLY;COUNT=1", Some(NOW), None), None);
    assert!(cooldown("FREQ=DAILY;BYHOUR=9;BYMINUTE=30", None, None).is_some());
    assert_eq!(heartbeat_interval_duration(&schedule("FREQ=HOURLY;INTERVAL=2")), Some(7_200));
    assert_eq!(
        heartbeat_interval_duration(&schedule("FREQ=DAILY;BYHOUR=1;BYMINUTE=1")),
        None
    );
}

fn enqueue(queue: &mut QueueStore, id: &str, payload: &[u8]) -> String {
    queue
        .enqueue(THREAD, id.to_string(), payload.to_vec(), 100)
        .expect("enqueue")
        .queued_item_id
}

#[test]
fn full_queues_of_other_threads_are_no_hindrance() {
    let mut queue = QueueStore::new();
    enqueue(&mut queue, "q1", b"1");
    queue.items[0].record.thread_id = OTHER;
    queue.items[0].record.queue_order = i64::MAX;
    enqueue(&mut queue, "q2", b"2");
    enqueue(&mut queue, "q3", b"3");
    let orders: Vec<i64> = queue.items.iter().map(|item| item.record.queue_order).collect();
    assert_eq!(orders, vec![i64::MAX, 0, 1]);
}

#[test]
fn claim_next_has_one_winner_across_runtime_instances() {
    let mut queue = QueueStore::new();
    enqueue(&mut queue, "q1", br#"{"input":[]}"#);

    let first = queue.claim_next(THREAD, "token-1".to_string(), 101);
    let second = queue.claim_next(THREAD, "token-2".to_string(), 101);
    assert_eq!(1, [first, second].into_iter().flatten().count());
    assert!(queue.has_claimed_item(THREAD));
}

#[test]
fn stale_claim_owner_cannot_mutate_reclaimed_item() {
    let mut queue = QueueStore::new();
    let item = enqueue(&mut queue, "q1", br#"{"input":["hello"]}"#);
    let first_claim = queue.claim_next(THREAD, "token-1".to_string(), 101).unwrap();
    assert!(queue.release_claim(&item, &first_claim.claim_token, 102));
    let second_claim = queue.claim_next(THREAD, "token-2".to_string(), 103).unwrap();

    assert!(!queue.complete_claim(&item, &first_claim.claim_token));
    assert!(queue.complete_claim(&item, &second_claim.claim_token));
    assert!(queue.list_page(THREAD, 0, 1).expect("page").is_empty());
}

#[test]
fn failed_head_blocks_later_pending_item_until_removed() {
    let mut queue = QueueStore::new();
    let first = enqueue(&mut queue, "q1", br#"{"n":1}"#);
    let second = enqueue(&mut queue, "q2", br#"{"n":2}"#);
    let claim = queue.claim_next(THREAD, "token-1".to_string(), 101).unwrap();
    queue
        .fail_claim(&first, &claim.claim_token, br#"{"message":"nope"}"#.to_vec(), 102)
        .unwrap();

    assert_eq!(None, queue.claim_next(THREAD, "token-2".to_string(), 103));
    assert!(queue.delete(THREAD, &first));
    assert_eq!(
        second,
        queue
            .claim_next(THREAD, "token-3".to_string(), 104)
            .unwrap()
            .item
            .queued_item_id
    );
}

#[test]
fn recovery_only_marks_stale_claims_failed() {
    let mut queue = QueueStore::new();
    let item = enqueue(&mut queue, "q1", br#"{"n":1}"#);
    queue.claim_next(THREAD, "token-1".to_string(), 101).unwrap();

    let failure = br#"{"message":"claim interrupted"}"#.to_vec();
    assert_eq!(
        Ok(0),
        queue.recover_claims_as_failed_before(THREAD, 0, failure.clone(), 102)
    );
    assert_eq!(
        Ok(1),
        queue.recover_claims_as_failed_before(THREAD, i64::MAX, failure, 103)
    );
    let visible = queue.list_page(THREAD, 0, 1).expect("page");
    assert_eq!(item, visible[0].queued_item_id);
    assert_eq!(QueuedItemState::Failed, visible[0].state);
    assert_eq!(None, queue.claim_next(THREAD, "token-2".to_string(), 104));
}

#[test]
fn reorder_requires_every_visible_item() {
    let mut queue = QueueStore::new();
    let first = enqueue(&mut queue, "q1", br#"{"n":1}"#);
    let second = enqueue(&mut queue, "q2", br#"{"n":2}"#);
    assert!(!queue.reorder(THREAD, &vec![first.clone()], 101));
    assert!(queue.reorder(THREAD, &vec![second.clone(), first.clone()], 102));
    let reordered = queue.list_page(THREAD, 0, 2).expect("page");
    assert_eq!(
        vec![second, first],
        reordered
            .into_iter()
            .map(|item| item.queued_item_id)
            .collect::<Vec<_>>()
    );
}

#[test]
fn list_page_preserves_fifo_order_and_payload() {
    let mut queue = QueueStore::new();
    enqueue(&mut queue, "q1", br#"{"n":1}"#);
    let second = enqueue(&mut queue, "q2", br#"{"n":2}"#);
    let third = enqueue(&mut queue, "q3", br#"{"n":3}"#);

    let page = queue.list_page(THREAD, 1, 2).expect("page");
    let too_large = i64::try_from(u64::MAX).expect_err("no signed number").to_string();
    assert_eq!(queue.list_page(THREAD, 0, usize::MAX), Err(too_large.clone()));
    assert_eq!(queue.list_page(THREAD, usize::MAX, 1), Err(too_large));
    assert_eq!(
        vec![second, third],
        page.iter()
            .map(|item| item.queued_item_id.clone())
            .collect::<Vec<_>>()
    );
    assert_eq!(br#"{"n":2}"#, page[0].payload_jsonb.as_slice());
}

#[test]
fn json_payloads_are_bound_as_text() {
    let mut queue = QueueStore::new();
    enqueue(&mut queue, "q1", b"3456");

    let visible = queue.list_page(THREAD, 0, 1).expect("page");
    assert_eq!(b"3456", visible[0].payload_jsonb.as_slice());
}

#[test]
fn deleting_thread_deletes_its_queue() {
    let mut queue = QueueStore::new();
    enqueue(&mut queue, "q1", br#"{"n":1}"#);
    queue
        .enqueue(OTHER, "q2".to_string(), b"{}".to_vec(), 100)
        .expect("enqueue");
    assert!(queue.delete_thread_queue(THREAD));
    assert!(queue.list_page(THREAD, 0, 1).expect("page").is_empty());
    assert_eq!(queue.list_page(OTHER, 0, 1).expect("page").len(), 1);
}

#[test]
fn payloads_are_utf8_and_rows_are_read_back() {
    let mut queue = QueueStore::new();
    assert!(queue.enqueue(THREAD, "q1".to_string(), vec![0xff], 100).is_err());
    assert!(queue.list_page(THREAD, 0, 1).expect("page").is_empty());
    let row = |thread: &str, state: &str| QueuedItemRow {
        queued_item_id: "q1".to_string(),
        thread_id: thread.to_string(),
        payload_jsonb: b"{}".to_vec(),
        queue_order: 1,
        state: state.to_string(),
        failure_jsonb: None,
        created_at_ms: 2,
        updated_at_ms: 3,
    };
    let id = "67e55044-10b1-426f-9247-bb680e5fe0c8";
    let record = record_from_row(row(id, "claimed")).expect("record");
    assert_eq!(record.state, QueuedItemState::Claimed);
    assert_eq!(record.thread_id.text(), id);
    assert!(record_from_row(row("nonsense", "claimed")).is_err());
    assert!(record_from_row(row(id, "nonsense")).is_err());
    assert_eq!(QueuedItemState::parse("pending"), Ok(QueuedItemState::Pending));
    assert_eq!(QueuedItemState::Failed.as_str(), "failed");
}

fn applied(version: i64, success: bool, checksum: &[u8]) -> AppliedMigration {
    AppliedMigration { version, success, checksum: checksum.to_vec() }
}

fn known() -> Vec<KnownMigration> {
    vec![
        KnownMigration { version: 35, checksum: vec![35] },
        KnownMigration { version: 36, checksum: vec![36] },
    ]
}

#[test]
fn missing_runtime_databases_are_reported_without_creation() {
    let inspection = inspect_runtime_db_migration(
        "state DB".to_string(),
        "/home/state.sqlite".to_string(),
        false,
        Err("unused".to_string()),
    );
    assert_eq!(inspection.status, RuntimeDbMigrationStatus::Missing);
}

#[test]
fn current_runtime_database_is_compatible() {
    let rows = vec![applied(35, true, &[35]), applied(36, true, &[36])];
    assert_eq!(
        inspect_existing_database(&Some(rows), &known()),
        RuntimeDbMigrationStatus::Compatible {
            applied: 2,
            pending: 0,
        }
    );
}

#[test]
fn changed_checksum_is_incompatible() {
    let rows = vec![applied(35, true, &[35]), applied(36, true, &[0; 48])];
    assert_eq!(
        inspect_ledger(&rows, &known()),
        RuntimeDbMigrationStatus::Incompatible(vec![RuntimeDbMigrationIssue::ChecksumMismatch {
            version: 36
        }])
    );
}

#[test]
fn dirty_migration_is_incompatible() {
    let rows = vec![applied(35, true, &[35]), applied(36, false, &[36])];
    assert_eq!(
        inspect_ledger(&rows, &known()),
        RuntimeDbMigrationStatus::Incompatible(vec![RuntimeDbMigrationIssue::Dirty {
            version: 36,
        }])
    );
}

#[test]
fn future_migration_is_tolerated() {
    let rows = vec![
        applied(35, true, &[35]),
        applied(36, true, &[36]),
        applied(9_999, true, &[1, 2, 3, 4]),
    ];
    assert_eq!(
        inspect_ledger(&rows, &known()),
        RuntimeDbMigrationStatus::Compatible {
            applied: 3,
            pending: 0,
        }
    );
}

#[test]
fn databases_without_a_ledger_have_everything_pending() {
    assert_eq!(
        inspect_existing_database(&None, &known()),
        RuntimeDbMigrationStatus::Compatible { applied: 0, pending: 2 }
    );
    let inspection = inspect_runtime_db_migration(
        "log DB".to_string(),
        "/home/logs.sqlite".to_string(),
        true,
        Err("not a database".to_string()),
    );
    assert_eq!(
        inspection.status,
        RuntimeDbMigrationStatus::Unreadable("not a database".to_string())
    );
}

fn artifact(created_at: i64) -> RolloutThreadArtifact {
    RolloutThreadArtifact {
        created_at,
        artifact_type: "github/pull_request".to_string(),
        payload: r#"{"number":123}"#.to_string(),
    }
}

fn change(id: &str, artifact: Option<RolloutThreadArtifact>) -> ArtifactChange {
    ArtifactChange { id: id.to_string(), artifact }
}

#[test]
fn create_thread_artifact_returns_thread_not_found_for_missing_thread() {
    let thread_id =
        ThreadId::from_string("00000000-0000-0000-0000-000000000123").expect("valid thread id");
    let err = writable_path_error(
        ThreadStoreError::InvalidRequest { message: "no rollout".to_string() },
        thread_id,
    );
    assert!(matches!(
        err,
        ThreadStoreError::ThreadNotFound { thread_id: missing_thread_id }
            if missing_thread_id == thread_id
    ));
}

#[test]
fn artifacts_are_what_was_last_written() {
    let records = vec![
        ArtifactRecord {
            thread_id: THREAD,
            changes: vec![change("a", Some(artifact(1))), change("b", Some(artifact(2)))],
        },
        ArtifactRecord { thread_id: OTHER, changes: vec![change("c", Some(artifact(3)))] },
        ArtifactRecord {
            thread_id: THREAD,
            changes: vec![change("b", None), change("a", Some(artifact(4)))],
        },
    ];
    let found = rollout_thread_artifacts("/r", THREAD, Ok(records)).expect("artifacts");
    assert_eq!(
        found,
        vec![StoredThreadArtifact {
            id: "a".to_string(),
            created_at: 4,
            artifact_type: "github/pull_request".to_string(),
            payload: r#"{"number":123}"#.to_string(),
        }]
    );
    assert_eq!(check_artifact_time(&found[0], THREAD), Ok(()));
    let late = StoredThreadArtifact { created_at: i64::MAX, ..found.into_iter().next().unwrap() };
    assert!(matches!(
        check_artifact_time(&late, THREAD),
        Err(ThreadStoreError::Internal { .. })
    ));
    assert_eq!(check_rollout_owner(THREAD, THREAD), Ok(()));
    assert!(matches!(
        check_rollout_owner(OTHER, THREAD),
        Err(ThreadStoreError::Internal { .. })
    ));
}

#[test]
fn lists_report_the_first_row_that_cannot_be_read() {
    let mut table = AutomationTable::new();
    for (id, at) in [("a", 10), ("b", 20)] {
        table
            .create_automation(&cron_create_params(THREAD, "/w"), id.to_string(), no_faults(), at)
            .expect("create");
    }
    let listed = table
        .list_automations(&vec![no_faults(), no_faults()])
        .expect("automations");
    let ids: Vec<&str> = listed.iter().map(|automation| automation.id.as_str()).collect();
    assert_eq!(ids, vec!["b", "a"]);
    table.rows[0].kind = "other".to_string();
    table.rows[1].status = "other".to_string();
    assert_eq!(
        table.list_automations(&vec![no_faults(), no_faults()]),
        Err("invalid automation status: other".to_string())
    );
    let cached = ThreadArtifact {
        thread_id: THREAD,
        id: "x".to_string(),
        created_at: 5,
        artifact_type: "note".to_string(),
        payload: "{}".to_string(),
    };
    assert_eq!(stored_artifact_from_state(cached).created_at, 5);
}

fn internal(message: &str) -> ThreadStoreError {
    ThreadStoreError::Internal { message: message.to_string() }
}

#[test]
fn created_artifacts_are_read_back() {
    let thread = "00000000-0000-0000-0000-000000000123";
    let record = created_record(THREAD, Ok(THREAD), "n".to_string(), artifact(7)).expect("record");
    let records = vec![
        ArtifactRecord { thread_id: THREAD, changes: vec![change("a", Some(artifact(1)))] },
        record,
        ArtifactRecord { thread_id: OTHER, changes: vec![change("n", None)] },
    ];
    let found = rollout_thread_artifacts("/r", THREAD, Ok(records)).expect("artifacts");
    let created = stored_artifact_from_rollout("n".to_string(), artifact(7));
    assert_eq!(found.len(), 2);
    assert_eq!(found[1], created);

    let cached = cached_artifact(&created, THREAD).expect("cached");
    assert_eq!(cached.thread_id, THREAD);
    assert_eq!(list_thread_artifacts(THREAD, Ok(Some(vec![cached]))), Ok(vec![created]));
    assert_eq!(list_thread_artifacts(THREAD, Ok(None)), Ok(Vec::new()));
    assert_eq!(
        list_thread_artifacts(THREAD, Err("locked".to_string())),
        Err(internal(&format!("failed to list thread artifacts for {thread}: locked")))
    );
}

#[test]
fn artifact_failures_tell_of_the_thread() {
    let thread = "00000000-0000-0000-0000-000000000123";
    assert_eq!(
        rollout_thread_artifacts("/r.jsonl", THREAD, Err("gone".to_string())),
        Err(internal(&format!("failed to read thread artifacts for {thread} from /r.jsonl: gone")))
    );
    assert_eq!(
        state_db_unavailable(THREAD),
        internal(&format!("sqlite state db unavailable for thread {thread}"))
    );
    assert_eq!(
        created_record(THREAD, Err("gone".to_string()), "n".to_string(), artifact(7)),
        Err(internal(&format!("failed to set thread artifacts for {thread}: gone")))
    );
    assert_eq!(
        created_record(THREAD, Ok(OTHER), "n".to_string(), artifact(7)),
        Err(internal(&format!(
            "failed to set thread artifacts: rollout session metadata id mismatch: expected {thread}, found 00000000-0000-0000-0000-000000000456"
        )))
    );
    assert_eq!(after_record_written(THREAD, Ok(())), Ok(()));
    assert_eq!(
        after_record_written(THREAD, Err("full".to_string())),
        Err(internal(&format!("failed to set thread artifacts for {thread}: full")))
    );
    let late = stored_artifact_from_rollout("n".to_string(), artifact(i64::MAX));
    assert_eq!(
        cached_artifact(&late, THREAD),
        Err(internal(&format!(
            "failed to cache thread artifact n for {thread}: invalid timestamp 9223372036854775807"
        )))
    );
    assert_eq!(after_cached(THREAD, Ok(true)), Ok(()));
    assert_eq!(
        after_cached(THREAD, Ok(false)),
        Err(ThreadStoreError::ThreadNotFound { thread_id: THREAD })
    );
    assert_eq!(
        after_cached(THREAD, Err("busy".to_string())),
        Err(internal(&format!("failed to cache thread artifact for {thread}: busy")))
    );
}
