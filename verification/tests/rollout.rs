use codex_core::ids::ThreadId;
use codex_core::moment::format_rfc3339;
use codex_core::moment::parse_dashed;
use codex_core::moment::parse_rfc3339;
use codex_core::moment::truncate_to_millis;
use codex_core::moment::Timestamp;
use codex_core::rollout::filename::archived_only_for_subdir;
use codex_core::rollout::filename::expected_rollout_path;
use codex_core::rollout::filename::ordered_session_subdirs;
use codex_core::rollout::filename::parse_rollout_file_name;
use codex_core::rollout::filename::parse_rollout_filename_timestamp;
use codex_core::rollout::filename::parse_timestamp_uuid_from_filename;
use codex_core::rollout::filename::rollout_created_at_from_path;
use codex_core::rollout::filename::rollout_date_parts;
use codex_core::rollout::filename::rollout_file_name;
use codex_core::rollout::filename::rollout_file_name_matches_uuid;
use codex_core::rollout::filename::rollout_id_from_entry_name;
use codex_core::rollout::filename::rollout_path_from_created_at;
use codex_core::rollout::filename::rollout_subdir_hint;
use codex_core::rollout::filename::CivilTime;
use codex_core::rollout::filename::SessionDir;
use codex_core::rollout::head::event_msg_preview;
use codex_core::rollout::head::read_head_for_summary;
use codex_core::rollout::head::read_head_summary;
use codex_core::rollout::head::read_session_meta_line;
use codex_core::rollout::head::session_meta_error;
use codex_core::rollout::head::strip_user_message_prefix;
use codex_core::rollout::head::GitMeta;
use codex_core::rollout::head::HeadLine;
use codex_core::rollout::head::HeadTailSummary;
use codex_core::rollout::head::MetaLine;
use codex_core::rollout::head::RolloutEvent;
use codex_core::rollout::head::RolloutRecord;
use codex_core::rollout::head::SessionMeta;
use codex_core::rollout::head::UserMessage;
use codex_core::rollout::listing::build_thread_item;
use codex_core::rollout::listing::empty_page;
use codex_core::rollout::listing::finish_latest_page;
use codex_core::rollout::listing::latest_by_updated_at;
use codex_core::rollout::listing::order_by_creation;
use codex_core::rollout::listing::order_candidates;
use codex_core::rollout::listing::order_date_dirs;
use codex_core::rollout::listing::parse_cursor;
use codex_core::rollout::listing::parse_dir_number;
use codex_core::rollout::listing::plan_listing;
use codex_core::rollout::listing::plan_latest_page;
use codex_core::rollout::listing::read_thread_item_from_rollout;
use codex_core::rollout::listing::take_day_files;
use codex_core::rollout::listing::traverse_candidates;
use codex_core::rollout::listing::Cursor;
use codex_core::rollout::listing::LatestPlan;
use codex_core::rollout::listing::ListPlan;
use codex_core::rollout::listing::Offer;
use codex_core::rollout::listing::PageScan;
use codex_core::rollout::listing::ProviderMatcher;
use codex_core::rollout::listing::ThreadCandidate;
use codex_core::rollout::listing::ThreadItem;
use codex_core::rollout::listing::ThreadListLayout;
use codex_core::rollout::listing::ThreadSortKey;
use codex_core::rollout::lookup::after_created_at;
use codex_core::rollout::lookup::after_created_at_in_any_subdir;
use codex_core::rollout::lookup::after_db;
use codex_core::rollout::lookup::after_filename_scan;
use codex_core::rollout::lookup::after_existing;
use codex_core::rollout::lookup::after_meta;
use codex_core::rollout::lookup::after_search;
use codex_core::rollout::lookup::after_search_in_any_subdir;
use codex_core::rollout::lookup::begin_in_any_subdir;
use codex_core::rollout::lookup::begin_in_subdir;
use codex_core::rollout::lookup::next_in_subdir;
use codex_core::rollout::lookup::next_in_any_subdir;
use codex_core::rollout::lookup::scan_error_is_reported;
use codex_core::rollout::lookup::AfterCheck;
use codex_core::rollout::lookup::AfterDb;
use codex_core::rollout::lookup::AfterScan;
use codex_core::rollout::lookup::Begin;
use codex_core::rollout::lookup::DbAnswer;
use codex_core::rollout::lookup::FallbackReason;
use codex_core::rollout::lookup::MetaAnswer;
use codex_core::rollout::lookup::Next;
use codex_core::rollout::lookup::PendingSearch;

const ID: u128 = 0x67e55044_10b1_426f_9247_bb680e5fe0c8;
const ID_TEXT: &str = "67e55044-10b1-426f-9247-bb680e5fe0c8";
const NAME: &str = "rollout-2025-05-07T17-24-21-67e55044-10b1-426f-9247-bb680e5fe0c8.jsonl";
const NANOS: i128 = 1_000_000_000;

// The 7th of May 2025 at 17:24:21.
const CREATED: i64 = 1_746_638_661;

fn at(seconds: i64) -> Timestamp {
    Timestamp::utc(seconds as i128 * NANOS)
}

fn civil() -> CivilTime {
    CivilTime { year: 2025, month: 5, day: 7, hour: 17, minute: 24, second: 21 }
}

#[test]
fn rollout_files_are_named_by_time_and_id() {
    assert_eq!(rollout_file_name(civil(), ID), NAME);
    assert_eq!(parse_timestamp_uuid_from_filename(NAME), Some((at(CREATED), ID)));
    assert_eq!(parse_rollout_filename_timestamp("2025-05-07T17-24-21"), Some(CREATED));
    assert_eq!(parse_rollout_filename_timestamp("2025-02-30T17-24-21"), None);
    assert_eq!(parse_timestamp_uuid_from_filename("rollout-x.jsonl"), None);
    assert_eq!(parse_rollout_file_name(NAME).as_deref(), Some(NAME));
    assert_eq!(
        parse_rollout_file_name(&format!("{NAME}.zst")).as_deref(),
        Some(NAME)
    );
    assert_eq!(rollout_id_from_entry_name(NAME), Some((ID, true)));
    assert_eq!(rollout_id_from_entry_name(&format!("{NAME}.zst")), Some((ID, false)));
    assert_eq!(rollout_id_from_entry_name("notes.txt"), None);
    assert!(rollout_file_name_matches_uuid(&format!("/s/{NAME}"), ID));
    assert!(!rollout_file_name_matches_uuid(&format!("/s/{NAME}"), ID + 1));
    assert_eq!(rollout_created_at_from_path(&format!("/s/{NAME}")), at(CREATED));
}

#[test]
fn rollout_paths_lead_through_the_date() {
    assert_eq!(
        expected_rollout_path("/home", "sessions", civil(), ID),
        format!("/home/sessions/2025/05/07/{NAME}")
    );
    assert_eq!(
        rollout_date_parts(NAME),
        Some(("2025".to_string(), "05".to_string(), "07".to_string()))
    );
    let path = rollout_path_from_created_at("/home", "sessions", CREATED, ID).expect("path");
    assert!(path.starts_with("/home/sessions/2025/05/0"));
    assert!(path.ends_with(&format!("{ID_TEXT}.jsonl")));
    assert_eq!(rollout_path_from_created_at("/home", "sessions", i64::MAX, ID), None);
}

#[test]
fn folders_of_sessions_are_told_apart() {
    assert_eq!(archived_only_for_subdir("sessions"), Some(false));
    assert_eq!(archived_only_for_subdir("archived_sessions"), Some(true));
    assert_eq!(archived_only_for_subdir("other"), None);
    assert_eq!(SessionDir::Archived.subdir(), "archived_sessions");
    assert!(SessionDir::Archived.archived());
    assert_eq!(
        rollout_subdir_hint("/home", "/home/archived_sessions/x.jsonl"),
        Some(SessionDir::Archived)
    );
    assert_eq!(rollout_subdir_hint("/home", "/elsewhere/x.jsonl"), None);
    assert_eq!(
        ordered_session_subdirs(Some(SessionDir::Archived)),
        vec![SessionDir::Archived, SessionDir::Active]
    );
    assert_eq!(
        ordered_session_subdirs(None),
        vec![SessionDir::Active, SessionDir::Archived]
    );
}

#[test]
fn identifiers_and_times_are_read_back() {
    let id = ThreadId::from_string(ID_TEXT).expect("identifier");
    assert_eq!((id, id.text().as_str()), (ThreadId { value: ID }, ID_TEXT));
    assert_eq!(ThreadId::from_u128(ID), id);
    let error = ThreadId::from_string("67e55044").expect_err("no identifier");
    assert!(error.contains("invalid length"), "{error}");
    let text = format_rfc3339(at(CREATED)).expect("text");
    assert_eq!(text, "2025-05-07T17:24:21Z");
    assert_eq!(parse_rfc3339(&text), Some(at(CREATED)));
    let shifted = parse_rfc3339("2025-05-07T19:24:21.5+02:00").expect("time");
    assert_eq!(shifted.offset_seconds, 7_200);
    assert_eq!(shifted.nanos, CREATED as i128 * NANOS + NANOS / 2);
    assert_eq!(parse_rfc3339("yesterday"), None);
    assert_eq!(parse_dashed("2025-05-07T17-24-21"), Some(at(CREATED)));
    assert_eq!(
        truncate_to_millis(Timestamp::utc(1_999_999)),
        Timestamp::utc(1_000_000)
    );
    assert_eq!(truncate_to_millis(Timestamp::utc(-1)), Timestamp::utc(-1_000_000));
}

fn meta(id: u128) -> SessionMeta {
    SessionMeta {
        id: ThreadId { value: id },
        timestamp: "2025-05-07T17:24:21Z".to_string(),
        cwd: "/work".to_string(),
        source: "cli".to_string(),
        parent_thread_id: None,
        agent_nickname: None,
        agent_role: None,
        model_provider: Some("openai".to_string()),
        cli_version: "1.0.0".to_string(),
        git: Some(GitMeta {
            branch: Some("main".to_string()),
            commit_hash: Some("abc".to_string()),
            repository_url: None,
        }),
    }
}

fn user(message: &str) -> HeadLine {
    HeadLine::Record(RolloutRecord::Event(RolloutEvent::UserMessage(UserMessage {
        message: message.to_string(),
        image_count: 0,
        local_image_count: 0,
    })))
}

fn session() -> HeadLine {
    HeadLine::Record(RolloutRecord::SessionMeta(meta(ID)))
}

#[test]
fn heads_of_rollouts_are_summed_up() {
    let summary = read_head_summary(
        vec![
            HeadLine::Blank,
            session(),
            HeadLine::Unreadable,
            HeadLine::Record(RolloutRecord::TurnContext),
            user("## My request for Codex:\n fix it"),
            user("later"),
        ],
        10,
    );
    assert!(summary.saw_session_meta);
    assert_eq!(summary.thread_id, Some(ThreadId { value: ID }));
    assert_eq!(summary.first_user_message.as_deref(), Some("fix it"));
    assert_eq!(summary.preview.as_deref(), Some("fix it"));
    assert_eq!(summary.git_branch.as_deref(), Some("main"));
    assert_eq!(summary.created_at.as_deref(), Some("2025-05-07T17:24:21Z"));
    let mut lines = vec![session()];
    for _ in 0..250 {
        lines.push(HeadLine::Record(RolloutRecord::ResponseItem));
    }
    lines.push(user("too late"));
    assert_eq!(read_head_summary(lines, 10).first_user_message, None);
    assert_eq!(read_head_summary(Vec::new(), 10), HeadTailSummary::empty());
}

#[test]
fn previews_come_from_messages_and_goals() {
    assert_eq!(strip_user_message_prefix("a ## My request for Codex: b "), "b");
    assert_eq!(strip_user_message_prefix(" plain "), "plain");
    assert_eq!(
        event_msg_preview(&RolloutEvent::ThreadGoalUpdated { objective: "ship".to_string() })
            .as_deref(),
        Some("ship")
    );
    assert_eq!(event_msg_preview(&RolloutEvent::Other), None);
    let images = RolloutEvent::UserMessage(UserMessage {
        message: String::new(),
        image_count: 1,
        local_image_count: 0,
    });
    assert_eq!(event_msg_preview(&images).as_deref(), Some("[Image]"));
}

#[test]
fn session_lines_stand_at_the_start() {
    let found = read_session_meta_line(vec![HeadLine::Blank, session(), user("x")]);
    assert_eq!(found, MetaLine::Found(meta(ID)));
    assert_eq!(session_meta_error("/r", &found), None);
    let found = read_session_meta_line(vec![user("x"), session()]);
    assert_eq!(found, MetaLine::Found(meta(ID)));
    let found = read_session_meta_line(vec![
        HeadLine::Record(RolloutRecord::ResponseItem),
        session(),
    ]);
    assert_eq!(found, MetaLine::NotAtStart);
    assert!(session_meta_error("/r", &found).is_some());
    assert_eq!(read_session_meta_line(Vec::new()), MetaLine::Empty);
    assert!(session_meta_error("/r", &MetaLine::Empty).is_some());
}

fn summary() -> HeadTailSummary {
    read_head_summary(vec![session(), user("hello")], 10)
}

fn path_at(second: u8) -> String {
    let created = CivilTime { year: 1970, month: 1, day: 1, hour: 0, minute: 0, second };
    format!("/s/{}", rollout_file_name(created, ID))
}

fn item(created: u8) -> ThreadItem {
    let mut item =
        read_thread_item_from_rollout(path_at(created), summary()).expect("thread item");
    let created = i64::from(created);
    item.updated_at = format_rfc3339(at(created));
    item
}

#[test]
fn items_are_created_when_their_file_names_say() {
    let item = read_thread_item_from_rollout(path_at(40), summary()).expect("thread item");
    assert_eq!(summary().created_at.as_deref(), Some("2025-05-07T17:24:21Z"));
    assert_eq!(item.created_at.as_deref(), Some("1970-01-01T00:00:40Z"));
    assert_eq!(item.updated_at, item.created_at);
    assert_eq!(item.path, path_at(40));
    let unnamed = read_thread_item_from_rollout("/p".to_string(), summary()).expect("thread item");
    assert_eq!(unnamed.created_at, None);
}

#[test]
fn items_are_filtered_by_source_provider_and_folder() {
    let sources = vec!["cli".to_string()];
    let build = |sources: &Vec<String>, matcher: Option<&ProviderMatcher>, hits: Option<&Vec<bool>>| {
        build_thread_item("/p".to_string(), summary(), sources, matcher, hits, None)
    };
    assert!(build(&sources, None, None).is_some());
    assert!(build(&Vec::new(), None, None).is_some());
    assert!(build(&vec!["vscode".to_string()], None, None).is_none());
    let openai = ProviderMatcher::new(&vec!["openai".to_string()], "openai").expect("matcher");
    let other = ProviderMatcher::new(&vec!["other".to_string()], "openai").expect("matcher");
    assert!(build(&sources, Some(&openai), None).is_some());
    assert!(build(&sources, Some(&other), None).is_none());
    assert!(openai.matches(&None));
    assert!(!other.matches(&None));
    assert!(ProviderMatcher::new(&Vec::new(), "openai").is_none());
    assert!(build(&sources, None, Some(&vec![false, true])).is_some());
    assert!(build(&sources, None, Some(&vec![false])).is_none());
    assert!(build_thread_item(
        "/p".to_string(),
        HeadTailSummary::empty(),
        &sources,
        None,
        None,
        None
    )
    .is_none());
}

fn page_of(anchor: Option<Cursor>, page_size: usize) -> (Vec<String>, Option<Cursor>) {
    let stamps = vec![at(40), at(30), at(20), at(10)];
    let built = vec![
        Some(item(40)),
        None,
        Some(item(20)),
        Some(item(10)),
    ];
    let page = traverse_candidates(
        &stamps,
        built,
        anchor,
        page_size,
        4,
        ThreadSortKey::CreatedAt,
    );
    let paths = page.items.into_iter().map(|item| item.path).collect();
    (paths, page.next_cursor)
}

#[test]
fn pages_go_on_where_the_last_one_ended() {
    let (paths, cursor) = page_of(None, 2);
    assert_eq!(paths, vec![path_at(40), path_at(20)]);
    let cursor = cursor.expect("cursor");
    assert_eq!(cursor.timestamp(), at(20));
    let (paths, cursor) = page_of(Some(cursor), 2);
    assert_eq!(paths, vec![path_at(10)]);
    assert_eq!(cursor, None);
    let token = Cursor::new(at(20)).token().expect("token");
    assert_eq!(parse_cursor(&token), Some(Cursor::new(at(20))));
    assert_eq!(parse_cursor("nonsense"), None);
    assert!(empty_page().items.is_empty());
}

fn candidate(path: &str, id: u128, updated: Option<i64>) -> ThreadCandidate {
    ThreadCandidate { path: path.to_string(), id, updated_at: updated.map(at) }
}

#[test]
fn newest_candidates_come_first() {
    let ordered = order_candidates(vec![
        candidate("a", 1, Some(10)),
        candidate("b", 2, None),
        candidate("c", 3, Some(10)),
        candidate("d", 4, Some(20)),
    ]);
    let paths: Vec<&str> = ordered.iter().map(|c| c.path.as_str()).collect();
    assert_eq!(paths, vec!["d", "c", "a", "b"]);
    let scan = latest_by_updated_at(vec![
        candidate("a", 1, Some(10)),
        candidate("d", 4, Some(20)),
        candidate("b", 2, None),
    ]);
    assert_eq!(scan.scanned_files, 3);
    assert!(scan.saw_more_candidates);
    assert_eq!(scan.candidate.as_ref().map(|c| c.path.as_str()), Some("d"));
    let LatestPlan::Build { path, .. } = plan_latest_page(scan, ThreadListLayout::NestedByDate) else {
        panic!("the latest thread should be built");
    };
    assert_eq!(path, "d");
    let page = finish_latest_page(Some(item(20)), true, 3).expect("page");
    assert_eq!(page.items.len(), 1);
    assert!(page.next_cursor.is_some());
    assert_eq!(finish_latest_page(None, true, 3), None);
    assert_eq!(parse_dir_number("05", u64::from(u8::MAX)), Some(5));
    assert_eq!(parse_dir_number("x", u64::from(u8::MAX)), None);
}

#[test]
fn lookups_ask_the_database_first() {
    let id = ThreadId { value: ID };
    assert_eq!(begin_in_subdir("nonsense", "sessions", true), Begin::Invalid);
    assert_eq!(
        begin_in_subdir(ID_TEXT, "sessions", true),
        Begin::QueryDb { thread_id: id, archived_only: Some(false) }
    );
    assert_eq!(
        begin_in_any_subdir(ID_TEXT, true),
        Begin::QueryDb { thread_id: id, archived_only: None }
    );
    let Begin::Search { pending, .. } = begin_in_subdir(ID_TEXT, "sessions", false) else {
        panic!("files should be searched");
    };
    assert_eq!(pending.reason, Some(FallbackReason::DbUnavailable));
    let AfterDb::Search(pending) = after_db(DbAnswer::Missing) else {
        panic!("files should be searched");
    };
    assert_eq!(pending.reason, Some(FallbackReason::MissingRow));
    assert!(matches!(
        after_db(DbAnswer::Row { path: "/p".to_string(), created_at: 1 }),
        AfterDb::CheckExisting { .. }
    ));
}

#[test]
fn rows_are_trusted_as_far_as_their_file_goes() {
    let id = ThreadId { value: ID };
    assert!(matches!(
        after_existing(None),
        AfterCheck::Distrust { record: FallbackReason::StalePath }
    ));
    let read = after_existing(Some("/p".to_string()));
    assert!(matches!(read, AfterCheck::ReadMeta { .. }));
    let found = after_meta(id, "/p".to_string(), MetaAnswer::Owner(id));
    let Some(Next::Done(end)) = next_in_subdir(found) else {
        panic!("the path should be found");
    };
    assert_eq!(end.path.as_deref(), Some("/p"));
    assert!(matches!(
        after_meta(id, "/p".to_string(), MetaAnswer::Owner(ThreadId { value: 1 })),
        AfterCheck::Distrust { record: FallbackReason::Mismatch }
    ));
    assert!(matches!(
        after_meta(id, "/p".to_string(), MetaAnswer::Unreadable),
        AfterCheck::Unverified { .. }
    ));
}

#[test]
fn searches_repair_the_row() {
    let pending = || PendingSearch { unverified: None, reason: Some(FallbackReason::StalePath) };
    let end = after_search(Some("/found".to_string()), pending());
    assert_eq!(end.path.as_deref(), Some("/found"));
    assert_eq!(end.repair.as_deref(), Some("/found"));
    assert_eq!(end.record, Some(FallbackReason::StalePath));
    let Next::Done(end) = after_created_at(Some(("/guess".to_string(), true)), pending()) else {
        panic!("the guess is right");
    };
    assert_eq!(end.path.as_deref(), Some("/guess"));
    assert!(matches!(after_created_at(None, pending()), Next::Search(_)));
    let (end, archived) = after_search_in_any_subdir(
        None,
        None,
        Some("/archived".to_string()),
        pending(),
    );
    assert_eq!((end.path.as_deref(), archived), (Some("/archived"), Some(true)));
    assert_eq!(FallbackReason::DbError.as_str(), "db_error");
}

#[test]
fn files_are_ordered_by_creation_and_capped() {
    let files = || {
        vec![
            candidate(&path_at(10), 1, None),
            candidate(&path_at(30), 2, None),
            candidate(&path_at(10), 3, None),
        ]
    };
    let ids = |files: Vec<ThreadCandidate>| files.iter().map(|c| c.id).collect::<Vec<_>>();
    assert_eq!(ids(order_by_creation(files())), vec![2, 3, 1]);
    assert_eq!(ids(take_day_files(files(), 0)), vec![1, 2, 3]);
    assert_eq!(ids(take_day_files(files(), 9_998)), vec![2, 3]);
    assert!(take_day_files(files(), 10_000).is_empty());
    let names: Vec<String> = ["2024", "x", "2026", "70000", "2025"]
        .iter()
        .map(|name| name.to_string())
        .collect();
    assert_eq!(
        order_date_dirs(&names, u64::from(u16::MAX)),
        vec!["2026".to_string(), "2025".to_string(), "2024".to_string()]
    );
}

#[test]
fn heads_hold_ten_records() {
    let mut lines = vec![HeadLine::Blank, session(), user("x"), HeadLine::Unreadable];
    for _ in 0..20 {
        lines.push(HeadLine::Record(RolloutRecord::ResponseItem));
    }
    assert_eq!(
        read_head_for_summary(&lines),
        vec![1, 4, 5, 6, 7, 8, 9, 10, 11, 12]
    );
    assert!(read_head_for_summary(&Vec::new()).is_empty());
}

#[test]
fn lists_are_planned_by_their_order() {
    let plan = plan_listing;
    assert_eq!(plan(false, 1, None, ThreadSortKey::UpdatedAt), ListPlan::Nothing);
    assert_eq!(plan(true, 1, None, ThreadSortKey::UpdatedAt), ListPlan::LatestFirst);
    assert_eq!(plan(true, 2, None, ThreadSortKey::UpdatedAt), ListPlan::ByUpdate);
    assert_eq!(
        plan(true, 1, Some(Cursor::new(at(1))), ThreadSortKey::UpdatedAt),
        ListPlan::ByUpdate
    );
    assert_eq!(plan(true, 1, None, ThreadSortKey::CreatedAt), ListPlan::ByCreation);
}

#[test]
fn walks_stop_at_the_cap() {
    let mut scan = PageScan::new(None, 1);
    assert_eq!(scan.visit(at(30), 1), Offer::Build);
    scan.accept(Some(item(30)));
    assert!(scan.is_full());
    assert_eq!(scan.visit(at(20), 10_000), Offer::Stop);
    let page = scan.finish(10_000, ThreadSortKey::CreatedAt);
    assert!(page.reached_scan_cap);
    assert_eq!(page.next_cursor, Some(Cursor::new(at(30))));
    let mut scan = PageScan::new(Some(Cursor::new(at(20))), 1);
    assert_eq!(scan.visit(at(20), 1), Offer::Skip);
    assert_eq!(scan.visit(at(10), 2), Offer::Build);
}

#[test]
fn any_folder_is_searched_the_likelier_one_first() {
    let id = ThreadId { value: ID };
    let found = after_meta(id, "/p".to_string(), MetaAnswer::Owner(id));
    assert!(matches!(next_in_any_subdir(found, None), Some(Next::Done(_))));
    let pending = || PendingSearch { unverified: None, reason: Some(FallbackReason::Mismatch) };
    assert!(matches!(
        after_created_at_in_any_subdir(Some(("/guess".to_string(), true)), pending()),
        Next::Done(_)
    ));
    assert!(matches!(after_created_at_in_any_subdir(None, pending()), Next::Search(_)));
    assert_eq!(
        after_filename_scan(Some("/x".to_string())),
        AfterScan::Found("/x".to_string())
    );
    assert_eq!(after_filename_scan(None), AfterScan::FuzzySearch);
    assert!(scan_error_is_reported(true, &None));
    assert!(!scan_error_is_reported(true, &Some("/x".to_string())));
}
