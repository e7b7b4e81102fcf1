//! The table of automations and the rules for changing it.

use vstd::prelude::*;

use crate::ids;
use crate::ids::ThreadId;
use crate::json;
use crate::paths;
use crate::state::automation;
use crate::state::automation::Automation;
use crate::state::automation::AutomationRow;
use crate::state::automation::AutomationStatus;
use crate::state::automation::AutomationTarget;
use crate::state::automation::ColumnFaults;
use crate::state::automation::DispatchColumns;
use crate::state::schedule;
use crate::state::schedule::AutomationKind;
use crate::state::schedule::AutomationSchedule;
use crate::text;

verus! {

/// The most characters of an automation's name.
pub const AUTOMATION_NAME_MAX_CHARS: usize = 256;

/// The most characters of an automation's prompt.
pub const AUTOMATION_PROMPT_MAX_CHARS: usize = 2_000;

/// The settings that a scheduled run is to start with. The last three are the
/// JSON that their owners make of them.
#[derive(Debug, PartialEq, Eq)]
pub struct DispatchSettingsParams {
    pub workspace_roots: Vec<String>,
    pub approval_policy: String,
    pub approvals_reviewer: String,
    pub permission_profile: String,
}

/// What a new automation is to be.
#[derive(Debug, PartialEq, Eq)]
pub struct AutomationCreateParams {
    pub owner_thread_id: ThreadId,
    pub name: String,
    pub prompt: String,
    pub status: AutomationStatus,
    pub rrule: Option<String>,
    pub model: Option<String>,
    pub reasoning_effort: Option<String>,
    pub target: AutomationTarget,
    pub dispatch_settings: Option<DispatchSettingsParams>,
}

/// What an automation is to become.
#[derive(Debug, PartialEq, Eq)]
pub struct AutomationUpdateParams {
    pub id: String,
    pub owner_thread_id: ThreadId,
    pub name: String,
    pub prompt: String,
    pub status: AutomationStatus,
    pub rrule: Option<String>,
    pub model: Option<String>,
    pub reasoning_effort: Option<String>,
    pub target: AutomationTarget,
    pub dispatch_settings: Option<DispatchSettingsParams>,
}

/// The parts that creation and update share.
pub open spec fn draft_of(p: AutomationUpdateParams) -> AutomationCreateParams {
    AutomationCreateParams {
        owner_thread_id: p.owner_thread_id,
        name: p.name,
        prompt: p.prompt,
        status: p.status,
        rrule: p.rrule,
        model: p.model,
        reasoning_effort: p.reasoning_effort,
        target: p.target,
        dispatch_settings: p.dispatch_settings,
    }
}

// ---------------------------------------------------------------------
// Parameters
// ---------------------------------------------------------------------

/// The first directory that is not absolute.
pub open spec fn relative_cwd(cwds: Seq<Seq<char>>) -> Option<Seq<char>>
    decreases cwds.len(),
{
    if cwds.len() == 0 {
        None
    } else if relative_cwd(cwds.drop_last()) is Some {
        relative_cwd(cwds.drop_last())
    } else if !paths::absolute(cwds.last()) {
        Some(cwds.last())
    } else {
        None
    }
}

/// What is wrong with the parameters of an automation, if anything.
pub open spec fn params_fault(name: Seq<char>, prompt: Seq<char>, target: automation::Target, has_dispatch: bool) -> Option<
    Seq<char>,
> {
    if text::trimmed(name).len() == 0 {
        Some("automation name is required"@)
    } else if text::trimmed(name).len() > AUTOMATION_NAME_MAX_CHARS {
        Some("automation name is too long"@)
    } else if text::trimmed(prompt).len() == 0 {
        Some("automation prompt is required"@)
    } else if text::trimmed(prompt).len() > AUTOMATION_PROMPT_MAX_CHARS {
        Some("automation prompt is too long"@)
    } else {
        match target {
            automation::Target::Cron(cwds) => if cwds.len() == 0 {
                Some("cron automations require at least one cwd"@)
            } else {
                match relative_cwd(cwds) {
                    Some(cwd) => Some("cron automation cwd must be absolute: "@ + cwd),
                    None => None,
                }
            },
            automation::Target::Heartbeat(_) => if has_dispatch {
                Some("heartbeat automations do not use dispatch settings"@)
            } else {
                None
            },
        }
    }
}

proof fn lemma_relative_stays(cwds: Seq<Seq<char>>, n: int)
    requires
        0 <= n <= cwds.len(),
        relative_cwd(cwds.take(n)) is Some,
    ensures
        relative_cwd(cwds) == relative_cwd(cwds.take(n)),
    decreases cwds.len(),
{
    if n < cwds.len() {
        assert(cwds.drop_last().take(n) =~= cwds.take(n));
        lemma_relative_stays(cwds.drop_last(), n);
    } else {
        assert(cwds.take(n) =~= cwds);
    }
}

fn check_cwds(cwds: &Vec<String>) -> (r: Result<(), String>)
    ensures
        match r {
            Ok(_) => relative_cwd(text::views(cwds@)) is None,
            Err(e) => relative_cwd(text::views(cwds@)) is Some && e@ == "cron automation cwd must be absolute: "@
                + relative_cwd(text::views(cwds@))->0,
        },
{
    let ghost all = text::views(cwds@);
    let mut i: usize = 0;
    assert(all.take(0) =~= Seq::<Seq<char>>::empty());
    while i < cwds.len()
        invariant
            i <= cwds.len(),
            all == text::views(cwds@),
            relative_cwd(all.take(i as int)) is None,
        decreases cwds.len() - i,
    {
        proof {
            assert(all.take(i + 1).drop_last() =~= all.take(i as int));
            assert(all.take(i + 1).last() == cwds@[i as int]@);
        }
        if !paths::is_absolute(cwds[i].as_str()) {
            let mut message: String = "cron automation cwd must be absolute: ".to_owned();
            message.push_str(cwds[i].as_str());
            proof {
                lemma_relative_stays(all, i + 1);
            }
            return Err(message);
        }
        i = i + 1;
    }
    assert(all.take(all.len() as int) =~= all);
    Ok(())
}

/// Requires parameters without a fault.
pub fn validate_automation_params(name: &str, prompt: &str, target: &AutomationTarget, has_dispatch: bool) -> (r: Result<
    (),
    String,
>)
    ensures
        match r {
            Ok(_) => params_fault(name@, prompt@, target@, has_dispatch) is None,
            Err(e) => params_fault(name@, prompt@, target@, has_dispatch) == Some(e@),
        },
{
    let name = text::char_vec(text::trim(name).as_str());
    if name.len() == 0 {
        return Err("automation name is required".to_owned());
    }
    if name.len() > AUTOMATION_NAME_MAX_CHARS {
        return Err("automation name is too long".to_owned());
    }
    let prompt = text::char_vec(text::trim(prompt).as_str());
    if prompt.len() == 0 {
        return Err("automation prompt is required".to_owned());
    }
    if prompt.len() > AUTOMATION_PROMPT_MAX_CHARS {
        return Err("automation prompt is too long".to_owned());
    }
    match target {
        AutomationTarget::Cron { cwds } => {
            if cwds.len() == 0 {
                return Err("cron automations require at least one cwd".to_owned());
            }
            check_cwds(cwds)
        },
        AutomationTarget::Heartbeat { thread_id: _ } => if has_dispatch {
            Err("heartbeat automations do not use dispatch settings".to_owned())
        } else {
            Ok(())
        },
    }
}

/// The text without white space around it, where anything is left.
pub open spec fn trimmed_option(v: Option<Seq<char>>) -> Option<Seq<char>> {
    match v {
        Some(s) => if text::trimmed(s).len() == 0 {
            None
        } else {
            Some(text::trimmed(s))
        },
        None => None,
    }
}

/// The text without white space around it, where anything is left.
pub fn trim_to_option(value: &Option<String>) -> (r: Option<String>)
    ensures
        text::opt_view(r) == trimmed_option(text::opt_view(*value)),
{
    match value {
        Some(s) => {
            let t = text::trim(s.as_str());
            if t.as_str().is_empty() {
                None
            } else {
                Some(t)
            }
        },
        None => None,
    }
}

/// The rule of an automation: its own, or else the default.
pub open spec fn resolved_rrule(rrule: Option<Seq<char>>) -> Seq<char> {
    match trimmed_option(rrule) {
        Some(r) => r,
        None => automation::DEFAULT_AUTOMATION_RRULE@,
    }
}

/// The rule of an automation: its own, or else the default.
pub fn resolve_automation_rrule(rrule: &Option<String>) -> (r: String)
    ensures
        r@ == resolved_rrule(text::opt_view(*rrule)),
{
    match trim_to_option(rrule) {
        Some(r) => r,
        None => automation::DEFAULT_AUTOMATION_RRULE.to_owned(),
    }
}

/// The next run of an automation: none of one that is paused. The rule is read
/// in either case.
pub open spec fn planned_run(
    id: Seq<char>,
    kind: AutomationKind,
    status: AutomationStatus,
    rrule: Seq<char>,
    last_run_at: Option<i64>,
    now: int,
) -> Result<Option<int>, Seq<char>> {
    match schedule::rule_schedule(rrule) {
        Err(e) => Err(e),
        Ok(s) => match status {
            AutomationStatus::Paused => Ok(None),
            AutomationStatus::Active => schedule::next_run(kind, id, s, last_run_at, now),
        },
    }
}

/// The next run of an automation.
pub fn next_run_at_for(
    automation_id: &str,
    kind: AutomationKind,
    status: AutomationStatus,
    rrule: &str,
    last_run_at: Option<i64>,
    now: i64,
) -> (r: Result<Option<i64>, String>)
    requires
        schedule::in_calendar(now as int),
    ensures
        schedule::is_next_run(r, planned_run(automation_id@, kind, status, rrule@, last_run_at, now as int)),
{
    let schedule = match AutomationSchedule::parse(rrule) {
        Ok(schedule) => schedule,
        Err(e) => return Err(e),
    };
    proof {
        schedule::law_parsed_schedule_is_sound(rrule@);
    }
    match status {
        AutomationStatus::Paused => Ok(None),
        AutomationStatus::Active => schedule::compute_next_run_at(kind, automation_id, &schedule, last_run_at, now),
    }
}

// ---------------------------------------------------------------------
// Rows
// ---------------------------------------------------------------------

/// The JSON of the directories of a cron automation.
pub open spec fn cwds_text(target: automation::Target) -> Option<Seq<char>> {
    match target {
        automation::Target::Cron(cwds) => Some(json::json_list_text(cwds)),
        automation::Target::Heartbeat(_) => None,
    }
}

/// The text of the thread of a heartbeat.
pub open spec fn thread_text(target: automation::Target) -> Option<Seq<char>> {
    match target {
        automation::Target::Cron(_) => None,
        automation::Target::Heartbeat(id) => Some(ids::uuid_text(id.value)),
    }
}

/// The JSON of the directories of a cron automation.
pub fn cron_cwds_json(target: &AutomationTarget) -> (r: Option<String>)
    ensures
        text::opt_view(r) == cwds_text(target@),
        target@ matches automation::Target::Cron(cwds) ==> json::json_strings(r->0@) == json::read_as(cwds),
{
    match target {
        AutomationTarget::Cron { cwds } => Some(json::format_json_strings(cwds)),
        AutomationTarget::Heartbeat { thread_id: _ } => None,
    }
}

/// The text of the thread of a heartbeat.
pub fn target_thread_id(target: &AutomationTarget) -> (r: Option<String>)
    ensures
        text::opt_view(r) == thread_text(target@),
        target@ matches automation::Target::Heartbeat(id) ==> ids::uuid_value(r->0@) == Some(id.value),
{
    match target {
        AutomationTarget::Cron { cwds: _ } => None,
        AutomationTarget::Heartbeat { thread_id } => Some(thread_id.text()),
    }
}

/// Whether the columns that creation and update write hold the parameters.
pub open spec fn holds(row: AutomationRow, p: AutomationCreateParams) -> bool {
    &&& row.owner_thread_id@ == ids::uuid_text(p.owner_thread_id.value)
    &&& row.name@ == text::trimmed(p.name@)
    &&& row.prompt@ == text::trimmed(p.prompt@)
    &&& row.status@ == p.status.name()
    &&& row.rrule@ == resolved_rrule(text::opt_view(p.rrule))
    &&& text::opt_view(row.model) == trimmed_option(text::opt_view(p.model))
    &&& row.reasoning_effort == p.reasoning_effort
    &&& text::opt_view(row.cron_cwds_json) == cwds_text(p.target@)
    &&& text::opt_view(row.target_thread_id) == thread_text(p.target@)
    &&& match p.dispatch_settings {
        Some(s) => {
            &&& text::opt_view(row.dispatch_workspace_roots_json) == Some(
                json::json_list_text(text::views(s.workspace_roots@)),
            )
            &&& row.dispatch_approval_policy_json == Some(s.approval_policy)
            &&& row.dispatch_approvals_reviewer_json == Some(s.approvals_reviewer)
            &&& row.dispatch_permission_profile_json == Some(s.permission_profile)
        },
        None => {
            &&& row.dispatch_workspace_roots_json is None
            &&& row.dispatch_approval_policy_json is None
            &&& row.dispatch_approvals_reviewer_json is None
            &&& row.dispatch_permission_profile_json is None
        },
    }
}

/// Whether a row can be read back as the parameters it was written from.
pub open spec fn reads_back(row: AutomationRow, p: AutomationCreateParams) -> bool {
    &&& ids::uuid_value(row.owner_thread_id@) == Some(p.owner_thread_id.value)
    &&& AutomationKind::named(row.kind@) == Some(p.target.kind_of())
    &&& AutomationStatus::named(row.status@) == Some(p.status)
    &&& automation::target_fault(row, p.target.kind_of()) is None
    &&& automation::row_target(row) == p.target@
    &&& p.dispatch_settings matches Some(s) ==> row.dispatch_workspace_roots_json is Some && json::json_paths(
        row.dispatch_workspace_roots_json->0@,
    ) == json::read_as(text::views(s.workspace_roots@))
}

/// The row that the parameters are written to.
fn write_row(
    p: &AutomationCreateParams,
    id: String,
    rrule: String,
    next_run_at: Option<i64>,
    last_run_at: Option<i64>,
    created_at: i64,
    updated_at: i64,
    dispatch: DispatchColumns,
) -> (r: AutomationRow)
    requires
        rrule@ == resolved_rrule(text::opt_view(p.rrule)),
    ensures
        holds(r, *p),
        reads_back(r, *p),
        r.id == id,
        r.kind@ == p.target.kind_of().name(),
        r.rrule == rrule,
        r.next_run_at == next_run_at,
        r.last_run_at == last_run_at,
        r.created_at == created_at,
        r.updated_at == updated_at,
        r.dispatch == dispatch,
{
    let kind = p.target.kind().as_str().to_owned();
    let status = p.status.as_str().to_owned();
    let (roots, policy, reviewer, profile) = match &p.dispatch_settings {
        Some(s) => (
            Some(json::format_json_strings(&s.workspace_roots)),
            Some(s.approval_policy.clone()),
            Some(s.approvals_reviewer.clone()),
            Some(s.permission_profile.clone()),
        ),
        None => (None, None, None, None),
    };
    AutomationRow {
        id,
        owner_thread_id: p.owner_thread_id.text(),
        kind,
        name: text::trim(p.name.as_str()),
        prompt: text::trim(p.prompt.as_str()),
        status,
        rrule,
        next_run_at,
        last_run_at,
        created_at,
        updated_at,
        model: trim_to_option(&p.model),
        reasoning_effort: text::clone_opt(&p.reasoning_effort),
        cron_cwds_json: cron_cwds_json(&p.target),
        target_thread_id: target_thread_id(&p.target),
        dispatch_workspace_roots_json: roots,
        dispatch_approval_policy_json: policy,
        dispatch_approvals_reviewer_json: reviewer,
        dispatch_permission_profile_json: profile,
        dispatch,
    }
}

fn clone_dispatch(d: &DispatchColumns) -> (r: DispatchColumns)
    ensures
        r == *d,
{
    DispatchColumns {
        claimed_by: text::clone_opt(&d.claimed_by),
        ownership_token: text::clone_opt(&d.ownership_token),
        lease_until: d.lease_until,
        in_flight_run_at: d.in_flight_run_at,
        in_flight_dispatch_mode: text::clone_opt(&d.in_flight_dispatch_mode),
        dispatch_cwd_index: d.dispatch_cwd_index,
        retry_at: d.retry_at,
        attempt_count: d.attempt_count,
        last_error: text::clone_opt(&d.last_error),
        last_dispatch_succeeded: d.last_dispatch_succeeded,
        last_dispatch_started_at: d.last_dispatch_started_at,
        last_dispatch_completed_at: d.last_dispatch_completed_at,
        last_dispatch_failed_at: d.last_dispatch_failed_at,
    }
}

/// A copy of a row.
pub fn clone_row(row: &AutomationRow) -> (r: AutomationRow)
    ensures
        r == *row,
{
    AutomationRow {
        id: row.id.clone(),
        owner_thread_id: row.owner_thread_id.clone(),
        kind: row.kind.clone(),
        name: row.name.clone(),
        prompt: row.prompt.clone(),
        status: row.status.clone(),
        rrule: row.rrule.clone(),
        next_run_at: row.next_run_at,
        last_run_at: row.last_run_at,
        created_at: row.created_at,
        updated_at: row.updated_at,
        model: text::clone_opt(&row.model),
        reasoning_effort: text::clone_opt(&row.reasoning_effort),
        cron_cwds_json: text::clone_opt(&row.cron_cwds_json),
        target_thread_id: text::clone_opt(&row.target_thread_id),
        dispatch_workspace_roots_json: text::clone_opt(&row.dispatch_workspace_roots_json),
        dispatch_approval_policy_json: text::clone_opt(&row.dispatch_approval_policy_json),
        dispatch_approvals_reviewer_json: text::clone_opt(&row.dispatch_approvals_reviewer_json),
        dispatch_permission_profile_json: text::clone_opt(&row.dispatch_permission_profile_json),
        dispatch: clone_dispatch(&row.dispatch),
    }
}

// ---------------------------------------------------------------------
// The table
// ---------------------------------------------------------------------

/// Whether the row is an active heartbeat of the thread with the given text.
pub open spec fn beats(row: AutomationRow, thread: Seq<char>) -> bool {
    row.kind@ == "heartbeat"@ && row.status@ == "ACTIVE"@ && text::opt_view(row.target_thread_id) == Some(thread)
}

/// The position of the first active heartbeat of a thread that is not the
/// excluded automation.
pub open spec fn conflict_at(rows: Seq<AutomationRow>, thread: Seq<char>, exclude: Option<Seq<char>>, i: int) -> bool {
    &&& 0 <= i < rows.len()
    &&& beats(rows[i], thread)
    &&& exclude != Some(rows[i].id@)
}

/// Whether the target's thread has an active heartbeat that is not the excluded
/// automation.
pub open spec fn conflicts(rows: Seq<AutomationRow>, target: automation::Target, exclude: Option<Seq<char>>) -> bool {
    target matches automation::Target::Heartbeat(id) && exists|i: int| #[trigger]
        conflict_at(rows, ids::uuid_text(id.value), exclude, i)
}

/// The message about an active heartbeat in the way.
pub open spec fn conflict_message(thread: Seq<char>, existing: Seq<char>) -> Seq<char> {
    "active heartbeat already exists for thread "@ + thread + ": "@ + existing
}

/// Whether the message is about an active heartbeat in the way.
pub open spec fn tells_conflict(
    e: Seq<char>,
    rows: Seq<AutomationRow>,
    target: automation::Target,
    exclude: Option<Seq<char>>,
) -> bool {
    target matches automation::Target::Heartbeat(id) && exists|i: int| #[trigger]
        conflict_at(rows, ids::uuid_text(id.value), exclude, i) && e == conflict_message(
            ids::uuid_text(id.value),
            rows[i].id@,
        )
}

/// Whether identifiers are unique.
pub open spec fn rows_ok(rows: Seq<AutomationRow>) -> bool {
    forall|i: int, j: int| 0 <= i < j < rows.len() ==> (#[trigger] rows[i]).id@ != (#[trigger] rows[j]).id@
}

/// Whether each thread has at most one active heartbeat.
pub open spec fn one_heartbeat_each(rows: Seq<AutomationRow>) -> bool {
    forall|i: int, j: int, thread: Seq<char>|
        0 <= i < j < rows.len() ==> !(#[trigger] beats(rows[i], thread) && #[trigger] beats(rows[j], thread))
}

/// Whether the change gives no thread a second active heartbeat, where none had
/// one.
pub open spec fn keeps_heartbeats(before: Seq<AutomationRow>, after: Seq<AutomationRow>) -> bool {
    one_heartbeat_each(before) ==> one_heartbeat_each(after)
}

/// Why an automation is not created.
pub enum CreationFault {
    Params(Seq<char>),
    Conflict,
    Rule(Seq<char>),
}

/// The first reason not to create an automation.
pub open spec fn creation_fault(
    rows: Seq<AutomationRow>,
    p: AutomationCreateParams,
    id: Seq<char>,
    now: int,
) -> Option<CreationFault> {
    match params_fault(p.name@, p.prompt@, p.target@, p.dispatch_settings is Some) {
        Some(message) => Some(CreationFault::Params(message)),
        None => if p.status is Active && conflicts(rows, p.target@, None) {
            Some(CreationFault::Conflict)
        } else {
            match first_run(p, id, now) {
                Err(message) => Some(CreationFault::Rule(message)),
                Ok(_) => None,
            }
        },
    }
}

/// The first run of an automation that is created.
pub open spec fn first_run(p: AutomationCreateParams, id: Seq<char>, now: int) -> Result<Option<int>, Seq<char>> {
    planned_run(id, p.target.kind_of(), p.status, resolved_rrule(text::opt_view(p.rrule)), None, now)
}

/// Whether there is a reason not to create the automation, and the message tells
/// it.
pub open spec fn is_refused(
    rows: Seq<AutomationRow>,
    p: AutomationCreateParams,
    id: Seq<char>,
    now: int,
    message: Seq<char>,
) -> bool {
    match creation_fault(rows, p, id, now) {
        Some(CreationFault::Params(m)) => message == m,
        Some(CreationFault::Conflict) => tells_conflict(message, rows, p.target@, None),
        Some(CreationFault::Rule(m)) => message == m,
        None => false,
    }
}

/// Whether the row is that of an automation created at `now`.
pub open spec fn is_new_row(row: AutomationRow, p: AutomationCreateParams, id: String, now: int) -> bool {
    &&& row.id == id
    &&& row.kind@ == p.target.kind_of().name()
    &&& holds(row, p)
    &&& reads_back(row, p)
    &&& schedule::is_next_run(Ok(row.next_run_at), first_run(p, id@, now))
    &&& row.last_run_at is None
    &&& row.created_at == now
    &&& row.updated_at == now
    &&& row.dispatch.is_blank()
}

/// Whether the result is what reading the row comes to.
pub open spec fn is_read(row: AutomationRow, faults: ColumnFaults, r: Result<Automation, String>) -> bool {
    match r {
        Ok(a) => automation::row_fault(row, faults) is None && automation::decodes(row, a),
        Err(e) => automation::row_fault(row, faults) == Some(e@),
    }
}

/// What creating an automation comes to: where nothing is against it, it is
/// stored last and read back.
pub open spec fn is_created(
    before: Seq<AutomationRow>,
    after: Seq<AutomationRow>,
    p: AutomationCreateParams,
    id: String,
    faults: ColumnFaults,
    now: int,
    r: Result<Automation, String>,
) -> bool {
    if creation_fault(before, p, id@, now) is None {
        &&& after == before.push(after.last())
        &&& is_new_row(after.last(), p, id, now)
        &&& is_read(after.last(), faults, r)
    } else {
        &&& after == before
        &&& r matches Err(e) && is_refused(before, p, id@, now, e@)
    }
}

/// A second active heartbeat on a thread is refused, whatever else it asks for,
/// and nothing is stored. A paused one is stored, without a next run.
pub proof fn law_active_heartbeats_are_unique(
    before: Seq<AutomationRow>,
    after: Seq<AutomationRow>,
    p: AutomationCreateParams,
    id: String,
    faults: ColumnFaults,
    now: int,
    r: Result<Automation, String>,
    thread: ThreadId,
    i: int,
)
    requires
        0 <= i < before.len(),
        beats(before[i], ids::uuid_text(thread.value)),
        p.target == (AutomationTarget::Heartbeat { thread_id: thread }),
        params_fault(p.name@, p.prompt@, p.target@, p.dispatch_settings is Some) is None,
        is_created(before, after, p, id, faults, now, r),
    ensures
        p.status is Active ==> after == before && (r matches Err(e) && exists|existing: Seq<char>|
            e@ == #[trigger] conflict_message(ids::uuid_text(thread.value), existing)),
        p.status is Paused && schedule::rule_schedule(resolved_rrule(text::opt_view(p.rrule))) is Ok
            && schedule::in_calendar(now) && !(p.reasoning_effort is Some && faults.reasoning_effort is Some)
            ==> after.len() == before.len() + 1 && (r matches Ok(a) && a.next_run_at is None),
{
    assert(conflict_at(before, ids::uuid_text(thread.value), None, i));
    if p.status is Active {
        assert(p.target@ == automation::Target::Heartbeat(thread));
        match p.target@ {
            automation::Target::Heartbeat(t) => {
                assert(conflict_at(before, ids::uuid_text(t.value), None, i));
                assert(exists|k: int| #[trigger] conflict_at(before, ids::uuid_text(t.value), None::<Seq<char>>, k));
            },
            _ => {},
        }
        assert(conflicts(before, p.target@, None));
        assert(creation_fault(before, p, id@, now) == Some(CreationFault::Conflict));
        let e = r->Err_0;
        let k = choose|k: int| #[trigger]
            conflict_at(before, ids::uuid_text(thread.value), None, k) && e@ == conflict_message(
                ids::uuid_text(thread.value),
                before[k].id@,
            );
        assert(e@ == conflict_message(ids::uuid_text(thread.value), before[k].id@));
    }
    if p.status is Paused && schedule::rule_schedule(resolved_rrule(text::opt_view(p.rrule))) is Ok {
        let row = after.last();
        assert(first_run(p, id@, now) == Ok::<Option<int>, Seq<char>>(None));
        assert(creation_fault(before, p, id@, now) is None);
        assert(row.next_run_at is None);
    }
}

/// A created automation is read back as what was asked for: the names without
/// the space around them, and the owner, the state, the target and the settings
/// as they were given.
pub proof fn law_created_automation_is_read_back(
    row: AutomationRow,
    p: AutomationCreateParams,
    id: String,
    now: int,
    a: Automation,
)
    requires
        is_new_row(row, p, id, now),
        params_fault(p.name@, p.prompt@, p.target@, p.dispatch_settings is Some) is None,
        automation::decodes(row, a),
    ensures
        a.id == id,
        a.owner_thread_id == p.owner_thread_id,
        a.name@ == text::trimmed(p.name@),
        a.prompt@ == text::trimmed(p.prompt@),
        a.status == p.status,
        a.target@ == p.target@,
        a.created_at == now && a.updated_at == now && a.last_run_at is None,
        a.dispatch_settings is Some <==> p.dispatch_settings is Some,
        p.dispatch_settings matches Some(s) ==> {
            &&& text::views(a.dispatch_settings->0.workspace_roots@) == text::views(s.workspace_roots@)
            &&& a.dispatch_settings->0.approval_policy == automation::ApprovalPolicy::Json(s.approval_policy)
            &&& a.dispatch_settings->0.approvals_reviewer == Some(s.approvals_reviewer)
            &&& a.dispatch_settings->0.permission_profile == Some(s.permission_profile)
        },
{
}

/// The automations.
#[derive(Debug)]
pub struct AutomationTable {
    pub rows: Vec<AutomationRow>,
}

/// Whether the rows differ by the removal of an automation, as `done` says: the
/// one with the identifier goes where its owner is the expected one.
pub open spec fn removes(
    before: Seq<AutomationRow>,
    after: Seq<AutomationRow>,
    id: Seq<char>,
    expected_owner: Option<ThreadId>,
    done: bool,
) -> bool {
    if done {
        &&& exists|i: int| #[trigger]
            stored_at(before, id, i) && owned_by(before[i], expected_owner) && after == before.remove(i)
        &&& forall|i: int| 0 <= i < after.len() ==> (#[trigger] after[i]).id@ != id
    } else {
        after == before && forall|i: int| #[trigger]
            stored_at(before, id, i) ==> !owned_by(before[i], expected_owner)
    }
}

impl AutomationTable {
    /// Identifiers are unique.
    pub open spec fn wf(self) -> bool {
        rows_ok(self.rows@)
    }

    /// Whether an automation with the identifier is stored.
    pub open spec fn has(self, id: Seq<char>) -> bool {
        exists|i: int| 0 <= i < self.rows@.len() && (#[trigger] self.rows@[i]).id@ == id
    }

    /// An empty table.
    pub fn new() -> (r: AutomationTable)
        ensures
            r.wf(),
            one_heartbeat_each(r.rows@),
            r.rows@.len() == 0,
    {
        AutomationTable { rows: Vec::new() }
    }

    /// The position of an automation.
    pub fn position(&self, id: &str) -> (r: Option<usize>)
        ensures
            match r {
                Some(i) => i < self.rows@.len() && self.rows@[i as int].id@ == id@ && forall|j: int|
                    0 <= j < i ==> (#[trigger] self.rows@[j]).id@ != id@,
                None => !self.has(id@),
            },
    {
        let mut i: usize = 0;
        while i < self.rows.len()
            invariant
                i <= self.rows@.len(),
                forall|j: int| 0 <= j < i ==> (#[trigger] self.rows@[j]).id@ != id@,
            decreases self.rows@.len() - i,
        {
            if text::str_eq(self.rows[i].id.as_str(), id) {
                return Some(i);
            }
            i = i + 1;
        }
        None
    }

    /// Requires that the target's thread has no other active heartbeat.
    pub fn ensure_no_active_heartbeat_conflict(&self, target: &AutomationTarget, exclude_id: Option<&str>) -> (r: Result<
        (),
        String,
    >)
        ensures
            ({
                let exclude = match exclude_id {
                    Some(id) => Some(id@),
                    None => None,
                };
                match r {
                    Ok(_) => !conflicts(self.rows@, target@, exclude),
                    Err(e) => conflicts(self.rows@, target@, exclude) && tells_conflict(
                        e@,
                        self.rows@,
                        target@,
                        exclude,
                    ),
                }
            }),
    {
        let ghost exclude = match exclude_id {
            Some(id) => Some(id@),
            None => None,
        };
        let thread = match target {
            AutomationTarget::Cron { cwds: _ } => return Ok(()),
            AutomationTarget::Heartbeat { thread_id } => thread_id.text(),
        };
        let mut i: usize = 0;
        while i < self.rows.len()
            invariant
                i <= self.rows@.len(),
                exclude == (match exclude_id {
                    Some(id) => Some(id@),
                    None => None,
                }),
                target@ matches automation::Target::Heartbeat(id) && thread@ == ids::uuid_text(id.value),
                forall|j: int| 0 <= j < i ==> !#[trigger] conflict_at(self.rows@, thread@, exclude, j),
            decreases self.rows@.len() - i,
        {
            let row = &self.rows[i];
            let same_thread = match &row.target_thread_id {
                Some(t) => text::str_eq(t.as_str(), thread.as_str()),
                None => false,
            };
            let excluded = match exclude_id {
                Some(id) => text::str_eq(row.id.as_str(), id),
                None => false,
            };
            if same_thread && !excluded && text::str_eq(row.kind.as_str(), "heartbeat") && text::str_eq(
                row.status.as_str(),
                "ACTIVE",
            ) {
                let mut message: String = "active heartbeat already exists for thread ".to_owned();
                message.push_str(thread.as_str());
                message.push_str(": ");
                message.push_str(row.id.as_str());
                assert(conflict_at(self.rows@, thread@, exclude, i as int));
                return Err(message);
            }
            assert(!conflict_at(self.rows@, thread@, exclude, i as int));
            i = i + 1;
        }
        Ok(())
    }

    /// Stores a new automation under a fresh identifier and reads it back.
    /// `faults` tells what the owners of its opaque columns find wrong with them.
    pub fn create_automation(
        &mut self,
        params: &AutomationCreateParams,
        id: String,
        faults: ColumnFaults,
        now: i64,
    ) -> (r: Result<Automation, String>)
        requires
            old(self).wf(),
            !old(self).has(id@),
            schedule::in_calendar(now as int),
        ensures
            final(self).wf(),
            keeps_heartbeats(old(self).rows@, final(self).rows@),
            is_created(old(self).rows@, final(self).rows@, *params, id, faults, now as int, r),
    {
        match self.insert_automation(params, id, now) {
            Ok(_) => {},
            Err(e) => return Err(e),
        }
        let at: usize = self.rows.len() - 1;
        Automation::try_from_row(clone_row(&self.rows[at]), faults)
    }

    fn insert_automation(&mut self, params: &AutomationCreateParams, id: String, now: i64) -> (r: Result<(), String>)
        requires
            old(self).wf(),
            !old(self).has(id@),
            schedule::in_calendar(now as int),
        ensures
            final(self).wf(),
            keeps_heartbeats(old(self).rows@, final(self).rows@),
            match r {
                Ok(_) => {
                    &&& creation_fault(old(self).rows@, *params, id@, now as int) is None
                    &&& final(self).rows@ == old(self).rows@.push(final(self).rows@.last())
                    &&& is_new_row(final(self).rows@.last(), *params, id, now as int)
                },
                Err(e) => {
                    &&& final(self).rows@ == old(self).rows@
                    &&& is_refused(old(self).rows@, *params, id@, now as int, e@)
                },
            },
    {
        match validate_automation_params(
            params.name.as_str(),
            params.prompt.as_str(),
            &params.target,
            params.dispatch_settings.is_some(),
        ) {
            Ok(_) => {},
            Err(e) => return Err(e),
        }
        let active = match params.status {
            AutomationStatus::Active => true,
            AutomationStatus::Paused => false,
        };
        if active {
            match self.ensure_no_active_heartbeat_conflict(&params.target, None) {
                Ok(_) => {},
                Err(e) => return Err(e),
            }
        }
        let rrule = resolve_automation_rrule(&params.rrule);
        let next_run_at = match next_run_at_for(
            id.as_str(),
            params.target.kind(),
            params.status,
            rrule.as_str(),
            None,
            now,
        ) {
            Ok(at) => at,
            Err(e) => return Err(e),
        };
        let row = write_row(params, id, rrule, next_run_at, None, now, now, DispatchColumns::blank());
        let ghost before = self.rows@;
        proof {
            lemma_push_ok(before, row, *params);
        }
        self.rows.push(row);
        Ok(())
    }

    /// Changes a stored automation, where there is one and its owner is the
    /// expected one. `faults` belongs to the stored row.
    fn update_automation_inner(
        &mut self,
        params: &AutomationUpdateParams,
        expected_owner: Option<ThreadId>,
        faults: ColumnFaults,
        now: i64,
    ) -> (r: Result<bool, String>)
        requires
            old(self).wf(),
            schedule::in_calendar(now as int),
        ensures
            final(self).wf(),
            keeps_heartbeats(old(self).rows@, final(self).rows@),
            update_ok(old(self).rows@, final(self).rows@, *params, expected_owner, faults, now as int, r),
    {
        match validate_automation_params(
            params.name.as_str(),
            params.prompt.as_str(),
            &params.target,
            params.dispatch_settings.is_some(),
        ) {
            Ok(_) => {},
            Err(e) => return Err(e),
        }
        let at = match self.position(params.id.as_str()) {
            Some(at) => at,
            None => {
                proof {
                    assert forall|i: int| 0 <= i < self.rows@.len() implies (#[trigger] self.rows@[i]).id@
                        != params.id@ by {}
                }
                return Ok(false);
            },
        };
        let ghost rows = self.rows@;
        assert(stored_at(rows, params.id@, at as int));
        match expected_owner {
            Some(owner) => {
                let owner_text = owner.text();
                if !text::str_eq(self.rows[at].owner_thread_id.as_str(), owner_text.as_str()) {
                    return Ok(false);
                }
            },
            None => {},
        }
        let existing = match Automation::try_from_row(clone_row(&self.rows[at]), faults) {
            Ok(existing) => existing,
            Err(e) => return Err(e),
        };
        proof {
            lemma_target_kind(rows[at as int]);
        }
        if existing.target.kind() != params.target.kind() {
            return Err("changing automation kind is not supported".to_owned());
        }
        let active = match params.status {
            AutomationStatus::Active => true,
            AutomationStatus::Paused => false,
        };
        if active {
            match self.ensure_no_active_heartbeat_conflict(&params.target, Some(params.id.as_str())) {
                Ok(_) => {},
                Err(e) => return Err(e),
            }
        }
        let rrule = resolve_automation_rrule(&params.rrule);
        let was_active = match existing.status {
            AutomationStatus::Active => true,
            AutomationStatus::Paused => false,
        };
        let next_run_at = if active {
            if !was_active || !text::str_eq(existing.rrule.as_str(), rrule.as_str()) || !automation::same_target(
                &existing.target,
                &params.target,
            ) {
                match next_run_at_for(
                    params.id.as_str(),
                    params.target.kind(),
                    params.status,
                    rrule.as_str(),
                    existing.last_run_at,
                    now,
                ) {
                    Ok(at) => at,
                    Err(e) => return Err(e),
                }
            } else {
                existing.next_run_at
            }
        } else {
            None
        };
        let draft = AutomationCreateParams {
            owner_thread_id: params.owner_thread_id,
            name: params.name.clone(),
            prompt: params.prompt.clone(),
            status: params.status,
            rrule: text::clone_opt(&params.rrule),
            model: text::clone_opt(&params.model),
            reasoning_effort: text::clone_opt(&params.reasoning_effort),
            target: clone_target(&params.target),
            dispatch_settings: clone_settings(&params.dispatch_settings),
        };
        let dispatch = clone_dispatch(&self.rows[at].dispatch);
        let id = self.rows[at].id.clone();
        let last_run_at = self.rows[at].last_run_at;
        let created_at = self.rows[at].created_at;
        let row = write_row(&draft, id, rrule, next_run_at, last_run_at, created_at, now, dispatch);
        proof {
            lemma_update_ok(rows, at as int, row, draft);
        }
        self.rows.set(at, row);
        Ok(true)
    }

    /// Removes an automation, where there is one and its owner is the expected
    /// one.
    fn delete_automation_inner(&mut self, id: &str, expected_owner: Option<ThreadId>) -> (r: bool)
        requires
            old(self).wf(),
        ensures
            final(self).wf(),
            keeps_heartbeats(old(self).rows@, final(self).rows@),
            removes(old(self).rows@, final(self).rows@, id@, expected_owner, r),
    {
        let at = match self.position(id) {
            Some(at) => at,
            None => return false,
        };
        let ghost rows = self.rows@;
        assert(stored_at(rows, id@, at as int));
        match expected_owner {
            Some(owner) => {
                let owner_text = owner.text();
                if !text::str_eq(self.rows[at].owner_thread_id.as_str(), owner_text.as_str()) {
                    return false;
                }
            },
            None => {},
        }
        let _ = self.rows.remove(at);
        proof {
            let after = self.rows@;
            assert forall|i: int| 0 <= i < after.len() implies #[trigger] after[i] == rows[if i < at {
                i
            } else {
                i + 1
            }] by {}
            assert forall|i: int, j: int, thread: Seq<char>|
                one_heartbeat_each(rows) && 0 <= i < j < after.len() implies !(#[trigger] beats(
                after[i],
                thread,
            ) && #[trigger] beats(after[j], thread)) by {
                let x = if i < at {
                    i
                } else {
                    i + 1
                };
                let y = if j < at {
                    j
                } else {
                    j + 1
                };
                assert(after[i] == rows[x] && after[j] == rows[y]);
                assert(!(beats(rows[x], thread) && beats(rows[y], thread)));
            }
        }
        true
    }
}

/// Whether the row is listed before the other: it was changed later, or at the
/// same time and its identifier comes first.
pub open spec fn listed_before(a: AutomationRow, b: AutomationRow) -> bool {
    a.updated_at > b.updated_at || (a.updated_at == b.updated_at && text::before(a.id@, b.id@))
}

/// Whether the positions are those of all rows, each once, in the order in which
/// they are listed.
pub open spec fn is_listing(rows: Seq<AutomationRow>, order: Seq<usize>) -> bool {
    &&& order.len() == rows.len()
    &&& forall|i: int| 0 <= i < order.len() ==> (#[trigger] order[i]) < rows.len()
    &&& forall|i: int, j: int|
        0 <= i < j < order.len() ==> listed_before(
            rows[(#[trigger] order[i]) as int],
            rows[(#[trigger] order[j]) as int],
        )
}

/// Whether the list is that of the rows in the order: all of them, or the fault
/// of the first that cannot be read.
pub open spec fn lists(
    rows: Seq<AutomationRow>,
    faults: Seq<ColumnFaults>,
    order: Seq<usize>,
    r: Result<Vec<Automation>, String>,
) -> bool {
    match r {
        Ok(list) => {
            &&& list@.len() == order.len()
            &&& forall|i: int|
                0 <= i < order.len() ==> automation::row_fault(
                    rows[(#[trigger] order[i]) as int],
                    faults[order[i] as int],
                ) is None && automation::decodes(rows[order[i] as int], list@[i])
        },
        Err(e) => exists|k: int|
            {
                &&& 0 <= k < order.len()
                &&& automation::row_fault(rows[(#[trigger] order[k]) as int], faults[order[k] as int]) == Some(e@)
                &&& forall|i: int|
                    0 <= i < k ==> automation::row_fault(
                        rows[(#[trigger] order[i]) as int],
                        faults[order[i] as int],
                    ) is None
            },
    }
}

proof fn lemma_listed_total(a: AutomationRow, b: AutomationRow)
    requires
        a.id@ != b.id@,
    ensures
        listed_before(a, b) <==> !listed_before(b, a),
{
    text::lemma_before_total(a.id@, b.id@);
}

proof fn lemma_listed_transitive(a: AutomationRow, b: AutomationRow, c: AutomationRow)
    requires
        listed_before(a, b),
        listed_before(b, c),
    ensures
        listed_before(a, c),
{
    if text::before(a.id@, b.id@) && text::before(b.id@, c.id@) {
        text::lemma_before_transitive(a.id@, b.id@, c.id@);
    }
}

fn row_listed_before(a: &AutomationRow, b: &AutomationRow) -> (r: bool)
    ensures
        r == listed_before(*a, *b),
{
    a.updated_at > b.updated_at || (a.updated_at == b.updated_at && text::str_before(a.id.as_str(), b.id.as_str()))
}

impl AutomationTable {
    fn reread(&self, id: &str, changed: bool, faults: ColumnFaults) -> (r: Result<Option<Automation>, String>)
        requires
            self.wf(),
            changed ==> self.has(id@),
        ensures
            is_reread(self.rows@, id@, changed, faults, r),
    {
        if changed {
            self.get_automation(id, faults)
        } else {
            Ok(None)
        }
    }

    /// Changes an automation, where there is one, and reads it back. `faults`
    /// belongs to the stored row and `new_faults` to the changed one.
    pub fn update_automation(
        &mut self,
        params: &AutomationUpdateParams,
        faults: ColumnFaults,
        new_faults: ColumnFaults,
        now: i64,
    ) -> (r: Result<Option<Automation>, String>)
        requires
            old(self).wf(),
            schedule::in_calendar(now as int),
        ensures
            final(self).wf(),
            keeps_heartbeats(old(self).rows@, final(self).rows@),
            is_updated(old(self).rows@, final(self).rows@, *params, None, faults, new_faults, now as int, r),
    {
        match self.update_automation_inner(params, None, faults, now) {
            Ok(changed) => {
                proof {
                    lemma_updated_is_stored(old(self).rows@, self.rows@, *params, None, faults, now as int, changed);
                }
                self.reread(params.id.as_str(), changed, new_faults)
            },
            Err(e) => Err(e),
        }
    }

    /// Changes an automation of the owner, where there is one, and reads it back.
    /// `faults` belongs to the stored row and `new_faults` to the changed one.
    pub fn update_automation_if_owner(
        &mut self,
        params: &AutomationUpdateParams,
        expected_owner: ThreadId,
        faults: ColumnFaults,
        new_faults: ColumnFaults,
        now: i64,
    ) -> (r: Result<Option<Automation>, String>)
        requires
            old(self).wf(),
            schedule::in_calendar(now as int),
        ensures
            final(self).wf(),
            keeps_heartbeats(old(self).rows@, final(self).rows@),
            is_updated(
                old(self).rows@,
                final(self).rows@,
                *params,
                Some(expected_owner),
                faults,
                new_faults,
                now as int,
                r,
            ),
    {
        match self.update_automation_inner(params, Some(expected_owner), faults, now) {
            Ok(changed) => {
                proof {
                    lemma_updated_is_stored(
                        old(self).rows@,
                        self.rows@,
                        *params,
                        Some(expected_owner),
                        faults,
                        now as int,
                        changed,
                    );
                }
                self.reread(params.id.as_str(), changed, new_faults)
            },
            Err(e) => Err(e),
        }
    }

    /// Removes an automation, where there is one, and says whether there was.
    pub fn delete_automation(&mut self, id: &str) -> (r: bool)
        requires
            old(self).wf(),
        ensures
            final(self).wf(),
            keeps_heartbeats(old(self).rows@, final(self).rows@),
            removes(old(self).rows@, final(self).rows@, id@, None, r),
    {
        self.delete_automation_inner(id, None)
    }

    /// Removes an automation of the owner, where there is one, and says whether
    /// there was.
    pub fn delete_automation_if_owner(&mut self, id: &str, expected_owner: ThreadId) -> (r: bool)
        requires
            old(self).wf(),
        ensures
            final(self).wf(),
            keeps_heartbeats(old(self).rows@, final(self).rows@),
            removes(old(self).rows@, final(self).rows@, id@, Some(expected_owner), r),
    {
        self.delete_automation_inner(id, Some(expected_owner))
    }

    /// The positions of all automations, in the order in which they are listed:
    /// those that were changed last come first.
    pub fn list_order(&self) -> (r: Vec<usize>)
        requires
            self.wf(),
        ensures
            is_listing(self.rows@, r@),
    {
        let ghost rows = self.rows@;
        let mut order: Vec<usize> = Vec::new();
        let mut n: usize = 0;
        while n < self.rows.len()
            invariant
                n <= rows.len(),
                rows == self.rows@,
                rows_ok(rows),
                order@.len() == n,
                forall|i: int| 0 <= i < n ==> (#[trigger] order@[i]) < n,
                forall|i: int, j: int|
                    0 <= i < j < n ==> listed_before(
                        rows[(#[trigger] order@[i]) as int],
                        rows[(#[trigger] order@[j]) as int],
                    ),
            decreases rows.len() - n,
        {
            let mut at: usize = 0;
            while at < order.len() && row_listed_before(&self.rows[order[at]], &self.rows[n])
                invariant
                    at <= order@.len(),
                    n < rows.len(),
                    rows == self.rows@,
                    order@.len() == n,
                    forall|i: int| 0 <= i < n ==> (#[trigger] order@[i]) < n,
                    forall|i: int| 0 <= i < at ==> listed_before(rows[(#[trigger] order@[i]) as int], rows[n as int]),
                decreases order@.len() - at,
            {
                at = at + 1;
            }
            let ghost before = order@;
            proof {
                if at < n {
                    let k = before[at as int] as int;
                    assert(rows[k].id@ != rows[n as int].id@);
                    lemma_listed_total(rows[n as int], rows[k]);
                }
            }
            order.insert(at, n);
            proof {
                let after = order@;
                assert(after =~= before.insert(at as int, n));
                assert forall|i: int| 0 <= i < n + 1 implies (#[trigger] after[i]) < n + 1 by {
                    if i < at {
                        assert(after[i] == before[i]);
                    } else if i > at {
                        assert(after[i] == before[i - 1]);
                    }
                }
                assert forall|i: int, j: int| 0 <= i < j < n + 1 implies listed_before(
                    rows[(#[trigger] after[i]) as int],
                    rows[(#[trigger] after[j]) as int],
                ) by {
                    if j < at {
                        assert(after[i] == before[i] && after[j] == before[j]);
                    } else if j == at {
                        assert(after[i] == before[i]);
                    } else {
                        assert(after[j] == before[j - 1]);
                        if i < at {
                            assert(after[i] == before[i]);
                        } else if i == at {
                            if j - 1 > at {
                                lemma_listed_transitive(
                                    rows[n as int],
                                    rows[before[at as int] as int],
                                    rows[before[j - 1] as int],
                                );
                            }
                        } else {
                            assert(after[i] == before[i - 1]);
                        }
                    }
                }
            }
            n = n + 1;
        }
        order
    }

    /// All automations, in the order in which they are listed. `faults` tells for
    /// each row what the owners of the opaque columns found wrong with them; the
    /// first row that cannot be read is reported.
    pub fn list_automations(&self, faults: &Vec<ColumnFaults>) -> (r: Result<Vec<Automation>, String>)
        requires
            self.wf(),
            faults@.len() == self.rows@.len(),
        ensures
            exists|order: Seq<usize>| #[trigger]
                is_listing(self.rows@, order) && lists(self.rows@, faults@, order, r),
    {
        let order = self.list_order();
        let mut list: Vec<Automation> = Vec::new();
        let mut k: usize = 0;
        while k < order.len()
            invariant
                k <= order@.len(),
                faults@.len() == self.rows@.len(),
                is_listing(self.rows@, order@),
                list@.len() == k,
                forall|i: int|
                    0 <= i < k ==> automation::row_fault(
                        self.rows@[(#[trigger] order@[i]) as int],
                        faults@[order@[i] as int],
                    ) is None && automation::decodes(self.rows@[order@[i] as int], list@[i]),
            decreases order@.len() - k,
        {
            let at: usize = order[k];
            let found = ColumnFaults {
                dispatch: text::clone_opt(&faults[at].dispatch),
                reasoning_effort: text::clone_opt(&faults[at].reasoning_effort),
            };
            match Automation::try_from_row(clone_row(&self.rows[at]), found) {
                Ok(automation) => {
                    list.push(automation);
                },
                Err(e) => {
                    assert(order@[k as int] == at);
                    return Err(e);
                },
            }
            k = k + 1;
        }
        Ok(list)
    }

    /// The automation with the identifier, where there is one. `faults` tells
    /// what the owners of its opaque columns found wrong with them.
    pub fn get_automation(&self, id: &str, faults: ColumnFaults) -> (r: Result<Option<Automation>, String>)
        requires
            self.wf(),
        ensures
            match r {
                Ok(None) => !self.has(id@),
                Ok(Some(a)) => exists|i: int| #[trigger]
                    stored_at(self.rows@, id@, i) && automation::row_fault(self.rows@[i], faults) is None
                        && automation::decodes(self.rows@[i], a),
                Err(e) => exists|i: int| #[trigger]
                    stored_at(self.rows@, id@, i) && automation::row_fault(self.rows@[i], faults) == Some(e@),
            },
    {
        match self.position(id) {
            None => Ok(None),
            Some(at) => {
                assert(stored_at(self.rows@, id@, at as int));
                let row = clone_row(&self.rows[at]);
                match Automation::try_from_row(row, faults) {
                    Ok(a) => Ok(Some(a)),
                    Err(e) => Err(e),
                }
            },
        }
    }
}

/// There is one order in which the automations are listed.
pub proof fn law_listing_is_unique(rows: Seq<AutomationRow>, a: Seq<usize>, b: Seq<usize>, i: int)
    requires
        rows_ok(rows),
        is_listing(rows, a),
        is_listing(rows, b),
        0 <= i < rows.len(),
        forall|k: int| 0 <= k < i ==> a[k] == b[k],
    ensures
        a[i] == b[i],
{
    if a[i] != b[i] {
        lemma_listing_holds(rows, b, a[i] as int);
        lemma_listing_holds(rows, a, b[i] as int);
        let p = choose|p: int| 0 <= p < b.len() && b[p] == a[i] as int;
        let q = choose|q: int| 0 <= q < a.len() && a[q] == b[i] as int;
        assert(p > i) by {
            if p < i {
                assert(a[p] == b[p]);
                assert(listed_before(rows[a[p] as int], rows[a[i] as int]));
                text::lemma_before_total(rows[a[i] as int].id@, rows[a[i] as int].id@);
            }
        }
        assert(q > i) by {
            if q < i {
                assert(a[q] == b[q]);
                assert(listed_before(rows[b[q] as int], rows[b[i] as int]));
                text::lemma_before_total(rows[b[i] as int].id@, rows[b[i] as int].id@);
            }
        }
        assert(listed_before(rows[b[i] as int], rows[b[p] as int]));
        assert(listed_before(rows[a[i] as int], rows[a[q] as int]));
        lemma_listed_transitive(rows[a[i] as int], rows[b[i] as int], rows[a[i] as int]);
        text::lemma_before_total(rows[a[i] as int].id@, rows[a[i] as int].id@);
    }
}

proof fn lemma_listing_holds(rows: Seq<AutomationRow>, order: Seq<usize>, n: int)
    requires
        is_listing(rows, order),
        0 <= n < rows.len(),
    ensures
        exists|p: int| 0 <= p < order.len() && order[p] == n,
{
    let places = Seq::new(order.len(), |i: int| order[i] as int);
    assert(places.no_duplicates()) by {
        assert forall|i: int, j: int| 0 <= i < places.len() && 0 <= j < places.len() && i != j implies places[i]
            != places[j] by {
            let (x, y) = if i < j {
                (i, j)
            } else {
                (j, i)
            };
            assert(listed_before(rows[order[x] as int], rows[order[y] as int]));
            text::lemma_before_total(rows[order[x] as int].id@, rows[order[x] as int].id@);
        }
    }
    places.unique_seq_to_set();
    let range = vstd::set_lib::set_int_range(0, rows.len() as int);
    vstd::set_lib::lemma_int_range(0, rows.len() as int);
    assert(places.to_set().subset_of(range)) by {
        assert forall|x: int| places.to_set().contains(x) implies range.contains(x) by {
            let i = choose|i: int| 0 <= i < places.len() && places[i] == x;
            assert(order[i] < rows.len());
        }
    }
    vstd::set_lib::lemma_subset_equality(places.to_set(), range);
    assert(range.contains(n));
    let p = choose|p: int| 0 <= p < places.len() && places[p] == n;
    assert(order[p] == n);
}

/// Whether the automation is stored at the position.
pub open spec fn stored_at(rows: Seq<AutomationRow>, id: Seq<char>, i: int) -> bool {
    0 <= i < rows.len() && rows[i].id@ == id
}

/// Whether the owner is the expected one, where one is expected.
pub open spec fn owned_by(row: AutomationRow, expected: Option<ThreadId>) -> bool {
    match expected {
        Some(owner) => row.owner_thread_id@ == ids::uuid_text(owner.value),
        None => true,
    }
}

/// The next run of an automation that is changed: none where it is paused; the
/// old one where it stays active under the same rule with the same target; and
/// else a new one.
pub open spec fn updated_run(row: AutomationRow, p: AutomationUpdateParams, now: int) -> Result<
    Option<int>,
    Seq<char>,
> {
    let rrule = resolved_rrule(text::opt_view(p.rrule));
    if p.status is Paused {
        Ok(None)
    } else if AutomationStatus::named(row.status@) == Some(AutomationStatus::Active) && row.rrule@ == rrule
        && automation::row_target(row) == p.target@ {
        match row.next_run_at {
            Some(at) => Ok(Some(at as int)),
            None => Ok(None),
        }
    } else {
        planned_run(p.id@, p.target.kind_of(), p.status, rrule, row.last_run_at, now)
    }
}

/// What an update comes to.
pub open spec fn update_ok(
    before: Seq<AutomationRow>,
    after: Seq<AutomationRow>,
    p: AutomationUpdateParams,
    expected_owner: Option<ThreadId>,
    faults: ColumnFaults,
    now: int,
    r: Result<bool, String>,
) -> bool {
    let fault = params_fault(p.name@, p.prompt@, p.target@, p.dispatch_settings is Some);
    match r {
        Ok(false) => fault is None && after == before && forall|i: int| #[trigger]
            stored_at(before, p.id@, i) ==> !owned_by(before[i], expected_owner),
        Ok(true) => fault is None && exists|i: int| #[trigger]
            stored_at(before, p.id@, i) && {
                let old_row = before[i];
                let row = after[i];
                &&& owned_by(old_row, expected_owner)
                &&& automation::row_fault(old_row, faults) is None
                &&& AutomationKind::named(old_row.kind@) == Some(p.target.kind_of())
                &&& p.status is Active ==> !conflicts(before, p.target@, Some(p.id@))
                &&& after == before.update(i, row)
                &&& holds(row, draft_of(p))
                &&& reads_back(row, draft_of(p))
                &&& row.id == old_row.id
                &&& row.kind@ == p.target.kind_of().name()
                &&& schedule::is_next_run(Ok(row.next_run_at), updated_run(old_row, p, now))
                &&& row.last_run_at == old_row.last_run_at
                &&& row.created_at == old_row.created_at
                &&& row.updated_at == now
                &&& row.dispatch == old_row.dispatch
            },
        Err(e) => after == before && if fault is Some {
            fault == Some(e@)
        } else {
            exists|i: int| #[trigger]
                stored_at(before, p.id@, i) && owned_by(before[i], expected_owner) && if automation::row_fault(before[i], faults)
                    is Some {
                    automation::row_fault(before[i], faults) == Some(e@)
                } else if AutomationKind::named(before[i].kind@) != Some(p.target.kind_of()) {
                    e@ == "changing automation kind is not supported"@
                } else if p.status is Active && conflicts(before, p.target@, Some(p.id@)) {
                    tells_conflict(e@, before, p.target@, Some(p.id@))
                } else {
                    schedule::is_next_run(Err(e), updated_run(before[i], p, now))
                }
        },
    }
}

/// What reading a changed automation comes to.
pub open spec fn is_reread(
    rows: Seq<AutomationRow>,
    id: Seq<char>,
    changed: bool,
    faults: ColumnFaults,
    r: Result<Option<Automation>, String>,
) -> bool {
    if changed {
        exists|i: int| #[trigger]
            stored_at(rows, id, i) && match r {
                Ok(Some(a)) => is_read(rows[i], faults, Ok(a)),
                Ok(None) => false,
                Err(e) => is_read(rows[i], faults, Err(e)),
            }
    } else {
        r matches Ok(None)
    }
}

/// What an update comes to that is read back.
pub open spec fn is_updated(
    before: Seq<AutomationRow>,
    after: Seq<AutomationRow>,
    p: AutomationUpdateParams,
    expected_owner: Option<ThreadId>,
    faults: ColumnFaults,
    new_faults: ColumnFaults,
    now: int,
    r: Result<Option<Automation>, String>,
) -> bool {
    exists|done: Result<bool, String>| #[trigger]
        update_ok(before, after, p, expected_owner, faults, now, done) && match done {
            Ok(changed) => is_reread(after, p.id@, changed, new_faults, r),
            Err(e) => r == Err::<Option<Automation>, String>(e),
        }
}

proof fn lemma_updated_is_stored(
    before: Seq<AutomationRow>,
    after: Seq<AutomationRow>,
    p: AutomationUpdateParams,
    expected_owner: Option<ThreadId>,
    faults: ColumnFaults,
    now: int,
    changed: bool,
)
    requires
        update_ok(before, after, p, expected_owner, faults, now, Ok(changed)),
    ensures
        changed ==> exists|i: int| 0 <= i < after.len() && (#[trigger] after[i]).id@ == p.id@,
{
    if changed {
        let i = choose|i: int| #[trigger] stored_at(before, p.id@, i) && after == before.update(i, after[i]) && after[i].id
            == before[i].id;
        assert(after[i].id@ == p.id@);
    }
}

fn clone_target(t: &AutomationTarget) -> (r: AutomationTarget)
    ensures
        r@ == t@,
        r.kind_of() == t.kind_of(),
{
    match t {
        AutomationTarget::Cron { cwds } => AutomationTarget::Cron { cwds: text::clone_strings(cwds) },
        AutomationTarget::Heartbeat { thread_id } => AutomationTarget::Heartbeat { thread_id: *thread_id },
    }
}

fn clone_settings(s: &Option<DispatchSettingsParams>) -> (r: Option<DispatchSettingsParams>)
    ensures
        match *s {
            Some(x) => r is Some && r->0.workspace_roots@ == x.workspace_roots@ && r->0.approval_policy
                == x.approval_policy && r->0.approvals_reviewer == x.approvals_reviewer && r->0.permission_profile
                == x.permission_profile,
            None => r is None,
        },
{
    match s {
        Some(x) => Some(
            DispatchSettingsParams {
                workspace_roots: text::clone_strings(&x.workspace_roots),
                approval_policy: x.approval_policy.clone(),
                approvals_reviewer: x.approvals_reviewer.clone(),
                permission_profile: x.permission_profile.clone(),
            },
        ),
        None => None,
    }
}

proof fn lemma_target_kind(row: AutomationRow)
    ensures
        AutomationKind::named(row.kind@) == Some(AutomationKind::Cron) ==> automation::row_target(row) is Cron,
        AutomationKind::named(row.kind@) == Some(AutomationKind::Heartbeat) ==> automation::row_target(row) is Heartbeat,
{
}

proof fn lemma_beats_of_written(row: AutomationRow, p: AutomationCreateParams)
    requires
        holds(row, p),
        row.kind@ == p.target.kind_of().name(),
    ensures
        forall|thread: Seq<char>| #[trigger]
            beats(row, thread) ==> p.status is Active && p.target is Heartbeat && thread == ids::uuid_text(
                p.target->thread_id.value,
            ),
{
    reveal_strlit("ACTIVE");
    reveal_strlit("PAUSED");
    reveal_strlit("cron");
    reveal_strlit("heartbeat");
    assert("ACTIVE"@[0] != "PAUSED"@[0]);
    assert("cron"@.len() != "heartbeat"@.len());
}

proof fn lemma_push_ok(rows: Seq<AutomationRow>, row: AutomationRow, p: AutomationCreateParams)
    requires
        rows_ok(rows),
        holds(row, p),
        row.kind@ == p.target.kind_of().name(),
        forall|i: int| 0 <= i < rows.len() ==> (#[trigger] rows[i]).id@ != row.id@,
        p.status is Active ==> !conflicts(rows, p.target@, None),
    ensures
        rows_ok(rows.push(row)),
        keeps_heartbeats(rows, rows.push(row)),
{
    lemma_beats_of_written(row, p);
    let after = rows.push(row);
    assert forall|i: int, j: int, thread: Seq<char>| one_heartbeat_each(rows) && 0 <= i < j < after.len() implies !(#[trigger] beats(
        after[i],
        thread,
    ) && #[trigger] beats(after[j], thread)) by {
        if j == rows.len() && beats(after[i], thread) && beats(row, thread) {
            assert(conflict_at(rows, thread, None, i));
        }
    }
}

proof fn lemma_update_ok(rows: Seq<AutomationRow>, at: int, row: AutomationRow, p: AutomationCreateParams)
    requires
        rows_ok(rows),
        0 <= at < rows.len(),
        holds(row, p),
        row.kind@ == p.target.kind_of().name(),
        row.id@ == rows[at].id@,
        p.status is Active ==> !conflicts(rows, p.target@, Some(row.id@)),
    ensures
        rows_ok(rows.update(at, row)),
        keeps_heartbeats(rows, rows.update(at, row)),
{
    lemma_beats_of_written(row, p);
    let after = rows.update(at, row);
    assert forall|i: int, j: int, thread: Seq<char>| one_heartbeat_each(rows) && 0 <= i < j < after.len() implies !(#[trigger] beats(
        after[i],
        thread,
    ) && #[trigger] beats(after[j], thread)) by {
        if beats(after[i], thread) && beats(after[j], thread) {
            if i == at {
                assert(rows[j].id@ != rows[at].id@);
                assert(conflict_at(rows, thread, Some(row.id@), j));
            } else if j == at {
                assert(rows[i].id@ != rows[at].id@);
                assert(conflict_at(rows, thread, Some(row.id@), i));
            } else {
                assert(!(beats(rows[i], thread) && beats(rows[j], thread)));
            }
        }
    }
}

/// The directory that is told is the first that is not absolute.
pub proof fn law_first_relative_directory_is_told(cwds: Seq<Seq<char>>)
    ensures
        match relative_cwd(cwds) {
            Some(cwd) => exists|i: int|
                0 <= i < cwds.len() && #[trigger] cwds[i] == cwd && !paths::absolute(cwd) && forall|j: int|
                    0 <= j < i ==> paths::absolute(#[trigger] cwds[j]),
            None => forall|i: int| 0 <= i < cwds.len() ==> paths::absolute(#[trigger] cwds[i]),
        },
    decreases cwds.len(),
{
    if cwds.len() > 0 {
        let front = cwds.drop_last();
        law_first_relative_directory_is_told(front);
        assert forall|i: int| 0 <= i < front.len() implies #[trigger] cwds[i] == front[i] by {}
        match relative_cwd(front) {
            Some(cwd) => {
                let i = choose|i: int|
                    0 <= i < front.len() && #[trigger] front[i] == cwd && !paths::absolute(cwd) && forall|j: int|
                        0 <= j < i ==> paths::absolute(#[trigger] front[j]);
                assert(cwds[i] == cwd);
                assert forall|j: int| 0 <= j < i implies paths::absolute(#[trigger] cwds[j]) by {
                    assert(paths::absolute(front[j]));
                }
            },
            None => {
                assert forall|i: int| 0 <= i < front.len() implies paths::absolute(#[trigger] cwds[i]) by {
                    assert(paths::absolute(front[i]));
                }
                assert(cwds[cwds.len() - 1] == cwds.last());
            },
        }
    }
}

/// An automation may have a name of 1 to 256 characters and a prompt of 1 to
/// 2000, not counting the white space around them; one that starts runs in
/// directories needs some, all of them absolute, and one that beats in a thread
/// may have no settings for runs of its own. Nothing else is asked of it.
pub proof fn law_automation_may_be_so(name: Seq<char>, prompt: Seq<char>, target: automation::Target, has_dispatch: bool)
    ensures
        params_fault(name, prompt, target, has_dispatch) is None <==> {
            &&& 1 <= text::trimmed(name).len() <= 256
            &&& 1 <= text::trimmed(prompt).len() <= 2000
            &&& target matches automation::Target::Cron(cwds) ==> cwds.len() > 0 && forall|i: int|
                0 <= i < cwds.len() ==> paths::absolute(#[trigger] cwds[i])
            &&& target is Heartbeat ==> !has_dispatch
        },
{
    if let automation::Target::Cron(cwds) = target {
        law_first_relative_directory_is_told(cwds);
    }
}

/// What is wrong with the name is told before what is wrong with the prompt, and
/// that before what is wrong with the target.
pub proof fn law_first_wrong_parameter_is_told(
    name: Seq<char>,
    prompt: Seq<char>,
    target: automation::Target,
    has_dispatch: bool,
)
    ensures
        text::trimmed(name).len() == 0 ==> params_fault(name, prompt, target, has_dispatch) == Some(
            "automation name is required"@,
        ),
        text::trimmed(name).len() > 256 ==> params_fault(name, prompt, target, has_dispatch) == Some(
            "automation name is too long"@,
        ),
        1 <= text::trimmed(name).len() <= 256 && text::trimmed(prompt).len() == 0 ==> params_fault(
            name,
            prompt,
            target,
            has_dispatch,
        ) == Some("automation prompt is required"@),
        1 <= text::trimmed(name).len() <= 256 && text::trimmed(prompt).len() > 2000 ==> params_fault(
            name,
            prompt,
            target,
            has_dispatch,
        ) == Some("automation prompt is too long"@),
        1 <= text::trimmed(name).len() <= 256 && 1 <= text::trimmed(prompt).len() <= 2000 ==> {
            &&& target is Heartbeat && has_dispatch ==> params_fault(name, prompt, target, has_dispatch) == Some(
                "heartbeat automations do not use dispatch settings"@,
            )
            &&& target matches automation::Target::Cron(cwds) ==> cwds.len() == 0 ==> params_fault(
                name,
                prompt,
                target,
                has_dispatch,
            ) == Some("cron automations require at least one cwd"@)
            &&& target matches automation::Target::Cron(cwds) ==> forall|i: int|
                0 <= i < cwds.len() && !paths::absolute(#[trigger] cwds[i]) && (forall|j: int|
                    0 <= j < i ==> paths::absolute(#[trigger] cwds[j])) ==> params_fault(
                    name,
                    prompt,
                    target,
                    has_dispatch,
                ) == Some("cron automation cwd must be absolute: "@ + cwds[i])
        },
{
    if let automation::Target::Cron(cwds) = target {
        law_first_relative_directory_is_told(cwds);
        if 1 <= text::trimmed(name).len() <= 256 && 1 <= text::trimmed(prompt).len() <= 2000 {
            assert forall|i: int|
                0 <= i < cwds.len() && !paths::absolute(#[trigger] cwds[i]) && (forall|j: int|
                    0 <= j < i ==> paths::absolute(#[trigger] cwds[j])) implies params_fault(
                name,
                prompt,
                target,
                has_dispatch,
            ) == Some("cron automation cwd must be absolute: "@ + cwds[i]) by {
                assert(relative_cwd(cwds) is Some);
                let k = choose|k: int|
                    0 <= k < cwds.len() && #[trigger] cwds[k] == relative_cwd(cwds)->0 && !paths::absolute(
                        relative_cwd(cwds)->0,
                    ) && forall|j: int| 0 <= j < k ==> paths::absolute(#[trigger] cwds[j]);
                assert(k == i);
            }
        }
    }
}

/// A rule that is not given, or is blank, is that of one run a day at the full
/// hour; one that is given is taken without the white space around it.
pub proof fn law_missing_rule_is_once_a_day(rrule: Option<Seq<char>>)
    ensures
        rrule is None ==> resolved_rrule(rrule) == "FREQ=HOURLY;INTERVAL=24;BYMINUTE=0"@,
        rrule matches Some(s) ==> resolved_rrule(rrule) == (if text::trimmed(s).len() == 0 {
            "FREQ=HOURLY;INTERVAL=24;BYMINUTE=0"@
        } else {
            text::trimmed(s)
        }),
        trimmed_option(rrule) is Some <==> rrule is Some && text::trimmed(rrule->0).len() > 0,
        trimmed_option(rrule) matches Some(s) ==> s == text::trimmed(rrule->0),
{
}

/// An automation that is paused has no next run, whenever its last one was; a
/// rule that cannot be read is refused all the same. An active one runs when its
/// rule says.
pub proof fn law_paused_automation_does_not_run(
    id: Seq<char>,
    kind: AutomationKind,
    rrule: Seq<char>,
    last_run_at: Option<i64>,
    now: int,
)
    ensures
        schedule::rule_schedule(rrule) is Ok ==> planned_run(id, kind, AutomationStatus::Paused, rrule, last_run_at, now)
            == Ok::<Option<int>, Seq<char>>(None),
        schedule::rule_schedule(rrule) matches Err(e) ==> forall|status: AutomationStatus| #[trigger]
            planned_run(id, kind, status, rrule, last_run_at, now) == Err::<Option<int>, Seq<char>>(e),
        schedule::rule_schedule(rrule) matches Ok(s) ==> planned_run(
            id,
            kind,
            AutomationStatus::Active,
            rrule,
            last_run_at,
            now,
        ) == schedule::next_run(kind, id, s, last_run_at, now),
{
}

/// A heartbeat is in the way of a thread's exactly where another automation of
/// that kind is active for the same thread; nothing is in the way of an
/// automation of the other kind.
pub proof fn law_only_active_heartbeats_are_in_the_way(
    rows: Seq<AutomationRow>,
    thread: ThreadId,
    cwds: Seq<Seq<char>>,
    exclude: Option<Seq<char>>,
)
    ensures
        !conflicts(rows, automation::Target::Cron(cwds), exclude),
        conflicts(rows, automation::Target::Heartbeat(thread), exclude) <==> exists|i: int|
            0 <= i < rows.len() && (#[trigger] rows[i]).kind@ == "heartbeat"@ && rows[i].status@ == "ACTIVE"@
                && text::opt_view(rows[i].target_thread_id) == Some(ids::uuid_text(thread.value)) && exclude != Some(
                rows[i].id@,
            ),
{
    let name = ids::uuid_text(thread.value);
    let target = automation::Target::Heartbeat(thread);
    assert(conflicts(rows, target, exclude) == (exists|k: int| #[trigger] conflict_at(rows, name, exclude, k))) by {
        if exists|k: int| #[trigger] conflict_at(rows, name, exclude, k) {
            let k = choose|k: int| #[trigger] conflict_at(rows, name, exclude, k);
            assert(target is Heartbeat);
            assert(conflict_at(rows, ids::uuid_text(target->Heartbeat_0.value), exclude, k));
            assert(conflicts(rows, target, exclude));
        }
    }
    if conflicts(rows, target, exclude) {
        let i = choose|i: int| #[trigger] conflict_at(rows, name, exclude, i);
        assert(rows[i].kind@ == "heartbeat"@);
    }
    assert forall|i: int|
        0 <= i < rows.len() && (#[trigger] rows[i]).kind@ == "heartbeat"@ && rows[i].status@ == "ACTIVE"@
            && text::opt_view(rows[i].target_thread_id) == Some(name) && exclude != Some(rows[i].id@) implies conflicts(
        rows,
        automation::Target::Heartbeat(thread),
        exclude,
    ) by {
        assert(conflict_at(rows, name, exclude, i));
    }
}

/// Removing takes the automation with the id and no other, and only where it has
/// the owner that is expected; where it does not, or there is none, everything
/// stays.
pub proof fn law_removing_takes_the_named_one(
    before: Seq<AutomationRow>,
    after: Seq<AutomationRow>,
    id: Seq<char>,
    expected_owner: Option<ThreadId>,
    done: bool,
    i: int,
)
    requires
        rows_ok(before),
        removes(before, after, id, expected_owner, done),
        0 <= i < before.len(),
    ensures
        before[i].id@ == id && (expected_owner matches Some(owner) ==> before[i].owner_thread_id@ == ids::uuid_text(
            owner.value,
        )) ==> done,
        done ==> after.len() == before.len() - 1,
        done && before[i].id@ == id ==> (expected_owner matches Some(owner) ==> before[i].owner_thread_id@
            == ids::uuid_text(owner.value)),
        before[i].id@ != id || !done ==> after.contains(before[i]),
{
    if done {
        let k = choose|k: int| #[trigger]
            stored_at(before, id, k) && owned_by(before[k], expected_owner) && after == before.remove(k);
        if before[i].id@ != id {
            if i < k {
                assert(after[i] == before[i]);
            } else {
                assert(after[i - 1] == before[i]);
            }
        } else {
            if i < k {
                assert(before[i].id@ != before[k].id@);
            } else if k < i {
                assert(before[k].id@ != before[i].id@);
            }
        }
    } else {
        assert(after[i] == before[i]);
        if before[i].id@ == id {
            assert(stored_at(before, id, i));
        }
    }
}

/// A change keeps who an automation is, its kind, when it was created and ran
/// last, and where its runs stand, and leaves every other automation alone; the
/// time of the change is kept.
pub proof fn law_change_keeps_who_it_is(
    before: Seq<AutomationRow>,
    after: Seq<AutomationRow>,
    p: AutomationUpdateParams,
    expected_owner: Option<ThreadId>,
    faults: ColumnFaults,
    now: int,
    i: int,
)
    requires
        rows_ok(before),
        update_ok(before, after, p, expected_owner, faults, now, Ok(true)),
        0 <= i < before.len(),
    ensures
        after.len() == before.len(),
        before[i].id@ != p.id@ ==> after[i] == before[i],
        before[i].id@ == p.id@ ==> {
            &&& after[i].id == before[i].id
            &&& after[i].kind@ == before[i].kind@
            &&& after[i].created_at == before[i].created_at
            &&& after[i].last_run_at == before[i].last_run_at
            &&& after[i].dispatch == before[i].dispatch
            &&& after[i].updated_at == now
            &&& after[i].name@ == text::trimmed(p.name@)
            &&& after[i].prompt@ == text::trimmed(p.prompt@)
            &&& after[i].owner_thread_id@ == ids::uuid_text(p.owner_thread_id.value)
            &&& expected_owner matches Some(owner) ==> before[i].owner_thread_id@ == ids::uuid_text(owner.value)
            &&& p.status is Paused ==> after[i].next_run_at is None
            &&& p.status is Active && before[i].status@ == "ACTIVE"@ && before[i].rrule@ == after[i].rrule@
                && automation::row_target(before[i]) == p.target@ ==> after[i].next_run_at == before[i].next_run_at
        },
{
    let k = choose|k: int| #[trigger]
        stored_at(before, p.id@, k) && {
            let old_row = before[k];
            let row = after[k];
            &&& owned_by(old_row, expected_owner)
            &&& automation::row_fault(old_row, faults) is None
            &&& AutomationKind::named(old_row.kind@) == Some(p.target.kind_of())
            &&& p.status is Active ==> !conflicts(before, p.target@, Some(p.id@))
            &&& after == before.update(k, row)
            &&& holds(row, draft_of(p))
            &&& reads_back(row, draft_of(p))
            &&& row.id == old_row.id
            &&& row.kind@ == p.target.kind_of().name()
            &&& schedule::is_next_run(Ok(row.next_run_at), updated_run(old_row, p, now))
            &&& row.last_run_at == old_row.last_run_at
            &&& row.created_at == old_row.created_at
            &&& row.updated_at == now
            &&& row.dispatch == old_row.dispatch
        };
    automation::law_names_are_read_back(before[k].kind@);
    automation::law_names_are_read_back(before[k].status@);
    if before[i].id@ == p.id@ {
        if i < k {
            assert(before[i].id@ != before[k].id@);
        } else if k < i {
            assert(before[k].id@ != before[i].id@);
        }
        assert(i == k);
    }
}

/// The next run of an automation is planned anew where it was paused, or gets
/// another rule or target, counting from its last run.
pub proof fn law_changed_rule_is_planned_anew(row: AutomationRow, p: AutomationUpdateParams, now: int)
    requires
        p.status is Active,
        row.status@ == "PAUSED"@ || row.rrule@ != resolved_rrule(text::opt_view(p.rrule)) || automation::row_target(row)
            != p.target@,
    ensures
        updated_run(row, p, now) == planned_run(
            p.id@,
            p.target.kind_of(),
            AutomationStatus::Active,
            resolved_rrule(text::opt_view(p.rrule)),
            row.last_run_at,
            now,
        ),
{
    automation::law_names_are_read_back(row.status@);
    reveal_strlit("ACTIVE");
    reveal_strlit("PAUSED");
    assert("ACTIVE"@[0] != "PAUSED"@[0]);
}

/// The list begins with what was changed last; of what was changed in the same
/// second, the smaller id goes first.
pub proof fn law_latest_change_is_listed_first(rows: Seq<AutomationRow>, order: Seq<usize>, i: int, j: int)
    requires
        is_listing(rows, order),
        0 <= i < j < order.len(),
    ensures
        order.len() == rows.len(),
        rows[order[i] as int].updated_at >= rows[order[j] as int].updated_at,
        rows[order[i] as int].updated_at == rows[order[j] as int].updated_at ==> text::before(
            rows[order[i] as int].id@,
            rows[order[j] as int].id@,
        ),
        order[i] != order[j],
{
    text::lemma_before_total(rows[order[i] as int].id@, rows[order[j] as int].id@);
}

/// What a row holds of its target is the directories of an automation that
/// starts runs, and the thread of one that beats.
pub proof fn law_target_is_written_by_its_kind(cwds: Seq<Seq<char>>, thread: ThreadId)
    ensures
        cwds_text(automation::Target::Cron(cwds)) == Some(json::json_list_text(cwds)),
        cwds_text(automation::Target::Heartbeat(thread)) is None,
        thread_text(automation::Target::Heartbeat(thread)) == Some(ids::uuid_text(thread.value)),
        thread_text(automation::Target::Cron(cwds)) is None,
{
}

/// A new automation is stored as it was asked for: active or paused as it says,
/// by its rule, with its model and effort, owned by its thread, and planned from
/// now on with no run behind it.
pub proof fn law_new_row_is_what_was_asked_for(row: AutomationRow, p: AutomationCreateParams, id: String, now: int)
    requires
        is_new_row(row, p, id, now),
    ensures
        row.id == id,
        row.status@ == (if p.status is Active {
            "ACTIVE"@
        } else {
            "PAUSED"@
        }),
        row.kind@ == (if p.target is Cron {
            "cron"@
        } else {
            "heartbeat"@
        }),
        row.owner_thread_id@ == ids::uuid_text(p.owner_thread_id.value),
        p.rrule is None ==> row.rrule@ == "FREQ=HOURLY;INTERVAL=24;BYMINUTE=0"@,
        p.rrule matches Some(rule) ==> text::trimmed(rule@).len() > 0 ==> row.rrule@ == text::trimmed(rule@),
        p.model is None ==> row.model is None,
        p.model matches Some(model) ==> text::trimmed(model@).len() > 0 ==> text::opt_view(row.model) == Some(
            text::trimmed(model@),
        ),
        row.reasoning_effort == p.reasoning_effort,
        row.created_at == now && row.updated_at == now && row.last_run_at is None,
        row.dispatch.attempt_count == 0 && row.dispatch.claimed_by is None && row.dispatch.in_flight_run_at is None
            && row.dispatch.retry_at is None && row.dispatch.last_error is None,
        p.target matches AutomationTarget::Heartbeat { thread_id } ==> text::opt_view(row.target_thread_id) == Some(
            ids::uuid_text(thread_id.value),
        ) && row.cron_cwds_json is None,
        p.target matches AutomationTarget::Cron { cwds } ==> text::opt_view(row.cron_cwds_json) == Some(
            json::json_list_text(text::views(cwds@)),
        ) && row.target_thread_id is None,
{
}

/// An automation is refused for what is wrong with it, then for a heartbeat that
/// is in its way, which matters to active ones alone, then for its rule; else it
/// is created.
pub proof fn law_why_an_automation_is_refused(
    rows: Seq<AutomationRow>,
    p: AutomationCreateParams,
    id: Seq<char>,
    now: int,
)
    ensures
        ({
            let wrong = params_fault(p.name@, p.prompt@, p.target@, p.dispatch_settings is Some);
            let in_the_way = p.status is Active && conflicts(rows, p.target@, None);
            let rule = planned_run(
                id,
                p.target.kind_of(),
                p.status,
                resolved_rrule(text::opt_view(p.rrule)),
                None,
                now,
            );
            &&& creation_fault(rows, p, id, now) is None <==> wrong is None && !in_the_way && rule is Ok
            &&& wrong matches Some(message) ==> creation_fault(rows, p, id, now) == Some(CreationFault::Params(message))
            &&& wrong is None && in_the_way ==> creation_fault(rows, p, id, now) == Some(CreationFault::Conflict)
            &&& wrong is None && !in_the_way ==> (rule matches Err(message) ==> creation_fault(rows, p, id, now) == Some(
                CreationFault::Rule(message),
            ))
        }),
{
}

/// An automation that is in the way is told by the thread and by its own id.
pub proof fn law_conflict_names_the_other(thread: Seq<char>, existing: Seq<char>)
    ensures
        conflict_message(thread, existing) == "active heartbeat already exists for thread "@ + thread + ": "@ + existing,
{
}

} // verus!
