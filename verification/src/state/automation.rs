//! Automations and the rows that they are stored in.

use vstd::prelude::*;

use crate::ids;
use crate::ids::ThreadId;
use crate::json;
use crate::state::schedule;
use crate::state::schedule::AutomationKind;
use crate::text;

verus! {

/// The rule of an automation that gives none.
pub const DEFAULT_AUTOMATION_RRULE: &'static str = "FREQ=HOURLY;INTERVAL=24;BYMINUTE=0";

impl AutomationKind {
    /// The stored name of the kind.
    pub open spec fn name(self) -> Seq<char> {
        match self {
            AutomationKind::Cron => "cron"@,
            AutomationKind::Heartbeat => "heartbeat"@,
        }
    }

    /// The kind that a stored name means.
    pub open spec fn named(value: Seq<char>) -> Option<AutomationKind> {
        if value == "cron"@ {
            Some(AutomationKind::Cron)
        } else if value == "heartbeat"@ {
            Some(AutomationKind::Heartbeat)
        } else {
            None
        }
    }

    /// The stored name of the kind.
    pub fn as_str(self) -> (r: &'static str)
        ensures
            r@ == self.name(),
            Self::named(r@) == Some(self),
    {
        proof {
            reveal_strlit("cron");
            reveal_strlit("heartbeat");
            assert("cron"@.len() != "heartbeat"@.len());
        }
        match self {
            AutomationKind::Cron => "cron",
            AutomationKind::Heartbeat => "heartbeat",
        }
    }

    /// Reads the stored name of a kind.
    pub fn parse(value: &str) -> (r: Result<AutomationKind, String>)
        ensures
            match r {
                Ok(kind) => Self::named(value@) == Some(kind),
                Err(e) => Self::named(value@) is None && e@ == "invalid automation kind: "@ + value@,
            },
    {
        if text::str_eq(value, "cron") {
            Ok(AutomationKind::Cron)
        } else if text::str_eq(value, "heartbeat") {
            Ok(AutomationKind::Heartbeat)
        } else {
            let mut message: String = "invalid automation kind: ".to_owned();
            message.push_str(value);
            Err(message)
        }
    }
}

/// Whether an automation runs.
#[derive(Clone, Copy, Debug, PartialEq, Eq, Structural)]
pub enum AutomationStatus {
    Active,
    Paused,
}

impl AutomationStatus {
    /// The stored name of the status.
    pub open spec fn name(self) -> Seq<char> {
        match self {
            AutomationStatus::Active => "ACTIVE"@,
            AutomationStatus::Paused => "PAUSED"@,
        }
    }

    /// The status that a stored name means.
    pub open spec fn named(value: Seq<char>) -> Option<AutomationStatus> {
        if value == "ACTIVE"@ {
            Some(AutomationStatus::Active)
        } else if value == "PAUSED"@ {
            Some(AutomationStatus::Paused)
        } else {
            None
        }
    }

    /// The stored name of the status.
    pub fn as_str(self) -> (r: &'static str)
        ensures
            r@ == self.name(),
            Self::named(r@) == Some(self),
    {
        proof {
            lemma_status_names();
        }
        match self {
            AutomationStatus::Active => "ACTIVE",
            AutomationStatus::Paused => "PAUSED",
        }
    }

    /// Reads the stored name of a status.
    pub fn parse(value: &str) -> (r: Result<AutomationStatus, String>)
        ensures
            match r {
                Ok(status) => Self::named(value@) == Some(status),
                Err(e) => Self::named(value@) is None && e@ == "invalid automation status: "@ + value@,
            },
    {
        if text::str_eq(value, "ACTIVE") {
            Ok(AutomationStatus::Active)
        } else if text::str_eq(value, "PAUSED") {
            Ok(AutomationStatus::Paused)
        } else {
            let mut message: String = "invalid automation status: ".to_owned();
            message.push_str(value);
            Err(message)
        }
    }
}

proof fn lemma_status_names()
    ensures
        "ACTIVE"@ != "PAUSED"@,
{
    reveal_strlit("ACTIVE");
    reveal_strlit("PAUSED");
    assert("ACTIVE"@[0] != "PAUSED"@[0]);
}

/// How a run came about.
#[derive(Clone, Copy, Debug, PartialEq, Eq, Structural)]
pub enum AutomationDispatchMode {
    Scheduled,
    Manual,
}

impl AutomationDispatchMode {
    /// The stored name of the mode.
    pub open spec fn name(self) -> Seq<char> {
        match self {
            AutomationDispatchMode::Scheduled => "scheduled"@,
            AutomationDispatchMode::Manual => "manual"@,
        }
    }

    /// The mode that a stored name means.
    pub open spec fn named(value: Seq<char>) -> Option<AutomationDispatchMode> {
        if value == "scheduled"@ {
            Some(AutomationDispatchMode::Scheduled)
        } else if value == "manual"@ {
            Some(AutomationDispatchMode::Manual)
        } else {
            None
        }
    }

    /// The stored name of the mode.
    pub fn as_str(self) -> (r: &'static str)
        ensures
            r@ == self.name(),
            Self::named(r@) == Some(self),
    {
        proof {
            reveal_strlit("scheduled");
            reveal_strlit("manual");
            assert("scheduled"@.len() != "manual"@.len());
        }
        match self {
            AutomationDispatchMode::Scheduled => "scheduled",
            AutomationDispatchMode::Manual => "manual",
        }
    }

    /// Reads the stored name of a mode.
    pub fn parse(value: &str) -> (r: Result<AutomationDispatchMode, String>)
        ensures
            match r {
                Ok(mode) => Self::named(value@) == Some(mode),
                Err(e) => Self::named(value@) is None && e@ == "invalid automation dispatch mode: "@ + value@,
            },
    {
        if text::str_eq(value, "scheduled") {
            Ok(AutomationDispatchMode::Scheduled)
        } else if text::str_eq(value, "manual") {
            Ok(AutomationDispatchMode::Manual)
        } else {
            let mut message: String = "invalid automation dispatch mode: ".to_owned();
            message.push_str(value);
            Err(message)
        }
    }
}

/// What becomes of a run that failed and may be tried again.
#[derive(Clone, Copy, Debug, PartialEq, Eq, Structural)]
pub enum AutomationDispatchRetryOutcome {
    LostClaim,
    ReleasedForRetry,
    MarkedTerminal,
    Cancelled,
}

/// What an automation runs in.
#[derive(Debug, PartialEq, Eq)]
pub enum AutomationTarget {
    Cron { cwds: Vec<String> },
    Heartbeat { thread_id: ThreadId },
}

impl AutomationTarget {
    /// The kind of an automation with this target.
    pub open spec fn kind_of(self) -> AutomationKind {
        match self {
            AutomationTarget::Cron { cwds } => AutomationKind::Cron,
            AutomationTarget::Heartbeat { thread_id } => AutomationKind::Heartbeat,
        }
    }

    /// The kind of an automation with this target.
    pub fn kind(&self) -> (r: AutomationKind)
        ensures
            r == self.kind_of(),
    {
        match self {
            AutomationTarget::Cron { cwds: _ } => AutomationKind::Cron,
            AutomationTarget::Heartbeat { thread_id: _ } => AutomationKind::Heartbeat,
        }
    }
}

/// The characters of a target.
#[verifier::ext_equal]
pub enum Target {
    Cron(Seq<Seq<char>>),
    Heartbeat(ThreadId),
}

impl View for AutomationTarget {
    type V = Target;

    open spec fn view(&self) -> Target {
        match *self {
            AutomationTarget::Cron { cwds } => Target::Cron(text::views(cwds@)),
            AutomationTarget::Heartbeat { thread_id } => Target::Heartbeat(thread_id),
        }
    }
}

/// Whether the two lists hold the same strings.
pub fn same_strings(a: &Vec<String>, b: &Vec<String>) -> (r: bool)
    ensures
        r == (text::views(a@) == text::views(b@)),
{
    if a.len() != b.len() {
        assert(text::views(a@).len() != text::views(b@).len());
        return false;
    }
    let mut i: usize = 0;
    while i < a.len()
        invariant
            i <= a.len(),
            a.len() == b.len(),
            forall|j: int| 0 <= j < i ==> text::views(a@)[j] == text::views(b@)[j],
        decreases a.len() - i,
    {
        if !text::str_eq(a[i].as_str(), b[i].as_str()) {
            assert(text::views(a@)[i as int] != text::views(b@)[i as int]);
            return false;
        }
        i = i + 1;
    }
    assert(text::views(a@) =~= text::views(b@));
    true
}

/// Whether the two targets are the same.
pub fn same_target(a: &AutomationTarget, b: &AutomationTarget) -> (r: bool)
    ensures
        r == (a@ == b@),
{
    match (a, b) {
        (AutomationTarget::Cron { cwds: x }, AutomationTarget::Cron { cwds: y }) => same_strings(x, y),
        (AutomationTarget::Heartbeat { thread_id: x }, AutomationTarget::Heartbeat { thread_id: y }) => x.value
            == y.value,
        _ => false,
    }
}

/// When a run asks for approval: on request where nothing is stored, or as the
/// stored JSON says that only its owner can read.
#[derive(Debug, PartialEq, Eq)]
pub enum ApprovalPolicy {
    OnRequest,
    Json(String),
}

impl ApprovalPolicy {
    /// The policy that a column stores; without one a run asks on request.
    pub open spec fn of_column(column: Option<String>) -> ApprovalPolicy {
        match column {
            Some(json) => ApprovalPolicy::Json(json),
            None => ApprovalPolicy::OnRequest,
        }
    }

    /// Reads the policy that a column stores.
    pub fn from_column(column: Option<String>) -> (r: ApprovalPolicy)
        ensures
            r == Self::of_column(column),
    {
        match column {
            Some(json) => ApprovalPolicy::Json(json),
            None => ApprovalPolicy::OnRequest,
        }
    }
}

/// The settings that a scheduled run starts with, as they are read. Those that
/// only their owners can read are kept as JSON; in the last two, nothing stands
/// for the default of the owner.
#[derive(Debug, PartialEq, Eq)]
pub struct AutomationDispatchSettings {
    pub workspace_roots: Vec<String>,
    pub approval_policy: ApprovalPolicy,
    pub approvals_reviewer: Option<String>,
    pub permission_profile: Option<String>,
}

/// An automation. Times are in seconds since the epoch.
#[derive(Debug, PartialEq, Eq)]
pub struct Automation {
    pub id: String,
    pub owner_thread_id: ThreadId,
    pub name: String,
    pub prompt: String,
    pub status: AutomationStatus,
    pub rrule: String,
    pub next_run_at: Option<i64>,
    pub last_run_at: Option<i64>,
    pub created_at: i64,
    pub updated_at: i64,
    pub model: Option<String>,
    pub reasoning_effort: Option<String>,
    pub target: AutomationTarget,
    pub dispatch_settings: Option<AutomationDispatchSettings>,
}

/// The columns of a row that belong to a run in flight.
#[derive(Debug, PartialEq, Eq)]
pub struct DispatchColumns {
    pub claimed_by: Option<String>,
    pub ownership_token: Option<String>,
    pub lease_until: Option<i64>,
    pub in_flight_run_at: Option<i64>,
    pub in_flight_dispatch_mode: Option<String>,
    pub dispatch_cwd_index: i64,
    pub retry_at: Option<i64>,
    pub attempt_count: i64,
    pub last_error: Option<String>,
    pub last_dispatch_succeeded: Option<bool>,
    pub last_dispatch_started_at: Option<i64>,
    pub last_dispatch_completed_at: Option<i64>,
    pub last_dispatch_failed_at: Option<i64>,
}

impl DispatchColumns {
    /// Whether nothing is in flight and nothing ever was.
    pub open spec fn is_blank(self) -> bool {
        &&& self.claimed_by is None
        &&& self.ownership_token is None
        &&& self.lease_until is None
        &&& self.in_flight_run_at is None
        &&& self.in_flight_dispatch_mode is None
        &&& self.dispatch_cwd_index == 0
        &&& self.retry_at is None
        &&& self.attempt_count == 0
        &&& self.last_error is None
        &&& self.last_dispatch_succeeded is None
        &&& self.last_dispatch_started_at is None
        &&& self.last_dispatch_completed_at is None
        &&& self.last_dispatch_failed_at is None
    }

    /// The columns of an automation that has never run.
    pub fn blank() -> (r: DispatchColumns)
        ensures
            r.is_blank(),
    {
        DispatchColumns {
            claimed_by: None,
            ownership_token: None,
            lease_until: None,
            in_flight_run_at: None,
            in_flight_dispatch_mode: None,
            dispatch_cwd_index: 0,
            retry_at: None,
            attempt_count: 0,
            last_error: None,
            last_dispatch_succeeded: None,
            last_dispatch_started_at: None,
            last_dispatch_completed_at: None,
            last_dispatch_failed_at: None,
        }
    }
}

/// An automation as it is stored.
#[derive(Debug, PartialEq, Eq)]
pub struct AutomationRow {
    pub id: String,
    pub owner_thread_id: String,
    pub kind: String,
    pub name: String,
    pub prompt: String,
    pub status: String,
    pub rrule: String,
    pub next_run_at: Option<i64>,
    pub last_run_at: Option<i64>,
    pub created_at: i64,
    pub updated_at: i64,
    pub model: Option<String>,
    pub reasoning_effort: Option<String>,
    pub cron_cwds_json: Option<String>,
    pub target_thread_id: Option<String>,
    pub dispatch_workspace_roots_json: Option<String>,
    pub dispatch_approval_policy_json: Option<String>,
    pub dispatch_approvals_reviewer_json: Option<String>,
    pub dispatch_permission_profile_json: Option<String>,
    pub dispatch: DispatchColumns,
}

/// A run of an automation that a dispatcher holds.
#[derive(Debug, PartialEq, Eq)]
pub struct AutomationDispatchClaim {
    pub automation: Automation,
    pub ownership_token: String,
    pub dispatch_mode: AutomationDispatchMode,
    pub in_flight_run_at: i64,
    pub dispatch_cwd_index: usize,
    pub attempt_count: i64,
    pub next_run_at_after_claim: Option<i64>,
}

/// What becomes of an attempt to run an automation at once.
#[derive(Debug, PartialEq, Eq)]
pub enum AutomationDispatchOutcome {
    NotFound,
    AlreadyClaimed,
    Claimed(Box<AutomationDispatchClaim>),
}

/// What the owners of the opaque columns found wrong with them: the message
/// for the first dispatch setting that they cannot read, and the message for
/// the reasoning effort.
#[derive(Debug, PartialEq, Eq)]
pub struct ColumnFaults {
    pub dispatch: Option<String>,
    pub reasoning_effort: Option<String>,
}

/// The message for a second that the calendar does not hold.
pub open spec fn timestamp_message(seconds: int) -> Seq<char> {
    "invalid unix timestamp: "@ + text::signed_decimal(seconds)
}

/// What is wrong with the target of a row of the given kind.
pub open spec fn target_fault(row: AutomationRow, kind: AutomationKind) -> Option<Seq<char>> {
    match kind {
        AutomationKind::Cron => match row.cron_cwds_json {
            None => Some("missing cron_cwds_json for cron automation"@),
            Some(cwds) => match json::json_strings(cwds@) {
                Err(e) => Some(e),
                Ok(_) => None,
            },
        },
        AutomationKind::Heartbeat => match row.target_thread_id {
            None => Some("missing target_thread_id for heartbeat automation"@),
            Some(id) => match ids::uuid_outcome(id@) {
                Err(e) => Some(e),
                Ok(_) => None,
            },
        },
    }
}

/// Whether the row has dispatch settings: only those of cron automations count.
pub open spec fn has_dispatch(row: AutomationRow, kind: AutomationKind) -> bool {
    kind is Cron && (row.dispatch_workspace_roots_json is Some || row.dispatch_approval_policy_json is Some
        || row.dispatch_approvals_reviewer_json is Some || row.dispatch_permission_profile_json is Some)
}

/// What is wrong with the dispatch settings of a row.
pub open spec fn dispatch_fault(row: AutomationRow, kind: AutomationKind, faults: ColumnFaults) -> Option<Seq<char>> {
    if !has_dispatch(row, kind) {
        None
    } else {
        match row.dispatch_workspace_roots_json {
            Some(roots) => match json::json_paths(roots@) {
                Err(e) => Some(e),
                Ok(_) => text::opt_view(faults.dispatch),
            },
            None => text::opt_view(faults.dispatch),
        }
    }
}

/// The first time of a row that the calendar does not hold.
pub open spec fn time_fault(row: AutomationRow) -> Option<Seq<char>> {
    if row.next_run_at is Some && !schedule::in_calendar(row.next_run_at->0 as int) {
        Some(timestamp_message(row.next_run_at->0 as int))
    } else if row.last_run_at is Some && !schedule::in_calendar(row.last_run_at->0 as int) {
        Some(timestamp_message(row.last_run_at->0 as int))
    } else if !schedule::in_calendar(row.created_at as int) {
        Some(timestamp_message(row.created_at as int))
    } else if !schedule::in_calendar(row.updated_at as int) {
        Some(timestamp_message(row.updated_at as int))
    } else {
        None
    }
}

/// What is wrong with a row, if anything; the first fault counts.
pub open spec fn row_fault(row: AutomationRow, faults: ColumnFaults) -> Option<Seq<char>> {
    match AutomationKind::named(row.kind@) {
        None => Some("invalid automation kind: "@ + row.kind@),
        Some(kind) => if target_fault(row, kind) is Some {
            target_fault(row, kind)
        } else if dispatch_fault(row, kind, faults) is Some {
            dispatch_fault(row, kind, faults)
        } else if row.reasoning_effort is Some && faults.reasoning_effort is Some {
            Some(faults.reasoning_effort->0@)
        } else if ids::uuid_outcome(row.owner_thread_id@) is Err {
            Some(ids::uuid_outcome(row.owner_thread_id@)->Err_0)
        } else if AutomationStatus::named(row.status@) is None {
            Some("invalid automation status: "@ + row.status@)
        } else {
            time_fault(row)
        },
    }
}

/// The target of a row without a fault.
pub open spec fn row_target(row: AutomationRow) -> Target {
    match AutomationKind::named(row.kind@) {
        Some(AutomationKind::Cron) => Target::Cron(json::json_strings(row.cron_cwds_json->0@)->Ok_0),
        _ => Target::Heartbeat(ThreadId { value: ids::uuid_value(row.target_thread_id->0@)->0 }),
    }
}

/// Whether the settings are those of the row.
pub open spec fn decodes_dispatch(row: AutomationRow, settings: Option<AutomationDispatchSettings>) -> bool {
    match settings {
        None => !has_dispatch(row, AutomationKind::named(row.kind@)->0),
        Some(s) => {
            &&& has_dispatch(row, AutomationKind::named(row.kind@)->0)
            &&& text::views(s.workspace_roots@) == (match row.dispatch_workspace_roots_json {
                Some(roots) => json::json_paths(roots@)->Ok_0,
                None => Seq::empty(),
            })
            &&& s.approval_policy == ApprovalPolicy::of_column(row.dispatch_approval_policy_json)
            &&& s.approvals_reviewer == row.dispatch_approvals_reviewer_json
            &&& s.permission_profile == row.dispatch_permission_profile_json
        },
    }
}

/// Whether the automation is the one that the row stores.
pub open spec fn decodes(row: AutomationRow, a: Automation) -> bool {
    &&& a.id == row.id
    &&& Some(a.owner_thread_id.value) == ids::uuid_value(row.owner_thread_id@)
    &&& a.name == row.name
    &&& a.prompt == row.prompt
    &&& Some(a.status) == AutomationStatus::named(row.status@)
    &&& a.rrule == row.rrule
    &&& a.next_run_at == row.next_run_at
    &&& a.last_run_at == row.last_run_at
    &&& a.created_at == row.created_at
    &&& a.updated_at == row.updated_at
    &&& a.model == row.model
    &&& a.reasoning_effort == row.reasoning_effort
    &&& a.target@ == row_target(row)
    &&& decodes_dispatch(row, a.dispatch_settings)
}

fn check_time(seconds: i64) -> (r: Result<(), String>)
    ensures
        match r {
            Ok(_) => schedule::in_calendar(seconds as int),
            Err(e) => !schedule::in_calendar(seconds as int) && e@ == timestamp_message(seconds as int),
        },
{
    if schedule::is_datetime(seconds) {
        return Ok(());
    }
    let mut message: String = "invalid unix timestamp: ".to_owned();
    text::push_signed_decimal(&mut message, seconds);
    Err(message)
}

fn check_times(row: &AutomationRow) -> (r: Result<(), String>)
    ensures
        match r {
            Ok(_) => time_fault(*row) is None,
            Err(e) => time_fault(*row) == Some(e@),
        },
{
    match row.next_run_at {
        Some(t) => match check_time(t) {
            Ok(_) => {},
            Err(e) => return Err(e),
        },
        None => {},
    }
    match row.last_run_at {
        Some(t) => match check_time(t) {
            Ok(_) => {},
            Err(e) => return Err(e),
        },
        None => {},
    }
    match check_time(row.created_at) {
        Ok(_) => {},
        Err(e) => return Err(e),
    }
    check_time(row.updated_at)
}

fn decode_target(kind: AutomationKind, cwds: &Option<String>, thread: &Option<String>, Ghost(row): Ghost<
    AutomationRow,
>) -> (r: Result<AutomationTarget, String>)
    requires
        row.cron_cwds_json == *cwds,
        row.target_thread_id == *thread,
        AutomationKind::named(row.kind@) == Some(kind),
    ensures
        match r {
            Ok(t) => target_fault(row, kind) is None && t@ == row_target(row),
            Err(e) => target_fault(row, kind) == Some(e@),
        },
{
    match kind {
        AutomationKind::Cron => match cwds {
            None => Err("missing cron_cwds_json for cron automation".to_owned()),
            Some(cwds) => match json::parse_json_strings(cwds.as_str()) {
                Ok(cwds) => Ok(AutomationTarget::Cron { cwds }),
                Err(e) => Err(e),
            },
        },
        AutomationKind::Heartbeat => match thread {
            None => Err("missing target_thread_id for heartbeat automation".to_owned()),
            Some(id) => match ThreadId::from_string(id.as_str()) {
                Ok(thread_id) => Ok(AutomationTarget::Heartbeat { thread_id }),
                Err(e) => Err(e),
            },
        },
    }
}

impl Automation {
    /// Reads the automation that a row stores. `faults` tells what the owners
    /// of the opaque columns found wrong with them.
    pub fn try_from_row(row: AutomationRow, faults: ColumnFaults) -> (r: Result<Automation, String>)
        ensures
            match r {
                Ok(a) => row_fault(row, faults) is None && decodes(row, a),
                Err(e) => row_fault(row, faults) == Some(e@),
            },
    {
        let ghost whole = row;
        let kind = match AutomationKind::parse(row.kind.as_str()) {
            Ok(kind) => kind,
            Err(e) => return Err(e),
        };
        let target = match decode_target(kind, &row.cron_cwds_json, &row.target_thread_id, Ghost(whole)) {
            Ok(target) => target,
            Err(e) => return Err(e),
        };
        let cron = match kind {
            AutomationKind::Cron => true,
            AutomationKind::Heartbeat => false,
        };
        let has_settings = cron && (row.dispatch_workspace_roots_json.is_some()
            || row.dispatch_approval_policy_json.is_some() || row.dispatch_approvals_reviewer_json.is_some()
            || row.dispatch_permission_profile_json.is_some());
        let mut workspace_roots: Vec<String> = Vec::new();
        assert(text::views(workspace_roots@) =~= Seq::<Seq<char>>::empty());
        if has_settings {
            match &row.dispatch_workspace_roots_json {
                Some(roots) => match json::parse_json_paths(roots.as_str()) {
                    Ok(roots) => {
                        workspace_roots = roots;
                    },
                    Err(e) => return Err(e),
                },
                None => {},
            }
            match faults.dispatch {
                Some(e) => return Err(e),
                None => {},
            }
        }
        if row.reasoning_effort.is_some() {
            match faults.reasoning_effort {
                Some(e) => return Err(e),
                None => {},
            }
        }
        let owner_thread_id = match ThreadId::from_string(row.owner_thread_id.as_str()) {
            Ok(id) => id,
            Err(e) => return Err(e),
        };
        let status = match AutomationStatus::parse(row.status.as_str()) {
            Ok(status) => status,
            Err(e) => return Err(e),
        };
        match check_times(&row) {
            Ok(_) => {},
            Err(e) => return Err(e),
        }
        let dispatch_settings = if has_settings {
            Some(
                AutomationDispatchSettings {
                    workspace_roots,
                    approval_policy: ApprovalPolicy::from_column(row.dispatch_approval_policy_json),
                    approvals_reviewer: row.dispatch_approvals_reviewer_json,
                    permission_profile: row.dispatch_permission_profile_json,
                },
            )
        } else {
            None
        };
        Ok(
            Automation {
                id: row.id,
                owner_thread_id,
                name: row.name,
                prompt: row.prompt,
                status,
                rrule: row.rrule,
                next_run_at: row.next_run_at,
                last_run_at: row.last_run_at,
                created_at: row.created_at,
                updated_at: row.updated_at,
                model: row.model,
                reasoning_effort: row.reasoning_effort,
                target,
                dispatch_settings,
            },
        )
    }
}

/// A kind, a status and a way of dispatching are read from their own names and
/// from nothing else.
pub proof fn law_names_are_read_back(value: Seq<char>)
    ensures
        AutomationKind::named(value) == Some(AutomationKind::Cron) <==> value == "cron"@,
        AutomationKind::named(value) == Some(AutomationKind::Heartbeat) <==> value == "heartbeat"@,
        AutomationStatus::named(value) == Some(AutomationStatus::Active) <==> value == "ACTIVE"@,
        AutomationStatus::named(value) == Some(AutomationStatus::Paused) <==> value == "PAUSED"@,
        AutomationDispatchMode::named(value) == Some(AutomationDispatchMode::Scheduled) <==> value == "scheduled"@,
        AutomationDispatchMode::named(value) == Some(AutomationDispatchMode::Manual) <==> value == "manual"@,
        forall|kind: AutomationKind| #[trigger] AutomationKind::named(kind.name()) == Some(kind),
        forall|status: AutomationStatus| #[trigger] AutomationStatus::named(status.name()) == Some(status),
        forall|mode: AutomationDispatchMode| #[trigger] AutomationDispatchMode::named(mode.name()) == Some(mode),
{
    reveal_strlit("cron");
    reveal_strlit("heartbeat");
    reveal_strlit("ACTIVE");
    reveal_strlit("PAUSED");
    reveal_strlit("scheduled");
    reveal_strlit("manual");
    assert("cron"@.len() != "heartbeat"@.len());
    assert("ACTIVE"@[0] != "PAUSED"@[0]);
    assert("scheduled"@.len() != "manual"@.len());
    assert forall|kind: AutomationKind| #[trigger] AutomationKind::named(kind.name()) == Some(kind) by {
        match kind {
            AutomationKind::Cron => {},
            AutomationKind::Heartbeat => {},
        }
    }
    assert forall|status: AutomationStatus| #[trigger] AutomationStatus::named(status.name()) == Some(status) by {
        match status {
            AutomationStatus::Active => {},
            AutomationStatus::Paused => {},
        }
    }
    assert forall|mode: AutomationDispatchMode| #[trigger] AutomationDispatchMode::named(mode.name()) == Some(mode) by {
        match mode {
            AutomationDispatchMode::Scheduled => {},
            AutomationDispatchMode::Manual => {},
        }
    }
}

/// A row is read exactly where its kind and its status are names, what its kind
/// needs is there and can be read, its owner is a thread, all of its times lie
/// in the calendar, and no column that is decoded elsewhere was found faulty.
/// Of what a row is of another kind for, nothing is looked at.
pub proof fn law_row_is_read_where_nothing_is_wrong(row: AutomationRow, faults: ColumnFaults)
    ensures
        row_fault(row, faults) is None <==> {
            &&& row.kind@ == "cron"@ || row.kind@ == "heartbeat"@
            &&& row.kind@ == "cron"@ ==> row.cron_cwds_json is Some && json::json_strings(row.cron_cwds_json->0@) is Ok
            &&& row.kind@ == "heartbeat"@ ==> row.target_thread_id is Some && ids::uuid_outcome(row.target_thread_id->0@)
                is Ok
            &&& row.kind@ == "cron"@ && (row.dispatch_workspace_roots_json is Some || row.dispatch_approval_policy_json
                is Some || row.dispatch_approvals_reviewer_json is Some || row.dispatch_permission_profile_json is Some)
                ==> faults.dispatch is None && (row.dispatch_workspace_roots_json is Some ==> json::json_paths(
                row.dispatch_workspace_roots_json->0@,
            ) is Ok)
            &&& row.reasoning_effort is None || faults.reasoning_effort is None
            &&& ids::uuid_outcome(row.owner_thread_id@) is Ok
            &&& row.status@ == "ACTIVE"@ || row.status@ == "PAUSED"@
            &&& row.next_run_at is Some ==> schedule::in_calendar(row.next_run_at->0 as int)
            &&& row.last_run_at is Some ==> schedule::in_calendar(row.last_run_at->0 as int)
            &&& schedule::in_calendar(row.created_at as int)
            &&& schedule::in_calendar(row.updated_at as int)
        },
{
    law_names_are_read_back(row.kind@);
    law_names_are_read_back(row.status@);
}

/// Of several faults the first is told: the kind, then what its kind needs, then
/// the settings of its runs, then the effort, the owner, the status, and the
/// times.
pub proof fn law_first_fault_of_a_row_is_told(row: AutomationRow, faults: ColumnFaults)
    ensures
        row.kind@ != "cron"@ && row.kind@ != "heartbeat"@ ==> row_fault(row, faults) == Some(
            "invalid automation kind: "@ + row.kind@,
        ),
        row.kind@ == "cron"@ && row.cron_cwds_json is None ==> row_fault(row, faults) == Some(
            "missing cron_cwds_json for cron automation"@,
        ),
        row.kind@ == "heartbeat"@ && row.target_thread_id is None ==> row_fault(row, faults) == Some(
            "missing target_thread_id for heartbeat automation"@,
        ),
        row_fault(row, ColumnFaults { dispatch: None, reasoning_effort: None }) is None && row.reasoning_effort is Some
            && faults.reasoning_effort is Some && faults.dispatch is None ==> row_fault(row, faults) == Some(
            faults.reasoning_effort->0@,
        ),
        (row.kind@ == "heartbeat"@ && row.target_thread_id is Some && ids::uuid_outcome(row.target_thread_id->0@) is Ok
            && row.reasoning_effort is None) ==> row_fault(row, faults) == (if ids::uuid_outcome(row.owner_thread_id@)
            is Err {
            Some(ids::uuid_outcome(row.owner_thread_id@)->Err_0)
        } else if row.status@ != "ACTIVE"@ && row.status@ != "PAUSED"@ {
            Some("invalid automation status: "@ + row.status@)
        } else {
            time_fault(row)
        }),
{
    law_names_are_read_back(row.kind@);
    law_names_are_read_back(row.status@);
}

/// The first of the times of a row that lies outside the calendar is told: the
/// next run, the last one, when it was created, when it was changed.
pub proof fn law_first_time_out_of_the_calendar_is_told(row: AutomationRow, other: AutomationRow)
    requires
        schedule::in_calendar(other.created_at as int),
        schedule::in_calendar(other.updated_at as int),
        other.next_run_at is None,
        other.last_run_at is None,
    ensures
        time_fault(other) is None,
        row.next_run_at matches Some(at) ==> !schedule::in_calendar(at as int) ==> time_fault(row) == Some(
            "invalid unix timestamp: "@ + text::signed_decimal(at as int),
        ) && time_fault(AutomationRow { next_run_at: row.next_run_at, ..other }) == time_fault(row),
        row.last_run_at matches Some(at) ==> !schedule::in_calendar(at as int) ==> time_fault(
            AutomationRow { last_run_at: row.last_run_at, created_at: row.created_at, ..other },
        ) == Some("invalid unix timestamp: "@ + text::signed_decimal(at as int)),
        !schedule::in_calendar(row.created_at as int) ==> time_fault(
            AutomationRow { created_at: row.created_at, updated_at: row.updated_at, ..other },
        ) == Some("invalid unix timestamp: "@ + text::signed_decimal(row.created_at as int)),
        !schedule::in_calendar(row.updated_at as int) ==> time_fault(
            AutomationRow { updated_at: row.updated_at, ..other },
        ) == Some("invalid unix timestamp: "@ + text::signed_decimal(row.updated_at as int)),
{
}

/// A policy that is not stored is that which asks on request.
pub proof fn law_missing_policy_asks_on_request(column: Option<String>)
    ensures
        column is None ==> ApprovalPolicy::of_column(column) is OnRequest,
        column matches Some(json) ==> ApprovalPolicy::of_column(column) == ApprovalPolicy::Json(json),
{
}

/// An automation that is read is what its row holds, field by field, and names
/// the thread or the directories that the row names.
pub proof fn law_automation_is_what_its_row_holds(row: AutomationRow, a: Automation)
    requires
        decodes(row, a),
        row.kind@ == "cron"@ || row.kind@ == "heartbeat"@,
    ensures
        a.id == row.id && a.name == row.name && a.prompt == row.prompt && a.rrule == row.rrule,
        a.next_run_at == row.next_run_at && a.last_run_at == row.last_run_at,
        a.created_at == row.created_at && a.updated_at == row.updated_at,
        a.model == row.model && a.reasoning_effort == row.reasoning_effort,
        row.status@ == "ACTIVE"@ ==> a.status is Active,
        row.status@ == "PAUSED"@ ==> a.status is Paused,
        row.kind@ == "cron"@ ==> a.target is Cron && text::views(a.target->cwds@) == json::json_strings(
            row.cron_cwds_json->0@,
        )->Ok_0,
        row.kind@ == "heartbeat"@ ==> a.target is Heartbeat && a.target->thread_id.value == ids::uuid_value(
            row.target_thread_id->0@,
        )->0,
        row.kind@ == "heartbeat"@ ==> a.dispatch_settings is None,
        a.dispatch_settings is Some <==> row.kind@ == "cron"@ && (row.dispatch_workspace_roots_json is Some
            || row.dispatch_approval_policy_json is Some || row.dispatch_approvals_reviewer_json is Some
            || row.dispatch_permission_profile_json is Some),
{
    law_names_are_read_back(row.kind@);
    law_names_are_read_back(row.status@);
}

/// The settings of an automation's runs are what its row holds of each, with no
/// directories where none are stored.
pub proof fn law_settings_are_what_the_row_holds(row: AutomationRow, a: Automation)
    requires
        decodes(row, a),
        a.dispatch_settings is Some,
    ensures
        a.dispatch_settings->0.approvals_reviewer == row.dispatch_approvals_reviewer_json,
        a.dispatch_settings->0.permission_profile == row.dispatch_permission_profile_json,
        row.dispatch_approval_policy_json is None ==> a.dispatch_settings->0.approval_policy is OnRequest,
        row.dispatch_approval_policy_json matches Some(policy) ==> a.dispatch_settings->0.approval_policy
            == ApprovalPolicy::Json(policy),
        row.dispatch_workspace_roots_json is None ==> a.dispatch_settings->0.workspace_roots@.len() == 0,
        row.dispatch_workspace_roots_json matches Some(roots) ==> text::views(
            a.dispatch_settings->0.workspace_roots@,
        ) == json::json_paths(roots@)->Ok_0,
{
    if row.dispatch_workspace_roots_json is None {
        assert(text::views(a.dispatch_settings->0.workspace_roots@).len() == 0);
    }
}

} // verus!
