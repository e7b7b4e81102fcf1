//! Hooks that run when a turn is interrupted.

use vstd::prelude::*;

use crate::hooks::command_runner::CommandRunResult;
use crate::ids;
use crate::ids::ThreadId;
use crate::json;
use crate::json::JShape;
use crate::json::JView;
use crate::json::Json;
use crate::json::JsonShape;
use crate::text;

verus! {

/// Why a turn is interrupted.
#[derive(Clone, Copy, Debug, PartialEq, Eq, Structural)]
pub enum InterruptReason {
    User,
    Shutdown,
    AutoReview,
}

impl InterruptReason {
    /// The name of the reason.
    pub open spec fn name(self) -> Seq<char> {
        match self {
            InterruptReason::User => "user"@,
            InterruptReason::Shutdown => "shutdown"@,
            InterruptReason::AutoReview => "auto_review"@,
        }
    }

    /// The name of the reason.
    pub fn as_str(self) -> (r: &'static str)
        ensures
            r@ == self.name(),
    {
        match self {
            InterruptReason::User => "user",
            InterruptReason::Shutdown => "shutdown",
            InterruptReason::AutoReview => "auto_review",
        }
    }
}

/// An interrupted turn, as hooks learn of it.
pub struct InterruptRequest {
    pub session_id: ThreadId,
    pub turn_id: String,
    pub cwd: String,
    pub transcript_path: Option<String>,
    pub model: String,
    pub permission_mode: String,
    pub reason: InterruptReason,
}

/// What a hook reads of an interrupted turn.
pub struct InterruptCommandInput {
    pub session_id: String,
    pub turn_id: String,
    pub transcript_path: Option<String>,
    pub cwd: String,
    pub hook_event_name: String,
    pub model: String,
    pub permission_mode: String,
    pub reason: String,
}

impl InterruptRequest {
    /// What a hook reads of the interrupted turn.
    pub fn command_input(&self) -> (r: InterruptCommandInput)
        ensures
            r.session_id@ == ids::uuid_text(self.session_id.value),
            r.turn_id@ == self.turn_id@,
            text::opt_view(r.transcript_path) == text::opt_view(self.transcript_path),
            r.cwd@ == self.cwd@,
            r.hook_event_name@ == "Interrupt"@,
            r.model@ == self.model@,
            r.permission_mode@ == self.permission_mode@,
            r.reason@ == self.reason.name(),
    {
        InterruptCommandInput {
            session_id: self.session_id.text(),
            turn_id: self.turn_id.clone(),
            transcript_path: text::clone_opt(&self.transcript_path),
            cwd: self.cwd.clone(),
            hook_event_name: "Interrupt".to_string(),
            model: self.model.clone(),
            permission_mode: self.permission_mode.clone(),
            reason: self.reason.as_str().to_string(),
        }
    }
}

/// How a hook ended.
#[derive(Clone, Copy, Debug, PartialEq, Eq, Structural)]
pub enum HookRunStatus {
    Completed,
    Failed,
}

/// What an entry of a hook's output is.
#[derive(Clone, Copy, Debug, PartialEq, Eq, Structural)]
pub enum HookOutputEntryKind {
    Warning,
    Error,
}

/// Something that a hook has to say.
#[derive(Debug, PartialEq)]
pub struct HookOutputEntry {
    pub kind: HookOutputEntryKind,
    pub text: String,
}

/// A hook that has run.
pub struct HookRunSummary {
    pub status: HookRunStatus,
    pub started_at: i64,
    pub completed_at: i64,
    pub duration_ms: i64,
    pub entries: Vec<HookOutputEntry>,
}

/// A hook that has run for a turn.
pub struct HookCompletedEvent {
    pub turn_id: Option<String>,
    pub run: HookRunSummary,
}

/// The hooks that have run for an interrupted turn.
pub struct InterruptOutcome {
    pub hook_events: Vec<HookCompletedEvent>,
}

/// The message that a hook's output holds: an object with no entry but
/// `systemMessage`, which is a string or null. Other values are no output.
pub open spec fn interrupt_message(v: JView) -> Option<Option<Seq<char>>> {
    match v.shape {
        JShape::Object(fields) => if forall|i: int|
            0 <= i < fields.len() ==> (#[trigger] fields[i]).name == "systemMessage"@ {
            match json::field_of(fields, "systemMessage"@) {
                None => Some(None),
                Some(message) => match message.shape {
                    JShape::Null => Some(None),
                    JShape::Str(s) => Some(Some(s)),
                    _ => None,
                },
            }
        } else {
            None
        },
        _ => None,
    }
}

/// The message that a hook's output holds.
pub fn output_message(v: &Json) -> (r: Option<Option<String>>)
    ensures
        match r {
            Some(message) => interrupt_message(v@) == Some(text::opt_view(message)),
            None => interrupt_message(v@) is None,
        },
{
    match &v.shape {
        JsonShape::Object(fields) => {
            let mut i: usize = 0;
            proof {
                json::lemma_jfields(fields@);
            }
            while i < fields.len()
                invariant
                    i <= fields.len(),
                    v@.shape == JShape::Object(json::jfields(fields@)),
                    json::jfields(fields@).len() == fields@.len(),
                    forall|k: int|
                        0 <= k < fields@.len() ==> (#[trigger] json::jfields(fields@)[k]).name == fields@[k].name@,
                    forall|k: int|
                        0 <= k < i ==> (#[trigger] json::jfields(fields@)[k]).name == "systemMessage"@,
                decreases fields.len() - i,
            {
                if !text::str_eq(fields[i].name.as_str(), "systemMessage") {
                    assert(json::jfields(fields@)[i as int].name != "systemMessage"@);
                    return None;
                }
                i = i + 1;
            }
            match json::get_field(fields, "systemMessage") {
                None => Some(None),
                Some(message) => match &message.shape {
                    JsonShape::Null => Some(None),
                    JsonShape::Str(s) => Some(Some(s.clone())),
                    _ => None,
                },
            }
        },
        _ => None,
    }
}

/// Whether the output begins as a JSON object or array does.
pub open spec fn json_like(stdout: Seq<char>) -> bool {
    let rest = text::trimmed_start(stdout);
    rest.len() > 0 && (rest[0] == '{' || rest[0] == '[')
}

/// Whether the output begins as a JSON object or array does.
pub fn looks_like_json(stdout: &str) -> (r: bool)
    ensures
        r == json_like(stdout@),
{
    let rest = text::char_vec(text::trim_start(stdout).as_str());
    rest.len() > 0 && (rest[0] == '{' || rest[0] == '[')
}

/// What is read out of a hook's output.
pub open spec fn parsed_output(stdout: Seq<char>) -> Option<Option<Seq<char>>> {
    match json::json_value(text::trimmed(stdout)) {
        Ok(v) => interrupt_message(v),
        Err(_) => None,
    }
}

/// The message that a hook's output holds, where it can be read.
pub fn parse_interrupt(stdout: &str) -> (r: Option<Option<String>>)
    ensures
        match r {
            Some(message) => parsed_output(stdout@) == Some(text::opt_view(message)),
            None => parsed_output(stdout@) is None,
        },
{
    match Json::parse(text::trim(stdout).as_str()) {
        Ok(v) => output_message(&v),
        Err(_) => None,
    }
}

/// What an entry says.
pub open spec fn entry_view(e: HookOutputEntry) -> (HookOutputEntryKind, Seq<char>) {
    (e.kind, e.text@)
}

/// What the entries say.
pub open spec fn entries_view(es: Seq<HookOutputEntry>) -> Seq<(HookOutputEntryKind, Seq<char>)> {
    es.map_values(|e: HookOutputEntry| entry_view(e))
}

/// How the run ended and what it has to say. `parsed` is what is read out of
/// the output.
pub open spec fn run_verdict(
    error: Option<Seq<char>>,
    exit_code: Option<i32>,
    stdout: Seq<char>,
    parsed: Option<Option<Seq<char>>>,
) -> (HookRunStatus, Seq<(HookOutputEntryKind, Seq<char>)>) {
    match error {
        Some(message) => (HookRunStatus::Failed, seq![(HookOutputEntryKind::Error, message)]),
        None => match exit_code {
            Some(code) => if code != 0 {
                (
                    HookRunStatus::Failed,
                    seq![(HookOutputEntryKind::Error, "hook exited with code "@ + text::signed_decimal(code as int))],
                )
            } else if text::trimmed(stdout).len() == 0 {
                (HookRunStatus::Completed, Seq::empty())
            } else {
                match parsed {
                    Some(Some(message)) => (
                        HookRunStatus::Completed,
                        seq![(HookOutputEntryKind::Warning, message)],
                    ),
                    Some(None) => (HookRunStatus::Completed, Seq::empty()),
                    None => (
                        HookRunStatus::Failed,
                        seq![
                            (
                                HookOutputEntryKind::Error,
                                if json_like(stdout) {
                                    "hook returned invalid interrupt hook JSON output"@
                                } else {
                                    "Interrupt hook returned non-JSON stdout"@
                                },
                            ),
                        ],
                    ),
                }
            },
            None => (
                HookRunStatus::Failed,
                seq![(HookOutputEntryKind::Error, "hook exited without a status code"@)],
            ),
        },
    }
}

fn one_entry(kind: HookOutputEntryKind, text: String) -> (r: Vec<HookOutputEntry>)
    ensures
        entries_view(r@) == seq![(kind, text@)],
{
    let mut entries: Vec<HookOutputEntry> = Vec::new();
    let ghost said = text@;
    entries.push(HookOutputEntry { kind, text });
    assert(entries_view(entries@) =~= seq![(kind, said)]);
    entries
}

/// How the run ended and what it has to say, given what is read out of its
/// output.
pub fn judge_run(
    error: &Option<String>,
    exit_code: Option<i32>,
    stdout: &str,
    parsed: Option<Option<String>>,
) -> (r: (HookRunStatus, Vec<HookOutputEntry>))
    ensures
        (r.0, entries_view(r.1@)) == run_verdict(
            text::opt_view(*error),
            exit_code,
            stdout@,
            match parsed {
                Some(message) => Some(text::opt_view(message)),
                None => None,
            },
        ),
{
    if let Some(message) = error {
        return (HookRunStatus::Failed, one_entry(HookOutputEntryKind::Error, message.clone()));
    }
    match exit_code {
        Some(code) => {
            if code != 0 {
                let mut message = "hook exited with code ".to_string();
                text::push_signed_decimal(&mut message, code as i64);
                return (HookRunStatus::Failed, one_entry(HookOutputEntryKind::Error, message));
            }
            let trimmed = text::trim(stdout);
            if text::char_vec(trimmed.as_str()).len() == 0 {
                let none: Vec<HookOutputEntry> = Vec::new();
                assert(entries_view(none@) =~= Seq::empty());
                return (HookRunStatus::Completed, none);
            }
            match parsed {
                Some(Some(message)) => (HookRunStatus::Completed, one_entry(HookOutputEntryKind::Warning, message)),
                Some(None) => {
                    let none: Vec<HookOutputEntry> = Vec::new();
                    assert(entries_view(none@) =~= Seq::empty());
                    (HookRunStatus::Completed, none)
                },
                None => {
                    let message = if looks_like_json(stdout) {
                        "hook returned invalid interrupt hook JSON output".to_string()
                    } else {
                        "Interrupt hook returned non-JSON stdout".to_string()
                    };
                    (HookRunStatus::Failed, one_entry(HookOutputEntryKind::Error, message))
                },
            }
        },
        None => (
            HookRunStatus::Failed,
            one_entry(HookOutputEntryKind::Error, "hook exited without a status code".to_string()),
        ),
    }
}

/// What is told of a hook that has run for a turn.
pub fn parse_completed(result: &CommandRunResult, turn_id: Option<String>) -> (r: HookCompletedEvent)
    ensures
        text::opt_view(r.turn_id) == text::opt_view(turn_id),
        r.run.started_at == result.started_at,
        r.run.completed_at == result.completed_at,
        r.run.duration_ms == result.duration_ms,
        (r.run.status, entries_view(r.run.entries@)) == run_verdict(
            text::opt_view(result.report.error),
            result.report.exit_code,
            result.report.stdout@,
            parsed_output(result.report.stdout@),
        ),
{
    let parsed = parse_interrupt(result.report.stdout.as_str());
    let (status, entries) = judge_run(
        &result.report.error,
        result.report.exit_code,
        result.report.stdout.as_str(),
        parsed,
    );
    HookCompletedEvent {
        turn_id,
        run: HookRunSummary {
            status,
            started_at: result.started_at,
            completed_at: result.completed_at,
            duration_ms: result.duration_ms,
            entries,
        },
    }
}

/// A run is good exactly where nothing went wrong, the command said so by a zero
/// exit code, and it wrote nothing or an answer that is understood. What it says
/// is a warning; a run that is not good says in one error why.
pub proof fn law_run_is_good_or_says_why(
    error: Option<Seq<char>>,
    exit_code: Option<i32>,
    stdout: Seq<char>,
    parsed: Option<Option<Seq<char>>>,
)
    ensures
        run_verdict(error, exit_code, stdout, parsed).0 is Completed <==> error is None && exit_code == Some(0i32)
            && (text::trimmed(stdout).len() == 0 || parsed is Some),
        run_verdict(error, exit_code, stdout, parsed).0 is Failed ==> run_verdict(
            error,
            exit_code,
            stdout,
            parsed,
        ).1.len() == 1 && run_verdict(error, exit_code, stdout, parsed).1[0].0 is Error,
        run_verdict(error, exit_code, stdout, parsed).0 is Completed ==> run_verdict(
            error,
            exit_code,
            stdout,
            parsed,
        ).1 == (if text::trimmed(stdout).len() > 0 && parsed->0 is Some {
            seq![(HookOutputEntryKind::Warning, parsed->0->0)]
        } else {
            Seq::empty()
        }),
{
}

/// What went wrong is told before a bad exit code, that before a missing one,
/// and those before an answer that is not understood.
pub proof fn law_first_thing_wrong_is_told(
    message: Seq<char>,
    code: i32,
    exit_code: Option<i32>,
    stdout: Seq<char>,
    parsed: Option<Option<Seq<char>>>,
)
    ensures
        run_verdict(Some(message), exit_code, stdout, parsed).1[0].1 == message,
        code > 0 ==> {
            let told = run_verdict(None, Some(code), stdout, parsed).1[0].1;
            told.take(22) == "hook exited with code "@ && text::digits_value(told.skip(22)) == code
        },
        run_verdict(None, None, stdout, parsed).1[0].1 == "hook exited without a status code"@,
        text::trimmed(stdout).len() > 0 ==> run_verdict(None, Some(0i32), stdout, None).1[0].1 == (if json_like(
            stdout,
        ) {
            "hook returned invalid interrupt hook JSON output"@
        } else {
            "Interrupt hook returned non-JSON stdout"@
        }),
{
    reveal_strlit("hook exited with code ");
    if code > 0 {
        let told = "hook exited with code "@ + text::signed_decimal(code as int);
        assert(told.take(22) =~= "hook exited with code "@);
        assert(told.skip(22) =~= text::signed_decimal(code as int));
        text::law_decimal_is_read_back(code as nat, u64::MAX as nat);
    }
}

/// An answer is understood exactly where it is an object that has no field but
/// the message, and the message is a text, null or missing; of several messages
/// the first counts.
pub proof fn law_answer_holds_a_message_alone(v: JView, fields: Seq<json::JField>)
    requires
        v.shape == JShape::Object(fields),
    ensures
        fields.len() == 0 ==> interrupt_message(v) == Some(None::<Seq<char>>),
        (exists|i: int| 0 <= i < fields.len() && (#[trigger] fields[i]).name != "systemMessage"@)
            ==> interrupt_message(v) is None,
        fields.len() > 0 && (forall|i: int| 0 <= i < fields.len() ==> (#[trigger] fields[i]).name == "systemMessage"@)
            ==> interrupt_message(v) == (match fields[0].value.shape {
            JShape::Str(s) => Some(Some(s)),
            JShape::Null => Some(None),
            _ => None,
        }),
{
    if fields.len() > 0 {
        json::law_field_is_the_first_of_its_name(fields, "systemMessage"@, fields[0]);
    }
}

/// What the command wrote looks like JSON exactly where its first character that
/// is no white space opens an object or an array.
pub proof fn law_json_opens_with_a_bracket(blank: Seq<char>, rest: Seq<char>)
    requires
        forall|i: int| 0 <= i < blank.len() ==> text::is_space(#[trigger] blank[i]),
        rest.len() > 0,
        !text::is_space(rest[0]),
    ensures
        json_like(blank + rest) <==> rest[0] == '{' || rest[0] == '[',
    decreases blank.len(),
{
    if blank.len() > 0 {
        law_json_opens_with_a_bracket(blank.skip(1), rest);
        assert((blank + rest).skip(1) =~= blank.skip(1) + rest);
    } else {
        assert(blank + rest =~= rest);
    }
}

/// The reasons for which a turn is interrupted, in words.
pub proof fn law_reasons_for_an_interrupt()
    ensures
        InterruptReason::User.name() == "user"@,
        InterruptReason::Shutdown.name() == "shutdown"@,
        InterruptReason::AutoReview.name() == "auto_review"@,
{
}

} // verus!
