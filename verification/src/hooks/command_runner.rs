//! What a hook command is started with, how long it may run, and what is
//! reported of its run.

use vstd::prelude::*;

use crate::text;

verus! {

/// How long, in seconds, a command may run while a session shuts down.
pub const SHUTDOWN_BOUNDED_TIMEOUT_SEC: u64 = 8;

/// How long commands may run.
#[derive(Clone, Copy, Debug, PartialEq, Eq, Structural)]
pub enum CommandExecutionPolicy {
    /// As long as each command is configured to.
    Standard,
    /// As long as configured, but no longer than the cap.
    ShutdownBounded { timeout_cap_sec: u64 },
}

impl CommandExecutionPolicy {
    /// The policy of a session that shuts down.
    pub fn shutdown_bounded() -> (r: Self)
        ensures
            r == (CommandExecutionPolicy::ShutdownBounded { timeout_cap_sec: SHUTDOWN_BOUNDED_TIMEOUT_SEC }),
    {
        CommandExecutionPolicy::ShutdownBounded { timeout_cap_sec: SHUTDOWN_BOUNDED_TIMEOUT_SEC }
    }

    /// The seconds that a command configured for so many may run: at least one.
    pub open spec fn timeout(self, configured: int) -> int {
        let capped = match self {
            CommandExecutionPolicy::Standard => configured,
            CommandExecutionPolicy::ShutdownBounded { timeout_cap_sec } => if configured <= timeout_cap_sec {
                configured
            } else {
                timeout_cap_sec as int
            },
        };
        if capped >= 1 {
            capped
        } else {
            1
        }
    }

    /// The seconds that a command configured for so many may run.
    pub fn effective_timeout_sec(self, configured_timeout_sec: u64) -> (r: u64)
        ensures
            r == self.timeout(configured_timeout_sec as int),
    {
        let capped: u64 = match self {
            CommandExecutionPolicy::Standard => configured_timeout_sec,
            CommandExecutionPolicy::ShutdownBounded { timeout_cap_sec } => if configured_timeout_sec
                <= timeout_cap_sec {
                configured_timeout_sec
            } else {
                timeout_cap_sec
            },
        };
        if capped >= 1 {
            capped
        } else {
            1
        }
    }
}

/// Every command may run for a second, and under a cap of a second or more
/// none runs longer than the cap.
pub proof fn law_timeout_is_bounded(policy: CommandExecutionPolicy, configured: u64)
    ensures
        policy.timeout(configured as int) >= 1,
        policy is Standard && configured >= 1 ==> policy.timeout(configured as int) == configured,
        policy matches CommandExecutionPolicy::ShutdownBounded { timeout_cap_sec } ==> timeout_cap_sec >= 1
            ==> policy.timeout(configured as int) <= timeout_cap_sec,
        configured >= 1 ==> policy.timeout(configured as int) <= configured,
{
}

/// The shell that runs hook commands. Where no program is named, the shell is
/// the user's.
pub struct CommandShell {
    pub program: String,
    pub args: Vec<String>,
}

/// A hook command as it is configured.
pub struct ConfiguredHandler {
    pub command: String,
    pub timeout_sec: u64,
    pub env: Vec<(String, String)>,
}

/// The kind of machine that commands run on.
#[derive(Clone, Copy, Debug, PartialEq, Eq, Structural)]
pub enum ShellPlatform {
    Unix,
    Windows,
}

impl ShellPlatform {
    /// The program to run where the environment names none.
    pub open spec fn fallback_program(self) -> Seq<char> {
        match self {
            ShellPlatform::Unix => "/bin/sh"@,
            ShellPlatform::Windows => "cmd.exe"@,
        }
    }

    /// The flag behind which the shell takes a command.
    pub open spec fn command_flag(self) -> Seq<char> {
        match self {
            ShellPlatform::Unix => "-lc"@,
            ShellPlatform::Windows => "/C"@,
        }
    }

    /// The environment variable that names the user's shell.
    pub open spec fn shell_variable(self) -> Seq<char> {
        match self {
            ShellPlatform::Unix => "SHELL"@,
            ShellPlatform::Windows => "COMSPEC"@,
        }
    }

    /// The environment variable that names the user's shell.
    pub fn variable(self) -> (r: &'static str)
        ensures
            r@ == self.shell_variable(),
    {
        match self {
            ShellPlatform::Unix => "SHELL",
            ShellPlatform::Windows => "COMSPEC",
        }
    }
}

/// A program with the arguments and the variables that it is started with.
pub struct CommandPlan {
    pub program: String,
    pub args: Vec<String>,
    pub env: Vec<(String, String)>,
}

/// The program that runs hook commands.
pub open spec fn planned_program(
    shell: CommandShell,
    platform: ShellPlatform,
    user_shell: Option<Seq<char>>,
) -> Seq<char> {
    if shell.program@.len() > 0 {
        shell.program@
    } else {
        match user_shell {
            Some(program) => program,
            None => platform.fallback_program(),
        }
    }
}

/// The arguments that the program gets.
pub open spec fn planned_args(shell: CommandShell, platform: ShellPlatform, command: Seq<char>) -> Seq<Seq<char>> {
    if shell.program@.len() > 0 {
        text::views(shell.args@).push(command)
    } else {
        seq![platform.command_flag(), command]
    }
}

/// What a hook command is started with; `user_shell` is the shell that the
/// environment names.
pub fn build_command(
    shell: &CommandShell,
    handler: &ConfiguredHandler,
    platform: ShellPlatform,
    user_shell: Option<String>,
) -> (r: CommandPlan)
    ensures
        r.program@ == planned_program(*shell, platform, text::opt_view(user_shell)),
        text::views(r.args@) == planned_args(*shell, platform, handler.command@),
        r.env@.len() == handler.env@.len(),
        forall|i: int|
            0 <= i < handler.env@.len() ==> (#[trigger] r.env@[i]).0@ == handler.env@[i].0@ && r.env@[i].1@
                == handler.env@[i].1@,
{
    let mut env: Vec<(String, String)> = Vec::new();
    let mut i: usize = 0;
    while i < handler.env.len()
        invariant
            i <= handler.env.len(),
            env@.len() == i,
            forall|k: int|
                0 <= k < i ==> (#[trigger] env@[k]).0@ == handler.env@[k].0@ && env@[k].1@ == handler.env@[k].1@,
        decreases handler.env.len() - i,
    {
        env.push((handler.env[i].0.clone(), handler.env[i].1.clone()));
        i = i + 1;
    }
    if text::str_eq(shell.program.as_str(), "") {
        proof {
            reveal_strlit("");
        }
        let program = match user_shell {
            Some(program) => program,
            None => match platform {
                ShellPlatform::Unix => "/bin/sh".to_string(),
                ShellPlatform::Windows => "cmd.exe".to_string(),
            },
        };
        let flag = match platform {
            ShellPlatform::Unix => "-lc".to_string(),
            ShellPlatform::Windows => "/C".to_string(),
        };
        let mut args: Vec<String> = Vec::new();
        args.push(flag);
        args.push(handler.command.clone());
        assert(text::views(args@) =~= seq![platform.command_flag(), handler.command@]);
        CommandPlan { program, args, env }
    } else {
        proof {
            reveal_strlit("");
            assert(shell.program@.len() == 0 ==> shell.program@ =~= ""@);
        }
        let mut args = text::clone_strings(&shell.args);
        let ghost before = args@;
        args.push(handler.command.clone());
        assert(text::views(args@) =~= text::views(before).push(handler.command@));
        CommandPlan { program: shell.program.clone(), args, env }
    }
}

/// What can happen to a command that is run.
pub enum RunEvent {
    Spawned,
    SpawnFailed { message: String },
    InputWritten,
    InputFailed { message: String },
    Exited { exit_code: Option<i32>, stdout: Vec<u8>, stderr: Vec<u8> },
    WaitFailed { message: String },
    TimedOut,
}

/// What is to be done with the command after that.
pub enum RunStep {
    /// Hand the input to the command.
    WriteInput,
    /// Wait for the command to end, for so many seconds.
    Wait { timeout_sec: u64 },
    /// The run is over, and the command is killed if it still runs.
    Finish { kill: bool, report: RunReport },
}

/// What is reported of a run, beside its times.
pub struct RunReport {
    pub exit_code: Option<i32>,
    pub stdout: String,
    pub stderr: String,
    pub error: Option<String>,
}

/// What is reported of a run, in characters.
pub struct RunReportView {
    pub exit_code: Option<i32>,
    pub stdout: Seq<char>,
    pub stderr: Seq<char>,
    pub error: Option<Seq<char>>,
}

impl View for RunReport {
    type V = RunReportView;

    open spec fn view(&self) -> RunReportView {
        RunReportView {
            exit_code: self.exit_code,
            stdout: self.stdout@,
            stderr: self.stderr@,
            error: text::opt_view(self.error),
        }
    }
}

/// The report of a run that came to nothing.
pub open spec fn failed_run(error: Seq<char>) -> RunReportView {
    RunReportView { exit_code: None, stdout: Seq::empty(), stderr: Seq::empty(), error: Some(error) }
}

/// The error of a command that ran too long.
pub open spec fn timeout_text(timeout_sec: int) -> Seq<char> {
    "hook timed out after "@ + text::decimal(timeout_sec as nat) + "s"@
}

/// Whether the step is the one to take after the event, for a command that may
/// run for so many seconds.
pub open spec fn step_follows(event: RunEvent, timeout_sec: int, step: RunStep) -> bool {
    match event {
        RunEvent::Spawned => step is WriteInput,
        RunEvent::SpawnFailed { message } => step matches RunStep::Finish { kill, report } && !kill && report@
            == failed_run(message@),
        RunEvent::InputWritten => step == (RunStep::Wait { timeout_sec: timeout_sec as u64 }),
        RunEvent::InputFailed { message } => step matches RunStep::Finish { kill, report } && kill && report@
            == failed_run("failed to write hook stdin: "@ + message@),
        RunEvent::Exited { exit_code, stdout, stderr } => step matches RunStep::Finish { kill, report } && !kill
            && report@ == (RunReportView {
            exit_code,
            stdout: text::lossy_text(stdout@),
            stderr: text::lossy_text(stderr@),
            error: None,
        }),
        RunEvent::WaitFailed { message } => step matches RunStep::Finish { kill, report } && kill && report@
            == failed_run(message@),
        RunEvent::TimedOut => step matches RunStep::Finish { kill, report } && kill && report@ == failed_run(
            timeout_text(timeout_sec),
        ),
    }
}

fn failure(error: String) -> (r: RunReport)
    ensures
        r@ == failed_run(error@),
{
    proof {
        reveal_strlit("");
    }
    let r = RunReport { exit_code: None, stdout: "".to_string(), stderr: "".to_string(), error: Some(error) };
    assert(r@.stdout =~= Seq::empty());
    assert(r@.stderr =~= Seq::empty());
    r
}

/// What to do with a command after the event.
pub fn run_step(event: RunEvent, policy: CommandExecutionPolicy, configured_timeout_sec: u64) -> (r: RunStep)
    ensures
        step_follows(event, policy.timeout(configured_timeout_sec as int), r),
{
    let timeout_sec: u64 = policy.effective_timeout_sec(configured_timeout_sec);
    match event {
        RunEvent::Spawned => RunStep::WriteInput,
        RunEvent::SpawnFailed { message } => RunStep::Finish { kill: false, report: failure(message) },
        RunEvent::InputWritten => RunStep::Wait { timeout_sec },
        RunEvent::InputFailed { message } => {
            let mut error = "failed to write hook stdin: ".to_string();
            error.push_str(message.as_str());
            RunStep::Finish { kill: true, report: failure(error) }
        },
        RunEvent::Exited { exit_code, stdout, stderr } => {
            let report = RunReport {
                exit_code,
                stdout: text::from_utf8_lossy(stdout.as_slice()),
                stderr: text::from_utf8_lossy(stderr.as_slice()),
                error: None,
            };
            RunStep::Finish { kill: false, report }
        },
        RunEvent::WaitFailed { message } => RunStep::Finish { kill: true, report: failure(message) },
        RunEvent::TimedOut => {
            let mut error = "hook timed out after ".to_string();
            text::push_decimal(&mut error, timeout_sec);
            error.push_str("s");
            RunStep::Finish { kill: true, report: failure(error) }
        },
    }
}

/// A run of a hook command: when it began and ended, in seconds, how long it
/// took, in milliseconds, and how it ended.
pub struct CommandRunResult {
    pub started_at: i64,
    pub completed_at: i64,
    pub duration_ms: i64,
    pub report: RunReport,
}

/// A duration that is no longer than can be reported.
pub open spec fn reported_duration(elapsed_ms: int) -> int {
    if elapsed_ms <= i64::MAX {
        elapsed_ms
    } else {
        i64::MAX as int
    }
}

impl CommandRunResult {
    /// The run that began and ended at the times and took so long.
    pub fn new(started_at: i64, completed_at: i64, elapsed_ms: u128, report: RunReport) -> (r: Self)
        ensures
            r.started_at == started_at,
            r.completed_at == completed_at,
            r.duration_ms == reported_duration(elapsed_ms as int),
            r.report == report,
    {
        let duration_ms: i64 = if elapsed_ms <= 9223372036854775807 {
            elapsed_ms as i64
        } else {
            i64::MAX
        };
        CommandRunResult { started_at, completed_at, duration_ms, report }
    }
}

/// A command may run for the smaller of what is configured and what the policy
/// caps it at, and for a second where that is none.
pub proof fn law_timeout_is_the_smaller_of_the_two(configured: u64, cap: u64)
    ensures
        configured >= 1 ==> CommandExecutionPolicy::Standard.timeout(configured as int) == configured,
        1 <= configured <= cap ==> (CommandExecutionPolicy::ShutdownBounded { timeout_cap_sec: cap }).timeout(
            configured as int,
        ) == configured,
        1 <= cap <= configured ==> (CommandExecutionPolicy::ShutdownBounded { timeout_cap_sec: cap }).timeout(
            configured as int,
        ) == cap,
        CommandExecutionPolicy::Standard.timeout(0) == 1,
        configured == 0 || cap == 0 ==> (CommandExecutionPolicy::ShutdownBounded { timeout_cap_sec: cap }).timeout(
            configured as int,
        ) == 1,
{
}

/// The command is the last thing that the shell is given, behind the shell's own
/// arguments where a shell is configured, and behind the flag alone that makes
/// the shell read a command where none is.
pub proof fn law_command_is_handed_to_the_shell(
    shell: CommandShell,
    platform: ShellPlatform,
    user_shell: Option<Seq<char>>,
    command: Seq<char>,
)
    ensures
        planned_args(shell, platform, command).last() == command,
        shell.program@.len() > 0 ==> planned_program(shell, platform, user_shell) == shell.program@ && planned_args(
            shell,
            platform,
            command,
        ).len() == shell.args@.len() + 1 && forall|i: int|
            0 <= i < shell.args@.len() ==> #[trigger] planned_args(shell, platform, command)[i] == shell.args@[i]@,
        shell.program@.len() == 0 ==> planned_args(shell, platform, command).len() == 2 && planned_args(
            shell,
            platform,
            command,
        )[0] == (if platform is Unix {
            "-lc"@
        } else {
            "/C"@
        }),
        shell.program@.len() == 0 && user_shell is Some ==> planned_program(shell, platform, user_shell)
            == user_shell->0,
        shell.program@.len() == 0 && user_shell is None ==> planned_program(shell, platform, user_shell) == (
        if platform is Unix {
            "/bin/sh"@
        } else {
            "cmd.exe"@
        }),
        platform.shell_variable() == (if platform is Unix {
            "SHELL"@
        } else {
            "COMSPEC"@
        }),
{
}

/// A run ends in an error unless the command ended by itself, and then its exit
/// code is told. A command is killed exactly where it was started and may still
/// run. Nothing is told of what a command wrote that did not end by itself.
pub proof fn law_run_ends_in_an_error_or_an_exit(event: RunEvent, timeout_sec: int, step: RunStep)
    requires
        step_follows(event, timeout_sec, step),
    ensures
        step is Finish <==> !(event is Spawned || event is InputWritten),
        event is Spawned <==> step is WriteInput,
        event is InputWritten <==> step is Wait,
        step matches RunStep::Finish { kill, report } ==> {
            &&& kill <==> event is InputFailed || event is WaitFailed || event is TimedOut
            &&& report.error is None <==> event is Exited
            &&& event is Exited ==> report.exit_code == event->exit_code
            &&& !(event is Exited) ==> report.exit_code is None && report.stdout@.len() == 0 && report.stderr@.len()
                == 0
        },
{
}

/// An error tells what failed in the words of the failure, and a command that
/// took too long is said to have had the whole of its time.
pub proof fn law_run_errors_say_why(event: RunEvent, timeout_sec: int, step: RunStep)
    requires
        step_follows(event, timeout_sec, step),
        0 <= timeout_sec <= u64::MAX,
    ensures
        step matches RunStep::Wait { timeout_sec: waited } ==> waited == timeout_sec,
        event matches RunEvent::SpawnFailed { message } ==> step->report@.error == Some(message@),
        event matches RunEvent::WaitFailed { message } ==> step->report@.error == Some(message@),
        event matches RunEvent::InputFailed { message } ==> step->report@.error->0.take(28)
            == "failed to write hook stdin: "@ && step->report@.error->0.skip(28) == message@,
        event is TimedOut ==> {
            let told = step->report@.error->0;
            &&& told.take(21) == "hook timed out after "@
            &&& told.last() == 's'
            &&& text::digits_value(told.subrange(21, told.len() - 1)) == timeout_sec
        },
{
    reveal_strlit("failed to write hook stdin: ");
    reveal_strlit("hook timed out after ");
    reveal_strlit("s");
    match event {
        RunEvent::InputFailed { message } => {
            let told = "failed to write hook stdin: "@ + message@;
            assert(told.take(28) =~= "failed to write hook stdin: "@);
            assert(told.skip(28) =~= message@);
        },
        RunEvent::TimedOut => {
            let told = timeout_text(timeout_sec);
            let d = text::decimal(timeout_sec as nat);
            text::law_decimal_is_read_back(timeout_sec as nat, u64::MAX as nat);
            assert(told.take(21) =~= "hook timed out after "@);
            assert(told.subrange(21, told.len() - 1) =~= d);
        },
        _ => {},
    }
}

/// A duration is told as it is, up to the longest that can be told.
pub proof fn law_duration_is_told_up_to_the_longest(elapsed_ms: int)
    ensures
        elapsed_ms <= 9223372036854775807 ==> reported_duration(elapsed_ms) == elapsed_ms,
        elapsed_ms >= 9223372036854775807 ==> reported_duration(elapsed_ms) == 9223372036854775807,
        SHUTDOWN_BOUNDED_TIMEOUT_SEC == 8,
{
}

} // verus!
