//! Whether the bubblewrap of the system can sandbox commands, and what the user
//! is told where it cannot.

use vstd::prelude::*;

use crate::paths;
use crate::paths::Component;
use crate::text;

verus! {

/// How long, in milliseconds, a probe may take.
pub const SYSTEM_BWRAP_PROBE_TIMEOUT_MS: u64 = 500;

/// How long, in milliseconds, to wait before a probe is looked at again.
pub const SYSTEM_BWRAP_PROBE_POLL_INTERVAL_MS: u64 = 50;

/// How long, in milliseconds, to wait before a probe is started again.
pub const SYSTEM_BWRAP_PROBE_SPAWN_RETRY_INTERVAL_MS: u64 = 5;

/// How many bytes of a probe's errors are kept.
pub const SYSTEM_BWRAP_PROBE_STDERR_LIMIT_BYTES: usize = 65536;

/// How many bytes of a probe's errors are read at a time.
pub const SYSTEM_BWRAP_PROBE_DRAIN_LIMIT_BYTES: usize = 262144;

/// What a probe has found.
#[derive(Clone, Copy, Debug, PartialEq, Eq, Structural)]
pub enum SystemBwrapProbeResult {
    Available,
    UserNamespaceUnavailable,
    ProcSysDisconnected,
    Failed,
}

// ---------------------------------------------------------------------
// Warnings
// ---------------------------------------------------------------------

/// The warning that bubblewrap is not installed.
pub open spec fn missing_warning() -> Seq<char> {
    "Codex could not find bubblewrap on PATH. Install bubblewrap with your OS package manager. See the sandbox prerequisites: https://developers.openai.com/codex/concepts/sandboxing#prerequisites. Codex will use the bundled bubblewrap in the meantime."@
}

/// The warning that the machine gives no user namespaces.
pub open spec fn user_namespace_warning() -> Seq<char> {
    "Codex's Linux sandbox uses bubblewrap and needs access to create user namespaces."@
}

/// The warning that `/proc/sys` cannot be reached.
pub open spec fn proc_sys_warning() -> Seq<char> {
    "Codex's Linux sandbox cannot access /proc/sys because the mount is disconnected. Restart the environment or container before running sandboxed commands."@
}

/// The warning that the system cannot run bubblewrap.
pub open spec fn wsl1_warning() -> Seq<char> {
    "Codex's Linux sandbox uses bubblewrap, which is not supported on WSL1 because WSL1 cannot create the required user namespaces. Use WSL2 for sandboxed shell commands."@
}

/// What a user is told before commands are sandboxed.
pub enum WarningPlan {
    /// Nothing.
    Silent,
    /// The warning.
    Warn(String),
    /// What a probe finds, with or without a network of its own.
    Probe { unshare_network: bool },
}

/// Whether the plan is the one for the permissions and the machine.
pub open spec fn is_warning_plan(
    plan: WarningPlan,
    sandbox_required: bool,
    network_enabled: bool,
    managed_network_active: bool,
    wsl1: bool,
    installed: bool,
) -> bool {
    if !sandbox_required {
        plan is Silent
    } else if wsl1 {
        plan matches WarningPlan::Warn(w) && w@ == wsl1_warning()
    } else if !installed {
        plan matches WarningPlan::Warn(w) && w@ == missing_warning()
    } else {
        plan == (WarningPlan::Probe { unshare_network: !network_enabled || managed_network_active })
    }
}

/// What a user is told before commands are sandboxed: whether the permissions
/// ask for the sandbox, whether they let commands reach the network, whether
/// the network is managed, and whether the machine is of the first Windows
/// subsystem and has bubblewrap installed.
pub fn plan_system_bwrap_warning(
    sandbox_required: bool,
    network_enabled: bool,
    managed_network_active: bool,
    wsl1: bool,
    installed: bool,
) -> (r: WarningPlan)
    ensures
        is_warning_plan(r, sandbox_required, network_enabled, managed_network_active, wsl1, installed),
{
    if !sandbox_required {
        return WarningPlan::Silent;
    }
    if wsl1 {
        return WarningPlan::Warn(
            "Codex's Linux sandbox uses bubblewrap, which is not supported on WSL1 because WSL1 cannot create the required user namespaces. Use WSL2 for sandboxed shell commands.".to_string(),
        );
    }
    if !installed {
        return WarningPlan::Warn(
            "Codex could not find bubblewrap on PATH. Install bubblewrap with your OS package manager. See the sandbox prerequisites: https://developers.openai.com/codex/concepts/sandboxing#prerequisites. Codex will use the bundled bubblewrap in the meantime.".to_string(),
        );
    }
    WarningPlan::Probe { unshare_network: !network_enabled || managed_network_active }
}

/// What a user is told of what a probe found. An unexplained failure proves
/// nothing about a command that is run later, so nothing is told of it.
pub fn probe_warning(result: SystemBwrapProbeResult) -> (r: Option<String>)
    ensures
        text::opt_view(r) == (match result {
            SystemBwrapProbeResult::Available => None::<Seq<char>>,
            SystemBwrapProbeResult::UserNamespaceUnavailable => Some(user_namespace_warning()),
            SystemBwrapProbeResult::ProcSysDisconnected => Some(proc_sys_warning()),
            SystemBwrapProbeResult::Failed => None,
        }),
{
    match result {
        SystemBwrapProbeResult::Available => None,
        SystemBwrapProbeResult::UserNamespaceUnavailable => Some(
            "Codex's Linux sandbox uses bubblewrap and needs access to create user namespaces.".to_string(),
        ),
        SystemBwrapProbeResult::ProcSysDisconnected => Some(
            "Codex's Linux sandbox cannot access /proc/sys because the mount is disconnected. Restart the environment or container before running sandboxed commands.".to_string(),
        ),
        SystemBwrapProbeResult::Failed => None,
    }
}

// ---------------------------------------------------------------------
// The probe
// ---------------------------------------------------------------------

/// The places where the command that a probe runs may stand, first to last.
pub open spec fn true_commands() -> Seq<Seq<char>> {
    seq!["/usr/bin/true"@, "/bin/true"@]
}

/// The command that a probe runs, given which of its places exist.
pub fn resolve_true_command(usr_exists: bool, bin_exists: bool) -> (r: Option<&'static str>)
    ensures
        match r {
            Some(command) => command@ == (if usr_exists {
                true_commands()[0]
            } else {
                true_commands()[1]
            }) && (usr_exists || bin_exists),
            None => !usr_exists && !bin_exists,
        },
{
    if usr_exists {
        Some("/usr/bin/true")
    } else if bin_exists {
        Some("/bin/true")
    } else {
        None
    }
}

/// The arguments of a probe.
pub open spec fn probe_arguments(unshare_network: bool, command: Seq<char>) -> Seq<Seq<char>> {
    seq!["--unshare-user"@] + (if unshare_network {
        seq!["--unshare-net"@]
    } else {
        Seq::empty()
    }) + seq!["--ro-bind"@, "/"@, "/"@, command]
}

/// The arguments of a probe.
pub fn probe_args(unshare_network: bool, command: &str) -> (r: Vec<String>)
    ensures
        text::views(r@) == probe_arguments(unshare_network, command@),
{
    let mut args: Vec<String> = Vec::new();
    args.push("--unshare-user".to_string());
    if unshare_network {
        args.push("--unshare-net".to_string());
    }
    args.push("--ro-bind".to_string());
    args.push("/".to_string());
    args.push("/".to_string());
    args.push(command.to_string());
    assert(text::views(args@) =~= probe_arguments(unshare_network, command@));
    args
}

/// What can happen to a probe.
pub enum ProbeEvent {
    /// It could not be started; the executable was being written, or not.
    SpawnFailed { executable_busy: bool, past_deadline: bool },
    /// It was started, and its errors can be read without waiting, or not.
    Spawned { errors_readable: bool },
    /// It has ended with the errors.
    Exited { success: bool, errors: Vec<u8> },
    /// It still runs.
    Running { past_deadline: bool },
    /// It could not be looked at for a moment.
    PollInterrupted,
    /// It could not be looked at.
    PollFailed,
}

/// What is to be done with a probe after that.
#[derive(Clone, Copy, Debug, PartialEq, Eq, Structural)]
pub enum ProbeStep {
    /// Start it again after so many milliseconds.
    Respawn { delay_ms: u64 },
    /// Look at it after so many milliseconds.
    Poll { delay_ms: u64 },
    /// It is over, and is killed where it still runs.
    Finish { kill: bool, result: SystemBwrapProbeResult },
}

/// Whether the errors say that the machine gives no user namespaces.
pub open spec fn lacks_user_namespaces(errors: Seq<char>) -> bool {
    ||| text::has_sub(errors, "loopback: Failed RTM_NEWADDR"@)
    ||| text::has_sub(errors, "loopback: Failed RTM_NEWLINK"@)
    ||| text::has_sub(errors, "setting up uid map: Permission denied"@)
    ||| text::has_sub(errors, "No permissions to create a new namespace"@)
}

/// Whether the errors say that `/proc/sys` is disconnected.
pub open spec fn lacks_proc_sys(errors: Seq<char>) -> bool {
    text::has_sub(errors, "/proc/sys"@) && (text::has_sub(errors, "Transport endpoint is not connected"@)
        || text::has_sub(errors, "Socket not connected"@))
}

/// What a probe that has ended has found.
pub open spec fn exit_result(success: bool, errors: Seq<char>) -> SystemBwrapProbeResult {
    if success {
        SystemBwrapProbeResult::Available
    } else if lacks_user_namespaces(errors) {
        SystemBwrapProbeResult::UserNamespaceUnavailable
    } else if lacks_proc_sys(errors) {
        SystemBwrapProbeResult::ProcSysDisconnected
    } else {
        SystemBwrapProbeResult::Failed
    }
}

/// What to do with a probe after the event.
pub open spec fn probe_next(event: ProbeEvent) -> ProbeStep {
    match event {
        ProbeEvent::SpawnFailed { executable_busy, past_deadline } => if executable_busy && !past_deadline {
            ProbeStep::Respawn { delay_ms: SYSTEM_BWRAP_PROBE_SPAWN_RETRY_INTERVAL_MS }
        } else {
            ProbeStep::Finish { kill: false, result: SystemBwrapProbeResult::Failed }
        },
        ProbeEvent::Spawned { errors_readable } => if errors_readable {
            ProbeStep::Poll { delay_ms: 0 }
        } else {
            ProbeStep::Finish { kill: true, result: SystemBwrapProbeResult::Failed }
        },
        ProbeEvent::Exited { success, errors } => ProbeStep::Finish {
            kill: false,
            result: exit_result(success, text::lossy_text(errors@)),
        },
        ProbeEvent::Running { past_deadline } => if past_deadline {
            ProbeStep::Finish { kill: true, result: SystemBwrapProbeResult::Failed }
        } else {
            ProbeStep::Poll { delay_ms: SYSTEM_BWRAP_PROBE_POLL_INTERVAL_MS }
        },
        ProbeEvent::PollInterrupted => ProbeStep::Poll { delay_ms: 0 },
        ProbeEvent::PollFailed => ProbeStep::Finish { kill: true, result: SystemBwrapProbeResult::Failed },
    }
}

/// Whether the errors say that the machine gives no user namespaces.
pub fn is_user_namespace_failure(errors: &str) -> (r: bool)
    ensures
        r == lacks_user_namespaces(errors@),
{
    text::contains_str(errors, "loopback: Failed RTM_NEWADDR") || text::contains_str(
        errors,
        "loopback: Failed RTM_NEWLINK",
    ) || text::contains_str(errors, "setting up uid map: Permission denied") || text::contains_str(
        errors,
        "No permissions to create a new namespace",
    )
}

/// Whether the errors say that `/proc/sys` is disconnected.
pub fn is_proc_sys_disconnected(errors: &str) -> (r: bool)
    ensures
        r == lacks_proc_sys(errors@),
{
    text::contains_str(errors, "/proc/sys") && (text::contains_str(errors, "Transport endpoint is not connected")
        || text::contains_str(errors, "Socket not connected"))
}

/// What a probe that has ended with the errors has found.
pub fn classify_exit(success: bool, errors: &str) -> (r: SystemBwrapProbeResult)
    ensures
        r == exit_result(success, errors@),
{
    if success {
        SystemBwrapProbeResult::Available
    } else if is_user_namespace_failure(errors) {
        SystemBwrapProbeResult::UserNamespaceUnavailable
    } else if is_proc_sys_disconnected(errors) {
        SystemBwrapProbeResult::ProcSysDisconnected
    } else {
        SystemBwrapProbeResult::Failed
    }
}

/// What to do with a probe after the event.
pub fn probe_step(event: ProbeEvent) -> (r: ProbeStep)
    ensures
        r == probe_next(event),
{
    match event {
        ProbeEvent::SpawnFailed { executable_busy, past_deadline } => if executable_busy && !past_deadline {
            ProbeStep::Respawn { delay_ms: SYSTEM_BWRAP_PROBE_SPAWN_RETRY_INTERVAL_MS }
        } else {
            ProbeStep::Finish { kill: false, result: SystemBwrapProbeResult::Failed }
        },
        ProbeEvent::Spawned { errors_readable } => if errors_readable {
            ProbeStep::Poll { delay_ms: 0 }
        } else {
            ProbeStep::Finish { kill: true, result: SystemBwrapProbeResult::Failed }
        },
        ProbeEvent::Exited { success, errors } => {
            let said = text::from_utf8_lossy(errors.as_slice());
            ProbeStep::Finish { kill: false, result: classify_exit(success, said.as_str()) }
        },
        ProbeEvent::Running { past_deadline } => if past_deadline {
            ProbeStep::Finish { kill: true, result: SystemBwrapProbeResult::Failed }
        } else {
            ProbeStep::Poll { delay_ms: SYSTEM_BWRAP_PROBE_POLL_INTERVAL_MS }
        },
        ProbeEvent::PollInterrupted => ProbeStep::Poll { delay_ms: 0 },
        ProbeEvent::PollFailed => ProbeStep::Finish { kill: true, result: SystemBwrapProbeResult::Failed },
    }
}

/// A probe is found available only where it ended well, and the user is warned
/// only of a probe that ended badly and named a failure of the machine.
pub proof fn law_probe_warns_of_named_failures(event: ProbeEvent)
    ensures
        match probe_next(event) {
            ProbeStep::Finish { kill, result } => {
                &&& result is Available ==> event is Exited && event->success
                &&& (result is UserNamespaceUnavailable || result is ProcSysDisconnected) ==> {
                    &&& event is Exited
                    &&& !event->success
                    &&& lacks_user_namespaces(text::lossy_text(event->errors@)) || lacks_proc_sys(
                        text::lossy_text(event->errors@),
                    )
                }
                &&& kill ==> result is Failed
            },
            _ => !(event is Exited),
        },
{
}

// ---------------------------------------------------------------------
// The errors of a probe
// ---------------------------------------------------------------------

/// The errors of a probe as far as they are kept, and how much has been read
/// since reading last began.
pub struct ProbeStderr {
    pub bytes: Vec<u8>,
    pub drained: usize,
}

/// What can come of an attempt to read.
pub enum ReadEvent {
    Chunk(Vec<u8>),
    End,
    Interrupted,
    Failed,
}

/// The bytes that are kept, up to the limit.
pub open spec fn kept(bytes: Seq<u8>) -> Seq<u8> {
    if bytes.len() <= SYSTEM_BWRAP_PROBE_STDERR_LIMIT_BYTES {
        bytes
    } else {
        bytes.take(SYSTEM_BWRAP_PROBE_STDERR_LIMIT_BYTES as int)
    }
}

/// The bytes that are kept of the chunks.
pub open spec fn kept_of(chunks: Seq<Seq<u8>>) -> Seq<u8>
    decreases chunks.len(),
{
    if chunks.len() == 0 {
        Seq::empty()
    } else {
        kept(kept_of(chunks.drop_last()) + chunks.last())
    }
}

/// However the errors arrive, the beginning of them is kept, up to the limit.
pub proof fn law_errors_are_kept_in_order(chunks: Seq<Seq<u8>>)
    ensures
        kept_of(chunks) == kept(chunks.flatten()),
        kept_of(chunks).len() <= SYSTEM_BWRAP_PROBE_STDERR_LIMIT_BYTES,
    decreases chunks.len(),
{
    if chunks.len() == 0 {
        assert(chunks.flatten() =~= Seq::empty());
    } else {
        law_errors_are_kept_in_order(chunks.drop_last());
        let whole = chunks.drop_last().flatten();
        assert(chunks =~= chunks.drop_last().push(chunks.last()));
        chunks.drop_last().lemma_flatten_push(chunks.last());
        assert(kept(kept(whole) + chunks.last()) =~= kept(whole + chunks.last()));
    }
}

impl ProbeStderr {
    /// Whether no more is kept and counted than may be.
    pub open spec fn wf(self) -> bool {
        self.bytes@.len() <= SYSTEM_BWRAP_PROBE_STDERR_LIMIT_BYTES && self.drained
            <= SYSTEM_BWRAP_PROBE_DRAIN_LIMIT_BYTES
    }

    /// No errors yet.
    pub fn new() -> (r: Self)
        ensures
            r.wf(),
            r.bytes@ == Seq::<u8>::empty(),
            r.drained == 0,
    {
        ProbeStderr { bytes: Vec::new(), drained: 0 }
    }

    /// Begins to read.
    pub fn begin(&mut self)
        requires
            old(self).wf(),
        ensures
            final(self).wf(),
            final(self).bytes@ == old(self).bytes@,
            final(self).drained == 0,
    {
        self.drained = 0;
    }

    /// Takes what was read and says whether to read on.
    pub fn on_read(&mut self, event: ReadEvent) -> (r: bool)
        requires
            old(self).wf(),
        ensures
            final(self).wf(),
            match event {
                ReadEvent::Chunk(chunk) => {
                    &&& final(self).bytes@ == kept(old(self).bytes@ + chunk@)
                    &&& final(self).drained == (if old(self).drained + chunk@.len()
                        <= SYSTEM_BWRAP_PROBE_DRAIN_LIMIT_BYTES {
                        old(self).drained + chunk@.len()
                    } else {
                        SYSTEM_BWRAP_PROBE_DRAIN_LIMIT_BYTES as int
                    })
                    &&& r == (chunk@.len() > 0 && final(self).drained < SYSTEM_BWRAP_PROBE_DRAIN_LIMIT_BYTES)
                },
                ReadEvent::Interrupted => *final(self) == *old(self) && r == (old(self).drained
                    < SYSTEM_BWRAP_PROBE_DRAIN_LIMIT_BYTES),
                _ => *final(self) == *old(self) && !r,
            },
    {
        match event {
            ReadEvent::Chunk(chunk) => {
                let room: usize = SYSTEM_BWRAP_PROBE_DRAIN_LIMIT_BYTES - self.drained;
                if chunk.len() <= room {
                    self.drained = self.drained + chunk.len();
                } else {
                    self.drained = SYSTEM_BWRAP_PROBE_DRAIN_LIMIT_BYTES;
                }
                let ghost whole = self.bytes@ + chunk@;
                let ghost held = self.bytes@.len() as int;
                let mut i: usize = 0;
                assert(self.bytes@ =~= whole.take(held));
                while i < chunk.len() && self.bytes.len() < SYSTEM_BWRAP_PROBE_STDERR_LIMIT_BYTES
                    invariant
                        i <= chunk@.len(),
                        whole == old(self).bytes@ + chunk@,
                        held == old(self).bytes@.len(),
                        self.bytes@ == whole.take(held + i),
                        self.bytes@.len() == held + i,
                        held + i <= SYSTEM_BWRAP_PROBE_STDERR_LIMIT_BYTES,
                        self.drained == (if old(self).drained + chunk@.len() <= SYSTEM_BWRAP_PROBE_DRAIN_LIMIT_BYTES {
                            old(self).drained + chunk@.len()
                        } else {
                            SYSTEM_BWRAP_PROBE_DRAIN_LIMIT_BYTES as int
                        }),
                    decreases chunk@.len() - i,
                {
                    let byte: u8 = chunk[i];
                    self.bytes.push(byte);
                    assert(self.bytes@ =~= whole.take(held + i + 1));
                    i = i + 1;
                }
                assert(self.bytes@ =~= kept(whole));
                chunk.len() > 0 && self.drained < SYSTEM_BWRAP_PROBE_DRAIN_LIMIT_BYTES
            },
            ReadEvent::End => false,
            ReadEvent::Interrupted => self.drained < SYSTEM_BWRAP_PROBE_DRAIN_LIMIT_BYTES,
            ReadEvent::Failed => false,
        }
    }
}

// ---------------------------------------------------------------------
// The machine
// ---------------------------------------------------------------------

/// The number behind the first `wsl` that a number stands behind.
pub open spec fn wsl_version(s: Seq<char>) -> Option<nat>
    decreases s.len(),
{
    match text::sub_index(s, "wsl"@) {
        Some(i) => {
            let rest = s.skip(i + 3);
            let digits = rest.take(text::leading_digits(rest) as int);
            if digits.len() > 0 && text::bounded_digits(digits, u32::MAX as nat) is Some {
                text::bounded_digits(digits, u32::MAX as nat)
            } else if rest.len() < s.len() {
                wsl_version(rest)
            } else {
                None
            }
        },
        None => None,
    }
}

/// Whether the version of a kernel is that of the first Windows subsystem: it
/// says so, or names Microsoft but not the kernel of a later one.
pub open spec fn is_wsl1_version(proc_version: Seq<char>) -> bool {
    let lower = text::ascii_lower(proc_version);
    match wsl_version(lower) {
        Some(version) => version == 1,
        None => text::has_sub(lower, "microsoft"@) && !text::has_sub(lower, "microsoft-standard"@),
    }
}

/// Whether the version of a kernel is that of the first Windows subsystem.
pub fn proc_version_indicates_wsl1(proc_version: &str) -> (r: bool)
    ensures
        r == is_wsl1_version(proc_version@),
{
    let lower = text::to_ascii_lower(proc_version);
    let cs = text::char_vec(lower.as_str());
    let marker = text::char_vec("wsl");
    proof {
        reveal_strlit("wsl");
    }
    let total: usize = cs.len();
    let mut from: usize = 0;
    let mut more: bool = true;
    assert(cs@.skip(0) =~= lower@);
    while more
        invariant
            cs@ == lower@,
            marker@ == "wsl"@,
            marker@.len() == 3,
            lower@ == text::ascii_lower(proc_version@),
            from <= cs@.len(),
            total == cs@.len(),
            more ==> wsl_version(lower@) == wsl_version(cs@.skip(from as int)),
            !more ==> wsl_version(lower@) is None,
        decreases cs@.len() - from, (if more { 1int } else { 0int }),
    {
        let ghost s = cs@.skip(from as int);
        match text::find_from(&cs, &marker, from) {
            Some(at) => {
                let start: usize = at + 3;
                let ghost rest = s.skip(at - from + 3);
                assert(rest =~= cs@.skip(start as int));
                let end: usize = text::digits_end(&cs, start);
                assert(rest.take(end - start) =~= cs@.subrange(start as int, end as int));
                if end > start {
                    if let Some(version) = text::digits_between(&cs, start, end, 4294967295) {
                        return version == 1;
                    }
                }
                from = start;
            },
            None => {
                more = false;
            },
        }
    }
    text::contains_str(lower.as_str(), "microsoft") && !text::contains_str(lower.as_str(), "microsoft-standard")
}

// ---------------------------------------------------------------------
// The executable
// ---------------------------------------------------------------------

/// Whether the path has no parent.
pub open spec fn is_top(path: Seq<char>) -> bool {
    let steps = paths::path_steps(path);
    steps.len() == 0 || steps.last() is RootDir
}

/// Whether an executable may be taken that was found while in the directory: it
/// does not stand in the directory, but where that has no parent.
pub open spec fn may_take(path: Seq<char>, cwd: Seq<char>) -> bool {
    is_top(cwd) || !paths::is_under(path, cwd)
}

/// The first of the executables that may be taken. One whose place could not be
/// told is passed over.
pub open spec fn first_taken(found: Seq<Option<Seq<char>>>, cwd: Seq<char>) -> Option<Seq<char>>
    decreases found.len(),
{
    if found.len() == 0 {
        None
    } else if found[0] is Some && may_take(found[0]->Some_0, cwd) {
        found[0]
    } else {
        first_taken(found.skip(1), cwd)
    }
}

/// The paths, as far as they could be told.
pub open spec fn found_views(found: Seq<Option<String>>) -> Seq<Option<Seq<char>>> {
    found.map_values(|p: Option<String>| text::opt_view(p))
}

/// The first of the executables, in the order of the search path, that may be
/// taken while in the directory.
pub fn find_system_bwrap_in_search_paths(found: &Vec<Option<String>>, cwd: &str) -> (r: Option<String>)
    ensures
        text::opt_view(r) == first_taken(found_views(found@), cwd@),
{
    let steps = paths::components(cwd);
    let top = if steps.len() == 0 {
        true
    } else {
        let ghost last = steps@[steps@.len() - 1];
        assert(paths::path_steps(cwd@).last() == last@);
        matches!(steps[steps.len() - 1], Component::RootDir)
    };
    assert(top == is_top(cwd@)) by {
        assert(paths::step_views(steps@).len() == steps@.len());
    }
    let ghost all = found_views(found@);
    assert(all.skip(0) =~= all);
    let mut i: usize = 0;
    while i < found.len()
        invariant
            i <= found@.len(),
            top == is_top(cwd@),
            all == found_views(found@),
            first_taken(all, cwd@) == first_taken(all.skip(i as int), cwd@),
        decreases found@.len() - i,
    {
        assert(all.skip(i as int)[0] == text::opt_view(found@[i as int]));
        assert(all.skip(i as int).skip(1) =~= all.skip(i + 1));
        if let Some(path) = &found[i] {
            if top || !paths::starts_with(path.as_str(), cwd) {
                return Some(path.clone());
            }
        }
        i = i + 1;
    }
    None
}

/// An executable that stands in a directory is never taken while in it, but
/// where the directory has no parent.
pub proof fn law_workspace_executable_is_not_taken(found: Seq<Option<Seq<char>>>, cwd: Seq<char>)
    requires
        !is_top(cwd),
    ensures
        first_taken(found, cwd) matches Some(path) ==> !paths::is_under(path, cwd) && found.contains(Some(path)),
    decreases found.len(),
{
    if found.len() > 0 {
        law_workspace_executable_is_not_taken(found.skip(1), cwd);
        if found[0] is Some && may_take(found[0]->Some_0, cwd) {
            assert(found.contains(found[0]));
        } else if let Some(path) = first_taken(found, cwd) {
            let i = choose|i: int| 0 <= i < found.skip(1).len() && found.skip(1)[i] == Some(path);
            assert(found[i + 1] == Some(path));
        }
    }
}

/// Nothing is said where no sandbox is needed. Else a system that cannot have
/// one is warned of first, then a missing executable; only then is one tried,
/// with a network of its own unless commands may use the network freely.
pub proof fn law_worst_news_comes_first(
    plan: WarningPlan,
    sandbox_required: bool,
    network_enabled: bool,
    managed_network_active: bool,
    wsl1: bool,
    installed: bool,
)
    requires
        is_warning_plan(plan, sandbox_required, network_enabled, managed_network_active, wsl1, installed),
    ensures
        plan is Silent <==> !sandbox_required,
        plan is Probe <==> sandbox_required && !wsl1 && installed,
        plan matches WarningPlan::Warn(w) ==> (wsl1 ==> text::has_sub(w@, "not supported on WSL1"@)) && (!wsl1
            ==> text::has_sub(w@, "could not find bubblewrap on PATH"@)),
        plan matches WarningPlan::Probe { unshare_network } ==> (!unshare_network <==> network_enabled
            && !managed_network_active),
{
    reveal_strlit("not supported on WSL1");
    reveal_strlit("could not find bubblewrap on PATH");
    reveal_strlit(
        "Codex could not find bubblewrap on PATH. Install bubblewrap with your OS package manager. See the sandbox prerequisites: https://developers.openai.com/codex/concepts/sandboxing#prerequisites. Codex will use the bundled bubblewrap in the meantime.",
    );
    reveal_strlit(
        "Codex's Linux sandbox uses bubblewrap, which is not supported on WSL1 because WSL1 cannot create the required user namespaces. Use WSL2 for sandboxed shell commands.",
    );
    assert(missing_warning().subrange(6int, 6int + "could not find bubblewrap on PATH"@.len())
        =~= "could not find bubblewrap on PATH"@);
    assert(wsl1_warning().subrange(48int, 48int + "not supported on WSL1"@.len()) =~= "not supported on WSL1"@);
}

/// A probe that failed is told apart by what it wrote: that user namespaces
/// cannot be had, before that `/proc/sys` cannot be reached, before that it just
/// failed. What a probe that went well wrote does not matter.
pub proof fn law_probe_failures_are_told_apart(success: bool, errors: Seq<char>)
    ensures
        exit_result(success, errors) is Available <==> success,
        exit_result(success, errors) is UserNamespaceUnavailable <==> !success && (text::has_sub(
            errors,
            "loopback: Failed RTM_NEWADDR"@,
        ) || text::has_sub(errors, "loopback: Failed RTM_NEWLINK"@) || text::has_sub(
            errors,
            "setting up uid map: Permission denied"@,
        ) || text::has_sub(errors, "No permissions to create a new namespace"@)),
        exit_result(success, errors) is ProcSysDisconnected ==> text::has_sub(errors, "/proc/sys"@),
        !success && !lacks_user_namespaces(errors) && text::has_sub(errors, "/proc/sys"@) && (text::has_sub(
            errors,
            "Socket not connected"@,
        ) || text::has_sub(errors, "Transport endpoint is not connected"@)) ==> exit_result(success, errors)
            is ProcSysDisconnected,
        !text::has_sub(errors, "Socket not connected"@) && !text::has_sub(
            errors,
            "Transport endpoint is not connected"@,
        ) ==> !(exit_result(success, errors) is ProcSysDisconnected),
{
}

/// A probe is started again only while its executable is being written and time
/// is left, and looked at only while it runs and time is left; it is killed
/// exactly where it was started and may still run.
pub proof fn law_probe_ends_in_time(event: ProbeEvent)
    ensures
        probe_next(event) is Respawn <==> (event matches ProbeEvent::SpawnFailed { executable_busy, past_deadline }
            && executable_busy && !past_deadline),
        probe_next(event) is Poll <==> (event matches ProbeEvent::Spawned { errors_readable } && errors_readable) || (
        event matches ProbeEvent::Running { past_deadline } && !past_deadline) || event is PollInterrupted,
        probe_next(event) matches ProbeStep::Finish { kill, result } ==> (kill <==> event is Spawned || event is Running
            || event is PollFailed),
        probe_next(event) matches ProbeStep::Respawn { delay_ms } ==> delay_ms == 5,
        probe_next(event) matches ProbeStep::Poll { delay_ms } ==> delay_ms == (if event is Running {
            50int
        } else {
            0int
        }),
        event matches ProbeEvent::Exited { success, errors } ==> probe_next(event) == (ProbeStep::Finish {
            kill: false,
            result: exit_result(success, text::lossy_text(errors@)),
        }),
        !(event is Exited) && probe_next(event) is Finish ==> probe_next(event)->result is Failed,
        SYSTEM_BWRAP_PROBE_TIMEOUT_MS == 500,
{
}

/// The probe runs the command, as the last thing that it is given, in a new user
/// namespace, with a new network exactly where that is asked for.
pub proof fn law_probe_runs_the_command(unshare_network: bool, command: Seq<char>)
    ensures
        probe_arguments(unshare_network, command).last() == command,
        probe_arguments(unshare_network, command)[0] == "--unshare-user"@,
        probe_arguments(unshare_network, command).len() == (if unshare_network {
            6int
        } else {
            5int
        }),
        unshare_network ==> probe_arguments(unshare_network, command)[1] == "--unshare-net"@,
        ({
            let args = probe_arguments(unshare_network, command);
            let n = args.len() as int;
            args[n - 4] == "--ro-bind"@ && args[n - 3] == "/"@ && args[n - 2] == "/"@
        }),
{
}

/// Whether a version of WSL is named at the place: its letters, and behind them
/// a number, read as far as its digits go.
pub open spec fn names_version(s: Seq<char>, at: int, version: nat) -> bool {
    let rest = s.skip(at + 3);
    let digits = rest.take(text::leading_digits(rest) as int);
    &&& 0 <= at <= s.len() - 3
    &&& s[at] == 'w' && s[at + 1] == 's' && s[at + 2] == 'l'
    &&& digits.len() > 0
    &&& text::digits_value(digits) == version
    &&& version <= u32::MAX
}

/// Whether the version is named at the place, and none before it.
pub open spec fn names_first_version(s: Seq<char>, at: int, version: nat) -> bool {
    names_version(s, at, version) && forall|j: int, other: nat|
        0 <= j < at ==> !#[trigger] names_version(s, j, other)
}

proof fn lemma_version_behind(s: Seq<char>, from: int, at: int, version: nat)
    requires
        0 <= from <= s.len(),
        0 <= at,
    ensures
        names_version(s.skip(from), at, version) == names_version(s, at + from, version),
{
    let rest = s.skip(from);
    if at + 3 <= rest.len() {
        assert(rest.skip(at + 3) =~= s.skip(at + from + 3));
        assert(rest[at] == s[at + from] && rest[at + 1] == s[at + from + 1] && rest[at + 2] == s[at + from + 2]);
    }
}

/// The version of WSL is the first one that is named, and is not known where
/// none is.
pub proof fn law_first_named_version_counts(s: Seq<char>)
    ensures
        wsl_version(s) matches Some(version) ==> exists|at: int| #[trigger] names_first_version(s, at, version),
        wsl_version(s) is None ==> forall|at: int, version: nat| !#[trigger] names_version(s, at, version),
    decreases s.len(),
{
    reveal_strlit("wsl");
    let wsl = "wsl"@;
    text::law_text_is_found_where_it_first_stands(s, wsl);
    match text::sub_index(s, wsl) {
        Some(i) => {
            let rest = s.skip(i + 3);
            let digits = rest.take(text::leading_digits(rest) as int);
            text::lemma_leading_digits_are_digits(rest);
            assert(s.subrange(i, i + 3)[0] == 'w' && s.subrange(i, i + 3)[1] == 's' && s.subrange(i, i + 3)[2] == 'l');
            assert forall|k: int| 0 <= k < digits.len() implies text::is_digit(#[trigger] digits[k]) by {
                assert(digits[k] == rest[k]);
            }
            assert forall|j: int, other: nat| 0 <= j < i implies !#[trigger] names_version(s, j, other) by {
                if names_version(s, j, other) {
                    assert(s.subrange(j, j + 3) =~= wsl);
                }
            }
            if digits.len() > 0 && text::digits_value(digits) <= u32::MAX {
                assert(wsl_version(s) == Some(text::digits_value(digits)));
                assert(names_first_version(s, i, wsl_version(s)->0));
            } else {
                law_first_named_version_counts(rest);
                assert(wsl_version(s) == wsl_version(rest));
                assert forall|j: int, other: nat| j < i + 3 implies !#[trigger] names_version(s, j, other) by {}
                if let Some(version) = wsl_version(rest) {
                    let at = choose|at: int| #[trigger] names_first_version(rest, at, version);
                    assert(names_version(rest, at, version));
                    lemma_version_behind(s, i + 3, at, version);
                    assert forall|j: int, other: nat| 0 <= j < at + (i + 3) implies !#[trigger] names_version(
                        s,
                        j,
                        other,
                    ) by {
                        if j >= i + 3 {
                            lemma_version_behind(s, i + 3, j - (i + 3), other);
                            assert(!names_version(rest, j - (i + 3), other));
                        }
                    }
                    assert(names_first_version(s, at + (i + 3), version));
                } else {
                    assert forall|at: int, version: nat| !#[trigger] names_version(s, at, version) by {
                        if at >= i + 3 {
                            lemma_version_behind(s, i + 3, at - (i + 3), version);
                            assert(!names_version(rest, at - (i + 3), version));
                        }
                    }
                }
            }
        },
        None => {
            assert forall|at: int, version: nat| !#[trigger] names_version(s, at, version) by {
                if names_version(s, at, version) {
                    assert(s.subrange(at, at + 3) =~= wsl);
                }
            }
        },
    }
}

/// The system is WSL1 where it names that version, in letters of either case. A
/// system that names no version is taken for it where it is Microsoft's and not
/// of the kind that later versions are.
pub proof fn law_wsl1_is_named_or_old(proc_version: Seq<char>)
    ensures
        wsl_version(text::ascii_lower(proc_version)) is Some ==> (is_wsl1_version(proc_version) <==> wsl_version(
            text::ascii_lower(proc_version),
        ) == Some(1nat)),
        wsl_version(text::ascii_lower(proc_version)) is None ==> (is_wsl1_version(proc_version) <==> text::has_sub(
            text::ascii_lower(proc_version),
            "microsoft"@,
        ) && !text::has_sub(text::ascii_lower(proc_version), "microsoft-standard"@)),
        is_wsl1_version(text::ascii_upper(proc_version)) == is_wsl1_version(proc_version),
{
    text::law_case_keeps_the_letters(proc_version);
}

/// The executable is the first that was found and does not lie in the directory
/// that commands work in; none is taken where there is no such one. Where
/// commands work at the top of the file system, the first that was found is.
pub proof fn law_first_executable_outside_is_taken(found: Seq<Option<Seq<char>>>, cwd: Seq<char>)
    ensures
        match first_taken(found, cwd) {
            Some(path) => exists|i: int|
                0 <= i < found.len() && #[trigger] found[i] == Some(path) && (is_top(cwd) || !paths::is_under(path, cwd))
                    && forall|j: int|
                    0 <= j < i && (#[trigger] found[j]) is Some ==> !is_top(cwd) && paths::is_under(found[j]->0, cwd),
            None => forall|j: int|
                0 <= j < found.len() && (#[trigger] found[j]) is Some ==> !is_top(cwd) && paths::is_under(
                    found[j]->0,
                    cwd,
                ),
        },
    decreases found.len(),
{
    if found.len() > 0 {
        if found[0] is Some && may_take(found[0]->0, cwd) {
        } else {
            let rest = found.skip(1);
            law_first_executable_outside_is_taken(rest, cwd);
            match first_taken(rest, cwd) {
                Some(path) => {
                    let i = choose|i: int|
                        0 <= i < rest.len() && #[trigger] rest[i] == Some(path) && (is_top(cwd) || !paths::is_under(
                            path,
                            cwd,
                        )) && forall|j: int|
                            0 <= j < i && (#[trigger] rest[j]) is Some ==> !is_top(cwd) && paths::is_under(
                                rest[j]->0,
                                cwd,
                            );
                    assert(found[i + 1] == Some(path));
                    assert forall|j: int| 0 <= j < i + 1 && (#[trigger] found[j]) is Some implies !is_top(cwd)
                        && paths::is_under(found[j]->0, cwd) by {
                        if j > 0 {
                            assert(rest[j - 1] == found[j]);
                        }
                    }
                },
                None => {
                    assert forall|j: int| 0 <= j < found.len() && (#[trigger] found[j]) is Some implies !is_top(cwd)
                        && paths::is_under(found[j]->0, cwd) by {
                        if j > 0 {
                            assert(rest[j - 1] == found[j]);
                        }
                    }
                },
            }
        }
    }
}

/// The errors of a probe are kept up to the limit, from the start.
pub proof fn law_first_errors_are_kept(bytes: Seq<u8>)
    ensures
        kept(bytes).len() == (if bytes.len() <= 65536 {
            bytes.len() as int
        } else {
            65536int
        }),
        forall|i: int| 0 <= i < kept(bytes).len() ==> #[trigger] kept(bytes)[i] == bytes[i],
        SYSTEM_BWRAP_PROBE_DRAIN_LIMIT_BYTES == 4 * 65536,
{
}

/// What is warned of, in words.
pub proof fn law_warnings_in_words()
    ensures
        user_namespace_warning()
            == "Codex's Linux sandbox uses bubblewrap and needs access to create user namespaces."@,
        proc_sys_warning()
            == "Codex's Linux sandbox cannot access /proc/sys because the mount is disconnected. Restart the environment or container before running sandboxed commands."@,
        wsl1_warning()
            == "Codex's Linux sandbox uses bubblewrap, which is not supported on WSL1 because WSL1 cannot create the required user namespaces. Use WSL2 for sandboxed shell commands."@,
        missing_warning()
            == "Codex could not find bubblewrap on PATH. Install bubblewrap with your OS package manager. See the sandbox prerequisites: https://developers.openai.com/codex/concepts/sandboxing#prerequisites. Codex will use the bundled bubblewrap in the meantime."@,
        true_commands() == seq!["/usr/bin/true"@, "/bin/true"@],
{
}

} // verus!
