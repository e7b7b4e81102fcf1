//! How processes take turns with a store that holds the tokens of many servers.

use vstd::prelude::*;

use crate::oauth::resolved_store::StoreError;
use crate::oauth::resolved_store::StoreFault;
use crate::paths;

verus! {

/// How long, in milliseconds, to wait for a store.
pub const STORE_LOCK_ACQUIRE_TIMEOUT_MS: u64 = 60000;

/// How long, in milliseconds, to wait before a store is asked for again.
pub const STORE_LOCK_RETRY_SLEEP_MS: u64 = 50;

/// A store that holds the tokens of many servers.
#[derive(Clone, Copy, Debug, PartialEq, Eq, Structural)]
pub enum OAuthStore {
    File,
    Secrets,
}

impl OAuthStore {
    /// The name of the file that is locked.
    pub open spec fn file_name(self) -> Seq<char> {
        match self {
            OAuthStore::File => "file-store.lock"@,
            OAuthStore::Secrets => "secrets-store.lock"@,
        }
    }

    /// What the store is called.
    pub open spec fn called(self) -> Seq<char> {
        match self {
            OAuthStore::File => "fallback file"@,
            OAuthStore::Secrets => "encrypted secrets"@,
        }
    }

    /// The name of the file that is locked.
    pub fn lock_filename(self) -> (r: &'static str)
        ensures
            r@ == self.file_name(),
    {
        match self {
            OAuthStore::File => "file-store.lock",
            OAuthStore::Secrets => "secrets-store.lock",
        }
    }

    /// What the store is called.
    pub fn description(self) -> (r: &'static str)
        ensures
            r@ == self.called(),
    {
        match self {
            OAuthStore::File => "fallback file",
            OAuthStore::Secrets => "encrypted secrets",
        }
    }
}

/// The file that is locked for the store.
pub open spec fn lock_path(codex_home: Seq<char>, store: OAuthStore) -> Seq<char> {
    paths::joined_path(paths::joined_path(codex_home, "mcp-oauth-locks"@), store.file_name())
}

/// The file that is locked for the store.
pub fn oauth_store_lock_path(codex_home: &str, store: OAuthStore) -> (r: String)
    ensures
        r@ == lock_path(codex_home@, store),
{
    let dir = paths::join(codex_home, "mcp-oauth-locks");
    paths::join(dir.as_str(), store.lock_filename())
}

/// What is told where a store could not be locked.
pub open spec fn failure_text(store: OAuthStore) -> Seq<char> {
    "failed to acquire MCP OAuth "@ + store.called() + " aggregate-store lock"@
}

/// What is told where a store could not be locked.
pub fn lock_failure(store: OAuthStore) -> (r: String)
    ensures
        r@ == failure_text(store),
{
    let mut message = "failed to acquire MCP OAuth ".to_string();
    message.push_str(store.description());
    message.push_str(" aggregate-store lock");
    message
}

/// A duration of so many milliseconds, as it is shown.
pub uninterp spec fn duration_text(ms: int) -> Seq<char>;

/// The `Debug` text of `std::time::Duration::from_millis`: a function of the
/// milliseconds, named `duration_text`.
#[verifier::external_body]
fn show_duration(ms: u64) -> (r: String)
    ensures
        r@ == duration_text(ms as int),
{
    format!("{:?}", std::time::Duration::from_millis(ms))
}

/// What can come of an attempt to lock the file of a store.
pub enum LockEvent {
    Acquired,
    /// Someone else holds it; so many milliseconds have passed since the first
    /// attempt.
    WouldBlock { elapsed_ms: u64 },
    Failed { message: String },
}

/// What is to be done after that.
pub enum LockStep {
    /// The store is locked.
    Hold,
    /// Try again after so many milliseconds; the wait is reported, or was.
    Wait { sleep_ms: u64, report: bool },
    /// The store cannot be locked.
    Fail(StoreError),
}

/// The store and its file, as messages name them.
pub open spec fn store_at(store: OAuthStore, path: Seq<char>) -> Seq<char> {
    store.called() + " store lock "@ + path
}

/// Whether the step follows the event.
pub open spec fn lock_step_follows(
    step: LockStep,
    store: OAuthStore,
    path: Seq<char>,
    timeout_ms: u64,
    reported: bool,
    event: LockEvent,
) -> bool {
    match event {
        LockEvent::Acquired => step is Hold,
        LockEvent::WouldBlock { elapsed_ms } => if elapsed_ms >= timeout_ms {
            step matches LockStep::Fail(e) && e@ == (StoreFault {
                message: "timed out after "@ + duration_text(timeout_ms as int) + " waiting for MCP OAuth "@ + store_at(
                    store,
                    path,
                ),
                cause: None,
                is_lock_failure: false,
            })
        } else {
            step == (LockStep::Wait {
                sleep_ms: if STORE_LOCK_RETRY_SLEEP_MS <= timeout_ms {
                    STORE_LOCK_RETRY_SLEEP_MS
                } else {
                    timeout_ms
                },
                report: !reported,
            })
        },
        LockEvent::Failed { message } => step matches LockStep::Fail(e) && e@ == (StoreFault {
            message: "failed to lock MCP OAuth "@ + store_at(store, path),
            cause: Some(message@),
            is_lock_failure: false,
        }),
    }
}

fn name_store(message: &mut String, store: OAuthStore, path: &str)
    ensures
        final(message)@ == old(message)@ + store_at(store, path@),
{
    let ghost before = message@;
    message.push_str(store.description());
    message.push_str(" store lock ");
    message.push_str(path);
    assert(message@ =~= before + store_at(store, path@));
}

/// What to do after an attempt to lock the file of a store.
pub fn lock_step(store: OAuthStore, path: &str, timeout_ms: u64, reported: bool, event: LockEvent) -> (r: LockStep)
    ensures
        lock_step_follows(r, store, path@, timeout_ms, reported, event),
{
    match event {
        LockEvent::Acquired => LockStep::Hold,
        LockEvent::WouldBlock { elapsed_ms } => {
            if elapsed_ms >= timeout_ms {
                let mut message = "timed out after ".to_string();
                message.push_str(show_duration(timeout_ms).as_str());
                message.push_str(" waiting for MCP OAuth ");
                name_store(&mut message, store, path);
                LockStep::Fail(StoreError { message, cause: None, is_lock_failure: false })
            } else {
                let sleep_ms: u64 = if STORE_LOCK_RETRY_SLEEP_MS <= timeout_ms {
                    STORE_LOCK_RETRY_SLEEP_MS
                } else {
                    timeout_ms
                };
                LockStep::Wait { sleep_ms, report: !reported }
            }
        },
        LockEvent::Failed { message: cause } => {
            let mut message = "failed to lock MCP OAuth ".to_string();
            name_store(&mut message, store, path);
            LockStep::Fail(StoreError { message, cause: Some(cause), is_lock_failure: false })
        },
    }
}

/// What is told where the file of a store cannot be opened.
pub fn open_failure(store: OAuthStore, path: &str, cause: String) -> (r: StoreError)
    ensures
        r@ == (StoreFault {
            message: "failed to open MCP OAuth "@ + store_at(store, path@),
            cause: Some(cause@),
            is_lock_failure: false,
        }),
{
    let mut message = "failed to open MCP OAuth ".to_string();
    name_store(&mut message, store, path);
    StoreError { message, cause: Some(cause), is_lock_failure: false }
}

/// An error with what lies behind it, on one line.
pub open spec fn chain_text(fault: StoreFault) -> Seq<char> {
    match fault.cause {
        Some(cause) => fault.message + ": "@ + cause,
        None => fault.message,
    }
}

/// The error of an attempt to lock the store, marked as one.
pub fn mark_lock_failure(store: OAuthStore, error: StoreError) -> (r: StoreError)
    ensures
        r@ == (StoreFault {
            message: failure_text(store),
            cause: Some(chain_text(error@)),
            is_lock_failure: true,
        }),
{
    let mut behind = error.message;
    if let Some(cause) = error.cause {
        behind.push_str(": ");
        behind.push_str(cause.as_str());
    }
    StoreError { message: lock_failure(store), cause: Some(behind), is_lock_failure: true }
}

/// A store that someone else holds is waited for until the time is up, and the
/// wait is reported once.
pub proof fn law_contended_store_is_waited_for(
    step: LockStep,
    store: OAuthStore,
    path: Seq<char>,
    timeout_ms: u64,
    reported: bool,
    elapsed_ms: u64,
)
    requires
        lock_step_follows(step, store, path, timeout_ms, reported, LockEvent::WouldBlock { elapsed_ms }),
    ensures
        elapsed_ms < timeout_ms <==> step is Wait,
        step matches LockStep::Wait { sleep_ms, report } ==> sleep_ms <= timeout_ms && (reported ==> !report),
{
}

/// The next attempt on a store that someone else holds comes after 50
/// milliseconds, or after the whole time that there is where that is less, and
/// the first such wait is the one that is reported. No failure to lock is yet
/// marked as one.
pub proof fn law_wait_is_short_and_told_once(
    step: LockStep,
    store: OAuthStore,
    path: Seq<char>,
    timeout_ms: u64,
    reported: bool,
    event: LockEvent,
)
    requires
        lock_step_follows(step, store, path, timeout_ms, reported, event),
    ensures
        step is Hold <==> event is Acquired,
        step matches LockStep::Wait { sleep_ms, report } ==> report == !reported && sleep_ms <= 50 && sleep_ms
            <= timeout_ms && (sleep_ms == 50 || sleep_ms == timeout_ms),
        step matches LockStep::Fail(e) ==> !e.is_lock_failure && (e.cause is Some <==> event is Failed),
        event matches LockEvent::Failed { message } ==> step is Fail && step->Fail_0@.cause == Some(message@),
        STORE_LOCK_ACQUIRE_TIMEOUT_MS == 60 * 1000,
{
}

/// A failure tells the store and the file that was to be locked.
pub proof fn law_failure_names_the_store(
    step: LockStep,
    store: OAuthStore,
    path: Seq<char>,
    timeout_ms: u64,
    reported: bool,
    event: LockEvent,
)
    requires
        lock_step_follows(step, store, path, timeout_ms, reported, event),
    ensures
        step matches LockStep::Fail(e) ==> {
            let named = (if store is File {
                "fallback file"@
            } else {
                "encrypted secrets"@
            }) + " store lock "@ + path;
            &&& event is Failed ==> e@.message == "failed to lock MCP OAuth "@ + named
            &&& event is WouldBlock ==> e@.message == "timed out after "@ + duration_text(timeout_ms as int)
                + " waiting for MCP OAuth "@ + named
        },
        failure_text(store) == "failed to acquire MCP OAuth "@ + (if store is File {
            "fallback file"@
        } else {
            "encrypted secrets"@
        }) + " aggregate-store lock"@,
        lock_path(path, OAuthStore::File) == paths::joined_path(
            paths::joined_path(path, "mcp-oauth-locks"@),
            "file-store.lock"@,
        ),
        lock_path(path, OAuthStore::Secrets) == paths::joined_path(
            paths::joined_path(path, "mcp-oauth-locks"@),
            "secrets-store.lock"@,
        ),
{
}

/// A failure is told with what lies behind it, where something does.
pub proof fn law_cause_is_told_behind_the_message(fault: StoreFault)
    ensures
        fault.cause matches Some(cause) ==> chain_text(fault) == fault.message + ": "@ + cause,
        fault.cause is None ==> chain_text(fault) == fault.message,
{
}

} // verus!
