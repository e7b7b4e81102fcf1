//! Artifacts of threads, as rollout files record them.

use vstd::prelude::*;

use crate::ids;
use crate::ids::ThreadId;
use crate::state::schedule;
use crate::text;

verus! {

/// An artifact of a thread. The payload is JSON.
#[derive(Debug, PartialEq, Eq)]
pub struct StoredThreadArtifact {
    pub id: String,
    pub created_at: i64,
    pub artifact_type: String,
    pub payload: String,
}

/// An artifact of a thread as it is cached.
#[derive(Debug, PartialEq, Eq)]
pub struct ThreadArtifact {
    pub thread_id: ThreadId,
    pub id: String,
    pub created_at: i64,
    pub artifact_type: String,
    pub payload: String,
}

/// An artifact as a rollout file records it.
#[derive(Debug, PartialEq, Eq)]
pub struct RolloutThreadArtifact {
    pub created_at: i64,
    pub artifact_type: String,
    pub payload: String,
}

/// A change of one artifact: what it became, or nothing where it was removed.
#[derive(Debug, PartialEq, Eq)]
pub struct ArtifactChange {
    pub id: String,
    pub artifact: Option<RolloutThreadArtifact>,
}

/// The changes that a metadata record of a rollout file holds.
#[derive(Debug, PartialEq, Eq)]
pub struct ArtifactRecord {
    pub thread_id: ThreadId,
    pub changes: Vec<ArtifactChange>,
}

/// Why an operation on artifacts failed.
#[derive(Debug, PartialEq, Eq)]
pub enum ThreadStoreError {
    InvalidRequest { message: String },
    ThreadNotFound { thread_id: ThreadId },
    Internal { message: String },
}

/// The cached artifact without its thread.
pub fn stored_artifact_from_state(artifact: ThreadArtifact) -> (r: StoredThreadArtifact)
    ensures
        r == (StoredThreadArtifact {
            id: artifact.id,
            created_at: artifact.created_at,
            artifact_type: artifact.artifact_type,
            payload: artifact.payload,
        }),
{
    StoredThreadArtifact {
        id: artifact.id,
        created_at: artifact.created_at,
        artifact_type: artifact.artifact_type,
        payload: artifact.payload,
    }
}

/// The artifact under its identifier.
pub fn stored_artifact_from_rollout(id: String, artifact: RolloutThreadArtifact) -> (r: StoredThreadArtifact)
    ensures
        r == stored(id, artifact),
{
    StoredThreadArtifact {
        id,
        created_at: artifact.created_at,
        artifact_type: artifact.artifact_type,
        payload: artifact.payload,
    }
}

/// The artifact under its identifier.
pub open spec fn stored(id: String, artifact: RolloutThreadArtifact) -> StoredThreadArtifact {
    StoredThreadArtifact {
        id,
        created_at: artifact.created_at,
        artifact_type: artifact.artifact_type,
        payload: artifact.payload,
    }
}

/// The position of an artifact, or the length where there is none.
pub open spec fn position(s: Seq<StoredThreadArtifact>, id: Seq<char>) -> int
    decreases s.len(),
{
    if s.len() == 0 {
        0
    } else if s[0].id@ == id {
        0
    } else {
        1 + position(s.skip(1), id)
    }
}

proof fn lemma_position(s: Seq<StoredThreadArtifact>, id: Seq<char>)
    ensures
        0 <= position(s, id) <= s.len(),
        position(s, id) < s.len() ==> s[position(s, id)].id@ == id,
        forall|i: int| 0 <= i < position(s, id) ==> (#[trigger] s[i]).id@ != id,
    decreases s.len(),
{
    if s.len() > 0 && s[0].id@ != id {
        lemma_position(s.skip(1), id);
        assert forall|i: int| 0 <= i < position(s, id) implies (#[trigger] s[i]).id@ != id by {
            if i > 0 {
                assert(s.skip(1)[i - 1] == s[i]);
            }
        }
    }
}

/// The artifacts after one change: a new one comes last, a changed one keeps
/// its place, and a removed one is gone.
pub open spec fn changed(s: Seq<StoredThreadArtifact>, change: ArtifactChange) -> Seq<StoredThreadArtifact> {
    let at = position(s, change.id@);
    match change.artifact {
        Some(artifact) => if at < s.len() {
            s.update(at, stored(change.id, artifact))
        } else {
            s.push(stored(change.id, artifact))
        },
        None => if at < s.len() {
            s.remove(at)
        } else {
            s
        },
    }
}

/// The artifacts after the changes, in order.
pub open spec fn after_changes(changes: Seq<ArtifactChange>) -> Seq<StoredThreadArtifact>
    decreases changes.len(),
{
    if changes.len() == 0 {
        Seq::empty()
    } else {
        changed(after_changes(changes.drop_last()), changes.last())
    }
}

/// The changes that the records hold of a thread, in order.
pub open spec fn changes_of(records: Seq<ArtifactRecord>, thread: ThreadId) -> Seq<ArtifactChange>
    decreases records.len(),
{
    if records.len() == 0 {
        Seq::empty()
    } else {
        let before = changes_of(records.drop_last(), thread);
        if records.last().thread_id == thread {
            before + records.last().changes@
        } else {
            before
        }
    }
}

/// Whether no two artifacts have the same identifier.
pub open spec fn ids_distinct(s: Seq<StoredThreadArtifact>) -> bool {
    forall|i: int, j: int| 0 <= i < j < s.len() ==> (#[trigger] s[i]).id@ != (#[trigger] s[j]).id@
}

/// What the last change of an artifact made of it.
pub open spec fn last_change(changes: Seq<ArtifactChange>, id: Seq<char>) -> Option<RolloutThreadArtifact>
    decreases changes.len(),
{
    if changes.len() == 0 {
        None
    } else if changes.last().id@ == id {
        changes.last().artifact
    } else {
        last_change(changes.drop_last(), id)
    }
}

/// Whether the artifacts hold the given one under the identifier, or none.
pub open spec fn holds_as(s: Seq<StoredThreadArtifact>, id: Seq<char>, artifact: Option<RolloutThreadArtifact>) -> bool {
    match artifact {
        Some(a) => exists|i: int| 0 <= i < s.len() && is_stored_as(#[trigger] s[i], id, a),
        None => forall|i: int| 0 <= i < s.len() ==> (#[trigger] s[i]).id@ != id,
    }
}

/// Whether the stored artifact is the given one under the identifier.
pub open spec fn is_stored_as(s: StoredThreadArtifact, id: Seq<char>, a: RolloutThreadArtifact) -> bool {
    s.id@ == id && s.created_at == a.created_at && s.artifact_type == a.artifact_type && s.payload == a.payload
}

/// Applies one change.
fn apply_change(artifacts: &mut Vec<StoredThreadArtifact>, change: ArtifactChange)
    ensures
        final(artifacts)@ == changed(old(artifacts)@, change),
{
    let ghost s = artifacts@;
    proof {
        lemma_position(s, change.id@);
    }
    let mut at: usize = 0;
    while at < artifacts.len() && !text::str_eq(artifacts[at].id.as_str(), change.id.as_str())
        invariant
            at <= position(s, change.id@) <= s.len(),
            artifacts@ == s,
            position(s, change.id@) < s.len() ==> s[position(s, change.id@)].id@ == change.id@,
            forall|i: int| 0 <= i < position(s, change.id@) ==> (#[trigger] s[i]).id@ != change.id@,
        decreases s.len() - at,
    {
        at = at + 1;
    }
    match change.artifact {
        Some(artifact) => {
            let updated = stored_artifact_from_rollout(change.id, artifact);
            if at < artifacts.len() {
                artifacts.set(at, updated);
            } else {
                artifacts.push(updated);
            }
        },
        None => {
            if at < artifacts.len() {
                let _ = artifacts.remove(at);
            }
        },
    }
}

/// The artifacts of a thread that the records of a rollout file add up to.
pub fn recorded_artifacts(records: Vec<ArtifactRecord>, thread_id: ThreadId) -> (r: Vec<StoredThreadArtifact>)
    ensures
        r@ == after_changes(changes_of(records@, thread_id)),
        ids_distinct(r@),
{
    let ghost all = records@;
    let mut rest = records;
    let mut out: Vec<StoredThreadArtifact> = Vec::new();
    let ghost mut n: int = 0;
    assert(all.take(0) =~= Seq::empty());
    assert(rest@ =~= all.skip(0));
    while rest.len() > 0
        invariant
            0 <= n <= all.len(),
            rest@ == all.skip(n),
            out@ == after_changes(changes_of(all.take(n), thread_id)),
        decreases rest.len(),
    {
        let record = rest.remove(0);
        let ghost before = changes_of(all.take(n), thread_id);
        proof {
            assert(record == all[n]);
            assert(rest@ =~= all.skip(n + 1));
            assert(all.take(n + 1).drop_last() =~= all.take(n));
            assert(all.take(n + 1).last() == record);
        }
        if record.thread_id == thread_id {
            let ghost changes = record.changes@;
            let mut queue = record.changes;
            let ghost mut k: int = 0;
            assert(queue@ =~= changes.skip(0));
            assert(before + changes.take(0) =~= before);
            while queue.len() > 0
                invariant
                    0 <= k <= changes.len(),
                    queue@ == changes.skip(k),
                    out@ == after_changes(before + changes.take(k)),
                decreases queue.len(),
            {
                let change = queue.remove(0);
                proof {
                    assert(change == changes[k]);
                    assert(queue@ =~= changes.skip(k + 1));
                    let next = before + changes.take(k + 1);
                    assert(next.drop_last() =~= before + changes.take(k));
                    assert(next.last() == change);
                }
                apply_change(&mut out, change);
                proof {
                    k = k + 1;
                }
            }
            assert(changes.take(k) =~= changes);
        }
        proof {
            n = n + 1;
        }
    }
    assert(all.take(n) =~= all);
    proof {
        lemma_after_changes(changes_of(all, thread_id), Seq::empty());
    }
    out
}

proof fn lemma_after_changes(changes: Seq<ArtifactChange>, id: Seq<char>)
    ensures
        ids_distinct(after_changes(changes)),
        holds_as(after_changes(changes), id, last_change(changes, id)),
    decreases changes.len(),
{
    if changes.len() > 0 {
        let s = after_changes(changes.drop_last());
        let change = changes.last();
        let t = changed(s, change);
        lemma_after_changes(changes.drop_last(), id);
        lemma_position(s, change.id@);
        let at = position(s, change.id@);
        if change.artifact is None && at < s.len() {
            assert forall|i: int| 0 <= i < t.len() implies #[trigger] t[i] == s[if i < at {
                i
            } else {
                i + 1
            }] by {}
        }
        if change.id@ == id {
            match change.artifact {
                Some(a) => {
                    if at < s.len() {
                        assert(is_stored_as(t[at], id, a));
                    } else {
                        assert(is_stored_as(t[s.len() as int], id, a));
                    }
                },
                None => {
                    assert forall|i: int| 0 <= i < t.len() implies (#[trigger] t[i]).id@ != id by {
                        if at < s.len() {
                            let k = if i < at {
                                i
                            } else {
                                i + 1
                            };
                            assert(t[i] == s[k]);
                            if k < at {
                                assert(s[k].id@ != s[at].id@);
                            } else {
                                assert(s[at].id@ != s[k].id@);
                            }
                        } else {
                            assert(s[i].id@ != id);
                        }
                    }
                },
            }
        } else {
            match last_change(changes, id) {
                Some(a) => {
                    let i = choose|i: int| 0 <= i < s.len() && is_stored_as(#[trigger] s[i], id, a);
                    if change.artifact is None && at < s.len() && i > at {
                        assert(t[i - 1] == s[i]);
                        assert(is_stored_as(t[i - 1], id, a));
                    } else {
                        assert(t[i] == s[i]);
                        assert(is_stored_as(t[i], id, a));
                    }
                },
                None => {},
            }
        }
    }
}

/// Artifacts have distinct identifiers, and each is what its last change made
/// of it: the latest version where that kept it, and gone where that removed
/// it.
pub proof fn law_last_change_wins(changes: Seq<ArtifactChange>, id: Seq<char>)
    ensures
        ids_distinct(after_changes(changes)),
        holds_as(after_changes(changes), id, last_change(changes, id)),
{
    lemma_after_changes(changes, id);
}

/// A created artifact is read back: once its record is the last of the rollout
/// file, the artifacts of the thread hold it under its identifier.
pub proof fn law_created_artifact_is_read_back(
    records: Seq<ArtifactRecord>,
    record: ArtifactRecord,
    id: String,
    artifact: RolloutThreadArtifact,
)
    requires
        record.changes@ == seq![ArtifactChange { id, artifact: Some(artifact) }],
    ensures
        holds_as(
            after_changes(changes_of(records.push(record), record.thread_id)),
            id@,
            Some(artifact),
        ),
{
    let thread = record.thread_id;
    let changes = changes_of(records.push(record), thread);
    assert(records.push(record).drop_last() =~= records);
    assert(changes == changes_of(records, thread) + record.changes@);
    assert(changes.last() == record.changes@[0]);
    lemma_after_changes(changes, id@);
}

/// The artifacts of a thread do not depend on records of other threads.
pub proof fn law_other_threads_do_not_matter(records: Seq<ArtifactRecord>, record: ArtifactRecord, thread: ThreadId)
    requires
        record.thread_id != thread,
    ensures
        after_changes(changes_of(records.push(record), thread)) == after_changes(changes_of(records, thread)),
{
    assert(records.push(record).drop_last() =~= records);
}

// ---------------------------------------------------------------------
// Errors
// ---------------------------------------------------------------------

/// The error for a path that could not be resolved: a request for a thread
/// that is not there is told as such.
pub fn writable_path_error(err: ThreadStoreError, thread_id: ThreadId) -> (r: ThreadStoreError)
    ensures
        r == (match err {
            ThreadStoreError::InvalidRequest { message } => ThreadStoreError::ThreadNotFound { thread_id },
            other => other,
        }),
{
    match err {
        ThreadStoreError::InvalidRequest { message: _ } => ThreadStoreError::ThreadNotFound { thread_id },
        other => other,
    }
}

/// Requires that a rollout file belongs to the thread.
pub fn check_rollout_owner(found: ThreadId, thread_id: ThreadId) -> (r: Result<(), ThreadStoreError>)
    ensures
        match r {
            Ok(_) => found == thread_id,
            Err(e) => found != thread_id && (e matches ThreadStoreError::Internal { message } && message@
                == "failed to set thread artifacts: rollout session metadata id mismatch: expected "@ + ids::uuid_text(
                thread_id.value,
            ) + ", found "@ + ids::uuid_text(found.value)),
        },
{
    if found == thread_id {
        return Ok(());
    }
    let mut message: String =
        "failed to set thread artifacts: rollout session metadata id mismatch: expected ".to_owned();
    message.push_str(thread_id.text().as_str());
    message.push_str(", found ");
    message.push_str(found.text().as_str());
    Err(ThreadStoreError::Internal { message })
}

/// Requires a creation time that the calendar holds.
pub fn check_artifact_time(artifact: &StoredThreadArtifact, thread_id: ThreadId) -> (r: Result<(), ThreadStoreError>)
    ensures
        match r {
            Ok(_) => schedule::in_calendar(artifact.created_at as int),
            Err(e) => !schedule::in_calendar(artifact.created_at as int) && (e matches ThreadStoreError::Internal {
                message,
            } && message@ == "failed to cache thread artifact "@ + artifact.id@ + " for "@ + ids::uuid_text(
                thread_id.value,
            ) + ": invalid timestamp "@ + text::signed_decimal(artifact.created_at as int)),
        },
{
    if schedule::is_datetime(artifact.created_at) {
        return Ok(());
    }
    let mut message: String = "failed to cache thread artifact ".to_owned();
    message.push_str(artifact.id.as_str());
    message.push_str(" for ");
    message.push_str(thread_id.text().as_str());
    message.push_str(": invalid timestamp ");
    text::push_signed_decimal(&mut message, artifact.created_at);
    Err(ThreadStoreError::Internal { message })
}

/// Whether the error is an internal one with the message.
pub open spec fn is_internal(e: ThreadStoreError, message: Seq<char>) -> bool {
    e matches ThreadStoreError::Internal { message: m } && m@ == message
}

/// An internal error that tells of a thread, and of what went wrong where more
/// is known.
fn internal_of(lead: &str, thread_id: ThreadId, cause: Option<&str>) -> (r: ThreadStoreError)
    ensures
        is_internal(
            r,
            lead@ + ids::uuid_text(thread_id.value) + (match cause {
                Some(c) => ": "@ + c@,
                None => Seq::empty(),
            }),
        ),
{
    let mut message: String = lead.to_owned();
    message.push_str(thread_id.text().as_str());
    match cause {
        Some(c) => {
            let ghost before = message@;
            message.push_str(": ");
            message.push_str(c);
            assert(message@ =~= before + (": "@ + c@));
        },
        None => {
            assert(message@ =~= message@ + Seq::<char>::empty());
        },
    }
    ThreadStoreError::Internal { message }
}

/// The error for a rollout file whose records cannot be read.
pub open spec fn read_failure(thread_id: ThreadId, path: Seq<char>, cause: Seq<char>) -> Seq<char> {
    "failed to read thread artifacts for "@ + ids::uuid_text(thread_id.value) + " from "@ + path + ": "@ + cause
}

/// The artifacts of a thread, from what came of reading the records of the
/// rollout file: those that the records add up to, or the error.
pub fn rollout_thread_artifacts(
    rollout_path: &str,
    thread_id: ThreadId,
    records: Result<Vec<ArtifactRecord>, String>,
) -> (r: Result<Vec<StoredThreadArtifact>, ThreadStoreError>)
    ensures
        match records {
            Ok(records) => r matches Ok(v) && v@ == after_changes(changes_of(records@, thread_id)) && ids_distinct(v@),
            Err(cause) => r matches Err(e) && is_internal(e, read_failure(thread_id, rollout_path@, cause@)),
        },
{
    match records {
        Ok(records) => Ok(recorded_artifacts(records, thread_id)),
        Err(cause) => {
            let mut message = "failed to read thread artifacts for ".to_string();
            message.push_str(thread_id.text().as_str());
            message.push_str(" from ");
            message.push_str(rollout_path);
            message.push_str(": ");
            message.push_str(cause.as_str());
            Err(ThreadStoreError::Internal { message })
        },
    }
}

/// The error for a thread whose database is not there.
pub fn state_db_unavailable(thread_id: ThreadId) -> (r: ThreadStoreError)
    ensures
        is_internal(r, "sqlite state db unavailable for thread "@ + ids::uuid_text(thread_id.value)),
{
    let r = internal_of("sqlite state db unavailable for thread ", thread_id, None);
    assert("sqlite state db unavailable for thread "@ + ids::uuid_text(thread_id.value) + Seq::<char>::empty()
        =~= "sqlite state db unavailable for thread "@ + ids::uuid_text(thread_id.value));
    r
}

/// The cached artifacts without their thread, in order.
pub open spec fn stored_all(s: Seq<ThreadArtifact>) -> Seq<StoredThreadArtifact> {
    s.map_values(
        |a: ThreadArtifact|
            StoredThreadArtifact {
                id: a.id,
                created_at: a.created_at,
                artifact_type: a.artifact_type,
                payload: a.payload,
            },
    )
}

/// The artifacts of a thread, from what the database said of it: the error it
/// gave, nothing of a thread it does not know, or the artifacts it caches.
pub fn list_thread_artifacts(thread_id: ThreadId, reply: Result<Option<Vec<ThreadArtifact>>, String>) -> (r: Result<
    Vec<StoredThreadArtifact>,
    ThreadStoreError,
>)
    ensures
        match reply {
            Ok(Some(cached)) => r matches Ok(v) && v@ == stored_all(cached@),
            Ok(None) => r matches Ok(v) && v@ == Seq::<StoredThreadArtifact>::empty(),
            Err(cause) => r matches Err(e) && is_internal(
                e,
                "failed to list thread artifacts for "@ + ids::uuid_text(thread_id.value) + (": "@ + cause@),
            ),
        },
{
    let cached = match reply {
        Ok(Some(cached)) => cached,
        Ok(None) => Vec::new(),
        Err(cause) => {
            return Err(internal_of("failed to list thread artifacts for ", thread_id, Some(cause.as_str())));
        },
    };
    let ghost all = cached@;
    let mut rest = cached;
    let mut out: Vec<StoredThreadArtifact> = Vec::new();
    let ghost mut n: int = 0;
    assert(rest@ =~= all.skip(0));
    while rest.len() > 0
        invariant
            0 <= n <= all.len(),
            rest@ == all.skip(n),
            out@ == stored_all(all.take(n)),
        decreases rest.len(),
    {
        let artifact = rest.remove(0);
        proof {
            assert(artifact == all[n]);
            assert(rest@ =~= all.skip(n + 1));
            assert(all.take(n + 1) =~= all.take(n).push(artifact));
        }
        out.push(stored_artifact_from_state(artifact));
        assert(out@ =~= stored_all(all.take(n + 1)));
        proof {
            n = n + 1;
        }
    }
    assert(all.take(n) =~= all);
    Ok(out)
}

/// The record that creates an artifact: the owner of the rollout file decides
/// whether it may be written.
pub fn created_record(
    thread_id: ThreadId,
    owner: Result<ThreadId, String>,
    id: String,
    artifact: RolloutThreadArtifact,
) -> (r: Result<ArtifactRecord, ThreadStoreError>)
    ensures
        match owner {
            Err(cause) => r matches Err(e) && is_internal(
                e,
                "failed to set thread artifacts for "@ + ids::uuid_text(thread_id.value) + (": "@ + cause@),
            ),
            Ok(found) => if found == thread_id {
                r matches Ok(record) && record.thread_id == thread_id && record.changes@ == seq![
                    ArtifactChange { id, artifact: Some(artifact) },
                ]
            } else {
                r matches Err(e) && is_internal(
                    e,
                    "failed to set thread artifacts: rollout session metadata id mismatch: expected "@
                        + ids::uuid_text(thread_id.value) + ", found "@ + ids::uuid_text(found.value),
                )
            },
        },
{
    let found = match owner {
        Ok(found) => found,
        Err(cause) => {
            return Err(internal_of("failed to set thread artifacts for ", thread_id, Some(cause.as_str())));
        },
    };
    match check_rollout_owner(found, thread_id) {
        Ok(_) => {
            let mut changes: Vec<ArtifactChange> = Vec::new();
            changes.push(ArtifactChange { id, artifact: Some(artifact) });
            Ok(ArtifactRecord { thread_id, changes })
        },
        Err(e) => Err(e),
    }
}

/// What the end of writing a record means.
pub fn after_record_written(thread_id: ThreadId, written: Result<(), String>) -> (r: Result<(), ThreadStoreError>)
    ensures
        match written {
            Ok(_) => r is Ok,
            Err(cause) => r matches Err(e) && is_internal(
                e,
                "failed to set thread artifacts for "@ + ids::uuid_text(thread_id.value) + (": "@ + cause@),
            ),
        },
{
    match written {
        Ok(_) => Ok(()),
        Err(cause) => Err(internal_of("failed to set thread artifacts for ", thread_id, Some(cause.as_str()))),
    }
}

/// The artifact as it is cached, where the calendar holds its creation time.
pub fn cached_artifact(artifact: &StoredThreadArtifact, thread_id: ThreadId) -> (r: Result<ThreadArtifact, ThreadStoreError>)
    ensures
        match r {
            Ok(a) => schedule::in_calendar(artifact.created_at as int) && a == (ThreadArtifact {
                thread_id,
                id: artifact.id,
                created_at: artifact.created_at,
                artifact_type: artifact.artifact_type,
                payload: artifact.payload,
            }),
            Err(e) => !schedule::in_calendar(artifact.created_at as int) && is_internal(
                e,
                "failed to cache thread artifact "@ + artifact.id@ + " for "@ + ids::uuid_text(thread_id.value)
                    + ": invalid timestamp "@ + text::signed_decimal(artifact.created_at as int),
            ),
        },
{
    match check_artifact_time(artifact, thread_id) {
        Ok(_) => Ok(
            ThreadArtifact {
                thread_id,
                id: artifact.id.clone(),
                created_at: artifact.created_at,
                artifact_type: artifact.artifact_type.clone(),
                payload: artifact.payload.clone(),
            },
        ),
        Err(e) => Err(e),
    }
}

/// What the end of caching an artifact means: a thread that the database does not
/// know is told as such.
pub fn after_cached(thread_id: ThreadId, updated: Result<bool, String>) -> (r: Result<(), ThreadStoreError>)
    ensures
        match updated {
            Ok(true) => r is Ok,
            Ok(false) => r == Err::<(), ThreadStoreError>(ThreadStoreError::ThreadNotFound { thread_id }),
            Err(cause) => r matches Err(e) && is_internal(
                e,
                "failed to cache thread artifact for "@ + ids::uuid_text(thread_id.value) + (": "@ + cause@),
            ),
        },
{
    match updated {
        Ok(true) => Ok(()),
        Ok(false) => Err(ThreadStoreError::ThreadNotFound { thread_id }),
        Err(cause) => Err(internal_of("failed to cache thread artifact for ", thread_id, Some(cause.as_str()))),
    }
}

/// A change of one artifact leaves every other where it stands: what is changed
/// keeps its place, what is new stands last, and what is deleted leaves no gap.
pub proof fn law_change_keeps_the_places(s: Seq<StoredThreadArtifact>, change: ArtifactChange, i: int)
    requires
        ids_distinct(s),
        0 <= i < s.len(),
    ensures
        change.artifact is Some && s[i].id@ == change.id@ ==> changed(s, change).len() == s.len() && changed(s, change)[i]
            == stored(change.id, change.artifact->0),
        change.artifact is Some && s[i].id@ != change.id@ ==> changed(s, change)[i] == s[i],
        change.artifact is Some && changed(s, change).len() > s.len() ==> changed(s, change).last() == stored(
            change.id,
            change.artifact->0,
        ),
        change.artifact is None && s[i].id@ == change.id@ ==> changed(s, change) == s.remove(i),
        (forall|j: int| 0 <= j < s.len() ==> (#[trigger] s[j]).id@ != change.id@) ==> changed(s, change) == (
        match change.artifact {
            Some(artifact) => s.push(stored(change.id, artifact)),
            None => s,
        }),
{
    lemma_first_place(s, change.id@);
    let at = position(s, change.id@);
    if at < s.len() && s[i].id@ == change.id@ {
        if at < i {
            assert(s[at].id@ != s[i].id@);
        } else if i < at {
            assert(s[i].id@ != s[at].id@);
        }
    }
}

proof fn lemma_first_place(s: Seq<StoredThreadArtifact>, id: Seq<char>)
    ensures
        0 <= position(s, id) <= s.len(),
        position(s, id) < s.len() ==> s[position(s, id)].id@ == id,
        forall|j: int| 0 <= j < position(s, id) ==> (#[trigger] s[j]).id@ != id,
    decreases s.len(),
{
    if s.len() > 0 && s[0].id@ != id {
        lemma_first_place(s.skip(1), id);
        assert forall|j: int| 0 <= j < position(s, id) implies (#[trigger] s[j]).id@ != id by {
            if j > 0 {
                assert(s.skip(1)[j - 1] == s[j]);
            }
        }
    }
}

/// The changes of a thread are those of its records, one record behind the
/// other.
pub proof fn law_changes_follow_the_records(a: Seq<ArtifactRecord>, b: Seq<ArtifactRecord>, r: ArtifactRecord, thread: ThreadId)
    ensures
        changes_of(a + b, thread) == changes_of(a, thread) + changes_of(b, thread),
        changes_of(seq![r], thread) == (if r.thread_id == thread {
            r.changes@
        } else {
            Seq::empty()
        }),
    decreases b.len(),
{
    reveal_with_fuel(changes_of, 2);
    assert(seq![r].drop_last() =~= Seq::<ArtifactRecord>::empty());
    assert(changes_of(seq![r], thread) =~= (if r.thread_id == thread {
        r.changes@
    } else {
        Seq::empty()
    }));
    if b.len() == 0 {
        assert(a + b =~= a);
        assert(changes_of(a + b, thread) =~= changes_of(a, thread) + changes_of(b, thread));
    } else {
        law_changes_follow_the_records(a, b.drop_last(), r, thread);
        assert((a + b).drop_last() =~= a + b.drop_last());
        assert(changes_of(a + b, thread) =~= changes_of(a, thread) + changes_of(b, thread));
    }
}

/// The last change of an artifact is what counts, and a deletion is one.
pub proof fn law_last_change_is_the_latest(changes: Seq<ArtifactChange>, change: ArtifactChange, id: Seq<char>)
    ensures
        last_change(Seq::<ArtifactChange>::empty(), id) is None,
        last_change(changes.push(change), id) == (if change.id@ == id {
            change.artifact
        } else {
            last_change(changes, id)
        }),
{
    assert(changes.push(change).drop_last() =~= changes);
}

} // verus!
