//! Finding the rollout file of a thread: the database first, then the files.
//!
//! A lookup alternates between questions and decisions. Each decision is a
//! function here, from what is known and the answer to the next question.

use vstd::prelude::*;

use crate::ids;
use crate::ids::ThreadId;
use crate::rollout::filename;
use crate::rollout::filename::SessionDir;

verus! {

/// Why a lookup did not take the path from the database.
#[derive(Clone, Copy, Debug, PartialEq, Eq, Structural)]
pub enum FallbackReason {
    DbUnavailable,
    DbError,
    MissingRow,
    StalePath,
    Mismatch,
    UnverifiedPath,
}

impl FallbackReason {
    /// The label under which the fallback is recorded.
    pub open spec fn label(self) -> Seq<char> {
        match self {
            FallbackReason::DbUnavailable => "db_unavailable"@,
            FallbackReason::DbError => "db_error"@,
            FallbackReason::MissingRow => "missing_row"@,
            FallbackReason::StalePath => "stale_path"@,
            FallbackReason::Mismatch => "mismatch"@,
            FallbackReason::UnverifiedPath => "unverified_path"@,
        }
    }

    /// The label under which the fallback is recorded.
    pub fn as_str(self) -> (r: &'static str)
        ensures
            r@ == self.label(),
    {
        match self {
            FallbackReason::DbUnavailable => "db_unavailable",
            FallbackReason::DbError => "db_error",
            FallbackReason::MissingRow => "missing_row",
            FallbackReason::StalePath => "stale_path",
            FallbackReason::Mismatch => "mismatch",
            FallbackReason::UnverifiedPath => "unverified_path",
        }
    }
}

/// What the database says of a thread's rollout file.
#[derive(Debug, PartialEq)]
pub enum DbAnswer {
    /// The path on record, and the creation time in seconds.
    Row { path: String, created_at: i64 },
    Missing,
    Failed,
}

/// Whose session metadata a file holds.
#[derive(Clone, Copy, Debug, PartialEq, Eq, Structural)]
pub enum MetaAnswer {
    Owner(ThreadId),
    Unreadable,
}

/// What a search of the files begins with: the path to fall back on, and the
/// reason to record where a file is found.
#[derive(Debug, PartialEq)]
pub struct PendingSearch {
    pub unverified: Option<String>,
    pub reason: Option<FallbackReason>,
}

/// How a lookup ends: the path, the fallback to record, and the path that the
/// database is to be repaired with.
#[derive(Debug, PartialEq)]
pub struct LookupEnd {
    pub path: Option<String>,
    pub record: Option<FallbackReason>,
    pub repair: Option<String>,
}

/// The first question of a lookup.
#[derive(Debug, PartialEq)]
pub enum Begin {
    /// The text is no identifier: there is no such thread.
    Invalid,
    QueryDb { thread_id: ThreadId, archived_only: Option<bool> },
    Search { thread_id: ThreadId, archived_only: Option<bool>, pending: PendingSearch },
}

/// Begins a lookup among the active or the archived sessions.
pub fn begin_in_subdir(id_str: &str, subdir: &str, db_available: bool) -> (r: Begin)
    ensures
        match ids::uuid_value(id_str@) {
            None => r is Invalid,
            Some(v) => if db_available {
                r == (Begin::QueryDb { thread_id: ThreadId { value: v }, archived_only: filename::archived_only(subdir@) })
            } else {
                r == (Begin::Search {
                    thread_id: ThreadId { value: v },
                    archived_only: filename::archived_only(subdir@),
                    pending: PendingSearch { unverified: None, reason: Some(FallbackReason::DbUnavailable) },
                })
            },
        },
{
    let archived_only = filename::archived_only_for_subdir(subdir);
    begin(id_str, archived_only, db_available)
}

/// Begins a lookup among all sessions.
pub fn begin_in_any_subdir(id_str: &str, db_available: bool) -> (r: Begin)
    ensures
        match ids::uuid_value(id_str@) {
            None => r is Invalid,
            Some(v) => if db_available {
                r == (Begin::QueryDb { thread_id: ThreadId { value: v }, archived_only: None })
            } else {
                r == (Begin::Search {
                    thread_id: ThreadId { value: v },
                    archived_only: None,
                    pending: PendingSearch { unverified: None, reason: Some(FallbackReason::DbUnavailable) },
                })
            },
        },
{
    begin(id_str, None, db_available)
}

fn begin(id_str: &str, archived_only: Option<bool>, db_available: bool) -> (r: Begin)
    ensures
        match ids::uuid_value(id_str@) {
            None => r is Invalid,
            Some(v) => if db_available {
                r == (Begin::QueryDb { thread_id: ThreadId { value: v }, archived_only })
            } else {
                r == (Begin::Search {
                    thread_id: ThreadId { value: v },
                    archived_only,
                    pending: PendingSearch { unverified: None, reason: Some(FallbackReason::DbUnavailable) },
                })
            },
        },
{
    let thread_id = match ThreadId::from_string(id_str) {
        Ok(id) => id,
        Err(_) => return Begin::Invalid,
    };
    if db_available {
        Begin::QueryDb { thread_id, archived_only }
    } else {
        Begin::Search {
            thread_id,
            archived_only,
            pending: PendingSearch { unverified: None, reason: Some(FallbackReason::DbUnavailable) },
        }
    }
}

/// What follows the database's answer.
#[derive(Debug, PartialEq)]
pub enum AfterDb {
    /// Is there a file at the path on record?
    CheckExisting { db_path: String, created_at: i64 },
    Search(PendingSearch),
}

/// What follows the database's answer: the file is checked where a row is on
/// record, and otherwise the files are searched.
pub fn after_db(answer: DbAnswer) -> (r: AfterDb)
    ensures
        r == db_step(answer),
{
    match answer {
        DbAnswer::Row { path, created_at } => AfterDb::CheckExisting { db_path: path, created_at },
        DbAnswer::Missing => AfterDb::Search(
            PendingSearch { unverified: None, reason: Some(FallbackReason::MissingRow) },
        ),
        DbAnswer::Failed => AfterDb::Search(
            PendingSearch { unverified: None, reason: Some(FallbackReason::DbError) },
        ),
    }
}

/// What follows the database's answer.
pub open spec fn db_step(answer: DbAnswer) -> AfterDb {
    match answer {
        DbAnswer::Row { path, created_at } => AfterDb::CheckExisting { db_path: path, created_at },
        DbAnswer::Missing => AfterDb::Search(
            PendingSearch { unverified: None, reason: Some(FallbackReason::MissingRow) },
        ),
        DbAnswer::Failed => AfterDb::Search(PendingSearch { unverified: None, reason: Some(FallbackReason::DbError) }),
    }
}

/// What follows the check of the file on record.
#[derive(Debug, PartialEq)]
pub enum AfterCheck {
    /// Whose session does the file hold?
    ReadMeta { existing: String },
    /// Record the fallback now, then look where the creation time points.
    Distrust { record: FallbackReason },
    /// The file is the thread's own.
    Found { path: String },
    /// The file could not be read: keep it as a last resort.
    Unverified { existing: String },
}

/// What follows the check of the file on record.
pub fn after_existing(existing: Option<String>) -> (r: AfterCheck)
    ensures
        r == existing_step(existing),
{
    match existing {
        Some(existing) => AfterCheck::ReadMeta { existing },
        None => AfterCheck::Distrust { record: FallbackReason::StalePath },
    }
}

/// What follows the check of the file on record.
pub open spec fn existing_step(existing: Option<String>) -> AfterCheck {
    match existing {
        Some(existing) => AfterCheck::ReadMeta { existing },
        None => AfterCheck::Distrust { record: FallbackReason::StalePath },
    }
}

/// What follows the reading of the file's metadata.
pub fn after_meta(thread_id: ThreadId, existing: String, meta: MetaAnswer) -> (r: AfterCheck)
    ensures
        r == meta_step(thread_id, existing, meta),
{
    match meta {
        MetaAnswer::Owner(owner) => if owner == thread_id {
            AfterCheck::Found { path: existing }
        } else {
            AfterCheck::Distrust { record: FallbackReason::Mismatch }
        },
        MetaAnswer::Unreadable => AfterCheck::Unverified { existing },
    }
}

/// What follows the reading of the file's metadata.
pub open spec fn meta_step(thread_id: ThreadId, existing: String, meta: MetaAnswer) -> AfterCheck {
    match meta {
        MetaAnswer::Owner(owner) => if owner == thread_id {
            AfterCheck::Found { path: existing }
        } else {
            AfterCheck::Distrust { record: FallbackReason::Mismatch }
        },
        MetaAnswer::Unreadable => AfterCheck::Unverified { existing },
    }
}

// ---------------------------------------------------------------------
// In one directory
// ---------------------------------------------------------------------

/// What follows a check that did not settle the lookup.
#[derive(Debug, PartialEq)]
pub enum Next {
    Done(LookupEnd),
    /// Look where the creation time points.
    TryCreatedAt(PendingSearch),
    Search(PendingSearch),
}

/// How a lookup in one directory goes on from a checked path: a path that is
/// wrong sends it to the creation time, an unreadable one to the files.
pub open spec fn subdir_next(check: AfterCheck) -> Option<Next> {
    match check {
        AfterCheck::ReadMeta { existing } => None,
        AfterCheck::Found { path } => Some(Next::Done(LookupEnd { path: Some(path), record: None, repair: None })),
        AfterCheck::Distrust { record } => Some(Next::TryCreatedAt(PendingSearch { unverified: None, reason: None })),
        AfterCheck::Unverified { existing } => Some(
            Next::Search(PendingSearch { unverified: Some(existing), reason: Some(FallbackReason::UnverifiedPath) }),
        ),
    }
}

/// How a lookup in one directory goes on from a checked path; `None` where the
/// metadata is still to be read.
pub fn next_in_subdir(check: AfterCheck) -> (r: Option<Next>)
    ensures
        r == subdir_next(check),
{
    match check {
        AfterCheck::ReadMeta { existing: _ } => None,
        AfterCheck::Found { path } => Some(Next::Done(LookupEnd { path: Some(path), record: None, repair: None })),
        AfterCheck::Distrust { record: _ } => Some(
            Next::TryCreatedAt(PendingSearch { unverified: None, reason: None }),
        ),
        AfterCheck::Unverified { existing } => Some(
            Next::Search(PendingSearch { unverified: Some(existing), reason: Some(FallbackReason::UnverifiedPath) }),
        ),
    }
}

/// What follows the look where the creation time points.
pub open spec fn created_step(found: Option<(String, bool)>, pending: PendingSearch) -> Next {
    match found {
        Some((path, repaired)) => Next::Done(
            LookupEnd {
                path: Some(path),
                record: pending.reason,
                repair: if repaired {
                    None
                } else {
                    Some(path)
                },
            },
        ),
        None => Next::Search(pending),
    }
}

/// What follows the look where the creation time points: a file found there is
/// the answer, and the database is repaired unless that was done already.
pub fn after_created_at(found: Option<(String, bool)>, pending: PendingSearch) -> (r: Next)
    ensures
        r == created_step(found, pending),
{
    match found {
        Some((path, repaired)) => {
            let repair = if repaired {
                None
            } else {
                Some(path.clone())
            };
            Next::Done(LookupEnd { path: Some(path), record: pending.reason, repair })
        },
        None => Next::Search(pending),
    }
}

/// How a search of the files ends.
pub open spec fn search_end(found: Option<String>, pending: PendingSearch) -> LookupEnd {
    match found {
        Some(path) => LookupEnd { path: Some(path), record: pending.reason, repair: Some(path) },
        None => LookupEnd { path: pending.unverified, record: None, repair: None },
    }
}

/// How a search of the files ends: with the file found, which the database is
/// repaired with, or else with the path that could not be verified.
pub fn after_search(found: Option<String>, pending: PendingSearch) -> (r: LookupEnd)
    ensures
        r == search_end(found, pending),
{
    match found {
        Some(path) => LookupEnd { path: Some(path.clone()), record: pending.reason, repair: Some(path) },
        None => LookupEnd { path: pending.unverified, record: None, repair: None },
    }
}

/// All the answers that a lookup can get.
pub struct Answers {
    pub db: DbAnswer,
    pub existing: Option<String>,
    pub meta: MetaAnswer,
    pub created_at: Option<(String, bool)>,
    pub search: Option<String>,
}

/// The end of a lookup in one directory of a thread, given all the answers.
pub open spec fn subdir_outcome(thread_id: ThreadId, db_available: bool, a: Answers) -> LookupEnd {
    if !db_available {
        search_end(a.search, PendingSearch { unverified: None, reason: Some(FallbackReason::DbUnavailable) })
    } else {
        match db_step(a.db) {
            AfterDb::Search(pending) => search_end(a.search, pending),
            AfterDb::CheckExisting { db_path, created_at } => next_end(checked(thread_id, a), a),
        }
    }
}

/// What the checks of the path on record come to.
pub open spec fn checked(thread_id: ThreadId, a: Answers) -> AfterCheck {
    match existing_step(a.existing) {
        AfterCheck::ReadMeta { existing } => meta_step(thread_id, existing, a.meta),
        other => other,
    }
}

/// The end of a lookup in one directory that goes on from the given check.
pub open spec fn next_end(check: AfterCheck, a: Answers) -> LookupEnd {
    match subdir_next(check) {
        Some(Next::Done(end)) => end,
        Some(Next::TryCreatedAt(pending)) => match created_step(a.created_at, pending) {
            Next::Done(end) => end,
            Next::Search(pending) => search_end(a.search, pending),
            Next::TryCreatedAt(pending) => search_end(a.search, pending),
        },
        Some(Next::Search(pending)) => search_end(a.search, pending),
        None => search_end(a.search, PendingSearch { unverified: None, reason: None }),
    }
}

/// A lookup in one directory answers with the path on record only where its
/// file is the thread's own, or could not be read and no other file was found;
/// it answers with nothing only where the search found nothing.
pub proof fn law_subdir_lookup(thread_id: ThreadId, db_available: bool, a: Answers)
    ensures
        ({
            let end = subdir_outcome(thread_id, db_available, a);
            let on_record = db_available && a.db is Row;
            &&& on_record && a.existing is Some && a.meta == MetaAnswer::Owner(thread_id) ==> end == (LookupEnd {
                path: a.existing,
                record: None,
                repair: None,
            })
            &&& on_record && a.existing is Some && a.meta is Unreadable && a.search is None ==> end.path == a.existing
                && end.repair is None
            &&& on_record && (a.existing is None || (a.meta is Owner && a.meta != MetaAnswer::Owner(thread_id)))
                ==> end.path == (match a.created_at {
                Some((path, repaired)) => Some(path),
                None => a.search,
            })
            &&& !on_record ==> end.path == a.search
            &&& end.path is None ==> a.search is None
            &&& end.repair is Some ==> end.repair == end.path
        }),
{
}

// ---------------------------------------------------------------------
// In both directories
// ---------------------------------------------------------------------

/// How a lookup in both directories goes on from a checked path. Whatever was
/// wrong with it, the creation time is tried where the path on record lies in
/// one of the two.
pub open spec fn any_next(check: AfterCheck, hint: Option<SessionDir>) -> Option<Next> {
    let pending = match check {
        AfterCheck::Unverified { existing } => PendingSearch {
            unverified: Some(existing),
            reason: Some(FallbackReason::UnverifiedPath),
        },
        AfterCheck::Distrust { record } => PendingSearch { unverified: None, reason: Some(record) },
        _ => PendingSearch { unverified: None, reason: None },
    };
    match check {
        AfterCheck::ReadMeta { existing } => None,
        AfterCheck::Found { path } => Some(Next::Done(LookupEnd { path: Some(path), record: None, repair: None })),
        _ => if hint is Some {
            Some(Next::TryCreatedAt(pending))
        } else {
            Some(Next::Search(pending))
        },
    }
}

/// How a lookup in both directories goes on from a checked path; `None` where
/// the metadata is still to be read.
pub fn next_in_any_subdir(check: AfterCheck, hint: Option<SessionDir>) -> (r: Option<Next>)
    ensures
        r == any_next(check, hint),
{
    let pending = match check {
        AfterCheck::ReadMeta { existing: _ } => return None,
        AfterCheck::Found { path } => return Some(
            Next::Done(LookupEnd { path: Some(path), record: None, repair: None }),
        ),
        AfterCheck::Unverified { existing } => PendingSearch {
            unverified: Some(existing),
            reason: Some(FallbackReason::UnverifiedPath),
        },
        AfterCheck::Distrust { record } => PendingSearch { unverified: None, reason: Some(record) },
    };
    match hint {
        Some(_) => Some(Next::TryCreatedAt(pending)),
        None => Some(Next::Search(pending)),
    }
}

/// What follows the look where the creation time points, in a lookup in both
/// directories.
pub open spec fn any_created_step(found: Option<(String, bool)>, pending: PendingSearch) -> Next {
    match found {
        Some((path, repaired)) => Next::Done(LookupEnd { path: Some(path), record: None, repair: None }),
        None => Next::Search(pending),
    }
}

/// What follows the look where the creation time points, in a lookup in both
/// directories: a file found there ends it.
pub fn after_created_at_in_any_subdir(found: Option<(String, bool)>, pending: PendingSearch) -> (r: Next)
    ensures
        r == any_created_step(found, pending),
{
    match found {
        Some((path, _)) => Next::Done(LookupEnd { path: Some(path), record: None, repair: None }),
        None => Next::Search(pending),
    }
}

/// How the search of both directories ends; `first` and `second` are what each
/// holds, in the order of the search. The second part of the result is whether
/// the file was found in an archive, where one was.
pub open spec fn any_search_end(
    preferred: Option<SessionDir>,
    first: Option<String>,
    second: Option<String>,
    pending: PendingSearch,
) -> (LookupEnd, Option<bool>) {
    let order = filename::search_order(preferred);
    match first {
        Some(path) => (search_end(first, pending), Some(order[0] is Archived)),
        None => match second {
            Some(path) => (search_end(second, pending), Some(order[1] is Archived)),
            None => (search_end(None, pending), None),
        },
    }
}

/// How the search of both directories ends.
pub fn after_search_in_any_subdir(
    preferred: Option<SessionDir>,
    first: Option<String>,
    second: Option<String>,
    pending: PendingSearch,
) -> (r: (LookupEnd, Option<bool>))
    ensures
        r == any_search_end(preferred, first, second, pending),
{
    let order = filename::ordered_session_subdirs(preferred);
    match first {
        Some(path) => (after_search(Some(path), pending), Some(order[0].archived())),
        None => match second {
            Some(path) => (after_search(Some(path), pending), Some(order[1].archived())),
            None => (after_search(None, pending), None),
        },
    }
}

/// The end of a lookup in both directories, given all the answers; `second` is
/// what the second directory holds.
pub open spec fn any_outcome(
    home: Seq<char>,
    thread_id: ThreadId,
    db_available: bool,
    a: Answers,
    second: Option<String>,
) -> LookupEnd {
    if !db_available {
        any_search_end(
            None,
            a.search,
            second,
            PendingSearch { unverified: None, reason: Some(FallbackReason::DbUnavailable) },
        ).0
    } else {
        match db_step(a.db) {
            AfterDb::Search(pending) => any_search_end(None, a.search, second, pending).0,
            AfterDb::CheckExisting { db_path, created_at } => {
                let hint = filename::subdir_hint(home, db_path@);
                match any_next(checked(thread_id, a), hint) {
                    Some(Next::Done(end)) => end,
                    Some(Next::TryCreatedAt(pending)) => match any_created_step(a.created_at, pending) {
                        Next::Done(end) => end,
                        _ => any_search_end(hint, a.search, second, pending).0,
                    },
                    Some(Next::Search(pending)) => any_search_end(hint, a.search, second, pending).0,
                    None => any_search_end(
                        hint,
                        a.search,
                        second,
                        PendingSearch { unverified: None, reason: None },
                    ).0,
                }
            },
        }
    }
}

/// A lookup in both directories answers with the path on record only where its
/// file is the thread's own, or could not be read and nothing else was found;
/// it finds whatever either directory holds, and repairs the database only
/// with the path that it answers with.
pub proof fn law_any_lookup(
    home: Seq<char>,
    thread_id: ThreadId,
    db_available: bool,
    a: Answers,
    second: Option<String>,
)
    ensures
        ({
            let end = any_outcome(home, thread_id, db_available, a, second);
            let on_record = db_available && a.db is Row;
            &&& on_record && a.existing is Some && a.meta == MetaAnswer::Owner(thread_id) ==> end == (LookupEnd {
                path: a.existing,
                record: None,
                repair: None,
            })
            &&& on_record && a.existing is Some && a.meta is Owner && a.meta != MetaAnswer::Owner(thread_id)
                && a.created_at is None && a.search is None && second is None ==> end.path is None
            &&& !on_record ==> end.path == (if a.search is Some {
                a.search
            } else {
                second
            })
            &&& end.path is None ==> a.search is None && second is None
            &&& end.repair is Some ==> end.repair == end.path
        }),
{
}

// ---------------------------------------------------------------------
// The search of one directory
// ---------------------------------------------------------------------

/// How the search of one directory goes on from the scan of its file names.
#[derive(Debug, PartialEq)]
pub enum AfterScan {
    Found(String),
    /// Ask the file search.
    FuzzySearch,
}

/// How the search of one directory goes on from the scan of its file names; a
/// scan that failed finds nothing.
pub fn after_filename_scan(found: Option<String>) -> (r: AfterScan)
    ensures
        r == (match found {
            Some(path) => AfterScan::Found(path),
            None => AfterScan::FuzzySearch,
        }),
{
    match found {
        Some(path) => AfterScan::Found(path),
        None => AfterScan::FuzzySearch,
    }
}

/// Whether the error of the scan is reported: only where the file search found
/// nothing either.
pub fn scan_error_is_reported(scan_failed: bool, found: &Option<String>) -> (r: bool)
    ensures
        r == (scan_failed && *found is None),
{
    scan_failed && found.is_none()
}

/// What is told of a lookup that had to fall back.
pub proof fn law_fallback_labels(reason: FallbackReason)
    ensures
        reason is DbUnavailable ==> reason.label() == "db_unavailable"@,
        reason is DbError ==> reason.label() == "db_error"@,
        reason is MissingRow ==> reason.label() == "missing_row"@,
        reason is StalePath ==> reason.label() == "stale_path"@,
        reason is Mismatch ==> reason.label() == "mismatch"@,
        reason is UnverifiedPath ==> reason.label() == "unverified_path"@,
{
}

/// A file on record is distrusted where there is none, or where it belongs to
/// another thread, and the two are told apart.
pub proof fn law_file_on_record_is_checked(thread_id: ThreadId, a: Answers)
    ensures
        a.existing is None ==> checked(thread_id, a) == (AfterCheck::Distrust { record: FallbackReason::StalePath }),
        a.existing matches Some(existing) ==> match a.meta {
            MetaAnswer::Owner(owner) => checked(thread_id, a) == (if owner == thread_id {
                AfterCheck::Found { path: existing }
            } else {
                AfterCheck::Distrust { record: FallbackReason::Mismatch }
            }),
            MetaAnswer::Unreadable => checked(thread_id, a) == (AfterCheck::Unverified { existing }),
        },
{
}

/// A lookup that ends by searching tells why it had to, and what it found is put
/// on record; one that finds nothing tells nothing and repairs nothing. Where the
/// time of creation led to the file, it is put on record unless it was already.
pub proof fn law_subdir_lookup_tells_why(thread_id: ThreadId, db_available: bool, a: Answers)
    ensures
        ({
            let end = subdir_outcome(thread_id, db_available, a);
            let on_record = db_available && a.db is Row;
            let distrusted = on_record && (a.existing is None || (a.meta is Owner && a.meta != MetaAnswer::Owner(
                thread_id,
            )));
            &&& a.search is Some && !db_available ==> end.record == Some(FallbackReason::DbUnavailable)
            &&& a.search is Some && db_available && a.db is Missing ==> end.record == Some(FallbackReason::MissingRow)
            &&& a.search is Some && db_available && a.db is Failed ==> end.record == Some(FallbackReason::DbError)
            &&& a.search is Some && on_record && a.existing is Some && a.meta is Unreadable ==> end.path == a.search
                && end.record == Some(FallbackReason::UnverifiedPath)
            &&& distrusted ==> end.record is None
            &&& distrusted && a.created_at is Some ==> end.path == Some(a.created_at->Some_0.0) && end.repair == (
            if a.created_at->Some_0.1 {
                None
            } else {
                Some(a.created_at->Some_0.0)
            })
            &&& a.search is Some && (!on_record || (distrusted && a.created_at is None) || (on_record && a.existing
                is Some && a.meta is Unreadable)) ==> end.repair == a.search
            &&& a.search is None && (!on_record || a.existing is Some && a.meta is Unreadable) ==> end.record is None
                && end.repair is None
        }),
{
}

/// A lookup in both directories looks where the time of creation points only
/// where the path on record lies in one of them; what it finds there is not put
/// on record again. What the search finds is, with why it was needed, and the
/// first of the two directories goes before the other.
pub proof fn law_any_lookup_tells_why(
    home: Seq<char>,
    thread_id: ThreadId,
    db_available: bool,
    a: Answers,
    second: Option<String>,
)
    ensures
        ({
            let end = any_outcome(home, thread_id, db_available, a, second);
            let on_record = db_available && a.db is Row;
            let searched = if a.search is Some {
                a.search
            } else {
                second
            };
            let own = on_record && a.existing is Some && a.meta == MetaAnswer::Owner(thread_id);
            let hinted = on_record && filename::subdir_hint(home, a.db->path@) is Some;
            &&& !db_available && searched is Some ==> end.path == searched && end.repair == searched && end.record == Some(
                FallbackReason::DbUnavailable,
            )
            &&& db_available && a.db is Missing && searched is Some ==> end.path == searched && end.repair == searched
                && end.record == Some(FallbackReason::MissingRow)
            &&& db_available && a.db is Failed && searched is Some ==> end.path == searched && end.repair == searched
                && end.record == Some(FallbackReason::DbError)
            &&& on_record && !own && hinted && a.created_at is Some ==> end == (LookupEnd {
                path: Some(a.created_at->Some_0.0),
                record: None,
                repair: None,
            })
            &&& on_record && !own && (!hinted || a.created_at is None) && searched is Some ==> end.path == searched
                && end.repair == searched && end.record == Some(
                if a.existing is None {
                    FallbackReason::StalePath
                } else if a.meta is Owner {
                    FallbackReason::Mismatch
                } else {
                    FallbackReason::UnverifiedPath
                },
            )
            &&& on_record && !own && (!hinted || a.created_at is None) && searched is None ==> end.record is None
                && end.repair is None && end.path == (if a.existing is Some && a.meta is Unreadable {
                a.existing
            } else {
                None
            })
        }),
{
}

/// A file that the search finds is told as archived exactly where it was found
/// in the directory of the archived ones.
pub proof fn law_found_file_is_told_as_archived(
    preferred: Option<SessionDir>,
    first: Option<String>,
    second: Option<String>,
    pending: PendingSearch,
)
    ensures
        first is None && second is None ==> any_search_end(preferred, first, second, pending).1 is None,
        first is Some ==> any_search_end(preferred, first, second, pending).1 == Some(
            preferred == Some(SessionDir::Archived),
        ),
        first is None && second is Some ==> any_search_end(preferred, first, second, pending).1 == Some(
            preferred != Some(SessionDir::Archived),
        ),
        first is Some ==> any_search_end(preferred, first, second, pending).0.path == first,
        first is None && second is Some ==> any_search_end(preferred, first, second, pending).0.path == second,
{
}

} // verus!
