//! The order of an installation: the archive is verified and extracted beside
//! the installed runtime, checked there, and only then put in its place; what
//! was there before comes back where that fails.

use vstd::prelude::*;

use crate::paths;
use crate::runtime_install::executor;
use crate::runtime_install::executor::RuntimeArchiveFormat;
use crate::runtime_install::validation;
use crate::runtime_install::validation::ErrorKind;
use crate::runtime_install::validation::InstalledRuntimeMetadata;
use crate::runtime_install::validation::RuntimeError;
use crate::runtime_install::validation::RuntimeInstallManifest;
use crate::runtime_install::validation::RuntimeInstallPaths;
use crate::text;

verus! {

/// What a client is told of a running installation.
#[derive(Clone, Copy, Debug, PartialEq, Eq, Structural)]
pub enum ProgressPhase {
    Checking,
    Downloading,
    Verifying,
    Extracting,
    Validating,
    Installed,
}

/// One message about a running installation.
#[derive(Debug, PartialEq)]
pub struct ProgressNotification {
    pub bundle_version: Option<String>,
    pub downloaded_bytes: Option<u64>,
    pub phase: ProgressPhase,
    pub total_bytes: Option<u64>,
}

/// The message that a phase has begun.
pub fn phase_notification(bundle_version: &Option<String>, phase: ProgressPhase) -> (r: ProgressNotification)
    ensures
        r.bundle_version == *bundle_version,
        r.phase == phase,
        r.downloaded_bytes is None,
        r.total_bytes is None,
{
    ProgressNotification {
        bundle_version: text::clone_opt(bundle_version),
        downloaded_bytes: None,
        phase,
        total_bytes: None,
    }
}

/// The message about a download.
pub fn download_notification(
    bundle_version: &Option<String>,
    downloaded_bytes: u64,
    total_bytes: Option<u64>,
) -> (r: ProgressNotification)
    ensures
        r.bundle_version == *bundle_version,
        r.phase is Downloading,
        r.downloaded_bytes == Some(downloaded_bytes),
        r.total_bytes == total_bytes,
{
    ProgressNotification {
        bundle_version: text::clone_opt(bundle_version),
        downloaded_bytes: Some(downloaded_bytes),
        phase: ProgressPhase::Downloading,
        total_bytes,
    }
}

/// Whether a runtime was installed or was there already.
#[derive(Clone, Copy, Debug, PartialEq, Eq, Structural)]
pub enum RuntimeInstallStatus {
    AlreadyCurrent,
    Installed,
}

/// The answer to a request for an installation.
#[derive(Debug, PartialEq)]
pub struct RuntimeInstallResponse {
    pub bundle_version: Option<String>,
    pub paths: RuntimeInstallPaths,
    pub status: RuntimeInstallStatus,
}

// ---------------------------------------------------------------------
// Reuse
// ---------------------------------------------------------------------

/// Whether the installed runtime is of the version that the manifest asks for.
pub open spec fn is_current(m: RuntimeInstallManifest, installed: Option<InstalledRuntimeMetadata>) -> bool {
    m.bundle_version is Some && installed is Some && text::opt_view(installed->0.bundle_version) == Some(
        m.bundle_version->0@,
    )
}

/// Whether the installed runtime is of the version that the manifest asks for;
/// one whose metadata cannot be read is not.
pub fn is_reuse_candidate(manifest: &RuntimeInstallManifest, installed: &Option<InstalledRuntimeMetadata>) -> (r: bool)
    ensures
        r == is_current(*manifest, *installed),
{
    match (&manifest.bundle_version, installed) {
        (Some(wanted), Some(metadata)) => match &metadata.bundle_version {
            Some(have) => text::str_eq(have.as_str(), wanted.as_str()),
            None => false,
        },
        _ => false,
    }
}

/// The answer where the installed runtime is current and complete.
pub fn reuse_response(manifest: &RuntimeInstallManifest, paths: RuntimeInstallPaths) -> (r: RuntimeInstallResponse)
    ensures
        r.bundle_version == manifest.bundle_version,
        r.paths == paths,
        r.status is AlreadyCurrent,
{
    RuntimeInstallResponse {
        bundle_version: text::clone_opt(&manifest.bundle_version),
        paths,
        status: RuntimeInstallStatus::AlreadyCurrent,
    }
}

// ---------------------------------------------------------------------
// Checksums
// ---------------------------------------------------------------------

/// Whether the digests are the same but for case.
pub open spec fn digests_agree(actual: Seq<char>, expected: Seq<char>) -> bool {
    text::ascii_lower(actual) == text::ascii_lower(expected)
}

/// The message for an archive with another digest.
pub open spec fn mismatch_message(m: RuntimeInstallManifest, actual: Seq<char>) -> Seq<char> {
    "checksum mismatch for '"@ + m.archive_url@ + "': expected "@ + m.archive_sha256@ + ", got "@ + actual
}

/// Requires that the archive has the digest that the manifest gives.
pub fn verify_archive_checksum(manifest: &RuntimeInstallManifest, actual: &str) -> (r: Result<(), RuntimeError>)
    ensures
        match r {
            Ok(_) => digests_agree(actual@, manifest.archive_sha256@),
            Err(e) => !digests_agree(actual@, manifest.archive_sha256@) && e@ == validation::bad_request(
                mismatch_message(*manifest, actual@),
            ),
        },
{
    if text::eq_ignore_ascii_case(actual, manifest.archive_sha256.as_str()) {
        return Ok(());
    }
    let mut message: String = "checksum mismatch for '".to_owned();
    message.push_str(manifest.archive_url.as_str());
    message.push_str("': expected ");
    message.push_str(manifest.archive_sha256.as_str());
    message.push_str(", got ");
    message.push_str(actual);
    Err(RuntimeError { kind: ErrorKind::InvalidParams, message })
}

// ---------------------------------------------------------------------
// Installing from an archive
// ---------------------------------------------------------------------

/// The directories of an installation.
#[derive(Clone, Copy, Debug, PartialEq, Eq, Structural)]
pub enum Dir {
    /// Where all runtimes are installed.
    InstallRoot,
    /// Where the archive is extracted, inside the staging directory.
    Extract,
    /// The runtime inside the extracted archive.
    Extracted,
    /// Where the runtime is installed.
    Installed,
    /// Where the runtime that was installed before is kept meanwhile.
    Previous,
}

/// The path of a directory of an installation.
pub open spec fn dir_of(install_root: Seq<char>, staging: Seq<char>, name: Seq<char>, dir: Dir) -> Seq<char> {
    let extract = paths::joined_path(staging, "payload"@);
    match dir {
        Dir::InstallRoot => install_root,
        Dir::Extract => extract,
        Dir::Extracted => paths::joined_path(extract, name),
        Dir::Installed => paths::joined_path(install_root, name),
        Dir::Previous => paths::joined_path(install_root, name + ".previous"@),
    }
}

/// The path of a directory of an installation.
pub fn dir_path(install_root: &str, staging: &str, name: &str, dir: Dir) -> (r: String)
    ensures
        r@ == dir_of(install_root@, staging@, name@, dir),
{
    match dir {
        Dir::InstallRoot => install_root.to_owned(),
        Dir::Extract => paths::join(staging, "payload"),
        Dir::Extracted => {
            let extract = paths::join(staging, "payload");
            paths::join(extract.as_str(), name)
        },
        Dir::Installed => paths::join(install_root, name),
        Dir::Previous => {
            let mut previous: String = name.to_owned();
            previous.push_str(".previous");
            paths::join(install_root, previous.as_str())
        },
    }
}

/// What an installation asks to be done next.
#[derive(Clone, Copy, Debug, PartialEq, Eq, Structural)]
pub enum Task {
    ReadMetadata,
    CreateDir(Dir),
    Checksum,
    MakeStaging,
    ListEntries,
    Extract,
    Validate(Dir),
    Remove(Dir),
    CheckExists(Dir),
    Move { from: Dir, to: Dir },
    RemoveStaging,
    Nothing,
}

/// What came of a task.
#[derive(Debug, PartialEq)]
pub enum Reply {
    Done,
    Metadata(Option<InstalledRuntimeMetadata>),
    Digest(String),
    Entries(Vec<String>),
    Paths(RuntimeInstallPaths),
    Exists(bool),
    Failed(RuntimeError),
}

/// How far an installation has come.
#[derive(Debug, PartialEq)]
pub enum Stage {
    /// See of which version the installed runtime is.
    ReadInstalled,
    /// See whether the installed runtime, which is current, is complete.
    ReuseInstalled,
    CreateRoot,
    Checksum,
    MakeStaging,
    CreateExtract,
    List,
    Extract,
    ValidateExtracted,
    RemovePrevious,
    CheckInstalled,
    MoveOld,
    MoveNew,
    ValidateInstalled,
    DropPrevious(RuntimeInstallPaths),
    RollbackRemove(RuntimeError),
    RollbackCheck(RuntimeError),
    RollbackMove(RuntimeError),
    Cleanup(Result<RuntimeInstallResponse, RuntimeError>),
    Finished(Result<RuntimeInstallResponse, RuntimeError>),
}

/// The task of a stage.
pub open spec fn task_of(stage: Stage) -> Task {
    match stage {
        Stage::ReadInstalled => Task::ReadMetadata,
        Stage::ReuseInstalled => Task::Validate(Dir::Installed),
        Stage::CreateRoot => Task::CreateDir(Dir::InstallRoot),
        Stage::Checksum => Task::Checksum,
        Stage::MakeStaging => Task::MakeStaging,
        Stage::CreateExtract => Task::CreateDir(Dir::Extract),
        Stage::List => Task::ListEntries,
        Stage::Extract => Task::Extract,
        Stage::ValidateExtracted => Task::Validate(Dir::Extracted),
        Stage::RemovePrevious => Task::Remove(Dir::Previous),
        Stage::CheckInstalled => Task::CheckExists(Dir::Installed),
        Stage::MoveOld => Task::Move { from: Dir::Installed, to: Dir::Previous },
        Stage::MoveNew => Task::Move { from: Dir::Extracted, to: Dir::Installed },
        Stage::ValidateInstalled => Task::Validate(Dir::Installed),
        Stage::DropPrevious(_) => Task::Remove(Dir::Previous),
        Stage::RollbackRemove(_) => Task::Remove(Dir::Installed),
        Stage::RollbackCheck(_) => Task::CheckExists(Dir::Previous),
        Stage::RollbackMove(_) => Task::Move { from: Dir::Previous, to: Dir::Installed },
        Stage::Cleanup(_) => Task::RemoveStaging,
        Stage::Finished(_) => Task::Nothing,
    }
}

/// The task of a stage.
pub fn task(stage: &Stage) -> (r: Task)
    ensures
        r == task_of(*stage),
{
    match stage {
        Stage::ReadInstalled => Task::ReadMetadata,
        Stage::ReuseInstalled => Task::Validate(Dir::Installed),
        Stage::CreateRoot => Task::CreateDir(Dir::InstallRoot),
        Stage::Checksum => Task::Checksum,
        Stage::MakeStaging => Task::MakeStaging,
        Stage::CreateExtract => Task::CreateDir(Dir::Extract),
        Stage::List => Task::ListEntries,
        Stage::Extract => Task::Extract,
        Stage::ValidateExtracted => Task::Validate(Dir::Extracted),
        Stage::RemovePrevious => Task::Remove(Dir::Previous),
        Stage::CheckInstalled => Task::CheckExists(Dir::Installed),
        Stage::MoveOld => Task::Move { from: Dir::Installed, to: Dir::Previous },
        Stage::MoveNew => Task::Move { from: Dir::Extracted, to: Dir::Installed },
        Stage::ValidateInstalled => Task::Validate(Dir::Installed),
        Stage::DropPrevious(_) => Task::Remove(Dir::Previous),
        Stage::RollbackRemove(_) => Task::Remove(Dir::Installed),
        Stage::RollbackCheck(_) => Task::CheckExists(Dir::Previous),
        Stage::RollbackMove(_) => Task::Move { from: Dir::Previous, to: Dir::Installed },
        Stage::Cleanup(_) => Task::RemoveStaging,
        Stage::Finished(_) => Task::Nothing,
    }
}

/// Whether the reply can come of the task. The staging directory is removed as
/// far as that goes: its removal has no result.
pub open spec fn fits(task: Task, reply: Reply) -> bool {
    match task {
        Task::ReadMetadata => reply is Metadata || reply is Failed,
        Task::Checksum => reply is Digest || reply is Failed,
        Task::ListEntries => reply is Entries || reply is Failed,
        Task::Validate(_) => reply is Paths || reply is Failed,
        Task::CheckExists(_) => reply is Exists || reply is Failed,
        Task::RemoveStaging => reply is Done,
        Task::Nothing => false,
        _ => reply is Done || reply is Failed,
    }
}

/// Whether every entry stays inside the extraction directory.
pub open spec fn all_stay(entries: Seq<String>, extract_dir: Seq<char>) -> bool {
    forall|i: int| 0 <= i < entries.len() ==> validation::entry_stays(#[trigger] entries[i]@, extract_dir)
}

/// The next stage and the phase that begins with it. A stage behind the making
/// of the staging directory always leads to its cleanup.
pub struct Turn {
    pub stage: Stage,
    pub progress: Option<ProgressPhase>,
}

/// The stage that an installation fails with.
pub open spec fn is_failure(stage: Stage, staged: bool, error: validation::ErrorView) -> bool {
    if staged {
        stage matches Stage::Cleanup(Err(e)) && e@ == error
    } else {
        stage matches Stage::Finished(Err(e)) && e@ == error
    }
}

/// The error of an installation that was canceled.
pub open spec fn canceled() -> validation::ErrorView {
    validation::internal("runtime install canceled"@)
}

/// Whether `next` follows `stage` by the given reply.
pub open spec fn follows(
    m: RuntimeInstallManifest,
    extract_dir: Seq<char>,
    stage: Stage,
    reply: Reply,
    cancelled: bool,
    next: Turn,
) -> bool {
    match (stage, reply) {
        (Stage::ReadInstalled, Reply::Metadata(installed)) => next.progress is None && if is_current(m, installed) {
            next.stage is ReuseInstalled
        } else {
            next.stage is CreateRoot
        },
        (Stage::ReadInstalled, Reply::Failed(_)) => next.stage is CreateRoot && next.progress is None,
        (Stage::ReuseInstalled, Reply::Paths(paths)) => {
            &&& next.progress == Some(ProgressPhase::Installed)
            &&& next.stage == Stage::Finished(
                Ok(
                    RuntimeInstallResponse {
                        bundle_version: m.bundle_version,
                        paths,
                        status: RuntimeInstallStatus::AlreadyCurrent,
                    },
                ),
            )
        },
        (Stage::ReuseInstalled, Reply::Failed(_)) => next.stage is CreateRoot && next.progress is None,
        (Stage::CreateRoot, Reply::Failed(e)) => next.stage == Stage::Finished(Err(e)) && next.progress is None,
        (Stage::CreateRoot, _) => next.stage is Checksum && next.progress == Some(ProgressPhase::Verifying),
        (Stage::Checksum, Reply::Failed(e)) => next.stage == Stage::Finished(Err(e)) && next.progress is None,
        (Stage::Checksum, Reply::Digest(actual)) => {
            &&& next.progress is None
            &&& if !digests_agree(actual@, m.archive_sha256@) {
                is_failure(next.stage, false, validation::bad_request(mismatch_message(m, actual@)))
            } else if validation::archive_format(m) is None {
                is_failure(
                    next.stage,
                    false,
                    validation::bad_request("unsupported runtime archive format: "@ + m.format->0@),
                )
            } else if cancelled {
                is_failure(next.stage, false, canceled())
            } else {
                next.stage is MakeStaging
            }
        },
        (Stage::MakeStaging, Reply::Failed(e)) => next.stage == Stage::Finished(Err(e)) && next.progress is None,
        (Stage::MakeStaging, _) => next.stage is CreateExtract && next.progress is None,
        (Stage::CreateExtract, Reply::Failed(e)) => next.stage == Stage::Cleanup(Err(e)) && next.progress is None,
        (Stage::CreateExtract, _) => {
            &&& next.progress == Some(ProgressPhase::Extracting)
            &&& if cancelled {
                is_failure(next.stage, true, canceled())
            } else {
                next.stage is List
            }
        },
        (Stage::List, Reply::Failed(e)) => next.stage == Stage::Cleanup(Err(e)) && next.progress is None,
        (Stage::List, Reply::Entries(entries)) => {
            &&& next.progress is None
            &&& if !all_stay(entries@, extract_dir) {
                next.stage matches Stage::Cleanup(Err(e)) && e.kind is InvalidParams && exists|i: int|
                    {
                        &&& 0 <= i < entries@.len()
                        &&& !validation::entry_stays(#[trigger] entries@[i]@, extract_dir)
                        &&& forall|j: int| 0 <= j < i ==> validation::entry_stays(#[trigger] entries@[j]@, extract_dir)
                        &&& e.message@ == validation::escape_message(entries@[i]@)
                    }
            } else if cancelled {
                is_failure(next.stage, true, canceled())
            } else {
                next.stage is Extract
            }
        },
        (Stage::Extract, Reply::Failed(e)) => next.stage == Stage::Cleanup(Err(e)) && next.progress is None,
        (Stage::Extract, _) => {
            &&& next.progress == Some(ProgressPhase::Validating)
            &&& if cancelled {
                is_failure(next.stage, true, canceled())
            } else {
                next.stage is ValidateExtracted
            }
        },
        (Stage::ValidateExtracted, Reply::Failed(e)) => next.stage == Stage::Cleanup(Err(e)) && next.progress is None,
        (Stage::ValidateExtracted, _) => {
            &&& next.progress is None
            &&& if cancelled {
                is_failure(next.stage, true, canceled())
            } else {
                next.stage is RemovePrevious
            }
        },
        (Stage::RemovePrevious, Reply::Failed(e)) => next.stage == Stage::Cleanup(Err(e)) && next.progress is None,
        (Stage::RemovePrevious, _) => next.stage is CheckInstalled && next.progress is None,
        (Stage::CheckInstalled, Reply::Failed(e)) => next.stage == Stage::Cleanup(Err(e)) && next.progress is None,
        (Stage::CheckInstalled, Reply::Exists(there)) => next.progress is None && if there {
            next.stage is MoveOld
        } else {
            next.stage is MoveNew
        },
        (Stage::MoveOld, Reply::Failed(e)) => next.stage == Stage::Cleanup(Err(e)) && next.progress is None,
        (Stage::MoveOld, _) => next.stage is MoveNew && next.progress is None,
        (Stage::MoveNew, Reply::Failed(e)) => next.stage == Stage::RollbackRemove(e) && next.progress is None,
        (Stage::MoveNew, _) => next.stage is ValidateInstalled && next.progress is None,
        (Stage::ValidateInstalled, Reply::Failed(e)) => next.stage == Stage::RollbackRemove(e) && next.progress is None,
        (Stage::ValidateInstalled, Reply::Paths(paths)) => next.stage == Stage::DropPrevious(paths)
            && next.progress is None,
        (Stage::DropPrevious(paths), Reply::Failed(e)) => next.stage == Stage::Cleanup(Err(e)) && next.progress is None,
        (Stage::DropPrevious(paths), _) => next.progress is None && next.stage == Stage::Cleanup(
            Ok(
                RuntimeInstallResponse {
                    bundle_version: m.bundle_version,
                    paths,
                    status: RuntimeInstallStatus::Installed,
                },
            ),
        ),
        (Stage::RollbackRemove(error), Reply::Failed(e)) => next.stage == Stage::Cleanup(Err(e))
            && next.progress is None,
        (Stage::RollbackRemove(error), _) => next.stage == Stage::RollbackCheck(error) && next.progress is None,
        (Stage::RollbackCheck(error), Reply::Failed(e)) => next.stage == Stage::Cleanup(Err(e))
            && next.progress is None,
        (Stage::RollbackCheck(error), Reply::Exists(there)) => next.progress is None && if there {
            next.stage == Stage::RollbackMove(error)
        } else {
            next.stage == Stage::Cleanup(Err(error))
        },
        (Stage::RollbackMove(error), Reply::Failed(e)) => next.stage == Stage::Cleanup(Err(e))
            && next.progress is None,
        (Stage::RollbackMove(error), _) => next.stage == Stage::Cleanup(Err(error)) && next.progress is None,
        (Stage::Cleanup(result), _) => next.stage == Stage::Finished(result) && next.progress == (if result is Ok {
            Some(ProgressPhase::Installed)
        } else {
            None
        }),
        _ => false,
    }
}

fn turn(stage: Stage, progress: Option<ProgressPhase>) -> (r: Turn)
    ensures
        r.stage == stage,
        r.progress == progress,
{
    Turn { stage, progress }
}

/// The first stage of an installation from an archive. One that was canceled
/// before it began ends at once, and nothing is reported or done. Only where the
/// manifest names a version may the installed runtime be the one that it asks
/// for.
pub fn begin_install(manifest: &RuntimeInstallManifest, cancelled: bool) -> (r: Turn)
    ensures
        r.progress is None,
        if !validation::single_segment(validation::root_name(*manifest)) {
            is_failure(
                r.stage,
                false,
                validation::bad_request(validation::segment_message("runtimeRootDirectoryName"@)),
            )
        } else if cancelled {
            is_failure(r.stage, false, canceled())
        } else if manifest.bundle_version is Some {
            r.stage is ReadInstalled
        } else {
            r.stage is CreateRoot
        },
{
    match validation::runtime_root_directory_name(manifest) {
        Err(e) => return turn(Stage::Finished(Err(e)), None),
        Ok(_) => {},
    }
    match executor::ensure_not_cancelled(cancelled) {
        Err(e) => return turn(Stage::Finished(Err(e)), None),
        Ok(_) => {},
    }
    if manifest.bundle_version.is_some() {
        turn(Stage::ReadInstalled, None)
    } else {
        turn(Stage::CreateRoot, None)
    }
}

/// What the stages before the installation proper say of the installed runtime:
/// nothing as long as they go on, and in the end that it is reused, that it is
/// not, or why neither.
pub fn reuse_outcome(stage: Stage) -> (r: Result<OuterReply, Stage>)
    ensures
        match stage {
            Stage::ReadInstalled | Stage::ReuseInstalled => r == Err::<OuterReply, Stage>(stage),
            Stage::Finished(Ok(response)) => r == Ok::<OuterReply, Stage>(OuterReply::Reused(response)),
            Stage::Finished(Err(e)) => r == Ok::<OuterReply, Stage>(OuterReply::Failed(e)),
            _ => r == Ok::<OuterReply, Stage>(OuterReply::Done),
        },
{
    match stage {
        Stage::ReadInstalled => Err(Stage::ReadInstalled),
        Stage::ReuseInstalled => Err(Stage::ReuseInstalled),
        Stage::Finished(Ok(response)) => Ok(OuterReply::Reused(response)),
        Stage::Finished(Err(e)) => Ok(OuterReply::Failed(e)),
        _ => Ok(OuterReply::Done),
    }
}

/// Goes on to the next stage of an installation from an archive.
pub fn install_step(
    manifest: &RuntimeInstallManifest,
    extract_dir: &str,
    stage: Stage,
    reply: Reply,
    cancelled: bool,
) -> (r: Turn)
    requires
        fits(task_of(stage), reply),
    ensures
        follows(*manifest, extract_dir@, stage, reply, cancelled, r),
{
    match (stage, reply) {
        (Stage::ReadInstalled, Reply::Metadata(installed)) => {
            if is_reuse_candidate(manifest, &installed) {
                turn(Stage::ReuseInstalled, None)
            } else {
                turn(Stage::CreateRoot, None)
            }
        },
        (Stage::ReadInstalled, _) => turn(Stage::CreateRoot, None),
        (Stage::ReuseInstalled, Reply::Paths(paths)) => turn(
            Stage::Finished(Ok(reuse_response(manifest, paths))),
            Some(ProgressPhase::Installed),
        ),
        (Stage::ReuseInstalled, _) => turn(Stage::CreateRoot, None),
        (Stage::CreateRoot, Reply::Failed(e)) => turn(Stage::Finished(Err(e)), None),
        (Stage::CreateRoot, _) => turn(Stage::Checksum, Some(ProgressPhase::Verifying)),
        (Stage::Checksum, Reply::Failed(e)) => turn(Stage::Finished(Err(e)), None),
        (Stage::Checksum, Reply::Digest(actual)) => {
            match verify_archive_checksum(manifest, actual.as_str()) {
                Err(e) => return turn(Stage::Finished(Err(e)), None),
                Ok(_) => {},
            }
            match validation::runtime_archive_format(manifest) {
                Err(e) => return turn(Stage::Finished(Err(e)), None),
                Ok(_) => {},
            }
            if cancelled {
                turn(Stage::Finished(Err(executor::runtime_install_canceled())), None)
            } else {
                turn(Stage::MakeStaging, None)
            }
        },
        (Stage::MakeStaging, Reply::Failed(e)) => turn(Stage::Finished(Err(e)), None),
        (Stage::MakeStaging, _) => turn(Stage::CreateExtract, None),
        (Stage::CreateExtract, Reply::Failed(e)) => turn(Stage::Cleanup(Err(e)), None),
        (Stage::CreateExtract, _) => {
            if cancelled {
                turn(
                    Stage::Cleanup(Err(executor::runtime_install_canceled())),
                    Some(ProgressPhase::Extracting),
                )
            } else {
                turn(Stage::List, Some(ProgressPhase::Extracting))
            }
        },
        (Stage::List, Reply::Failed(e)) => turn(Stage::Cleanup(Err(e)), None),
        (Stage::List, Reply::Entries(entries)) => {
            match validation::assert_archive_entries_stay_within_directory(&entries, extract_dir) {
                Err(e) => return turn(Stage::Cleanup(Err(e)), None),
                Ok(_) => {},
            }
            if cancelled {
                turn(Stage::Cleanup(Err(executor::runtime_install_canceled())), None)
            } else {
                turn(Stage::Extract, None)
            }
        },
        (Stage::Extract, Reply::Failed(e)) => turn(Stage::Cleanup(Err(e)), None),
        (Stage::Extract, _) => {
            if cancelled {
                turn(
                    Stage::Cleanup(Err(executor::runtime_install_canceled())),
                    Some(ProgressPhase::Validating),
                )
            } else {
                turn(Stage::ValidateExtracted, Some(ProgressPhase::Validating))
            }
        },
        (Stage::ValidateExtracted, Reply::Failed(e)) => turn(Stage::Cleanup(Err(e)), None),
        (Stage::ValidateExtracted, _) => {
            if cancelled {
                turn(Stage::Cleanup(Err(executor::runtime_install_canceled())), None)
            } else {
                turn(Stage::RemovePrevious, None)
            }
        },
        (Stage::RemovePrevious, Reply::Failed(e)) => turn(Stage::Cleanup(Err(e)), None),
        (Stage::RemovePrevious, _) => turn(Stage::CheckInstalled, None),
        (Stage::CheckInstalled, Reply::Failed(e)) => turn(Stage::Cleanup(Err(e)), None),
        (Stage::CheckInstalled, Reply::Exists(there)) => {
            if there {
                turn(Stage::MoveOld, None)
            } else {
                turn(Stage::MoveNew, None)
            }
        },
        (Stage::MoveOld, Reply::Failed(e)) => turn(Stage::Cleanup(Err(e)), None),
        (Stage::MoveOld, _) => turn(Stage::MoveNew, None),
        (Stage::MoveNew, Reply::Failed(e)) => turn(Stage::RollbackRemove(e), None),
        (Stage::MoveNew, _) => turn(Stage::ValidateInstalled, None),
        (Stage::ValidateInstalled, Reply::Failed(e)) => turn(Stage::RollbackRemove(e), None),
        (Stage::ValidateInstalled, Reply::Paths(paths)) => turn(Stage::DropPrevious(paths), None),
        (Stage::DropPrevious(_), Reply::Failed(e)) => turn(Stage::Cleanup(Err(e)), None),
        (Stage::DropPrevious(paths), _) => turn(
            Stage::Cleanup(
                Ok(
                    RuntimeInstallResponse {
                        bundle_version: text::clone_opt(&manifest.bundle_version),
                        paths,
                        status: RuntimeInstallStatus::Installed,
                    },
                ),
            ),
            None,
        ),
        (Stage::RollbackRemove(_), Reply::Failed(e)) => turn(Stage::Cleanup(Err(e)), None),
        (Stage::RollbackRemove(error), _) => turn(Stage::RollbackCheck(error), None),
        (Stage::RollbackCheck(_), Reply::Failed(e)) => turn(Stage::Cleanup(Err(e)), None),
        (Stage::RollbackCheck(error), Reply::Exists(there)) => {
            if there {
                turn(Stage::RollbackMove(error), None)
            } else {
                turn(Stage::Cleanup(Err(error)), None)
            }
        },
        (Stage::RollbackMove(_), Reply::Failed(e)) => turn(Stage::Cleanup(Err(e)), None),
        (Stage::RollbackMove(error), _) => turn(Stage::Cleanup(Err(error)), None),
        (Stage::Cleanup(result), _) => {
            let progress = match &result {
                Ok(_) => Some(ProgressPhase::Installed),
                Err(_) => None,
            };
            turn(Stage::Finished(result), progress)
        },
        (stage, _) => turn(stage, None),
    }
}

// ---------------------------------------------------------------------
// Laws
// ---------------------------------------------------------------------

/// The place of a stage in the order of an installation.
pub open spec fn rank(stage: Stage) -> nat {
    match stage {
        Stage::ReadInstalled => 0,
        Stage::ReuseInstalled => 1,
        Stage::CreateRoot => 2,
        Stage::Checksum => 3,
        Stage::MakeStaging => 4,
        Stage::CreateExtract => 5,
        Stage::List => 6,
        Stage::Extract => 7,
        Stage::ValidateExtracted => 8,
        Stage::RemovePrevious => 9,
        Stage::CheckInstalled => 10,
        Stage::MoveOld => 11,
        Stage::MoveNew => 12,
        Stage::ValidateInstalled => 13,
        Stage::DropPrevious(_) => 14,
        Stage::RollbackRemove(_) => 15,
        Stage::RollbackCheck(_) => 16,
        Stage::RollbackMove(_) => 17,
        Stage::Cleanup(_) => 18,
        Stage::Finished(_) => 19,
    }
}

/// Whether the staging directory exists in the stage.
pub open spec fn staged(stage: Stage) -> bool {
    5 <= rank(stage) <= 18
}

/// An installation moves forward only, so that it ends; the staging directory,
/// once made, is cleaned up before the end; the runtime is never installed
/// without having been validated in its place; and the archive is extracted
/// only where every entry stays inside the extraction directory. A runtime that
/// is there already is reused only where it is current and complete.
pub proof fn law_install_order(
    m: RuntimeInstallManifest,
    extract_dir: Seq<char>,
    stage: Stage,
    reply: Reply,
    cancelled: bool,
    next: Turn,
)
    requires
        fits(task_of(stage), reply),
        follows(m, extract_dir, stage, reply, cancelled, next),
    ensures
        rank(stage) < rank(next.stage),
        staged(stage) && !(stage is Cleanup) ==> staged(next.stage),
        next.stage matches Stage::Cleanup(Ok(_)) ==> stage is DropPrevious && reply is Done,
        next.stage is DropPrevious ==> stage is ValidateInstalled && reply is Paths,
        next.stage is Extract ==> (reply matches Reply::Entries(entries) && all_stay(entries@, extract_dir)),
        next.stage matches Stage::Finished(Ok(response)) ==> next.progress == Some(ProgressPhase::Installed) && if response.status is Installed {
            stage matches Stage::Cleanup(Ok(_))
        } else {
            stage is ReuseInstalled || stage matches Stage::Cleanup(Ok(_))
        },
        next.stage is ReuseInstalled ==> (reply matches Reply::Metadata(installed) && is_current(m, installed)),
        next.progress == Some(ProgressPhase::Installed) ==> (next.stage matches Stage::Finished(Ok(_))),
{
}

/// Which runtimes lie in the directories, each known by a number.
pub struct Dirs {
    pub extracted: Option<int>,
    pub installed: Option<int>,
    pub previous: Option<int>,
}

/// What a task that was done does to the directories.
pub open spec fn effect(d: Dirs, task: Task) -> Dirs {
    match task {
        Task::Remove(Dir::Previous) => Dirs { previous: None, ..d },
        Task::Remove(Dir::Installed) => Dirs { installed: None, ..d },
        Task::Move { from: Dir::Installed, to: Dir::Previous } => Dirs { installed: None, previous: d.installed, ..d },
        Task::Move { from: Dir::Extracted, to: Dir::Installed } => Dirs {
            extracted: None,
            installed: d.extracted,
            ..d
        },
        Task::Move { from: Dir::Previous, to: Dir::Installed } => Dirs { previous: None, installed: d.previous, ..d },
        _ => d,
    }
}

/// Whether the reply tells the truth of the directories.
pub open spec fn truthful(d: Dirs, task: Task, reply: Reply) -> bool {
    match (task, reply) {
        (Task::CheckExists(Dir::Installed), Reply::Exists(there)) => there == (d.installed is Some),
        (Task::CheckExists(Dir::Previous), Reply::Exists(there)) => there == (d.previous is Some),
        _ => true,
    }
}

/// One stage of an installation on the directories: a task that failed leaves
/// them as they were.
pub open spec fn dirs_step(
    m: RuntimeInstallManifest,
    extract_dir: Seq<char>,
    before: (Stage, Dirs),
    reply: Reply,
    cancelled: bool,
    after: (Stage, Dirs),
) -> bool {
    &&& fits(task_of(before.0), reply)
    &&& truthful(before.1, task_of(before.0), reply)
    &&& exists|next: Turn| #[trigger]
        follows(m, extract_dir, before.0, reply, cancelled, next) && next.stage == after.0
    &&& after.1 == (if reply is Failed {
        before.1
    } else {
        effect(before.1, task_of(before.0))
    })
}

/// What holds of the directories in each stage: before the swap the installed
/// runtime is the one from the start, during it that runtime is kept aside, and
/// after a rollback it is back in its place.
pub open spec fn dirs_ok(stage: Stage, d: Dirs, old: Option<int>, new: int) -> bool {
    match stage {
        Stage::ReadInstalled | Stage::ReuseInstalled | Stage::CreateRoot | Stage::Checksum | Stage::MakeStaging
        | Stage::CreateExtract | Stage::List | Stage::Extract | Stage::ValidateExtracted | Stage::RemovePrevious => d.installed == old && d.extracted == Some(new),
        Stage::CheckInstalled => d.installed == old && d.previous is None && d.extracted == Some(new),
        Stage::MoveOld => d.installed == old && old is Some && d.previous is None && d.extracted == Some(new),
        Stage::MoveNew => d.installed is None && d.previous == old && d.extracted == Some(new),
        Stage::ValidateInstalled => d.installed == Some(new) && d.previous == old,
        Stage::DropPrevious(_) => d.installed == Some(new),
        Stage::RollbackRemove(_) => d.previous == old,
        Stage::RollbackCheck(_) => d.installed is None && d.previous == old,
        Stage::RollbackMove(_) => d.installed is None && d.previous == old && old is Some,
        Stage::Cleanup(Ok(response)) => response.status is Installed && d.installed == Some(new),
        Stage::Finished(Ok(response)) => d.installed == (if response.status is Installed {
            Some(new)
        } else {
            old
        }),
        Stage::Cleanup(Err(_)) | Stage::Finished(Err(_)) => true,
    }
}

/// Every stage keeps what `dirs_ok` says of the directories. Hence an
/// installation that succeeds leaves the new runtime in place, and one that
/// reuses the old runtime leaves that.
pub proof fn law_install_keeps_directories(
    m: RuntimeInstallManifest,
    extract_dir: Seq<char>,
    before: (Stage, Dirs),
    reply: Reply,
    cancelled: bool,
    after: (Stage, Dirs),
    old: Option<int>,
    new: int,
)
    requires
        dirs_ok(before.0, before.1, old, new),
        dirs_step(m, extract_dir, before, reply, cancelled, after),
    ensures
        dirs_ok(after.0, after.1, old, new),
{
}

/// An installation that fails without touching the installed runtime, or that
/// fails after the swap and whose rollback is done, ends with the runtime of
/// the start in place.
pub proof fn law_failed_install_restores(
    m: RuntimeInstallManifest,
    extract_dir: Seq<char>,
    before: (Stage, Dirs),
    reply: Reply,
    cancelled: bool,
    after: (Stage, Dirs),
    old: Option<int>,
    new: int,
)
    requires
        dirs_ok(before.0, before.1, old, new),
        dirs_step(m, extract_dir, before, reply, cancelled, after),
        after.0 matches Stage::Cleanup(Err(_)),
        rank(before.0) <= rank(Stage::MoveOld) || ((before.0 is RollbackCheck || before.0 is RollbackMove) && !(reply
            is Failed)),
    ensures
        after.1.installed == old,
{
}

// ---------------------------------------------------------------------
// The whole installation
// ---------------------------------------------------------------------

/// What is known of an installation before anything is done.
#[derive(Debug, PartialEq)]
pub struct PreparedInstall {
    pub format: RuntimeArchiveFormat,
    pub archive_name: String,
}

/// Checks a manifest, and finds the format and the name of its archive.
pub fn prepare_install(manifest: &RuntimeInstallManifest) -> (r: Result<PreparedInstall, RuntimeError>)
    ensures
        match r {
            Ok(p) => validation::manifest_fault(*manifest) is None && validation::archive_format(*manifest) == Some(
                p.format,
            ) && p.archive_name@ == (match manifest.archive_name {
                Some(name) => name@,
                None => match p.format {
                    RuntimeArchiveFormat::TarXz => "node-runtime.tar.xz"@,
                    RuntimeArchiveFormat::Zip => "node-runtime.zip"@,
                },
            }),
            Err(e) => match validation::manifest_fault(*manifest) {
                Some(fault) => e@ == validation::bad_request(fault),
                None => validation::archive_format(*manifest) is None && e@ == validation::bad_request(
                    "unsupported runtime archive format: "@ + manifest.format->0@,
                ),
            },
        },
{
    match validation::validate_manifest(manifest) {
        Err(e) => return Err(e),
        Ok(_) => {},
    }
    let format = match validation::runtime_archive_format(manifest) {
        Err(e) => return Err(e),
        Ok(format) => format,
    };
    let archive_name = match &manifest.archive_name {
        Some(name) => name.clone(),
        None => validation::default_archive_name(format).to_owned(),
    };
    Ok(PreparedInstall { format, archive_name })
}

/// How far a whole installation has come.
#[derive(Debug, PartialEq)]
pub enum OuterStage {
    /// See whether the installed runtime will do.
    Reuse,
    MakeStaging,
    Download,
    /// Install from the downloaded archive.
    InstallArchive,
    Cleanup(Result<RuntimeInstallResponse, RuntimeError>),
    Finished(Result<RuntimeInstallResponse, RuntimeError>),
}

/// What came of a stage of a whole installation.
#[derive(Debug, PartialEq)]
pub enum OuterReply {
    Done,
    Reused(RuntimeInstallResponse),
    Result(Result<RuntimeInstallResponse, RuntimeError>),
    Failed(RuntimeError),
}

/// Whether the reply can come of the stage.
pub open spec fn outer_fits(stage: OuterStage, reply: OuterReply) -> bool {
    match stage {
        OuterStage::Reuse => reply is Done || reply is Reused || reply is Failed,
        OuterStage::MakeStaging | OuterStage::Download => reply is Done || reply is Failed,
        OuterStage::InstallArchive => reply is Result,
        OuterStage::Cleanup(_) => reply is Done,
        OuterStage::Finished(_) => false,
    }
}

/// The stage that follows. Once the download has begun, the staging directory
/// is cleaned up whatever the result.
pub open spec fn outer_next(stage: OuterStage, reply: OuterReply) -> OuterStage {
    match (stage, reply) {
        (OuterStage::Reuse, OuterReply::Reused(response)) => OuterStage::Finished(Ok(response)),
        (OuterStage::Reuse, OuterReply::Failed(e)) => OuterStage::Finished(Err(e)),
        (OuterStage::Reuse, _) => OuterStage::MakeStaging,
        (OuterStage::MakeStaging, OuterReply::Failed(e)) => OuterStage::Finished(Err(e)),
        (OuterStage::MakeStaging, _) => OuterStage::Download,
        (OuterStage::Download, OuterReply::Failed(e)) => OuterStage::Cleanup(Err(e)),
        (OuterStage::Download, _) => OuterStage::InstallArchive,
        (OuterStage::InstallArchive, OuterReply::Result(result)) => OuterStage::Cleanup(result),
        (OuterStage::Cleanup(result), _) => OuterStage::Finished(result),
        (other, _) => other,
    }
}

/// Goes on to the next stage of a whole installation.
pub fn outer_step(stage: OuterStage, reply: OuterReply) -> (r: OuterStage)
    requires
        outer_fits(stage, reply),
    ensures
        r == outer_next(stage, reply),
{
    match (stage, reply) {
        (OuterStage::Reuse, OuterReply::Reused(response)) => OuterStage::Finished(Ok(response)),
        (OuterStage::Reuse, OuterReply::Failed(e)) => OuterStage::Finished(Err(e)),
        (OuterStage::Reuse, _) => OuterStage::MakeStaging,
        (OuterStage::MakeStaging, OuterReply::Failed(e)) => OuterStage::Finished(Err(e)),
        (OuterStage::MakeStaging, _) => OuterStage::Download,
        (OuterStage::Download, OuterReply::Failed(e)) => OuterStage::Cleanup(Err(e)),
        (OuterStage::Download, _) => OuterStage::InstallArchive,
        (OuterStage::InstallArchive, OuterReply::Result(result)) => OuterStage::Cleanup(result),
        (OuterStage::Cleanup(result), _) => OuterStage::Finished(result),
        (other, _) => other,
    }
}

/// A runtime is current exactly where the manifest and what is installed both
/// say a version, and the same one.
pub proof fn law_current_runtime_has_the_same_version(
    m: RuntimeInstallManifest,
    installed: Option<InstalledRuntimeMetadata>,
)
    ensures
        is_current(m, installed) <==> (m.bundle_version matches Some(wanted) && installed matches Some(metadata)
            && metadata.bundle_version matches Some(there) && there@ == wanted@),
{
}

/// Two digests agree exactly where they are the same, whatever the case of their
/// letters.
pub proof fn law_digests_agree_in_either_case(actual: Seq<char>, expected: Seq<char>)
    ensures
        actual == expected ==> digests_agree(actual, expected),
        digests_agree(actual, expected) == digests_agree(expected, actual),
        digests_agree(text::ascii_upper(actual), expected) == digests_agree(actual, expected),
        digests_agree(actual, expected) <==> text::ascii_upper(actual) == text::ascii_upper(expected),
        digests_agree(actual, expected) ==> actual.len() == expected.len(),
        digests_agree(actual, expected) ==> forall|i: int|
            0 <= i < actual.len() && !('a' <= #[trigger] actual[i] <= 'z') && !('A' <= actual[i] <= 'Z') ==> expected[i]
                == actual[i],
{
    text::law_case_keeps_the_letters(actual);
    text::law_case_keeps_the_letters(expected);
    if digests_agree(actual, expected) {
        assert forall|i: int|
            0 <= i < actual.len() && !('a' <= #[trigger] actual[i] <= 'z') && !('A' <= actual[i] <= 'Z') implies expected[i]
            == actual[i] by {
            assert(text::ascii_lower(actual)[i] == text::ascii_lower(expected)[i]);
            assert(text::ascii_lower(expected)[i] == text::ascii_lower_char(expected[i]));
        }
    }
}

/// The archive is extracted into the payload of the staging directory; the
/// runtime is installed under its name, and the one before it is kept beside it
/// under that name with an ending more.
pub proof fn law_directories_of_an_install(install_root: Seq<char>, staging: Seq<char>, name: Seq<char>)
    requires
        !paths::absolute(name),
        name.len() > 0,
    ensures
        dir_of(install_root, staging, name, Dir::InstallRoot) == install_root,
        dir_of(install_root, staging, name, Dir::Extract) == paths::joined_path(staging, "payload"@),
        dir_of(install_root, staging, name, Dir::Extracted) == paths::joined_path(
            dir_of(install_root, staging, name, Dir::Extract),
            name,
        ),
        dir_of(install_root, staging, name, Dir::Installed) == paths::joined_path(install_root, name),
        dir_of(install_root, staging, name, Dir::Previous) == dir_of(install_root, staging, name, Dir::Installed)
            + ".previous"@,
{
    let kept = dir_of(install_root, staging, name, Dir::Previous);
    assert((name + ".previous"@)[0] == name[0]);
    assert(kept =~= dir_of(install_root, staging, name, Dir::Installed) + ".previous"@);
}

/// What is validated before the swap is what was extracted, and after it what is
/// installed; the root is made before the archive is looked at.
pub proof fn law_stages_do_their_own_task(paths: RuntimeInstallPaths, e: RuntimeError)
    ensures
        task_of(Stage::ReuseInstalled) == Task::Validate(Dir::Installed),
        task_of(Stage::ValidateExtracted) == Task::Validate(Dir::Extracted),
        task_of(Stage::ValidateInstalled) == Task::Validate(Dir::Installed),
        task_of(Stage::CreateRoot) == Task::CreateDir(Dir::InstallRoot),
        task_of(Stage::CreateExtract) == Task::CreateDir(Dir::Extract),
        task_of(Stage::CheckInstalled) == Task::CheckExists(Dir::Installed),
        task_of(Stage::RollbackCheck(e)) == Task::CheckExists(Dir::Previous),
        task_of(Stage::RemovePrevious) == Task::Remove(Dir::Previous),
        task_of(Stage::DropPrevious(paths)) == Task::Remove(Dir::Previous),
        task_of(Stage::RollbackRemove(e)) == Task::Remove(Dir::Installed),
{
}

/// An install can be called off until what was extracted has been validated, and
/// not once the swap has begun. What was staged is cleaned up.
pub proof fn law_install_can_be_called_off_before_the_swap(
    m: RuntimeInstallManifest,
    extract_dir: Seq<char>,
    stage: Stage,
    reply: Reply,
    next: Turn,
)
    requires
        fits(task_of(stage), reply),
        follows(m, extract_dir, stage, reply, true, next),
        !(reply is Failed),
    ensures
        stage is CreateExtract || stage is Extract || stage is ValidateExtracted ==> (next.stage matches Stage::Cleanup(
            Err(e),
        ) && e@ == validation::internal("runtime install canceled"@)),
        stage is List ==> next.stage matches Stage::Cleanup(Err(_)),
        stage is Checksum ==> next.stage matches Stage::Finished(Err(_)),
        stage is RemovePrevious ==> next.stage is CheckInstalled,
        stage is MoveOld ==> next.stage is MoveNew,
        stage is MoveNew ==> next.stage is ValidateInstalled,
        stage is ValidateInstalled ==> next.stage is DropPrevious,
{
}

/// What goes wrong in a stage is what the install fails with, after what was
/// staged is cleaned up; what goes wrong once the new runtime was moved in place
/// is first rolled back. A runtime that cannot be reused is installed anew.
pub proof fn law_failure_ends_an_install(
    m: RuntimeInstallManifest,
    extract_dir: Seq<char>,
    stage: Stage,
    e: RuntimeError,
    cancelled: bool,
    next: Turn,
)
    requires
        fits(task_of(stage), Reply::Failed(e)),
        follows(m, extract_dir, stage, Reply::Failed(e), cancelled, next),
    ensures
        next.progress is None,
        stage is ReadInstalled || stage is ReuseInstalled ==> next.stage is CreateRoot,
        2 <= rank(stage) <= 4 ==> next.stage == Stage::Finished(Err(e)),
        stage is MoveNew || stage is ValidateInstalled ==> next.stage == Stage::RollbackRemove(e),
        staged(stage) && !(stage is MoveNew) && !(stage is ValidateInstalled) ==> next.stage == Stage::Cleanup(Err(e)),
{
}

/// The archive is used exactly where its digest is the one of the manifest and
/// its format is known; a wrong digest is told before an unknown format.
pub proof fn law_wrong_archive_is_not_used(
    m: RuntimeInstallManifest,
    extract_dir: Seq<char>,
    actual: String,
    cancelled: bool,
    next: Turn,
)
    requires
        follows(m, extract_dir, Stage::Checksum, Reply::Digest(actual), cancelled, next),
    ensures
        next.stage is MakeStaging <==> digests_agree(actual@, m.archive_sha256@) && validation::archive_format(m) is Some
            && !cancelled,
        !digests_agree(actual@, m.archive_sha256@) ==> (next.stage matches Stage::Finished(Err(e)) && e.kind
            is InvalidParams && e@.message == "checksum mismatch for '"@ + m.archive_url@ + "': expected "@
            + m.archive_sha256@ + ", got "@ + actual@),
{
}

/// Each phase is told when it begins, and that the runtime is installed when
/// nothing is left to do.
pub proof fn law_phases_are_told_as_they_begin(
    m: RuntimeInstallManifest,
    extract_dir: Seq<char>,
    stage: Stage,
    reply: Reply,
    cancelled: bool,
    next: Turn,
)
    requires
        fits(task_of(stage), reply),
        follows(m, extract_dir, stage, reply, cancelled, next),
    ensures
        next.progress == Some(ProgressPhase::Verifying) <==> stage is CreateRoot && reply is Done,
        next.progress == Some(ProgressPhase::Extracting) <==> stage is CreateExtract && reply is Done,
        next.progress == Some(ProgressPhase::Validating) <==> stage is Extract && reply is Done,
        next.progress == Some(ProgressPhase::Installed) <==> next.stage matches Stage::Finished(Ok(_)),
        next.progress != Some(ProgressPhase::Checking),
        next.progress != Some(ProgressPhase::Downloading),
{
}

/// A download is made only where the installed runtime will not do, into a
/// staging directory that is cleaned up whatever comes of it; what the install
/// comes to is what is answered.
pub proof fn law_staging_is_cleaned_up(stage: OuterStage, reply: OuterReply)
    requires
        outer_fits(stage, reply),
    ensures
        outer_next(stage, reply) is MakeStaging <==> stage is Reuse && reply is Done,
        outer_next(stage, reply) is Download <==> stage is MakeStaging && reply is Done,
        outer_next(stage, reply) is InstallArchive <==> stage is Download && reply is Done,
        outer_next(stage, reply) is Cleanup <==> stage is InstallArchive || (stage is Download && reply is Failed),
        stage is Download || stage is InstallArchive ==> !(outer_next(stage, reply) is Finished),
        stage matches OuterStage::Cleanup(result) ==> outer_next(stage, reply) == OuterStage::Finished(result),
        stage is InstallArchive ==> (reply matches OuterReply::Result(result) && outer_next(stage, reply)
            == OuterStage::Cleanup(result)),
        stage is Reuse ==> (reply matches OuterReply::Reused(response) ==> outer_next(stage, reply)
            == OuterStage::Finished(Ok(response))),
        reply matches OuterReply::Failed(e) ==> outer_next(stage, reply) == (if stage is Download {
            OuterStage::Cleanup(Err(e))
        } else {
            OuterStage::Finished(Err(e))
        }),
{
}

} // verus!
