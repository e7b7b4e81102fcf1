//! Rules on manifests, archives and installed runtimes.

use vstd::prelude::*;

use crate::paths;
use crate::runtime_install::executor::RuntimeArchiveFormat;
use crate::runtime_install::executor::TargetPlatform;
use crate::text;

verus! {

/// The directory that a runtime is installed in unless the manifest names one.
pub const PUBLISHED_ARTIFACT_NAME: &'static str = "codex-primary-runtime";

/// Who is to blame for a failed installation.
#[derive(Clone, Copy, Debug, PartialEq, Eq, Structural)]
pub enum ErrorKind {
    /// The request.
    InvalidParams,
    /// The machine.
    Internal,
}

/// Why an installation failed.
#[derive(Debug, PartialEq)]
pub struct RuntimeError {
    pub kind: ErrorKind,
    pub message: String,
}

/// The kind and the characters of an error.
#[verifier::ext_equal]
pub struct ErrorView {
    pub kind: ErrorKind,
    pub message: Seq<char>,
}

impl View for RuntimeError {
    type V = ErrorView;

    open spec fn view(&self) -> ErrorView {
        ErrorView { kind: self.kind, message: self.message@ }
    }
}

/// An error of the request.
pub open spec fn bad_request(message: Seq<char>) -> ErrorView {
    ErrorView { kind: ErrorKind::InvalidParams, message }
}

/// An error of the machine.
pub open spec fn internal(message: Seq<char>) -> ErrorView {
    ErrorView { kind: ErrorKind::Internal, message }
}

/// An error of the request.
pub fn invalid_params(message: &str) -> (r: RuntimeError)
    ensures
        r@ == bad_request(message@),
{
    RuntimeError { kind: ErrorKind::InvalidParams, message: message.to_owned() }
}

/// An error of the machine.
pub fn internal_error(message: &str) -> (r: RuntimeError)
    ensures
        r@ == internal(message@),
{
    RuntimeError { kind: ErrorKind::Internal, message: message.to_owned() }
}

/// What a client says of the runtime to install.
#[derive(Debug, PartialEq)]
pub struct RuntimeInstallManifest {
    pub archive_name: Option<String>,
    pub archive_sha256: String,
    pub archive_size_bytes: Option<u64>,
    pub archive_url: String,
    pub bundle_format_version: Option<u32>,
    pub bundle_version: Option<String>,
    pub format: Option<String>,
    pub runtime_root_directory_name: Option<String>,
}

/// What an installed runtime says of itself.
#[derive(Debug, PartialEq)]
pub struct InstalledRuntimeMetadata {
    pub bundle_format_version: Option<u32>,
    pub bundle_version: Option<String>,
    pub bundled_plugins: Option<Vec<String>>,
    pub bundled_skills: Option<Vec<String>>,
    pub skills_to_remove: Option<Vec<String>>,
}

/// Where the parts of an installed runtime lie.
#[derive(Debug, PartialEq)]
pub struct RuntimeInstallPaths {
    pub bundled_plugin_marketplace_paths: Vec<String>,
    pub bundled_skill_paths: Vec<String>,
    pub node_modules_path: String,
    pub node_path: String,
    pub python_path: String,
    pub skills_to_remove: Vec<String>,
}

// ---------------------------------------------------------------------
// Manifests
// ---------------------------------------------------------------------

/// Whether the character is a hexadecimal digit.
pub open spec fn is_hex(c: char) -> bool {
    '0' <= c <= '9' || 'a' <= c <= 'f' || 'A' <= c <= 'F'
}

/// Whether the text is a SHA-256 digest: sixty-four hexadecimal digits.
pub open spec fn sha256_text(s: Seq<char>) -> bool {
    s.len() == 64 && forall|i: int| 0 <= i < s.len() ==> is_hex(#[trigger] s[i])
}

/// Whether the text is a SHA-256 digest.
pub fn is_sha256(value: &str) -> (r: bool)
    ensures
        r == sha256_text(value@),
{
    let v = text::char_vec(value);
    if v.len() != 64 {
        return false;
    }
    let mut i: usize = 0;
    while i < v.len()
        invariant
            i <= v.len(),
            v@ == value@,
            forall|j: int| 0 <= j < i ==> is_hex(#[trigger] v@[j]),
        decreases v.len() - i,
    {
        let c: char = v[i];
        if !(('0' <= c && c <= '9') || ('a' <= c && c <= 'f') || ('A' <= c && c <= 'F')) {
            assert(!is_hex(value@[i as int]));
            return false;
        }
        i = i + 1;
    }
    true
}

/// Whether the text, trimmed, names one thing in a directory.
pub open spec fn single_segment(s: Seq<char>) -> bool {
    let t = text::trimmed(s);
    t.len() > 0 && t != "."@ && t != ".."@ && !t.contains('/') && !t.contains('\\')
}

/// The message for a field that is not a single path segment.
pub open spec fn segment_message(field: Seq<char>) -> Seq<char> {
    "runtime manifest "@ + field + " must be a single path segment"@
}

/// Requires a single path segment.
pub fn validate_path_segment(value: &str, field_name: &str) -> (r: Result<(), RuntimeError>)
    ensures
        match r {
            Ok(_) => single_segment(value@),
            Err(e) => !single_segment(value@) && e@ == bad_request(segment_message(field_name@)),
        },
{
    let t = text::trim(value);
    if t.as_str().is_empty() || text::str_eq(t.as_str(), ".") || text::str_eq(t.as_str(), "..")
        || text::contains_char(t.as_str(), '/') || text::contains_char(t.as_str(), '\\') {
        let mut message: String = "runtime manifest ".to_owned();
        message.push_str(field_name);
        message.push_str(" must be a single path segment");
        return Err(RuntimeError { kind: ErrorKind::InvalidParams, message });
    }
    Ok(())
}

/// What is wrong with a manifest, if anything; the first fault counts.
pub open spec fn manifest_fault(m: RuntimeInstallManifest) -> Option<Seq<char>> {
    if text::trimmed(m.archive_url@).len() == 0 {
        Some("runtime manifest archiveUrl must not be empty"@)
    } else if !sha256_text(m.archive_sha256@) {
        Some("runtime manifest archiveSha256 must be a 64-character hex digest"@)
    } else if m.archive_name is Some && !single_segment(m.archive_name->0@) {
        Some(segment_message("archiveName"@))
    } else if m.runtime_root_directory_name is Some && !single_segment(m.runtime_root_directory_name->0@) {
        Some(segment_message("runtimeRootDirectoryName"@))
    } else {
        None
    }
}

/// Requires a manifest without a fault.
pub fn validate_manifest(manifest: &RuntimeInstallManifest) -> (r: Result<(), RuntimeError>)
    ensures
        match r {
            Ok(_) => manifest_fault(*manifest) is None,
            Err(e) => manifest_fault(*manifest) is Some && e@ == bad_request(manifest_fault(*manifest)->0),
        },
{
    let url = text::trim(manifest.archive_url.as_str());
    if url.as_str().is_empty() {
        return Err(invalid_params("runtime manifest archiveUrl must not be empty"));
    }
    if !is_sha256(manifest.archive_sha256.as_str()) {
        return Err(invalid_params("runtime manifest archiveSha256 must be a 64-character hex digest"));
    }
    match &manifest.archive_name {
        Some(name) => match validate_path_segment(name.as_str(), "archiveName") {
            Ok(_) => {},
            Err(e) => return Err(e),
        },
        None => {},
    }
    match &manifest.runtime_root_directory_name {
        Some(name) => match validate_path_segment(name.as_str(), "runtimeRootDirectoryName") {
            Ok(_) => {},
            Err(e) => return Err(e),
        },
        None => {},
    }
    Ok(())
}

/// The name of the directory that the runtime is installed in.
pub open spec fn root_name(m: RuntimeInstallManifest) -> Seq<char> {
    match m.runtime_root_directory_name {
        Some(name) => name@,
        None => PUBLISHED_ARTIFACT_NAME@,
    }
}

/// The name of the directory that the runtime is installed in.
pub fn runtime_root_directory_name(manifest: &RuntimeInstallManifest) -> (r: Result<String, RuntimeError>)
    ensures
        match r {
            Ok(name) => name@ == root_name(*manifest) && single_segment(name@),
            Err(e) => !single_segment(root_name(*manifest)) && e@ == bad_request(
                segment_message("runtimeRootDirectoryName"@),
            ),
        },
{
    let name = match &manifest.runtime_root_directory_name {
        Some(name) => name.clone(),
        None => PUBLISHED_ARTIFACT_NAME.to_owned(),
    };
    match validate_path_segment(name.as_str(), "runtimeRootDirectoryName") {
        Ok(_) => Ok(name),
        Err(e) => Err(e),
    }
}

/// The format of the archive: as the manifest says, and else by the endings of
/// the archive's name and address.
pub open spec fn archive_format(m: RuntimeInstallManifest) -> Option<RuntimeArchiveFormat> {
    match m.format {
        Some(format) => if text::ascii_lower(format@) == "tar.xz"@ {
            Some(RuntimeArchiveFormat::TarXz)
        } else if text::ascii_lower(format@) == "zip"@ {
            Some(RuntimeArchiveFormat::Zip)
        } else {
            None
        },
        None => if (m.archive_name is Some && text::has_suffix(text::ascii_lower(m.archive_name->0@), ".zip"@))
            || text::has_suffix(text::ascii_lower(m.archive_url@), ".zip"@) {
            Some(RuntimeArchiveFormat::Zip)
        } else {
            Some(RuntimeArchiveFormat::TarXz)
        },
    }
}

/// The format of the archive.
pub fn runtime_archive_format(manifest: &RuntimeInstallManifest) -> (r: Result<RuntimeArchiveFormat, RuntimeError>)
    ensures
        match r {
            Ok(format) => archive_format(*manifest) == Some(format),
            Err(e) => archive_format(*manifest) is None && manifest.format is Some && e@ == bad_request(
                "unsupported runtime archive format: "@ + manifest.format->0@,
            ),
        },
{
    match &manifest.format {
        Some(format) => {
            let lower = text::to_ascii_lower(format.as_str());
            if text::str_eq(lower.as_str(), "tar.xz") {
                return Ok(RuntimeArchiveFormat::TarXz);
            }
            if text::str_eq(lower.as_str(), "zip") {
                return Ok(RuntimeArchiveFormat::Zip);
            }
            let mut message: String = "unsupported runtime archive format: ".to_owned();
            message.push_str(format.as_str());
            return Err(RuntimeError { kind: ErrorKind::InvalidParams, message });
        },
        None => {},
    }
    let by_name = match &manifest.archive_name {
        Some(name) => {
            let lower = text::to_ascii_lower(name.as_str());
            text::ends_with(lower.as_str(), ".zip")
        },
        None => false,
    };
    let url = text::to_ascii_lower(manifest.archive_url.as_str());
    if by_name || text::ends_with(url.as_str(), ".zip") {
        Ok(RuntimeArchiveFormat::Zip)
    } else {
        Ok(RuntimeArchiveFormat::TarXz)
    }
}

/// The name that an archive is stored under unless the manifest names one.
pub fn default_archive_name(format: RuntimeArchiveFormat) -> (r: &'static str)
    ensures
        r@ == (match format {
            RuntimeArchiveFormat::TarXz => "node-runtime.tar.xz"@,
            RuntimeArchiveFormat::Zip => "node-runtime.zip"@,
        }),
{
    match format {
        RuntimeArchiveFormat::TarXz => "node-runtime.tar.xz",
        RuntimeArchiveFormat::Zip => "node-runtime.zip",
    }
}

// ---------------------------------------------------------------------
// Archives
// ---------------------------------------------------------------------

/// Whether the entry stays inside the directory that it is extracted to.
pub open spec fn entry_stays(entry: Seq<char>, extract_dir: Seq<char>) -> bool {
    paths::resolves_under(paths::joined_path(extract_dir, entry), extract_dir)
}

/// The message for an entry that leaves the directory.
pub open spec fn escape_message(entry: Seq<char>) -> Seq<char> {
    "archive entry '"@ + entry + "' would extract outside target"@
}

/// Requires that every entry of an archive stays inside the directory that it
/// is extracted to; the first that does not is reported.
pub fn assert_archive_entries_stay_within_directory(entries: &Vec<String>, extract_dir: &str) -> (r: Result<
    (),
    RuntimeError,
>)
    ensures
        match r {
            Ok(_) => forall|i: int| 0 <= i < entries@.len() ==> entry_stays(#[trigger] entries@[i]@, extract_dir@),
            Err(e) => exists|i: int|
                {
                    &&& 0 <= i < entries@.len()
                    &&& !entry_stays(#[trigger] entries@[i]@, extract_dir@)
                    &&& forall|j: int| 0 <= j < i ==> entry_stays(#[trigger] entries@[j]@, extract_dir@)
                    &&& e@ == bad_request(escape_message(entries@[i]@))
                },
        },
{
    let base = paths::normalize_path(extract_dir);
    let mut i: usize = 0;
    while i < entries.len()
        invariant
            i <= entries.len(),
            paths::step_views(base@) == paths::resolved(paths::path_steps(extract_dir@)),
            forall|j: int| 0 <= j < i ==> entry_stays(#[trigger] entries@[j]@, extract_dir@),
        decreases entries.len() - i,
    {
        let target = paths::join(extract_dir, entries[i].as_str());
        let steps = paths::normalize_path(target.as_str());
        assert(paths::step_views(base@).len() == base@.len() && paths::step_views(steps@).len() == steps@.len());
        if !paths::begins_with(&steps, &base) {
            let mut message: String = "archive entry '".to_owned();
            message.push_str(entries[i].as_str());
            message.push_str("' would extract outside target");
            assert(!entry_stays(entries@[i as int]@, extract_dir@));
            return Err(RuntimeError { kind: ErrorKind::InvalidParams, message });
        }
        i = i + 1;
    }
    Ok(())
}

// ---------------------------------------------------------------------
// Installed runtimes
// ---------------------------------------------------------------------

/// The name of the node executable.
pub fn node_executable_name(target_platform: &str) -> (r: &'static str)
    ensures
        r@ == (if target_platform@ == "win32"@ {
            "node.exe"@
        } else {
            "node"@
        }),
{
    if text::str_eq(target_platform, "win32") {
        "node.exe"
    } else {
        "node"
    }
}

/// The name of the python executable.
pub fn python_executable_name(target_platform: &str) -> (r: &'static str)
    ensures
        r@ == (if target_platform@ == "win32"@ {
            "python.exe"@
        } else {
            "python3"@
        }),
{
    if text::str_eq(target_platform, "win32") {
        "python.exe"
    } else {
        "python3"
    }
}

/// The format version that counts: the manifest's, else the runtime's own,
/// else the first.
pub open spec fn format_version(manifest: Option<u32>, metadata: Option<u32>) -> u32 {
    match manifest {
        Some(v) => v,
        None => match metadata {
            Some(v) => v,
            None => 1,
        },
    }
}

/// The directory that holds node.
pub open spec fn node_root(runtime_root: Seq<char>, version: u32) -> Seq<char> {
    if version >= 2 {
        paths::joined_path(paths::joined_path(runtime_root, "dependencies"@), "node"@)
    } else {
        runtime_root
    }
}

/// Where the node executable lies.
pub open spec fn node_place(runtime_root: Seq<char>, version: u32, platform: TargetPlatform) -> Seq<char> {
    paths::joined_path(
        paths::joined_path(node_root(runtime_root, version), "bin"@),
        if platform is Windows {
            "node.exe"@
        } else {
            "node"@
        },
    )
}

/// Where the node modules lie.
pub open spec fn node_modules_place(runtime_root: Seq<char>, version: u32) -> Seq<char> {
    paths::joined_path(node_root(runtime_root, version), "node_modules"@)
}

/// The directory that holds python.
pub open spec fn python_root(runtime_root: Seq<char>, version: u32) -> Seq<char> {
    if version >= 2 {
        paths::joined_path(paths::joined_path(runtime_root, "dependencies"@), "python"@)
    } else {
        paths::joined_path(runtime_root, "python"@)
    }
}

/// The places where the python executable may lie, in the order in which they
/// are tried.
pub open spec fn python_places(runtime_root: Seq<char>, version: u32, platform: TargetPlatform) -> Seq<Seq<char>> {
    let root = python_root(runtime_root, version);
    match platform {
        TargetPlatform::Windows => seq![
            paths::joined_path(root, "python.exe"@),
            paths::joined_path(paths::joined_path(root, "python"@), "python.exe"@),
            paths::joined_path(paths::joined_path(root, "bin"@), "python.exe"@),
        ],
        TargetPlatform::Unix => seq![
            paths::joined_path(paths::joined_path(root, "bin"@), "python3"@),
            paths::joined_path(paths::joined_path(root, "bin"@), "python"@),
        ],
    }
}

/// Where the parts of a runtime are looked for.
#[derive(Debug, PartialEq)]
pub struct RuntimeLayout {
    pub node_path: String,
    pub node_modules_path: String,
    pub python_root: String,
    pub python_candidates: Vec<String>,
}

/// Where the parts of a runtime are looked for.
pub fn runtime_layout(
    runtime_root: &str,
    manifest_version: Option<u32>,
    metadata_version: Option<u32>,
    platform: TargetPlatform,
) -> (r: RuntimeLayout)
    ensures
        ({
            let version = format_version(manifest_version, metadata_version);
            &&& r.node_path@ == node_place(runtime_root@, version, platform)
            &&& r.node_modules_path@ == node_modules_place(runtime_root@, version)
            &&& r.python_root@ == python_root(runtime_root@, version)
            &&& text::views(r.python_candidates@) == python_places(runtime_root@, version, platform)
        }),
{
    let version: u32 = match manifest_version {
        Some(v) => v,
        None => match metadata_version {
            Some(v) => v,
            None => 1,
        },
    };
    proof {
        reveal_strlit("unix");
        reveal_strlit("win32");
        assert("unix"@.len() != "win32"@.len());
    }
    let deps = paths::join(runtime_root, "dependencies");
    let node = if version >= 2 {
        paths::join(deps.as_str(), "node")
    } else {
        runtime_root.to_owned()
    };
    let python_root = if version >= 2 {
        paths::join(deps.as_str(), "python")
    } else {
        paths::join(runtime_root, "python")
    };
    let node_bin = paths::join(node.as_str(), "bin");
    let node_path = paths::join(node_bin.as_str(), node_executable_name(platform.runtime_name()));
    let node_modules_path = paths::join(node.as_str(), "node_modules");
    let python_bin = paths::join(python_root.as_str(), "bin");
    let name = python_executable_name(platform.runtime_name());
    let python_candidates = match platform {
        TargetPlatform::Windows => {
            let nested = paths::join(python_root.as_str(), "python");
            let a = paths::join(python_root.as_str(), name);
            let b = paths::join(nested.as_str(), name);
            let c = paths::join(python_bin.as_str(), name);
            vec![a, b, c]
        },
        TargetPlatform::Unix => {
            let a = paths::join(python_bin.as_str(), name);
            let b = paths::join(python_bin.as_str(), "python");
            vec![a, b]
        },
    };
    assert(text::views(python_candidates@) =~= python_places(runtime_root@, version, platform));
    RuntimeLayout { node_path, node_modules_path, python_root, python_candidates }
}

/// What the file system says of a path.
#[derive(Debug, PartialEq)]
pub enum PathAnswer {
    File,
    Directory,
    Other,
    Missing,
    Failed(String),
}

/// The message about a path that is not what the runtime needs.
pub open spec fn path_fault(label: Seq<char>, path: Seq<char>, wanted: Seq<char>, answer: PathAnswer) -> ErrorView {
    match answer {
        PathAnswer::Missing => bad_request("runtime "@ + label + " is missing: "@ + path),
        PathAnswer::Failed(err) => internal("failed to inspect runtime "@ + label + " "@ + path + ": "@ + err@),
        _ => bad_request("runtime "@ + label + " is not a "@ + wanted + ": "@ + path),
    }
}

fn path_error(label: &str, path: &str, wanted: &str, answer: &PathAnswer) -> (r: RuntimeError)
    ensures
        r@ == path_fault(label@, path@, wanted@, *answer),
{
    let mut message: String = String::new();
    match answer {
        PathAnswer::Missing => {
            message.push_str("runtime ");
            message.push_str(label);
            message.push_str(" is missing: ");
            message.push_str(path);
            assert(message@ =~= "runtime "@ + label@ + " is missing: "@ + path@);
            RuntimeError { kind: ErrorKind::InvalidParams, message }
        },
        PathAnswer::Failed(err) => {
            message.push_str("failed to inspect runtime ");
            message.push_str(label);
            message.push_str(" ");
            message.push_str(path);
            message.push_str(": ");
            message.push_str(err.as_str());
            assert(message@ =~= "failed to inspect runtime "@ + label@ + " "@ + path@ + ": "@ + err@);
            RuntimeError { kind: ErrorKind::Internal, message }
        },
        _ => {
            message.push_str("runtime ");
            message.push_str(label);
            message.push_str(" is not a ");
            message.push_str(wanted);
            message.push_str(": ");
            message.push_str(path);
            assert(message@ =~= "runtime "@ + label@ + " is not a "@ + wanted@ + ": "@ + path@);
            RuntimeError { kind: ErrorKind::InvalidParams, message }
        },
    }
}

/// Requires a file.
pub fn require_runtime_file(path: &str, label: &str, answer: &PathAnswer) -> (r: Result<(), RuntimeError>)
    ensures
        match r {
            Ok(_) => *answer is File,
            Err(e) => !(*answer is File) && e@ == path_fault(label@, path@, "file"@, *answer),
        },
{
    match answer {
        PathAnswer::File => Ok(()),
        _ => Err(path_error(label, path, "file", answer)),
    }
}

/// Requires a directory.
pub fn require_runtime_directory(path: &str, label: &str, answer: &PathAnswer) -> (r: Result<(), RuntimeError>)
    ensures
        match r {
            Ok(_) => *answer is Directory,
            Err(e) => !(*answer is Directory) && e@ == path_fault(label@, path@, "directory"@, *answer),
        },
{
    match answer {
        PathAnswer::Directory => Ok(()),
        _ => Err(path_error(label, path, "directory", answer)),
    }
}

/// Whether a place is the python executable: `Ok(true)` where it is a file,
/// `Ok(false)` where the next place is to be tried.
pub fn python_candidate(path: &str, answer: &PathAnswer) -> (r: Result<bool, RuntimeError>)
    ensures
        match r {
            Ok(found) => !(*answer is Failed) && found == (*answer is File),
            Err(e) => *answer is Failed && e@ == internal(
                "failed to inspect runtime python executable "@ + path@ + ": "@ + answer->Failed_0@,
            ),
        },
{
    match answer {
        PathAnswer::File => Ok(true),
        PathAnswer::Failed(err) => {
            let mut message: String = "failed to inspect runtime python executable ".to_owned();
            message.push_str(path);
            message.push_str(": ");
            message.push_str(err.as_str());
            Err(RuntimeError { kind: ErrorKind::Internal, message })
        },
        _ => Ok(false),
    }
}

/// The error where none of the places holds the python executable.
pub fn python_missing(python_root: &str) -> (r: RuntimeError)
    ensures
        r@ == bad_request("runtime python executable is missing under "@ + python_root@),
{
    let mut message: String = "runtime python executable is missing under ".to_owned();
    message.push_str(python_root);
    RuntimeError { kind: ErrorKind::InvalidParams, message }
}

/// The path of a directory that a runtime brings along, with `suffix` behind
/// it where it is not empty.
pub open spec fn contained_path(runtime_root: Seq<char>, directory: Seq<char>, suffix: Seq<char>) -> Seq<char> {
    let path = paths::joined_path(runtime_root, directory);
    if suffix.len() == 0 {
        path
    } else {
        paths::joined_path(path, suffix)
    }
}

/// Whether what a runtime brings along lies strictly inside it.
pub open spec fn is_contained(runtime_root: Seq<char>, directory: Seq<char>, suffix: Seq<char>) -> bool {
    paths::resolves_inside(contained_path(runtime_root, directory, suffix), runtime_root)
}

/// The paths of the directories that a runtime brings along. All of them must
/// lie strictly inside the runtime.
pub fn runtime_contained_paths(runtime_root: &str, directories: &Vec<String>, suffix: &str) -> (r: Result<
    Vec<String>,
    RuntimeError,
>)
    ensures
        match r {
            Ok(out) => out@.len() == directories@.len() && forall|i: int|
                0 <= i < directories@.len() ==> is_contained(runtime_root@, #[trigger] directories@[i]@, suffix@)
                    && out@[i]@ == contained_path(runtime_root@, directories@[i]@, suffix@),
            Err(e) => e@ == bad_request("runtime-contained path must stay within the runtime root"@) && exists|i: int|
                0 <= i < directories@.len() && !is_contained(runtime_root@, #[trigger] directories@[i]@, suffix@),
        },
{
    let base = paths::normalize_path(runtime_root);
    let mut out: Vec<String> = Vec::new();
    let mut i: usize = 0;
    while i < directories.len()
        invariant
            i <= directories.len(),
            out@.len() == i,
            paths::step_views(base@) == paths::resolved(paths::path_steps(runtime_root@)),
            forall|j: int|
                0 <= j < i ==> is_contained(runtime_root@, #[trigger] directories@[j]@, suffix@) && out@[j]@
                    == contained_path(runtime_root@, directories@[j]@, suffix@),
        decreases directories.len() - i,
    {
        let mut path = paths::join(runtime_root, directories[i].as_str());
        if !suffix.is_empty() {
            path = paths::join(path.as_str(), suffix);
        }
        let steps = paths::normalize_path(path.as_str());
        proof {
            let p = paths::step_views(steps@);
            let b = paths::step_views(base@);
            assert(p.len() == steps@.len() && b.len() == base@.len());
            if p.len() == b.len() {
                assert(p.take(b.len() as int) =~= p);
            }
        }
        if steps.len() > base.len() && paths::begins_with(&steps, &base) {
            out.push(path);
        } else {
            assert(!is_contained(runtime_root@, directories@[i as int]@, suffix@));
            return Err(invalid_params("runtime-contained path must stay within the runtime root"));
        }
        i = i + 1;
    }
    Ok(out)
}

/// The directories of an optional list.
pub open spec fn listed(v: Option<Vec<String>>) -> Seq<String> {
    match v {
        Some(v) => v@,
        None => Seq::empty(),
    }
}

fn list_or_empty(v: Option<Vec<String>>) -> (r: Vec<String>)
    ensures
        r@ == listed(v),
{
    match v {
        Some(v) => v,
        None => Vec::new(),
    }
}

/// Whether all of the directories lie strictly inside the runtime.
pub open spec fn all_contained(runtime_root: Seq<char>, directories: Seq<String>, suffix: Seq<char>) -> bool {
    forall|i: int| 0 <= i < directories.len() ==> is_contained(runtime_root, #[trigger] directories[i]@, suffix)
}

/// The paths of a runtime whose executables and directories were found.
pub fn finish_validation(
    runtime_root: &str,
    metadata: InstalledRuntimeMetadata,
    node_path: String,
    node_modules_path: String,
    python_path: String,
) -> (r: Result<RuntimeInstallPaths, RuntimeError>)
    ensures
        match r {
            Ok(out) => {
                &&& all_contained(runtime_root@, listed(metadata.bundled_plugins), ""@)
                &&& all_contained(runtime_root@, listed(metadata.bundled_skills), "SKILL.md"@)
                &&& out.node_path == node_path
                &&& out.node_modules_path == node_modules_path
                &&& out.python_path == python_path
                &&& out.skills_to_remove@ == listed(metadata.skills_to_remove)
                &&& out.bundled_plugin_marketplace_paths@.len() == listed(metadata.bundled_plugins).len()
                &&& forall|i: int|
                    0 <= i < listed(metadata.bundled_plugins).len() ==> (
                    #[trigger] out.bundled_plugin_marketplace_paths@[i])@ == contained_path(
                        runtime_root@,
                        listed(metadata.bundled_plugins)[i]@,
                        ""@,
                    )
                &&& out.bundled_skill_paths@.len() == listed(metadata.bundled_skills).len()
                &&& forall|i: int|
                    0 <= i < listed(metadata.bundled_skills).len() ==> (#[trigger] out.bundled_skill_paths@[i])@
                        == contained_path(runtime_root@, listed(metadata.bundled_skills)[i]@, "SKILL.md"@)
            },
            Err(e) => e@ == bad_request("runtime-contained path must stay within the runtime root"@) && !(
            all_contained(runtime_root@, listed(metadata.bundled_plugins), ""@) && all_contained(
                runtime_root@,
                listed(metadata.bundled_skills),
                "SKILL.md"@,
            )),
        },
{
    let plugins = list_or_empty(metadata.bundled_plugins);
    let skills = list_or_empty(metadata.bundled_skills);
    let bundled_plugin_marketplace_paths = match runtime_contained_paths(runtime_root, &plugins, "") {
        Ok(v) => v,
        Err(e) => return Err(e),
    };
    let bundled_skill_paths = match runtime_contained_paths(runtime_root, &skills, "SKILL.md") {
        Ok(v) => v,
        Err(e) => return Err(e),
    };
    Ok(
        RuntimeInstallPaths {
            bundled_plugin_marketplace_paths,
            bundled_skill_paths,
            node_modules_path,
            node_path,
            python_path,
            skills_to_remove: list_or_empty(metadata.skills_to_remove),
        },
    )
}

/// The first of the places that is a file; a place that cannot be inspected
/// before that is an error.
pub open spec fn python_found(
    places: Seq<Seq<char>>,
    root: Seq<char>,
    answers: Seq<PathAnswer>,
) -> Result<Seq<char>, ErrorView>
    decreases answers.len(),
{
    if answers.len() == 0 {
        Err(bad_request("runtime python executable is missing under "@ + root))
    } else {
        match answers[0] {
            PathAnswer::File => Ok(places[0]),
            PathAnswer::Failed(err) => Err(
                internal("failed to inspect runtime python executable "@ + places[0] + ": "@ + err@),
            ),
            _ => python_found(places.skip(1), root, answers.skip(1)),
        }
    }
}

/// The python executable of a runtime, given what the file system says of the
/// places where it may lie.
pub fn find_python_path(layout: &RuntimeLayout, answers: &Vec<PathAnswer>) -> (r: Result<String, RuntimeError>)
    requires
        answers@.len() == layout.python_candidates@.len(),
    ensures
        match r {
            Ok(path) => python_found(text::views(layout.python_candidates@), layout.python_root@, answers@) == Ok::<
                Seq<char>,
                ErrorView,
            >(path@),
            Err(e) => python_found(text::views(layout.python_candidates@), layout.python_root@, answers@) == Err::<
                Seq<char>,
                ErrorView,
            >(e@),
        },
{
    let ghost places = text::views(layout.python_candidates@);
    let ghost root = layout.python_root@;
    let mut i: usize = 0;
    assert(places.skip(0) =~= places && answers@.skip(0) =~= answers@);
    while i < answers.len()
        invariant
            i <= answers@.len(),
            answers@.len() == layout.python_candidates@.len(),
            places == text::views(layout.python_candidates@),
            root == layout.python_root@,
            python_found(places, root, answers@) == python_found(
                places.skip(i as int),
                root,
                answers@.skip(i as int),
            ),
        decreases answers@.len() - i,
    {
        assert(answers@.skip(i as int)[0] == answers@[i as int]);
        assert(places.skip(i as int)[0] == layout.python_candidates@[i as int]@);
        assert(answers@.skip(i as int).skip(1) =~= answers@.skip(i + 1));
        assert(places.skip(i as int).skip(1) =~= places.skip(i + 1));
        match python_candidate(layout.python_candidates[i].as_str(), &answers[i]) {
            Ok(found) => if found {
                return Ok(layout.python_candidates[i].clone());
            },
            Err(e) => return Err(e),
        }
        i = i + 1;
    }
    Err(python_missing(layout.python_root.as_str()))
}

/// What the file system says of an installed runtime: its metadata, and what is
/// at the places of its layout.
#[derive(Debug, PartialEq)]
pub struct RootAnswers {
    pub metadata: Option<InstalledRuntimeMetadata>,
    pub node: PathAnswer,
    pub node_modules: PathAnswer,
    pub python: Vec<PathAnswer>,
}

/// What is wrong with the executables of a runtime, which are looked for at the
/// given places.
pub open spec fn layout_fault(
    node: Seq<char>,
    node_modules: Seq<char>,
    python: Seq<Seq<char>>,
    python_root: Seq<char>,
    answers: RootAnswers,
) -> Option<ErrorView> {
    if !(answers.node is File) {
        Some(path_fault("node executable"@, node, "file"@, answers.node))
    } else if !(answers.node_modules is Directory) {
        Some(path_fault("node modules directory"@, node_modules, "directory"@, answers.node_modules))
    } else {
        match python_found(python, python_root, answers.python@) {
            Err(e) => Some(e),
            Ok(_) => None,
        }
    }
}

/// What is wrong with an installed runtime, if anything; the first fault counts.
pub open spec fn root_fault(
    runtime_root: Seq<char>,
    manifest_version: Option<u32>,
    platform: TargetPlatform,
    answers: RootAnswers,
) -> Option<ErrorView> {
    match answers.metadata {
        None => Some(bad_request("runtime metadata is missing"@)),
        Some(metadata) => {
            let version = format_version(manifest_version, metadata.bundle_format_version);
            let fault = layout_fault(
                node_place(runtime_root, version, platform),
                node_modules_place(runtime_root, version),
                python_places(runtime_root, version, platform),
                python_root(runtime_root, version),
                answers,
            );
            if fault is Some {
                fault
            } else if !(all_contained(runtime_root, listed(metadata.bundled_plugins), ""@) && all_contained(
                runtime_root,
                listed(metadata.bundled_skills),
                "SKILL.md"@,
            )) {
                Some(bad_request("runtime-contained path must stay within the runtime root"@))
            } else {
                None
            }
        },
    }
}

/// Whether the paths are those of the installed runtime.
pub open spec fn are_root_paths(
    out: RuntimeInstallPaths,
    runtime_root: Seq<char>,
    manifest_version: Option<u32>,
    platform: TargetPlatform,
    metadata: InstalledRuntimeMetadata,
    python: Seq<PathAnswer>,
) -> bool {
    let version = format_version(manifest_version, metadata.bundle_format_version);
    &&& out.node_path@ == node_place(runtime_root, version, platform)
    &&& out.node_modules_path@ == node_modules_place(runtime_root, version)
    &&& python_found(
        python_places(runtime_root, version, platform),
        python_root(runtime_root, version),
        python,
    ) == Ok::<Seq<char>, ErrorView>(out.python_path@)
    &&& out.skills_to_remove@ == listed(metadata.skills_to_remove)
    &&& text::views(out.bundled_plugin_marketplace_paths@) == listed(metadata.bundled_plugins).map_values(
        |d: String| contained_path(runtime_root, d@, ""@),
    )
    &&& text::views(out.bundled_skill_paths@) == listed(metadata.bundled_skills).map_values(
        |d: String| contained_path(runtime_root, d@, "SKILL.md"@),
    )
}

/// The python executable of a runtime whose executables are where they belong.
fn check_layout(layout: &RuntimeLayout, answers: &RootAnswers) -> (r: Result<String, RuntimeError>)
    requires
        answers.python@.len() == layout.python_candidates@.len(),
    ensures
        ({
            let places = text::views(layout.python_candidates@);
            let fault = layout_fault(
                layout.node_path@,
                layout.node_modules_path@,
                places,
                layout.python_root@,
                *answers,
            );
            match r {
                Ok(path) => fault is None && python_found(places, layout.python_root@, answers.python@) == Ok::<
                    Seq<char>,
                    ErrorView,
                >(path@),
                Err(e) => fault == Some(e@),
            }
        }),
{
    match require_runtime_file(layout.node_path.as_str(), "node executable", &answers.node) {
        Ok(_) => {},
        Err(e) => return Err(e),
    }
    match require_runtime_directory(
        layout.node_modules_path.as_str(),
        "node modules directory",
        &answers.node_modules,
    ) {
        Ok(_) => {},
        Err(e) => return Err(e),
    }
    find_python_path(layout, &answers.python)
}

proof fn lemma_contained_views(paths: Seq<String>, root: Seq<char>, directories: Seq<String>, suffix: Seq<char>)
    requires
        paths.len() == directories.len(),
        forall|i: int|
            0 <= i < directories.len() ==> (#[trigger] paths[i])@ == contained_path(root, directories[i]@, suffix),
    ensures
        text::views(paths) == directories.map_values(|d: String| contained_path(root, d@, suffix)),
{
    assert(text::views(paths) =~= directories.map_values(|d: String| contained_path(root, d@, suffix)));
}

proof fn lemma_python_places(root: Seq<char>, version: u32, platform: TargetPlatform)
    ensures
        python_places(root, version, platform).len() == python_places(root, 1, platform).len(),
{
}

/// The paths of an installed runtime, given what the file system says of it.
pub fn validate_runtime_root(
    runtime_root: &str,
    manifest_version: Option<u32>,
    platform: TargetPlatform,
    answers: RootAnswers,
) -> (r: Result<RuntimeInstallPaths, RuntimeError>)
    requires
        answers.python@.len() == python_places(runtime_root@, 1, platform).len(),
    ensures
        match r {
            Ok(out) => root_fault(runtime_root@, manifest_version, platform, answers) is None && are_root_paths(
                out,
                runtime_root@,
                manifest_version,
                platform,
                answers.metadata->0,
                answers.python@,
            ),
            Err(e) => root_fault(runtime_root@, manifest_version, platform, answers) == Some(e@),
        },
{
    let (version, layout) = match &answers.metadata {
        Some(metadata) => (
            metadata.bundle_format_version,
            runtime_layout(runtime_root, manifest_version, metadata.bundle_format_version, platform),
        ),
        None => return Err(invalid_params("runtime metadata is missing")),
    };
    proof {
        lemma_python_places(runtime_root@, format_version(manifest_version, version), platform);
        assert(text::views(layout.python_candidates@).len() == layout.python_candidates@.len());
    }
    let python_path = match check_layout(&layout, &answers) {
        Ok(path) => path,
        Err(e) => return Err(e),
    };
    match answers.metadata {
        None => Err(invalid_params("runtime metadata is missing")),
        Some(metadata) => {
            let ghost told = metadata;
            match finish_validation(runtime_root, metadata, layout.node_path, layout.node_modules_path, python_path) {
                Ok(out) => {
                    proof {
                        lemma_contained_views(
                            out.bundled_plugin_marketplace_paths@,
                            runtime_root@,
                            listed(told.bundled_plugins),
                            ""@,
                        );
                        lemma_contained_views(
                            out.bundled_skill_paths@,
                            runtime_root@,
                            listed(told.bundled_skills),
                            "SKILL.md"@,
                        );
                    }
                    Ok(out)
                },
                Err(e) => Err(e),
            }
        },
    }
}

/// A manifest can be used exactly where its address is not blank, its digest has
/// 64 hexadecimal digits, and the names that it gives are names and no paths.
pub proof fn law_usable_manifest(m: RuntimeInstallManifest)
    ensures
        manifest_fault(m) is None <==> {
            &&& text::trimmed(m.archive_url@).len() > 0
            &&& m.archive_sha256@.len() == 64
            &&& forall|i: int|
                0 <= i < 64 ==> ('0' <= #[trigger] m.archive_sha256@[i] <= '9' || 'a' <= m.archive_sha256@[i] <= 'f' || 'A'
                    <= m.archive_sha256@[i] <= 'F')
            &&& m.archive_name matches Some(name) ==> single_segment(name@)
            &&& m.runtime_root_directory_name matches Some(name) ==> single_segment(name@)
        },
        text::trimmed(m.archive_url@).len() == 0 ==> manifest_fault(m) == Some(
            "runtime manifest archiveUrl must not be empty"@,
        ),
        text::trimmed(m.archive_url@).len() > 0 && m.archive_sha256@.len() != 64 ==> manifest_fault(m) == Some(
            "runtime manifest archiveSha256 must be a 64-character hex digest"@,
        ),
        text::trimmed(m.archive_url@).len() > 0 && sha256_text(m.archive_sha256@) && m.archive_name is Some
            && !single_segment(m.archive_name->0@) ==> manifest_fault(m) == Some(
            "runtime manifest "@ + "archiveName"@ + " must be a single path segment"@,
        ),
        manifest_fault(m) == Some("runtime manifest archiveUrl must not be empty"@) || !(text::trimmed(
            m.archive_url@,
        ).len() == 0),
{
    assert forall|i: int| 0 <= i < m.archive_sha256@.len() implies is_hex(#[trigger] m.archive_sha256@[i]) == ('0'
        <= m.archive_sha256@[i] <= '9' || 'a' <= m.archive_sha256@[i] <= 'f' || 'A' <= m.archive_sha256@[i] <= 'F') by {}
}

/// A name is one segment of a path: it is not blank, has no slash of either kind,
/// and is not one of the two names that stand for directories.
pub proof fn law_single_segment(s: Seq<char>)
    requires
        s.len() > 0,
        !text::is_space(s[0]),
        !text::is_space(s.last()),
    ensures
        single_segment(s) <==> s != seq!['.'] && s != seq!['.', '.'] && (forall|i: int|
            0 <= i < s.len() ==> #[trigger] s[i] != '/' && s[i] != '\\'),
        !single_segment(Seq::empty()),
{
    text::lemma_trimmed_plain(s);
    text::lemma_trimmed_plain(Seq::empty());
    reveal_strlit(".");
    reveal_strlit("..");
    assert("."@ =~= seq!['.']);
    assert(".."@ =~= seq!['.', '.']);
    if single_segment(s) {
        assert forall|i: int| 0 <= i < s.len() implies #[trigger] s[i] != '/' && s[i] != '\\' by {
            assert(s.contains(s[i]));
        }
    }
}

/// A format that is named is taken in letters of either case, and no other is;
/// where none is, a name or an address that ends in `.zip` is a zip archive, and
/// everything else is the other kind.
pub proof fn law_archive_format_is_named_or_seen(m: RuntimeInstallManifest)
    ensures
        m.format matches Some(format) ==> {
            &&& archive_format(m) == Some(RuntimeArchiveFormat::TarXz) <==> text::ascii_lower(format@) == "tar.xz"@
            &&& archive_format(m) == Some(RuntimeArchiveFormat::Zip) <==> text::ascii_lower(format@) == "zip"@
            &&& archive_format(m) is None <==> text::ascii_lower(format@) != "tar.xz"@ && text::ascii_lower(format@)
                != "zip"@
        },
        m.format is None ==> archive_format(m) is Some && (archive_format(m) == Some(RuntimeArchiveFormat::Zip) <==> (
        m.archive_name matches Some(name) && text::has_suffix(text::ascii_lower(name@), ".zip"@)) || text::has_suffix(
            text::ascii_lower(m.archive_url@),
            ".zip"@,
        )),
        root_name(m) == (match m.runtime_root_directory_name {
            Some(name) => name@,
            None => "codex-primary-runtime"@,
        }),
{
    reveal_strlit("tar.xz");
    reveal_strlit("zip");
    assert("tar.xz"@.len() != "zip"@.len());
}

/// An entry that is a plain name stays in the directory; one that begins by going
/// up leaves it, and so does one that names a place of its own outside.
pub proof fn law_entry_may_not_leave(name: Seq<char>, extract_dir: Seq<char>, other: Seq<char>)
    requires
        name.len() > 0,
        !name.contains('/'),
        name != seq!['.'],
        name != seq!['.', '.'],
    ensures
        entry_stays(name, extract_dir),
        paths::resolved(paths::path_steps(extract_dir)).len() > 0 && paths::resolved(
            paths::path_steps(extract_dir),
        ).last() is Normal ==> !entry_stays(seq!['.', '.'], extract_dir),
        paths::absolute(other) ==> (entry_stays(other, extract_dir) <==> paths::resolves_under(other, extract_dir)),
{
    let steps = paths::path_steps(extract_dir);
    paths::law_joined_name_is_one_step_further(extract_dir, name);
    paths::law_going_up_undoes_a_name(steps, name);
    paths::law_dots_are_steps_of_their_own(extract_dir);
    paths::law_absolute_path_stands_for_itself(extract_dir, other);
    let base = paths::resolved(steps);
    assert(base.push(paths::Step::Normal(name)).take(base.len() as int) =~= base);
    let up = steps.push(paths::Step::ParentDir);
    assert(up.drop_last() =~= steps);
    if base.len() > 0 && base.last() is Normal {
        assert(paths::resolved(up) == base.drop_last());
    }
}

/// The version of the layout is what the manifest says, or else what the runtime
/// says, or else the first.
pub proof fn law_layout_version(manifest: Option<u32>, metadata: Option<u32>)
    ensures
        manifest matches Some(v) ==> format_version(manifest, metadata) == v,
        manifest is None ==> (metadata matches Some(v) ==> format_version(manifest, metadata) == v),
        manifest is None && metadata is None ==> format_version(manifest, metadata) == 1,
{
}

/// From the second version of the layout on, what a runtime brings lies in a
/// directory for each of its two parts; in the first, one part lies at the top.
/// Python is looked for where its platform keeps it, the usual place first.
pub proof fn law_layout_places(root: Seq<char>, version: u32)
    ensures
        ({
            let two = version >= 2;
            let dependencies = paths::joined_path(root, "dependencies"@);
            let node = if two {
                paths::joined_path(dependencies, "node"@)
            } else {
                root
            };
            let python = paths::joined_path(
                if two {
                    dependencies
                } else {
                    root
                },
                "python"@,
            );
            let bin = paths::joined_path(python, "bin"@);
            let unix = python_places(root, version, TargetPlatform::Unix);
            let windows = python_places(root, version, TargetPlatform::Windows);
            &&& node_place(root, version, TargetPlatform::Unix) == paths::joined_path(
                paths::joined_path(node, "bin"@),
                "node"@,
            )
            &&& node_place(root, version, TargetPlatform::Windows) == paths::joined_path(
                paths::joined_path(node, "bin"@),
                "node.exe"@,
            )
            &&& node_modules_place(root, version) == paths::joined_path(node, "node_modules"@)
            &&& python_root(root, version) == python
            &&& unix.len() == 2
            &&& unix[0] == paths::joined_path(bin, "python3"@)
            &&& unix[1] == paths::joined_path(bin, "python"@)
            &&& windows.len() == 3
            &&& windows[0] == paths::joined_path(python, "python.exe"@)
            &&& windows[1] == paths::joined_path(paths::joined_path(python, "python"@), "python.exe"@)
            &&& windows[2] == paths::joined_path(bin, "python.exe"@)
        }),
{
}

/// Whether the answer ends the search for Python.
pub open spec fn settles_search(answer: PathAnswer) -> bool {
    answer is File || answer is Failed
}

/// The first place that is a file is where Python is; a place before it that
/// cannot be looked at is told instead, and what is no file is passed over.
pub proof fn law_first_python_is_found(places: Seq<Seq<char>>, root: Seq<char>, answers: Seq<PathAnswer>, i: int)
    requires
        places.len() == answers.len(),
    ensures
        0 <= i < answers.len() && settles_search(answers[i]) && (forall|j: int|
            0 <= j < i ==> !settles_search(#[trigger] answers[j])) ==> python_found(places, root, answers) == (
        match answers[i] {
            PathAnswer::Failed(err) => Err(
                internal("failed to inspect runtime python executable "@ + places[i] + ": "@ + err@),
            ),
            _ => Ok(places[i]),
        }),
        (forall|j: int| 0 <= j < answers.len() ==> !settles_search(#[trigger] answers[j])) ==> python_found(
            places,
            root,
            answers,
        ) == Err::<Seq<char>, ErrorView>(bad_request("runtime python executable is missing under "@ + root)),
    decreases answers.len(),
{
    if answers.len() > 0 && !settles_search(answers[0]) {
        let rest = answers.skip(1);
        law_first_python_is_found(places.skip(1), root, rest, i - 1);
        assert forall|j: int| 0 <= j < rest.len() implies #[trigger] rest[j] == answers[j + 1] by {}
        if forall|j: int| 0 <= j < answers.len() ==> !settles_search(#[trigger] answers[j]) {
            assert forall|j: int| 0 <= j < rest.len() implies !settles_search(#[trigger] rest[j]) by {
                assert(!settles_search(answers[j + 1]));
            }
        }
        if 0 < i < answers.len() && settles_search(answers[i]) && (forall|j: int|
            0 <= j < i ==> !settles_search(#[trigger] answers[j])) {
            assert(rest[i - 1] == answers[i]);
            assert forall|j: int| 0 <= j < i - 1 implies !settles_search(#[trigger] rest[j]) by {
                assert(!settles_search(answers[j + 1]));
            }
        }
    }
}

/// A place that is missing or of the wrong kind is the fault of the request; one
/// that cannot be looked at is that of the machine.
pub proof fn law_fault_of_a_place(label: Seq<char>, path: Seq<char>, wanted: Seq<char>, answer: PathAnswer)
    ensures
        path_fault(label, path, wanted, answer).kind is Internal <==> answer is Failed,
        answer is Missing ==> path_fault(label, path, wanted, answer).message == "runtime "@ + label + " is missing: "@
            + path,
        answer matches PathAnswer::Failed(err) ==> path_fault(label, path, wanted, answer).message
            == "failed to inspect runtime "@ + label + " "@ + path + ": "@ + err@,
        answer is File || answer is Directory || answer is Other ==> path_fault(label, path, wanted, answer).message
            == "runtime "@ + label + " is not a "@ + wanted + ": "@ + path,
{
}

/// A runtime is whole exactly where it says what it is, its executable is a file
/// and its modules a directory, Python is found, and everything that it brings
/// lies inside of it.
pub proof fn law_whole_runtime(
    runtime_root: Seq<char>,
    manifest_version: Option<u32>,
    platform: TargetPlatform,
    answers: RootAnswers,
)
    requires
        answers.python@.len() == python_places(runtime_root, 1, platform).len(),
    ensures
        root_fault(runtime_root, manifest_version, platform, answers) is None <==> (answers.metadata matches Some(
            metadata,
        ) && answers.node is File && answers.node_modules is Directory && (exists|i: int|
            0 <= i < answers.python@.len() && (#[trigger] answers.python@[i]) is File && forall|j: int|
                0 <= j < i ==> !settles_search(#[trigger] answers.python@[j])) && (forall|i: int|
            0 <= i < listed(metadata.bundled_plugins).len() ==> is_contained(
                runtime_root,
                #[trigger] listed(metadata.bundled_plugins)[i]@,
                ""@,
            )) && (forall|i: int|
            0 <= i < listed(metadata.bundled_skills).len() ==> is_contained(
                runtime_root,
                #[trigger] listed(metadata.bundled_skills)[i]@,
                "SKILL.md"@,
            ))),
        answers.metadata is None ==> root_fault(runtime_root, manifest_version, platform, answers) == Some(
            bad_request("runtime metadata is missing"@),
        ),
{
    if let Some(metadata) = answers.metadata {
        let version = format_version(manifest_version, metadata.bundle_format_version);
        let places = python_places(runtime_root, version, platform);
        let root = python_root(runtime_root, version);
        lemma_python_is_found(places, root, answers.python@);
    }
}

proof fn lemma_python_is_found(places: Seq<Seq<char>>, root: Seq<char>, answers: Seq<PathAnswer>)
    requires
        places.len() == answers.len(),
    ensures
        python_found(places, root, answers) is Ok <==> exists|i: int|
            0 <= i < answers.len() && (#[trigger] answers[i]) is File && forall|j: int|
                0 <= j < i ==> !settles_search(#[trigger] answers[j]),
{
    if exists|i: int| 0 <= i < answers.len() && settles_search(#[trigger] answers[i]) {
        let i = lemma_first_settled(answers);
        law_first_python_is_found(places, root, answers, i);
        if answers[i] is Failed {
            assert forall|k: int|
                0 <= k < answers.len() && (#[trigger] answers[k]) is File && (forall|j: int|
                    0 <= j < k ==> !settles_search(#[trigger] answers[j])) implies false by {
                if i < k {
                    assert(!settles_search(answers[i]));
                } else {
                    assert(!settles_search(answers[k]));
                }
            }
        } else {
            assert(answers[i] is File);
        }
    } else {
        law_first_python_is_found(places, root, answers, 0);
    }
}

proof fn lemma_first_settled(answers: Seq<PathAnswer>) -> (i: int)
    requires
        exists|i: int| 0 <= i < answers.len() && settles_search(#[trigger] answers[i]),
    ensures
        0 <= i < answers.len(),
        settles_search(answers[i]),
        forall|j: int| 0 <= j < i ==> !settles_search(#[trigger] answers[j]),
    decreases answers.len(),
{
    if settles_search(answers[0]) {
        0
    } else {
        let rest = answers.skip(1);
        let k = choose|i: int| 0 <= i < answers.len() && settles_search(#[trigger] answers[i]);
        assert(rest[k - 1] == answers[k]);
        let i = lemma_first_settled(rest);
        assert forall|j: int| 0 <= j < i + 1 implies !settles_search(#[trigger] answers[j]) by {
            if j > 0 {
                assert(rest[j - 1] == answers[j]);
            }
        }
        i + 1
    }
}

/// A path that a runtime brings is joined to its root, with what lies in it
/// behind that; it must lie deeper than the root.
pub proof fn law_contained_path_lies_inside(runtime_root: Seq<char>, directory: Seq<char>, suffix: Seq<char>)
    ensures
        contained_path(runtime_root, directory, Seq::empty()) == paths::joined_path(runtime_root, directory),
        suffix.len() > 0 ==> contained_path(runtime_root, directory, suffix) == paths::joined_path(
            paths::joined_path(runtime_root, directory),
            suffix,
        ),
        is_contained(runtime_root, directory, suffix) ==> paths::resolved(paths::path_steps(runtime_root)).len()
            < paths::resolved(paths::path_steps(contained_path(runtime_root, directory, suffix))).len(),
        is_contained(runtime_root, directory, suffix) <==> paths::resolves_inside(
            contained_path(runtime_root, directory, suffix),
            runtime_root,
        ),
{
    paths::law_under_is_by_whole_steps(contained_path(runtime_root, directory, suffix), runtime_root);
}

} // verus!
