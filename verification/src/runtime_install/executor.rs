//! The commands of an installation and what their output says.

use vstd::prelude::*;
use vstd::utf8::*;

use crate::paths;
use crate::runtime_install::validation;
use crate::runtime_install::validation::internal_error;
use crate::runtime_install::validation::ErrorKind;
use crate::runtime_install::validation::RuntimeError;
use crate::text;

verus! {

/// The format of a runtime archive.
#[derive(Clone, Copy, Debug, PartialEq, Eq, Structural)]
pub enum RuntimeArchiveFormat {
    TarXz,
    Zip,
}

/// The kind of machine that a runtime is installed on.
#[derive(Clone, Copy, Debug, PartialEq, Eq, Structural)]
pub enum TargetPlatform {
    Unix,
    Windows,
}

impl TargetPlatform {
    /// The name under which runtimes know the platform.
    pub open spec fn name(self) -> Seq<char> {
        match self {
            TargetPlatform::Unix => "unix"@,
            TargetPlatform::Windows => "win32"@,
        }
    }

    /// The name under which runtimes know the platform.
    pub fn runtime_name(self) -> (r: &'static str)
        ensures
            r@ == self.name(),
    {
        match self {
            TargetPlatform::Unix => "unix",
            TargetPlatform::Windows => "win32",
        }
    }
}

/// Where and for what kind of machine a runtime is installed.
#[derive(Debug, PartialEq)]
pub struct InstallTarget {
    pub install_root: String,
    pub platform: TargetPlatform,
}

/// The words of a command.
fn words(parts: Vec<&str>) -> (r: Vec<String>)
    ensures
        r@.len() == parts@.len(),
        forall|i: int| 0 <= i < parts@.len() ==> (#[trigger] r@[i])@ == parts@[i]@,
{
    let mut out: Vec<String> = Vec::new();
    let mut i: usize = 0;
    while i < parts.len()
        invariant
            i <= parts.len(),
            out@.len() == i,
            forall|j: int| 0 <= j < i ==> (#[trigger] out@[j])@ == parts@[j]@,
        decreases parts.len() - i,
    {
        out.push(parts[i].to_owned());
        i = i + 1;
    }
    out
}

/// The words that run a PowerShell command with arguments.
pub open spec fn powershell(command: Seq<char>, args: Seq<Seq<char>>) -> Seq<Seq<char>> {
    seq!["powershell"@, "-NoProfile"@, "-NonInteractive"@, "-Command"@, command] + args
}

/// The command that asks a Unix machine where runtimes go.
pub open spec fn unix_target_words() -> Seq<Seq<char>> {
    seq![
        "sh"@,
        "-c"@,
        "case \"$(uname -s)\" in CYGWIN*|MINGW*|MSYS*) exit 1;; esac; test -n \"$HOME\" || exit 1; printf 'unix\\n%s/.cache/codex-runtimes\\n' \"$HOME\""@,
    ]
}

/// The command that asks a Unix machine where runtimes go.
pub fn unix_target_argv() -> (r: Vec<String>)
    ensures
        text::views(r@) == unix_target_words(),
{
    let r = words(
        vec![
            "sh",
            "-c",
            "case \"$(uname -s)\" in CYGWIN*|MINGW*|MSYS*) exit 1;; esac; test -n \"$HOME\" || exit 1; printf 'unix\\n%s/.cache/codex-runtimes\\n' \"$HOME\"",
        ],
    );
    assert(text::views(r@) =~= unix_target_words());
    r
}

/// The PowerShell command that asks a Windows machine where runtimes go.
pub const WINDOWS_TARGET_COMMAND: &'static str = "if (-not $env:USERPROFILE) { exit 1 }; [Console]::Out.WriteLine('win32'); [Console]::Out.WriteLine([IO.Path]::Combine($env:USERPROFILE, '.cache', 'codex-runtimes'))";

/// The command that asks a Windows machine where runtimes go.
pub fn windows_target_argv() -> (r: Vec<String>)
    ensures
        text::views(r@) == powershell(WINDOWS_TARGET_COMMAND@, Seq::empty()),
{
    let r = words(vec!["powershell", "-NoProfile", "-NonInteractive", "-Command", WINDOWS_TARGET_COMMAND]);
    assert(text::views(r@) =~= powershell(WINDOWS_TARGET_COMMAND@, Seq::empty()));
    r
}

/// The PowerShell command that downloads a file.
pub const WINDOWS_DOWNLOAD_COMMAND: &'static str = "$ProgressPreference = 'SilentlyContinue'; Invoke-WebRequest -UseBasicParsing -Uri $args[0] -OutFile $args[1]";

/// The command that downloads the archive.
pub fn download_argv(platform: TargetPlatform, url: &str, destination: &str) -> (r: Vec<String>)
    ensures
        text::views(r@) == (match platform {
            TargetPlatform::Unix => seq![
                "curl"@,
                "--fail"@,
                "--location"@,
                "--silent"@,
                "--show-error"@,
                "--output"@,
                destination@,
                url@,
            ],
            TargetPlatform::Windows => powershell(WINDOWS_DOWNLOAD_COMMAND@, seq![url@, destination@]),
        }),
{
    match platform {
        TargetPlatform::Unix => {
            let r = words(
                vec!["curl", "--fail", "--location", "--silent", "--show-error", "--output", destination, url],
            );
            assert(text::views(r@) =~= seq![
                "curl"@,
                "--fail"@,
                "--location"@,
                "--silent"@,
                "--show-error"@,
                "--output"@,
                destination@,
                url@,
            ]);
            r
        },
        TargetPlatform::Windows => {
            let r = words(
                vec![
                    "powershell",
                    "-NoProfile",
                    "-NonInteractive",
                    "-Command",
                    WINDOWS_DOWNLOAD_COMMAND,
                    url,
                    destination,
                ],
            );
            assert(text::views(r@) =~= powershell(WINDOWS_DOWNLOAD_COMMAND@, seq![url@, destination@]));
            r
        },
    }
}

/// The shell command that prints a SHA-256 digest.
pub const UNIX_CHECKSUM_COMMAND: &'static str = "if command -v sha256sum >/dev/null 2>&1; then sha256sum \"$1\"; else shasum -a 256 \"$1\"; fi";

/// The PowerShell command that prints a SHA-256 digest.
pub const WINDOWS_CHECKSUM_COMMAND: &'static str = "[Console]::Out.WriteLine((Get-FileHash -LiteralPath $args[0] -Algorithm SHA256).Hash)";

/// The command that prints the digest of the archive.
pub fn checksum_argv(platform: TargetPlatform, archive_path: &str) -> (r: Vec<String>)
    ensures
        text::views(r@) == (match platform {
            TargetPlatform::Unix => seq!["sh"@, "-c"@, UNIX_CHECKSUM_COMMAND@, "runtime-checksum"@, archive_path@],
            TargetPlatform::Windows => powershell(WINDOWS_CHECKSUM_COMMAND@, seq![archive_path@]),
        }),
{
    match platform {
        TargetPlatform::Unix => {
            let r = words(vec!["sh", "-c", UNIX_CHECKSUM_COMMAND, "runtime-checksum", archive_path]);
            assert(text::views(r@) =~= seq![
                "sh"@,
                "-c"@,
                UNIX_CHECKSUM_COMMAND@,
                "runtime-checksum"@,
                archive_path@,
            ]);
            r
        },
        TargetPlatform::Windows => {
            let r = words(
                vec![
                    "powershell",
                    "-NoProfile",
                    "-NonInteractive",
                    "-Command",
                    WINDOWS_CHECKSUM_COMMAND,
                    archive_path,
                ],
            );
            assert(text::views(r@) =~= powershell(WINDOWS_CHECKSUM_COMMAND@, seq![archive_path@]));
            r
        },
    }
}

/// The PowerShell command that lists a zip archive.
pub const WINDOWS_LIST_COMMAND: &'static str = "Add-Type -AssemblyName System.IO.Compression.FileSystem; $archive = [IO.Compression.ZipFile]::OpenRead($args[0]); try { $archive.Entries | ForEach-Object { [Console]::Out.WriteLine($_.FullName) } } finally { $archive.Dispose() }";

/// The command that lists the archive.
pub fn list_argv(format: RuntimeArchiveFormat, platform: TargetPlatform, archive_path: &str) -> (r: Vec<String>)
    ensures
        text::views(r@) == (match (format, platform) {
            (RuntimeArchiveFormat::TarXz, _) => seq!["tar"@, "-tf"@, archive_path@],
            (RuntimeArchiveFormat::Zip, TargetPlatform::Unix) => seq!["unzip"@, "-Z1"@, archive_path@],
            (RuntimeArchiveFormat::Zip, TargetPlatform::Windows) => powershell(
                WINDOWS_LIST_COMMAND@,
                seq![archive_path@],
            ),
        }),
{
    match (format, platform) {
        (RuntimeArchiveFormat::TarXz, _) => {
            let r = words(vec!["tar", "-tf", archive_path]);
            assert(text::views(r@) =~= seq!["tar"@, "-tf"@, archive_path@]);
            r
        },
        (RuntimeArchiveFormat::Zip, TargetPlatform::Unix) => {
            let r = words(vec!["unzip", "-Z1", archive_path]);
            assert(text::views(r@) =~= seq!["unzip"@, "-Z1"@, archive_path@]);
            r
        },
        (RuntimeArchiveFormat::Zip, TargetPlatform::Windows) => {
            let r = words(
                vec![
                    "powershell",
                    "-NoProfile",
                    "-NonInteractive",
                    "-Command",
                    WINDOWS_LIST_COMMAND,
                    archive_path,
                ],
            );
            assert(text::views(r@) =~= powershell(WINDOWS_LIST_COMMAND@, seq![archive_path@]));
            r
        },
    }
}

/// The PowerShell command that extracts a zip archive.
pub const WINDOWS_EXTRACT_COMMAND: &'static str = "Expand-Archive -LiteralPath $args[0] -DestinationPath $args[1] -Force";

/// The command that extracts the archive.
pub fn extract_argv(format: RuntimeArchiveFormat, platform: TargetPlatform, archive_path: &str, extract_dir: &str) -> (r:
    Vec<String>)
    ensures
        text::views(r@) == (match (format, platform) {
            (RuntimeArchiveFormat::TarXz, _) => seq!["tar"@, "-xJf"@, archive_path@, "-C"@, extract_dir@],
            (RuntimeArchiveFormat::Zip, TargetPlatform::Unix) => seq![
                "unzip"@,
                "-q"@,
                archive_path@,
                "-d"@,
                extract_dir@,
            ],
            (RuntimeArchiveFormat::Zip, TargetPlatform::Windows) => powershell(
                WINDOWS_EXTRACT_COMMAND@,
                seq![archive_path@, extract_dir@],
            ),
        }),
{
    match (format, platform) {
        (RuntimeArchiveFormat::TarXz, _) => {
            let r = words(vec!["tar", "-xJf", archive_path, "-C", extract_dir]);
            assert(text::views(r@) =~= seq!["tar"@, "-xJf"@, archive_path@, "-C"@, extract_dir@]);
            r
        },
        (RuntimeArchiveFormat::Zip, TargetPlatform::Unix) => {
            let r = words(vec!["unzip", "-q", archive_path, "-d", extract_dir]);
            assert(text::views(r@) =~= seq!["unzip"@, "-q"@, archive_path@, "-d"@, extract_dir@]);
            r
        },
        (RuntimeArchiveFormat::Zip, TargetPlatform::Windows) => {
            let r = words(
                vec![
                    "powershell",
                    "-NoProfile",
                    "-NonInteractive",
                    "-Command",
                    WINDOWS_EXTRACT_COMMAND,
                    archive_path,
                    extract_dir,
                ],
            );
            assert(text::views(r@) =~= powershell(WINDOWS_EXTRACT_COMMAND@, seq![archive_path@, extract_dir@]));
            r
        },
    }
}

/// The PowerShell command that moves a directory.
pub const WINDOWS_MOVE_COMMAND: &'static str = "Move-Item -LiteralPath $args[0] -Destination $args[1]";

/// The command that moves a directory.
pub fn move_argv(platform: TargetPlatform, source: &str, destination: &str) -> (r: Vec<String>)
    ensures
        text::views(r@) == (match platform {
            TargetPlatform::Unix => seq!["mv"@, source@, destination@],
            TargetPlatform::Windows => powershell(WINDOWS_MOVE_COMMAND@, seq![source@, destination@]),
        }),
{
    match platform {
        TargetPlatform::Unix => {
            let r = words(vec!["mv", source, destination]);
            assert(text::views(r@) =~= seq!["mv"@, source@, destination@]);
            r
        },
        TargetPlatform::Windows => {
            let r = words(
                vec![
                    "powershell",
                    "-NoProfile",
                    "-NonInteractive",
                    "-Command",
                    WINDOWS_MOVE_COMMAND,
                    source,
                    destination,
                ],
            );
            assert(text::views(r@) =~= powershell(WINDOWS_MOVE_COMMAND@, seq![source@, destination@]));
            r
        },
    }
}

// ---------------------------------------------------------------------
// Output
// ---------------------------------------------------------------------

/// The digest in the output of the checksum command: its first word.
pub fn parse_checksum(output: &str) -> (r: Result<String, RuntimeError>)
    ensures
        match r {
            Ok(digest) => text::first_word_of(output@) == Some(digest@),
            Err(e) => text::first_word_of(output@) is None && e@ == validation::internal(
                "checksum runtime archive returned no digest"@,
            ),
        },
{
    match text::first_word(output) {
        Some(word) => Ok(word),
        None => Err(internal_error("checksum runtime archive returned no digest")),
    }
}

/// The lines, trimmed, that are not blank.
pub open spec fn entries_in(lines: Seq<Seq<char>>) -> Seq<Seq<char>>
    decreases lines.len(),
{
    if lines.len() == 0 {
        Seq::empty()
    } else {
        let before = entries_in(lines.drop_last());
        let t = text::trimmed(lines.last());
        if t.len() == 0 {
            before
        } else {
            before.push(t)
        }
    }
}

/// The entries in the output of the listing command.
pub fn parse_entries(output: &str) -> (r: Vec<String>)
    ensures
        text::views(r@) == entries_in(text::lines_of(output@)),
{
    let lines = text::lines(output);
    let ghost all = text::lines_of(output@);
    let mut out: Vec<String> = Vec::new();
    let mut i: usize = 0;
    assert(all.take(0) =~= Seq::<Seq<char>>::empty());
    assert(text::views(out@) =~= Seq::<Seq<char>>::empty());
    while i < lines.len()
        invariant
            i <= lines.len(),
            all == text::views(lines@),
            text::views(out@) == entries_in(all.take(i as int)),
        decreases lines.len() - i,
    {
        let t = text::trim(lines[i].as_str());
        let ghost before = out@;
        proof {
            assert(all.take(i + 1).drop_last() =~= all.take(i as int));
            assert(all.take(i + 1).last() == lines@[i as int]@);
            assert(text::views(before.push(t)) =~= text::views(before).push(t@));
        }
        if !t.as_str().is_empty() {
            out.push(t);
        }
        i = i + 1;
    }
    assert(all.take(all.len() as int) =~= all);
    out
}

/// The platform that a line names.
pub open spec fn named_platform(line: Seq<char>) -> Option<TargetPlatform> {
    let t = text::trimmed(line);
    if t == "unix"@ {
        Some(TargetPlatform::Unix)
    } else if t == "win32"@ {
        Some(TargetPlatform::Windows)
    } else {
        None
    }
}

/// Whether the path is absolute on the platform: it starts at the root, or on
/// Windows at the root of a drive or at a share.
pub open spec fn rooted_on(platform: TargetPlatform, path: Seq<char>) -> bool {
    match platform {
        TargetPlatform::Unix => paths::absolute(path),
        TargetPlatform::Windows => {
            ||| path.len() >= 3 && path[1] == ':' && (path[2] == '\\' || path[2] == '/') && ('a' <= path[0] <= 'z'
                || 'A' <= path[0] <= 'Z')
            ||| path.len() >= 2 && path[0] == '\\' && path[1] == '\\'
        },
    }
}

/// Whether the path is absolute on the platform.
pub fn is_rooted_on(platform: TargetPlatform, path: &str) -> (r: bool)
    ensures
        r == rooted_on(platform, path@),
{
    match platform {
        TargetPlatform::Unix => paths::is_absolute(path),
        TargetPlatform::Windows => {
            let v = text::char_vec(path);
            (v.len() >= 3 && v[1] == ':' && (v[2] == '\\' || v[2] == '/') && (('a' <= v[0] && v[0] <= 'z') || ('A'
                <= v[0] && v[0] <= 'Z'))) || (v.len() >= 2 && v[0] == '\\' && v[1] == '\\')
        },
    }
}

/// What is wrong with the answer to the question where runtimes go.
pub open spec fn target_fault(lines: Seq<Seq<char>>) -> Option<Seq<char>> {
    if lines.len() == 0 || named_platform(lines[0]) is None {
        Some("runtime install environment returned invalid platform"@)
    } else if lines.len() < 2 || text::trimmed(lines[1]).len() == 0 {
        Some("runtime install environment returned no install root"@)
    } else if !rooted_on(named_platform(lines[0])->0, text::trimmed(lines[1])) {
        Some("runtime install root is not absolute: "@ + text::trimmed(lines[1]))
    } else {
        None
    }
}

/// Whether it is what the answer to the question where runtimes go says.
pub open spec fn is_target(r: Result<InstallTarget, RuntimeError>, output: Seq<char>) -> bool {
    let lines = text::lines_of(output);
    match r {
        Ok(target) => target_fault(lines) is None && named_platform(lines[0]) == Some(target.platform)
            && target.install_root@ == text::trimmed(lines[1]),
        Err(e) => target_fault(lines) is Some && e@ == validation::internal(target_fault(lines)->0),
    }
}

/// Reads the answer to the question where runtimes go: the platform on the
/// first line and the root, an absolute path, on the second.
pub fn parse_install_target(output: &str) -> (r: Result<InstallTarget, RuntimeError>)
    ensures
        is_target(r, output@),
{
    let lines = text::lines(output);
    let ghost all = text::lines_of(output@);
    assert(all.len() == lines@.len());
    if lines.len() == 0 {
        return Err(internal_error("runtime install environment returned invalid platform"));
    }
    assert(all[0] == lines@[0]@);
    let first = text::trim(lines[0].as_str());
    let platform = if text::str_eq(first.as_str(), "unix") {
        TargetPlatform::Unix
    } else if text::str_eq(first.as_str(), "win32") {
        TargetPlatform::Windows
    } else {
        return Err(internal_error("runtime install environment returned invalid platform"));
    };
    if lines.len() < 2 {
        return Err(internal_error("runtime install environment returned no install root"));
    }
    assert(all[1] == lines@[1]@);
    let install_root = text::trim(lines[1].as_str());
    if install_root.as_str().is_empty() {
        return Err(internal_error("runtime install environment returned no install root"));
    }
    if !is_rooted_on(platform, install_root.as_str()) {
        let mut message: String = "runtime install root is not absolute: ".to_owned();
        message.push_str(install_root.as_str());
        return Err(RuntimeError { kind: ErrorKind::Internal, message });
    }
    Ok(InstallTarget { install_root, platform })
}

// ---------------------------------------------------------------------
// Running one command
// ---------------------------------------------------------------------

/// The error of an installation that was canceled.
pub fn runtime_install_canceled() -> (r: RuntimeError)
    ensures
        r@ == validation::internal("runtime install canceled"@),
{
    internal_error("runtime install canceled")
}

/// Requires that the installation was not canceled.
pub fn ensure_not_cancelled(cancelled: bool) -> (r: Result<(), RuntimeError>)
    ensures
        match r {
            Ok(_) => !cancelled,
            Err(e) => cancelled && e@ == validation::internal("runtime install canceled"@),
        },
{
    if cancelled {
        Err(runtime_install_canceled())
    } else {
        Ok(())
    }
}

/// What follows the question where runtimes go, asked as on Unix.
#[derive(Debug, PartialEq)]
pub enum Discovery {
    Done(Result<InstallTarget, RuntimeError>),
    /// Ask as on Windows.
    TryWindows,
}

/// What follows the question where runtimes go, asked as on Unix: an answer
/// counts, and where there is none the question is asked as on Windows.
pub fn after_unix_target(output: Result<String, RuntimeError>, cancelled: bool) -> (r: Discovery)
    ensures
        match output {
            Ok(output) => r matches Discovery::Done(target) && is_target(target, output@),
            Err(_) => if cancelled {
                r matches Discovery::Done(Err(e)) && e@ == validation::internal("runtime install canceled"@)
            } else {
                r is TryWindows
            },
        },
{
    match output {
        Ok(output) => Discovery::Done(parse_install_target(output.as_str())),
        Err(_) => if cancelled {
            Discovery::Done(Err(runtime_install_canceled()))
        } else {
            Discovery::TryWindows
        },
    }
}

/// What happens while a command runs.
#[derive(Debug, PartialEq)]
pub enum ProcessEvent {
    Stdout(Vec<u8>),
    Stderr(Vec<u8>),
    Pty(Vec<u8>),
    Exited(i32),
    Closed,
    Failed(String),
    StreamFailed(String),
    Cancelled,
}

/// What a running command has said so far.
#[derive(Debug, PartialEq)]
pub struct CommandRun {
    pub stdout: Vec<u8>,
    pub stderr: Vec<u8>,
    pub exit_code: Option<i32>,
}

/// How a command goes on.
#[derive(Debug, PartialEq)]
pub enum RunStep {
    Running(CommandRun),
    Done(Result<String, RuntimeError>),
}

/// The message of a command that did not succeed.
pub open spec fn failed_message(operation: Seq<char>, exit_code: Option<i32>, stderr: Seq<u8>) -> Seq<char> {
    operation + " failed (exit code "@ + text::signed_decimal(
        match exit_code {
            Some(code) => code as int,
            None => -1,
        },
    ) + "): "@ + text::trimmed(text::lossy_text(stderr))
}

impl CommandRun {
    /// A command that has said nothing.
    pub fn new() -> (r: CommandRun)
        ensures
            r.stdout@.len() == 0,
            r.stderr@.len() == 0,
            r.exit_code is None,
    {
        CommandRun { stdout: Vec::new(), stderr: Vec::new(), exit_code: None }
    }

    /// What is left once the output is closed: the standard output of a
    /// command that exited with zero, and otherwise an error.
    pub fn close(self, operation: &str) -> (r: Result<String, RuntimeError>)
        ensures
            match r {
                Ok(s) => self.exit_code == Some(0i32) && valid_utf8(self.stdout@) && s@ == decode_utf8(self.stdout@),
                Err(e) => e.kind is Internal && if self.exit_code == Some(0i32) {
                    !valid_utf8(self.stdout@) && e.message@ == operation@ + " returned invalid UTF-8: "@
                        + text::utf8_fault(self.stdout@)
                } else {
                    e.message@ == failed_message(operation@, self.exit_code, self.stderr@)
                },
            },
    {
        let code: i32 = match self.exit_code {
            Some(code) => code,
            None => -1,
        };
        if self.exit_code.is_some() && code == 0 {
            return match text::from_utf8(self.stdout) {
                Ok(s) => Ok(s),
                Err(err) => {
                    let mut message: String = operation.to_owned();
                    message.push_str(" returned invalid UTF-8: ");
                    message.push_str(err.as_str());
                    Err(RuntimeError { kind: ErrorKind::Internal, message })
                },
            };
        }
        let stderr = text::from_utf8_lossy(self.stderr.as_slice());
        let trimmed = text::trim(stderr.as_str());
        let mut message: String = operation.to_owned();
        message.push_str(" failed (exit code ");
        text::push_signed_decimal(&mut message, code as i64);
        message.push_str("): ");
        message.push_str(trimmed.as_str());
        Err(RuntimeError { kind: ErrorKind::Internal, message })
    }

    /// Takes in one event.
    pub fn on_event(self, event: ProcessEvent, operation: &str) -> (r: RunStep)
        ensures
            match event {
                ProcessEvent::Stdout(bytes) => r matches RunStep::Running(run) && run.stdout@ == self.stdout@ + bytes@
                    && run.stderr == self.stderr && run.exit_code == self.exit_code,
                ProcessEvent::Stderr(bytes) | ProcessEvent::Pty(bytes) => r matches RunStep::Running(run) && run.stdout
                    == self.stdout && run.stderr@ == self.stderr@ + bytes@ && run.exit_code == self.exit_code,
                ProcessEvent::Exited(code) => r matches RunStep::Running(run) && run.stdout == self.stdout
                    && run.stderr == self.stderr && run.exit_code == Some(code),
                ProcessEvent::Closed => r matches RunStep::Done(result) && match result {
                    Ok(s) => self.exit_code == Some(0i32) && valid_utf8(self.stdout@) && s@ == decode_utf8(
                        self.stdout@,
                    ),
                    Err(e) => e.kind is Internal && if self.exit_code == Some(0i32) {
                        !valid_utf8(self.stdout@) && e.message@ == operation@ + " returned invalid UTF-8: "@
                            + text::utf8_fault(self.stdout@)
                    } else {
                        e.message@ == failed_message(operation@, self.exit_code, self.stderr@)
                    },
                },
                ProcessEvent::Failed(message) => r matches RunStep::Done(Err(e)) && e@ == validation::internal(
                    operation@ + " process failed: "@ + message@,
                ),
                ProcessEvent::StreamFailed(message) => r matches RunStep::Done(Err(e)) && e@ == validation::internal(
                    operation@ + " output stream failed: "@ + message@,
                ),
                ProcessEvent::Cancelled => r matches RunStep::Done(Err(e)) && e@ == validation::internal(
                    "runtime install canceled"@,
                ),
            },
    {
        match event {
            ProcessEvent::Stdout(bytes) => {
                let mut run = self;
                let mut bytes = bytes;
                run.stdout.append(&mut bytes);
                RunStep::Running(run)
            },
            ProcessEvent::Stderr(bytes) => {
                let mut run = self;
                let mut bytes = bytes;
                run.stderr.append(&mut bytes);
                RunStep::Running(run)
            },
            ProcessEvent::Pty(bytes) => {
                let mut run = self;
                let mut bytes = bytes;
                run.stderr.append(&mut bytes);
                RunStep::Running(run)
            },
            ProcessEvent::Exited(code) => RunStep::Running(CommandRun { exit_code: Some(code), ..self }),
            ProcessEvent::Closed => RunStep::Done(self.close(operation)),
            ProcessEvent::Failed(message) => {
                let mut out: String = operation.to_owned();
                out.push_str(" process failed: ");
                out.push_str(message.as_str());
                RunStep::Done(Err(RuntimeError { kind: ErrorKind::Internal, message: out }))
            },
            ProcessEvent::StreamFailed(message) => {
                let mut out: String = operation.to_owned();
                out.push_str(" output stream failed: ");
                out.push_str(message.as_str());
                RunStep::Done(Err(RuntimeError { kind: ErrorKind::Internal, message: out }))
            },
            ProcessEvent::Cancelled => RunStep::Done(Err(runtime_install_canceled())),
        }
    }
}

/// The entries of an archive are the lines that are not blank, in order, without
/// the white space around them.
pub proof fn law_entries_are_the_lines(a: Seq<Seq<char>>, b: Seq<Seq<char>>, line: Seq<char>)
    ensures
        entries_in(a + b) == entries_in(a) + entries_in(b),
        text::trimmed(line).len() > 0 ==> entries_in(seq![line]) == seq![text::trimmed(line)],
        text::trimmed(line).len() == 0 ==> entries_in(seq![line]) == Seq::<Seq<char>>::empty(),
    decreases b.len(),
{
    reveal_with_fuel(entries_in, 2);
    assert(seq![line].drop_last() =~= Seq::<Seq<char>>::empty());
    assert(entries_in(Seq::<Seq<char>>::empty()) =~= Seq::<Seq<char>>::empty());
    if text::trimmed(line).len() > 0 {
        assert(entries_in(seq![line]) =~= seq![text::trimmed(line)]);
    }
    if b.len() == 0 {
        assert(a + b =~= a);
        assert(entries_in(a + b) =~= entries_in(a) + entries_in(b));
    } else {
        law_entries_are_the_lines(a, b.drop_last(), line);
        assert((a + b).drop_last() =~= a + b.drop_last());
        assert(entries_in(a + b) =~= entries_in(a) + entries_in(b));
    }
}

/// A platform is named by its own name and nothing else, white space around it
/// aside.
pub proof fn law_platform_names(line: Seq<char>)
    ensures
        named_platform(line) == Some(TargetPlatform::Unix) <==> text::trimmed(line) == "unix"@,
        named_platform(line) == Some(TargetPlatform::Windows) <==> text::trimmed(line) == "win32"@,
        TargetPlatform::Unix.name() == "unix"@,
        TargetPlatform::Windows.name() == "win32"@,
{
    reveal_strlit("unix");
    reveal_strlit("win32");
    assert("unix"@.len() != "win32"@.len());
}

/// A machine says where to install exactly where its first line names a platform
/// and its second a directory that is absolute there; of several faults the first
/// is told.
pub proof fn law_install_target(lines: Seq<Seq<char>>)
    ensures
        target_fault(lines) is None <==> lines.len() >= 2 && {
            let platform = text::trimmed(lines[0]);
            let root = text::trimmed(lines[1]);
            &&& platform == "unix"@ || platform == "win32"@
            &&& root.len() > 0
            &&& platform == "unix"@ ==> root[0] == '/'
            &&& platform == "win32"@ ==> (root.len() >= 3 && ('a' <= root[0] <= 'z' || 'A' <= root[0] <= 'Z') && root[1]
                == ':' && (root[2] == '/' || root[2] == '\\')) || (root.len() >= 2 && root[0] == '\\' && root[1]
                == '\\')
        },
        lines.len() == 0 || (text::trimmed(lines[0]) != "unix"@ && text::trimmed(lines[0]) != "win32"@) ==> target_fault(
            lines,
        ) == Some("runtime install environment returned invalid platform"@),
        lines.len() >= 1 && text::trimmed(lines[0]) == "unix"@ && (lines.len() == 1 || text::trimmed(lines[1]).len()
            == 0) ==> target_fault(lines) == Some("runtime install environment returned no install root"@),
        lines.len() >= 2 && text::trimmed(lines[0]) == "unix"@ && text::trimmed(lines[1]).len() > 0 && text::trimmed(
            lines[1],
        )[0] != '/' ==> target_fault(lines) == Some(
            "runtime install root is not absolute: "@ + text::trimmed(lines[1]),
        ),
{
    if lines.len() > 0 {
        law_platform_names(lines[0]);
    }
    reveal_strlit("unix");
    reveal_strlit("win32");
    assert("unix"@.len() != "win32"@.len());
}

/// What is read from a machine is what its two lines say.
pub proof fn law_target_is_what_was_said(r: Result<InstallTarget, RuntimeError>, output: Seq<char>)
    requires
        is_target(r, output),
    ensures
        r matches Ok(target) ==> target.install_root@ == text::trimmed(text::lines_of(output)[1]) && (target.platform
            is Windows <==> text::trimmed(text::lines_of(output)[0]) == "win32"@),
        r is Ok <==> target_fault(text::lines_of(output)) is None,
        r matches Err(e) ==> e.kind is Internal,
{
    if text::lines_of(output).len() > 0 {
        law_platform_names(text::lines_of(output)[0]);
    }
}

/// A command that failed is told with its exit code, or -1 where it has none, and
/// with what it wrote to say why.
pub proof fn law_failed_command_is_told(operation: Seq<char>, code: i32, stderr: Seq<u8>)
    ensures
        failed_message(operation, Some(code), stderr) == operation + " failed (exit code "@ + text::signed_decimal(
            code as int,
        ) + "): "@ + text::trimmed(text::lossy_text(stderr)),
        failed_message(operation, None, stderr) == failed_message(operation, Some(-1i32), stderr),
{
}

/// PowerShell is run without a profile and without asking, and is given the
/// command and then what the command is about.
pub proof fn law_powershell_words(command: Seq<char>, args: Seq<Seq<char>>, i: int)
    ensures
        powershell(command, args).len() == 5 + args.len(),
        powershell(command, args)[0] == "powershell"@,
        powershell(command, args)[1] == "-NoProfile"@,
        powershell(command, args)[2] == "-NonInteractive"@,
        powershell(command, args)[3] == "-Command"@,
        powershell(command, args)[4] == command,
        0 <= i < args.len() ==> powershell(command, args)[5 + i] == args[i],
{
}

} // verus!
