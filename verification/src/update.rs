//! Whether a newer release is out, and how to get it.

use vstd::prelude::*;

use crate::shell_command::quoting;
use crate::text;

verus! {

// ---------------------------------------------------------------------
// How to update
// ---------------------------------------------------------------------

/// The system that a standalone installation is made for.
#[derive(Clone, Copy, Debug, PartialEq, Eq, Structural)]
pub enum StandalonePlatform {
    Unix,
    Windows,
}

/// How the program was installed.
#[derive(Clone, Copy, Debug, PartialEq, Eq, Structural)]
pub enum InstallMethod {
    Npm,
    Bun,
    Brew,
    Standalone { platform: StandalonePlatform },
    Other,
}

/// What is known of the installation.
#[derive(Clone, Copy, Debug, PartialEq, Eq, Structural)]
pub struct InstallContext {
    pub method: InstallMethod,
}

/// The command that updates an installation.
#[derive(Clone, Copy, Debug, PartialEq, Eq, Structural)]
pub enum UpdateAction {
    NpmGlobalLatest,
    BunGlobalLatest,
    BrewUpgrade,
    StandaloneUnix,
    StandaloneWindows,
}

impl UpdateAction {
    /// The command that updates the installation, where there is one.
    pub fn from_install_context(context: &InstallContext) -> (r: Option<Self>)
        ensures
            r == (match context.method {
                InstallMethod::Npm => Some(UpdateAction::NpmGlobalLatest),
                InstallMethod::Bun => Some(UpdateAction::BunGlobalLatest),
                InstallMethod::Brew => Some(UpdateAction::BrewUpgrade),
                InstallMethod::Standalone { platform: StandalonePlatform::Unix } => Some(UpdateAction::StandaloneUnix),
                InstallMethod::Standalone { platform: StandalonePlatform::Windows } => Some(
                    UpdateAction::StandaloneWindows,
                ),
                InstallMethod::Other => None,
            }),
    {
        match context.method {
            InstallMethod::Npm => Some(UpdateAction::NpmGlobalLatest),
            InstallMethod::Bun => Some(UpdateAction::BunGlobalLatest),
            InstallMethod::Brew => Some(UpdateAction::BrewUpgrade),
            InstallMethod::Standalone { platform } => match platform {
                StandalonePlatform::Unix => Some(UpdateAction::StandaloneUnix),
                StandalonePlatform::Windows => Some(UpdateAction::StandaloneWindows),
            },
            InstallMethod::Other => None,
        }
    }

    /// The program to run.
    pub open spec fn program(self) -> Seq<char> {
        match self {
            UpdateAction::NpmGlobalLatest => "npm"@,
            UpdateAction::BunGlobalLatest => "bun"@,
            UpdateAction::BrewUpgrade => "brew"@,
            UpdateAction::StandaloneUnix => "sh"@,
            UpdateAction::StandaloneWindows => "powershell"@,
        }
    }

    /// The arguments of the program.
    pub open spec fn arguments(self) -> Seq<Seq<char>> {
        match self {
            UpdateAction::NpmGlobalLatest => seq!["install"@, "-g"@, "@openai/codex"@],
            UpdateAction::BunGlobalLatest => seq!["install"@, "-g"@, "@openai/codex"@],
            UpdateAction::BrewUpgrade => seq!["upgrade"@, "--cask"@, "codex"@],
            UpdateAction::StandaloneUnix => seq![
                "-c"@,
                "curl -fsSL https://chatgpt.com/codex/install.sh | CODEX_NON_INTERACTIVE=1 sh"@,
            ],
            UpdateAction::StandaloneWindows => seq![
                "-ExecutionPolicy"@,
                "Bypass"@,
                "-c"@,
                "$env:CODEX_NON_INTERACTIVE=1; irm https://chatgpt.com/codex/install.ps1 | iex"@,
            ],
        }
    }

    /// The program to run and its arguments.
    pub fn command_args(self) -> (r: (&'static str, Vec<String>))
        ensures
            r.0@ == self.program(),
            text::views(r.1@) == self.arguments(),
    {
        let mut args: Vec<String> = Vec::new();
        let program = match self {
            UpdateAction::NpmGlobalLatest => {
                args.push("install".to_string());
                args.push("-g".to_string());
                args.push("@openai/codex".to_string());
                "npm"
            },
            UpdateAction::BunGlobalLatest => {
                args.push("install".to_string());
                args.push("-g".to_string());
                args.push("@openai/codex".to_string());
                "bun"
            },
            UpdateAction::BrewUpgrade => {
                args.push("upgrade".to_string());
                args.push("--cask".to_string());
                args.push("codex".to_string());
                "brew"
            },
            UpdateAction::StandaloneUnix => {
                args.push("-c".to_string());
                args.push(
                    "curl -fsSL https://chatgpt.com/codex/install.sh | CODEX_NON_INTERACTIVE=1 sh".to_string(),
                );
                "sh"
            },
            UpdateAction::StandaloneWindows => {
                args.push("-ExecutionPolicy".to_string());
                args.push("Bypass".to_string());
                args.push("-c".to_string());
                args.push(
                    "$env:CODEX_NON_INTERACTIVE=1; irm https://chatgpt.com/codex/install.ps1 | iex".to_string(),
                );
                "powershell"
            },
        };
        assert(text::views(args@) =~= self.arguments());
        (program, args)
    }

    /// The words of the command.
    pub open spec fn words(self) -> Seq<Seq<char>> {
        seq![self.program()] + self.arguments()
    }

    /// The command as it is typed into a shell.
    pub fn command_str(self) -> (r: String)
        ensures
            r@ == quoting::quoted_words(self.words()),
    {
        let (program, args) = self.command_args();
        let mut words: Vec<String> = Vec::new();
        words.push(program.to_string());
        let mut i: usize = 0;
        assert(text::views(words@) =~= seq![self.program()] + self.arguments().take(0));
        while i < args.len()
            invariant
                i <= args@.len(),
                text::views(args@) == self.arguments(),
                text::views(words@) == seq![self.program()] + self.arguments().take(i as int),
            decreases args@.len() - i,
        {
            let ghost held = text::views(words@);
            words.push(args[i].clone());
            proof {
                assert(self.arguments()[i as int] == args@[i as int]@);
                assert(text::views(words@) =~= held.push(args@[i as int]@));
                assert(text::views(words@) =~= seq![self.program()] + self.arguments().take(i + 1));
            }
            i = i + 1;
        }
        proof {
            assert(self.arguments().take(args@.len() as int) =~= self.arguments());
            self.lemma_no_zero();
        }
        match quoting::join_words(&words) {
            Some(command) => command,
            None => text::join(&words, " "),
        }
    }

    proof fn lemma_no_zero(self)
        ensures
            !quoting::holds_zero(self.words()),
    {
        reveal_strlit("npm");
        reveal_strlit("bun");
        reveal_strlit("brew");
        reveal_strlit("sh");
        reveal_strlit("powershell");
        reveal_strlit("install");
        reveal_strlit("-g");
        reveal_strlit("@openai/codex");
        reveal_strlit("upgrade");
        reveal_strlit("--cask");
        reveal_strlit("codex");
        reveal_strlit("-c");
        reveal_strlit("curl -fsSL https://chatgpt.com/codex/install.sh | CODEX_NON_INTERACTIVE=1 sh");
        reveal_strlit("-ExecutionPolicy");
        reveal_strlit("Bypass");
        reveal_strlit("$env:CODEX_NON_INTERACTIVE=1; irm https://chatgpt.com/codex/install.ps1 | iex");
        let words = self.words();
        assert forall|i: int| 0 <= i < words.len() implies !(#[trigger] words[i]).contains('\0') by {}
    }
}

// ---------------------------------------------------------------------
// Versions
// ---------------------------------------------------------------------

/// The number that the piece at the place writes.
pub open spec fn number_at(pieces: Seq<Seq<char>>, i: int) -> Option<nat> {
    if i < pieces.len() {
        text::parsed_nat(pieces[i], u64::MAX as nat)
    } else {
        None
    }
}

/// The three numbers that a version begins with.
pub open spec fn version_of(version: Seq<char>) -> Option<(nat, nat, nat)> {
    let pieces = text::split_on(text::trimmed(version), '.');
    match (number_at(pieces, 0), number_at(pieces, 1), number_at(pieces, 2)) {
        (Some(major), Some(minor), Some(patch)) => Some((major, minor, patch)),
        _ => None,
    }
}

/// Whether the version is later than the other.
pub open spec fn is_later(a: (nat, nat, nat), b: (nat, nat, nat)) -> bool {
    a.0 > b.0 || (a.0 == b.0 && (a.1 > b.1 || (a.1 == b.1 && a.2 > b.2)))
}

/// The numbers of a version.
pub open spec fn version_view(v: Option<(u64, u64, u64)>) -> Option<(nat, nat, nat)> {
    match v {
        Some((major, minor, patch)) => Some((major as nat, minor as nat, patch as nat)),
        None => None,
    }
}

/// The three numbers that a version begins with.
pub fn parse_version(version: &str) -> (r: Option<(u64, u64, u64)>)
    ensures
        version_view(r) == version_of(version@),
{
    let trimmed = text::trim(version);
    let pieces = text::split(trimmed.as_str(), '.');
    let ghost all = text::split_on(trimmed@, '.');
    assert(all.len() == pieces@.len());
    if pieces.len() < 3 {
        return None;
    }
    assert(all[0] == pieces@[0]@ && all[1] == pieces@[1]@ && all[2] == pieces@[2]@);
    let major = text::parse_u64(pieces[0].as_str());
    let minor = text::parse_u64(pieces[1].as_str());
    let patch = text::parse_u64(pieces[2].as_str());
    match (major, minor, patch) {
        (Some(major), Some(minor), Some(patch)) => Some((major, minor, patch)),
        _ => None,
    }
}

/// Whether the latest version is newer than the current one, where both can be
/// read.
pub open spec fn newer_answer(latest: Seq<char>, current: Seq<char>) -> Option<bool> {
    match (version_of(latest), version_of(current)) {
        (Some(latest), Some(current)) => Some(is_later(latest, current)),
        _ => None,
    }
}

/// Whether the latest version is newer than the current one, where both can be
/// read.
pub fn is_newer(latest: &str, current: &str) -> (r: Option<bool>)
    ensures
        r == newer_answer(latest@, current@),
        r == (match (version_of(latest@), version_of(current@)) {
            (Some(latest), Some(current)) => Some(is_later(latest, current)),
            _ => None::<bool>,
        }),
{
    match (parse_version(latest), parse_version(current)) {
        (Some(a), Some(b)) => {
            Some(a.0 > b.0 || (a.0 == b.0 && (a.1 > b.1 || (a.1 == b.1 && a.2 > b.2))))
        },
        _ => None,
    }
}

/// Whether the version is the one of a build from source.
pub fn is_source_build_version(version: &str) -> (r: bool)
    ensures
        r == (version_of(version@) == Some((0nat, 0nat, 0nat))),
{
    match parse_version(version) {
        Some(v) => v.0 == 0 && v.1 == 0 && v.2 == 0,
        None => false,
    }
}

/// No version is newer than itself, of two versions only one is newer than the
/// other, and what is newer than a newer version is newer than the older one.
pub proof fn law_versions_are_ordered(a: (nat, nat, nat), b: (nat, nat, nat), c: (nat, nat, nat))
    ensures
        !is_later(a, a),
        a != b ==> (is_later(a, b) <==> !is_later(b, a)),
        is_later(a, b) && is_later(b, c) ==> is_later(a, c),
{
}

/// A version is read as the three numbers that it writes with dots between them:
/// the major, the minor and the patch number.
pub proof fn law_version_is_read_back(major: nat, minor: nat, patch: nat)
    requires
        major <= u64::MAX,
        minor <= u64::MAX,
        patch <= u64::MAX,
    ensures
        version_of(text::decimal(major).push('.') + text::decimal(minor).push('.') + text::decimal(patch)) == Some(
            (major, minor, patch),
        ),
{
    let a = text::decimal(major);
    let b = text::decimal(minor);
    let c = text::decimal(patch);
    text::law_decimal_is_read_back(major, u64::MAX as nat);
    text::law_decimal_is_read_back(minor, u64::MAX as nat);
    text::law_decimal_is_read_back(patch, u64::MAX as nat);
    let whole = a.push('.') + b.push('.') + c;
    assert forall|s: Seq<char>| #[trigger] text::all_digits(s) implies !s.contains('.') by {
        if s.contains('.') {
            let i = choose|i: int| 0 <= i < s.len() && s[i] == '.';
            assert(text::is_digit(s[i]));
        }
    }
    assert(text::is_digit(a[0]));
    assert(text::is_digit(c[c.len() - 1]));
    assert(whole[0] == a[0]);
    assert(whole.last() == c.last());
    text::lemma_trimmed_plain(whole);
    text::lemma_split_plain(a, '.');
    text::lemma_split_plain(b, '.');
    text::lemma_split_plain(c, '.');
    text::lemma_split_concat(b, c, '.');
    text::lemma_split_concat(a, b.push('.') + c, '.');
    assert(whole =~= a.push('.') + (b.push('.') + c));
    assert(text::split_on(whole, '.') =~= seq![a, b, c]);
}

/// A text with fewer than two dots, or with something that is no number where a
/// number is due, is no version.
pub proof fn law_version_has_three_numbers(version: Seq<char>)
    ensures
        version_of(version) is Some ==> {
            let pieces = text::split_on(text::trimmed(version), '.');
            &&& pieces.len() >= 3
            &&& forall|i: int| 0 <= i < 3 ==> text::parsed_nat(#[trigger] pieces[i], u64::MAX as nat) is Some
        },
{
}

/// Versions are compared number by number: the one with the larger major number is
/// the newer one; with the same major number, the one with the larger minor number;
/// with both the same, the one with the larger patch number. Versions with the same
/// numbers are not newer than each other.
pub proof fn law_newer_is_by_the_first_difference(
    latest: Seq<char>,
    current: Seq<char>,
    a: (nat, nat, nat),
    b: (nat, nat, nat),
)
    requires
        version_of(latest) == Some(a),
        version_of(current) == Some(b),
    ensures
        newer_answer(latest, current) is Some,
        a.0 > b.0 ==> newer_answer(latest, current) == Some(true),
        a.0 < b.0 ==> newer_answer(latest, current) == Some(false),
        a.0 == b.0 && a.1 > b.1 ==> newer_answer(latest, current) == Some(true),
        a.0 == b.0 && a.1 < b.1 ==> newer_answer(latest, current) == Some(false),
        a.0 == b.0 && a.1 == b.1 ==> newer_answer(latest, current) == Some(a.2 > b.2),
{
}

// ---------------------------------------------------------------------
// The latest version
// ---------------------------------------------------------------------

/// Where to ask for the latest version.
#[derive(Clone, Copy, Debug, PartialEq, Eq, Structural)]
pub enum VersionSource {
    HomebrewCask,
    GithubRelease,
    /// The release, which the npm package must offer.
    GithubReleaseOnNpm,
}

/// Where to ask for the latest version of an installation.
pub fn version_source(action: Option<UpdateAction>) -> (r: VersionSource)
    ensures
        r == (match action {
            Some(UpdateAction::BrewUpgrade) => VersionSource::HomebrewCask,
            Some(UpdateAction::NpmGlobalLatest) => VersionSource::GithubReleaseOnNpm,
            Some(UpdateAction::BunGlobalLatest) => VersionSource::GithubReleaseOnNpm,
            _ => VersionSource::GithubRelease,
        }),
{
    match action {
        Some(UpdateAction::BrewUpgrade) => VersionSource::HomebrewCask,
        Some(UpdateAction::NpmGlobalLatest) => VersionSource::GithubReleaseOnNpm,
        Some(UpdateAction::BunGlobalLatest) => VersionSource::GithubReleaseOnNpm,
        _ => VersionSource::GithubRelease,
    }
}

/// A release of an npm package.
pub struct NpmPackageVersionInfo {
    pub version: String,
    pub dist: Option<NpmPackageDist>,
}

/// What an npm package is downloaded as.
pub struct NpmPackageDist {
    pub tarball: Option<String>,
    pub integrity: Option<String>,
}

/// What is known of an npm package: its tags, each with the version that it
/// points to, and its versions. No tag and no version stands there twice.
pub struct NpmPackageInfo {
    pub dist_tags: Vec<(String, String)>,
    pub versions: Vec<NpmPackageVersionInfo>,
}

/// The version that the tag points to.
pub open spec fn tagged(tags: Seq<(String, String)>, tag: Seq<char>) -> Option<Seq<char>>
    decreases tags.len(),
{
    if tags.len() == 0 {
        None
    } else if tags[0].0@ == tag {
        Some(tags[0].1@)
    } else {
        tagged(tags.skip(1), tag)
    }
}

/// The release with the version.
pub open spec fn released(versions: Seq<NpmPackageVersionInfo>, version: Seq<char>) -> Option<NpmPackageVersionInfo>
    decreases versions.len(),
{
    if versions.len() == 0 {
        None
    } else if versions[0].version@ == version {
        Some(versions[0])
    } else {
        released(versions.skip(1), version)
    }
}

/// Whether the text is there and not empty.
pub open spec fn is_given(s: Option<String>) -> bool {
    s matches Some(s) && s@.len() > 0
}

/// Why a version of an npm package cannot be installed yet.
pub open spec fn npm_fault(package: NpmPackageInfo, version: Seq<char>) -> Option<Seq<char>> {
    let wanted = text::trimmed(version);
    let named = "npm package version "@ + wanted;
    match tagged(package.dist_tags@, "latest"@) {
        None => Some("npm package is missing latest dist-tag"@),
        Some(latest) => if latest != wanted {
            Some("npm latest dist-tag points to "@ + latest + ", expected GitHub release "@ + wanted)
        } else {
            match released(package.versions@, wanted) {
                None => Some(named + " is missing"@),
                Some(info) => match info.dist {
                    None => Some(named + " is missing dist metadata"@),
                    Some(dist) => if !is_given(dist.tarball) {
                        Some(named + " is missing dist.tarball"@)
                    } else if !is_given(dist.integrity) {
                        Some(named + " is missing dist.integrity"@)
                    } else {
                        None
                    },
                },
            }
        },
    }
}

fn find_tag(tags: &Vec<(String, String)>, tag: &str) -> (r: Option<String>)
    ensures
        text::opt_view(r) == tagged(tags@, tag@),
{
    let mut i: usize = 0;
    assert(tags@.skip(0) =~= tags@);
    while i < tags.len()
        invariant
            i <= tags@.len(),
            tagged(tags@, tag@) == tagged(tags@.skip(i as int), tag@),
        decreases tags@.len() - i,
    {
        assert(tags@.skip(i as int)[0] == tags@[i as int]);
        assert(tags@.skip(i as int).skip(1) =~= tags@.skip(i + 1));
        if text::str_eq(tags[i].0.as_str(), tag) {
            return Some(tags[i].1.clone());
        }
        i = i + 1;
    }
    None
}

fn find_version<'a>(versions: &'a Vec<NpmPackageVersionInfo>, version: &str) -> (r: Option<&'a NpmPackageVersionInfo>)
    ensures
        match r {
            Some(info) => released(versions@, version@) == Some(*info),
            None => released(versions@, version@) is None,
        },
{
    let mut i: usize = 0;
    assert(versions@.skip(0) =~= versions@);
    while i < versions.len()
        invariant
            i <= versions@.len(),
            released(versions@, version@) == released(versions@.skip(i as int), version@),
        decreases versions@.len() - i,
    {
        assert(versions@.skip(i as int)[0] == versions@[i as int]);
        assert(versions@.skip(i as int).skip(1) =~= versions@.skip(i + 1));
        if text::str_eq(versions[i].version.as_str(), version) {
            return Some(&versions[i]);
        }
        i = i + 1;
    }
    None
}

fn given(s: &Option<String>) -> (r: bool)
    ensures
        r == is_given(*s),
{
    match s {
        Some(s) => text::char_vec(s.as_str()).len() > 0,
        None => false,
    }
}

fn about_version(version: &str, rest: &str) -> (r: String)
    ensures
        r@ == "npm package version "@ + version@ + rest@,
{
    let mut message = "npm package version ".to_string();
    message.push_str(version);
    message.push_str(rest);
    message
}

/// Whether the npm package offers the version to be installed.
pub fn ensure_npm_version_ready(package: &NpmPackageInfo, version: &str) -> (r: Result<(), String>)
    ensures
        match r {
            Ok(()) => npm_fault(*package, version@) is None,
            Err(e) => npm_fault(*package, version@) == Some(e@),
        },
{
    let wanted = text::trim(version);
    match find_tag(&package.dist_tags, "latest") {
        None => {
            return Err("npm package is missing latest dist-tag".to_string());
        },
        Some(latest) => {
            if !text::str_eq(latest.as_str(), wanted.as_str()) {
                let mut message = "npm latest dist-tag points to ".to_string();
                message.push_str(latest.as_str());
                message.push_str(", expected GitHub release ");
                message.push_str(wanted.as_str());
                return Err(message);
            }
        },
    }
    match find_version(&package.versions, wanted.as_str()) {
        None => Err(about_version(wanted.as_str(), " is missing")),
        Some(info) => match &info.dist {
            None => Err(about_version(wanted.as_str(), " is missing dist metadata")),
            Some(dist) => if !given(&dist.tarball) {
                Err(about_version(wanted.as_str(), " is missing dist.tarball"))
            } else if !given(&dist.integrity) {
                Err(about_version(wanted.as_str(), " is missing dist.integrity"))
            } else {
                Ok(())
            },
        },
    }
}

/// The version that a release is tagged with.
pub open spec fn tag_version(tag: Seq<char>) -> Result<Seq<char>, Seq<char>> {
    match text::after_prefix(tag, "rust-v"@) {
        Some(version) => Ok(version),
        None => Err("failed to parse latest tag name '"@ + tag + "'"@),
    }
}

/// A version can be installed with npm exactly where the tag `latest` points to it
/// and the package has a release of it with both a tarball and an integrity.
pub proof fn law_npm_version_is_ready(package: NpmPackageInfo, version: Seq<char>)
    ensures
        npm_fault(package, version) is None <==> {
            &&& tagged(package.dist_tags@, "latest"@) == Some(text::trimmed(version))
            &&& released(package.versions@, text::trimmed(version)) matches Some(info)
            &&& info.dist matches Some(dist)
            &&& dist.tarball matches Some(tarball)
            &&& dist.integrity matches Some(integrity)
            &&& tarball@.len() > 0
            &&& integrity@.len() > 0
        },
{
}

/// What a tag points to stands beside the tag, and what is released under a version
/// has that version; there is something exactly where the tag or version stands.
pub proof fn law_npm_lookup_finds_what_is_there(package: NpmPackageInfo, name: Seq<char>)
    ensures
        match tagged(package.dist_tags@, name) {
            Some(version) => exists|i: int|
                0 <= i < package.dist_tags@.len() && (#[trigger] package.dist_tags@[i]).0@ == name
                    && package.dist_tags@[i].1@ == version,
            None => forall|i: int| 0 <= i < package.dist_tags@.len() ==> (#[trigger] package.dist_tags@[i]).0@ != name,
        },
        match released(package.versions@, name) {
            Some(info) => info.version@ == name && package.versions@.contains(info),
            None => forall|i: int| 0 <= i < package.versions@.len() ==> (#[trigger] package.versions@[i]).version@ != name,
        },
{
    lemma_tagged(package.dist_tags@, name);
    lemma_released(package.versions@, name);
}

proof fn lemma_tagged(tags: Seq<(String, String)>, tag: Seq<char>)
    ensures
        match tagged(tags, tag) {
            Some(version) => exists|i: int|
                0 <= i < tags.len() && (#[trigger] tags[i]).0@ == tag && tags[i].1@ == version,
            None => forall|i: int| 0 <= i < tags.len() ==> (#[trigger] tags[i]).0@ != tag,
        },
    decreases tags.len(),
{
    if tags.len() > 0 {
        let rest = tags.skip(1);
        lemma_tagged(rest, tag);
        if tags[0].0@ != tag {
            assert forall|i: int| 0 < i < tags.len() implies #[trigger] tags[i] == rest[i - 1] by {}
            if let Some(version) = tagged(rest, tag) {
                let i = choose|i: int| 0 <= i < rest.len() && (#[trigger] rest[i]).0@ == tag && rest[i].1@ == version;
                assert(tags[i + 1].0@ == tag);
            }
        }
    }
}

proof fn lemma_released(versions: Seq<NpmPackageVersionInfo>, version: Seq<char>)
    ensures
        match released(versions, version) {
            Some(info) => info.version@ == version && versions.contains(info),
            None => forall|i: int| 0 <= i < versions.len() ==> (#[trigger] versions[i]).version@ != version,
        },
    decreases versions.len(),
{
    if versions.len() > 0 {
        let rest = versions.skip(1);
        lemma_released(rest, version);
        assert(versions.contains(versions[0]));
        if versions[0].version@ != version {
            assert forall|i: int| 0 < i < versions.len() implies #[trigger] versions[i] == rest[i - 1] by {}
            if let Some(info) = released(rest, version) {
                let i = choose|i: int| 0 <= i < rest.len() && rest[i] == info;
                assert(versions[i + 1] == info);
            }
        }
    }
}

/// A release tag is `rust-v` with the version behind it; nothing else is one.
pub proof fn law_release_tag(version: Seq<char>, tag: Seq<char>)
    ensures
        tag_version("rust-v"@ + version) == Ok::<Seq<char>, Seq<char>>(version),
        tag_version(tag) matches Ok(v) ==> tag == "rust-v"@ + v,
{
    let whole = "rust-v"@ + version;
    assert(whole.take("rust-v"@.len() as int) =~= "rust-v"@);
    assert(whole.skip("rust-v"@.len() as int) =~= version);
    if let Ok(v) = tag_version(tag) {
        assert(tag =~= tag.take("rust-v"@.len() as int) + tag.skip("rust-v"@.len() as int));
    }
}

/// The version that a release is tagged with.
pub fn extract_version_from_latest_tag(tag: &str) -> (r: Result<String, String>)
    ensures
        match r {
            Ok(version) => tag_version(tag@) == Ok::<Seq<char>, Seq<char>>(version@),
            Err(e) => tag_version(tag@) == Err::<Seq<char>, Seq<char>>(e@),
        },
{
    match text::strip_prefix(tag, "rust-v") {
        Some(version) => Ok(version),
        None => {
            let mut message = "failed to parse latest tag name '".to_string();
            message.push_str(tag);
            message.push_str("'");
            Err(message)
        },
    }
}

/// The latest version that can be installed with npm, given how the release is
/// tagged and what is known of the package.
pub fn latest_npm_version(tag: &str, package: &NpmPackageInfo) -> (r: Result<String, String>)
    ensures
        match tag_version(tag@) {
            Err(e) => r matches Err(error) && error@ == e,
            Ok(version) => match npm_fault(*package, version) {
                Some(e) => r matches Err(error) && error@ == e,
                None => r matches Ok(v) && v@ == version,
            },
        },
{
    match extract_version_from_latest_tag(tag) {
        Err(e) => Err(e),
        Ok(version) => match ensure_npm_version_ready(package, version.as_str()) {
            Ok(()) => Ok(version),
            Err(e) => Err(e),
        },
    }
}

/// Each way of installing is updated by its own program; the package managers are
/// told the package, and the shells the script that installs without asking.
pub proof fn law_update_commands()
    ensures
        UpdateAction::NpmGlobalLatest.words() == seq!["npm"@, "install"@, "-g"@, "@openai/codex"@],
        UpdateAction::BunGlobalLatest.words() == seq!["bun"@, "install"@, "-g"@, "@openai/codex"@],
        UpdateAction::BrewUpgrade.words() == seq!["brew"@, "upgrade"@, "--cask"@, "codex"@],
        UpdateAction::StandaloneUnix.words() == seq![
            "sh"@,
            "-c"@,
            "curl -fsSL https://chatgpt.com/codex/install.sh | CODEX_NON_INTERACTIVE=1 sh"@,
        ],
        UpdateAction::StandaloneWindows.words() == seq![
            "powershell"@,
            "-ExecutionPolicy"@,
            "Bypass"@,
            "-c"@,
            "$env:CODEX_NON_INTERACTIVE=1; irm https://chatgpt.com/codex/install.ps1 | iex"@,
        ],
        forall|a: UpdateAction| #[trigger] a.words().len() == a.arguments().len() + 1 && a.words()[0] == a.program(),
{
    assert(UpdateAction::NpmGlobalLatest.words() =~= seq!["npm"@, "install"@, "-g"@, "@openai/codex"@]);
    assert(UpdateAction::BunGlobalLatest.words() =~= seq!["bun"@, "install"@, "-g"@, "@openai/codex"@]);
    assert(UpdateAction::BrewUpgrade.words() =~= seq!["brew"@, "upgrade"@, "--cask"@, "codex"@]);
    assert(UpdateAction::StandaloneUnix.words() =~= seq![
        "sh"@,
        "-c"@,
        "curl -fsSL https://chatgpt.com/codex/install.sh | CODEX_NON_INTERACTIVE=1 sh"@,
    ]);
    assert(UpdateAction::StandaloneWindows.words() =~= seq![
        "powershell"@,
        "-ExecutionPolicy"@,
        "Bypass"@,
        "-c"@,
        "$env:CODEX_NON_INTERACTIVE=1; irm https://chatgpt.com/codex/install.ps1 | iex"@,
    ]);
}

/// Why a version cannot be installed yet is told in words, the first reason where
/// there are several; a tag that is none of a release is told as it stands.
pub proof fn law_reasons_in_words(package: NpmPackageInfo, version: Seq<char>, tag: Seq<char>)
    ensures
        ({
            let wanted = text::trimmed(version);
            let named = "npm package version "@ + wanted;
            let latest = tagged(package.dist_tags@, "latest"@);
            let info = released(package.versions@, wanted);
            &&& latest is None ==> npm_fault(package, version) == Some("npm package is missing latest dist-tag"@)
            &&& latest is Some && latest->0 != wanted ==> npm_fault(package, version) == Some(
                "npm latest dist-tag points to "@ + latest->0 + ", expected GitHub release "@ + wanted,
            )
            &&& latest == Some(wanted) && info is None ==> npm_fault(package, version) == Some(named + " is missing"@)
            &&& latest == Some(wanted) && info is Some && info->0.dist is None ==> npm_fault(package, version) == Some(
                named + " is missing dist metadata"@,
            )
            &&& latest == Some(wanted) && info is Some && info->0.dist is Some ==> {
                let dist = info->0.dist->0;
                let tarball = dist.tarball is Some && dist.tarball->0@.len() > 0;
                let integrity = dist.integrity is Some && dist.integrity->0@.len() > 0;
                &&& !tarball ==> npm_fault(package, version) == Some(named + " is missing dist.tarball"@)
                &&& tarball && !integrity ==> npm_fault(package, version) == Some(named + " is missing dist.integrity"@)
            }
        }),
        !text::has_prefix(tag, "rust-v"@) ==> tag_version(tag) == Err::<Seq<char>, Seq<char>>(
            "failed to parse latest tag name '"@ + tag + "'"@,
        ),
{
}

} // verus!
