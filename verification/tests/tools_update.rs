use codex_core::json::Json;
use codex_core::json::JsonField;
use codex_core::tools::tool_name::ToolName;
use codex_core::tools::tool_search::default_namespace_description;
use codex_core::tools::tool_search::default_tool_search_text;
use codex_core::tools::tool_search::FreeformTool;
use codex_core::tools::tool_search::JsonSchema;
use codex_core::tools::tool_search::LoadableToolSpec;
use codex_core::tools::tool_search::ResponsesApiNamespace;
use codex_core::tools::tool_search::ResponsesApiTool;
use codex_core::tools::tool_search::SchemaProperty;
use codex_core::tools::tool_search::ToolSearchIdentity;
use codex_core::tools::tool_search::ToolSearchInfo;
use codex_core::tools::tool_search::ToolSearchSourceInfo;
use codex_core::tools::tool_search::ToolSpec;
use codex_core::update::ensure_npm_version_ready;
use codex_core::update::extract_version_from_latest_tag;
use codex_core::update::is_newer;
use codex_core::update::is_source_build_version;
use codex_core::update::latest_npm_version;
use codex_core::update::parse_version;
use codex_core::update::version_source;
use codex_core::update::InstallContext;
use codex_core::update::InstallMethod;
use codex_core::update::NpmPackageDist;
use codex_core::update::NpmPackageInfo;
use codex_core::update::NpmPackageVersionInfo;
use codex_core::update::StandalonePlatform;
use codex_core::update::UpdateAction;
use codex_core::update::VersionSource;

#[test]
fn canonical_flat_name_inserts_one_namespace_delimiter() {
    assert_eq!(
        ToolName::namespaced("a__b", "__c").canonical_flat_name(),
        "a__b__c"
    );
    assert_eq!(ToolName::plain("plain").canonical_flat_name(), "plain");
}

#[test]
fn tool_names_show_and_order_themselves() {
    let plain = ToolName::plain("b");
    let named = ToolName::new(Some("a".to_string()), "b");
    assert_eq!(named, ToolName::namespaced("a", "b"));
    assert_eq!(plain.display(), "b");
    assert_eq!(named.display(), "ab");
    assert!(plain.precedes(&ToolName::plain("c")));
    assert!(!plain.precedes(&plain));
    assert!(plain.precedes(&named) != named.precedes(&plain));
    assert_eq!(ToolName::from("x".to_string()), ToolName::plain("x"));
}

fn type_keyword(name: &str) -> JsonField {
    let value = Json::parse(&format!("\"{name}\"")).expect("a JSON text");
    JsonField { name: "type".to_string(), value }
}

fn string_schema(description: &str) -> JsonSchema {
    JsonSchema {
        description: Some(description.to_string()),
        properties: None,
        items: None,
        any_of: None,
        keywords: vec![type_keyword("string")],
    }
}

fn object_schema(description: &str, properties: Vec<(&str, JsonSchema)>) -> JsonSchema {
    JsonSchema {
        description: Some(description.to_string()),
        properties: Some(
            properties
                .into_iter()
                .map(|(name, schema)| SchemaProperty { name: name.to_string(), schema })
                .collect(),
        ),
        items: None,
        any_of: None,
        keywords: vec![type_keyword("object")],
    }
}

fn automation_tool() -> ResponsesApiTool {
    let schedule_schema = object_schema(
        "Schedule settings.",
        vec![("timezone", string_schema("IANA timezone."))],
    );
    let parameters = object_schema(
        "Automation options.",
        vec![
            ("mode", string_schema("Update mode.")),
            ("schedule", schedule_schema),
        ],
    );
    ResponsesApiTool {
        name: "automation_update".to_string(),
        description: "Create or update automations.".to_string(),
        strict: false,
        defer_loading: None,
        parameters,
        output_schema: None,
    }
}

#[test]
fn default_search_text_uses_descriptions_and_schema_property_names() {
    let spec = ToolSpec::Namespace(ResponsesApiNamespace {
        name: "codex_app".to_string(),
        description: "Manage Codex automations.".to_string(),
        tools: vec![automation_tool()],
    });

    let search_info =
        ToolSearchInfo::from_tool_spec(spec, None).expect("namespace should be searchable");

    assert_eq!(
        search_info.entry.search_text,
        "Manage Codex automations. Create or update automations. mode schedule timezone"
    );
    assert_eq!(
        search_info.entry.identity,
        ToolSearchIdentity {
            canonical_aliases: vec![
                "codex_app.automation_update".to_string(),
                "codex_app__automation_update".to_string(),
                "codex_appautomation_update".to_string(),
            ],
            tool_aliases: vec!["automation_update".to_string()],
            source_aliases: vec!["codex_app".to_string()],
        }
    );
}

#[test]
fn functions_are_loaded_on_demand() {
    let info = ToolSearchInfo::from_tool_spec(
        ToolSpec::Function(automation_tool()),
        Some(ToolSearchSourceInfo { name: "app".to_string(), description: None }),
    )
    .expect("function should be searchable");
    let LoadableToolSpec::Function(tool) = &info.entry.output else {
        panic!("function expected");
    };
    assert_eq!(tool.defer_loading, Some(true));
    assert!(tool.output_schema.is_none());
    assert_eq!(tool.parameters.keywords, vec![type_keyword("object")]);
    assert_eq!(info.source_info.expect("source").name, "app");
}

#[test]
fn tools_without_parameters_are_not_searchable() {
    let freeform = || {
        ToolSpec::Freeform(FreeformTool {
            name: "patch".to_string(),
            description: "Edits files.".to_string(),
            syntax: "lark".to_string(),
        })
    };
    assert!(ToolSearchInfo::from_tool_spec(freeform(), None).is_none());
    assert!(ToolSearchInfo::from_spec("x".to_string(), ToolSpec::WebSearch, None).is_none());
    assert!(ToolSearchInfo::from_spec_with_identity(
        "x".to_string(),
        ToolSpec::ImageGeneration,
        None,
        ToolSearchIdentity::default(),
    )
    .is_none());
    assert_eq!(default_tool_search_text(&freeform()), "patch Edits files. lark");
}

#[test]
fn namespaces_without_a_description_get_one() {
    assert_eq!(default_namespace_description("app"), "Tools in the app namespace.");
    let info = ToolSearchInfo::from_spec(
        "find me".to_string(),
        ToolSpec::Namespace(ResponsesApiNamespace {
            name: "app".to_string(),
            description: "  ".to_string(),
            tools: Vec::new(),
        }),
        None,
    )
    .expect("namespace should be searchable");
    assert_eq!(info.entry.search_text, "find me");
    let LoadableToolSpec::Namespace(namespace) = &info.entry.output else {
        panic!("namespace expected");
    };
    assert_eq!(namespace.description, "Tools in the app namespace.");
}

#[test]
fn maps_install_context_to_update_action() {
    let cases = [
        (InstallMethod::Other, None),
        (InstallMethod::Npm, Some(UpdateAction::NpmGlobalLatest)),
        (InstallMethod::Bun, Some(UpdateAction::BunGlobalLatest)),
        (InstallMethod::Brew, Some(UpdateAction::BrewUpgrade)),
        (
            InstallMethod::Standalone {
                platform: StandalonePlatform::Unix,
            },
            Some(UpdateAction::StandaloneUnix),
        ),
        (
            InstallMethod::Standalone {
                platform: StandalonePlatform::Windows,
            },
            Some(UpdateAction::StandaloneWindows),
        ),
    ];

    for (method, expected) in cases {
        assert_eq!(
            UpdateAction::from_install_context(&InstallContext { method }),
            expected
        );
    }
}

#[test]
fn compares_plain_versions_and_rejects_prereleases() {
    assert_eq!(is_newer("0.11.1", "0.11.0"), Some(true));
    assert_eq!(is_newer("0.11.0", "0.11.1"), Some(false));
    assert_eq!(is_newer("1.0.0", "0.9.9"), Some(true));
    assert_eq!(is_newer("0.11.0-beta.1", "0.11.0"), None);
    assert!(is_source_build_version("0.0.0"));
}

#[test]
fn versions_are_three_numbers() {
    assert_eq!(parse_version(" 1.2.3 "), Some((1, 2, 3)));
    assert_eq!(parse_version("1.2"), None);
    assert_eq!(parse_version("1..3"), None);
    assert_eq!(parse_version("18446744073709551616.0.0"), None);
    assert_eq!(is_newer("1.2.3", "1.2.3"), Some(false));
    assert!(!is_source_build_version("0.0.1"));
}

fn package(latest: &str, versions: Vec<NpmPackageVersionInfo>) -> NpmPackageInfo {
    NpmPackageInfo {
        dist_tags: vec![("latest".to_string(), latest.to_string())],
        versions,
    }
}

fn installable(version: &str) -> NpmPackageVersionInfo {
    NpmPackageVersionInfo {
        version: version.to_string(),
        dist: Some(NpmPackageDist {
            tarball: Some("https://registry.npmjs.org/codex-1.2.3.tgz".to_string()),
            integrity: Some("sha512-test".to_string()),
        }),
    }
}

#[test]
fn brew_uses_the_cask_version() {
    assert_eq!(
        version_source(Some(UpdateAction::BrewUpgrade)),
        VersionSource::HomebrewCask
    );
}

#[test]
fn npm_requires_the_release_to_be_installable() {
    assert_eq!(
        version_source(Some(UpdateAction::NpmGlobalLatest)),
        VersionSource::GithubReleaseOnNpm
    );
    let latest = latest_npm_version("rust-v1.2.3", &package("1.2.3", vec![installable("1.2.3")]))
        .expect("npm version should be ready");

    assert_eq!(latest, "1.2.3");
}

#[test]
fn npm_rejects_a_stale_latest_tag() {
    let error = latest_npm_version("rust-v1.2.3", &package("1.2.2", Vec::new()))
        .expect_err("stale npm latest tag should fail");

    assert!(error.contains("latest dist-tag"));
}

#[test]
fn npm_packages_need_a_version_a_tarball_and_a_digest() {
    assert!(ensure_npm_version_ready(&package("1.2.3", Vec::new()), "1.2.3").is_err());
    let mut without_dist = installable("1.2.3");
    without_dist.dist = None;
    assert!(ensure_npm_version_ready(&package("1.2.3", vec![without_dist]), "1.2.3").is_err());
    let mut blank = installable("1.2.3");
    blank.dist = Some(NpmPackageDist { tarball: Some(String::new()), integrity: None });
    assert!(ensure_npm_version_ready(&package("1.2.3", vec![blank]), "1.2.3").is_err());
    assert_eq!(
        ensure_npm_version_ready(&package("1.2.3", vec![installable("1.2.3")]), "1.2.3"),
        Ok(())
    );
}

#[test]
fn other_installations_use_the_latest_github_release() {
    assert_eq!(version_source(None), VersionSource::GithubRelease);
    let latest =
        extract_version_from_latest_tag("rust-v1.2.3").expect("GitHub version should load");

    assert_eq!(latest, "1.2.3");
    assert!(extract_version_from_latest_tag("v1.2.3").is_err());
}

#[test]
fn updates_are_commands() {
    assert_eq!(
        UpdateAction::BrewUpgrade.command_args(),
        (
            "brew",
            vec!["upgrade".to_string(), "--cask".to_string(), "codex".to_string()]
        )
    );
    assert_eq!(UpdateAction::BrewUpgrade.command_str(), "brew upgrade --cask codex");
    assert_eq!(
        UpdateAction::NpmGlobalLatest.command_str(),
        "npm install -g @openai/codex"
    );
}
