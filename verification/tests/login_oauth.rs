use codex_core::login::bedrock_api_key::bedrock_api_key_login;
use codex_core::login::bedrock_api_key::stored_bedrock_api_key;
use codex_core::login::bedrock_api_key::AuthDotJson;
use codex_core::login::bedrock_api_key::AuthManager;
use codex_core::login::bedrock_api_key::AuthMode;
use codex_core::login::bedrock_api_key::BedrockApiKeyAuth;
use codex_core::login::external_provided::AccountPlanType;
use codex_core::login::external_provided::ExternalProvidedAuth;
use codex_core::login::external_provided::ExternalProvidedAuthCapabilities;
use codex_core::oauth::resolved_store::on_file;
use codex_core::oauth::resolved_store::on_keyring;
use codex_core::oauth::resolved_store::on_reread;
use codex_core::oauth::resolved_store::reads_keyring_first;
use codex_core::oauth::resolved_store::AuthKeyringBackendKind;
use codex_core::oauth::resolved_store::ReadFailure;
use codex_core::oauth::resolved_store::KeyringStep;
use codex_core::oauth::resolved_store::OAuthCredentialsStoreMode;
use codex_core::oauth::resolved_store::ResolvedOAuthCredentialStore;
use codex_core::oauth::resolved_store::ResolvedOAuthTokens;
use codex_core::oauth::resolved_store::StoreError;
use codex_core::oauth::store_lock::lock_failure;
use codex_core::oauth::store_lock::mark_lock_failure;
use codex_core::oauth::store_lock::lock_step;
use codex_core::oauth::store_lock::oauth_store_lock_path;
use codex_core::oauth::store_lock::open_failure;
use codex_core::oauth::store_lock::LockEvent;
use codex_core::oauth::store_lock::LockStep;
use codex_core::oauth::store_lock::OAuthStore;
use codex_core::plugins::service_routing::plugin_service_routing_cookie;

fn api_key_auth() -> AuthDotJson {
    AuthDotJson {
        auth_mode: Some(AuthMode::ApiKey),
        openai_api_key: Some("sk-test-key".to_string()),
        tokens: None,
        last_refresh: None,
        agent_identity: None,
        personal_access_token: None,
        bedrock_api_key: None,
    }
}

fn bedrock_auth() -> BedrockApiKeyAuth {
    BedrockApiKeyAuth {
        api_key: "bedrock-api-key-test".to_string(),
        region: "us-east-1".to_string(),
    }
}

fn bedrock_only_auth() -> AuthDotJson {
    AuthDotJson {
        auth_mode: None,
        openai_api_key: None,
        tokens: None,
        last_refresh: None,
        agent_identity: None,
        personal_access_token: None,
        bedrock_api_key: Some(bedrock_auth()),
    }
}

#[test]
fn auth_manager_login_with_bedrock_api_key_replaces_openai_auth() {
    let mut auth_manager = AuthManager {
        stored: Some(api_key_auth()),
        api_auth_mode: Some(AuthMode::ApiKey),
        bedrock_api_key: None,
    };

    auth_manager.login_with_bedrock_api_key("bedrock-api-key-test", "us-east-1");

    let expected = AuthDotJson {
        auth_mode: Some(AuthMode::BedrockApiKey),
        openai_api_key: None,
        tokens: None,
        last_refresh: None,
        agent_identity: None,
        personal_access_token: None,
        bedrock_api_key: Some(bedrock_auth()),
    };
    assert_eq!(auth_manager.stored, Some(expected));
    assert_eq!(auth_manager.api_auth_mode, None);
    assert_eq!(
        auth_manager.account_auth_mode_cached(),
        Some(AuthMode::BedrockApiKey)
    );
    assert_eq!(auth_manager.bedrock_api_key, Some(bedrock_auth()));
    assert!(auth_manager.has_stored_bedrock_api_key_auth());
}

#[test]
fn bedrock_only_auth_storage_does_not_create_codex_auth() {
    let stored = Some(bedrock_only_auth());
    let auth_manager = AuthManager {
        api_auth_mode: None,
        bedrock_api_key: stored_bedrock_api_key(&stored),
        stored,
    };
    assert_eq!(
        auth_manager.account_auth_mode_cached(),
        Some(AuthMode::BedrockApiKey)
    );
    assert_eq!(auth_manager.bedrock_api_key, Some(bedrock_auth()));
}

#[test]
fn only_bedrock_logins_hold_a_bedrock_key() {
    let login = bedrock_api_key_login("bedrock-api-key-test", "us-east-1");
    assert!(login.is_bedrock_api_key());
    assert_eq!(stored_bedrock_api_key(&Some(login)), Some(bedrock_auth()));
    assert_eq!(stored_bedrock_api_key(&Some(api_key_auth())), None);
    assert_eq!(stored_bedrock_api_key(&None), None);
    assert!(!api_key_auth().is_bedrock_api_key());
    let other = AuthDotJson { auth_mode: Some(AuthMode::Other), ..bedrock_only_auth() };
    assert_eq!(stored_bedrock_api_key(&Some(other)), None);
}

#[test]
fn capabilities_are_disabled_until_the_caller_enables_them() {
    let auth = ExternalProvidedAuth::new(Vec::new(), "user-123");
    assert_eq!(
        auth.capabilities(),
        ExternalProvidedAuthCapabilities::default()
    );

    let auth = auth.with_capabilities(ExternalProvidedAuthCapabilities {
        uses_codex_backend: true,
        has_chatgpt_account: true,
    });
    assert!(auth.capabilities().uses_codex_backend);
    assert!(auth.capabilities().has_chatgpt_account);
}

#[test]
fn external_logins_tell_what_they_were_given() {
    let headers = vec![("x-account".to_string(), "1".to_string())];
    let auth = ExternalProvidedAuth::new(headers, "user-123")
        .with_account_id("account")
        .with_account_email("a@b.c")
        .with_account_plan_type(AccountPlanType::Pro)
        .with_fedramp_account(true);
    assert_eq!(auth.headers(), &vec![("x-account".to_string(), "1".to_string())]);
    assert_eq!(auth.account_id().as_deref(), Some("account"));
    assert_eq!(auth.account_email().as_deref(), Some("a@b.c"));
    assert_eq!(auth.account_plan_type(), Some(AccountPlanType::Pro));
    assert!(auth.is_fedramp_account());
    assert_eq!(auth.user_id(), "user-123");
    assert!(!auth.has_chatgpt_account());
    assert!(!auth.uses_codex_backend());
    assert_eq!(auth.api_key(), None);
    assert!(auth.bearer_token().is_err());
}

#[test]
fn headers_and_emails_are_not_shown() {
    let headers = vec![("authorization".to_string(), "secret".to_string())];
    let auth = ExternalProvidedAuth::new(headers, "user \"1\"");
    assert_eq!(
        auth.debug_text(),
        "ExternalProvidedAuth { headers: \"<redacted>\", account_id: None, user_id: \"user \\\"1\\\"\", \
         account_email: None, account_plan_type: Some(Unknown), is_fedramp_account: false, \
         capabilities: ExternalProvidedAuthCapabilities { uses_codex_backend: false, \
         has_chatgpt_account: false } }"
    );
    let shown = auth
        .with_account_id("account")
        .with_account_email("me@example.com")
        .with_fedramp_account(true)
        .debug_text();
    assert!(shown.contains("account_id: Some(\"account\"), "));
    assert!(shown.contains("account_email: Some(\"<redacted>\"), "));
    assert!(shown.contains("is_fedramp_account: true, "));
}

fn lock_failed() -> Result<Option<u8>, ReadFailure> {
    Err(ReadFailure { message: "locked".to_string(), is_lock_failure: true })
}

fn backend_failed() -> Result<Option<u8>, ReadFailure> {
    Err(ReadFailure { message: "no keyring".to_string(), is_lock_failure: false })
}

#[test]
fn auto_load_secrets_lock_failure_does_not_fall_back_to_file() {
    let step = on_keyring(
        OAuthCredentialsStoreMode::Auto,
        AuthKeyringBackendKind::Secrets,
        lock_failed(),
    );
    let KeyringStep::Fail(error) = step else {
        panic!("the file should not be read");
    };
    assert_eq!(
        error,
        StoreError { message: "locked".to_string(), cause: None, is_lock_failure: true }
    );
    let step = on_keyring(
        OAuthCredentialsStoreMode::Keyring,
        AuthKeyringBackendKind::Secrets,
        lock_failed(),
    );
    assert!(matches!(step, KeyringStep::Fail(error) if error.is_lock_failure));
}

#[test]
fn auto_falls_back_to_the_file_where_the_keyring_has_nothing() {
    let kind = AuthKeyringBackendKind::Direct;
    assert!(reads_keyring_first(OAuthCredentialsStoreMode::Auto));
    assert!(reads_keyring_first(OAuthCredentialsStoreMode::Keyring));
    assert!(!reads_keyring_first(OAuthCredentialsStoreMode::File));
    assert!(matches!(
        on_keyring(OAuthCredentialsStoreMode::Auto, kind, Ok(None::<u8>)),
        KeyringStep::ReadFile { context: None }
    ));
    let KeyringStep::ReadFile { context } =
        on_keyring(OAuthCredentialsStoreMode::Auto, kind, backend_failed())
    else {
        panic!("the file should be read");
    };
    assert_eq!(
        context.as_deref(),
        Some("failed to read OAuth tokens from keyring: no keyring")
    );
    let KeyringStep::Done(Some(found)) =
        on_keyring(OAuthCredentialsStoreMode::Auto, kind, Ok(Some(7u8)))
    else {
        panic!("tokens should be found");
    };
    assert_eq!(
        found,
        ResolvedOAuthTokens { tokens: 7, store: ResolvedOAuthCredentialStore::Keyring(kind) }
    );
    let KeyringStep::Fail(error) =
        on_keyring(OAuthCredentialsStoreMode::Keyring, kind, backend_failed())
    else {
        panic!("the keyring alone should fail");
    };
    assert_eq!(error.message, "failed to read OAuth tokens from keyring");
    assert!(matches!(
        on_keyring(OAuthCredentialsStoreMode::Keyring, kind, Ok(None::<u8>)),
        KeyringStep::Done(None)
    ));
}

fn broken() -> ReadFailure {
    ReadFailure { message: "broken".to_string(), is_lock_failure: false }
}

#[test]
fn file_reads_carry_what_the_keyring_said() {
    assert_eq!(
        on_file(None, Ok(Some(3u8))),
        Ok(Some(ResolvedOAuthTokens { tokens: 3, store: ResolvedOAuthCredentialStore::File }))
    );
    assert_eq!(on_file(None, Ok(None::<u8>)), Ok(None));
    let error = on_file::<u8>(Some("before".to_string()), Err(broken()))
        .expect_err("the file is broken");
    assert_eq!(
        error,
        StoreError { message: "before".to_string(), cause: Some("broken".to_string()), is_lock_failure: false }
    );
    let error = on_file::<u8>(None, Err(broken())).expect_err("the file is broken");
    assert_eq!(error, StoreError { message: "broken".to_string(), cause: None, is_lock_failure: false });
}

#[test]
fn resolved_keyring_read_error_preserves_in_memory_credentials() {
    let store = ResolvedOAuthCredentialStore::Keyring(AuthKeyringBackendKind::Direct);
    let error = on_reread::<u8>(store, Err(broken()))
        .expect_err("the resolved keyring read error should abort refresh");
    assert!(error
        .message
        .contains("failed to reread OAuth tokens from resolved keyring storage"));
    let error = on_reread::<u8>(ResolvedOAuthCredentialStore::File, Err(broken()))
        .expect_err("the file cannot be read");
    assert_eq!(
        error.message,
        "failed to reread OAuth tokens from resolved file storage"
    );
    assert!(!error.is_lock_failure);
    let error = on_reread::<u8>(
        ResolvedOAuthCredentialStore::File,
        Err(ReadFailure { message: "locked".to_string(), is_lock_failure: true }),
    )
    .expect_err("the file cannot be locked");
    assert!(error.is_lock_failure);
    assert_eq!(on_reread(store, Ok(Some(1u8))), Ok(Some(1)));
}

#[test]
fn store_locks_are_files_of_their_own() {
    assert_eq!(
        oauth_store_lock_path("/home", OAuthStore::File),
        "/home/mcp-oauth-locks/file-store.lock"
    );
    assert_eq!(
        oauth_store_lock_path("/home", OAuthStore::Secrets),
        "/home/mcp-oauth-locks/secrets-store.lock"
    );
    assert_eq!(
        lock_failure(OAuthStore::Secrets),
        "failed to acquire MCP OAuth encrypted secrets aggregate-store lock"
    );
    assert_eq!(
        open_failure(OAuthStore::File, "/l", "denied".to_string()),
        StoreError {
            message: "failed to open MCP OAuth fallback file store lock /l".to_string(),
            cause: Some("denied".to_string()),
            is_lock_failure: false,
        }
    );
    let marked = mark_lock_failure(
        OAuthStore::File,
        open_failure(OAuthStore::File, "/l", "denied".to_string()),
    );
    assert_eq!(
        marked,
        StoreError {
            message: "failed to acquire MCP OAuth fallback file aggregate-store lock".to_string(),
            cause: Some("failed to open MCP OAuth fallback file store lock /l: denied".to_string()),
            is_lock_failure: true,
        }
    );
    assert_eq!(OAuthStore::File.lock_filename(), "file-store.lock");
    assert_eq!(OAuthStore::Secrets.description(), "encrypted secrets");
}

#[test]
fn contended_locks_are_waited_for_up_to_their_time() {
    let step = |event| lock_step(OAuthStore::File, "/l", 1500, false, event);
    assert!(matches!(step(LockEvent::Acquired), LockStep::Hold));
    assert!(matches!(
        step(LockEvent::WouldBlock { elapsed_ms: 10 }),
        LockStep::Wait { report: true, .. }
    ));
    let LockStep::Fail(error) = step(LockEvent::WouldBlock { elapsed_ms: 1500 }) else {
        panic!("the time is over");
    };
    assert_eq!(
        error.message,
        "timed out after 1.5s waiting for MCP OAuth fallback file store lock /l"
    );
    let LockStep::Fail(error) = step(LockEvent::Failed { message: "io".to_string() }) else {
        panic!("the lock failed");
    };
    assert_eq!(error.message, "failed to lock MCP OAuth fallback file store lock /l");
    assert_eq!(error.cause.as_deref(), Some("io"));
    assert!(matches!(
        lock_step(OAuthStore::File, "/l", 1500, true, LockEvent::WouldBlock { elapsed_ms: 10 }),
        LockStep::Wait { report: false, .. }
    ));
}

fn routed(headers: &[&str], preview: bool) -> Option<String> {
    let bytes: Vec<&[u8]> = headers.iter().map(|header| header.as_bytes()).collect();
    plugin_service_routing_cookie(&bytes, preview)
        .map(|cookie| String::from_utf8(cookie).expect("text"))
}

#[test]
fn routing_cookies_cannot_be_overridden() {
    assert_eq!(routed(&[], false), None);
    assert_eq!(
        routed(&[], true).as_deref(),
        Some("oai-chat-plugin-service-preview=true")
    );
    assert_eq!(
        routed(&["a=1; oai-chat-plugin-service-preview=x ;;\t b=2", "c"], false).as_deref(),
        Some("a=1; b=2; c")
    );
    assert_eq!(
        routed(&["oai-chat-plugin-service-preview =x", "a=1"], true).as_deref(),
        Some("a=1; oai-chat-plugin-service-preview=true")
    );
    assert_eq!(routed(&["oai-chat-plugin-service-preview"], false), None);
}
