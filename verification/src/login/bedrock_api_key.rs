//! Authentication with a key for Amazon Bedrock.

use vstd::prelude::*;

verus! {

/// How an account is authenticated.
#[derive(Clone, Copy, Debug, PartialEq, Eq, Structural)]
pub enum AuthMode {
    ApiKey,
    Chatgpt,
    BedrockApiKey,
    /// Some other way, on which nothing here depends.
    Other,
}

/// A key for Amazon Bedrock, with the region that it is for.
#[derive(Debug, PartialEq)]
pub struct BedrockApiKeyAuth {
    pub api_key: String,
    pub region: String,
}

/// A key for Amazon Bedrock, in characters.
#[verifier::ext_equal]
pub struct BedrockView {
    pub api_key: Seq<char>,
    pub region: Seq<char>,
}

impl View for BedrockApiKeyAuth {
    type V = BedrockView;

    open spec fn view(&self) -> BedrockView {
        BedrockView { api_key: self.api_key@, region: self.region@ }
    }
}

/// What is stored of an authentication.
#[derive(Debug, PartialEq)]
pub struct AuthDotJson {
    pub auth_mode: Option<AuthMode>,
    pub openai_api_key: Option<String>,
    pub tokens: Option<String>,
    pub last_refresh: Option<String>,
    pub agent_identity: Option<String>,
    pub personal_access_token: Option<String>,
    pub bedrock_api_key: Option<BedrockApiKeyAuth>,
}

/// The key, in characters.
pub open spec fn opt_bedrock(key: Option<BedrockApiKeyAuth>) -> Option<BedrockView> {
    match key {
        Some(key) => Some(key@),
        None => None,
    }
}

impl AuthDotJson {
    /// Whether the authentication is with a key for Amazon Bedrock: it says so,
    /// or says nothing and holds one.
    pub open spec fn is_bedrock(self) -> bool {
        match self.auth_mode {
            Some(mode) => mode == AuthMode::BedrockApiKey,
            None => self.bedrock_api_key is Some,
        }
    }

    /// Whether the authentication is with a key for Amazon Bedrock.
    pub fn is_bedrock_api_key(&self) -> (r: bool)
        ensures
            r == self.is_bedrock(),
    {
        match self.auth_mode {
            Some(mode) => mode == AuthMode::BedrockApiKey,
            None => self.bedrock_api_key.is_some(),
        }
    }

    /// Whether the authentication is with the key for Amazon Bedrock and holds
    /// nothing else.
    pub open spec fn is_only_bedrock(self, key: BedrockView) -> bool {
        &&& self.auth_mode == Some(AuthMode::BedrockApiKey)
        &&& self.openai_api_key is None
        &&& self.tokens is None
        &&& self.last_refresh is None
        &&& self.agent_identity is None
        &&& self.personal_access_token is None
        &&& opt_bedrock(self.bedrock_api_key) == Some(key)
    }
}

/// What to store in order to authenticate with a key for Amazon Bedrock: the key
/// and nothing else.
pub fn bedrock_api_key_login(api_key: &str, region: &str) -> (r: AuthDotJson)
    ensures
        r.is_only_bedrock(BedrockView { api_key: api_key@, region: region@ }),
{
    AuthDotJson {
        auth_mode: Some(AuthMode::BedrockApiKey),
        openai_api_key: None,
        tokens: None,
        last_refresh: None,
        agent_identity: None,
        personal_access_token: None,
        bedrock_api_key: Some(BedrockApiKeyAuth { api_key: api_key.to_string(), region: region.to_string() }),
    }
}

/// The key for Amazon Bedrock that is stored, where the authentication is with
/// one.
pub open spec fn stored_key(stored: Option<AuthDotJson>) -> Option<BedrockView> {
    match stored {
        Some(auth) => if auth.is_bedrock() {
            opt_bedrock(auth.bedrock_api_key)
        } else {
            None
        },
        None => None,
    }
}

/// The key for Amazon Bedrock that is stored, where the authentication is with
/// one.
pub fn stored_bedrock_api_key(stored: &Option<AuthDotJson>) -> (r: Option<BedrockApiKeyAuth>)
    ensures
        opt_bedrock(r) == stored_key(*stored),
{
    match stored {
        Some(auth) => if auth.is_bedrock_api_key() {
            match &auth.bedrock_api_key {
                Some(key) => Some(BedrockApiKeyAuth { api_key: key.api_key.clone(), region: key.region.clone() }),
                None => None,
            }
        } else {
            None
        },
        None => None,
    }
}

/// What a session knows of its authentication: what is stored, and what it has
/// taken from there.
pub struct AuthManager {
    pub stored: Option<AuthDotJson>,
    pub api_auth_mode: Option<AuthMode>,
    pub bedrock_api_key: Option<BedrockApiKeyAuth>,
}

impl AuthManager {
    /// How the account is authenticated, as far as the session knows.
    pub fn account_auth_mode_cached(&self) -> (r: Option<AuthMode>)
        ensures
            r == (match self.api_auth_mode {
                Some(mode) => Some(mode),
                None => if self.bedrock_api_key is Some {
                    Some(AuthMode::BedrockApiKey)
                } else {
                    None
                },
            }),
    {
        match self.api_auth_mode {
            Some(mode) => Some(mode),
            None => if self.bedrock_api_key.is_some() {
                Some(AuthMode::BedrockApiKey)
            } else {
                None
            },
        }
    }

    /// Whether an authentication with a key for Amazon Bedrock is stored.
    pub fn has_stored_bedrock_api_key_auth(&self) -> (r: bool)
        ensures
            r == (self.stored matches Some(auth) && auth.is_bedrock()),
    {
        match &self.stored {
            Some(auth) => auth.is_bedrock_api_key(),
            None => false,
        }
    }

    /// Stores a key for Amazon Bedrock in place of what was stored, and takes it.
    pub fn login_with_bedrock_api_key(&mut self, api_key: &str, region: &str)
        ensures
            final(self).stored matches Some(auth) && auth.is_only_bedrock(
                BedrockView { api_key: api_key@, region: region@ },
            ),
            opt_bedrock(final(self).bedrock_api_key) == Some(BedrockView { api_key: api_key@, region: region@ }),
            final(self).api_auth_mode is None,
    {
        self.stored = Some(bedrock_api_key_login(api_key, region));
        self.bedrock_api_key = stored_bedrock_api_key(&self.stored);
        self.api_auth_mode = None;
    }
}

/// What is stored to authenticate with a key for Amazon Bedrock gives back that
/// key.
pub proof fn law_stored_key_is_read_back(auth: AuthDotJson, key: BedrockView)
    requires
        auth.is_only_bedrock(key),
    ensures
        stored_key(Some(auth)) == Some(key),
{
}

/// What is stored is used as a Bedrock key exactly where it says that it is one,
/// or does not say what it is and holds one; a key that is held beside another
/// way to sign in is not used.
pub proof fn law_key_is_used_where_it_is_the_way_in(auth: AuthDotJson)
    ensures
        auth.auth_mode == Some(AuthMode::BedrockApiKey) ==> auth.is_bedrock() && stored_key(Some(auth)) == opt_bedrock(
            auth.bedrock_api_key,
        ),
        auth.auth_mode is None ==> (auth.is_bedrock() <==> auth.bedrock_api_key is Some) && stored_key(Some(auth))
            == opt_bedrock(auth.bedrock_api_key),
        auth.auth_mode is Some && auth.auth_mode != Some(AuthMode::BedrockApiKey) ==> !auth.is_bedrock() && stored_key(
            Some(auth),
        ) is None,
        stored_key(None) is None,
{
}

} // verus!
