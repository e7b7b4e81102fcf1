//! Which store the tokens for a server are read from, once and for all.

use vstd::prelude::*;

use crate::text;

verus! {

/// Which stores may be used.
#[derive(Clone, Copy, Debug, PartialEq, Eq, Structural)]
pub enum OAuthCredentialsStoreMode {
    /// The keyring, or else the file.
    Auto,
    File,
    Keyring,
}

/// The kind of keyring.
#[derive(Clone, Copy, Debug, PartialEq, Eq, Structural)]
pub enum AuthKeyringBackendKind {
    Direct,
    Secrets,
}

/// The store that the tokens were read from. They are read again, renewed and
/// removed there and nowhere else.
#[derive(Clone, Copy, Debug, PartialEq, Eq, Structural)]
pub enum ResolvedOAuthCredentialStore {
    File,
    Keyring(AuthKeyringBackendKind),
}

/// Tokens with the store that they were read from.
#[derive(Debug, PartialEq)]
pub struct ResolvedOAuthTokens<T> {
    pub tokens: T,
    pub store: ResolvedOAuthCredentialStore,
}

/// Why tokens cannot be had.
#[derive(Debug, PartialEq)]
pub struct StoreError {
    pub message: String,
    /// What lies behind the message.
    pub cause: Option<String>,
    /// Whether a store could not be locked.
    pub is_lock_failure: bool,
}

/// Why tokens cannot be had, in characters.
#[verifier::ext_equal]
pub struct StoreFault {
    pub message: Seq<char>,
    pub cause: Option<Seq<char>>,
    pub is_lock_failure: bool,
}

impl View for StoreError {
    type V = StoreFault;

    open spec fn view(&self) -> StoreFault {
        StoreFault {
            message: self.message@,
            cause: text::opt_view(self.cause),
            is_lock_failure: self.is_lock_failure,
        }
    }
}

/// Why a store could not be read: it is not to be had, or it could not be
/// locked.
#[derive(Debug, PartialEq)]
pub struct ReadFailure {
    pub message: String,
    pub is_lock_failure: bool,
}

/// Whether the keyring is read first.
pub fn reads_keyring_first(mode: OAuthCredentialsStoreMode) -> (r: bool)
    ensures
        r == (mode != OAuthCredentialsStoreMode::File),
{
    match mode {
        OAuthCredentialsStoreMode::File => false,
        _ => true,
    }
}

/// What follows after the keyring was read.
pub enum KeyringStep<T> {
    /// The tokens are these, or there are none.
    Done(Option<ResolvedOAuthTokens<T>>),
    /// The file is read; this is told where it cannot be.
    ReadFile { context: Option<String> },
    /// The tokens cannot be had.
    Fail(StoreError),
}

/// Whether the step follows what the keyring answered. A keyring that is not to
/// be had makes way for the file where that may be used, but one that another
/// process holds does not: the file could come to hold newer tokens than the
/// keyring, which is read first.
pub open spec fn keyring_step_follows<T>(
    step: KeyringStep<T>,
    mode: OAuthCredentialsStoreMode,
    kind: AuthKeyringBackendKind,
    reply: Result<Option<T>, ReadFailure>,
) -> bool {
    match reply {
        Ok(Some(tokens)) => step == KeyringStep::Done(
            Some(ResolvedOAuthTokens { tokens, store: ResolvedOAuthCredentialStore::Keyring(kind) }),
        ),
        Ok(None) => if mode == OAuthCredentialsStoreMode::Auto {
            step == (KeyringStep::<T>::ReadFile { context: None })
        } else {
            step == KeyringStep::<T>::Done(None)
        },
        Err(failure) => if mode != OAuthCredentialsStoreMode::Auto {
            step matches KeyringStep::Fail(e) && e@ == (StoreFault {
                message: "failed to read OAuth tokens from keyring"@,
                cause: Some(failure.message@),
                is_lock_failure: failure.is_lock_failure,
            })
        } else if failure.is_lock_failure {
            step matches KeyringStep::Fail(e) && e@ == (StoreFault {
                message: failure.message@,
                cause: None,
                is_lock_failure: true,
            })
        } else {
            step matches KeyringStep::ReadFile { context } && text::opt_view(context) == Some(
                "failed to read OAuth tokens from keyring: "@ + failure.message@,
            )
        },
    }
}

/// What follows after the keyring was read.
pub fn on_keyring<T>(
    mode: OAuthCredentialsStoreMode,
    kind: AuthKeyringBackendKind,
    reply: Result<Option<T>, ReadFailure>,
) -> (r: KeyringStep<T>)
    requires
        mode != OAuthCredentialsStoreMode::File,
    ensures
        keyring_step_follows(r, mode, kind, reply),
{
    let auto = match mode {
        OAuthCredentialsStoreMode::Auto => true,
        _ => false,
    };
    match reply {
        Ok(Some(tokens)) => KeyringStep::Done(
            Some(ResolvedOAuthTokens { tokens, store: ResolvedOAuthCredentialStore::Keyring(kind) }),
        ),
        Ok(None) => if auto {
            KeyringStep::ReadFile { context: None }
        } else {
            KeyringStep::Done(None)
        },
        Err(failure) => if !auto {
            KeyringStep::Fail(
                StoreError {
                    message: "failed to read OAuth tokens from keyring".to_string(),
                    cause: Some(failure.message),
                    is_lock_failure: failure.is_lock_failure,
                },
            )
        } else if failure.is_lock_failure {
            KeyringStep::Fail(StoreError { message: failure.message, cause: None, is_lock_failure: true })
        } else {
            let mut context = "failed to read OAuth tokens from keyring: ".to_string();
            context.push_str(failure.message.as_str());
            KeyringStep::ReadFile { context: Some(context) }
        },
    }
}

/// What comes of reading the file, for whatever reason it is read.
pub fn on_file<T>(context: Option<String>, reply: Result<Option<T>, ReadFailure>) -> (r: Result<
    Option<ResolvedOAuthTokens<T>>,
    StoreError,
>)
    ensures
        match reply {
            Ok(Some(tokens)) => r == Ok::<Option<ResolvedOAuthTokens<T>>, StoreError>(
                Some(ResolvedOAuthTokens { tokens, store: ResolvedOAuthCredentialStore::File }),
            ),
            Ok(None) => r == Ok::<Option<ResolvedOAuthTokens<T>>, StoreError>(None),
            Err(error) => r matches Err(e) && e@ == (match context {
                Some(context) => StoreFault {
                    message: context@,
                    cause: Some(error.message@),
                    is_lock_failure: error.is_lock_failure,
                },
                None => StoreFault {
                    message: error.message@,
                    cause: None,
                    is_lock_failure: error.is_lock_failure,
                },
            }),
        },
{
    match reply {
        Ok(Some(tokens)) => Ok(
            Some(ResolvedOAuthTokens { tokens, store: ResolvedOAuthCredentialStore::File }),
        ),
        Ok(None) => Ok(None),
        Err(error) => match context {
            Some(message) => Err(
                StoreError {
                    message,
                    cause: Some(error.message),
                    is_lock_failure: error.is_lock_failure,
                },
            ),
            None => Err(
                StoreError {
                    message: error.message,
                    cause: None,
                    is_lock_failure: error.is_lock_failure,
                },
            ),
        },
    }
}

/// What is told where tokens cannot be read again from the store that they were
/// read from.
pub open spec fn reread_context(store: ResolvedOAuthCredentialStore) -> Seq<char> {
    match store {
        ResolvedOAuthCredentialStore::File => "failed to reread OAuth tokens from resolved file storage"@,
        ResolvedOAuthCredentialStore::Keyring(_) => "failed to reread OAuth tokens from resolved keyring storage; refusing file fallback"@,
    }
}

/// What comes of reading the tokens again from the store that they were read
/// from. No other store is read where that fails.
pub fn on_reread<T>(store: ResolvedOAuthCredentialStore, reply: Result<Option<T>, ReadFailure>) -> (r: Result<
    Option<T>,
    StoreError,
>)
    ensures
        match reply {
            Ok(tokens) => r == Ok::<Option<T>, StoreError>(tokens),
            Err(error) => r matches Err(e) && e@ == (StoreFault {
                message: reread_context(store),
                cause: Some(error.message@),
                is_lock_failure: error.is_lock_failure,
            }),
        },
{
    match reply {
        Ok(tokens) => Ok(tokens),
        Err(error) => {
            let message = match store {
                ResolvedOAuthCredentialStore::File => "failed to reread OAuth tokens from resolved file storage",
                ResolvedOAuthCredentialStore::Keyring(_) => "failed to reread OAuth tokens from resolved keyring storage; refusing file fallback",
            };
            Err(
                StoreError {
                    message: message.to_string(),
                    cause: Some(error.message),
                    is_lock_failure: error.is_lock_failure,
                },
            )
        },
    }
}

/// A keyring that another process holds is never passed over in favour of the
/// file, whatever stores may be used.
pub proof fn law_lock_failure_is_surfaced<T>(
    step: KeyringStep<T>,
    mode: OAuthCredentialsStoreMode,
    kind: AuthKeyringBackendKind,
    failure: ReadFailure,
)
    requires
        failure.is_lock_failure,
        keyring_step_follows(step, mode, kind, Err(failure)),
    ensures
        step matches KeyringStep::Fail(e) && e.is_lock_failure,
{
}

/// Only where both stores may be used does the file stand in for the keyring,
/// and then only where the keyring holds nothing or is not to be had.
pub proof fn law_file_stands_in_only_for_auto<T>(
    step: KeyringStep<T>,
    mode: OAuthCredentialsStoreMode,
    kind: AuthKeyringBackendKind,
    reply: Result<Option<T>, ReadFailure>,
)
    requires
        keyring_step_follows(step, mode, kind, reply),
        step is ReadFile,
    ensures
        mode == OAuthCredentialsStoreMode::Auto,
        reply matches Ok(tokens) ==> tokens is None,
        reply matches Err(failure) ==> !failure.is_lock_failure,
{
}

/// Tokens that the keyring holds are taken from it, whatever the mode. Where it
/// holds none, or cannot be read, the file is read where the mode leaves the
/// choice open; else there are no tokens, or the failure is told.
pub proof fn law_keyring_comes_before_the_file<T>(
    step: KeyringStep<T>,
    mode: OAuthCredentialsStoreMode,
    kind: AuthKeyringBackendKind,
    reply: Result<Option<T>, ReadFailure>,
)
    requires
        mode != OAuthCredentialsStoreMode::File,
        keyring_step_follows(step, mode, kind, reply),
    ensures
        reply matches Ok(Some(tokens)) ==> step matches KeyringStep::Done(Some(found)) && found.tokens == tokens
            && found.store == ResolvedOAuthCredentialStore::Keyring(kind),
        mode == OAuthCredentialsStoreMode::Auto ==> (step is ReadFile <==> (reply matches Ok(tokens) && tokens is None)
            || (reply matches Err(failure) && !failure.is_lock_failure)),
        mode == OAuthCredentialsStoreMode::Keyring ==> (step is Fail <==> reply is Err) && (reply matches Ok(tokens)
            ==> tokens is None ==> step == KeyringStep::<T>::Done(None)),
        step matches KeyringStep::Fail(e) ==> reply matches Err(failure) && e.is_lock_failure
            == failure.is_lock_failure,
        step matches KeyringStep::ReadFile { context } ==> (context is Some <==> reply is Err),
{
}

/// A store that cannot be read again is told by its kind, and a keyring with that
/// nothing else is read in its place.
pub proof fn law_failed_reread_names_the_store(kind: AuthKeyringBackendKind)
    ensures
        reread_context(ResolvedOAuthCredentialStore::File) == "failed to reread OAuth tokens from resolved file storage"@,
        reread_context(ResolvedOAuthCredentialStore::Keyring(kind))
            == "failed to reread OAuth tokens from resolved keyring storage; refusing file fallback"@,
{
}

} // verus!
