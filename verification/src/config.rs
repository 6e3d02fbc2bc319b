//! Startup configuration: the three required credentials and the optional
//! key-name filter.

use vstd::prelude::*;

verus! {

/// The three opaque identifiers every request needs. Read once at startup and
/// never changed afterwards.
pub struct Credentials {
    pub account_id: String,
    pub namespace_id: String,
    pub auth_token: String,
}

/// Why configuration could not be assembled: exactly one required variable is
/// reported, the first missing one in the order they are read.
pub enum ConfigError {
    MissingAccountId,
    MissingNamespaceId,
    MissingAuthToken,
}

impl ConfigError {
    /// The name of the environment variable whose absence this error reports.
    pub fn variable(&self) -> (r: String)
        ensures
            *self == ConfigError::MissingAccountId ==> r@ == "ACCOUNT_ID"@,
            *self == ConfigError::MissingNamespaceId ==> r@ == "NAMESPACE_ID"@,
            *self == ConfigError::MissingAuthToken ==> r@ == "AUTH_TOKEN"@,
    {
        match self {
            ConfigError::MissingAccountId => String::from_str("ACCOUNT_ID"),
            ConfigError::MissingNamespaceId => String::from_str("NAMESPACE_ID"),
            ConfigError::MissingAuthToken => String::from_str("AUTH_TOKEN"),
        }
    }
}

/// Everything a run needs: the credentials plus the literal, case-sensitive
/// substring a key name must contain to be downloaded. An absent command-line
/// argument becomes the empty filter, which selects every key.
pub struct Config {
    pub credentials: Credentials,
    pub filter: String,
}

/// Assembles the configuration from the values found in the environment and
/// on the command line. Each credential is required: the first absent one is
/// reported and nothing else happens; this is checked before any request is
/// issued.
pub fn build_config(
    account_id: Option<String>,
    namespace_id: Option<String>,
    auth_token: Option<String>,
    filter_arg: Option<String>,
) -> (r: Result<Config, ConfigError>)
    ensures
        r is Ok <==> (account_id is Some && namespace_id is Some && auth_token is Some),
        account_id is None ==> r == Result::<Config, ConfigError>::Err(
            ConfigError::MissingAccountId,
        ),
        account_id is Some && namespace_id is None ==> r == Result::<Config, ConfigError>::Err(
            ConfigError::MissingNamespaceId,
        ),
        account_id is Some && namespace_id is Some && auth_token is None ==> r
            == Result::<Config, ConfigError>::Err(ConfigError::MissingAuthToken),
        r is Ok ==> {
            let c = r->Ok_0;
            &&& c.credentials.account_id == account_id->0
            &&& c.credentials.namespace_id == namespace_id->0
            &&& c.credentials.auth_token == auth_token->0
            &&& (filter_arg is Some ==> c.filter == filter_arg->0)
            &&& (filter_arg is None ==> c.filter@ == Seq::<char>::empty())
        },
{
    let account_id = match account_id {
        Some(a) => a,
        None => {
            return Err(ConfigError::MissingAccountId);
        },
    };
    let namespace_id = match namespace_id {
        Some(n) => n,
        None => {
            return Err(ConfigError::MissingNamespaceId);
        },
    };
    let auth_token = match auth_token {
        Some(t) => t,
        None => {
            return Err(ConfigError::MissingAuthToken);
        },
    };
    let filter = match filter_arg {
        Some(f) => f,
        None => String::new(),
    };
    Ok(Config { credentials: Credentials { account_id, namespace_id, auth_token }, filter })
}

} // verus!
