//! The configuration: what the environment must give before anything runs.

use crate::image::CONTENT_ROOT;
use crate::rewriter::{pairs, parse_substitutions, parsed_substitutions, Substitution};
use vstd::prelude::*;
use vstd::string::StringExecFns;

verus! {

/// What is missing from the environment.
#[derive(Debug, Clone, Copy, PartialEq, Eq, Structural)]
pub enum ConfigError {
    /// The environment file is missing or cannot be read.
    EnvFile,
    /// The URL of the data source is not set.
    DbUrl,
    /// The base URL of the destination is not set.
    ApiUrl,
    /// The credential for the destination is not set.
    ApiToken,
}

/// What the library is configured with. It is built once and handed to
/// whatever needs it.
#[derive(Debug, PartialEq, Eq)]
pub struct Config {
    /// The URL of the data source.
    pub db_url: String,
    /// The base URL of the destination.
    pub api_url: String,
    /// The credential for the destination.
    pub api_token: String,
    /// The canonical base domain, where one is set.
    pub base_domain: Option<String>,
    /// The directory that holds the legacy system's files.
    pub content_root: String,
    /// The domain substitutions, in the order in which they apply.
    pub substitutions: Vec<Substitution>,
}

/// The first thing that is missing, in the order in which things are looked
/// for; `None` where nothing is.
pub open spec fn first_missing(
    env_file_loaded: bool,
    db_url: Option<String>,
    api_url: Option<String>,
    api_token: Option<String>,
) -> Option<ConfigError> {
    if !env_file_loaded {
        Some(ConfigError::EnvFile)
    } else if db_url is None {
        Some(ConfigError::DbUrl)
    } else if api_url is None {
        Some(ConfigError::ApiUrl)
    } else if api_token is None {
        Some(ConfigError::ApiToken)
    } else {
        None
    }
}

/// The substitutions that an optional list spells; none where there is no
/// list.
pub open spec fn listed_substitutions(patterns: Option<String>) -> Seq<(Seq<char>, Seq<char>)> {
    match patterns {
        Some(list) => parsed_substitutions(list@),
        None => Seq::empty(),
    }
}

/// The words for what is missing.
pub open spec fn error_words(error: ConfigError) -> Seq<char> {
    match error {
        ConfigError::EnvFile => "Arquivo .env não encontrado ou inválido."@,
        ConfigError::DbUrl => "Variável de ambiente DB_URL não encontrada."@,
        ConfigError::ApiUrl => "Variável de ambiente API_URL não encontrada."@,
        ConfigError::ApiToken => "Variável de ambiente API_TOKEN não encontrada."@,
    }
}

impl ConfigError {
    /// The words for what is missing.
    pub fn message(&self) -> (words: String)
        ensures
            words@ == error_words(*self),
    {
        match self {
            ConfigError::EnvFile => String::from_str("Arquivo .env não encontrado ou inválido."),
            ConfigError::DbUrl => String::from_str("Variável de ambiente DB_URL não encontrada."),
            ConfigError::ApiUrl => String::from_str("Variável de ambiente API_URL não encontrada."),
            ConfigError::ApiToken => String::from_str(
                "Variável de ambiente API_TOKEN não encontrada.",
            ),
        }
    }
}

impl Config {
    /// The configuration from what the environment holds. It fails with the
    /// first thing that is missing: the environment file, the URL of the
    /// data source, the base URL of the destination, the credential, in this
    /// order. The base domain may be missing, and so may the list of
    /// substitutions: there are none then. The content root is the legacy
    /// system's usual one.
    pub fn from_values(
        env_file_loaded: bool,
        db_url: Option<String>,
        api_url: Option<String>,
        api_token: Option<String>,
        base_domain: Option<String>,
        patterns: Option<String>,
    ) -> (r: Result<Config, ConfigError>)
        ensures
            match first_missing(env_file_loaded, db_url, api_url, api_token) {
                Some(error) => r == Err::<Config, ConfigError>(error),
                None => r matches Ok(config) && Some(config.db_url) == db_url && Some(
                    config.api_url,
                ) == api_url && Some(config.api_token) == api_token && config.base_domain
                    == base_domain && config.content_root@ == CONTENT_ROOT@ && pairs(
                    config.substitutions@,
                ) == listed_substitutions(patterns),
            },
    {
        if !env_file_loaded {
            return Err(ConfigError::EnvFile);
        }
        let db_url = match db_url {
            Some(value) => value,
            None => {
                return Err(ConfigError::DbUrl);
            },
        };
        let api_url = match api_url {
            Some(value) => value,
            None => {
                return Err(ConfigError::ApiUrl);
            },
        };
        let api_token = match api_token {
            Some(value) => value,
            None => {
                return Err(ConfigError::ApiToken);
            },
        };
        let substitutions = match patterns {
            Some(list) => parse_substitutions(list.as_str()),
            None => Vec::new(),
        };
        proof {
            if patterns is None {
                assert(pairs(substitutions@) == Seq::<(Seq<char>, Seq<char>)>::empty());
            }
        }
        Ok(
            Config {
                db_url,
                api_url,
                api_token,
                base_domain,
                content_root: String::from_str(CONTENT_ROOT),
                substitutions,
            },
        )
    }
}

} // verus!
