//! Configuration values. Reading them from the process environment is the
//! caller's concern; the library only carries them.

use vstd::prelude::*;

verus! {

/// Connection settings for the model endpoint.
pub struct LlmConfig {
    pub base_url: String,
    pub model: String,
    pub api_key: String,
}

/// Where files and logs live, and the public base URL they are served under.
pub struct ServerConfig {
    pub files_dir: String,
    pub logs_dir: String,
    pub base_url: String,
}

/// Where records are persisted.
pub struct DatabaseConfig {
    pub url: String,
}

/// The whole configuration.
pub struct Config {
    pub llm: LlmConfig,
    pub server: ServerConfig,
    pub database: DatabaseConfig,
}

} // verus!
