//! Persisted application configuration: the provider credentials and the model map.

use vstd::prelude::*;
use vstd::string::*;

use crate::mapping::ModelMap;
use crate::paths;
use crate::paths::join_path;
use crate::platform::Platform;
use crate::provider::ProviderConfig;

verus! {

#[derive(Debug, Clone)]
pub struct AppConfig {
    pub provider: ProviderConfig,
    pub mappings: ModelMap,
}

impl Default for AppConfig {
    fn default() -> (r: Self)
        ensures
            r.provider.base_url@ == "https://api.openai.com/v1"@,
            r.provider.api_key@ == Seq::<char>::empty(),
            r.mappings.models@.len() == 0,
            r.mappings.default is None,
    {
        AppConfig {
            provider: ProviderConfig::default(),
            mappings: ModelMap { models: Vec::new(), default: None },
        }
    }
}

impl AppConfig {
    /// Where the configuration is kept.
    pub fn path(platform: Platform, data_dir: &str) -> (r: String)
        ensures
            r@ == join_path(platform, data_dir@, "config.json"@),
    {
        paths::join(platform, data_dir, "config.json")
    }
}

// ── Laws ─────────────────────────────────────────────────────────────────────

/// The configuration is kept in the data directory.
pub proof fn law_the_configuration_is_kept_with_the_data(
    platform: Platform,
    data_dir: &str,
    r: String,
)
    requires
        call_ensures(AppConfig::path, (platform, data_dir), r),
    ensures
        r@ == join_path(platform, data_dir@, "config.json"@),
{
}

/// What is assumed where nothing is configured: the public endpoint, no key, and nothing mapped.
pub proof fn law_nothing_is_assumed_but_the_endpoint(config: AppConfig, provider: ProviderConfig)
    requires
        call_ensures(AppConfig::default, (), config),
        call_ensures(ProviderConfig::default, (), provider),
    ensures
        config.provider.base_url@ == "https://api.openai.com/v1"@,
        config.provider.api_key@.len() == 0,
        config.mappings.models@.len() == 0,
        config.mappings.default is None,
        provider.base_url@ == config.provider.base_url@,
        provider.api_key@.len() == 0,
{
}

} // verus!
