//! The agent's settings and secrets.

use vstd::prelude::*;

verus! {

/// The agent's settings.
pub struct Config {
    pub metrics_url: String,
    pub scrape_interval_ms: u64,
    /// Optional rules file; when absent the built-in rules are used.
    pub rules_path: Option<String>,
    pub rpc_url: String,
    pub scrape_timeout_ms: u64,
    pub rpc_timeout_ms: u64,
}

impl Default for Config {
    /// The node's standard endpoints, a 5 s scrape interval, 8 s timeouts,
    /// and the built-in rules.
    fn default() -> (c: Self)
        ensures
            c.metrics_url@ == "http://localhost:8889/metrics"@,
            c.scrape_interval_ms == 5000,
            c.rules_path is None,
            c.rpc_url@ == "http://localhost:8080"@,
            c.scrape_timeout_ms == 8000,
            c.rpc_timeout_ms == 8000,
    {
        Config {
            metrics_url: String::from_str("http://localhost:8889/metrics"),
            scrape_interval_ms: 5000,
            rules_path: None,
            rpc_url: String::from_str("http://localhost:8080"),
            scrape_timeout_ms: 8000,
            rpc_timeout_ms: 8000,
        }
    }
}

/// Where the rule definitions come from.
pub enum RulesSource {
    /// A file that must exist.
    File(String),
    /// The rules built into the program.
    BuiltIn,
}

impl Config {
    /// Where the rules come from: an explicitly configured file (which must
    /// then be read, with no fallback), otherwise the built-in rules.
    pub fn rules_source(&self) -> (r: RulesSource)
        ensures
            self.rules_path matches Some(p) ==> (r matches RulesSource::File(f) && f@ == p@),
            self.rules_path is None ==> r is BuiltIn,
    {
        match &self.rules_path {
            Some(p) => RulesSource::File(p.clone()),
            None => RulesSource::BuiltIn,
        }
    }
}

/// The Telegram credentials, from the environment.
pub struct Secrets {
    pub telegram_token: String,
    pub telegram_chat_id: String,
}

} // verus!
