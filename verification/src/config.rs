//! The settings of the proxy.

use vstd::prelude::*;
use vstd::string::*;

use crate::wire::opt_view;

verus! {

/// The settings of the proxy.
#[derive(Debug)]
pub struct ConfigFile {
    pub redis_addr: Option<String>,
    pub redis_ttl: Option<u64>,
    pub http_bind_addr: String,
    pub agent_bind_addr: String,
    pub ping_wait_ms: u64,
    pub agent_timeout: u64,
    pub user_agent: Option<String>,
    pub local_media_url: Option<String>,
}

/// The path of the settings: what the environment says, or `config.json` where
/// it says nothing.
pub open spec fn config_path_of(named: Option<Seq<char>>) -> Seq<char> {
    match named {
        Some(path) => if path.len() == 0 {
            "config.json"@
        } else {
            path
        },
        None => "config.json"@,
    }
}

/// Decides where the settings are.
pub fn config_path(named: Option<String>) -> (path: String)
    ensures
        path@ == config_path_of(opt_view(named)),
        named matches Some(given) ==> given@.len() > 0 ==> path@ == given@,
        named matches Some(given) ==> given@.len() == 0 ==> path@ == "config.json"@,
        named is None ==> path@ == "config.json"@,
{
    match named {
        Some(path) => if path.as_str().is_empty() {
            "config.json".to_owned()
        } else {
            path
        },
        None => "config.json".to_owned(),
    }
}

impl ConfigFile {
    /// The settings that a new installation starts with.
    pub fn initial() -> (config: ConfigFile)
        ensures
            config.redis_addr is None,
            config.redis_ttl == Some(3600u64),
            config.http_bind_addr@ == "0.0.0.0:8080"@,
            config.agent_bind_addr@ == "0.0.0.0:23725"@,
            config.ping_wait_ms == 30000,
            config.agent_timeout == 1000,
            opt_view(config.user_agent) == Some("https://github.com/yojo-art/files-proxy"@),
            opt_view(config.local_media_url) == Some("http://localhost:3000"@),
    {
        ConfigFile {
            redis_addr: None,
            redis_ttl: Some(3600),
            http_bind_addr: "0.0.0.0:8080".to_owned(),
            agent_bind_addr: "0.0.0.0:23725".to_owned(),
            ping_wait_ms: 30000,
            agent_timeout: 1000,
            user_agent: Some("https://github.com/yojo-art/files-proxy".to_owned()),
            local_media_url: Some("http://localhost:3000".to_owned()),
        }
    }

    /// Whether the agent is pinged at intervals.
    pub fn pings(&self) -> (r: bool)
        ensures
            r == (self.ping_wait_ms > 0),
    {
        self.ping_wait_ms > 0
    }
}

/// A path that the environment names is taken as it is; an empty one, or none,
/// leaves `config.json`.
pub proof fn law_config_path(path: Seq<char>)
    ensures
        path.len() > 0 ==> config_path_of(Some(path)) == path,
        config_path_of(Some(Seq::empty())) == "config.json"@,
        config_path_of(None) == "config.json"@,
{
}

} // verus!
