use vstd::prelude::*;
use vstd::string::*;

verus! {

/// The whole configuration file.
#[derive(Debug)]
pub struct AppConfig {
    pub global: GlobalConfig,
    pub ip_config: IpConfig,
    pub discovery: DiscoveryConfig,
}

/// Settings that apply to every service.
#[derive(Debug)]
pub struct GlobalConfig {
    pub env: String,
}

/// Settings of the IP configuration service.
#[derive(Debug)]
pub struct IpConfig {
    pub service_path: String,
}

/// Where the service-discovery store lives.
#[derive(Debug, Clone)]
pub struct DiscoveryConfig {
    pub endpoints: Vec<String>,
    pub timeout: u64,
}

/// The environment name under which the IP configuration service also
/// registers its own mock endpoints.
pub open spec fn debug_env() -> Seq<char> {
    seq!['d', 'e', 'b', 'u', 'g']
}

impl GlobalConfig {
    /// Whether the configured environment is `"debug"`.
    pub fn is_debug(&self) -> (debug: bool)
        ensures
            debug == (self.env@ == debug_env()),
    {
        let expected = String::from_str("debug");
        proof {
            reveal_strlit("debug");
            assert("debug"@ =~= debug_env());
        }
        self.env == expected
    }
}

} // verus!
