//! The proxy settings of a connection, as the system reports them.

use vstd::prelude::*;

verus! {

/// The flag of the connection flags that says a proxy server is in use.
pub const PROXY_TYPE_PROXY: u32 = 0x2;

/// The flag of the connection flags that says an automatic configuration
/// script is in use.
pub const PROXY_TYPE_AUTO_PROXY_URL: u32 = 0x4;

/// The proxy settings of a connection.
#[derive(Debug, Clone, PartialEq, Eq)]
pub struct ProxyOption {
    pub pac_enabled: bool,
    pub pac_url: String,
    pub proxy_enabled: bool,
    pub proxy_address: String,
    pub proxy_bypass_list: Vec<String>,
}

impl ProxyOption {
    /// Puts the settings together from what was queried: the connection
    /// flags decide what is enabled, the texts are kept as they are.
    pub fn from_query(
        flags: u32,
        pac_url: String,
        proxy_address: String,
        proxy_bypass_list: Vec<String>,
    ) -> (option: ProxyOption)
        ensures
            option.pac_enabled == (flags & PROXY_TYPE_AUTO_PROXY_URL != 0),
            option.proxy_enabled == (flags & PROXY_TYPE_PROXY != 0),
            option.pac_url == pac_url,
            option.proxy_address == proxy_address,
            option.proxy_bypass_list == proxy_bypass_list,
    {
        ProxyOption {
            pac_enabled: flags & PROXY_TYPE_AUTO_PROXY_URL != 0,
            pac_url,
            proxy_enabled: flags & PROXY_TYPE_PROXY != 0,
            proxy_address,
            proxy_bypass_list,
        }
    }
}

} // verus!
