//! Static configuration: listen addresses, the download daemon's RPC
//! endpoint, and the per-adapter selector set for the HTML listing source.

use vstd::prelude::*;
use vstd::string::StringExecFns;

verus! {

/// Process-level configuration.
#[derive(Debug, Clone)]
pub struct ServerConfig {
    pub discovery_addr: String,
    pub server_addr: String,
    pub transmission_url: String,
}

impl Default for ServerConfig {
    fn default() -> (c: Self)
        ensures
            c.discovery_addr@ == "0.0.0.0:9191"@,
            c.server_addr@ == "0.0.0.0:9090"@,
            c.transmission_url@ == "http://127.0.0.1:9091/transmission/rpc"@,
    {
        Self {
            discovery_addr: String::from_str("0.0.0.0:9191"),
            server_addr: String::from_str("0.0.0.0:9090"),
            transmission_url: String::from_str("http://127.0.0.1:9091/transmission/rpc"),
        }
    }
}

/// Configuration of one HTML listing adapter instance: the site's base URL
/// and the selector set; new sources are added by supplying a new selector
/// set plus URL template rather than by changing shared code.
#[derive(Debug, Clone)]
pub struct L337xToConfig {
    pub base_url: String,
    pub selectors: L337xToSelectors,
}

/// The CSS selectors that drive listing parsing: the repeated row node and
/// the per-row field selectors, plus the link-anchor selector used on the
/// detail page.
#[derive(Debug, Clone)]
pub struct L337xToSelectors {
    pub row: String,
    pub name: String,
    pub seeders: String,
    pub leechers: String,
    pub size: String,
    pub url: String,
    pub magnet: String,
}

/// The selector strings of the reference site, as a predicate usable in
/// contracts about adapters built from the default configuration.
pub open spec fn default_selectors(c: L337xToSelectors) -> bool {
    &&& c.row@ == "tr"@
    &&& c.name@ == ".name"@
    &&& c.seeders@ == ".seeds"@
    &&& c.leechers@ == ".leeches"@
    &&& c.size@ == ".size"@
    &&& c.url@ == ".name a:nth-child(2)"@
    &&& c.magnet@ == "a[href^=magnet]"@
}

impl Default for L337xToConfig {
    fn default() -> (c: Self)
        ensures
            c.base_url@ == "https://1337xx.to"@,
            default_selectors(c.selectors),
    {
        Self { base_url: String::from_str("https://1337xx.to"), selectors: L337xToSelectors::default() }
    }
}

impl Default for L337xToSelectors {
    fn default() -> (c: Self)
        ensures
            default_selectors(c),
            c.row@ == "tr"@,
            c.name@ == ".name"@,
            c.seeders@ == ".seeds"@,
            c.leechers@ == ".leeches"@,
            c.size@ == ".size"@,
            c.url@ == ".name a:nth-child(2)"@,
            c.magnet@ == "a[href^=magnet]"@,
    {
        Self {
            row: String::from_str("tr"),
            name: String::from_str(".name"),
            seeders: String::from_str(".seeds"),
            leechers: String::from_str(".leeches"),
            size: String::from_str(".size"),
            url: String::from_str(".name a:nth-child(2)"),
            magnet: String::from_str("a[href^=magnet]"),
        }
    }
}

} // verus!
