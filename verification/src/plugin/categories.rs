//! Well-known categories and the capabilities each one defines. A category
//! is a contract: plugins in it implement the same interface, so anything
//! built on the category works with every one of them.
use vstd::prelude::*;

use crate::text::str_eq;

verus! {

/// File formats (hosts, sshd_config, pg_hba.conf, ufw rules).
pub const CONFIG_FORMAT: &'static str = "config.format";

/// Where servers come from (Linode, UpCloud, ...).
pub const PROVIDER_HOSTS: &'static str = "provider.hosts";

/// Where DNS records live (Cloudflare, Bunny.net, ...).
pub const PROVIDER_DNS: &'static str = "provider.dns";

/// The capability vocabulary of each well-known category.
pub open spec fn known_capabilities(category: Seq<char>) -> Option<Seq<Seq<char>>> {
    if category == "config.format"@ {
        Some(Seq::empty())
    } else if category == "provider.hosts"@ {
        Some(seq!["instances.list"@, "instances.power"@, "snapshots"@, "firewall.read"@])
    } else if category == "provider.dns"@ {
        Some(seq!["zones.list"@, "records.read"@, "records.write"@])
    } else {
        None
    }
}

/// The capabilities `category` defines, if it's a well-known one.
pub fn capabilities(category: &str) -> (r: Option<Vec<&'static str>>)
    ensures
        match known_capabilities(category@) {
            Some(caps) => r matches Some(v) && v@.map_values(|s: &str| s@) == caps,
            None => r is None,
        },
{
    if str_eq(category, "config.format") {
        let v: Vec<&'static str> = Vec::new();
        assert(v@.map_values(|s: &str| s@) =~= Seq::<Seq<char>>::empty());
        Some(v)
    } else if str_eq(category, "provider.hosts") {
        let v: Vec<&'static str> = vec!["instances.list", "instances.power", "snapshots", "firewall.read"];
        assert(v@.map_values(|s: &str| s@) =~= seq!["instances.list"@, "instances.power"@, "snapshots"@, "firewall.read"@]);
        Some(v)
    } else if str_eq(category, "provider.dns") {
        let v: Vec<&'static str> = vec!["zones.list", "records.read", "records.write"];
        assert(v@.map_values(|s: &str| s@) =~= seq!["zones.list"@, "records.read"@, "records.write"@]);
        Some(v)
    } else {
        None
    }
}

} // verus!
