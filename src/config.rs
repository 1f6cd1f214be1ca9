//! The configuration a runner consumes: image, guest argv and environment,
//! volume mounts, resource quantities and network policy.

use vstd::prelude::*;
use crate::text::same_text;

verus! {

/// Configuration of the hosted module.
pub struct WasiConfig {
    /// Image reference of the module, optionally prefixed `oci://`.
    pub image: String,
    /// Guest command-line arguments, in order.
    pub args: Vec<String>,
    /// Guest environment variables, in order.
    pub env: Vec<EnvVar>,
    /// Directories exposed to the guest.
    pub volume_mounts: Vec<VolumeMount>,
    /// Memory and CPU quantities.
    pub resources: ResourceRequirements,
    /// Network policy; absent means no network capability at all.
    pub network: Option<NetworkSpec>,
}

/// One guest environment variable.
#[derive(Clone, Debug)]
pub struct EnvVar {
    pub name: String,
    pub value: String,
}

/// One directory exposed to the guest.
#[derive(Clone, Debug)]
pub struct VolumeMount {
    pub name: String,
    /// Guest-visible path, and the host path the directory comes from.
    pub mount_path: String,
    pub read_only: bool,
    /// Subdirectory of the host path to expose; empty for the path itself.
    pub sub_path: String,
}

/// Resource quantities, as `(name, quantity)` entries; where a name occurs
/// more than once, its first entry counts.
#[derive(Clone, Debug)]
pub struct ResourceRequirements {
    pub limits: Vec<(String, String)>,
    pub requests: Vec<(String, String)>,
}

/// Network access of the guest.
#[derive(Clone, Debug)]
pub struct NetworkSpec {
    /// Grant the host's network stack wholesale.
    pub inherit: bool,
    /// Allow the guest to resolve names.
    pub allow_ip_name_lookup: bool,
    /// `host:port` patterns allowed for each kind of socket use.
    pub tcp_bind: Vec<String>,
    pub tcp_connect: Vec<String>,
    pub udp_bind: Vec<String>,
    pub udp_connect: Vec<String>,
    pub udp_outgoing: Vec<String>,
}

/// The value that `allowIpNameLookup` takes when it is not given.
pub fn default_true() -> (r: bool)
    ensures
        r,
{
    true
}

impl Default for ResourceRequirements {
    fn default() -> (r: ResourceRequirements)
        ensures
            r.limits@.len() == 0,
            r.requests@.len() == 0,
    {
        ResourceRequirements { limits: Vec::new(), requests: Vec::new() }
    }
}

impl Default for WasiConfig {
    fn default() -> (r: WasiConfig)
        ensures
            r.image@.len() == 0,
            r.args@.len() == 0,
            r.env@.len() == 0,
            r.volume_mounts@.len() == 0,
            r.resources.limits@.len() == 0,
            r.resources.requests@.len() == 0,
            r.network is None,
    {
        WasiConfig {
            image: String::new(),
            args: Vec::new(),
            env: Vec::new(),
            volume_mounts: Vec::new(),
            resources: ResourceRequirements { limits: Vec::new(), requests: Vec::new() },
            network: None,
        }
    }
}

/// The quantity of the first entry named `key`.
pub open spec fn lookup(entries: Seq<(String, String)>, key: Seq<char>) -> Option<Seq<char>>
    decreases entries.len(),
{
    if entries.len() == 0 {
        None
    } else if entries[0].0@ == key {
        Some(entries[0].1@)
    } else {
        lookup(entries.drop_first(), key)
    }
}

/// The quantity named `key`: the limit if there is one, else the request.
pub open spec fn quantity_of(r: ResourceRequirements, key: Seq<char>) -> Option<Seq<char>> {
    match lookup(r.limits@, key) {
        Some(v) => Some(v),
        None => lookup(r.requests@, key),
    }
}

fn find_entry<'a>(entries: &'a Vec<(String, String)>, key: &str) -> (r: Option<&'a String>)
    ensures
        match r {
            Some(v) => lookup(entries@, key@) == Some(v@),
            None => lookup(entries@, key@) is None,
        },
{
    let mut i: usize = 0;
    assert(entries@.subrange(0, entries@.len() as int) =~= entries@);
    while i < entries.len()
        invariant
            i <= entries@.len(),
            lookup(entries@, key@) == lookup(entries@.subrange(i as int, entries@.len() as int), key@),
        decreases entries@.len() - i,
    {
        assert(entries@.subrange(i as int, entries@.len() as int).drop_first() =~= entries@.subrange(
            i + 1,
            entries@.len() as int,
        ));
        if same_text(entries[i].0.as_str(), key) {
            return Some(&entries[i].1);
        }
        i = i + 1;
    }
    None
}

impl ResourceRequirements {
    fn get_quantity(&self, key: &str) -> (r: Option<&String>)
        ensures
            match r {
                Some(v) => quantity_of(*self, key@) == Some(v@),
                None => quantity_of(*self, key@) is None,
            },
    {
        match find_entry(&self.limits, key) {
            Some(v) => Some(v),
            None => find_entry(&self.requests, key),
        }
    }

    /// The memory quantity: the limit, falling back to the request.
    pub fn get_memory(&self) -> (r: Option<&String>)
        ensures
            match r {
                Some(v) => quantity_of(*self, "memory"@) == Some(v@),
                None => quantity_of(*self, "memory"@) is None,
            },
    {
        self.get_quantity("memory")
    }

    /// The CPU quantity: the limit, falling back to the request.
    pub fn get_cpu(&self) -> (r: Option<&String>)
        ensures
            match r {
                Some(v) => quantity_of(*self, "cpu"@) == Some(v@),
                None => quantity_of(*self, "cpu"@) is None,
            },
    {
        self.get_quantity("cpu")
    }
}

} // verus!
