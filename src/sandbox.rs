//! The plan of a per-request sandbox: what the guest sees and what bounds
//! it, decided from the configuration alone. Carrying the plan out (the
//! existence check of mount paths, building the engine's context) is the
//! embedding's part.

use vstd::prelude::*;
use crate::config::{quantity_of, EnvVar, NetworkSpec, VolumeMount, WasiConfig};
use crate::quantity::{cpu_millis, memory_bytes, parse_cpu_quantity, parse_memory_quantity};
use crate::text::{copy_texts, texts};

verus! {

/// The fuel one millicore of CPU buys.
pub const FUEL_PER_MILLICORE: u64 = 1_000_000;

/// The fuel that the CPU quantity of `c` gives: millicores times
/// `FUEL_PER_MILLICORE`, saturating at `u64::MAX`.
pub open spec fn fuel_of(c: WasiConfig) -> Option<nat> {
    match quantity_of(c.resources, "cpu"@) {
        Some(q) => match cpu_millis(q) {
            Some(m) => Some(
                if m * 1_000_000 <= u64::MAX {
                    m * 1_000_000
                } else {
                    u64::MAX as nat
                },
            ),
            None => None,
        },
        None => None,
    }
}

/// The memory ceiling in bytes that the memory quantity of `c` gives.
pub open spec fn memory_ceiling_of(c: WasiConfig) -> Option<nat> {
    match quantity_of(c.resources, "memory"@) {
        Some(q) => memory_bytes(q),
        None => None,
    }
}

/// The fuel budget of a request, where a CPU quantity is configured and parses.
pub fn get_fuel_limit(config: &WasiConfig) -> (r: Option<u64>)
    ensures
        match r {
            Some(f) => fuel_of(*config) == Some(f as nat),
            None => fuel_of(*config) is None,
        },
{
    match config.resources.get_cpu() {
        Some(cpu) => match parse_cpu_quantity(cpu.as_str()) {
            Some(millicores) => {
                let fuel: u128 = millicores as u128 * FUEL_PER_MILLICORE as u128;
                if fuel > u64::MAX as u128 {
                    Some(u64::MAX)
                } else {
                    Some(fuel as u64)
                }
            },
            None => None,
        },
        None => None,
    }
}

/// The memory-growth ceiling of a request, where a memory quantity is
/// configured and parses.
pub fn get_memory_limit(config: &WasiConfig) -> (r: Option<usize>)
    ensures
        match r {
            Some(b) => memory_ceiling_of(*config) == Some(b as nat),
            None => memory_ceiling_of(*config) is None,
        },
{
    match config.resources.get_memory() {
        Some(mem) => parse_memory_quantity(mem.as_str()),
        None => None,
    }
}

/// `rel` joined onto `base` as a path: an absolute `rel` replaces `base`,
/// else a `/` separates them unless `base` is empty or ends with one.
pub open spec fn join_path(base: Seq<char>, rel: Seq<char>) -> Seq<char> {
    if rel.len() > 0 && rel[0] == '/' {
        rel
    } else if base.len() == 0 || base.last() == '/' {
        base + rel
    } else {
        base + seq!['/'] + rel
    }
}

/// The host directory a mount exposes.
pub open spec fn host_path_of(m: VolumeMount) -> Seq<char> {
    if m.sub_path@.len() == 0 {
        m.mount_path@
    } else {
        join_path(m.mount_path@, m.sub_path@)
    }
}

/// The host directory a mount exposes: its path, with its subdirectory
/// joined on where one is given.
pub fn mount_host_path(mount: &VolumeMount) -> (r: String)
    ensures
        r@ == host_path_of(*mount),
{
    let base = mount.mount_path.as_str();
    let rel = mount.sub_path.as_str();
    let nb = base.unicode_len();
    let nr = rel.unicode_len();
    if nr == 0 {
        return mount.mount_path.clone();
    }
    if rel.get_char(0) == '/' {
        return mount.sub_path.clone();
    }
    if nb == 0 || base.get_char(nb - 1) == '/' {
        return String::from_str(base).concat(rel);
    }
    proof {
        reveal_strlit("/");
    }
    String::from_str(base).concat("/").concat(rel)
}

/// What the guest may do in a preopened directory.
#[derive(PartialEq, Eq, Structural, Clone, Copy, Debug)]
pub enum Permissions {
    /// Read directories and files.
    ReadOnly,
    /// Every directory and file operation.
    ReadWrite,
}

pub open spec fn allows_write(p: Permissions) -> bool {
    p == Permissions::ReadWrite
}

/// A host directory exposed to the guest.
pub struct Preopen {
    /// Name of the mount it comes from.
    pub name: String,
    pub host_path: String,
    pub guest_path: String,
    pub perms: Permissions,
}

/// The network capability of the guest.
#[derive(PartialEq, Eq, Structural, Clone, Copy, Debug)]
pub enum NetworkAccess {
    /// No network at all.
    Disabled,
    /// The host's network stack, unchecked.
    Inherit,
    /// Every socket address goes through the policy's check.
    Checked,
    /// A policy with no patterns: no socket is allowed.
    DenyAll,
}

pub open spec fn has_patterns(n: NetworkSpec) -> bool {
    n.tcp_bind@.len() > 0 || n.tcp_connect@.len() > 0 || n.udp_bind@.len() > 0
        || n.udp_connect@.len() > 0 || n.udp_outgoing@.len() > 0
}

pub open spec fn network_access_of(n: Option<NetworkSpec>) -> NetworkAccess {
    match n {
        None => NetworkAccess::Disabled,
        Some(s) => if s.inherit {
            NetworkAccess::Inherit
        } else if has_patterns(s) {
            NetworkAccess::Checked
        } else {
            NetworkAccess::DenyAll
        },
    }
}

/// Everything a per-request sandbox is built from.
pub struct SandboxPlan {
    /// Guest argv, in order.
    pub args: Vec<String>,
    /// Guest environment, in order; a later name overrides an earlier one.
    pub env: Vec<EnvVar>,
    /// One preopen per mount, in order.
    pub preopens: Vec<Preopen>,
    pub network: NetworkAccess,
    /// Whether the guest may resolve names; `None` where no network is configured.
    pub allow_ip_name_lookup: Option<bool>,
    /// Memory-growth ceiling in bytes.
    pub memory_ceiling: Option<usize>,
    /// Fuel budget.
    pub fuel: Option<u64>,
}

pub open spec fn env_views(v: Seq<EnvVar>) -> Seq<(Seq<char>, Seq<char>)> {
    v.map_values(|e: EnvVar| (e.name@, e.value@))
}

/// The preopen that mount `m` gives.
pub open spec fn preopen_matches(p: Preopen, m: VolumeMount) -> bool {
    &&& p.name@ == m.name@
    &&& p.host_path@ == host_path_of(m)
    &&& p.guest_path@ == m.mount_path@
    &&& p.perms == if m.read_only {
        Permissions::ReadOnly
    } else {
        Permissions::ReadWrite
    }
}

impl SandboxPlan {
    /// Whether this is the plan of configuration `c`.
    pub open spec fn planned_from(&self, c: WasiConfig) -> bool {
        &&& texts(self.args@) == texts(c.args@)
        &&& env_views(self.env@) == env_views(c.env@)
        &&& self.preopens@.len() == c.volume_mounts@.len()
        &&& forall|i: int|
            0 <= i < c.volume_mounts@.len() ==> preopen_matches(
                #[trigger] self.preopens@[i],
                c.volume_mounts@[i],
            )
        &&& self.network == network_access_of(c.network)
        &&& self.allow_ip_name_lookup == match c.network {
            Some(n) => Some(n.allow_ip_name_lookup),
            None => None,
        }
        &&& match self.memory_ceiling {
            Some(b) => memory_ceiling_of(c) == Some(b as nat),
            None => memory_ceiling_of(c) is None,
        }
        &&& match self.fuel {
            Some(f) => fuel_of(c) == Some(f as nat),
            None => fuel_of(c) is None,
        }
    }
}

/// The preopen of one mount.
pub fn plan_preopen(mount: &VolumeMount) -> (r: Preopen)
    ensures
        preopen_matches(r, *mount),
{
    Preopen {
        name: mount.name.clone(),
        host_path: mount_host_path(mount),
        guest_path: mount.mount_path.clone(),
        perms: if mount.read_only {
            Permissions::ReadOnly
        } else {
            Permissions::ReadWrite
        },
    }
}

fn copy_env(v: &Vec<EnvVar>) -> (r: Vec<EnvVar>)
    ensures
        env_views(r@) == env_views(v@),
{
    let mut r: Vec<EnvVar> = Vec::new();
    let mut i: usize = 0;
    while i < v.len()
        invariant
            i <= v@.len(),
            r@.len() == i,
            env_views(r@) == env_views(v@.subrange(0, i as int)),
        decreases v@.len() - i,
    {
        let ghost prev = r@;
        let e = EnvVar { name: v[i].name.clone(), value: v[i].value.clone() };
        r.push(e);
        proof {
            let cur = env_views(v@.subrange(0, i + 1));
            assert forall|j: int| 0 <= j < i + 1 implies env_views(r@)[j] == cur[j] by {
                if j < i {
                    assert(r@[j] == prev[j]);
                    assert(env_views(prev)[j] == env_views(v@.subrange(0, i as int))[j]);
                }
            }
            assert(env_views(r@) =~= cur);
        }
        i = i + 1;
    }
    assert(v@.subrange(0, i as int) =~= v@);
    r
}

fn has_any_pattern(n: &NetworkSpec) -> (r: bool)
    ensures
        r == has_patterns(*n),
{
    n.tcp_bind.len() > 0 || n.tcp_connect.len() > 0 || n.udp_bind.len() > 0
        || n.udp_connect.len() > 0 || n.udp_outgoing.len() > 0
}

/// The sandbox plan of `config`.
pub fn plan_sandbox(config: &WasiConfig) -> (r: SandboxPlan)
    ensures
        r.planned_from(*config),
{
    let mut preopens: Vec<Preopen> = Vec::new();
    let mut i: usize = 0;
    while i < config.volume_mounts.len()
        invariant
            i <= config.volume_mounts@.len(),
            preopens@.len() == i,
            forall|j: int|
                0 <= j < i ==> preopen_matches(#[trigger] preopens@[j], config.volume_mounts@[j]),
        decreases config.volume_mounts@.len() - i,
    {
        preopens.push(plan_preopen(&config.volume_mounts[i]));
        i = i + 1;
    }
    let (network, lookup) = match &config.network {
        None => (NetworkAccess::Disabled, None),
        Some(n) => {
            let access = if n.inherit {
                NetworkAccess::Inherit
            } else if has_any_pattern(n) {
                NetworkAccess::Checked
            } else {
                NetworkAccess::DenyAll
            };
            (access, Some(n.allow_ip_name_lookup))
        },
    };
    SandboxPlan {
        args: copy_texts(&config.args),
        env: copy_env(&config.env),
        preopens,
        network,
        allow_ip_name_lookup: lookup,
        memory_ceiling: get_memory_limit(config),
        fuel: get_fuel_limit(config),
    }
}

/// The message of a mount whose host directory is missing.
pub fn missing_mount_message(name: &str, host_path: &str) -> (r: String)
    ensures
        r@ == "Volume mount '"@ + name@ + "' path does not exist: "@ + host_path@,
{
    String::from_str("Volume mount '").concat(name).concat(
        "' path does not exist: ",
    ).concat(host_path)
}

/// A mount declared read-only never gives the guest write permission.
pub proof fn read_only_mounts_never_writable(c: WasiConfig, plan: SandboxPlan, i: int)
    requires
        plan.planned_from(c),
        0 <= i < c.volume_mounts@.len(),
        c.volume_mounts@[i].read_only,
    ensures
        !allows_write(plan.preopens@[i].perms),
{
    assert(preopen_matches(plan.preopens@[i], c.volume_mounts@[i]));
}

} // verus!
