//! Sandbox host logic for a per-workload module runner: configuration model,
//! resource quantities, network address policy, sandbox planning, image
//! helpers and the per-request response handoff.

pub mod address;
pub mod config;
pub mod network;
pub mod oci;
pub mod quantity;
pub mod request;
pub mod sandbox;
pub mod text;

pub use address::{IpAddress, SocketAddress};
pub use config::{
    default_true, EnvVar, NetworkSpec, ResourceRequirements, VolumeMount, WasiConfig,
};
pub use network::{
    patterns_to_resolve, HostPattern, HostResolution, NetworkChecker, PortPattern, SocketAddrUse,
};
pub use oci::{
    accepted_media_types, bad_num_of_layers_err, check_layer_count, select_image, strip_oci_prefix,
};
pub use quantity::{parse_cpu_quantity, parse_memory_quantity};
pub use request::{never_set_message, RequestAction, RequestEvent, RequestState};
pub use sandbox::{
    get_fuel_limit, get_memory_limit, missing_mount_message, mount_host_path, plan_preopen,
    plan_sandbox, NetworkAccess, Permissions, Preopen, SandboxPlan, FUEL_PER_MILLICORE,
};
