use wasm_runner::{
    get_fuel_limit, get_memory_limit, missing_mount_message, mount_host_path, plan_sandbox,
    EnvVar, NetworkAccess, NetworkSpec, Permissions, ResourceRequirements, VolumeMount,
    WasiConfig,
};

fn pairs(v: &[(&str, &str)]) -> Vec<(String, String)> {
    v.iter().map(|(k, q)| (k.to_string(), q.to_string())).collect()
}

fn config_with(limits: &[(&str, &str)], requests: &[(&str, &str)]) -> WasiConfig {
    let mut c = WasiConfig::default();
    c.resources = ResourceRequirements { limits: pairs(limits), requests: pairs(requests) };
    c
}

fn mount(name: &str, path: &str, read_only: bool, sub: &str) -> VolumeMount {
    VolumeMount {
        name: name.to_string(),
        mount_path: path.to_string(),
        read_only,
        sub_path: sub.to_string(),
    }
}

fn network(inherit: bool, tcp_connect: Vec<String>) -> NetworkSpec {
    NetworkSpec {
        inherit,
        allow_ip_name_lookup: true,
        tcp_bind: vec![],
        tcp_connect,
        udp_bind: vec![],
        udp_connect: vec![],
        udp_outgoing: vec![],
    }
}

#[test]
fn quantities_prefer_limits() {
    let c = config_with(&[("memory", "1Gi")], &[("memory", "1Mi"), ("cpu", "2")]);
    assert_eq!(c.resources.get_memory(), Some(&"1Gi".to_string()));
    assert_eq!(c.resources.get_cpu(), Some(&"2".to_string()));
    let empty = config_with(&[], &[]);
    assert_eq!(empty.resources.get_memory(), None);
    assert_eq!(empty.resources.get_cpu(), None);
}

#[test]
fn fuel_from_cpu_limit() {
    let c = config_with(&[("cpu", "100m")], &[]);
    assert_eq!(get_fuel_limit(&c), Some(100_000_000));
}

#[test]
fn fuel_falls_back_to_request() {
    let c = config_with(&[], &[("cpu", "2")]);
    assert_eq!(get_fuel_limit(&c), Some(2_000_000_000));
    let limited = config_with(&[("cpu", "1m")], &[("cpu", "2")]);
    assert_eq!(get_fuel_limit(&limited), Some(1_000_000));
}

#[test]
fn fuel_absent_or_malformed() {
    assert_eq!(get_fuel_limit(&config_with(&[], &[])), None);
    assert_eq!(get_fuel_limit(&config_with(&[("cpu", "lots")], &[])), None);
}

#[test]
fn fuel_saturates() {
    let c = config_with(&[("cpu", "18446744073709551615m")], &[]);
    assert_eq!(get_fuel_limit(&c), Some(u64::MAX));
}

#[test]
fn memory_ceiling_from_limit() {
    let c = config_with(&[("memory", "16Mi")], &[]);
    assert_eq!(get_memory_limit(&c), Some(16 * 1024 * 1024));
    assert_eq!(get_memory_limit(&config_with(&[("memory", "x")], &[])), None);
    assert_eq!(get_memory_limit(&config_with(&[], &[("memory", "2k")])), Some(2000));
}

#[test]
fn no_network_section_disables_network() {
    let plan = plan_sandbox(&WasiConfig::default());
    assert_eq!(plan.network, NetworkAccess::Disabled);
    assert_eq!(plan.allow_ip_name_lookup, None);
    assert_eq!(plan.memory_ceiling, None);
    assert_eq!(plan.fuel, None);
}

#[test]
fn network_modes() {
    let mut c = WasiConfig::default();
    c.network = Some(network(true, vec!["*:*".to_string()]));
    assert_eq!(plan_sandbox(&c).network, NetworkAccess::Inherit);
    c.network = Some(network(false, vec!["*:*".to_string()]));
    assert_eq!(plan_sandbox(&c).network, NetworkAccess::Checked);
    assert_eq!(plan_sandbox(&c).allow_ip_name_lookup, Some(true));
    let mut quiet = network(false, vec![]);
    quiet.allow_ip_name_lookup = false;
    c.network = Some(quiet);
    let plan = plan_sandbox(&c);
    assert_eq!(plan.network, NetworkAccess::DenyAll);
    assert_eq!(plan.allow_ip_name_lookup, Some(false));
}

#[test]
fn preopens_follow_mounts() {
    let mut c = WasiConfig::default();
    c.volume_mounts = vec![
        mount("data", "/data", true, ""),
        mount("cache", "/cache", false, "sub/dir"),
        mount("root", "/", false, "etc"),
        mount("abs", "/mnt", true, "/elsewhere"),
    ];
    let plan = plan_sandbox(&c);
    assert_eq!(plan.preopens.len(), 4);
    assert_eq!(plan.preopens[0].host_path, "/data");
    assert_eq!(plan.preopens[0].guest_path, "/data");
    assert_eq!(plan.preopens[0].perms, Permissions::ReadOnly);
    assert_eq!(plan.preopens[1].name, "cache");
    assert_eq!(plan.preopens[1].host_path, "/cache/sub/dir");
    assert_eq!(plan.preopens[1].guest_path, "/cache");
    assert_eq!(plan.preopens[1].perms, Permissions::ReadWrite);
    assert_eq!(plan.preopens[2].host_path, "/etc");
    assert_eq!(plan.preopens[3].host_path, "/elsewhere");
    assert_eq!(plan.preopens[3].perms, Permissions::ReadOnly);
}

#[test]
fn read_only_mount_is_never_writable() {
    let mut c = WasiConfig::default();
    c.volume_mounts = vec![mount("a", "/a", true, "x"), mount("b", "/b", true, "")];
    let plan = plan_sandbox(&c);
    for p in &plan.preopens {
        assert_eq!(p.perms, Permissions::ReadOnly);
    }
}

#[test]
fn host_path_join() {
    assert_eq!(mount_host_path(&mount("m", "/srv/", false, "x")), "/srv/x");
    assert_eq!(mount_host_path(&mount("m", "", false, "x")), "x");
    assert_eq!(mount_host_path(&mount("m", "rel", false, "x")), "rel/x");
}

#[test]
fn args_and_env_keep_order() {
    let mut c = WasiConfig::default();
    c.args = vec!["prog".to_string(), "--flag".to_string()];
    c.env = vec![
        EnvVar { name: "A".to_string(), value: "1".to_string() },
        EnvVar { name: "A".to_string(), value: "2".to_string() },
    ];
    let plan = plan_sandbox(&c);
    assert_eq!(plan.args, vec!["prog".to_string(), "--flag".to_string()]);
    assert_eq!(plan.env.len(), 2);
    assert_eq!(plan.env[0].value, "1");
    assert_eq!(plan.env[1].value, "2");
}

#[test]
fn missing_mount_text() {
    assert_eq!(
        missing_mount_message("data", "/data"),
        "Volume mount 'data' path does not exist: /data"
    );
}
