use wasm_runner::{parse_cpu_quantity, parse_memory_quantity};

#[test]
fn memory_binary_suffixes() {
    assert_eq!(parse_memory_quantity("16Mi"), Some(16 * 1024 * 1024));
    assert_eq!(parse_memory_quantity("1Ki"), Some(1024));
    assert_eq!(parse_memory_quantity("2Gi"), Some(2 * 1024 * 1024 * 1024));
    assert_eq!(parse_memory_quantity("1Ti"), Some(1usize << 40));
    assert_eq!(parse_memory_quantity("1Pi"), Some(1usize << 50));
    assert_eq!(parse_memory_quantity("3Ei"), Some(3usize << 60));
}

#[test]
fn memory_decimal_suffixes() {
    assert_eq!(parse_memory_quantity("5k"), Some(5_000));
    assert_eq!(parse_memory_quantity("7M"), Some(7_000_000));
    assert_eq!(parse_memory_quantity("1G"), Some(1_000_000_000));
    assert_eq!(parse_memory_quantity("2T"), Some(2_000_000_000_000));
    assert_eq!(parse_memory_quantity("4P"), Some(4_000_000_000_000_000));
    assert_eq!(parse_memory_quantity("9E"), Some(9_000_000_000_000_000_000));
}

#[test]
fn memory_plain_bytes_and_space() {
    assert_eq!(parse_memory_quantity("512"), Some(512));
    assert_eq!(parse_memory_quantity("  64Mi\n"), Some(64 * 1024 * 1024));
    assert_eq!(parse_memory_quantity("+8"), Some(8));
    assert_eq!(parse_memory_quantity("0"), Some(0));
}

#[test]
fn memory_rejects_malformed() {
    assert_eq!(parse_memory_quantity(""), None);
    assert_eq!(parse_memory_quantity("Mi"), None);
    assert_eq!(parse_memory_quantity("abc"), None);
    assert_eq!(parse_memory_quantity("1.5Gi"), None);
    assert_eq!(parse_memory_quantity("10m"), None);
    assert_eq!(parse_memory_quantity("-1"), None);
    assert_eq!(parse_memory_quantity("1 Mi"), None);
}

#[test]
fn memory_rejects_overflow() {
    assert_eq!(parse_memory_quantity("100Ei"), None);
    assert_eq!(parse_memory_quantity("99999999999999999999"), None);
}

#[test]
fn cpu_millicores() {
    assert_eq!(parse_cpu_quantity("100m"), Some(100));
    assert_eq!(parse_cpu_quantity("0m"), Some(0));
    assert_eq!(parse_cpu_quantity(" 250m "), Some(250));
}

#[test]
fn cpu_cores() {
    assert_eq!(parse_cpu_quantity("1"), Some(1000));
    assert_eq!(parse_cpu_quantity("0.5"), Some(500));
    assert_eq!(parse_cpu_quantity("2.25"), Some(2250));
    assert_eq!(parse_cpu_quantity("1.2345"), Some(1234));
    assert_eq!(parse_cpu_quantity(".5"), Some(500));
    assert_eq!(parse_cpu_quantity("3."), Some(3000));
    assert_eq!(parse_cpu_quantity("0.001"), Some(1));
    assert_eq!(parse_cpu_quantity("0.0009"), Some(0));
}

#[test]
fn cpu_rejects_malformed() {
    assert_eq!(parse_cpu_quantity(""), None);
    assert_eq!(parse_cpu_quantity("."), None);
    assert_eq!(parse_cpu_quantity("m"), None);
    assert_eq!(parse_cpu_quantity("1.2.3"), None);
    assert_eq!(parse_cpu_quantity("abc"), None);
    assert_eq!(parse_cpu_quantity("1.5m"), None);
    assert_eq!(parse_cpu_quantity("99999999999999999999"), None);
}
