use wasm_runner::{
    accepted_media_types, bad_num_of_layers_err, check_layer_count, default_true, select_image,
    strip_oci_prefix,
};

#[test]
fn oci_prefix_is_stripped() {
    assert_eq!(strip_oci_prefix("oci://reg/x:1"), "reg/x:1");
    assert_eq!(strip_oci_prefix("ghcr.io/example/module:latest"), "ghcr.io/example/module:latest");
    assert_eq!(strip_oci_prefix("oci:/reg"), "oci:/reg");
    assert_eq!(strip_oci_prefix("oci://"), "");
}

#[test]
fn media_types_in_order() {
    assert_eq!(
        accepted_media_types(),
        vec![
            "application/wasm".to_string(),
            "application/vnd.wasm.content.layer.v1+wasm".to_string(),
            "application/vnd.module.wasm.content.layer.v1+wasm".to_string(),
        ]
    );
}

#[test]
fn layer_count_must_be_one() {
    assert_eq!(check_layer_count(1), Ok(()));
    assert_eq!(
        check_layer_count(2),
        Err("expected to have one layer, got 2".to_string())
    );
    assert_eq!(
        check_layer_count(0),
        Err("expected to have one layer, got 0".to_string())
    );
    assert_eq!(
        check_layer_count(12),
        Err("expected to have one layer, got 12".to_string())
    );
    assert_eq!(bad_num_of_layers_err(), "expected to have one layer");
}

#[test]
fn image_choice() {
    assert_eq!(select_image("oci://reg/x:1", Some("unused".to_string())), Some("oci://reg/x:1".to_string()));
    assert_eq!(select_image("", Some("reg/y:2".to_string())), Some("reg/y:2".to_string()));
    assert_eq!(select_image("", None), None);
}

#[test]
fn name_lookup_default() {
    assert!(default_true());
}
