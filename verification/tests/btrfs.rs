use btrbak::btrfs::{
    get_subvolume_name, get_subvolume_name_with_suffix, get_volume_name_from_path,
};

#[test]
fn test_volume_name_root() {
    assert_eq!(get_volume_name_from_path("/"), "root");
}

#[test]
fn test_volume_name_single_component() {
    assert_eq!(get_volume_name_from_path("/home"), "home");
}

#[test]
fn test_volume_name_multi_component() {
    assert_eq!(get_volume_name_from_path("/var/log"), "var_log");
}

#[test]
fn test_volume_name_deep_path() {
    assert_eq!(
        get_volume_name_from_path("/var/lib/docker"),
        "var_lib_docker"
    );
}

#[test]
fn test_volume_name_dot() {
    assert_eq!(get_volume_name_from_path("."), "root");
}

#[test]
fn test_volume_name_relative() {
    assert_eq!(
        get_volume_name_from_path("home/user"),
        "home_user"
    );
}

#[test]
fn test_volume_name_trailing_slash() {
    assert_eq!(get_volume_name_from_path("/boot/"), "boot");
}

#[test]
fn test_subvolume_name_suffix_root() {
    assert_eq!(
        get_subvolume_name_with_suffix("/"),
        "root_vol"
    );
}

#[test]
fn test_subvolume_name_suffix_home() {
    assert_eq!(
        get_subvolume_name_with_suffix("/home"),
        "home_vol"
    );
}

#[test]
fn test_subvolume_name_suffix_deep() {
    assert_eq!(
        get_subvolume_name_with_suffix("/var/log"),
        "var_log_vol"
    );
}

#[test]
fn test_subvolume_name_suffix_dot() {
    assert_eq!(
        get_subvolume_name_with_suffix("."),
        "root_vol"
    );
}

#[test]
fn test_get_subvolume_name_simple() {
    let result = get_subvolume_name("/mnt/snapshots/root_vol");
    assert_eq!(result.unwrap(), "root_vol");
}

#[test]
fn test_get_subvolume_name_single() {
    let result = get_subvolume_name("/home");
    assert_eq!(result.unwrap(), "home");
}

#[test]
fn test_get_subvolume_name_root_err() {
    let result = get_subvolume_name("/");
    assert!(result.is_err());
}

#[test]
fn test_get_subvolume_name_nested() {
    let result = get_subvolume_name("/a/b/c/d");
    assert_eq!(result.unwrap(), "d");
}
