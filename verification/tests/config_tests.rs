//! The manifest entry builder and the location ordering.

use configcrab::Config;
use configcrab::PlatformPath;

#[test]
fn test_config_init_mac() {
    let test_config = Config::new();
    assert_eq!("", test_config.file);
    let full_config = Config::new().with_file("file").with_macpath("macpath");

    assert_eq!("file", full_config.file);
    assert_eq!("macos", full_config.paths[0].platform);
    assert_eq!("macpath", full_config.paths[0].path);
}

#[test]
fn test_config_init_win() {
    let test_config = Config::new();
    assert_eq!("", test_config.file);
    let full_config = Config::new().with_file("file").with_winpath("winpath");

    assert_eq!("file", full_config.file);
    assert_eq!("windows", full_config.paths[0].platform);
    assert_eq!("winpath", full_config.paths[0].path);
}

#[test]
fn test_config_init_linux() {
    let test_config = Config::new();
    assert_eq!("", test_config.file);
    let full_config = Config::new().with_file("file").with_linuxpath("linuxpath");

    assert_eq!("file", full_config.file);
    assert_eq!("linux", full_config.paths[0].platform);
    assert_eq!("linuxpath", full_config.paths[0].path);
}

#[test]
fn test_locations_sorted_by_platform() {
    let config = Config::new()
        .with_file("file")
        .with_winpath("win")
        .with_macpath("mac")
        .with_linuxpath("linux");

    assert_eq!(3, config.paths.len());
    assert_eq!("linux", config.paths[0].platform);
    assert_eq!("macos", config.paths[1].platform);
    assert_eq!("windows", config.paths[2].platform);
}

#[test]
fn test_insertion_order_is_not_observable() {
    let a = Config::new()
        .with_platform("linux", "/L")
        .with_platform("macos", "/M")
        .with_platform("windows", "/W");
    let b = Config::new()
        .with_platform("windows", "/W")
        .with_platform("linux", "/L")
        .with_platform("macos", "/M");

    assert_eq!(a.paths, b.paths);
}

#[test]
fn test_same_platform_sorted_by_path() {
    let config = Config::new().with_platform("linux", "/b").with_platform("linux", "/a");

    assert_eq!(
        vec![
            PlatformPath { platform: "linux".to_string(), path: "/a".to_string() },
            PlatformPath { platform: "linux".to_string(), path: "/b".to_string() },
        ],
        config.paths
    );
}

#[test]
fn test_duplicate_locations_accumulate() {
    let config = Config::new().with_platform("linux", "/a").with_platform("linux", "/a");

    assert_eq!(2, config.paths.len());
    assert_eq!(config.paths[0], config.paths[1]);
}

#[test]
fn test_with_file_keeps_locations() {
    let config = Config::new().with_linuxpath("/L").with_file("f.txt");

    assert_eq!("f.txt", config.file);
    assert_eq!("", config.file_dir);
    assert_eq!(1, config.paths.len());
    assert_eq!("/L", config.paths[0].path);
}
