//! The grab and install operations.

use configcrab::Config;
use configcrab::CrabError;
use configcrab::ops::entry_from_path;
use configcrab::ops::grab;
use configcrab::ops::install;
use configcrab::ops::verbosity;

#[test]
fn test_grab_splits_canonical_path() {
    let entry = entry_from_path("/a/b/c.txt", "test").unwrap();
    assert_eq!("c.txt", entry.file);
    assert_eq!("", entry.file_dir);
    assert_eq!(1, entry.paths.len());
    assert_eq!("test", entry.paths[0].platform);
    assert_eq!("/a/b", entry.paths[0].path);
}

#[test]
fn test_grab_existing_path() {
    let entry = grab("/etc", "test").unwrap();
    assert_eq!("etc", entry.file);
    assert_eq!("", entry.file_dir);
    assert_eq!(1, entry.paths.len());
    assert_eq!("test", entry.paths[0].platform);
    assert_eq!("/", entry.paths[0].path);
}

#[test]
fn test_grab_missing_path_is_not_found() {
    let result = grab("/configcrab_surely_missing/nothing.txt", "test");
    assert_eq!(Err(CrabError::NotFound), result);
}

#[test]
fn test_grab_rejects_root() {
    let result = entry_from_path("/", "test");
    assert_eq!(Err(CrabError::InvalidPath), result);
}

#[test]
fn test_grab_file_in_root() {
    let entry = entry_from_path("/c.txt", "test").unwrap();
    assert_eq!("c.txt", entry.file);
    assert_eq!("/", entry.paths[0].path);
}

#[test]
fn test_install_copies_first_matching_platform() {
    let mut entry = Config::new()
        .with_file("f.txt")
        .with_platform("linux", "/L")
        .with_platform("macos", "/M")
        .with_platform("windows", "/W");
    entry.file_dir = "/src".to_string();

    let ops = install(&vec![entry], "macos");
    assert_eq!(1, ops.len());
    assert_eq!("f.txt", ops[0].file);
    assert_eq!("/src", ops[0].from_dir);
    assert_eq!("/M", ops[0].to_dir);
}

#[test]
fn test_install_without_match_copies_nothing() {
    let mut entry = Config::new()
        .with_file("f.txt")
        .with_platform("linux", "/L")
        .with_platform("macos", "/M")
        .with_platform("windows", "/W");
    entry.file_dir = "/src".to_string();

    let ops = install(&vec![entry], "beos");
    assert_eq!(0, ops.len());
}

#[test]
fn test_install_first_match_wins_on_duplicates() {
    let entry = Config::new()
        .with_file("f.txt")
        .with_platform("linux", "/b")
        .with_platform("linux", "/a");

    let ops = install(&vec![entry], "linux");
    assert_eq!(1, ops.len());
    assert_eq!("/a", ops[0].to_dir);
}

#[test]
fn test_install_handles_each_entry() {
    let mut one = Config::new().with_file("a.txt").with_linuxpath("/A");
    one.file_dir = "/s1".to_string();
    let two = Config::new().with_file("b.txt").with_macpath("/B");
    let mut three = Config::new().with_file("c.txt").with_linuxpath("/C");
    three.file_dir = "/s3".to_string();

    let ops = install(&vec![one, two, three], "linux");
    assert_eq!(2, ops.len());
    assert_eq!("a.txt", ops[0].file);
    assert_eq!("/A", ops[0].to_dir);
    assert_eq!("c.txt", ops[1].file);
    assert_eq!("/s3", ops[1].from_dir);
}

#[test]
fn test_verbosity_defaults_to_quiet() {
    assert!(verbosity(Some(true)));
    assert!(!verbosity(Some(false)));
    assert!(!verbosity(None));
}

#[test]
fn test_error_messages() {
    assert_eq!("target path does not exist", CrabError::NotFound.message());
    assert_eq!(
        "path has no usable file name or is not valid text",
        CrabError::InvalidPath.message()
    );
    assert_eq!("manifest document is malformed", CrabError::Serialization.message());
}
