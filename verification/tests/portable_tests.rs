//! The path-portability transform.

use configcrab::portable::desanitize_dir;
use configcrab::portable::desanitize_with;
use configcrab::portable::sanitize_dir;
use configcrab::portable::sanitize_with;
use configcrab::replace::replace_all;

#[test]
fn test_sanitize_replaces_home_prefix() {
    assert_eq!("$_HOME_$/cfg/f.txt", sanitize_with("/home/u/cfg/f.txt", "/home/u"));
}

#[test]
fn test_desanitize_restores_home_prefix() {
    assert_eq!("/home/u/cfg/f.txt", desanitize_with("$_HOME_$/cfg/f.txt", "/home/u"));
}

#[test]
fn test_sanitize_then_desanitize_round_trip() {
    let original = "/home/u/cfg/f.txt";
    let portable = sanitize_with(original, "/home/u");
    assert_eq!(original, desanitize_with(&portable, "/home/u"));
}

#[test]
fn test_desanitize_then_sanitize_round_trip() {
    let portable = "$_HOME_$/cfg/f.txt";
    let local = desanitize_with(portable, "/home/u");
    assert_eq!(portable, sanitize_with(&local, "/home/u"));
}

#[test]
fn test_sanitize_without_home_is_identity() {
    assert_eq!("/opt/data/f.txt", sanitize_with("/opt/data/f.txt", ""));
    assert_eq!("/opt/data/f.txt", desanitize_with("/opt/data/f.txt", ""));
}

#[test]
fn test_sanitize_replaces_every_occurrence() {
    assert_eq!("$_HOME_$/x/$_HOME_$", sanitize_with("/h/x//h", "/h"));
}

#[test]
fn test_sanitize_dir_leaves_plain_names_alone() {
    assert_eq!("plainname", sanitize_dir("plainname"));
    assert_eq!("plainname", desanitize_dir("plainname"));
}

#[test]
fn test_replace_all_scans_left_to_right() {
    assert_eq!("xbxb", replace_all("aabaab", "aa", "x"));
    assert_eq!("hello", replace_all("hello", "zz", "y"));
    assert_eq!("", replace_all("", "zz", "y"));
}
