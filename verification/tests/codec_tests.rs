//! The manifest document format: export, import, and their round trip.

use configcrab::Config;
use configcrab::CrabError;
use configcrab::codec::export_entries;
use configcrab::codec::import_entries;

#[test]
fn test_import_export() {
    let config = Config::new()
        .with_file("file")
        .with_linuxpath("linux")
        .with_macpath("mac")
        .with_winpath("win");

    let example_config = [config.clone(), config];
    let document = export_entries(&example_config.to_vec());
    let import = import_entries(&document).unwrap();
    assert_eq!(example_config.to_vec(), import);
}

#[test]
fn test_export_exact_document() {
    let mut entry = Config::new().with_file("c.txt").with_linuxpath("/L");
    entry.file_dir = "/src".to_string();

    let document = export_entries(&vec![entry]);
    assert_eq!(
        "- file: \"c.txt\"\n  file_dir: \"/src\"\n  paths:\n    - platform: \"linux\"\n      path: \"/L\"\n",
        document
    );
}

#[test]
fn test_export_empty_manifest() {
    let document = export_entries(&Vec::new());
    assert_eq!("", document);
    assert_eq!(Vec::<Config>::new(), import_entries("").unwrap());
}

#[test]
fn test_round_trip_with_escaped_characters() {
    let mut entry = Config::new()
        .with_file("we\"ird\\name")
        .with_platform("pl\nat", "pa\"th\\");
    entry.file_dir = "di\"r\\".to_string();

    let entries = vec![entry];
    let document = export_entries(&entries);
    let import = import_entries(&document).unwrap();
    assert_eq!(entries, import);
}

#[test]
fn test_round_trip_entry_without_locations() {
    let entries = vec![Config::new().with_file("lonely")];
    let import = import_entries(&export_entries(&entries)).unwrap();
    assert_eq!(entries, import);
}

#[test]
fn test_import_missing_file_field_fails() {
    let document = "- file_dir: \"/src\"\n  paths:\n";
    assert_eq!(Err(CrabError::Serialization), import_entries(document));
}

#[test]
fn test_import_garbage_fails() {
    assert_eq!(Err(CrabError::Serialization), import_entries("not a manifest"));
    assert_eq!(
        Err(CrabError::Serialization),
        import_entries("- file: \"unterminated")
    );
}

#[test]
fn test_import_trailing_text_fails() {
    let document = export_entries(&vec![Config::new().with_file("f")]);
    let mut broken = document.clone();
    broken.push_str("trailing");
    assert!(import_entries(&document).is_ok());
    assert_eq!(Err(CrabError::Serialization), import_entries(&broken));
}
