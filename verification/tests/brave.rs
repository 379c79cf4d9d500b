use hyprloom::brave::{
    filter_profiles_by_active_directories, filter_profiles_by_config,
    parse_profiles_from_local_state,
};
use hyprloom::lists::Table;
use hyprloom::session::BraveProfile;

fn profile(directory: &str, name: &str) -> BraveProfile {
    BraveProfile {
        directory: directory.to_string(),
        name: name.to_string(),
    }
}

#[test]
fn test_parse_local_state_profiles() {
    let json = r#"{
            "profile": {
                "info_cache": {
                    "Default": {"name": "Credifit"},
                    "Profile 1": {"name": "LinkPJ"},
                    "Profile 2": {"name": "ABRH Bahia"}
                }
            }
        }"#;
    let profiles = parse_profiles_from_local_state(json).unwrap();
    assert_eq!(profiles.len(), 3);
    assert!(profiles.iter().any(|p| p.directory == "Default" && p.name == "Credifit"));
    assert!(profiles.iter().any(|p| p.directory == "Profile 1" && p.name == "LinkPJ"));
}

#[test]
fn test_parse_local_state_empty() {
    let json = r#"{"profile": {"info_cache": {}}}"#;
    let profiles = parse_profiles_from_local_state(json).unwrap();
    assert!(profiles.is_empty());
}

#[test]
fn test_parse_local_state_empty_name_falls_back_to_directory() {
    let json = r#"{"profile": {"info_cache": {"Default": {"name": ""}}}}"#;
    let profiles = parse_profiles_from_local_state(json).unwrap();
    assert_eq!(profiles.len(), 1);
    assert_eq!(profiles[0].name, "Default", "empty name should fall back to directory");
}

#[test]
fn test_parse_local_state_missing_field() {
    let json = r#"{"other": "data"}"#;
    let profiles = parse_profiles_from_local_state(json).unwrap();
    assert!(profiles.is_empty());
}

#[test]
fn broken_local_state_is_an_error() {
    assert!(parse_profiles_from_local_state("{\"profile\":").is_err());
}

#[test]
fn profiles_come_in_the_order_of_their_directories() {
    let json = r#"{"profile": {"info_cache": {"Profile 2": {}, "Default": {"name": 7}, "Profile 1": {"name": "x"}}}}"#;
    let profiles = parse_profiles_from_local_state(json).unwrap();
    assert_eq!(
        profiles,
        vec![
            profile("Default", "Default"),
            profile("Profile 1", "x"),
            profile("Profile 2", "Profile 2")
        ]
    );
}

#[test]
fn test_filter_profiles_by_config_with_mappings() {
    let profiles = vec![
        profile("Default", "Credifit"),
        profile("Profile 1", "LinkPJ"),
        profile("Profile 2", "ABRH"),
    ];
    let mut mappings: Table<i32> = Table::new();
    mappings.insert("Default".to_string(), 1);
    mappings.insert("Profile 1".to_string(), 6);
    let filtered = filter_profiles_by_config(profiles, Some(&mappings));
    assert_eq!(filtered.len(), 2);
    assert!(filtered.iter().any(|p| p.directory == "Default"));
    assert!(filtered.iter().any(|p| p.directory == "Profile 1"));
    assert!(!filtered.iter().any(|p| p.directory == "Profile 2"));
}

#[test]
fn test_filter_profiles_by_config_without_mappings_keeps_all() {
    let profiles = vec![profile("Default", "Credifit"), profile("Profile 1", "LinkPJ")];
    let filtered = filter_profiles_by_config(profiles, None);
    assert_eq!(filtered.len(), 2);
}

#[test]
fn test_filter_profiles_by_active_directories_does_not_restore_closed_profiles() {
    let profiles = vec![profile("Default", "Credifit"), profile("Profile 1", "LinkPJ")];
    let active = vec!["default".to_string()];

    let filtered = filter_profiles_by_active_directories(profiles, &active);

    assert_eq!(filtered.len(), 1);
    assert_eq!(filtered[0].directory, "Default");
}
