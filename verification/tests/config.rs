use hyprloom::config::{
    app_config_for, check_config_file, is_ignored_class, settle_config, validate_config_structure,
    AppConfig, Config, MAX_AUTOSAVE_RETAIN, MAX_CONFIG_APPS, MAX_CONFIG_FILE_BYTES,
    MAX_CONFIG_FILTERS, MAX_CONFIG_PROFILE_WORKSPACES, MAX_CONFIG_STRING_BYTES,
    MAX_RESTORE_DELAY_MS, MAX_WINDOW_DETECT_TIMEOUT_MS, MIN_WINDOW_DETECT_TIMEOUT_MS,
};
use hyprloom::files::FileFacts;
use hyprloom::lists::Table;

fn app() -> AppConfig {
    AppConfig {
        binary: None,
        capture_cwd: None,
        capture_last_command: None,
        hint_template: None,
        profile_workspaces: None,
        default_workspace: None,
    }
}

#[test]
fn test_default_config() {
    let config = Config::default();

    assert_eq!(config.general.default_session, "latest");
    assert_eq!(config.general.restore_delay_ms, 500);
    assert_eq!(config.general.window_detect_timeout_ms, 5000);
    assert!(
        config.filters.ignore_classes.contains(&"waybar".to_string()),
        "ignore_classes should contain 'waybar'"
    );
    assert!(
        config.filters.ignore_classes.contains(&"wofi".to_string()),
        "ignore_classes should contain 'wofi' by default"
    );
    assert!(config.apps.is_empty());
}

#[test]
fn test_config_autosave_retain_default() {
    let config = Config::default();
    assert_eq!(config.general.autosave_retain, 5);
}

#[test]
fn test_config_normalizes_operational_limits() {
    let mut config = Config::default();
    config.general.restore_delay_ms = u64::MAX;
    config.general.window_detect_timeout_ms = u64::MAX;
    config.general.autosave_retain = usize::MAX;

    config.normalize();

    assert_eq!(config.general.restore_delay_ms, MAX_RESTORE_DELAY_MS);
    assert_eq!(config.general.window_detect_timeout_ms, MAX_WINDOW_DETECT_TIMEOUT_MS);
    assert_eq!(config.general.autosave_retain, MAX_AUTOSAVE_RETAIN);

    config.general.window_detect_timeout_ms = 100;
    config.normalize();
    assert_eq!(config.general.window_detect_timeout_ms, MIN_WINDOW_DETECT_TIMEOUT_MS);
}

fn private_file() -> FileFacts {
    FileFacts {
        is_directory: false,
        is_file: true,
        is_owned: true,
        mode: 0o600,
    }
}

fn private_directory() -> FileFacts {
    FileFacts {
        is_directory: true,
        is_file: false,
        is_owned: true,
        mode: 0o700,
    }
}

#[test]
fn test_config_file_and_structure_limits() {
    assert!(check_config_file(private_file(), private_directory(), MAX_CONFIG_FILE_BYTES).is_ok());
    assert_eq!(
        check_config_file(private_file(), private_directory(), MAX_CONFIG_FILE_BYTES + 1),
        Err("file is larger than 1048576 bytes".to_string())
    );

    let mut config = Config::default();
    config.general.default_session = "x".repeat(MAX_CONFIG_STRING_BYTES + 1);
    assert!(validate_config_structure(&config).is_err());

    config.general.default_session = "latest".to_string();
    config.filters.ignore_classes = vec!["class".to_string(); MAX_CONFIG_FILTERS + 1];
    assert!(validate_config_structure(&config).is_err());
}

#[test]
fn each_limit_has_its_complaint() {
    let long = "x".repeat(MAX_CONFIG_STRING_BYTES + 1);

    let mut config = Config::default();
    config.general.default_session = "é".repeat(MAX_CONFIG_STRING_BYTES / 2 + 1);
    assert_eq!(
        validate_config_structure(&config),
        Err("default session is longer than 65536 bytes".to_string())
    );

    let mut config = Config::default();
    config.filters.ignore_classes = vec![long.clone()];
    assert_eq!(
        validate_config_structure(&config),
        Err("ignored class is longer than 65536 bytes".to_string())
    );
    config.filters.ignore_classes = vec![String::new(); MAX_CONFIG_FILTERS + 1];
    assert_eq!(
        validate_config_structure(&config),
        Err("more than 4096 ignored classes".to_string())
    );

    let mut config = Config::default();
    let mut workspaces: Table<i32> = Table::new();
    workspaces.insert(long.clone(), 1);
    let mut browser = app();
    browser.profile_workspaces = Some(workspaces);
    config.apps.insert("browser".to_string(), browser);
    assert_eq!(
        validate_config_structure(&config),
        Err("profile workspace name is longer than 65536 bytes".to_string())
    );

    let mut config = Config::default();
    let mut named = app();
    named.hint_template = Some(long);
    config.apps.insert("named".to_string(), named);
    assert_eq!(
        validate_config_structure(&config),
        Err("app hint template is longer than 65536 bytes".to_string())
    );
    assert!(MAX_CONFIG_APPS < MAX_CONFIG_PROFILE_WORKSPACES);
}

#[test]
fn test_config_rejects_group_writable_config_or_directory() {
    let mut file = private_file();
    file.mode = 0o664;
    assert!(check_config_file(file, private_directory(), 30).is_err());

    let mut directory = private_directory();
    directory.mode = 0o770;
    assert!(check_config_file(private_file(), directory, 30).is_err());

    let mut foreign = private_file();
    foreign.is_owned = false;
    assert!(check_config_file(foreign, private_directory(), 30).is_err());
    assert_eq!(
        check_config_file(private_directory(), private_directory(), 30),
        Err("config path is not a regular file".to_string())
    );
}

#[test]
fn files_beyond_the_limits_are_passed_over() {
    let mut config = Config::default();
    config.general.default_session = "work".to_string();
    config.general.restore_delay_ms = 70_000;
    let (settled, problem) = settle_config(config);
    assert_eq!(problem, None);
    assert_eq!(settled.general.default_session, "work");
    assert_eq!(settled.general.restore_delay_ms, 60_000);

    let mut config = Config::default();
    config.general.default_session = "x".repeat(MAX_CONFIG_STRING_BYTES + 1);
    let (settled, problem) = settle_config(config);
    assert_eq!(problem.as_deref(), Some("default session is longer than 65536 bytes"));
    assert_eq!(settled.general.default_session, "latest");
}

#[test]
fn test_ignored_classes_are_case_insensitive() {
    assert!(is_ignored_class("WayBar", &["waybar".to_string()]));
    assert!(!is_ignored_class("kitty", &["waybar".to_string()]));
}

#[test]
fn test_app_config_lookup_is_case_insensitive() {
    let mut ghostty = app();
    ghostty.binary = Some("ghostty".to_string());
    ghostty.capture_cwd = Some(true);
    let mut config = Config::default();
    config.apps.insert("com.mitchellh.ghostty".to_string(), ghostty);

    let app = app_config_for(&config, "Com.MitchellH.Ghostty", "").unwrap();
    assert_eq!(app.binary.as_deref(), Some("ghostty"));
    assert_eq!(app.capture_cwd, Some(true));
}

#[test]
fn app_config_lookup_prefers_the_exact_class() {
    let mut config = Config::default();
    let mut loose = app();
    loose.binary = Some("loose".to_string());
    let mut initial = app();
    initial.binary = Some("initial".to_string());
    let mut exact = app();
    exact.binary = Some("exact".to_string());
    config.apps.insert("KITTY".to_string(), loose);
    config.apps.insert("wrapper".to_string(), initial);
    config.apps.insert("kitty".to_string(), exact);

    assert_eq!(app_config_for(&config, "kitty", "wrapper").unwrap().binary.as_deref(), Some("exact"));
    assert_eq!(app_config_for(&config, "other", "wrapper").unwrap().binary.as_deref(), Some("initial"));
    assert_eq!(app_config_for(&config, "Kitty", "").unwrap().binary.as_deref(), Some("loose"));
    assert!(app_config_for(&config, "foot", "").is_none());
}
