use hyprloom::capture::{
    build_session_client, capture_session, launch_cwd_arg, profile_for_window, CaptureEnvironment,
    CaptureError,
};
use hyprloom::config::{AppConfig, Config, FilterConfig, GeneralConfig};
use hyprloom::entries::application_directories;
use hyprloom::hyprctl::{
    HyprClient as RawClient, HyprMonitor as RawMonitor, HyprWorkspace as RawWorkspace,
    HyprctlClient, HyprctlError,
};
use hyprloom::lists::Table;
use hyprloom::process::{ChildProcess, ProcessError, ProcessInfoProvider};
use hyprloom::session::{BraveProfile, LaunchInfo};
use hyprloom::webapps::{
    discover_webapp_launch_info, find_webapp_launch_info_in_entries, parse_webapp_desktop_file,
    tokenize_desktop_exec, webapp_class_matches_url, webapp_class_uses_default_profile,
};
use std::collections::HashMap;

fn environment() -> CaptureEnvironment {
    CaptureEnvironment {
        created_at: 0,
        desktop_entries: Vec::new(),
        brave_inventory: Vec::new(),
    }
}

// ── Mock: HyprctlClient ──────────────────────────────────────────────

struct MockHyprctl {
    clients: Vec<RawClient>,
    monitors: Vec<RawMonitor>,
}

impl HyprctlClient for MockHyprctl {
    fn get_clients(&self) -> Result<Vec<RawClient>, HyprctlError> {
        Ok(self.clients.clone())
    }
    fn get_monitors(&self) -> Result<Vec<RawMonitor>, HyprctlError> {
        Ok(self.monitors.clone())
    }
    fn dispatch(&self, _: &str) -> Result<(), HyprctlError> {
        Ok(())
    }
    fn get_hyprland_version(&self) -> Result<String, HyprctlError> {
        Ok("0.54.1".to_string())
    }
}

// ── Mock: ProcessInfoProvider ────────────────────────────────────────

struct MockProcess {
    cwds: HashMap<u32, String>,
    children: HashMap<u32, Vec<ChildProcess>>,
}

impl ProcessInfoProvider for MockProcess {
    fn get_cwd(&self, pid: u32) -> Result<String, ProcessError> {
        self.cwds
            .get(&pid)
            .cloned()
            .ok_or(ProcessError::NotFound(pid))
    }
    fn get_children(&self, pid: u32) -> Result<Vec<ChildProcess>, ProcessError> {
        Ok(self.children.get(&pid).cloned().unwrap_or_default())
    }
}

// ── Helpers ──────────────────────────────────────────────────────────

fn make_hypr_client(class: &str, pid: u32) -> RawClient {
    RawClient {
        address: "0xdeadbeef".to_string(),
        stable_id: None,
        class: class.to_string(),
        title: format!("{class} window"),
        initial_class: class.to_string(),
        initial_title: class.to_string(),
        workspace: RawWorkspace {
            id: 1,
            name: "1".to_string(),
        },
        monitor: 0,
        at: [0, 0],
        size: [800, 600],
        floating: false,
        fullscreen: 0,
        pinned: false,
        focus_history_id: 0,
        pid,
    }
}

fn make_monitor(name: &str) -> RawMonitor {
    make_monitor_with_id(0, name)
}

fn make_monitor_with_id(id: i32, name: &str) -> RawMonitor {
    RawMonitor {
        id,
        name: name.to_string(),
        width: 1920,
        height: 1080,
        transform: 0,
        x: Some(0),
        y: Some(0),
    }
}

fn empty_process() -> MockProcess {
    MockProcess {
        cwds: HashMap::new(),
        children: HashMap::new(),
    }
}

// ── filter ignored classes ──

#[test]
fn test_capture_filters_ignored_classes() {
    let hyprctl = MockHyprctl {
        clients: vec![
            make_hypr_client("kitty", 1001),
            make_hypr_client("waybar", 1002),
            make_hypr_client("brave-browser", 1003),
        ],
        monitors: vec![make_monitor("DP-1")],
    };

    let config = Config {
        general: GeneralConfig::default(),
        filters: FilterConfig {
            ignore_classes: vec!["waybar".to_string()],
        },
        apps: Table::new(),
    };

    let session =
        capture_session("test", &hyprctl, &empty_process(), &config, environment()).expect("the capture succeeds");

    assert_eq!(session.clients.len(), 2, "waybar must be excluded");
    let classes: Vec<&str> = session.clients.iter().map(|c| c.class.as_str()).collect();
    assert!(classes.contains(&"kitty"), "kitty must be present");
    assert!(
        classes.contains(&"brave-browser"),
        "brave-browser must be present"
    );
    assert!(!classes.contains(&"waybar"), "waybar must be absent");
}

#[test]
fn test_capture_filters_ignored_initial_class_case_insensitively() {
    let mut client = make_hypr_client("wrapper", 1004);
    client.initial_class = "WayBar".to_string();
    let hyprctl = MockHyprctl {
        clients: vec![client],
        monitors: vec![make_monitor("DP-1")],
    };
    let config = Config {
        general: GeneralConfig::default(),
        filters: FilterConfig {
            ignore_classes: vec!["waybar".to_string()],
        },
        apps: Table::new(),
    };

    let session = capture_session("test", &hyprctl, &empty_process(), &config, environment()).unwrap();
    assert!(session.clients.is_empty());
}

// ── kitty with CWD capture ──

#[test]
fn test_capture_builds_kitty_launch_with_cwd() {
    const KITTY_PID: u32 = 2001;
    const SHELL_PID: u32 = 2002;

    let hyprctl = MockHyprctl {
        clients: vec![make_hypr_client("kitty", KITTY_PID)],
        monitors: vec![make_monitor("DP-1")],
    };

    let mut app_configs = Table::new();
    app_configs.insert(
        "kitty".to_string(),
        AppConfig {
            binary: None,
            capture_cwd: Some(true),
            capture_last_command: None,
            hint_template: None,
            profile_workspaces: None,
            default_workspace: None,
        },
    );

    let config = Config {
        general: GeneralConfig::default(),
        filters: FilterConfig {
            ignore_classes: vec![],
        },
        apps: app_configs,
    };

    let mut children: HashMap<u32, Vec<ChildProcess>> = HashMap::new();
    children.insert(
        KITTY_PID,
        vec![ChildProcess {
            pid: SHELL_PID,
            cwd: String::from("/home/user/project"),
            cmdline: "zsh".to_string(),
        }],
    );

    let process = MockProcess {
        cwds: HashMap::new(),
        children,
    };

    let session = capture_session("test", &hyprctl, &process, &config, environment()).expect("the capture succeeds");

    assert_eq!(session.clients.len(), 1);
    let launch = &session.clients[0].launch;
    assert_eq!(launch.command, "kitty");
    assert_eq!(
        launch.args,
        vec!["--directory", "/home/user/project"],
        "args must contain --directory <cwd>"
    );
    assert!(
        launch.hint.is_none(),
        "no hint expected when capture_last_command is off"
    );
}

// ── generic app — binary override, no CWD ──

#[test]
fn test_capture_builds_generic_app_launch() {
    const BRAVE_PID: u32 = 3001;

    let hyprctl = MockHyprctl {
        clients: vec![make_hypr_client("brave-browser", BRAVE_PID)],
        monitors: vec![make_monitor("HDMI-A-1")],
    };

    let mut app_configs = Table::new();
    app_configs.insert(
        "brave-browser".to_string(),
        AppConfig {
            binary: Some("brave".to_string()),
            capture_cwd: None,
            capture_last_command: None,
            hint_template: None,
            profile_workspaces: None,
            default_workspace: None,
        },
    );

    let config = Config {
        general: GeneralConfig::default(),
        filters: FilterConfig {
            ignore_classes: vec![],
        },
        apps: app_configs,
    };

    let session =
        capture_session("test", &hyprctl, &empty_process(), &config, environment()).expect("the capture succeeds");

    assert_eq!(session.clients.len(), 1);
    let launch = &session.clients[0].launch;
    assert_eq!(launch.command, "brave", "binary override must be applied");
    assert!(
        launch.args.is_empty(),
        "no args expected without CWD capture"
    );
    assert!(launch.hint.is_none());
    assert_eq!(
        session.clients[0].profile_directory.as_deref(),
        Some("Default"),
        "a lone Brave window without a profile flag is the Default profile"
    );
    assert!(!session.clients[0].profile_identity_ambiguous);
}

#[test]
fn test_capture_defaults_brave_to_its_executable() {
    let hyprctl = MockHyprctl {
        clients: vec![make_hypr_client("brave-browser", 3002)],
        monitors: vec![make_monitor("DP-1")],
    };

    let session = capture_session("test", &hyprctl, &empty_process(), &Config::default(), environment())
        .expect("the capture succeeds");

    assert_eq!(session.clients[0].launch.command, "brave");
}

#[test]
fn test_parse_omarchy_webapp_desktop_entry() {
    let contents = r#"
        [Desktop Entry]
        Name=YouTube
        Exec=omarchy-launch-or-focus chrome-youtube.com__-Profile_1 "omarchy-launch-webapp https://youtube.com/ --profile-directory='Profile 1'"
    "#;

    let launch = parse_webapp_desktop_file(contents, &["chrome-youtube.com__-Profile_1", ""])
        .expect("webapp desktop entry should be recognized");

    assert_eq!(launch.command, "omarchy-launch-or-focus");
    assert_eq!(
        launch.args,
        vec![
            "chrome-youtube.com__-Profile_1",
            "omarchy-launch-webapp https://youtube.com/ --profile-directory='Profile 1'"
        ]
    );
}

#[test]
fn test_parse_webapp_entry_rejects_unrelated_class() {
    let contents =
        "Exec=omarchy-launch-or-focus-webapp chrome-chatgpt.com__-Default https://chatgpt.com/";

    assert!(parse_webapp_desktop_file(contents, &["chrome-other.com__-Default"]).is_none());
}

#[test]
fn test_parse_standard_omarchy_webapp_desktop_entry() {
    let contents = "[Desktop Entry]\nExec=omarchy-launch-webapp https://chatgpt.com/\n";

    let launch = parse_webapp_desktop_file(contents, &["chrome-chatgpt.com__-Default", ""])
        .expect("standard direct webapp entry should be recognized");

    assert_eq!(launch.command, "omarchy-launch-webapp");
    assert_eq!(launch.args, vec!["https://chatgpt.com/"]);
    assert_eq!(launch.specificity, 1);
}

#[test]
fn test_webapp_route_and_profile_suffixes_must_match() {
    let class = "chrome-discord.com__channels_@me-Default";

    assert!(webapp_class_matches_url(
        class,
        "https://discord.com/channels/@me"
    ));
    assert!(webapp_class_matches_url(
        class,
        "https://discord.com/channels/@me?view=unread"
    ));
    assert!(!webapp_class_matches_url(
        class,
        "https://discord.com/other"
    ));
    assert!(webapp_class_uses_default_profile(class));
    assert!(!webapp_class_uses_default_profile(
        "chrome-discord.com__channels_@me-Profile_1"
    ));
}

#[test]
fn test_pathless_root_webapp_class_matches_default_profile() {
    let class = "chrome-example.com-Default";

    assert!(webapp_class_matches_url(class, "https://example.com/"));
    assert!(webapp_class_matches_url(
        class,
        "https://example.com/?view=home"
    ));
    assert!(webapp_class_uses_default_profile(class));
    assert!(!webapp_class_matches_url(class, "https://example.com/app"));
}

#[test]
fn test_find_webapp_launch_info_uses_matching_desktop_entry() {
    let chatgpt = "[Desktop Entry]\nExec=omarchy-launch-or-focus-webapp chrome-chatgpt.com__-Default https://chatgpt.com/\n";
    let client = make_hypr_client("chrome-chatgpt.com__-Default", 3003);

    let launch = find_webapp_launch_info_in_entries(
        &client.class,
        &client.initial_class,
        &[chatgpt.to_string()],
    )
    .expect("matching webapp desktop entry should be found");

    assert_eq!(launch.command, "omarchy-launch-or-focus-webapp");
    assert_eq!(
        launch.args,
        vec!["chrome-chatgpt.com__-Default", "https://chatgpt.com/"]
    );
}

#[test]
fn test_find_webapp_launch_info_rejects_ambiguous_lossy_routes() {
    let slash = "[Desktop Entry]\nExec=omarchy-launch-webapp https://example.com/foo/bar\n";
    let underscore = "[Desktop Entry]\nExec=omarchy-launch-webapp https://example.com/foo_bar\n";

    assert!(find_webapp_launch_info_in_entries(
        "chrome-example.com__foo_bar-Default",
        "",
        &[slash.to_string(), underscore.to_string()],
    )
    .is_none());
}

#[test]
fn test_find_webapp_launch_info_prefers_explicit_class_identity() {
    let direct = "[Desktop Entry]\nExec=omarchy-launch-webapp https://example.com/\n";
    let explicit = "[Desktop Entry]\nExec=omarchy-launch-or-focus-webapp chrome-example.com__-Default https://example.com/\n";

    let launch = find_webapp_launch_info_in_entries(
        "chrome-example.com__-Default",
        "",
        &[direct.to_string(), explicit.to_string()],
    )
    .expect("explicit class launcher should win over a generic URL entry");

    assert_eq!(launch.command, "omarchy-launch-or-focus-webapp");
    assert_eq!(launch.args[0], "chrome-example.com__-Default");
}

#[test]
fn test_capture_uses_ghostty_binary_and_working_directory_flag() {
    const GHOSTTY_PID: u32 = 3501;
    const SHELL_PID: u32 = 3502;

    let hyprctl = MockHyprctl {
        clients: vec![make_hypr_client("com.mitchellh.ghostty", GHOSTTY_PID)],
        monitors: vec![make_monitor("DP-1")],
    };

    let mut app_configs = Table::new();
    app_configs.insert(
        "com.mitchellh.ghostty".to_string(),
        AppConfig {
            binary: None,
            capture_cwd: Some(true),
            capture_last_command: None,
            hint_template: None,
            profile_workspaces: None,
            default_workspace: None,
        },
    );

    let config = Config {
        general: GeneralConfig::default(),
        filters: FilterConfig {
            ignore_classes: vec![],
        },
        apps: app_configs,
    };

    let process = MockProcess {
        cwds: HashMap::new(),
        children: HashMap::from([(
            GHOSTTY_PID,
            vec![ChildProcess {
                pid: SHELL_PID,
                cwd: String::from("/home/user/project"),
                cmdline: "zsh".to_string(),
            }],
        )]),
    };

    let session = capture_session("test", &hyprctl, &process, &config, environment()).unwrap();
    let client = &session.clients[0];

    assert_eq!(client.launch.command, "ghostty");
    assert_eq!(
        client.launch.args,
        vec!["--working-directory", "/home/user/project"]
    );
    assert_eq!(client.initial_class, "com.mitchellh.ghostty");
}

// ── monitor name resolution ───────────────────────────────

#[test]
fn test_capture_resolves_monitor_name_from_index() {
    let hyprctl = MockHyprctl {
        clients: vec![make_hypr_client("kitty", 4001)],
        monitors: vec![make_monitor("DP-2")],
    };

    let config = Config {
        general: GeneralConfig::default(),
        filters: FilterConfig {
            ignore_classes: vec![],
        },
        apps: Table::new(),
    };

    let session =
        capture_session("test", &hyprctl, &empty_process(), &config, environment()).expect("the capture succeeds");

    assert_eq!(session.clients[0].monitor, "DP-2");
}

#[test]
fn test_capture_preserves_named_workspace_and_pinned_state() {
    let mut client = make_hypr_client("kitty", 4002);
    client.workspace = RawWorkspace {
        id: -99,
        name: "special:magic".to_string(),
    };
    client.pinned = true;
    let hyprctl = MockHyprctl {
        clients: vec![client],
        monitors: vec![make_monitor("DP-1")],
    };

    let session = capture_session("test", &hyprctl, &empty_process(), &Config::default(), environment())
        .expect("the capture succeeds");
    let saved = &session.clients[0];
    assert_eq!(saved.workspace, -99);
    assert_eq!(saved.workspace_name, "special:magic");
    assert!(saved.pinned);
}

// ── version propagated ───────────────────────────────────

#[test]
fn test_capture_propagates_hyprland_version() {
    let hyprctl = MockHyprctl {
        clients: vec![],
        monitors: vec![],
    };
    let config = Config::default();

    let session =
        capture_session("test", &hyprctl, &empty_process(), &config, environment()).expect("the capture succeeds");

    assert_eq!(session.hyprland_version, "0.54.1");
}

// ── hint must filter plain-shell grandchildren ──

#[test]
fn test_capture_hint_filters_plain_shell_grandchild() {
    const KITTY_PID: u32 = 5001;
    const SHELL_PID: u32 = 5002;
    const GC_PID: u32 = 5003;

    let hyprctl = MockHyprctl {
        clients: vec![make_hypr_client("kitty", KITTY_PID)],
        monitors: vec![make_monitor("DP-1")],
    };

    let mut app_configs = Table::new();
    app_configs.insert(
        "kitty".to_string(),
        AppConfig {
            binary: None,
            capture_cwd: Some(true),
            capture_last_command: Some(true),
            hint_template: None,
            profile_workspaces: None,
            default_workspace: None,
        },
    );

    let config = Config {
        general: GeneralConfig::default(),
        filters: FilterConfig {
            ignore_classes: vec![],
        },
        apps: app_configs,
    };

    let mut children: HashMap<u32, Vec<ChildProcess>> = HashMap::new();
    // Shell child of kitty
    children.insert(
        KITTY_PID,
        vec![ChildProcess {
            pid: SHELL_PID,
            cwd: String::from("/home/user"),
            cmdline: "zsh".to_string(),
        }],
    );
    // Grandchild is also a plain shell (e.g. nested /bin/zsh)
    children.insert(
        SHELL_PID,
        vec![ChildProcess {
            pid: GC_PID,
            cwd: String::from("/home/user"),
            cmdline: "/bin/zsh".to_string(),
        }],
    );

    let process = MockProcess {
        cwds: HashMap::new(),
        children,
    };

    let session = capture_session("test", &hyprctl, &process, &config, environment()).expect("the capture succeeds");

    assert_eq!(session.clients.len(), 1);
    assert!(
        session.clients[0].launch.hint.is_none(),
        "hint must be None when grandchild is a plain shell like /bin/zsh"
    );
}

// ── monitor resolved by ID, not array index ──

#[test]
fn test_capture_resolves_monitor_by_id_not_index() {
    // Array order: [DP-4 (id=1), DP-5 (id=0)]
    // A client with monitor:0 should resolve to DP-5 (id=0), NOT DP-4 (index 0).
    let mut client = make_hypr_client("kitty", 6001);
    client.monitor = 0;

    let hyprctl = MockHyprctl {
        clients: vec![client],
        monitors: vec![
            make_monitor_with_id(1, "DP-4"),
            make_monitor_with_id(0, "DP-5"),
        ],
    };

    let config = Config {
        general: GeneralConfig::default(),
        filters: FilterConfig {
            ignore_classes: vec![],
        },
        apps: Table::new(),
    };

    let session =
        capture_session("test", &hyprctl, &empty_process(), &config, environment()).expect("the capture succeeds");

    assert_eq!(
        session.clients[0].monitor, "DP-5",
        "monitor must be resolved by ID (0 → DP-5), not by array index (0 → DP-4)"
    );
}

// ── brave_profiles field is populated when Brave is present ──

#[test]
fn test_capture_includes_brave_profiles_field() {
    let hyprctl = MockHyprctl {
        clients: vec![make_hypr_client("brave-browser", 7001)],
        monitors: vec![make_monitor("DP-1")],
    };
    let config = Config {
        general: GeneralConfig::default(),
        filters: FilterConfig {
            ignore_classes: vec![],
        },
        apps: Table::new(),
    };

    let session = capture_session("test", &hyprctl, &empty_process(), &config, environment()).unwrap();
    // brave_profiles is populated from Local State if Brave is installed;
    // in test env it may be empty or populated — just verify it doesn't error.
    // The field exists and is accessible.
    let _ = &session.brave_profiles;
}

#[test]
fn captured_profiles_are_those_of_open_windows() {
    let hyprctl = MockHyprctl {
        clients: vec![make_hypr_client("brave-browser", 7001)],
        monitors: vec![make_monitor("DP-1")],
    };
    let mut environment = environment();
    environment.created_at = 42;
    environment.brave_inventory = vec![
        BraveProfile {
            directory: "Default".to_string(),
            name: "Home".to_string(),
        },
        BraveProfile {
            directory: "Profile 1".to_string(),
            name: "Work".to_string(),
        },
    ];
    let process = MockProcess {
        cwds: HashMap::new(),
        children: HashMap::from([(
            7001,
            vec![ChildProcess {
                pid: 7002,
                cwd: String::from("/"),
                cmdline: "brave --profile-directory=Profile 1".to_string(),
            }],
        )]),
    };
    let session =
        capture_session("work", &hyprctl, &process, &Config::default(), environment).unwrap();
    assert_eq!(session.name, "work");
    assert_eq!(session.created_at, 42);
    assert_eq!(session.clients[0].profile_directory.as_deref(), Some("Profile 1"));
    assert_eq!(session.brave_profiles.len(), 1);
    assert_eq!(session.brave_profiles[0].name, "Work");
}

#[test]
fn several_windows_leave_the_default_profile_open() {
    assert_eq!(profile_for_window(&[], 1), Some("Default".to_string()));
    assert_eq!(profile_for_window(&[], 2), None);
    assert_eq!(profile_for_window(&["Profile 1".to_string()], 1), Some("Profile 1".to_string()));
    assert_eq!(profile_for_window(&["Profile 1".to_string()], 2), None);
    assert_eq!(profile_for_window(&["a".to_string(), "b".to_string()], 1), None);
}

struct BrokenHyprctl;

impl HyprctlClient for BrokenHyprctl {
    fn get_clients(&self) -> Result<Vec<RawClient>, HyprctlError> {
        Err(HyprctlError::CommandFailed("no compositor".to_string()))
    }
    fn get_monitors(&self) -> Result<Vec<RawMonitor>, HyprctlError> {
        Ok(Vec::new())
    }
    fn dispatch(&self, _: &str) -> Result<(), HyprctlError> {
        Ok(())
    }
    fn get_hyprland_version(&self) -> Result<String, HyprctlError> {
        Ok("0.54.1".to_string())
    }
}

#[test]
fn failing_compositors_fail_the_capture() {
    let outcome = capture_session(
        "test",
        &BrokenHyprctl,
        &empty_process(),
        &Config::default(),
        environment(),
    );
    let error: CaptureError = outcome.unwrap_err();
    assert!(error.message().contains("no compositor"), "{}", error.message());
}

#[test]
fn working_directories_are_found_among_arguments() {
    let args = vec!["--directory".to_string(), "/work".to_string()];
    assert_eq!(launch_cwd_arg(&args), Some("/work".to_string()));
    assert_eq!(launch_cwd_arg(&["x".to_string()]), None);
}

#[test]
fn desktop_commands_are_tokenized() {
    assert_eq!(
        tokenize_desktop_exec("run \"a b\" 'c d' e"),
        Some(vec!["run".to_string(), "a b".to_string(), "c d".to_string(), "e".to_string()])
    );
    assert_eq!(tokenize_desktop_exec("run \"open"), None);
    assert!(discover_webapp_launch_info("kitty", "kitty", &[]).is_none());
}

#[test]
fn windows_on_unknown_monitors_keep_their_number() {
    let mut client = make_hypr_client("kitty", 1);
    client.monitor = 4;
    client.stable_id = Some("18000001".to_string());
    let launch = LaunchInfo {
        command: "kitty".to_string(),
        args: Vec::new(),
        hint: None,
    };
    let saved = build_session_client(&client, &[make_monitor("DP-1")], None, Some(9), launch);
    assert_eq!(saved.process_start_time, Some(9));
    assert_eq!(saved.stable_id.as_deref(), Some("18000001"));
    assert_eq!(saved.address.as_deref(), Some("0xdeadbeef"));
    assert_eq!(saved.monitor, "monitor-4");
}

#[test]
fn desktop_entries_stand_in_the_data_directories() {
    let text = |value: &str| Some(value.to_string());
    assert_eq!(
        application_directories(&None, &text("/home/me"), &None),
        vec![
            "/home/me/.local/share/applications",
            "/usr/local/share/applications",
            "/usr/share/applications",
            "/usr/share/omarchy/applications"
        ]
    );
    assert_eq!(
        application_directories(&text("/data/"), &text("/home/me"), &text("/a::/data:/usr/share/omarchy")),
        vec!["/data/applications", "/a/applications", "/usr/share/omarchy/applications"]
    );
    assert_eq!(
        application_directories(&text(""), &text("/home/me"), &text("")),
        vec!["/usr/share/omarchy/applications"]
    );
}
