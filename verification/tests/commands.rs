use hyprloom::commands::{
    autosave_status, autosaves_to_prune, choose_autosave_mode, is_autosave_name, is_user_session_name,
    judge_age, may_save, parse_max_age, Age, AutosaveMode, AutosaveStatus,
};

#[test]
fn ages_are_read_in_minutes_hours_and_days() {
    assert_eq!(parse_max_age("30m"), Some(1800));
    assert_eq!(parse_max_age("24h"), Some(86_400));
    assert_eq!(parse_max_age("7d"), Some(604_800));
    assert_eq!(parse_max_age(""), None);
    assert_eq!(parse_max_age("7"), None);
    assert_eq!(parse_max_age("d"), None);
    assert_eq!(parse_max_age("7w"), None);
    assert_eq!(parse_max_age("99999999999999999999d"), None);
    assert_eq!(parse_max_age("18446744073709551615d"), None);
}

#[test]
fn sessions_are_judged_by_their_age() {
    assert_eq!(judge_age(-1, 60), Age::Future);
    assert_eq!(judge_age(0, 60), Age::Fresh);
    assert_eq!(judge_age(60_000_000_000, 60), Age::Fresh);
    assert_eq!(judge_age(60_000_000_001, 60), Age::TooOld);
}

#[test]
fn autosave_flags_exclude_each_other() {
    assert_eq!(choose_autosave_mode(false, false, false), Some(AutosaveMode::Status));
    assert_eq!(choose_autosave_mode(true, false, false), Some(AutosaveMode::Now));
    assert_eq!(choose_autosave_mode(false, true, false), Some(AutosaveMode::Install));
    assert_eq!(choose_autosave_mode(false, false, true), Some(AutosaveMode::Uninstall));
    assert_eq!(choose_autosave_mode(true, true, false), None);
    assert_eq!(choose_autosave_mode(false, true, true), None);
}

#[test]
fn autosave_status_needs_an_installed_timer() {
    assert_eq!(autosave_status(false, true), AutosaveStatus::NotConfigured);
    assert_eq!(autosave_status(true, false), AutosaveStatus::Inactive);
    assert_eq!(autosave_status(true, true), AutosaveStatus::Active);
}

#[test]
fn only_the_latest_session_is_overwritten_unasked() {
    assert!(may_save("work", false, false));
    assert!(!may_save("work", false, true));
    assert!(may_save("work", true, true));
    assert!(may_save("latest", false, true));
}

#[test]
fn only_old_autosaves_are_pruned() {
    let names: Vec<String> =
        ["autosave-4", "autosave-3", "autosave-2", "autosave-1"].map(str::to_string).to_vec();
    assert_eq!(autosaves_to_prune(&names, 2, &None), vec!["autosave-2", "autosave-1"]);
    assert_eq!(
        autosaves_to_prune(&names, 2, &Some("autosave-2".to_string())),
        vec!["autosave-1"]
    );
    assert!(autosaves_to_prune(&names, 9, &None).is_empty());
    assert!(is_autosave_name("autosave-1"));
    assert!(!is_autosave_name("work"));
}

#[test]
fn users_name_sessions_by_plain_file_names() {
    assert!(is_user_session_name("work"));
    assert!(is_user_session_name("Work 2"));
    assert!(!is_user_session_name(""));
    assert!(!is_user_session_name(".hidden"));
    assert!(!is_user_session_name("../work"));
    assert!(!is_user_session_name("autosave-1"));
}
