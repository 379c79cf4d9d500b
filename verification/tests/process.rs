use hyprloom::process::{
    find_profile_directories, find_profile_directory, find_profile_discovery, is_helper_process,
    is_plain_shell, profile_directory_from_cmdline, select_terminal_child, select_terminal_process,
    ChildProcess, ProcessError, ProcessInfoProvider,
};
use hyprloom::procfs::{gather_children, parse_child_pids, parse_cmdline, parse_start_time};
use std::collections::HashMap;

struct MockProcessInfo {
    cwds: HashMap<u32, String>,
    children: HashMap<u32, Vec<ChildProcess>>,
}

impl ProcessInfoProvider for MockProcessInfo {
    fn get_cwd(&self, pid: u32) -> Result<String, ProcessError> {
        self.cwds.get(&pid).cloned().ok_or(ProcessError::NotFound(pid))
    }

    fn get_children(&self, pid: u32) -> Result<Vec<ChildProcess>, ProcessError> {
        Ok(self.children.get(&pid).cloned().unwrap_or_default())
    }
}

fn child(pid: u32, cwd: &str, cmdline: &str) -> ChildProcess {
    ChildProcess {
        pid,
        cwd: cwd.to_string(),
        cmdline: cmdline.to_string(),
    }
}

fn tree(children: HashMap<u32, Vec<ChildProcess>>) -> MockProcessInfo {
    MockProcessInfo {
        cwds: HashMap::new(),
        children,
    }
}

#[test]
fn test_mock_process_info() {
    let parent_pid: u32 = 1000;
    let child_pid: u32 = 1001;
    let child_cwd = "/home/user/projects".to_string();

    let mut cwds = HashMap::new();
    cwds.insert(parent_pid, "/home/user".to_string());
    cwds.insert(child_pid, child_cwd.clone());

    let mut children_map = HashMap::new();
    children_map.insert(parent_pid, vec![child(child_pid, &child_cwd, "bash")]);

    let mock = MockProcessInfo {
        cwds,
        children: children_map,
    };

    // Verify get_cwd returns the correct path for the parent
    let parent_cwd = mock.get_cwd(parent_pid).expect("parent cwd should exist");
    assert_eq!(parent_cwd, "/home/user");

    // Verify get_children returns correct child data
    let result = mock.get_children(parent_pid).expect("should return children");
    assert_eq!(result.len(), 1);
    assert_eq!(result[0].pid, child_pid);
    assert_eq!(result[0].cwd, child_cwd);
    assert_eq!(result[0].cmdline, "bash");
}

#[test]
fn test_mock_cwd_not_found() {
    let mock = tree(HashMap::new());

    let result = mock.get_cwd(99999);
    assert!(result.is_err());

    match result.unwrap_err() {
        ProcessError::NotFound(pid) => assert_eq!(pid, 99999),
        ProcessError::IoError(error) => panic!("expected NotFound, got IO error {error}"),
    }
}

#[test]
fn test_mock_children_empty_for_unknown_pid() {
    let mock = tree(HashMap::new());

    // get_children returns Ok(empty) for unknown PIDs (not an error)
    let result = mock.get_children(99999).expect("should return empty vec");
    assert!(result.is_empty());
}

#[test]
fn test_plain_shell_detection_and_deterministic_child_selection() {
    let children = vec![child(20, "/work", "some-command"), child(10, "/work", "/usr/bin/zsh")];

    assert!(is_plain_shell("/usr/bin/zsh"));
    assert!(is_plain_shell("zsh -l"));
    assert!(is_plain_shell("bash --login"));
    assert!(!is_plain_shell("bash -lc pwd"));
    assert!(!is_plain_shell("zsh -c pwd"));
    assert_eq!(select_terminal_child(&children).unwrap().pid, 10);
}

#[test]
fn test_terminal_selection_walks_nested_process_tree() {
    let mut children = HashMap::new();
    children.insert(1, vec![child(20, "/work", "tmux")]);
    children.insert(20, vec![child(30, "/work/project", "/usr/bin/zsh")]);
    let process_info = tree(children);

    let shell = select_terminal_process(&process_info, 1).expect("nested shell");
    assert_eq!(shell.pid, 30);
    assert_eq!(shell.cwd, "/work/project");
}

#[test]
fn test_terminal_selection_rejects_multiple_shells_for_one_terminal_pid() {
    let mut children = HashMap::new();
    children.insert(
        1,
        vec![child(20, "/work/one", "zsh"), child(30, "/work/two", "bash")],
    );

    assert!(select_terminal_process(&tree(children), 1).is_none());
}

#[test]
fn test_terminal_selection_rejects_unknown_shell_fallback() {
    let mut children = HashMap::new();
    children.insert(1, vec![child(20, "/work", "nu")]);

    assert!(select_terminal_process(&tree(children), 1).is_none());
}

#[test]
fn test_profile_directory_parser_accepts_names_with_spaces() {
    assert_eq!(
        profile_directory_from_cmdline("brave --profile-directory=Profile 1"),
        Some("Profile 1".to_string())
    );
}

#[test]
fn test_profile_detection_rejects_process_trees_with_multiple_profiles() {
    let mut children = HashMap::new();
    children.insert(1, vec![child(2, "/tmp", "brave --profile-directory=Default")]);
    children.insert(2, vec![child(3, "/tmp", "brave --profile-directory=Profile 1")]);
    let process_info = tree(children);

    assert_eq!(find_profile_directory(&process_info, 1), None);
    assert_eq!(
        find_profile_directories(&process_info, 1),
        vec!["Default".to_string(), "Profile 1".to_string()]
    );
}

#[test]
fn test_profile_discovery_marks_unreadable_process_metadata_incomplete() {
    let discovery = find_profile_discovery(&tree(HashMap::new()), 1);

    assert!(discovery.profiles.is_empty());
    assert!(!discovery.complete);
}

#[test]
fn descendants_are_met_once_in_the_order_of_their_numbers() {
    let mut children = HashMap::new();
    children.insert(1, vec![child(30, "", "b"), child(20, "", "a")]);
    children.insert(20, vec![child(30, "", "b"), child(1, "", "root")]);
    children.insert(30, vec![child(10, "", "c")]);
    let process_info = tree(children);

    let met: Vec<u32> =
        process_info.get_descendants(1).unwrap().iter().map(|process| process.pid).collect();
    let mut sorted = met.clone();
    sorted.sort_unstable();
    assert_eq!(met, sorted);
    assert_eq!(met, vec![10, 20, 30]);
    assert!(process_info.is_process_related(1, 10));
    assert!(process_info.is_process_related(1, 1));
    assert!(!process_info.is_process_related(20, 40));
}

#[test]
fn providers_need_not_know_command_lines_and_start_times() {
    let process_info = tree(HashMap::new());
    assert!(process_info.get_cmdline(7).is_err());
    assert!(process_info.get_start_time(7).is_err());
    assert!(!process_info.has_reliable_process_start_time());
    assert!(ProcessError::NotFound(7).message().contains('7'));
    assert!(ProcessError::IoError("gone".to_string()).message().contains("gone"));
}

#[test]
fn helpers_are_told_from_shells() {
    assert!(!is_helper_process("zsh"));
    assert!(!is_plain_shell(""));
}

#[test]
fn start_times_follow_the_last_parenthesis() {
    let stat = "42 (a) b) S 1 42 42 0 -1 4194304 100 0 0 0 1 2 0 0 20 0 1 0 987654 1000 10";
    assert_eq!(parse_start_time(stat), Some(987_654));
    assert_eq!(parse_start_time("42 (a) S 1 2 3"), None);
    assert_eq!(parse_start_time("no parenthesis"), None);
    let broken = "42 (a) S 1 42 42 0 -1 4194304 100 0 0 0 1 2 0 0 20 0 1 0 x 1000 10";
    assert_eq!(parse_start_time(broken), None);
}

#[test]
fn child_lists_hold_process_numbers() {
    assert_eq!(parse_child_pids("12 7 300 "), Some(vec![12, 7, 300]));
    assert_eq!(parse_child_pids(""), Some(vec![]));
    assert_eq!(parse_child_pids("12 x"), None);
    assert_eq!(parse_child_pids("4294967296"), None);
}

#[test]
fn children_of_all_threads_are_listed_once() {
    let listed = vec![child(9, "", "old"), child(3, "", "x"), child(9, "", "new"), child(5, "", "y")];
    let gathered = gather_children(&listed);
    let pids: Vec<u32> = gathered.iter().map(|process| process.pid).collect();
    assert_eq!(pids, vec![3, 5, 9]);
    assert_eq!(gathered[2].cmdline, "new");
}

#[test]
fn command_lines_are_split_at_zeros() {
    assert_eq!(parse_cmdline(b"brave\0--profile-directory=Profile 1\0"), "brave --profile-directory=Profile 1");
    assert_eq!(parse_cmdline(b""), "");
    assert_eq!(parse_cmdline(b"\0\0a"), "a");
    assert_eq!(parse_cmdline(&[b'a', 0, 0xff, 0, 0xc3, 0xa9]), "a é");
}
