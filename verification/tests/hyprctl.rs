use hyprloom::hyprctl::{
    build_batch_command, next_command, parse_active_window_address, parse_dispatch_args, parse_version,
    HyprClient, HyprMonitor, HyprctlClient, HyprctlError,
};
use std::cell::RefCell;

/// A test double that records every `dispatch` call and returns canned empty
/// data for the query methods.
struct MockHyprctl {
    dispatched: RefCell<Vec<String>>,
}

impl MockHyprctl {
    fn new() -> Self {
        Self {
            dispatched: RefCell::new(Vec::new()),
        }
    }

    fn dispatched_calls(&self) -> Vec<String> {
        self.dispatched.borrow().clone()
    }
}

impl HyprctlClient for MockHyprctl {
    fn get_clients(&self) -> Result<Vec<HyprClient>, HyprctlError> {
        Ok(vec![])
    }

    fn get_monitors(&self) -> Result<Vec<HyprMonitor>, HyprctlError> {
        Ok(vec![])
    }

    fn dispatch(&self, args: &str) -> Result<(), HyprctlError> {
        if args == "fail" {
            return Err(HyprctlError::CommandFailed("refused".to_string()));
        }
        self.dispatched.borrow_mut().push(args.to_string());
        Ok(())
    }

    fn get_hyprland_version(&self) -> Result<String, HyprctlError> {
        Ok("0.0.0-mock".to_string())
    }
}

#[test]
fn test_mock_records_dispatches() {
    let mock = MockHyprctl::new();

    mock.dispatch("workspace 1").unwrap();
    mock.dispatch("workspace 2").unwrap();
    mock.dispatch("movetoworkspace 3").unwrap();

    let calls = mock.dispatched_calls();
    assert_eq!(calls.len(), 3);
    assert_eq!(calls[0], "workspace 1");
    assert_eq!(calls[1], "workspace 2");
    assert_eq!(calls[2], "movetoworkspace 3");
}

#[test]
fn test_mock_get_clients_returns_empty() {
    let mock = MockHyprctl::new();
    let clients = mock.get_clients().unwrap();
    assert!(clients.is_empty());
}

#[test]
fn test_mock_get_monitors_returns_empty() {
    let mock = MockHyprctl::new();
    let monitors = mock.get_monitors().unwrap();
    assert!(monitors.is_empty());
}

#[test]
fn test_mock_version_returns_sentinel() {
    let mock = MockHyprctl::new();
    let version = mock.get_hyprland_version().unwrap();
    assert_eq!(version, "0.0.0-mock");
}

#[test]
fn test_dispatch_records_preserve_order() {
    let mock = MockHyprctl::new();
    let commands = ["exec kitty", "killactive", "togglefloating"];
    for cmd in &commands {
        mock.dispatch(cmd).unwrap();
    }
    let calls = mock.dispatched_calls();
    for (i, cmd) in commands.iter().enumerate() {
        assert_eq!(&calls[i], cmd);
    }
}

#[test]
fn batches_are_sent_one_by_one_by_default() {
    let mock = MockHyprctl::new();
    mock.dispatch_batch(&["a".to_string(), "b".to_string()]).unwrap();
    assert_eq!(mock.dispatched_calls(), vec!["a", "b"]);
    let outcome = mock.dispatch_batch(&["c".to_string(), "fail".to_string(), "d".to_string()]);
    assert!(outcome.is_err());
    assert_eq!(mock.dispatched_calls(), vec!["a", "b", "c"]);
    assert_eq!(mock.get_active_window_address().unwrap(), None);
}

#[test]
fn test_parse_dispatch_args_preserves_quoted_names_and_escapes() {
    let args =
        parse_dispatch_args("movetoworkspacesilent 'name:Writing Desk',address:0x1").unwrap();

    assert_eq!(args, vec!["movetoworkspacesilent", "name:Writing Desk,address:0x1"]);

    assert_eq!(
        parse_dispatch_args("movetomonitor DP-1,address:0x1").unwrap(),
        vec!["movetomonitor", "DP-1,address:0x1"]
    );
}

#[test]
fn test_parse_dispatch_args_rejects_unterminated_quotes() {
    assert!(parse_dispatch_args("workspace 'name:Writing Desk").is_err());
}

#[test]
fn batches_are_made_of_valid_commands() {
    let batch = build_batch_command(&[
        "focuswindow address:0x1".to_string(),
        "fullscreen 0".to_string(),
    ])
    .unwrap();
    assert_eq!(batch, "dispatch focuswindow address:0x1 ; dispatch fullscreen 0");
    assert!(build_batch_command(&["workspace 'open".to_string()]).is_err());
}

#[test]
fn test_parse_active_window_address() {
    assert_eq!(
        parse_active_window_address(br#"{"address":"0x123"}"#).unwrap(),
        Some("0x123".to_string())
    );
    assert_eq!(parse_active_window_address(br#"{"address":"0x0"}"#).unwrap(), None);
    assert_eq!(parse_active_window_address(br"{}").unwrap(), None);
}

#[test]
fn broken_answers_about_the_active_window_are_errors() {
    assert!(parse_active_window_address(b"not json").is_err());
    assert_eq!(parse_active_window_address(br#"{"address":7}"#).unwrap(), None);
}

#[test]
fn errors_tell_what_failed() {
    assert!(HyprctlError::CommandFailed("x".to_string()).message().contains('x'));
    assert!(HyprctlError::ParseError("y".to_string()).message().contains('y'));
    assert!(HyprctlError::IoError("z".to_string()).message().contains('z'));
}

#[test]
fn versions_are_read_from_the_answer() {
    assert_eq!(parse_version("Hyprland 0.54.1 built from branch"), "0.54.1");
}

#[test]
fn commands_are_sent_in_order() {
    let commands = vec!["workspace 1".to_string(), "workspace 2".to_string()];
    assert_eq!(next_command(&commands, 0), Some(&commands[0]));
    assert_eq!(next_command(&commands, 1), Some(&commands[1]));
    assert_eq!(next_command(&commands, 2), None);
}
