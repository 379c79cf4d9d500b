//! Query Hyprland and dispatch compositor commands.

use crate::json;
use crate::text;
use vstd::prelude::*;

verus! {

// ── Hyprland data types ────────────────────────────────────────────────────

/// A Hyprland workspace returned by a JSON compositor query.
#[derive(Debug)]
pub struct HyprWorkspace {
    /// Numeric workspace identifier.
    pub id: i32,
    /// User-facing workspace name.
    pub name: String,
}

#[verifier::ext_equal]
pub ghost struct HyprWorkspaceView {
    pub id: int,
    pub name: Seq<char>,
}

impl View for HyprWorkspace {
    type V = HyprWorkspaceView;

    open spec fn view(&self) -> HyprWorkspaceView {
        HyprWorkspaceView { id: self.id as int, name: self.name@ }
    }
}

impl Clone for HyprWorkspace {
    fn clone(&self) -> (r: Self)
        ensures
            r@ == self@,
    {
        HyprWorkspace { id: self.id, name: self.name.clone() }
    }
}

/// A client window returned by `hyprctl -j clients`.
#[derive(Debug)]
pub struct HyprClient {
    /// Compositor address for this live window.
    pub address: String,
    /// Current Hyprland window class.
    pub class: String,
    /// Current window title.
    pub title: String,
    /// Hyprland's stable window identifier.  Unlike `address`, it is not
    /// recycled when a different window is created at the same address.
    pub stable_id: Option<String>,
    /// App identity reported when the window was created.
    pub initial_class: String,
    /// Title reported when the window was created.
    pub initial_title: String,
    /// Workspace currently containing the client.
    pub workspace: HyprWorkspace,
    /// Numeric monitor identifier currently containing the client.
    pub monitor: i32,
    /// Top-left position in Hyprland's global coordinate space.
    pub at: [i32; 2],
    /// Client size in pixels.
    pub size: [i32; 2],
    /// Whether the client is floating.
    pub floating: bool,
    /// Hyprland fullscreen state.
    pub fullscreen: u8,
    /// Whether the client is pinned.
    pub pinned: bool,
    /// Focus-history sequence assigned by Hyprland.
    pub focus_history_id: i32,
    /// PID of the process owning the client.
    pub pid: u32,
}

#[verifier::ext_equal]
pub ghost struct HyprClientView {
    pub address: Seq<char>,
    pub class: Seq<char>,
    pub title: Seq<char>,
    pub stable_id: Option<Seq<char>>,
    pub initial_class: Seq<char>,
    pub initial_title: Seq<char>,
    pub workspace: HyprWorkspaceView,
    pub monitor: int,
    pub at: (int, int),
    pub size: (int, int),
    pub floating: bool,
    pub fullscreen: u8,
    pub pinned: bool,
    pub focus_history_id: int,
    pub pid: u32,
}

impl View for HyprClient {
    type V = HyprClientView;

    open spec fn view(&self) -> HyprClientView {
        HyprClientView {
            address: self.address@,
            class: self.class@,
            title: self.title@,
            stable_id: self.stable_id.deep_view(),
            initial_class: self.initial_class@,
            initial_title: self.initial_title@,
            workspace: self.workspace@,
            monitor: self.monitor as int,
            at: (self.at@[0] as int, self.at@[1] as int),
            size: (self.size@[0] as int, self.size@[1] as int),
            floating: self.floating,
            fullscreen: self.fullscreen,
            pinned: self.pinned,
            focus_history_id: self.focus_history_id as int,
            pid: self.pid,
        }
    }
}

impl DeepView for HyprClient {
    type V = HyprClientView;

    open spec fn deep_view(&self) -> HyprClientView {
        self@
    }
}

impl Clone for HyprClient {
    fn clone(&self) -> (r: Self)
        ensures
            r@ == self@,
    {
        HyprClient {
            address: self.address.clone(),
            class: self.class.clone(),
            title: self.title.clone(),
            stable_id: text::copy_option(&self.stable_id),
            initial_class: self.initial_class.clone(),
            initial_title: self.initial_title.clone(),
            workspace: self.workspace.clone(),
            monitor: self.monitor,
            at: self.at,
            size: self.size,
            floating: self.floating,
            fullscreen: self.fullscreen,
            pinned: self.pinned,
            focus_history_id: self.focus_history_id,
            pid: self.pid,
        }
    }
}

/// A monitor returned by `hyprctl -j monitors`.
#[derive(Debug)]
pub struct HyprMonitor {
    /// Numeric monitor identifier.
    pub id: i32,
    /// Connector name, such as `DP-1`.
    pub name: String,
    /// Monitor width in pixels.
    pub width: u32,
    /// Monitor height in pixels.
    pub height: u32,
    /// Hyprland transform value.
    pub transform: u32,
    /// Global X origin, when provided by Hyprland.
    pub x: Option<i32>,
    /// Global Y origin, when provided by Hyprland.
    pub y: Option<i32>,
}

#[verifier::ext_equal]
pub ghost struct HyprMonitorView {
    pub id: int,
    pub name: Seq<char>,
    pub width: u32,
    pub height: u32,
    pub transform: u32,
    pub x: Option<i32>,
    pub y: Option<i32>,
}

impl View for HyprMonitor {
    type V = HyprMonitorView;

    open spec fn view(&self) -> HyprMonitorView {
        HyprMonitorView {
            id: self.id as int,
            name: self.name@,
            width: self.width,
            height: self.height,
            transform: self.transform,
            x: self.x,
            y: self.y,
        }
    }
}

impl DeepView for HyprMonitor {
    type V = HyprMonitorView;

    open spec fn deep_view(&self) -> HyprMonitorView {
        self@
    }
}

impl Clone for HyprMonitor {
    fn clone(&self) -> (r: Self)
        ensures
            r@ == self@,
    {
        HyprMonitor {
            id: self.id,
            name: self.name.clone(),
            width: self.width,
            height: self.height,
            transform: self.transform,
            x: self.x,
            y: self.y,
        }
    }
}

// ── Error type ─────────────────────────────────────────────────────────────

/// Errors returned by Hyprland command execution or JSON decoding.
#[derive(Debug)]
pub enum HyprctlError {
    /// Hyprctl returned a non-zero exit status or rejected a command.
    CommandFailed(String),
    /// Hyprctl output was not valid JSON for the requested payload.
    ParseError(String),
    /// The hyprctl process could not be started or read.
    IoError(String),
}

/// What an error tells the user.
pub open spec fn error_message(error: HyprctlError) -> Seq<char> {
    match error {
        HyprctlError::CommandFailed(reason) => "hyprctl command failed: "@ + reason@,
        HyprctlError::ParseError(reason) => "JSON parse error: "@ + reason@,
        HyprctlError::IoError(reason) => "IO error: "@ + reason@,
    }
}

impl HyprctlError {
    /// What the error tells the user.
    pub fn message(&self) -> (r: String)
        ensures
            r@ == error_message(*self),
    {
        match self {
            HyprctlError::CommandFailed(reason) => "hyprctl command failed: ".to_owned().concat(
                reason.as_str(),
            ),
            HyprctlError::ParseError(reason) => "JSON parse error: ".to_owned().concat(
                reason.as_str(),
            ),
            HyprctlError::IoError(reason) => "IO error: ".to_owned().concat(reason.as_str()),
        }
    }
}

/// A command that was answered without a failure.
pub open spec fn is_accepted(
    gives: spec_fn(Seq<char>, Result<(), HyprctlError>) -> bool,
    command: Seq<char>,
) -> bool {
    exists|a: Result<(), HyprctlError>| a is Ok && #[trigger] gives(command, a)
}

/// The command that is due once some were accepted: commands are sent in the
/// order in which they are given.
pub fn next_command(commands: &[String], accepted: usize) -> (r: Option<&String>)
    ensures
        match r {
            Some(command) => accepted < commands.len() && command@
                == commands.deep_view()[accepted as int],
            None => accepted >= commands.len(),
        },
{
    if accepted < commands.len() {
        assert(commands.deep_view()[accepted as int] == commands[accepted as int]@);
        Some(&commands[accepted])
    } else {
        None
    }
}

/// The outcome of sending commands one after the other, when `gives` tells
/// what may be answered to a command: the first failure ends it.
pub open spec fn sends_in_turn(
    gives: spec_fn(Seq<char>, Result<(), HyprctlError>) -> bool,
    commands: Seq<Seq<char>>,
    r: Result<(), HyprctlError>,
) -> bool {
    match r {
        Ok(_) => forall|i: int|
            0 <= i < commands.len() ==> is_accepted(gives, #[trigger] commands[i]),
        Err(_) => exists|i: int|
            {
                &&& 0 <= i < commands.len()
                &&& gives(#[trigger] commands[i], r)
                &&& forall|k: int| 0 <= k < i ==> is_accepted(gives, #[trigger] commands[k])
            },
    }
}

// ── Trait ──────────────────────────────────────────────────────────────────

/// Abstraction over Hyprland queries and dispatches.
pub trait HyprctlClient {
    /// Return the currently open Hyprland clients.
    fn get_clients(&self) -> Result<Vec<HyprClient>, HyprctlError>;

    /// Return the address of the currently focused window, when Hyprland has
    /// one.  This is a window-level correlation signal for applications such
    /// as Chromium and Brave that may hand a launch request to an existing
    /// browser process.
    fn get_active_window_address(&self) -> (r: Result<Option<String>, HyprctlError>)
        default_ensures
            r == Ok::<Option<String>, HyprctlError>(None),
    {
        Ok(None)
    }

    /// Return the current monitor list.
    fn get_monitors(&self) -> Result<Vec<HyprMonitor>, HyprctlError>;

    /// Dispatch a Hyprland command; `args` is the full argument string
    /// (e.g. `"workspace 2"`).
    fn dispatch(&self, args: &str) -> Result<(), HyprctlError>;

    /// Dispatch several commands in one compositor request.  The default
    /// implementation dispatches one after the other and stops at the first
    /// failure; a client of the compositor overrides it with an atomic
    /// request so that a focus-based sequence cannot be interrupted by
    /// another focus change.
    fn dispatch_batch(&self, commands: &[String]) -> (r: Result<(), HyprctlError>)
        default_ensures
            sends_in_turn(
                |c: Seq<char>, a: Result<(), HyprctlError>|
                    exists|s: &str| s@ == c && #[trigger] call_ensures(Self::dispatch, (self, s), a),
                commands.deep_view(),
                r,
            ),
    {
        let ghost gives = |c: Seq<char>, a: Result<(), HyprctlError>|
            exists|s: &str| s@ == c && #[trigger] call_ensures(Self::dispatch, (self, s), a);
        let ghost all = commands.deep_view();
        let mut accepted: usize = 0;
        loop
            invariant
                accepted <= commands.len(),
                all == commands.deep_view(),
                gives == (|c: Seq<char>, a: Result<(), HyprctlError>|
                    exists|s: &str| s@ == c && #[trigger] call_ensures(
                        Self::dispatch,
                        (self, s),
                        a,
                    )),
                forall|k: int| 0 <= k < accepted ==> is_accepted(gives, #[trigger] all[k]),
            decreases commands.len() - accepted,
        {
            let command = match next_command(commands, accepted) {
                Some(command) => command.as_str(),
                None => {
                    return Ok(());
                },
            };
            let answer = self.dispatch(command);
            assert(all[accepted as int] == command@);
            assert(gives(all[accepted as int], answer));
            match answer {
                Ok(_) => {},
                Err(error) => {
                    return Err(error);
                },
            }
            accepted += 1;
        }
    }

    /// Return the Hyprland version string (e.g. `"0.54.1"`).
    fn get_hyprland_version(&self) -> Result<String, HyprctlError>;
}

// ── Command syntax ─────────────────────────────────────────────────────────

/// The state of the reader of dispatch arguments.
pub ghost struct Reader {
    /// Complete arguments.
    pub args: Seq<Seq<char>>,
    /// The argument that is being read.
    pub current: Seq<char>,
    /// The quote that is open.
    pub quote: Option<char>,
    /// The next character stands for itself.
    pub escaped: bool,
    /// An argument has begun, though it may be empty so far.
    pub started: bool,
}

/// Nothing read yet.
pub open spec fn blank_reader() -> Reader {
    Reader { args: seq![], current: seq![], quote: None, escaped: false, started: false }
}

/// The reader after one more character.  A backslash lets the next character
/// stand for itself, also inside quotes; quotes keep white space together.
pub open spec fn read_char(reader: Reader, c: char) -> Reader {
    if reader.escaped {
        Reader { current: reader.current.push(c), escaped: false, started: true, ..reader }
    } else if c == '\\' {
        Reader { escaped: true, started: true, ..reader }
    } else if reader.quote is Some {
        if reader.quote == Some(c) {
            Reader { quote: None, started: true, ..reader }
        } else {
            Reader { current: reader.current.push(c), started: true, ..reader }
        }
    } else if c == '\'' || c == '"' {
        Reader { quote: Some(c), started: true, ..reader }
    } else if text::is_space(c) {
        if reader.started {
            Reader {
                args: reader.args.push(reader.current),
                current: seq![],
                started: false,
                ..reader
            }
        } else {
            reader
        }
    } else {
        Reader { current: reader.current.push(c), started: true, ..reader }
    }
}

/// The reader after a text.
pub open spec fn read_text(reader: Reader, s: Seq<char>) -> Reader
    decreases s.len(),
{
    if s.len() == 0 {
        reader
    } else {
        read_char(read_text(reader, s.drop_last()), s.last())
    }
}

/// What a text of dispatch arguments means.
pub open spec fn dispatch_args(input: Seq<char>) -> Result<Seq<Seq<char>>, Seq<char>> {
    let reader = read_text(blank_reader(), input);
    if reader.escaped {
        Err("dispatch arguments end with an escape"@)
    } else if reader.quote is Some {
        Err("dispatch arguments contain an unterminated quote"@)
    } else if reader.started {
        Ok(reader.args.push(reader.current))
    } else {
        Ok(reader.args)
    }
}

/// Parse the argument string accepted by `HyprctlClient::dispatch` without
/// destroying quoted workspace or monitor names, such as
/// `'name:Writing Desk'`.
pub fn parse_dispatch_args(input: &str) -> (r: Result<Vec<String>, String>)
    ensures
        match r {
            Ok(args) => dispatch_args(input@) == Ok::<Seq<Seq<char>>, Seq<char>>(args.deep_view()),
            Err(reason) => dispatch_args(input@) == Err::<Seq<Seq<char>>, Seq<char>>(reason@),
        },
{
    let x = text::chars_of(input);
    let mut args: Vec<String> = Vec::new();
    let mut current = String::new();
    let mut quote: Option<char> = None;
    let mut escaped = false;
    let mut started = false;
    let mut i: usize = 0;
    assert(args.deep_view() =~= Seq::<Seq<char>>::empty());
    while i < x.len()
        invariant
            x@ == input@,
            i <= x.len(),
            read_text(blank_reader(), input@.take(i as int)) == (Reader {
                args: args.deep_view(),
                current: current@,
                quote,
                escaped,
                started,
            }),
        decreases x.len() - i,
    {
        let c = x[i];
        proof {
            assert(input@.take(i + 1).drop_last() =~= input@.take(i as int));
            assert(input@.take(i + 1).last() == c);
        }
        if escaped {
            current.push(c);
            escaped = false;
            started = true;
        } else if c == '\\' {
            escaped = true;
            started = true;
        } else if let Some(open) = quote {
            if c == open {
                quote = None;
            } else {
                current.push(c);
            }
            started = true;
        } else if c == '\'' || c == '"' {
            quote = Some(c);
            started = true;
        } else if text::char_is_space(c) {
            if started {
                let ghost args0 = args.deep_view();
                let ghost token = current@;
                args.push(current);
                current = String::new();
                started = false;
                assert(args.deep_view() =~= args0.push(token));
            }
        } else {
            current.push(c);
            started = true;
        }
        i += 1;
    }
    assert(input@.take(input@.len() as int) =~= input@);
    if escaped {
        return Err("dispatch arguments end with an escape".to_owned());
    }
    if quote.is_some() {
        return Err("dispatch arguments contain an unterminated quote".to_owned());
    }
    if started {
        let ghost args0 = args.deep_view();
        let ghost token = current@;
        args.push(current);
        assert(args.deep_view() =~= args0.push(token));
    }
    Ok(args)
}

/// A command as it stands in a batch: a backslash and a semicolon are
/// escaped.
pub open spec fn escaped_command(command: Seq<char>) -> Seq<char> {
    text::replaced(
        text::replaced(command, seq!['\\'], seq!['\\', '\\']),
        seq![';'],
        seq!['\\', ';'],
    )
}

fn escape_batch_command(command: &str) -> (r: String)
    ensures
        r@ == escaped_command(command@),
{
    proof {
        reveal_strlit("\\");
        reveal_strlit("\\\\");
        reveal_strlit(";");
        reveal_strlit("\\;");
        assert("\\"@ =~= seq!['\\']);
        assert("\\\\"@ =~= seq!['\\', '\\']);
        assert(";"@ =~= seq![';']);
        assert("\\;"@ =~= seq!['\\', ';']);
    }
    let slashes = text::replace(command, "\\", "\\\\");
    text::replace(slashes.as_str(), ";", "\\;")
}

/// The batch of some commands.
pub open spec fn batch_text(commands: Seq<Seq<char>>) -> Seq<char>
    decreases commands.len(),
{
    if commands.len() == 0 {
        seq![]
    } else {
        batch_text(commands.drop_last()) + (if commands.len() > 1 {
            " ; "@
        } else {
            ""@
        }) + "dispatch "@ + escaped_command(commands.last())
    }
}

/// A place from which on no command is malformed; the number of commands that
/// are read before the first malformed one.
pub open spec fn first_malformed(commands: Seq<Seq<char>>, i: int) -> int
    decreases commands.len() - i,
{
    if i < 0 || i >= commands.len() {
        commands.len() as int
    } else if dispatch_args(commands[i]) is Err {
        i
    } else {
        first_malformed(commands, i + 1)
    }
}

/// Build the exact batch payload passed to `hyprctl --batch`.
///
/// The first command that is not valid dispatch syntax makes it fail, with
/// the reason that the parser gives.
pub fn build_batch_command(commands: &[String]) -> (r: Result<String, HyprctlError>)
    ensures
        ({
            let all = commands.deep_view();
            let bad = first_malformed(all, 0);
            match r {
                Ok(batch) => bad == all.len() && batch@ == batch_text(all),
                Err(HyprctlError::CommandFailed(reason)) => 0 <= bad < all.len()
                    && dispatch_args(all[bad]) == Err::<Seq<Seq<char>>, Seq<char>>(reason@),
                Err(_) => false,
            }
        }),
{
    let ghost all = commands.deep_view();
    let mut batch = String::new();
    let mut i: usize = 0;
    while i < commands.len()
        invariant
            i <= commands.len(),
            all == commands.deep_view(),
            first_malformed(all, 0) == first_malformed(all, i as int),
            batch@ == batch_text(all.take(i as int)),
        decreases commands.len() - i,
    {
        let command = commands[i].as_str();
        assert(all[i as int] == command@);
        proof {
            reveal_strlit("");
            assert(all.take(i + 1).drop_last() =~= all.take(i as int));
            assert(all.take(i + 1).last() == command@);
        }
        match parse_dispatch_args(command) {
            Ok(_) => {},
            Err(reason) => {
                return Err(HyprctlError::CommandFailed(reason));
            },
        }
        let ghost batch0 = batch@;
        if i > 0 {
            batch.append(" ; ");
        } else {
            assert(batch0 + ""@ =~= batch0);
        }
        batch.append("dispatch ");
        let part = escape_batch_command(command);
        batch.append(part.as_str());
        i += 1;
    }
    assert(all.take(all.len() as int) =~= all);
    Ok(batch)
}

/// The address in the description of the active window; an empty one and
/// `0x0` stand for no window.
pub open spec fn active_address(value: json::JsonView) -> Option<Seq<char>> {
    match json::text_member(value, "address"@) {
        Some(address) => if address.len() == 0 || address == "0x0"@ {
            None
        } else {
            Some(address)
        },
        None => None,
    }
}

/// The address in a parsed description of the active window.
pub fn active_window_address(value: &serde_json::Value) -> (r: Option<String>)
    ensures
        r.deep_view() == active_address(json::json_view(*value)),
{
    match json::get(value, "address") {
        Some(member) => match json::as_text(member) {
            Some(address) => if address.is_empty() || text::same(address, "0x0") {
                None
            } else {
                Some(address.to_owned())
            },
            None => None,
        },
        None => None,
    }
}

/// Reads the answer of `hyprctl -j activewindow`.
pub fn parse_active_window_address(payload: &[u8]) -> (r: Result<Option<String>, serde_json::Error>)
    ensures
        match json::json_of_bytes(payload@) {
            Some(value) => r is Ok && r->Ok_0.deep_view() == active_address(value),
            None => r is Err,
        },
{
    match json::parse_bytes(payload) {
        Ok(value) => Ok(active_window_address(&value)),
        Err(error) => Err(error),
    }
}

/// The version in the answer of `hyprctl version`: its second word.
pub open spec fn version_in(answer: Seq<char>) -> Seq<char> {
    let all = text::words(answer);
    if all.len() > 1 {
        all[1]
    } else {
        "unknown"@
    }
}

/// Reads the answer of `hyprctl version`, such as
/// `Hyprland 0.54.1 built from ...`.
pub fn parse_version(answer: &str) -> (r: String)
    ensures
        r@ == version_in(answer@),
{
    let all = text::split_words(answer);
    if all.len() > 1 {
        all[1].clone()
    } else {
        "unknown".to_owned()
    }
}

} // verus!
