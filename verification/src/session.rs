//! The contents of a saved session.

use crate::text;
use vstd::prelude::*;

verus! {

/// How a window is opened again.
#[derive(Debug)]
pub struct LaunchInfo {
    /// The executable.
    pub command: String,
    /// Its arguments.
    pub args: Vec<String>,
    /// A command that ran inside a terminal when the window was saved.
    pub hint: Option<String>,
}

#[verifier::ext_equal]
pub ghost struct LaunchInfoView {
    pub command: Seq<char>,
    pub args: Seq<Seq<char>>,
    pub hint: Option<Seq<char>>,
}

impl View for LaunchInfo {
    type V = LaunchInfoView;

    open spec fn view(&self) -> LaunchInfoView {
        LaunchInfoView {
            command: self.command@,
            args: self.args.deep_view(),
            hint: self.hint.deep_view(),
        }
    }
}

impl Clone for LaunchInfo {
    fn clone(&self) -> (r: Self)
        ensures
            r@ == self@,
    {
        LaunchInfo {
            command: self.command.clone(),
            args: text::copy_texts(&self.args),
            hint: text::copy_option(&self.hint),
        }
    }
}

/// A saved window.
#[derive(Debug)]
pub struct SessionClient {
    /// Window class.
    pub class: String,
    /// Window title.
    pub title: String,
    /// Compositor address of the window when it was saved.
    pub address: Option<String>,
    /// Process that owned the window.
    pub pid: Option<u32>,
    /// Start time of that process.
    pub process_start_time: Option<u64>,
    /// Compositor identifier that is not used again for another window.
    pub stable_id: Option<String>,
    /// Class at the time the window was opened.
    pub initial_class: String,
    /// Title at the time the window was opened.
    pub initial_title: String,
    /// Workspace number.
    pub workspace: i32,
    /// Workspace name.
    pub workspace_name: String,
    /// Monitor name.
    pub monitor: String,
    /// Top-left corner.
    pub at: [i32; 2],
    /// Width and height.
    pub size: [i32; 2],
    /// The window floats.
    pub floating: bool,
    /// Fullscreen state.
    pub fullscreen: u8,
    /// The window is pinned.
    pub pinned: bool,
    /// Browser profile of the window.
    pub profile_directory: Option<String>,
    /// The profile could not be told.
    pub profile_identity_ambiguous: bool,
    /// Place in the focus history.
    pub focus_history_id: i32,
    /// How to open the window again.
    pub launch: LaunchInfo,
}

#[verifier::ext_equal]
pub ghost struct SessionClientView {
    pub class: Seq<char>,
    pub title: Seq<char>,
    pub address: Option<Seq<char>>,
    pub pid: Option<u32>,
    pub process_start_time: Option<u64>,
    pub stable_id: Option<Seq<char>>,
    pub initial_class: Seq<char>,
    pub initial_title: Seq<char>,
    pub workspace: int,
    pub workspace_name: Seq<char>,
    pub monitor: Seq<char>,
    pub at: (int, int),
    pub size: (int, int),
    pub floating: bool,
    pub fullscreen: u8,
    pub pinned: bool,
    pub profile_directory: Option<Seq<char>>,
    pub profile_identity_ambiguous: bool,
    pub focus_history_id: int,
    pub launch: LaunchInfoView,
}

impl View for SessionClient {
    type V = SessionClientView;

    open spec fn view(&self) -> SessionClientView {
        SessionClientView {
            class: self.class@,
            title: self.title@,
            address: self.address.deep_view(),
            pid: self.pid,
            process_start_time: self.process_start_time,
            stable_id: self.stable_id.deep_view(),
            initial_class: self.initial_class@,
            initial_title: self.initial_title@,
            workspace: self.workspace as int,
            workspace_name: self.workspace_name@,
            monitor: self.monitor@,
            at: (self.at@[0] as int, self.at@[1] as int),
            size: (self.size@[0] as int, self.size@[1] as int),
            floating: self.floating,
            fullscreen: self.fullscreen,
            pinned: self.pinned,
            profile_directory: self.profile_directory.deep_view(),
            profile_identity_ambiguous: self.profile_identity_ambiguous,
            focus_history_id: self.focus_history_id as int,
            launch: self.launch@,
        }
    }
}

impl DeepView for SessionClient {
    type V = SessionClientView;

    open spec fn deep_view(&self) -> SessionClientView {
        self@
    }
}

impl Clone for SessionClient {
    fn clone(&self) -> (r: Self)
        ensures
            r@ == self@,
    {
        SessionClient {
            class: self.class.clone(),
            title: self.title.clone(),
            address: text::copy_option(&self.address),
            pid: self.pid,
            process_start_time: self.process_start_time,
            stable_id: text::copy_option(&self.stable_id),
            initial_class: self.initial_class.clone(),
            initial_title: self.initial_title.clone(),
            workspace: self.workspace,
            workspace_name: self.workspace_name.clone(),
            monitor: self.monitor.clone(),
            at: self.at,
            size: self.size,
            floating: self.floating,
            fullscreen: self.fullscreen,
            pinned: self.pinned,
            profile_directory: text::copy_option(&self.profile_directory),
            profile_identity_ambiguous: self.profile_identity_ambiguous,
            focus_history_id: self.focus_history_id,
            launch: self.launch.clone(),
        }
    }
}

/// A copy of a list of saved windows.
pub fn copy_clients(clients: &[SessionClient]) -> (r: Vec<SessionClient>)
    ensures
        r.deep_view() == clients.deep_view(),
{
    let mut out: Vec<SessionClient> = Vec::new();
    let mut i: usize = 0;
    while i < clients.len()
        invariant
            i <= clients.len(),
            out.len() == i,
            forall|k: int| 0 <= k < i ==> (#[trigger] out[k])@ == clients[k]@,
        decreases clients.len() - i,
    {
        out.push(clients[i].clone());
        i += 1;
    }
    assert(out.deep_view() =~= clients.deep_view());
    out
}

/// A saved monitor.
#[derive(Debug)]
pub struct Monitor {
    /// Connector name.
    pub name: String,
    /// Width in pixels.
    pub width: u32,
    /// Height in pixels.
    pub height: u32,
    /// Rotation of the monitor.
    pub transform: u32,
    /// Left edge, when it was known.
    pub x: Option<i32>,
    /// Upper edge, when it was known.
    pub y: Option<i32>,
}

#[verifier::ext_equal]
pub ghost struct MonitorView {
    pub name: Seq<char>,
    pub width: u32,
    pub height: u32,
    pub transform: u32,
    pub x: Option<i32>,
    pub y: Option<i32>,
}

impl View for Monitor {
    type V = MonitorView;

    open spec fn view(&self) -> MonitorView {
        MonitorView {
            name: self.name@,
            width: self.width,
            height: self.height,
            transform: self.transform,
            x: self.x,
            y: self.y,
        }
    }
}

impl DeepView for Monitor {
    type V = MonitorView;

    open spec fn deep_view(&self) -> MonitorView {
        self@
    }
}

impl Clone for Monitor {
    fn clone(&self) -> (r: Self)
        ensures
            r@ == self@,
    {
        Monitor {
            name: self.name.clone(),
            width: self.width,
            height: self.height,
            transform: self.transform,
            x: self.x,
            y: self.y,
        }
    }
}

/// A browser profile.
#[derive(Debug, PartialEq, Eq)]
pub struct BraveProfile {
    /// Directory of the profile.
    pub directory: String,
    /// Name shown to the user.
    pub name: String,
}

#[verifier::ext_equal]
pub ghost struct BraveProfileView {
    pub directory: Seq<char>,
    pub name: Seq<char>,
}

impl View for BraveProfile {
    type V = BraveProfileView;

    open spec fn view(&self) -> BraveProfileView {
        BraveProfileView { directory: self.directory@, name: self.name@ }
    }
}

impl DeepView for BraveProfile {
    type V = BraveProfileView;

    open spec fn deep_view(&self) -> BraveProfileView {
        self@
    }
}

impl Clone for BraveProfile {
    fn clone(&self) -> (r: Self)
        ensures
            r@ == self@,
    {
        BraveProfile { directory: self.directory.clone(), name: self.name.clone() }
    }
}

/// A saved session.
#[derive(Debug)]
pub struct Session {
    /// Name of the session.
    pub name: String,
    /// Microseconds between the start of 1970 and the capture.
    pub created_at: i64,
    /// Version of the compositor.
    pub hyprland_version: String,
    /// Monitors at the time of the capture.
    pub monitors: Vec<Monitor>,
    /// Windows at the time of the capture.
    pub clients: Vec<SessionClient>,
    /// Browser profiles to open.
    pub brave_profiles: Vec<BraveProfile>,
}

#[verifier::ext_equal]
pub ghost struct SessionView {
    pub name: Seq<char>,
    pub created_at: int,
    pub hyprland_version: Seq<char>,
    pub monitors: Seq<MonitorView>,
    pub clients: Seq<SessionClientView>,
    pub brave_profiles: Seq<BraveProfileView>,
}

impl View for Session {
    type V = SessionView;

    open spec fn view(&self) -> SessionView {
        SessionView {
            name: self.name@,
            created_at: self.created_at as int,
            hyprland_version: self.hyprland_version@,
            monitors: self.monitors.deep_view(),
            clients: self.clients.deep_view(),
            brave_profiles: self.brave_profiles.deep_view(),
        }
    }
}

} // verus!
