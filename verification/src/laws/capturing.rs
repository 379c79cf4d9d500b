//! What is captured describes the window that it was captured from.

use crate::capture;
use crate::hyprctl::{HyprClientView, HyprMonitorView};
use crate::laws::dispatch;
use crate::laws::geometry;
use crate::placement;
use crate::placement::ReconcileGeometryView;
use crate::restore::identity;
use crate::restore::identity::MatchPolicy;
use crate::restore::launch;
use crate::restore::observe;
use crate::restore::observe::SightingView;
use crate::session::{LaunchInfoView, MonitorView, SessionClientView};
use vstd::prelude::*;

verus! {

/// A window is in place right after it was captured: nothing has to be done to
/// bring it to where it was saved.
pub proof fn law_captured_window_is_in_place(
    client: HyprClientView,
    monitors: Seq<HyprMonitorView>,
    profile: Option<Seq<char>>,
    start_time: Option<u64>,
    launch: LaunchInfoView,
)
    ensures
        ({
            let saved = capture::recorded(client, monitors, profile, start_time, launch);
            let geometry = ReconcileGeometryView {
                desired_at: saved.at,
                desired_size: saved.size,
                target_monitor_available: placement::monitor_is_available(monitors, saved.monitor),
            };
            let monitor = observe::known_monitor(monitors, client.monitor);
            &&& dispatch::is_in_place(saved, client, monitor, geometry)
            &&& placement::reconcile_commands(saved, client, monitor, geometry).len() == 0
        }),
{
    let saved = capture::recorded(client, monitors, profile, start_time, launch);
    dispatch::law_window_in_place_is_left_alone(
        saved,
        client,
        observe::known_monitor(monitors, client.monitor),
        ReconcileGeometryView {
            desired_at: saved.at,
            desired_size: saved.size,
            target_monitor_available: placement::monitor_is_available(monitors, saved.monitor),
        },
    );
}

/// The monitors of a session as they are captured.
pub open spec fn captured_monitors(monitors: Seq<HyprMonitorView>) -> Seq<MonitorView> {
    monitors.map_values(|m: HyprMonitorView| capture::saved_monitor(m))
}

proof fn lemma_same_monitor(monitors: Seq<HyprMonitorView>, name: Seq<char>)
    requires
        name.len() > 0,
    ensures
        placement::saved_monitor_named(captured_monitors(monitors), name) == match placement::monitor_named(
            monitors,
            name,
        ) {
            Some(monitor) => Some(capture::saved_monitor(monitor)),
            None => None,
        },
    decreases monitors.len(),
{
    let saved = captured_monitors(monitors);
    if monitors.len() > 0 {
        assert(saved[0] == capture::saved_monitor(monitors[0]));
        assert(saved.drop_first() =~= captured_monitors(monitors.drop_first()));
        lemma_same_monitor(monitors.drop_first(), name);
    }
}

/// A captured window keeps its geometry while the monitors stay as they are,
/// where it lies on its monitor.  Where the rotation of that is none of the four
/// turns, it must not be longer than the unturned monitor.
pub proof fn law_captured_geometry_is_kept(
    saved: SessionClientView,
    monitors: Seq<HyprMonitorView>,
)
    requires
        match placement::monitor_named(monitors, saved.monitor) {
            Some(monitor) => placement::current_is_usable(monitor) ==> {
                &&& geometry::is_in_range(monitor)
                &&& geometry::lies_on(saved, monitor)
                &&& geometry::keeps_extent(saved, monitor)
            },
            None => true,
        },
    ensures
        placement::adapted(
            saved,
            captured_monitors(monitors),
            placement::monitor_named(monitors, saved.monitor),
        ) == saved,
{
    if saved.monitor.len() > 0 {
        lemma_same_monitor(monitors, saved.monitor);
        match placement::monitor_named(monitors, saved.monitor) {
            Some(monitor) => {
                if placement::current_is_usable(monitor) {
                    geometry::law_unchanged_monitor_keeps_geometry(
                        saved,
                        capture::saved_monitor(monitor),
                        monitor,
                    );
                }
            },
            None => {},
        }
    }
}

/// A window matches itself right after it was captured, exactly where it is no
/// browser window with a profile.  It needs an address, a stable ID and a
/// class, and a browser window needs a profile that is told alike.
pub proof fn law_captured_window_matches_itself(
    client: HyprClientView,
    heeded: Seq<HyprClientView>,
    monitors: Seq<HyprMonitorView>,
    seen: SightingView,
    profile: Option<Seq<char>>,
    launch: LaunchInfoView,
)
    requires
        client.address.len() > 0,
        identity::is_known(client.stable_id),
        client.class.len() > 0 || client.initial_class.len() > 0,
        capture::is_brave_window(client) ==> {
            let observed = observe::observed_window(client, heeded, monitors, seen);
            &&& identity::options_agree(profile, observed.profile_directory)
            &&& !observed.profile_identity_ambiguous
        },
        !capture::is_brave_window(client) ==> profile is None,
    ensures
        ({
            let saved = capture::recorded(client, monitors, profile, seen.start_time, launch);
            let observed = observe::observed_window(client, heeded, monitors, seen);
            let value = identity::match_value(saved, observed, MatchPolicy::Normal);
            &&& value is Some
            &&& !capture::is_brave_window(client) ==> (value->0).1 is ExactIdentity
        }),
{
    let saved = capture::recorded(client, monitors, profile, seen.start_time, launch);
    let observed = observe::observed_window(client, heeded, monitors, seen);
    assert(identity::is_at_saved_address(saved, client.address));
    assert(identity::classes_agree(saved, client));
}

} // verus!
