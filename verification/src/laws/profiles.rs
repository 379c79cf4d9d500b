//! Browser profiles go where they are configured.

use crate::config::ConfigView;
use crate::lists;
use crate::restore::targets;
use crate::session::{BraveProfileView, SessionClientView, SessionView};
use vstd::prelude::*;

verus! {

/// With an explicit mapping, only profiles that it names are restored.
pub proof fn law_only_mapped_profiles_are_restored(
    session: SessionView,
    settings: ConfigView,
    i: int,
)
    requires
        targets::profile_targets(session, settings) is Some,
        0 <= i < targets::profile_targets(session, settings)->0.len(),
    ensures
        !targets::is_left_out(
            settings,
            targets::profile_targets(session, settings)->0[i].directory,
        ),
{
    match targets::brave_mapping(settings) {
        Some(mapping) => {
            let all = targets::profile_inventory(session);
            let keep = |p: BraveProfileView|
                lists::value_at(mapping, p.directory) is Some;
            assert(targets::profile_targets(session, settings)->0 == all.filter(keep));
            all.lemma_filter_pred(keep, i);
        },
        None => {},
    }
}

/// Every profile that is restored gets one window, on its configured
/// workspace, opened with its directory.
pub proof fn law_profiles_get_one_window_each(
    profiles: Seq<BraveProfileView>,
    clients: Seq<SessionClientView>,
    settings: ConfigView,
)
    requires
        forall|i: int|
            0 <= i < profiles.len() ==> !targets::is_left_out(
                settings,
                (#[trigger] profiles[i]).directory,
            ),
    ensures
        ({
            let windows = targets::profile_plan(profiles, clients, settings).0;
            &&& windows.len() == profiles.len()
            &&& forall|i: int|
                0 <= i < profiles.len() ==> {
                    let client = (#[trigger] windows[i]).client;
                    &&& client.profile_directory == Some(profiles[i].directory)
                    &&& client.workspace == targets::profile_workspace(
                        settings,
                        profiles[i].directory,
                    )
                    &&& client.launch.args == seq![
                        "--profile-directory="@ + profiles[i].directory,
                    ]
                }
        }),
    decreases profiles.len(),
{
    if profiles.len() > 0 {
        let fewer = profiles.drop_last();
        assert forall|i: int| 0 <= i < fewer.len() implies !targets::is_left_out(
            settings,
            (#[trigger] fewer[i]).directory,
        ) by {
            assert(fewer[i] == profiles[i]);
        }
        law_profiles_get_one_window_each(fewer, clients, settings);
        let before = targets::profile_plan(fewer, clients, settings).0;
        let windows = targets::profile_plan(profiles, clients, settings).0;
        let last = profiles[profiles.len() - 1];
        assert(!targets::is_left_out(settings, last.directory));
        assert(windows.drop_last() =~= before);
        assert forall|i: int| 0 <= i < profiles.len() implies {
            let client = (#[trigger] windows[i]).client;
            &&& client.profile_directory == Some(profiles[i].directory)
            &&& client.workspace == targets::profile_workspace(settings, profiles[i].directory)
            &&& client.launch.args == seq!["--profile-directory="@ + profiles[i].directory]
        } by {
            if i < fewer.len() {
                assert(windows[i] == before[i]);
                assert(fewer[i] == profiles[i]);
            }
        }
    }
}

} // verus!
