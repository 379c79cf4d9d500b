//! Read and filter Chromium and Brave browser profiles.

use crate::json;
use crate::json::JsonView;
use crate::lists;
use crate::lists::Table;
use crate::session::{BraveProfile, BraveProfileView};
use crate::text;
use vstd::prelude::*;

verus! {

/// The name of a profile: the one it was given, else its directory.
pub open spec fn profile_name(directory: Seq<char>, info: JsonView) -> Seq<char> {
    match json::text_member(info, "name"@) {
        Some(name) => if name.len() > 0 {
            name
        } else {
            directory
        },
        None => directory,
    }
}

/// The profile of a member of the profile cache.
pub open spec fn profile_of(entry: (Seq<char>, JsonView)) -> BraveProfileView {
    BraveProfileView { directory: entry.0, name: profile_name(entry.0, entry.1) }
}

/// The profiles listed in the browser's state.
pub open spec fn profiles_in(state: JsonView) -> Seq<BraveProfileView> {
    match json::member(state, "profile"@) {
        Some(profile) => match json::member(profile, "info_cache"@) {
            Some(JsonView::Object(cache)) => cache.map_values(
                |entry: (Seq<char>, JsonView)| profile_of(entry),
            ),
            _ => seq![],
        },
        None => seq![],
    }
}

fn name_of(directory: &str, info: &serde_json::Value) -> (r: String)
    ensures
        r@ == profile_name(directory@, json::json_view(*info)),
{
    match json::get(info, "name") {
        Some(member) => match json::as_text(member) {
            Some(name) => if name.is_empty() {
                directory.to_owned()
            } else {
                name.to_owned()
            },
            None => directory.to_owned(),
        },
        None => directory.to_owned(),
    }
}

/// The profiles in a parsed state of the browser.
pub fn profiles_in_local_state(state: &serde_json::Value) -> (r: Vec<BraveProfile>)
    ensures
        r.deep_view() == profiles_in(json::json_view(*state)),
{
    let mut out: Vec<BraveProfile> = Vec::new();
    let empty: Vec<BraveProfile> = Vec::new();
    assert(empty.deep_view() =~= Seq::<BraveProfileView>::empty());
    let profile = match json::get(state, "profile") {
        Some(profile) => profile,
        None => {
            return empty;
        },
    };
    let cache = match json::get(profile, "info_cache") {
        Some(cache) => cache,
        None => {
            return empty;
        },
    };
    let entries = match json::members(cache) {
        Some(entries) => entries,
        None => {
            return empty;
        },
    };
    let ghost all = profiles_in(json::json_view(*state));
    let mut i: usize = 0;
    while i < entries.len()
        invariant
            i <= entries.len(),
            entries.len() == all.len(),
            all == entries@.map_values(
                |m: (String, serde_json::Value)| (m.0@, json::json_view(m.1)),
            ).map_values(|entry: (Seq<char>, JsonView)| profile_of(entry)),
            out.len() == i,
            forall|k: int| 0 <= k < i ==> (#[trigger] out[k])@ == all[k],
        decreases entries.len() - i,
    {
        let entry = &entries[i];
        let profile = BraveProfile {
            directory: entry.0.clone(),
            name: name_of(entry.0.as_str(), &entry.1),
        };
        assert(profile@ == all[i as int]);
        out.push(profile);
        i += 1;
    }
    assert(out.deep_view() =~= all);
    out
}

/// Parse profile info from Local State JSON content.
pub fn parse_profiles_from_local_state(json_str: &str) -> (r: Result<
    Vec<BraveProfile>,
    serde_json::Error,
>)
    ensures
        match json::json_of_text(json_str@) {
            Some(state) => r is Ok && r->Ok_0.deep_view() == profiles_in(state),
            None => r is Err,
        },
{
    match json::parse_text(json_str) {
        Ok(state) => Ok(profiles_in_local_state(&state)),
        Err(error) => Err(error),
    }
}

/// The profiles whose directory a table names; all of them without a table.
pub open spec fn with_mapping(
    profiles: Seq<BraveProfileView>,
    mappings: Option<Seq<(Seq<char>, i32)>>,
) -> Seq<BraveProfileView> {
    match mappings {
        Some(entries) => profiles.filter(
            |p: BraveProfileView| lists::value_at(entries, p.directory) is Some,
        ),
        None => profiles,
    }
}

/// Filter profiles to only include those with a workspace mapping.
///
/// Without a mapping the inventory is returned unchanged; callers that do not
/// have an explicit mapping should apply
/// [`filter_profiles_by_active_directories`] instead of restoring every
/// profile listed in Local State.
pub fn filter_profiles_by_config(
    profiles: Vec<BraveProfile>,
    profile_workspaces: Option<&Table<i32>>,
) -> (r: Vec<BraveProfile>)
    ensures
        r.deep_view() == with_mapping(
            profiles.deep_view(),
            match profile_workspaces {
                Some(table) => Some(table@),
                None => None,
            },
        ),
{
    let table = match profile_workspaces {
        Some(table) => table,
        None => {
            return profiles;
        },
    };
    let ghost all = profiles.deep_view();
    let ghost keep = |p: BraveProfileView| lists::value_at(table@, p.directory) is Some;
    let mut out: Vec<BraveProfile> = Vec::new();
    let mut i: usize = 0;
    proof {
        reveal(Seq::filter);
        assert(out.deep_view() =~= all.take(0).filter(keep));
    }
    while i < profiles.len()
        invariant
            i <= profiles.len(),
            all == profiles.deep_view(),
            keep == (|p: BraveProfileView| lists::value_at(table@, p.directory) is Some),
            out.deep_view() == all.take(i as int).filter(keep),
        decreases profiles.len() - i,
    {
        let profile = &profiles[i];
        let ghost before = out.deep_view();
        proof {
            lists::lemma_filter_step(all, keep, i as int);
            assert(all[i as int] == profile@);
        }
        if table.contains_key(profile.directory.as_str()) {
            out.push(profile.clone());
            assert(out.deep_view() =~= before.push(profile@));
        }
        i += 1;
    }
    assert(all.take(all.len() as int) =~= all);
    out
}

/// A directory is among some, up to case.
pub open spec fn is_active(active: Seq<Seq<char>>, directory: Seq<char>) -> bool {
    exists|i: int|
        0 <= i < active.len() && text::same_ignoring_case(#[trigger] active[i], directory)
}

/// The profiles that were seen in use.
pub open spec fn in_use(
    profiles: Seq<BraveProfileView>,
    active: Seq<Seq<char>>,
) -> Seq<BraveProfileView> {
    profiles.filter(|p: BraveProfileView| is_active(active, p.directory))
}

fn directory_is_active(active: &[String], directory: &str) -> (r: bool)
    ensures
        r == is_active(active.deep_view(), directory@),
{
    let ghost all = active.deep_view();
    let mut i: usize = 0;
    while i < active.len()
        invariant
            i <= active.len(),
            all == active.deep_view(),
            forall|k: int|
                0 <= k < i ==> !text::same_ignoring_case(#[trigger] all[k], directory@),
        decreases active.len() - i,
    {
        assert(all[i as int] == active[i as int]@);
        if text::eq_ignore_case(active[i].as_str(), directory) {
            return true;
        }
        i += 1;
    }
    false
}

/// Keep only profiles that were positively observed in the current session.
///
/// Local State contains profiles that may never have an open window, so using
/// the complete inventory as a restore target would unexpectedly launch all
/// of them when no workspace mapping was configured.
pub fn filter_profiles_by_active_directories(
    profiles: Vec<BraveProfile>,
    active_directories: &[String],
) -> (r: Vec<BraveProfile>)
    ensures
        r.deep_view() == in_use(profiles.deep_view(), active_directories.deep_view()),
{
    let ghost all = profiles.deep_view();
    let ghost active = active_directories.deep_view();
    let ghost keep = |p: BraveProfileView| is_active(active, p.directory);
    let mut out: Vec<BraveProfile> = Vec::new();
    let mut i: usize = 0;
    proof {
        reveal(Seq::filter);
        assert(out.deep_view() =~= all.take(0).filter(keep));
    }
    while i < profiles.len()
        invariant
            i <= profiles.len(),
            all == profiles.deep_view(),
            active == active_directories.deep_view(),
            keep == (|p: BraveProfileView| is_active(active, p.directory)),
            out.deep_view() == all.take(i as int).filter(keep),
        decreases profiles.len() - i,
    {
        let profile = &profiles[i];
        let ghost before = out.deep_view();
        proof {
            lists::lemma_filter_step(all, keep, i as int);
            assert(all[i as int] == profile@);
        }
        if directory_is_active(active_directories, profile.directory.as_str()) {
            out.push(profile.clone());
            assert(out.deep_view() =~= before.push(profile@));
        }
        i += 1;
    }
    assert(all.take(all.len() as int) =~= all);
    out
}

} // verus!
