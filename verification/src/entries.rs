//! Where the desktop entries of a system stand.

use crate::lists;
use crate::paths;
use crate::text;
use vstd::prelude::*;

verus! {

/// A name below a directory.
pub open spec fn below(directory: Seq<char>, name: Seq<char>) -> Seq<char> {
    if directory.len() > 0 && directory.last() != '/' {
        directory + "/"@ + name
    } else {
        directory + name
    }
}

fn join_below(directory: &str, name: &str) -> (r: String)
    ensures
        r@ == below(directory@, name@),
{
    let chars = text::chars_of(directory);
    if chars.len() > 0 && chars[chars.len() - 1] != '/' {
        directory.to_owned().concat("/").concat(name)
    } else {
        directory.to_owned().concat(name)
    }
}

/// The user's own data directory, if there is one.
pub open spec fn own_root(data_home: Option<Seq<char>>, home: Option<Seq<char>>) -> Seq<Seq<char>> {
    match (data_home, home) {
        (Some(directory), _) => if directory.len() > 0 {
            seq![directory]
        } else {
            seq![]
        },
        (None, Some(directory)) => if directory.len() > 0 {
            seq![below(directory, ".local/share"@)]
        } else {
            seq![]
        },
        (None, None) => seq![],
    }
}

/// The data directories of all users.
pub open spec fn shared_roots(data_dirs: Option<Seq<char>>) -> Seq<Seq<char>> {
    match data_dirs {
        Some(list) => text::pieces(list, ':').filter(|directory: Seq<char>| directory.len() > 0),
        None => seq!["/usr/local/share"@, "/usr/share"@],
    }
}

/// Paths without those that were named before.
pub open spec fn unique_paths(all: Seq<Seq<char>>) -> Seq<Seq<char>>
    decreases all.len(),
{
    if all.len() == 0 {
        all
    } else {
        let before = unique_paths(all.drop_last());
        if is_named(before, all.last()) {
            before
        } else {
            before.push(all.last())
        }
    }
}

/// Some path is the same as another.
pub open spec fn is_named(all: Seq<Seq<char>>, path: Seq<char>) -> bool {
    exists|i: int| 0 <= i < all.len() && paths::same_path(#[trigger] all[i], path)
}

/// The directories of desktop entries, told by the environment.  Omarchy keeps
/// its own where the environment may not mention them.
pub open spec fn entry_directories(
    data_home: Option<Seq<char>>,
    home: Option<Seq<char>>,
    data_dirs: Option<Seq<char>>,
) -> Seq<Seq<char>> {
    unique_paths(
        (own_root(data_home, home) + shared_roots(data_dirs)).push(
            "/usr/share/omarchy"@,
        ).map_values(|root: Seq<char>| below(root, "applications"@)),
    )
}

/// No directory is named twice.
pub proof fn law_directories_are_named_once(all: Seq<Seq<char>>, i: int, j: int)
    requires
        0 <= i < j < unique_paths(all).len(),
    ensures
        !paths::same_path(unique_paths(all)[i], unique_paths(all)[j]),
    decreases all.len(),
{
    let before = unique_paths(all.drop_last());
    if j < before.len() {
        law_directories_are_named_once(all.drop_last(), i, j);
    } else {
        assert(!is_named(before, all.last()));
        assert(unique_paths(all)[i] == before[i]);
    }
}

fn find_shared_roots(data_dirs: &Option<String>) -> (r: Vec<String>)
    ensures
        r.deep_view() == shared_roots(data_dirs.deep_view()),
{
    let mut out: Vec<String> = Vec::new();
    let list = match data_dirs {
        Some(list) => list,
        None => {
            out.push("/usr/local/share".to_owned());
            out.push("/usr/share".to_owned());
            assert(out.deep_view() =~= shared_roots(None));
            return out;
        },
    };
    let pieces = text::split(list.as_str(), ':');
    let ghost all = pieces.deep_view();
    let ghost keep = |directory: Seq<char>| directory.len() > 0;
    let mut i: usize = 0;
    proof {
        reveal(Seq::filter);
        assert(out.deep_view() =~= all.take(0).filter(keep));
    }
    while i < pieces.len()
        invariant
            i <= pieces.len(),
            all == pieces.deep_view(),
            keep == (|directory: Seq<char>| directory.len() > 0),
            out.deep_view() == all.take(i as int).filter(keep),
        decreases pieces.len() - i,
    {
        let ghost before = out.deep_view();
        proof {
            lists::lemma_filter_step(all, keep, i as int);
            assert(all[i as int] == pieces[i as int]@);
        }
        if !pieces[i].as_str().is_empty() {
            out.push(pieces[i].clone());
            assert(out.deep_view() =~= before.push(pieces[i as int]@));
        }
        i += 1;
    }
    assert(all.take(i as int) =~= all);
    out
}

fn names_path(all: &Vec<String>, path: &str) -> (r: bool)
    ensures
        r == is_named(all.deep_view(), path@),
{
    let ghost seen = all.deep_view();
    let mut i: usize = 0;
    while i < all.len()
        invariant
            i <= all.len(),
            seen == all.deep_view(),
            forall|k: int| 0 <= k < i ==> !paths::same_path(#[trigger] seen[k], path@),
        decreases all.len() - i,
    {
        assert(seen[i as int] == all[i as int]@);
        if paths::is_same_path(all[i].as_str(), path) {
            return true;
        }
        i += 1;
    }
    assert(seen.len() == all.len());
    false
}

/// The directories of desktop entries, told by `XDG_DATA_HOME`, `HOME` and
/// `XDG_DATA_DIRS`.
pub fn application_directories(
    data_home: &Option<String>,
    home: &Option<String>,
    data_dirs: &Option<String>,
) -> (r: Vec<String>)
    ensures
        r.deep_view() == entry_directories(
            data_home.deep_view(),
            home.deep_view(),
            data_dirs.deep_view(),
        ),
{
    let mut roots: Vec<String> = Vec::new();
    match data_home {
        Some(directory) => {
            if !directory.as_str().is_empty() {
                roots.push(directory.clone());
            }
        },
        None => {
            if let Some(directory) = home {
                if !directory.as_str().is_empty() {
                    roots.push(join_below(directory.as_str(), ".local/share"));
                }
            }
        },
    }
    assert(roots.deep_view() =~= own_root(data_home.deep_view(), home.deep_view()));
    let ghost own = roots.deep_view();
    let mut shared = find_shared_roots(data_dirs);
    let ghost others = shared.deep_view();
    roots.append(&mut shared);
    assert(roots.deep_view() =~= own + others);
    roots.push("/usr/share/omarchy".to_owned());
    let ghost all = (own + others).push("/usr/share/omarchy"@);
    assert(roots.deep_view() =~= all);
    let ghost wanted = all.map_values(|root: Seq<char>| below(root, "applications"@));
    let mut out: Vec<String> = Vec::new();
    let mut i: usize = 0;
    assert(wanted.take(0) =~= Seq::<Seq<char>>::empty());
    assert(out.deep_view() =~= Seq::<Seq<char>>::empty());
    while i < roots.len()
        invariant
            i <= roots.len(),
            all == roots.deep_view(),
            wanted == all.map_values(|root: Seq<char>| below(root, "applications"@)),
            out.deep_view() == unique_paths(wanted.take(i as int)),
        decreases roots.len() - i,
    {
        let path = join_below(roots[i].as_str(), "applications");
        assert(all[i as int] == roots[i as int]@);
        assert(wanted[i as int] == path@);
        assert(wanted.take(i + 1).drop_last() =~= wanted.take(i as int));
        assert(wanted.take(i + 1).last() == path@);
        let ghost before = out.deep_view();
        if !names_path(&out, path.as_str()) {
            out.push(path);
            assert(out.deep_view() =~= before.push(path@));
        }
        i += 1;
    }
    assert(wanted.take(i as int) =~= wanted);
    out
}

} // verus!
