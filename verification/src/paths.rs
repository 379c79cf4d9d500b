//! Unix paths as texts.

use crate::text;
use vstd::prelude::*;

verus! {

/// A piece between slashes that counts: not empty, and not a dot other than
/// one that leads a relative path.
pub open spec fn counts(piece: Seq<char>, leading: bool) -> bool {
    piece.len() > 0 && (piece != seq!['.'] || leading)
}

/// The pieces that count.
pub open spec fn counted(all: Seq<Seq<char>>, rooted: bool) -> Seq<Seq<char>>
    decreases all.len(),
{
    if all.len() == 0 {
        seq![]
    } else if counts(all.last(), all.len() == 1 && !rooted) {
        counted(all.drop_last(), rooted).push(all.last())
    } else {
        counted(all.drop_last(), rooted)
    }
}

/// A path starts at the root.
pub open spec fn is_rooted(path: Seq<char>) -> bool {
    path.len() > 0 && path[0] == '/'
}

/// The names of a path, from the front.
pub open spec fn names(path: Seq<char>) -> Seq<Seq<char>> {
    counted(text::pieces(path, '/'), is_rooted(path))
}

/// Two texts that name the same path.
pub open spec fn same_path(a: Seq<char>, b: Seq<char>) -> bool {
    is_rooted(a) == is_rooted(b) && names(a) == names(b)
}

/// The last name of a path, unless it stands for a directory relative to
/// another.
pub open spec fn base_name(path: Seq<char>) -> Option<Seq<char>> {
    let all = names(path);
    if all.len() == 0 || all.last() == seq!['.'] || all.last() == seq!['.', '.'] {
        None
    } else {
        Some(all.last())
    }
}

fn rooted(path: &str) -> (r: bool)
    ensures
        r == is_rooted(path@),
{
    let x = text::chars_of(path);
    x.len() > 0 && x[0] == '/'
}

fn is_dot(piece: &str) -> (r: bool)
    ensures
        r == (piece@ == seq!['.']),
{
    proof {
        reveal_strlit(".");
        assert("."@ =~= seq!['.']);
    }
    text::same(piece, ".")
}

fn is_double_dot(piece: &str) -> (r: bool)
    ensures
        r == (piece@ == seq!['.', '.']),
{
    proof {
        reveal_strlit("..");
        assert(".."@ =~= seq!['.', '.']);
    }
    text::same(piece, "..")
}

/// The names of a path.
pub fn path_names(path: &str) -> (r: Vec<String>)
    ensures
        r.deep_view() == names(path@),
{
    let all = text::split(path, '/');
    let root = rooted(path);
    let ghost seen = all.deep_view();
    let mut out: Vec<String> = Vec::new();
    let mut i: usize = 0;
    assert(out.deep_view() =~= Seq::<Seq<char>>::empty());
    while i < all.len()
        invariant
            i <= all.len(),
            seen == all.deep_view(),
            out.deep_view() == counted(seen.take(i as int), root),
        decreases all.len() - i,
    {
        proof {
            assert(seen.take(i + 1).drop_last() =~= seen.take(i as int));
            assert(seen.take(i + 1).last() == all[i as int]@);
        }
        let ghost out0 = out.deep_view();
        if all[i].as_str().is_empty() || (is_dot(all[i].as_str()) && !(i == 0 && !root)) {
        } else {
            out.push(all[i].clone());
            assert(out.deep_view() =~= out0.push(all[i as int]@));
        }
        i += 1;
    }
    assert(seen.take(seen.len() as int) =~= seen);
    out
}

/// Tells whether two texts name the same path.
pub fn is_same_path(a: &str, b: &str) -> (r: bool)
    ensures
        r == same_path(a@, b@),
{
    if rooted(a) != rooted(b) {
        return false;
    }
    let x = path_names(a);
    let y = path_names(b);
    if x.len() != y.len() {
        assert(x.deep_view().len() != y.deep_view().len());
        return false;
    }
    let mut i: usize = 0;
    while i < x.len()
        invariant
            x.deep_view() == names(a@),
            y.deep_view() == names(b@),
            x.len() == y.len(),
            i <= x.len(),
            forall|k: int| 0 <= k < i ==> x.deep_view()[k] == y.deep_view()[k],
        decreases x.len() - i,
    {
        if !text::same(x[i].as_str(), y[i].as_str()) {
            assert(x.deep_view()[i as int] != y.deep_view()[i as int]);
            return false;
        }
        i += 1;
    }
    assert(x.deep_view() =~= y.deep_view());
    true
}

/// The last name of a path.
pub fn file_name(path: &str) -> (r: Option<String>)
    ensures
        r.deep_view() == base_name(path@),
{
    let mut all = path_names(path);
    let ghost seen = all.deep_view();
    match all.pop() {
        None => None,
        Some(last) => {
            assert(seen.last() == last@);
            if is_dot(last.as_str()) || is_double_dot(last.as_str()) {
                None
            } else {
                Some(last)
            }
        },
    }
}

} // verus!
