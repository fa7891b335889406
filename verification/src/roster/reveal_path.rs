//! Which path to show in the file manager.

use vstd::prelude::*;
use vstd::string::*;

use crate::paths::{parent, parent_of};
use crate::text::{concat, lemma_picks_first, picks_first, texts};

verus! {

/// Whether a list is a path, then the directory it stands in, then the one that stands in, and so
/// on to the last.
pub open spec fn is_way_up(list: Seq<Seq<char>>, path: Seq<char>) -> bool {
    &&& list.len() > 0
    &&& list[0] == path
    &&& parent(list.last()) is None
    &&& forall|i: int| 0 <= i < list.len() - 1 ==> parent(#[trigger] list[i]) == Some(list[i + 1])
}

/// The parent of a path is shorter than the path.
proof fn lemma_parent_is_shorter(path: Seq<char>)
    ensures
        parent(path) matches Some(up) ==> up.len() < path.len(),
{
    lemma_trimmed_is_shorter(path);
    let bare = crate::paths::without_end_slashes(path);
    if parent(path) is Some {
        match crate::paths::last_slash(bare) {
            Some(at) => {
                lemma_last_slash(bare);
                lemma_trimmed_is_shorter(bare.take(at + 1));
                if at + 1 == bare.len() {
                    lemma_trimmed_end(path);
                    if bare.len() == 1 {
                        assert(bare =~= seq!['/']);
                    }
                }
            },
            None => {},
        }
    }
}

proof fn lemma_trimmed_is_shorter(path: Seq<char>)
    ensures
        crate::paths::without_end_slashes(path).len() <= path.len(),
    decreases path.len(),
{
    if path.len() > 1 {
        lemma_trimmed_is_shorter(path.drop_last());
    }
}

proof fn lemma_trimmed_end(path: Seq<char>)
    ensures
        crate::paths::without_end_slashes(path).len() > 1 ==> crate::paths::without_end_slashes(
            path,
        ).last() != '/',
    decreases path.len(),
{
    if path.len() > 1 {
        lemma_trimmed_end(path.drop_last());
    }
}

proof fn lemma_last_slash(path: Seq<char>)
    ensures
        crate::paths::last_slash(path) matches Some(at) ==> 0 <= at < path.len() && path[at] == '/',
    decreases path.len(),
{
    if path.len() > 0 {
        lemma_last_slash(path.drop_last());
    }
}

/// A path and the directories above it, the nearest first.
pub fn ancestors(path: &str) -> (r: Vec<String>)
    ensures
        is_way_up(texts(r@), path@),
{
    let mut r: Vec<String> = Vec::new();
    let mut current = path.to_owned();
    r.push(current.clone());
    loop
        invariant
            r@.len() > 0,
            texts(r@)[0] == path@,
            texts(r@).last() == current@,
            forall|i: int|
                0 <= i < r@.len() - 1 ==> parent(#[trigger] texts(r@)[i]) == Some(texts(r@)[i + 1]),
        ensures
            is_way_up(texts(r@), path@),
        decreases current@.len(),
    {
        let ghost was = texts(r@);
        proof {
            lemma_parent_is_shorter(current@);
        }
        match parent_of(current.as_str()) {
            Some(up) => {
                r.push(up.clone());
                assert(texts(r@) =~= was.push(up@));
                assert forall|i: int| 0 <= i < r@.len() - 1 implies parent(
                    #[trigger] texts(r@)[i],
                ) == Some(texts(r@)[i + 1]) by {
                    if i < was.len() - 1 {
                        assert(texts(r@)[i] == was[i]);
                        assert(parent(was[i]) == Some(was[i + 1]));
                    }
                }
                current = up;
            },
            None => {
                break;
            },
        }
    }
    r
}

/// The nearest path that exists: the first of a path and the directories above it; `there` says
/// which do.
pub fn nearest_existing(way_up: &Vec<String>, there: &Vec<bool>) -> (r: Option<String>)
    requires
        way_up@.len() == there@.len(),
    ensures
        picks_first(way_up@, there@, r),
{
    let mut i: usize = 0;
    while i < way_up.len()
        invariant
            i <= way_up.len(),
            way_up@.len() == there@.len(),
            forall|j: int| 0 <= j < i ==> !#[trigger] there@[j],
        decreases way_up.len() - i,
    {
        if there[i] {
            assert(there@[i as int]);
            return Some(way_up[i].clone());
        }
        i = i + 1;
    }
    None
}

/// The message for a path of which nothing exists.
pub fn nothing_exists(path: &str) -> (r: String)
    ensures
        r@ == "nothing in "@ + path@ + " exists yet"@,
{
    let mut r = concat("nothing in ", path);
    r.append(" exists yet");
    r
}

/// What is shown is the first path on the way up that is there, so the path itself where it is.
pub proof fn law_the_nearest_path_is_shown(
    way_up: &Vec<String>,
    there: &Vec<bool>,
    r: Option<String>,
    at: int,
)
    requires
        call_ensures(nearest_existing, (way_up, there), r),
        way_up@.len() == there@.len(),
        0 <= at < way_up@.len(),
        there@[at],
        forall|j: int| 0 <= j < at ==> !#[trigger] there@[j],
    ensures
        r is Some,
        r->0@ == way_up@[at]@,
{
    lemma_picks_first(way_up@, there@, r, at);
}

/// Every path on the way up stands in the one behind it.
pub proof fn law_the_way_up_goes_by_parents(path: &str, r: Vec<String>, i: int)
    requires
        call_ensures(ancestors, (path,), r),
        0 <= i,
        i + 1 < r@.len(),
    ensures
        r@[0]@ == path@,
        parent(r@[i]@) == Some(r@[i + 1]@),
        parent(r@.last()@) is None,
{
    let list = texts(r@);
    assert(list[0] == r@[0]@);
    assert(parent(list[i]) == Some(list[i + 1]));
    assert(list.last() == r@.last()@);
}

} // verus!
