//! Where the application keeps its files, and where the emulator keeps its card.

use vstd::prelude::*;
use vstd::string::*;

use crate::paths::{join_path, joined};
use crate::text::{concat, contains, has_text, lemma_picks_first, picks_first, texts};

verus! {

/// The preview of transplanted effects, beside a fighter's effect file.
pub const TRANSPLANT_PREVIEW_FILE: &'static str = "_transplant_preview.eff";

/// The name that the preview had before. Files of that name may still be there.
pub const LEGACY_TRANSPLANT_PREVIEW_FILE: &'static str = "_oneslot_preview.eff";

/// Whether a name or a path is that of a preview, under its present or its former name.
pub fn is_transplant_preview_name(name: &str) -> (r: bool)
    ensures
        r == (contains(name@, "_transplant_preview"@) || contains(name@, "_oneslot_preview"@)),
{
    has_text(name, "_transplant_preview") || has_text(name, "_oneslot_preview")
}

/// The previews that may stand in a directory.
pub fn transplant_previews(dir: &str) -> (r: Vec<String>)
    ensures
        texts(r@) == seq![
            joined(dir@, TRANSPLANT_PREVIEW_FILE@),
            joined(dir@, LEGACY_TRANSPLANT_PREVIEW_FILE@),
        ],
{
    let mut r: Vec<String> = Vec::new();
    r.push(join_path(dir, TRANSPLANT_PREVIEW_FILE));
    r.push(join_path(dir, LEGACY_TRANSPLANT_PREVIEW_FILE));
    assert(texts(r@) =~= seq![
        joined(dir@, TRANSPLANT_PREVIEW_FILE@),
        joined(dir@, LEGACY_TRANSPLANT_PREVIEW_FILE@),
    ]);
    r
}

/// Both names of the preview are known as such, wherever they stand.
pub proof fn law_previews_are_recognised(before: Seq<char>)
    ensures
        contains(before + TRANSPLANT_PREVIEW_FILE@, "_transplant_preview"@),
        contains(before + LEGACY_TRANSPLANT_PREVIEW_FILE@, "_oneslot_preview"@),
{
    reveal_strlit("_transplant_preview.eff");
    reveal_strlit("_transplant_preview");
    reveal_strlit("_oneslot_preview.eff");
    reveal_strlit("_oneslot_preview");
    let a = before + TRANSPLANT_PREVIEW_FILE@;
    let p = "_transplant_preview"@;
    assert(a.subrange(before.len() as int, before.len() as int + p.len()) =~= p);
    assert(crate::text::occurs_at(a, p, before.len() as int));
    let b = before + LEGACY_TRANSPLANT_PREVIEW_FILE@;
    let q = "_oneslot_preview"@;
    assert(b.subrange(before.len() as int, before.len() as int + q.len()) =~= q);
    assert(crate::text::occurs_at(b, q, before.len() as int));
}

/// A directory with two names below it, where there is one.
pub open spec fn below(
    dir: Option<&str>,
    first: Seq<char>,
    second: Seq<char>,
) -> Seq<Seq<char>> {
    match dir {
        Some(dir) => seq![joined(joined(dir@, first), second)],
        None => Seq::empty(),
    }
}

fn add_below(list: &mut Vec<String>, dir: Option<&str>, first: &str, second: &str)
    ensures
        texts(final(list)@) == texts(old(list)@) + below(dir, first@, second@),
{
    let ghost was = texts(list@);
    if let Some(dir) = dir {
        let outer = join_path(dir, first);
        list.push(join_path(outer.as_str(), second));
    }
    assert(texts(list@) =~= was + below(dir, first@, second@));
}

/// The places where an emulator may keep its card, the most likely first.
pub open spec fn sd_places(data: Option<&str>, config: Option<&str>) -> Seq<Seq<char>> {
    below(data, "eden"@, "sdmc"@) + below(data, "yuzu"@, "sdmc"@) + below(
        config,
        "Ryujinx"@,
        "sdcard"@,
    ) + below(data, "Ryujinx"@, "sdcard"@)
}

/// The places where an emulator may keep its card, the most likely first.
pub fn sd_root_candidates(data: Option<&str>, config: Option<&str>) -> (r: Vec<String>)
    ensures
        texts(r@) == sd_places(data, config),
{
    let mut r: Vec<String> = Vec::new();
    assert(texts(r@) =~= Seq::empty());
    add_below(&mut r, data, "eden", "sdmc");
    add_below(&mut r, data, "yuzu", "sdmc");
    add_below(&mut r, config, "Ryujinx", "sdcard");
    add_below(&mut r, data, "Ryujinx", "sdcard");
    assert(texts(r@) =~= sd_places(data, config));
    r
}

/// The card that was chosen: by the environment, where that is not empty, else by the user.
pub open spec fn chosen_card(env: Option<&str>, user: Option<&str>) -> Option<Seq<char>> {
    match env {
        Some(path) => if path@.len() > 0 {
            Some(path@)
        } else {
            match user {
                Some(path) => Some(path@),
                None => None,
            }
        },
        None => match user {
            Some(path) => Some(path@),
            None => None,
        },
    }
}

/// The card that was chosen, if one was.
pub fn explicit_sd_root(env: Option<&str>, user: Option<&str>) -> (r: Option<String>)
    ensures
        match r {
            Some(path) => chosen_card(env, user) == Some(path@),
            None => chosen_card(env, user) is None,
        },
{
    if let Some(path) = env {
        if !path.is_empty() {
            return Some(path.to_owned());
        }
    }
    match user {
        Some(path) => Some(path.to_owned()),
        None => None,
    }
}

/// The card of the emulator. A chosen one is taken when it is a directory, and nothing else is then
/// looked for. Else it is the first candidate that holds the mods directory: that it is a directory
/// is not enough.
pub fn emulator_sd_root(
    chosen: Option<String>,
    chosen_is_dir: bool,
    candidates: &Vec<String>,
    has_mods: &Vec<bool>,
) -> (r: Option<String>)
    requires
        candidates@.len() == has_mods@.len(),
    ensures
        match chosen {
            Some(path) => r == if chosen_is_dir {
                Some(path)
            } else {
                None
            },
            None => picks_first(candidates@, has_mods@, r),
        },
{
    if let Some(path) = chosen {
        if chosen_is_dir {
            return Some(path);
        }
        return None;
    }
    let mut i: usize = 0;
    while i < candidates.len()
        invariant
            i <= candidates.len(),
            candidates@.len() == has_mods@.len(),
            chosen is None,
            forall|j: int| 0 <= j < i ==> !#[trigger] has_mods@[j],
        decreases candidates.len() - i,
    {
        if has_mods[i] {
            assert(has_mods@[i as int]);
            return Some(candidates[i].clone());
        }
        i = i + 1;
    }
    None
}

/// The mods directory of a card. Where it is a directory, the card is a real one.
pub fn mods_dir(card: &str) -> (r: String)
    ensures
        r@ == joined(card@, "ultimate"@),
{
    join_path(card, "ultimate")
}

/// Where the application keeps what it caches: where the environment says, if that is not empty;
/// else in the platform's cache directory; else in the temporary directory.
pub fn app_storage_root(env: Option<&str>, cache_dir: Option<&str>, temp_dir: &str) -> (r: String)
    ensures
        r@ == if env is Some && env->0@.len() > 0 {
            env->0@
        } else if cache_dir is Some {
            joined(cache_dir->0@, "visionary"@)
        } else {
            joined(temp_dir@, "visionary"@)
        },
{
    if let Some(path) = env {
        if !path.is_empty() {
            return path.to_owned();
        }
    }
    match cache_dir {
        Some(dir) => join_path(dir, "visionary"),
        None => join_path(temp_dir, "visionary"),
    }
}

/// Where scratch directories are made.
pub fn scratch_base(storage_root: &str) -> (r: String)
    ensures
        r@ == joined(storage_root@, "scratch"@),
{
    join_path(storage_root, "scratch")
}

/// The message for a scratch directory that could not be made.
pub fn scratch_error(base: &str, error: &str) -> (r: String)
    ensures
        r@ == "failed to create scratch directory in "@ + base@ + ": "@ + error@
            + " (set VISIONARY_CACHE_DIR to another disk)"@,
{
    let mut r = concat("failed to create scratch directory in ", base);
    r.append(": ");
    r.append(error);
    r.append(" (set VISIONARY_CACHE_DIR to another disk)");
    r
}

/// A path in the environment wins over the user's, unless it is empty; the user's is taken
/// otherwise, and none is chosen where neither is given.
pub proof fn law_the_environment_chooses_first(env: Option<&str>, user: Option<&str>)
    ensures
        env is Some && env->0@.len() > 0 ==> chosen_card(env, user) == Some(env->0@),
        !(env is Some && env->0@.len() > 0) && user is Some ==> chosen_card(env, user) == Some(
            user->0@,
        ),
        !(env is Some && env->0@.len() > 0) && user is None ==> chosen_card(env, user) is None,
{
}

/// Where both directories are known, the card is sought in four places, below the data directory
/// first and for one emulator below the configuration before it is sought below the data; where
/// neither is known, nowhere.
pub proof fn law_cards_are_sought_below_the_known_directories(data: &str, config: &str)
    ensures
        sd_places(Some(data), Some(config)) == seq![
            joined(joined(data@, "eden"@), "sdmc"@),
            joined(joined(data@, "yuzu"@), "sdmc"@),
            joined(joined(config@, "Ryujinx"@), "sdcard"@),
            joined(joined(data@, "Ryujinx"@), "sdcard"@),
        ],
        sd_places(None, Some(config)) == seq![joined(joined(config@, "Ryujinx"@), "sdcard"@)],
        sd_places(Some(data), None).len() == 3,
        sd_places(None, None).len() == 0,
{
    assert(sd_places(Some(data), Some(config)) =~= seq![
        joined(joined(data@, "eden"@), "sdmc"@),
        joined(joined(data@, "yuzu"@), "sdmc"@),
        joined(joined(config@, "Ryujinx"@), "sdcard"@),
        joined(joined(data@, "Ryujinx"@), "sdcard"@),
    ]);
    assert(sd_places(None, Some(config)) =~= seq![
        joined(joined(config@, "Ryujinx"@), "sdcard"@),
    ]);
}

/// A card that was chosen is taken where it is a directory, and no other one in its stead; without a
/// choice the first place that has mods is taken.
pub proof fn law_a_chosen_card_is_never_replaced(
    chosen: Option<String>,
    is_dir: bool,
    candidates: &Vec<String>,
    has_mods: &Vec<bool>,
    r: Option<String>,
    at: int,
)
    requires
        call_ensures(emulator_sd_root, (chosen, is_dir, candidates, has_mods), r),
        candidates@.len() == has_mods@.len(),
        0 <= at < candidates@.len(),
    ensures
        chosen is Some && is_dir ==> r == chosen,
        chosen is Some && !is_dir ==> r is None,
        chosen is None && has_mods@[at] && (forall|j: int| 0 <= j < at ==> !#[trigger] has_mods@[j])
            ==> r is Some && r->0@ == candidates@[at]@,
{
    if chosen is None && has_mods@[at] && (forall|j: int|
        0 <= j < at ==> !#[trigger] has_mods@[j]) {
        lemma_picks_first(candidates@, has_mods@, r, at);
    }
}

/// What the application keeps stands where the environment says; where it says nothing, in a
/// directory of its own below the caches, or below the temporary files where there are none.
pub proof fn law_the_environment_says_where_things_are_kept(
    env: Option<&str>,
    cache: Option<&str>,
    temp: &str,
    r: String,
)
    requires
        call_ensures(app_storage_root, (env, cache, temp), r),
    ensures
        env is Some && env->0@.len() > 0 ==> r@ == env->0@,
        !(env is Some && env->0@.len() > 0) && cache is Some ==> r@ == joined(
            cache->0@,
            "visionary"@,
        ),
        !(env is Some && env->0@.len() > 0) && cache is None ==> r@ == joined(temp@, "visionary"@),
{
}

} // verus!
