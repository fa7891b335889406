//! Character select portraits: where they may stand, and which of them are decoded when.

use vstd::prelude::*;
use vstd::string::*;

use crate::paths::{join_path, joined};
use crate::text::{
    concat, dec, dec_text, digits_u8, ends_with, has_prefix, lemma_split_nonempty,
    lemma_two_digits_reads_back, same, split, split_text, starts_with, texts, two_digit_text,
    two_digits,
};

verus! {

/// How many portraits are decoded in one frame.
pub const DECODE_BUDGET_PER_FRAME: usize = 4;

/// The longest edge of a cached portrait.
pub const PORTRAIT_MAX_EDGE: u32 = 160;

/// The portrait sets in the order they are preferred: the grid's own, the large one, and the small
/// one.
pub open spec fn portrait_sets() -> Seq<Seq<char>> {
    seq!["chara_1"@, "chara_2"@, "chara_0"@]
}

/// The game path of one image.
pub open spec fn image_file(dir: Seq<char>, set: Seq<char>, name_id: Seq<char>, slot: u8) -> Seq<
    char,
> {
    dir + "/"@ + set + "/"@ + set + "_"@ + name_id + "_"@ + two_digits(slot as nat) + ".bntx"@
}

/// The game path of one image.
pub fn image_file_text(dir: &str, set: &str, name_id: &str, slot: u8) -> (r: String)
    ensures
        r@ == image_file(dir@, set@, name_id@, slot),
{
    let mut r = concat(dir, "/");
    r.append(set);
    r.append("/");
    r.append(set);
    r.append("_");
    r.append(name_id);
    r.append("_");
    let digits = two_digit_text(slot as u64);
    r.append(digits.as_str());
    r.append(".bntx");
    r
}

/// The texts of a list that are not a given one.
pub open spec fn others(list: Seq<Seq<char>>, one: Seq<char>) -> Seq<Seq<char>>
    decreases list.len(),
{
    if list.len() == 0 {
        Seq::empty()
    } else if list.last() == one {
        others(list.drop_last(), one)
    } else {
        others(list.drop_last(), one).push(list.last())
    }
}

/// The sets to look through for a kind: its own, then the others.
pub open spec fn sets_for(kind: Seq<char>) -> Seq<Seq<char>> {
    seq![kind] + others(portrait_sets(), kind)
}

/// The files of some sets, in the order of the sets: for each the one of the game, then the one of
/// its updates.
pub open spec fn files_of(sets: Seq<Seq<char>>, name_id: Seq<char>, slot: u8) -> Seq<Seq<char>>
    decreases sets.len(),
{
    if sets.len() == 0 {
        Seq::empty()
    } else {
        files_of(sets.drop_last(), name_id, slot).push(
            image_file("ui/replace/chara"@, sets.last(), name_id, slot),
        ).push(image_file("ui/replace_patch/chara"@, sets.last(), name_id, slot))
    }
}

/// Every game path that an image may stand at, the most preferred first. A portrait falls back to
/// the other sets only behind all its own files; a stock icon is never replaced by a portrait.
pub open spec fn candidates(kind: Seq<char>, name_id: Seq<char>, slot: u8) -> Seq<Seq<char>> {
    if starts_with(kind, "stock"@) {
        seq![
            image_file("ui/replace/stock"@, kind, name_id, slot),
            image_file("ui/replace_patch/stock"@, kind, name_id, slot),
        ]
    } else {
        files_of(sets_for(kind), name_id, slot)
    }
}

fn sets_text(kind: &str) -> (r: Vec<String>)
    ensures
        texts(r@) == sets_for(kind@),
{
    let mut r: Vec<String> = Vec::new();
    r.push(kind.to_owned());
    let ghost first = portrait_sets().take(0);
    let ghost a = portrait_sets().take(1);
    let ghost b = portrait_sets().take(2);
    assert(first =~= Seq::empty());
    assert(a.drop_last() =~= first);
    assert(b.drop_last() =~= a);
    assert(portrait_sets().drop_last() =~= b);
    assert(texts(r@) =~= seq![kind@] + others(first, kind@));
    if !same("chara_1", kind) {
        r.push("chara_1".to_owned());
    }
    assert(texts(r@) =~= seq![kind@] + others(a, kind@));
    if !same("chara_2", kind) {
        r.push("chara_2".to_owned());
    }
    assert(texts(r@) =~= seq![kind@] + others(b, kind@));
    if !same("chara_0", kind) {
        r.push("chara_0".to_owned());
    }
    assert(texts(r@) =~= seq![kind@] + others(portrait_sets(), kind@));
    r
}

fn list_files(sets: &Vec<String>, name_id: &str, slot: u8) -> (r: Vec<String>)
    ensures
        texts(r@) == files_of(texts(sets@), name_id@, slot),
{
    let mut r: Vec<String> = Vec::new();
    let ghost all = texts(sets@);
    let mut i: usize = 0;
    assert(all.take(0) =~= Seq::empty());
    assert(texts(r@) =~= Seq::empty());
    while i < sets.len()
        invariant
            i <= sets.len(),
            all == texts(sets@),
            texts(r@) == files_of(all.take(i as int), name_id@, slot),
        decreases sets.len() - i,
    {
        let ghost was = texts(r@);
        let own = image_file_text("ui/replace/chara", sets[i].as_str(), name_id, slot);
        let patch = image_file_text("ui/replace_patch/chara", sets[i].as_str(), name_id, slot);
        let ghost both = was.push(own@).push(patch@);
        r.push(own);
        r.push(patch);
        assert(texts(r@) =~= both);
        assert(all.take(i + 1).drop_last() =~= all.take(i as int));
        assert(all.take(i + 1).last() == sets@[i as int]@);
        i = i + 1;
    }
    assert(all.take(all.len() as int) =~= all);
    r
}

/// Every game path that an image may stand at, the most preferred first.
pub fn image_candidates(kind: &str, name_id: &str, slot: u8) -> (r: Vec<String>)
    ensures
        texts(r@) == candidates(kind@, name_id@, slot),
{
    if has_prefix(kind, "stock") {
        let mut r: Vec<String> = Vec::new();
        r.push(image_file_text("ui/replace/stock", kind, name_id, slot));
        r.push(image_file_text("ui/replace_patch/stock", kind, name_id, slot));
        assert(texts(r@) =~= candidates(kind@, name_id@, slot));
        return r;
    }
    let sets = sets_text(kind);
    list_files(&sets, name_id, slot)
}

/// Whether a candidate and a root are the first at which there is a file: an earlier candidate
/// comes before a later one, and of one candidate an earlier root before a later.
pub open spec fn is_first_file(is_file: Seq<Vec<bool>>, at: int, root: int) -> bool {
    &&& 0 <= at < is_file.len()
    &&& 0 <= root < is_file[at]@.len()
    &&& is_file[at]@[root]
    &&& forall|r: int| 0 <= r < root ==> !(#[trigger] is_file[at]@[r])
    &&& forall|c: int, r: int|
        0 <= c < at && 0 <= r < is_file[c]@.len() ==> !(#[trigger] is_file[c]@[r])
}

/// Where an image stands under the roots, in load order; `is_file` says of each candidate under
/// which roots there is a file.
pub fn find_image(
    roots: &Vec<String>,
    kind: &str,
    name_id: &str,
    slot: u8,
    is_file: &Vec<Vec<bool>>,
) -> (r: Option<String>)
    requires
        is_file@.len() == candidates(kind@, name_id@, slot).len(),
        forall|c: int| 0 <= c < is_file@.len() ==> (#[trigger] is_file@[c])@.len() == roots@.len(),
    ensures
        match r {
            Some(path) => exists|c: int, k: int| #[trigger]
                is_first_file(is_file@, c, k) && path@ == joined(
                    roots@[k]@,
                    candidates(kind@, name_id@, slot)[c],
                ),
            None => forall|c: int, k: int|
                0 <= c < is_file@.len() && 0 <= k < roots@.len() ==> !(#[trigger] is_file@[c]@[k]),
        },
{
    let all = image_candidates(kind, name_id, slot);
    assert(texts(all@).len() == all@.len());
    let mut c: usize = 0;
    while c < all.len()
        invariant
            c <= all.len(),
            texts(all@) == candidates(kind@, name_id@, slot),
            is_file@.len() == all@.len(),
            forall|c: int|
                0 <= c < is_file@.len() ==> (#[trigger] is_file@[c])@.len() == roots@.len(),
            forall|j: int, k: int|
                0 <= j < c && 0 <= k < roots@.len() ==> !(#[trigger] is_file@[j]@[k]),
        decreases all.len() - c,
    {
        let flags = &is_file[c];
        let mut k: usize = 0;
        while k < roots.len()
            invariant
                c < all.len(),
                k <= roots.len(),
                *flags == is_file@[c as int],
                texts(all@) == candidates(kind@, name_id@, slot),
                is_file@.len() == all@.len(),
                forall|c: int|
                    0 <= c < is_file@.len() ==> (#[trigger] is_file@[c])@.len() == roots@.len(),
                forall|j: int, k: int|
                    0 <= j < c && 0 <= k < roots@.len() ==> !(#[trigger] is_file@[j]@[k]),
                forall|j: int| 0 <= j < k ==> !(#[trigger] is_file@[c as int]@[j]),
            decreases roots.len() - k,
        {
            if flags[k] {
                assert(is_first_file(is_file@, c as int, k as int));
                assert(texts(all@)[c as int] == all@[c as int]@);
                return Some(join_path(roots[k].as_str(), all[c].as_str()));
            }
            k = k + 1;
        }
        c = c + 1;
    }
    None
}

/// Where a character's portrait stands: the grid's own first.
pub fn find_portrait(
    roots: &Vec<String>,
    name_id: &str,
    slot: u8,
    is_file: &Vec<Vec<bool>>,
) -> (r: Option<String>)
    requires
        is_file@.len() == candidates("chara_1"@, name_id@, slot).len(),
        forall|c: int| 0 <= c < is_file@.len() ==> (#[trigger] is_file@[c])@.len() == roots@.len(),
    ensures
        match r {
            Some(path) => exists|c: int, k: int| #[trigger]
                is_first_file(is_file@, c, k) && path@ == joined(
                    roots@[k]@,
                    candidates("chara_1"@, name_id@, slot)[c],
                ),
            None => forall|c: int, k: int|
                0 <= c < is_file@.len() && 0 <= k < roots@.len() ==> !(#[trigger] is_file@[c]@[k]),
        },
{
    find_image(roots, "chara_1", name_id, slot, is_file)
}

proof fn lemma_files_in_order(sets: Seq<Seq<char>>, name_id: Seq<char>, slot: u8)
    ensures
        files_of(sets, name_id, slot).len() == 2 * sets.len(),
        forall|i: int|
            0 <= i < sets.len() ==> files_of(sets, name_id, slot)[2 * i] == image_file(
                "ui/replace/chara"@,
                #[trigger] sets[i],
                name_id,
                slot,
            ) && files_of(sets, name_id, slot)[2 * i + 1] == image_file(
                "ui/replace_patch/chara"@,
                sets[i],
                name_id,
                slot,
            ),
    decreases sets.len(),
{
    if sets.len() > 0 {
        let front = sets.drop_last();
        lemma_files_in_order(front, name_id, slot);
        let before = files_of(front, name_id, slot);
        let all = files_of(sets, name_id, slot);
        assert forall|i: int| 0 <= i < sets.len() implies all[2 * i] == image_file(
            "ui/replace/chara"@,
            #[trigger] sets[i],
            name_id,
            slot,
        ) && all[2 * i + 1] == image_file("ui/replace_patch/chara"@, sets[i], name_id, slot) by {
            if i < front.len() {
                assert(before[2 * i] == image_file("ui/replace/chara"@, front[i], name_id, slot));
                assert(all[2 * i] == before[2 * i]);
                assert(all[2 * i + 1] == before[2 * i + 1]);
            }
        }
    }
}

/// Every kind looks for its own files first, in the game and then in its updates.
pub proof fn law_a_kind_prefers_its_own_files(kind: Seq<char>, name_id: Seq<char>, slot: u8)
    ensures
        ({
            let all = candidates(kind, name_id, slot);
            let stock = starts_with(kind, "stock"@);
            &&& all.len() >= 2
            &&& all[0] == image_file(
                if stock {
                    "ui/replace/stock"@
                } else {
                    "ui/replace/chara"@
                },
                kind,
                name_id,
                slot,
            )
            &&& all[1] == image_file(
                if stock {
                    "ui/replace_patch/stock"@
                } else {
                    "ui/replace_patch/chara"@
                },
                kind,
                name_id,
                slot,
            )
        }),
{
    if !starts_with(kind, "stock"@) {
        let sets = sets_for(kind);
        lemma_files_in_order(sets, name_id, slot);
        assert(sets[0] == kind);
    }
}

/// A stock icon is only ever looked for as itself.
pub proof fn law_a_stock_icon_is_never_a_portrait(
    kind: Seq<char>,
    name_id: Seq<char>,
    slot: u8,
    i: int,
)
    requires
        starts_with(kind, "stock"@),
        0 <= i < candidates(kind, name_id, slot).len(),
    ensures
        exists|dir: Seq<char>| #[trigger]
            image_file(dir, kind, name_id, slot) == candidates(kind, name_id, slot)[i],
{
    if i == 0 {
        assert(image_file("ui/replace/stock"@, kind, name_id, slot) == candidates(
            kind,
            name_id,
            slot,
        )[i]);
    } else {
        assert(image_file("ui/replace_patch/stock"@, kind, name_id, slot) == candidates(
            kind,
            name_id,
            slot,
        )[i]);
    }
}

/// What one cached portrait is known by.
#[derive(Debug, Clone, PartialEq, Eq)]
pub struct PortraitKey {
    /// The character, the kind, and the picked image where there is one.
    pub text: String,
    pub slot: u8,
    pub gamma_render: bool,
}

impl View for PortraitKey {
    type V = (Seq<char>, u8, bool);

    open spec fn view(&self) -> (Seq<char>, u8, bool) {
        (self.text@, self.slot, self.gamma_render)
    }
}

/// What is known of a portrait.
#[derive(Debug, Clone, PartialEq, Eq)]
pub enum PortraitSlot {
    /// Decoded; the number of its texture.
    Ready(u64),
    /// Not found, or not decoded, and why. It is kept so that it is not looked for in every frame.
    Missing(String),
}

/// The portraits decoded so far.
#[derive(Debug)]
pub struct PortraitCache {
    pub entries: Vec<(PortraitKey, PortraitSlot)>,
    /// How many were decoded in this frame.
    pub spent: usize,
}

/// What to do for a portrait.
#[derive(Debug, PartialEq, Eq)]
pub enum PortraitRequest {
    /// It is cached, at this place.
    Cached(usize),
    /// It has to wait for another frame.
    Queued,
    /// It is to be decoded now, and stored under this key.
    Decode(PortraitKey),
}

/// The text a portrait is known by.
pub open spec fn key_text(
    kind: Seq<char>,
    name_id: Seq<char>,
    png_override: Option<Seq<char>>,
) -> Seq<char> {
    match png_override {
        Some(path) => name_id + "|"@ + kind + "|"@ + path,
        None => name_id + "|"@ + kind,
    }
}

/// Why a portrait is missing that no root provides.
pub const NO_PORTRAIT: &'static str = "no portrait in any root";

/// The name of a portrait's texture.
pub open spec fn texture_name(name_id: Seq<char>, slot: u8, gamma_render: bool, picked: bool) -> Seq<
    char,
> {
    "roster_portrait_"@ + name_id + "_"@ + dec(slot as nat) + if picked {
        "_ov"@
    } else if gamma_render {
        "_true"@
    } else {
        "_false"@
    }
}

/// The name of a portrait's texture. A picked image has one name, corrected or not.
pub fn texture_label(name_id: &str, slot: u8, gamma_render: bool, picked: bool) -> (r: String)
    ensures
        r@ == texture_name(name_id@, slot, gamma_render, picked),
{
    let mut r = concat("roster_portrait_", name_id);
    r.append("_");
    let number = dec_text(slot as u64);
    r.append(number.as_str());
    if picked {
        r.append("_ov");
    } else if gamma_render {
        r.append("_true");
    } else {
        r.append("_false");
    }
    r
}

/// The keys of a cache.
pub open spec fn cache_keys(entries: Seq<(PortraitKey, PortraitSlot)>) -> Seq<
    (Seq<char>, u8, bool),
> {
    entries.map_values(|e: (PortraitKey, PortraitSlot)| e.0@)
}

/// The entries of a cache that are not of a character and a slot.
pub open spec fn not_of(
    entries: Seq<(PortraitKey, PortraitSlot)>,
    name_id: Seq<char>,
    slot: u8,
) -> Seq<(PortraitKey, PortraitSlot)>
    decreases entries.len(),
{
    if entries.len() == 0 {
        Seq::empty()
    } else {
        let front = not_of(entries.drop_last(), name_id, slot);
        if is_of(entries.last().0@, name_id, slot) {
            front
        } else {
            front.push(entries.last())
        }
    }
}

/// Whether a key is of a character and a slot.
pub open spec fn is_of(key: (Seq<char>, u8, bool), name_id: Seq<char>, slot: u8) -> bool {
    split(key.0, '|')[0] == name_id && key.1 == slot
}

impl PortraitCache {
    /// Whether no key occurs twice and no more was decoded than may be.
    pub open spec fn wf(&self) -> bool {
        cache_keys(self.entries@).no_duplicates() && self.spent <= DECODE_BUDGET_PER_FRAME
    }

    /// What a portrait that is asked for is answered with, and how much was decoded then: a cached
    /// one where it is; else it is decoded as long as the frame may decode more.
    pub open spec fn answers(
        &self,
        key: (Seq<char>, u8, bool),
        spent: usize,
        r: PortraitRequest,
    ) -> bool {
        match r {
            PortraitRequest::Cached(at) => {
                &&& at < self.entries@.len()
                &&& self.entries@[at as int].0@ == key
                &&& spent == self.spent
            },
            PortraitRequest::Queued => {
                &&& !self.has(key)
                &&& self.spent == DECODE_BUDGET_PER_FRAME
                &&& spent == self.spent
            },
            PortraitRequest::Decode(k) => {
                &&& !self.has(key)
                &&& k@ == key
                &&& self.spent < DECODE_BUDGET_PER_FRAME
                &&& spent == self.spent + 1
            },
        }
    }

    /// Whether a portrait is cached.
    pub open spec fn has(&self, key: (Seq<char>, u8, bool)) -> bool {
        cache_keys(self.entries@).contains(key)
    }

    /// An empty cache.
    pub fn new() -> (r: PortraitCache)
        ensures
            r.wf(),
            r.entries@.len() == 0,
            r.spent == 0,
    {
        PortraitCache { entries: Vec::new(), spent: 0 }
    }

    /// Arms the budget of a frame. To be called once per frame.
    pub fn begin_frame(&mut self)
        requires
            old(self).wf(),
        ensures
            final(self).wf(),
            final(self).entries == old(self).entries,
            final(self).spent == 0,
    {
        self.spent = 0;
    }

    /// Drops everything: a mod that was enabled may now provide a portrait.
    pub fn clear(&mut self)
        requires
            old(self).wf(),
        ensures
            final(self).wf(),
            final(self).entries@.len() == 0,
            final(self).spent == old(self).spent,
    {
        self.entries = Vec::new();
    }

    fn place(&self, key: &PortraitKey) -> (r: Option<usize>)
        ensures
            match r {
                Some(at) => at < self.entries@.len() && self.entries@[at as int].0@ == key@
                    && self.has(key@),
                None => !self.has(key@),
            },
    {
        let mut i: usize = 0;
        while i < self.entries.len()
            invariant
                i <= self.entries.len(),
                forall|j: int| 0 <= j < i ==> (#[trigger] self.entries@[j]).0@ != key@,
            decreases self.entries.len() - i,
        {
            let other = &self.entries[i].0;
            if same(other.text.as_str(), key.text.as_str()) && other.slot == key.slot
                && other.gamma_render == key.gamma_render {
                assert(cache_keys(self.entries@)[i as int] == key@);
                return Some(i);
            }
            i = i + 1;
        }
        assert forall|j: int| 0 <= j < self.entries@.len() implies cache_keys(self.entries@)[j]
            != key@ by {
            assert(self.entries@[j].0@ != key@);
        }
        None
    }

    /// What to do for an image of a kind. A picked image wins over the game's. What is not cached
    /// is decoded while there is budget, and waits for another frame else.
    pub fn get_image_with_gamma(
        &mut self,
        kind: &str,
        name_id: &str,
        slot: u8,
        gamma_render: bool,
        png_override: Option<&str>,
    ) -> (r: PortraitRequest)
        requires
            old(self).wf(),
        ensures
            final(self).wf(),
            final(self).entries == old(self).entries,
            ({
                let path = match png_override {
                    Some(path) => Some(path@),
                    None => None,
                };
                let key = (key_text(kind@, name_id@, path), slot, gamma_render);
                old(self).answers(key, final(self).spent, r)
            }),
    {
        let mut text = concat(name_id, "|");
        text.append(kind);
        if let Some(path) = png_override {
            text.append("|");
            text.append(path);
        }
        let key = PortraitKey { text, slot, gamma_render };
        match self.place(&key) {
            Some(at) => PortraitRequest::Cached(at),
            None => {
                if self.spent >= DECODE_BUDGET_PER_FRAME {
                    return PortraitRequest::Queued;
                }
                self.spent = self.spent + 1;
                PortraitRequest::Decode(key)
            },
        }
    }

    /// What to do for a character's grid portrait.
    pub fn get_with_gamma(
        &mut self,
        name_id: &str,
        slot: u8,
        gamma_render: bool,
        png_override: Option<&str>,
    ) -> (r: PortraitRequest)
        requires
            old(self).wf(),
        ensures
            final(self).wf(),
            final(self).entries == old(self).entries,
            ({
                let path = match png_override {
                    Some(path) => Some(path@),
                    None => None,
                };
                let key = (key_text("chara_1"@, name_id@, path), slot, gamma_render);
                old(self).answers(key, final(self).spent, r)
            }),
    {
        self.get_image_with_gamma("chara_1", name_id, slot, gamma_render, png_override)
    }

    /// Keeps what came of decoding a portrait, so that it is never decoded again.
    pub fn store(&mut self, key: PortraitKey, slot: PortraitSlot)
        requires
            old(self).wf(),
            !old(self).has(key@),
        ensures
            final(self).wf(),
            final(self).entries@ == old(self).entries@.push((key, slot)),
            final(self).has(key@),
            final(self).spent == old(self).spent,
    {
        let ghost was = self.entries@;
        self.entries.push((key, slot));
        proof {
            assert(cache_keys(self.entries@) =~= cache_keys(was).push(key@));
            assert(cache_keys(self.entries@)[was.len() as int] == key@);
        }
    }

    /// Drops what is cached of one character and slot.
    pub fn clear_for(&mut self, name_id: &str, slot: u8)
        requires
            old(self).wf(),
        ensures
            final(self).wf(),
            final(self).entries@ == not_of(old(self).entries@, name_id@, slot),
            final(self).spent == old(self).spent,
    {
        let ghost first = self.entries@;
        let mut left: Vec<(PortraitKey, PortraitSlot)> = Vec::new();
        let ghost mut i: int = 0;
        assert(first.take(0) =~= Seq::empty());
        assert(first.skip(0) =~= first);
        while self.entries.len() > 0
            invariant
                0 <= i <= first.len(),
                self.entries@ == first.skip(i),
                left@ == not_of(first.take(i), name_id@, slot),
                self.spent == old(self).spent,
            decreases self.entries.len(),
        {
            let entry = self.entries.remove(0);
            assert(entry == first[i]);
            assert(first.skip(i).remove(0) =~= first.skip(i + 1));
            assert(first.take(i + 1).drop_last() =~= first.take(i));
            let parts = split_text(entry.0.text.as_str(), '|');
            proof {
                lemma_split_nonempty(entry.0.text@, '|');
                assert(texts(parts@).len() == parts@.len());
                assert(texts(parts@)[0] == parts@[0]@);
            }
            if !(same(parts[0].as_str(), name_id) && entry.0.slot == slot) {
                left.push(entry);
            }
            proof {
                i = i + 1;
            }
        }
        assert(first.take(i) =~= first) by {
            assert(first.skip(i).len() == 0);
        }
        proof {
            lemma_not_of(first, name_id@, slot);
        }
        self.entries = left;
    }
}

proof fn lemma_not_of(entries: Seq<(PortraitKey, PortraitSlot)>, name_id: Seq<char>, slot: u8)
    requires
        cache_keys(entries).no_duplicates(),
    ensures
        cache_keys(not_of(entries, name_id, slot)).no_duplicates(),
        forall|key: (Seq<char>, u8, bool)| #[trigger]
            cache_keys(not_of(entries, name_id, slot)).contains(key) == (cache_keys(
                entries,
            ).contains(key) && !is_of(key, name_id, slot)),
    decreases entries.len(),
{
    let now = not_of(entries, name_id, slot);
    if entries.len() > 0 {
        let front = entries.drop_last();
        let last = entries.last().0@;
        assert(cache_keys(front) =~= cache_keys(entries).drop_last());
        assert(cache_keys(front).no_duplicates()) by {
            assert forall|i: int, j: int|
                0 <= i < cache_keys(front).len() && 0 <= j < cache_keys(front).len() && i
                    != j implies cache_keys(front)[i] != cache_keys(front)[j] by {
                assert(cache_keys(entries)[i] != cache_keys(entries)[j]);
            }
        }
        lemma_not_of(front, name_id, slot);
        let was = not_of(front, name_id, slot);
        assert(!cache_keys(front).contains(last)) by {
            if cache_keys(front).contains(last) {
                let k = cache_keys(front).index_of(last);
                assert(cache_keys(entries)[k] != cache_keys(entries)[entries.len() - 1]);
            }
        }
        assert forall|key: (Seq<char>, u8, bool)| #[trigger]
            cache_keys(entries).contains(key) == (cache_keys(front).contains(key) || key
                == last) by {
            if cache_keys(front).contains(key) {
                let k = cache_keys(front).index_of(key);
                assert(cache_keys(entries)[k] == key);
            }
            if key == last {
                assert(cache_keys(entries)[entries.len() - 1] == key);
            }
            if cache_keys(entries).contains(key) {
                let k = cache_keys(entries).index_of(key);
                if k < front.len() {
                    assert(cache_keys(front)[k] == key);
                }
            }
        }
        assert(!cache_keys(was).contains(last));
        if !is_of(last, name_id, slot) {
            assert(cache_keys(now) =~= cache_keys(was).push(last));
            assert forall|key: (Seq<char>, u8, bool)| #[trigger]
                cache_keys(now).contains(key) == (cache_keys(was).contains(key) || key == last) by {
                if cache_keys(was).contains(key) {
                    let k = cache_keys(was).index_of(key);
                    assert(cache_keys(now)[k] == key);
                }
                if key == last {
                    assert(cache_keys(now)[was.len() as int] == key);
                }
                if cache_keys(now).contains(key) {
                    let k = cache_keys(now).index_of(key);
                    if k < was.len() {
                        assert(cache_keys(was)[k] == key);
                    }
                }
            }
        }
    }
}

proof fn lemma_split_start(s: Seq<char>, rest: Seq<char>, sep: char)
    requires
        !s.contains(sep),
    ensures
        split(s + seq![sep] + rest, sep)[0] == s,
        split(s + seq![sep] + rest, sep).len() > 1,
    decreases rest.len(),
{
    let all = s + seq![sep] + rest;
    if rest.len() == 0 {
        lemma_split_bare(s, sep);
        assert(all.drop_last() =~= s);
        assert(all.last() == sep);
    } else {
        lemma_split_start(s, rest.drop_last(), sep);
        assert(all.drop_last() =~= s + seq![sep] + rest.drop_last());
        assert(all.last() == rest.last());
    }
}

proof fn lemma_split_bare(s: Seq<char>, sep: char)
    requires
        !s.contains(sep),
    ensures
        split(s, sep) == seq![s],
    decreases s.len(),
{
    if s.len() > 0 {
        assert forall|i: int| 0 <= i < s.len() - 1 implies s.drop_last()[i] != sep by {
            assert(s.contains(s[i]));
        }
        lemma_split_bare(s.drop_last(), sep);
        assert(s.contains(s.last()));
        assert(s.drop_last().push(s.last()) =~= s);
        assert(split(s, sep) =~= seq![s]);
    } else {
        assert(s =~= Seq::empty());
    }
}

/// After a character and slot were cleared, nothing that was asked for that character and slot is
/// cached any more, whatever the kind, the correction and the picked image; and everything of
/// another slot still is. The name holds no `|`, as no name does.
pub proof fn law_clearing_forgets_a_character(
    entries: Seq<(PortraitKey, PortraitSlot)>,
    kind: Seq<char>,
    name_id: Seq<char>,
    slot: u8,
    gamma_render: bool,
    png_override: Option<Seq<char>>,
)
    requires
        cache_keys(entries).no_duplicates(),
        !name_id.contains('|'),
    ensures
        !cache_keys(not_of(entries, name_id, slot)).contains(
            (key_text(kind, name_id, png_override), slot, gamma_render),
        ),
        forall|key: (Seq<char>, u8, bool)|
            key.1 != slot ==> #[trigger] cache_keys(not_of(entries, name_id, slot)).contains(key)
                == cache_keys(entries).contains(key),
{
    reveal_strlit("|");
    lemma_not_of(entries, name_id, slot);
    let rest = match png_override {
        Some(path) => kind + "|"@ + path,
        None => kind,
    };
    lemma_split_start(name_id, rest, '|');
    assert(key_text(kind, name_id, png_override) =~= name_id + seq!['|'] + rest);
}

/// The image of a character in a set stands in the directory of that set and is named by the set,
/// the character and the slot; so the images of two slots are two files.
pub proof fn law_images_of_slots_are_files_of_their_own(
    dir: Seq<char>,
    set: Seq<char>,
    name_id: Seq<char>,
    a: u8,
    b: u8,
)
    requires
        a != b,
    ensures
        image_file(dir, set, name_id, a) != image_file(dir, set, name_id, b),
        starts_with(
            image_file(dir, set, name_id, a),
            dir + seq!['/'] + set + seq!['/'] + set + seq!['_'] + name_id + seq!['_'],
        ),
        digits_u8(
            image_file(dir, set, name_id, a).subrange(
                (dir.len() + 2 * set.len() + name_id.len() + 4) as int,
                image_file(dir, set, name_id, a).len() - 5,
            ),
        ) == Some(a),
        image_file(dir, set, name_id, a).subrange(
            image_file(dir, set, name_id, a).len() - 5,
            image_file(dir, set, name_id, a).len() as int,
        ) == seq!['.', 'b', 'n', 't', 'x'],
{
    reveal_strlit("/");
    reveal_strlit("_");
    reveal_strlit(".bntx");
    lemma_two_digits_reads_back(a as nat);
    lemma_two_digits_reads_back(b as nat);
    let head = dir + seq!['/'] + set + seq!['/'] + set + seq!['_'] + name_id + seq!['_'];
    let x = image_file(dir, set, name_id, a);
    let y = image_file(dir, set, name_id, b);
    assert("/"@ =~= seq!['/'] && "_"@ =~= seq!['_']);
    assert(x =~= head + two_digits(a as nat) + ".bntx"@);
    assert(y =~= head + two_digits(b as nat) + ".bntx"@);
    assert(x.subrange(0, head.len() as int) =~= head);
    assert(x.subrange(head.len() as int, x.len() - 5) =~= two_digits(a as nat));
    assert(y.subrange(head.len() as int, y.len() - 5) =~= two_digits(b as nat));
    assert(x.subrange(x.len() - 5, x.len() as int) =~= seq!['.', 'b', 'n', 't', 'x']);
}

/// A portrait is looked for in its own set first and then in each of the other sets once: the grid's
/// before the large one, and that before the small one.
pub proof fn law_the_other_sets_follow_in_order(kind: Seq<char>)
    ensures
        sets_for("chara_1"@) == seq!["chara_1"@, "chara_2"@, "chara_0"@],
        sets_for("chara_2"@) == seq!["chara_2"@, "chara_1"@, "chara_0"@],
        sets_for("chara_0"@) == seq!["chara_0"@, "chara_1"@, "chara_2"@],
        sets_for(kind)[0] == kind,
        forall|i: int| 1 <= i < sets_for(kind).len() ==> #[trigger] sets_for(kind)[i] != kind,
{
    reveal_strlit("chara_0");
    reveal_strlit("chara_1");
    reveal_strlit("chara_2");
    assert("chara_0"@[6] == '0' && "chara_1"@[6] == '1' && "chara_2"@[6] == '2');
    let a = "chara_1"@;
    let b = "chara_2"@;
    let c = "chara_0"@;
    lemma_others_of_three(a, b, c, a);
    lemma_others_of_three(a, b, c, b);
    lemma_others_of_three(a, b, c, c);
    assert(sets_for(a) =~= seq![a, b, c]);
    assert(sets_for(b) =~= seq![b, a, c]);
    assert(sets_for(c) =~= seq![c, a, b]);
    lemma_others(portrait_sets(), kind);
}

proof fn lemma_others_of_three(a: Seq<char>, b: Seq<char>, c: Seq<char>, one: Seq<char>)
    ensures
        others(seq![a, b, c], one) == (if a == one {
            Seq::empty()
        } else {
            seq![a]
        }) + (if b == one {
            Seq::empty()
        } else {
            seq![b]
        }) + (if c == one {
            Seq::empty()
        } else {
            seq![c]
        }),
{
    reveal_with_fuel(others, 4);
    assert(seq![a, b, c].drop_last() =~= seq![a, b]);
    assert(seq![a, b].drop_last() =~= seq![a]);
    assert(seq![a].drop_last() =~= Seq::empty());
    assert(others(seq![a, b, c], one) =~= (if a == one {
        Seq::empty()
    } else {
        seq![a]
    }) + (if b == one {
        Seq::empty()
    } else {
        seq![b]
    }) + (if c == one {
        Seq::empty()
    } else {
        seq![c]
    }));
}

proof fn lemma_others(list: Seq<Seq<char>>, one: Seq<char>)
    ensures
        forall|i: int| 0 <= i < others(list, one).len() ==> #[trigger] others(list, one)[i] != one,
    decreases list.len(),
{
    if list.len() > 0 {
        let front = others(list.drop_last(), one);
        lemma_others(list.drop_last(), one);
        assert forall|i: int| 0 <= i < others(list, one).len() implies #[trigger] others(
            list,
            one,
        )[i] != one by {
            if i < front.len() {
                assert(others(list, one)[i] == front[i]);
            }
        }
    }
}

/// Each set of a list has two files, that of the game before that of its updates, in the order of
/// the sets.
pub proof fn law_each_set_has_two_files(
    sets: Seq<Seq<char>>,
    name_id: Seq<char>,
    slot: u8,
    i: int,
)
    requires
        0 <= i < sets.len(),
    ensures
        files_of(sets, name_id, slot).len() == 2 * sets.len(),
        files_of(sets, name_id, slot)[2 * i] == image_file(
            "ui/replace/chara"@,
            sets[i],
            name_id,
            slot,
        ),
        files_of(sets, name_id, slot)[2 * i + 1] == image_file(
            "ui/replace_patch/chara"@,
            sets[i],
            name_id,
            slot,
        ),
    decreases sets.len(),
{
    let front = sets.drop_last();
    if front.len() == 0 {
        assert(files_of(front, name_id, slot).len() == 0);
    } else if i < front.len() {
        law_each_set_has_two_files(front, name_id, slot, i);
    } else {
        law_each_set_has_two_files(front, name_id, slot, 0);
    }
}

/// Clearing a slot of a character keeps, in their order, all portraits of other slots and of other
/// characters, and only those.
pub proof fn law_clearing_keeps_the_others(
    entries: Seq<(PortraitKey, PortraitSlot)>,
    more: (PortraitKey, PortraitSlot),
    name_id: Seq<char>,
    slot: u8,
)
    ensures
        more.0.slot != slot || split(more.0.text@, '|')[0] != name_id ==> not_of(
            entries.push(more),
            name_id,
            slot,
        ) == not_of(entries, name_id, slot).push(more),
        more.0.slot == slot && split(more.0.text@, '|')[0] == name_id ==> not_of(
            entries.push(more),
            name_id,
            slot,
        ) == not_of(entries, name_id, slot),
        not_of(Seq::empty(), name_id, slot).len() == 0,
{
    assert(entries.push(more).drop_last() =~= entries);
}

/// A portrait from a file of the user's own is known apart from the game's, and by that file.
pub proof fn law_a_portrait_of_its_own_is_known_apart(
    kind: Seq<char>,
    name_id: Seq<char>,
    a: Seq<char>,
    b: Seq<char>,
)
    ensures
        key_text(kind, name_id, Some(a)) != key_text(kind, name_id, None),
        a != b ==> key_text(kind, name_id, Some(a)) != key_text(kind, name_id, Some(b)),
        starts_with(key_text(kind, name_id, None), name_id.push('|')),
        ends_with(key_text(kind, name_id, None), kind),
        ends_with(key_text(kind, name_id, Some(a)), a),
{
    reveal_strlit("|");
    let bare = key_text(kind, name_id, None);
    let x = key_text(kind, name_id, Some(a));
    let y = key_text(kind, name_id, Some(b));
    assert(x.len() == bare.len() + 1 + a.len());
    assert(x.skip((bare.len() + 1) as int) =~= a);
    assert(y.skip((bare.len() + 1) as int) =~= b);
    assert(bare.subrange(0, (name_id.len() + 1) as int) =~= name_id.push('|'));
    assert(bare.subrange(bare.len() - kind.len(), bare.len() as int) =~= kind);
    assert(x.subrange(x.len() - a.len(), x.len() as int) =~= a);
}

/// A cached portrait is never decoded again, at most four are decoded in a frame, and one that is
/// neither cached nor over the budget is decoded.
pub proof fn law_a_portrait_is_decoded_once(
    cache: PortraitCache,
    key: (Seq<char>, u8, bool),
    spent: usize,
    r: PortraitRequest,
)
    requires
        cache.wf(),
        cache.answers(key, spent, r),
    ensures
        r is Cached <==> cache_keys(cache.entries@).contains(key),
        r is Decode <==> !cache_keys(cache.entries@).contains(key) && cache.spent < 4,
        spent <= 4,
        r is Decode ==> spent == cache.spent + 1,
        !(r is Decode) ==> spent == cache.spent,
        match r {
            PortraitRequest::Cached(at) => cache.entries@[at as int].0@ == key,
            PortraitRequest::Decode(own) => own@ == key,
            PortraitRequest::Queued => true,
        },
{
    match r {
        PortraitRequest::Cached(at) => {
            assert(cache_keys(cache.entries@)[at as int] == key);
        },
        _ => {},
    }
}

/// The file that is taken is there, and none that is there comes before it: no earlier candidate
/// under any root, and none of the same under an earlier root.
pub proof fn law_no_file_comes_before_the_first(
    is_file: Seq<Vec<bool>>,
    at: int,
    root: int,
    c: int,
    r: int,
)
    requires
        is_first_file(is_file, at, root),
        0 <= c < is_file.len(),
        0 <= r < is_file[c]@.len(),
        is_file[c]@[r],
    ensures
        0 <= at < is_file.len(),
        0 <= root < is_file[at]@.len(),
        is_file[at]@[root],
        at < c || (at == c && root <= r),
{
}

/// The texture of a portrait of the user's own, one that is corrected and one that is not have names
/// of their own.
pub proof fn law_textures_are_named_apart(name_id: Seq<char>, slot: u8)
    ensures
        texture_name(name_id, slot, true, false) != texture_name(name_id, slot, false, false),
        texture_name(name_id, slot, true, true) == texture_name(name_id, slot, false, true),
        texture_name(name_id, slot, true, true) != texture_name(name_id, slot, true, false),
        texture_name(name_id, slot, true, true) != texture_name(name_id, slot, false, false),
        ends_with(texture_name(name_id, slot, true, false), "_true"@),
        ends_with(texture_name(name_id, slot, false, false), "_false"@),
{
    reveal_strlit("_ov");
    reveal_strlit("_true");
    reveal_strlit("_false");
    let own = texture_name(name_id, slot, true, true);
    let yes = texture_name(name_id, slot, true, false);
    let no = texture_name(name_id, slot, false, false);
    assert(yes.len() == own.len() + 2 && no.len() == own.len() + 3);
    assert(yes.subrange(yes.len() - 5, yes.len() as int) =~= "_true"@);
    assert(no.subrange(no.len() - 6, no.len() as int) =~= "_false"@);
}

} // verus!
