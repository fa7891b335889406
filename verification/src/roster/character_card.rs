//! What the panel says of a new character: how far it is, which files it has, and what is next.

use vstd::prelude::*;
use vstd::string::*;

use crate::paths::{join_path, joined};
use crate::roster::animations::AnimationBinding;
use crate::roster::new_character::{slot_text, text_of, AuthoredEntry};
use crate::roster::scaffold::{
    effect_file, effect_path, law_a_note_for_each_missing_thing,
    law_moves_that_were_not_written_remain, moveset, not_among, word_texts, Readiness, SlotInventory,
};
use crate::text::{
    concat, dec, dec_text, join, join_texts, texts, two_digit_text, two_digits,
};

verus! {

/// What is to be done next for a character.
#[derive(Debug, Clone, Copy, PartialEq, Eq, Structural)]
pub enum NextStep {
    Files,
    Look,
    Moves,
    Ship,
    Nothing,
}

/// How far a character is.
#[derive(Debug, Clone, Copy, PartialEq, Eq, Structural)]
pub struct Progress {
    pub files_done: bool,
    /// How many of the moves worth replacing first are replaced.
    pub moves_count: usize,
    pub moves_done: bool,
    pub look_done: bool,
    pub ready: bool,
}

/// The check or the hollow dot before a stage.
pub open spec fn mark(done: bool) -> Seq<char> {
    if done {
        "✓"@
    } else {
        "○"@
    }
}

fn mark_text(done: bool) -> (r: &'static str)
    ensures
        r@ == mark(done),
{
    if done {
        "✓"
    } else {
        "○"
    }
}

impl Progress {
    /// The first stage that is not done; shipping comes when all others are.
    pub open spec fn next(self) -> NextStep {
        if !self.files_done {
            NextStep::Files
        } else if !self.look_done {
            NextStep::Look
        } else if !self.moves_done {
            NextStep::Moves
        } else if self.ready {
            NextStep::Ship
        } else {
            NextStep::Nothing
        }
    }

    /// What is to be done next.
    pub fn next_step(self) -> (r: NextStep)
        ensures
            r == self.next(),
    {
        if !self.files_done {
            NextStep::Files
        } else if !self.look_done {
            NextStep::Look
        } else if !self.moves_done {
            NextStep::Moves
        } else if self.ready {
            NextStep::Ship
        } else {
            NextStep::Nothing
        }
    }

    /// The four stages as they are shown.
    pub fn stage_labels(self) -> (r: Vec<String>)
        ensures
            texts(r@) == seq![
                mark(self.files_done) + " Files"@,
                mark(self.moves_done) + " Moves "@ + dec(self.moves_count as nat) + "/"@ + dec(
                    moveset().len(),
                ),
                mark(self.look_done) + " Look"@,
                mark(self.ready) + " Ship"@,
            ],
    {
        let mut r: Vec<String> = Vec::new();
        r.push(concat(mark_text(self.files_done), " Files"));
        let mut moves = concat(mark_text(self.moves_done), " Moves ");
        let count = dec_text(self.moves_count as u64);
        moves.append(count.as_str());
        moves.append("/");
        let all = dec_text(24);
        moves.append(all.as_str());
        r.push(moves);
        r.push(concat(mark_text(self.look_done), " Look"));
        r.push(concat(mark_text(self.ready), " Ship"));
        assert(moveset().len() == 24);
        assert(texts(r@) =~= seq![
            mark(self.files_done) + " Files"@,
            mark(self.moves_done) + " Moves "@ + dec(self.moves_count as nat) + "/"@ + dec(
                moveset().len(),
            ),
            mark(self.look_done) + " Look"@,
            mark(self.ready) + " Ship"@,
        ]);
        r
    }
}

impl NextStep {
    /// What is to be done next, in words.
    pub fn text(self) -> (r: Option<&'static str>)
        ensures
            match r {
                Some(text) => text@ == match self {
                    NextStep::Files => "Next: drop the model and animations into Files below."@,
                    NextStep::Look => "Next: name and portrait live in Character Select."@,
                    NextStep::Moves => "Next: tick “Edit this character's moves”, then replace moves in the main editor."@,
                    NextStep::Ship => "Ready to ship ✓ — Mod → Export Mod Folder."@,
                    NextStep::Nothing => Seq::empty(),
                } && self != NextStep::Nothing,
                None => self == NextStep::Nothing,
            },
    {
        match self {
            NextStep::Files => Some("Next: drop the model and animations into Files below."),
            NextStep::Look => Some("Next: name and portrait live in Character Select."),
            NextStep::Moves => Some(
                "Next: tick “Edit this character's moves”, then replace moves in the main editor.",
            ),
            NextStep::Ship => Some("Ready to ship ✓ — Mod → Export Mod Folder."),
            NextStep::Nothing => None,
        }
    }
}

/// Shipping is next only when every stage is done.
pub proof fn law_shipping_comes_last(progress: Progress)
    ensures
        progress.next() == NextStep::Ship ==> progress.files_done && progress.look_done
            && progress.moves_done && progress.ready,
{
}

proof fn lemma_not_among_is_shorter(moves: Seq<Seq<char>>, authored: Seq<Seq<char>>)
    ensures
        not_among(moves, authored).len() <= moves.len(),
    decreases moves.len(),
{
    if moves.len() > 0 {
        lemma_not_among_is_shorter(moves.drop_last(), authored);
    }
}

/// How far a character is. The files are there when there is a mesh, a motion list and a name; the
/// look is done when there is a name and a portrait; the moves are done when each of those worth
/// replacing first is replaced.
pub open spec fn progress_of(
    readiness: Readiness,
    inventory: SlotInventory,
    replaced: Seq<Seq<char>>,
    has_portrait: bool,
) -> Progress {
    let remaining = not_among(moveset(), replaced);
    Progress {
        files_done: inventory.meshes > 0 && inventory.has_motion_list && readiness.has_name,
        moves_count: (moveset().len() - remaining.len()) as usize,
        moves_done: remaining.len() == 0,
        look_done: readiness.has_name && has_portrait,
        ready: readiness.notes().len() == 0,
    }
}

/// How far a character is.
pub fn measure_progress(
    readiness: &Readiness,
    inventory: &SlotInventory,
    replaced: &Vec<String>,
    has_portrait: bool,
) -> (r: Progress)
    ensures
        r == progress_of(*readiness, *inventory, texts(replaced@), has_portrait),
        r.moves_count <= 24,
{
    let remaining = readiness.remaining_starting_moves(replaced);
    proof {
        lemma_not_among_is_shorter(moveset(), texts(replaced@));
        assert(word_texts(remaining@).len() == remaining@.len());
        assert(moveset().len() == 24);
    }
    Progress {
        files_done: inventory.meshes > 0 && inventory.has_motion_list && readiness.has_name,
        moves_count: 24 - remaining.len(),
        moves_done: remaining.len() == 0,
        look_done: readiness.has_name && has_portrait,
        ready: readiness.is_ready(),
    }
}

/// One row of the list of files.
#[derive(Debug, Clone, PartialEq, Eq)]
pub struct FileRow {
    pub name: &'static str,
    pub detail: String,
    pub done: bool,
    /// What to open, if there is something.
    pub target: Option<String>,
}

/// A slot directory of a fighter under a root.
pub open spec fn slot_dir(donor: Seq<char>, kind: Seq<char>, slot: u8) -> Seq<char> {
    "fighter/"@ + donor + kind + two_digits(slot as nat)
}

fn slot_dir_text(donor: &str, kind: &str, slot: u8) -> (r: String)
    ensures
        r@ == slot_dir(donor@, kind@, slot),
{
    let mut r = concat("fighter/", donor);
    r.append(kind);
    let digits = two_digit_text(slot as u64);
    r.append(digits.as_str());
    r
}

/// Which directory to open: the one under the root where the files were made, else the one where
/// files were found.
pub open spec fn dir_target(
    authored: AuthoredEntry,
    kind: Seq<char>,
    found: Option<String>,
) -> Option<Seq<char>> {
    match authored.files_root {
        Some(root) => Some(joined(root@, slot_dir(authored.donor@, kind, authored.slot))),
        None => text_of(found),
    }
}

fn target_dir(authored: &AuthoredEntry, kind: &str, found: &Option<String>) -> (r: Option<String>)
    ensures
        text_of(r) == dir_target(*authored, kind@, *found),
{
    match &authored.files_root {
        Some(root) => {
            let dir = slot_dir_text(authored.donor.as_str(), kind, authored.slot);
            Some(join_path(root.as_str(), dir.as_str()))
        },
        None => match found {
            Some(dir) => Some(dir.clone()),
            None => None,
        },
    }
}

/// What the row of the model says.
pub open spec fn model_detail(inventory: SlotInventory) -> Seq<char> {
    if inventory.meshes > 0 {
        dec(inventory.meshes as nat) + " mesh, "@ + dec(inventory.textures as nat)
            + " texture(s)"@
    } else {
        "empty — needs .numdlb + .nutexb"@
    }
}

/// What the row of the animations says.
pub open spec fn motion_detail(inventory: SlotInventory) -> Seq<char> {
    if inventory.anims > 0 {
        dec(inventory.anims as nat) + " animation(s)"@ + if inventory.has_motion_list {
            ""@
        } else {
            " — NO motion_list.bin"@
        }
    } else {
        "empty — needs .nuanmb + motion_list.bin"@
    }
}

/// Whether a row is as it should be.
pub open spec fn is_row(
    row: FileRow,
    name: Seq<char>,
    detail: Seq<char>,
    done: bool,
    target: Option<Seq<char>>,
) -> bool {
    &&& row.name@ == name
    &&& row.detail@ == detail
    &&& row.done == done
    &&& text_of(row.target) == target
}

/// The files that a character is made of: what is there, what is missing, and what to open.
pub fn file_rows(
    authored: &AuthoredEntry,
    inventory: &SlotInventory,
    portrait_png: &Option<String>,
) -> (r: Vec<FileRow>)
    ensures
        r@.len() == 4,
        is_row(
            r@[0],
            "Model"@,
            model_detail(*inventory),
            inventory.meshes > 0,
            dir_target(*authored, "/model/body/c"@, inventory.model_dir),
        ),
        is_row(
            r@[1],
            "Animations"@,
            motion_detail(*inventory),
            inventory.anims > 0 && inventory.has_motion_list,
            dir_target(*authored, "/motion/body/c"@, inventory.motion_dir),
        ),
        is_row(
            r@[2],
            "Effect"@,
            if inventory.has_effect {
                "own slot effect present"@
            } else {
                "optional — plays the donor's without one"@
            },
            inventory.has_effect,
            match authored.files_root {
                Some(root) => Some(joined(root@, effect_path(authored.donor@, authored.slot))),
                None => None,
            },
        ),
        is_row(
            r@[3],
            "Portrait"@,
            if portrait_png is Some {
                "picked — see Character Select → Images"@
            } else {
                "optional — pick one in Character Select → Images"@
            },
            portrait_png is Some || inventory.has_portrait,
            text_of(*portrait_png),
        ),
{
    let model = if inventory.meshes > 0 {
        let mut text = dec_text(inventory.meshes as u64);
        text.append(" mesh, ");
        let count = dec_text(inventory.textures as u64);
        text.append(count.as_str());
        text.append(" texture(s)");
        text
    } else {
        "empty — needs .numdlb + .nutexb".to_owned()
    };
    let motion = if inventory.anims > 0 {
        let mut text = dec_text(inventory.anims as u64);
        text.append(" animation(s)");
        if inventory.has_motion_list {
            text.append("");
        } else {
            text.append(" — NO motion_list.bin");
        }
        text
    } else {
        "empty — needs .nuanmb + motion_list.bin".to_owned()
    };
    let effect = if inventory.has_effect {
        "own slot effect present"
    } else {
        "optional — plays the donor's without one"
    };
    let effect_target = match &authored.files_root {
        Some(root) => {
            let file = effect_file(authored.donor.as_str(), authored.slot);
            Some(join_path(root.as_str(), file.as_str()))
        },
        None => None,
    };
    let portrait = if portrait_png.is_some() {
        "picked — see Character Select → Images"
    } else {
        "optional — pick one in Character Select → Images"
    };
    let portrait_target = match portrait_png {
        Some(path) => Some(path.clone()),
        None => None,
    };
    let mut r: Vec<FileRow> = Vec::new();
    r.push(
        FileRow {
            name: "Model",
            detail: model,
            done: inventory.meshes > 0,
            target: target_dir(authored, "/model/body/c", &inventory.model_dir),
        },
    );
    r.push(
        FileRow {
            name: "Animations",
            detail: motion,
            done: inventory.anims > 0 && inventory.has_motion_list,
            target: target_dir(authored, "/motion/body/c", &inventory.motion_dir),
        },
    );
    r.push(
        FileRow {
            name: "Effect",
            detail: effect.to_owned(),
            done: inventory.has_effect,
            target: effect_target,
        },
    );
    r.push(
        FileRow {
            name: "Portrait",
            detail: portrait.to_owned(),
            done: portrait_png.is_some() || inventory.has_portrait,
            target: portrait_target,
        },
    );
    r
}

/// What a card says of a character.
#[derive(Debug, Clone, PartialEq, Eq)]
pub struct CharacterCard {
    pub title: String,
    pub subtitle: String,
    pub badge: &'static str,
    pub progress: Progress,
    pub scope: String,
    /// What is missing; empty when the character is ready.
    pub notes: Vec<String>,
    pub moves_line: String,
    pub rest_line: String,
    /// The moves that still play the donor's version, if any.
    pub donor_moves: Option<String>,
    /// How the animations line up, and the files that never play, where there are any.
    pub binding_lines: Vec<String>,
    pub counts_line: String,
    pub missing_donor: bool,
}

/// What a card says of how the animations line up.
pub open spec fn binding_texts(binding: Option<&AnimationBinding>) -> Seq<Seq<char>> {
    match binding {
        Some(binding) => {
            let summary = dec(binding.resolved@.len()) + " animation(s) come from this costume, "@
                + dec(binding.falls_back_to_donor@.len()) + " fall back to the base costume"@;
            if binding.unreferenced_files@.len() == 0 {
                seq![summary]
            } else {
                seq![
                    summary,
                    dec(binding.unreferenced_files@.len())
                        + " animation file(s) that no motion list names, so they will never play: "@
                        + join(texts(binding.unreferenced_files@), ", "@),
                ]
            }
        },
        None => Seq::empty(),
    }
}

fn binding_lines(binding: Option<&AnimationBinding>) -> (r: Vec<String>)
    ensures
        texts(r@) == binding_texts(binding),
{
    let mut r: Vec<String> = Vec::new();
    match binding {
        Some(binding) => {
            r.push(binding.summary());
            if binding.unreferenced_files.len() > 0 {
                let mut text = dec_text(binding.unreferenced_files.len() as u64);
                text.append(
                    " animation file(s) that no motion list names, so they will never play: ",
                );
                let names = join_texts(&binding.unreferenced_files, ", ");
                text.append(names.as_str());
                r.push(text);
            }
        },
        None => {},
    }
    assert(texts(r@) =~= binding_texts(binding));
    r
}

fn owned_words(words: &Vec<&'static str>) -> (r: Vec<String>)
    ensures
        texts(r@) == word_texts(words@),
{
    let mut r: Vec<String> = Vec::new();
    let mut i: usize = 0;
    assert(texts(r@) =~= word_texts(words@).take(0));
    while i < words.len()
        invariant
            i <= words.len(),
            texts(r@) == word_texts(words@).take(i as int),
        decreases words.len() - i,
    {
        let ghost was = texts(r@);
        r.push(words[i].to_owned());
        assert(texts(r@) =~= was.push(words@[i as int]@));
        assert(word_texts(words@).take(i + 1) =~= word_texts(words@).take(i as int).push(
            words@[i as int]@,
        ));
        i = i + 1;
    }
    assert(word_texts(words@).take(words@.len() as int) =~= word_texts(words@));
    r
}

/// What a card says of a character.
pub fn character_card(
    authored: &AuthoredEntry,
    readiness: &Readiness,
    inventory: &SlotInventory,
    replaced: &Vec<String>,
    has_portrait: bool,
    targeted: bool,
    binding: Option<&AnimationBinding>,
    in_index: bool,
) -> (r: CharacterCard)
    ensures
        r.title@ == "◈  "@ + authored.display_name@,
        r.subtitle@ == slot_text(authored.slot) + " of "@ + authored.donor@ + " · "@
            + authored.name_id@,
        r.badge@ == if readiness.notes().len() == 0 {
            "Ready"@
        } else {
            "Needs work"@
        },
        r.progress == progress_of(*readiness, *inventory, texts(replaced@), has_portrait),
        r.scope@ == if targeted {
            "Edits affect "@ + slot_text(authored.slot) + " only."@
        } else {
            "Scope edits to this costume."@
        },
        texts(r.notes@) == readiness.notes(),
        r.moves_line@ == dec(r.progress.moves_count as nat) + "/"@ + dec(moveset().len())
            + " starting moves replaced"@,
        r.rest_line@ == "The rest still play "@ + authored.donor@
            + "'s version — normal until you change them."@,
        text_of(r.donor_moves) == ({
            let remaining = not_among(moveset(), texts(replaced@));
            if remaining.len() == 0 {
                None::<Seq<char>>
            } else {
                Some("Still donor's: "@ + join(remaining, ", "@))
            }
        }),
        texts(r.binding_lines@) == binding_texts(binding),
        r.counts_line@ == dec(readiness.model_files as nat) + " model file(s)  ·  "@ + dec(
            readiness.motion_files as nat,
        ) + " animation(s)"@ + if readiness.has_effect {
            "  ·  own effects"@
        } else {
            ""@
        },
        r.missing_donor == !in_index,
{
    assert(moveset().len() == 24);
    let progress = measure_progress(readiness, inventory, replaced, has_portrait);
    let digits = two_digit_text(authored.slot as u64);
    let slot = concat("c", digits.as_str());
    let mut subtitle = slot.clone();
    subtitle.append(" of ");
    subtitle.append(authored.donor.as_str());
    subtitle.append(" · ");
    subtitle.append(authored.name_id.as_str());
    let scope = if targeted {
        let mut text = concat("Edits affect ", slot.as_str());
        text.append(" only.");
        text
    } else {
        "Scope edits to this costume.".to_owned()
    };
    let mut moves_line = dec_text(progress.moves_count as u64);
    moves_line.append("/");
    let all = dec_text(24);
    moves_line.append(all.as_str());
    moves_line.append(" starting moves replaced");
    let mut rest_line = concat("The rest still play ", authored.donor.as_str());
    rest_line.append("'s version — normal until you change them.");
    let remaining = readiness.remaining_starting_moves(replaced);
    assert(word_texts(remaining@).len() == remaining@.len());
    let donor_moves = if remaining.len() == 0 {
        None
    } else {
        let words = owned_words(&remaining);
        let list = join_texts(&words, ", ");
        Some(concat("Still donor's: ", list.as_str()))
    };
    let mut counts_line = dec_text(readiness.model_files as u64);
    counts_line.append(" model file(s)  ·  ");
    let motions = dec_text(readiness.motion_files as u64);
    counts_line.append(motions.as_str());
    counts_line.append(" animation(s)");
    if readiness.has_effect {
        counts_line.append("  ·  own effects");
    } else {
        counts_line.append("");
    }
    CharacterCard {
        title: concat("◈  ", authored.display_name.as_str()),
        subtitle,
        badge: if readiness.is_ready() {
            "Ready"
        } else {
            "Needs work"
        },
        progress,
        scope,
        notes: readiness.outstanding(),
        moves_line,
        rest_line,
        donor_moves,
        binding_lines: binding_lines(binding),
        counts_line,
        missing_donor: !in_index,
    }
}

/// Where the animations of a character are compared: the donor's motion list, under the first root
/// that has it, and the slot's motion directory, under the first that has it.
pub fn animation_binding(
    roots: &Vec<String>,
    authored: &AuthoredEntry,
    has_list: &Vec<bool>,
    has_dir: &Vec<bool>,
) -> (r: Option<(String, String)>)
    requires
        roots@.len() == has_list@.len(),
        roots@.len() == has_dir@.len(),
    ensures
        match r {
            Some((list, dir)) => {
                &&& first_true(has_list@) matches Some(i) && list@ == joined(
                    joined(roots@[i]@, "fighter/"@ + authored.donor@ + "/motion/body"@),
                    "motion_list.bin"@,
                )
                &&& first_true(has_dir@) matches Some(k) && dir@ == joined(
                    roots@[k]@,
                    slot_dir(authored.donor@, "/motion/body/c"@, authored.slot),
                )
            },
            None => first_true(has_list@) is None || first_true(has_dir@) is None,
        },
{
    let mut relative = concat("fighter/", authored.donor.as_str());
    relative.append("/motion/body");
    let i: usize = match find_true(has_list) {
        Some(i) => i,
        None => {
            return None;
        },
    };
    let k: usize = match find_true(has_dir) {
        Some(k) => k,
        None => {
            return None;
        },
    };
    let base = join_path(roots[i].as_str(), relative.as_str());
    let list = join_path(base.as_str(), "motion_list.bin");
    let dir = slot_dir_text(authored.donor.as_str(), "/motion/body/c", authored.slot);
    let dir = join_path(roots[k].as_str(), dir.as_str());
    Some((list, dir))
}

/// The place of the first flag that is set.
pub open spec fn first_true(flags: Seq<bool>) -> Option<int>
    decreases flags.len(),
{
    if flags.len() == 0 {
        None
    } else {
        match first_true(flags.drop_last()) {
            Some(i) => Some(i),
            None => if flags.last() {
                Some(flags.len() - 1)
            } else {
                None
            },
        }
    }
}

proof fn lemma_first_true(flags: Seq<bool>, i: int)
    requires
        0 <= i < flags.len(),
        flags[i],
        forall|j: int| 0 <= j < i ==> !flags[j],
    ensures
        first_true(flags) == Some(i),
    decreases flags.len(),
{
    if i < flags.len() - 1 {
        assert(flags.drop_last()[i]);
        lemma_first_true(flags.drop_last(), i);
    } else {
        assert forall|j: int| 0 <= j < flags.len() - 1 implies !flags.drop_last()[j] by {
            assert(!flags[j]);
        }
        lemma_none_true(flags.drop_last());
    }
}

proof fn lemma_none_true(flags: Seq<bool>)
    requires
        forall|j: int| 0 <= j < flags.len() ==> !flags[j],
    ensures
        first_true(flags) is None,
    decreases flags.len(),
{
    if flags.len() > 0 {
        assert(!flags[flags.len() - 1]);
        assert forall|j: int| 0 <= j < flags.len() - 1 implies !flags.drop_last()[j] by {
            assert(!flags[j]);
        }
        lemma_none_true(flags.drop_last());
    }
}

fn find_true(flags: &Vec<bool>) -> (r: Option<usize>)
    ensures
        match r {
            Some(i) => first_true(flags@) == Some(i as int) && i < flags@.len(),
            None => first_true(flags@) is None,
        },
{
    let mut i: usize = 0;
    while i < flags.len()
        invariant
            i <= flags.len(),
            forall|j: int| 0 <= j < i ==> !flags@[j],
        decreases flags.len() - i,
    {
        if flags[i] {
            proof {
                lemma_first_true(flags@, i as int);
            }
            return Some(i);
        }
        i = i + 1;
    }
    proof {
        lemma_none_true(flags@);
    }
    None
}

/// The next step is the first stage that is not done, in the order files, look, moves; a character
/// with all three ships where nothing is missing, and has no next step otherwise.
pub proof fn law_the_first_stage_that_is_not_done_is_next(p: Progress)
    ensures
        p.next() == NextStep::Files <==> !p.files_done,
        p.next() == NextStep::Look <==> p.files_done && !p.look_done,
        p.next() == NextStep::Moves <==> p.files_done && p.look_done && !p.moves_done,
        p.next() == NextStep::Ship <==> p.files_done && p.look_done && p.moves_done && p.ready,
{
}

/// What each stage needs: files a mesh, a motion list and a name; the look a name and a portrait;
/// the moves each of those worth replacing. A character to which nothing is missing is ready, and
/// the moves that were replaced and those that remain are all there are.
pub proof fn law_stages_need_what_they_say(
    readiness: Readiness,
    inventory: SlotInventory,
    replaced: Seq<Seq<char>>,
    has_portrait: bool,
)
    ensures
        ({
            let p = progress_of(readiness, inventory, replaced, has_portrait);
            &&& p.files_done <==> inventory.meshes > 0 && inventory.has_motion_list
                && readiness.has_name
            &&& p.look_done <==> readiness.has_name && has_portrait
            &&& p.moves_done <==> forall|i: int|
                0 <= i < moveset().len() ==> replaced.contains(#[trigger] moveset()[i])
            &&& p.ready <==> readiness.model_files > 0 && readiness.motion_files > 0
                && readiness.has_motion_list && readiness.has_name && readiness.registered_moves
                >= readiness.authored_moves
            &&& p.moves_count + not_among(moveset(), replaced).len() == moveset().len()
            &&& p.moves_done ==> p.moves_count == 24
        }),
{
    law_moves_that_were_not_written_remain(moveset(), replaced);
    law_a_note_for_each_missing_thing(readiness);
    lemma_not_among_is_shorter(moveset(), replaced);
    let remaining = not_among(moveset(), replaced);
    if remaining.len() == 0 {
        assert forall|i: int| 0 <= i < moveset().len() implies replaced.contains(
            #[trigger] moveset()[i],
        ) by {
            if !replaced.contains(moveset()[i]) {
                assert(moveset().contains(moveset()[i]));
                assert(remaining.contains(moveset()[i]));
            }
        }
    }
}

/// A slot's directory under a fighter ends in the slot's number, so that slots have directories of
/// their own; where files were made, that directory is the one to open, wherever others were found.
pub proof fn law_made_files_are_opened_first(
    authored: AuthoredEntry,
    kind: Seq<char>,
    found: Option<String>,
)
    ensures
        authored.files_root is Some ==> dir_target(authored, kind, found) == Some(
            joined(
                authored.files_root->0@,
                "fighter/"@ + authored.donor@ + kind + two_digits(authored.slot as nat),
            ),
        ),
        authored.files_root is None && found is Some ==> dir_target(authored, kind, found) == Some(
            found->0@,
        ),
        authored.files_root is None && found is None ==> dir_target(authored, kind, found) is None,
{
}

/// The first flag that is set has none set before it.
pub proof fn law_the_first_flag_is_first(flags: Seq<bool>)
    ensures
        match first_true(flags) {
            Some(at) => 0 <= at < flags.len() && flags[at] && forall|i: int|
                0 <= i < at ==> !#[trigger] flags[i],
            None => forall|i: int| 0 <= i < flags.len() ==> !#[trigger] flags[i],
        },
    decreases flags.len(),
{
    if flags.len() > 0 {
        let front = flags.drop_last();
        law_the_first_flag_is_first(front);
        assert forall|i: int| 0 <= i < front.len() implies front[i] == #[trigger] flags[i] by {}
    }
}

/// A stage that is done is marked otherwise than one that is not.
pub proof fn law_marks_tell_done_from_open()
    ensures
        mark(true) == seq!['✓'],
        mark(false) == seq!['○'],
{
    reveal_strlit("✓");
    reveal_strlit("○");
    assert("✓"@ =~= seq!['✓']);
    assert("○"@ =~= seq!['○']);
}

/// The rows of a card: what is done is told by what is there, and each row opens its own place.
pub proof fn law_file_rows_tell_what_is_there(
    authored: &AuthoredEntry,
    inventory: &SlotInventory,
    portrait: &Option<String>,
    r: Vec<FileRow>,
)
    requires
        call_ensures(file_rows, (authored, inventory, portrait), r),
    ensures
        r@.len() == 4,
        r@[0].done <==> inventory.meshes > 0,
        r@[1].done <==> inventory.anims > 0 && inventory.has_motion_list,
        r@[2].done <==> inventory.has_effect,
        r@[3].done <==> portrait is Some || inventory.has_portrait,
        portrait is Some ==> text_of(r@[3].target) == Some(portrait->0@),
        authored.files_root is None ==> text_of(r@[0].target) == text_of(inventory.model_dir)
            && text_of(r@[1].target) == text_of(inventory.motion_dir) && r@[2].target is None,
{
}

/// The animations of a costume are bound to the first motion list and the first directory that are
/// there, and to none where one of the two is missing.
pub proof fn law_animations_are_bound_where_both_are_there(
    roots: &Vec<String>,
    authored: &AuthoredEntry,
    has_list: &Vec<bool>,
    has_dir: &Vec<bool>,
    r: Option<(String, String)>,
)
    requires
        call_ensures(animation_binding, (roots, authored, has_list, has_dir), r),
        roots@.len() == has_list@.len(),
        roots@.len() == has_dir@.len(),
    ensures
        r is Some <==> (exists|i: int| 0 <= i < has_list@.len() && #[trigger] has_list@[i]) && (
        exists|k: int| 0 <= k < has_dir@.len() && #[trigger] has_dir@[k]),
{
    law_the_first_flag_is_first(has_list@);
    law_the_first_flag_is_first(has_dir@);
    if first_true(has_list@) is Some {
        assert(has_list@[first_true(has_list@)->0]);
    }
    if first_true(has_dir@) is Some {
        assert(has_dir@[first_true(has_dir@)->0]);
    }
}

/// The row of the model counts its meshes and textures where it has a mesh, and asks for them where
/// it has none; the row of the animations tells where their list is missing.
pub proof fn law_rows_count_what_is_there(inventory: SlotInventory)
    ensures
        inventory.meshes > 0 ==> model_detail(inventory) == dec(inventory.meshes as nat)
            + " mesh, "@ + dec(inventory.textures as nat) + " texture(s)"@,
        inventory.meshes == 0 ==> model_detail(inventory) == "empty — needs .numdlb + .nutexb"@,
        inventory.anims > 0 && inventory.has_motion_list ==> motion_detail(inventory) == dec(
            inventory.anims as nat,
        ) + " animation(s)"@,
        inventory.anims > 0 && !inventory.has_motion_list ==> motion_detail(inventory) == dec(
            inventory.anims as nat,
        ) + " animation(s) — NO motion_list.bin"@,
        inventory.anims == 0 ==> motion_detail(inventory)
            == "empty — needs .nuanmb + motion_list.bin"@,
{
    reveal_strlit("");
    reveal_strlit(" animation(s)");
    reveal_strlit(" — NO motion_list.bin");
    reveal_strlit(" animation(s) — NO motion_list.bin");
    let count = dec(inventory.anims as nat);
    assert(" animation(s)"@ + " — NO motion_list.bin"@ =~= " animation(s) — NO motion_list.bin"@);
    assert(count + " animation(s)"@ + " — NO motion_list.bin"@ =~= count
        + " animation(s) — NO motion_list.bin"@);
    assert(count + " animation(s)"@ + ""@ =~= count + " animation(s)"@);
}

/// A card says how animations line up only where that is known, and names the files that will never
/// play exactly where there are some.
pub proof fn law_files_that_never_play_are_named(binding: Option<&AnimationBinding>)
    ensures
        binding is None ==> binding_texts(binding).len() == 0,
        binding is Some && binding->0.unreferenced_files@.len() == 0 ==> binding_texts(binding).len()
            == 1,
        binding is Some && binding->0.unreferenced_files@.len() > 0 ==> binding_texts(binding).len()
            == 2,
{
}

} // verus!
