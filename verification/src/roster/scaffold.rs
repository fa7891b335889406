//! A new character as costumes of a donor fighter: the directories it needs, what stands in them,
//! and what is still missing.
//!
//! The directories are made empty, not filled with the donor's files, so that a slot without a
//! model is visibly a slot without a model.

use vstd::prelude::*;
use vstd::string::*;

use crate::paths::{join_path, joined};
use crate::roster::costume_gate::{
    distinct_slots, law_slots_ascend, lemma_distinct_slots, sorted_slots,
};
use crate::text::{
    ascending, ascii_lower, before, concat, dec, dec_text, digits_u8, ends_with, has_suffix,
    insert_ascending, law_lowering_changes_capitals_alone, lemma_before_total, lemma_split_append,
    lemma_two_digits_reads_back, list_has, lower_char, same, split, split_text, starts_with, texts,
    to_ascii_lower, trim_text, trimmed, two_digit_text, two_digits,
};

verus! {

/// The model directory of a slot under a mod root.
pub open spec fn model_dir(donor: Seq<char>, slot: u8) -> Seq<char> {
    "fighter/"@ + ascii_lower(donor) + "/model/body/c"@ + two_digits(slot as nat)
}

/// The motion directory of a slot under a mod root.
pub open spec fn motion_dir(donor: Seq<char>, slot: u8) -> Seq<char> {
    "fighter/"@ + ascii_lower(donor) + "/motion/body/c"@ + two_digits(slot as nat)
}

/// The effect directory of a fighter under a mod root.
pub open spec fn effect_dir(donor: Seq<char>) -> Seq<char> {
    "effect/fighter/"@ + ascii_lower(donor)
}

/// The effect file of a slot under a mod root.
pub open spec fn effect_path(donor: Seq<char>, slot: u8) -> Seq<char> {
    effect_dir(donor) + "/ef_"@ + ascii_lower(donor) + "_c"@ + two_digits(slot as nat) + ".eff"@
}

/// The directories that a costume slot needs, relative to a mod root.
pub open spec fn slot_dirs(donor: Seq<char>, slot: u8) -> Seq<Seq<char>> {
    seq![model_dir(donor, slot), motion_dir(donor, slot), effect_dir(donor)]
}

fn model_dir_text(donor: &str, slot: u8) -> (r: String)
    ensures
        r@ == model_dir(donor@, slot),
{
    let lower = to_ascii_lower(donor);
    let mut r = concat("fighter/", lower.as_str());
    r.append("/model/body/c");
    let digits = two_digit_text(slot as u64);
    r.append(digits.as_str());
    r
}

fn motion_dir_text(donor: &str, slot: u8) -> (r: String)
    ensures
        r@ == motion_dir(donor@, slot),
{
    let lower = to_ascii_lower(donor);
    let mut r = concat("fighter/", lower.as_str());
    r.append("/motion/body/c");
    let digits = two_digit_text(slot as u64);
    r.append(digits.as_str());
    r
}

fn effect_dir_text(donor: &str) -> (r: String)
    ensures
        r@ == effect_dir(donor@),
{
    let lower = to_ascii_lower(donor);
    concat("effect/fighter/", lower.as_str())
}

/// The directories that a costume slot needs, relative to a mod root.
pub fn directories(donor: &str, slot: u8) -> (r: Vec<String>)
    ensures
        texts(r@) == slot_dirs(donor@, slot),
{
    let mut r: Vec<String> = Vec::new();
    r.push(model_dir_text(donor, slot));
    r.push(motion_dir_text(donor, slot));
    r.push(effect_dir_text(donor));
    assert(texts(r@) =~= slot_dirs(donor@, slot));
    r
}

/// The effect file of a slot, relative to a mod root.
pub fn effect_file(donor: &str, slot: u8) -> (r: String)
    ensures
        r@ == effect_path(donor@, slot),
{
    let lower = to_ascii_lower(donor);
    let mut r = effect_dir_text(donor);
    r.append("/ef_");
    r.append(lower.as_str());
    r.append("_c");
    let digits = two_digit_text(slot as u64);
    r.append(digits.as_str());
    r.append(".eff");
    r
}

/// The effect files of some slots, in their order.
pub open spec fn effect_paths(donor: Seq<char>, slots: Seq<u8>) -> Seq<Seq<char>> {
    slots.map_values(|slot: u8| effect_path(donor, slot))
}

/// The effect files of some slots.
pub fn effect_files(donor: &str, slots: &[u8]) -> (r: Vec<String>)
    ensures
        texts(r@) == effect_paths(donor@, slots@),
{
    let mut r: Vec<String> = Vec::new();
    let mut i: usize = 0;
    while i < slots.len()
        invariant
            i <= slots.len(),
            texts(r@) == effect_paths(donor@, slots@).take(i as int),
        decreases slots.len() - i,
    {
        let ghost was = texts(r@);
        r.push(effect_file(donor, slots[i]));
        assert(texts(r@) =~= was.push(effect_path(donor@, slots@[i as int])));
        assert(effect_paths(donor@, slots@).take(i + 1) =~= effect_paths(donor@, slots@).take(
            i as int,
        ).push(effect_path(donor@, slots@[i as int])));
        i = i + 1;
    }
    assert(effect_paths(donor@, slots@).take(slots@.len() as int) =~= effect_paths(
        donor@,
        slots@,
    ));
    r
}

/// A list with what another has besides, in its order, nothing twice.
pub open spec fn with_new(list: Seq<Seq<char>>, more: Seq<Seq<char>>) -> Seq<Seq<char>>
    decreases more.len(),
{
    if more.len() == 0 {
        list
    } else {
        let front = with_new(list, more.drop_last());
        if front.contains(more.last()) {
            front
        } else {
            front.push(more.last())
        }
    }
}

/// Adds to a list what another has besides.
fn add_new(list: &mut Vec<String>, more: &Vec<String>)
    ensures
        texts(final(list)@) == with_new(texts(old(list)@), texts(more@)),
{
    let ghost first = texts(list@);
    let mut i: usize = 0;
    assert(texts(more@).take(0) =~= Seq::empty());
    while i < more.len()
        invariant
            i <= more.len(),
            texts(list@) == with_new(first, texts(more@).take(i as int)),
        decreases more.len() - i,
    {
        let ghost was = texts(list@);
        assert(texts(more@).take(i + 1).drop_last() =~= texts(more@).take(i as int));
        if !list_has(list, more[i].as_str()) {
            list.push(more[i].clone());
            assert(texts(list@) =~= was.push(more@[i as int]@));
        }
        i = i + 1;
    }
    assert(texts(more@).take(more@.len() as int) =~= texts(more@));
}

/// The directories that some slots need, each once.
pub open spec fn dirs_of_slots(donor: Seq<char>, slots: Seq<u8>) -> Seq<Seq<char>>
    decreases slots.len(),
{
    if slots.len() == 0 {
        Seq::empty()
    } else {
        with_new(dirs_of_slots(donor, slots.drop_last()), slot_dirs(donor, slots.last()))
    }
}

/// The directories that some slots need, each once: they share the effect directory.
pub fn directories_for_slots(donor: &str, slots: &[u8]) -> (r: Vec<String>)
    ensures
        texts(r@) == dirs_of_slots(donor@, slots@),
{
    let mut r: Vec<String> = Vec::new();
    let mut i: usize = 0;
    assert(slots@.take(0) =~= Seq::empty());
    assert(texts(r@) =~= Seq::empty());
    while i < slots.len()
        invariant
            i <= slots.len(),
            texts(r@) == dirs_of_slots(donor@, slots@.take(i as int)),
        decreases slots.len() - i,
    {
        assert(slots@.take(i + 1).drop_last() =~= slots@.take(i as int));
        let dirs = directories(donor, slots[i]);
        add_new(&mut r, &dirs);
        i = i + 1;
    }
    assert(slots@.take(slots@.len() as int) =~= slots@);
    r
}

/// What a scaffold created.
#[derive(Debug, Clone)]
pub struct Scaffold {
    pub donor: String,
    /// The lowest slot.
    pub slot: u8,
    /// Every slot, ascending.
    pub slots: Vec<u8>,
    pub created: Vec<String>,
}

/// The file in a model directory that says what goes where.
pub open spec fn guide_path(donor: Seq<char>, slot: u8) -> Seq<char> {
    model_dir(donor, slot) + "/PUT_YOUR_MODEL_HERE.txt"@
}

/// What making a scaffold creates, in order: for each slot its directories, those that are there
/// already aside, and its guide.
pub open spec fn created_for(donor: Seq<char>, slots: Seq<u8>) -> Seq<Seq<char>>
    decreases slots.len(),
{
    if slots.len() == 0 {
        Seq::empty()
    } else {
        with_new(
            created_for(donor, slots.drop_last()),
            slot_dirs(donor, slots.last()),
        ).push(guide_path(donor, slots.last()))
    }
}

/// Plans the directory trees and guides for some slots of a donor: what to create, under one mod
/// root. The slots are made distinct and ascend.
pub fn create_many(donor: &str, slots: &[u8]) -> (r: Result<Scaffold, String>)
    ensures
        match r {
            Ok(scaffold) => {
                &&& trimmed(donor@).len() > 0
                &&& slots@.len() > 0
                &&& scaffold.donor@ == ascii_lower(donor@)
                &&& scaffold.slots@ == distinct_slots(slots@)
                &&& scaffold.slots@.len() > 0
                &&& scaffold.slot == scaffold.slots@[0]
                &&& texts(scaffold.created@) == created_for(donor@, distinct_slots(slots@))
            },
            Err(message) => if trimmed(donor@).len() == 0 {
                message@ == "a new character needs a donor fighter to be a costume of"@
            } else {
                slots@.len() == 0 && message@ == "a new character needs at least one costume slot"@
            },
        },
{
    let name = trim_text(donor);
    if name.as_str().is_empty() {
        return Err("a new character needs a donor fighter to be a costume of".to_owned());
    }
    if slots.len() == 0 {
        return Err("a new character needs at least one costume slot".to_owned());
    }
    let sorted = sorted_slots(slots);
    let mut created: Vec<String> = Vec::new();
    let mut i: usize = 0;
    assert(sorted@.take(0) =~= Seq::empty());
    assert(texts(created@) =~= Seq::empty());
    while i < sorted.len()
        invariant
            i <= sorted.len(),
            texts(created@) == created_for(donor@, sorted@.take(i as int)),
        decreases sorted.len() - i,
    {
        assert(sorted@.take(i + 1).drop_last() =~= sorted@.take(i as int));
        let dirs = directories(donor, sorted[i]);
        add_new(&mut created, &dirs);
        let ghost was = texts(created@);
        let mut guide = model_dir_text(donor, sorted[i]);
        guide.append("/PUT_YOUR_MODEL_HERE.txt");
        created.push(guide);
        assert(texts(created@) =~= was.push(guide_path(donor@, sorted@[i as int])));
        i = i + 1;
    }
    assert(sorted@.take(sorted@.len() as int) =~= sorted@);
    proof {
        lemma_distinct_slots(slots@, 256);
        assert(slots@.contains(slots@[0]));
        assert(sorted@.contains(slots@[0]));
    }
    let slot: u8 = sorted[0];
    Ok(Scaffold { donor: to_ascii_lower(donor), slot, slots: sorted, created })
}

/// The guide for a slot.
pub open spec fn guide_text(donor: Seq<char>, slot: u8) -> Seq<char> {
    "This is costume slot c"@ + two_digits(slot as nat) + " of "@ + ascii_lower(donor)
        + ", created by Visionary.\n\
        \n\
        Put your model here:\n\
        \x20 model.numdlb, model.numshb, model.numatb, model.nusktb, model.numshexb,\n\
        \x20 your .nutexb textures, and model.numatb's materials.\n\
        \n\
        Put your animations in:\n\
        \x20 "@
        + motion_dir(donor, slot)
        + "/\n\
        \x20 as .nuanmb files, plus a motion_list.bin naming them.\n\
        \n\
        Effects for this slot go in:\n\
        \x20 "@
        + effect_path(donor, slot)
        + "\n\
        \n\
        Visionary does not copy "@
        + ascii_lower(donor)
        + "'s own files in here. That is deliberate: an empty\n\
        slot is visibly empty, whereas a copied one would look identical whether or not your\n\
        files were picked up.\n\
        \n\
        Delete this file once your model is in place.\n"@
}

/// The guide for a slot: which files the game expects, and where.
pub fn placement_guide(donor: &str, slot: u8) -> (r: String)
    ensures
        r@ == guide_text(donor@, slot),
{
    let lower = to_ascii_lower(donor);
    let digits = two_digit_text(slot as u64);
    let motion = motion_dir_text(donor, slot);
    let effect = effect_file(donor, slot);
    let mut r = concat("This is costume slot c", digits.as_str());
    r.append(" of ");
    r.append(lower.as_str());
    r.append(
        ", created by Visionary.\n\
        \n\
        Put your model here:\n\
        \x20 model.numdlb, model.numshb, model.numatb, model.nusktb, model.numshexb,\n\
        \x20 your .nutexb textures, and model.numatb's materials.\n\
        \n\
        Put your animations in:\n\
        \x20 ",
    );
    r.append(motion.as_str());
    r.append(
        "/\n\
        \x20 as .nuanmb files, plus a motion_list.bin naming them.\n\
        \n\
        Effects for this slot go in:\n\
        \x20 ",
    );
    r.append(effect.as_str());
    r.append(
        "\n\
        \n\
        Visionary does not copy ",
    );
    r.append(lower.as_str());
    r.append(
        "'s own files in here. That is deliberate: an empty\n\
        slot is visibly empty, whereas a copied one would look identical whether or not your\n\
        files were picked up.\n\
        \n\
        Delete this file once your model is in place.\n",
    );
    r
}

/// The moves that are worth replacing first, as script names: the ground and air normals, the
/// smashes, the throws and the four specials.
pub open spec fn moveset() -> Seq<Seq<char>> {
    seq![
        "attack_11"@,
        "attack_12"@,
        "attack_13"@,
        "attack_dash"@,
        "attack_s3_s"@,
        "attack_hi3"@,
        "attack_lw3"@,
        "attack_s4_s"@,
        "attack_hi4"@,
        "attack_lw4"@,
        "attack_air_n"@,
        "attack_air_f"@,
        "attack_air_b"@,
        "attack_air_hi"@,
        "attack_air_lw"@,
        "catch"@,
        "throw_f"@,
        "throw_b"@,
        "throw_hi"@,
        "throw_lw"@,
        "special_n"@,
        "special_s"@,
        "special_hi"@,
        "special_lw"@,
    ]
}

/// The characters of each text of a list.
pub open spec fn word_texts(v: Seq<&'static str>) -> Seq<Seq<char>> {
    v.map_values(|s: &'static str| s@)
}

/// The moves that are worth replacing first. A character without them is playable: it runs the
/// donor's move until one is replaced.
pub fn moveset_template() -> (r: Vec<&'static str>)
    ensures
        word_texts(r@) == moveset(),
{
    let mut r: Vec<&'static str> = Vec::new();
    r.push("attack_11");
    r.push("attack_12");
    r.push("attack_13");
    r.push("attack_dash");
    r.push("attack_s3_s");
    r.push("attack_hi3");
    r.push("attack_lw3");
    r.push("attack_s4_s");
    r.push("attack_hi4");
    r.push("attack_lw4");
    r.push("attack_air_n");
    r.push("attack_air_f");
    r.push("attack_air_b");
    r.push("attack_air_hi");
    r.push("attack_air_lw");
    r.push("catch");
    r.push("throw_f");
    r.push("throw_b");
    r.push("throw_hi");
    r.push("throw_lw");
    r.push("special_n");
    r.push("special_s");
    r.push("special_hi");
    r.push("special_lw");
    assert(word_texts(r@) =~= moveset());
    r
}

/// Which parts of an authored character are there. Of the moves it says which are registered, not
/// which files there are: a script that nothing registers is never played.
#[derive(Debug, Clone, Default, PartialEq)]
pub struct Readiness {
    pub model_files: usize,
    pub motion_files: usize,
    pub has_motion_list: bool,
    pub has_effect: bool,
    pub has_name: bool,
    /// The moves that the project has authored for the slot.
    pub authored_moves: usize,
    /// Of those, how many the plugin will install.
    pub registered_moves: usize,
}

/// The moves of a list that another list does not have.
pub open spec fn not_among(moves: Seq<Seq<char>>, authored: Seq<Seq<char>>) -> Seq<Seq<char>>
    decreases moves.len(),
{
    if moves.len() == 0 {
        Seq::empty()
    } else if authored.contains(moves.last()) {
        not_among(moves.drop_last(), authored)
    } else {
        not_among(moves.drop_last(), authored).push(moves.last())
    }
}

impl Readiness {
    /// What is missing of the model.
    pub open spec fn model_notes(&self) -> Seq<Seq<char>> {
        if self.model_files == 0 {
            seq!["no model files in the slot's model folder"@]
        } else {
            Seq::empty()
        }
    }

    /// What is missing of the animations.
    pub open spec fn motion_notes(&self) -> Seq<Seq<char>> {
        if self.motion_files == 0 {
            seq!["no animations in the slot's motion folder"@]
        } else if !self.has_motion_list {
            seq![
                "animations are present but there is no motion_list.bin naming them, so the \
                game will not find them"@,
            ]
        } else {
            Seq::empty()
        }
    }

    /// What is missing of the moves.
    pub open spec fn move_notes(&self) -> Seq<Seq<char>> {
        if self.authored_moves > 0 && self.registered_moves < self.authored_moves {
            seq![
                dec((self.authored_moves - self.registered_moves) as nat) + " of "@ + dec(
                    self.authored_moves as nat,
                )
                    + " authored move(s) are not registered, so they will compile and then \
                    play the donor's move instead"@,
            ]
        } else {
            Seq::empty()
        }
    }

    /// What is missing of the name.
    pub open spec fn name_notes(&self) -> Seq<Seq<char>> {
        if !self.has_name {
            seq!["no display name set for this slot"@]
        } else {
            Seq::empty()
        }
    }

    /// What is missing, the most important first.
    pub open spec fn notes(&self) -> Seq<Seq<char>> {
        self.model_notes() + self.motion_notes() + self.move_notes() + self.name_notes()
    }

    /// What is missing, the most important first.
    pub fn outstanding(&self) -> (r: Vec<String>)
        ensures
            texts(r@) == self.notes(),
    {
        let mut r: Vec<String> = Vec::new();
        if self.model_files == 0 {
            r.push("no model files in the slot's model folder".to_owned());
        }
        assert(texts(r@) =~= self.model_notes());
        if self.motion_files == 0 {
            r.push("no animations in the slot's motion folder".to_owned());
        } else if !self.has_motion_list {
            r.push(
                "animations are present but there is no motion_list.bin naming them, so the \
                game will not find them".to_owned(),
            );
        }
        assert(texts(r@) =~= self.model_notes() + self.motion_notes());
        if self.authored_moves > 0 && self.registered_moves < self.authored_moves {
            let mut note = dec_text((self.authored_moves - self.registered_moves) as u64);
            note.append(" of ");
            let all = dec_text(self.authored_moves as u64);
            note.append(all.as_str());
            note.append(
                " authored move(s) are not registered, so they will compile and then \
                play the donor's move instead",
            );
            r.push(note);
        }
        assert(texts(r@) =~= self.model_notes() + self.motion_notes() + self.move_notes());
        if !self.has_name {
            r.push("no display name set for this slot".to_owned());
        }
        assert(texts(r@) =~= self.notes());
        r
    }

    /// Whether nothing is missing.
    pub fn is_ready(&self) -> (r: bool)
        ensures
            r == (self.notes().len() == 0),
            r == (self.model_files > 0 && self.motion_files > 0 && self.has_motion_list
                && self.registered_moves >= self.authored_moves && self.has_name),
    {
        let notes = self.outstanding();
        assert(texts(notes@).len() == notes@.len());
        notes.len() == 0
    }

    /// The moves worth replacing first that are not replaced yet. They play the donor's version,
    /// which is no fault.
    pub fn remaining_starting_moves(&self, authored: &Vec<String>) -> (r: Vec<&'static str>)
        ensures
            word_texts(r@) == not_among(moveset(), texts(authored@)),
    {
        let all = moveset_template();
        let mut r: Vec<&'static str> = Vec::new();
        let mut i: usize = 0;
        let ghost moves = word_texts(all@);
        assert(moves.take(0) =~= Seq::empty());
        assert(word_texts(r@) =~= Seq::empty());
        while i < all.len()
            invariant
                i <= all.len(),
                moves == word_texts(all@),
                word_texts(r@) == not_among(moves.take(i as int), texts(authored@)),
            decreases all.len() - i,
        {
            let ghost was = word_texts(r@);
            assert(moves.take(i + 1).drop_last() =~= moves.take(i as int));
            assert(moves.take(i + 1).last() == all@[i as int]@);
            if !list_has(authored, all[i]) {
                r.push(all[i]);
                assert(word_texts(r@) =~= was.push(all@[i as int]@));
            }
            i = i + 1;
        }
        assert(moves.take(moves.len() as int) =~= moves);
        r
    }
}

/// What a slot holds under one root: its files, where the directory is there, and whether its
/// effect file is.
#[derive(Debug, Clone)]
pub struct SlotListing {
    pub root: String,
    /// The names of the files in the model directory.
    pub model_files: Option<Vec<String>>,
    /// The names of the files in the motion directory.
    pub motion_files: Option<Vec<String>>,
    pub has_effect: bool,
}

/// What a file in the model directory is.
#[derive(Debug, Clone, Copy, PartialEq, Eq, Structural)]
pub enum ModelFile {
    Guide,
    Mesh,
    Texture,
    Other,
}

/// What follows the last dot of a name, or the whole name where there is none.
pub open spec fn last_part(name: Seq<char>) -> Seq<char> {
    split(name, '.').last()
}

/// Whether an extension is that of a mesh file.
pub open spec fn is_mesh(ext: Seq<char>) -> bool {
    ext == "numdlb"@ || ext == "numshb"@ || ext == "numatb"@ || ext == "nusktb"@ || ext
        == "numshexb"@
}

/// What a file in the model directory is, by its name.
pub open spec fn model_file(name: Seq<char>) -> ModelFile {
    let lower = ascii_lower(name);
    if lower == "put_your_model_here.txt"@ {
        ModelFile::Guide
    } else if is_mesh(last_part(lower)) {
        ModelFile::Mesh
    } else if last_part(lower) == "nutexb"@ {
        ModelFile::Texture
    } else {
        ModelFile::Other
    }
}

/// What a file in the model directory is, by its name.
pub fn classify_model_file(name: &str) -> (r: ModelFile)
    ensures
        r == model_file(name@),
{
    let lower = to_ascii_lower(name);
    if same(lower.as_str(), "put_your_model_here.txt") {
        return ModelFile::Guide;
    }
    let parts = split_text(lower.as_str(), '.');
    proof {
        crate::text::lemma_split_nonempty(lower@, '.');
        assert(texts(parts@).len() == parts@.len());
    }
    let ext = parts[parts.len() - 1].as_str();
    assert(ext@ == texts(parts@).last());
    if same(ext, "numdlb") || same(ext, "numshb") || same(ext, "numatb") || same(ext, "nusktb")
        || same(ext, "numshexb") {
        ModelFile::Mesh
    } else if same(ext, "nutexb") {
        ModelFile::Texture
    } else {
        ModelFile::Other
    }
}

/// How many files of a list are of one kind.
pub open spec fn count_files(files: Seq<String>, kind: ModelFile) -> nat
    decreases files.len(),
{
    if files.len() == 0 {
        0
    } else {
        count_files(files.drop_last(), kind) + if model_file(files.last()@) == kind {
            1nat
        } else {
            0
        }
    }
}

/// Whether a list has a motion list.
pub open spec fn lists_motions(files: Seq<String>) -> bool {
    exists|i: int|
        0 <= i < files.len() && ascii_lower(#[trigger] files[i]@) == "motion_list.bin"@
}

/// The files that a directory has; none where there is no directory.
pub open spec fn files_in(files: Option<Vec<String>>) -> Seq<String> {
    match files {
        Some(files) => files@,
        None => Seq::empty(),
    }
}

/// Whether there is a motion list under some root.
pub open spec fn any_motion_list(roots: Seq<SlotListing>) -> bool {
    exists|i: int|
        0 <= i < roots.len() && lists_motions(files_in((#[trigger] roots[i]).motion_files))
}

/// Whether the effect file is there under some root.
pub open spec fn any_effect(roots: Seq<SlotListing>) -> bool {
    exists|i: int| 0 <= i < roots.len() && (#[trigger] roots[i]).has_effect
}

/// The last root that has a model directory.
pub open spec fn last_model_root(roots: Seq<SlotListing>) -> Option<Seq<char>>
    decreases roots.len(),
{
    if roots.len() == 0 {
        None
    } else if roots.last().model_files is Some {
        Some(roots.last().root@)
    } else {
        last_model_root(roots.drop_last())
    }
}

/// The last root that has a motion directory.
pub open spec fn last_motion_root(roots: Seq<SlotListing>) -> Option<Seq<char>>
    decreases roots.len(),
{
    if roots.len() == 0 {
        None
    } else if roots.last().motion_files is Some {
        Some(roots.last().root@)
    } else {
        last_motion_root(roots.drop_last())
    }
}

/// How many files there are under some roots in all.
pub open spec fn file_total(roots: Seq<SlotListing>) -> nat
    decreases roots.len(),
{
    if roots.len() == 0 {
        0
    } else {
        file_total(roots.drop_last()) + files_in(roots.last().model_files).len() + files_in(
            roots.last().motion_files,
        ).len()
    }
}

/// Every file of a model directory is counted as one thing: the guide, a mesh, a texture or
/// something else.
pub proof fn law_every_model_file_is_one_thing(files: Seq<String>)
    ensures
        count_files(files, ModelFile::Guide) + count_files(files, ModelFile::Mesh) + count_files(
            files,
            ModelFile::Texture,
        ) + count_files(files, ModelFile::Other) == files.len(),
    decreases files.len(),
{
    if files.len() > 0 {
        law_every_model_file_is_one_thing(files.drop_last());
    }
}

proof fn lemma_totals_bounded(roots: Seq<SlotListing>)
    ensures
        own_files(roots, true) <= file_total(roots),
        own_files(roots, false) <= file_total(roots),
    decreases roots.len(),
{
    if roots.len() > 0 {
        lemma_totals_bounded(roots.drop_last());
        law_every_model_file_is_one_thing(files_in(roots.last().model_files));
        law_every_model_file_is_one_thing(files_in(roots.last().motion_files));
    }
}

proof fn lemma_file_total_grows(roots: Seq<SlotListing>, i: int)
    requires
        0 <= i <= roots.len(),
    ensures
        file_total(roots.take(i)) <= file_total(roots),
    decreases roots.len() - i,
{
    if i < roots.len() {
        assert(roots.take(i + 1).drop_last() =~= roots.take(i));
        lemma_file_total_grows(roots, i + 1);
    } else {
        assert(roots.take(i) =~= roots);
    }
}

fn count_model_files(files: &Vec<String>, kind: ModelFile) -> (r: usize)
    ensures
        r == count_files(files@, kind),
        r <= files@.len(),
{
    let mut r: usize = 0;
    let mut i: usize = 0;
    assert(files@.take(0) =~= Seq::empty());
    while i < files.len()
        invariant
            r <= i <= files.len(),
            r == count_files(files@.take(i as int), kind),
        decreases files.len() - i,
    {
        assert(files@.take(i + 1).drop_last() =~= files@.take(i as int));
        if classify_model_file(files[i].as_str()) == kind {
            r = r + 1;
        }
        i = i + 1;
    }
    assert(files@.take(files@.len() as int) =~= files@);
    r
}

fn has_motion_list(files: &Vec<String>) -> (r: bool)
    ensures
        r == lists_motions(files@),
{
    let mut i: usize = 0;
    while i < files.len()
        invariant
            i <= files.len(),
            forall|j: int|
                0 <= j < i ==> ascii_lower(#[trigger] files@[j]@) != "motion_list.bin"@,
        decreases files.len() - i,
    {
        let lower = to_ascii_lower(files[i].as_str());
        if same(lower.as_str(), "motion_list.bin") {
            assert(ascii_lower(files@[i as int]@) == "motion_list.bin"@);
            return true;
        }
        i = i + 1;
    }
    false
}

/// What one costume slot holds, by kind, and where it stands.
#[derive(Debug, Clone, Default, PartialEq)]
pub struct SlotInventory {
    /// Mesh files in the model directory.
    pub meshes: usize,
    /// Textures in the model directory.
    pub textures: usize,
    /// Other files in the model directory, the guide aside.
    pub other_model: usize,
    /// Animations in the motion directory.
    pub anims: usize,
    pub has_motion_list: bool,
    pub has_effect: bool,
    pub has_portrait: bool,
    /// The directories to open. A later root comes before an earlier one: it is the mod that one
    /// would edit, not the game data under it.
    pub model_dir: Option<String>,
    pub motion_dir: Option<String>,
}

/// Whether a directory is the one of a root.
pub open spec fn dir_of(dir: Option<String>, root: Option<Seq<char>>, rest: Seq<char>) -> bool {
    match (dir, root) {
        (Some(dir), Some(root)) => dir@ == joined(root, rest),
        (None, None) => true,
        _ => false,
    }
}

/// The files of a slot that are counted by themselves.
#[derive(Debug, Clone, Copy, PartialEq, Eq, Structural)]
pub enum SlotFile {
    Mesh,
    Texture,
    /// A file in the model directory that is neither, the guide aside.
    Other,
    Animation,
}

/// Whether a file counts as of a kind, by its name.
pub open spec fn counts_as(name: Seq<char>, kind: SlotFile) -> bool {
    match kind {
        SlotFile::Mesh => model_file(name) == ModelFile::Mesh,
        SlotFile::Texture => model_file(name) == ModelFile::Texture,
        SlotFile::Other => model_file(name) == ModelFile::Other,
        SlotFile::Animation => ends_with(ascii_lower(name), ".nuanmb"@),
    }
}

fn is_of_kind(name: &str, kind: SlotFile) -> (r: bool)
    ensures
        r == counts_as(name@, kind),
{
    match kind {
        SlotFile::Mesh => classify_model_file(name) == ModelFile::Mesh,
        SlotFile::Texture => classify_model_file(name) == ModelFile::Texture,
        SlotFile::Other => classify_model_file(name) == ModelFile::Other,
        SlotFile::Animation => {
            let lower = to_ascii_lower(name);
            has_suffix(lower.as_str(), ".nuanmb")
        },
    }
}

/// The names in the directory that a kind of file stands in.
pub open spec fn names_for(listing: SlotListing, kind: SlotFile) -> Seq<Seq<char>> {
    texts(
        files_in(
            if kind == SlotFile::Animation {
                listing.motion_files
            } else {
                listing.model_files
            },
        ),
    )
}

/// The names of the files of a kind under some roots. A file that stands under two roots has one
/// name, and is one file to the game.
pub open spec fn slot_names(roots: Seq<SlotListing>, kind: SlotFile) -> Set<Seq<char>> {
    Set::new(
        |name: Seq<char>|
            counts_as(name, kind) && exists|i: int|
                0 <= i < roots.len() && names_for(#[trigger] roots[i], kind).contains(name),
    )
}

fn add_names(names: &mut Vec<String>, files: &Vec<String>, kind: SlotFile)
    requires
        ascending(texts(old(names)@)),
    ensures
        ascending(texts(final(names)@)),
        forall|name: Seq<char>| #[trigger]
            texts(final(names)@).to_set().contains(name) == (texts(old(names)@).to_set().contains(
                name,
            ) || (counts_as(name, kind) && texts(files@).contains(name))),
{
    let ghost first = texts(names@).to_set();
    let ghost all = texts(files@);
    let mut i: usize = 0;
    while i < files.len()
        invariant
            i <= files.len(),
            all == texts(files@),
            ascending(texts(names@)),
            forall|name: Seq<char>| #[trigger]
                texts(names@).to_set().contains(name) == (first.contains(name) || (counts_as(
                    name,
                    kind,
                ) && exists|j: int| 0 <= j < i && #[trigger] all[j] == name)),
        decreases files.len() - i,
    {
        let ghost was = texts(names@).to_set();
        let ghost here = all[i as int];
        if is_of_kind(files[i].as_str(), kind) {
            insert_ascending(names, files[i].as_str());
        }
        assert forall|name: Seq<char>| #[trigger]
            texts(names@).to_set().contains(name) == (first.contains(name) || (counts_as(
                name,
                kind,
            ) && exists|j: int| 0 <= j < i + 1 && #[trigger] all[j] == name)) by {
            assert(was.contains(name) == (first.contains(name) || (counts_as(name, kind)
                && exists|j: int| 0 <= j < i && #[trigger] all[j] == name)));
            if name == here {
                assert(all[i as int] == name);
            }
        }
        i = i + 1;
    }
    assert forall|name: Seq<char>| #[trigger]
        texts(names@).to_set().contains(name) == (first.contains(name) || (counts_as(name, kind)
            && all.contains(name))) by {
        if all.contains(name) {
            let j = all.index_of(name);
            assert(all[j] == name);
        }
    }
}

/// How many files of a kind there are under some roots, each name once.
fn count_names(roots: &Vec<SlotListing>, kind: SlotFile) -> (r: usize)
    ensures
        slot_names(roots@, kind).finite(),
        r == slot_names(roots@, kind).len(),
{
    let mut names: Vec<String> = Vec::new();
    let mut i: usize = 0;
    assert(texts(names@).to_set() =~= slot_names(roots@.take(0), kind));
    while i < roots.len()
        invariant
            i <= roots.len(),
            ascending(texts(names@)),
            texts(names@).to_set() == slot_names(roots@.take(i as int), kind),
        decreases roots.len() - i,
    {
        let ghost was = roots@.take(i as int);
        let ghost now = roots@.take(i + 1);
        let ghost before_names = texts(names@).to_set();
        let listing = &roots[i];
        let files = match kind {
            SlotFile::Animation => &listing.motion_files,
            _ => &listing.model_files,
        };
        if let Some(files) = files {
            add_names(&mut names, files, kind);
        }
        proof {
            assert(now[i as int] == *listing);
            assert forall|name: Seq<char>|
                texts(names@).to_set().contains(name) == slot_names(now, kind).contains(name) by {
                assert(texts(names@).to_set().contains(name) == (before_names.contains(name) || (
                counts_as(name, kind) && names_for(*listing, kind).contains(name))));
                if before_names.contains(name) {
                    let j = choose|j: int|
                        0 <= j < was.len() && names_for(#[trigger] was[j], kind).contains(name);
                    assert(names_for(now[j], kind).contains(name));
                }
                if names_for(*listing, kind).contains(name) {
                    assert(names_for(now[i as int], kind).contains(name));
                }
                if slot_names(now, kind).contains(name) {
                    let j = choose|j: int|
                        0 <= j < now.len() && names_for(#[trigger] now[j], kind).contains(name);
                    if j < i {
                        assert(names_for(was[j], kind).contains(name));
                    }
                }
            }
            assert(texts(names@).to_set() =~= slot_names(now, kind));
        }
        i = i + 1;
    }
    assert(roots@.take(roots@.len() as int) =~= roots@);
    proof {
        let list = texts(names@);
        assert forall|a: int, b: int|
            0 <= a < list.len() && 0 <= b < list.len() && a != b implies list[a] != list[b] by {
            lemma_before_total(list[a], list[a]);
            if a < b {
                assert(before(list[a], list[b]));
            } else {
                assert(before(list[b], list[a]));
            }
        }
        list.unique_seq_to_set();
    }
    names.len()
}

fn find_effect(roots: &Vec<SlotListing>) -> (r: bool)
    ensures
        r == any_effect(roots@),
{
    let mut i: usize = 0;
    while i < roots.len()
        invariant
            i <= roots.len(),
            forall|j: int| 0 <= j < i ==> !(#[trigger] roots@[j]).has_effect,
        decreases roots.len() - i,
    {
        if roots[i].has_effect {
            assert(roots@[i as int].has_effect);
            return true;
        }
        i = i + 1;
    }
    false
}

/// What a slot of a donor holds under the roots. The counts are of all roots together: a file that
/// stands under two of them is counted once.
pub fn inventory(roots: &Vec<SlotListing>, donor: &str, slot: u8, has_portrait: bool) -> (r:
    SlotInventory)
    ensures
        slot_names(roots@, SlotFile::Mesh).finite(),
        slot_names(roots@, SlotFile::Texture).finite(),
        slot_names(roots@, SlotFile::Other).finite(),
        slot_names(roots@, SlotFile::Animation).finite(),
        r.meshes == slot_names(roots@, SlotFile::Mesh).len(),
        r.textures == slot_names(roots@, SlotFile::Texture).len(),
        r.other_model == slot_names(roots@, SlotFile::Other).len(),
        r.anims == slot_names(roots@, SlotFile::Animation).len(),
        r.has_motion_list == any_motion_list(roots@),
        r.has_effect == any_effect(roots@),
        r.has_portrait == has_portrait,
        dir_of(r.model_dir, last_model_root(roots@), model_dir(donor@, slot)),
        dir_of(r.motion_dir, last_motion_root(roots@), motion_dir(donor@, slot)),
{
    let mut motion_list = false;
    let mut model: Option<String> = None;
    let mut motion: Option<String> = None;
    let model_rest = model_dir_text(donor, slot);
    let motion_rest = motion_dir_text(donor, slot);
    let mut i: usize = 0;
    assert(roots@.take(0) =~= Seq::empty());
    while i < roots.len()
        invariant
            i <= roots.len(),
            model_rest@ == model_dir(donor@, slot),
            motion_rest@ == motion_dir(donor@, slot),
            motion_list == any_motion_list(roots@.take(i as int)),
            dir_of(model, last_model_root(roots@.take(i as int)), model_dir(donor@, slot)),
            dir_of(motion, last_motion_root(roots@.take(i as int)), motion_dir(donor@, slot)),
        decreases roots.len() - i,
    {
        let ghost was = roots@.take(i as int);
        let ghost now = roots@.take(i + 1);
        assert(now.drop_last() =~= was);
        let listing = &roots[i];
        assert(now.last() == *listing);
        let mut lists = false;
        if listing.model_files.is_some() {
            model = Some(join_path(listing.root.as_str(), model_rest.as_str()));
        }
        if let Some(files) = &listing.motion_files {
            lists = has_motion_list(files);
            motion = Some(join_path(listing.root.as_str(), motion_rest.as_str()));
        }
        assert(lists == lists_motions(files_in(listing.motion_files)));
        proof {
            lemma_any_grows(was, now);
        }
        motion_list = motion_list || lists;
        i = i + 1;
    }
    assert(roots@.take(roots@.len() as int) =~= roots@);
    SlotInventory {
        meshes: count_names(roots, SlotFile::Mesh),
        textures: count_names(roots, SlotFile::Texture),
        other_model: count_names(roots, SlotFile::Other),
        anims: count_names(roots, SlotFile::Animation),
        has_motion_list: motion_list,
        has_effect: find_effect(roots),
        has_portrait,
        model_dir: model,
        motion_dir: motion,
    }
}

proof fn lemma_any_grows(was: Seq<SlotListing>, now: Seq<SlotListing>)
    requires
        now.len() > 0,
        was == now.drop_last(),
    ensures
        any_motion_list(now) == (any_motion_list(was) || lists_motions(
            files_in(now.last().motion_files),
        )),
        any_effect(now) == (any_effect(was) || now.last().has_effect),
{
    assert forall|j: int| 0 <= j < was.len() implies now[j] == was[j] by {}
    if any_motion_list(was) {
        let j = choose|j: int|
            0 <= j < was.len() && lists_motions(files_in((#[trigger] was[j]).motion_files));
        assert(lists_motions(files_in(now[j].motion_files)));
    }
    if lists_motions(files_in(now.last().motion_files)) {
        assert(lists_motions(files_in(now[now.len() - 1].motion_files)));
    }
    if any_motion_list(now) {
        let j = choose|j: int|
            0 <= j < now.len() && lists_motions(files_in((#[trigger] now[j]).motion_files));
        if j < was.len() {
            assert(lists_motions(files_in(was[j].motion_files)));
        }
    }
    if any_effect(was) {
        let j = choose|j: int| 0 <= j < was.len() && (#[trigger] was[j]).has_effect;
        assert(now[j].has_effect);
    }
    if now.last().has_effect {
        assert(now[now.len() - 1].has_effect);
    }
    if any_effect(now) {
        let j = choose|j: int| 0 <= j < now.len() && (#[trigger] now[j]).has_effect;
        if j < was.len() {
            assert(was[j].has_effect);
        }
    }
}

/// How many files there are under some roots in the model directory, or else in the motion
/// directory, the guide aside.
pub open spec fn own_files(roots: Seq<SlotListing>, model: bool) -> nat
    decreases roots.len(),
{
    if roots.len() == 0 {
        0
    } else {
        let files = if model {
            files_in(roots.last().model_files)
        } else {
            files_in(roots.last().motion_files)
        };
        own_files(roots.drop_last(), model) + (files.len() - count_files(
            files,
            ModelFile::Guide,
        )) as nat
    }
}

/// What an authored slot has under the roots.
pub fn measure(roots: &Vec<SlotListing>, has_name: bool) -> (r: Readiness)
    requires
        file_total(roots@) <= usize::MAX,
    ensures
        r.model_files == own_files(roots@, true),
        r.motion_files == own_files(roots@, false),
        r.has_motion_list == any_motion_list(roots@),
        r.has_effect == any_effect(roots@),
        r.has_name == has_name,
        r.authored_moves == 0,
        r.registered_moves == 0,
{
    let mut model_files: usize = 0;
    let mut motion_files: usize = 0;
    let mut motion_list = false;
    let mut effect = false;
    let mut i: usize = 0;
    assert(roots@.take(0) =~= Seq::empty());
    while i < roots.len()
        invariant
            i <= roots.len(),
            file_total(roots@) <= usize::MAX,
            model_files == own_files(roots@.take(i as int), true),
            motion_files == own_files(roots@.take(i as int), false),
            motion_list == any_motion_list(roots@.take(i as int)),
            effect == any_effect(roots@.take(i as int)),
        decreases roots.len() - i,
    {
        let ghost was = roots@.take(i as int);
        let ghost now = roots@.take(i + 1);
        proof {
            assert(now.drop_last() =~= was);
            lemma_totals_bounded(now);
            lemma_file_total_grows(roots@, i + 1);
        }
        let listing = &roots[i];
        assert(now.last() == *listing);
        let mut lists = false;
        if let Some(files) = &listing.model_files {
            model_files = model_files + (files.len() - count_model_files(files, ModelFile::Guide));
        }
        if let Some(files) = &listing.motion_files {
            motion_files = motion_files + (files.len() - count_model_files(files, ModelFile::Guide));
            lists = has_motion_list(files);
        }
        assert(lists == lists_motions(files_in(listing.motion_files)));
        proof {
            lemma_any_grows(was, now);
        }
        motion_list = motion_list || lists;
        effect = effect || listing.has_effect;
        i = i + 1;
    }
    assert(roots@.take(roots@.len() as int) =~= roots@);
    Readiness {
        model_files,
        motion_files,
        has_motion_list: motion_list,
        has_effect: effect,
        has_name,
        authored_moves: 0,
        registered_moves: 0,
    }
}

/// A slot's directories are of its fighter, in lower case, and of its own number: two slots share
/// neither a model nor a motion directory nor an effect file, and the guide stands in the model
/// directory.
pub proof fn law_slots_have_places_of_their_own(donor: Seq<char>, a: u8, b: u8)
    requires
        a != b,
    ensures
        model_dir(donor, a) != model_dir(donor, b),
        motion_dir(donor, a) != motion_dir(donor, b),
        effect_path(donor, a) != effect_path(donor, b),
        model_dir(donor, a) != motion_dir(donor, a),
        starts_with(model_dir(donor, a), "fighter/"@ + ascii_lower(donor) + "/model/"@),
        starts_with(motion_dir(donor, a), "fighter/"@ + ascii_lower(donor) + "/motion/"@),
        starts_with(effect_path(donor, a), "effect/fighter/"@ + ascii_lower(donor) + "/"@),
        starts_with(guide_path(donor, a), model_dir(donor, a)),
        digits_u8(
            model_dir(donor, a).skip(
                ("fighter/"@ + ascii_lower(donor) + "/model/body/c"@).len() as int,
            ),
        ) == Some(a),
        digits_u8(
            motion_dir(donor, a).skip(
                ("fighter/"@ + ascii_lower(donor) + "/motion/body/c"@).len() as int,
            ),
        ) == Some(a),
{
    lemma_two_digits_reads_back(a as nat);
    lemma_two_digits_reads_back(b as nat);
    reveal_strlit("fighter/");
    reveal_strlit("/model/body/c");
    reveal_strlit("/motion/body/c");
    reveal_strlit("/model/");
    reveal_strlit("/motion/");
    reveal_strlit("/");
    reveal_strlit("/ef_");
    let d = ascii_lower(donor);
    let m = "fighter/"@ + d + "/model/body/c"@;
    let n = "fighter/"@ + d + "/motion/body/c"@;
    assert(model_dir(donor, a).skip(m.len() as int) =~= two_digits(a as nat));
    assert(model_dir(donor, b).skip(m.len() as int) =~= two_digits(b as nat));
    assert(motion_dir(donor, a).skip(n.len() as int) =~= two_digits(a as nat));
    assert(motion_dir(donor, b).skip(n.len() as int) =~= two_digits(b as nat));
    let e = "effect/fighter/"@ + d + "/ef_"@ + d + "_c"@;
    let x = effect_path(donor, a);
    let y = effect_path(donor, b);
    assert(x.subrange(e.len() as int, x.len() - ".eff"@.len()) =~= two_digits(a as nat));
    assert(y.subrange(e.len() as int, y.len() - ".eff"@.len()) =~= two_digits(b as nat));
    let at: int = 8 + d.len() as int + 3;
    assert(model_dir(donor, a)[at] == 'd' && motion_dir(donor, a)[at] == 't');
    let p = "fighter/"@ + d + "/model/"@;
    assert(model_dir(donor, a).subrange(0, p.len() as int) =~= p);
    let q = "fighter/"@ + d + "/motion/"@;
    assert(motion_dir(donor, a).subrange(0, q.len() as int) =~= q);
    let r = "effect/fighter/"@ + d + "/"@;
    assert(x.subrange(0, r.len() as int) =~= r);
    assert(guide_path(donor, a).subrange(0, model_dir(donor, a).len() as int) =~= model_dir(
        donor,
        a,
    ));
}

/// A list with more keeps what it had, in front and in order, has all of what was added, has nothing
/// else, and has nothing twice that it did not have twice before.
pub proof fn law_adding_adds_what_is_new(list: Seq<Seq<char>>, more: Seq<Seq<char>>)
    ensures
        forall|p: Seq<char>| #[trigger]
            with_new(list, more).contains(p) <==> list.contains(p) || more.contains(p),
        with_new(list, more).len() >= list.len(),
        with_new(list, more).take(list.len() as int) == list,
        list.no_duplicates() ==> with_new(list, more).no_duplicates(),
    decreases more.len(),
{
    if more.len() == 0 {
        assert(list.take(list.len() as int) =~= list);
    } else {
        let less = more.drop_last();
        law_adding_adds_what_is_new(list, less);
        let front = with_new(list, less);
        let all = with_new(list, more);
        assert forall|p: Seq<char>| more.contains(p) <==> less.contains(p) || p == more.last() by {
            if less.contains(p) {
                let i = choose|i: int| 0 <= i < less.len() && less[i] == p;
                assert(more[i] == p);
            }
            if p == more.last() {
                assert(more[more.len() - 1] == p);
            }
            if more.contains(p) && p != more.last() {
                let i = choose|i: int| 0 <= i < more.len() && more[i] == p;
                assert(less[i] == p);
            }
        }
        assert forall|p: Seq<char>| #[trigger]
            all.contains(p) <==> front.contains(p) || p == more.last() by {
            if front.contains(p) {
                let i = choose|i: int| 0 <= i < front.len() && front[i] == p;
                assert(all[i] == p);
            }
            if p == more.last() && !front.contains(p) {
                assert(all[front.len() as int] == p);
            }
            if all.contains(p) && !front.contains(p) {
                let i = choose|i: int| 0 <= i < all.len() && all[i] == p;
                if i < front.len() {
                    assert(front[i] == p);
                }
            }
        }
        assert(all.take(list.len() as int) =~= front.take(list.len() as int));
    }
}

/// Every slot gets its model directory, its motion directory and the effect directory of its
/// fighter, and making it creates its guide as well.
pub proof fn law_every_slot_gets_its_directories(donor: Seq<char>, slots: Seq<u8>, i: int)
    requires
        0 <= i < slots.len(),
    ensures
        dirs_of_slots(donor, slots).no_duplicates(),
        dirs_of_slots(donor, slots).contains(model_dir(donor, slots[i])),
        dirs_of_slots(donor, slots).contains(motion_dir(donor, slots[i])),
        dirs_of_slots(donor, slots).contains(effect_dir(donor)),
        created_for(donor, slots).contains(model_dir(donor, slots[i])),
        created_for(donor, slots).contains(motion_dir(donor, slots[i])),
        created_for(donor, slots).contains(effect_dir(donor)),
        created_for(donor, slots).contains(model_dir(donor, slots[i]) + "/PUT_YOUR_MODEL_HERE.txt"@),
    decreases slots.len(),
{
    let front = slots.drop_last();
    let dirs = slot_dirs(donor, slots.last());
    law_adding_adds_what_is_new(dirs_of_slots(donor, front), dirs);
    law_adding_adds_what_is_new(created_for(donor, front), dirs);
    if front.len() > 0 {
        law_every_slot_gets_its_directories(donor, front, if i < front.len() {
            i
        } else {
            0
        });
    }
    assert(dirs[0] == model_dir(donor, slots.last()));
    assert(dirs[1] == motion_dir(donor, slots.last()));
    assert(dirs[2] == effect_dir(donor));
    let made = with_new(created_for(donor, front), dirs);
    let all = created_for(donor, slots);
    assert forall|p: Seq<char>| made.contains(p) implies all.contains(p) by {
        let k = choose|k: int| 0 <= k < made.len() && made[k] == p;
        assert(all[k] == p);
    }
    assert(all[made.len() as int] == guide_path(donor, slots.last()));
    assert(dirs.contains(model_dir(donor, slots.last())));
    assert(dirs.contains(motion_dir(donor, slots.last())));
    assert(dirs.contains(effect_dir(donor)));
}

/// What remains of some moves are those that were not written, each in its place behind the others
/// that remain; so nothing remains where all were written, and all where none was.
pub proof fn law_moves_that_were_not_written_remain(
    moves: Seq<Seq<char>>,
    authored: Seq<Seq<char>>,
)
    ensures
        forall|m: Seq<char>| #[trigger]
            not_among(moves, authored).contains(m) <==> moves.contains(m) && !authored.contains(m),
        (forall|i: int| 0 <= i < moves.len() ==> authored.contains(#[trigger] moves[i]))
            ==> not_among(moves, authored).len() == 0,
        (forall|i: int| 0 <= i < moves.len() ==> !authored.contains(#[trigger] moves[i]))
            ==> not_among(moves, authored) == moves,
    decreases moves.len(),
{
    let all = not_among(moves, authored);
    if moves.len() == 0 {
        assert(all =~= moves);
    } else {
        let front = moves.drop_last();
        law_moves_that_were_not_written_remain(front, authored);
        let was = not_among(front, authored);
        assert forall|m: Seq<char>| #[trigger]
            all.contains(m) <==> moves.contains(m) && !authored.contains(m) by {
            assert(moves.contains(m) <==> front.contains(m) || m == moves.last()) by {
                if front.contains(m) {
                    let i = choose|i: int| 0 <= i < front.len() && front[i] == m;
                    assert(moves[i] == m);
                }
                if m == moves.last() {
                    assert(moves[moves.len() - 1] == m);
                }
                if moves.contains(m) && m != moves.last() {
                    let i = choose|i: int| 0 <= i < moves.len() && moves[i] == m;
                    assert(front[i] == m);
                }
            }
            if was.contains(m) {
                let i = choose|i: int| 0 <= i < was.len() && was[i] == m;
                assert(all[i] == m);
            }
            if m == moves.last() && !authored.contains(m) {
                assert(all[was.len() as int] == m);
            }
            if all.contains(m) {
                let i = choose|i: int| 0 <= i < all.len() && all[i] == m;
                if i < was.len() {
                    assert(was[i] == m);
                }
            }
        }
        assert(authored.contains(moves[moves.len() - 1]) == authored.contains(moves.last()));
        if forall|i: int| 0 <= i < moves.len() ==> authored.contains(#[trigger] moves[i]) {
            assert forall|i: int| 0 <= i < front.len() implies authored.contains(
                #[trigger] front[i],
            ) by {
                assert(moves[i] == front[i]);
            }
        }
        if forall|i: int| 0 <= i < moves.len() ==> !authored.contains(#[trigger] moves[i]) {
            assert forall|i: int| 0 <= i < front.len() implies !authored.contains(
                #[trigger] front[i],
            ) by {
                assert(moves[i] == front[i]);
            }
            assert(all =~= moves);
        }
    }
}

/// Nothing is noted exactly where the slot has a model, animations with a list of them, a name, and
/// every move that was written is registered; each thing that is missing is noted once.
pub proof fn law_a_note_for_each_missing_thing(r: Readiness)
    ensures
        r.notes().len() == 0 <==> r.model_files > 0 && r.motion_files > 0 && r.has_motion_list
            && r.has_name && r.registered_moves >= r.authored_moves,
        r.notes().len() == (if r.model_files == 0 {
            1int
        } else {
            0
        }) + (if r.motion_files == 0 || !r.has_motion_list {
            1int
        } else {
            0
        }) + (if r.registered_moves < r.authored_moves {
            1int
        } else {
            0
        }) + (if r.has_name {
            0int
        } else {
            1
        }),
{
}

proof fn lemma_last_part(base: Seq<char>, ext: Seq<char>)
    requires
        !ext.contains('.'),
    ensures
        last_part(base.push('.') + ext) == ext,
{
    lemma_split_append(base.push('.'), ext, '.');
    assert(base.push('.').drop_last() =~= base);
    let was = split(base.push('.'), '.');
    assert(was == split(base, '.').push(Seq::empty()));
    assert(was.last() + ext =~= ext);
}

proof fn lemma_lower_with_extension(base: Seq<char>, ext: Seq<char>)
    requires
        ascii_lower(ext) == ext,
    ensures
        ascii_lower(base.push('.') + ext) == ascii_lower(base).push('.') + ext,
{
    assert forall|i: int| 0 <= i < ext.len() implies #[trigger] ext[i] == lower_char(ext[i]) by {
        assert(ascii_lower(ext)[i] == ext[i]);
    }
    assert(ascii_lower(base.push('.') + ext) =~= ascii_lower(base).push('.') + ext);
}

/// A file of a model directory is known by what follows its last dot: the five kinds of model files
/// are meshes, the one kind of texture a texture, whatever the name before it and its case.
pub proof fn law_model_files_are_known_by_their_extension(base: Seq<char>)
    ensures
        model_file(base.push('.') + "numdlb"@) == ModelFile::Mesh,
        model_file(base.push('.') + "numshb"@) == ModelFile::Mesh,
        model_file(base.push('.') + "numatb"@) == ModelFile::Mesh,
        model_file(base.push('.') + "nusktb"@) == ModelFile::Mesh,
        model_file(base.push('.') + "numshexb"@) == ModelFile::Mesh,
        model_file(base.push('.') + "nutexb"@) == ModelFile::Texture,
        model_file(base.push('.') + "nuanmb"@) == ModelFile::Other,
        model_file(ascii_lower(base)) == model_file(base),
        model_file("PUT_YOUR_MODEL_HERE.txt"@) == ModelFile::Guide,
{
    reveal_strlit("numdlb");
    reveal_strlit("numshb");
    reveal_strlit("numatb");
    reveal_strlit("nusktb");
    reveal_strlit("numshexb");
    reveal_strlit("nutexb");
    reveal_strlit("nuanmb");
    reveal_strlit("put_your_model_here.txt");
    reveal_strlit("PUT_YOUR_MODEL_HERE.txt");
    let guide = "put_your_model_here.txt"@;
    lemma_known_extension(base, "numdlb"@);
    lemma_known_extension(base, "numshb"@);
    lemma_known_extension(base, "numatb"@);
    lemma_known_extension(base, "nusktb"@);
    lemma_known_extension(base, "numshexb"@);
    lemma_known_extension(base, "nutexb"@);
    lemma_known_extension(base, "nuanmb"@);
    assert("nutexb"@[2] != "numdlb"@[2] && "nutexb"@[2] != "numshb"@[2] && "nutexb"@[2]
        != "numatb"@[2] && "nutexb"@[2] != "nusktb"@[2] && "nutexb"@[2] != "numshexb"@[2]);
    assert("nuanmb"@[2] != "numdlb"@[2] && "nuanmb"@[2] != "numshb"@[2] && "nuanmb"@[2]
        != "numatb"@[2] && "nuanmb"@[2] != "nusktb"@[2] && "nuanmb"@[2] != "numshexb"@[2]
        && "nuanmb"@[2] != "nutexb"@[2]);
    assert(ascii_lower(ascii_lower(base)) =~= ascii_lower(base)) by {
        if base.len() > 0 {
            law_lowering_changes_capitals_alone(base, 0);
        }
    }
    assert(ascii_lower("PUT_YOUR_MODEL_HERE.txt"@) =~= guide);
}

proof fn lemma_known_extension(base: Seq<char>, ext: Seq<char>)
    requires
        ext.len() > 0,
        forall|i: int| 0 <= i < ext.len() ==> 'a' <= #[trigger] ext[i] && ext[i] <= 'z',
        ext.last() == 'b',
    ensures
        last_part(ascii_lower(base.push('.') + ext)) == ext,
        ascii_lower(base.push('.') + ext) != "put_your_model_here.txt"@,
{
    reveal_strlit("put_your_model_here.txt");
    assert(ascii_lower(ext) =~= ext);
    lemma_lower_with_extension(base, ext);
    assert forall|i: int| 0 <= i < ext.len() implies ext[i] != '.' by {}
    lemma_last_part(ascii_lower(base), ext);
    let whole = ascii_lower(base).push('.') + ext;
    assert(whole.last() == 'b');
    assert("put_your_model_here.txt"@.last() == 't');
}

/// One more file adds one to the files of its kind, and to no other.
pub proof fn law_files_are_counted_by_kind(files: Seq<String>, more: String, kind: ModelFile)
    ensures
        count_files(files.push(more), kind) == count_files(files, kind) + (if model_file(more@)
            == kind {
            1nat
        } else {
            0
        }),
        count_files(Seq::empty(), kind) == 0,
{
    assert(files.push(more).drop_last() =~= files);
}

/// The directory that is opened is under the last root that has one.
pub proof fn law_the_last_root_with_a_directory_counts(roots: Seq<SlotListing>, i: int)
    requires
        0 <= i < roots.len(),
    ensures
        roots[i].model_files is Some && (forall|j: int|
            i < j < roots.len() ==> (#[trigger] roots[j]).model_files is None) ==> last_model_root(
            roots,
        ) == Some(roots[i].root@),
        roots[i].motion_files is Some && (forall|j: int|
            i < j < roots.len() ==> (#[trigger] roots[j]).motion_files is None)
            ==> last_motion_root(roots) == Some(roots[i].root@),
        roots[i].model_files is Some ==> last_model_root(roots) is Some,
        roots[i].motion_files is Some ==> last_motion_root(roots) is Some,
    decreases roots.len(),
{
    let front = roots.drop_last();
    let n = roots.len() - 1;
    assert(roots[n] == roots.last());
    if i < n {
        law_the_last_root_with_a_directory_counts(front, i);
        assert(front[i] == roots[i]);
        if forall|j: int| i < j < roots.len() ==> (#[trigger] roots[j]).model_files is None {
            assert forall|j: int| i < j < front.len() implies (
            #[trigger] front[j]).model_files is None by {
                assert(front[j] == roots[j]);
            }
            assert(roots[n].model_files is None);
        }
        if forall|j: int| i < j < roots.len() ==> (#[trigger] roots[j]).motion_files is None {
            assert forall|j: int| i < j < front.len() implies (
            #[trigger] front[j]).motion_files is None by {
                assert(front[j] == roots[j]);
            }
            assert(roots[n].motion_files is None);
        }
    }
}

/// The files under some roots are those of each root, and a slot's own are those but for guides: a
/// directory that holds nothing but its guide has none.
pub proof fn law_guides_are_not_counted(roots: Seq<SlotListing>, more: SlotListing)
    ensures
        file_total(roots.push(more)) == file_total(roots) + files_in(more.model_files).len()
            + files_in(more.motion_files).len(),
        own_files(roots.push(more), true) + count_files(
            files_in(more.model_files),
            ModelFile::Guide,
        ) == own_files(roots, true) + files_in(more.model_files).len(),
        own_files(roots.push(more), false) + count_files(
            files_in(more.motion_files),
            ModelFile::Guide,
        ) == own_files(roots, false) + files_in(more.motion_files).len(),
        own_files(Seq::empty(), true) == 0,
        own_files(Seq::empty(), false) == 0,
        file_total(Seq::empty()) == 0,
{
    assert(roots.push(more).drop_last() =~= roots);
    law_every_model_file_is_one_thing(files_in(more.model_files));
    law_every_model_file_is_one_thing(files_in(more.motion_files));
}

/// A file counts as an animation by the end of its name, and is sought among the motions; meshes,
/// textures and other files are sought among the model's.
pub proof fn law_animations_are_sought_among_the_motions(listing: SlotListing, base: Seq<char>)
    ensures
        counts_as(base + ".nuanmb"@, SlotFile::Animation),
        names_for(listing, SlotFile::Animation) == texts(files_in(listing.motion_files)),
        names_for(listing, SlotFile::Mesh) == texts(files_in(listing.model_files)),
        names_for(listing, SlotFile::Texture) == texts(files_in(listing.model_files)),
        names_for(listing, SlotFile::Other) == texts(files_in(listing.model_files)),
{
    reveal_strlit(".nuanmb");
    let whole = ascii_lower(base + ".nuanmb"@);
    assert(whole.subrange(whole.len() - 7, whole.len() as int) =~= ".nuanmb"@);
}

/// A character is made exactly where it has a donor and a slot; its slots ascend, each once, the
/// first of them is its own, and everything it needs is made.
pub proof fn law_a_character_needs_a_donor_and_a_slot(
    donor: &str,
    slots: &[u8],
    r: Result<Scaffold, String>,
    i: int,
)
    requires
        call_ensures(create_many, (donor, slots), r),
        0 <= i < slots@.len(),
    ensures
        r is Ok <==> trimmed(donor@).len() > 0,
        r is Ok ==> r->Ok_0.slots@.contains(slots@[i]) && r->Ok_0.slot <= slots@[i]
            && r->Ok_0.donor@ == ascii_lower(donor@),
        r is Ok ==> texts(r->Ok_0.created@).contains(model_dir(donor@, slots@[i])) && texts(
            r->Ok_0.created@,
        ).contains(motion_dir(donor@, slots@[i])),
{
    law_slots_ascend(slots@, 256);
    let all = distinct_slots(slots@);
    assert(slots@.contains(slots@[i]));
    assert(all.contains(slots@[i]));
    let k = choose|k: int| 0 <= k < all.len() && all[k] == slots@[i];
    if k > 0 {
        assert(all[0] < all[k]);
    }
    law_every_slot_gets_its_directories(donor@, all, k);
}

/// A file counts once under its name, however many roots have it, and the guide counts as nothing.
pub proof fn law_a_file_counts_once_by_name(
    roots: Seq<SlotListing>,
    more: SlotListing,
    kind: SlotFile,
    name: Seq<char>,
)
    ensures
        slot_names(roots.push(more), kind).contains(name) <==> slot_names(roots, kind).contains(
            name,
        ) || (counts_as(name, kind) && names_for(more, kind).contains(name)),
        !slot_names(roots, SlotFile::Mesh).contains("PUT_YOUR_MODEL_HERE.txt"@),
        !slot_names(roots, SlotFile::Texture).contains("PUT_YOUR_MODEL_HERE.txt"@),
        !slot_names(roots, SlotFile::Other).contains("PUT_YOUR_MODEL_HERE.txt"@),
{
    law_model_files_are_known_by_their_extension(Seq::empty());
    let all = roots.push(more);
    if exists|i: int| 0 <= i < roots.len() && names_for(#[trigger] roots[i], kind).contains(name) {
        let i = choose|i: int|
            0 <= i < roots.len() && names_for(#[trigger] roots[i], kind).contains(name);
        assert(all[i] == roots[i]);
    }
    assert(all[roots.len() as int] == more);
    if exists|i: int| 0 <= i < all.len() && names_for(#[trigger] all[i], kind).contains(name) {
        let i = choose|i: int|
            0 <= i < all.len() && names_for(#[trigger] all[i], kind).contains(name);
        if i < roots.len() {
            assert(roots[i] == all[i]);
        }
    }
}

/// There is a motion list, or an effect, where one of the roots has it.
pub proof fn law_any_root_may_have_it(roots: Seq<SlotListing>, i: int)
    requires
        0 <= i < roots.len(),
    ensures
        roots[i].has_effect ==> any_effect(roots),
        !any_effect(roots) ==> !roots[i].has_effect,
        (forall|k: int| 0 <= k < roots.len() ==> !(#[trigger] roots[k]).has_effect) ==> !any_effect(
            roots,
        ),
        lists_motions(files_in(roots[i].motion_files)) ==> any_motion_list(roots),
        (forall|k: int|
            0 <= k < roots.len() ==> !lists_motions(files_in((#[trigger] roots[k]).motion_files)))
            ==> !any_motion_list(roots),
{
    let root = roots[i];
}

} // verus!
