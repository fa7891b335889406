//! Making a new character: its id, its record in the project, and the form that asks for it.
//!
//! A new character is a costume of a donor fighter. It has no cell of its own on the select
//! screen.

use vstd::prelude::*;
use vstd::string::*;

use crate::paths::{join_path, joined};
use crate::roster::costume_gate::slots_below;
use crate::roster::library::{free_id, Located, ModLibrary, ModSource};
use crate::roster::manifest::{
    fighter_parts, no_provision, recorded, slot_named, slots_in, ManifestView, ModManifest, RootDetection,
};
use crate::roster::scaffold::{create_many, created_for, guide_path, model_dir, Scaffold};
use crate::roster::{RosterBacking, RosterEntry, RosterKey, slot_key};
use crate::text::{
    ascii_lower, chars_of, concat, dec, dec_text, digits_u8, ends_with, join, lemma_split_join,
    lemma_two_digits_reads_back, lower_char, same, split, string_between, texts, to_ascii_lower,
    to_lower_char, trim_text, trimmed, two_digit_text, two_digits,
};

verus! {

/// Whether a character is an ASCII letter or digit.
pub open spec fn is_alphanumeric(c: char) -> bool {
    ('0' <= c && c <= '9') || ('a' <= c && c <= 'z') || ('A' <= c && c <= 'Z')
}

/// A name with its letters in lower case, and each run of other characters, but for one at the
/// start, as one underscore.
pub open spec fn with_underscores(name: Seq<char>) -> Seq<char>
    decreases name.len(),
{
    if name.len() == 0 {
        Seq::empty()
    } else {
        let front = with_underscores(name.drop_last());
        if is_alphanumeric(name.last()) {
            front.push(lower_char(name.last()))
        } else if front.len() > 0 && front.last() != '_' {
            front.push('_')
        } else {
            front
        }
    }
}

/// A text without the underscores it ends with.
pub open spec fn without_end(s: Seq<char>) -> Seq<char>
    decreases s.len(),
{
    if s.len() > 0 && s.last() == '_' {
        without_end(s.drop_last())
    } else {
        s
    }
}

/// The id of a character, from its display name.
pub open spec fn id_of(name: Seq<char>) -> Seq<char> {
    let id = without_end(with_underscores(name));
    if id.len() == 0 {
        "new_character"@
    } else {
        id
    }
}

/// The id of a character, from its display name.
pub fn name_id_for(display_name: &str) -> (r: String)
    ensures
        r@ == id_of(display_name@),
{
    let v = chars_of(display_name);
    let mut out: Vec<char> = Vec::new();
    let mut i: usize = 0;
    assert(v@.take(0) =~= Seq::empty());
    while i < v.len()
        invariant
            i <= v.len(),
            out@ == with_underscores(v@.take(i as int)),
        decreases v.len() - i,
    {
        assert(v@.take(i + 1).drop_last() =~= v@.take(i as int));
        let c = v[i];
        if ('0' <= c && c <= '9') || ('a' <= c && c <= 'z') || ('A' <= c && c <= 'Z') {
            out.push(to_lower_char(c));
        } else if out.len() > 0 && out[out.len() - 1] != '_' {
            out.push('_');
        }
        i = i + 1;
    }
    assert(v@.take(v@.len() as int) =~= v@);
    let mut end: usize = out.len();
    assert(out@.take(end as int) =~= out@);
    while end > 0 && out[end - 1] == '_'
        invariant
            end <= out.len(),
            without_end(out@) == without_end(out@.take(end as int)),
        decreases end,
    {
        assert(out@.take(end as int).drop_last() =~= out@.take(end - 1));
        end = end - 1;
    }
    if end == 0 {
        return "new_character".to_owned();
    }
    let r = string_between(&out, 0, end);
    assert(r@ =~= out@.take(end as int));
    r
}

/// Whether a text can be an id: it is not empty, holds only small letters, digits and underscores,
/// begins and ends with none of these, and never has two in a row.
pub open spec fn is_id(s: Seq<char>) -> bool {
    &&& s.len() > 0
    &&& s[0] != '_'
    &&& s.last() != '_'
    &&& forall|i: int|
        0 <= i < s.len() ==> #[trigger] s[i] == '_' || (is_alphanumeric(s[i]) && lower_char(s[i])
            == s[i])
    &&& forall|i: int| 0 <= i < s.len() - 1 && #[trigger] s[i] == '_' ==> s[i + 1] != '_'
}

proof fn lemma_with_underscores(name: Seq<char>)
    ensures
        ({
            let s = with_underscores(name);
            &&& s.len() > 0 ==> s[0] != '_'
            &&& forall|i: int|
                0 <= i < s.len() ==> #[trigger] s[i] == '_' || (is_alphanumeric(s[i])
                    && lower_char(s[i]) == s[i])
            &&& forall|i: int| 0 <= i < s.len() - 1 && #[trigger] s[i] == '_' ==> s[i + 1] != '_'
        }),
    decreases name.len(),
{
    if name.len() > 0 {
        lemma_with_underscores(name.drop_last());
        let front = with_underscores(name.drop_last());
        let s = with_underscores(name);
        let c = name.last();
        assert(is_alphanumeric(c) ==> is_alphanumeric(lower_char(c)) && lower_char(lower_char(c))
            == lower_char(c) && lower_char(c) != '_');
        assert forall|i: int| 0 <= i < s.len() implies #[trigger] s[i] == '_' || (is_alphanumeric(
            s[i],
        ) && lower_char(s[i]) == s[i]) by {
            if i < front.len() {
                assert(s[i] == front[i]);
            }
        }
        assert forall|i: int| 0 <= i < s.len() - 1 && #[trigger] s[i] == '_' implies s[i + 1]
            != '_' by {
            assert(s[i] == front[i]);
            if i + 1 < front.len() {
                assert(s[i + 1] == front[i + 1]);
            }
        }
        if s.len() > 0 && front.len() > 0 {
            assert(s[0] == front[0]);
        }
    }
}

proof fn lemma_without_end(s: Seq<char>)
    ensures
        without_end(s).len() <= s.len(),
        without_end(s) == s.take(without_end(s).len() as int),
        without_end(s).len() > 0 ==> without_end(s).last() != '_',
    decreases s.len(),
{
    if s.len() > 0 && s.last() == '_' {
        lemma_without_end(s.drop_last());
        assert(s.drop_last().take(without_end(s).len() as int) =~= s.take(
            without_end(s).len() as int,
        ));
    } else {
        assert(s.take(s.len() as int) =~= s);
    }
}

/// The id of any name can be used as an id.
pub proof fn law_ids_are_safe(name: Seq<char>)
    ensures
        is_id(id_of(name)),
{
    lemma_with_underscores(name);
    let s = with_underscores(name);
    lemma_without_end(s);
    let id = without_end(s);
    if id.len() > 0 {
        assert forall|i: int| 0 <= i < id.len() implies id[i] == s[i] by {}
        assert forall|i: int| 0 <= i < id.len() - 1 && #[trigger] id[i] == '_' implies id[i + 1]
            != '_' by {
            assert(s[i] == '_');
            assert(id[i + 1] == s[i + 1]);
        }
        assert forall|i: int| 0 <= i < id.len() implies #[trigger] id[i] == '_' || (
        is_alphanumeric(id[i]) && lower_char(id[i]) == id[i]) by {
            assert(id[i] == s[i]);
        }
        assert(is_id(id));
    } else {
        reveal_strlit("new_character");
        assert(is_id("new_character"@));
    }
}

proof fn lemma_ids_stay(s: Seq<char>)
    requires
        s.len() > 0 ==> s[0] != '_',
        forall|i: int|
            0 <= i < s.len() ==> #[trigger] s[i] == '_' || (is_alphanumeric(s[i]) && lower_char(
                s[i],
            ) == s[i]),
        forall|i: int| 0 <= i < s.len() - 1 && #[trigger] s[i] == '_' ==> s[i + 1] != '_',
    ensures
        with_underscores(s) == s,
    decreases s.len(),
{
    if s.len() > 0 {
        let front = s.drop_last();
        assert forall|i: int| 0 <= i < front.len() implies front[i] == s[i] by {}
        assert forall|i: int| 0 <= i < front.len() - 1 && #[trigger] front[i] == '_' implies front[i
            + 1] != '_' by {
            assert(s[i] == '_');
        }
        lemma_ids_stay(front);
        assert(front.push(s.last()) =~= s);
        assert(s.last() == s[s.len() - 1]);
        if s.last() == '_' {
            assert(front.len() > 0);
            if front.last() == '_' {
                assert(s[s.len() - 2] == '_');
                assert(false);
            }
        }
    } else {
        assert(s =~= Seq::empty());
    }
}

/// The id of an id is that id.
pub proof fn law_ids_are_stable(name: Seq<char>)
    ensures
        id_of(id_of(name)) == id_of(name),
{
    law_ids_are_safe(name);
    let id = id_of(name);
    lemma_ids_stay(id);
}

/// A new character in the project.
#[derive(Debug, Clone, PartialEq, Eq)]
pub struct AuthoredEntry {
    pub key: RosterKey,
    pub donor: String,
    pub slot: u8,
    pub display_name: String,
    pub name_id: String,
    pub moveset_scaffolded: bool,
    /// Where its files were made, once they were.
    pub files_root: Option<String>,
}

/// The record of a new character.
pub fn authored_entry(donor: &str, slot: u8, display_name: &str, name_id: &str) -> (r:
    AuthoredEntry)
    ensures
        r.key@ == slot_key(donor@, slot),
        r.donor@ == ascii_lower(donor@),
        r.slot == slot,
        r.display_name@ == display_name@,
        r.name_id@ == name_id@,
        !r.moveset_scaffolded,
        r.files_root is None,
{
    AuthoredEntry {
        key: RosterKey::slot(donor, slot),
        donor: to_ascii_lower(donor),
        slot,
        display_name: display_name.to_owned(),
        name_id: name_id.to_owned(),
        moveset_scaffolded: false,
        files_root: None,
    }
}

/// What the panel wants done.
#[derive(Debug, PartialEq, Eq)]
pub enum NewCharacterAction {
    Nothing,
    /// Send edits to this character's costume, or back to the fighter as a whole.
    SetEditTarget(Option<RosterKey>),
    Create {
        donor: String,
        slot: u8,
        display_name: String,
        name_id: String,
        destination: String,
    },
    Remove(RosterKey),
}

/// The form for a new character.
#[derive(Debug)]
pub struct NewCharacterView {
    pub donor: Option<String>,
    pub slot: Option<u8>,
    pub display_name: String,
    pub status: String,
    pub error: Option<String>,
    /// The character to show on the select screen tab next.
    pub goto_css: Option<RosterKey>,
}

/// The slot that the form begins with.
pub const FIRST_OFFERED_SLOT: u8 = 8;

/// Whether an entry can be the donor of a new character.
pub open spec fn can_be_donor(entry: RosterEntry) -> bool {
    entry.fighter is Some && entry.backing is Fighter
}

/// The places of the entries that can be donors, in order.
pub open spec fn donor_places(entries: Seq<RosterEntry>) -> Seq<int>
    decreases entries.len(),
{
    if entries.len() == 0 {
        Seq::empty()
    } else if can_be_donor(entries.last()) {
        donor_places(entries.drop_last()).push(entries.len() - 1)
    } else {
        donor_places(entries.drop_last())
    }
}

/// The places of the entries that can be donors: those with a fighter of their own.
pub fn donors(entries: &Vec<RosterEntry>) -> (r: Vec<usize>)
    ensures
        r@.map_values(|i: usize| i as int) == donor_places(entries@),
        forall|k: int|
            0 <= k < r@.len() ==> (#[trigger] r@[k]) < entries@.len() && can_be_donor(
                entries@[r@[k] as int],
            ),
{
    let mut r: Vec<usize> = Vec::new();
    let mut i: usize = 0;
    assert(entries@.take(0) =~= Seq::empty());
    assert(r@.map_values(|i: usize| i as int) =~= Seq::empty());
    while i < entries.len()
        invariant
            i <= entries.len(),
            r@.map_values(|i: usize| i as int) == donor_places(entries@.take(i as int)),
            forall|k: int|
                0 <= k < r@.len() ==> (#[trigger] r@[k]) < entries@.len() && can_be_donor(
                    entries@[r@[k] as int],
                ),
        decreases entries.len() - i,
    {
        let ghost was = r@;
        assert(entries@.take(i + 1).drop_last() =~= entries@.take(i as int));
        if entries[i].fighter.is_some() && !entries[i].backing.shares_engine_fighter() {
            r.push(i);
            assert(r@.map_values(|i: usize| i as int) =~= was.map_values(|i: usize| i as int).push(
                i as int,
            ));
        }
        i = i + 1;
    }
    assert(entries@.take(entries@.len() as int) =~= entries@);
    r
}

/// A text of an option.
pub open spec fn text_of(text: Option<String>) -> Option<Seq<char>> {
    match text {
        Some(text) => Some(text@),
        None => None,
    }
}

/// Whether an entry is a slot of a fighter.
pub open spec fn is_slot_of(entry: RosterEntry, donor: Seq<char>, slot: u8) -> bool {
    &&& text_of(entry.fighter) == Some(donor)
    &&& entry.backing matches RosterBacking::SlotClone { slot: own, .. } && own == slot
}

/// The first entry that is a slot of a fighter.
pub open spec fn slot_holder(entries: Seq<RosterEntry>, donor: Seq<char>, slot: u8) -> Option<int>
    decreases entries.len(),
{
    if entries.len() == 0 {
        None
    } else {
        match slot_holder(entries.drop_last(), donor, slot) {
            Some(at) => Some(at),
            None => if is_slot_of(entries.last(), donor, slot) {
                Some(entries.len() - 1)
            } else {
                None
            },
        }
    }
}

proof fn lemma_slot_holder_stays(entries: Seq<RosterEntry>, donor: Seq<char>, slot: u8, i: int)
    requires
        0 <= i <= entries.len(),
        slot_holder(entries.take(i), donor, slot) is Some,
    ensures
        slot_holder(entries, donor, slot) == slot_holder(entries.take(i), donor, slot),
    decreases entries.len() - i,
{
    if i == entries.len() {
        assert(entries.take(i) =~= entries);
    } else {
        assert(entries.take(i + 1).drop_last() =~= entries.take(i));
        lemma_slot_holder_stays(entries, donor, slot, i + 1);
    }
}

/// A slot as a file name has it.
pub open spec fn slot_text(slot: u8) -> Seq<char> {
    "c"@ + two_digits(slot as nat)
}

fn slot_name(slot: u8) -> (r: String)
    ensures
        r@ == slot_text(slot),
{
    let digits = two_digit_text(slot as u64);
    concat("c", digits.as_str())
}

/// Why the chosen slot is taken: by an entry, or by files that are there.
pub open spec fn conflict(
    donor: Option<Seq<char>>,
    slot: Option<u8>,
    entries: Seq<RosterEntry>,
    occupied: Seq<u8>,
) -> Option<Seq<char>> {
    match (donor, slot) {
        (Some(donor), Some(slot)) => match slot_holder(entries, donor, slot) {
            Some(at) => Some(slot_text(slot) + " used by "@ + entries[at].display_name@),
            None => if occupied.contains(slot) {
                Some(slot_text(slot) + " already exists for "@ + donor)
            } else {
                None
            },
        },
        _ => None,
    }
}

/// Whether a text is blank.
pub open spec fn is_blank(text: Seq<char>) -> bool {
    trimmed(text).len() == 0
}

/// Whether a project has a character at a slot of a donor.
pub open spec fn has_authored(authored: Seq<AuthoredEntry>, donor: Seq<char>, slot: u8) -> bool {
    exists|i: int|
        0 <= i < authored.len() && (#[trigger] authored[i]).donor@ == ascii_lower(donor)
            && authored[i].slot == slot
}

fn holds_slot(slots: &Vec<u8>, slot: u8) -> (r: bool)
    ensures
        r == slots@.contains(slot),
{
    let mut i: usize = 0;
    while i < slots.len()
        invariant
            i <= slots.len(),
            forall|j: int| 0 <= j < i ==> slots@[j] != slot,
        decreases slots.len() - i,
    {
        if slots[i] == slot {
            assert(slots@[i as int] == slot);
            return true;
        }
        i = i + 1;
    }
    false
}

impl NewCharacterView {
    /// An empty form.
    pub fn new() -> (r: NewCharacterView)
        ensures
            r.donor is None,
            r.slot is None,
            r.display_name@.len() == 0,
            r.status@.len() == 0,
            r.error is None,
            r.goto_css is None,
    {
        NewCharacterView {
            donor: None,
            slot: None,
            display_name: String::new(),
            status: String::new(),
            error: None,
            goto_css: None,
        }
    }

    /// Takes the character to show on the select screen tab, if there is one.
    pub fn take_goto_character_select(&mut self) -> (r: Option<RosterKey>)
        ensures
            r == old(self).goto_css,
            *final(self) == (NewCharacterView { goto_css: None, ..*old(self) }),
    {
        let mut next: Option<RosterKey> = None;
        std::mem::swap(&mut self.goto_css, &mut next);
        next
    }

    /// Picks a donor. The slot is to be chosen anew.
    pub fn pick_donor(&mut self, fighter: &str)
        ensures
            final(self).donor matches Some(donor) && donor@ == fighter@,
            *final(self) == (NewCharacterView {
                donor: final(self).donor,
                slot: None,
                ..*old(self)
            }),
    {
        self.donor = Some(fighter.to_owned());
        self.slot = None;
    }

    /// The slot that the form shows; it is chosen from then on.
    pub fn shown_slot(&mut self) -> (r: u8)
        ensures
            r == match old(self).slot {
                Some(slot) => slot,
                None => FIRST_OFFERED_SLOT,
            },
            *final(self) == (NewCharacterView { slot: Some(r), ..*old(self) }),
    {
        let slot: u8 = match self.slot {
            Some(slot) => slot,
            None => FIRST_OFFERED_SLOT,
        };
        self.slot = Some(slot);
        slot
    }

    /// Why the chosen slot is taken, if it is; `occupied` are the slots that have files.
    pub fn slot_conflict(&self, entries: &Vec<RosterEntry>, occupied: &Vec<u8>) -> (r: Option<
        String,
    >)
        ensures
            text_of(r) == conflict(text_of(self.donor), self.slot, entries@, occupied@),
    {
        let donor = match &self.donor {
            Some(donor) => donor,
            None => {
                return None;
            },
        };
        let slot: u8 = match self.slot {
            Some(slot) => slot,
            None => {
                return None;
            },
        };
        let mut i: usize = 0;
        assert(entries@.take(0) =~= Seq::empty());
        while i < entries.len()
            invariant
                i <= entries.len(),
                self.donor == Some(*donor),
                self.slot == Some(slot),
                slot_holder(entries@.take(i as int), donor@, slot) is None,
            decreases entries.len() - i,
        {
            assert(entries@.take(i + 1).drop_last() =~= entries@.take(i as int));
            let entry = &entries[i];
            let plays = match &entry.fighter {
                Some(fighter) => same(fighter.as_str(), donor.as_str()),
                None => false,
            };
            let pinned = match entry.backing.slot() {
                Some(own) => own == slot,
                None => false,
            };
            if plays && pinned {
                proof {
                    lemma_slot_holder_stays(entries@, donor@, slot, i + 1);
                }
                let mut text = slot_name(slot);
                text.append(" used by ");
                text.append(entry.display_name.as_str());
                return Some(text);
            }
            i = i + 1;
        }
        assert(entries@.take(entries@.len() as int) =~= entries@);
        if holds_slot(occupied, slot) {
            let mut text = slot_name(slot);
            text.append(" already exists for ");
            text.append(donor.as_str());
            return Some(text);
        }
        None
    }

    /// Whether the form is filled in: there is a donor and a name.
    pub open spec fn filled(&self) -> bool {
        self.donor is Some && !is_blank(self.display_name@)
    }

    /// Whether the form is filled in.
    pub fn is_filled(&self) -> (r: bool)
        ensures
            r == self.filled(),
    {
        let name = trim_text(self.display_name.as_str());
        self.donor.is_some() && !name.as_str().is_empty()
    }

    /// What the form says beside its buttons.
    pub fn hint(&self, entries: &Vec<RosterEntry>, occupied: &Vec<u8>) -> (r: Option<&'static str>)
        ensures
            match r {
                Some(text) => if !self.filled() {
                    text@ == "Choose a donor and name."@
                } else {
                    text@ == "Slot already used — pick a free one."@ && conflict(
                        text_of(self.donor),
                        self.slot,
                        entries@,
                        occupied@,
                    ) is Some
                },
                None => self.filled() && conflict(
                    text_of(self.donor),
                    self.slot,
                    entries@,
                    occupied@,
                ) is None,
            },
    {
        if !self.is_filled() {
            return Some("Choose a donor and name.");
        }
        if self.slot_conflict(entries, occupied).is_some() {
            return Some("Slot already used — pick a free one.");
        }
        None
    }

    /// Turns the form into an action; `destination` is the folder that was picked, if one was.
    pub fn build_create_action(&self, destination: Option<String>) -> (r: NewCharacterAction)
        ensures
            match r {
                NewCharacterAction::Create { donor, slot, display_name, name_id, destination: to } => {
                    &&& self.donor matches Some(own) && donor@ == own@
                    &&& self.slot == Some(slot)
                    &&& !is_blank(self.display_name@)
                    &&& display_name@ == trimmed(self.display_name@)
                    &&& name_id@ == id_of(trimmed(self.display_name@))
                    &&& destination == Some(to)
                },
                NewCharacterAction::Nothing => self.donor is None || self.slot is None || is_blank(
                    self.display_name@,
                ) || destination is None,
                _ => false,
            },
    {
        let donor = match &self.donor {
            Some(donor) => donor.clone(),
            None => {
                return NewCharacterAction::Nothing;
            },
        };
        let slot: u8 = match self.slot {
            Some(slot) => slot,
            None => {
                return NewCharacterAction::Nothing;
            },
        };
        let display_name = trim_text(self.display_name.as_str());
        if display_name.as_str().is_empty() {
            return NewCharacterAction::Nothing;
        }
        let destination = match destination {
            Some(destination) => destination,
            None => {
                return NewCharacterAction::Nothing;
            },
        };
        let name_id = name_id_for(display_name.as_str());
        NewCharacterAction::Create { donor, slot, display_name, name_id, destination }
    }

    /// The message for a character that the project has already.
    pub open spec fn already_there(&self) -> Seq<char> {
        trimmed(self.display_name@) + " is already in the project as "@ + slot_text(self.slot->0)
            + " of "@ + self.donor->0@ + " — pick a free slot."@
    }

    /// Turns the form into an action without asking for a folder: the files go under the
    /// application's own storage, in the folder `slug`. A character that the project has already is
    /// refused, for its files would be imported twice.
    pub fn build_quick_create_action(
        &mut self,
        authored: &Vec<AuthoredEntry>,
        storage_root: &str,
        slug: &str,
    ) -> (r: NewCharacterAction)
        ensures
            ({
                let fillable = old(self).donor is Some && old(self).slot is Some && !is_blank(
                    old(self).display_name@,
                );
                let twice = has_authored(authored@, old(self).donor->0@, old(self).slot->0);
                match r {
                    NewCharacterAction::Create { donor, slot, display_name, name_id, destination } => {
                        &&& fillable && !twice
                        &&& *final(self) == *old(self)
                        &&& donor@ == old(self).donor->0@
                        &&& slot == old(self).slot->0
                        &&& display_name@ == trimmed(old(self).display_name@)
                        &&& name_id@ == id_of(trimmed(old(self).display_name@))
                        &&& destination@ == joined(joined(storage_root@, "authored"@), slug@)
                    },
                    NewCharacterAction::Nothing => {
                        &&& !fillable || twice
                        &&& !fillable ==> *final(self) == *old(self)
                        &&& fillable ==> (final(self).error matches Some(error) && error@
                            == old(self).already_there())
                        &&& fillable ==> *final(self) == (NewCharacterView {
                            error: final(self).error,
                            ..*old(self)
                        })
                    },
                    _ => false,
                }
            }),
    {
        let donor = match &self.donor {
            Some(donor) => donor.clone(),
            None => {
                return NewCharacterAction::Nothing;
            },
        };
        let slot: u8 = match self.slot {
            Some(slot) => slot,
            None => {
                return NewCharacterAction::Nothing;
            },
        };
        let display_name = trim_text(self.display_name.as_str());
        if display_name.as_str().is_empty() {
            return NewCharacterAction::Nothing;
        }
        if find_authored(authored, donor.as_str(), slot) {
            let mut text = display_name;
            text.append(" is already in the project as ");
            let name = slot_name(slot);
            text.append(name.as_str());
            text.append(" of ");
            text.append(donor.as_str());
            text.append(" — pick a free slot.");
            self.error = Some(text);
            return NewCharacterAction::Nothing;
        }
        let base = join_path(storage_root, "authored");
        let destination = join_path(base.as_str(), slug);
        let name_id = name_id_for(display_name.as_str());
        NewCharacterAction::Create { donor, slot, display_name, name_id, destination }
    }

    /// Empties the form after a character was made, and says so.
    pub fn note_created(&mut self, display_name: &str, scaffolded: &Scaffold)
        ensures
            final(self).error is None,
            final(self).display_name@.len() == 0,
            final(self).donor is None,
            final(self).slot is None,
            final(self).goto_css == old(self).goto_css,
            final(self).status@ == "Created "@ + display_name@ + " as costume "@ + slot_text(
                scaffolded.slot,
            ) + " of "@ + scaffolded.donor@ + ": "@ + dec(scaffolded.created@.len())
                + " folder(s), added to the mod library. Put your model and animations in the folders it made, then use the main editor to build its moves."@,
    {
        self.error = None;
        self.display_name = String::new();
        self.donor = None;
        self.slot = None;
        let mut text = concat("Created ", display_name);
        text.append(" as costume ");
        let name = slot_name(scaffolded.slot);
        text.append(name.as_str());
        text.append(" of ");
        text.append(scaffolded.donor.as_str());
        text.append(": ");
        let count = dec_text(scaffolded.created.len() as u64);
        text.append(count.as_str());
        text.append(
            " folder(s), added to the mod library. Put your model and animations in the folders it made, then use the main editor to build its moves.",
        );
        self.status = text;
    }

    /// Shows an error.
    pub fn note_error(&mut self, error: String)
        ensures
            *final(self) == (NewCharacterView { error: Some(error), ..*old(self) }),
    {
        self.error = Some(error);
    }
}

fn find_authored(authored: &Vec<AuthoredEntry>, donor: &str, slot: u8) -> (r: bool)
    ensures
        r == has_authored(authored@, donor@, slot),
{
    let lower = to_ascii_lower(donor);
    let mut i: usize = 0;
    while i < authored.len()
        invariant
            i <= authored.len(),
            lower@ == ascii_lower(donor@),
            forall|j: int|
                0 <= j < i ==> !((#[trigger] authored@[j]).donor@ == ascii_lower(donor@)
                    && authored@[j].slot == slot),
        decreases authored.len() - i,
    {
        if same(authored[i].donor.as_str(), lower.as_str()) && authored[i].slot == slot {
            assert(authored@[i as int].donor@ == ascii_lower(donor@));
            return true;
        }
        i = i + 1;
    }
    false
}

proof fn lemma_one_slot(slot: u8, n: int)
    requires
        0 <= n <= 256,
    ensures
        slots_below(seq![slot], n) == if slot < n {
            seq![slot]
        } else {
            Seq::<u8>::empty()
        },
    decreases n,
{
    if n > 0 {
        lemma_one_slot(slot, n - 1);
        let one = seq![slot];
        if slot == n - 1 {
            assert(one[0] == (n - 1) as u8);
            assert(one.contains((n - 1) as u8));
            assert(slots_below(one, n) =~= one);
        } else {
            assert(!one.contains((n - 1) as u8));
        }
    }
}

/// The folder that a new character's files are made in.
pub open spec fn character_root(destination: Seq<char>, slug: Seq<char>) -> Seq<char> {
    joined(destination, slug)
}

/// Makes a new character and imports its files as a mod, so that its slot can be edited at once.
/// `slug` is its name made safe for a file system; `located` is what was found in its folder once
/// the files were made, or why nothing was.
pub fn create_and_import(
    library: &mut ModLibrary,
    destination: &str,
    slug: &str,
    donor: &str,
    slot: u8,
    display_name: &str,
    located: Located,
) -> (r: Result<Scaffold, String>)
    requires
        free_id(old(library).mods@, old(library).next_id as int) < u32::MAX,
    ensures
        match r {
            Ok(made) => {
                let last = final(library).mods@.last();
                &&& trimmed(donor@).len() > 0
                &&& made.donor@ == ascii_lower(donor@)
                &&& made.slot == slot
                &&& made.slots@ == seq![slot]
                &&& texts(made.created@) == created_for(donor@, seq![slot])
                &&& final(library).mods@.len() == old(library).mods@.len() + 1
                &&& final(library).mods@.drop_last() == old(library).mods@
                &&& last.id.0 == free_id(old(library).mods@, old(library).next_id as int)
                &&& final(library).next_id == last.id.0 + 1
                &&& last.name@ == display_name@
                &&& last.source matches ModSource::Folder(path) && path@ == character_root(
                    destination@,
                    slug@,
                )
                &&& last.enabled
                &&& located == Ok::<(String, RootDetection, ModManifest), String>(
                    (last.root, last.detection, last.manifest),
                )
            },
            Err(message) => {
                &&& *final(library) == *old(library)
                &&& if trimmed(donor@).len() == 0 {
                    message@ == "a new character needs a donor fighter to be a costume of"@
                } else {
                    match located {
                        Err(error) => message@ == error@,
                        Ok((_, detection, manifest)) => {
                            &&& manifest.paths@.len() == 0 && manifest.plugins@.len() == 0
                            &&& message@ == character_root(destination@, slug@)
                                + " contains no game files ("@ + detection.description() + ")"@
                        },
                    }
                }
            },
        },
{
    let slots: [u8; 1] = [slot];
    proof {
        lemma_one_slot(slot, 256);
        assert(slots@ =~= seq![slot]);
    }
    let made = match create_many(donor, slots.as_slice()) {
        Ok(made) => made,
        Err(message) => {
            return Err(message);
        },
    };
    let (root, detection, manifest) = match located {
        Ok(found) => found,
        Err(error) => {
            return Err(error);
        },
    };
    let source = ModSource::Folder(join_path(destination, slug));
    match library.import_directory(source, Some(display_name.to_owned()), root, detection, manifest) {
        Ok(_) => Ok(made),
        Err(message) => Err(message),
    }
}

proof fn lemma_lower_append(a: Seq<char>, b: Seq<char>)
    ensures
        ascii_lower(a + b) == ascii_lower(a) + ascii_lower(b),
{
    assert(ascii_lower(a + b) =~= ascii_lower(a) + ascii_lower(b));
}

proof fn lemma_lower_char_stays(c: char)
    ensures
        lower_char(lower_char(c)) == lower_char(c),
        lower_char(c) == '/' <==> c == '/',
{
}

proof fn lemma_six(parts: Seq<Seq<char>>, sep: Seq<char>)
    requires
        parts.len() == 6,
    ensures
        join(parts, sep) == parts[0] + sep + parts[1] + sep + parts[2] + sep + parts[3] + sep
            + parts[4] + sep + parts[5],
{
    let p5 = parts.drop_last();
    let p4 = p5.drop_last();
    let p3 = p4.drop_last();
    let p2 = p3.drop_last();
    let p1 = p2.drop_last();
    assert(join(p1, sep) == parts[0]);
    assert(join(p2, sep) == parts[0] + sep + parts[1]);
    assert(join(p3, sep) == join(p2, sep) + sep + parts[2]);
    assert(join(p4, sep) == join(p3, sep) + sep + parts[3]);
    assert(join(p5, sep) == join(p4, sep) + sep + parts[4]);
}

/// The guide that is left in the folder of a new character makes its slot visible, and no other:
/// whatever else a mod provides, recording the guide lists that one slot more under the donor, as
/// one with a model. In a mod that provided nothing for the donor it is the only slot.
pub proof fn law_a_new_slot_is_visible(was: ManifestView, donor: Seq<char>, slot: u8)
    requires
        !donor.contains('/'),
    ensures
        ({
            let now = recorded(was, guide_path(donor, slot));
            &&& now.fighters.contains_key(ascii_lower(donor))
            &&& now.fighters[ascii_lower(donor)].slots == if was.fighters.contains_key(
                ascii_lower(donor),
            ) {
                was.fighters[ascii_lower(donor)].slots.insert(slot)
            } else {
                set![slot]
            }
            &&& now.fighters[ascii_lower(donor)].has_model
            &&& now.paths.contains(guide_path(donor, slot))
        }),
{
    let digits = two_digits(slot as nat);
    lemma_two_digits_reads_back(slot as nat);
    let own = ascii_lower(donor);
    let named = "c"@ + digits;
    let file = "put_your_model_here.txt"@;
    let path = guide_path(donor, slot);
    reveal_strlit("fighter/");
    reveal_strlit("fighter");
    reveal_strlit("/model/body/c");
    reveal_strlit("model");
    reveal_strlit("body");
    reveal_strlit("c");
    reveal_strlit("/PUT_YOUR_MODEL_HERE.txt");
    reveal_strlit("put_your_model_here.txt");
    reveal_strlit(".nro");
    reveal_strlit("ui");
    reveal_strlit("effect");
    let parts = seq!["fighter"@, own, "model"@, "body"@, named, file];
    let lower = ascii_lower(path);
    assert forall|i: int| 0 <= i < own.len() implies own[i] != '/' by {
        lemma_lower_char_stays(donor[i]);
        assert(donor.contains(donor[i]));
    }
    assert forall|i: int| 0 <= i < parts.len() implies !(#[trigger] parts[i]).contains('/') by {
        if i == 4 {
            assert forall|k: int| 0 <= k < named.len() implies named[k] != '/' by {
                if k > 0 {
                    assert(named[k] == digits[k - 1]);
                }
            }
        }
    }
    lemma_split_join(parts, '/');
    let sep = seq!['/'];
    let whole = "fighter"@ + sep + own + sep + "model"@ + sep + "body"@ + sep + named + sep + file;
    lemma_six(parts, sep);
    assert(join(parts, sep) == whole);
    assert forall|i: int| 0 <= i < own.len() implies lower_char(own[i]) == own[i] by {
        lemma_lower_char_stays(donor[i]);
    }
    assert(ascii_lower(own) =~= own);
    assert forall|i: int| 0 <= i < digits.len() implies lower_char(digits[i]) == digits[i] by {}
    assert(ascii_lower(digits) =~= digits);
    lemma_lower_append("fighter/"@, own);
    lemma_lower_append("fighter/"@ + own, "/model/body/c"@);
    lemma_lower_append("fighter/"@ + own + "/model/body/c"@, digits);
    lemma_lower_append(model_dir(donor, slot), "/PUT_YOUR_MODEL_HERE.txt"@);
    assert(ascii_lower("fighter/"@) =~= "fighter"@ + sep);
    assert(ascii_lower("/model/body/c"@) =~= sep + "model"@ + sep + "body"@ + sep + "c"@);
    assert(ascii_lower("/PUT_YOUR_MODEL_HERE.txt"@) =~= sep + file);
    assert(lower =~= whole);
    assert(split(lower, '/') == parts);
    assert(!ends_with(lower, ".nro"@)) by {
        assert(lower.last() == 't');
        if ends_with(lower, ".nro"@) {
            let end = lower.subrange(lower.len() - 4, lower.len() as int);
            assert(end[3] == 'o');
        }
    }
    assert("fighter"@.len() != "ui"@.len());
    let rest = parts.skip(2);
    assert(fighter_parts(parts) == Some((own, rest)));
    assert(rest[0] == "model"@ && rest[2] == named);
    assert(named.skip(1) =~= digits);
    assert(slot_named(rest[2]) == Some(slot));
    assert(rest =~= seq!["model"@, "body"@, named, file]);
    assert(slots_in(rest, false) =~= set![slot]) by {
        assert forall|other: u8| #[trigger] slots_in(rest, false).contains(other) implies other
            == slot by {
            let i = choose|i: int|
                0 <= i < rest.len() && slot_named(#[trigger] rest[i]) == Some(other);
            assert("model"@[0] == 'm');
            assert("body"@[0] == 'b');
            assert(file[0] == 'p');
        }
    }
    if was.fighters.contains_key(own) {
        assert(was.fighters[own].slots.union(set![slot]) =~= was.fighters[own].slots.insert(slot));
    } else {
        assert(no_provision().slots.union(set![slot]) =~= set![slot]);
    }
}

/// An id takes the letters and digits of a name in their order, in lower case, with nothing but
/// underscores between them; only a name without any has none of its own.
pub proof fn law_an_id_keeps_letters_and_digits(name: Seq<char>, c: char)
    ensures
        with_underscores(name).filter(|x: char| x != '_') == ascii_lower(
            name.filter(|x: char| is_alphanumeric(x)),
        ),
        is_alphanumeric(c) ==> with_underscores(name.push(c)) == with_underscores(name).push(
            lower_char(c),
        ),
        !is_alphanumeric(c) && with_underscores(name).len() > 0 ==> with_underscores(
            name.push(c),
        ).last() == '_',
    decreases name.len(),
{
    reveal(Seq::filter);
    assert(name.push(c).drop_last() =~= name);
    let keep = |x: char| x != '_';
    let own = |x: char| is_alphanumeric(x);
    if name.len() == 0 {
        assert(with_underscores(name).filter(keep) =~= ascii_lower(name.filter(own)));
    } else {
        let front = name.drop_last();
        law_an_id_keeps_letters_and_digits(front, c);
        let was = with_underscores(front);
        let now = with_underscores(name);
        if is_alphanumeric(name.last()) {
            assert(now.drop_last() =~= was);
            assert(now.last() != '_');
            assert(ascii_lower(name.filter(own)) =~= ascii_lower(front.filter(own)).push(
                lower_char(name.last()),
            ));
        } else if was.len() > 0 && was.last() != '_' {
            assert(now.drop_last() =~= was);
        }
    }
}

/// Donors are the entries of fighters that a fighter's files back, in their order.
pub proof fn law_only_fighters_are_donors(entries: Seq<RosterEntry>)
    ensures
        forall|at: int| #[trigger]
            donor_places(entries).contains(at) <==> 0 <= at < entries.len()
                && entries[at].fighter is Some && entries[at].backing is Fighter,
        forall|i: int, j: int|
            0 <= i < j < donor_places(entries).len() ==> (#[trigger] donor_places(entries)[i]) < (
            #[trigger] donor_places(entries)[j]),
    decreases entries.len(),
{
    if entries.len() > 0 {
        let front = entries.drop_last();
        law_only_fighters_are_donors(front);
        let was = donor_places(front);
        let now = donor_places(entries);
        assert forall|i: int| 0 <= i < was.len() implies 0 <= #[trigger] was[i] < front.len() by {
            assert(was.contains(was[i]));
        }
        assert forall|at: int| #[trigger]
            now.contains(at) <==> 0 <= at < entries.len() && entries[at].fighter is Some
            && entries[at].backing is Fighter by {
            if 0 <= at < front.len() {
                assert(front[at] == entries[at]);
                if was.contains(at) {
                    let i = choose|i: int| 0 <= i < was.len() && was[i] == at;
                    assert(now[i] == at);
                }
            }
            if at == entries.len() - 1 && can_be_donor(entries.last()) {
                assert(now[was.len() as int] == at);
            }
            if now.contains(at) {
                let i = choose|i: int| 0 <= i < now.len() && now[i] == at;
                if i < was.len() {
                    assert(was[i] == at);
                    assert(was.contains(at));
                }
            }
        }
    }
}

proof fn lemma_slot_holder(entries: Seq<RosterEntry>, donor: Seq<char>, slot: u8)
    ensures
        match slot_holder(entries, donor, slot) {
            Some(at) => {
                &&& 0 <= at < entries.len()
                &&& is_slot_of(entries[at], donor, slot)
                &&& forall|i: int| 0 <= i < at ==> !is_slot_of(#[trigger] entries[i], donor, slot)
            },
            None => forall|i: int|
                0 <= i < entries.len() ==> !is_slot_of(#[trigger] entries[i], donor, slot),
        },
    decreases entries.len(),
{
    if entries.len() > 0 {
        let front = entries.drop_last();
        lemma_slot_holder(front, donor, slot);
        assert forall|i: int| 0 <= i < front.len() implies front[i] == #[trigger] entries[i] by {}
    }
}

/// A chosen slot is in conflict exactly where an entry of the donor has it or its files are there;
/// without a donor or a slot there is nothing to be in conflict.
pub proof fn law_a_slot_that_is_taken_is_a_conflict(
    donor: Seq<char>,
    slot: u8,
    entries: Seq<RosterEntry>,
    occupied: Seq<u8>,
)
    ensures
        conflict(Some(donor), Some(slot), entries, occupied) is None <==> !occupied.contains(slot)
            && forall|i: int|
            0 <= i < entries.len() ==> !(text_of((#[trigger] entries[i]).fighter) == Some(donor) && (
            match entries[i].backing {
                RosterBacking::SlotClone { slot: own, .. } => own == slot,
                _ => false,
            })),
        conflict(None, Some(slot), entries, occupied) is None,
        conflict(Some(donor), None, entries, occupied) is None,
{
    lemma_slot_holder(entries, donor, slot);
    match slot_holder(entries, donor, slot) {
        Some(at) => {
            assert(is_slot_of(entries[at], donor, slot));
        },
        None => {
            assert forall|i: int| 0 <= i < entries.len() implies !(text_of(
                (#[trigger] entries[i]).fighter,
            ) == Some(donor) && (match entries[i].backing {
                RosterBacking::SlotClone { slot: own, .. } => own == slot,
                _ => false,
            })) by {
                assert(!is_slot_of(entries[i], donor, slot));
            }
        },
    }
}

/// The conflict is told by the first entry that has the slot.
pub proof fn law_a_conflict_names_the_holder(
    donor: Seq<char>,
    slot: u8,
    entries: Seq<RosterEntry>,
    occupied: Seq<u8>,
    at: int,
)
    requires
        0 <= at < entries.len(),
        is_slot_of(entries[at], donor, slot),
        forall|i: int| 0 <= i < at ==> !is_slot_of(#[trigger] entries[i], donor, slot),
    ensures
        ends_with(
            conflict(Some(donor), Some(slot), entries, occupied)->0,
            entries[at].display_name@,
        ),
{
    lemma_slot_holder(entries, donor, slot);
    let holder = slot_holder(entries, donor, slot)->0;
    assert(holder == at) by {
        if holder < at {
            assert(!is_slot_of(entries[holder], donor, slot));
        }
        if at < holder {
            assert(!is_slot_of(entries[at], donor, slot));
        }
    }
    let name = entries[at].display_name@;
    let told = conflict(Some(donor), Some(slot), entries, occupied)->0;
    assert(told.subrange(told.len() - name.len(), told.len() as int) =~= name);
}

/// A slot is written as a letter and its number.
pub proof fn law_a_slot_is_written_as_its_number(slot: u8)
    ensures
        slot_text(slot)[0] == 'c',
        digits_u8(slot_text(slot).skip(1)) == Some(slot),
        slot_text(slot).len() >= 3,
{
    reveal_strlit("c");
    lemma_two_digits_reads_back(slot as nat);
    assert(slot_text(slot).skip(1) =~= two_digits(slot as nat));
}

/// A character is created exactly from a form that has a donor, a slot and a name, at a place that
/// was chosen: as that donor's, in that slot, under the name without white space around it.
pub proof fn law_a_filled_form_creates_what_it_says(
    form: &NewCharacterView,
    destination: Option<String>,
    r: NewCharacterAction,
)
    requires
        call_ensures(NewCharacterView::build_create_action, (form, destination), r),
    ensures
        form.donor is Some && form.slot is Some && trimmed(form.display_name@).len() > 0
            && destination is Some <==> r is Create,
        match r {
            NewCharacterAction::Create { donor, slot, display_name, name_id, destination: to } => {
                &&& donor@ == form.donor->0@
                &&& slot == form.slot->0
                &&& display_name@ == trimmed(form.display_name@)
                &&& is_id(name_id@)
                &&& destination == Some(to)
            },
            _ => true,
        },
{
    law_ids_are_safe(trimmed(form.display_name@));
}

/// A form that can be sent has no hint.
pub proof fn law_a_hint_says_what_is_missing(
    form: &NewCharacterView,
    entries: &Vec<RosterEntry>,
    occupied: &Vec<u8>,
    r: Option<&'static str>,
)
    requires
        call_ensures(NewCharacterView::hint, (form, entries, occupied), r),
    ensures
        r is None <==> form.donor is Some && trimmed(form.display_name@).len() > 0 && conflict(
            text_of(form.donor),
            form.slot,
            entries@,
            occupied@,
        ) is None,
{
}

/// An id has at least one character, and each is a small letter, a digit or an underscore that
/// stands between two others.
pub proof fn law_an_id_is_made_of_letters_digits_and_underscores(name: Seq<char>, i: int)
    requires
        0 <= i < id_of(name).len(),
    ensures
        ({
            let id = id_of(name);
            let c = id[i];
            &&& id.len() > 0
            &&& ('a' <= c && c <= 'z') || ('0' <= c && c <= '9') || c == '_'
            &&& c == '_' ==> 0 < i < id.len() - 1 && id[i + 1] != '_'
        }),
{
    law_ids_are_safe(name);
}

/// A project has a character at a slot exactly where one of its characters is of that donor,
/// whatever the case of its name, and has that slot.
pub proof fn law_a_slot_is_taken_by_its_character(
    authored: Seq<AuthoredEntry>,
    donor: Seq<char>,
    slot: u8,
    i: int,
)
    requires
        0 <= i < authored.len(),
    ensures
        authored[i].donor@ == ascii_lower(donor) && authored[i].slot == slot ==> has_authored(
            authored,
            donor,
            slot,
        ),
        (forall|k: int|
            0 <= k < authored.len() ==> (#[trigger] authored[k]).slot != slot
                || authored[k].donor@ != ascii_lower(donor)) ==> !has_authored(
            authored,
            donor,
            slot,
        ),
{
    let one = authored[i];
}

} // verus!
