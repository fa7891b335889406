//! The roster: who is on the character select screen, where they sit, what they are made of, and
//! which mods provide them.

use vstd::prelude::*;
use vstd::string::*;

use crate::roster::library::ProviderId;
use crate::text::{
    ascii_lower, concat, dec, lower_char, to_ascii_lower, two_digit_text, two_digits,
};

pub mod animations;
pub mod archive;
pub mod character_card;
pub mod costume_gate;
pub mod css;
pub mod gamma;
pub mod icons;
pub mod library;
pub mod manifest;
pub mod names;
pub mod new_character;
pub mod reveal_path;
pub mod scaffold;
pub mod trait_sections;
pub mod traits;
pub mod ui_images;

verus! {

/// Identifies an entry for the duration of one index build. Nothing may persist one: what has to
/// survive a rescan is keyed by a `RosterKey`.
#[derive(Debug, Clone, Copy, PartialEq, Eq, PartialOrd, Ord, Hash)]
pub struct RosterEntryId(pub u32);

/// The stable identity of a roster entry, as it stands in a saved project.
#[derive(Debug, Clone, PartialEq, Eq, PartialOrd, Ord, Hash)]
pub struct RosterKey(pub String);

impl View for RosterKey {
    type V = Seq<char>;

    open spec fn view(&self) -> Seq<char> {
        self.0@
    }
}

/// How the key of a whole fighter is spelled.
pub open spec fn fighter_key(name: Seq<char>) -> Seq<char> {
    ascii_lower(name)
}

/// How the key of a costume slot is spelled.
pub open spec fn slot_key(donor: Seq<char>, slot: u8) -> Seq<char> {
    ascii_lower(donor) + "#c"@ + two_digits(slot as nat)
}

/// How the key of a select screen row without a fighter is spelled.
pub open spec fn chara_key(name_id: Seq<char>) -> Seq<char> {
    "ui:"@ + ascii_lower(name_id)
}

impl RosterKey {
    /// The key of a whole fighter.
    pub fn fighter(name: &str) -> (key: RosterKey)
        ensures
            key@ == fighter_key(name@),
    {
        RosterKey(to_ascii_lower(name))
    }

    /// The key of one costume slot that has a cell of its own.
    pub fn slot(donor: &str, slot: u8) -> (key: RosterKey)
        ensures
            key@ == slot_key(donor@, slot),
    {
        let mut key = to_ascii_lower(donor);
        key.append("#c");
        let digits = two_digit_text(slot as u64);
        key.append(digits.as_str());
        RosterKey(key)
    }

    /// The key of a select screen row that no fighter directory backs.
    pub fn chara(name_id: &str) -> (key: RosterKey)
        ensures
            key@ == chara_key(name_id@),
    {
        let lower = to_ascii_lower(name_id);
        RosterKey(concat("ui:", lower.as_str()))
    }

    /// The spelling of the key.
    pub fn as_str(&self) -> (r: &str)
        ensures
            r@ == self@,
    {
        self.0.as_str()
    }

    /// The spelling of the key, as a text of its own.
    pub fn to_string(&self) -> (r: String)
        ensures
            r@ == self@,
    {
        self.0.clone()
    }
}

proof fn lemma_digits(n: nat)
    ensures
        dec(n).len() > 0,
        forall|i: int| 0 <= i < dec(n).len() ==> '0' <= #[trigger] dec(n)[i] <= '9',
    decreases n,
{
    if n >= 10 {
        lemma_digits(n / 10);
    }
}

proof fn lemma_two_digits(n: nat)
    ensures
        two_digits(n).len() > 0,
        forall|i: int| 0 <= i < two_digits(n).len() ==> '0' <= #[trigger] two_digits(n)[i] <= '9',
{
    lemma_digits(n);
}

proof fn lemma_lower_keeps_marks(s: Seq<char>)
    ensures
        forall|i: int|
            0 <= i < s.len() ==> ((#[trigger] ascii_lower(s)[i] == '#') == (s[i] == '#')) && ((
            ascii_lower(s)[i] == ':') == (s[i] == ':')),
{
    assert forall|i: int| 0 <= i < s.len() implies ((#[trigger] ascii_lower(s)[i] == '#') == (s[i]
        == '#')) && ((ascii_lower(s)[i] == ':') == (s[i] == ':')) by {
        assert(ascii_lower(s)[i] == lower_char(s[i]));
    }
}

/// A fighter, a costume slot and a select screen row never have the same key, though they may
/// carry the same name. The names hold no `#` and no `:`, as those of directories and of rows do
/// not.
pub proof fn law_key_spaces_are_apart(
    fighter: Seq<char>,
    donor: Seq<char>,
    slot: u8,
    name_id: Seq<char>,
)
    requires
        !fighter.contains('#'),
        !fighter.contains(':'),
        !donor.contains(':'),
    ensures
        fighter_key(fighter) != slot_key(donor, slot),
        fighter_key(fighter) != chara_key(name_id),
        slot_key(donor, slot) != chara_key(name_id),
{
    reveal_strlit("#c");
    reveal_strlit("ui:");
    lemma_lower_keeps_marks(fighter);
    lemma_lower_keeps_marks(donor);
    lemma_two_digits(slot as nat);
    let s = slot_key(donor, slot);
    let c = chara_key(name_id);
    let f = fighter_key(fighter);
    assert(s[donor.len() as int] == '#');
    assert(c[2] == ':');
    assert(s.len() == donor.len() + 2 + two_digits(slot as nat).len());
    assert(f.len() == fighter.len());
    if f == s {
        assert(f[donor.len() as int] == '#');
        assert(fighter.contains(fighter[donor.len() as int]));
    }
    if f == c {
        assert(f[2] == ':');
        assert(fighter.contains(fighter[2]));
    }
    if s == c {
        if 2 < donor.len() {
            assert(s[2] == ascii_lower(donor)[2]);
            assert(donor.contains(donor[2]));
        } else if 2 == donor.len() {
        } else if 2 == donor.len() + 1 {
            assert(s[2] == 'c');
        } else {
            assert(s[2] == two_digits(slot as nat)[2 - donor.len() - 2]);
        }
    }
}

/// Two costume slots have the same key only if they are the same slot of the same donor.
pub proof fn law_slot_keys_are_distinct(a: Seq<char>, b: Seq<char>, m: u8, n: u8)
    requires
        slot_key(a, m) == slot_key(b, n),
    ensures
        m == n,
        ascii_lower(a) == ascii_lower(b),
{
    reveal_strlit("#c");
    lemma_two_digits(m as nat);
    lemma_two_digits(n as nat);
    let s = slot_key(a, m);
    let t = slot_key(b, n);
    let la = a.len() as int;
    let lb = b.len() as int;
    let x = two_digits(m as nat);
    let y = two_digits(n as nat);
    assert(s.len() == la + 2 + x.len());
    assert(t.len() == lb + 2 + y.len());
    if la < lb {
        assert(t[lb + 1] == 'c');
        assert(s[lb + 1] == x[lb + 1 - la - 2]);
    }
    if lb < la {
        assert(s[la + 1] == 'c');
        assert(t[la + 1] == y[la + 1 - lb - 2]);
    }
    assert(x =~= s.subrange(la + 2, s.len() as int));
    assert(y =~= t.subrange(lb + 2, t.len() as int));
    crate::text::lemma_two_digits_reads_back(m as nat);
    crate::text::lemma_two_digits_reads_back(n as nat);
    assert(ascii_lower(a) =~= s.subrange(0, la));
    assert(ascii_lower(b) =~= t.subrange(0, lb));
}

/// What a roster entry is made of.
#[derive(Debug, Clone, PartialEq, Eq)]
pub enum RosterBacking {
    /// The whole fighter is the entry.
    Fighter,
    /// One costume slot of a donor fighter, with a cell of its own.
    SlotClone { donor: String, slot: u8 },
}

impl RosterBacking {
    /// Whether the entry shares its engine fighter with another entry.
    pub fn shares_engine_fighter(&self) -> (r: bool)
        ensures
            r == (self is SlotClone),
    {
        match self {
            RosterBacking::Fighter => false,
            RosterBacking::SlotClone { .. } => true,
        }
    }

    /// The costume slot the entry is pinned to, if any.
    pub fn slot(&self) -> (r: Option<u8>)
        ensures
            r == match *self {
                RosterBacking::Fighter => None::<u8>,
                RosterBacking::SlotClone { slot, .. } => Some(slot),
            },
    {
        match self {
            RosterBacking::Fighter => None,
            RosterBacking::SlotClone { slot, .. } => Some(*slot),
        }
    }
}

/// Where an entry came from.
#[derive(Debug, Clone, Copy, PartialEq, Eq, Structural)]
pub enum EntryOrigin {
    /// In the base game.
    Vanilla,
    /// From an enabled mod of the library.
    Imported,
    /// Made by the open project.
    Authored,
}

impl EntryOrigin {
    /// The origin in a word.
    pub fn label(self) -> (r: &'static str)
        ensures
            r@ == match self {
                EntryOrigin::Vanilla => "Vanilla"@,
                EntryOrigin::Imported => "Imported"@,
                EntryOrigin::Authored => "Authored"@,
            },
    {
        match self {
            EntryOrigin::Vanilla => "Vanilla",
            EntryOrigin::Imported => "Imported",
            EntryOrigin::Authored => "Authored",
        }
    }
}

/// One cell of the character select screen. A row may have no fighter behind it, and a fighter no
/// row.
#[derive(Debug, Clone)]
pub struct RosterEntry {
    pub id: RosterEntryId,
    pub key: RosterKey,
    /// The row of the character database, when there is one.
    pub name_id: Option<String>,
    pub backing: RosterBacking,
    /// The engine fighter the entry plays as; for a slot clone, the donor.
    pub fighter: Option<String>,
    pub display_name: String,
    /// The place on the select screen; unknown when no database is loaded.
    pub css_order: Option<i8>,
    /// The mods that contribute files, in load order.
    pub providers: Vec<ProviderId>,
    pub origin: EntryOrigin,
    /// Hidden from the select screen by the open project.
    pub hidden: bool,
    /// Whether the database says the row occupies a cell.
    pub on_roster: bool,
}

} // verus!
