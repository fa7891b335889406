//! What a mod provides: its files, classified by fighter and costume slot.

use vstd::prelude::*;
use vstd::string::*;

use crate::text::{
    ascending, ascii_lower, before, chars_of, comes_before, concat, digits_to_u8, digits_u8,
    digits_value, ends_with, has_suffix, insert_ascending, join, join_texts, lemma_ascending_insert,
    lemma_before_total, lemma_split_append, lemma_split_first, lemma_split_nonempty,
    lemma_two_digits_reads_back, same, split, split_text, string_between, texts, to_ascii_lower,
    two_digits,
};
use crate::paths::{join_path, joined};

verus! {

/// Whether a lower-case name is a top-level game directory.
pub open spec fn is_marker(name: Seq<char>) -> bool {
    ||| name == "fighter"@
    ||| name == "effect"@
    ||| name == "ui"@
    ||| name == "sound"@
    ||| name == "stage"@
    ||| name == "camera"@
    ||| name == "param"@
    ||| name == "prebuilt;"@
}

/// Whether a lower-case name is that of a directory that wraps a mod and has no meaning in the
/// game.
pub open spec fn is_wrapper(name: Seq<char>) -> bool {
    ||| name == "romfs"@
    ||| name == "arc"@
    ||| name == "atmosphere"@
    ||| name == "contents"@
    ||| name == "01006a800016e000"@
}

fn marker(name: &str) -> (r: bool)
    ensures
        r == is_marker(name@),
{
    same(name, "fighter") || same(name, "effect") || same(name, "ui") || same(name, "sound")
        || same(name, "stage") || same(name, "camera") || same(name, "param") || same(
        name,
        "prebuilt;",
    )
}

fn wrapper(name: &str) -> (r: bool)
    ensures
        r == is_wrapper(name@),
{
    same(name, "romfs") || same(name, "arc") || same(name, "atmosphere") || same(name, "contents")
        || same(name, "01006a800016e000")
}

/// A directory and the directories in it.
#[derive(Debug)]
pub struct DirNode {
    pub name: String,
    pub dirs: Vec<DirNode>,
}

/// Whether a directory holds a top-level game directory.
pub open spec fn has_marker(dir: DirNode) -> bool {
    exists|i: int| 0 <= i < dir.dirs@.len() && is_marker(ascii_lower(#[trigger] dir.dirs@[i].name@))
}

/// Whether a directory holds a top-level game directory.
pub fn has_arc_marker(dir: &DirNode) -> (r: bool)
    ensures
        r == has_marker(*dir),
{
    let mut i: usize = 0;
    while i < dir.dirs.len()
        invariant
            i <= dir.dirs.len(),
            forall|j: int| 0 <= j < i ==> !is_marker(ascii_lower(#[trigger] dir.dirs@[j].name@)),
        decreases dir.dirs.len() - i,
    {
        let lower = to_ascii_lower(dir.dirs[i].name.as_str());
        if marker(lower.as_str()) {
            return true;
        }
        i = i + 1;
    }
    false
}

/// Whether directory `at` is the first wrapper in a directory.
pub open spec fn is_first_wrapper(dir: DirNode, at: int) -> bool {
    &&& 0 <= at < dir.dirs@.len()
    &&& is_wrapper(ascii_lower(dir.dirs@[at].name@))
    &&& forall|j: int| 0 <= j < at ==> !is_wrapper(ascii_lower(#[trigger] dir.dirs@[j].name@))
}

/// The one directory worth stepping into: the first wrapper, else the only directory there is.
pub open spec fn candidate(dir: DirNode) -> Option<int> {
    if exists|i: int| is_first_wrapper(dir, i) {
        Some(choose|i: int| is_first_wrapper(dir, i))
    } else if dir.dirs@.len() == 1 {
        Some(0int)
    } else {
        None
    }
}

/// The one directory worth stepping into from `dir`, if any.
pub fn descend_candidate(dir: &DirNode) -> (r: Option<usize>)
    ensures
        match r {
            Some(at) => candidate(*dir) == Some(at as int) && at < dir.dirs@.len(),
            None => candidate(*dir) is None,
        },
{
    let mut i: usize = 0;
    while i < dir.dirs.len()
        invariant
            i <= dir.dirs.len(),
            forall|j: int| 0 <= j < i ==> !is_wrapper(ascii_lower(#[trigger] dir.dirs@[j].name@)),
        decreases dir.dirs.len() - i,
    {
        let lower = to_ascii_lower(dir.dirs[i].name.as_str());
        if wrapper(lower.as_str()) {
            proof {
                assert(is_first_wrapper(*dir, i as int));
                let other = choose|k: int| is_first_wrapper(*dir, k);
                if other < i {
                    assert(!is_wrapper(ascii_lower(dir.dirs@[other].name@)));
                } else if other > i {
                    assert(!is_wrapper(ascii_lower(dir.dirs@[i as int].name@)));
                }
            }
            return Some(i);
        }
        i = i + 1;
    }
    assert(!exists|k: int| is_first_wrapper(*dir, k));
    if dir.dirs.len() == 1 {
        Some(0)
    } else {
        None
    }
}

/// How many directories are stepped through at most.
pub const MAX_DESCENT: usize = 6;

/// The names stepped through from a directory to the game files, with at most `steps` steps; none
/// where they are not found.
pub open spec fn way_down(dir: DirNode, steps: nat) -> Option<Seq<Seq<char>>>
    decreases steps,
{
    if has_marker(dir) {
        Some(Seq::empty())
    } else if steps == 0 {
        None
    } else {
        match candidate(dir) {
            Some(at) => match way_down(dir.dirs@[at], (steps - 1) as nat) {
                Some(rest) => Some(seq![dir.dirs@[at].name@] + rest),
                None => None,
            },
            None => None,
        }
    }
}

/// How the directory of the game files was found.
#[derive(Debug, PartialEq, Eq)]
pub enum RootDetection {
    /// The chosen directory holds the game files itself.
    AsGiven,
    /// Directories around the game files were stepped through.
    Descended { through: Vec<String> },
}

impl RootDetection {
    /// The names that were stepped through.
    pub open spec fn steps(&self) -> Seq<Seq<char>> {
        match self {
            RootDetection::AsGiven => Seq::empty(),
            RootDetection::Descended { through } => texts(through@),
        }
    }

    /// How the detection is described.
    pub open spec fn description(&self) -> Seq<char> {
        match self {
            RootDetection::AsGiven => "used the chosen folder directly"@,
            RootDetection::Descended { through } => "descended through "@ + join(
                texts(through@),
                "/"@,
            ),
        }
    }

    /// Describes how the directory was found.
    pub fn describe(&self) -> (r: String)
        ensures
            r@ == self.description(),
    {
        match self {
            RootDetection::AsGiven => "used the chosen folder directly".to_owned(),
            RootDetection::Descended { through } => {
                let way = join_texts(through, "/");
                concat("descended through ", way.as_str())
            },
        }
    }
}

/// A path with some names joined to it, one behind the other.
pub open spec fn joined_all(base: Seq<char>, names: Seq<Seq<char>>) -> Seq<char>
    decreases names.len(),
{
    if names.len() == 0 {
        base
    } else {
        joined(joined_all(base, names.drop_last()), names.last())
    }
}

/// The message for a folder that is none.
pub open spec fn not_a_directory(base: Seq<char>) -> Seq<char> {
    base + " is not a directory"@
}

/// The message for a folder without game files.
pub open spec fn no_game_folder(base: Seq<char>) -> Seq<char> {
    "no fighter/, effect/, or ui/ folder found under "@ + base
        + " — is this an Arcropolis-style mod?"@
}

proof fn lemma_way_step(dir: DirNode, at: int, steps: nat)
    requires
        !has_marker(dir),
        steps > 0,
        candidate(dir) == Some(at),
    ensures
        way_down(dir, steps) == match way_down(dir.dirs@[at], (steps - 1) as nat) {
            Some(rest) => Some(seq![dir.dirs@[at].name@] + rest),
            None => None,
        },
{
}

/// Finds the directory of the game files in a chosen folder. `tree` is the folder's contents; none
/// where it is no directory.
pub fn detect_arc_root(base: &str, tree: Option<&DirNode>) -> (r: Result<
    (String, RootDetection),
    String,
>)
    ensures
        match tree {
            None => r is Err && r->Err_0@ == not_a_directory(base@),
            Some(dir) => match way_down(*dir, MAX_DESCENT as nat) {
                None => r is Err && r->Err_0@ == no_game_folder(base@),
                Some(way) => {
                    &&& r is Ok
                    &&& r->Ok_0.1.steps() == way
                    &&& (r->Ok_0.1 is AsGiven <==> has_marker(*dir))
                    &&& r->Ok_0.0@ == joined_all(base@, way)
                },
            },
        },
{
    let dir = match tree {
        Some(dir) => dir,
        None => {
            return Err(concat(base, " is not a directory"));
        },
    };
    if has_arc_marker(dir) {
        return Ok((base.to_owned(), RootDetection::AsGiven));
    }
    let mut current = dir;
    let mut path = base.to_owned();
    let mut through: Vec<String> = Vec::new();
    let mut left: usize = MAX_DESCENT;
    let ghost whole = way_down(*dir, MAX_DESCENT as nat);
    proof {
        assert(texts(through@) =~= Seq::empty());
        if way_down(*current, left as nat) is Some {
            assert(texts(through@) + way_down(*current, left as nat)->0 =~= way_down(
                *current,
                left as nat,
            )->0);
        }
    }
    while left > 0
        invariant
            left <= MAX_DESCENT,
            tree == Some(dir),
            !has_marker(*dir),
            !has_marker(*current),
            whole == way_down(*dir, MAX_DESCENT as nat),
            whole is Some <==> way_down(*current, left as nat) is Some,
            whole is Some ==> whole->0 == texts(through@) + way_down(*current, left as nat)->0,
            path@ == joined_all(base@, texts(through@)),
        decreases left,
    {
        match descend_candidate(current) {
            Some(at) => {
                let ghost before_way = way_down(*current, left as nat);
                let ghost was = texts(through@);
                proof {
                    lemma_way_step(*current, at as int, left as nat);
                }
                let next = &current.dirs[at];
                let name = next.name.clone();
                path = join_path(path.as_str(), name.as_str());
                through.push(name);
                left = left - 1;
                proof {
                    assert(texts(through@) =~= was.push(next.name@));
                    assert(texts(through@).drop_last() =~= was);
                    if before_way is Some {
                        assert(was + before_way->0 =~= texts(through@) + way_down(
                            *next,
                            left as nat,
                        )->0);
                    }
                }
                current = next;
                if has_arc_marker(current) {
                    assert(texts(through@) + Seq::<Seq<char>>::empty() =~= texts(through@));
                    return Ok((path, RootDetection::Descended { through }));
                }
            },
            None => {
                left = 0;
                assert(whole is None);
            },
        }
    }
    let mut message = "no fighter/, effect/, or ui/ folder found under ".to_owned();
    message.append(base);
    message.append(" — is this an Arcropolis-style mod?");
    Err(message)
}

/// What a mod provides for one fighter.
#[derive(Debug)]
pub struct FighterProvision {
    /// Costume slots, ascending.
    pub slots: Vec<u8>,
    pub has_model: bool,
    pub has_motion: bool,
    pub has_param: bool,
    pub has_effect: bool,
    pub file_count: usize,
}

/// A fighter and what a mod provides for it.
#[derive(Debug)]
pub struct FighterEntry {
    pub name: String,
    pub provision: FighterProvision,
}

/// What a mod provides.
#[derive(Debug)]
pub struct ModManifest {
    /// Every game file, as a path with slashes; ascending.
    pub paths: Vec<String>,
    /// What is provided for each fighter; ascending by name.
    pub fighters: Vec<FighterEntry>,
    /// Whether anything of the user interface is provided.
    pub provides_ui: bool,
    /// Compiled plugins, whose behaviour cannot be read.
    pub plugins: Vec<String>,
    /// How many files stand above every game directory.
    pub unrecognized: usize,
}

/// What a mod provides for one fighter, as sets and numbers.
pub struct ProvisionView {
    pub slots: Set<u8>,
    pub has_model: bool,
    pub has_motion: bool,
    pub has_param: bool,
    pub has_effect: bool,
    pub file_count: int,
}

/// What a mod provides, as sets and maps.
pub struct ManifestView {
    pub paths: Set<Seq<char>>,
    pub fighters: Map<Seq<char>, ProvisionView>,
    pub provides_ui: bool,
    pub plugins: Seq<Seq<char>>,
    pub unrecognized: int,
}

impl View for FighterProvision {
    type V = ProvisionView;

    open spec fn view(&self) -> ProvisionView {
        ProvisionView {
            slots: self.slots@.to_set(),
            has_model: self.has_model,
            has_motion: self.has_motion,
            has_param: self.has_param,
            has_effect: self.has_effect,
            file_count: self.file_count as int,
        }
    }
}

/// The names of a list of fighters.
pub open spec fn fighter_names(fighters: Seq<FighterEntry>) -> Seq<Seq<char>> {
    Seq::new(fighters.len(), |i: int| fighters[i].name@)
}

/// What a list of fighters provides for each name.
pub open spec fn fighter_map(fighters: Seq<FighterEntry>) -> Map<Seq<char>, ProvisionView> {
    Map::new(
        |name: Seq<char>| fighter_names(fighters).contains(name),
        |name: Seq<char>| fighters[fighter_names(fighters).index_of(name)].provision@,
    )
}

impl View for ModManifest {
    type V = ManifestView;

    open spec fn view(&self) -> ManifestView {
        ManifestView {
            paths: texts(self.paths@).to_set(),
            fighters: fighter_map(self.fighters@),
            provides_ui: self.provides_ui,
            plugins: texts(self.plugins@),
            unrecognized: self.unrecognized as int,
        }
    }
}

/// Whether numbers ascend, so that none occurs twice.
pub open spec fn slots_ascend(slots: Seq<u8>) -> bool {
    forall|i: int, j: int| 0 <= i < j < slots.len() ==> slots[i] < slots[j]
}

impl ModManifest {
    /// Whether every list ascends.
    pub open spec fn wf(&self) -> bool {
        &&& ascending(texts(self.paths@))
        &&& ascending(fighter_names(self.fighters@))
        &&& forall|i: int|
            0 <= i < self.fighters@.len() ==> slots_ascend(
                (#[trigger] self.fighters@[i]).provision.slots@,
            )
    }
}

impl Default for ModManifest {
    fn default() -> (r: ModManifest)
        ensures
            r.wf(),
            r@ == empty_manifest(),
            r.paths@.len() == 0,
            r.fighters@.len() == 0,
    {
        let r = ModManifest {
            paths: Vec::new(),
            fighters: Vec::new(),
            provides_ui: false,
            plugins: Vec::new(),
            unrecognized: 0,
        };
        assert(r@.paths =~= Set::empty());
        assert(r@.fighters =~= Map::empty());
        assert(r@.plugins =~= Seq::empty());
        r
    }
}

/// The manifest of a mod without files.
pub open spec fn empty_manifest() -> ManifestView {
    ManifestView {
        paths: Set::empty(),
        fighters: Map::empty(),
        provides_ui: false,
        plugins: Seq::empty(),
        unrecognized: 0,
    }
}

/// The slot that a directory name like `c08` names.
pub open spec fn slot_named(part: Seq<char>) -> Option<u8> {
    if part.len() > 0 && part[0] == 'c' {
        digits_u8(part.skip(1))
    } else {
        None
    }
}

/// The slot that a directory name like `c08` names. Slots run past one digit.
pub fn parse_slot(part: &str) -> (r: Option<u8>)
    ensures
        r == slot_named(part@),
{
    let v = chars_of(part);
    if v.len() > 0 && v[0] == 'c' {
        digits_to_u8(&v, 1)
    } else {
        None
    }
}

/// The slot in the file name of an effect: behind the last underscore of a name that ends in
/// `.eff`.
pub open spec fn effect_slot(file: Seq<char>) -> Option<u8> {
    if ends_with(file, ".eff"@) {
        slot_named(split(file.take(file.len() - ".eff"@.len()), '_').last())
    } else {
        None
    }
}

fn effect_file_slot(file: &str) -> (r: Option<u8>)
    ensures
        r == effect_slot(file@),
{
    if !has_suffix(file, ".eff") {
        return None;
    }
    proof {
        reveal_strlit(".eff");
    }
    let v = chars_of(file);
    let stem = string_between(&v, 0, v.len() - 4);
    assert(stem@ =~= file@.take(file@.len() - ".eff"@.len()));
    let parts = split_text(stem.as_str(), '_');
    proof {
        lemma_split_nonempty(stem@, '_');
    }
    assert(texts(parts@).last() == parts@[parts@.len() - 1]@);
    parse_slot(parts[parts.len() - 1].as_str())
}

/// The fighter that the pieces of a lower-case path belong to, and the pieces behind its name.
pub open spec fn fighter_parts(parts: Seq<Seq<char>>) -> Option<(Seq<char>, Seq<Seq<char>>)> {
    if parts.len() >= 2 && parts[0] == "fighter"@ {
        Some((parts[1], parts.skip(2)))
    } else if parts.len() >= 3 && parts[0] == "effect"@ && parts[1] == "fighter"@ {
        Some((parts[2], parts.skip(3)))
    } else {
        None
    }
}

/// The slots that the pieces behind a fighter's name speak of.
pub open spec fn slots_in(rest: Seq<Seq<char>>, in_effect: bool) -> Set<u8> {
    Set::new(
        |slot: u8|
            (exists|i: int| 0 <= i < rest.len() && slot_named(#[trigger] rest[i]) == Some(slot)) || (
            in_effect && rest.len() > 0 && effect_slot(rest.last()) == Some(slot)),
    )
}

/// What nothing is provided for.
pub open spec fn no_provision() -> ProvisionView {
    ProvisionView {
        slots: Set::empty(),
        has_model: false,
        has_motion: false,
        has_param: false,
        has_effect: false,
        file_count: 0,
    }
}

/// A fighter's provision with one more file.
pub open spec fn provided(
    was: ProvisionView,
    rest: Seq<Seq<char>>,
    in_effect: bool,
) -> ProvisionView {
    ProvisionView {
        slots: was.slots.union(slots_in(rest, in_effect)),
        has_model: was.has_model || (rest.len() > 0 && rest[0] == "model"@),
        has_motion: was.has_motion || (rest.len() > 0 && rest[0] == "motion"@),
        has_param: was.has_param || (rest.len() > 0 && rest[0] == "param"@),
        has_effect: was.has_effect || in_effect,
        file_count: was.file_count + 1,
    }
}

/// A manifest with one more file. A plugin is listed as it is spelt; a file above every game
/// directory is only counted; every other file is listed, and belongs to the interface, to a
/// fighter, or to neither.
pub open spec fn recorded(was: ManifestView, path: Seq<char>) -> ManifestView {
    let lower = ascii_lower(path);
    let parts = split(lower, '/');
    if ends_with(lower, ".nro"@) {
        ManifestView { plugins: was.plugins.push(path), ..was }
    } else if !is_marker(parts[0]) {
        ManifestView { unrecognized: was.unrecognized + 1, ..was }
    } else {
        let listed = ManifestView { paths: was.paths.insert(path), ..was };
        if parts[0] == "ui"@ {
            ManifestView { provides_ui: true, ..listed }
        } else {
            match fighter_parts(parts) {
                None => listed,
                Some((name, rest)) => ManifestView {
                    fighters: was.fighters.insert(
                        name,
                        provided(
                            if was.fighters.contains_key(name) {
                                was.fighters[name]
                            } else {
                                no_provision()
                            },
                            rest,
                            parts[0] == "effect"@,
                        ),
                    ),
                    ..listed
                },
            }
        }
    }
}

fn insert_slot(slots: &mut Vec<u8>, slot: u8)
    requires
        slots_ascend(old(slots)@),
    ensures
        slots_ascend(final(slots)@),
        final(slots)@.to_set() == old(slots)@.to_set().insert(slot),
{
    let ghost was = slots@;
    let mut i: usize = 0;
    while i < slots.len() && slots[i] < slot
        invariant
            i <= slots.len(),
            slots@ == was,
            forall|j: int| 0 <= j < i ==> #[trigger] was[j] < slot,
        decreases slots.len() - i,
    {
        i = i + 1;
    }
    if i < slots.len() && slots[i] == slot {
        assert(was[i as int] == slot);
        assert(was.to_set().insert(slot) =~= was.to_set());
        return ;
    }
    slots.insert(i, slot);
    proof {
        let now = slots@;
        let at = i as int;
        assert(now == was.insert(at, slot));
        assert forall|t: u8| now.to_set().contains(t) <==> was.to_set().insert(slot).contains(
            t,
        ) by {
            if was.contains(t) {
                let k = was.index_of(t);
                assert(now[if k < at { k } else { k + 1 }] == t);
            }
            if t == slot {
                assert(now[at] == t);
            }
            if now.contains(t) && t != slot {
                let k = now.index_of(t);
                assert(was[if k < at { k } else { k - 1 }] == t);
            }
        }
        assert(now.to_set() =~= was.to_set().insert(slot));
    }
}

/// Adds one file to what is provided for a fighter: `from` is where the pieces behind its name
/// begin.
fn provide(was: FighterProvision, parts: &Vec<String>, from: usize, in_effect: bool) -> (r:
    FighterProvision)
    requires
        from <= parts@.len(),
        slots_ascend(was.slots@),
        was.file_count < usize::MAX,
    ensures
        slots_ascend(r.slots@),
        r@ == provided(was@, texts(parts@).skip(from as int), in_effect),
{
    let ghost rest = texts(parts@).skip(from as int);
    let ghost was_slots = was.slots@.to_set();
    let mut slots = was.slots;
    let mut i: usize = from;
    assert(was_slots.union(slots_in(rest.take(0), false)) =~= was_slots);
    while i < parts.len()
        invariant
            from <= i <= parts@.len(),
            rest == texts(parts@).skip(from as int),
            slots_ascend(slots@),
            slots@.to_set() == was_slots.union(slots_in(rest.take(i - from), false)),
        decreases parts.len() - i,
    {
        let ghost before = slots@.to_set();
        let ghost now = rest.take(i - from + 1);
        let ghost prev = rest.take(i - from);
        let named = parse_slot(parts[i].as_str());
        assert(now.last() == parts@[i as int]@);
        assert forall|slot: u8| slots_in(now, false).contains(slot) <==> slots_in(
            prev,
            false,
        ).contains(slot) || named == Some(slot) by {
            if slots_in(prev, false).contains(slot) {
                let k = choose|k: int|
                    0 <= k < prev.len() && slot_named(#[trigger] prev[k]) == Some(slot);
                assert(now[k] == prev[k]);
            }
            if named == Some(slot) {
                assert(slot_named(now[now.len() - 1]) == Some(slot));
            }
            if slots_in(now, false).contains(slot) {
                let k = choose|k: int|
                    0 <= k < now.len() && slot_named(#[trigger] now[k]) == Some(slot);
                if k < prev.len() {
                    assert(prev[k] == now[k]);
                }
            }
        }
        match named {
            Some(slot) => {
                insert_slot(&mut slots, slot);
                assert(slots@.to_set() =~= was_slots.union(slots_in(now, false)));
            },
            None => {
                assert(slots@.to_set() =~= was_slots.union(slots_in(now, false)));
            },
        }
        i = i + 1;
    }
    assert(rest.take(rest.len() as int) =~= rest);
    let ghost from_dirs = slots@.to_set();
    let empty = parts.len() == from;
    let mut has_model = was.has_model;
    let mut has_motion = was.has_motion;
    let mut has_param = was.has_param;
    if !empty {
        assert(rest[0] == parts@[from as int]@);
        assert(rest.last() == parts@[parts@.len() - 1]@);
        let first = parts[from].as_str();
        has_model = has_model || same(first, "model");
        has_motion = has_motion || same(first, "motion");
        has_param = has_param || same(first, "param");
        if in_effect {
            match effect_file_slot(parts[parts.len() - 1].as_str()) {
                Some(slot) => {
                    insert_slot(&mut slots, slot);
                },
                None => {},
            }
        }
    }
    assert(slots@.to_set() =~= was_slots.union(slots_in(rest, in_effect)));
    FighterProvision {
        slots,
        has_model,
        has_motion,
        has_param,
        has_effect: was.has_effect || in_effect,
        file_count: was.file_count + 1,
    }
}

/// Where a fighter stands, or would stand, in an ascending list.
fn fighter_place(fighters: &Vec<FighterEntry>, name: &str) -> (at: usize)
    requires
        ascending(fighter_names(fighters@)),
    ensures
        at <= fighters@.len(),
        forall|j: int| 0 <= j < at ==> before(#[trigger] fighters@[j].name@, name@),
        at < fighters@.len() ==> !before(fighters@[at as int].name@, name@),
{
    let mut i: usize = 0;
    while i < fighters.len() && comes_before(fighters[i].name.as_str(), name)
        invariant
            i <= fighters.len(),
            forall|j: int| 0 <= j < i ==> before(#[trigger] fighters@[j].name@, name@),
        decreases fighters.len() - i,
    {
        i = i + 1;
    }
    i
}

proof fn lemma_ascending_place(names: Seq<Seq<char>>, at: int)
    requires
        ascending(names),
        0 <= at < names.len(),
    ensures
        names.contains(names[at]),
        names.index_of(names[at]) == at,
{
    assert(names[at] == names[at]);
    let k = names.index_of(names[at]);
    lemma_before_total(names[at], names[at]);
    if k < at {
        assert(before(names[k], names[at]));
    } else if k > at {
        assert(before(names[at], names[k]));
    }
}

/// Adds one file to what a manifest provides for a fighter.
fn record_fighter(
    manifest: &mut ModManifest,
    name: &str,
    parts: &Vec<String>,
    from: usize,
    in_effect: bool,
)
    requires
        old(manifest).wf(),
        from <= parts@.len(),
        forall|i: int|
            0 <= i < old(manifest).fighters@.len() ==> (#[trigger] old(
                manifest,
            ).fighters@[i]).provision.file_count < usize::MAX,
    ensures
        final(manifest).wf(),
        final(manifest)@ == (ManifestView {
            fighters: old(manifest)@.fighters.insert(
                name@,
                provided(
                    if old(manifest)@.fighters.contains_key(name@) {
                        old(manifest)@.fighters[name@]
                    } else {
                        no_provision()
                    },
                    texts(parts@).skip(from as int),
                    in_effect,
                ),
            ),
            ..old(manifest)@
        }),
{
    let ghost was = manifest.fighters@;
    let ghost names = fighter_names(was);
    let ghost rest = texts(parts@).skip(from as int);
    let at = fighter_place(&manifest.fighters, name);
    if at < manifest.fighters.len() && same(manifest.fighters[at].name.as_str(), name) {
        let entry = manifest.fighters.remove(at);
        let provision = provide(entry.provision, parts, from, in_effect);
        manifest.fighters.insert(at, FighterEntry { name: entry.name, provision });
        proof {
            let now = manifest.fighters@;
            lemma_ascending_place(names, at as int);
            assert(now =~= was.update(
                at as int,
                FighterEntry { name: was[at as int].name, provision },
            ));
            assert(fighter_names(now) =~= names);
            assert forall|other: Seq<char>| names.contains(other) && other != name@ implies (
            names.index_of(other) != at) by {}
            assert(fighter_map(now) =~= fighter_map(was).insert(name@, provision@));
        }
    } else {
        let provision = provide(
            FighterProvision {
                slots: Vec::new(),
                has_model: false,
                has_motion: false,
                has_param: false,
                has_effect: false,
                file_count: 0,
            },
            parts,
            from,
            in_effect,
        );
        manifest.fighters.insert(at, FighterEntry { name: name.to_owned(), provision });
        proof {
            assert(Seq::<u8>::empty().to_set() =~= Set::empty());
            let now = manifest.fighters@;
            assert forall|j: int| 0 <= j < at implies before(#[trigger] names[j], name@) by {
                assert(before(was[j].name@, name@));
            }
            lemma_ascending_insert(names, at as int, name@);
            assert(fighter_names(now) =~= names.insert(at as int, name@));
            let now_names = fighter_names(now);
            lemma_ascending_place(now_names, at as int);
            assert forall|other: Seq<char>| names.contains(other) implies now_names.contains(other)
                && now[now_names.index_of(other)] == was[names.index_of(other)] by {
                let k = names.index_of(other);
                lemma_ascending_place(names, k);
                let q = if k < at { k } else { k + 1 };
                assert(now_names[q] == other);
                lemma_ascending_place(now_names, q);
            }
            assert forall|other: Seq<char>| now_names.contains(other) && other
                != name@ implies names.contains(other) by {
                let q = now_names.index_of(other);
                let k = if q < at { q } else { q - 1 };
                assert(names[k] == other);
            }
            assert(fighter_map(now) =~= fighter_map(was).insert(name@, provision@));
            assert forall|i: int| 0 <= i < now.len() implies slots_ascend(
                (#[trigger] now[i]).provision.slots@,
            ) by {
                if i < at {
                    assert(now[i] == was[i]);
                } else if i > at {
                    assert(now[i] == was[i - 1]);
                }
            }
        }
    }
}

/// Classifies one game-relative path into the manifest.
pub fn record_path(manifest: &mut ModManifest, game_path: &str)
    requires
        old(manifest).wf(),
        old(manifest).unrecognized < usize::MAX,
        forall|i: int|
            0 <= i < old(manifest).fighters@.len() ==> (#[trigger] old(
                manifest,
            ).fighters@[i]).provision.file_count < usize::MAX,
    ensures
        final(manifest).wf(),
        final(manifest)@ == recorded(old(manifest)@, game_path@),
{
    let lower = to_ascii_lower(game_path);
    if has_suffix(lower.as_str(), ".nro") {
        let ghost was = texts(manifest.plugins@);
        manifest.plugins.push(game_path.to_owned());
        assert(texts(manifest.plugins@) =~= was.push(game_path@));
        return ;
    }
    let parts = split_text(lower.as_str(), '/');
    proof {
        lemma_split_nonempty(lower@, '/');
    }
    let ghost list = texts(parts@);
    assert(list[0] == parts@[0]@);
    if !marker(parts[0].as_str()) {
        manifest.unrecognized = manifest.unrecognized + 1;
        return ;
    }
    insert_ascending(&mut manifest.paths, game_path);
    if same(parts[0].as_str(), "ui") {
        manifest.provides_ui = true;
        return ;
    }
    if parts.len() >= 2 && same(parts[0].as_str(), "fighter") {
        assert(list[1] == parts@[1]@);
        proof {
            reveal_strlit("fighter");
            reveal_strlit("effect");
        }
        let name = parts[1].clone();
        record_fighter(manifest, name.as_str(), &parts, 2, false);
    } else if parts.len() >= 3 && same(parts[0].as_str(), "effect") && same(
        parts[1].as_str(),
        "fighter",
    ) {
        assert(list[1] == parts@[1]@);
        assert(list[2] == parts@[2]@);
        let name = parts[2].clone();
        record_fighter(manifest, name.as_str(), &parts, 3, true);
    } else {
        assert(list.len() >= 2 ==> list[1] == parts@[1]@);
        assert(fighter_parts(list) is None);
    }
}

/// What the walk over a mod does with one directory entry.
#[derive(Clone, Copy, Debug, PartialEq, Eq, Structural)]
pub enum WalkStep {
    Skip,
    Descend,
    Record,
}

/// Links are not followed: a link into the game would make the mod seem to provide all of it.
pub fn walk_step(is_symlink: bool, is_dir: bool) -> (r: WalkStep)
    ensures
        r == if is_symlink {
            WalkStep::Skip
        } else if is_dir {
            WalkStep::Descend
        } else {
            WalkStep::Record
        },
{
    if is_symlink {
        WalkStep::Skip
    } else if is_dir {
        WalkStep::Descend
    } else {
        WalkStep::Record
    }
}

/// The manifest of some files, recorded in order.
pub open spec fn manifest_of(files: Seq<Seq<char>>) -> ManifestView
    decreases files.len(),
{
    if files.len() == 0 {
        empty_manifest()
    } else {
        recorded(manifest_of(files.drop_last()), files.last())
    }
}

proof fn lemma_counts_small(files: Seq<Seq<char>>)
    ensures
        manifest_of(files).unrecognized <= files.len(),
        forall|name: Seq<char>| #[trigger]
            manifest_of(files).fighters.contains_key(name) ==> manifest_of(
                files,
            ).fighters[name].file_count <= files.len(),
    decreases files.len(),
{
    if files.len() > 0 {
        lemma_counts_small(files.drop_last());
    }
}

/// Records the files of a mod, given as game-relative paths in the order they were found.
pub fn scan_manifest(files: &Vec<String>) -> (r: ModManifest)
    requires
        files@.len() < usize::MAX,
    ensures
        r.wf(),
        r@ == manifest_of(texts(files@)),
{
    let mut r = ModManifest::default();
    let mut i: usize = 0;
    assert(texts(files@).take(0) =~= Seq::empty());
    while i < files.len()
        invariant
            i <= files@.len() < usize::MAX,
            r.wf(),
            r@ == manifest_of(texts(files@).take(i as int)),
        decreases files.len() - i,
    {
        let ghost list = texts(files@);
        proof {
            assert(list.take(i + 1).drop_last() =~= list.take(i as int));
            lemma_counts_small(list.take(i as int));
            assert forall|k: int| 0 <= k < r.fighters@.len() implies (
            #[trigger] r.fighters@[k]).provision.file_count < usize::MAX by {
                let names = fighter_names(r.fighters@);
                lemma_ascending_place(names, k);
                assert(r@.fighters.contains_key(names[k]));
                assert(r@.fighters[names[k]] == r.fighters@[k].provision@);
            }
        }
        record_path(&mut r, files[i].as_str());
        i = i + 1;
    }
    assert(texts(files@).take(files@.len() as int) =~= texts(files@));
    r
}

/// The fighter that a game path belongs to.
pub open spec fn path_fighter(path: Seq<char>) -> Option<Seq<char>> {
    match fighter_parts(split(ascii_lower(path), '/')) {
        Some((name, _)) => Some(name),
        None => None,
    }
}

/// The fighter that a game path belongs to.
pub fn fighter_of_path(game_path: &str) -> (r: Option<String>)
    ensures
        match r {
            Some(name) => path_fighter(game_path@) == Some(name@),
            None => path_fighter(game_path@) is None,
        },
{
    let lower = to_ascii_lower(game_path);
    let parts = split_text(lower.as_str(), '/');
    let ghost list = texts(parts@);
    proof {
        lemma_split_nonempty(lower@, '/');
        assert(list[0] == parts@[0]@);
        assert(list.len() >= 2 ==> list[1] == parts@[1]@);
        assert(list.len() >= 3 ==> list[2] == parts@[2]@);
        reveal_strlit("fighter");
        reveal_strlit("effect");
    }
    if parts.len() >= 2 && same(parts[0].as_str(), "fighter") {
        Some(parts[1].clone())
    } else if parts.len() >= 3 && same(parts[0].as_str(), "effect") && same(
        parts[1].as_str(),
        "fighter",
    ) {
        Some(parts[2].clone())
    } else {
        None
    }
}

/// A file is recorded for a fighter exactly when its path belongs to that fighter, so that what a
/// manifest lists by fighter is what conflicts are rolled up by.
pub proof fn law_fighters_are_those_of_the_paths(was: ManifestView, path: Seq<char>, name: Seq<char>)
    requires
        !ends_with(ascii_lower(path), ".nro"@),
        !was.fighters.contains_key(name),
    ensures
        recorded(was, path).fighters.contains_key(name) <==> path_fighter(path) == Some(name),
{
    let parts = split(ascii_lower(path), '/');
    lemma_split_nonempty(ascii_lower(path), '/');
    reveal_strlit("ui");
    reveal_strlit("fighter");
    reveal_strlit("effect");
    if fighter_parts(parts) is Some {
        assert(parts[0] == "fighter"@ || parts[0] == "effect"@);
        assert("fighter"@.len() == 7);
        assert("effect"@.len() == 6);
        assert("ui"@.len() == 2);
    }
}

/// A file is recorded in exactly one way, by its path in lower case and the directory that the path
/// begins with: as a plugin, as a file outside the game directories, or as a game file. Only a game
/// file can belong to the interface or to a fighter, and only its own fighter then has one file
/// more. All else in the manifest stays as it was.
pub proof fn law_a_file_is_recorded_once(was: ManifestView, path: Seq<char>)
    ensures
        ({
            let lower = ascii_lower(path);
            let top = split(lower, '/')[0];
            let now = recorded(was, path);
            &&& !top.contains('/') && top.is_prefix_of(lower)
            &&& top == lower || lower[top.len() as int] == '/'
            &&& if ends_with(lower, ".nro"@) {
                now == (ManifestView { plugins: was.plugins.push(path), ..was })
            } else if !is_marker(top) {
                now == (ManifestView { unrecognized: was.unrecognized + 1, ..was })
            } else {
                &&& now == (ManifestView {
                    paths: was.paths.insert(path),
                    provides_ui: was.provides_ui || top == "ui"@,
                    fighters: now.fighters,
                    ..was
                })
                &&& match path_fighter(path) {
                    Some(name) => {
                        &&& now.fighters.dom() == was.fighters.dom().insert(name)
                        &&& now.fighters[name].file_count == if was.fighters.contains_key(name) {
                            was.fighters[name].file_count + 1
                        } else {
                            1
                        }
                        &&& forall|other: Seq<char>|
                            other != name && was.fighters.contains_key(other)
                                ==> #[trigger] now.fighters[other] == was.fighters[other]
                    },
                    None => now.fighters == was.fighters,
                }
            }
        }),
{
    let lower = ascii_lower(path);
    let parts = split(lower, '/');
    lemma_split_first(lower, '/');
    reveal_strlit("ui");
    reveal_strlit("fighter");
    reveal_strlit("effect");
    assert("fighter"@.len() == 7);
    assert("effect"@.len() == 6);
    assert("ui"@.len() == 2);
    if let Some((name, rest)) = fighter_parts(parts) {
        assert(parts[0] != "ui"@);
        assert(recorded(was, path).fighters.dom() =~= was.fighters.dom().insert(name)
            || ends_with(lower, ".nro"@) || !is_marker(parts[0]));
    }
}

/// Recording a file never takes anything away from a manifest.
pub proof fn law_recording_only_adds(was: ManifestView, path: Seq<char>)
    ensures
        was.paths.subset_of(recorded(was, path).paths),
        was.provides_ui ==> recorded(was, path).provides_ui,
        was.plugins.is_prefix_of(recorded(was, path).plugins),
        was.unrecognized <= recorded(was, path).unrecognized,
        forall|name: Seq<char>|
            was.fighters.contains_key(name) ==> recorded(was, path).fighters.contains_key(name)
                && was.fighters[name].slots.subset_of(
                #[trigger] recorded(was, path).fighters[name].slots,
            ) && was.fighters[name].file_count <= recorded(was, path).fighters[name].file_count,
{
}

/// The top-level game directories are these eight, and the directories that wrap a mod these five;
/// no name is both.
pub proof fn law_wrappers_are_no_game_directories(name: Seq<char>)
    ensures
        !(is_marker(name) && is_wrapper(name)),
        is_marker(seq!['u', 'i']),
        is_marker(seq!['f', 'i', 'g', 'h', 't', 'e', 'r']),
        is_marker(seq!['e', 'f', 'f', 'e', 'c', 't']),
        is_marker(seq!['s', 'o', 'u', 'n', 'd']),
        is_marker(seq!['s', 't', 'a', 'g', 'e']),
        is_marker(seq!['c', 'a', 'm', 'e', 'r', 'a']),
        is_marker(seq!['p', 'a', 'r', 'a', 'm']),
        is_wrapper(seq!['r', 'o', 'm', 'f', 's']),
        is_wrapper(seq!['a', 'r', 'c']),
        is_wrapper(seq!['c', 'o', 'n', 't', 'e', 'n', 't', 's']),
{
    reveal_strlit("fighter");
    reveal_strlit("effect");
    reveal_strlit("ui");
    reveal_strlit("sound");
    reveal_strlit("stage");
    reveal_strlit("camera");
    reveal_strlit("param");
    reveal_strlit("prebuilt;");
    reveal_strlit("romfs");
    reveal_strlit("arc");
    reveal_strlit("atmosphere");
    reveal_strlit("contents");
    reveal_strlit("01006a800016e000");
    assert("ui"@ =~= seq!['u', 'i']);
    assert("fighter"@ =~= seq!['f', 'i', 'g', 'h', 't', 'e', 'r']);
    assert("effect"@ =~= seq!['e', 'f', 'f', 'e', 'c', 't']);
    assert("sound"@ =~= seq!['s', 'o', 'u', 'n', 'd']);
    assert("stage"@ =~= seq!['s', 't', 'a', 'g', 'e']);
    assert("camera"@ =~= seq!['c', 'a', 'm', 'e', 'r', 'a']);
    assert("param"@ =~= seq!['p', 'a', 'r', 'a', 'm']);
    assert("romfs"@ =~= seq!['r', 'o', 'm', 'f', 's']);
    assert("arc"@ =~= seq!['a', 'r', 'c']);
    assert("contents"@ =~= seq!['c', 'o', 'n', 't', 'e', 'n', 't', 's']);
    if is_marker(name) && is_wrapper(name) {
        assert(name[0] == 'f' || name[0] == 'e' || name[0] == 'u' || name[0] == 's' || name[0]
            == 'c' || name[0] == 'p');
        assert(name[0] == 'r' || name[0] == 'a' || name[0] == 'c' || name[0] == '0');
        assert(name == "camera"@ && name == "contents"@);
        assert(name.len() == 6 && name.len() == 8);
    }
}

/// The directory that is some names below another.
pub open spec fn stepped(dir: DirNode, names: Seq<Seq<char>>, last: DirNode) -> bool
    decreases names.len(),
{
    if names.len() == 0 {
        dir == last
    } else {
        exists|i: int|
            0 <= i < dir.dirs@.len() && (#[trigger] dir.dirs@[i]).name@ == names[0] && stepped(
                dir.dirs@[i],
                names.skip(1),
                last,
            )
    }
}

/// Game files are found without a step where they are. Else the way goes through a wrapper, or the
/// only directory there is, and ends at a directory that holds a game directory; it takes no more
/// steps than it may.
pub proof fn law_the_way_down_ends_at_game_files(dir: DirNode, steps: nat)
    ensures
        has_marker(dir) ==> way_down(dir, steps) == Some(Seq::<Seq<char>>::empty()),
        way_down(dir, steps) is Some ==> way_down(dir, steps)->0.len() <= steps,
        way_down(dir, steps) is Some ==> exists|last: DirNode| #[trigger]
            has_marker(last) && stepped(dir, way_down(dir, steps)->0, last),
        way_down(dir, steps) is Some && !has_marker(dir) ==> is_wrapper(
            ascii_lower(way_down(dir, steps)->0[0]),
        ) || dir.dirs@.len() == 1,
        way_down(dir, steps) is Some ==> way_down(dir, steps + 1) == way_down(dir, steps),
    decreases steps,
{
    if has_marker(dir) {
        assert(stepped(dir, Seq::empty(), dir));
    } else if steps > 0 {
        match candidate(dir) {
            Some(at) => {
                if exists|i: int| is_first_wrapper(dir, i) {
                    assert(is_first_wrapper(dir, at));
                }
                let next = dir.dirs@[at];
                law_the_way_down_ends_at_game_files(next, (steps - 1) as nat);
                if way_down(next, (steps - 1) as nat) is Some {
                    let rest = way_down(next, (steps - 1) as nat)->0;
                    let last = choose|last: DirNode| #[trigger]
                        has_marker(last) && stepped(next, rest, last);
                    let all = seq![next.name@] + rest;
                    assert(all.skip(1) =~= rest);
                    assert(dir.dirs@[at].name@ == all[0]);
                    assert(stepped(dir, all, last));
                    assert((steps - 1) as nat + 1 == steps);
                }
            },
            None => {},
        }
    }
}

/// A wrapper is stepped into before anything else, and the first of them.
pub proof fn law_the_first_wrapper_is_stepped_into(dir: DirNode, at: int)
    requires
        0 <= at < dir.dirs@.len(),
        is_wrapper(ascii_lower(dir.dirs@[at].name@)),
        forall|j: int| 0 <= j < at ==> !is_wrapper(ascii_lower(#[trigger] dir.dirs@[j].name@)),
    ensures
        candidate(dir) == Some(at),
{
    assert(is_first_wrapper(dir, at));
    let i = choose|i: int| is_first_wrapper(dir, i);
    assert(is_first_wrapper(dir, i));
    if i < at {
        assert(!is_wrapper(ascii_lower(dir.dirs@[i].name@)));
    }
    if at < i {
        assert(!is_wrapper(ascii_lower(dir.dirs@[at].name@)));
    }
}

/// A directory names the slot whose number it writes behind the letter, and no name without that
/// letter names one.
pub proof fn law_a_slot_directory_names_its_slot(slot: u8, part: Seq<char>)
    ensures
        slot_named(seq!['c'] + two_digits(slot as nat)) == Some(slot),
        slot_named(part) is Some ==> part[0] == 'c' && part.len() > 1 && digits_value(part.skip(1))
            == slot_named(part)->0,
        slot_named(part) is Some ==> forall|i: int|
            1 <= i < part.len() ==> '0' <= #[trigger] part[i] && part[i] <= '9',
{
    lemma_two_digits_reads_back(slot as nat);
    assert((seq!['c'] + two_digits(slot as nat)).skip(1) =~= two_digits(slot as nat));
    if slot_named(part) is Some {
        assert forall|i: int| 1 <= i < part.len() implies '0' <= #[trigger] part[i] && part[i]
            <= '9' by {
            assert(part.skip(1)[i - 1] == part[i]);
        }
    }
}

/// The slot of an effect file is the number behind its last underscore.
pub proof fn law_an_effect_file_names_its_slot(base: Seq<char>, slot: u8)
    ensures
        effect_slot(base + "_c"@ + two_digits(slot as nat) + ".eff"@) == Some(slot),
{
    reveal_strlit(".eff");
    reveal_strlit("_c");
    let digits = two_digits(slot as nat);
    let part = seq!['c'] + digits;
    let file = base + "_c"@ + digits + ".eff"@;
    assert(file.subrange(file.len() - 4, file.len() as int) =~= ".eff"@);
    lemma_two_digits_reads_back(slot as nat);
    law_a_slot_directory_names_its_slot(slot, part);
    assert(file.take(file.len() - 4) =~= base.push('_') + part);
    assert forall|i: int| 0 <= i < part.len() implies part[i] != '_' by {
        if i > 0 {
            assert(part[i] == digits[i - 1]);
        }
    }
    lemma_split_append(base.push('_'), part, '_');
    assert(base.push('_').drop_last() =~= base);
    assert(split(base.push('_'), '_') == split(base, '_').push(Seq::empty()));
    assert(Seq::<char>::empty() + part =~= part);
}

/// The fighter of a path is the name behind the fighter directory, and in the effects the name
/// behind the fighter directory there; what stands behind the name is the rest.
pub proof fn law_a_path_belongs_to_the_fighter_it_names(rest: Seq<Seq<char>>, name: Seq<char>)
    ensures
        fighter_parts(seq!["fighter"@, name] + rest) == Some((name, rest)),
        fighter_parts(seq!["effect"@, "fighter"@, name] + rest) == Some((name, rest)),
        fighter_parts(seq!["ui"@, name] + rest) is None,
        fighter_parts(seq!["sound"@, name] + rest) is None,
{
    reveal_strlit("fighter");
    reveal_strlit("effect");
    reveal_strlit("ui");
    reveal_strlit("sound");
    let body = seq!["fighter"@, name] + rest;
    let effect = seq!["effect"@, "fighter"@, name] + rest;
    assert(body.skip(2) =~= rest);
    assert(effect.skip(3) =~= rest);
    assert("effect"@.len() == 6 && "fighter"@.len() == 7 && "ui"@.len() == 2 && "sound"@.len()
        == 5);
    assert((seq!["ui"@, name] + rest)[0] == "ui"@);
    assert((seq!["sound"@, name] + rest)[0] == "sound"@);
}

/// One more file of a fighter adds one to its files, adds the slots that its directories and, for an
/// effect, its name speak of, and says of a model, motions or parameters only where it stands among
/// them.
pub proof fn law_a_file_adds_what_it_stands_for(
    was: ProvisionView,
    rest: Seq<Seq<char>>,
    in_effect: bool,
    slot: u8,
)
    ensures
        ({
            let now = provided(was, rest, in_effect);
            &&& now.file_count == was.file_count + 1
            &&& now.slots.contains(slot) <==> was.slots.contains(slot) || (exists|i: int|
                0 <= i < rest.len() && slot_named(#[trigger] rest[i]) == Some(slot)) || (in_effect
                && rest.len() > 0 && effect_slot(rest.last()) == Some(slot))
            &&& now.has_effect <==> was.has_effect || in_effect
            &&& now.has_model <==> was.has_model || (rest.len() > 0 && rest[0] == "model"@)
            &&& now.has_motion <==> was.has_motion || (rest.len() > 0 && rest[0] == "motion"@)
            &&& now.has_param <==> was.has_param || (rest.len() > 0 && rest[0] == "param"@)
        }),
{
}

/// The manifest of some files and more is that of the first with each of the rest recorded.
pub proof fn law_files_are_recorded_in_order(files: Seq<Seq<char>>, more: Seq<char>)
    ensures
        manifest_of(files.push(more)) == recorded(manifest_of(files), more),
        manifest_of(Seq::empty()).paths.len() == 0,
        manifest_of(Seq::empty()).unrecognized == 0,
        manifest_of(Seq::empty()).plugins.len() == 0,
        !manifest_of(Seq::empty()).provides_ui,
{
    assert(files.push(more).drop_last() =~= files);
}

/// A link is never followed, a directory is walked into, and a file is recorded.
pub proof fn law_links_are_not_followed(is_symlink: bool, is_dir: bool, r: WalkStep)
    requires
        call_ensures(walk_step, (is_symlink, is_dir), r),
    ensures
        r == WalkStep::Skip <==> is_symlink,
        r == WalkStep::Descend <==> is_dir && !is_symlink,
        r == WalkStep::Record <==> !is_dir && !is_symlink,
{
}

/// A directory holds game files exactly where one of the directories in it has the name of a game
/// directory, in whatever case.
pub proof fn law_a_game_directory_marks_its_parent(dir: DirNode, i: int)
    requires
        0 <= i < dir.dirs@.len(),
    ensures
        is_marker(ascii_lower(dir.dirs@[i].name@)) ==> has_marker(dir),
        (forall|k: int|
            0 <= k < dir.dirs@.len() ==> !is_marker(ascii_lower(#[trigger] dir.dirs@[k].name@)))
            ==> !has_marker(dir),
{
    let one = dir.dirs@[i].name@;
}

/// The names stepped through are joined to the path one behind the other.
pub proof fn law_steps_are_joined_in_order(base: Seq<char>, names: Seq<Seq<char>>, more: Seq<char>)
    ensures
        joined_all(base, Seq::empty()) == base,
        joined_all(base, names.push(more)) == joined(joined_all(base, names), more),
{
    assert(names.push(more).drop_last() =~= names);
}

} // verus!
