//! The character select screen database. A character's place on the select screen is the
//! `disp_order` of its row, and `can_select` is written together with it.

use vstd::prelude::*;
use vstd::string::*;

use crate::params::{
    field, field_place, field_value, find_field, hash_name, lemma_field_place,
    lemma_field_place_by_hashes, name_hash, set_value, table_rows, ParamKind, ParamStruct,
};
use crate::paths::{join_path, joined};
use crate::text::{
    ascending, ascii_lower, concat, law_lowering_changes_capitals_alone, lemma_picks_first,
    picks_first, same, texts,
    to_ascii_lower,
};

verus! {

/// `disp_order` of a row that is not on the select screen.
pub const OFF_ROSTER: i8 = -1;

/// `disp_order` of the Random cell. It is no place.
pub const RANDOM_SLOT_ORDER: i8 = 99;

/// Where the database stands in a dumped game.
pub const CHARA_DB_PATH: &'static str = "ui/param/database/ui_chara_db.prc";

/// The path of the database under a root.
pub fn chara_db_under(root: &str) -> (r: String)
    ensures
        r@ == joined(root@, CHARA_DB_PATH@),
{
    join_path(root, CHARA_DB_PATH)
}

/// The first root that has the database; `has_db` says which do. The data root comes first, then
/// the mod roots in load order.
pub fn locate_ui_root(roots: &Vec<String>, has_db: &Vec<bool>) -> (r: Option<String>)
    requires
        roots@.len() == has_db@.len(),
    ensures
        picks_first(roots@, has_db@, r),
{
    let mut i: usize = 0;
    while i < roots.len()
        invariant
            i <= roots.len(),
            roots@.len() == has_db@.len(),
            forall|j: int| 0 <= j < i ==> !#[trigger] has_db@[j],
        decreases roots.len() - i,
    {
        if has_db[i] {
            assert(has_db@[i as int]);
            return Some(roots[i].clone());
        }
        i = i + 1;
    }
    None
}

/// The `fighter_kind` value of a fighter's directory name.
pub open spec fn kind_hash(fighter: Seq<char>) -> u64 {
    name_hash("fighter_kind_"@ + ascii_lower(fighter))
}

/// The `fighter_kind` value of a fighter's directory name.
pub fn fighter_kind_hash(fighter: &str) -> (r: u64)
    ensures
        r == kind_hash(fighter@),
{
    let lower = to_ascii_lower(fighter);
    let name = concat("fighter_kind_", lower.as_str());
    hash_name(name.as_str())
}

/// One row of the database, as far as the roster reasons about it.
#[derive(Debug, Clone, PartialEq)]
pub struct CharaRow {
    /// Place in the file; not on the select screen.
    pub index: usize,
    pub name_id: String,
    pub ui_chara_id: u64,
    pub fighter_kind: u64,
    pub disp_order: i8,
    pub save_no: i8,
    pub can_select: bool,
    /// How many costumes the select screen offers.
    pub color_num: u8,
}

impl CharaRow {
    /// Whether the row occupies a cell.
    pub open spec fn has_cell(&self) -> bool {
        self.disp_order != OFF_ROSTER && self.disp_order != RANDOM_SLOT_ORDER && self.can_select
    }

    /// Whether the row occupies a cell of the select screen.
    pub fn on_roster(&self) -> (r: bool)
        ensures
            r == self.has_cell(),
    {
        self.disp_order != OFF_ROSTER && self.disp_order != RANDOM_SLOT_ORDER && self.can_select
    }
}

/// The rows of the file.
pub open spec fn db_rows(root: ParamStruct) -> Seq<ParamKind> {
    match table_rows(root, "db_root"@) {
        Some(rows) => rows,
        None => Seq::empty(),
    }
}

/// The fields of a row.
pub open spec fn row_fields(row: ParamKind) -> Seq<(u64, ParamKind)> {
    match row {
        ParamKind::Struct(fields) => fields.0@,
        _ => Seq::empty(),
    }
}

/// The name of a row; a row without one is not a character.
pub open spec fn row_name(row: ParamKind) -> Option<Seq<char>> {
    match row {
        ParamKind::Struct(fields) => match field_value(fields.0@, name_hash("name_id"@)) {
            Some(ParamKind::Str(name)) => Some(name@),
            _ => None,
        },
        _ => None,
    }
}

/// The hash in a field, or zero.
pub open spec fn hash_in(fields: Seq<(u64, ParamKind)>, name: Seq<char>) -> u64 {
    match field_value(fields, name_hash(name)) {
        Some(ParamKind::Hash(value)) => value,
        _ => 0,
    }
}

/// The small number in a field, or that of a row off the roster.
pub open spec fn i8_in(fields: Seq<(u64, ParamKind)>, name: Seq<char>) -> i8 {
    match field_value(fields, name_hash(name)) {
        Some(ParamKind::I8(value)) => value,
        _ => OFF_ROSTER,
    }
}

/// The byte in a field, or zero.
pub open spec fn u8_in(fields: Seq<(u64, ParamKind)>, name: Seq<char>) -> u8 {
    match field_value(fields, name_hash(name)) {
        Some(ParamKind::U8(value)) => value,
        _ => 0,
    }
}

/// The flag in a field, or false.
pub open spec fn bool_in(fields: Seq<(u64, ParamKind)>, name: Seq<char>) -> bool {
    match field_value(fields, name_hash(name)) {
        Some(ParamKind::Bool(value)) => value,
        _ => false,
    }
}

/// Whether a row was lifted from place `index` of the file.
pub open spec fn is_lifted(row: CharaRow, rows: Seq<ParamKind>, index: int) -> bool {
    let fields = row_fields(rows[index]);
    &&& row.index == index
    &&& row_name(rows[index]) == Some(row.name_id@)
    &&& row.ui_chara_id == hash_in(fields, "ui_chara_id"@)
    &&& row.fighter_kind == hash_in(fields, "fighter_kind"@)
    &&& row.disp_order == i8_in(fields, "disp_order"@)
    &&& row.save_no == i8_in(fields, "save_no"@)
    &&& row.can_select == bool_in(fields, "can_select"@)
    &&& row.color_num == u8_in(fields, "color_num"@)
}

/// The places of the rows that are characters.
pub open spec fn chara_places(rows: Seq<ParamKind>) -> Seq<int>
    decreases rows.len(),
{
    if rows.len() == 0 {
        Seq::empty()
    } else if row_name(rows.last()) is Some {
        chara_places(rows.drop_last()).push(rows.len() - 1)
    } else {
        chara_places(rows.drop_last())
    }
}

/// Whether a list is what is lifted from the file.
pub open spec fn is_lift(entries: Seq<CharaRow>, rows: Seq<ParamKind>) -> bool {
    &&& entries.len() == chara_places(rows).len()
    &&& forall|k: int|
        0 <= k < entries.len() ==> is_lifted(#[trigger] entries[k], rows, chara_places(rows)[k])
}

/// The first row of a name.
pub open spec fn row_place(rows: Seq<ParamKind>, name: Seq<char>) -> Option<int>
    decreases rows.len(),
{
    if rows.len() == 0 {
        None
    } else {
        match row_place(rows.drop_last(), name) {
            Some(at) => Some(at),
            None => if row_name(rows.last()) == Some(name) {
                Some(rows.len() - 1)
            } else {
                None
            },
        }
    }
}

/// The fields of the first row of a name.
pub open spec fn fields_of(root: ParamStruct, name: Seq<char>) -> Option<Seq<(u64, ParamKind)>> {
    match row_place(db_rows(root), name) {
        Some(at) => Some(row_fields(db_rows(root)[at])),
        None => None,
    }
}

/// Whether a character has a field.
pub open spec fn has_field(root: ParamStruct, name: Seq<char>, field: Seq<char>) -> bool {
    match fields_of(root, name) {
        Some(fields) => field_place(fields, name_hash(field)) is Some,
        None => false,
    }
}

/// The value of a character's field.
pub open spec fn value_of(root: ParamStruct, name: Seq<char>, hash: u64) -> Option<ParamKind> {
    match fields_of(root, name) {
        Some(fields) => field_value(fields, hash),
        None => None,
    }
}

/// The message for a character that is not in the database.
pub open spec fn no_row(name: Seq<char>) -> Seq<char> {
    "no character select entry named "@ + name
}

/// The message for a character without a field.
pub open spec fn no_field(name: Seq<char>, field: Seq<char>) -> Seq<char> {
    "entry "@ + name + " has no "@ + field + " field"@
}

fn missing_field_text(name_id: &str, field: &str) -> (r: String)
    ensures
        r@ == no_field(name_id@, field@),
{
    let mut message = concat("entry ", name_id);
    message.append(" has no ");
    message.append(field);
    message.append(" field");
    message
}

/// Whether two files agree but for the value of one field of one character.
pub open spec fn edited(
    was: ParamStruct,
    now: ParamStruct,
    name: Seq<char>,
    hash: u64,
    value: ParamKind,
) -> bool {
    let table = field_place(was.0@, name_hash("db_root"@))->0;
    let at = row_place(db_rows(was), name)->0;
    let fields = row_fields(db_rows(was)[at]);
    let place = field_place(fields, hash)->0;
    &&& now.0@.len() == was.0@.len()
    &&& forall|i: int| 0 <= i < was.0@.len() ==> (#[trigger] now.0@[i]).0 == was.0@[i].0
    &&& forall|i: int| 0 <= i < was.0@.len() && i != table ==> #[trigger] now.0@[i] == was.0@[i]
    &&& db_rows(now).len() == db_rows(was).len()
    &&& forall|i: int|
        0 <= i < db_rows(was).len() && i != at ==> #[trigger] db_rows(now)[i] == db_rows(was)[i]
    &&& db_rows(now)[at] is Struct
    &&& row_fields(db_rows(now)[at]) == fields.update(place, (hash, value))
}

/// Puts a value into a character's field, if there is one to put and the field is there.
pub open spec fn field_set(
    was: ParamStruct,
    now: ParamStruct,
    name: Seq<char>,
    field: Seq<char>,
    value: Option<ParamKind>,
    done: bool,
) -> bool {
    match value {
        Some(value) => if has_field(was, name, field) {
            done && edited(was, now, name, name_hash(field), value)
        } else {
            !done && now == was
        },
        None => done && now == was,
    }
}

/// Whether a character has both fields that placing it writes.
pub open spec fn can_be_placed(root: ParamStruct, name: Seq<char>) -> bool {
    has_field(root, name, "disp_order"@) && has_field(root, name, "can_select"@)
}

/// Whether a character was put at a place of the select screen. The place and whether the character
/// can be selected are written together; where one of the two fields is missing, nothing is.
pub open spec fn placed(
    was: ParamStruct,
    now: ParamStruct,
    name: Seq<char>,
    order: i8,
    done: bool,
) -> bool {
    &&& done == can_be_placed(was, name)
    &&& if done {
        exists|mid: ParamStruct| #[trigger]
            edited(was, mid, name, name_hash("disp_order"@), ParamKind::I8(order)) && edited(
                mid,
                now,
                name,
                name_hash("can_select"@),
                ParamKind::Bool(order != OFF_ROSTER),
            )
    } else {
        now == was
    }
}

/// What the row of a character reads once the character was placed.
pub open spec fn reads_placed(row: CharaRow, order: i8) -> bool {
    &&& row.disp_order == order
    &&& row.can_select == (order != OFF_ROSTER)
    &&& row.has_cell() == (order != OFF_ROSTER && order != RANDOM_SLOT_ORDER)
}

/// Whether the overrides of a character were written: the number of costumes, and when that is
/// done, the save number.
pub open spec fn patched(
    was: ParamStruct,
    now: ParamStruct,
    name: Seq<char>,
    patch: CharaOverrides,
    done: bool,
) -> bool {
    exists|mid: ParamStruct, first: bool| #[trigger]
        field_set(was, mid, name, "color_num"@, patch.color_kind(), first) && if first {
            field_set(mid, now, name, "save_no"@, patch.save_kind(), done)
        } else {
            !done && now == mid
        }
}

/// The names for which something was not done.
pub open spec fn undone(names: Seq<Seq<char>>, done: Seq<bool>) -> Seq<Seq<char>>
    decreases names.len(),
{
    if names.len() == 0 {
        Seq::empty()
    } else if done[names.len() - 1] {
        undone(names.drop_last(), done)
    } else {
        undone(names.drop_last(), done).push(names.last())
    }
}

/// The names of a list of places.
pub open spec fn order_names(order: Seq<(String, i8)>) -> Seq<Seq<char>> {
    order.map_values(|e: (String, i8)| e.0@)
}

/// The names of a list of overrides.
pub open spec fn patch_names(patches: Seq<(String, CharaOverrides)>) -> Seq<Seq<char>> {
    patches.map_values(|e: (String, CharaOverrides)| e.0@)
}

/// Whether the files in `states` come from placing the characters of `order` one by one.
pub open spec fn order_run(
    states: Seq<ParamStruct>,
    done: Seq<bool>,
    order: Seq<(String, i8)>,
) -> bool {
    &&& states.len() == order.len() + 1
    &&& done.len() == order.len()
    &&& forall|i: int|
        0 <= i < order.len() ==> placed(
            #[trigger] states[i],
            states[i + 1],
            order[i].0@,
            order[i].1,
            done[i],
        )
}

/// Whether the files in `states` come from writing the overrides one by one.
pub open spec fn patch_run(
    states: Seq<ParamStruct>,
    done: Seq<bool>,
    patches: Seq<(String, CharaOverrides)>,
) -> bool {
    &&& states.len() == patches.len() + 1
    &&& done.len() == patches.len()
    &&& forall|i: int|
        0 <= i < patches.len() ==> patched(
            #[trigger] states[i],
            states[i + 1],
            patches[i].0@,
            patches[i].1,
            done[i],
        )
}

/// What a project changes of a row besides its place.
#[derive(Debug, Clone, Copy, PartialEq, Eq)]
pub struct CharaOverrides {
    pub color_num: Option<u8>,
    pub save_no: Option<i8>,
}

impl CharaOverrides {
    /// The number of costumes to write.
    pub open spec fn color_kind(&self) -> Option<ParamKind> {
        match self.color_num {
            Some(n) => Some(ParamKind::U8(n)),
            None => None,
        }
    }

    /// The save number to write.
    pub open spec fn save_kind(&self) -> Option<ParamKind> {
        match self.save_no {
            Some(n) => Some(ParamKind::I8(n)),
            None => None,
        }
    }
}

/// A loaded database.
#[derive(Debug)]
pub struct CharaDb {
    /// The whole file: what is edited and written back, so that what is not lifted survives.
    pub root: ParamStruct,
    /// The lifted rows.
    pub entries: Vec<CharaRow>,
}

proof fn lemma_places(rows: Seq<ParamKind>)
    ensures
        forall|k: int|
            0 <= k < chara_places(rows).len() ==> 0 <= #[trigger] chara_places(rows)[k]
                < rows.len() && row_name(rows[chara_places(rows)[k]]) is Some,
        forall|j: int, k: int|
            0 <= j < k < chara_places(rows).len() ==> chara_places(rows)[j] < chara_places(rows)[k],
        forall|i: int|
            0 <= i < rows.len() && row_name(#[trigger] rows[i]) is Some ==> chara_places(
                rows,
            ).contains(i),
    decreases rows.len(),
{
    if rows.len() > 0 {
        let front = rows.drop_last();
        lemma_places(front);
        let was = chara_places(front);
        let now = chara_places(rows);
        assert forall|k: int| 0 <= k < now.len() implies 0 <= #[trigger] now[k] < rows.len()
            && row_name(rows[now[k]]) is Some by {
            if k < was.len() {
                assert(now[k] == was[k]);
                assert(front[was[k]] == rows[was[k]]);
            }
        }
        assert forall|i: int| 0 <= i < rows.len() && row_name(
            #[trigger] rows[i],
        ) is Some implies now.contains(i) by {
            if i < front.len() {
                assert(front[i] == rows[i]);
                let k = was.index_of(i);
                assert(now[k] == i);
            } else {
                assert(now[now.len() - 1] == i);
            }
        }
    }
}

proof fn lemma_row_place(rows: Seq<ParamKind>, name: Seq<char>)
    ensures
        match row_place(rows, name) {
            Some(at) => 0 <= at < rows.len() && row_name(rows[at]) == Some(name) && forall|j: int|
                0 <= j < at ==> row_name(#[trigger] rows[j]) != Some(name),
            None => forall|j: int|
                0 <= j < rows.len() ==> row_name(#[trigger] rows[j]) != Some(name),
        },
    decreases rows.len(),
{
    if rows.len() > 0 {
        lemma_row_place(rows.drop_last(), name);
        assert forall|j: int| 0 <= j < rows.len() - 1 implies rows[j] == rows.drop_last()[j] by {}
    }
}

proof fn lemma_row_place_by_names(a: Seq<ParamKind>, b: Seq<ParamKind>, name: Seq<char>)
    requires
        a.len() == b.len(),
        forall|i: int| 0 <= i < a.len() ==> row_name(#[trigger] a[i]) == row_name(b[i]),
    ensures
        row_place(a, name) == row_place(b, name),
    decreases a.len(),
{
    if a.len() > 0 {
        assert forall|i: int| 0 <= i < a.len() - 1 implies row_name(#[trigger] a.drop_last()[i])
            == row_name(b.drop_last()[i]) by {
            assert(a.drop_last()[i] == a[i]);
        }
        lemma_row_place_by_names(a.drop_last(), b.drop_last(), name);
        assert(row_name(a[a.len() - 1]) == row_name(b[b.len() - 1]));
    }
}

/// The first lifted row of a name is the first row of that name in the file.
proof fn lemma_lift_place(entries: Seq<CharaRow>, rows: Seq<ParamKind>, name: Seq<char>, k: int)
    requires
        is_lift(entries, rows),
        0 <= k < entries.len(),
        entries[k].name_id@ == name,
        forall|j: int| 0 <= j < k ==> (#[trigger] entries[j]).name_id@ != name,
    ensures
        row_place(rows, name) == Some(entries[k].index as int),
{
    lemma_places(rows);
    lemma_row_place(rows, name);
    let places = chara_places(rows);
    assert(is_lifted(entries[k], rows, places[k]));
    let at = row_place(rows, name);
    assert(at is Some) by {
        assert(row_name(rows[places[k]]) == Some(name));
    }
    let j = places.index_of(at->0);
    assert(places.contains(at->0)) by {
        assert(row_name(rows[at->0]) is Some);
    }
    assert(is_lifted(entries[j], rows, places[j]));
    if j < k {
        assert(entries[j].name_id@ != name);
    } else if j > k {
        assert(places[k] < places[j]);
        assert(row_name(rows[places[k]]) == Some(name));
    }
}

proof fn lemma_no_lift_place(entries: Seq<CharaRow>, rows: Seq<ParamKind>, name: Seq<char>)
    requires
        is_lift(entries, rows),
        forall|j: int| 0 <= j < entries.len() ==> (#[trigger] entries[j]).name_id@ != name,
    ensures
        row_place(rows, name) is None,
{
    lemma_places(rows);
    lemma_row_place(rows, name);
    let at = row_place(rows, name);
    if at is Some {
        assert(row_name(rows[at->0]) is Some);
        let j = chara_places(rows).index_of(at->0);
        assert(is_lifted(entries[j], rows, chara_places(rows)[j]));
        assert(entries[j].name_id@ == name);
    }
}

fn hash_field(entry: &ParamStruct, name: &str) -> (r: u64)
    ensures
        r == hash_in(entry.0@, name@),
{
    match field(entry, name) {
        Some(ParamKind::Hash(value)) => *value,
        _ => 0,
    }
}

fn i8_field(entry: &ParamStruct, name: &str) -> (r: i8)
    ensures
        r == i8_in(entry.0@, name@),
{
    match field(entry, name) {
        Some(ParamKind::I8(value)) => *value,
        _ => OFF_ROSTER,
    }
}

fn u8_field(entry: &ParamStruct, name: &str) -> (r: u8)
    ensures
        r == u8_in(entry.0@, name@),
{
    match field(entry, name) {
        Some(ParamKind::U8(value)) => *value,
        _ => 0,
    }
}

fn bool_field(entry: &ParamStruct, name: &str) -> (r: bool)
    ensures
        r == bool_in(entry.0@, name@),
{
    match field(entry, name) {
        Some(ParamKind::Bool(value)) => *value,
        _ => false,
    }
}

/// Lifts the rows of a file.
fn lift(root: &ParamStruct) -> (entries: Vec<CharaRow>)
    ensures
        is_lift(entries@, db_rows(*root)),
{
    let mut entries: Vec<CharaRow> = Vec::new();
    let list = match field(root, "db_root") {
        Some(ParamKind::List(list)) => list,
        _ => {
            return entries;
        },
    };
    let ghost rows = list.0@;
    let mut i: usize = 0;
    assert(rows.take(0) =~= Seq::empty());
    while i < list.0.len()
        invariant
            i <= list.0@.len(),
            rows == list.0@,
            is_lift(entries@, rows.take(i as int)),
        decreases list.0.len() - i,
    {
        let ghost before_rows = rows.take(i as int);
        let ghost now_rows = rows.take(i + 1);
        let ghost was = entries@;
        assert(now_rows.drop_last() =~= before_rows);
        assert(now_rows.last() == rows[i as int]);
        match &list.0[i] {
            ParamKind::Struct(entry) => {
                match field(entry, "name_id") {
                    Some(ParamKind::Str(name)) => {
                        let row = CharaRow {
                            index: i,
                            name_id: name.clone(),
                            ui_chara_id: hash_field(entry, "ui_chara_id"),
                            fighter_kind: hash_field(entry, "fighter_kind"),
                            disp_order: i8_field(entry, "disp_order"),
                            save_no: i8_field(entry, "save_no"),
                            can_select: bool_field(entry, "can_select"),
                            color_num: u8_field(entry, "color_num"),
                        };
                        entries.push(row);
                        assert(row_name(rows[i as int]) == Some(name@));
                        assert(is_lifted(row, now_rows, i as int));
                    },
                    _ => {},
                }
            },
            _ => {},
        }
        proof {
            lemma_places(before_rows);
            assert forall|k: int| 0 <= k < entries@.len() implies is_lifted(
                #[trigger] entries@[k],
                now_rows,
                chara_places(now_rows)[k],
            ) by {
                if k < was.len() {
                    assert(is_lifted(was[k], before_rows, chara_places(before_rows)[k]));
                    assert(before_rows[chara_places(before_rows)[k]]
                        == now_rows[chara_places(before_rows)[k]]);
                }
            }
        }
        i = i + 1;
    }
    assert(rows.take(rows.len() as int) =~= rows);
    entries
}

impl CharaDb {
    /// Whether the lifted rows are those of the file.
    pub open spec fn wf(&self) -> bool {
        is_lift(self.entries@, db_rows(self.root))
    }

    /// Takes a file that was read from `path`. A file without characters is refused.
    pub fn open(root: ParamStruct, path: &str) -> (r: Result<CharaDb, String>)
        ensures
            match r {
                Ok(db) => db.wf() && db.root == root && chara_places(db_rows(root)).len() > 0,
                Err(message) => chara_places(db_rows(root)).len() == 0 && message@ == path@
                    + " has no db_root entries — is this a ui_chara_db?"@,
            },
    {
        let entries = lift(&root);
        if entries.len() == 0 {
            return Err(concat(path, " has no db_root entries — is this a ui_chara_db?"));
        }
        Ok(CharaDb { root, entries })
    }

    /// The lifted rows in file order.
    pub fn entries(&self) -> (r: &[CharaRow])
        ensures
            r@ == self.entries@,
    {
        self.entries.as_slice()
    }

    /// The first row of a name.
    pub fn row(&self, name_id: &str) -> (r: Option<&CharaRow>)
        requires
            self.wf(),
        ensures
            match r {
                Some(row) => {
                    &&& row_place(db_rows(self.root), name_id@) == Some(row.index as int)
                    &&& is_lifted(*row, db_rows(self.root), row.index as int)
                },
                None => row_place(db_rows(self.root), name_id@) is None,
            },
    {
        let mut i: usize = 0;
        while i < self.entries.len()
            invariant
                i <= self.entries.len(),
                self.wf(),
                forall|j: int| 0 <= j < i ==> (#[trigger] self.entries@[j]).name_id@ != name_id@,
            decreases self.entries.len() - i,
        {
            if same(self.entries[i].name_id.as_str(), name_id) {
                proof {
                    lemma_lift_place(self.entries@, db_rows(self.root), name_id@, i as int);
                    assert(is_lifted(
                        self.entries@[i as int],
                        db_rows(self.root),
                        chara_places(db_rows(self.root))[i as int],
                    ));
                }
                return Some(&self.entries[i]);
            }
            i = i + 1;
        }
        proof {
            lemma_no_lift_place(self.entries@, db_rows(self.root), name_id@);
        }
        None
    }

    /// Puts a value into a character's field. The lifted rows are left as they are.
    fn set_field(&mut self, name_id: &str, field: &str, value: ParamKind) -> (r: Result<
        (),
        String,
    >)
        requires
            old(self).wf(),
        ensures
            final(self).entries == old(self).entries,
            match r {
                Ok(_) => has_field(old(self).root, name_id@, field@) && edited(
                    old(self).root,
                    final(self).root,
                    name_id@,
                    name_hash(field@),
                    value,
                ),
                Err(message) => {
                    &&& *final(self) == *old(self)
                    &&& !has_field(old(self).root, name_id@, field@)
                    &&& message@ == if fields_of(old(self).root, name_id@) is None {
                        no_row(name_id@)
                    } else {
                        no_field(name_id@, field@)
                    }
                },
            },
    {
        let index: usize = match self.row(name_id) {
            Some(row) => row.index,
            None => {
                return Err(concat("no character select entry named ", name_id));
            },
        };
        let ghost was = self.root;
        let ghost rows = db_rows(self.root);
        proof {
            lemma_row_place(rows, name_id@);
        }
        let table = match find_field(&self.root.0, hash_name("db_root")) {
            Some(at) => at,
            None => {
                assert(false);
                0
            },
        };
        let place: Option<usize> = match &self.root.0[table].1 {
            ParamKind::List(list) => match &list.0[index] {
                ParamKind::Struct(entry) => find_field(&entry.0, hash_name(field)),
                _ => None,
            },
            _ => None,
        };
        match place {
            Some(at) => {
                set_value(&mut self.root, table, index, at, value);
                proof {
                    lemma_field_place(row_fields(rows[index as int]), name_hash(field@));
                    assert forall|i: int| 0 <= i < was.0@.len() implies (
                    #[trigger] self.root.0@[i]).0 == was.0@[i].0 by {}
                    lemma_field_place_by_hashes(self.root.0@, was.0@, name_hash("db_root"@));
                }
                Ok(())
            },
            None => {
                Err(missing_field_text(name_id, field))
            },
        }
    }

    /// Lifts the rows anew.
    fn refresh(&mut self)
        ensures
            final(self).root == old(self).root,
            final(self).wf(),
    {
        self.entries = lift(&self.root);
    }

    /// Whether a character has a field.
    fn row_has(&self, name_id: &str, field: &str) -> (r: bool)
        requires
            self.wf(),
        ensures
            r == has_field(self.root, name_id@, field@),
    {
        let index: usize = match self.row(name_id) {
            Some(row) => row.index,
            None => {
                return false;
            },
        };
        proof {
            lemma_row_place(db_rows(self.root), name_id@);
        }
        match crate::params::field(&self.root, "db_root") {
            Some(ParamKind::List(list)) => match &list.0[index] {
                ParamKind::Struct(entry) => find_field(&entry.0, hash_name(field)).is_some(),
                _ => false,
            },
            _ => false,
        }
    }

    /// Puts a character at a place of the select screen, or takes it off with `OFF_ROSTER`, and
    /// lets it be selected exactly when it has a place. The two are written together: a row without
    /// one of the fields stays as it is.
    pub fn set_disp_order(&mut self, name_id: &str, order: i8) -> (r: Result<(), String>)
        requires
            old(self).wf(),
        ensures
            final(self).wf(),
            placed(old(self).root, final(self).root, name_id@, order, r is Ok),
            r is Ok ==> row_place(db_rows(final(self).root), name_id@) is Some,
            r is Ok ==> forall|row: CharaRow| #[trigger]
                is_lifted(
                    row,
                    db_rows(final(self).root),
                    row_place(db_rows(final(self).root), name_id@)->0,
                ) ==> reads_placed(row, order),
            r is Err ==> *final(self) == *old(self),
            r matches Err(message) ==> message@ == if fields_of(old(self).root, name_id@) is None {
                no_row(name_id@)
            } else if !has_field(old(self).root, name_id@, "disp_order"@) {
                no_field(name_id@, "disp_order"@)
            } else {
                no_field(name_id@, "can_select"@)
            },
    {
        let ghost was = self.root;
        let _ = fields_are_apart();
        if !self.row_has(name_id, "can_select") && self.row_has(name_id, "disp_order") {
            return Err(missing_field_text(name_id, "can_select"));
        }
        let kind = ParamKind::I8(order);
        match self.set_field(name_id, "disp_order", kind) {
            Ok(_) => {},
            Err(message) => {
                return Err(message);
            },
        }
        self.refresh();
        let ghost mid = self.root;
        proof {
            lemma_edited(was, mid, name_id@, name_hash("disp_order"@), kind);
            assert(field_place(fields_of(mid, name_id@)->0, name_hash("can_select"@))
                == field_place(fields_of(was, name_id@)->0, name_hash("can_select"@)));
            assert(has_field(mid, name_id@, "can_select"@));
        }
        let flag = ParamKind::Bool(order != OFF_ROSTER);
        match self.set_field(name_id, "can_select", flag) {
            Ok(_) => {
                self.refresh();
                proof {
                    let now = self.root;
                    lemma_edited(mid, now, name_id@, name_hash("can_select"@), flag);
                    let rows = db_rows(now);
                    let at = row_place(rows, name_id@)->0;
                    assert(row_place(rows, name_id@) == row_place(db_rows(mid), name_id@));
                    assert(fields_of(now, name_id@) == Some(row_fields(rows[at])));
                    assert(value_of(now, name_id@, name_hash("disp_order"@)) == value_of(
                        mid,
                        name_id@,
                        name_hash("disp_order"@),
                    ));
                    assert(field_value(row_fields(rows[at]), name_hash("disp_order"@)) == Some(kind));
                    assert(field_value(row_fields(rows[at]), name_hash("can_select"@)) == Some(flag));
                }
                Ok(())
            },
            Err(message) => {
                assert(false);
                Err(message)
            },
        }
    }

    /// Places the characters of a project, whose names ascend. Gives the names that could not be
    /// placed; they do not stop the others.
    pub fn apply_order(&mut self, order: &Vec<(String, i8)>) -> (missing: Vec<String>)
        requires
            old(self).wf(),
            ascending(order_names(order@)),
        ensures
            final(self).wf(),
            exists|states: Seq<ParamStruct>, done: Seq<bool>| #[trigger]
                order_run(states, done, order@) && states[0] == old(self).root
                    && states[order@.len() as int] == final(self).root && texts(missing@)
                    == undone(order_names(order@), done),
    {
        let mut missing: Vec<String> = Vec::new();
        let ghost first = self.root;
        let ghost mut states: Seq<ParamStruct> = seq![self.root];
        let ghost mut done: Seq<bool> = Seq::empty();
        let mut i: usize = 0;
        assert(order_names(order@.take(0)) =~= Seq::empty());
        assert(texts(missing@) =~= Seq::empty());
        while i < order.len()
            invariant
                i <= order.len(),
                self.wf(),
                order_run(states, done, order@.take(i as int)),
                states[0] == first,
                states[i as int] == self.root,
                texts(missing@) == undone(order_names(order@.take(i as int)), done),
            decreases order.len() - i,
        {
            let ghost was_states = states;
            let ghost was_done = done;
            let ghost was_missing = texts(missing@);
            let ghost before_names = order_names(order@.take(i as int));
            let ghost names = order_names(order@.take(i + 1));
            let r = self.set_disp_order(order[i].0.as_str(), order[i].1);
            let ok = r.is_ok();
            if !ok {
                missing.push(order[i].0.clone());
                assert(texts(missing@) =~= was_missing.push(order@[i as int].0@));
            }
            proof {
                states = states.push(self.root);
                done = done.push(ok);
                assert(names.drop_last() =~= before_names);
                lemma_undone_prefix(before_names, was_done, done);
                assert forall|k: int| 0 <= k < i + 1 implies placed(
                    #[trigger] states[k],
                    states[k + 1],
                    order@.take(i + 1)[k].0@,
                    order@.take(i + 1)[k].1,
                    done[k],
                ) by {
                    if k < i {
                        assert(was_states[k] == states[k]);
                        assert(order@.take(i as int)[k] == order@.take(i + 1)[k]);
                    }
                }
            }
            i = i + 1;
        }
        assert(order@.take(order@.len() as int) =~= order@);
        missing
    }

    /// Writes the overrides of a project, whose names ascend. Gives the names that could not be
    /// written in full; they do not stop the others.
    pub fn apply_chara_patches(&mut self, patches: &Vec<(String, CharaOverrides)>) -> (missing: Vec<
        String,
    >)
        requires
            old(self).wf(),
            ascending(patch_names(patches@)),
        ensures
            final(self).wf(),
            exists|states: Seq<ParamStruct>, done: Seq<bool>| #[trigger]
                patch_run(states, done, patches@) && states[0] == old(self).root
                    && states[patches@.len() as int] == final(self).root && texts(missing@)
                    == undone(patch_names(patches@), done),
    {
        let mut missing: Vec<String> = Vec::new();
        let ghost first = self.root;
        let ghost mut states: Seq<ParamStruct> = seq![self.root];
        let ghost mut done: Seq<bool> = Seq::empty();
        let mut i: usize = 0;
        assert(patch_names(patches@.take(0)) =~= Seq::empty());
        assert(texts(missing@) =~= Seq::empty());
        while i < patches.len()
            invariant
                i <= patches.len(),
                self.wf(),
                patch_run(states, done, patches@.take(i as int)),
                states[0] == first,
                states[i as int] == self.root,
                texts(missing@) == undone(patch_names(patches@.take(i as int)), done),
            decreases patches.len() - i,
        {
            let ghost was_states = states;
            let ghost was_done = done;
            let ghost was_missing = texts(missing@);
            let ghost before_names = patch_names(patches@.take(i as int));
            let ghost names = patch_names(patches@.take(i + 1));
            let ok = self.apply_patch(patches[i].0.as_str(), patches[i].1);
            if !ok {
                missing.push(patches[i].0.clone());
                assert(texts(missing@) =~= was_missing.push(patches@[i as int].0@));
            }
            proof {
                states = states.push(self.root);
                done = done.push(ok);
                assert(names.drop_last() =~= before_names);
                lemma_undone_prefix(before_names, was_done, done);
                assert forall|k: int| 0 <= k < i + 1 implies patched(
                    #[trigger] states[k],
                    states[k + 1],
                    patches@.take(i + 1)[k].0@,
                    patches@.take(i + 1)[k].1,
                    done[k],
                ) by {
                    if k < i {
                        assert(was_states[k] == states[k]);
                        assert(patches@.take(i as int)[k] == patches@.take(i + 1)[k]);
                    }
                }
            }
            i = i + 1;
        }
        assert(patches@.take(patches@.len() as int) =~= patches@);
        missing
    }

    /// Writes the overrides of one character, and says whether all could be written.
    fn apply_patch(&mut self, name_id: &str, patch: CharaOverrides) -> (done: bool)
        requires
            old(self).wf(),
        ensures
            final(self).wf(),
            patched(old(self).root, final(self).root, name_id@, patch, done),
    {
        let ghost was = self.root;
        let mut first = true;
        if let Some(n) = patch.color_num {
            first = self.set_field(name_id, "color_num", ParamKind::U8(n)).is_ok();
            self.refresh();
        }
        assert(field_set(was, self.root, name_id@, "color_num"@, patch.color_kind(), first));
        if !first {
            return false;
        }
        let mut done = true;
        if let Some(n) = patch.save_no {
            done = self.set_field(name_id, "save_no", ParamKind::I8(n)).is_ok();
            self.refresh();
        }
        done
    }
}

/// Which names are undone depends on the outcomes of those names alone.
pub proof fn lemma_undone_prefix(names: Seq<Seq<char>>, a: Seq<bool>, b: Seq<bool>)
    requires
        names.len() <= a.len(),
        names.len() <= b.len(),
        forall|i: int| 0 <= i < names.len() ==> a[i] == b[i],
    ensures
        undone(names, a) == undone(names, b),
    decreases names.len(),
{
    if names.len() > 0 {
        lemma_undone_prefix(names.drop_last(), a, b);
    }
}

/// Whether the fields that the roster writes have hashes of their own, apart from that of the
/// name.
pub open spec fn fields_apart() -> bool {
    &&& name_hash("disp_order"@) != name_hash("can_select"@)
    &&& name_hash("disp_order"@) != name_hash("name_id"@)
    &&& name_hash("can_select"@) != name_hash("name_id"@)
}

/// Whether the fields that the roster writes have hashes of their own. They do.
pub fn fields_are_apart() -> (r: bool)
    ensures
        r == fields_apart(),
        r,
{
    let order = hash_name("disp_order");
    let select = hash_name("can_select");
    let name = hash_name("name_id");
    order != select && order != name && select != name
}

proof fn lemma_edited(
    was: ParamStruct,
    now: ParamStruct,
    name: Seq<char>,
    hash: u64,
    value: ParamKind,
)
    requires
        fields_of(was, name) matches Some(fields) && field_place(fields, hash) is Some,
        edited(was, now, name, hash, value),
        hash != name_hash("name_id"@),
    ensures
        forall|n: Seq<char>| #[trigger]
            row_place(db_rows(now), n) == row_place(db_rows(was), n),
        fields_of(now, name) == Some(
            fields_of(was, name)->0.update(
                field_place(fields_of(was, name)->0, hash)->0,
                (hash, value),
            ),
        ),
        forall|n: Seq<char>| n != name ==> #[trigger] fields_of(now, n) == fields_of(was, n),
        forall|h: u64| #[trigger]
            field_place(fields_of(now, name)->0, h) == field_place(fields_of(was, name)->0, h),
        value_of(now, name, hash) == Some(value),
        forall|h: u64| h != hash ==> #[trigger] value_of(now, name, h) == value_of(was, name, h),
{
    let before_rows = db_rows(was);
    let rows = db_rows(now);
    lemma_row_place(before_rows, name);
    let at = row_place(before_rows, name)->0;
    let fields = row_fields(before_rows[at]);
    lemma_field_place(fields, hash);
    let place = field_place(fields, hash)->0;
    let new_fields = fields.update(place, (hash, value));
    assert(row_fields(rows[at]) == new_fields);
    assert forall|h: u64| #[trigger] field_place(new_fields, h) == field_place(fields, h) by {
        lemma_field_place_by_hashes(new_fields, fields, h);
    }
    assert forall|h: u64| h != hash implies #[trigger] field_value(new_fields, h) == field_value(
        fields,
        h,
    ) by {
        lemma_field_place(fields, h);
        assert(field_place(new_fields, h) == field_place(fields, h));
    }
    assert(field_value(new_fields, name_hash("name_id"@)) == field_value(
        fields,
        name_hash("name_id"@),
    ));
    assert forall|i: int| 0 <= i < rows.len() implies row_name(#[trigger] rows[i]) == row_name(
        before_rows[i],
    ) by {
        if i != at {
            assert(rows[i] == before_rows[i]);
        }
    }
    assert forall|n: Seq<char>| #[trigger] row_place(rows, n) == row_place(before_rows, n) by {
        lemma_row_place_by_names(rows, before_rows, n);
    }
    assert forall|n: Seq<char>| n != name implies #[trigger] fields_of(now, n) == fields_of(
        was,
        n,
    ) by {
        lemma_row_place(before_rows, n);
        assert(row_place(rows, n) == row_place(before_rows, n));
        if row_place(before_rows, n) is Some {
            assert(row_place(before_rows, n)->0 != at);
        }
    }
    assert(row_place(rows, name) == row_place(before_rows, name));
    assert(field_place(new_fields, hash) == field_place(fields, hash));
}

/// Placing a character succeeds exactly when its row has both fields. Then the row has the place,
/// and it can be selected exactly when the place is one. Everything else in its row stays, the
/// fields the roster does not know among them, and so does every other character. Otherwise nothing
/// changes.
pub proof fn law_placing_touches_two_fields(
    was: ParamStruct,
    now: ParamStruct,
    name: Seq<char>,
    order: i8,
    done: bool,
)
    requires
        fields_apart(),
        placed(was, now, name, order, done),
    ensures
        done == can_be_placed(was, name),
        !done ==> now == was,
        done ==> value_of(now, name, name_hash("disp_order"@)) == Some(ParamKind::I8(order)),
        done ==> value_of(now, name, name_hash("can_select"@)) == Some(
            ParamKind::Bool(order != OFF_ROSTER),
        ),
        forall|h: u64|
            h != name_hash("disp_order"@) && h != name_hash("can_select"@) ==> #[trigger] value_of(
                now,
                name,
                h,
            ) == value_of(was, name, h),
        forall|n: Seq<char>| n != name ==> #[trigger] fields_of(now, n) == fields_of(was, n),
        forall|n: Seq<char>, f: Seq<char>| #[trigger] has_field(now, n, f) == has_field(was, n, f),
{
    if done {
        let mid = choose|mid: ParamStruct| #[trigger]
            edited(was, mid, name, name_hash("disp_order"@), ParamKind::I8(order)) && edited(
                mid,
                now,
                name,
                name_hash("can_select"@),
                ParamKind::Bool(order != OFF_ROSTER),
            );
        lemma_edited(was, mid, name, name_hash("disp_order"@), ParamKind::I8(order));
        assert(field_place(fields_of(mid, name)->0, name_hash("can_select"@)) == field_place(
            fields_of(was, name)->0,
            name_hash("can_select"@),
        ));
        lemma_edited(
            mid,
            now,
            name,
            name_hash("can_select"@),
            ParamKind::Bool(order != OFF_ROSTER),
        );
        assert forall|h: u64|
            h != name_hash("disp_order"@) && h != name_hash(
                "can_select"@,
            ) implies #[trigger] value_of(now, name, h) == value_of(was, name, h) by {
            assert(value_of(mid, name, h) == value_of(was, name, h));
        }
        assert forall|n: Seq<char>| n != name implies #[trigger] fields_of(now, n) == fields_of(
            was,
            n,
        ) by {
            assert(fields_of(mid, n) == fields_of(was, n));
        }
        assert forall|n: Seq<char>, f: Seq<char>| #[trigger]
            has_field(now, n, f) == has_field(was, n, f) by {
            let h = name_hash(f);
            if n == name {
                assert(field_place(fields_of(mid, name)->0, h) == field_place(
                    fields_of(was, name)->0,
                    h,
                ));
                assert(field_place(fields_of(now, name)->0, h) == field_place(
                    fields_of(mid, name)->0,
                    h,
                ));
            } else {
                assert(fields_of(now, n) == fields_of(was, n));
            }
        }
        assert(value_of(mid, name, name_hash("disp_order"@)) == Some(ParamKind::I8(order)));
    }
}

/// Taking a character off the select screen and putting it back where it was restores the whole
/// row, and every other row.
pub proof fn law_hiding_and_restoring_is_no_change(
    was: ParamStruct,
    hidden: ParamStruct,
    now: ParamStruct,
    name: Seq<char>,
    order: i8,
)
    requires
        fields_apart(),
        placed(was, hidden, name, OFF_ROSTER, true),
        placed(hidden, now, name, order, true),
        value_of(was, name, name_hash("disp_order"@)) == Some(ParamKind::I8(order)),
        value_of(was, name, name_hash("can_select"@)) == Some(
            ParamKind::Bool(order != OFF_ROSTER),
        ),
    ensures
        value_of(hidden, name, name_hash("can_select"@)) == Some(ParamKind::Bool(false)),
        forall|n: Seq<char>, h: u64| #[trigger] value_of(now, n, h) == value_of(was, n, h),
{
    law_placing_touches_two_fields(was, hidden, name, OFF_ROSTER, true);
    law_placing_touches_two_fields(hidden, now, name, order, true);
    assert forall|n: Seq<char>, h: u64| #[trigger] value_of(now, n, h) == value_of(was, n, h) by {
        if n != name {
            assert(fields_of(now, n) == fields_of(hidden, n));
            assert(fields_of(hidden, n) == fields_of(was, n));
        } else if h != name_hash("disp_order"@) && h != name_hash("can_select"@) {
            assert(value_of(now, name, h) == value_of(hidden, name, h));
            assert(value_of(hidden, name, h) == value_of(was, name, h));
        }
    }
}

/// Placing many characters, no name twice, places each whose row has both fields, whatever
/// happens to the others. A character that is not in the list stays as it was, and so does every
/// field but the two.
pub proof fn law_an_order_places_each_character_alone(
    states: Seq<ParamStruct>,
    done: Seq<bool>,
    order: Seq<(String, i8)>,
)
    requires
        fields_apart(),
        order_run(states, done, order),
        forall|i: int, j: int|
            0 <= i < j < order.len() ==> (#[trigger] order[i]).0@ != (#[trigger] order[j]).0@,
    ensures
        forall|i: int|
            0 <= i < order.len() ==> #[trigger] done[i] == can_be_placed(states[0], order[i].0@),
        forall|i: int|
            0 <= i < order.len() && #[trigger] done[i] ==> value_of(
                states.last(),
                order[i].0@,
                name_hash("disp_order"@),
            ) == Some(ParamKind::I8(order[i].1)) && value_of(
                states.last(),
                order[i].0@,
                name_hash("can_select"@),
            ) == Some(ParamKind::Bool(order[i].1 != OFF_ROSTER)),
        forall|n: Seq<char>|
            !order_names(order).contains(n) ==> #[trigger] fields_of(states.last(), n) == fields_of(
                states[0],
                n,
            ),
        forall|n: Seq<char>, h: u64|
            h != name_hash("disp_order"@) && h != name_hash("can_select"@) ==> #[trigger] value_of(
                states.last(),
                n,
                h,
            ) == value_of(states[0], n, h),
        forall|n: Seq<char>, f: Seq<char>| #[trigger]
            has_field(states.last(), n, f) == has_field(states[0], n, f),
    decreases order.len(),
{
    if order.len() > 0 {
        let k = order.len() - 1;
        let front = order.drop_last();
        let front_states = states.drop_last();
        let front_done = done.drop_last();
        assert forall|i: int| 0 <= i < front.len() implies placed(
            #[trigger] front_states[i],
            front_states[i + 1],
            front[i].0@,
            front[i].1,
            front_done[i],
        ) by {
            assert(states[i] == front_states[i]);
        }
        law_an_order_places_each_character_alone(front_states, front_done, front);
        let mid = states[k];
        assert(front_states.last() == mid);
        let now = states.last();
        let name = order[k].0@;
        assert(placed(states[k], states[k + 1], order[k].0@, order[k].1, done[k]));
        law_placing_touches_two_fields(mid, now, name, order[k].1, done[k]);
        assert(has_field(mid, name, "disp_order"@) == has_field(states[0], name, "disp_order"@));
        assert(has_field(mid, name, "can_select"@) == has_field(states[0], name, "can_select"@));
        assert forall|i: int| 0 <= i < order.len() implies #[trigger] done[i] == can_be_placed(
            states[0],
            order[i].0@,
        ) by {
            if i < k {
                assert(front_done[i] == done[i]);
                assert(front[i] == order[i]);
            }
        }
        assert forall|i: int| 0 <= i < order.len() && #[trigger] done[i] implies value_of(
            now,
            order[i].0@,
            name_hash("disp_order"@),
        ) == Some(ParamKind::I8(order[i].1)) && value_of(
            now,
            order[i].0@,
            name_hash("can_select"@),
        ) == Some(ParamKind::Bool(order[i].1 != OFF_ROSTER)) by {
            if i < k {
                assert(front_done[i] == done[i]);
                assert(front[i] == order[i]);
                assert(order[i].0@ != order[k].0@);
                assert(fields_of(now, order[i].0@) == fields_of(mid, order[i].0@));
            }
        }
        assert forall|n: Seq<char>|
            !order_names(order).contains(n) implies #[trigger] fields_of(now, n) == fields_of(
            states[0],
            n,
        ) by {
            assert(order_names(order)[k] == name);
            assert(n != name);
            assert forall|i: int| 0 <= i < front.len() implies order_names(front)[i] != n by {
                assert(order_names(order)[i] == order_names(front)[i]);
            }
            assert(fields_of(mid, n) == fields_of(states[0], n));
        }
        assert forall|n: Seq<char>, h: u64|
            h != name_hash("disp_order"@) && h != name_hash(
                "can_select"@,
            ) implies #[trigger] value_of(now, n, h) == value_of(states[0], n, h) by {
            assert(value_of(mid, n, h) == value_of(states[0], n, h));
            if n != name {
                assert(fields_of(now, n) == fields_of(mid, n));
            } else {
                assert(value_of(now, name, h) == value_of(mid, name, h));
            }
        }
        assert forall|n: Seq<char>, f: Seq<char>| #[trigger]
            has_field(now, n, f) == has_field(states[0], n, f) by {
            assert(has_field(mid, n, f) == has_field(states[0], n, f));
        }
    }
}

/// Whether the fields that overrides write have hashes of their own, apart from that of the name.
pub open spec fn override_fields_apart() -> bool {
    &&& name_hash("color_num"@) != name_hash("save_no"@)
    &&& name_hash("color_num"@) != name_hash("name_id"@)
    &&& name_hash("save_no"@) != name_hash("name_id"@)
}

/// Whether the fields that overrides write have hashes of their own. They do.
pub fn override_fields_are_apart() -> (r: bool)
    ensures
        r == override_fields_apart(),
        r,
{
    let color = hash_name("color_num");
    let save = hash_name("save_no");
    let name = hash_name("name_id");
    color != save && color != name && save != name
}

proof fn lemma_field_set(
    was: ParamStruct,
    now: ParamStruct,
    name: Seq<char>,
    field: Seq<char>,
    value: Option<ParamKind>,
    done: bool,
)
    requires
        field_set(was, now, name, field, value, done),
        name_hash(field) != name_hash("name_id"@),
    ensures
        forall|n: Seq<char>| n != name ==> #[trigger] fields_of(now, n) == fields_of(was, n),
        forall|h: u64|
            h != name_hash(field) ==> #[trigger] value_of(now, name, h) == value_of(was, name, h),
        done && value is Some ==> value_of(now, name, name_hash(field)) == value,
        !done || value is None ==> now == was,
{
    if done && value is Some {
        lemma_edited(was, now, name, name_hash(field), value->0);
    }
}

/// Writing the overrides of a character touches no field but the number of costumes and the save
/// number, each only when it is overridden, and no other character.
pub proof fn law_overrides_touch_two_fields(
    was: ParamStruct,
    now: ParamStruct,
    name: Seq<char>,
    patch: CharaOverrides,
    done: bool,
)
    requires
        override_fields_apart(),
        patched(was, now, name, patch, done),
    ensures
        forall|n: Seq<char>| n != name ==> #[trigger] fields_of(now, n) == fields_of(was, n),
        forall|h: u64|
            h != name_hash("color_num"@) && h != name_hash("save_no"@) ==> #[trigger] value_of(
                now,
                name,
                h,
            ) == value_of(was, name, h),
        done && patch.color_num is Some ==> value_of(now, name, name_hash("color_num"@))
            == patch.color_kind(),
        done && patch.save_no is Some ==> value_of(now, name, name_hash("save_no"@))
            == patch.save_kind(),
        patch.color_num is None && patch.save_no is None ==> done && now == was,
{
    let (mid, first) = choose|mid: ParamStruct, first: bool| #[trigger]
        field_set(was, mid, name, "color_num"@, patch.color_kind(), first) && if first {
            field_set(mid, now, name, "save_no"@, patch.save_kind(), done)
        } else {
            !done && now == mid
        };
    lemma_field_set(was, mid, name, "color_num"@, patch.color_kind(), first);
    if first {
        lemma_field_set(mid, now, name, "save_no"@, patch.save_kind(), done);
        assert forall|n: Seq<char>| n != name implies #[trigger] fields_of(now, n) == fields_of(
            was,
            n,
        ) by {
            assert(fields_of(mid, n) == fields_of(was, n));
        }
        assert forall|h: u64|
            h != name_hash("color_num"@) && h != name_hash("save_no"@) implies #[trigger] value_of(
            now,
            name,
            h,
        ) == value_of(was, name, h) by {
            assert(value_of(mid, name, h) == value_of(was, name, h));
        }
        assert(value_of(now, name, name_hash("color_num"@)) == value_of(
            mid,
            name,
            name_hash("color_num"@),
        ));
    }
}

/// A character has a cell exactly where it can be selected and is neither off the roster nor at the
/// place of the random slot.
pub proof fn law_a_cell_needs_a_place(row: CharaRow)
    ensures
        row.has_cell() <==> row.can_select && row.disp_order != -1 && row.disp_order != 99,
        reads_placed(row, row.disp_order) ==> (row.disp_order == -1 ==> !row.can_select),
        reads_placed(row, row.disp_order) && row.disp_order >= 0 && row.disp_order != 99
            ==> row.has_cell(),
{
}

/// The kind of a fighter is the hash of its directory name behind a prefix, and does not depend on
/// the case that the name is written in.
pub proof fn law_a_kind_ignores_case(fighter: Seq<char>)
    ensures
        kind_hash(ascii_lower(fighter)) == kind_hash(fighter),
        kind_hash(fighter) == name_hash("fighter_kind_"@ + ascii_lower(fighter)),
{
    assert(ascii_lower(ascii_lower(fighter)) =~= ascii_lower(fighter)) by {
        if fighter.len() > 0 {
            law_lowering_changes_capitals_alone(fighter, 0);
        }
    }
}

/// The rows that are lifted are those that have a name, in the order of the file.
pub proof fn law_every_named_row_is_lifted(rows: Seq<ParamKind>)
    ensures
        forall|at: int| #[trigger]
            chara_places(rows).contains(at) <==> 0 <= at < rows.len() && row_name(rows[at]) is Some,
        forall|i: int, j: int|
            0 <= i < j < chara_places(rows).len() ==> (#[trigger] chara_places(rows)[i]) < (
            #[trigger] chara_places(rows)[j]),
    decreases rows.len(),
{
    if rows.len() > 0 {
        let front = rows.drop_last();
        law_every_named_row_is_lifted(front);
        let was = chara_places(front);
        let now = chara_places(rows);
        assert forall|i: int| 0 <= i < was.len() implies 0 <= #[trigger] was[i] < front.len() by {
            assert(was.contains(was[i]));
        }
        assert forall|at: int| #[trigger]
            now.contains(at) <==> 0 <= at < rows.len() && row_name(rows[at]) is Some by {
            if 0 <= at < front.len() {
                assert(front[at] == rows[at]);
                if was.contains(at) {
                    let i = choose|i: int| 0 <= i < was.len() && was[i] == at;
                    assert(now[i] == at);
                }
            }
            if at == rows.len() - 1 && row_name(rows.last()) is Some {
                assert(now[was.len() as int] == at);
            }
            if now.contains(at) {
                let i = choose|i: int| 0 <= i < now.len() && now[i] == at;
                if i < was.len() {
                    assert(was[i] == at);
                    assert(was.contains(at));
                }
            }
        }
    }
}

/// A character is found at the first row of its name.
pub proof fn law_a_character_is_its_first_row(rows: Seq<ParamKind>, name: Seq<char>, at: int)
    requires
        0 <= at < rows.len(),
        row_name(rows[at]) == Some(name),
        forall|i: int| 0 <= i < at ==> row_name(#[trigger] rows[i]) != Some(name),
    ensures
        row_place(rows, name) == Some(at),
    decreases rows.len(),
{
    let front = rows.drop_last();
    if at < front.len() {
        assert forall|i: int| 0 <= i < at implies row_name(#[trigger] front[i]) != Some(name) by {
            assert(front[i] == rows[i]);
        }
        law_a_character_is_its_first_row(front, name, at);
    } else {
        lemma_row_place(front, name);
        if row_place(front, name) is Some {
            let i = row_place(front, name)->0;
            assert(front[i] == rows[i]);
        }
    }
}

/// A field that is missing, or of another kind than it should be, reads as what a character off the
/// roster has; one that is there reads as what it holds.
pub proof fn law_missing_fields_read_as_defaults(fields: Seq<(u64, ParamKind)>, name: Seq<char>)
    ensures
        match field_value(fields, name_hash(name)) {
            Some(ParamKind::Hash(value)) => hash_in(fields, name) == value,
            _ => hash_in(fields, name) == 0,
        },
        match field_value(fields, name_hash(name)) {
            Some(ParamKind::I8(value)) => i8_in(fields, name) == value,
            _ => i8_in(fields, name) == -1,
        },
        match field_value(fields, name_hash(name)) {
            Some(ParamKind::U8(value)) => u8_in(fields, name) == value,
            _ => u8_in(fields, name) == 0,
        },
        match field_value(fields, name_hash(name)) {
            Some(ParamKind::Bool(value)) => bool_in(fields, name) == value,
            _ => !bool_in(fields, name),
        },
{
}

/// The names that are reported are those for which something was not done, in their order and no
/// others: none where all was done, and all where nothing was.
pub proof fn law_what_was_not_done_is_reported(names: Seq<Seq<char>>, done: Seq<bool>)
    requires
        names.len() <= done.len(),
    ensures
        forall|i: int| 0 <= i < names.len() && !#[trigger] done[i] ==> undone(names, done).contains(
            names[i],
        ),
        forall|name: Seq<char>| #[trigger]
            undone(names, done).contains(name) ==> exists|i: int|
                0 <= i < names.len() && names[i] == name && !#[trigger] done[i],
        (forall|i: int| 0 <= i < names.len() ==> #[trigger] done[i]) ==> undone(names, done).len()
            == 0,
        (forall|i: int| 0 <= i < names.len() ==> !#[trigger] done[i]) ==> undone(names, done)
            == names,
    decreases names.len(),
{
    if names.len() > 0 {
        let front = names.drop_last();
        law_what_was_not_done_is_reported(front, done);
        let was = undone(front, done);
        let now = undone(names, done);
        assert forall|i: int| 0 <= i < names.len() && !#[trigger] done[i] implies now.contains(
            names[i],
        ) by {
            if i < front.len() {
                assert(front[i] == names[i]);
                let k = choose|k: int| 0 <= k < was.len() && was[k] == names[i];
                assert(now[k] == names[i]);
            } else {
                assert(now[was.len() as int] == names[i]);
            }
        }
        assert forall|name: Seq<char>| #[trigger] now.contains(name) implies exists|i: int|
            0 <= i < names.len() && names[i] == name && !#[trigger] done[i] by {
            let k = choose|k: int| 0 <= k < now.len() && now[k] == name;
            if k < was.len() {
                assert(was[k] == name);
                assert(was.contains(name));
                let i = choose|i: int|
                    0 <= i < front.len() && front[i] == name && !#[trigger] done[i];
                assert(names[i] == name);
            } else {
                assert(names[names.len() - 1] == name && !done[names.len() - 1]);
            }
        }
        if forall|i: int| 0 <= i < names.len() ==> !#[trigger] done[i] {
            assert(!done[names.len() - 1]);
            assert(now =~= names);
        }
        if forall|i: int| 0 <= i < names.len() ==> #[trigger] done[i] {
            assert(done[names.len() - 1]);
        }
    } else {
        assert(undone(names, done) =~= names);
    }
}

/// What an override writes is what it holds, and it writes nothing where it holds nothing.
pub proof fn law_an_override_writes_what_it_holds(patch: CharaOverrides)
    ensures
        patch.color_num is None <==> patch.color_kind() is None,
        patch.save_no is None <==> patch.save_kind() is None,
        patch.color_num is Some ==> patch.color_kind() == Some(ParamKind::U8(patch.color_num->0)),
        patch.save_no is Some ==> patch.save_kind() == Some(ParamKind::I8(patch.save_no->0)),
{
}

/// The interface files are taken from the first root that has the database.
pub proof fn law_the_first_root_with_a_database_counts(
    roots: &Vec<String>,
    has_db: &Vec<bool>,
    r: Option<String>,
    at: int,
)
    requires
        call_ensures(locate_ui_root, (roots, has_db), r),
        roots@.len() == has_db@.len(),
        0 <= at < roots@.len(),
        has_db@[at],
        forall|j: int| 0 <= j < at ==> !#[trigger] has_db@[j],
    ensures
        r is Some,
        r->0@ == roots@[at]@,
{
    lemma_picks_first(roots@, has_db@, r, at);
}

} // verus!
