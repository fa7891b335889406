//! Parameter files: trees of values whose fields are named by hashes.

use vstd::prelude::*;

verus! {

/// The hash that the `hash40` crate gives for a name.
pub uninterp spec fn name_hash(name: Seq<char>) -> u64;

/// `hash40::hash40` depends on the characters of its name alone: it has the checksum of the name in
/// its low word and the length above it. What that comes to is stated of the names of the fields by
/// which characters are found and which are written.
#[verifier::external_body]
pub(crate) fn hash_name(name: &str) -> (r: u64)
    ensures
        r == name_hash(name@),
        name@ == "name_id"@ ==> r == 0x7_7117_9cd6,
        name@ == "disp_order"@ ==> r == 0xa_cb22_637c,
        name@ == "can_select"@ ==> r == 0xa_788e_2256,
        name@ == "color_num"@ ==> r == 0x9_0ce6_5ae1,
        name@ == "save_no"@ ==> r == 0x7_b8bd_8804,
{
    hash40::hash40(name).0
}

/// A value of a parameter file. A float is kept as its bits.
#[derive(Debug, PartialEq)]
pub enum ParamKind {
    Bool(bool),
    I8(i8),
    U8(u8),
    I16(i16),
    U16(u16),
    I32(i32),
    U32(u32),
    Float(u32),
    Hash(u64),
    Str(String),
    List(ParamList),
    Struct(ParamStruct),
}

/// A row of values.
#[derive(Debug, PartialEq)]
pub struct ParamList(pub Vec<ParamKind>);

/// Values under hashed names.
#[derive(Debug, PartialEq)]
pub struct ParamStruct(pub Vec<(u64, ParamKind)>);

/// The place of the first field of a hash.
pub open spec fn field_place(fields: Seq<(u64, ParamKind)>, hash: u64) -> Option<int>
    decreases fields.len(),
{
    if fields.len() == 0 {
        None
    } else {
        match field_place(fields.drop_last(), hash) {
            Some(at) => Some(at),
            None => if fields.last().0 == hash {
                Some(fields.len() - 1)
            } else {
                None
            },
        }
    }
}

/// The value of the first field of a hash.
pub open spec fn field_value(fields: Seq<(u64, ParamKind)>, hash: u64) -> Option<ParamKind> {
    match field_place(fields, hash) {
        Some(at) => Some(fields[at].1),
        None => None,
    }
}

proof fn lemma_field_stays(fields: Seq<(u64, ParamKind)>, hash: u64, i: int)
    requires
        0 <= i <= fields.len(),
        field_place(fields.take(i), hash) is Some,
    ensures
        field_place(fields, hash) == field_place(fields.take(i), hash),
    decreases fields.len() - i,
{
    if i == fields.len() {
        assert(fields.take(i) =~= fields);
    } else {
        assert(fields.take(i + 1).drop_last() =~= fields.take(i));
        lemma_field_stays(fields, hash, i + 1);
    }
}

/// The first field of a hash is one of the fields, and none before it has that hash.
pub proof fn lemma_field_place(fields: Seq<(u64, ParamKind)>, hash: u64)
    ensures
        match field_place(fields, hash) {
            Some(at) => 0 <= at < fields.len() && fields[at].0 == hash && forall|j: int|
                0 <= j < at ==> (#[trigger] fields[j]).0 != hash,
            None => forall|j: int| 0 <= j < fields.len() ==> (#[trigger] fields[j]).0 != hash,
        },
    decreases fields.len(),
{
    if fields.len() > 0 {
        lemma_field_place(fields.drop_last(), hash);
        assert forall|j: int| 0 <= j < fields.len() - 1 implies fields[j]
            == fields.drop_last()[j] by {}
    }
}

/// Two rows of fields with the same hashes have the first field of a hash at the same place.
pub proof fn lemma_field_place_by_hashes(
    a: Seq<(u64, ParamKind)>,
    b: Seq<(u64, ParamKind)>,
    hash: u64,
)
    requires
        a.len() == b.len(),
        forall|i: int| 0 <= i < a.len() ==> (#[trigger] a[i]).0 == b[i].0,
    ensures
        field_place(a, hash) == field_place(b, hash),
    decreases a.len(),
{
    if a.len() > 0 {
        assert forall|i: int| 0 <= i < a.len() - 1 implies (#[trigger] a.drop_last()[i]).0
            == b.drop_last()[i].0 by {
            assert(a.drop_last()[i] == a[i]);
        }
        lemma_field_place_by_hashes(a.drop_last(), b.drop_last(), hash);
        assert(a[a.len() - 1].0 == b[b.len() - 1].0);
    }
}

/// Finds the first field of a hash.
pub fn find_field(fields: &Vec<(u64, ParamKind)>, hash: u64) -> (r: Option<usize>)
    ensures
        match r {
            Some(at) => field_place(fields@, hash) == Some(at as int) && at < fields@.len(),
            None => field_place(fields@, hash) is None,
        },
{
    let mut i: usize = 0;
    assert(fields@.take(0) =~= Seq::empty());
    while i < fields.len()
        invariant
            i <= fields.len(),
            field_place(fields@.take(i as int), hash) is None,
        decreases fields.len() - i,
    {
        assert(fields@.take(i + 1).drop_last() =~= fields@.take(i as int));
        if fields[i].0 == hash {
            proof {
                lemma_field_stays(fields@, hash, i + 1);
            }
            return Some(i);
        }
        i = i + 1;
    }
    assert(fields@.take(fields@.len() as int) =~= fields@);
    None
}

/// The value of the first field of a name.
pub fn field<'a>(entry: &'a ParamStruct, name: &str) -> (r: Option<&'a ParamKind>)
    ensures
        match r {
            Some(value) => field_value(entry.0@, name_hash(name@)) == Some(*value),
            None => field_value(entry.0@, name_hash(name@)) is None,
        },
{
    match find_field(&entry.0, hash_name(name)) {
        Some(at) => Some(&entry.0[at].1),
        None => None,
    }
}

/// The rows of a table: those of the list that is the first field of its name.
pub open spec fn table_rows(root: ParamStruct, table: Seq<char>) -> Option<Seq<ParamKind>> {
    match field_value(root.0@, name_hash(table)) {
        Some(ParamKind::List(list)) => Some(list.0@),
        _ => None,
    }
}

/// Puts a value into field `at` of row `row` of a table.
pub fn set_value(root: &mut ParamStruct, table: usize, row: usize, at: usize, value: ParamKind)
    requires
        table < old(root).0@.len(),
        old(root).0@[table as int].1 is List,
        row < old(root).0@[table as int].1->List_0.0@.len(),
        old(root).0@[table as int].1->List_0.0@[row as int] is Struct,
        at < old(root).0@[table as int].1->List_0.0@[row as int]->Struct_0.0@.len(),
    ensures
        ({
            let was = old(root).0@;
            let now = final(root).0@;
            let was_list = was[table as int].1->List_0.0@;
            let now_list = now[table as int].1->List_0.0@;
            let was_row = was_list[row as int]->Struct_0.0@;
            let now_row = now_list[row as int]->Struct_0.0@;
            &&& now.len() == was.len()
            &&& now[table as int].0 == was[table as int].0
            &&& now[table as int].1 is List
            &&& forall|i: int| 0 <= i < was.len() && i != table ==> #[trigger] now[i] == was[i]
            &&& now_list.len() == was_list.len()
            &&& now_list[row as int] is Struct
            &&& forall|i: int|
                0 <= i < was_list.len() && i != row ==> #[trigger] now_list[i] == was_list[i]
            &&& now_row == was_row.update(at as int, (was_row[at as int].0, value))
        }),
{
    let (table_hash, kind) = root.0.remove(table);
    match kind {
        ParamKind::List(list) => {
            let mut rows = list.0;
            let entry = rows.remove(row);
            match entry {
                ParamKind::Struct(entry) => {
                    let mut fields = entry.0;
                    let hash: u64 = fields[at].0;
                    fields.remove(at);
                    fields.insert(at, (hash, value));
                    rows.insert(row, ParamKind::Struct(ParamStruct(fields)));
                },
                other => {
                    rows.insert(row, other);
                },
            }
            root.0.insert(table, (table_hash, ParamKind::List(ParamList(rows))));
        },
        other => {
            root.0.insert(table, (table_hash, other));
        },
    }
}

/// A field is found at the first place of its hash, and its value is what stands there; without such
/// a place it is not found.
pub proof fn law_a_field_is_the_first_of_its_hash(
    fields: Seq<(u64, ParamKind)>,
    hash: u64,
    at: int,
)
    requires
        0 <= at <= fields.len(),
        at < fields.len() ==> fields[at].0 == hash,
        forall|i: int| 0 <= i < at ==> (#[trigger] fields[i]).0 != hash,
    ensures
        at < fields.len() ==> field_place(fields, hash) == Some(at) && field_value(fields, hash)
            == Some(fields[at].1),
        at == fields.len() ==> field_place(fields, hash) is None && field_value(fields, hash)
            is None,
    decreases fields.len(),
{
    if fields.len() > 0 {
        let front = fields.drop_last();
        let less = if at < front.len() {
            at
        } else {
            front.len() as int
        };
        assert forall|i: int| 0 <= i < less implies (#[trigger] front[i]).0 != hash by {
            assert(front[i] == fields[i]);
        }
        law_a_field_is_the_first_of_its_hash(front, hash, less);
        if at == fields.len() {
            assert(fields[fields.len() - 1].0 != hash);
        }
    }
}

/// The rows of a table are those of the list that the first field of its name is; a field of another
/// kind has none.
pub proof fn law_a_table_is_the_first_list_of_its_name(root: ParamStruct, table: Seq<char>, at: int)
    requires
        0 <= at < root.0@.len(),
        root.0@[at].0 == name_hash(table),
        forall|i: int| 0 <= i < at ==> (#[trigger] root.0@[i]).0 != name_hash(table),
    ensures
        match root.0@[at].1 {
            ParamKind::List(list) => table_rows(root, table) == Some(list.0@),
            _ => table_rows(root, table) is None,
        },
{
    law_a_field_is_the_first_of_its_hash(root.0@, name_hash(table), at);
}

} // verus!
