//! Fighter-wide values. One file holds a row for every fighter of the game, so edits are sparse
//! and must leave every other row as it is.

use std::collections::HashMap;

use vstd::prelude::*;
use vstd::string::*;

use crate::float_bits::{
    are_equal, equal_numbers, law_numbers_are_equal_by_their_bits, nearest, nearest_bits, whole,
    whole_number,
};
use crate::keyed::{entries, keys, lemma_empty, lookup, put, take_out};
use crate::params::{
    field, field_place, field_value, find_field, hash_name, lemma_field_place,
    lemma_field_place_by_hashes, name_hash, set_value, ParamKind, ParamStruct,
};
use crate::paths::{join_path, joined};
use crate::roster::css::{fighter_kind_hash, kind_hash, lemma_undone_prefix, undone};
use crate::text::{
    ascending, concat, hex, hex_text, hex_value, law_hexadecimal_reads_back, same, texts,
};

verus! {

/// The game path of the file.
pub const FIGHTER_PARAM_PATH: &'static str = "fighter/common/param/fighter_param.prc";

/// The value of a field that can be edited. A float is kept as its bits.
#[derive(Debug, Clone, Copy, PartialEq, Eq, Structural)]
pub enum ParamValue {
    Bool(bool),
    Float(u32),
    I8(i8),
    U8(u8),
    I16(i16),
    U16(u16),
    I32(i32),
    U32(u32),
    Hash(u64),
}

/// What a field holds.
#[derive(Debug, Clone, Copy, PartialEq, Eq, Structural)]
pub enum Kind {
    Bool,
    I8,
    U8,
    I16,
    U16,
    I32,
    U32,
    Float,
    Hash,
    Str,
    List,
    Struct,
}

/// What a value is.
pub open spec fn kind_of(kind: ParamKind) -> Kind {
    match kind {
        ParamKind::Bool(_) => Kind::Bool,
        ParamKind::I8(_) => Kind::I8,
        ParamKind::U8(_) => Kind::U8,
        ParamKind::I16(_) => Kind::I16,
        ParamKind::U16(_) => Kind::U16,
        ParamKind::I32(_) => Kind::I32,
        ParamKind::U32(_) => Kind::U32,
        ParamKind::Float(_) => Kind::Float,
        ParamKind::Hash(_) => Kind::Hash,
        ParamKind::Str(_) => Kind::Str,
        ParamKind::List(_) => Kind::List,
        ParamKind::Struct(_) => Kind::Struct,
    }
}

fn find_kind(kind: &ParamKind) -> (r: Kind)
    ensures
        r == kind_of(*kind),
{
    match kind {
        ParamKind::Bool(_) => Kind::Bool,
        ParamKind::I8(_) => Kind::I8,
        ParamKind::U8(_) => Kind::U8,
        ParamKind::I16(_) => Kind::I16,
        ParamKind::U16(_) => Kind::U16,
        ParamKind::I32(_) => Kind::I32,
        ParamKind::U32(_) => Kind::U32,
        ParamKind::Float(_) => Kind::Float,
        ParamKind::Hash(_) => Kind::Hash,
        ParamKind::Str(_) => Kind::Str,
        ParamKind::List(_) => Kind::List,
        ParamKind::Struct(_) => Kind::Struct,
    }
}

/// What a field holds, in words.
pub open spec fn kind_text(kind: Kind) -> Seq<char> {
    match kind {
        Kind::Bool => "a yes/no value"@,
        Kind::I8 => "a whole number from -128 to 127"@,
        Kind::U8 => "a whole number from 0 to 255"@,
        Kind::I16 => "a whole number from -32768 to 32767"@,
        Kind::U16 => "a whole number from 0 to 65535"@,
        Kind::I32 => "a whole number"@,
        Kind::U32 => "a positive whole number"@,
        Kind::Float => "a decimal number"@,
        Kind::Hash => "a name"@,
        Kind::Str => "text"@,
        Kind::List => "a list"@,
        Kind::Struct => "a group"@,
    }
}

/// What a field holds, in words.
pub fn kind_name(kind: Kind) -> (r: &'static str)
    ensures
        r@ == kind_text(kind),
{
    match kind {
        Kind::Bool => "a yes/no value",
        Kind::I8 => "a whole number from -128 to 127",
        Kind::U8 => "a whole number from 0 to 255",
        Kind::I16 => "a whole number from -32768 to 32767",
        Kind::U16 => "a whole number from 0 to 65535",
        Kind::I32 => "a whole number",
        Kind::U32 => "a positive whole number",
        Kind::Float => "a decimal number",
        Kind::Hash => "a name",
        Kind::Str => "text",
        Kind::List => "a list",
        Kind::Struct => "a group",
    }
}

/// The value of a field that can be edited; texts, lists and groups cannot.
pub open spec fn editable(kind: ParamKind) -> Option<ParamValue> {
    match kind {
        ParamKind::Bool(value) => Some(ParamValue::Bool(value)),
        ParamKind::I8(value) => Some(ParamValue::I8(value)),
        ParamKind::U8(value) => Some(ParamValue::U8(value)),
        ParamKind::I16(value) => Some(ParamValue::I16(value)),
        ParamKind::U16(value) => Some(ParamValue::U16(value)),
        ParamKind::I32(value) => Some(ParamValue::I32(value)),
        ParamKind::U32(value) => Some(ParamValue::U32(value)),
        ParamKind::Float(value) => Some(ParamValue::Float(value)),
        ParamKind::Hash(value) => Some(ParamValue::Hash(value)),
        _ => None,
    }
}

/// The value of a field that can be edited.
pub fn to_param_value(kind: &ParamKind) -> (r: Option<ParamValue>)
    ensures
        r == editable(*kind),
{
    match kind {
        ParamKind::Bool(value) => Some(ParamValue::Bool(*value)),
        ParamKind::I8(value) => Some(ParamValue::I8(*value)),
        ParamKind::U8(value) => Some(ParamValue::U8(*value)),
        ParamKind::I16(value) => Some(ParamValue::I16(*value)),
        ParamKind::U16(value) => Some(ParamValue::U16(*value)),
        ParamKind::I32(value) => Some(ParamValue::I32(*value)),
        ParamKind::U32(value) => Some(ParamValue::U32(*value)),
        ParamKind::Float(value) => Some(ParamValue::Float(*value)),
        ParamKind::Hash(value) => Some(ParamValue::Hash(*value)),
        _ => None,
    }
}

/// Why a value cannot stand in a field.
#[derive(Debug, Clone, Copy, PartialEq, Eq, Structural)]
pub enum Refusal {
    /// A yes/no value for a field that holds something else.
    FlagInto(Kind),
    /// A hash for a field that holds something else.
    HashInto(Kind),
    /// A number for a yes/no field.
    NumberIntoFlag,
    /// A number that the field cannot hold as it is.
    DoesNotFit(Kind),
}

impl Refusal {
    /// The refusal in words.
    pub open spec fn text(self, number: Seq<char>) -> Seq<char> {
        match self {
            Refusal::FlagInto(kind) => "this field is "@ + kind_text(kind)
                + " and cannot hold a yes/no value"@,
            Refusal::HashInto(kind) => "this field is "@ + kind_text(kind)
                + " and cannot hold a hash"@,
            Refusal::NumberIntoFlag => "this field is a yes/no value and cannot hold a number"@,
            Refusal::DoesNotFit(kind) => number + " does not fit in this field, which is "@
                + kind_text(kind),
        }
    }

    /// The refusal in words; `number` is the refused number as it is shown.
    pub fn message(self, number: &str) -> (r: String)
        ensures
            r@ == self.text(number@),
    {
        match self {
            Refusal::FlagInto(kind) => {
                let mut r = concat("this field is ", kind_name(kind));
                r.append(" and cannot hold a yes/no value");
                r
            },
            Refusal::HashInto(kind) => {
                let mut r = concat("this field is ", kind_name(kind));
                r.append(" and cannot hold a hash");
                r
            },
            Refusal::NumberIntoFlag => "this field is a yes/no value and cannot hold a number".to_owned(),
            Refusal::DoesNotFit(kind) => {
                let mut r = concat(number, " does not fit in this field, which is ");
                r.append(kind_name(kind));
                r
            },
        }
    }
}

/// The whole number that a value is, if it is one.
pub open spec fn whole_of(value: ParamValue) -> Option<int> {
    match value {
        ParamValue::Float(bits) => whole(bits),
        ParamValue::I8(n) => Some(n as int),
        ParamValue::U8(n) => Some(n as int),
        ParamValue::I16(n) => Some(n as int),
        ParamValue::U16(n) => Some(n as int),
        ParamValue::I32(n) => Some(n as int),
        ParamValue::U32(n) => Some(n as int),
        _ => None,
    }
}

/// Whether a value is a whole number of a range.
pub open spec fn fits(value: ParamValue, low: int, high: int) -> bool {
    match whole_of(value) {
        Some(n) => low <= n <= high,
        None => false,
    }
}

/// A value as what a field holds already. What does not fit is refused, not cut.
pub open spec fn coerced(existing: ParamKind, value: ParamValue) -> Result<ParamKind, Refusal> {
    let n = whole_of(value)->0;
    match (value, existing) {
        (ParamValue::Bool(flag), ParamKind::Bool(_)) => Ok(ParamKind::Bool(flag)),
        (ParamValue::Bool(_), _) => Err(Refusal::FlagInto(kind_of(existing))),
        (ParamValue::Hash(raw), ParamKind::Hash(_)) => Ok(ParamKind::Hash(raw)),
        (ParamValue::Hash(_), _) => Err(Refusal::HashInto(kind_of(existing))),
        (ParamValue::Float(bits), ParamKind::Float(_)) => Ok(ParamKind::Float(bits)),
        (_, ParamKind::Float(_)) => Ok(ParamKind::Float(nearest(n) as u32)),
        (_, ParamKind::Bool(_)) => Err(Refusal::NumberIntoFlag),
        (_, ParamKind::I8(_)) if fits(value, -128, 127) => Ok(ParamKind::I8(n as i8)),
        (_, ParamKind::U8(_)) if fits(value, 0, 255) => Ok(ParamKind::U8(n as u8)),
        (_, ParamKind::I16(_)) if fits(value, -32768, 32767) => Ok(ParamKind::I16(n as i16)),
        (_, ParamKind::U16(_)) if fits(value, 0, 65535) => Ok(ParamKind::U16(n as u16)),
        (_, ParamKind::I32(_)) if fits(value, -0x8000_0000, 0x7fff_ffff) => Ok(
            ParamKind::I32(n as i32),
        ),
        (_, ParamKind::U32(_)) if fits(value, 0, 0xffff_ffff) => Ok(ParamKind::U32(n as u32)),
        _ => Err(Refusal::DoesNotFit(kind_of(existing))),
    }
}

/// The whole number that a value is. One beyond every integer field is not looked at.
fn whole_value(value: ParamValue) -> (r: Option<i64>)
    ensures
        match r {
            Some(n) => whole_of(value) == Some(n as int),
            None => match whole_of(value) {
                Some(n) => value is Float && (n <= -0x1_0000_0000 || n >= 0x1_0000_0000),
                None => true,
            },
        },
        !(value is Float) && !(value is Bool) && !(value is Hash) ==> r is Some
            && -0x1_0000_0000 < r->0 < 0x1_0000_0000,
{
    match value {
        ParamValue::Float(bits) => whole_number(bits),
        ParamValue::I8(n) => Some(n as i64),
        ParamValue::U8(n) => Some(n as i64),
        ParamValue::I16(n) => Some(n as i64),
        ParamValue::U16(n) => Some(n as i64),
        ParamValue::I32(n) => Some(n as i64),
        ParamValue::U32(n) => Some(n as i64),
        _ => None,
    }
}

/// A value as what a field holds already.
pub fn coerce(existing: &ParamKind, value: ParamValue) -> (r: Result<ParamKind, Refusal>)
    ensures
        r == coerced(*existing, value),
{
    let kind = find_kind(existing);
    match value {
        ParamValue::Bool(flag) => {
            return match existing {
                ParamKind::Bool(_) => Ok(ParamKind::Bool(flag)),
                _ => Err(Refusal::FlagInto(kind)),
            };
        },
        ParamValue::Hash(raw) => {
            return match existing {
                ParamKind::Hash(_) => Ok(ParamKind::Hash(raw)),
                _ => Err(Refusal::HashInto(kind)),
            };
        },
        _ => {},
    }
    let number = whole_value(value);
    match existing {
        ParamKind::Float(_) => {
            if let ParamValue::Float(bits) = value {
                return Ok(ParamKind::Float(bits));
            }
            match number {
                Some(n) => Ok(ParamKind::Float(nearest_bits(n))),
                None => Err(Refusal::DoesNotFit(kind)),
            }
        },
        ParamKind::Bool(_) => Err(Refusal::NumberIntoFlag),
        _ => {
            let n: i64 = match number {
                Some(n) => n,
                None => {
                    return Err(Refusal::DoesNotFit(kind));
                },
            };
            match existing {
                ParamKind::I8(_) if -128 <= n && n <= 127 => Ok(ParamKind::I8(n as i8)),
                ParamKind::U8(_) if 0 <= n && n <= 255 => Ok(ParamKind::U8(n as u8)),
                ParamKind::I16(_) if -32768 <= n && n <= 32767 => Ok(ParamKind::I16(n as i16)),
                ParamKind::U16(_) if 0 <= n && n <= 65535 => Ok(ParamKind::U16(n as u16)),
                ParamKind::I32(_) if -0x8000_0000 <= n && n <= 0x7fff_ffff => Ok(
                    ParamKind::I32(n as i32),
                ),
                ParamKind::U32(_) if 0 <= n && n <= 0xffff_ffff => Ok(ParamKind::U32(n as u32)),
                _ => Err(Refusal::DoesNotFit(kind)),
            }
        },
    }
}

/// A value that is written never changes what the field holds: a whole number stays a whole
/// number of the same size, and a float a float.
pub proof fn law_a_field_keeps_its_kind(existing: ParamKind, value: ParamValue)
    ensures
        coerced(existing, value) matches Ok(kind) ==> kind_of(kind) == kind_of(existing),
{
}

/// A value that was read from a field can be written back, and changes nothing.
pub proof fn law_what_is_read_can_be_written(existing: ParamKind)
    requires
        editable(existing) is Some,
    ensures
        coerced(existing, editable(existing)->0) == Ok::<ParamKind, Refusal>(existing),
{
}

/// A number that does not fit a field is refused, never cut: what is written to an integer field
/// is the number itself.
pub proof fn law_numbers_are_not_cut(existing: ParamKind, value: ParamValue)
    requires
        !(existing is Float),
        whole_of(value) is Some,
    ensures
        coerced(existing, value) matches Ok(kind) ==> whole_of(editable(kind)->0) == whole_of(
            value,
        ),
{
}

/// One field of one fighter's row.
#[derive(Debug, Clone, PartialEq)]
pub struct TraitValue {
    pub key: String,
    pub value: ParamValue,
}

/// The name and the value of each field.
pub open spec fn trait_texts(values: Seq<TraitValue>) -> Seq<(Seq<char>, ParamValue)> {
    values.map_values(|v: TraitValue| (v.key@, v.value))
}

/// The name that a field is shown by: its label, or its hash where there is none, so that it can
/// still be reached.
pub open spec fn shown_name(hash: u64, labels: Map<u64, String>) -> Seq<char> {
    if labels.contains_key(hash) {
        labels[hash]@
    } else {
        "0x"@ + hex(hash as nat, 1)
    }
}

/// The fields of a row that can be edited, in file order.
pub open spec fn shown_values(
    fields: Seq<(u64, ParamKind)>,
    labels: Map<u64, String>,
) -> Seq<(Seq<char>, ParamValue)>
    decreases fields.len(),
{
    if fields.len() == 0 {
        Seq::empty()
    } else {
        let front = shown_values(fields.drop_last(), labels);
        match editable(fields.last().1) {
            Some(value) => front.push((shown_name(fields.last().0, labels), value)),
            None => front,
        }
    }
}

/// The place of the first field of a hash that is a list.
pub open spec fn list_place(fields: Seq<(u64, ParamKind)>, hash: u64) -> Option<int>
    decreases fields.len(),
{
    if fields.len() == 0 {
        None
    } else {
        match list_place(fields.drop_last(), hash) {
            Some(at) => Some(at),
            None => if fields.last().0 == hash && fields.last().1 is List {
                Some(fields.len() - 1)
            } else {
                None
            },
        }
    }
}

proof fn lemma_list_place(fields: Seq<(u64, ParamKind)>, hash: u64)
    ensures
        match list_place(fields, hash) {
            Some(at) => 0 <= at < fields.len() && fields[at].0 == hash && fields[at].1 is List
                && forall|j: int|
                0 <= j < at ==> !((#[trigger] fields[j]).0 == hash && fields[j].1 is List),
            None => forall|j: int|
                0 <= j < fields.len() ==> !((#[trigger] fields[j]).0 == hash && fields[j].1 is List),
        },
    decreases fields.len(),
{
    if fields.len() > 0 {
        lemma_list_place(fields.drop_last(), hash);
        assert forall|j: int| 0 <= j < fields.len() - 1 implies fields[j]
            == fields.drop_last()[j] by {}
    }
}

fn find_list(fields: &Vec<(u64, ParamKind)>, hash: u64) -> (r: Option<usize>)
    ensures
        match r {
            Some(at) => list_place(fields@, hash) == Some(at as int) && at < fields@.len()
                && fields@[at as int].1 is List,
            None => list_place(fields@, hash) is None,
        },
{
    let mut i: usize = 0;
    proof {
        lemma_list_place(fields@, hash);
    }
    while i < fields.len()
        invariant
            i <= fields.len(),
            forall|j: int|
                0 <= j < i ==> !((#[trigger] fields@[j]).0 == hash && fields@[j].1 is List),
            match list_place(fields@, hash) {
                Some(at) => 0 <= at < fields@.len() && fields@[at].0 == hash && fields@[at].1 is List
                    && forall|j: int|
                    0 <= j < at ==> !((#[trigger] fields@[j]).0 == hash && fields@[j].1 is List),
                None => forall|j: int|
                    0 <= j < fields@.len() ==> !((#[trigger] fields@[j]).0 == hash
                        && fields@[j].1 is List),
            },
        decreases fields.len() - i,
    {
        if fields[i].0 == hash {
            if let ParamKind::List(_) = &fields[i].1 {
                assert(list_place(fields@, hash) == Some(i as int)) by {
                    let at = list_place(fields@, hash)->0;
                    assert(fields@[i as int].0 == hash);
                    assert(fields@[at].0 == hash);
                }
                return Some(i);
            }
        }
        i = i + 1;
    }
    None
}

/// The place of the first field that is shown by a name.
pub open spec fn shown_place(
    fields: Seq<(u64, ParamKind)>,
    labels: Map<u64, String>,
    key: Seq<char>,
) -> Option<int>
    decreases fields.len(),
{
    if fields.len() == 0 {
        None
    } else {
        match shown_place(fields.drop_last(), labels, key) {
            Some(at) => Some(at),
            None => if shown_name(fields.last().0, labels) == key {
                Some(fields.len() - 1)
            } else {
                None
            },
        }
    }
}

/// The place of the field that a key means: the field of that name, else the first that is shown by
/// it, so that a field without a label can be edited too.
pub open spec fn key_place(
    fields: Seq<(u64, ParamKind)>,
    labels: Map<u64, String>,
    key: Seq<char>,
) -> Option<int> {
    match field_place(fields, name_hash(key)) {
        Some(at) => Some(at),
        None => shown_place(fields, labels, key),
    }
}

proof fn lemma_shown_place(fields: Seq<(u64, ParamKind)>, labels: Map<u64, String>, key: Seq<char>)
    ensures
        match shown_place(fields, labels, key) {
            Some(at) => 0 <= at < fields.len() && shown_name(fields[at].0, labels) == key
                && forall|j: int|
                0 <= j < at ==> shown_name((#[trigger] fields[j]).0, labels) != key,
            None => forall|j: int|
                0 <= j < fields.len() ==> shown_name((#[trigger] fields[j]).0, labels) != key,
        },
    decreases fields.len(),
{
    if fields.len() > 0 {
        lemma_shown_place(fields.drop_last(), labels, key);
        assert forall|j: int| 0 <= j < fields.len() - 1 implies fields[j]
            == fields.drop_last()[j] by {}
    }
}

/// The field that a key means is the first of its hash.
proof fn lemma_key_place(fields: Seq<(u64, ParamKind)>, labels: Map<u64, String>, key: Seq<char>)
    ensures
        key_place(fields, labels, key) matches Some(at) ==> 0 <= at < fields.len() && field_place(
            fields,
            fields[at].0,
        ) == Some(at),
{
    lemma_field_place(fields, name_hash(key));
    lemma_shown_place(fields, labels, key);
    if let Some(at) = key_place(fields, labels, key) {
        lemma_field_place(fields, fields[at].0);
    }
}

fn name_shown(hash: u64, labels: &HashMap<u64, String>) -> (r: String)
    ensures
        r@ == shown_name(hash, labels@),
{
    broadcast use vstd::std_specs::hash::group_hash_axioms;

    match labels.get(&hash) {
        Some(label) => label.clone(),
        None => {
            let digits = hex_text(hash, 1);
            concat("0x", digits.as_str())
        },
    }
}

fn find_key(fields: &Vec<(u64, ParamKind)>, labels: &HashMap<u64, String>, key: &str) -> (r: Option<
    usize,
>)
    ensures
        match r {
            Some(at) => key_place(fields@, labels@, key@) == Some(at as int) && at < fields@.len(),
            None => key_place(fields@, labels@, key@) is None,
        },
{
    if let Some(at) = find_field(fields, hash_name(key)) {
        return Some(at);
    }
    let mut i: usize = 0;
    while i < fields.len()
        invariant
            i <= fields.len(),
            field_place(fields@, name_hash(key@)) is None,
            forall|j: int| 0 <= j < i ==> shown_name((#[trigger] fields@[j]).0, labels@) != key@,
        decreases fields.len() - i,
    {
        let name = name_shown(fields[i].0, labels);
        if same(name.as_str(), key) {
            proof {
                lemma_shown_place(fields@, labels@, key@);
                assert(shown_name(fields@[i as int].0, labels@) == key@);
            }
            return Some(i);
        }
        i = i + 1;
    }
    proof {
        lemma_shown_place(fields@, labels@, key@);
    }
    None
}

/// A field can be set by the name it is shown by, whether it has a label or not. Where no other field
/// is named or shown so, the name means that field.
pub proof fn law_a_shown_field_can_be_reached(
    fields: Seq<(u64, ParamKind)>,
    labels: Map<u64, String>,
    at: int,
)
    requires
        0 <= at < fields.len(),
    ensures
        ({
            let hash = fields[at].0;
            let key = shown_name(hash, labels);
            &&& key_place(fields, labels, key) is Some
            &&& (forall|j: int|
                0 <= j < fields.len() && ((#[trigger] fields[j]).0 == name_hash(key) || shown_name(
                    fields[j].0,
                    labels,
                ) == key) ==> fields[j].0 == hash) ==> key_place(fields, labels, key)
                == field_place(fields, hash)
        }),
{
    let key = shown_name(fields[at].0, labels);
    lemma_field_place(fields, name_hash(key));
    lemma_shown_place(fields, labels, key);
    lemma_field_place(fields, fields[at].0);
    lemma_key_place(fields, labels, key);
    assert(shown_name(fields[at].0, labels) == key);
}

/// The rows of the file, one per fighter.
pub open spec fn trait_rows(root: ParamStruct) -> Seq<ParamKind> {
    match list_place(root.0@, name_hash("fighter_param_table"@)) {
        Some(at) => root.0@[at].1->List_0.0@,
        None => Seq::empty(),
    }
}

/// Whether a row is that of a fighter kind.
pub open spec fn is_row_of(row: ParamKind, kind: u64) -> bool {
    match row {
        ParamKind::Struct(entry) => field_value(entry.0@, name_hash("fighter_kind"@)) == Some(
            ParamKind::Hash(kind),
        ),
        _ => false,
    }
}

/// The fields of a row.
pub open spec fn fields_at(root: ParamStruct, row: int) -> Seq<(u64, ParamKind)> {
    trait_rows(root)[row]->Struct_0.0@
}

/// Whether a file has a row of fields at a place.
pub open spec fn has_row(root: ParamStruct, row: int) -> bool {
    0 <= row < trait_rows(root).len() && trait_rows(root)[row] is Struct
}

/// Whether two files agree but for the value of one field of one row.
pub open spec fn row_edited(
    was: ParamStruct,
    now: ParamStruct,
    row: int,
    at: int,
    value: ParamKind,
) -> bool {
    let table = list_place(was.0@, name_hash("fighter_param_table"@))->0;
    &&& now.0@.len() == was.0@.len()
    &&& forall|i: int| 0 <= i < was.0@.len() && i != table ==> #[trigger] now.0@[i] == was.0@[i]
    &&& trait_rows(now).len() == trait_rows(was).len()
    &&& forall|i: int|
        0 <= i < trait_rows(was).len() && i != row ==> #[trigger] trait_rows(now)[i] == trait_rows(
            was,
        )[i]
    &&& has_row(now, row)
    &&& fields_at(now, row) == fields_at(was, row).update(
        at,
        (fields_at(was, row)[at].0, value),
    )
}

/// Whether a field of a row was set: to the value as what the field holds, when there is such a
/// field and the value fits it. Else nothing changed.
pub open spec fn trait_set(
    was: ParamStruct,
    now: ParamStruct,
    row: int,
    labels: Map<u64, String>,
    key: Seq<char>,
    value: ParamValue,
    done: bool,
) -> bool {
    let fields = fields_at(was, row);
    match key_place(fields, labels, key) {
        Some(at) => match coerced(fields[at].1, value) {
            Ok(kind) => done && row_edited(was, now, row, at, kind),
            Err(_) => !done && now == was,
        },
        None => !done && now == was,
    }
}

/// Whether the files in `states` come from setting the fields one by one.
pub open spec fn trait_run(
    states: Seq<ParamStruct>,
    done: Seq<bool>,
    row: int,
    labels: Map<u64, String>,
    edits: Seq<(String, ParamValue)>,
) -> bool {
    &&& states.len() == edits.len() + 1
    &&& done.len() == edits.len()
    &&& forall|i: int|
        0 <= i < edits.len() ==> trait_set(
            #[trigger] states[i],
            states[i + 1],
            row,
            labels,
            edits[i].0@,
            edits[i].1,
            done[i],
        )
}

/// Why a field was not set.
#[derive(Debug)]
pub enum TraitError {
    /// There is no such field; the text names the fighter and the field.
    NoField(String),
    /// The value does not suit the field.
    Refused(Refusal),
}

/// The file, and the row that belongs to one fighter.
#[derive(Debug)]
pub struct FighterTraits {
    /// The whole file, so that every row and every field that is not shown survives.
    pub root: ParamStruct,
    /// Where the row stands in the table.
    pub row: usize,
    pub fighter: String,
    /// The fields of the row that can be edited, in file order.
    pub values: Vec<TraitValue>,
    /// Field names by hash.
    pub labels: HashMap<u64, String>,
}

fn shown(root: &ParamStruct, row: usize, labels: &HashMap<u64, String>) -> (r: Vec<TraitValue>)
    requires
        has_row(*root, row as int),
    ensures
        trait_texts(r@) == shown_values(fields_at(*root, row as int), labels@),
{
    let mut r: Vec<TraitValue> = Vec::new();
    let table: usize = match find_list(&root.0, hash_name("fighter_param_table")) {
        Some(at) => at,
        None => {
            return r;
        },
    };
    let entry = match &root.0[table].1 {
        ParamKind::List(list) => match &list.0[row] {
            ParamKind::Struct(entry) => entry,
            _ => {
                return r;
            },
        },
        _ => {
            return r;
        },
    };
    let ghost fields = entry.0@;
    let mut i: usize = 0;
    assert(fields.take(0) =~= Seq::empty());
    assert(trait_texts(r@) =~= Seq::empty());
    while i < entry.0.len()
        invariant
            i <= entry.0@.len(),
            fields == entry.0@,
            trait_texts(r@) == shown_values(fields.take(i as int), labels@),
        decreases entry.0.len() - i,
    {
        let ghost was = trait_texts(r@);
        assert(fields.take(i + 1).drop_last() =~= fields.take(i as int));
        let hash: u64 = entry.0[i].0;
        if let Some(value) = to_param_value(&entry.0[i].1) {
            let key = name_shown(hash, labels);
            r.push(TraitValue { key, value });
            assert(trait_texts(r@) =~= was.push((shown_name(hash, labels@), value)));
        }
        i = i + 1;
    }
    assert(fields.take(fields.len() as int) =~= fields);
    r
}

impl FighterTraits {
    /// Whether the row is one of the file, and the shown fields are its.
    pub open spec fn wf(&self) -> bool {
        &&& has_row(self.root, self.row as int)
        &&& trait_texts(self.values@) == shown_values(
            fields_at(self.root, self.row as int),
            self.labels@,
        )
    }

    /// Finds the row of a fighter in a file that was read.
    pub fn open(root: ParamStruct, fighter: &str, labels: &HashMap<u64, String>) -> (r: Result<
        FighterTraits,
        String,
    >)
        ensures
            match r {
                Ok(traits) => {
                    &&& traits.wf()
                    &&& traits.root == root
                    &&& traits.fighter@ == fighter@
                    &&& traits.labels@ == labels@
                    &&& is_row_of(trait_rows(root)[traits.row as int], kind_hash(fighter@))
                    &&& forall|i: int|
                        0 <= i < traits.row ==> !is_row_of(
                            #[trigger] trait_rows(root)[i],
                            kind_hash(fighter@),
                        )
                },
                Err(message) => {
                    &&& forall|i: int|
                        0 <= i < trait_rows(root).len() ==> !is_row_of(
                            #[trigger] trait_rows(root)[i],
                            kind_hash(fighter@),
                        )
                    &&& message@ == fighter@
                        + " has no row in fighter_param_table — only fighters the base game ships have one"@
                },
            },
    {
        let wanted = fighter_kind_hash(fighter);
        match find_row(&root, wanted) {
            Some(row) => {
                let values = shown(&root, row, labels);
                let labels = labels.clone();
                Ok(FighterTraits { root, row, fighter: fighter.to_owned(), values, labels })
            },
            None => Err(
                concat(
                    fighter,
                    " has no row in fighter_param_table — only fighters the base game ships have one",
                ),
            ),
        }
    }

    /// The path of the file under the first root that has it; `has_file` says which do.
    pub fn locate(roots: &Vec<String>, has_file: &Vec<bool>) -> (r: Option<String>)
        requires
            roots@.len() == has_file@.len(),
        ensures
            is_located(roots@, has_file@, r),
    {
        let mut i: usize = 0;
        while i < roots.len()
            invariant
                i <= roots.len(),
                roots@.len() == has_file@.len(),
                forall|j: int| 0 <= j < i ==> !#[trigger] has_file@[j],
            decreases roots.len() - i,
        {
            if has_file[i] {
                assert(has_file@[i as int]);
                return Some(join_path(roots[i].as_str(), FIGHTER_PARAM_PATH));
            }
            i = i + 1;
        }
        None
    }

    /// The shown fields, in file order.
    pub fn values(&self) -> (r: &[TraitValue])
        ensures
            r@ == self.values@,
    {
        self.values.as_slice()
    }

    /// The first shown field of a name.
    pub fn get(&self, key: &str) -> (r: Option<&ParamValue>)
        ensures
            match r {
                Some(value) => exists|i: int|
                    0 <= i < self.values@.len() && (#[trigger] self.values@[i]).key@ == key@
                        && self.values@[i].value == *value && forall|j: int|
                        0 <= j < i ==> (#[trigger] self.values@[j]).key@ != key@,
                None => forall|i: int|
                    0 <= i < self.values@.len() ==> (#[trigger] self.values@[i]).key@ != key@,
            },
    {
        let mut i: usize = 0;
        while i < self.values.len()
            invariant
                i <= self.values.len(),
                forall|j: int| 0 <= j < i ==> (#[trigger] self.values@[j]).key@ != key@,
            decreases self.values.len() - i,
        {
            if same(self.values[i].key.as_str(), key) {
                assert(self.values@[i as int].key@ == key@);
                return Some(&self.values[i].value);
            }
            i = i + 1;
        }
        None
    }

    /// Sets one field, by its name or by what it is shown by, as what the field holds already. A value that does not suit the field is
    /// refused and changes nothing.
    pub fn set(&mut self, key: &str, value: ParamValue) -> (r: Result<(), TraitError>)
        requires
            old(self).wf(),
        ensures
            final(self).wf(),
            final(self).row == old(self).row,
            final(self).fighter == old(self).fighter,
            final(self).labels == old(self).labels,
            trait_set(
                old(self).root,
                final(self).root,
                old(self).row as int,
                old(self).labels@,
                key@,
                value,
                r is Ok,
            ),
            r is Err ==> *final(self) == *old(self),
            match r {
                Ok(_) => true,
                Err(TraitError::NoField(message)) => {
                    &&& key_place(
                        fields_at(old(self).root, old(self).row as int),
                        old(self).labels@,
                        key@,
                    ) is None
                    &&& message@ == old(self).fighter@ + " has no field named "@ + key@
                },
                Err(TraitError::Refused(refusal)) => key_place(
                    fields_at(old(self).root, old(self).row as int),
                    old(self).labels@,
                    key@,
                ) matches Some(at) && coerced(
                    fields_at(old(self).root, old(self).row as int)[at].1,
                    value,
                ) == Err::<ParamKind, Refusal>(refusal),
            },
    {
        let ghost was = self.root;
        let ghost row = self.row as int;
        proof {
            lemma_list_place(was.0@, name_hash("fighter_param_table"@));
        }
        let table: usize = match find_list(&self.root.0, hash_name("fighter_param_table")) {
            Some(at) => at,
            None => {
                assert(false);
                0
            },
        };
        let mut place: Option<usize> = None;
        let mut outcome: Option<Result<ParamKind, Refusal>> = None;
        if let ParamKind::List(list) = &self.root.0[table].1 {
            if let ParamKind::Struct(entry) = &list.0[self.row] {
                place = find_key(&entry.0, &self.labels, key);
                if let Some(at) = place {
                    outcome = Some(coerce(&entry.0[at].1, value));
                }
            }
        }
        match (place, outcome) {
            (Some(at), Some(Ok(kind))) => {
                set_value(&mut self.root, table, self.row, at, kind);
                proof {
                    lemma_list_place(self.root.0@, name_hash("fighter_param_table"@));
                    let t = table as int;
                    let now = self.root.0@;
                    let other = list_place(now, name_hash("fighter_param_table"@))->0;
                    assert(now[t].0 == was.0@[t].0 && now[t].1 is List);
                    if other != t {
                        assert(now[other] == was.0@[other]);
                    }
                    assert(trait_rows(self.root) == now[t].1->List_0.0@);
                }
                self.values = shown(&self.root, self.row, &self.labels);
                Ok(())
            },
            (Some(_), Some(Err(refusal))) => Err(TraitError::Refused(refusal)),
            _ => {
                let mut message = self.fighter.clone();
                message.append(" has no field named ");
                message.append(key);
                Err(TraitError::NoField(message))
            },
        }
    }

    /// Applies the edits of a project, whose names ascend. Gives the names that could not be set;
    /// they do not stop the others.
    pub fn apply(&mut self, edits: &Vec<(String, ParamValue)>) -> (missing: Vec<String>)
        requires
            old(self).wf(),
            ascending(keys(edits@)),
        ensures
            final(self).wf(),
            final(self).row == old(self).row,
            final(self).fighter == old(self).fighter,
            final(self).labels == old(self).labels,
            exists|states: Seq<ParamStruct>, done: Seq<bool>| #[trigger]
                trait_run(states, done, old(self).row as int, old(self).labels@, edits@)
                    && states[0] == old(self).root
                    && states[edits@.len() as int] == final(self).root
                    && texts(missing@) == undone(keys(edits@), done),
    {
        let mut missing: Vec<String> = Vec::new();
        let ghost first = *self;
        let ghost mut states: Seq<ParamStruct> = seq![self.root];
        let ghost mut done: Seq<bool> = Seq::empty();
        let mut i: usize = 0;
        assert(keys(edits@.take(0)) =~= Seq::empty());
        assert(texts(missing@) =~= Seq::empty());
        while i < edits.len()
            invariant
                i <= edits.len(),
                self.wf(),
                self.row == first.row,
                self.fighter == first.fighter,
                self.labels == first.labels,
                trait_run(states, done, first.row as int, first.labels@, edits@.take(i as int)),
                states[0] == first.root,
                states[i as int] == self.root,
                texts(missing@) == undone(keys(edits@.take(i as int)), done),
            decreases edits.len() - i,
        {
            let ghost was_states = states;
            let ghost was_done = done;
            let ghost was_missing = texts(missing@);
            let ghost before_names = keys(edits@.take(i as int));
            let ghost names = keys(edits@.take(i + 1));
            let ok = self.set(edits[i].0.as_str(), edits[i].1).is_ok();
            if !ok {
                missing.push(edits[i].0.clone());
                assert(texts(missing@) =~= was_missing.push(edits@[i as int].0@));
            }
            proof {
                states = states.push(self.root);
                done = done.push(ok);
                assert(names.drop_last() =~= before_names);
                lemma_undone_prefix(before_names, was_done, done);
                assert forall|k: int| 0 <= k < i + 1 implies trait_set(
                    #[trigger] states[k],
                    states[k + 1],
                    first.row as int,
                    first.labels@,
                    edits@.take(i + 1)[k].0@,
                    edits@.take(i + 1)[k].1,
                    done[k],
                ) by {
                    if k < i {
                        assert(was_states[k] == states[k]);
                        assert(edits@.take(i as int)[k] == edits@.take(i + 1)[k]);
                    }
                }
            }
            i = i + 1;
        }
        assert(edits@.take(edits@.len() as int) =~= edits@);
        missing
    }
}

/// Finds the first row of a fighter kind.
fn find_row(root: &ParamStruct, wanted: u64) -> (r: Option<usize>)
    ensures
        match r {
            Some(row) => has_row(*root, row as int) && is_row_of(
                trait_rows(*root)[row as int],
                wanted,
            ) && forall|i: int|
                0 <= i < row ==> !is_row_of(#[trigger] trait_rows(*root)[i], wanted),
            None => forall|i: int|
                0 <= i < trait_rows(*root).len() ==> !is_row_of(
                    #[trigger] trait_rows(*root)[i],
                    wanted,
                ),
        },
{
    let table: usize = match find_list(&root.0, hash_name("fighter_param_table")) {
        Some(at) => at,
        None => {
            return None;
        },
    };
    let list = match &root.0[table].1 {
        ParamKind::List(list) => list,
        _ => {
            return None;
        },
    };
    let mut i: usize = 0;
    while i < list.0.len()
        invariant
            i <= list.0@.len(),
            list.0@ == trait_rows(*root),
            forall|j: int| 0 <= j < i ==> !is_row_of(#[trigger] trait_rows(*root)[j], wanted),
        decreases list.0.len() - i,
    {
        if let ParamKind::Struct(entry) = &list.0[i] {
            if let Some(ParamKind::Hash(kind)) = field(entry, "fighter_kind") {
                if *kind == wanted {
                    return Some(i);
                }
            }
        }
        i = i + 1;
    }
    None
}

/// Setting a field leaves every other row of the file as it was, and in the fighter's own row
/// every field but that one. What the field holds stays what it was.
pub proof fn law_setting_touches_one_field(
    was: ParamStruct,
    now: ParamStruct,
    row: int,
    labels: Map<u64, String>,
    key: Seq<char>,
    value: ParamValue,
    done: bool,
)
    requires
        has_row(was, row),
        trait_set(was, now, row, labels, key, value, done),
    ensures
        has_row(now, row),
        trait_rows(now).len() == trait_rows(was).len(),
        forall|i: int|
            0 <= i < trait_rows(was).len() && i != row ==> #[trigger] trait_rows(now)[i]
                == trait_rows(was)[i],
        done ==> ({
            let hash = fields_at(was, row)[key_place(fields_at(was, row), labels, key)->0].0;
            let before_kind = field_value(fields_at(was, row), hash);
            let kind = field_value(fields_at(now, row), hash);
            &&& key_place(fields_at(was, row), labels, key) is Some
            &&& forall|other: u64|
                other != hash ==> #[trigger] field_value(fields_at(now, row), other)
                    == field_value(fields_at(was, row), other)
            &&& before_kind is Some
            &&& kind is Some
            &&& coerced(before_kind->0, value) == Ok::<ParamKind, Refusal>(kind->0)
            &&& kind_of(kind->0) == kind_of(before_kind->0)
        }),
        !done ==> now == was,
{
    if done {
        let fields = fields_at(was, row);
        let new_fields = fields_at(now, row);
        lemma_key_place(fields, labels, key);
        let at = key_place(fields, labels, key)->0;
        let h = fields[at].0;
        lemma_field_place(fields, h);
        lemma_field_place_by_hashes(new_fields, fields, h);
        assert forall|hash: u64| hash != h implies #[trigger] field_value(
            new_fields,
            hash,
        ) == field_value(fields, hash) by {
            lemma_field_place_by_hashes(new_fields, fields, hash);
            lemma_field_place(fields, hash);
        }
    }
}

/// The edits of a project to parameter files: by file, by field.
#[derive(Debug, Default)]
pub struct ParamMod {
    pub files: Vec<(String, Vec<(String, ParamValue)>)>,
}

impl View for ParamMod {
    type V = Map<Seq<char>, Map<Seq<char>, ParamValue>>;

    open spec fn view(&self) -> Map<Seq<char>, Map<Seq<char>, ParamValue>> {
        entries(self.files@).map_values(|file: Vec<(String, ParamValue)>| entries(file@))
    }
}

/// Whether `r` is the path of the file under the first root that has it.
pub open spec fn is_located(roots: Seq<String>, has_file: Seq<bool>, r: Option<String>) -> bool {
    match r {
        Some(path) => exists|i: int|
            0 <= i < roots.len() && #[trigger] has_file[i] && path@ == joined(
                roots[i]@,
                FIGHTER_PARAM_PATH@,
            ) && forall|j: int| 0 <= j < i ==> !#[trigger] has_file[j],
        None => forall|i: int| 0 <= i < roots.len() ==> !#[trigger] has_file[i],
    }
}

/// Whether two values are the same, floats by their numbers.
pub open spec fn same_value(a: ParamValue, b: ParamValue) -> bool {
    match (a, b) {
        (ParamValue::Float(x), ParamValue::Float(y)) => equal_numbers(x, y),
        _ => a == b,
    }
}

fn are_same(a: ParamValue, b: ParamValue) -> (r: bool)
    ensures
        r == same_value(a, b),
{
    match (a, b) {
        (ParamValue::Float(x), ParamValue::Float(y)) => are_equal(x, y),
        _ => a == b,
    }
}

impl ParamMod {
    /// Whether the files and the fields of each file stand in order.
    pub open spec fn wf(&self) -> bool {
        &&& ascending(keys(self.files@))
        &&& forall|path: Seq<char>| #[trigger]
            entries(self.files@).contains_key(path) ==> ascending(
                keys(entries(self.files@)[path]@),
            )
    }

    /// No edits.
    pub fn new() -> (r: ParamMod)
        ensures
            r.wf(),
            r@ == Map::<Seq<char>, Map<Seq<char>, ParamValue>>::empty(),
    {
        let r = ParamMod { files: Vec::new() };
        proof {
            lemma_empty(r.files@);
            assert(r@ =~= Map::empty());
        }
        r
    }

    /// Whether there is no edit.
    pub fn is_empty(&self) -> (r: bool)
        ensures
            r == (self@ == Map::<Seq<char>, Map<Seq<char>, ParamValue>>::empty()),
    {
        proof {
            lemma_empty(self.files@);
            if self.files@.len() > 0 {
                assert(keys(self.files@)[0] == self.files@[0].0@);
                assert(self@.contains_key(self.files@[0].0@));
            } else {
                assert(self@ =~= Map::empty());
            }
        }
        self.files.len() == 0
    }
}

/// The edits of a project to the shared file, by field.
pub open spec fn shared_edits(params: Map<Seq<char>, Map<Seq<char>, ParamValue>>) -> Map<
    Seq<char>,
    ParamValue,
> {
    if params.contains_key(FIGHTER_PARAM_PATH@) {
        params[FIGHTER_PARAM_PATH@]
    } else {
        Map::empty()
    }
}

/// The edits of a project to the shared file.
pub fn edits_for(params: &ParamMod) -> (r: &[(String, ParamValue)])
    requires
        params.wf(),
    ensures
        ascending(keys(r@)),
        entries(r@) == shared_edits(params@),
{
    match lookup(&params.files, FIGHTER_PARAM_PATH) {
        Some(file) => file.as_slice(),
        None => {
            let none: &[(String, ParamValue)] = &[];
            proof {
                lemma_empty(none@);
            }
            none
        },
    }
}

/// The edits of a project after one field was set: the edit is recorded, or cleared when the
/// value is that of the base file, and a file without edits is no longer listed.
pub open spec fn recorded(
    params: Map<Seq<char>, Map<Seq<char>, ParamValue>>,
    key: Seq<char>,
    value: ParamValue,
    base: Option<ParamValue>,
) -> Map<Seq<char>, Map<Seq<char>, ParamValue>> {
    let clears = base matches Some(base) && same_value(base, value);
    let file = if clears {
        shared_edits(params).remove(key)
    } else {
        shared_edits(params).insert(key, value)
    };
    if file == Map::<Seq<char>, ParamValue>::empty() {
        params.remove(FIGHTER_PARAM_PATH@)
    } else {
        params.insert(FIGHTER_PARAM_PATH@, file)
    }
}

/// Records one edit, or clears it when the value is that of the base file. An edit that agrees
/// with the base would pin a value that should follow the game.
pub fn record_edit(params: &mut ParamMod, key: &str, value: ParamValue, base: Option<ParamValue>)
    requires
        old(params).wf(),
    ensures
        final(params).wf(),
        final(params)@ == recorded(old(params)@, key@, value, base),
{
    let ghost was = *params;
    let mut file: Vec<(String, ParamValue)> = match take_out(
        &mut params.files,
        FIGHTER_PARAM_PATH,
    ) {
        Some(file) => file,
        None => Vec::new(),
    };
    proof {
        if file@.len() == 0 {
            lemma_empty(file@);
        }
    }
    assert(entries(file@) == shared_edits(was@));
    let clears = match base {
        Some(base) => are_same(base, value),
        None => false,
    };
    if clears {
        let _ = take_out(&mut file, key);
    } else {
        put(&mut file, key, value);
    }
    proof {
        lemma_empty(file@);
    }
    let ghost left = entries(params.files@);
    assert(left == entries(was.files@).remove(FIGHTER_PARAM_PATH@));
    if file.len() > 0 {
        let ghost edits = file;
        put(&mut params.files, FIGHTER_PARAM_PATH, file);
        assert(params@ =~= was@.insert(FIGHTER_PARAM_PATH@, entries(edits@)));
    } else {
        assert(params@ =~= was@.remove(FIGHTER_PARAM_PATH@));
    }
}

/// Recording an edit and then recording the base value again leaves the project as it was before,
/// when it had no edit of that field.
pub proof fn law_returning_to_the_base_clears_the_edit(
    params: Map<Seq<char>, Map<Seq<char>, ParamValue>>,
    key: Seq<char>,
    value: ParamValue,
    base: ParamValue,
)
    requires
        !shared_edits(params).contains_key(key),
        params.contains_key(FIGHTER_PARAM_PATH@) ==> params[FIGHTER_PARAM_PATH@] != Map::<
            Seq<char>,
            ParamValue,
        >::empty(),
        same_value(base, base),
        !same_value(base, value),
    ensures
        shared_edits(recorded(params, key, value, Some(base)))[key] == value,
        recorded(recorded(params, key, value, Some(base)), key, base, Some(base)) == params,
{
    let path = FIGHTER_PARAM_PATH@;
    let file = shared_edits(params);
    let once = recorded(params, key, value, Some(base));
    assert(file.insert(key, value).contains_key(key));
    assert(once == params.insert(path, file.insert(key, value)));
    assert(file.insert(key, value).remove(key) =~= file);
    let twice = recorded(once, key, base, Some(base));
    if params.contains_key(path) {
        assert(twice =~= params);
    } else {
        assert(file =~= Map::empty());
        assert(twice =~= params);
    }
}

/// Values that are not both floats are the same exactly when they are equal; floats are the same
/// exactly when their numbers are.
pub proof fn law_values_are_the_same_when_equal(a: ParamValue, b: ParamValue)
    ensures
        match (a, b) {
            (ParamValue::Float(x), ParamValue::Float(y)) => same_value(a, b) <==> {
                &&& x % 0x8000_0000 <= 0x7f80_0000
                &&& y % 0x8000_0000 <= 0x7f80_0000
                &&& x == y || (x % 0x8000_0000 == 0 && y % 0x8000_0000 == 0)
            },
            _ => same_value(a, b) <==> a == b,
        },
{
    if let (ParamValue::Float(x), ParamValue::Float(y)) = (a, b) {
        law_numbers_are_equal_by_their_bits(x, y);
        law_numbers_are_equal_by_their_bits(y, x);
    }
}

/// What a project holds of the shared file after one field was recorded. A value of another kind than
/// the base, or a whole number, flag or hash that differs from it, is held as it was given; the base
/// value is not held; without a base every value is held. No other field and no other file changes.
pub proof fn law_recording_holds_what_differs_from_the_base(
    params: Map<Seq<char>, Map<Seq<char>, ParamValue>>,
    key: Seq<char>,
    value: ParamValue,
    base: Option<ParamValue>,
)
    requires
        !(value is Float && base matches Some(ParamValue::Float(_))),
    ensures
        ({
            let was = shared_edits(params);
            let now = shared_edits(recorded(params, key, value, base));
            &&& base == Some(value) ==> !now.contains_key(key)
            &&& base != Some(value) ==> now.contains_key(key) && now[key] == value
            &&& forall|other: Seq<char>|
                other != key ==> (#[trigger] now.contains_key(other) == was.contains_key(other)) && (
                was.contains_key(other) ==> now[other] == was[other])
            &&& forall|path: Seq<char>|
                path != "fighter/common/param/fighter_param.prc"@ ==> (
                #[trigger] recorded(params, key, value, base).contains_key(path)
                    == params.contains_key(path)) && (params.contains_key(path) ==> recorded(
                    params,
                    key,
                    value,
                    base,
                )[path] == params[path])
            &&& recorded(params, key, value, base).contains_key(
                "fighter/common/param/fighter_param.prc"@,
            ) <==> now != Map::<Seq<char>, ParamValue>::empty()
        }),
{
    if let Some(old) = base {
        law_values_are_the_same_when_equal(old, value);
    }
    let was = shared_edits(params);
    let left = was.remove(key);
    assert(was.insert(key, value).contains_key(key));
    if left == Map::<Seq<char>, ParamValue>::empty() {
        assert forall|other: Seq<char>| other != key implies !was.contains_key(other) by {
            assert(left.contains_key(other) == was.contains_key(other));
        }
    }
}

/// Of floats, the number of the base is not held and every other is.
pub proof fn law_recording_holds_other_numbers(
    params: Map<Seq<char>, Map<Seq<char>, ParamValue>>,
    key: Seq<char>,
    value: u32,
    base: u32,
)
    requires
        base % 0x8000_0000 <= 0x7f80_0000,
    ensures
        ({
            let now = shared_edits(
                recorded(params, key, ParamValue::Float(value), Some(ParamValue::Float(base))),
            );
            if value == base || (value % 0x8000_0000 == 0 && base % 0x8000_0000 == 0) {
                !now.contains_key(key)
            } else {
                now.contains_key(key) && now[key] == ParamValue::Float(value)
            }
        }),
{
    law_values_are_the_same_when_equal(ParamValue::Float(base), ParamValue::Float(value));
    let was = shared_edits(params);
    assert(was.insert(key, ParamValue::Float(value)).contains_key(key));
}

/// What a field takes: a flag only flags, a name only names, a decimal number every number, and a
/// whole number every whole number of its own range. What it takes it holds afterwards, and for all
/// else there is a refusal.
pub proof fn law_a_field_takes_what_it_can_hold(existing: ParamKind, value: ParamValue)
    ensures
        ({
            let r = coerced(existing, value);
            let n = whole_of(value);
            let is_number = !(value is Bool) && !(value is Hash);
            match existing {
                ParamKind::Bool(_) => r is Ok <==> value is Bool,
                ParamKind::Hash(_) => r is Ok <==> value is Hash,
                ParamKind::Float(_) => r is Ok <==> is_number,
                ParamKind::I8(_) => r is Ok <==> is_number && n is Some && -128 <= n->0 < 128,
                ParamKind::U8(_) => r is Ok <==> is_number && n is Some && 0 <= n->0 < 256,
                ParamKind::I16(_) => r is Ok <==> is_number && n is Some && -32768 <= n->0 < 32768,
                ParamKind::U16(_) => r is Ok <==> is_number && n is Some && 0 <= n->0 < 65536,
                ParamKind::I32(_) => r is Ok <==> is_number && n is Some && -2147483648 <= n->0
                    < 2147483648,
                ParamKind::U32(_) => r is Ok <==> is_number && n is Some && 0 <= n->0 < 4294967296,
                _ => r is Err,
            }
        }),
        match (value, coerced(existing, value)) {
            (ParamValue::Bool(flag), Ok(kind)) => kind == ParamKind::Bool(flag),
            (ParamValue::Hash(raw), Ok(kind)) => kind == ParamKind::Hash(raw),
            (ParamValue::Float(bits), Ok(ParamKind::Float(held))) => held == bits,
            _ => true,
        },
{
}

/// A refusal says why: a flag or a name that does not belong, a number for a flag, or a number that
/// does not fit.
pub proof fn law_a_refusal_says_why(existing: ParamKind, value: ParamValue)
    requires
        coerced(existing, value) is Err,
    ensures
        match coerced(existing, value)->Err_0 {
            Refusal::FlagInto(kind) => value is Bool && kind == kind_of(existing),
            Refusal::HashInto(kind) => value is Hash && kind == kind_of(existing),
            Refusal::NumberIntoFlag => existing is Bool && !(value is Bool) && !(value is Hash),
            Refusal::DoesNotFit(kind) => kind == kind_of(existing) && !(value is Bool) && !(
            value is Hash) && !(existing is Bool),
        },
{
}

/// The fields that are shown are those that can be edited, in the order of the file, each with its
/// own value; texts, lists and groups are not among them.
pub proof fn law_every_field_that_can_be_edited_is_shown(
    fields: Seq<(u64, ParamKind)>,
    labels: Map<u64, String>,
    more: (u64, ParamKind),
)
    ensures
        more.1 is Str || more.1 is List || more.1 is Struct ==> shown_values(
            fields.push(more),
            labels,
        ) == shown_values(fields, labels),
        !(more.1 is Str || more.1 is List || more.1 is Struct) ==> shown_values(
            fields.push(more),
            labels,
        ).drop_last() == shown_values(fields, labels) && coerced(
            more.1,
            shown_values(fields.push(more), labels).last().1,
        ) == Ok::<ParamKind, Refusal>(more.1),
        labels.contains_key(more.0) && !(more.1 is Str || more.1 is List || more.1 is Struct)
            ==> shown_values(fields.push(more), labels).last().0 == labels[more.0]@,
        shown_values(Seq::empty(), labels).len() == 0,
{
    assert(fields.push(more).drop_last() =~= fields);
    if !(more.1 is Str || more.1 is List || more.1 is Struct) {
        assert(shown_values(fields.push(more), labels).drop_last() =~= shown_values(
            fields,
            labels,
        ));
    }
}

/// A field without a label is shown by its hash.
pub proof fn law_an_unlabelled_field_is_shown_by_its_hash(hash: u64, labels: Map<u64, String>)
    requires
        !labels.contains_key(hash),
    ensures
        shown_name(hash, labels).take(2) == seq!['0', 'x'],
        hex_value(shown_name(hash, labels).skip(2)) == hash,
{
    reveal_strlit("0x");
    law_hexadecimal_reads_back(hash as nat, 1);
    assert(shown_name(hash, labels).take(2) =~= seq!['0', 'x']);
    assert(shown_name(hash, labels).skip(2) =~= hex(hash as nat, 1));
}

/// Recording an edit changes no other field and no other file.
pub proof fn law_recording_touches_one_field(
    params: Map<Seq<char>, Map<Seq<char>, ParamValue>>,
    key: Seq<char>,
    value: ParamValue,
    base: Option<ParamValue>,
    path: Seq<char>,
    other: Seq<char>,
)
    ensures
        path != FIGHTER_PARAM_PATH@ ==> (recorded(params, key, value, base).contains_key(path)
            <==> params.contains_key(path)) && recorded(params, key, value, base)[path]
            == params[path],
        other != key ==> (shared_edits(recorded(params, key, value, base)).contains_key(other)
            <==> shared_edits(params).contains_key(other)),
        other != key && shared_edits(params).contains_key(other) ==> shared_edits(
            recorded(params, key, value, base),
        )[other] == shared_edits(params)[other],
{
    let now = recorded(params, key, value, base);
    let clears = match base {
        Some(base) => same_value(base, value),
        None => false,
    };
    let file = if clears {
        shared_edits(params).remove(key)
    } else {
        shared_edits(params).insert(key, value)
    };
    if file == Map::<Seq<char>, ParamValue>::empty() {
        assert(!file.contains_key(other));
        assert(shared_edits(now) == Map::<Seq<char>, ParamValue>::empty());
    } else {
        assert(shared_edits(now) == file);
    }
}

/// The traits are read from the first root that has the file.
pub proof fn law_the_first_root_with_the_file_counts(
    roots: &Vec<String>,
    has_file: &Vec<bool>,
    r: Option<String>,
    at: int,
)
    requires
        call_ensures(FighterTraits::locate, (roots, has_file), r),
        roots@.len() == has_file@.len(),
        0 <= at < roots@.len(),
        has_file@[at],
        forall|j: int| 0 <= j < at ==> !#[trigger] has_file@[j],
    ensures
        r is Some,
        r->0@ == joined(roots@[at]@, "fighter/common/param/fighter_param.prc"@),
{
    if r is Some {
        let i = choose|i: int|
            0 <= i < roots@.len() && #[trigger] has_file@[i] && r->0@ == joined(
                roots@[i]@,
                FIGHTER_PARAM_PATH@,
            ) && forall|j: int| 0 <= j < i ==> !#[trigger] has_file@[j];
        if at < i {
            assert(!has_file@[at]);
        }
        if i < at {
            assert(!has_file@[i]);
        }
        assert(i == at);
    }
}

} // verus!
