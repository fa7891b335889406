use std::collections::HashMap;

use visionary::params::{ParamKind, ParamList, ParamStruct};
use visionary::roster::css::{
    chara_db_under, fields_are_apart, fighter_kind_hash, locate_ui_root,
    override_fields_are_apart, CharaDb, CharaOverrides, CharaRow, OFF_ROSTER, RANDOM_SLOT_ORDER,
};
use visionary::roster::trait_sections::sections;
use visionary::roster::traits::{
    coerce, edits_for, kind_name, record_edit, FighterTraits, Kind, ParamMod, ParamValue, Refusal,
    TraitError,
};

fn hash(name: &str) -> u64 {
    hash40::hash40(name).0
}

fn entry(name: &str, disp_order: i8, save_no: i8, can_select: bool) -> ParamKind {
    ParamKind::Struct(ParamStruct(vec![
        (hash("name_id"), ParamKind::Str(name.into())),
        (hash("ui_chara_id"), ParamKind::Hash(hash(name))),
        (hash("fighter_kind"), ParamKind::Hash(hash(name))),
        (hash("disp_order"), ParamKind::I8(disp_order)),
        (hash("save_no"), ParamKind::I8(save_no)),
        (hash("can_select"), ParamKind::Bool(can_select)),
        (hash("color_num"), ParamKind::U8(8)),
    ]))
}

fn roster_order(db: &CharaDb) -> Vec<&CharaRow> {
    let mut rows: Vec<&CharaRow> = db.entries().iter().filter(|row| row.on_roster()).collect();
    rows.sort_by_key(|row| (row.disp_order, row.index));
    rows
}

fn db() -> CharaDb {
    let root = ParamStruct(vec![(
        hash("db_root"),
        ParamKind::List(ParamList(vec![
            entry("random", RANDOM_SLOT_ORDER, -1, false),
            entry("mario", 0, 0, true),
            entry("richter", 67, 64, true),
            entry("inkling", 64, 65, true),
            entry("simon", 66, 68, true),
            entry("eflame_first", 80, 83, true),
            entry("elight_first", 80, 83, true),
            entry("masterhand", OFF_ROSTER, -1, false),
        ])),
    )]);
    CharaDb::open(root, "ui_chara_db.prc").unwrap()
}

#[test]
fn roster_order_follows_disp_order_not_save_no_or_list_order() {
    let db = db();
    let names: Vec<&str> = roster_order(&db)
        .iter()
        .map(|row| row.name_id.as_str())
        .collect();
    assert_eq!(
        names,
        vec![
            "mario",
            "inkling",
            "simon",
            "richter",
            "eflame_first",
            "elight_first"
        ]
    );
}

#[test]
fn the_random_slot_and_off_roster_entries_are_not_positions() {
    let db = db();
    assert_eq!(db.row("random").unwrap().disp_order, RANDOM_SLOT_ORDER);
    assert!(!db.row("random").unwrap().on_roster());
    assert!(!db.row("masterhand").unwrap().on_roster());
}

#[test]
fn entries_sharing_a_position_stay_adjacent_in_file_order() {
    let db = db();
    let shared: Vec<&str> = roster_order(&db)
        .iter()
        .filter(|row| row.disp_order == 80)
        .map(|row| row.name_id.as_str())
        .collect();
    assert_eq!(shared, vec!["eflame_first", "elight_first"]);
}

#[test]
fn hiding_and_restoring_keeps_can_select_in_step_with_disp_order() {
    let mut db = db();
    db.set_disp_order("mario", OFF_ROSTER).unwrap();
    let row = db.row("mario").unwrap();
    assert_eq!(row.disp_order, OFF_ROSTER);
    assert!(!row.can_select);
    assert!(!row.on_roster());
    db.set_disp_order("mario", 3).unwrap();
    let row = db.row("mario").unwrap();
    assert_eq!(row.disp_order, 3);
    assert!(row.can_select);
    assert!(row.on_roster());
}

#[test]
fn an_order_naming_an_absent_character_is_reported_rather_than_skipped() {
    let mut db = db();
    let order = vec![("mario".to_string(), 5), ("nosuchfighter".to_string(), 6)];
    let missing = db.apply_order(&order);
    assert_eq!(missing, vec!["nosuchfighter"]);
    assert_eq!(db.row("mario").unwrap().disp_order, 5);
}

fn outside_kind(kind: &ParamKind) -> prc::ParamKind {
    match kind {
        ParamKind::Bool(v) => prc::ParamKind::Bool(*v),
        ParamKind::I8(v) => prc::ParamKind::I8(*v),
        ParamKind::U8(v) => prc::ParamKind::U8(*v),
        ParamKind::I16(v) => prc::ParamKind::I16(*v),
        ParamKind::U16(v) => prc::ParamKind::U16(*v),
        ParamKind::I32(v) => prc::ParamKind::I32(*v),
        ParamKind::U32(v) => prc::ParamKind::U32(*v),
        ParamKind::Float(v) => prc::ParamKind::Float(f32::from_bits(*v)),
        ParamKind::Hash(v) => prc::ParamKind::Hash(prc::hash40::Hash40(*v)),
        ParamKind::Str(v) => prc::ParamKind::Str(v.clone()),
        ParamKind::List(v) => {
            prc::ParamKind::List(prc::ParamList(v.0.iter().map(outside_kind).collect()))
        }
        ParamKind::Struct(v) => prc::ParamKind::Struct(outside_struct(v)),
    }
}

fn outside_struct(fields: &ParamStruct) -> prc::ParamStruct {
    prc::ParamStruct(
        fields
            .0
            .iter()
            .map(|(hash, kind)| (prc::hash40::Hash40(*hash), outside_kind(kind)))
            .collect(),
    )
}

fn inside_kind(kind: prc::ParamKind) -> ParamKind {
    match kind {
        prc::ParamKind::Bool(v) => ParamKind::Bool(v),
        prc::ParamKind::I8(v) => ParamKind::I8(v),
        prc::ParamKind::U8(v) => ParamKind::U8(v),
        prc::ParamKind::I16(v) => ParamKind::I16(v),
        prc::ParamKind::U16(v) => ParamKind::U16(v),
        prc::ParamKind::I32(v) => ParamKind::I32(v),
        prc::ParamKind::U32(v) => ParamKind::U32(v),
        prc::ParamKind::Float(v) => ParamKind::Float(v.to_bits()),
        prc::ParamKind::Hash(v) => ParamKind::Hash(v.0),
        prc::ParamKind::Str(v) => ParamKind::Str(v),
        prc::ParamKind::List(v) => {
            ParamKind::List(ParamList(v.0.into_iter().map(inside_kind).collect()))
        }
        prc::ParamKind::Struct(v) => ParamKind::Struct(inside_struct(v)),
    }
}

fn inside_struct(fields: prc::ParamStruct) -> ParamStruct {
    ParamStruct(
        fields
            .0
            .into_iter()
            .map(|(hash, kind)| (hash.0, inside_kind(kind)))
            .collect(),
    )
}

fn written(root: &ParamStruct) -> Vec<u8> {
    let mut out = std::io::Cursor::new(Vec::new());
    prc::write_stream(&mut out, &outside_struct(root)).unwrap();
    out.into_inner()
}

fn read(bytes: &[u8]) -> ParamStruct {
    inside_struct(prc::read_stream(&mut std::io::Cursor::new(bytes)).unwrap())
}

#[test]
fn unmodelled_fields_survive_a_round_trip() {
    let mut mario = entry("mario", 0, 0, true);
    if let ParamKind::Struct(st) = &mut mario {
        st.0.push((hash("exhibit_year"), ParamKind::I16(1981)));
    }
    let root = ParamStruct(vec![(
        hash("db_root"),
        ParamKind::List(ParamList(vec![mario])),
    )]);
    let mut db = CharaDb::open(read(&written(&root)), "db").unwrap();
    db.set_disp_order("mario", 7).unwrap();
    let reloaded = read(&written(&db.root));
    let ParamKind::List(list) = &reloaded.0[0].1 else {
        panic!("db_root lost");
    };
    let ParamKind::Struct(st) = &list.0[0] else {
        panic!("entry lost");
    };
    let field = |name: &str| st.0.iter().find(|(h, _)| *h == hash(name)).map(|(_, v)| v);
    assert_eq!(field("disp_order"), Some(&ParamKind::I8(7)));
    assert_eq!(
        field("exhibit_year"),
        Some(&ParamKind::I16(1981)),
        "a field the editor does not model was dropped by a save"
    );
}

#[test]
fn an_untouched_load_and_save_is_byte_identical() {
    let original = written(&db().root);
    let db = CharaDb::open(read(&original), "db").unwrap();
    assert_eq!(written(&db.root), original);
}

#[test]
fn a_database_without_characters_is_refused() {
    let empty = ParamStruct(vec![(hash("db_root"), ParamKind::List(ParamList(vec![])))]);
    match CharaDb::open(empty, "x.prc") {
        Ok(_) => panic!("an empty database must be refused"),
        Err(message) => assert_eq!(
            message,
            "x.prc has no db_root entries — is this a ui_chara_db?"
        ),
    }
}

#[test]
fn placing_names_what_is_missing() {
    let mut db = db();
    assert_eq!(
        db.set_disp_order("nobody", 1),
        Err("no character select entry named nobody".to_string())
    );
    let bare = ParamStruct(vec![(
        hash("db_root"),
        ParamKind::List(ParamList(vec![ParamKind::Struct(ParamStruct(vec![
            (hash("name_id"), ParamKind::Str("bare".into())),
            (hash("disp_order"), ParamKind::I8(4)),
        ]))])),
    )]);
    let mut db = CharaDb::open(bare, "x").unwrap();
    assert_eq!(
        db.set_disp_order("bare", 1),
        Err("entry bare has no can_select field".to_string())
    );
    assert_eq!(db.row("bare").unwrap().disp_order, 4);
}

#[test]
fn overrides_are_written_and_missing_rows_are_named() {
    let mut db = db();
    let patches = vec![
        (
            "mario".to_string(),
            CharaOverrides {
                color_num: Some(16),
                save_no: Some(3),
            },
        ),
        (
            "zelda".to_string(),
            CharaOverrides {
                color_num: None,
                save_no: Some(1),
            },
        ),
    ];
    assert_eq!(db.apply_chara_patches(&patches), vec!["zelda"]);
    let row = db.row("mario").unwrap();
    assert_eq!(row.color_num, 16);
    assert_eq!(row.save_no, 3);
    assert_eq!(db.row("simon").unwrap().color_num, 8);
}

#[test]
fn the_first_root_with_the_database_is_used() {
    let roots = vec!["/data".to_string(), "/mod".to_string()];
    assert_eq!(
        locate_ui_root(&roots, &vec![false, true]),
        Some("/mod".to_string())
    );
    assert_eq!(locate_ui_root(&roots, &vec![false, false]), None);
    assert_eq!(
        chara_db_under("/data"),
        "/data/ui/param/database/ui_chara_db.prc"
    );
    assert_eq!(fighter_kind_hash("Mario"), hash("fighter_kind_mario"));
}

fn labels() -> HashMap<u64, String> {
    ["weight", "jump_squat_frame", "attack100_type", "fighter_kind"]
        .iter()
        .map(|name| (hash(name), (*name).to_string()))
        .collect()
}

fn float(value: f32) -> ParamValue {
    ParamValue::Float(value.to_bits())
}

fn file() -> ParamStruct {
    let rows = [("mario", 98.0f32, 3), ("link", 104.0f32, 7)]
        .iter()
        .map(|(name, weight, jump_squat)| {
            ParamKind::Struct(ParamStruct(vec![
                (
                    hash("fighter_kind"),
                    ParamKind::Hash(fighter_kind_hash(name)),
                ),
                (hash("weight"), ParamKind::Float(weight.to_bits())),
                (hash("jump_squat_frame"), ParamKind::I32(*jump_squat)),
                (hash("attack100_type"), ParamKind::Bool(false)),
            ]))
        })
        .collect();
    ParamStruct(vec![(
        hash("fighter_param_table"),
        ParamKind::List(ParamList(rows)),
    )])
}

#[test]
fn a_fighters_row_is_found_by_fighter_kind() {
    let traits = FighterTraits::open(file(), "link", &labels()).unwrap();
    assert_eq!(traits.get("weight"), Some(&float(104.0)));
    assert_eq!(traits.get("jump_squat_frame"), Some(&ParamValue::I32(7)));
}

#[test]
fn a_fighter_with_no_row_is_refused_with_a_reason() {
    let error = match FighterTraits::open(file(), "mychar", &labels()) {
        Ok(_) => panic!("a fighter with no row must be refused"),
        Err(error) => error,
    };
    assert!(error.contains("no row"), "{error}");
}

#[test]
fn a_field_without_a_label_can_be_edited_by_its_hash() {
    let mut named = labels();
    named.remove(&hash("weight"));
    let mut traits = FighterTraits::open(file(), "mario", &named).unwrap();
    let shown = format!("{:#x}", hash("weight"));
    assert_eq!(traits.get(&shown), Some(&float(98.0)));
    traits.set(&shown, float(77.0)).unwrap();
    assert_eq!(traits.get(&shown), Some(&float(77.0)));
    assert!(traits.set("0x1234", float(1.0)).is_err());
    let missing = traits.apply(&vec![(shown.clone(), float(55.0))]);
    assert!(missing.is_empty());
    assert_eq!(traits.get(&shown), Some(&float(55.0)));
    let other = FighterTraits::open(traits.root, "link", &labels()).unwrap();
    assert_eq!(other.get("weight"), Some(&float(104.0)));
}

#[test]
fn editing_one_fighter_leaves_every_other_row_untouched() {
    let mut traits = FighterTraits::open(file(), "mario", &labels()).unwrap();
    traits.set("weight", float(120.0)).unwrap();
    let root = traits.root;
    let reloaded = FighterTraits::open(root, "mario", &labels()).unwrap();
    assert_eq!(reloaded.get("weight"), Some(&float(120.0)));
    let other = FighterTraits::open(reloaded.root, "link", &labels()).unwrap();
    assert_eq!(other.get("weight"), Some(&float(104.0)));
    assert_eq!(other.get("jump_squat_frame"), Some(&ParamValue::I32(7)));
}

#[test]
fn a_value_is_written_as_the_type_the_field_already_holds() {
    let mut traits = FighterTraits::open(file(), "mario", &labels()).unwrap();
    traits.set("jump_squat_frame", float(5.0)).unwrap();
    assert_eq!(traits.get("jump_squat_frame"), Some(&ParamValue::I32(5)));
}

#[test]
fn a_value_that_does_not_fit_the_field_is_refused_not_truncated() {
    let mut traits = FighterTraits::open(file(), "mario", &labels()).unwrap();
    assert!(traits.set("attack100_type", float(3.0)).is_err());
    assert!(traits.set("jump_squat_frame", float(2.5)).is_err());
    assert_eq!(traits.get("jump_squat_frame"), Some(&ParamValue::I32(3)));
    assert_eq!(traits.get("attack100_type"), Some(&ParamValue::Bool(false)));
}

#[test]
fn edits_naming_absent_fields_are_returned_rather_than_skipped() {
    let mut traits = FighterTraits::open(file(), "mario", &labels()).unwrap();
    let edits = vec![
        ("no_such_field".to_string(), float(1.0)),
        ("weight".to_string(), float(110.0)),
    ];
    let missing = traits.apply(&edits);
    assert_eq!(missing, vec!["no_such_field"]);
    assert_eq!(traits.get("weight"), Some(&float(110.0)));
    match traits.set("no_such_field", float(1.0)) {
        Err(TraitError::NoField(message)) => {
            assert_eq!(message, "mario has no field named no_such_field")
        }
        other => panic!("expected a missing field, got {other:?}"),
    }
}

#[test]
fn returning_a_value_to_the_base_clears_the_override() {
    let mut params = ParamMod::default();
    let base = Some(float(98.0));
    record_edit(&mut params, "weight", float(120.0), base);
    assert_eq!(
        edits_for(&params)
            .iter()
            .find(|(key, _)| key == "weight")
            .map(|(_, value)| value),
        Some(&float(120.0))
    );
    record_edit(&mut params, "weight", float(98.0), base);
    assert!(edits_for(&params).is_empty());
    assert!(params.is_empty(), "an empty file entry was left behind");
}

#[test]
fn another_file_without_edits_stays_listed() {
    let mut params = ParamMod {
        files: vec![("fighter/a.prc".to_string(), vec![])],
    };
    record_edit(&mut params, "weight", float(120.0), Some(float(98.0)));
    assert_eq!(params.files.len(), 2);
    record_edit(&mut params, "weight", float(98.0), Some(float(98.0)));
    assert_eq!(params.files, vec![("fighter/a.prc".to_string(), vec![])]);
}

#[test]
fn curated_sections_name_distinct_fields() {
    let mut listed = 0;
    let mut keys = std::collections::BTreeSet::new();
    for section in sections() {
        for field in &section.fields {
            listed += 1;
            keys.insert(field.key);
            assert!(
                !field.description.is_empty(),
                "{} has no explanation",
                field.key
            );
        }
    }
    assert_eq!(
        keys.len(),
        listed,
        "a curated field appears in more than one section"
    );
    assert!(listed > 30, "the curated set is suspiciously small");
}

#[test]
fn an_unlabelled_field_is_shown_by_its_hash() {
    let traits = FighterTraits::open(file(), "mario", &HashMap::new()).unwrap();
    let name = format!("{:#x}", hash("weight"));
    assert_eq!(traits.get(&name), Some(&float(98.0)));
    assert_eq!(traits.values().len(), 4);
    let roots = vec!["/a".to_string()];
    assert_eq!(
        FighterTraits::locate(&roots, &vec![true]),
        Some("/a/fighter/common/param/fighter_param.prc".to_string())
    );
}

#[test]
fn numbers_become_what_the_field_holds() {
    assert_eq!(
        coerce(&ParamKind::Float(0), ParamValue::I32(5)),
        Ok(ParamKind::Float(5.0f32.to_bits()))
    );
    assert_eq!(
        coerce(&ParamKind::Float(0), ParamValue::I32(-16777217)),
        Ok(ParamKind::Float((-16777217i32 as f32).to_bits()))
    );
    assert_eq!(
        coerce(&ParamKind::Float(0), ParamValue::U32(u32::MAX)),
        Ok(ParamKind::Float((u32::MAX as f32).to_bits()))
    );
    for value in [0.0f32, -0.0, 1.0, -1.0, 127.0, -128.0, 65536.0, 16777216.0] {
        assert_eq!(
            coerce(&ParamKind::I32(0), float(value)),
            Ok(ParamKind::I32(value as i32))
        );
    }
    for value in [0.5f32, -2.25, f32::NAN, f32::INFINITY, 1e30, f32::MIN_POSITIVE] {
        assert_eq!(
            coerce(&ParamKind::I32(0), float(value)),
            Err(Refusal::DoesNotFit(Kind::I32))
        );
    }
    assert_eq!(
        coerce(&ParamKind::I8(0), ParamValue::I32(300)),
        Err(Refusal::DoesNotFit(Kind::I8))
    );
    assert_eq!(
        coerce(&ParamKind::U8(0), ParamValue::I32(300)),
        Err(Refusal::DoesNotFit(Kind::U8))
    );
    assert_eq!(
        coerce(&ParamKind::U16(0), ParamValue::U8(7)),
        Ok(ParamKind::U16(7))
    );
    assert_eq!(
        coerce(&ParamKind::U32(0), float(4294967040.0)),
        Ok(ParamKind::U32(4294967040))
    );
    assert_eq!(
        coerce(&ParamKind::U32(0), float(4294967296.0)),
        Err(Refusal::DoesNotFit(Kind::U32))
    );
    assert_eq!(
        coerce(&ParamKind::Bool(false), ParamValue::I8(1)),
        Err(Refusal::NumberIntoFlag)
    );
    assert_eq!(
        coerce(&ParamKind::I8(0), ParamValue::Bool(true)),
        Err(Refusal::FlagInto(Kind::I8))
    );
    assert_eq!(
        coerce(&ParamKind::Str("x".into()), ParamValue::Hash(1)),
        Err(Refusal::HashInto(Kind::Str))
    );
    assert_eq!(
        coerce(&ParamKind::Hash(0), ParamValue::Hash(1)),
        Ok(ParamKind::Hash(1))
    );
    assert_eq!(
        Refusal::DoesNotFit(Kind::I8).message("300"),
        "300 does not fit in this field, which is a whole number from -128 to 127"
    );
    assert_eq!(
        Refusal::FlagInto(Kind::Float).message(""),
        "this field is a decimal number and cannot hold a yes/no value"
    );
    assert_eq!(kind_name(Kind::Struct), "a group");
}

#[test]
fn the_fields_that_are_written_have_hashes_of_their_own() {
    assert_eq!(hash("name_id"), 0x7_7117_9cd6);
    assert_eq!(hash("disp_order"), 0xa_cb22_637c);
    assert_eq!(hash("can_select"), 0xa_788e_2256);
    assert_eq!(hash("color_num"), 0x9_0ce6_5ae1);
    assert_eq!(hash("save_no"), 0x7_b8bd_8804);
    assert!(fields_are_apart() && override_fields_are_apart());
    let names = ["name_id", "disp_order", "can_select", "color_num", "save_no"];
    for (i, a) in names.iter().enumerate() {
        for b in &names[i + 1..] {
            assert_ne!(hash(a), hash(b));
        }
    }
}
