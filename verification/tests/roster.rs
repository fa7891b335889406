use visionary::roster::archive::{
    extract, extract_zip, extractor, is_archive, safe_join, slug_for, stem_for, ArchiveKind, EntryStep,
};
use visionary::roster::icons::{
    find_image, find_portrait, image_candidates, texture_label, PortraitCache, PortraitRequest,
    PortraitSlot, NO_PORTRAIT,
};
use visionary::roster::library::{
    adopt_legacy_roots, extraction_root, library_path, ModLibrary, ModSource, ProviderId,
};
use visionary::roster::manifest::{
    detect_arc_root, record_path, scan_manifest, walk_step, DirNode, ModManifest, RootDetection,
    WalkStep,
};
use visionary::roster::names::{
    render_xmsbt_from_labels, write_xmsbt_labels, DetailedNameOverride, NameOverride,
};
use visionary::roster::reveal_path::{ancestors, nearest_existing, nothing_exists};
use visionary::roster::{EntryOrigin, RosterBacking, RosterKey};

#[test]
fn keys_have_a_stable_spelling_per_kind() {
    assert_eq!(RosterKey::fighter("Mario").as_str(), "mario");
    assert_eq!(RosterKey::slot("Mario", 8).as_str(), "mario#c08");
    assert_eq!(RosterKey::chara("PTrainer").as_str(), "ui:ptrainer");
    assert_eq!(RosterKey::slot("Mario", 8).to_string(), "mario#c08");
}

#[test]
fn the_three_key_spaces_never_collide() {
    let keys = [
        RosterKey::fighter("ptrainer"),
        RosterKey::slot("ptrainer", 0),
        RosterKey::chara("ptrainer"),
    ];
    let unique: std::collections::BTreeSet<&RosterKey> = keys.iter().collect();
    assert_eq!(unique.len(), keys.len());
}

#[test]
fn high_slots_keep_distinct_keys() {
    assert_eq!(RosterKey::slot("mario", 112).as_str(), "mario#c112");
    assert_ne!(RosterKey::slot("mario", 1), RosterKey::slot("mario", 11));
}

#[test]
fn a_whole_fighter_owns_its_engine_fighter_and_a_costume_shares_one() {
    assert!(!RosterBacking::Fighter.shares_engine_fighter());
    assert!(RosterBacking::SlotClone {
        donor: "mario".into(),
        slot: 8
    }
    .shares_engine_fighter());
}

#[test]
fn every_backing_answers_the_slot_question() {
    assert_eq!(RosterBacking::Fighter.slot(), None);
    assert_eq!(
        RosterBacking::SlotClone {
            donor: "mario".into(),
            slot: 8
        }
        .slot(),
        Some(8)
    );
    assert_eq!(EntryOrigin::Imported.label(), "Imported");
}

#[test]
fn escaping_paths_are_refused_and_ordinary_ones_are_not() {
    let base = "/cache/mod";
    assert_eq!(
        safe_join(base, "fighter/mario/a.numdlb"),
        Some("/cache/mod/fighter/mario/a.numdlb".to_string())
    );
    assert_eq!(safe_join(base, "../escape"), None);
    assert_eq!(safe_join(base, "/absolute"), None);
    assert_eq!(safe_join(base, "a/../../b"), None);
    assert_eq!(safe_join(base, ""), None);
}

#[test]
fn archive_detection_is_case_insensitive_and_narrow() {
    assert!(is_archive("Mod.ZIP"));
    assert!(is_archive("mod.7z"));
    assert!(!is_archive("mod.rar"));
    assert!(!is_archive("fighter"));
}

#[test]
fn a_second_import_clears_the_first() {
    let plan = extract("/in/Mod.7Z", "/cache", "mod", true);
    assert_eq!(plan.destination, "/cache/mods/mod");
    assert!(plan.clear);
    assert_eq!(plan.kind, Ok(ArchiveKind::SevenZ));
    assert!(!extract("/in/Mod.zip", "/cache", "mod", false).clear);
}

#[test]
fn zip_entries_are_made_or_written_or_passed_over() {
    let entries = vec![
        (Some("fighter/".to_string()), true),
        (Some("fighter/a.bin".to_string()), false),
        (Some("../out.bin".to_string()), false),
        (None, false),
    ];
    assert_eq!(
        extract_zip("/d", &entries),
        vec![
            EntryStep::MakeDir("/d/fighter".to_string()),
            EntryStep::WriteFile {
                parent: Some("/d/fighter".to_string()),
                path: "/d/fighter/a.bin".to_string()
            },
            EntryStep::Skip,
            EntryStep::Skip,
        ]
    );
}

#[test]
fn an_unknown_archive_says_what_to_do() {
    assert_eq!(extractor("a/b.Zip"), Ok(ArchiveKind::Zip));
    assert_eq!(extractor("a/b.7Z"), Ok(ArchiveKind::SevenZ));
    assert_eq!(
        extractor("a/b.RAR"),
        Err("unsupported archive type .rar — extract it and import the folder".to_string())
    );
    assert_eq!(stem_for("/mods/My Mod.v2.zip"), "My Mod.v2");
    assert_eq!(stem_for("/"), "mod");
    let slugify = |name: String| name.to_lowercase().replace(' ', "-");
    assert_eq!(slug_for("/mods/My Mod.v2.zip", slugify), "my-mod.v2");
    assert_eq!(slug_for("/", slugify), "mod");
}

#[test]
fn candidates_cover_both_portrait_trees_with_the_grid_portrait_first() {
    let candidates = image_candidates("chara_1", "mario", 0);
    assert_eq!(
        candidates[0],
        "ui/replace/chara/chara_1/chara_1_mario_00.bntx"
    );
    assert!(candidates
        .iter()
        .any(|path| path.starts_with("ui/replace_patch/chara")));
}

#[test]
fn icons_slot_numbers_are_two_digit() {
    assert!(image_candidates("chara_1", "mario", 8)[0].ends_with("_mario_08.bntx"));
}

#[test]
fn each_chara_set_prefers_its_own_files() {
    let kinds = image_candidates("chara_2", "mario", 0);
    assert_eq!(kinds[0], "ui/replace/chara/chara_2/chara_2_mario_00.bntx");
    assert!(kinds.iter().any(|path| path.contains("chara_1")));
    assert_eq!(kinds.len(), 6);
    assert_eq!(
        kinds[1],
        "ui/replace_patch/chara/chara_2/chara_2_mario_00.bntx"
    );
    assert_eq!(kinds[2], "ui/replace/chara/chara_1/chara_1_mario_00.bntx");
    assert_eq!(
        kinds[5],
        "ui/replace_patch/chara/chara_0/chara_0_mario_00.bntx"
    );
}

#[test]
fn an_update_with_its_own_portrait_comes_before_another_set() {
    let roots = vec!["/base".to_string()];
    let mut flags = vec![vec![false]; 6];
    flags[1] = vec![true];
    flags[2] = vec![true];
    assert_eq!(
        find_image(&roots, "chara_2", "sora", 0, &flags).unwrap(),
        "/base/ui/replace_patch/chara/chara_2/chara_2_sora_00.bntx"
    );
}

#[test]
fn the_first_root_that_has_the_portrait_wins() {
    let roots = vec!["/mod".to_string(), "/base".to_string()];
    let mut flags = vec![vec![false, false]; 6];
    flags[0] = vec![true, true];
    assert!(find_portrait(&roots, "mario", 0, &flags)
        .unwrap()
        .starts_with("/mod"));
}

#[test]
fn a_character_with_no_portrait_anywhere_reports_none() {
    let roots = vec!["/mod".to_string()];
    assert!(find_portrait(&roots, "mario", 0, &vec![vec![false]; 6]).is_none());
}

#[test]
fn stock_tabs_search_only_stock_files() {
    let kinds = image_candidates("stock_90", "mario", 3);
    assert!(!kinds.is_empty());
    assert!(kinds.iter().all(|path| path.contains("stock_90")));
    assert_eq!(kinds[0], "ui/replace/stock/stock_90/stock_90_mario_03.bntx");
    let roots = vec!["/data".to_string()];
    assert!(find_image(&roots, "stock_90", "mario", 3, &vec![vec![false]; 2]).is_none());
}

#[test]
fn portraits_are_decoded_within_the_budget_and_never_twice() {
    let mut cache = PortraitCache::new();
    for name in ["a", "b", "c", "d"] {
        match cache.get_with_gamma(name, 0, true, None) {
            PortraitRequest::Decode(key) => cache.store(key, PortraitSlot::Ready(1)),
            other => panic!("expected a decode, got {other:?}"),
        }
    }
    assert_eq!(
        cache.get_with_gamma("e", 0, true, None),
        PortraitRequest::Queued
    );
    assert_eq!(
        cache.get_with_gamma("a", 0, true, None),
        PortraitRequest::Cached(0)
    );
    cache.begin_frame();
    match cache.get_with_gamma("a", 0, true, Some("/p.png")) {
        PortraitRequest::Decode(key) => assert_eq!(key.text, "a|chara_1|/p.png"),
        other => panic!("expected a decode, got {other:?}"),
    }
    cache.clear_for("a", 0);
    assert_eq!(cache.entries.len(), 3);
    cache.clear_for("b", 1);
    assert_eq!(cache.entries.len(), 3);
    cache.clear();
    assert!(cache.entries.is_empty());
}

#[test]
fn a_portraits_texture_is_named_after_what_it_shows() {
    assert_eq!(texture_label("mario", 3, true, false), "roster_portrait_mario_3_true");
    assert_eq!(texture_label("mario", 10, false, false), "roster_portrait_mario_10_false");
    assert_eq!(texture_label("mario", 3, true, true), "roster_portrait_mario_3_ov");
    assert_eq!(NO_PORTRAIT, "no portrait in any root");
}

fn sample() -> NameOverride {
    NameOverride {
        name_id: "pickel".into(),
        slot: 0,
        display: "Steve".into(),
    }
}

fn decode(bytes: &[u8]) -> String {
    assert_eq!(&bytes[..2], &[0xFF, 0xFE], "missing UTF-16 LE byte order mark");
    let units: Vec<u16> = bytes[2..]
        .chunks_exact(2)
        .map(|pair| u16::from_le_bytes([pair[0], pair[1]]))
        .collect();
    String::from_utf16(&units).unwrap()
}

#[test]
fn labels_match_the_games_naming_scheme() {
    let labels: Vec<String> = sample()
        .labels()
        .into_iter()
        .map(|(label, _)| label)
        .collect();
    assert_eq!(
        labels,
        vec![
            "nam_chr0_00_pickel",
            "nam_chr1_00_pickel",
            "nam_chr2_00_pickel"
        ]
    );
}

#[test]
fn names_slot_numbers_are_two_digit() {
    let entry = NameOverride {
        slot: 8,
        ..sample()
    };
    assert!(entry.labels()[0].0.ends_with("_08_pickel"));
}

#[test]
fn the_uppercase_label_gets_the_uppercased_name() {
    let texts: Vec<String> = sample()
        .labels()
        .into_iter()
        .map(|(_, text)| text)
        .collect();
    assert_eq!(texts, vec!["Steve", "Steve", "STEVE"]);
}

#[test]
fn the_document_is_utf16_with_a_bom_and_well_formed() {
    let bytes = render_xmsbt_from_labels(&sample().labels()).unwrap();
    let xml = decode(&bytes);
    assert!(xml.starts_with("<?xml version=\"1.0\" encoding=\"utf-16\"?>"));
    assert!(xml.contains("<entry label=\"nam_chr1_00_pickel\">"));
    assert!(xml.contains("<text>Steve</text>"));
    assert!(xml.trim_end().ends_with("</xmsbt>"));
}

#[test]
fn names_with_xml_significant_characters_are_escaped() {
    let entry = NameOverride {
        display: "R.O.B. & <Friends>".into(),
        ..sample()
    };
    let xml = decode(&render_xmsbt_from_labels(&entry.labels()).unwrap());
    assert!(xml.contains("R.O.B. &amp; &lt;Friends&gt;"));
    assert!(!xml.contains("& <"));
}

#[test]
fn names_beyond_the_basic_plane_survive() {
    let entry = NameOverride {
        display: "\u{1F344} é \"q\" 'a'".into(),
        ..sample()
    };
    let xml = decode(&render_xmsbt_from_labels(&entry.labels()).unwrap());
    assert!(xml.contains("\u{1F344} é &quot;q&quot; &apos;a&apos;"));
}

#[test]
fn nothing_to_say_writes_no_file_and_removes_a_stale_one() {
    assert!(render_xmsbt_from_labels(&[]).is_none());
    let (path, body) = write_xmsbt_labels("/mod", &sample().labels());
    assert_eq!(path, "/mod/ui/message/msg_name.xmsbt");
    assert!(body.is_some());
    let (stale, body) = write_xmsbt_labels("/mod", &[]);
    assert_eq!(stale, path);
    assert!(body.is_none());
}

#[test]
fn a_label_without_a_text_is_left_out() {
    let names = DetailedNameOverride {
        name_id: "Pickel".into(),
        slot: 1,
        chr0: Some("Short".into()),
        chr1: None,
        chr2: None,
        fallback: None,
    };
    assert_eq!(
        names.labels(),
        vec![("nam_chr0_01_pickel".to_string(), "Short".to_string())]
    );
    let names = DetailedNameOverride {
        fallback: Some("Long".into()),
        ..names
    };
    assert_eq!(
        names.labels()[2],
        ("nam_chr2_01_pickel".to_string(), "LONG".to_string())
    );
    let names = DetailedNameOverride {
        chr2: Some("kept".into()),
        fallback: Some("Long".into()),
        ..names
    };
    assert_eq!(
        names.labels(),
        vec![
            ("nam_chr0_01_pickel".to_string(), "Short".to_string()),
            ("nam_chr1_01_pickel".to_string(), "Long".to_string()),
            ("nam_chr2_01_pickel".to_string(), "kept".to_string()),
        ]
    );
}

#[test]
fn an_existing_path_reveals_itself() {
    let way_up = ancestors("/tmp/here");
    assert_eq!(way_up, vec!["/tmp/here", "/tmp", "/"]);
    assert_eq!(
        nearest_existing(&way_up, &vec![true, true, true]),
        Some("/tmp/here".to_string())
    );
}

#[test]
fn a_missing_path_reveals_the_nearest_existing_ancestor() {
    let way_up = ancestors("/tmp/here/nope/c08");
    assert_eq!(
        nearest_existing(&way_up, &vec![false, false, true, true, true]),
        Some("/tmp/here".to_string())
    );
}

#[test]
fn a_path_with_no_existent_root_reveals_nothing() {
    let way_up = ancestors("definitely/not/here/c08");
    assert_eq!(
        way_up,
        vec![
            "definitely/not/here/c08",
            "definitely/not/here",
            "definitely/not",
            "definitely",
            ""
        ]
    );
    assert_eq!(nearest_existing(&way_up, &vec![false; 5]), None);
    assert_eq!(nothing_exists("a/b"), "nothing in a/b exists yet");
}

fn node(name: &str, dirs: Vec<DirNode>) -> DirNode {
    DirNode {
        name: name.to_string(),
        dirs,
    }
}

#[test]
fn a_bare_arc_root_is_used_as_given() {
    let tree = node("mod", vec![node("fighter", vec![node("mario", vec![])])]);
    let (root, detection) = detect_arc_root("/m/mod", Some(&tree)).unwrap();
    assert_eq!(root, "/m/mod");
    assert_eq!(detection, RootDetection::AsGiven);
}

#[test]
fn wrapper_directories_are_descended_and_reported() {
    let tree = node(
        "dir",
        vec![node(
            "MyMod",
            vec![node(
                "romfs",
                vec![node("fighter", vec![node("mario", vec![])])],
            )],
        )],
    );
    let (root, detection) = detect_arc_root("/m/dir", Some(&tree)).unwrap();
    assert_eq!(root, "/m/dir/MyMod/romfs");
    match detection {
        RootDetection::Descended { through } => assert_eq!(through, vec!["MyMod", "romfs"]),
        other => panic!("expected descent, got {other:?}"),
    }
}

#[test]
fn a_folder_with_no_game_files_is_refused() {
    let tree = node("dir", vec![node("readme", vec![node("images", vec![])])]);
    assert!(detect_arc_root("/m/dir", Some(&tree)).is_err());
    assert!(detect_arc_root("/m/file", None).is_err());
}

#[test]
fn slots_are_attributed_from_directories_and_from_eff_filenames() {
    let mut manifest = ModManifest::default();
    record_path(&mut manifest, "fighter/mario/model/body/c08/model.numdlb");
    record_path(&mut manifest, "fighter/mario/motion/body/c08/a.nuanmb");
    record_path(&mut manifest, "effect/fighter/mario/ef_mario_c08.eff");
    assert_eq!(manifest.fighters.len(), 1);
    assert_eq!(manifest.fighters[0].name, "mario");
    let mario = &manifest.fighters[0].provision;
    assert_eq!(mario.slots, vec![8]);
    assert!(mario.has_model && mario.has_motion && mario.has_effect);
    assert_eq!(mario.file_count, 3);
}

#[test]
fn three_digit_slots_are_not_truncated() {
    let mut manifest = ModManifest::default();
    record_path(&mut manifest, "fighter/mario/model/body/c112/model.numdlb");
    assert_eq!(manifest.fighters[0].provision.slots, vec![112]);
}

#[test]
fn plugins_and_stray_files_are_separated_from_game_paths() {
    let mut manifest = ModManifest::default();
    record_path(&mut manifest, "plugin.nro");
    record_path(&mut manifest, "README.txt");
    record_path(&mut manifest, "ui/message/msg_name.msbt");
    assert_eq!(manifest.plugins, vec!["plugin.nro"]);
    assert_eq!(manifest.unrecognized, 1);
    assert!(manifest.provides_ui);
    assert!(manifest.fighters.is_empty());
}

fn import(library: &mut ModLibrary, name: &str, file: &str) -> ProviderId {
    let root = format!("/mods/{name}");
    library
        .import_directory(
            ModSource::Folder(root.clone()),
            Some(name.to_string()),
            root,
            RootDetection::AsGiven,
            scan_manifest(&vec![file.to_string()]),
        )
        .unwrap()
}

#[test]
fn the_last_enabled_provider_wins_a_shared_path() {
    let mut library = ModLibrary::default();
    let path = "fighter/mario/model/body/c00/model.numdlb";
    let first = import(&mut library, "first", path);
    let second = import(&mut library, "second", path);
    let conflicts = library.conflicts();
    assert_eq!(conflicts.len(), 1);
    assert_eq!(conflicts[0].providers, vec![first, second]);
    assert_eq!(conflicts[0].winner(), Some(second));
    library.move_earlier(second);
    assert_eq!(library.conflicts()[0].winner(), Some(first));
    library.move_later(second);
    assert_eq!(library.conflicts()[0].winner(), Some(second));
}

#[test]
fn a_disabled_mod_neither_wins_nor_conflicts() {
    let mut library = ModLibrary::default();
    for name in ["a", "b"] {
        import(
            &mut library,
            name,
            "fighter/mario/model/body/c00/model.numdlb",
        );
    }
    let second = library.mods[1].id;
    library.mods[1].enabled = false;
    assert!(library.conflicts().is_empty());
    assert_eq!(library.enabled_roots().len(), 1);
    assert!(!library.providers_for_fighter("mario").contains(&second));
}

#[test]
fn removing_a_mod_does_not_recycle_its_id() {
    let mut library = ModLibrary::default();
    let mut ids = Vec::new();
    for name in ["mario", "link"] {
        let file = format!("fighter/{name}/model/body/c00/model.numdlb");
        ids.push(import(&mut library, name, &file));
    }
    let (first, second) = (ids[0], ids[1]);
    library.remove(first);
    let third = import(
        &mut library,
        "fox",
        "fighter/fox/model/body/c00/model.numdlb",
    );
    assert_ne!(third, first);
    assert_ne!(third, second);
}

#[test]
fn symlinks_are_not_followed_into_the_game_root() {
    assert_eq!(walk_step(true, true), WalkStep::Skip);
    assert_eq!(walk_step(false, true), WalkStep::Descend);
    assert_eq!(walk_step(false, false), WalkStep::Record);
    let manifest = scan_manifest(&vec![
        "fighter/link/model/body/c00/model.numdlb".to_string()
    ]);
    let names: Vec<&str> = manifest.fighters.iter().map(|f| f.name.as_str()).collect();
    assert_eq!(names, vec!["link"]);
}

#[test]
fn a_folder_that_is_the_root_of_a_mod_is_not_adopted() {
    let mut library = ModLibrary::default();
    let found = |root: &str| {
        Ok((
            root.to_string(),
            RootDetection::Descended { through: vec!["romfs".to_string()] },
            scan_manifest(&vec!["fighter/mario/a.bin".to_string()]),
        ))
    };
    let roots = || {
        vec![
            ("/old/pack".to_string(), found("/old/pack/romfs")),
            ("/old/pack/romfs/".to_string(), found("/old/pack/romfs")),
            ("/old/other".to_string(), found("/old/other")),
        ]
    };
    let notes = adopt_legacy_roots(&mut library, roots());
    assert_eq!(notes, vec!["Imported pack", "Imported other"]);
    assert_eq!(library.mods.len(), 2);
    assert!(!library.needs_adoption("/old/pack/romfs"));
    assert!(library.needs_adoption("/old"));
    assert!(adopt_legacy_roots(&mut library, roots()).is_empty());
    assert_eq!(library.mods.len(), 2);
}

#[test]
fn earlier_folders_are_adopted_once() {
    let mut library = ModLibrary::default();
    let good = || {
        Ok((
            "/old/mario".to_string(),
            RootDetection::AsGiven,
            scan_manifest(&vec!["fighter/mario/a.bin".to_string()]),
        ))
    };
    let notes = adopt_legacy_roots(
        &mut library,
        vec![
            ("/old/mario".to_string(), good()),
            ("/old/mario/".to_string(), good()),
            ("/old/gone".to_string(), Err("not a directory".to_string())),
        ],
    );
    assert_eq!(
        notes,
        vec!["Imported mario", "/old/gone: not a directory"]
    );
    assert_eq!(library.mods.len(), 1);
    let again = adopt_legacy_roots(&mut library, vec![("/old/mario".to_string(), good())]);
    assert!(again.is_empty());
    assert_eq!(library.mods.len(), 1);
    assert_eq!(library_path("/s"), "/s/mod_library.json");
    assert!(extraction_root("/s", "vision").ends_with("vision"));
}
