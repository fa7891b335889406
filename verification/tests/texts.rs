use visionary::keyed::{lookup, put, take_out};
use visionary::params::ParamKind;
use visionary::paths::{
    are_same_path, extension_of, file_name_of, join_path, parent_of, path_pieces, stem_of,
};
use visionary::project_hub::{CurrentProject, HubAction};
use visionary::roster::costume_gate::{
    declared_name, rename_declared_function, rename_function, sorted_slots,
};
use visionary::roster::library::{prepare, rollup_conflicts, ModLibrary, ModSource, ProviderId};
use visionary::roster::manifest::{
    descend_candidate, fighter_of_path, has_arc_marker, parse_slot, scan_manifest, DirNode,
    RootDetection,
};
use visionary::roster::scaffold::{classify_model_file, effect_file, ModelFile};
use visionary::roster::traits::{to_param_value, ParamValue};
use visionary::roster::ui_images::{encode_warning, read_warning, ui_image_kinds};
use visionary::text::{
    comes_before, dec_text, has_prefix, has_suffix, hex_text, insert_ascending, join_texts,
    split_text, to_ascii_lower, trim_text, two_digit_text,
};

#[test]
fn paths_are_read_as_the_file_system_reads_them() {
    assert_eq!(join_path("/a", "b"), "/a/b");
    assert_eq!(join_path("/a/", "b"), "/a/b");
    assert_eq!(join_path("/a", "/b"), "/b");
    assert_eq!(path_pieces("a//b/./c/"), vec!["a", "b", "c"]);
    assert_eq!(file_name_of("/a/b.txt"), Some("b.txt".to_string()));
    assert_eq!(file_name_of("/a/.."), None);
    assert_eq!(stem_of("b.tar.gz"), "b.tar");
    assert_eq!(stem_of(".hidden"), ".hidden");
    assert_eq!(extension_of("b.tar.gz"), Some("gz".to_string()));
    assert_eq!(extension_of(".hidden"), None);
    assert_eq!(parent_of("/a/b"), Some("/a".to_string()));
    assert_eq!(parent_of("a"), Some(String::new()));
    assert_eq!(parent_of("/"), None);
    assert!(are_same_path("/a//b/", "/a/b"));
    assert!(!are_same_path("./a", "a"));
    for path in ["/a//b/", "a/./b", "./a", "/", "a/b/.", "a/b//"] {
        let std_parent = std::path::Path::new(path)
            .parent()
            .map(|p| p.to_string_lossy().into_owned());
        assert_eq!(parent_of(path), std_parent, "{path}");
        let std_name = std::path::Path::new(path)
            .file_name()
            .map(|p| p.to_string_lossy().into_owned());
        assert_eq!(file_name_of(path), std_name, "{path}");
    }
}

#[test]
fn texts_are_cut_joined_and_ordered() {
    assert_eq!(split_text("a,,b", ','), vec!["a", "", "b"]);
    let parts = vec!["a".to_string(), "b".to_string()];
    assert_eq!(join_texts(&parts, " + "), "a + b");
    assert_eq!(dec_text(0), "0");
    assert_eq!(dec_text(18446744073709551615), "18446744073709551615");
    assert_eq!(two_digit_text(7), "07");
    assert_eq!(two_digit_text(123), "123");
    assert_eq!(hex_text(0x1f, 1), "1f");
    assert_eq!(hex_text(0x1f, 4), "001f");
    assert_eq!(trim_text("\t a b\u{3000}\n"), "a b");
    assert_eq!(to_ascii_lower("ÄBc"), "Äbc");
    assert!(comes_before("a", "ab") && comes_before("B", "a") && !comes_before("a", "a"));
    assert!(has_prefix("cbuf_9", "cbuf_") && has_suffix("a.eff", ".eff"));
    let mut list = Vec::new();
    for text in ["b", "a", "b"] {
        insert_ascending(&mut list, text);
    }
    assert_eq!(list, vec!["a", "b"]);
    let mut map: Vec<(String, u8)> = Vec::new();
    put(&mut map, "b", 1);
    put(&mut map, "a", 2);
    put(&mut map, "b", 3);
    assert_eq!(map, vec![("a".to_string(), 2), ("b".to_string(), 3)]);
    assert_eq!(lookup(&map, "b"), Some(&3));
    assert_eq!(take_out(&mut map, "a"), Some(2));
    assert_eq!(lookup(&map, "a"), None);
}

#[test]
fn declared_functions_are_renamed_once() {
    let source = "unsafe extern \"C\" fn game_attack_11(agent: &mut A) {\n    fn_call(1);\n}\n";
    assert_eq!(declared_name(source), Some("game_attack_11".to_string()));
    assert_eq!(declared_name("no declaration"), None);
    assert!(rename_declared_function(source, "x").contains("fn x(agent"));
    assert_eq!(rename_function(source, "other", "x"), source);
    assert_eq!(sorted_slots(&[9, 8, 9]), vec![8, 9]);
}

#[test]
fn a_mod_is_prepared_from_what_was_found() {
    let leaf = |name: &str| DirNode {
        name: name.to_string(),
        dirs: vec![],
    };
    let dir = DirNode {
        name: String::new(),
        dirs: vec![leaf("other"), leaf("ROMFS")],
    };
    assert!(!has_arc_marker(&dir));
    assert_eq!(descend_candidate(&dir), Some(1));
    assert_eq!(parse_slot("c08"), Some(8));
    assert_eq!(parse_slot("c"), None);
    assert_eq!(parse_slot("cx"), None);
    assert_eq!(fighter_of_path("Effect/Fighter/Mario/x"), Some("mario".to_string()));
    assert_eq!(fighter_of_path("ui/x"), None);
    let source = ModSource::Archive {
        archive: "/in/My.Mod.zip".to_string(),
        extracted: "/cache/my".to_string(),
    };
    assert_eq!(source.scan_base(), "/cache/my");
    assert_eq!(source.origin_path(), "/in/My.Mod.zip");
    let empty = prepare(
        source.clone(),
        None,
        "/cache/my".to_string(),
        RootDetection::AsGiven,
        scan_manifest(&vec![]),
    );
    assert_eq!(
        empty.err(),
        Some(
            "/in/My.Mod.zip contains no game files (used the chosen folder directly)".to_string()
        )
    );
    let files = vec!["fighter/mario/model/body/c08/model.numdlb".to_string()];
    let found = || scan_manifest(&files);
    let prepared = prepare(
        source,
        None,
        "/cache/my".to_string(),
        RootDetection::Descended { through: vec!["romfs".to_string()] },
        found(),
    )
    .unwrap();
    assert_eq!(prepared.name, "My.Mod");
    assert_eq!(prepared.detection.describe(), "descended through romfs");
    let mut library = ModLibrary::default();
    let first = library.insert(prepared);
    assert_eq!(library.name_of(first), "My.Mod");
    assert_eq!(library.name_of(ProviderId(77)), "mod 77");
    assert!(!library.get(first).unwrap().ships_plugin());
    assert!(!library.needs_adoption("/cache//my"));
    let note = library.adopt_legacy_root(
        "/mods/two",
        Ok(("/mods/two".to_string(), RootDetection::AsGiven, found())),
    );
    assert_eq!(note, Some("Imported two".to_string()));
    let by_fighter = library.conflicts_by_fighter();
    assert_eq!(by_fighter, rollup_conflicts(&library.conflicts()));
    assert_eq!(by_fighter[0].0, "mario");
    assert_eq!(by_fighter[0].1[0].winner(), Some(ProviderId(1)));
    library.retain_present(&vec![false, true]);
    assert_eq!(library.mods.len(), 1);
}

#[test]
fn white_space_is_that_of_unicode() {
    assert_eq!(trim_text("\u{3000}\u{a0} a\u{200b}b \t\u{2028}\u{85}"), "a\u{200b}b");
    assert_eq!(trim_text("\u{200b}"), "\u{200b}");
    assert_eq!(trim_text("\u{1680}\u{2000}\u{200a}\u{202f}\u{205f}\u{b}"), "");
    let listed = |c: char| {
        matches!(
            c,
            '\u{9}'..='\u{d}'
                | ' '
                | '\u{85}'
                | '\u{a0}'
                | '\u{1680}'
                | '\u{2000}'..='\u{200a}'
                | '\u{2028}'
                | '\u{2029}'
                | '\u{202f}'
                | '\u{205f}'
                | '\u{3000}'
        )
    };
    assert!((0..=0x10_ffffu32)
        .filter_map(char::from_u32)
        .all(|c| trim_text(&c.to_string()).is_empty() == listed(c)));
}

#[test]
fn importing_is_preparing_and_inserting() {
    let source = || ModSource::Folder("/mods/one".to_string());
    let found = || scan_manifest(&vec!["fighter/mario/a.bin".to_string()]);
    let mut imported = ModLibrary::default();
    let mut inserted = ModLibrary::default();
    let given = imported.import_directory(
        source(),
        None,
        "/mods/one".to_string(),
        RootDetection::AsGiven,
        found(),
    );
    let prepared = prepare(
        source(),
        None,
        "/mods/one".to_string(),
        RootDetection::AsGiven,
        found(),
    );
    assert_eq!(given, Ok(inserted.insert(prepared.unwrap())));
    assert_eq!(imported.mods.len(), 1);
    assert_eq!(imported.mods[0].name, inserted.mods[0].name);
    assert_eq!(imported.next_id, inserted.next_id);
    let refused = imported.import_directory(
        source(),
        None,
        "/mods/one".to_string(),
        RootDetection::AsGiven,
        scan_manifest(&vec![]),
    );
    assert!(refused.is_err());
    assert_eq!((imported.mods.len(), imported.next_id), (1, inserted.next_id));
}

#[test]
fn a_project_is_dirty_until_it_is_saved_or_loaded() {
    let mut project = CurrentProject::new();
    assert!(!project.has_path() && project.needs_save_as());
    project.mark_dirty();
    assert!(project.needs_warning());
    project.mark_clean();
    assert!(!project.is_dirty());
    project.mark_dirty();
    project.mark_loaded(Some("/p/modproject.json".to_string()), "p".to_string());
    assert!(project.has_path() && !project.is_dirty());
    assert!(!HubAction::BrowseWithoutProject.discards_edits());
}

#[test]
fn files_and_images_are_told_apart() {
    assert_eq!(effect_file("Mario", 8), "effect/fighter/mario/ef_mario_c08.eff");
    assert_eq!(classify_model_file("PUT_YOUR_MODEL_HERE.txt"), ModelFile::Guide);
    assert_eq!(classify_model_file("model.NUMDLB"), ModelFile::Mesh);
    assert_eq!(classify_model_file("a.b.nutexb"), ModelFile::Texture);
    assert_eq!(classify_model_file("notes"), ModelFile::Other);
    assert!(ui_image_kinds().contains(&"chara_1"));
    assert_eq!(
        read_warning("mario chara_1", "/p.png", "gone"),
        "mario chara_1: could not read /p.png: gone"
    );
    assert_eq!(
        encode_warning("mario chara_1", "bad"),
        "mario chara_1: encoding failed: bad"
    );
    assert!(matches!(to_param_value(&ParamKind::U16(7)), Some(ParamValue::U16(7))));
    assert!(to_param_value(&ParamKind::Str("x".to_string())).is_none());
}
