use std::collections::{BTreeSet, HashMap};

use visionary::roster::animations::bind_animations;
use visionary::roster::character_card::{
    animation_binding, character_card, file_rows, measure_progress, NextStep,
};
use visionary::roster::costume_gate::{costume_arm_source, costume_gated_source_multi};
use visionary::roster::library::{Located, ModLibrary};
use visionary::roster::manifest::{scan_manifest, ModManifest, RootDetection};
use visionary::roster::new_character::{
    authored_entry, create_and_import, donors, name_id_for, NewCharacterAction, NewCharacterView,
};
use visionary::roster::scaffold::{
    create_many, directories_for_slots, effect_files, inventory, measure, moveset_template,
    placement_guide, Readiness, SlotListing,
};
use visionary::roster::{EntryOrigin, RosterBacking, RosterEntry, RosterEntryId, RosterKey};

#[test]
fn a_display_name_becomes_a_safe_stable_id() {
    assert_eq!(name_id_for("Vision"), "vision");
    assert_eq!(name_id_for("Dark Samus"), "dark_samus");
    assert_eq!(name_id_for("R.O.B. 64!"), "r_o_b_64");
    assert_eq!(name_id_for("  spaced  out  "), "spaced_out");
    assert_eq!(name_id_for("???"), "new_character");
    assert_eq!(name_id_for("Vision"), name_id_for("Vision"));
    assert_eq!(name_id_for(&name_id_for("R.O.B. 64!")), "r_o_b_64");
}

#[test]
fn an_authored_entry_is_keyed_by_its_donor_and_slot() {
    let entry = authored_entry("Mario", 8, "Vision", "vision");
    assert_eq!(entry.key, RosterKey::slot("mario", 8));
    assert_eq!(entry.donor, "mario");
    assert_eq!(entry.name_id, "vision");
    assert!(!entry.moveset_scaffolded);
}

#[test]
fn quick_create_refuses_a_character_already_in_the_project() {
    let mut view = NewCharacterView::new();
    view.donor = Some("mario".into());
    view.slot = Some(8);
    view.display_name = "Vision".into();
    let authored = vec![authored_entry("mario", 8, "Vision", "vision")];
    assert!(matches!(
        view.build_quick_create_action(&authored, "/storage", "vision"),
        NewCharacterAction::Nothing
    ));
    assert_eq!(
        view.error.as_deref(),
        Some("Vision is already in the project as c08 of mario — pick a free slot.")
    );
    assert_eq!(
        view.build_quick_create_action(&vec![], "/storage", "vision"),
        NewCharacterAction::Create {
            donor: "mario".into(),
            slot: 8,
            display_name: "Vision".into(),
            name_id: "vision".into(),
            destination: "/storage/authored/vision".into(),
        }
    );
}

#[test]
fn quick_create_uses_authored_cache_without_picker() {
    let s = create_many("mario", &[12]).unwrap();
    assert_eq!(s.slot, 12);
    assert_eq!(s.donor, "mario");
    assert!(s
        .created
        .contains(&"fighter/mario/model/body/c12".to_string()));
}

fn roster_entry(fighter: Option<&str>, backing: RosterBacking, name: &str) -> RosterEntry {
    RosterEntry {
        id: RosterEntryId(0),
        key: RosterKey::fighter(name),
        name_id: Some(name.to_string()),
        backing,
        fighter: fighter.map(str::to_string),
        display_name: name.to_string(),
        css_order: None,
        providers: vec![],
        origin: EntryOrigin::Vanilla,
        hidden: false,
        on_roster: true,
    }
}

#[test]
fn a_taken_slot_says_by_whom() {
    let entries = vec![
        roster_entry(Some("mario"), RosterBacking::Fighter, "Mario"),
        roster_entry(None, RosterBacking::Fighter, "Random"),
        roster_entry(
            Some("mario"),
            RosterBacking::SlotClone {
                donor: "mario".into(),
                slot: 8,
            },
            "Vision",
        ),
    ];
    assert_eq!(donors(&entries), vec![0]);
    let mut view = NewCharacterView::new();
    assert_eq!(view.slot_conflict(&entries, &vec![]), None);
    view.pick_donor("mario");
    assert_eq!(view.shown_slot(), 8);
    assert_eq!(
        view.slot_conflict(&entries, &vec![]),
        Some("c08 used by Vision".to_string())
    );
    assert_eq!(
        view.hint(&entries, &vec![]),
        Some("Choose a donor and name.")
    );
    view.display_name = " Nova ".into();
    assert_eq!(
        view.hint(&entries, &vec![]),
        Some("Slot already used — pick a free one.")
    );
    view.slot = Some(9);
    assert_eq!(
        view.slot_conflict(&entries, &vec![9]),
        Some("c09 already exists for mario".to_string())
    );
    assert_eq!(view.hint(&entries, &vec![]), None);
    assert_eq!(view.build_create_action(None), NewCharacterAction::Nothing);
    match view.build_create_action(Some("/d".into())) {
        NewCharacterAction::Create {
            display_name,
            name_id,
            destination,
            ..
        } => {
            assert_eq!(display_name, "Nova");
            assert_eq!(name_id, "nova");
            assert_eq!(destination, "/d");
        }
        other => panic!("expected a creation, got {other:?}"),
    }
    let scaffold = create_many("mario", &[9]).unwrap();
    view.note_created("Nova", &scaffold);
    assert!(view.status.starts_with("Created Nova as costume c09 of mario: 4 folder(s)"));
    assert!(view.donor.is_none() && view.slot.is_none() && view.display_name.is_empty());
    view.note_error("no".into());
    assert_eq!(view.error.as_deref(), Some("no"));
    view.goto_css = Some(RosterKey::slot("mario", 9));
    assert!(view.take_goto_character_select().is_some());
    assert!(view.take_goto_character_select().is_none());
}

#[test]
fn the_scaffold_creates_the_slots_own_directories_and_leaves_a_guide() {
    let scaffold = create_many("Mario", &[8]).unwrap();
    assert_eq!(scaffold.donor, "mario");
    assert_eq!(
        scaffold.created,
        vec![
            "fighter/mario/model/body/c08",
            "fighter/mario/motion/body/c08",
            "effect/fighter/mario",
            "fighter/mario/model/body/c08/PUT_YOUR_MODEL_HERE.txt",
        ]
    );
    let text = placement_guide("Mario", 8);
    assert!(text.contains("motion/body/c08"));
    assert!(text.contains("ef_mario_c08.eff"));
    assert!(text.starts_with("This is costume slot c08 of mario, created by Visionary.\n\nPut"));
    assert!(text.ends_with("\n\nDelete this file once your model is in place.\n"));
}

#[test]
fn slots_are_made_distinct_and_share_the_effect_directory() {
    let scaffold = create_many("mario", &[9, 8, 9]).unwrap();
    assert_eq!(scaffold.slots, vec![8, 9]);
    assert_eq!(scaffold.slot, 8);
    assert_eq!(scaffold.created.len(), 7);
    assert_eq!(directories_for_slots("mario", &[8, 9]).len(), 5);
    assert_eq!(
        effect_files("Mario", &[8, 112]),
        vec![
            "effect/fighter/mario/ef_mario_c08.eff",
            "effect/fighter/mario/ef_mario_c112.eff"
        ]
    );
    assert_eq!(
        create_many("  ", &[8]).err().as_deref(),
        Some("a new character needs a donor fighter to be a costume of")
    );
    assert_eq!(
        create_many("mario", &[]).err().as_deref(),
        Some("a new character needs at least one costume slot")
    );
}

fn listing(root: &str, model: &[&str], motion: &[&str]) -> SlotListing {
    SlotListing {
        root: root.to_string(),
        model_files: Some(model.iter().map(|s| s.to_string()).collect()),
        motion_files: Some(motion.iter().map(|s| s.to_string()).collect()),
        has_effect: false,
    }
}

#[test]
fn readiness_reports_an_empty_slot_as_empty() {
    let readiness = measure(
        &vec![listing("/m", &["PUT_YOUR_MODEL_HERE.txt"], &[])],
        false,
    );
    assert_eq!(readiness.model_files, 0, "the guide file was counted as content");
    assert_eq!(readiness.motion_files, 0);
    assert!(!readiness.is_ready());
    assert!(readiness
        .outstanding()
        .iter()
        .any(|note| note.contains("no model")));
}

#[test]
fn animations_without_a_motion_list_are_called_out() {
    let readiness = measure(
        &vec![listing(
            "/m",
            &["PUT_YOUR_MODEL_HERE.txt"],
            &["attack.nuanmb"],
        )],
        false,
    );
    assert_eq!(readiness.motion_files, 1);
    assert!(!readiness.has_motion_list);
    assert!(readiness
        .outstanding()
        .iter()
        .any(|note| note.contains("motion_list.bin")));
}

#[test]
fn inventory_counts_meshes_textures_and_anims_separately() {
    let roots = vec![listing(
        "/m",
        &["model.numdlb", "face.nutexb", "PUT_YOUR_MODEL_HERE.txt"],
        &["attack.nuanmb", "motion_list.bin"],
    )];
    let inv = inventory(&roots, "mario", 8, false);
    assert_eq!(inv.meshes, 1);
    assert_eq!(inv.textures, 1);
    assert_eq!(inv.other_model, 0);
    assert_eq!(inv.anims, 1);
    assert!(inv.has_motion_list);
    assert!(!inv.has_effect);
    assert!(!inv.has_portrait);
    assert_eq!(
        inv.model_dir.as_deref(),
        Some("/m/fighter/mario/model/body/c08")
    );
    assert_eq!(
        inv.motion_dir.as_deref(),
        Some("/m/fighter/mario/motion/body/c08")
    );
}

#[test]
fn inventory_reveal_targets_prefer_mod_roots() {
    let roots = vec![listing("/base", &[], &[]), listing("/mod", &[], &[])];
    let inv = inventory(&roots, "mario", 0, false);
    assert_eq!(
        inv.model_dir.as_deref(),
        Some("/mod/fighter/mario/model/body/c00")
    );
}

#[test]
fn a_file_under_two_roots_is_counted_once() {
    let roots = vec![
        listing("/a", &["model.numdlb"], &["wait.nuanmb"]),
        listing("/b", &["model.numdlb"], &["wait.nuanmb", "walk.nuanmb"]),
    ];
    let inv = inventory(&roots, "mario", 0, false);
    assert_eq!((inv.meshes, inv.textures, inv.other_model), (1, 0, 0));
    assert_eq!(inv.anims, 2);
    assert_eq!(
        inv.model_dir.as_deref(),
        Some("/b/fighter/mario/model/body/c00")
    );
    assert!(!inv.has_portrait);
}

#[test]
fn unregistered_moves_are_reported_as_not_installed() {
    let readiness = Readiness {
        authored_moves: 5,
        registered_moves: 3,
        ..Default::default()
    };
    assert!(readiness
        .outstanding()
        .iter()
        .any(|note| note.contains("2 of 5 authored move(s) are not registered")));
}

const AUTHORED: &str = "unsafe extern \"C\" fn game_attack11(agent: &mut L2CAgentBase) {\n    frame(agent.lua_state_agent, 4.0);\n}\n";
const ORIGINAL: &str = "unsafe extern \"C\" fn game_attack_11(agent: &mut L2CAgentBase) {\n    frame(agent.lua_state_agent, 2.0);\n}\n";

#[test]
fn a_costume_gate_keeps_the_registered_name_and_renames_both_arms() {
    let generated = costume_gated_source_multi("game_attack11", &[8], AUTHORED, ORIGINAL);
    assert!(generated.contains("fn game_attack11_costume(agent"));
    assert!(generated.contains("fn game_attack11_original(agent"));
    assert!(generated.contains("unsafe extern \"C\" fn game_attack11(agent"));
    assert!(generated.contains("if color == 8 {"));
    assert!(generated.contains("game_attack11_costume(agent);"));
    assert!(generated.contains("game_attack11_original(agent);"));
    assert!(!generated.contains("fn game_attack_11("));
}

#[test]
fn a_costume_gated_function_set_parses_as_rust() {
    let generated = costume_gated_source_multi("game_attack11", &[8], AUTHORED, ORIGINAL);
    let source = format!("mod generated {{ use smash::lib::lua_const::*; {generated} }}");
    if let Err(error) = syn::parse_file(&source) {
        panic!("costume-gated source does not parse: {error}\n\n{generated}");
    }
}

#[test]
fn a_new_slot_is_the_only_one_of_its_mod() {
    let manifest = scan_manifest(&vec![
        "fighter/mario/model/body/c112/PUT_YOUR_MODEL_HERE.txt".to_string(),
    ]);
    assert_eq!(manifest.fighters.len(), 1);
    assert_eq!(manifest.fighters[0].provision.slots, vec![112]);
}

#[test]
fn exactly_one_function_carries_the_registered_name() {
    let generated = costume_gated_source_multi("game_attack11", &[8], AUTHORED, ORIGINAL);
    assert_eq!(generated.matches("fn game_attack11(").count(), 1);
}

#[test]
fn a_gate_covers_every_slot_of_the_character_once() {
    let generated = costume_gated_source_multi("f", &[9, 8, 9], AUTHORED, ORIGINAL);
    assert!(generated.contains("    if color == 8 || color == 9 {\n        f_costume(agent);\n    } else {\n        f_original(agent);\n    }\n}\n"));
    assert!(generated.contains("WorkModule::get_int(\n        agent.module_accessor,\n        *smash::lib::lua_const::FIGHTER_INSTANCE_WORK_ID_INT_COLOR,\n    );\n"));
    assert!(costume_arm_source(AUTHORED).contains("fn game_attack11_costume(agent"));
    assert_eq!(costume_arm_source("no function here"), "no function here");
}

#[test]
fn animation_binding_separates_fallbacks_from_files_nothing_names() {
    let hash = |name: &str| hash40::hash40(name).0;
    let labels: HashMap<u64, String> = ["attack_11", "attack_12"]
        .iter()
        .map(|name| (hash(name), (*name).to_string()))
        .collect();
    let binding = bind_animations(
        &vec![hash("attack_11"), hash("attack_12")],
        &vec![
            "attack_11.nuanmb".to_string(),
            "typo_attack13.nuanmb".to_string(),
        ],
        &labels,
    );
    assert_eq!(binding.resolved, vec!["attack_11"]);
    assert_eq!(binding.falls_back_to_donor, vec!["attack_12"]);
    assert_eq!(binding.unreferenced_files, vec!["typo_attack13"]);
    assert_eq!(
        binding.summary(),
        "1 animation(s) come from this costume, 1 fall back to the base costume"
    );
    let unlabelled = bind_animations(&vec![hash("attack_12")], &vec![], &HashMap::new());
    assert_eq!(
        unlabelled.falls_back_to_donor,
        vec![format!("{:#018x}", hash("attack_12"))]
    );
}

#[test]
fn the_starting_moveset_covers_recovery_and_has_no_duplicates() {
    let template = moveset_template();
    assert!(template.contains(&"special_hi"));
    let unique: BTreeSet<&&str> = template.iter().collect();
    assert_eq!(unique.len(), template.len(), "duplicate script name");
}

#[test]
fn the_starting_move_checklist_shrinks_as_moves_are_replaced() {
    let readiness = Readiness::default();
    assert_eq!(
        readiness.remaining_starting_moves(&vec![]).len(),
        moveset_template().len()
    );
    let some = vec!["attack_11".to_string(), "special_hi".to_string()];
    let remaining = readiness.remaining_starting_moves(&some);
    assert_eq!(remaining.len(), moveset_template().len() - 2);
    assert!(!remaining.contains(&"special_hi"));
}

#[test]
fn a_card_says_what_is_next() {
    let authored = authored_entry("mario", 8, "Vision", "vision");
    let roots = vec![listing("/m", &["a.numdlb"], &["b.nuanmb", "motion_list.bin"])];
    let mut readiness = measure(&roots, true);
    readiness.authored_moves = 1;
    readiness.registered_moves = 1;
    let inv = inventory(&roots, "mario", 8, false);
    let replaced = vec!["attack_11".to_string()];
    let progress = measure_progress(&readiness, &inv, &replaced, false);
    assert!(progress.files_done && progress.ready && !progress.look_done);
    assert_eq!(progress.moves_count, 1);
    assert_eq!(progress.next_step(), NextStep::Look);
    assert_eq!(
        progress.stage_labels(),
        vec!["✓ Files", "○ Moves 1/24", "○ Look", "✓ Ship"]
    );
    let card = character_card(
        &authored, &readiness, &inv, &replaced, false, true, None, true,
    );
    assert_eq!(card.title, "◈  Vision");
    assert_eq!(card.subtitle, "c08 of mario · vision");
    assert_eq!(card.badge, "Ready");
    assert_eq!(card.scope, "Edits affect c08 only.");
    assert_eq!(card.moves_line, "1/24 starting moves replaced");
    assert_eq!(card.counts_line, "1 model file(s)  ·  2 animation(s)");
    assert!(card.donor_moves.unwrap().starts_with("Still donor's: attack_12, "));
    assert!(!card.missing_donor);
    let rows = file_rows(&authored, &inv, &None);
    assert_eq!(rows[0].detail, "1 mesh, 0 texture(s)");
    assert_eq!(
        rows[0].target.as_deref(),
        Some("/m/fighter/mario/model/body/c08")
    );
    assert_eq!(rows[1].detail, "1 animation(s)");
    assert!(!rows[2].done && rows[2].target.is_none());
    assert_eq!(
        animation_binding(&vec!["/m".to_string()], &authored, &vec![true], &vec![true]),
        Some((
            "/m/fighter/mario/motion/body/motion_list.bin".to_string(),
            "/m/fighter/mario/motion/body/c08".to_string()
        ))
    );
}

/// What is found in the folder of a new character: the files that were made.
fn found(root: &str, donor: &str, slot: u8) -> Located {
    let files: Vec<String> = create_many(donor, &[slot])
        .unwrap()
        .created
        .into_iter()
        .filter(|path| path.ends_with(".txt"))
        .collect();
    Ok((root.to_string(), RootDetection::AsGiven, scan_manifest(&files)))
}

fn slots_of<'a>(manifest: &'a ModManifest, fighter: &str) -> &'a Vec<u8> {
    let entry = manifest
        .fighters
        .iter()
        .find(|entry| entry.name == fighter)
        .unwrap();
    &entry.provision.slots
}

#[test]
fn creating_a_character_also_makes_it_visible_to_the_editor() {
    let mut library = ModLibrary::default();
    let located = found("/mods/vision", "mario", 8);
    let scaffolded =
        create_and_import(&mut library, "/mods", "vision", "mario", 8, "Vision", located).unwrap();

    assert_eq!(scaffolded.slot, 8);
    assert_eq!(library.mods.len(), 1);
    let imported = &library.mods[0];
    assert_eq!(imported.name, "Vision");
    assert_eq!(imported.source.scan_base(), "/mods/vision");
    assert!(imported.enabled);
    assert!(
        slots_of(&imported.manifest, "mario").contains(&8),
        "the new slot was not visible in the imported mod's manifest"
    );
}

#[test]
fn on_the_fly_creation_is_properly_scoped_per_slot() {
    let mut library = ModLibrary::default();
    let a = create_and_import(
        &mut library,
        "/d/a",
        "vision",
        "mario",
        8,
        "Vision",
        found("/d/a/vision", "mario", 8),
    )
    .unwrap();
    let b = create_and_import(
        &mut library,
        "/d/b",
        "vision2",
        "mario",
        9,
        "Vision2",
        found("/d/b/vision2", "mario", 9),
    )
    .unwrap();
    assert_eq!(a.slot, 8);
    assert_eq!(b.slot, 9);
    assert_ne!(
        RosterKey::slot("mario", 8),
        RosterKey::slot("mario", 9),
        "slot keys must not collide"
    );
    assert_eq!(library.mods.len(), 2);
    assert!(slots_of(&library.mods[0].manifest, "mario").contains(&8));
    assert!(!slots_of(&library.mods[0].manifest, "mario").contains(&9));
    assert!(slots_of(&library.mods[1].manifest, "mario").contains(&9));
    let k8 = RosterKey::slot("mario", 8);
    let k9 = RosterKey::slot("mario", 9);
    assert_ne!(k8, k9);
}

#[test]
fn a_character_that_cannot_be_made_or_found_is_not_imported() {
    let mut library = ModLibrary::default();
    let blank = create_and_import(
        &mut library,
        "/d",
        "v",
        " ",
        8,
        "V",
        Err("never looked".to_string()),
    );
    assert_eq!(
        blank.err().as_deref(),
        Some("a new character needs a donor fighter to be a costume of")
    );
    let lost = create_and_import(
        &mut library,
        "/d",
        "v",
        "mario",
        8,
        "V",
        Err("/d/v is not a directory".to_string()),
    );
    assert_eq!(lost.err().as_deref(), Some("/d/v is not a directory"));
    let empty = create_and_import(
        &mut library,
        "/d",
        "v",
        "mario",
        8,
        "V",
        Ok(("/d/v".to_string(), RootDetection::AsGiven, scan_manifest(&vec![]))),
    );
    assert_eq!(
        empty.err().as_deref(),
        Some("/d/v contains no game files (used the chosen folder directly)")
    );
    assert!(library.is_empty());
}

#[test]
fn the_scaffold_copies_nothing_from_the_donor() {
    let created = create_many("mario", &[8]).unwrap().created;
    let files: Vec<&str> = created
        .iter()
        .filter_map(|path| path.strip_prefix("fighter/mario/model/body/c08/"))
        .collect();
    assert_eq!(files, vec!["PUT_YOUR_MODEL_HERE.txt"]);
}

#[test]
fn both_scripts_are_renamed_whatever_they_declare() {
    let authored = "unsafe extern \"C\" fn other(agent: &mut L2CAgentBase) {}\n";
    let original = "unsafe extern \"C\" fn game_attack_11(agent: &mut L2CAgentBase) {}\n";
    let gated = costume_gated_source_multi("game_attack11", &[8], authored, original);
    assert!(gated.contains("fn game_attack11_costume(agent: &mut L2CAgentBase)"));
    assert!(gated.contains("fn game_attack11_original(agent: &mut L2CAgentBase)"));
    assert!(!gated.contains("fn other("));
    assert_eq!(gated.matches("fn game_attack11(").count(), 1);
}
