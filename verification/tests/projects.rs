use visionary::float_bits::{are_equal, nearest_bits, whole_number};
use visionary::plugin_deploy::{
    built_nro_path, check_and_deploy, deployed_path, eden_mod_dir, find_workspace_root,
    is_source_newer_than, DeployPlan,
};
use visionary::project_hub::{
    load_last_project, load_recent_projects, merge_romfs_overlay, needs_hub_warning, push_recent,
    save_recent_projects, scaffold_workspace, workspace_map, workspace_romfs, CurrentProject,
    HubAction, HubChoice, HubState, WorkspaceSupport, MAX_RECENT_PROJECTS, WORKSPACE_README,
};
use visionary::roster::gamma::{apply_gamma, gamma_corrected};
use visionary::roster::ui_images::{
    decode_png_rgba, encode_ui_png, export_ui_images, find_override, image_key, prepare_image, split_image_key,
    ui_image_path, EntryImages, ImageStep, UiImageError, UiImageOverride,
};
use visionary::roster::RosterKey;
use visionary::scratch_dirs::{
    app_storage_root, emulator_sd_root, explicit_sd_root, is_transplant_preview_name,
    sd_root_candidates, scratch_error, transplant_previews,
};

#[test]
fn cold_start_with_no_config_offers_new_open_import_and_browse() {
    let hub = HubState::cold_start(
        load_last_project(None),
        false,
        &load_recent_projects(None),
        &vec![],
    );
    assert!(hub.show, "the hub must appear on launch");
    assert!(hub.last.is_none());
    assert!(hub.recent.is_empty());
    let titles: Vec<&str> = hub.choices().iter().map(|c| c.title()).collect();
    assert_eq!(
        titles,
        vec!["New", "Open", "Import mod", "Browse without project"]
    );
}

#[test]
fn resume_leads_and_recent_skips_the_duplicate() {
    let a = "/c/a/modproject.json".to_string();
    let b = "/c/b/modproject.json".to_string();
    let body = save_recent_projects(&vec![a.clone(), b.clone()]);
    let hub = HubState::cold_start(
        load_last_project(Some(&a)),
        true,
        &load_recent_projects(Some(&body)),
        &vec![true, true],
    );
    assert_eq!(hub.last.as_deref(), Some(a.as_str()));
    let choices = hub.choices();
    assert!(matches!(&choices[0], HubChoice::ResumeLast(p) if p == &a));
    let recents: Vec<&String> = choices
        .iter()
        .filter_map(|c| match c {
            HubChoice::Recent(p) => Some(p),
            _ => None,
        })
        .collect();
    assert_eq!(recents, vec![&b], "Resume must not duplicate its path");
}

#[test]
fn missing_files_are_dropped_from_resume_and_recents() {
    let gone = "/c/gone/modproject.json".to_string();
    let hub = HubState::cold_start(Some(gone.clone()), false, &vec![gone], &vec![false]);
    assert!(hub.last.is_none(), "a missing Resume target must not linger");
    assert!(hub.recent.is_empty());
}

#[test]
fn save_clears_dirty_and_save_as_is_needed_only_without_a_path() {
    let mut current = CurrentProject::new();
    assert!(current.needs_save_as());
    assert!(!current.is_dirty());
    current.mark_dirty();
    assert!(current.needs_warning());
    let path = "/c/modproject.json".to_string();
    current.mark_saved(path.clone());
    assert!(!current.is_dirty());
    assert!(!current.needs_save_as());
    assert_eq!(current.path.as_deref(), Some(path.as_str()));
}

#[test]
fn hub_switch_warns_only_when_edits_would_be_discarded() {
    let dirty = true;
    assert!(needs_hub_warning(
        dirty,
        &HubAction::Open("/tmp/x.json".into())
    ));
    assert!(needs_hub_warning(dirty, &HubAction::New("/tmp/new".into())));
    assert!(needs_hub_warning(
        dirty,
        &HubAction::ImportMod("/tmp/mod".into())
    ));
    assert!(needs_hub_warning(
        dirty,
        &HubAction::ResumeLast("/tmp/x.json".into())
    ));
    assert!(!needs_hub_warning(dirty, &HubAction::BrowseWithoutProject));
    assert!(!needs_hub_warning(
        false,
        &HubAction::New("/tmp/new".into())
    ));
    assert_eq!(
        HubAction::New("/tmp/new".into()).label(),
        "New project at /tmp/new"
    );
}

#[test]
fn push_recent_dedupes_caps_and_adopts_last() {
    let paths: Vec<String> = (0..12)
        .map(|i| format!("/c/p{i}/modproject.json"))
        .collect();
    let mut recent: Vec<String> = Vec::new();
    for p in &paths {
        recent = push_recent(&recent, p);
    }
    assert_eq!(recent.len(), MAX_RECENT_PROJECTS);
    assert_eq!(recent[0], paths[11]);
    let recent = push_recent(&recent, &paths[0]);
    assert_eq!(recent[0], paths[0]);
    assert_eq!(
        recent.iter().filter(|p| *p == &paths[0]).count(),
        1,
        "reopening must not duplicate the entry"
    );
    let again = push_recent(&recent, "/c/p11//modproject.json");
    assert_eq!(again.len(), MAX_RECENT_PROJECTS);
}

#[test]
fn save_round_trip_persists_path_and_recent() {
    let path = "/c/my_mod/modproject.json".to_string();
    let mut current = CurrentProject::with_path(path.clone(), "my_mod".into());
    current.mark_dirty();
    current.mark_saved(path.clone());
    let recent = push_recent(&vec![], &path);
    assert!(!current.is_dirty());
    let body = save_recent_projects(&recent);
    let hub = HubState::cold_start(
        load_last_project(Some(&path)),
        true,
        &load_recent_projects(Some(&body)),
        &vec![true],
    );
    assert_eq!(hub.last.as_deref(), Some(path.as_str()));
    assert!(hub.recent.contains(&path));
    assert_eq!(
        load_recent_projects(Some("  a \r\n\r\n\tb\n")),
        vec!["a", "b"]
    );
    assert_eq!(load_last_project(Some("  \n")), None);
}

#[test]
fn new_scaffolds_a_workspace_where_every_edit_has_a_home() {
    let plan = scaffold_workspace("/w/my_mod", false, false);
    assert_eq!(plan.file, "/w/my_mod/modproject.json");
    assert!(plan.write_project, "New must create modproject.json upfront");
    assert_eq!(
        plan.directories,
        vec![
            "/w/my_mod",
            "/w/my_mod/assets",
            "/w/my_mod/reference",
            "/w/my_mod/romfs"
        ]
    );
    assert_eq!(plan.readme.as_deref(), Some("/w/my_mod/README.txt"));
    let again = scaffold_workspace("/w/my_mod", true, true);
    assert_eq!(again.file, plan.file);
    assert!(!again.write_project && again.readme.is_none());
    assert_eq!(workspace_romfs("/w"), "/w/romfs");
    assert!(WORKSPACE_README.starts_with("# Visionary project workspace\n\n"));
}

#[test]
fn workspace_map_names_manual_drop_zones_for_unsupported_edits() {
    let map = workspace_map();
    let kinds: Vec<&str> = map.iter().map(|e| e.kind).collect();
    for needed in [
        "Models",
        "Animations",
        "Sound / streams",
        "Binary effects / messages",
    ] {
        assert!(
            kinds.contains(&needed),
            "workspace map must show where {needed} go: {kinds:?}"
        );
    }
    let models = map.iter().find(|e| e.kind == "Models").unwrap();
    assert_eq!(models.support, WorkspaceSupport::Manual);
    assert!(models.workspace_path.contains("romfs/fighter"));
    assert!(models.notes.contains("ships verbatim"));
    let anims = map.iter().find(|e| e.kind == "Animations").unwrap();
    assert_eq!(anims.support, WorkspaceSupport::Manual);
    assert!(anims.workspace_path.contains("motion"));
    assert!(map
        .iter()
        .any(|e| e.support == WorkspaceSupport::Supported
            && e.workspace_path == "modproject.json"));
}

#[test]
fn romfs_overlay_merges_manual_files_and_reports_generated_conflicts() {
    let files = vec![
        (
            "fighter/mario/model/body/c00/model.numdlb".to_string(),
            false,
        ),
        (
            "fighter/mario/motion/body/c00/attack.nuanmb".to_string(),
            false,
        ),
        (
            "fighter/common/param/fighter_param.prc".to_string(),
            true,
        ),
    ];
    let (copied, skipped) = merge_romfs_overlay(&files);
    assert_eq!(copied.len(), 2, "model + animation ship verbatim");
    assert_eq!(skipped, vec!["fighter/common/param/fighter_param.prc"]);
}

#[test]
fn ui_paths_are_two_digit_slots() {
    assert!(ui_image_path("chara_1", "mario", 8).ends_with("chara_1_mario_08.bntx"));
    assert!(ui_image_path("stock_90", "link", 3).ends_with("stock_90_link_03.bntx"));
}

fn split(key: &str) -> (String, Option<u8>) {
    split_image_key(key)
}

#[test]
fn image_keys_round_trip_with_and_without_slots() {
    assert_eq!(image_key("chara_1", None), "chara_1");
    assert_eq!(image_key("chara_1", Some(2)), "chara_1#c02");
    assert_eq!(split("chara_1"), ("chara_1".to_string(), None));
    assert_eq!(split("chara_1#c02"), ("chara_1".to_string(), Some(2)));
    assert_eq!(split("chara_1#oops"), ("chara_1#oops".to_string(), None));
    assert_eq!(split("chara_1#c"), ("chara_1#c".to_string(), None));
    assert_eq!(split("#c02"), ("#c02".to_string(), None));
    assert_eq!(split("a#b#c112"), ("a#b".to_string(), Some(112)));
    assert_eq!(split("a#c256"), ("a#c256".to_string(), None));
    assert_eq!(split("a#c+2"), ("a#c+2".to_string(), None));
}

#[test]
fn override_lookup_prefers_the_slots_own_entry() {
    let image = |path: &str| UiImageOverride {
        png_path: path.into(),
        ..Default::default()
    };
    let map = vec![
        ("chara_1".to_string(), image("base.png")),
        ("chara_1#c02".to_string(), image("c02.png")),
    ];
    assert_eq!(
        find_override(&map, "chara_1", 2, 0).unwrap().png_path,
        "c02.png"
    );
    assert_eq!(
        find_override(&map, "chara_1", 0, 0).unwrap().png_path,
        "base.png"
    );
    assert!(find_override(&map, "chara_1", 5, 0).is_none());
    assert!(find_override(&map, "chara_2", 0, 0).is_none());
}

fn png(image: image::RgbaImage) -> Vec<u8> {
    let mut out = std::io::Cursor::new(Vec::new());
    image::DynamicImage::ImageRgba8(image)
        .write_to(&mut out, image::ImageFormat::Png)
        .unwrap();
    out.into_inner()
}

fn darker() -> Vec<u8> {
    (0..=255u32)
        .map(|v| ((v as f32 / 255.0).powf(2.2) * 255.0).round() as u8)
        .collect()
}

fn brighter() -> Vec<u8> {
    (0..=255u32)
        .map(|v| ((v as f32 / 255.0).powf(1.0 / 2.2) * 255.0).round() as u8)
        .collect()
}

#[test]
fn a_picked_image_keeps_its_size_and_pixels() {
    let mut img = image::RgbaImage::new(32, 16);
    for (x, y, px) in img.enumerate_pixels_mut() {
        *px = image::Rgba([(x * 8) as u8, (y * 8) as u8, 0x80, 0xFF]);
    }
    let pixels = img.as_raw().clone();
    let prepared = encode_ui_png(&png(img), None).unwrap();
    assert_eq!(prepared.width, 32);
    assert_eq!(prepared.height, 16);
    assert_eq!(prepared.pixels, pixels);
    assert_eq!(
        encode_ui_png(b"not a png", None),
        Err(UiImageError::NotAPng)
    );
    assert_eq!(
        prepare_image(0, 4, vec![], None),
        Err(UiImageError::Empty)
    );
    assert_eq!(UiImageError::Empty.message(), "the PNG is empty");
}

#[test]
fn a_preview_has_the_pixels_of_the_png() {
    let img = image::RgbaImage::from_pixel(3, 2, image::Rgba([9, 8, 7, 0]));
    let pixels = img.as_raw().clone();
    let decoded = decode_png_rgba(&png(img)).unwrap();
    assert_eq!((decoded.width, decoded.height), (3, 2));
    assert_eq!(decoded.pixels, pixels);
    assert_eq!(decode_png_rgba(b"not a png"), Err(UiImageError::NotAPng));
}

#[test]
fn gamma_flag_changes_bytes() {
    let img = image::RgbaImage::from_pixel(16, 16, image::Rgba([64, 64, 64, 255]));
    let bytes = png(img);
    let without = encode_ui_png(&bytes, None).unwrap();
    let with = encode_ui_png(&bytes, Some(&darker())).unwrap();
    assert_ne!(without.pixels, with.pixels);
}

#[test]
fn gamma_is_invertible() {
    let original: Vec<u8> = [64u8, 128, 192, 255].repeat(4);
    let mut pixels = original.clone();
    apply_gamma(&mut pixels, &brighter());
    apply_gamma(&mut pixels, &darker());
    for (a, b) in pixels.iter().zip(original.iter()) {
        assert!((*a as i16 - *b as i16).abs() <= 1);
    }
    assert_eq!(pixels[3], 255);
}

#[test]
fn gamma_brightens_dark_midtones() {
    let pixels = vec![64u8, 64, 64, 255];
    assert!(gamma_corrected(&pixels, &brighter())[0] > 64);
    assert!(gamma_corrected(&pixels, &darker())[0] < 64);
}

#[test]
fn alpha_is_preserved() {
    let mut pixels = vec![100u8, 100, 100, 42];
    apply_gamma(&mut pixels, &brighter());
    assert_eq!(pixels[3], 42);
}

#[test]
fn an_image_without_an_entry_is_warned_of() {
    let steps = export_ui_images(&vec![EntryImages {
        key: RosterKey::slot("mario", 8),
        entry: None,
        images: vec![("chara_1".to_string(), UiImageOverride::default())],
    }]);
    assert_eq!(
        steps,
        vec![ImageStep::Warn(
            "mario#c08: no roster entry exists for this image override, so its portrait(s) were not written — still saved in the project.".to_string()
        )]
    );
}

#[test]
fn ryujinx_and_yuzu_layouts_are_probed_too() {
    let candidates = sd_root_candidates(Some("/data"), Some("/config"));
    assert_eq!(
        candidates,
        vec![
            "/data/eden/sdmc",
            "/data/yuzu/sdmc",
            "/config/Ryujinx/sdcard",
            "/data/Ryujinx/sdcard"
        ]
    );
    assert!(sd_root_candidates(None, None).is_empty());
}

#[test]
fn a_directory_without_ultimate_is_not_an_sd_root() {
    let candidates = vec!["/a".to_string(), "/b".to_string()];
    assert_eq!(
        emulator_sd_root(None, false, &candidates, &vec![false, false]),
        None
    );
    assert_eq!(
        emulator_sd_root(None, false, &candidates, &vec![false, true]),
        Some("/b".to_string())
    );
    assert_eq!(
        emulator_sd_root(Some("/x".to_string()), false, &candidates, &vec![true, true]),
        None
    );
    assert_eq!(explicit_sd_root(Some(""), Some("/u")), Some("/u".to_string()));
    assert_eq!(explicit_sd_root(Some("/e"), Some("/u")), Some("/e".to_string()));
}

#[test]
fn storage_follows_the_environment_then_the_cache() {
    assert_eq!(app_storage_root(Some("/e"), Some("/c"), "/t"), "/e");
    assert_eq!(app_storage_root(Some(""), Some("/c"), "/t"), "/c/visionary");
    assert_eq!(app_storage_root(None, None, "/t"), "/t/visionary");
    assert_eq!(
        scratch_error("/s", "full"),
        "failed to create scratch directory in /s: full (set VISIONARY_CACHE_DIR to another disk)"
    );
    for path in transplant_previews("/dir") {
        assert!(is_transplant_preview_name(&path));
    }
    assert!(!is_transplant_preview_name("ef_mario.eff"));
}

#[test]
fn a_stale_plugin_is_built_and_deployed() {
    assert_eq!(check_and_deploy(true, true, false, true), DeployPlan::Skip);
    assert_eq!(check_and_deploy(true, false, false, false), DeployPlan::Deploy);
    assert_eq!(
        check_and_deploy(true, true, true, true),
        DeployPlan::BuildAndDeploy
    );
    assert_eq!(
        check_and_deploy(false, true, false, false),
        DeployPlan::BuildAndDeploy
    );
    let files = vec![
        ("/p/src/lib.rs".to_string(), 10u128),
        ("/p/notes.txt".to_string(), 99u128),
    ];
    assert!(is_source_newer_than(&files, 9));
    assert!(!is_source_newer_than(&files, 10));
    assert!(built_nro_path(Some("/w")).starts_with("/w/plugins/"));
    assert!(deployed_path("/m").ends_with("lib_effect_viewer.nro"));
    assert_eq!(
        eden_mod_dir(Some("/set"), false, Some("/data"), false),
        Err("Eden mod dir not found at /data/eden/load/01006A800016E000/Arcropolis".to_string())
    );
    assert_eq!(eden_mod_dir(None, false, None, false), Err("no data_dir".to_string()));
    let way_up = vec!["/w/app".to_string(), "/w".to_string()];
    let manifests = vec![
        Some("name = \"other\"".to_string()),
        Some("[package]\nname = \"visionary\"".to_string()),
    ];
    assert_eq!(
        find_workspace_root(&way_up, &manifests),
        Ok("/w".to_string())
    );
}

#[test]
fn whole_numbers_have_their_bits() {
    for n in [-16777216i64, -5, -1, 0, 1, 2, 3, 255, 8388608, 16777215] {
        assert_eq!(nearest_bits(n), (n as f32).to_bits());
        assert_eq!(whole_number((n as f32).to_bits()), Some(n));
    }
    for n in [16777217i64, 16777219, 2147483647, 4294967295, -4294967295] {
        assert_eq!(nearest_bits(n), (n as f32).to_bits());
    }
    assert_eq!(whole_number(0.25f32.to_bits()), None);
    assert!(are_equal(0.0f32.to_bits(), (-0.0f32).to_bits()));
    assert!(!are_equal(f32::NAN.to_bits(), f32::NAN.to_bits()));
}
