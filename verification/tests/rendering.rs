use std::collections::HashMap;

use visionary::bnsh_modules::{
    ensure_bnsh_pipeline, load_bnsh_shader_modules, pipeline_label, prepare_bnsh_wgsl, warm_bnsh_pipelines,
    warm_variants, FragmentStep, PreparedBnshWgsl, VertexStep,
};
use visionary::effects::{BlendType, DisplaySide, EmitterDef, EmitterSet};
use visionary::mipmaps::TextureFormat;
use visionary::particle_frame::{
    draw_order, placing_bone, placing_instance, plan_draws, BatchKey, EmitterDraw, FrameParticle,
    PipelineNeeds, RunningEmitter,
};
use visionary::particle_renderer::{
    bnsh_draw_filter_matches, build_trail_vertices, cull_mode_for, editor_composite_steps,
    get_combined_tex_bg, BlitDraw, BnshDrawFilter, CachedTextures, DepthDrawConfig, EditorCompositeStep,
    Face, ParticleRenderer, SwordTrail, TextureSource,
};
use visionary::particle_renderer_bnsh::{
    blend_state_for, words_to_bytes, BnshShaderSet, EffectShaderPair, ShaderStage,
};
use visionary::particle_vertices::particle_vertex_count;
use visionary::regression::{
    diff_images, frame_passes, golden_path, heatmap, sim_fingerprint, visible_pixels, BG_BLUE,
    BG_GREEN, BG_RED, TARGET_PIXELS,
};
use visionary::renderer::{
    driving_nodes, is_weapon_dir, weapon_attach_bone, AnimGroup, AnimNode, BoneSource, CacheStep, HitboxRenderState,
    TrackKind, WeaponSkel,
};

const NO_NEEDS: PipelineNeeds = PipelineNeeds {
    extra_tex3: false,
    extra_tex4: false,
    extra_tex5: false,
    tex_blend_uniform: false,
    particle_alpha_uniform: false,
    soft_particle: false,
};

fn anim_node(name: &str, tracks: &[TrackKind]) -> AnimNode {
    AnimNode {
        name: name.to_string(),
        tracks: tracks.to_vec(),
    }
}

#[test]
fn a_bone_takes_its_pose_from_the_last_node_that_moves_it() {
    let bones: Vec<String> = ["Trans", "ArmR", "ArmR", "Head", "Hip"]
        .iter()
        .map(|name| name.to_string())
        .collect();
    let moved = TrackKind::Transform(4);
    let groups = vec![
        AnimGroup {
            is_transform: false,
            nodes: vec![anim_node("Hip", &[moved])],
        },
        AnimGroup {
            is_transform: true,
            nodes: vec![
                anim_node("ArmR", &[moved]),
                anim_node("Head", &[TrackKind::Transform(0)]),
                anim_node("Tail", &[moved]),
                anim_node("Trans", &[TrackKind::Other, moved]),
                anim_node("Trans", &[]),
            ],
        },
        AnimGroup {
            is_transform: true,
            nodes: vec![anim_node("Head", &[moved]), anim_node("ArmR", &[moved])],
        },
    ];
    assert_eq!(
        driving_nodes(&bones, &groups),
        vec![None, Some((2, 1)), None, Some((2, 0)), None]
    );
    assert!(driving_nodes(&vec![], &groups).is_empty());
}

#[test]
fn editor_composite_steps_one_blit_per_path() {
    assert_eq!(
        editor_composite_steps(&[]),
        Vec::<EditorCompositeStep>::new()
    );
    assert_eq!(
        editor_composite_steps(&[0]),
        vec![
            EditorCompositeStep::BlitDrawPath(0),
            EditorCompositeStep::SubDrawPath(0),
        ]
    );
    assert_eq!(
        editor_composite_steps(&[0, 1, 2]),
        vec![
            EditorCompositeStep::BlitDrawPath(0),
            EditorCompositeStep::SubDrawPath(0),
            EditorCompositeStep::BlitDrawPath(1),
            EditorCompositeStep::SubDrawPath(1),
            EditorCompositeStep::BlitDrawPath(2),
            EditorCompositeStep::SubDrawPath(2),
        ]
    );
}

#[test]
fn build_trail_vertices_tracks_draw_path_segments() {
    let trail0 = SwordTrail {
        draw_path: 0,
        samples: 2,
    };
    let trail1 = SwordTrail {
        draw_path: 2,
        samples: 2,
    };
    let mut segments = Vec::new();
    let verts = build_trail_vertices(&vec![trail0, trail1], &mut segments);
    assert_eq!(verts.len(), 8);
    assert_eq!(segments, vec![(0, 0, 4), (2, 4, 4)]);
}

#[test]
fn editor_composite_step_count_matches_path_count() {
    for n in 0usize..=4 {
        let paths: Vec<u32> = (0..n as u32).collect();
        assert_eq!(editor_composite_steps(&paths).len(), n * 2);
    }
}

#[test]
fn test_shader_summary_generation() {
    let pair = EffectShaderPair {
        vertex: None,
        fragment: None,
        compute: None,
    };
    let set = BnshShaderSet {
        all_shaders: HashMap::from([(0u64, pair)]),
        default_key: 0,
        library_indices: HashMap::new(),
        native_color_by_key: HashMap::new(),
        vs_profile_by_key: HashMap::new(),
        source_name: "test.eff".to_string(),
    };
    assert_eq!(set.summary(), "no shaders");
    assert!(!set.is_complete());
}

fn stage(entry: &str) -> ShaderStage {
    ShaderStage {
        spirv: vec![1, 2, 3, 4],
        entry_point: entry.to_string(),
    }
}

#[test]
fn an_emitter_without_a_shader_takes_the_default() {
    let pair = EffectShaderPair {
        vertex: Some(stage("vs_main")),
        fragment: Some(stage("fs_main")),
        compute: None,
    };
    let set = BnshShaderSet {
        all_shaders: HashMap::from([(7u64, pair)]),
        default_key: 7,
        library_indices: HashMap::from([(3i32, 9u64)]),
        native_color_by_key: HashMap::new(),
        vs_profile_by_key: HashMap::new(),
        source_name: "test.eff".to_string(),
    };
    let plain = EmitterDef {
        shader_index: -1,
        ..Default::default()
    };
    let named = EmitterDef {
        shader_index: 3,
        ..Default::default()
    };
    let keyed = EmitterDef {
        shader_key: 11,
        shader_index: 3,
        ..Default::default()
    };
    assert_eq!(set.pipeline_key_for_emitter(&plain), 7);
    assert_eq!(set.pipeline_key_for_emitter(&named), 9);
    assert_eq!(set.pipeline_key_for_emitter(&keyed), 11);
    assert!(set.is_complete());
    let mut made = vec![9];
    assert_eq!(ensure_bnsh_pipeline(&mut made, &set, &named), (9, None));
    assert_eq!(
        ensure_bnsh_pipeline(&mut made, &set, &keyed),
        (11, Some("0xb".to_string()))
    );
    assert_eq!(made, vec![9, 11]);
    let sets = vec![
        EmitterSet {
            name: "a".to_string(),
            emitters: vec![plain, named],
        },
        EmitterSet {
            name: "b".to_string(),
            emitters: vec![
                keyed,
                EmitterDef {
                    shader_index: -1,
                    ..Default::default()
                },
            ],
        },
    ];
    assert_eq!(warm_bnsh_pipelines(&set, &sets), vec![7, 9, 11]);
    assert_eq!(warm_variants().len(), 15);
    assert_eq!(pipeline_label(0xab), "0xab");
}

#[test]
fn a_native_shader_keeps_its_colour_and_is_stripped() {
    let native = prepare_bnsh_wgsl(true, false);
    assert_eq!(
        native.vertex,
        vec![VertexStep::WireSimulationVaryings, VertexStep::PatchWithHint]
    );
    assert_eq!(
        native.fragment,
        vec![
            FragmentStep::WireCrossfade,
            FragmentStep::WireExtraTextures,
            FragmentStep::WireQuadUv,
            FragmentStep::ClampOutputs,
            FragmentStep::EnhanceNative,
            FragmentStep::NeutralizeLifeDiscard,
            FragmentStep::InjectSoftParticle,
        ]
    );
    assert_eq!((native.decide_behind, native.read_behind), (4, 6));
    assert_eq!(native.read_last_behind, native.fragment.len());
    let patched = prepare_bnsh_wgsl(false, true);
    assert_eq!(
        patched.depth_write[4..],
        [
            FragmentStep::PatchFragment,
            FragmentStep::DebugSolid,
            FragmentStep::InjectSoftParticle,
            FragmentStep::InjectOpaqueCoreAlphaTest,
        ]
    );
    assert_eq!(patched.read_behind, 5);
    assert_eq!(patched.read_last_behind, 7);
    let pair = EffectShaderPair {
        vertex: Some(stage("vs_main")),
        fragment: Some(stage("fs_main")),
        compute: None,
    };
    let prepared = PreparedBnshWgsl {
        vs_wgsl: String::new(),
        fs_wgsl: String::new(),
        fs_wgsl_depth_write: String::new(),
        uses_native_fs_fragment: true,
        needs: NO_NEEDS,
    };
    let modules = load_bnsh_shader_modules(&pair, "0x5740678a2aa5959f", &prepared);
    assert_eq!(modules.vs_label, "particle_bnsh_vs_0x5740678a2aa5959f");
    assert_eq!(modules.fs_entry, "fs_main");
    assert!(modules.strip_conflicts);
    assert_eq!(
        modules.checks[1],
        (
            "particle_bnsh_fs_depth_write_0x5740678a2aa5959f".to_string(),
            "hitbox_stripped_fs_depth_0x5740678a2aa5959f.wgsl".to_string()
        )
    );
    assert_eq!(
        modules.final_dumps,
        vec![
            "hitbox_patched_vs_0x5740678a2aa5959f.wgsl",
            "hitbox_patched_fs_0x5740678a2aa5959f.wgsl"
        ]
    );
    let other = load_bnsh_shader_modules(
        &pair,
        "0x1",
        &PreparedBnshWgsl {
            uses_native_fs_fragment: false,
            ..prepared
        },
    );
    assert!(other.checks.is_empty() && other.final_dumps.is_empty());
    assert_eq!(other.prepared_dumps[0], "hitbox_prepared_vs_0x1.wgsl");
}

fn particle(sort_key: u64, depth: i64, emitter_idx: usize) -> FrameParticle {
    FrameParticle {
        sort_key,
        depth,
        batch: BatchKey {
            draw_path: 1,
            order: 0,
            set_idx: 0,
            emitter_idx,
        },
        vertices: 6,
        opaque: false,
    }
}

#[test]
fn particles_are_drawn_by_key_then_depth_in_batches() {
    let ps = vec![particle(2, 0, 1), particle(1, 5, 0), particle(1, 3, 0)];
    let order = draw_order(&ps, None, None);
    assert_eq!(order, vec![2, 1, 0]);
    assert_eq!(draw_order(&ps, Some(1), None), vec![0]);
    assert_eq!(draw_order(&ps, None, Some(1)), vec![2, 1]);
    let how = EmitterDraw {
        pipeline_key: 5,
        blend: BlendType::Add,
        needs: NO_NEEDS,
    };
    let draws = plan_draws(&order, &ps, &vec![vec![how, how]]);
    assert_eq!(draws.len(), 2);
    assert_eq!(draws[0].vertex_count, 12);
    assert_eq!(draws[0].vertex_byte_offset, 0);
    assert_eq!(draws[1].vertex_byte_offset, 12 * 208);
    assert_ne!(draws[0].indirect_offset, draws[1].indirect_offset);

    let mut renderer = ParticleRenderer::new(TextureFormat::Rgba8UnormSrgb);
    assert!(!renderer.hdr_composite());
    let plan = renderer.prepare_particle_frame(
        &ps,
        &vec![SwordTrail {
            draw_path: 4,
            samples: 3,
        }],
        &vec![vec![how, how]],
        None,
        None,
    );
    assert_eq!(plan.order, vec![2, 1, 0]);
    assert_eq!(renderer.prepared_draw_paths().to_vec(), vec![1u32, 4]);
    assert_eq!(renderer.prepared_trail_vertex_count(), 6);
    let drawn = renderer.draw_prepared_particles_for_path(
        1,
        true,
        BnshDrawFilter::ExcludeSub,
        DepthDrawConfig::none(),
    );
    assert_eq!(drawn.draws, vec![0, 1]);
}

#[test]
fn sub_blends_are_drawn_apart() {
    assert!(bnsh_draw_filter_matches(BnshDrawFilter::SubOnly, BlendType::Sub));
    assert!(!bnsh_draw_filter_matches(BnshDrawFilter::ExcludeSub, BlendType::Sub));
    assert!(bnsh_draw_filter_matches(BnshDrawFilter::ExcludeSub, BlendType::Add));
    assert_eq!(cull_mode_for(DisplaySide::Both), None);
    assert_eq!(cull_mode_for(DisplaySide::Front), Some(Face::Back));
    assert_ne!(
        blend_state_for(BlendType::Add),
        blend_state_for(BlendType::Sub)
    );
}

#[test]
fn a_missing_texture_is_white() {
    let (label, sources) = get_combined_tex_bg(
        (3, 14),
        CachedTextures {
            color: true,
            alpha: false,
            indirect: false,
            slot2: true,
        },
    );
    assert_eq!(label, "combined_tex_bg_3_14");
    assert_eq!(
        sources,
        [
            TextureSource::Color,
            TextureSource::White,
            TextureSource::White,
            TextureSource::Slot2
        ]
    );
}

#[test]
fn words_become_bytes_low_byte_first() {
    assert_eq!(
        words_to_bytes(&vec![0x07230203, 1]),
        vec![0x03, 0x02, 0x23, 0x07, 1, 0, 0, 0]
    );
    assert_eq!(particle_vertex_count(0), 6);
}

fn image(value: u8) -> Vec<u8> {
    vec![value; TARGET_PIXELS * 4]
}

#[test]
fn an_image_equals_itself_and_comparing_is_symmetric() {
    let a = image(10);
    let mut b = image(10);
    b[0] = 14;
    let same = diff_images(&a, &a);
    assert_eq!(same.changed_px, 0);
    assert_eq!(same.max_delta, 0);
    let ab = diff_images(&a, &b);
    let ba = diff_images(&b, &a);
    assert_eq!(ab.changed_px, 1);
    assert_eq!(ab.max_delta, 4);
    assert_eq!(ab.distance_sum, 4);
    assert_eq!(ab.square_sums, [16, 0, 0, 0]);
    assert_eq!(ba.square_sums, ab.square_sums);
    let heat = heatmap(&a, &b);
    assert_eq!(&heat[..4], &[16, 16, 16, 255]);
    assert_eq!(&heat[4..8], &[0, 0, 0, 255]);
}

#[test]
fn the_background_is_not_visible() {
    let mut pixels = Vec::new();
    for _ in 0..3 {
        pixels.extend_from_slice(&[BG_RED, BG_GREEN, BG_BLUE, 255]);
    }
    assert_eq!(visible_pixels(&pixels), 0);
    pixels[4] = 255;
    assert_eq!(visible_pixels(&pixels), 1);
    assert_eq!(golden_path("/g", "fire", 3), "/g/fire/frame_03.png");
    assert_eq!(sim_fingerprint(&vec![]), 0xcbf29ce484222325);
    assert_ne!(sim_fingerprint(&vec![1, 2]), sim_fingerprint(&vec![2, 1]));
}

#[test]
fn only_the_first_pass_clears() {
    let passes = frame_passes(&[0, 2]);
    assert_eq!(passes.len(), 2);
    assert!(passes[0].clear && !passes[1].clear);
    assert_eq!(passes[1].path, 2);
    assert_eq!(passes[1].first, (true, BnshDrawFilter::ExcludeSub));
    assert_eq!(passes[1].second, (false, BnshDrawFilter::SubOnly));
}

#[test]
fn body_bones_come_before_weapon_bones() {
    assert_eq!(weapon_attach_bone("shield"), "havel");
    assert_eq!(weapon_attach_bone("sword"), "haver");
    assert!(!is_weapon_dir("body", true));
    let mut state = HitboxRenderState::new(TextureFormat::Bgra8UnormSrgb);
    assert_eq!(state.surface_format, TextureFormat::Bgra8UnormSrgb);
    let particles = state.particle_renderer.as_ref().unwrap();
    assert_eq!(particles.particle_format, TextureFormat::Bgra8UnormSrgb);
    assert!(!state.render_bloom && !state.render_shadows && state.pending_trails.is_empty());
    let step = state.resize(640, 480);
    assert!(step.resize_scene && step.recreate_target);
    assert!(!state.resize(640, 480).resize_scene);
    state.cached_skel = Some("skel".to_string());
    state.bones = vec!["Hip".to_string(), "HaveR".to_string()];
    state.load_model(vec![WeaponSkel {
        name: "sword".to_string(),
        bones: vec!["Hip".to_string(), "Blade".to_string()],
        attach_bone: "haver".to_string(),
    }]);
    assert_eq!(state.weapon_skel_count(), 1);
    assert_eq!(state.bone_world_matrix("Hip"), Some(BoneSource::Body(0)));
    assert_eq!(state.bone_world_matrix("hip"), Some(BoneSource::Body(0)));
    assert_eq!(state.bone_world_matrix("top"), Some(BoneSource::Root));
    assert_eq!(
        state.bone_world_matrix("Blade"),
        Some(BoneSource::Weapon { weapon: 0, bone: 1 })
    );
    assert_eq!(state.bone_world_matrix("nothing"), None);
    assert_eq!(state.attach_index(0), Some(1));
    let (anim, skel) = state.apply_animation(&None, &Some("skel".to_string()));
    assert_eq!(anim, CacheStep::Drop);
    assert_eq!(skel, CacheStep::Keep);
    let other = Some("motion/other.nusktb".to_string());
    assert_eq!(state.apply_animation(&None, &other).1, CacheStep::Load);
    state.hold_animation(None, false, other.clone(), Some(vec!["Head".to_string()]));
    assert_eq!(state.bone_names(), vec!["Head"]);
    let same = Some("motion//other.nusktb".to_string());
    assert_eq!(state.apply_animation(&None, &same).1, CacheStep::Keep);
    state.hold_animation(None, false, Some("gone".to_string()), None);
    assert!(state.bone_names().is_empty());
}

#[test]
fn an_emitter_is_placed_by_its_bone_or_a_root() {
    let names: Vec<String> = ["Trans", "top", "havel", "HandL"]
        .iter()
        .map(|name| name.to_string())
        .collect();
    assert_eq!(placing_bone(&names, "HandL"), Some(3));
    assert_eq!(placing_bone(&names, "HaveL"), Some(2));
    assert_eq!(placing_bone(&names, "Nowhere"), Some(1));
    assert_eq!(placing_bone(&vec!["Trans".to_string()], "Nowhere"), Some(0));
    assert_eq!(placing_bone(&vec!["Head".to_string()], "Nowhere"), None);
    let running = vec![
        RunningEmitter { set_idx: 0, emitter_idx: 1, bone_name: "top".into() },
        RunningEmitter { set_idx: 0, emitter_idx: 1, bone_name: "havel".into() },
    ];
    assert_eq!(placing_instance(&running, 0, 1, "havel"), Some(1));
    assert_eq!(placing_instance(&running, 1, 1, "havel"), None);
}

#[test]
fn each_path_is_blitted_in_colour_and_then_in_sub() {
    let mut renderer = ParticleRenderer::new(TextureFormat::Rgba8Unorm);
    assert!(renderer.composite_paths().is_empty());
    renderer.prepare_composite(2, 2);
    let blits = vec![
        BlitDraw::Colour(0),
        BlitDraw::Sub(0),
        BlitDraw::Colour(1),
        BlitDraw::Sub(1),
    ];
    assert_eq!(renderer.composite(), blits);
    assert_eq!(renderer.composite_editor_particles(), blits);
}
