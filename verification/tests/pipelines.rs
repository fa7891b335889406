use std::collections::HashMap;

use visionary::bnsh_modules::vertex_hint;
use visionary::effects::{BfresMesh, BfresModel, BlendType, EmitterDef, PtclFile};
use visionary::mipmaps::TextureFormat;
use visionary::particle_frame::{
    plan_draws, BatchKey, EmitterDraw, FrameParticle, PipelineNeeds, BNSH_VERTEX_STRIDE,
};
use visionary::particle_renderer::{
    distinct_draw_paths, draw_bind_groups, emitter_tex_bind_group, emitter_texture_for_slot,
    extra_tex345_bind_entries, resolve_mesh_tex_bg, BnshDrawFilter, BoundGroup, DepthDrawConfig,
    DepthSource, MeshTexture, ParticleRenderer, SwordTrail, TextureSource,
};
use visionary::particle_renderer_bnsh::{
    blend_state_for, blit_blend, blit_mode, blit_pipeline, bnsh_vertex_layout,
    build_bnsh_frame_bind_groups,
    emissive_layout_entries, emitter_tex_bind_group_layout_entries, extra_tex345_layout_entries,
    find_cbuf, is_cbuf, load_shaders_from_files, material_layout_entries, particle_depth_format,
    particle_depth_stencil_state, particle_depth_stencil_state_write,
    particle_path_depth_attachment, particle_pipeline, soft_particle_depth_sample_format,
    soft_particle_layout_entries, sub_blit_pipeline, trail_pipeline, wgpu_device_limits,
    BindResource, BindingClass, BindingType,
    BlendFactor, BlitMode, BnshPipelineState, BnshShaderSet, DecodedEffect, DepthLoad,
    DescriptorInfo, EffectShaderPair, GroupLayout, NativeColorInput, PipelineVariant,
    RegistryInfo, ShaderStage, ShaderVsProfile, TextureBinding, Topology, Visibility,
};
use visionary::particle_vertices::{
    append_bnsh_particle_vertices, attribute_last_word, quad_corners, QuadCorner, QuadShared,
};
use visionary::texture_data::{TextureRes, TextureUpload};
use visionary::texture_plan::{
    create_material_texture_bind_groups, material_bindings, BntxSource, EmitterTextures,
    MaterialBinding, MaterialSlot, TexturePlan,
};

const NOTHING: PipelineNeeds = PipelineNeeds {
    extra_tex3: false,
    extra_tex4: false,
    extra_tex5: false,
    tex_blend_uniform: false,
    particle_alpha_uniform: false,
    soft_particle: false,
};

fn upload() -> TextureUpload {
    TextureUpload {
        format: TextureFormat::Rgba8Unorm,
        width: 1,
        height: 1,
        data: vec![1, 2, 3, 4],
        bytes_per_row: 4,
    }
}

fn plan() -> TexturePlan {
    TexturePlan {
        emitters: vec![vec![EmitterTextures {
            color: Some(upload()),
            secondary: Some(upload()),
            secondary_is_indirect: false,
            slot2: None,
            extra: Some(vec![None, Some(upload()), None]),
        }]],
        bntx: vec![BntxSource::Missing, BntxSource::Own(upload())],
    }
}

#[test]
fn a_sampler_place_reads_what_was_uploaded_for_it() {
    let plan = plan();
    let plain = EmitterDef::default();
    let indexed = EmitterDef {
        texture_index: 1,
        ..Default::default()
    };
    let bent = EmitterDef {
        is_indirect_slot1: true,
        ..Default::default()
    };
    let at = (0, 0);
    assert_eq!(emitter_texture_for_slot(&plan, at, &plain, 0), TextureSource::Color);
    assert_eq!(emitter_texture_for_slot(&plan, at, &indexed, 0), TextureSource::Bntx(1));
    assert_eq!(emitter_texture_for_slot(&plan, at, &plain, 1), TextureSource::Alpha);
    assert_eq!(emitter_texture_for_slot(&plan, at, &bent, 1), TextureSource::White);
    assert_eq!(emitter_texture_for_slot(&plan, at, &plain, 2), TextureSource::White);
    assert_eq!(emitter_texture_for_slot(&plan, at, &plain, 4), TextureSource::Extra(1));
    assert_eq!(emitter_texture_for_slot(&plan, at, &plain, 6), TextureSource::White);
    assert_eq!(emitter_texture_for_slot(&plan, (3, 0), &plain, 0), TextureSource::White);
    assert_eq!(
        emitter_tex_bind_group(&plan, at, &plain),
        (
            TextureSource::Color,
            TextureSource::Alpha,
            TextureSource::White,
            TextureSource::White
        )
    );
    assert_eq!(
        extra_tex345_bind_entries(&plan, at, &plain, [true, true, false]),
        [TextureSource::White, TextureSource::Extra(1), TextureSource::White]
    );
    assert_eq!(
        extra_tex345_bind_entries(&plan, at, &plain, [true, false, false])[1],
        TextureSource::White
    );
    assert_eq!(resolve_mesh_tex_bg(&plan, true, 1, at), MeshTexture::Combined);
    assert_eq!(resolve_mesh_tex_bg(&plan, false, 1, at), MeshTexture::Bntx(1));
    assert_eq!(resolve_mesh_tex_bg(&plan, false, 0, at), MeshTexture::Emitter);
    assert_eq!(resolve_mesh_tex_bg(&plan, false, u32::MAX, (0, 1)), MeshTexture::White);
}

fn descriptor(set: u32, binding: u32, class: BindingClass) -> DescriptorInfo {
    DescriptorInfo {
        set,
        binding,
        class,
        name: String::new(),
    }
}

#[test]
fn a_pipeline_keeps_the_first_set_and_the_renderers_groups() {
    let descriptors = vec![
        descriptor(0, 2, BindingClass::Texture),
        descriptor(1, 0, BindingClass::Uniform),
        descriptor(0, 5, BindingClass::Storage),
    ];
    let soft = PipelineNeeds {
        soft_particle: true,
        ..NOTHING
    };
    let mut state = BnshPipelineState::new(&descriptors, soft);
    assert_eq!(
        state.groups,
        vec![
            GroupLayout::Native,
            GroupLayout::EmitterTextures,
            GroupLayout::Placeholder,
            GroupLayout::SoftParticle
        ]
    );
    assert_eq!(state.native_entries.len(), 2);
    assert_eq!(state.native_entries[1].binding, 5);
    assert_eq!(state.native_entries[1].ty, BindingType::ReadStorage);
    assert_eq!(
        state.pipeline_for_blend(BlendType::Normal, false, true),
        (PipelineVariant::Plain, false)
    );
    assert_eq!(
        state.pipeline_for_blend(BlendType::Add, true, true),
        (PipelineVariant::DepthWrite, true)
    );
    assert_eq!(
        state.pipeline_for_blend(BlendType::Add, true, true),
        (PipelineVariant::DepthWrite, false)
    );
    assert_eq!(
        state.pipeline_for_blend(BlendType::Add, true, false),
        (PipelineVariant::Depth, true)
    );
    let groups = build_bnsh_frame_bind_groups(
        &descriptors,
        &vec![TextureBinding { set: 0, binding: 2, slot: 9 }],
        1,
    );
    assert_eq!(
        groups,
        vec![vec![(2, BindResource::Texture(2)), (5, BindResource::Storage)]]
    );
    assert_eq!(build_bnsh_frame_bind_groups(&descriptors, &vec![], 4).len(), 2);
}

#[test]
fn layouts_have_their_bindings_in_order() {
    let bindings = |entries: Vec<visionary::particle_renderer_bnsh::LayoutEntry>| -> Vec<u32> {
        entries.iter().map(|entry| entry.binding).collect()
    };
    let emitter = emitter_tex_bind_group_layout_entries(64);
    assert_eq!(
        emitter[6].ty,
        BindingType::Uniform { dynamic_offset: true, min_size: Some(64) }
    );
    assert!(emitter.iter().all(|entry| entry.visibility == Visibility::Fragment));
    assert_eq!(bindings(emitter), (0..9).collect::<Vec<u32>>());
    assert_eq!(bindings(extra_tex345_layout_entries(16)), (0..8).collect::<Vec<u32>>());
    assert_eq!(bindings(material_layout_entries()), (0..7).collect::<Vec<u32>>());
    assert_eq!(bindings(emissive_layout_entries()), vec![0, 1]);
    let soft = soft_particle_layout_entries();
    assert_eq!(soft[0].ty, BindingType::Texture { filterable: false });
    assert_eq!(
        soft[1].ty,
        BindingType::Uniform { dynamic_offset: false, min_size: Some(32) }
    );
    let (attributes, stride) = bnsh_vertex_layout();
    assert_eq!(stride, BNSH_VERTEX_STRIDE);
    assert_eq!(attributes.len(), 13);
    assert_eq!(attributes[12], (192, 12));
}

#[test]
fn depth_and_formats_of_the_offscreen_passes() {
    assert_eq!(particle_depth_format(), TextureFormat::Depth32Float);
    assert_eq!(soft_particle_depth_sample_format(), TextureFormat::R32Float);
    assert!(!particle_depth_stencil_state().write);
    assert!(particle_depth_stencil_state_write().write);
    assert_eq!(particle_path_depth_attachment(true), DepthLoad::Keep);
    assert_eq!(particle_path_depth_attachment(false), DepthLoad::ClearFar);
    assert_eq!(wgpu_device_limits(16), 32);
    assert_eq!(wgpu_device_limits(64), 64);
    let same = TextureFormat::Bgra8UnormSrgb;
    assert_eq!(blit_mode(same, same), BlitMode::Replace);
    assert_eq!(blit_mode(same, TextureFormat::Rgba16Float), BlitMode::Tonemap);
    assert_eq!(blit_blend(BlitMode::Replace), None);
    let over = blit_blend(BlitMode::Tonemap).unwrap();
    assert_eq!(over.color.dst_factor, BlendFactor::OneMinusSrcAlpha);
    let hdr = ParticleRenderer::new_with_particle_format(same, TextureFormat::Rgba16Float);
    assert!(hdr.hdr_composite());
    assert!(!ParticleRenderer::new(same).hdr_composite());
}

#[test]
fn trails_add_light_and_the_composite_lays_it_over() {
    let (surface, wide) = (TextureFormat::Bgra8UnormSrgb, TextureFormat::Rgba16Float);
    let trail = trail_pipeline(wide, false);
    assert_eq!(trail.topology, Topology::TriangleStrip);
    assert_eq!((trail.format, trail.depth), (wide, None));
    let blend = trail.blend.unwrap();
    assert_eq!(blend.color.src_factor, BlendFactor::SrcAlpha);
    assert_eq!(blend.color.dst_factor, BlendFactor::One);
    assert_eq!(blend.alpha, blend_state_for(BlendType::Normal).alpha);
    let tested = trail_pipeline(wide, true);
    assert_eq!(tested.depth, Some(particle_depth_stencil_state()));
    assert_eq!(tested.blend, trail.blend);
    let (core, own_stage) = particle_pipeline(wide, BlendType::Add, true, true);
    assert_eq!(core.depth, Some(particle_depth_stencil_state_write()));
    assert_eq!(core.blend, Some(blend_state_for(BlendType::Add)));
    assert!(own_stage);
    let (plain, own_stage) = particle_pipeline(wide, BlendType::Sub, false, false);
    assert_eq!((plain.depth, plain.topology), (None, Topology::TriangleList));
    assert!(!own_stage);
    let blit = blit_pipeline(surface, wide);
    assert_eq!(blit.topology, Topology::TriangleList);
    assert_eq!(blit.blend, Some(blend_state_for(BlendType::Normal)));
    assert_eq!(blit_pipeline(surface, surface).blend, None);
    let sub = sub_blit_pipeline(surface);
    assert_eq!((sub.format, sub.depth), (surface, None));
    assert_eq!(sub.blend, Some(blend_state_for(BlendType::Sub)));
}

#[test]
fn what_is_known_of_a_vertex_stage_is_merged_in_order() {
    let hinted = ShaderVsProfile::Hinted;
    let merge = |first: ShaderVsProfile, second: ShaderVsProfile| match (first, second) {
        (ShaderVsProfile::Hinted(a), ShaderVsProfile::Hinted(b)) => {
            ShaderVsProfile::Hinted(10 * a + b)
        }
        (ShaderVsProfile::Unknown, other) => other,
        (known, ShaderVsProfile::Unknown) => known,
    };
    assert_eq!(
        vertex_hint(hinted(1), Some(hinted(2)), hinted(3), merge),
        Some(hinted(123))
    );
    assert_eq!(vertex_hint(hinted(1), None, hinted(3), merge), Some(hinted(13)));
    let unknown = ShaderVsProfile::Unknown;
    assert_eq!(vertex_hint(unknown, Some(unknown), unknown, merge), None);
}

fn whole() -> EffectShaderPair {
    let stage = |entry: &str| ShaderStage {
        spirv: vec![0; 8],
        entry_point: entry.to_string(),
    };
    EffectShaderPair {
        vertex: Some(stage("v")),
        fragment: Some(stage("f")),
        compute: None,
    }
}

fn bare() -> EffectShaderPair {
    EffectShaderPair {
        vertex: None,
        fragment: None,
        compute: None,
    }
}

fn registry(default_key: u64) -> RegistryInfo {
    RegistryInfo {
        default_key,
        library_indices: HashMap::new(),
        native_colors: HashMap::from([(7, NativeColorInput::Hinted(2))]),
        vs_profiles: HashMap::new(),
    }
}

#[test]
fn the_effects_stages_stand_in_for_a_missing_default() {
    assert!(whole().is_drawable() && !bare().is_drawable());
    let set = BnshShaderSet::from_ptcl_file(HashMap::new(), whole(), registry(7), "a.eff").unwrap();
    assert_eq!(set.default_key, 7);
    assert_eq!(set.default_pair().vertex.as_ref().unwrap().entry_point, "v");
    let emitter = EmitterDef::default();
    assert_eq!(set.resolve_key(&emitter), 7);
    assert!(set.pair_for_emitter(&emitter).is_drawable());
    assert_eq!(set.native_color_for_key(7), NativeColorInput::Hinted(2));
    assert_eq!(set.native_color_for_key(8), NativeColorInput::Auto);
    assert_eq!(set.vs_profile_for_key(7), ShaderVsProfile::Unknown);
    assert!(set.apply_material_bindings().is_empty());
    let found =
        BnshShaderSet::from_ptcl_file(HashMap::from([(9, whole())]), bare(), registry(0), "b.eff")
            .unwrap();
    assert_eq!(found.default_key, 9);
    let sets = load_shaders_from_files(vec![DecodedEffect {
        name: "c.eff".to_string(),
        shaders: HashMap::new(),
        effect: bare(),
        registry: registry(0x1f),
    }]);
    assert_eq!(sets[0].0, "c.eff");
    assert_eq!(
        sets[0].1.as_ref().err().map(String::as_str),
        Some("no complete default shader 0x1f in c.eff")
    );
}

#[test]
fn a_constant_buffer_is_found_by_a_near_name() {
    let evaluated: Vec<String> = ["cbuf_9_", "cbuf_10"].iter().map(|s| s.to_string()).collect();
    assert_eq!(find_cbuf("cbuf_10", &evaluated), Some("cbuf_10".to_string()));
    assert_eq!(find_cbuf("cbuf_9", &evaluated), Some("cbuf_9_".to_string()));
    assert_eq!(find_cbuf("cbuf_10__", &evaluated), Some("cbuf_10".to_string()));
    assert_eq!(find_cbuf("cbuf_11", &evaluated), None);
    assert!(is_cbuf("cbuf_9") && !is_cbuf("tex_9"));
}

#[test]
fn a_quad_has_thirteen_vectors_a_corner() {
    let word = |w: u32| [w; 4];
    let shared = QuadShared {
        center: word(1),
        color: word(2),
        motion: word(4),
        shape: word(5),
        scroll: word(6),
        spawn: word(9),
        pattern: word(10),
        extra: word(11),
        extra_last: word(12),
    };
    let corner = QuadCorner {
        uv: word(3),
        extent: word(7),
        corner: word(8),
    };
    let mut data = vec![0];
    append_bnsh_particle_vertices(&mut data, &shared, &vec![corner, corner]);
    assert_eq!(data.len(), 1 + 104);
    let vectors: Vec<u32> = data[1..53].iter().step_by(4).copied().collect();
    assert_eq!(vectors, vec![1, 2, 3, 4, 5, 6, 7, 8, 2, 9, 10, 11, 12]);
    assert_eq!(quad_corners().len(), 6);
    assert_eq!(quad_corners()[2], (true, true));
    assert_eq!(attribute_last_word(5, 1, true, 8, 9, None), 8);
    assert_eq!(attribute_last_word(4, 1, true, 8, 9, None), 9);
    assert_eq!(attribute_last_word(4, 1, false, 8, 9, None), 1);
    assert_eq!(attribute_last_word(2, 1, true, 8, 9, Some((2, 3))), 8);
}

fn particle(draw_path: u32, emitter_idx: usize, opaque: bool) -> FrameParticle {
    FrameParticle {
        sort_key: u64::from(draw_path) * 10 + emitter_idx as u64,
        depth: 0,
        batch: BatchKey {
            draw_path,
            order: 0,
            set_idx: 0,
            emitter_idx,
        },
        vertices: 6,
        opaque,
    }
}

#[test]
fn a_frame_is_drawn_path_by_path() {
    let emitters = vec![vec![
        EmitterDraw {
            pipeline_key: 1,
            blend: BlendType::Normal,
            needs: NOTHING,
        },
        EmitterDraw {
            pipeline_key: 2,
            blend: BlendType::Sub,
            needs: PipelineNeeds {
                extra_tex4: true,
                soft_particle: true,
                ..NOTHING
            },
        },
    ]];
    let particles = vec![
        particle(1, 0, true),
        particle(1, 1, false),
        particle(3, 0, false),
    ];
    let trails = vec![SwordTrail { draw_path: 3, samples: 3 }];
    assert_eq!(distinct_draw_paths(&particles, &trails), vec![1, 3]);
    let mut renderer = ParticleRenderer::new(TextureFormat::Rgba8Unorm);
    let frame = renderer.prepare_particle_frame(&particles, &trails, &emitters, None, None);
    assert_eq!(frame.trail_vertices.len(), 6);
    assert_eq!(frame.grow_vertices, Some(18));
    assert_eq!(renderer.prepared_trail_segments(), &[(3, 0, 6)]);
    assert!(renderer.editor_needs_composite() && !renderer.editor_composite_is_ready());
    let passes = renderer.render();
    assert_eq!(passes.len(), 2);
    assert_eq!((passes[0].0, passes[1].0), (true, false));
    assert_eq!(passes[0].1.draws, vec![0]);
    assert_eq!(passes[0].2.draws, vec![1]);
    assert_eq!(passes[1].1.trails, vec![(0, 6)]);
    assert!(passes[1].2.trails.is_empty());
    let everything = renderer.draw_prepared_particles();
    assert_eq!(everything[0].draws, vec![0, 1]);
    let cores = renderer.draw_prepared_particles_for_path(
        1,
        true,
        BnshDrawFilter::All,
        DepthDrawConfig::opaque_core(),
    );
    assert_eq!(cores.draws, vec![0]);
    let rest = renderer.draw_prepared_particles_for_path(
        1,
        true,
        BnshDrawFilter::All,
        DepthDrawConfig::transparent_only(),
    );
    assert_eq!(rest.draws, vec![1]);
    let all = renderer.draw_prepared_particles_for_path(
        1,
        true,
        BnshDrawFilter::All,
        DepthDrawConfig::transparent(),
    );
    assert!(all.draws.contains(&0) || all.draws.contains(&1));
    let order: Vec<usize> = vec![0, 1, 2];
    let draws = plan_draws(&order, &particles, &emitters);
    assert_eq!(draws[1].vertex_byte_offset, 6 * BNSH_VERTEX_STRIDE);
    assert!(draws[1].needs.group2() && draws[1].needs.extra_tex());
    assert_eq!(
        draw_bind_groups(&draws[1], 1),
        vec![
            BoundGroup::Frame(0),
            BoundGroup::EmitterTextures(256),
            BoundGroup::ExtraTextures,
            BoundGroup::SoftParticle
        ]
    );
    assert_eq!(renderer.soft_particle_depth(), DepthSource::Fallback);
    renderer.set_scene_depth_view();
    assert_eq!(renderer.soft_particle_depth(), DepthSource::Scene);
    renderer.set_material_texture_bindings(vec![("sampler_col".to_string(), 3)]);
    assert_eq!(renderer.get_material_texture_slot("sampler_col"), Some(3));
    assert_eq!(renderer.get_material_texture_slot("sampler_emi"), None);
}

#[test]
fn a_material_takes_the_first_texture_that_can_be_made() {
    let texture = |offset: u32| TextureRes {
        tex_name: String::new(),
        width: 1,
        height: 1,
        ftx_format: 0x0B01,
        ftx_data_offset: offset,
        ftx_data_size: 4,
        original_format: 0x0B01,
        original_data_offset: offset,
        original_data_size: 4,
        wrap_mode: 0,
        filter_mode: 0,
        mipmap_count: 1,
        channel_swizzle: 0,
    };
    let ptcl = PtclFile {
        emitter_sets: vec![],
        texture_section: vec![9; 512],
        texture_section_offset: 0,
        bntx_textures: vec![texture(4096), texture(0)],
        bfres_models: vec![BfresModel {
            name: "m".to_string(),
            source_id: 0,
            meshes: vec![
                BfresMesh {
                    texture_index: 0,
                    emissive_tex_index: u32::MAX,
                    prm_tex_index: u32::MAX,
                },
                BfresMesh {
                    texture_index: 1,
                    emissive_tex_index: u32::MAX,
                    prm_tex_index: u32::MAX,
                },
            ],
        }],
    };
    assert!(create_material_texture_bind_groups(&ptcl, false).is_none());
    let material = create_material_texture_bind_groups(&ptcl, true).unwrap();
    assert!(material.color.is_some() && material.emissive.is_none() && material.pbr.is_none());
    assert_eq!(material.flags, 1);
    let slots: Vec<u32> = material_bindings(4, 0, 2).iter().map(|entry| entry.0).collect();
    assert_eq!(slots, vec![0, 1, 2, 3, 4, 5, 6]);
    assert_eq!(
        material_bindings(4, 0, 2)[4],
        (4, MaterialBinding::Texture(MaterialSlot::Color))
    );
}
