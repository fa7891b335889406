use visionary::effects::{BfresMesh, BfresModel, EmitterDef, EmitterSet, PtclFile, TexWrap};
use visionary::mipmaps::{generate_mip_chain, pad_rows, TextureFormat};
use visionary::texture_data::{
    apply_bgr_swap, bc_image_format, deswizzle_tegra, is_bgra_from_swizzle, swizzle_pixels,
    ImageFormat, TextureRes,
};
use visionary::texture_plan::{
    address_mode_for, bntx_indices_covered_by_emitters, bntx_sampler, can_be_planned,
    emitter_samplers,    filter_mode_for, material_sampler, upload_textures, white_sampler, AddressMode, BntxSource,
    FilterMode, TextureSampler,
};
use visionary::texture_uploads::{
    colour_format_for, colour_texture, create_texture_from_res, native_format_for,
};

fn make_tex(offset: u32) -> TextureRes {
    TextureRes {
        tex_name: String::new(),
        width: 4,
        height: 4,
        ftx_format: 0x0B01,
        ftx_data_offset: offset,
        ftx_data_size: 64,
        original_format: 0x0B01,
        original_data_offset: offset,
        original_data_size: 64,
        wrap_mode: 1,
        filter_mode: 0,
        mipmap_count: 1,
        channel_swizzle: 0,
    }
}

#[test]
fn test_bug_1_4_bc6h_format_missing() {
    let result_ufloat = bc_image_format(0x1F, 0x05);
    assert!(result_ufloat.is_some());
    assert_eq!(result_ufloat, Some(ImageFormat::BC6hRgbUfloat));
    let result_sfloat = bc_image_format(0x1F, 0x01);
    assert!(result_sfloat.is_some());
    assert_eq!(result_sfloat, Some(ImageFormat::BC6hRgbSfloat));
}

#[test]
fn test_bug_1_5_srgb_format_selection() {
    let fmt_variant_srgb: u8 = 0x06;
    let fmt_variant_unorm: u8 = 0x01;
    assert_eq!(
        colour_format_for(0x0B, fmt_variant_srgb),
        Some(TextureFormat::Rgba8UnormSrgb)
    );
    assert_eq!(
        colour_format_for(0x0C, fmt_variant_srgb),
        Some(TextureFormat::Rgba8UnormSrgb)
    );
    assert_eq!(
        colour_format_for(0x0B, fmt_variant_unorm),
        Some(TextureFormat::Rgba8Unorm)
    );
}

#[test]
fn test_preservation_bc1_bc7_formats_unchanged() {
    assert_eq!(bc_image_format(0x1A, 0x01), Some(ImageFormat::BC1RgbaUnorm));
    assert_eq!(bc_image_format(0x1A, 0x06), Some(ImageFormat::BC1RgbaUnormSrgb));
    assert_eq!(bc_image_format(0x1B, 0x01), Some(ImageFormat::BC2RgbaUnorm));
    assert_eq!(bc_image_format(0x1B, 0x06), Some(ImageFormat::BC2RgbaUnormSrgb));
    assert_eq!(bc_image_format(0x1C, 0x01), Some(ImageFormat::BC3RgbaUnorm));
    assert_eq!(bc_image_format(0x1C, 0x06), Some(ImageFormat::BC3RgbaUnormSrgb));
    assert_eq!(bc_image_format(0x1D, 0x01), Some(ImageFormat::BC4RUnorm));
    assert_eq!(bc_image_format(0x1D, 0x02), Some(ImageFormat::BC4RSnorm));
    assert_eq!(bc_image_format(0x1E, 0x01), Some(ImageFormat::BC5RgUnorm));
    assert_eq!(bc_image_format(0x1E, 0x02), Some(ImageFormat::BC5RgSnorm));
    assert_eq!(bc_image_format(0x20, 0x01), Some(ImageFormat::BC7RgbaUnorm));
    assert_eq!(bc_image_format(0x20, 0x06), Some(ImageFormat::BC7RgbaUnormSrgb));
    assert_eq!(bc_image_format(0x0B, 0x01), None);
    assert_eq!(bc_image_format(0x0C, 0x06), None);
    assert_eq!(bc_image_format(0x02, 0x01), None);
}

#[test]
fn test_preservation_non_srgb_uses_unorm() {
    let fmt_variant_unorm: u8 = 0x01;
    assert_eq!(
        colour_format_for(0x0B, fmt_variant_unorm),
        Some(TextureFormat::Rgba8Unorm)
    );
    assert_eq!(
        colour_format_for(0x0C, fmt_variant_unorm),
        Some(TextureFormat::Rgba8Unorm)
    );
}

#[test]
fn test_bug_etmm_b_upload_gap_submesh_index_not_covered() {
    let emitter = EmitterDef {
        name: "test_emitter".to_string(),
        texture_index: 0,
        textures: vec![make_tex(0)],
        ..Default::default()
    };
    let bfres_mesh = BfresMesh {
        texture_index: 1,
        emissive_tex_index: u32::MAX,
        prm_tex_index: u32::MAX,
    };
    let ptcl = PtclFile {
        emitter_sets: vec![EmitterSet {
            name: "test_set".to_string(),
            emitters: vec![emitter],
        }],
        texture_section: vec![0xFFu8; 256],
        texture_section_offset: 0,
        bntx_textures: vec![make_tex(0), make_tex(64)],
        bfres_models: vec![BfresModel {
            name: "test_model".to_string(),
            source_id: 0,
            meshes: vec![bfres_mesh],
        }],
    };
    let covered = bntx_indices_covered_by_emitters(&ptcl);
    assert!(covered.contains(&1));
    assert_eq!(covered, vec![0, 1]);
    let plan = upload_textures(&ptcl, false);
    assert_eq!(plan.bntx.len(), 2);
    assert!(!matches!(plan.bntx[1], BntxSource::Missing));
}

#[test]
fn test_preservation_etmm_billboard_only_ptcl_tex_cache_from_emitters() {
    let emitter = EmitterDef {
        name: "test".to_string(),
        textures: vec![make_tex(0), make_tex(64)],
        ..Default::default()
    };
    assert_eq!(emitter.textures.len(), 2);
    let slot1 = emitter.textures.get(1);
    assert!(slot1.is_some());
    assert_eq!(slot1.unwrap().ftx_format, 0x0B01);
    assert!(emitter.textures.len() >= 2);
    let ptcl = PtclFile {
        emitter_sets: vec![EmitterSet {
            name: "set".to_string(),
            emitters: vec![emitter],
        }],
        texture_section: vec![0x80u8; 256],
        texture_section_offset: 0,
        bntx_textures: vec![make_tex(0)],
        bfres_models: vec![],
    };
    let plan = upload_textures(&ptcl, false);
    let own = &plan.emitters[0][0];
    assert!(own.secondary.is_some(), "the second texture is uploaded");
    assert!(!own.secondary_is_indirect);
}

#[test]
fn a_four_by_four_image_halves_down_to_one_texel() {
    let base: Vec<u8> = (0..64).collect();
    let levels = generate_mip_chain(&base, 4, 4, TextureFormat::Rgba8Unorm);
    assert_eq!(levels.len(), 2);
    assert_eq!((levels[0].1, levels[0].2), (2, 2));
    assert_eq!((levels[1].1, levels[1].2), (1, 1));
    // The first texel of the first level is the mean of the four in its corner.
    let mean = (base[0] as u32 + base[4] as u32 + base[16] as u32 + base[20] as u32) / 4;
    assert_eq!(levels[0].0[0] as u32, mean);
    assert!(generate_mip_chain(&base, 4, 4, TextureFormat::Rgba16Float).is_empty());
}

#[test]
fn rows_are_padded_to_the_upload_alignment() {
    let tight = vec![1u8, 2, 3, 4, 5, 6, 7, 8];
    let (padded, bpr) = pad_rows(&tight, 2, 4);
    assert_eq!(bpr, 256);
    assert_eq!(padded.len(), 512);
    assert_eq!(&padded[..4], &[1, 2, 3, 4]);
    assert_eq!(padded[4], 0);
    assert_eq!(&padded[256..260], &[5, 6, 7, 8]);
}

#[test]
fn swapping_red_and_blue_twice_changes_nothing() {
    let pixels = vec![1u8, 2, 3, 4, 5, 6, 7, 8];
    let swapped = apply_bgr_swap(&pixels);
    assert_eq!(swapped, vec![3, 2, 1, 4, 7, 6, 5, 8]);
    assert_eq!(apply_bgr_swap(&swapped), pixels);
}

#[test]
fn channels_are_picked_by_selector() {
    let pixels = vec![10u8, 20, 30, 40];
    assert_eq!(swizzle_pixels(&pixels, 2, 3, 4, 5), vec![10, 20, 30, 40]);
    assert_eq!(swizzle_pixels(&pixels, 4, 3, 2, 5), vec![30, 20, 10, 40]);
    assert_eq!(swizzle_pixels(&pixels, 0, 1, 0, 1), vec![0, 255, 0, 255]);
    assert!(!is_bgra_from_swizzle(0x0B, 0));
}

#[test]
fn a_linear_texture_is_taken_as_it_is_and_a_tiled_one_is_untiled() {
    let data: Vec<u8> = (0..=255).collect();
    assert_eq!(deswizzle_tegra(16, 4, 1, 1, 4, 1, data.clone()), data);
    // One gob of sixty-four by eight bytes is stored in another order than its rows.
    let gob: Vec<u8> = (0..512u32).map(|i| (i % 251) as u8).collect();
    let rows = deswizzle_tegra(16, 8, 1, 1, 4, 0, gob.clone());
    assert_eq!(rows.len(), gob.len());
    assert_ne!(rows, gob);
}

#[test]
fn a_texture_that_is_too_large_or_empty_is_not_untiled() {
    let data: Vec<u8> = (0..64).collect();
    assert_eq!(deswizzle_tegra(65536, 65536, 4, 4, 16, 0, data.clone()), data);
    assert_eq!(deswizzle_tegra(1 << 31, 2, 1, 1, 1, 0, data.clone()), data);
    assert_eq!(deswizzle_tegra(64, 8, 1, 1, 1, 0, data.clone()), data);
    assert!(deswizzle_tegra(0, 1 << 31, 1, 1, 4, 0, data).is_empty());
}

#[test]
fn a_compressed_texture_is_decoded() {
    // One BC1 block of a single colour: white, with every index on the first end.
    let block = vec![0xFFu8, 0xFF, 0xFF, 0xFF, 0, 0, 0, 0];
    let res = TextureRes {
        ftx_format: 0x1A01,
        original_format: 0x1A01,
        ftx_data_size: 8,
        original_data_size: 8,
        ..make_tex(0)
    };
    let upload = colour_texture(&res, &block, false, false).unwrap();
    assert_eq!(upload.width, 4);
    assert_eq!(upload.height, 4);
    assert_eq!(upload.format, TextureFormat::Rgba8Unorm);
    assert_eq!(upload.data, vec![255u8; 64]);
}

#[test]
fn an_uncompressed_texture_keeps_its_layout() {
    let section: Vec<u8> = (0..64).collect();
    let upload = create_texture_from_res(&make_tex(0), &section).unwrap();
    assert_eq!(upload.data, section);
    assert_eq!(native_format_for(0x02, 0x01), Some(TextureFormat::R8Unorm));
    assert!(create_texture_from_res(&make_tex(1000), &section).is_err());
}

#[test]
fn wrap_and_filter_modes_have_their_names() {
    assert_eq!(filter_mode_for(0), FilterMode::Linear);
    assert_eq!(filter_mode_for(1), FilterMode::Nearest);
    assert_ne!(address_mode_for(0), address_mode_for(1));
    assert!(matches!(
        address_mode_for(1),
        AddressMode::Repeat | AddressMode::MirrorRepeat | AddressMode::ClampToEdge
    ));
}

fn sampler(u: AddressMode, v: AddressMode, filter: FilterMode) -> TextureSampler {
    TextureSampler {
        address_u: u,
        address_v: v,
        filter,
        mip_filter: FilterMode::Linear,
    }
}

#[test]
fn every_texture_of_an_emitter_is_sampled_as_it_says() {
    let emitter = EmitterDef {
        tex_wrap_u: 1,
        tex_wrap_v: 2,
        tex_filter: 1,
        tex2_wrap_u: 2,
        tex2_wrap_v: 0,
        tex_extra_slots: [
            TexWrap { wrap_u: 0, wrap_v: 1 },
            TexWrap { wrap_u: 1, wrap_v: 2 },
            TexWrap { wrap_u: 3, wrap_v: 9 },
        ],
        ..Default::default()
    };
    let samplers = emitter_samplers(&emitter);
    let (repeat, mirror, clamp) = (
        AddressMode::Repeat,
        AddressMode::MirrorRepeat,
        AddressMode::ClampToEdge,
    );
    assert_eq!(samplers.color, sampler(mirror, clamp, FilterMode::Nearest));
    assert_eq!(samplers.secondary, sampler(clamp, repeat, FilterMode::Linear));
    assert_eq!(samplers.slot2, samplers.secondary);
    assert_eq!(samplers.tex3, sampler(repeat, mirror, FilterMode::Linear));
    assert_eq!(samplers.tex4, sampler(mirror, clamp, FilterMode::Linear));
    assert_eq!(samplers.tex5, sampler(clamp, repeat, FilterMode::Linear));
    assert_eq!(material_sampler(), sampler(clamp, clamp, FilterMode::Linear));
    assert_eq!(white_sampler().mip_filter, FilterMode::Nearest);
}

#[test]
fn a_texture_that_is_bound_by_its_index_has_the_sampler_of_its_upload() {
    let emitter = EmitterDef {
        texture_index: 1,
        tex_wrap_u: 2,
        tex_wrap_v: 2,
        tex_filter: 1,
        ..Default::default()
    };
    let mut odd = make_tex(0);
    odd.ftx_format = 0xFF01;
    let ptcl = PtclFile {
        emitter_sets: vec![EmitterSet { name: String::new(), emitters: vec![emitter] }],
        texture_section: vec![7; 64],
        texture_section_offset: 0,
        bntx_textures: vec![make_tex(0), make_tex(0), odd],
        bfres_models: vec![],
    };
    assert!(can_be_planned(&ptcl));
    let plan = upload_textures(&ptcl, false);
    let (mirror, clamp) = (AddressMode::MirrorRepeat, AddressMode::ClampToEdge);
    assert_eq!(
        bntx_sampler(&ptcl, &plan, 0),
        Some(sampler(mirror, mirror, FilterMode::Linear))
    );
    assert_eq!(
        bntx_sampler(&ptcl, &plan, 1),
        Some(sampler(clamp, clamp, FilterMode::Nearest))
    );
    assert_eq!(bntx_sampler(&ptcl, &plan, 2), None);
    let mut wide = make_tex(0);
    (wide.width, wide.height) = (u16::MAX, u16::MAX);
    let wide = PtclFile { bntx_textures: vec![wide], ..ptcl };
    assert!(!can_be_planned(&wide));
}

#[test]
fn a_mip_chain_ends_at_one_texel() {
    let levels = generate_mip_chain(&vec![8; 5 * 3 * 4], 5, 3, TextureFormat::Rgba8Unorm);
    let sizes: Vec<(u32, u32)> = levels.iter().map(|level| (level.1, level.2)).collect();
    assert_eq!(sizes, vec![(2, 1), (1, 1)]);
    assert!(levels.iter().all(|(data, w, h)| data.len() == (w * h * 4) as usize));
}
