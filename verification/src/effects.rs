//! The parts of an effect file that rendering decisions read.

use vstd::prelude::*;

use crate::texture_data::TextureRes;

verus! {

/// How an emitter's pixels combine with what is behind them.
#[derive(Clone, Copy, Debug, PartialEq, Eq, Hash, Structural)]
pub enum BlendType {
    Normal,
    Add,
    Sub,
    Screen,
    Multiply,
    /// A mode of the file that has no known meaning.
    Unknown(u32),
}

/// Which side of a quad is drawn.
#[derive(Clone, Copy, Debug, PartialEq, Eq, Structural)]
pub enum DisplaySide {
    Both,
    Front,
    Back,
    /// A side of the file that has no known meaning.
    Unknown(u32),
}

/// How a texture repeats along its two axes.
#[derive(Clone, Copy, Debug, PartialEq, Eq, Structural)]
pub struct TexWrap {
    pub wrap_u: u8,
    pub wrap_v: u8,
}

/// Which ways a texture is animated.
#[derive(Clone, Copy, Debug, PartialEq, Eq, Structural)]
pub struct TexAnim {
    pub is_scroll: bool,
    pub is_rotate: bool,
    pub is_scale: bool,
}

/// One emitter of an effect.
#[derive(Debug)]
pub struct EmitterDef {
    pub name: String,
    /// The colour texture, as an index into the file's textures.
    pub texture_index: u32,
    /// The emitter's textures in sampler order.
    pub textures: Vec<TextureRes>,
    pub tex_wrap_u: u8,
    pub tex_wrap_v: u8,
    pub tex_filter: u8,
    pub tex2_wrap_u: u8,
    pub tex2_wrap_v: u8,
    /// Whether the second texture is a distortion map.
    pub is_indirect_slot1: bool,
    /// How textures three to five repeat.
    pub tex_extra_slots: [TexWrap; 3],
    /// How textures three to five are animated.
    pub tex_anims_extra: Vec<TexAnim>,
    pub blend_type: BlendType,
    pub display_side: DisplaySide,
    /// The registry key of the emitter's shader; zero where the file gives none.
    pub shader_key: u64,
    /// The shader's index in the effect's shader references; negative where there is none.
    pub shader_index: i32,
}

impl Default for EmitterDef {
    fn default() -> (r: EmitterDef)
        ensures
            r.name@.len() == 0,
            r.texture_index == 0,
            r.textures@.len() == 0,
            r.tex_wrap_u == 0,
            r.tex_wrap_v == 0,
            r.tex_filter == 0,
            r.tex2_wrap_u == 0,
            r.tex2_wrap_v == 0,
            forall|k: int|
                0 <= k < 3 ==> (#[trigger] r.tex_extra_slots@[k]).wrap_u == 0
                    && r.tex_extra_slots@[k].wrap_v == 0,
            r.tex_anims_extra@.len() == 0,
            !r.is_indirect_slot1,
            r.blend_type == BlendType::Normal,
            r.display_side == DisplaySide::Both,
            r.shader_key == 0,
            r.shader_index == 0,
    {
        let wrap = TexWrap { wrap_u: 0, wrap_v: 0 };
        EmitterDef {
            name: String::new(),
            texture_index: 0,
            textures: Vec::new(),
            tex_wrap_u: 0,
            tex_wrap_v: 0,
            tex_filter: 0,
            tex2_wrap_u: 0,
            tex2_wrap_v: 0,
            is_indirect_slot1: false,
            tex_extra_slots: [wrap, wrap, wrap],
            tex_anims_extra: Vec::new(),
            blend_type: BlendType::Normal,
            display_side: DisplaySide::Both,
            shader_key: 0,
            shader_index: 0,
        }
    }
}

/// The emitters that play together.
#[derive(Debug)]
pub struct EmitterSet {
    pub name: String,
    pub emitters: Vec<EmitterDef>,
}

/// The textures of one mesh of a model, each an index into the file's textures; `u32::MAX` where
/// the mesh has none.
#[derive(Clone, Copy, Debug, PartialEq, Eq, Structural)]
pub struct BfresMesh {
    pub texture_index: u32,
    pub emissive_tex_index: u32,
    pub prm_tex_index: u32,
}

/// A model of an effect file.
#[derive(Debug)]
pub struct BfresModel {
    pub name: String,
    pub source_id: u32,
    pub meshes: Vec<BfresMesh>,
}

/// An effect file.
#[derive(Debug)]
pub struct PtclFile {
    pub emitter_sets: Vec<EmitterSet>,
    pub texture_section: Vec<u8>,
    pub texture_section_offset: u64,
    pub bntx_textures: Vec<TextureRes>,
    pub bfres_models: Vec<BfresModel>,
}

} // verus!
