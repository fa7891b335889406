//! Shader sets of effect files and the pipelines that are built for them.

use std::collections::HashMap;
use vstd::prelude::*;
use vstd::string::*;

use crate::effects::{BlendType, EmitterDef};
use crate::mipmaps::TextureFormat;
use crate::particle_frame::{needs_group2, PipelineNeeds};
use crate::text::{
    chars_of, concat, dec, dec_text, has_prefix, hex, hex_text, join, join_texts, list_has,
    starts_with, string_between, texts,
};

verus! {

/// Depth format of the offscreen passes.
pub fn particle_depth_format() -> (r: TextureFormat)
    ensures
        r == TextureFormat::Depth32Float,
{
    TextureFormat::Depth32Float
}

/// Format of the depth copy that soft particles sample.
pub fn soft_particle_depth_sample_format() -> (r: TextureFormat)
    ensures
        r == TextureFormat::R32Float,
{
    TextureFormat::R32Float
}

/// The least number of textures that a shader stage may sample.
pub const MIN_SAMPLED_TEXTURES: u32 = 32;

/// The number of sampled textures to ask a device for: the adapter's own limit, at least
/// thirty-two.
pub fn wgpu_device_limits(adapter_limit: u32) -> (r: u32)
    ensures
        r == if adapter_limit > MIN_SAMPLED_TEXTURES {
            adapter_limit
        } else {
            MIN_SAMPLED_TEXTURES
        },
{
    if adapter_limit > MIN_SAMPLED_TEXTURES {
        adapter_limit
    } else {
        MIN_SAMPLED_TEXTURES
    }
}

/// Depth state of a particle pipeline: a test that lets nearer and equal fragments pass.
#[derive(Clone, Copy, Debug, PartialEq, Eq, Structural)]
pub struct DepthState {
    pub format: TextureFormat,
    pub write: bool,
}

/// Depth test without write, for blended billboards.
pub fn particle_depth_stencil_state() -> (r: DepthState)
    ensures
        r == (DepthState { format: TextureFormat::Depth32Float, write: false }),
{
    DepthState { format: particle_depth_format(), write: false }
}

/// Depth test and write, for opaque cores.
pub fn particle_depth_stencil_state_write() -> (r: DepthState)
    ensures
        r == (DepthState { format: TextureFormat::Depth32Float, write: true }),
{
    DepthState { format: particle_depth_format(), write: true }
}

/// What a pass begins its depth attachment with.
#[derive(Clone, Copy, Debug, PartialEq, Eq, Structural)]
pub enum DepthLoad {
    /// The depth that is already there.
    Keep,
    /// The farthest depth.
    ClearFar,
}

/// The depth attachment of an offscreen pass keeps mesh depth that was copied into it, and is
/// cleared otherwise.
pub fn particle_path_depth_attachment(mesh_depth_primed: bool) -> (r: DepthLoad)
    ensures
        r == if mesh_depth_primed {
            DepthLoad::Keep
        } else {
            DepthLoad::ClearFar
        },
{
    if mesh_depth_primed {
        DepthLoad::Keep
    } else {
        DepthLoad::ClearFar
    }
}

/// A weight in a blend.
#[derive(Clone, Copy, Debug, PartialEq, Eq, Structural)]
pub enum BlendFactor {
    Zero,
    One,
    Src,
    OneMinusSrc,
    SrcAlpha,
    OneMinusSrcAlpha,
}

/// How the weighted source and destination combine.
#[derive(Clone, Copy, Debug, PartialEq, Eq, Structural)]
pub enum BlendOperation {
    Add,
    ReverseSubtract,
}

/// The blend of the colour channels or of alpha.
#[derive(Clone, Copy, Debug, PartialEq, Eq, Structural)]
pub struct BlendComponent {
    pub src_factor: BlendFactor,
    pub dst_factor: BlendFactor,
    pub operation: BlendOperation,
}

/// The blend of a pipeline.
#[derive(Clone, Copy, Debug, PartialEq, Eq, Structural)]
pub struct BlendState {
    pub color: BlendComponent,
    pub alpha: BlendComponent,
}

/// A blend component of two weights.
pub open spec fn component(
    src_factor: BlendFactor,
    dst_factor: BlendFactor,
    operation: BlendOperation,
) -> BlendComponent {
    BlendComponent { src_factor, dst_factor, operation }
}

/// The blend of a blend type. Additive light leaves alpha alone so that it does not hide what is
/// behind it; a type with no known meaning blends like Normal.
pub open spec fn blend_state(blend: BlendType) -> BlendState {
    let over = component(BlendFactor::One, BlendFactor::OneMinusSrcAlpha, BlendOperation::Add);
    let subtract = component(BlendFactor::One, BlendFactor::One, BlendOperation::ReverseSubtract);
    match blend {
        BlendType::Add => BlendState {
            color: component(BlendFactor::One, BlendFactor::One, BlendOperation::Add),
            alpha: component(BlendFactor::Zero, BlendFactor::One, BlendOperation::Add),
        },
        BlendType::Sub => BlendState { color: subtract, alpha: subtract },
        BlendType::Screen => BlendState {
            color: component(BlendFactor::One, BlendFactor::OneMinusSrc, BlendOperation::Add),
            alpha: over,
        },
        BlendType::Multiply => BlendState {
            color: component(BlendFactor::Zero, BlendFactor::Src, BlendOperation::Add),
            alpha: component(BlendFactor::Zero, BlendFactor::SrcAlpha, BlendOperation::Add),
        },
        BlendType::Normal => BlendState { color: over, alpha: over },
        BlendType::Unknown(_) => BlendState { color: over, alpha: over },
    }
}

/// The blend of a blend type.
pub fn blend_state_for(blend: BlendType) -> (r: BlendState)
    ensures
        r == blend_state(blend),
{
    let over = BlendComponent {
        src_factor: BlendFactor::One,
        dst_factor: BlendFactor::OneMinusSrcAlpha,
        operation: BlendOperation::Add,
    };
    let subtract = BlendComponent {
        src_factor: BlendFactor::One,
        dst_factor: BlendFactor::One,
        operation: BlendOperation::ReverseSubtract,
    };
    match blend {
        BlendType::Add => BlendState {
            color: BlendComponent {
                src_factor: BlendFactor::One,
                dst_factor: BlendFactor::One,
                operation: BlendOperation::Add,
            },
            alpha: BlendComponent {
                src_factor: BlendFactor::Zero,
                dst_factor: BlendFactor::One,
                operation: BlendOperation::Add,
            },
        },
        BlendType::Sub => BlendState { color: subtract, alpha: subtract },
        BlendType::Screen => BlendState {
            color: BlendComponent {
                src_factor: BlendFactor::One,
                dst_factor: BlendFactor::OneMinusSrc,
                operation: BlendOperation::Add,
            },
            alpha: over,
        },
        BlendType::Multiply => BlendState {
            color: BlendComponent {
                src_factor: BlendFactor::Zero,
                dst_factor: BlendFactor::Src,
                operation: BlendOperation::Add,
            },
            alpha: BlendComponent {
                src_factor: BlendFactor::Zero,
                dst_factor: BlendFactor::SrcAlpha,
                operation: BlendOperation::Add,
            },
        },
        BlendType::Normal => BlendState { color: over, alpha: over },
        BlendType::Unknown(_) => BlendState { color: over, alpha: over },
    }
}

/// How the composite puts an offscreen target onto the surface.
#[derive(Clone, Copy, Debug, PartialEq, Eq, Structural)]
pub enum BlitMode {
    /// Replace texels that hold anything; the formats agree.
    Replace,
    /// Tonemap and blend over the scene; the target holds a wider range than the surface.
    Tonemap,
}

/// How the colour targets of a renderer are composited.
pub fn blit_mode(surface_format: TextureFormat, particle_format: TextureFormat) -> (r: BlitMode)
    ensures
        r == if particle_format != surface_format {
            BlitMode::Tonemap
        } else {
            BlitMode::Replace
        },
{
    if particle_format != surface_format {
        BlitMode::Tonemap
    } else {
        BlitMode::Replace
    }
}

/// The blend of a composite; none where texels are replaced.
pub fn blit_blend(mode: BlitMode) -> (r: Option<BlendState>)
    ensures
        r == match mode {
            BlitMode::Replace => None,
            BlitMode::Tonemap => Some(blend_state(BlendType::Normal)),
        },
{
    match mode {
        BlitMode::Replace => None,
        BlitMode::Tonemap => Some(blend_state_for(BlendType::Normal)),
    }
}

/// How vertices are joined.
#[derive(Clone, Copy, Debug, PartialEq, Eq, Structural)]
pub enum Topology {
    TriangleList,
    TriangleStrip,
}

/// What is fixed of a pipeline: its primitives, its colour target and its depth state.
#[derive(Clone, Copy, Debug, PartialEq, Eq, Structural)]
pub struct FixedPipeline {
    pub topology: Topology,
    pub format: TextureFormat,
    /// None where the pixels of the target are replaced.
    pub blend: Option<BlendState>,
    /// None where depth is neither tested nor written.
    pub depth: Option<DepthState>,
}

/// The blend of trails: light is added by its alpha, and alpha is laid over.
pub open spec fn trail_blend_state() -> BlendState {
    BlendState {
        color: component(BlendFactor::SrcAlpha, BlendFactor::One, BlendOperation::Add),
        alpha: component(BlendFactor::One, BlendFactor::OneMinusSrcAlpha, BlendOperation::Add),
    }
}

/// The pipeline of particles of a blend type, and whether its fragment stage is the one of the passes
/// that write depth. Depth is tested only in a pass with a depth attachment.
pub fn particle_pipeline(
    particle_format: TextureFormat,
    blend: BlendType,
    use_depth: bool,
    depth_write: bool,
) -> (r: (FixedPipeline, bool))
    ensures
        r.0.topology == Topology::TriangleList,
        r.0.format == particle_format,
        r.0.blend == Some(blend_state(blend)),
        r.0.depth == if use_depth {
            Some(DepthState { format: TextureFormat::Depth32Float, write: depth_write })
        } else {
            None
        },
        r.1 == depth_write,
{
    let depth = if !use_depth {
        None
    } else if depth_write {
        Some(particle_depth_stencil_state_write())
    } else {
        Some(particle_depth_stencil_state())
    };
    let fixed = FixedPipeline {
        topology: Topology::TriangleList,
        format: particle_format,
        blend: Some(blend_state_for(blend)),
        depth,
    };
    (fixed, depth_write)
}

/// The pipeline of trails in a target of a format. In a pass with a depth attachment it tests depth
/// without writing it.
pub fn trail_pipeline(particle_format: TextureFormat, has_depth: bool) -> (r: FixedPipeline)
    ensures
        r.topology == Topology::TriangleStrip,
        r.format == particle_format,
        r.blend == Some(trail_blend_state()),
        r.depth == if has_depth {
            Some(DepthState { format: TextureFormat::Depth32Float, write: false })
        } else {
            None
        },
{
    let blend = BlendState {
        color: BlendComponent {
            src_factor: BlendFactor::SrcAlpha,
            dst_factor: BlendFactor::One,
            operation: BlendOperation::Add,
        },
        alpha: BlendComponent {
            src_factor: BlendFactor::One,
            dst_factor: BlendFactor::OneMinusSrcAlpha,
            operation: BlendOperation::Add,
        },
    };
    FixedPipeline {
        topology: Topology::TriangleStrip,
        format: particle_format,
        blend: Some(blend),
        depth: if has_depth {
            Some(particle_depth_stencil_state())
        } else {
            None
        },
    }
}

/// The pipeline that puts a colour target onto the surface.
pub fn blit_pipeline(surface_format: TextureFormat, particle_format: TextureFormat) -> (r:
    FixedPipeline)
    ensures
        r.topology == Topology::TriangleList,
        r.format == surface_format,
        r.blend == if particle_format != surface_format {
            Some(blend_state(BlendType::Normal))
        } else {
            None
        },
        r.depth is None,
{
    FixedPipeline {
        topology: Topology::TriangleList,
        format: surface_format,
        blend: blit_blend(blit_mode(surface_format, particle_format)),
        depth: None,
    }
}

/// The pipeline that takes a subtractive target off the surface.
pub fn sub_blit_pipeline(surface_format: TextureFormat) -> (r: FixedPipeline)
    ensures
        r.topology == Topology::TriangleList,
        r.format == surface_format,
        r.blend == Some(blend_state(BlendType::Sub)),
        r.depth is None,
{
    FixedPipeline {
        topology: Topology::TriangleList,
        format: surface_format,
        blend: Some(blend_state_for(BlendType::Sub)),
        depth: None,
    }
}

/// How many vectors of four floats a particle vertex has.
pub const VERTEX_ATTRIBUTES: u32 = 13;

/// The byte offset and shader location of each attribute of a particle vertex.
pub open spec fn vertex_attributes() -> Seq<(u64, u32)> {
    Seq::new(13, |k: int| ((16 * k) as u64, k as u32))
}

/// The attributes of a particle vertex, and its size in bytes.
pub fn bnsh_vertex_layout() -> (r: (Vec<(u64, u32)>, u64))
    ensures
        r.0@ == vertex_attributes(),
        r.1 == 16 * r.0@.len(),
        r.1 == 208,
{
    let mut attributes: Vec<(u64, u32)> = Vec::new();
    let mut k: u32 = 0;
    while k < VERTEX_ATTRIBUTES
        invariant
            k <= VERTEX_ATTRIBUTES,
            attributes@ == vertex_attributes().take(k as int),
        decreases VERTEX_ATTRIBUTES - k,
    {
        attributes.push((16 * k as u64, k));
        k = k + 1;
        assert(attributes@ =~= vertex_attributes().take(k as int));
    }
    assert(attributes@ =~= vertex_attributes());
    (attributes, 208)
}

/// What a shader descriptor binds.
#[derive(Clone, Copy, Debug, PartialEq, Eq, Structural)]
pub enum BindingClass {
    Texture,
    Sampler,
    Storage,
    Uniform,
}

/// One binding that a shader declares.
#[derive(Debug)]
pub struct DescriptorInfo {
    pub set: u32,
    pub binding: u32,
    pub class: BindingClass,
    pub name: String,
}

/// Which stages see a binding.
#[derive(Clone, Copy, Debug, PartialEq, Eq, Structural)]
pub enum Visibility {
    Fragment,
    VertexAndFragment,
}

/// What stands at a binding of a layout.
#[derive(Clone, Copy, Debug, PartialEq, Eq, Structural)]
pub enum BindingType {
    Texture { filterable: bool },
    Sampler,
    Uniform { dynamic_offset: bool, min_size: Option<u64> },
    ReadStorage,
}

/// One entry of a bind group layout.
#[derive(Clone, Copy, Debug, PartialEq, Eq, Structural)]
pub struct LayoutEntry {
    pub binding: u32,
    pub visibility: Visibility,
    pub ty: BindingType,
}

/// The layout entry of a shader's own binding.
pub open spec fn native_entry(d: DescriptorInfo) -> LayoutEntry {
    match d.class {
        BindingClass::Texture => LayoutEntry {
            binding: d.binding,
            visibility: Visibility::Fragment,
            ty: BindingType::Texture { filterable: true },
        },
        BindingClass::Sampler => LayoutEntry {
            binding: d.binding,
            visibility: Visibility::Fragment,
            ty: BindingType::Sampler,
        },
        BindingClass::Storage => LayoutEntry {
            binding: d.binding,
            visibility: Visibility::VertexAndFragment,
            ty: BindingType::ReadStorage,
        },
        BindingClass::Uniform => LayoutEntry {
            binding: d.binding,
            visibility: Visibility::VertexAndFragment,
            ty: BindingType::Uniform { dynamic_offset: false, min_size: None },
        },
    }
}

/// The layout entries of a shader's own bindings in one set.
pub open spec fn native_entries(descriptors: Seq<DescriptorInfo>, set: u32) -> Seq<LayoutEntry>
    decreases descriptors.len(),
{
    if descriptors.len() == 0 {
        Seq::empty()
    } else {
        let before = native_entries(descriptors.drop_last(), set);
        if descriptors.last().set == set {
            before.push(native_entry(descriptors.last()))
        } else {
            before
        }
    }
}

fn native_entry_of(d: &DescriptorInfo) -> (r: LayoutEntry)
    ensures
        r == native_entry(*d),
{
    let (visibility, ty) = match d.class {
        BindingClass::Texture => (Visibility::Fragment, BindingType::Texture { filterable: true }),
        BindingClass::Sampler => (Visibility::Fragment, BindingType::Sampler),
        BindingClass::Storage => (Visibility::VertexAndFragment, BindingType::ReadStorage),
        BindingClass::Uniform => (
            Visibility::VertexAndFragment,
            BindingType::Uniform { dynamic_offset: false, min_size: None },
        ),
    };
    LayoutEntry { binding: d.binding, visibility, ty }
}

/// A group of a pipeline layout.
#[derive(Clone, Copy, Debug, PartialEq, Eq, Structural)]
pub enum GroupLayout {
    /// The shader's own first set.
    Native,
    EmitterTextures,
    ExtraTextures,
    /// An empty group that keeps the place before the soft particle group.
    Placeholder,
    SoftParticle,
}

/// The groups of a shader's pipeline layout.
pub open spec fn pipeline_groups(has_native: bool, needs: PipelineNeeds) -> Seq<GroupLayout> {
    (if has_native {
        seq![GroupLayout::Native]
    } else {
        seq![]
    }) + seq![GroupLayout::EmitterTextures] + (if needs_group2(needs) {
        seq![GroupLayout::ExtraTextures]
    } else if needs.soft_particle {
        seq![GroupLayout::Placeholder]
    } else {
        seq![]
    }) + (if needs.soft_particle {
        seq![GroupLayout::SoftParticle]
    } else {
        seq![]
    })
}

/// What a shader's pipelines are built from.
#[derive(Debug)]
pub struct BnshPipelineState {
    /// Entries of the shader's own first set; empty where it has none.
    pub native_entries: Vec<LayoutEntry>,
    /// The groups of the pipeline layout, in set order.
    pub groups: Vec<GroupLayout>,
    pub needs: PipelineNeeds,
    /// The blends that pipelines were made for: without depth, with depth test, with depth write.
    pub plain: Vec<BlendType>,
    pub depth: Vec<BlendType>,
    pub depth_write: Vec<BlendType>,
}

/// Which pipelines of a shader a draw takes.
#[derive(Clone, Copy, Debug, PartialEq, Eq, Structural)]
pub enum PipelineVariant {
    Plain,
    Depth,
    DepthWrite,
}

/// The variant of a depth configuration: without a depth attachment nothing is written.
pub open spec fn pipeline_variant(use_depth: bool, depth_write: bool) -> PipelineVariant {
    if !use_depth {
        PipelineVariant::Plain
    } else if depth_write {
        PipelineVariant::DepthWrite
    } else {
        PipelineVariant::Depth
    }
}

impl BnshPipelineState {
    /// The blends of a variant that pipelines were made for.
    pub open spec fn made(&self, variant: PipelineVariant) -> Seq<BlendType> {
        match variant {
            PipelineVariant::Plain => self.plain@,
            PipelineVariant::Depth => self.depth@,
            PipelineVariant::DepthWrite => self.depth_write@,
        }
    }

    /// Plans the pipeline layout of a shader. Only the first of its own sets is kept: the groups
    /// behind it belong to the renderer. The pipeline for the Normal blend is made at once.
    pub fn new(descriptors: &Vec<DescriptorInfo>, needs: PipelineNeeds) -> (r: BnshPipelineState)
        ensures
            r.native_entries@ == native_entries(descriptors@, 0),
            r.groups@ == pipeline_groups(native_entries(descriptors@, 0).len() > 0, needs),
            r.needs == needs,
            r.plain@ == seq![BlendType::Normal],
            r.depth@.len() == 0,
            r.depth_write@.len() == 0,
    {
        let mut entries: Vec<LayoutEntry> = Vec::new();
        let mut i: usize = 0;
        assert(descriptors@.take(0) =~= Seq::empty());
        while i < descriptors.len()
            invariant
                i <= descriptors.len(),
                entries@ == native_entries(descriptors@.take(i as int), 0),
            decreases descriptors.len() - i,
        {
            assert(descriptors@.take(i + 1).drop_last() =~= descriptors@.take(i as int));
            if descriptors[i].set == 0 {
                entries.push(native_entry_of(&descriptors[i]));
            }
            i = i + 1;
        }
        assert(descriptors@.take(descriptors@.len() as int) =~= descriptors@);
        let mut groups: Vec<GroupLayout> = Vec::new();
        if entries.len() > 0 {
            groups.push(GroupLayout::Native);
        }
        groups.push(GroupLayout::EmitterTextures);
        if needs.group2() {
            groups.push(GroupLayout::ExtraTextures);
        } else if needs.soft_particle {
            groups.push(GroupLayout::Placeholder);
        }
        if needs.soft_particle {
            groups.push(GroupLayout::SoftParticle);
        }
        assert(groups@ =~= pipeline_groups(entries@.len() > 0, needs));
        let plain = vec![BlendType::Normal];
        assert(plain@ =~= seq![BlendType::Normal]);
        BnshPipelineState {
            native_entries: entries,
            groups,
            needs,
            plain,
            depth: Vec::new(),
            depth_write: Vec::new(),
        }
    }

    /// Chooses the pipeline of a blend: its variant, and whether it has yet to be made.
    pub fn pipeline_for_blend(
        &mut self,
        blend: BlendType,
        use_depth: bool,
        depth_write: bool,
    ) -> (r: (PipelineVariant, bool))
        ensures
            r.0 == pipeline_variant(use_depth, depth_write),
            r.1 == !old(self).made(r.0).contains(blend),
            final(self).made(r.0) == if r.1 {
                old(self).made(r.0).push(blend)
            } else {
                old(self).made(r.0)
            },
            forall|other: PipelineVariant|
                other != r.0 ==> final(self).made(other) == old(self).made(other),
            final(self).native_entries == old(self).native_entries,
            final(self).groups == old(self).groups,
            final(self).needs == old(self).needs,
    {
        if !use_depth {
            let known = blend_listed(&self.plain, blend);
            if !known {
                self.plain.push(blend);
            }
            (PipelineVariant::Plain, !known)
        } else if depth_write {
            let known = blend_listed(&self.depth_write, blend);
            if !known {
                self.depth_write.push(blend);
            }
            (PipelineVariant::DepthWrite, !known)
        } else {
            let known = blend_listed(&self.depth, blend);
            if !known {
                self.depth.push(blend);
            }
            (PipelineVariant::Depth, !known)
        }
    }
}

fn blend_listed(blends: &Vec<BlendType>, blend: BlendType) -> (r: bool)
    ensures
        r == blends@.contains(blend),
{
    let mut i: usize = 0;
    while i < blends.len()
        invariant
            i <= blends.len(),
            forall|j: int| 0 <= j < i ==> blends@[j] != blend,
        decreases blends.len() - i,
    {
        if blends[i] == blend {
            return true;
        }
        i = i + 1;
    }
    false
}

/// A texture pair of a layout: the texture at `binding` and its sampler behind it.
pub open spec fn texture_pair(binding: u32) -> Seq<LayoutEntry> {
    seq![
        LayoutEntry {
            binding,
            visibility: Visibility::Fragment,
            ty: BindingType::Texture { filterable: true },
        },
        LayoutEntry {
            binding: (binding + 1) as u32,
            visibility: Visibility::Fragment,
            ty: BindingType::Sampler,
        },
    ]
}

/// A uniform of a layout.
pub open spec fn uniform_entry(binding: u32, dynamic_offset: bool, min_size: Option<u64>) -> Seq<
    LayoutEntry,
> {
    seq![
        LayoutEntry {
            binding,
            visibility: Visibility::Fragment,
            ty: BindingType::Uniform { dynamic_offset, min_size },
        },
    ]
}

fn push_pair(entries: &mut Vec<LayoutEntry>, binding: u32)
    requires
        binding < u32::MAX,
    ensures
        final(entries)@ == old(entries)@ + texture_pair(binding),
{
    let ghost was = entries@;
    entries.push(
        LayoutEntry {
            binding,
            visibility: Visibility::Fragment,
            ty: BindingType::Texture { filterable: true },
        },
    );
    entries.push(
        LayoutEntry {
            binding: binding + 1,
            visibility: Visibility::Fragment,
            ty: BindingType::Sampler,
        },
    );
    assert(entries@ =~= was + texture_pair(binding));
}

fn push_uniform(
    entries: &mut Vec<LayoutEntry>,
    binding: u32,
    dynamic_offset: bool,
    min_size: Option<u64>,
)
    ensures
        final(entries)@ == old(entries)@ + uniform_entry(binding, dynamic_offset, min_size),
{
    let ghost was = entries@;
    entries.push(
        LayoutEntry {
            binding,
            visibility: Visibility::Fragment,
            ty: BindingType::Uniform { dynamic_offset, min_size },
        },
    );
    assert(entries@ =~= was + uniform_entry(binding, dynamic_offset, min_size));
}

/// The layout of the emitter textures: colour, alpha mask and distortion map, the distortion
/// parameters at a dynamic offset, and the third texture.
pub fn emitter_tex_bind_group_layout_entries(indirect_params_size: u64) -> (r: Vec<LayoutEntry>)
    ensures
        r@ == texture_pair(0) + texture_pair(2) + texture_pair(4) + uniform_entry(
            6,
            true,
            Some(indirect_params_size),
        ) + texture_pair(7),
{
    let mut r: Vec<LayoutEntry> = Vec::new();
    push_pair(&mut r, 0);
    push_pair(&mut r, 2);
    push_pair(&mut r, 4);
    push_uniform(&mut r, 6, true, Some(indirect_params_size));
    push_pair(&mut r, 7);
    assert(r@ =~= texture_pair(0) + texture_pair(2) + texture_pair(4) + uniform_entry(
        6,
        true,
        Some(indirect_params_size),
    ) + texture_pair(7));
    r
}

/// Bytes of the texture blend uniform.
pub const EXTRA_TEX_BLEND_UNIFORM_SIZE: u64 = 96;

/// Bytes of the soft particle uniform.
pub const SOFT_PARTICLE_UNIFORM_SIZE: u64 = 32;

/// The layout of textures three to five with the blend and alpha uniforms.
pub fn extra_tex345_layout_entries(alpha_mod_size: u64) -> (r: Vec<LayoutEntry>)
    ensures
        r@ == texture_pair(0) + texture_pair(2) + texture_pair(4) + uniform_entry(
            6,
            false,
            Some(EXTRA_TEX_BLEND_UNIFORM_SIZE),
        ) + uniform_entry(7, false, Some(alpha_mod_size)),
{
    let mut r: Vec<LayoutEntry> = Vec::new();
    push_pair(&mut r, 0);
    push_pair(&mut r, 2);
    push_pair(&mut r, 4);
    push_uniform(&mut r, 6, false, Some(EXTRA_TEX_BLEND_UNIFORM_SIZE));
    push_uniform(&mut r, 7, false, Some(alpha_mod_size));
    assert(r@ =~= texture_pair(0) + texture_pair(2) + texture_pair(4) + uniform_entry(
        6,
        false,
        Some(EXTRA_TEX_BLEND_UNIFORM_SIZE),
    ) + uniform_entry(7, false, Some(alpha_mod_size)));
    r
}

/// The layout of the soft particle group: scene depth, which cannot be filtered, and its uniform.
pub fn soft_particle_layout_entries() -> (r: Vec<LayoutEntry>)
    ensures
        r@ == seq![
            LayoutEntry {
                binding: 0,
                visibility: Visibility::Fragment,
                ty: BindingType::Texture { filterable: false },
            },
        ] + uniform_entry(1, false, Some(SOFT_PARTICLE_UNIFORM_SIZE)),
{
    let mut r: Vec<LayoutEntry> = Vec::new();
    r.push(
        LayoutEntry {
            binding: 0,
            visibility: Visibility::Fragment,
            ty: BindingType::Texture { filterable: false },
        },
    );
    let ghost was = r@;
    push_uniform(&mut r, 1, false, Some(SOFT_PARTICLE_UNIFORM_SIZE));
    assert(was =~= seq![
        LayoutEntry {
            binding: 0,
            visibility: Visibility::Fragment,
            ty: BindingType::Texture { filterable: false },
        },
    ]);
    r
}

/// The layout of the material textures: colour, emissive and surface parameters, and their flags.
pub fn material_layout_entries() -> (r: Vec<LayoutEntry>)
    ensures
        r@ == texture_pair(0) + texture_pair(2) + texture_pair(4) + uniform_entry(6, false, None),
{
    let mut r: Vec<LayoutEntry> = Vec::new();
    push_pair(&mut r, 0);
    push_pair(&mut r, 2);
    push_pair(&mut r, 4);
    push_uniform(&mut r, 6, false, None);
    assert(r@ =~= texture_pair(0) + texture_pair(2) + texture_pair(4) + uniform_entry(
        6,
        false,
        None,
    ));
    r
}

/// The layout of an emissive texture.
pub fn emissive_layout_entries() -> (r: Vec<LayoutEntry>)
    ensures
        r@ == texture_pair(0),
{
    let mut r: Vec<LayoutEntry> = Vec::new();
    push_pair(&mut r, 0);
    assert(r@ =~= texture_pair(0));
    r
}

/// Which of the emitter's first three textures a shader's binding reads.
#[derive(Clone, Copy, Debug, PartialEq, Eq, Structural)]
pub struct TextureBinding {
    pub set: u32,
    pub binding: u32,
    pub slot: u32,
}

/// What a binding of a shader's own set is filled with.
#[derive(Clone, Copy, Debug, PartialEq, Eq, Structural)]
pub enum BindResource {
    /// The emitter's texture of this slot.
    Texture(u32),
    /// The sampler of the emitter's texture of this slot.
    Sampler(u32),
    Camera,
    /// The storage buffer of the binding.
    Storage,
}

/// The texture slot of a binding: what reflection gave for it, at most two; the colour texture
/// where it gave nothing.
pub open spec fn bound_slot(map: Seq<TextureBinding>, set: u32, binding: u32) -> u32
    decreases map.len(),
{
    if map.len() == 0 {
        0
    } else if map[0].set == set && map[0].binding == binding {
        if map[0].slot < 2 {
            map[0].slot
        } else {
            2
        }
    } else {
        bound_slot(map.skip(1), set, binding)
    }
}

/// What a descriptor is filled with.
pub open spec fn bound_resource(map: Seq<TextureBinding>, d: DescriptorInfo) -> (u32, BindResource) {
    (
        d.binding,
        match d.class {
            BindingClass::Texture => BindResource::Texture(bound_slot(map, d.set, d.binding)),
            BindingClass::Sampler => BindResource::Sampler(bound_slot(map, d.set, d.binding)),
            BindingClass::Uniform => BindResource::Camera,
            BindingClass::Storage => BindResource::Storage,
        },
    )
}

/// What the descriptors of one set are filled with.
pub open spec fn set_resources(
    descriptors: Seq<DescriptorInfo>,
    map: Seq<TextureBinding>,
    set: u32,
) -> Seq<(u32, BindResource)>
    decreases descriptors.len(),
{
    if descriptors.len() == 0 {
        Seq::empty()
    } else {
        let before = set_resources(descriptors.drop_last(), map, set);
        if descriptors.last().set == set {
            before.push(bound_resource(map, descriptors.last()))
        } else {
            before
        }
    }
}

/// The largest set number of the descriptors; zero where there are none.
pub open spec fn largest_set(descriptors: Seq<DescriptorInfo>) -> int
    decreases descriptors.len(),
{
    if descriptors.len() == 0 {
        0
    } else {
        let before = largest_set(descriptors.drop_last());
        if descriptors.last().set > before {
            descriptors.last().set as int
        } else {
            before
        }
    }
}

fn slot_of(map: &Vec<TextureBinding>, set: u32, binding: u32) -> (r: u32)
    ensures
        r == bound_slot(map@, set, binding),
        r <= 2,
{
    let mut i: usize = 0;
    assert(map@.skip(0) =~= map@);
    while i < map.len()
        invariant
            i <= map.len(),
            bound_slot(map@, set, binding) == bound_slot(map@.skip(i as int), set, binding),
        decreases map.len() - i,
    {
        let entry = map[i];
        assert(map@.skip(i as int)[0] == entry);
        assert(map@.skip(i as int).skip(1) =~= map@.skip(i + 1));
        if entry.set == set && entry.binding == binding {
            return if entry.slot < 2 {
                entry.slot
            } else {
                2
            };
        }
        i = i + 1;
    }
    0
}

/// Plans the bind groups of a shader's own sets: one for each set up to the largest that is
/// declared, as far as the pipeline has layouts for them.
pub fn build_bnsh_frame_bind_groups(
    descriptors: &Vec<DescriptorInfo>,
    slot_map: &Vec<TextureBinding>,
    layouts: usize,
) -> (r: Vec<Vec<(u32, BindResource)>>)
    ensures
        r@.len() == if largest_set(descriptors@) + 1 < layouts {
            largest_set(descriptors@) + 1
        } else {
            layouts as int
        },
        forall|s: int|
            0 <= s < r@.len() ==> (#[trigger] r@[s])@ == set_resources(
                descriptors@,
                slot_map@,
                s as u32,
            ),
{
    let mut largest: u32 = 0;
    let mut i: usize = 0;
    assert(descriptors@.take(0) =~= Seq::empty());
    while i < descriptors.len()
        invariant
            i <= descriptors.len(),
            largest == largest_set(descriptors@.take(i as int)),
        decreases descriptors.len() - i,
    {
        assert(descriptors@.take(i + 1).drop_last() =~= descriptors@.take(i as int));
        if descriptors[i].set > largest {
            largest = descriptors[i].set;
        }
        i = i + 1;
    }
    assert(descriptors@.take(descriptors@.len() as int) =~= descriptors@);
    let mut r: Vec<Vec<(u32, BindResource)>> = Vec::new();
    let mut set: u64 = 0;
    while set <= largest as u64 && r.len() < layouts
        invariant
            set <= largest + 1,
            r@.len() == set,
            r@.len() <= layouts,
            forall|s: int|
                0 <= s < r@.len() ==> (#[trigger] r@[s])@ == set_resources(
                    descriptors@,
                    slot_map@,
                    s as u32,
                ),
        decreases largest + 1 - set,
    {
        let mut entries: Vec<(u32, BindResource)> = Vec::new();
        let mut k: usize = 0;
        while k < descriptors.len()
            invariant
                k <= descriptors.len(),
                set <= largest,
                entries@ == set_resources(descriptors@.take(k as int), slot_map@, set as u32),
            decreases descriptors.len() - k,
        {
            assert(descriptors@.take(k + 1).drop_last() =~= descriptors@.take(k as int));
            let d = &descriptors[k];
            if d.set == set as u32 {
                let resource = match d.class {
                    BindingClass::Texture => BindResource::Texture(
                        slot_of(slot_map, d.set, d.binding),
                    ),
                    BindingClass::Sampler => BindResource::Sampler(
                        slot_of(slot_map, d.set, d.binding),
                    ),
                    BindingClass::Uniform => BindResource::Camera,
                    BindingClass::Storage => BindResource::Storage,
                };
                entries.push((d.binding, resource));
            }
            k = k + 1;
        }
        assert(descriptors@.take(descriptors@.len() as int) =~= descriptors@);
        r.push(entries);
        set = set + 1;
    }
    r
}

/// The name without the underscores it ends with.
pub open spec fn without_underscores(name: Seq<char>) -> Seq<char>
    decreases name.len(),
{
    if name.len() > 0 && name.last() == '_' {
        without_underscores(name.drop_last())
    } else {
        name
    }
}

/// Which of the evaluated constant buffers fills a storage binding: the one of its name, else of
/// its name with an underscore behind it, else of its name without trailing underscores.
pub open spec fn cbuf_for(name: Seq<char>, evaluated: Seq<Seq<char>>) -> Option<Seq<char>> {
    if evaluated.contains(name) {
        Some(name)
    } else if evaluated.contains(name + "_"@) {
        Some(name + "_"@)
    } else if evaluated.contains(without_underscores(name)) {
        Some(without_underscores(name))
    } else {
        None
    }
}

fn trim_underscores(name: &str) -> (r: String)
    ensures
        r@ == without_underscores(name@),
{
    let v = chars_of(name);
    let mut to: usize = v.len();
    assert(v@.subrange(0, to as int) =~= v@);
    while to > 0 && v[to - 1] == '_'
        invariant
            to <= v.len(),
            without_underscores(name@) == without_underscores(v@.subrange(0, to as int)),
        decreases to,
    {
        assert(v@.subrange(0, to as int).drop_last() =~= v@.subrange(0, to - 1));
        to = to - 1;
    }
    string_between(&v, 0, to)
}

/// Finds the evaluated constant buffer that fills a storage binding.
pub fn find_cbuf(name: &str, evaluated: &Vec<String>) -> (r: Option<String>)
    ensures
        match r {
            Some(key) => cbuf_for(name@, texts(evaluated@)) == Some(key@),
            None => cbuf_for(name@, texts(evaluated@)) is None,
        },
{
    if list_has(evaluated, name) {
        return Some(name.to_owned());
    }
    let behind = concat(name, "_");
    if list_has(evaluated, behind.as_str()) {
        return Some(behind);
    }
    let bare = trim_underscores(name);
    if list_has(evaluated, bare.as_str()) {
        return Some(bare);
    }
    None
}

/// Whether a storage binding is a constant buffer.
pub fn is_cbuf(name: &str) -> (r: bool)
    ensures
        r == starts_with(name@, "cbuf_"@),
{
    has_prefix(name, "cbuf_")
}

/// The bytes of a word, low byte first.
pub open spec fn word_bytes(words: Seq<u32>) -> Seq<u8> {
    Seq::new(
        words.len() * 4,
        |k: int|
            if k % 4 == 0 {
                (words[k / 4] % 256) as u8
            } else if k % 4 == 1 {
                (words[k / 4] / 256 % 256) as u8
            } else if k % 4 == 2 {
                (words[k / 4] / 65536 % 256) as u8
            } else {
                (words[k / 4] / 16777216) as u8
            },
    )
}

/// The bytes of shader words, low byte first.
pub fn words_to_bytes(words: &Vec<u32>) -> (r: Vec<u8>)
    ensures
        r@ == word_bytes(words@),
{
    let mut r: Vec<u8> = Vec::new();
    let mut i: usize = 0;
    while i < words.len()
        invariant
            i <= words.len(),
            r@ == word_bytes(words@).take(4 * i),
        decreases words.len() - i,
    {
        let w: u32 = words[i];
        r.push((w % 256) as u8);
        r.push((w / 256 % 256) as u8);
        r.push((w / 65536 % 256) as u8);
        r.push((w / 16777216) as u8);
        i = i + 1;
        assert(r@ =~= word_bytes(words@).take(4 * i));
    }
    assert(r@ =~= word_bytes(words@));
    r
}

/// One stage of a shader.
#[derive(Debug)]
pub struct ShaderStage {
    pub spirv: Vec<u8>,
    pub entry_point: String,
}

/// The decoded stages of one shader.
#[derive(Debug)]
pub struct EffectShaderPair {
    pub vertex: Option<ShaderStage>,
    pub fragment: Option<ShaderStage>,
    pub compute: Option<ShaderStage>,
}

/// Whether a shader has both stages that drawing needs.
pub open spec fn is_whole(pair: EffectShaderPair) -> bool {
    pair.vertex is Some && pair.fragment is Some
}

impl EffectShaderPair {
    /// Whether the shader has both stages that drawing needs.
    pub fn is_drawable(&self) -> (r: bool)
        ensures
            r == is_whole(*self),
    {
        self.vertex.is_some() && self.fragment.is_some()
    }
}

/// Where a native shader takes its colour from.
#[derive(Clone, Copy, Debug, PartialEq, Eq, Structural)]
pub enum NativeColorInput {
    /// Nothing is known; the shader's text decides.
    Auto,
    /// An input that the effect file names.
    Hinted(u32),
}

/// The vertex program family of a shader.
#[derive(Clone, Copy, Debug, PartialEq, Eq, Structural)]
pub enum ShaderVsProfile {
    /// Nothing is known.
    Unknown,
    /// A family that the effect file names.
    Hinted(u32),
}

/// The shaders of an effect file.
#[derive(Debug)]
pub struct BnshShaderSet {
    /// All decoded shaders by registry key.
    pub all_shaders: HashMap<u64, EffectShaderPair>,
    pub default_key: u64,
    /// The registry key of each shader reference index.
    pub library_indices: HashMap<i32, u64>,
    pub native_color_by_key: HashMap<u64, NativeColorInput>,
    pub vs_profile_by_key: HashMap<u64, ShaderVsProfile>,
    pub source_name: String,
}

/// What an effect file's registry holds besides the shaders.
#[derive(Debug)]
pub struct RegistryInfo {
    pub default_key: u64,
    pub library_indices: HashMap<i32, u64>,
    pub native_colors: HashMap<u64, NativeColorInput>,
    pub vs_profiles: HashMap<u64, ShaderVsProfile>,
}

/// The shaders after the effect's own stages took the place of a default shader that is missing or
/// not whole.
pub open spec fn completed(
    shaders: Map<u64, EffectShaderPair>,
    key: u64,
    effect: EffectShaderPair,
) -> Map<u64, EffectShaderPair> {
    if key != 0 && is_whole(effect) && !(shaders.contains_key(key) && is_whole(shaders[key])) {
        shaders.insert(key, effect)
    } else {
        shaders
    }
}

/// Whether a key is what the set may take as its default: the registry's, else the key of some
/// whole shader, else zero.
pub open spec fn may_be_default(
    key: u64,
    registry_default: u64,
    shaders: Map<u64, EffectShaderPair>,
) -> bool {
    if registry_default != 0 {
        key == registry_default
    } else {
        ||| shaders.contains_key(key) && is_whole(shaders[key])
        ||| key == 0 && forall|k: u64|
            shaders.contains_key(k) ==> !is_whole(#[trigger] shaders[k])
    }
}

/// The message for a file without a whole default shader.
pub open spec fn no_default_message(key: u64, source_name: Seq<char>) -> Seq<char> {
    "no complete default shader 0x"@ + hex(key as nat, 1) + " in "@ + source_name
}

/// What making a shader set comes to: a set with a whole default shader, or the message that there
/// is none.
pub open spec fn is_loaded(
    r: Result<BnshShaderSet, String>,
    decoded: HashMap<u64, EffectShaderPair>,
    effect: EffectShaderPair,
    registry: RegistryInfo,
    source_name: Seq<char>,
) -> bool {
    match r {
        Ok(set) => {
            &&& may_be_default(set.default_key, registry.default_key, decoded@)
            &&& set.all_shaders@ == completed(decoded@, set.default_key, effect)
            &&& set.all_shaders@.contains_key(set.default_key)
            &&& is_whole(set.all_shaders@[set.default_key])
            &&& set.library_indices == registry.library_indices
            &&& set.native_color_by_key == registry.native_colors
            &&& set.vs_profile_by_key == registry.vs_profiles
            &&& set.source_name@ == source_name
        },
        Err(message) => exists|key: u64|
            {
                let all = completed(decoded@, key, effect);
                &&& #[trigger] may_be_default(key, registry.default_key, decoded@)
                &&& !(all.contains_key(key) && is_whole(all[key]))
                &&& message@ == no_default_message(key, source_name)
            },
    }
}

fn find_whole(shaders: &HashMap<u64, EffectShaderPair>) -> (r: u64)
    ensures
        may_be_default(r, 0, shaders@),
{
    broadcast use vstd::std_specs::hash::group_hash_axioms;

    for k in it: shaders.keys()
        invariant
            forall|i: int|
                0 <= i < it.index() ==> !is_whole(shaders@[*(#[trigger] it.seq()[i])]),
            it.seq().unref().to_set() == shaders@.dom(),
    {
        let key: u64 = *k;
        assert(it.seq().unref()[it.index()] == key);
        assert(it.seq().unref().to_set().contains(key));
        match shaders.get(&key) {
            Some(pair) => {
                if pair.is_drawable() {
                    return key;
                }
            },
            None => {},
        }
    }
    0
}

impl BnshShaderSet {
    /// Makes the set of an effect file from its decoded shaders. The effect's own stages stand in
    /// for a default shader that is missing or not whole.
    pub fn from_ptcl_file(
        decoded: HashMap<u64, EffectShaderPair>,
        effect: EffectShaderPair,
        registry: RegistryInfo,
        source_name: &str,
    ) -> (r: Result<BnshShaderSet, String>)
        ensures
            is_loaded(r, decoded, effect, registry, source_name@),
    {
        broadcast use vstd::std_specs::hash::group_hash_axioms;

        let default_key: u64 = if registry.default_key == 0 {
            find_whole(&decoded)
        } else {
            registry.default_key
        };
        let mut all_shaders = decoded;
        let present = match all_shaders.get(&default_key) {
            Some(pair) => pair.is_drawable(),
            None => false,
        };
        if default_key != 0 && !present && effect.is_drawable() {
            all_shaders.insert(default_key, effect);
        }
        let whole = match all_shaders.get(&default_key) {
            Some(pair) => pair.is_drawable(),
            None => false,
        };
        if !whole {
            let mut message = "no complete default shader 0x".to_owned();
            message.append(hex_text(default_key, 1).as_str());
            message.append(" in ");
            message.append(source_name);
            assert(may_be_default(default_key, registry.default_key, decoded@));
            return Err(message);
        }
        Ok(
            BnshShaderSet {
                all_shaders,
                default_key,
                library_indices: registry.library_indices,
                native_color_by_key: registry.native_colors,
                vs_profile_by_key: registry.vs_profiles,
                source_name: source_name.to_owned(),
            },
        )
    }

    /// Where a shader takes its colour from; nothing is known of a shader without a hint.
    pub fn native_color_for_key(&self, key: u64) -> (r: NativeColorInput)
        ensures
            r == if self.native_color_by_key@.contains_key(key) {
                self.native_color_by_key@[key]
            } else {
                NativeColorInput::Auto
            },
    {
        broadcast use vstd::std_specs::hash::group_hash_axioms;

        match self.native_color_by_key.get(&key) {
            Some(hint) => *hint,
            None => NativeColorInput::Auto,
        }
    }

    /// The vertex program family of a shader; nothing is known of a shader without a hint.
    pub fn vs_profile_for_key(&self, key: u64) -> (r: ShaderVsProfile)
        ensures
            r == if self.vs_profile_by_key@.contains_key(key) {
                self.vs_profile_by_key@[key]
            } else {
                ShaderVsProfile::Unknown
            },
    {
        broadcast use vstd::std_specs::hash::group_hash_axioms;

        match self.vs_profile_by_key.get(&key) {
            Some(hint) => *hint,
            None => ShaderVsProfile::Unknown,
        }
    }

    /// Whether the default shader is there.
    pub open spec fn has_default(&self) -> bool {
        self.all_shaders@.contains_key(self.default_key)
    }

    /// The default shader.
    pub fn default_pair(&self) -> (r: &EffectShaderPair)
        requires
            self.has_default(),
        ensures
            *r == self.all_shaders@[self.default_key],
    {
        broadcast use vstd::std_specs::hash::group_hash_axioms;

        self.all_shaders.get(&self.default_key).unwrap()
    }

    /// The registry key of an emitter's shader: its own key, else that of its reference index, else
    /// the default.
    pub open spec fn key_of(&self, emitter: EmitterDef) -> u64 {
        if emitter.shader_key != 0 {
            emitter.shader_key
        } else if emitter.shader_index >= 0 && self.library_indices@.contains_key(
            emitter.shader_index,
        ) {
            self.library_indices@[emitter.shader_index]
        } else {
            self.default_key
        }
    }

    /// The shader of an emitter.
    pub fn pair_for_emitter(&self, emitter: &EmitterDef) -> (r: &EffectShaderPair)
        requires
            self.all_shaders@.contains_key(self.key_of(*emitter)),
        ensures
            *r == self.all_shaders@[self.key_of(*emitter)],
    {
        broadcast use vstd::std_specs::hash::group_hash_axioms;

        let key = self.resolve_key(emitter);
        self.all_shaders.get(&key).unwrap()
    }

    /// The key that an emitter's pipelines are kept under.
    pub fn pipeline_key_for_emitter(&self, emitter: &EmitterDef) -> (r: u64)
        ensures
            r == self.key_of(*emitter),
    {
        self.resolve_key(emitter)
    }

    /// Resolves the registry key of an emitter's shader.
    pub fn resolve_key(&self, emitter: &EmitterDef) -> (r: u64)
        ensures
            r == self.key_of(*emitter),
    {
        broadcast use vstd::std_specs::hash::group_hash_axioms;

        if emitter.shader_key != 0 {
            return emitter.shader_key;
        }
        if emitter.shader_index >= 0 {
            match self.library_indices.get(&emitter.shader_index) {
                Some(key) => {
                    return *key;
                },
                None => {},
            }
        }
        self.default_key
    }

    /// Whether the default shader has both stages that drawing needs.
    pub fn is_complete(&self) -> (r: bool)
        requires
            self.has_default(),
        ensures
            r == is_whole(self.all_shaders@[self.default_key]),
    {
        self.default_pair().is_drawable()
    }

    /// The summary of a set's shaders.
    pub open spec fn summary_text(&self) -> Seq<char> {
        let default = pair_summary(self.all_shaders@[self.default_key]);
        if self.all_shaders@.len() > 1 {
            dec(self.all_shaders@.len()) + " shader variants, default: "@ + default
        } else {
            default
        }
    }

    /// Summarises the set's shaders.
    pub fn summary(&self) -> (r: String)
        requires
            self.has_default(),
        ensures
            r@ == self.summary_text(),
    {
        broadcast use vstd::std_specs::hash::group_hash_axioms;

        let default = self.shader_pair_summary();
        let count: usize = self.all_shaders.len();
        if count > 1 {
            let mut r = dec_text(count as u64);
            r.append(" shader variants, default: ");
            r.append(default.as_str());
            r
        } else {
            default
        }
    }

    fn shader_pair_summary(&self) -> (r: String)
        requires
            self.has_default(),
        ensures
            r@ == pair_summary(self.all_shaders@[self.default_key]),
    {
        let pair = self.default_pair();
        let mut parts: Vec<String> = Vec::new();
        match &pair.vertex {
            Some(stage) => {
                let mut part = "vertex(".to_owned();
                part.append(dec_text(stage.spirv.len() as u64 / 4).as_str());
                part.append(" SPIR-V words)");
                parts.push(part);
            },
            None => {},
        }
        match &pair.fragment {
            Some(stage) => {
                let mut part = "fragment(".to_owned();
                part.append(dec_text(stage.spirv.len() as u64 / 4).as_str());
                part.append(" SPIR-V words)");
                parts.push(part);
            },
            None => {},
        }
        assert(texts(parts@) =~= pair_parts(*pair));
        if parts.len() == 0 {
            "no shaders".to_owned()
        } else {
            join_texts(&parts, " + ")
        }
    }

    /// The material samplers whose slots the set fixes: none, as no effect shader has any.
    pub fn apply_material_bindings(&self) -> (r: Vec<(String, u32)>)
        ensures
            r@.len() == 0,
    {
        Vec::new()
    }
}

/// The decoded parts of an effect file that its shader set is made from.
#[derive(Debug)]
pub struct DecodedEffect {
    pub name: String,
    pub shaders: HashMap<u64, EffectShaderPair>,
    pub effect: EffectShaderPair,
    pub registry: RegistryInfo,
}

/// Makes the shader sets of some effect files, each under its file's name.
pub fn load_shaders_from_files(effect_files: Vec<DecodedEffect>) -> (r: Vec<
    (String, Result<BnshShaderSet, String>),
>)
    ensures
        r@.len() == effect_files@.len(),
        forall|i: int|
            0 <= i < r@.len() ==> {
                let file = effect_files@[i];
                &&& (#[trigger] r@[i]).0@ == file.name@
                &&& is_loaded(r@[i].1, file.shaders, file.effect, file.registry, file.name@)
            },
{
    let mut r: Vec<(String, Result<BnshShaderSet, String>)> = Vec::new();
    for file in it: effect_files
        invariant
            it.seq() == effect_files@,
            r@.len() == it.index(),
            forall|i: int|
                0 <= i < r@.len() ==> {
                    let file = effect_files@[i];
                    &&& (#[trigger] r@[i]).0@ == file.name@
                    &&& is_loaded(r@[i].1, file.shaders, file.effect, file.registry, file.name@)
                },
    {
        let name = file.name;
        let set = BnshShaderSet::from_ptcl_file(
            file.shaders,
            file.effect,
            file.registry,
            name.as_str(),
        );
        r.push((name, set));
    }
    r
}

/// What a shader is summarised as, stage by stage.
pub open spec fn pair_parts(pair: EffectShaderPair) -> Seq<Seq<char>> {
    (match pair.vertex {
        Some(stage) => seq!["vertex("@ + dec(stage.spirv@.len() / 4) + " SPIR-V words)"@],
        None => seq![],
    }) + (match pair.fragment {
        Some(stage) => seq!["fragment("@ + dec(stage.spirv@.len() / 4) + " SPIR-V words)"@],
        None => seq![],
    })
}

/// The summary of one shader.
pub open spec fn pair_summary(pair: EffectShaderPair) -> Seq<char> {
    if pair_parts(pair).len() == 0 {
        "no shaders"@
    } else {
        join(pair_parts(pair), " + "@)
    }
}

/// An effect file in which some shader is whole, or whose own stages are whole and whose registry
/// names a default, always gives a shader set.
pub proof fn law_a_whole_shader_is_enough(
    r: Result<BnshShaderSet, String>,
    decoded: HashMap<u64, EffectShaderPair>,
    effect: EffectShaderPair,
    registry: RegistryInfo,
    source_name: Seq<char>,
    key: u64,
)
    requires
        is_loaded(r, decoded, effect, registry, source_name),
        decoded@.contains_key(key),
        is_whole(decoded@[key]),
        registry.default_key == 0 || registry.default_key == key || is_whole(effect),
    ensures
        r is Ok,
{
    if r is Err {
        let k = choose|k: u64|
            {
                let all = completed(decoded@, k, effect);
                &&& #[trigger] may_be_default(k, registry.default_key, decoded@)
                &&& !(all.contains_key(k) && is_whole(all[k]))
                &&& r->Err_0@ == no_default_message(k, source_name)
            };
        assert(may_be_default(k, registry.default_key, decoded@));
    }
}

/// An emitter that names no shader is drawn with the default one.
pub proof fn law_unnamed_emitters_take_the_default(set: BnshShaderSet, emitter: EmitterDef)
    requires
        emitter.shader_key == 0,
        emitter.shader_index < 0,
    ensures
        set.key_of(emitter) == set.default_key,
{
}

/// Soft particles are always read from the fourth group of a shader that has bindings of its own.
pub proof fn law_soft_particle_layout_is_group_three(needs: PipelineNeeds)
    requires
        needs.soft_particle,
    ensures
        pipeline_groups(true, needs).len() == 4,
        pipeline_groups(true, needs)[1] == GroupLayout::EmitterTextures,
        pipeline_groups(true, needs)[3] == GroupLayout::SoftParticle,
{
}

/// The weight of a blend factor for a source channel `s` of a pixel with alpha `a`, in units of
/// `one`.
pub open spec fn factor_weight(factor: BlendFactor, s: int, a: int, one: int) -> int {
    match factor {
        BlendFactor::Zero => 0,
        BlendFactor::One => one,
        BlendFactor::Src => s,
        BlendFactor::OneMinusSrc => one - s,
        BlendFactor::SrcAlpha => a,
        BlendFactor::OneMinusSrcAlpha => one - a,
    }
}

/// What a blend makes of a source channel `s` of a pixel with alpha `a` and a destination channel
/// `d`, all in units of `one`; the result is in units of `one * one`.
pub open spec fn blended(component: BlendComponent, s: int, d: int, a: int, one: int) -> int {
    let source = factor_weight(component.src_factor, s, a, one) * s;
    let destination = factor_weight(component.dst_factor, s, a, one) * d;
    match component.operation {
        BlendOperation::Add => source + destination,
        BlendOperation::ReverseSubtract => destination - source,
    }
}

/// What each blend type computes for every pixel: `s` and `d` are a colour channel of the source and
/// of what is behind it, `a` and `b` their alphas. Additive light is added and leaves the alpha
/// behind it alone; subtraction takes the source off; a screen adds the source and dims what is
/// behind by it; a multiplication is the product; anything else lays the source over.
pub proof fn law_each_blend_computes_its_formula(
    blend: BlendType,
    s: int,
    d: int,
    a: int,
    b: int,
    one: int,
)
    ensures
        ({
            let color = blended(blend_state(blend).color, s, d, a, one);
            let alpha = blended(blend_state(blend).alpha, a, b, a, one);
            match blend {
                BlendType::Add => color == one * (s + d) && alpha == one * b,
                BlendType::Sub => color == one * (d - s) && alpha == one * (b - a),
                BlendType::Screen => color == one * s + (one - s) * d && alpha == one * a + (one
                    - a) * b,
                BlendType::Multiply => color == s * d && alpha == a * b,
                BlendType::Normal => color == one * s + (one - a) * d && alpha == one * a + (one
                    - a) * b,
                BlendType::Unknown(_) => color == one * s + (one - a) * d && alpha == one * a + (
                one - a) * b,
            }
        }),
{
    assert(one * (s + d) == one * s + one * d) by (nonlinear_arith);
    assert(one * (d - s) == one * d - one * s) by (nonlinear_arith);
    assert(one * (b - a) == one * b - one * a) by (nonlinear_arith);
    assert(0 * s == 0 && 0 * a == 0) by (nonlinear_arith);
}

/// What the blend of trails computes: the source is added by its alpha, and alpha is laid over.
pub proof fn law_trails_add_light_by_its_alpha(s: int, d: int, a: int, b: int, one: int)
    ensures
        blended(trail_blend_state().color, s, d, a, one) == a * s + one * d,
        blended(trail_blend_state().alpha, a, b, a, one) == one * a + (one - a) * b,
{
}

/// The attributes of a vertex lie one behind the other, four words each, at the locations zero to
/// twelve, and fill the vertex.
pub proof fn law_vertex_attributes_fill_the_vertex(k: int)
    requires
        0 <= k < 12,
    ensures
        vertex_attributes().len() == 13,
        vertex_attributes()[0].0 == 0,
        vertex_attributes()[k + 1].0 == vertex_attributes()[k].0 + 16,
        vertex_attributes()[k].1 == k,
        vertex_attributes()[12].0 + 16 == 208,
        vertex_attributes()[12].1 == 12,
{
}

/// Whether a layout entry is one that a descriptor asks for.
pub open spec fn entry_suits(entry: LayoutEntry, resource: (u32, BindResource)) -> bool {
    &&& entry.binding == resource.0
    &&& match entry.ty {
        BindingType::Texture { filterable } => filterable && resource.1 is Texture
            && entry.visibility == Visibility::Fragment,
        BindingType::Sampler => resource.1 is Sampler && entry.visibility == Visibility::Fragment,
        BindingType::ReadStorage => resource.1 is Storage && entry.visibility
            == Visibility::VertexAndFragment,
        BindingType::Uniform { dynamic_offset, min_size } => resource.1 is Camera && entry.visibility
            == Visibility::VertexAndFragment && !dynamic_offset && min_size is None,
        _ => false,
    }
}

/// Whether an entry and a resource are those of a descriptor.
pub open spec fn serves(
    entry: LayoutEntry,
    resource: (u32, BindResource),
    d: DescriptorInfo,
) -> bool {
    &&& entry.binding == d.binding
    &&& resource.0 == d.binding
    &&& d.class is Texture <==> resource.1 is Texture
    &&& d.class is Sampler <==> resource.1 is Sampler
    &&& d.class is Storage <==> resource.1 is Storage
    &&& d.class is Uniform <==> resource.1 is Camera
}

/// What a set of a shader is filled with is what its layout asks for, entry by entry: each entry
/// has a resource of its own class under its own binding, for a descriptor of that set.
pub proof fn law_resources_suit_their_layout(
    descriptors: Seq<DescriptorInfo>,
    map: Seq<TextureBinding>,
    set: u32,
)
    ensures
        native_entries(descriptors, set).len() == set_resources(descriptors, map, set).len(),
        forall|i: int|
            0 <= i < native_entries(descriptors, set).len() ==> entry_suits(
                #[trigger] native_entries(descriptors, set)[i],
                set_resources(descriptors, map, set)[i],
            ),
        forall|i: int|
            0 <= i < native_entries(descriptors, set).len() ==> exists|d: int|
                0 <= d < descriptors.len() && (#[trigger] descriptors[d]).set == set && serves(
                    #[trigger] native_entries(descriptors, set)[i],
                    set_resources(descriptors, map, set)[i],
                    descriptors[d],
                ),
        forall|d: int|
            0 <= d < descriptors.len() && (#[trigger] descriptors[d]).set == set ==> exists|i: int|
                0 <= i < native_entries(descriptors, set).len() && serves(
                    #[trigger] native_entries(descriptors, set)[i],
                    set_resources(descriptors, map, set)[i],
                    descriptors[d],
                ),
    decreases descriptors.len(),
{
    if descriptors.len() > 0 {
        let front = descriptors.drop_last();
        law_resources_suit_their_layout(front, map, set);
        let entries = native_entries(descriptors, set);
        let resources = set_resources(descriptors, map, set);
        let n = native_entries(front, set).len() as int;
        let last = descriptors.last();
        if last.set == set {
            assert(entries[n] == native_entry(last));
            assert(serves(entries[n], resources[n], last));
            assert(descriptors[descriptors.len() - 1] == last);
        }
        assert forall|i: int| 0 <= i < entries.len() implies exists|d: int|
            0 <= d < descriptors.len() && (#[trigger] descriptors[d]).set == set && serves(
                #[trigger] entries[i],
                resources[i],
                descriptors[d],
            ) by {
            if i < n {
                assert(entries[i] == native_entries(front, set)[i]);
                let d = choose|d: int|
                    0 <= d < front.len() && (#[trigger] front[d]).set == set && serves(
                        native_entries(front, set)[i],
                        set_resources(front, map, set)[i],
                        front[d],
                    );
                assert(descriptors[d] == front[d]);
            }
        }
        assert forall|d: int|
            0 <= d < descriptors.len() && (#[trigger] descriptors[d]).set == set implies exists|
            i: int,
        |
            0 <= i < entries.len() && serves(#[trigger] entries[i], resources[i], descriptors[d]) by {
            if d < front.len() {
                assert(front[d] == descriptors[d]);
                let i = choose|i: int|
                    0 <= i < n && serves(
                        #[trigger] native_entries(front, set)[i],
                        set_resources(front, map, set)[i],
                        front[d],
                    );
                assert(entries[i] == native_entries(front, set)[i]);
            }
        }
        assert forall|i: int| 0 <= i < entries.len() implies entry_suits(
            #[trigger] entries[i],
            resources[i],
        ) by {
            if i < n {
                assert(entries[i] == native_entries(front, set)[i]);
            }
        }
    }
}

/// The groups of a pipeline: the shader's own first where it has one, the emitter's textures, the
/// further textures where it reads them, and the depth where particles are soft, two behind the
/// emitter's textures.
pub proof fn law_pipeline_groups_are_in_order(has_native: bool, needs: PipelineNeeds)
    ensures
        ({
            let groups = pipeline_groups(has_native, needs);
            let at: int = if has_native {
                1
            } else {
                0
            };
            let further = needs.extra_tex3 || needs.extra_tex4 || needs.extra_tex5
                || needs.tex_blend_uniform || needs.particle_alpha_uniform;
            &&& has_native ==> groups[0] == GroupLayout::Native
            &&& groups[at] == GroupLayout::EmitterTextures
            &&& further ==> groups[at + 1] == GroupLayout::ExtraTextures
            &&& !further && needs.soft_particle ==> groups[at + 1] == GroupLayout::Placeholder
            &&& needs.soft_particle ==> groups[at + 2] == GroupLayout::SoftParticle && groups.len()
                == at + 3
            &&& !needs.soft_particle && further ==> groups.len() == at + 2
            &&& !needs.soft_particle && !further ==> groups.len() == at + 1
        }),
{
}

/// Depth is written only where there is a depth to write to and writing is asked for.
pub proof fn law_depth_is_written_only_where_asked(use_depth: bool, depth_write: bool)
    ensures
        pipeline_variant(use_depth, depth_write) == PipelineVariant::DepthWrite <==> use_depth
            && depth_write,
        pipeline_variant(use_depth, depth_write) == PipelineVariant::Plain <==> !use_depth,
{
}

/// The texture pair of a layout is a texture and its sampler at the next binding.
pub proof fn law_a_texture_is_paired_with_its_sampler(binding: u32)
    requires
        binding < u32::MAX,
    ensures
        texture_pair(binding).len() == 2,
        texture_pair(binding)[0].binding == binding,
        texture_pair(binding)[0].ty is Texture,
        texture_pair(binding)[1].binding == binding + 1,
        texture_pair(binding)[1].ty is Sampler,
        texture_pair(binding)[0].visibility == Visibility::Fragment,
        texture_pair(binding)[1].visibility == Visibility::Fragment,
{
}

/// A binding takes the texture slot of the first reflected entry for its set and its binding, cut
/// at two; the colour texture where there is no entry for it.
pub proof fn law_a_binding_takes_its_first_reflected_slot(
    map: Seq<TextureBinding>,
    set: u32,
    binding: u32,
    i: int,
)
    requires
        0 <= i <= map.len(),
        forall|j: int|
            0 <= j < i ==> !((#[trigger] map[j]).set == set && map[j].binding == binding),
        i < map.len() ==> map[i].set == set && map[i].binding == binding,
    ensures
        i == map.len() ==> bound_slot(map, set, binding) == 0,
        i < map.len() && map[i].slot <= 2 ==> bound_slot(map, set, binding) == map[i].slot,
        i < map.len() && map[i].slot > 2 ==> bound_slot(map, set, binding) == 2,
    decreases map.len(),
{
    if i > 0 {
        let rest = map.skip(1);
        assert forall|j: int| 0 <= j < i - 1 implies !((#[trigger] rest[j]).set == set
            && rest[j].binding == binding) by {
            assert(rest[j] == map[j + 1]);
        }
        assert(!(map[0].set == set && map[0].binding == binding));
        law_a_binding_takes_its_first_reflected_slot(rest, set, binding, i - 1);
    }
}

/// No descriptor is of a larger set than the largest, and some descriptor is of it.
pub proof fn law_the_largest_set_is_the_largest(descriptors: Seq<DescriptorInfo>)
    ensures
        forall|i: int|
            0 <= i < descriptors.len() ==> (#[trigger] descriptors[i]).set <= largest_set(
                descriptors,
            ),
        largest_set(descriptors) > 0 ==> exists|i: int|
            0 <= i < descriptors.len() && (#[trigger] descriptors[i]).set == largest_set(
                descriptors,
            ),
        largest_set(descriptors) >= 0,
    decreases descriptors.len(),
{
    if descriptors.len() > 0 {
        let front = descriptors.drop_last();
        law_the_largest_set_is_the_largest(front);
        assert forall|i: int| 0 <= i < descriptors.len() implies (#[trigger] descriptors[i]).set
            <= largest_set(descriptors) by {
            if i < front.len() {
                assert(front[i] == descriptors[i]);
            }
        }
        if largest_set(descriptors) > 0 {
            if descriptors.last().set > largest_set(front) {
                assert(descriptors[descriptors.len() - 1].set == largest_set(descriptors));
            } else {
                let i = choose|i: int|
                    0 <= i < front.len() && (#[trigger] front[i]).set == largest_set(front);
                assert(descriptors[i] == front[i]);
            }
        }
    }
}

/// A name without its trailing underscores begins the name, ends in no underscore, and leaves out
/// nothing but underscores.
pub proof fn law_only_trailing_underscores_go(name: Seq<char>)
    ensures
        ({
            let short = without_underscores(name);
            &&& short.len() <= name.len()
            &&& short == name.take(short.len() as int)
            &&& short.len() > 0 ==> short.last() != '_'
            &&& forall|i: int| short.len() <= i < name.len() ==> #[trigger] name[i] == '_'
        }),
    decreases name.len(),
{
    if name.len() > 0 && name.last() == '_' {
        law_only_trailing_underscores_go(name.drop_last());
        let short = without_underscores(name);
        assert(name.drop_last().take(short.len() as int) =~= name.take(short.len() as int));
        assert forall|i: int| short.len() <= i < name.len() implies #[trigger] name[i] == '_' by {
            if i < name.len() - 1 {
                assert(name.drop_last()[i] == '_');
            }
        }
    } else {
        assert(name =~= name.take(name.len() as int));
    }
}

/// A storage binding is filled by a buffer that was evaluated: the one of its own name where there
/// is one, else that with an underscore behind, else that without trailing underscores.
pub proof fn law_a_buffer_is_found_under_its_name(name: Seq<char>, evaluated: Seq<Seq<char>>)
    ensures
        cbuf_for(name, evaluated) is Some ==> evaluated.contains(cbuf_for(name, evaluated)->0),
        evaluated.contains(name) ==> cbuf_for(name, evaluated) == Some(name),
        !evaluated.contains(name) && evaluated.contains(name.push('_')) ==> cbuf_for(
            name,
            evaluated,
        ) == Some(name.push('_')),
        evaluated.contains(without_underscores(name)) ==> cbuf_for(name, evaluated) is Some,
        cbuf_for(name, evaluated) is None ==> !evaluated.contains(name),
{
    reveal_strlit("_");
    assert(name + "_"@ =~= name.push('_'));
}

/// The bytes of a word make up the word, the low byte first.
pub proof fn law_bytes_make_up_their_words(words: Seq<u32>, i: int)
    requires
        0 <= i < words.len(),
    ensures
        word_bytes(words).len() == 4 * words.len(),
        word_bytes(words)[4 * i] + 256 * word_bytes(words)[4 * i + 1] + 65536 * word_bytes(
            words,
        )[4 * i + 2] + 16777216 * word_bytes(words)[4 * i + 3] == words[i],
{
    assert((4 * i) / 4 == i && (4 * i + 1) / 4 == i && (4 * i + 2) / 4 == i && (4 * i + 3) / 4
        == i);
    let w = words[i] as int;
    let b: int = w / 256;
    let c: int = w / 65536;
    assert(w == w % 256 + 256 * b);
    assert(b / 256 == c);
    assert(b == b % 256 + 256 * c);
    assert(c / 256 == w / 16777216);
    assert(c == c % 256 + 256 * (w / 16777216));
}

/// The effect's own stages never take the place of a whole shader, and touch no other key.
pub proof fn law_a_whole_shader_is_kept(
    shaders: Map<u64, EffectShaderPair>,
    key: u64,
    effect: EffectShaderPair,
    other: u64,
)
    requires
        shaders.contains_key(other),
    ensures
        other != key ==> completed(shaders, key, effect).contains_key(other) && completed(
            shaders,
            key,
            effect,
        )[other] == shaders[other],
        shaders[other].vertex is Some && shaders[other].fragment is Some ==> completed(
            shaders,
            key,
            effect,
        )[other] == shaders[other],
        key != 0 && effect.vertex is Some && effect.fragment is Some ==> completed(
            shaders,
            key,
            effect,
        ).contains_key(key) && completed(shaders, key, effect)[key].vertex is Some && completed(
            shaders,
            key,
            effect,
        )[key].fragment is Some,
{
}

/// An emitter's own shader key wins over its index, and its index, where the library knows it, over
/// the default.
pub proof fn law_an_emitter_is_drawn_by_its_own_shader(set: BnshShaderSet, emitter: EmitterDef)
    ensures
        emitter.shader_key != 0 ==> set.key_of(emitter) == emitter.shader_key,
        emitter.shader_key == 0 && emitter.shader_index >= 0 && set.library_indices@.contains_key(
            emitter.shader_index,
        ) ==> set.key_of(emitter) == set.library_indices@[emitter.shader_index],
        emitter.shader_key == 0 && emitter.shader_index < 0 ==> set.key_of(emitter)
            == set.default_key,
        emitter.shader_key == 0 && !set.library_indices@.contains_key(emitter.shader_index)
            ==> set.key_of(emitter) == set.default_key,
{
}

/// A pipeline tests depth only where there is one, and writes it only where that is asked for;
/// trails never write it.
pub proof fn law_pipelines_write_depth_only_where_asked(
    format: TextureFormat,
    blend: BlendType,
    use_depth: bool,
    depth_write: bool,
    particle: (FixedPipeline, bool),
    trail: FixedPipeline,
)
    requires
        call_ensures(particle_pipeline, (format, blend, use_depth, depth_write), particle),
        call_ensures(trail_pipeline, (format, use_depth), trail),
    ensures
        particle.0.depth is Some <==> use_depth,
        particle.0.depth is Some ==> particle.0.depth->0.write == depth_write,
        trail.depth is Some <==> use_depth,
        trail.depth is Some ==> !trail.depth->0.write,
        particle.0.format == format && trail.format == format,
        particle.0.topology == Topology::TriangleList,
        trail.topology == Topology::TriangleStrip,
        particle.1 == depth_write,
{
}

/// Particles are laid over the picture where they were drawn in another format than it has, and
/// take its place otherwise; their Sub targets are always subtracted.
pub proof fn law_a_wider_format_is_laid_over(
    surface: TextureFormat,
    particles: TextureFormat,
    blit: FixedPipeline,
    sub: FixedPipeline,
    mode: BlitMode,
    s: int,
    d: int,
    a: int,
    one: int,
)
    requires
        call_ensures(blit_pipeline, (surface, particles), blit),
        call_ensures(sub_blit_pipeline, (surface,), sub),
        call_ensures(blit_mode, (surface, particles), mode),
    ensures
        blit.blend is None <==> surface == particles,
        mode == BlitMode::Replace <==> surface == particles,
        blit.format == surface && sub.format == surface,
        blit.depth is None && sub.depth is None,
        sub.blend is Some,
        blit.blend is Some ==> blended(blit.blend->0.color, s, d, a, one) == one * s + (one - a)
            * d,
        blended(sub.blend->0.color, s, d, a, one) == one * d - one * s,
{
}

/// The depth that the meshes left is kept, and the depth of an empty scene is cleared.
pub proof fn law_a_primed_depth_is_kept(primed: bool, r: DepthLoad)
    requires
        call_ensures(particle_path_depth_attachment, (primed,), r),
    ensures
        r == DepthLoad::Keep <==> primed,
        r == DepthLoad::ClearFar <==> !primed,
{
}

/// The layout of an emitter's textures has a place of its own for each binding, from zero on, and
/// its parameters move from draw to draw.
pub proof fn law_layout_bindings_are_consecutive(
    size: u64,
    emitter: Vec<LayoutEntry>,
    extra: Vec<LayoutEntry>,
    material: Vec<LayoutEntry>,
    i: int,
)
    requires
        call_ensures(emitter_tex_bind_group_layout_entries, (size,), emitter),
        call_ensures(extra_tex345_layout_entries, (size,), extra),
        call_ensures(material_layout_entries, (), material),
    ensures
        emitter@.len() == 9,
        extra@.len() == 8,
        material@.len() == 7,
        0 <= i < 9 ==> emitter@[i].binding == i,
        0 <= i < 8 ==> extra@[i].binding == i,
        0 <= i < 7 ==> material@[i].binding == i,
        match emitter@[6].ty {
            BindingType::Uniform { dynamic_offset, min_size } => dynamic_offset && min_size == Some(
                size,
            ),
            _ => false,
        },
        match extra@[7].ty {
            BindingType::Uniform { dynamic_offset, min_size } => !dynamic_offset && min_size
                == Some(size),
            _ => false,
        },
{
}

} // verus!
