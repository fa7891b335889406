//! The particle renderer's state and decisions: what is drawn, in which pass, with which groups.

use vstd::prelude::*;
use vstd::string::*;

use crate::effects::{BlendType, DisplaySide, EmitterDef};
use crate::mipmaps::TextureFormat;
use crate::particle_frame::{
    draw_order, is_draw_list, is_draw_order, needs_group2, plan_draws, total_vertices,
    vertices_before, EmitterDraw, FrameParticle, PreparedBnshDraw,
};
use crate::text::{concat, dec, dec_text, same};
use crate::texture_plan::{BntxSource, TexturePlan};

verus! {

/// Controls depth attachment use when recording prepared particle draws.
#[derive(Clone, Copy, Debug, PartialEq, Eq, Structural)]
pub struct DepthDrawConfig {
    pub test: bool,
    pub write: bool,
    pub opaque_core_only: bool,
    /// Skip draws that are opaque cores, after a pass of their own.
    pub exclude_opaque_core: bool,
    /// Draw front to back.
    pub reverse_order: bool,
}

impl DepthDrawConfig {
    /// No depth attachment; every draw.
    pub fn none() -> (r: DepthDrawConfig)
        ensures
            r == (DepthDrawConfig {
                test: false,
                write: false,
                opaque_core_only: false,
                exclude_opaque_core: false,
                reverse_order: false,
            }),
    {
        DepthDrawConfig {
            test: false,
            write: false,
            opaque_core_only: false,
            exclude_opaque_core: false,
            reverse_order: false,
        }
    }

    /// No depth attachment; the draws that are not opaque cores.
    pub fn transparent_only() -> (r: DepthDrawConfig)
        ensures
            r == (DepthDrawConfig {
                test: false,
                write: false,
                opaque_core_only: false,
                exclude_opaque_core: true,
                reverse_order: false,
            }),
    {
        DepthDrawConfig {
            test: false,
            write: false,
            opaque_core_only: false,
            exclude_opaque_core: true,
            reverse_order: false,
        }
    }

    /// Depth test and write for opaque cores, front to back.
    pub fn opaque_core() -> (r: DepthDrawConfig)
        ensures
            r == (DepthDrawConfig {
                test: true,
                write: true,
                opaque_core_only: true,
                exclude_opaque_core: false,
                reverse_order: true,
            }),
    {
        DepthDrawConfig {
            test: true,
            write: true,
            opaque_core_only: true,
            exclude_opaque_core: false,
            reverse_order: true,
        }
    }

    /// Depth test without write; every draw.
    pub fn transparent() -> (r: DepthDrawConfig)
        ensures
            r == (DepthDrawConfig {
                test: true,
                write: false,
                opaque_core_only: false,
                exclude_opaque_core: false,
                reverse_order: false,
            }),
    {
        DepthDrawConfig {
            test: true,
            write: false,
            opaque_core_only: false,
            exclude_opaque_core: false,
            reverse_order: false,
        }
    }
}

/// Which billboard draws to record in a render pass.
#[derive(Clone, Copy, Debug, PartialEq, Eq, Structural)]
pub enum BnshDrawFilter {
    All,
    /// Every blend that accumulates premultiplied colour.
    ExcludeSub,
    /// The reverse-subtract blend alone.
    SubOnly,
}

/// Whether a filter lets a blend through.
pub open spec fn filter_admits(filter: BnshDrawFilter, blend: BlendType) -> bool {
    match filter {
        BnshDrawFilter::All => true,
        BnshDrawFilter::ExcludeSub => blend != BlendType::Sub,
        BnshDrawFilter::SubOnly => blend == BlendType::Sub,
    }
}

/// Whether a filter lets a blend through.
pub fn bnsh_draw_filter_matches(filter: BnshDrawFilter, blend: BlendType) -> (r: bool)
    ensures
        r == filter_admits(filter, blend),
{
    match filter {
        BnshDrawFilter::All => true,
        BnshDrawFilter::ExcludeSub => blend != BlendType::Sub,
        BnshDrawFilter::SubOnly => blend == BlendType::Sub,
    }
}

/// One step in the viewport's particle composite.
#[derive(Clone, Copy, Debug, PartialEq, Eq, Structural)]
pub enum EditorCompositeStep {
    /// Blit the offscreen colour of a draw path onto the scene.
    BlitDrawPath(u32),
    /// Subtract the offscreen target of a draw path's Sub blends.
    SubDrawPath(u32),
}

/// The composite of some draw paths: each path's blit, then its Sub target.
pub open spec fn composite_steps(draw_paths: Seq<u32>) -> Seq<EditorCompositeStep> {
    Seq::new(
        draw_paths.len() * 2,
        |k: int|
            if k % 2 == 0 {
                EditorCompositeStep::BlitDrawPath(draw_paths[k / 2])
            } else {
                EditorCompositeStep::SubDrawPath(draw_paths[k / 2])
            },
    )
}

/// Ordered composite steps for ascending draw path ids.
pub fn editor_composite_steps(draw_paths: &[u32]) -> (r: Vec<EditorCompositeStep>)
    ensures
        r@ == composite_steps(draw_paths@),
{
    let mut r: Vec<EditorCompositeStep> = Vec::new();
    let mut i: usize = 0;
    while i < draw_paths.len()
        invariant
            i <= draw_paths@.len(),
            r@ == composite_steps(draw_paths@).take(2 * i),
        decreases draw_paths.len() - i,
    {
        r.push(EditorCompositeStep::BlitDrawPath(draw_paths[i]));
        r.push(EditorCompositeStep::SubDrawPath(draw_paths[i]));
        i = i + 1;
        assert(r@ =~= composite_steps(draw_paths@).take(2 * i));
    }
    assert(r@ =~= composite_steps(draw_paths@));
    r
}

/// Which face of a quad is not drawn.
#[derive(Clone, Copy, Debug, PartialEq, Eq, Structural)]
pub enum Face {
    Front,
    Back,
}

/// The face to cull for a display side; none where both sides show or the side is not known.
pub fn cull_mode_for(display_side: DisplaySide) -> (r: Option<Face>)
    ensures
        r == match display_side {
            DisplaySide::Front => Some(Face::Back),
            DisplaySide::Back => Some(Face::Front),
            _ => None,
        },
{
    match display_side {
        DisplaySide::Both => None,
        DisplaySide::Front => Some(Face::Back),
        DisplaySide::Back => Some(Face::Front),
        DisplaySide::Unknown(_) => None,
    }
}

/// A sword trail: the path it is drawn in and how many samples it has.
#[derive(Clone, Copy, Debug, PartialEq, Eq, Structural)]
pub struct SwordTrail {
    pub draw_path: u32,
    pub samples: usize,
}

/// One vertex of a trail ribbon: the tip or the base of a sample.
#[derive(Clone, Copy, Debug, PartialEq, Eq, Structural)]
pub struct TrailVertex {
    pub trail: usize,
    pub sample: usize,
    pub is_base: bool,
}

/// The ribbon of one trail: for each sample its tip, then its base. A trail of fewer than two
/// samples has none.
pub open spec fn ribbon(trail: SwordTrail, at: int) -> Seq<TrailVertex> {
    if trail.samples < 2 {
        Seq::empty()
    } else {
        Seq::new(
            (trail.samples * 2) as nat,
            |k: int|
                TrailVertex { trail: at as usize, sample: (k / 2) as usize, is_base: k % 2 == 1 },
        )
    }
}

/// The ribbons of all trails, one behind the other.
pub open spec fn ribbons(trails: Seq<SwordTrail>) -> Seq<TrailVertex>
    decreases trails.len(),
{
    if trails.len() == 0 {
        Seq::empty()
    } else {
        ribbons(trails.drop_last()) + ribbon(trails.last(), trails.len() - 1)
    }
}

/// The path, first vertex and vertex count of each trail that has a ribbon.
pub open spec fn ribbon_segments(trails: Seq<SwordTrail>) -> Seq<(u32, u32, u32)>
    decreases trails.len(),
{
    if trails.len() == 0 {
        Seq::empty()
    } else {
        let before = ribbon_segments(trails.drop_last());
        let trail = trails.last();
        if trail.samples < 2 {
            before
        } else {
            before.push(
                (
                    trail.draw_path,
                    ribbons(trails.drop_last()).len() as u32,
                    (trail.samples * 2) as u32,
                ),
            )
        }
    }
}

proof fn lemma_ribbons_grow(trails: Seq<SwordTrail>, i: int)
    requires
        0 <= i <= trails.len(),
    ensures
        ribbons(trails.take(i)).len() <= ribbons(trails).len(),
    decreases trails.len() - i,
{
    if i < trails.len() {
        lemma_ribbons_grow(trails, i + 1);
        assert(trails.take(i + 1).drop_last() =~= trails.take(i));
    } else {
        assert(trails.take(i) =~= trails);
    }
}

/// Lists the ribbon vertices of all trails, and the vertex range of each trail.
pub fn build_trail_vertices(trails: &Vec<SwordTrail>, segments: &mut Vec<(u32, u32, u32)>) -> (verts:
    Vec<TrailVertex>)
    requires
        ribbons(trails@).len() <= u32::MAX,
    ensures
        verts@ == ribbons(trails@),
        final(segments)@ == ribbon_segments(trails@),
{
    let mut verts: Vec<TrailVertex> = Vec::new();
    segments.clear();
    let mut i: usize = 0;
    assert(trails@.take(0) =~= Seq::empty());
    while i < trails.len()
        invariant
            i <= trails.len(),
            ribbons(trails@).len() <= u32::MAX,
            verts@ == ribbons(trails@.take(i as int)),
            segments@ == ribbon_segments(trails@.take(i as int)),
        decreases trails.len() - i,
    {
        let trail = trails[i];
        proof {
            assert(trails@.take(i + 1).drop_last() =~= trails@.take(i as int));
            lemma_ribbons_grow(trails@, i + 1);
            lemma_ribbons_grow(trails@, i as int);
        }
        if trail.samples >= 2 {
            let ghost was = verts@;
            let start: usize = verts.len();
            let mut k: usize = 0;
            assert(ribbon(trail, i as int).len() == trail.samples * 2);
            while k < trail.samples
                invariant
                    k <= trail.samples,
                    2 <= trail.samples,
                    verts@ == was + ribbon(trail, i as int).take(2 * k),
                    was.len() + trail.samples * 2 <= u32::MAX,
                decreases trail.samples - k,
            {
                verts.push(TrailVertex { trail: i, sample: k, is_base: false });
                verts.push(TrailVertex { trail: i, sample: k, is_base: true });
                k = k + 1;
                assert(verts@ =~= was + ribbon(trail, i as int).take(2 * k));
            }
            assert(ribbon(trail, i as int).take(2 * trail.samples) =~= ribbon(trail, i as int));
            segments.push((trail.draw_path, start as u32, (trail.samples * 2) as u32));
        } else {
            assert(verts@ + ribbon(trail, i as int) =~= verts@);
        }
        i = i + 1;
    }
    assert(trails@.take(trails@.len() as int) =~= trails@);
    verts
}

/// The texture that a sampler place of an emitter is bound to.
#[derive(Clone, Copy, Debug, PartialEq, Eq, Structural)]
pub enum TextureSource {
    /// The white texture that stands for a missing one.
    White,
    /// The file's texture of this index.
    Bntx(u32),
    /// The emitter's own colour texture.
    Color,
    /// The emitter's alpha mask.
    Alpha,
    /// The emitter's distortion map.
    Indirect,
    /// The emitter's third texture.
    Slot2,
    /// One of the emitter's textures three to five, counted from zero.
    Extra(u32),
}

/// Whether uploads were planned for an emitter.
pub open spec fn is_planned(plan: TexturePlan, set: int, emitter: int) -> bool {
    0 <= set < plan.emitters@.len() && 0 <= emitter < plan.emitters@[set]@.len()
}

/// Whether the file's texture of an index was uploaded.
pub open spec fn has_bntx(plan: TexturePlan, index: u32) -> bool {
    index < plan.bntx@.len() && !(plan.bntx@[index as int] is Missing)
}

/// What a sampler place of an emitter is bound to. The colour place prefers the file's texture of
/// the emitter's index; the second place holds the distortion map or the alpha mask; whatever is
/// missing is white.
pub open spec fn texture_source(
    plan: TexturePlan,
    set: int,
    at: int,
    emitter: EmitterDef,
    slot: u32,
) -> TextureSource {
    let own = plan.emitters@[set]@[at];
    let planned = is_planned(plan, set, at);
    if slot == 0 {
        if has_bntx(plan, emitter.texture_index) {
            TextureSource::Bntx(emitter.texture_index)
        } else if planned && own.color is Some {
            TextureSource::Color
        } else {
            TextureSource::White
        }
    } else if slot == 1 {
        if planned && own.secondary is Some && own.secondary_is_indirect
            == emitter.is_indirect_slot1 {
            if emitter.is_indirect_slot1 {
                TextureSource::Indirect
            } else {
                TextureSource::Alpha
            }
        } else {
            TextureSource::White
        }
    } else if slot == 2 {
        if planned && own.slot2 is Some {
            TextureSource::Slot2
        } else {
            TextureSource::White
        }
    } else if slot <= 5 {
        if planned && own.extra is Some && slot - 3 < own.extra->0@.len()
            && own.extra->0@[slot - 3] is Some {
            TextureSource::Extra((slot - 3) as u32)
        } else {
            TextureSource::White
        }
    } else {
        TextureSource::White
    }
}

/// Resolves the texture that a sampler place of an emitter is bound to.
pub fn emitter_texture_for_slot(
    plan: &TexturePlan,
    emitter_key: (usize, usize),
    emitter: &EmitterDef,
    slot: u32,
) -> (r: TextureSource)
    ensures
        r == texture_source(*plan, emitter_key.0 as int, emitter_key.1 as int, *emitter, slot),
{
    let (set, at) = emitter_key;
    let planned = set < plan.emitters.len() && at < plan.emitters[set].len();
    if slot == 0 {
        let index: usize = emitter.texture_index as usize;
        if index < plan.bntx.len() && !matches!(plan.bntx[index], BntxSource::Missing) {
            TextureSource::Bntx(emitter.texture_index)
        } else if planned && plan.emitters[set][at].color.is_some() {
            TextureSource::Color
        } else {
            TextureSource::White
        }
    } else if slot == 1 {
        if planned && plan.emitters[set][at].secondary.is_some()
            && plan.emitters[set][at].secondary_is_indirect == emitter.is_indirect_slot1 {
            if emitter.is_indirect_slot1 {
                TextureSource::Indirect
            } else {
                TextureSource::Alpha
            }
        } else {
            TextureSource::White
        }
    } else if slot == 2 {
        if planned && plan.emitters[set][at].slot2.is_some() {
            TextureSource::Slot2
        } else {
            TextureSource::White
        }
    } else if slot <= 5 && planned {
        let place: usize = (slot - 3) as usize;
        match &plan.emitters[set][at].extra {
            Some(extra) => if place < extra.len() && extra[place].is_some() {
                TextureSource::Extra(slot - 3)
            } else {
                TextureSource::White
            },
            None => TextureSource::White,
        }
    } else {
        TextureSource::White
    }
}

/// The textures behind the four sampler pairs of an emitter's bind group: colour, alpha mask,
/// distortion map and third texture.
pub fn emitter_tex_bind_group(
    plan: &TexturePlan,
    emitter_key: (usize, usize),
    emitter: &EmitterDef,
) -> (r: (TextureSource, TextureSource, TextureSource, TextureSource))
    ensures
        r.0 == texture_source(*plan, emitter_key.0 as int, emitter_key.1 as int, *emitter, 0),
        r.1 == if emitter.is_indirect_slot1 {
            TextureSource::White
        } else {
            texture_source(*plan, emitter_key.0 as int, emitter_key.1 as int, *emitter, 1)
        },
        r.2 == if emitter.is_indirect_slot1 {
            texture_source(*plan, emitter_key.0 as int, emitter_key.1 as int, *emitter, 1)
        } else {
            TextureSource::White
        },
        r.3 == texture_source(*plan, emitter_key.0 as int, emitter_key.1 as int, *emitter, 2),
{
    let color = emitter_texture_for_slot(plan, emitter_key, emitter, 0);
    let second = emitter_texture_for_slot(plan, emitter_key, emitter, 1);
    let third = emitter_texture_for_slot(plan, emitter_key, emitter, 2);
    if emitter.is_indirect_slot1 {
        (color, TextureSource::White, second, third)
    } else {
        (color, second, TextureSource::White, third)
    }
}

/// What is cached of an emitter's textures.
#[derive(Clone, Copy, Debug, PartialEq, Eq, Structural)]
pub struct CachedTextures {
    pub color: bool,
    pub alpha: bool,
    pub indirect: bool,
    pub slot2: bool,
}

/// A cached texture, or the white one.
pub open spec fn cached_or_white(cached: bool, source: TextureSource) -> TextureSource {
    if cached {
        source
    } else {
        TextureSource::White
    }
}

/// The label of an emitter's combined bind group, and the textures behind its four sampler pairs:
/// what is not cached is white.
pub fn get_combined_tex_bg(key: (usize, usize), cached: CachedTextures) -> (r: (
    String,
    [TextureSource; 4],
))
    ensures
        r.0@ == "combined_tex_bg_"@ + dec(key.0 as nat) + "_"@ + dec(key.1 as nat),
        r.1@ == seq![
            cached_or_white(cached.color, TextureSource::Color),
            cached_or_white(cached.alpha, TextureSource::Alpha),
            cached_or_white(cached.indirect, TextureSource::Indirect),
            cached_or_white(cached.slot2, TextureSource::Slot2),
        ],
{
    let set = dec_text(key.0 as u64);
    let emitter = dec_text(key.1 as u64);
    let mut label = concat("combined_tex_bg_", set.as_str());
    label.append("_");
    label.append(emitter.as_str());
    let color = if cached.color {
        TextureSource::Color
    } else {
        TextureSource::White
    };
    let alpha = if cached.alpha {
        TextureSource::Alpha
    } else {
        TextureSource::White
    };
    let indirect = if cached.indirect {
        TextureSource::Indirect
    } else {
        TextureSource::White
    };
    let slot2 = if cached.slot2 {
        TextureSource::Slot2
    } else {
        TextureSource::White
    };
    let sources = [color, alpha, indirect, slot2];
    assert(sources@ =~= seq![
        cached_or_white(cached.color, TextureSource::Color),
        cached_or_white(cached.alpha, TextureSource::Alpha),
        cached_or_white(cached.indirect, TextureSource::Indirect),
        cached_or_white(cached.slot2, TextureSource::Slot2),
    ]);
    (label, sources)
}

/// The sources of textures three to five: white where the shader does not read one.
pub fn extra_tex345_bind_entries(
    plan: &TexturePlan,
    emitter_key: (usize, usize),
    emitter: &EmitterDef,
    active: [bool; 3],
) -> (r: [TextureSource; 3])
    ensures
        forall|k: int|
            0 <= k < 3 ==> #[trigger] r@[k] == if active@[k] {
                texture_source(
                    *plan,
                    emitter_key.0 as int,
                    emitter_key.1 as int,
                    *emitter,
                    (3 + k) as u32,
                )
            } else {
                TextureSource::White
            },
{
    let a = if active[0] {
        emitter_texture_for_slot(plan, emitter_key, emitter, 3)
    } else {
        TextureSource::White
    };
    let b = if active[1] {
        emitter_texture_for_slot(plan, emitter_key, emitter, 4)
    } else {
        TextureSource::White
    };
    let c = if active[2] {
        emitter_texture_for_slot(plan, emitter_key, emitter, 5)
    } else {
        TextureSource::White
    };
    [a, b, c]
}

/// The bind group that a model's mesh is drawn with.
#[derive(Clone, Copy, Debug, PartialEq, Eq, Structural)]
pub enum MeshTexture {
    /// The emitter's combined colour and alpha group.
    Combined,
    /// The group of the file's texture of this index.
    Bntx(u32),
    /// The emitter's colour group.
    Emitter,
    White,
}

/// Resolves the bind group of a mesh: the emitter's combined group where one was built, else the
/// mesh's own texture, else the emitter's colour texture, else white.
pub fn resolve_mesh_tex_bg(
    plan: &TexturePlan,
    combined: bool,
    sub_mesh_tex_idx: u32,
    emitter_key: (usize, usize),
) -> (r: MeshTexture)
    ensures
        r == if combined {
            MeshTexture::Combined
        } else if sub_mesh_tex_idx != u32::MAX && has_bntx(*plan, sub_mesh_tex_idx) {
            MeshTexture::Bntx(sub_mesh_tex_idx)
        } else if is_planned(*plan, emitter_key.0 as int, emitter_key.1 as int)
            && plan.emitters@[emitter_key.0 as int]@[emitter_key.1 as int].color is Some {
            MeshTexture::Emitter
        } else {
            MeshTexture::White
        },
{
    if combined {
        return MeshTexture::Combined;
    }
    let index: usize = sub_mesh_tex_idx as usize;
    if sub_mesh_tex_idx != u32::MAX && index < plan.bntx.len() && !matches!(
        plan.bntx[index],
        BntxSource::Missing
    ) {
        return MeshTexture::Bntx(sub_mesh_tex_idx);
    }
    let (set, at) = emitter_key;
    if set < plan.emitters.len() && at < plan.emitters[set].len()
        && plan.emitters[set][at].color.is_some() {
        MeshTexture::Emitter
    } else {
        MeshTexture::White
    }
}

/// A bind group of a draw.
#[derive(Clone, Copy, Debug, PartialEq, Eq, Structural)]
pub enum BoundGroup {
    /// One of the shader's own groups.
    Frame(usize),
    /// The emitter's textures, with the place of its distortion parameters.
    EmitterTextures(u64),
    /// Textures three to five and their uniforms.
    ExtraTextures,
    /// An empty group that keeps the place of the one before the soft particle group.
    Placeholder,
    /// Scene depth and soft particle uniforms.
    SoftParticle,
}

/// The groups of a draw in the order of their set numbers.
pub open spec fn bound_groups(draw: PreparedBnshDraw, frame_groups: int) -> Seq<BoundGroup> {
    Seq::new(frame_groups as nat, |k: int| BoundGroup::Frame(k as usize)) + seq![
        BoundGroup::EmitterTextures(draw.indirect_offset),
    ] + (if needs_group2(draw.needs) {
        seq![BoundGroup::ExtraTextures]
    } else if draw.needs.soft_particle {
        seq![BoundGroup::Placeholder]
    } else {
        seq![]
    }) + (if draw.needs.soft_particle {
        seq![BoundGroup::SoftParticle]
    } else {
        seq![]
    })
}

/// Lists the groups of a draw in the order of their set numbers.
pub fn draw_bind_groups(draw: &PreparedBnshDraw, frame_groups: usize) -> (r: Vec<BoundGroup>)
    ensures
        r@ == bound_groups(*draw, frame_groups as int),
{
    let mut r: Vec<BoundGroup> = Vec::new();
    let mut k: usize = 0;
    let ghost frame = Seq::new(frame_groups as nat, |k: int| BoundGroup::Frame(k as usize));
    while k < frame_groups
        invariant
            k <= frame_groups,
            frame == Seq::new(frame_groups as nat, |k: int| BoundGroup::Frame(k as usize)),
            r@ == frame.take(k as int),
        decreases frame_groups - k,
    {
        r.push(BoundGroup::Frame(k));
        k = k + 1;
        assert(r@ =~= frame.take(k as int));
    }
    assert(r@ =~= frame);
    r.push(BoundGroup::EmitterTextures(draw.indirect_offset));
    if draw.needs.group2() {
        r.push(BoundGroup::ExtraTextures);
    } else if draw.needs.soft_particle {
        r.push(BoundGroup::Placeholder);
    }
    if draw.needs.soft_particle {
        r.push(BoundGroup::SoftParticle);
    }
    assert(r@ =~= bound_groups(*draw, frame_groups as int));
    r
}

/// With one group of the shader's own, as every particle shader has, soft particles are always
/// read from the fourth group.
pub proof fn law_soft_particles_are_group_three(draw: PreparedBnshDraw)
    requires
        draw.needs.soft_particle,
    ensures
        bound_groups(draw, 1).len() == 4,
        bound_groups(draw, 1)[3] == BoundGroup::SoftParticle,
{
}

/// Whether a prepared draw belongs in a pass.
pub open spec fn in_pass(
    draw: PreparedBnshDraw,
    draw_path: u32,
    filter: BnshDrawFilter,
    depth: DepthDrawConfig,
) -> bool {
    &&& draw.draw_path == draw_path
    &&& filter_admits(filter, draw.blend)
    &&& depth.opaque_core_only ==> draw.opaque_core
    &&& depth.exclude_opaque_core ==> !draw.opaque_core
}

/// The draws of a pass, by their place in the frame's draw list.
pub open spec fn pass_draws(
    draws: Seq<PreparedBnshDraw>,
    draw_path: u32,
    filter: BnshDrawFilter,
    depth: DepthDrawConfig,
) -> Seq<usize>
    decreases draws.len(),
{
    if draws.len() == 0 {
        Seq::empty()
    } else {
        let before = pass_draws(draws.drop_last(), draw_path, filter, depth);
        if in_pass(draws.last(), draw_path, filter, depth) {
            before.push((draws.len() - 1) as usize)
        } else {
            before
        }
    }
}

/// The trail ranges of a draw path.
pub open spec fn path_trails(segments: Seq<(u32, u32, u32)>, draw_path: u32) -> Seq<(u32, u32)>
    decreases segments.len(),
{
    if segments.len() == 0 {
        Seq::empty()
    } else {
        let before = path_trails(segments.drop_last(), draw_path);
        let last = segments.last();
        if last.0 == draw_path && last.2 != 0 {
            before.push((last.1, last.2))
        } else {
            before
        }
    }
}

/// What one pass records for a draw path.
#[derive(Debug)]
pub struct PathDraws {
    /// First vertex and vertex count of each trail.
    pub trails: Vec<(u32, u32)>,
    /// Whether trails are tested against depth.
    pub trail_depth: bool,
    /// The places of the billboard draws in the frame's draw list, in the order they are drawn.
    pub draws: Vec<usize>,
}

fn list_path_trails(segments: &Vec<(u32, u32, u32)>, draw_path: u32) -> (r: Vec<(u32, u32)>)
    ensures
        r@ == path_trails(segments@, draw_path),
{
    let mut r: Vec<(u32, u32)> = Vec::new();
    let mut i: usize = 0;
    assert(segments@.take(0) =~= Seq::empty());
    while i < segments.len()
        invariant
            i <= segments.len(),
            r@ == path_trails(segments@.take(i as int), draw_path),
        decreases segments.len() - i,
    {
        assert(segments@.take(i + 1).drop_last() =~= segments@.take(i as int));
        let (path, start, count) = segments[i];
        if path == draw_path && count != 0 {
            r.push((start, count));
        }
        i = i + 1;
    }
    assert(segments@.take(segments@.len() as int) =~= segments@);
    r
}

fn list_pass_draws(
    draws: &Vec<PreparedBnshDraw>,
    draw_path: u32,
    filter: BnshDrawFilter,
    depth: DepthDrawConfig,
) -> (r: Vec<usize>)
    ensures
        r@ == pass_draws(draws@, draw_path, filter, depth),
{
    let mut r: Vec<usize> = Vec::new();
    let mut i: usize = 0;
    assert(draws@.take(0) =~= Seq::empty());
    while i < draws.len()
        invariant
            i <= draws.len(),
            r@ == pass_draws(draws@.take(i as int), draw_path, filter, depth),
        decreases draws.len() - i,
    {
        assert(draws@.take(i + 1).drop_last() =~= draws@.take(i as int));
        let draw = draws[i];
        if draw.draw_path == draw_path && bnsh_draw_filter_matches(filter, draw.blend)
            && (!depth.opaque_core_only || draw.opaque_core) && (!depth.exclude_opaque_core
            || !draw.opaque_core) {
            r.push(i);
        }
        i = i + 1;
    }
    assert(draws@.take(draws@.len() as int) =~= draws@);
    r
}

fn reversed(v: &Vec<usize>) -> (r: Vec<usize>)
    ensures
        r@ == v@.reverse(),
{
    let mut r: Vec<usize> = Vec::new();
    let mut i: usize = v.len();
    while i > 0
        invariant
            i <= v.len(),
            r@ == v@.reverse().take(v@.len() - i),
        decreases i,
    {
        i = i - 1;
        r.push(v[i]);
        assert(r@ =~= v@.reverse().take(v@.len() - i));
    }
    assert(r@ =~= v@.reverse());
    r
}

/// Whether a list is the distinct draw paths of a frame, ascending.
pub open spec fn is_path_list(
    paths: Seq<u32>,
    ps: Seq<FrameParticle>,
    trails: Seq<SwordTrail>,
) -> bool {
    &&& forall|i: int, j: int| 0 <= i < j < paths.len() ==> paths[i] < paths[j]
    &&& forall|path: u32| #[trigger]
        paths.contains(path) <==> (exists|i: int|
            0 <= i < ps.len() && (#[trigger] ps[i]).batch.draw_path == path) || (exists|i: int|
            0 <= i < trails.len() && (#[trigger] trails[i]).draw_path == path)
}

fn insert_path(paths: &mut Vec<u32>, path: u32)
    requires
        forall|i: int, j: int| 0 <= i < j < old(paths)@.len() ==> old(paths)@[i] < old(paths)@[j],
    ensures
        forall|i: int, j: int|
            0 <= i < j < final(paths)@.len() ==> final(paths)@[i] < final(paths)@[j],
        forall|p: u32| #[trigger]
            final(paths)@.contains(p) <==> p == path || old(paths)@.contains(p),
{
    let ghost was = paths@;
    let mut i: usize = 0;
    while i < paths.len() && paths[i] < path
        invariant
            i <= paths.len(),
            paths@ == was,
            forall|j: int| 0 <= j < i ==> #[trigger] was[j] < path,
        decreases paths.len() - i,
    {
        i = i + 1;
    }
    if i < paths.len() && paths[i] == path {
        assert(was[i as int] == path);
        return ;
    }
    paths.insert(i, path);
    proof {
        let now = paths@;
        let at = i as int;
        assert(now == was.insert(at, path));
        assert forall|p: u32| #[trigger] now.contains(p) <==> p == path || was.contains(p) by {
            if was.contains(p) {
                let k = was.index_of(p);
                assert(now[if k < at { k } else { k + 1 }] == p);
            }
            if p == path {
                assert(now[at] == p);
            }
            if now.contains(p) && p != path {
                let k = now.index_of(p);
                assert(was[if k < at { k } else { k - 1 }] == p);
            }
        }
    }
}

/// The distinct draw paths of a frame's particles and trails, ascending.
pub fn distinct_draw_paths(particles: &Vec<FrameParticle>, trails: &Vec<SwordTrail>) -> (paths: Vec<
    u32,
>)
    ensures
        is_path_list(paths@, particles@, trails@),
{
    let mut paths: Vec<u32> = Vec::new();
    let mut i: usize = 0;
    while i < particles.len()
        invariant
            i <= particles.len(),
            forall|i: int, j: int| 0 <= i < j < paths@.len() ==> paths@[i] < paths@[j],
            forall|path: u32| #[trigger]
                paths@.contains(path) <==> exists|k: int|
                    0 <= k < i && (#[trigger] particles@[k]).batch.draw_path == path,
        decreases particles.len() - i,
    {
        let ghost was = paths@;
        insert_path(&mut paths, particles[i].batch.draw_path);
        assert forall|path: u32| #[trigger] paths@.contains(path) <==> exists|k: int|
            0 <= k < i + 1 && (#[trigger] particles@[k]).batch.draw_path == path by {
            if path == particles@[i as int].batch.draw_path {
                assert(particles@[i as int].batch.draw_path == path);
            }
            if was.contains(path) {
                let k = choose|k: int|
                    0 <= k < i && (#[trigger] particles@[k]).batch.draw_path == path;
                assert(particles@[k].batch.draw_path == path);
            }
        }
        i = i + 1;
    }
    let mut t: usize = 0;
    while t < trails.len()
        invariant
            t <= trails.len(),
            forall|i: int, j: int| 0 <= i < j < paths@.len() ==> paths@[i] < paths@[j],
            forall|path: u32| #[trigger]
                paths@.contains(path) <==> (exists|k: int|
                    0 <= k < particles@.len() && (#[trigger] particles@[k]).batch.draw_path == path)
                    || (exists|k: int| 0 <= k < t && (#[trigger] trails@[k]).draw_path == path),
        decreases trails.len() - t,
    {
        let ghost was = paths@;
        insert_path(&mut paths, trails[t].draw_path);
        assert forall|path: u32| #[trigger]
            paths@.contains(path) <==> (exists|k: int|
                0 <= k < particles@.len() && (#[trigger] particles@[k]).batch.draw_path == path) || (
            exists|k: int| 0 <= k < t + 1 && (#[trigger] trails@[k]).draw_path == path) by {
            if path == trails@[t as int].draw_path {
                assert(trails@[t as int].draw_path == path);
            }
            if exists|k: int| 0 <= k < t && (#[trigger] trails@[k]).draw_path == path {
                let k = choose|k: int| 0 <= k < t && (#[trigger] trails@[k]).draw_path == path;
                assert(trails@[k].draw_path == path);
            }
        }
        t = t + 1;
    }
    paths
}

/// What a frame needs of the renderer's buffers.
#[derive(Debug)]
pub struct FramePlan {
    /// The particles in the order their vertices are written.
    pub order: Vec<usize>,
    /// The vertices of the trail ribbons.
    pub trail_vertices: Vec<TrailVertex>,
    /// The size the trail buffer is made anew with, in vertices.
    pub grow_trails: Option<usize>,
    /// The size the particle buffer is made anew with, in vertices.
    pub grow_vertices: Option<u64>,
}

/// The renderer's state between the frame's preparation and its drawing.
#[derive(Debug)]
pub struct ParticleRenderer {
    /// Format of the surface that is composited to.
    pub surface_format: TextureFormat,
    /// Format of the offscreen targets that particles are drawn to.
    pub particle_format: TextureFormat,
    /// How many colour and Sub targets are ready to be composited.
    pub blit_groups: usize,
    pub sub_blit_groups: usize,
    /// Sizes of the buffers, in vertices; zero where there is none yet.
    pub trail_capacity: usize,
    pub vertex_capacity: u64,
    pub prepared_trail_vertex_count: u32,
    pub prepared_trail_segments: Vec<(u32, u32, u32)>,
    pub prepared_bnsh_draws: Vec<PreparedBnshDraw>,
    pub prepared_draw_paths: Vec<u32>,
    /// Whether the scene's depth can be sampled.
    pub has_scene_depth: bool,
    /// Shader sampler names and their binding slots; no name occurs twice.
    pub material_texture_bindings: Vec<(String, u32)>,
}

/// The vertices of all draws of a list.
fn count_vertices(draws: &Vec<PreparedBnshDraw>) -> (n: u64)
    requires
        draws@.len() <= u32::MAX,
    ensures
        n == vertices_before(draws@),
{
    let mut n: u64 = 0;
    let mut i: usize = 0;
    assert(draws@.take(0) =~= Seq::empty());
    while i < draws.len()
        invariant
            i <= draws@.len() <= u32::MAX,
            n == vertices_before(draws@.take(i as int)),
            n <= i * u32::MAX,
        decreases draws.len() - i,
    {
        assert(draws@.take(i + 1).drop_last() =~= draws@.take(i as int));
        assert((i + 1) * u32::MAX == i * u32::MAX + u32::MAX && (i + 1) * u32::MAX <= 0xffff_ffff
            * 0xffff_ffff) by (nonlinear_arith)
            requires
                i + 1 <= 0xffff_ffff,
        ;
        n = n + draws[i].vertex_count as u64;
        i = i + 1;
    }
    assert(draws@.take(draws@.len() as int) =~= draws@);
    n
}

proof fn lemma_draw_order_distinct(
    order: Seq<usize>,
    ps: Seq<FrameParticle>,
    only: Option<usize>,
    skip: Option<usize>,
)
    requires
        is_draw_order(order, ps, only, skip),
    ensures
        order.no_duplicates(),
        forall|i: int| 0 <= i < order.len() ==> #[trigger] order[i] < ps.len(),
{
    assert forall|i: int, j: int| 0 <= i < order.len() && 0 <= j < order.len() && i
        != j implies order[i] != order[j] by {
        if i < j {
            assert(crate::particle_frame::drawn_before(ps, order[i] as int, order[j] as int));
        } else {
            assert(crate::particle_frame::drawn_before(ps, order[j] as int, order[i] as int));
        }
    }
    assert forall|i: int| 0 <= i < order.len() implies #[trigger] order[i] < ps.len() by {
        assert(order.contains(order[i]));
    }
}

/// The depth that soft particles sample.
#[derive(Clone, Copy, Debug, PartialEq, Eq, Structural)]
pub enum DepthSource {
    /// The depth of the scene behind the particles.
    Scene,
    /// A texture at the farthest depth.
    Fallback,
}

/// One blit of an offscreen target onto the surface, by the target's place.
#[derive(Clone, Copy, Debug, PartialEq, Eq, Structural)]
pub enum BlitDraw {
    Colour(usize),
    Sub(usize),
}

/// The blits of `n` draw paths: each path's colour target, then its Sub target.
pub open spec fn blit_draws(n: int) -> Seq<BlitDraw> {
    Seq::new(
        (2 * n) as nat,
        |i: int|
            if i % 2 == 0 {
                BlitDraw::Colour((i / 2) as usize)
            } else {
                BlitDraw::Sub((i / 2) as usize)
            },
    )
}

/// Whether a buffer of `capacity` is made anew for `needed` vertices.
pub open spec fn grown(capacity: int, needed: int) -> Option<int> {
    if needed > 0 && capacity < needed {
        Some(needed)
    } else {
        None
    }
}

/// The size of a buffer after it was made ready for `needed` vertices.
pub open spec fn grown_capacity(capacity: int, needed: int) -> int {
    if capacity < needed {
        needed
    } else {
        capacity
    }
}

impl ParticleRenderer {
    /// A renderer that has prepared nothing.
    pub fn new(surface_format: TextureFormat) -> (r: ParticleRenderer)
        ensures
            r.surface_format == surface_format,
            r.particle_format == surface_format,
            r.is_fresh(),
    {
        ParticleRenderer::new_with_particle_format(surface_format, surface_format)
    }

    /// Whether nothing was prepared or bound yet.
    pub open spec fn is_fresh(&self) -> bool {
        &&& self.blit_groups == 0
        &&& self.sub_blit_groups == 0
        &&& self.trail_capacity == 0
        &&& self.vertex_capacity == 0
        &&& self.prepared_trail_vertex_count == 0
        &&& self.prepared_trail_segments@.len() == 0
        &&& self.prepared_bnsh_draws@.len() == 0
        &&& self.prepared_draw_paths@.len() == 0
        &&& !self.has_scene_depth
        &&& self.material_texture_bindings@.len() == 0
    }

    /// A renderer that draws particles into targets of another format than the surface.
    pub fn new_with_particle_format(
        surface_format: TextureFormat,
        particle_format: TextureFormat,
    ) -> (r: ParticleRenderer)
        ensures
            r.surface_format == surface_format,
            r.particle_format == particle_format,
            r.is_fresh(),
    {
        ParticleRenderer {
            surface_format,
            particle_format,
            blit_groups: 0,
            sub_blit_groups: 0,
            trail_capacity: 0,
            vertex_capacity: 0,
            prepared_trail_vertex_count: 0,
            prepared_trail_segments: Vec::new(),
            prepared_bnsh_draws: Vec::new(),
            prepared_draw_paths: Vec::new(),
            has_scene_depth: false,
            material_texture_bindings: Vec::new(),
        }
    }

    /// Whether the composite tonemaps: particles are drawn in another format than the surface.
    pub fn hdr_composite(&self) -> (r: bool)
        ensures
            r == (self.particle_format != self.surface_format),
    {
        self.particle_format != self.surface_format
    }

    /// Prepares a frame: its draw paths, its trail ranges and its draws. `emitters` says how each
    /// emitter of each set is drawn; `only` and `skip` show one emitter alone or leave one out.
    pub fn prepare_particle_frame(
        &mut self,
        particles: &Vec<FrameParticle>,
        trails: &Vec<SwordTrail>,
        emitters: &Vec<Vec<EmitterDraw>>,
        only: Option<usize>,
        skip: Option<usize>,
    ) -> (plan: FramePlan)
        requires
            particles@.len() <= u32::MAX,
            total_vertices(particles@) <= u32::MAX,
            ribbons(trails@).len() <= u32::MAX,
        ensures
            is_draw_order(plan.order@, particles@, only, skip),
            is_draw_list(final(self).prepared_bnsh_draws@, plan.order@, particles@, emitters@),
            is_path_list(final(self).prepared_draw_paths@, particles@, trails@),
            plan.trail_vertices@ == ribbons(trails@),
            final(self).prepared_trail_segments@ == ribbon_segments(trails@),
            final(self).prepared_trail_vertex_count == ribbons(trails@).len(),
            ({
                let needed = ribbons(trails@).len() as int;
                &&& match plan.grow_trails {
                    Some(n) => grown(old(self).trail_capacity as int, needed) == Some(n as int),
                    None => grown(old(self).trail_capacity as int, needed) is None,
                }
                &&& final(self).trail_capacity == grown_capacity(
                    old(self).trail_capacity as int,
                    needed,
                )
            }),
            ({
                let needed = vertices_before(final(self).prepared_bnsh_draws@);
                &&& match plan.grow_vertices {
                    Some(n) => grown(old(self).vertex_capacity as int, needed) == Some(n as int),
                    None => grown(old(self).vertex_capacity as int, needed) is None,
                }
                &&& final(self).vertex_capacity == grown_capacity(
                    old(self).vertex_capacity as int,
                    needed,
                )
            }),
            final(self).surface_format == old(self).surface_format,
            final(self).particle_format == old(self).particle_format,
            final(self).blit_groups == old(self).blit_groups,
            final(self).sub_blit_groups == old(self).sub_blit_groups,
            final(self).has_scene_depth == old(self).has_scene_depth,
            final(self).material_texture_bindings == old(self).material_texture_bindings,
    {
        let trail_vertices = build_trail_vertices(trails, &mut self.prepared_trail_segments);
        self.prepared_trail_vertex_count = trail_vertices.len() as u32;
        let mut grow_trails: Option<usize> = None;
        if self.trail_capacity < trail_vertices.len() {
            grow_trails = Some(trail_vertices.len());
            self.trail_capacity = trail_vertices.len();
        }
        self.prepared_draw_paths = distinct_draw_paths(particles, trails);
        let order = draw_order(particles, only, skip);
        proof {
            lemma_draw_order_distinct(order@, particles@, only, skip);
            lemma_distinct_within(order@, particles@.len());
        }
        self.prepared_bnsh_draws = plan_draws(&order, particles, emitters);
        proof {
            lemma_runs_within(
                crate::particle_frame::ordered_keys(order@, particles@),
            );
            let pred = |run: (int, int)|
                crate::particle_frame::run_drawn(run, order@, particles@, emitters@);
            lemma_filter_within(
                crate::particle_frame::runs(
                    crate::particle_frame::ordered_keys(order@, particles@),
                ),
                pred,
            );
        }
        let needed = count_vertices(&self.prepared_bnsh_draws);
        let mut grow_vertices: Option<u64> = None;
        if self.vertex_capacity < needed {
            grow_vertices = Some(needed);
            self.vertex_capacity = needed;
        }
        FramePlan { order, trail_vertices, grow_trails, grow_vertices }
    }

    /// Ascending draw path ids of the prepared frame.
    pub fn prepared_draw_paths(&self) -> (r: &[u32])
        ensures
            r@ == self.prepared_draw_paths@,
    {
        self.prepared_draw_paths.as_slice()
    }

    /// How many trail vertices the prepared frame has.
    pub fn prepared_trail_vertex_count(&self) -> (r: u32)
        ensures
            r == self.prepared_trail_vertex_count,
    {
        self.prepared_trail_vertex_count
    }

    /// The path, first vertex and vertex count of each trail of the prepared frame.
    pub fn prepared_trail_segments(&self) -> (r: &[(u32, u32, u32)])
        ensures
            r@ == self.prepared_trail_segments@,
    {
        self.prepared_trail_segments.as_slice()
    }

    /// What a pass records for a draw path.
    pub open spec fn is_path_draws(
        &self,
        r: PathDraws,
        draw_path: u32,
        include_trails: bool,
        filter: BnshDrawFilter,
        depth: DepthDrawConfig,
    ) -> bool {
        let picked = pass_draws(self.prepared_bnsh_draws@, draw_path, filter, depth);
        &&& r.trail_depth == depth.test
        &&& r.trails@ == if include_trails && !depth.opaque_core_only && self.trail_capacity > 0 {
            path_trails(self.prepared_trail_segments@, draw_path)
        } else {
            Seq::empty()
        }
        &&& r.draws@ == if self.vertex_capacity == 0 {
            Seq::empty()
        } else if depth.reverse_order {
            picked.reverse()
        } else {
            picked
        }
    }

    /// Lists what a pass records for one draw path.
    pub fn draw_prepared_particles_for_path(
        &self,
        draw_path: u32,
        include_trails: bool,
        filter: BnshDrawFilter,
        depth: DepthDrawConfig,
    ) -> (r: PathDraws)
        ensures
            self.is_path_draws(r, draw_path, include_trails, filter, depth),
    {
        let trails = if include_trails && !depth.opaque_core_only && self.trail_capacity > 0 {
            list_path_trails(&self.prepared_trail_segments, draw_path)
        } else {
            Vec::new()
        };
        let draws = if self.vertex_capacity == 0 {
            Vec::new()
        } else {
            let picked = list_pass_draws(&self.prepared_bnsh_draws, draw_path, filter, depth);
            if depth.reverse_order {
                reversed(&picked)
            } else {
                picked
            }
        };
        PathDraws { trails, trail_depth: depth.test, draws }
    }

    /// Lists what a pass records for every draw path, in ascending order of the paths.
    pub fn draw_prepared_particles_filtered(
        &self,
        include_trails: bool,
        filter: BnshDrawFilter,
        depth: DepthDrawConfig,
    ) -> (r: Vec<PathDraws>)
        ensures
            r@.len() == self.prepared_draw_paths@.len(),
            forall|i: int|
                0 <= i < r@.len() ==> self.is_path_draws(
                    #[trigger] r@[i],
                    self.prepared_draw_paths@[i],
                    include_trails,
                    filter,
                    depth,
                ),
    {
        let mut r: Vec<PathDraws> = Vec::new();
        let mut i: usize = 0;
        while i < self.prepared_draw_paths.len()
            invariant
                i <= self.prepared_draw_paths.len(),
                r@.len() == i,
                forall|j: int|
                    0 <= j < i ==> self.is_path_draws(
                        #[trigger] r@[j],
                        self.prepared_draw_paths@[j],
                        include_trails,
                        filter,
                        depth,
                    ),
            decreases self.prepared_draw_paths.len() - i,
        {
            r.push(
                self.draw_prepared_particles_for_path(
                    self.prepared_draw_paths[i],
                    include_trails,
                    filter,
                    depth,
                ),
            );
            i = i + 1;
        }
        r
    }

    /// Lists every draw of the prepared frame, with its trails.
    pub fn draw_prepared_particles(&self) -> (r: Vec<PathDraws>)
        ensures
            r@.len() == self.prepared_draw_paths@.len(),
            forall|i: int|
                0 <= i < r@.len() ==> self.is_path_draws(
                    #[trigger] r@[i],
                    self.prepared_draw_paths@[i],
                    true,
                    BnshDrawFilter::All,
                    (DepthDrawConfig {
                        test: false,
                        write: false,
                        opaque_core_only: false,
                        exclude_opaque_core: false,
                        reverse_order: false,
                    }),
                ),
    {
        self.draw_prepared_particles_filtered(true, BnshDrawFilter::All, DepthDrawConfig::none())
    }

    /// The passes that draw the prepared frame into one target: for each path its colour draws with
    /// trails, then its Sub draws; the first pass clears the target.
    pub fn render(&self) -> (r: Vec<(bool, PathDraws, PathDraws)>)
        ensures
            r@.len() == self.prepared_draw_paths@.len(),
            forall|i: int|
                0 <= i < r@.len() ==> {
                    let none = DepthDrawConfig {
                        test: false,
                        write: false,
                        opaque_core_only: false,
                        exclude_opaque_core: false,
                        reverse_order: false,
                    };
                    let path = self.prepared_draw_paths@[i];
                    &&& (#[trigger] r@[i]).0 == (i == 0)
                    &&& self.is_path_draws(r@[i].1, path, true, BnshDrawFilter::ExcludeSub, none)
                    &&& self.is_path_draws(r@[i].2, path, false, BnshDrawFilter::SubOnly, none)
                },
    {
        let mut r: Vec<(bool, PathDraws, PathDraws)> = Vec::new();
        let mut i: usize = 0;
        while i < self.prepared_draw_paths.len()
            invariant
                i <= self.prepared_draw_paths.len(),
                r@.len() == i,
                forall|i: int|
                    0 <= i < r@.len() ==> {
                        let none = DepthDrawConfig {
                            test: false,
                            write: false,
                            opaque_core_only: false,
                            exclude_opaque_core: false,
                            reverse_order: false,
                        };
                        let path = self.prepared_draw_paths@[i];
                        &&& (#[trigger] r@[i]).0 == (i == 0)
                        &&& self.is_path_draws(
                            r@[i].1,
                            path,
                            true,
                            BnshDrawFilter::ExcludeSub,
                            none,
                        )
                        &&& self.is_path_draws(r@[i].2, path, false, BnshDrawFilter::SubOnly, none)
                    },
            decreases self.prepared_draw_paths.len() - i,
        {
            let path: u32 = self.prepared_draw_paths[i];
            let colour = self.draw_prepared_particles_for_path(
                path,
                true,
                BnshDrawFilter::ExcludeSub,
                DepthDrawConfig::none(),
            );
            let sub = self.draw_prepared_particles_for_path(
                path,
                false,
                BnshDrawFilter::SubOnly,
                DepthDrawConfig::none(),
            );
            r.push((i == 0, colour, sub));
            i = i + 1;
        }
        r
    }

    /// Notes that a colour and a Sub target per draw path are ready to be composited.
    pub fn prepare_composite(&mut self, color_views: usize, sub_views: usize)
        requires
            color_views == sub_views,
        ensures
            final(self).blit_groups == color_views,
            final(self).sub_blit_groups == sub_views,
            *final(self) == (ParticleRenderer {
                blit_groups: color_views,
                sub_blit_groups: sub_views,
                ..*old(self)
            }),
    {
        self.blit_groups = color_views;
        self.sub_blit_groups = sub_views;
    }

    /// Whether a colour and a Sub target are ready for every path that was prepared for them.
    pub fn editor_composite_is_ready(&self) -> (r: bool)
        ensures
            r == (self.blit_groups > 0 && self.blit_groups == self.sub_blit_groups),
    {
        self.blit_groups > 0 && self.blit_groups == self.sub_blit_groups
    }

    /// Whether the prepared frame has draw paths to composite.
    pub fn editor_needs_composite(&self) -> (r: bool)
        ensures
            r == (self.prepared_draw_paths@.len() > 0),
    {
        self.prepared_draw_paths.len() > 0
    }

    /// Lists the blits of the targets that are ready: for each draw path, ascending, its colour and
    /// then its Sub target.
    fn composite_draw_paths(&self) -> (r: Vec<BlitDraw>)
        requires
            self.blit_groups == self.sub_blit_groups,
        ensures
            r@ == blit_draws(self.blit_groups as int),
    {
        let mut r: Vec<BlitDraw> = Vec::new();
        let mut i: usize = 0;
        while i < self.blit_groups
            invariant
                i <= self.blit_groups,
                r@ == blit_draws(i as int),
            decreases self.blit_groups - i,
        {
            r.push(BlitDraw::Colour(i));
            r.push(BlitDraw::Sub(i));
            i = i + 1;
            assert(r@ =~= blit_draws(i as int));
        }
        r
    }

    /// The blits of the editor's viewport. Its targets are ready.
    pub fn composite_editor_particles(&self) -> (r: Vec<BlitDraw>)
        requires
            self.blit_groups > 0,
            self.blit_groups == self.sub_blit_groups,
        ensures
            r@ == blit_draws(self.blit_groups as int),
    {
        self.composite_draw_paths()
    }

    /// The blits that put the particles onto the surface; none before any target is ready.
    pub fn composite_paths(&self) -> (r: Vec<BlitDraw>)
        requires
            self.blit_groups == self.sub_blit_groups,
        ensures
            r@ == blit_draws(self.blit_groups as int),
    {
        if self.blit_groups == 0 {
            assert(blit_draws(0) =~= Seq::empty());
            return Vec::new();
        }
        self.composite_draw_paths()
    }

    /// The blits that put the particles onto the surface.
    pub fn composite(&self) -> (r: Vec<BlitDraw>)
        requires
            self.blit_groups == self.sub_blit_groups,
        ensures
            r@ == blit_draws(self.blit_groups as int),
    {
        self.composite_paths()
    }

    /// Takes the scene's depth, for soft particles to sample.
    pub fn set_scene_depth_view(&mut self)
        ensures
            *final(self) == (ParticleRenderer { has_scene_depth: true, ..*old(self) }),
    {
        self.has_scene_depth = true;
    }

    /// The depth that soft particles sample: the scene's, once it was taken.
    pub fn soft_particle_depth(&self) -> (r: DepthSource)
        ensures
            r == if self.has_scene_depth {
                DepthSource::Scene
            } else {
                DepthSource::Fallback
            },
    {
        if self.has_scene_depth {
            DepthSource::Scene
        } else {
            DepthSource::Fallback
        }
    }

    /// Takes the binding slots that shader reflection gave for the material samplers.
    pub fn set_material_texture_bindings(&mut self, bindings: Vec<(String, u32)>)
        ensures
            *final(self) == (ParticleRenderer {
                material_texture_bindings: bindings,
                ..*old(self)
            }),
    {
        self.material_texture_bindings = bindings;
    }

    /// The binding slot of a material sampler; none where the shader has no such sampler.
    pub fn get_material_texture_slot(&self, sampler_name: &str) -> (r: Option<u32>)
        ensures
            match r {
                Some(slot) => exists|i: int|
                    0 <= i < self.material_texture_bindings@.len() && (
                    #[trigger] self.material_texture_bindings@[i]).0@ == sampler_name@
                        && self.material_texture_bindings@[i].1 == slot && forall|j: int|
                        0 <= j < i ==> (#[trigger] self.material_texture_bindings@[j]).0@
                            != sampler_name@,
                None => forall|i: int|
                    0 <= i < self.material_texture_bindings@.len() ==> (
                    #[trigger] self.material_texture_bindings@[i]).0@ != sampler_name@,
            },
    {
        let mut i: usize = 0;
        while i < self.material_texture_bindings.len()
            invariant
                i <= self.material_texture_bindings.len(),
                forall|j: int|
                    0 <= j < i ==> (#[trigger] self.material_texture_bindings@[j]).0@
                        != sampler_name@,
            decreases self.material_texture_bindings.len() - i,
        {
            if same(self.material_texture_bindings[i].0.as_str(), sampler_name) {
                assert(self.material_texture_bindings@[i as int].0@ == sampler_name@);
                return Some(self.material_texture_bindings[i].1);
            }
            i = i + 1;
        }
        None
    }
}

proof fn lemma_runs_within(keys: Seq<crate::particle_frame::BatchKey>)
    ensures
        crate::particle_frame::runs(keys).len() <= keys.len(),
        keys.len() > 0 ==> crate::particle_frame::runs(keys).len() > 0,
    decreases keys.len(),
{
    if keys.len() > 0 {
        lemma_runs_within(keys.drop_last());
    }
}

proof fn lemma_filter_within(s: Seq<(int, int)>, pred: spec_fn((int, int)) -> bool)
    ensures
        s.filter(pred).len() <= s.len(),
    decreases s.len(),
{
    reveal(Seq::filter);
    if s.len() > 0 {
        lemma_filter_within(s.drop_last(), pred);
    }
}

proof fn lemma_distinct_within(order: Seq<usize>, n: nat)
    requires
        order.no_duplicates(),
        forall|i: int| 0 <= i < order.len() ==> #[trigger] order[i] < n,
    ensures
        order.len() <= n,
    decreases n,
{
    if n == 0 {
        if order.len() > 0 {
            assert(order[0] < n);
        }
    } else {
        if exists|i: int| 0 <= i < order.len() && #[trigger] order[i] == n - 1 {
            let at = choose|i: int| 0 <= i < order.len() && #[trigger] order[i] == n - 1;
            let rest = order.remove(at);
            assert forall|i: int| 0 <= i < rest.len() implies #[trigger] rest[i] < n - 1 by {
                let j = if i < at { i } else { i + 1 };
                assert(rest[i] == order[j]);
                assert(order[j] != order[at]);
            }
            assert(rest.no_duplicates()) by {
                assert forall|i: int, j: int| 0 <= i < rest.len() && 0 <= j < rest.len() && i
                    != j implies rest[i] != rest[j] by {
                    let a = if i < at { i } else { i + 1 };
                    let b = if j < at { j } else { j + 1 };
                    assert(order[a] != order[b]);
                }
            }
            lemma_distinct_within(rest, (n - 1) as nat);
        } else {
            lemma_distinct_within(order, (n - 1) as nat);
        }
    }
}

/// In a pass for each of the two filters every draw of a path is drawn in exactly one of them.
pub proof fn law_filters_split_the_draws(draw: PreparedBnshDraw, path: u32, depth: DepthDrawConfig)
    ensures
        in_pass(draw, path, BnshDrawFilter::All, depth) <==> (in_pass(
            draw,
            path,
            BnshDrawFilter::ExcludeSub,
            depth,
        ) || in_pass(draw, path, BnshDrawFilter::SubOnly, depth)),
        !(in_pass(draw, path, BnshDrawFilter::ExcludeSub, depth) && in_pass(
            draw,
            path,
            BnshDrawFilter::SubOnly,
            depth,
        )),
{
}

/// The opaque core pass and the transparent-only pass never draw the same draw, and together draw
/// every draw of the path.
pub proof fn law_depth_passes_split_the_draws(
    draw: PreparedBnshDraw,
    path: u32,
    filter: BnshDrawFilter,
    opaque: DepthDrawConfig,
    transparent: DepthDrawConfig,
)
    requires
        opaque.opaque_core_only && !opaque.exclude_opaque_core,
        transparent.exclude_opaque_core && !transparent.opaque_core_only,
    ensures
        !(in_pass(draw, path, filter, opaque) && in_pass(draw, path, filter, transparent)),
        draw.draw_path == path && filter_admits(filter, draw.blend) ==> in_pass(
            draw,
            path,
            filter,
            opaque,
        ) || in_pass(draw, path, filter, transparent),
{
}

/// A composite of some paths has two steps for each path.
pub proof fn law_two_steps_per_path(draw_paths: Seq<u32>)
    ensures
        composite_steps(draw_paths).len() == 2 * draw_paths.len(),
{
}

/// A filter for Sub draws admits nothing else, one against them everything else, and none leaves
/// out a draw of its path that the depth rules allow.
pub proof fn law_filters_sort_out_sub(blend: BlendType)
    ensures
        filter_admits(BnshDrawFilter::SubOnly, blend) <==> blend == BlendType::Sub,
        filter_admits(BnshDrawFilter::ExcludeSub, blend) <==> blend != BlendType::Sub,
        filter_admits(BnshDrawFilter::All, blend),
{
}

/// The paths are laid over one another in their order, each path's colours before its Sub target.
pub proof fn law_each_path_is_blitted_then_subtracted(draw_paths: Seq<u32>, i: int)
    requires
        0 <= i < draw_paths.len(),
    ensures
        composite_steps(draw_paths)[2 * i] == EditorCompositeStep::BlitDrawPath(draw_paths[i]),
        composite_steps(draw_paths)[2 * i + 1] == EditorCompositeStep::SubDrawPath(draw_paths[i]),
        blit_draws(draw_paths.len() as int).len() == 2 * draw_paths.len(),
        i <= usize::MAX ==> blit_draws(draw_paths.len() as int)[2 * i] == BlitDraw::Colour(
            i as usize,
        ),
        i <= usize::MAX ==> blit_draws(draw_paths.len() as int)[2 * i + 1] == BlitDraw::Sub(
            i as usize,
        ),
{
}

/// The ribbon of a trail alternates between tip and base, sample by sample, and names its own
/// trail. A trail of one sample has no ribbon.
pub proof fn law_a_ribbon_pairs_tip_and_base(trail: SwordTrail, at: usize, i: int)
    requires
        0 <= i < trail.samples,
    ensures
        trail.samples == 1 ==> ribbon(trail, at as int).len() == 0,
        trail.samples >= 2 ==> ribbon(trail, at as int).len() == 2 * trail.samples,
        trail.samples >= 2 ==> ribbon(trail, at as int)[2 * i] == (TrailVertex {
            trail: at,
            sample: i as usize,
            is_base: false,
        }),
        trail.samples >= 2 ==> ribbon(trail, at as int)[2 * i + 1] == (TrailVertex {
            trail: at,
            sample: i as usize,
            is_base: true,
        }),
{
    assert((2 * i) / 2 == i && (2 * i + 1) / 2 == i);
}

/// The ranges of the ribbons lie one behind the other without a gap, each on the path of its trail
/// and with two vertices for each of its samples, and together they are all the vertices there are.
pub proof fn law_ribbon_ranges_divide_the_vertices(trails: Seq<SwordTrail>)
    requires
        ribbons(trails).len() <= u32::MAX,
    ensures
        ribbon_segments(trails).len() == 0 ==> ribbons(trails).len() == 0,
        ribbon_segments(trails).len() > 0 ==> ribbon_segments(trails)[0].1 == 0
            && ribbon_segments(trails).last().1 + ribbon_segments(trails).last().2 == ribbons(
            trails,
        ).len(),
        forall|s: int, t: int|
            0 <= s && t == s + 1 && t < ribbon_segments(trails).len() ==> (
            #[trigger] ribbon_segments(trails)[t]).1 == (#[trigger] ribbon_segments(trails)[s]).1
                + ribbon_segments(trails)[s].2,
        forall|s: int|
            0 <= s < ribbon_segments(trails).len() ==> has_trail(
                trails,
                #[trigger] ribbon_segments(trails)[s],
            ),
    decreases trails.len(),
{
    if trails.len() > 0 {
        let front = trails.drop_last();
        law_ribbon_ranges_divide_the_vertices(front);
        let before = ribbon_segments(front);
        let all = ribbon_segments(trails);
        let trail = trails.last();
        assert forall|s: int| 0 <= s < all.len() implies has_trail(trails, #[trigger] all[s]) by {
            if s < before.len() {
                assert(all[s] == before[s]);
                assert(has_trail(front, before[s]));
                let t = choose|t: int|
                    0 <= t < front.len() && (#[trigger] front[t]).samples >= 2
                        && front[t].draw_path == before[s].0 && 2 * front[t].samples == before[s].2;
                assert(trails[t] == front[t]);
            } else {
                assert(trails[trails.len() - 1] == trail);
            }
        }
        assert forall|s: int, t: int| 0 <= s && t == s + 1 && t < all.len() implies (
        #[trigger] all[t]).1 == (#[trigger] all[s]).1 + all[s].2 by {
            assert(all[s] == before[s]);
            if t < before.len() {
                assert(all[t] == before[t]);
            }
        }
    }
}

/// Whether a range of vertices is that of a trail with a ribbon.
pub open spec fn has_trail(trails: Seq<SwordTrail>, segment: (u32, u32, u32)) -> bool {
    exists|t: int|
        0 <= t < trails.len() && (#[trigger] trails[t]).samples >= 2 && trails[t].draw_path
            == segment.0 && 2 * trails[t].samples == segment.2
}

/// What is bound is there: a place is bound to a texture that was uploaded for that place, and is
/// white only where there is none.
pub proof fn law_what_is_bound_was_uploaded(
    plan: TexturePlan,
    set: int,
    at: int,
    emitter: EmitterDef,
    slot: u32,
)
    requires
        0 <= set < plan.emitters@.len(),
        0 <= at < plan.emitters@[set]@.len(),
    ensures
        ({
            let own = plan.emitters@[set]@[at];
            let index = emitter.texture_index;
            let by_index = index < plan.bntx@.len() && !(plan.bntx@[index as int] is Missing);
            let second = own.secondary is Some && own.secondary_is_indirect
                == emitter.is_indirect_slot1;
            match texture_source(plan, set, at, emitter, slot) {
                TextureSource::Bntx(named) => slot == 0 && named == index && by_index,
                TextureSource::Color => slot == 0 && own.color is Some && !by_index,
                TextureSource::Indirect => slot == 1 && second && emitter.is_indirect_slot1,
                TextureSource::Alpha => slot == 1 && second && !emitter.is_indirect_slot1,
                TextureSource::Slot2 => slot == 2 && own.slot2 is Some,
                TextureSource::Extra(k) => slot == 3 + k && k < 3 && own.extra is Some && k
                    < own.extra->0@.len() && own.extra->0@[k as int] is Some,
                TextureSource::White => {
                    &&& slot == 0 ==> !by_index && own.color is None
                    &&& slot == 1 ==> !second
                    &&& slot == 2 ==> own.slot2 is None
                    &&& 3 <= slot <= 5 ==> own.extra is None || own.extra->0@.len() <= slot - 3
                        || own.extra->0@[slot - 3] is None
                },
            }
        }),
{
}

/// The groups of a draw: the frame's own first, in order, then its emitter's textures, the group of
/// further textures where its shader reads it, and the depth where its particles are soft.
pub proof fn law_groups_are_bound_in_order(draw: PreparedBnshDraw, frame_groups: usize, k: int)
    requires
        0 <= k < frame_groups,
    ensures
        bound_groups(draw, frame_groups as int)[k] == BoundGroup::Frame(k as usize),
        bound_groups(draw, frame_groups as int)[frame_groups as int] == BoundGroup::EmitterTextures(
            draw.indirect_offset,
        ),
        bound_groups(draw, frame_groups as int).contains(BoundGroup::SoftParticle)
            <==> draw.needs.soft_particle,
        bound_groups(draw, frame_groups as int).contains(BoundGroup::ExtraTextures) <==> (
        draw.needs.extra_tex3 || draw.needs.extra_tex4 || draw.needs.extra_tex5
            || draw.needs.tex_blend_uniform || draw.needs.particle_alpha_uniform),
        draw.needs.soft_particle ==> bound_groups(draw, frame_groups as int)[frame_groups + 2]
            == BoundGroup::SoftParticle,
{
    let all = bound_groups(draw, frame_groups as int);
    let n = frame_groups as int;
    if needs_group2(draw.needs) {
        assert(all[n + 1] == BoundGroup::ExtraTextures);
    }
    if draw.needs.soft_particle {
        assert(all[n + 2] == BoundGroup::SoftParticle);
    }
    assert forall|i: int| 0 <= i < all.len() implies #[trigger] all[i] == (if i < n {
        BoundGroup::Frame(i as usize)
    } else if i == n {
        BoundGroup::EmitterTextures(draw.indirect_offset)
    } else if i == n + 2 {
        BoundGroup::SoftParticle
    } else if needs_group2(draw.needs) {
        BoundGroup::ExtraTextures
    } else {
        BoundGroup::Placeholder
    }) by {}
}

/// A pass draws, in the order of the frame, exactly the draws of its path that its filter and its
/// depth rules admit.
pub proof fn law_a_pass_takes_its_own_draws(
    draws: Seq<PreparedBnshDraw>,
    path: u32,
    filter: BnshDrawFilter,
    depth: DepthDrawConfig,
)
    requires
        draws.len() <= usize::MAX,
    ensures
        forall|k: usize|
            #[trigger] pass_draws(draws, path, filter, depth).contains(k) <==> k < draws.len()
                && draws[k as int].draw_path == path && !(filter == BnshDrawFilter::SubOnly
                && draws[k as int].blend != BlendType::Sub) && !(filter
                == BnshDrawFilter::ExcludeSub && draws[k as int].blend == BlendType::Sub) && !(
            depth.opaque_core_only && !draws[k as int].opaque_core) && !(depth.exclude_opaque_core
                && draws[k as int].opaque_core),
        forall|i: int, j: int|
            0 <= i < j < pass_draws(draws, path, filter, depth).len() ==> (#[trigger] pass_draws(
                draws,
                path,
                filter,
                depth,
            )[i]) < (#[trigger] pass_draws(draws, path, filter, depth)[j]),
    decreases draws.len(),
{
    if draws.len() > 0 {
        let front = draws.drop_last();
        law_a_pass_takes_its_own_draws(front, path, filter, depth);
        let before = pass_draws(front, path, filter, depth);
        let all = pass_draws(draws, path, filter, depth);
        let last = (draws.len() - 1) as usize;
        assert forall|i: int| 0 <= i < before.len() implies (#[trigger] before[i]) < last by {
            assert(before.contains(before[i]));
        }
        assert forall|k: usize| #[trigger]
            all.contains(k) <==> before.contains(k) || (k == last && in_pass(
            draws.last(),
            path,
            filter,
            depth,
        )) by {
            if before.contains(k) {
                let i = choose|i: int| 0 <= i < before.len() && before[i] == k;
                assert(all[i] == k);
            }
            if k == last && in_pass(draws.last(), path, filter, depth) {
                assert(all[before.len() as int] == k);
            }
        }
        assert forall|k: usize| k < front.len() implies front[k as int] == #[trigger] draws[k as int] by {}
    }
}

/// A path shows, in their order, exactly its own trails that have vertices.
pub proof fn law_a_path_shows_its_own_trails(segments: Seq<(u32, u32, u32)>, path: u32, i: int)
    requires
        0 <= i < segments.len(),
    ensures
        segments[i].0 == path && segments[i].2 > 0 ==> path_trails(segments, path).contains(
            (segments[i].1, segments[i].2),
        ),
        path_trails(segments.push((path, segments[i].1, 0)), path) == path_trails(segments, path),
        forall|r: (u32, u32)| #[trigger]
            path_trails(segments, path).contains(r) ==> r.1 > 0 && segments.contains(
                (path, r.0, r.1),
            ),
    decreases segments.len(),
{
    let front = segments.drop_last();
    let before = path_trails(front, path);
    let all = path_trails(segments, path);
    let last = segments.last();
    assert(segments.push((path, segments[i].1, 0)).drop_last() =~= segments);
    if segments.len() == 1 {
        assert(front.len() == 0 && before =~= Seq::empty());
        assert(segments[0] == last);
        assert forall|r: (u32, u32)| #[trigger] all.contains(r) implies r.1 > 0
            && segments.contains((path, r.0, r.1)) by {
            assert(all[0] == r);
            assert(segments[0] == (path, r.0, r.1));
        }
        if last.0 == path && last.2 > 0 {
            assert(all[0] == (last.1, last.2));
        }
    } else {
        law_a_path_shows_its_own_trails(front, path, if i < front.len() {
            i
        } else {
            0
        });
        if i < front.len() {
            if segments[i].0 == path && segments[i].2 > 0 {
                assert(front[i] == segments[i]);
                let at = choose|at: int|
                    0 <= at < before.len() && before[at] == (segments[i].1, segments[i].2);
                assert(all[at] == before[at]);
            }
        } else if last.0 == path && last.2 > 0 {
            assert(all[before.len() as int] == (last.1, last.2));
        }
        assert forall|r: (u32, u32)| #[trigger] all.contains(r) implies r.1 > 0
            && segments.contains((path, r.0, r.1)) by {
            let at = choose|at: int| 0 <= at < all.len() && all[at] == r;
            if at < before.len() {
                assert(before[at] == r);
                assert(before.contains(r));
                let s = choose|s: int| 0 <= s < front.len() && front[s] == (path, r.0, r.1);
                assert(segments[s] == (path, r.0, r.1));
            } else {
                assert(segments[segments.len() - 1] == (path, r.0, r.1));
            }
        }
    }
}

/// A buffer grows exactly where it is too small for what is needed, to just that size, and never
/// shrinks.
pub proof fn law_a_buffer_grows_to_what_is_needed(capacity: int, needed: int)
    requires
        0 <= capacity,
        0 <= needed,
    ensures
        grown(capacity, needed) is Some <==> needed > capacity,
        grown(capacity, needed) is Some ==> grown(capacity, needed)->0 == needed,
        grown_capacity(capacity, needed) >= capacity,
        grown_capacity(capacity, needed) >= needed,
        grown_capacity(capacity, needed) == capacity || grown_capacity(capacity, needed) == needed,
{
}

/// The side that is shown is never culled, and the other one is; what is shown from both sides is
/// not culled at all.
pub proof fn law_the_shown_side_is_not_culled(side: DisplaySide, r: Option<Face>)
    requires
        call_ensures(cull_mode_for, (side,), r),
    ensures
        side == DisplaySide::Front ==> r == Some(Face::Back),
        side == DisplaySide::Back ==> r == Some(Face::Front),
        side == DisplaySide::Both ==> r is None,
{
}

/// The two passes of a frame with depth draw every draw, the first the opaque ones alone, from the
/// front, with depth written; only it writes depth.
pub proof fn law_the_passes_of_a_frame(
    core: DepthDrawConfig,
    rest: DepthDrawConfig,
    all: DepthDrawConfig,
    none: DepthDrawConfig,
    draw: PreparedBnshDraw,
    path: u32,
    filter: BnshDrawFilter,
)
    requires
        call_ensures(DepthDrawConfig::opaque_core, (), core),
        call_ensures(DepthDrawConfig::transparent_only, (), rest),
        call_ensures(DepthDrawConfig::transparent, (), all),
        call_ensures(DepthDrawConfig::none, (), none),
    ensures
        core.write && core.test && core.reverse_order,
        !rest.write && !all.write && !none.write,
        all.test && !none.test && !rest.test,
        !rest.reverse_order && !all.reverse_order && !none.reverse_order,
        in_pass(draw, path, filter, core) ==> draw.opaque_core,
        in_pass(draw, path, filter, rest) ==> !draw.opaque_core,
        in_pass(draw, path, filter, none) <==> in_pass(draw, path, filter, core) || in_pass(
            draw,
            path,
            filter,
            rest,
        ),
        in_pass(draw, path, filter, all) <==> in_pass(draw, path, filter, none),
{
}

/// An emitter's second texture is bound once: as a distortion map or as a mask, never as both.
pub proof fn law_a_second_texture_is_bound_once(
    plan: &TexturePlan,
    key: (usize, usize),
    emitter: &EmitterDef,
    r: (TextureSource, TextureSource, TextureSource, TextureSource),
)
    requires
        call_ensures(emitter_tex_bind_group, (plan, key, emitter), r),
    ensures
        r.1 is White || r.2 is White,
        r.1 is White || r.1 is Alpha,
        r.2 is White || r.2 is Indirect,
        r.0 is White || r.0 is Color || r.0 is Bntx,
        r.3 is White || r.3 is Slot2,
        emitter.is_indirect_slot1 ==> r.1 is White,
        !emitter.is_indirect_slot1 ==> r.2 is White,
{
}

/// A mesh is drawn with the combined textures where there are some, else with the texture that its
/// index names, else with its emitter's, and is white only where it has none of these.
pub proof fn law_a_mesh_takes_the_nearest_texture(
    plan: &TexturePlan,
    combined: bool,
    index: u32,
    key: (usize, usize),
    r: MeshTexture,
)
    requires
        call_ensures(resolve_mesh_tex_bg, (plan, combined, index, key), r),
    ensures
        r is Combined <==> combined,
        r is Bntx ==> r == MeshTexture::Bntx(index) && index < plan.bntx@.len() && !(
        plan.bntx@[index as int] is Missing),
        r is White ==> !combined && (index == u32::MAX || index >= plan.bntx@.len()
            || plan.bntx@[index as int] is Missing),
        r is Emitter ==> plan.emitters@[key.0 as int]@[key.1 as int].color is Some,
{
}

/// A texture beyond the first three that the shader does not read is white; one that it reads is
/// that of its own place.
pub proof fn law_unread_textures_are_white(
    plan: &TexturePlan,
    key: (usize, usize),
    emitter: &EmitterDef,
    active: [bool; 3],
    r: [TextureSource; 3],
    k: int,
)
    requires
        call_ensures(extra_tex345_bind_entries, (plan, key, emitter, active), r),
        0 <= k < 3,
    ensures
        !active@[k] ==> r@[k] is White,
        match r@[k] {
            TextureSource::Extra(at) => at == k && active@[k],
            TextureSource::White => true,
            _ => false,
        },
{
    assert(r@[k] is White || active@[k]);
}

/// What a pass records for a path: the same draws in whatever order, trails only where they are
/// asked for and the pass is not for opaque draws alone, and nothing from a buffer that is not
/// there.
pub proof fn law_a_pass_records_its_draws(
    renderer: ParticleRenderer,
    r: PathDraws,
    path: u32,
    include_trails: bool,
    filter: BnshDrawFilter,
    depth: DepthDrawConfig,
    k: usize,
)
    requires
        renderer.is_path_draws(r, path, include_trails, filter, depth),
        renderer.prepared_bnsh_draws@.len() <= usize::MAX,
    ensures
        renderer.vertex_capacity == 0 ==> r.draws@.len() == 0,
        renderer.vertex_capacity > 0 ==> (r.draws@.contains(k) <==> k
            < renderer.prepared_bnsh_draws@.len() && in_pass(
            renderer.prepared_bnsh_draws@[k as int],
            path,
            filter,
            depth,
        )),
        forall|i: int, j: int|
            0 <= i < j < r.draws@.len() ==> ((#[trigger] r.draws@[i]) < (#[trigger] r.draws@[j])
                <==> !depth.reverse_order),
        !include_trails || depth.opaque_core_only || renderer.trail_capacity == 0
            ==> r.trails@.len() == 0,
        include_trails && !depth.opaque_core_only && renderer.trail_capacity > 0 ==> r.trails@
            == path_trails(renderer.prepared_trail_segments@, path),
        r.trail_depth == depth.test,
{
    let picked = pass_draws(renderer.prepared_bnsh_draws@, path, filter, depth);
    law_a_pass_takes_its_own_draws(renderer.prepared_bnsh_draws@, path, filter, depth);
    let back = picked.reverse();
    assert(back.contains(k) <==> picked.contains(k)) by {
        if picked.contains(k) {
            let i = choose|i: int| 0 <= i < picked.len() && picked[i] == k;
            assert(back[picked.len() - 1 - i] == k);
        }
        if back.contains(k) {
            let i = choose|i: int| 0 <= i < back.len() && back[i] == k;
            assert(picked[picked.len() - 1 - i] == k);
        }
    }
    if depth.reverse_order && renderer.vertex_capacity > 0 {
        assert forall|i: int, j: int| 0 <= i < j < back.len() implies (#[trigger] back[i]) > (
        #[trigger] back[j]) by {
            assert(back[i] == picked[picked.len() - 1 - i]);
            assert(back[j] == picked[picked.len() - 1 - j]);
        }
    }
}

} // verus!
