//! What is uploaded for a whole effect file: for each emitter, and for each texture by its index.

use vstd::prelude::*;

use crate::effects::{BfresMesh, BfresModel, EmitterDef, PtclFile, TexAnim};
use crate::text::{contains, has_text, lowercase, unicode_lower};
use crate::texture_data::{upload_view, TextureRes, TextureUpload, UploadView};
use crate::texture_uploads::{
    colour_texture, colour_upload, create_texture_from_res, first_level, is_size_fit, material_error,
    material_upload, names_indirect, plain_upload, secondary_texture, secondary_upload, size_fits,
    upload_ptcl_embedded_texture,
};

verus! {

/// How a texture is read past its edge.
#[derive(Clone, Copy, Debug, PartialEq, Eq, Structural)]
pub enum AddressMode {
    Repeat,
    MirrorRepeat,
    ClampToEdge,
}

/// The address mode of a wrap byte. Mirroring once and then clamping is drawn as clamping; a byte
/// with no known meaning repeats.
pub open spec fn address_mode(wrap: u8) -> AddressMode {
    if wrap == 1 {
        AddressMode::MirrorRepeat
    } else if wrap == 2 || wrap == 3 {
        AddressMode::ClampToEdge
    } else {
        AddressMode::Repeat
    }
}

/// Maps a wrap byte to an address mode.
pub fn address_mode_for(wrap_mode: u8) -> (r: AddressMode)
    ensures
        r == address_mode(wrap_mode),
{
    match wrap_mode {
        0 => AddressMode::Repeat,
        1 => AddressMode::MirrorRepeat,
        2 => AddressMode::ClampToEdge,
        3 => AddressMode::ClampToEdge,
        _ => AddressMode::Repeat,
    }
}

/// How a texture is read between its texels.
#[derive(Clone, Copy, Debug, PartialEq, Eq, Structural)]
pub enum FilterMode {
    Linear,
    Nearest,
}

/// The filter of a filter byte: one is nearest, every other is linear.
pub open spec fn filter_mode(filter: u8) -> FilterMode {
    if filter == 1 {
        FilterMode::Nearest
    } else {
        FilterMode::Linear
    }
}

/// Maps a sampler filter byte to a filter.
pub fn filter_mode_for(filter: u8) -> (r: FilterMode)
    ensures
        r == filter_mode(filter),
{
    match filter {
        0 => FilterMode::Linear,
        1 => FilterMode::Nearest,
        _ => FilterMode::Linear,
    }
}

/// How a texture is sampled.
#[derive(Clone, Copy, Debug, PartialEq, Eq, Structural)]
pub struct TextureSampler {
    pub address_u: AddressMode,
    pub address_v: AddressMode,
    /// The filter of both magnification and minification.
    pub filter: FilterMode,
    /// The filter between mip levels.
    pub mip_filter: FilterMode,
}

/// The sampler of a pair of wrap bytes. Mip levels are always blended.
pub open spec fn wrapped_sampler(wrap_u: u8, wrap_v: u8, filter: FilterMode) -> TextureSampler {
    TextureSampler {
        address_u: address_mode(wrap_u),
        address_v: address_mode(wrap_v),
        filter,
        mip_filter: FilterMode::Linear,
    }
}

fn sampler_for(wrap_u: u8, wrap_v: u8, filter: FilterMode) -> (r: TextureSampler)
    ensures
        r == wrapped_sampler(wrap_u, wrap_v, filter),
{
    TextureSampler {
        address_u: address_mode_for(wrap_u),
        address_v: address_mode_for(wrap_v),
        filter,
        mip_filter: FilterMode::Linear,
    }
}

/// The samplers of an emitter's textures.
#[derive(Clone, Copy, Debug, PartialEq, Eq, Structural)]
pub struct EmitterSamplers {
    pub color: TextureSampler,
    pub secondary: TextureSampler,
    pub slot2: TextureSampler,
    /// Those of textures three to five.
    pub tex3: TextureSampler,
    pub tex4: TextureSampler,
    pub tex5: TextureSampler,
}

/// The samplers of an emitter's textures. The colour texture has its own wrapping and filter; the
/// second and the third share the second wrapping; each of textures three to five has its own
/// wrapping. All but the colour texture are read linearly.
pub open spec fn samplers_of(emitter: EmitterDef) -> EmitterSamplers {
    let second = wrapped_sampler(emitter.tex2_wrap_u, emitter.tex2_wrap_v, FilterMode::Linear);
    let extra = emitter.tex_extra_slots@;
    EmitterSamplers {
        color: wrapped_sampler(
            emitter.tex_wrap_u,
            emitter.tex_wrap_v,
            filter_mode(emitter.tex_filter),
        ),
        secondary: second,
        slot2: second,
        tex3: wrapped_sampler(extra[0].wrap_u, extra[0].wrap_v, FilterMode::Linear),
        tex4: wrapped_sampler(extra[1].wrap_u, extra[1].wrap_v, FilterMode::Linear),
        tex5: wrapped_sampler(extra[2].wrap_u, extra[2].wrap_v, FilterMode::Linear),
    }
}

/// The samplers of an emitter's textures.
pub fn emitter_samplers(emitter: &EmitterDef) -> (r: EmitterSamplers)
    ensures
        r == samplers_of(*emitter),
{
    let second = sampler_for(emitter.tex2_wrap_u, emitter.tex2_wrap_v, FilterMode::Linear);
    let extra = &emitter.tex_extra_slots;
    EmitterSamplers {
        color: sampler_for(
            emitter.tex_wrap_u,
            emitter.tex_wrap_v,
            filter_mode_for(emitter.tex_filter),
        ),
        secondary: second,
        slot2: second,
        tex3: sampler_for(extra[0].wrap_u, extra[0].wrap_v, FilterMode::Linear),
        tex4: sampler_for(extra[1].wrap_u, extra[1].wrap_v, FilterMode::Linear),
        tex5: sampler_for(extra[2].wrap_u, extra[2].wrap_v, FilterMode::Linear),
    }
}

/// The sampler of a texture of a material: clamped along both axes and read linearly.
pub fn material_sampler() -> (r: TextureSampler)
    ensures
        r == (TextureSampler {
            address_u: AddressMode::ClampToEdge,
            address_v: AddressMode::ClampToEdge,
            filter: FilterMode::Linear,
            mip_filter: FilterMode::Linear,
        }),
{
    TextureSampler {
        address_u: AddressMode::ClampToEdge,
        address_v: AddressMode::ClampToEdge,
        filter: FilterMode::Linear,
        mip_filter: FilterMode::Linear,
    }
}

/// The sampler of the white texel that stands in for a missing texture: clamped along both axes and
/// read linearly, with one mip level.
pub fn white_sampler() -> (r: TextureSampler)
    ensures
        r == (TextureSampler {
            address_u: AddressMode::ClampToEdge,
            address_v: AddressMode::ClampToEdge,
            filter: FilterMode::Linear,
            mip_filter: FilterMode::Nearest,
        }),
{
    TextureSampler {
        address_u: AddressMode::ClampToEdge,
        address_v: AddressMode::ClampToEdge,
        filter: FilterMode::Linear,
        mip_filter: FilterMode::Nearest,
    }
}

/// What is uploaded for one emitter.
#[derive(Debug)]
pub struct EmitterTextures {
    /// The colour texture.
    pub color: Option<TextureUpload>,
    /// The alpha mask or distortion map beside it.
    pub secondary: Option<TextureUpload>,
    /// Whether the second texture is a distortion map.
    pub secondary_is_indirect: bool,
    /// The third texture.
    pub slot2: Option<TextureUpload>,
    /// Textures three to five, where the emitter has or animates any of them.
    pub extra: Option<Vec<Option<TextureUpload>>>,
}

/// Where the texture of one index comes from.
#[derive(Debug)]
pub enum BntxSource {
    /// The colour texture that was uploaded for this emitter of this set.
    Emitter { set: usize, emitter: usize },
    /// A texture of its own.
    Own(TextureUpload),
    /// Nothing that can be uploaded.
    Missing,
}

/// What is uploaded for an effect file.
#[derive(Debug)]
pub struct TexturePlan {
    /// For each set, for each of its emitters.
    pub emitters: Vec<Vec<EmitterTextures>>,
    /// For each texture of the file.
    pub bntx: Vec<BntxSource>,
}

/// The first texture of a list whose name marks it as a distortion map.
pub open spec fn first_indirect(textures: Seq<TextureRes>) -> Option<int>
    decreases textures.len(),
{
    if textures.len() == 0 {
        None
    } else {
        match first_indirect(textures.drop_last()) {
            Some(i) => Some(i),
            None => if names_indirect(textures.last().tex_name@) {
                Some(textures.len() - 1)
            } else {
                None
            },
        }
    }
}

/// The place of an emitter's second texture: its distortion map where it has one, else the second
/// of its textures.
pub open spec fn secondary_place(textures: Seq<TextureRes>) -> Option<int> {
    match first_indirect(textures) {
        Some(i) => Some(i),
        None => if textures.len() > 1 {
            Some(1int)
        } else {
            None
        },
    }
}

/// The colour texture of an emitter.
pub open spec fn emitter_color(ptcl: PtclFile, emitter: EmitterDef, honour: bool) -> Option<
    UploadView,
> {
    if emitter.texture_index < ptcl.bntx_textures@.len() {
        colour_upload(
            ptcl.bntx_textures@[emitter.texture_index as int],
            ptcl.texture_section@,
            honour,
            false,
        )
    } else {
        None
    }
}

/// The second texture of an emitter; only an emitter with a colour texture has one.
pub open spec fn emitter_secondary(ptcl: PtclFile, emitter: EmitterDef, honour: bool) -> Option<
    UploadView,
> {
    if emitter_color(ptcl, emitter, honour) is Some {
        match secondary_place(emitter.textures@) {
            Some(i) => secondary_upload(
                emitter.textures@[i],
                ptcl.texture_section@,
                emitter.is_indirect_slot1,
            ),
            None => None,
        }
    } else {
        None
    }
}

/// The texture of an emitter at a sampler place, in its own channel layout.
pub open spec fn emitter_plain(ptcl: PtclFile, emitter: EmitterDef, place: int) -> Option<
    UploadView,
> {
    if place < emitter.textures@.len() {
        plain_upload(emitter.textures@[place], ptcl.texture_section@)
    } else {
        None
    }
}

/// Whether a texture moves in any way.
pub open spec fn is_animated(anim: TexAnim) -> bool {
    anim.is_scroll || anim.is_rotate || anim.is_scale
}

/// Whether an emitter has textures three to five, or animates one of them.
pub open spec fn uses_extra(emitter: EmitterDef) -> bool {
    emitter.textures@.len() > 3 || exists|i: int|
        0 <= i < emitter.tex_anims_extra@.len() && is_animated(
            #[trigger] emitter.tex_anims_extra@[i],
        )
}

/// Whether `plan` is what is uploaded for an emitter.
pub open spec fn emitter_planned(
    plan: EmitterTextures,
    ptcl: PtclFile,
    emitter: EmitterDef,
    honour: bool,
) -> bool {
    &&& upload_view(plan.color) == emitter_color(ptcl, emitter, honour)
    &&& upload_view(plan.secondary) == emitter_secondary(ptcl, emitter, honour)
    &&& plan.secondary_is_indirect == emitter.is_indirect_slot1
    &&& upload_view(plan.slot2) == emitter_plain(ptcl, emitter, 2)
    &&& plan.extra is Some == uses_extra(emitter)
    &&& plan.extra is Some ==> plan.extra->0@.len() == 3 && forall|k: int|
        0 <= k < 3 ==> upload_view(#[trigger] plan.extra->0@[k]) == emitter_plain(
            ptcl,
            emitter,
            3 + k,
        )
}

/// Whether the colour texture of an emitter is the file's texture `index`, and was uploaded.
pub open spec fn claims(ptcl: PtclFile, honour: bool, set: int, emitter: int, index: int) -> bool {
    &&& 0 <= set < ptcl.emitter_sets@.len()
    &&& 0 <= emitter < ptcl.emitter_sets@[set].emitters@.len()
    &&& ptcl.emitter_sets@[set].emitters@[emitter].texture_index == index
    &&& emitter_color(ptcl, ptcl.emitter_sets@[set].emitters@[emitter], honour) is Some
}

/// Whether `source` is where the file's texture `index` comes from: the first emitter that uploaded
/// it, else an upload of its own.
pub open spec fn bntx_planned(
    source: BntxSource,
    ptcl: PtclFile,
    honour: bool,
    index: int,
) -> bool {
    match source {
        BntxSource::Emitter { set, emitter } => {
            &&& claims(ptcl, honour, set as int, emitter as int, index)
            &&& forall|s: int, e: int|
                s < set || (s == set && e < emitter) ==> !claims(ptcl, honour, s, e, index)
        },
        BntxSource::Own(upload) => {
            &&& forall|s: int, e: int| !claims(ptcl, honour, s, e, index)
            &&& colour_upload(ptcl.bntx_textures@[index], ptcl.texture_section@, honour, true)
                == Some(upload@)
        },
        BntxSource::Missing => {
            &&& forall|s: int, e: int| !claims(ptcl, honour, s, e, index)
            &&& colour_upload(
                ptcl.bntx_textures@[index],
                ptcl.texture_section@,
                honour,
                true,
            ) is None
        },
    }
}

/// Whether every texture's size can be counted and its texels addressed.
pub open spec fn sizes_fit(ptcl: PtclFile) -> bool {
    &&& forall|i: int| 0 <= i < ptcl.bntx_textures@.len() ==> size_fits(#[trigger] ptcl.bntx_textures@[i])
    &&& forall|s: int, e: int, t: int|
        0 <= s < ptcl.emitter_sets@.len() && 0 <= e < ptcl.emitter_sets@[s].emitters@.len() && 0 <= t
            < ptcl.emitter_sets@[s].emitters@[e].textures@.len() ==> size_fits(
            #[trigger] ptcl.emitter_sets@[s].emitters@[e].textures@[t],
        )
}

fn are_sizes_fit(textures: &Vec<TextureRes>) -> (r: bool)
    ensures
        r == forall|t: int| 0 <= t < textures@.len() ==> size_fits(#[trigger] textures@[t]),
{
    let mut i: usize = 0;
    while i < textures.len()
        invariant
            i <= textures.len(),
            forall|t: int| 0 <= t < i ==> size_fits(#[trigger] textures@[t]),
        decreases textures.len() - i,
    {
        if !is_size_fit(&textures[i]) {
            assert(!size_fits(textures@[i as int]));
            return false;
        }
        i = i + 1;
    }
    true
}

/// Whether the uploads of a file can be planned: every texture's size can be counted and its texels
/// addressed.
pub fn can_be_planned(ptcl: &PtclFile) -> (r: bool)
    ensures
        r == sizes_fit(*ptcl),
{
    if !are_sizes_fit(&ptcl.bntx_textures) {
        return false;
    }
    let mut s: usize = 0;
    while s < ptcl.emitter_sets.len()
        invariant
            s <= ptcl.emitter_sets.len(),
            forall|p: int, e: int, t: int|
                0 <= p < s && 0 <= e < ptcl.emitter_sets@[p].emitters@.len() && 0 <= t
                    < ptcl.emitter_sets@[p].emitters@[e].textures@.len() ==> size_fits(
                    #[trigger] ptcl.emitter_sets@[p].emitters@[e].textures@[t],
                ),
        decreases ptcl.emitter_sets.len() - s,
    {
        let emitters = &ptcl.emitter_sets[s].emitters;
        let mut i: usize = 0;
        while i < emitters.len()
            invariant
                i <= emitters.len(),
                s < ptcl.emitter_sets@.len(),
                *emitters == ptcl.emitter_sets@[s as int].emitters,
                forall|e: int, t: int|
                    0 <= e < i && 0 <= t < emitters@[e].textures@.len() ==> size_fits(
                        #[trigger] emitters@[e].textures@[t],
                    ),
            decreases emitters.len() - i,
        {
            if !are_sizes_fit(&emitters[i].textures) {
                let ghost textures = emitters@[i as int].textures@;
                proof {
                    let t = choose|t: int|
                        0 <= t < textures.len() && !size_fits(#[trigger] textures[t]);
                    assert(!size_fits(
                        ptcl.emitter_sets@[s as int].emitters@[i as int].textures@[t],
                    ));
                }
                return false;
            }
            i = i + 1;
        }
        assert forall|p: int, e: int, t: int|
            0 <= p < s + 1 && 0 <= e < ptcl.emitter_sets@[p].emitters@.len() && 0 <= t
                < ptcl.emitter_sets@[p].emitters@[e].textures@.len() implies size_fits(
            #[trigger] ptcl.emitter_sets@[p].emitters@[e].textures@[t],
        ) by {
            if p == s {
                assert(size_fits(emitters@[e].textures@[t]));
            }
        }
        s = s + 1;
    }
    true
}

fn find_indirect(textures: &Vec<TextureRes>) -> (r: Option<usize>)
    ensures
        match r {
            Some(i) => first_indirect(textures@) == Some(i as int) && i < textures@.len(),
            None => first_indirect(textures@) is None,
        },
{
    let mut i: usize = 0;
    while i < textures.len()
        invariant
            i <= textures.len(),
            first_indirect(textures@.take(i as int)) is None,
        decreases textures.len() - i,
    {
        assert(textures@.take(i + 1).drop_last() =~= textures@.take(i as int));
        let lower = lowercase(textures[i].tex_name.as_str());
        if has_text(lower.as_str(), "indirect") {
            proof {
                lemma_first_indirect_stays(textures@, i + 1);
            }
            return Some(i);
        }
        i = i + 1;
    }
    assert(textures@.take(textures@.len() as int) =~= textures@);
    None
}

proof fn lemma_first_indirect_stays(textures: Seq<TextureRes>, i: int)
    requires
        0 <= i <= textures.len(),
        first_indirect(textures.take(i)) is Some,
    ensures
        first_indirect(textures) == first_indirect(textures.take(i)),
    decreases textures.len() - i,
{
    if i == textures.len() {
        assert(textures.take(i) =~= textures);
    } else {
        assert(textures.take(i + 1).drop_last() =~= textures.take(i));
        lemma_first_indirect_stays(textures, i + 1);
    }
}

fn any_animated(emitter: &EmitterDef) -> (r: bool)
    ensures
        emitter.textures@.len() <= 3 ==> r == uses_extra(*emitter),
{
    let mut i: usize = 0;
    while i < emitter.tex_anims_extra.len()
        invariant
            i <= emitter.tex_anims_extra.len(),
            forall|j: int| 0 <= j < i ==> !is_animated(#[trigger] emitter.tex_anims_extra@[j]),
        decreases emitter.tex_anims_extra.len() - i,
    {
        let anim = emitter.tex_anims_extra[i];
        if anim.is_scroll || anim.is_rotate || anim.is_scale {
            return true;
        }
        i = i + 1;
    }
    false
}

/// The texture of an emitter at a sampler place.
fn plain_at(emitter: &EmitterDef, section: &Vec<u8>, place: usize) -> (r: Option<TextureUpload>)
    requires
        forall|t: int| 0 <= t < emitter.textures@.len() ==> size_fits(#[trigger] emitter.textures@[t]),
    ensures
        upload_view(r) == if place < emitter.textures@.len() {
            plain_upload(emitter.textures@[place as int], section@)
        } else {
            None
        },
{
    if place < emitter.textures.len() {
        upload_ptcl_embedded_texture(&emitter.textures[place], section)
    } else {
        None
    }
}

/// What is uploaded for one emitter.
pub fn plan_emitter(ptcl: &PtclFile, emitter: &EmitterDef, honour: bool) -> (r: EmitterTextures)
    requires
        sizes_fit(*ptcl),
        forall|t: int| 0 <= t < emitter.textures@.len() ==> size_fits(#[trigger] emitter.textures@[t]),
    ensures
        emitter_planned(r, *ptcl, *emitter, honour),
{
    let index: usize = emitter.texture_index as usize;
    let color = if index < ptcl.bntx_textures.len() {
        colour_texture(&ptcl.bntx_textures[index], &ptcl.texture_section, honour, false)
    } else {
        None
    };
    let place: Option<usize> = match find_indirect(&emitter.textures) {
        Some(i) => Some(i),
        None => if emitter.textures.len() > 1 {
            Some(1)
        } else {
            None
        },
    };
    let secondary = if color.is_some() {
        match place {
            Some(i) => secondary_texture(
                &emitter.textures[i],
                &ptcl.texture_section,
                emitter.is_indirect_slot1,
            ),
            None => None,
        }
    } else {
        None
    };
    let slot2 = plain_at(emitter, &ptcl.texture_section, 2);
    let extra = if emitter.textures.len() > 3 || any_animated(emitter) {
        let mut slots: Vec<Option<TextureUpload>> = Vec::new();
        slots.push(plain_at(emitter, &ptcl.texture_section, 3));
        slots.push(plain_at(emitter, &ptcl.texture_section, 4));
        slots.push(plain_at(emitter, &ptcl.texture_section, 5));
        Some(slots)
    } else {
        None
    };
    EmitterTextures {
        color,
        secondary,
        secondary_is_indirect: emitter.is_indirect_slot1,
        slot2,
        extra,
    }
}

/// The first emitter that uploaded the file's texture `index`.
fn first_claim(
    ptcl: &PtclFile,
    emitters: &Vec<Vec<EmitterTextures>>,
    index: usize,
    Ghost(honour): Ghost<bool>,
) -> (r: Option<(usize, usize)>)
    requires
        emitters@.len() == ptcl.emitter_sets@.len(),
        forall|s: int|
            0 <= s < emitters@.len() ==> (#[trigger] emitters@[s])@.len()
                == ptcl.emitter_sets@[s].emitters@.len(),
        forall|s: int, e: int|
            0 <= s < emitters@.len() && 0 <= e < emitters@[s]@.len() ==> emitter_planned(
                #[trigger] emitters@[s]@[e],
                *ptcl,
                ptcl.emitter_sets@[s].emitters@[e],
                honour,
            ),
    ensures
        match r {
            Some(at) => claims(*ptcl, honour, at.0 as int, at.1 as int, index as int) && forall|
                s: int,
                e: int,
            |
                s < at.0 || (s == at.0 && e < at.1) ==> !claims(*ptcl, honour, s, e, index as int),
            None => forall|s: int, e: int| !claims(*ptcl, honour, s, e, index as int),
        },
{
    let mut s: usize = 0;
    while s < emitters.len()
        invariant
            s <= emitters.len(),
            emitters@.len() == ptcl.emitter_sets@.len(),
            forall|s: int|
                0 <= s < emitters@.len() ==> (#[trigger] emitters@[s])@.len()
                    == ptcl.emitter_sets@[s].emitters@.len(),
            forall|s: int, e: int|
                0 <= s < emitters@.len() && 0 <= e < emitters@[s]@.len() ==> emitter_planned(
                    #[trigger] emitters@[s]@[e],
                    *ptcl,
                    ptcl.emitter_sets@[s].emitters@[e],
                    honour,
                ),
            forall|p: int, e: int| p < s ==> !claims(*ptcl, honour, p, e, index as int),
        decreases emitters.len() - s,
    {
        let mut e: usize = 0;
        while e < emitters[s].len()
            invariant
                s < emitters.len(),
                e <= emitters@[s as int]@.len(),
                emitters@.len() == ptcl.emitter_sets@.len(),
                emitters@[s as int]@.len() == ptcl.emitter_sets@[s as int].emitters@.len(),
                forall|s: int, e: int|
                    0 <= s < emitters@.len() && 0 <= e < emitters@[s]@.len() ==> emitter_planned(
                        #[trigger] emitters@[s]@[e],
                        *ptcl,
                        ptcl.emitter_sets@[s].emitters@[e],
                        honour,
                    ),
                forall|p: int, q: int|
                    p < s || (p == s && q < e) ==> !claims(*ptcl, honour, p, q, index as int),
            decreases emitters@[s as int]@.len() - e,
        {
            assert(emitter_planned(
                emitters@[s as int]@[e as int],
                *ptcl,
                ptcl.emitter_sets@[s as int].emitters@[e as int],
                honour,
            ));
            if emitters[s][e].color.is_some()
                && ptcl.emitter_sets[s].emitters[e].texture_index as usize == index {
                return Some((s, e));
            }
            e = e + 1;
        }
        s = s + 1;
    }
    None
}

/// Plans the uploads of an effect file. `honour_swizzle` says whether two-channel colour textures
/// follow their own swizzle.
pub fn upload_textures(ptcl: &PtclFile, honour_swizzle: bool) -> (plan: TexturePlan)
    requires
        sizes_fit(*ptcl),
    ensures
        plan.emitters@.len() == ptcl.emitter_sets@.len(),
        forall|s: int|
            0 <= s < plan.emitters@.len() ==> (#[trigger] plan.emitters@[s])@.len()
                == ptcl.emitter_sets@[s].emitters@.len(),
        forall|s: int, e: int|
            0 <= s < plan.emitters@.len() && 0 <= e < plan.emitters@[s]@.len() ==> emitter_planned(
                #[trigger] plan.emitters@[s]@[e],
                *ptcl,
                ptcl.emitter_sets@[s].emitters@[e],
                honour_swizzle,
            ),
        plan.bntx@.len() == ptcl.bntx_textures@.len(),
        forall|i: int|
            0 <= i < plan.bntx@.len() ==> bntx_planned(
                #[trigger] plan.bntx@[i],
                *ptcl,
                honour_swizzle,
                i,
            ),
{
    let mut emitters: Vec<Vec<EmitterTextures>> = Vec::new();
    let mut s: usize = 0;
    while s < ptcl.emitter_sets.len()
        invariant
            s <= ptcl.emitter_sets.len(),
            sizes_fit(*ptcl),
            emitters@.len() == s,
            forall|s: int|
                0 <= s < emitters@.len() ==> (#[trigger] emitters@[s])@.len()
                    == ptcl.emitter_sets@[s].emitters@.len(),
            forall|s: int, e: int|
                0 <= s < emitters@.len() && 0 <= e < emitters@[s]@.len() ==> emitter_planned(
                    #[trigger] emitters@[s]@[e],
                    *ptcl,
                    ptcl.emitter_sets@[s].emitters@[e],
                    honour_swizzle,
                ),
        decreases ptcl.emitter_sets.len() - s,
    {
        let set = &ptcl.emitter_sets[s];
        let mut row: Vec<EmitterTextures> = Vec::new();
        let mut e: usize = 0;
        while e < set.emitters.len()
            invariant
                s < ptcl.emitter_sets@.len(),
                *set == ptcl.emitter_sets@[s as int],
                e <= set.emitters.len(),
                sizes_fit(*ptcl),
                row@.len() == e,
                forall|e: int|
                    0 <= e < row@.len() ==> emitter_planned(
                        #[trigger] row@[e],
                        *ptcl,
                        set.emitters@[e],
                        honour_swizzle,
                    ),
            decreases set.emitters.len() - e,
        {
            row.push(plan_emitter(ptcl, &set.emitters[e], honour_swizzle));
            e = e + 1;
        }
        emitters.push(row);
        s = s + 1;
    }
    let mut bntx: Vec<BntxSource> = Vec::new();
    let mut i: usize = 0;
    while i < ptcl.bntx_textures.len()
        invariant
            i <= ptcl.bntx_textures.len(),
            sizes_fit(*ptcl),
            emitters@.len() == ptcl.emitter_sets@.len(),
            forall|s: int|
                0 <= s < emitters@.len() ==> (#[trigger] emitters@[s])@.len()
                    == ptcl.emitter_sets@[s].emitters@.len(),
            forall|s: int, e: int|
                0 <= s < emitters@.len() && 0 <= e < emitters@[s]@.len() ==> emitter_planned(
                    #[trigger] emitters@[s]@[e],
                    *ptcl,
                    ptcl.emitter_sets@[s].emitters@[e],
                    honour_swizzle,
                ),
            bntx@.len() == i,
            forall|j: int|
                0 <= j < i ==> bntx_planned(#[trigger] bntx@[j], *ptcl, honour_swizzle, j),
        decreases ptcl.bntx_textures.len() - i,
    {
        let source = match first_claim(ptcl, &emitters, i, Ghost(honour_swizzle)) {
            Some((set, emitter)) => BntxSource::Emitter { set, emitter },
            None => match colour_texture(
                &ptcl.bntx_textures[i],
                &ptcl.texture_section,
                honour_swizzle,
                true,
            ) {
                Some(upload) => BntxSource::Own(upload),
                None => BntxSource::Missing,
            },
        };
        bntx.push(source);
        i = i + 1;
    }
    TexturePlan { emitters, bntx }
}

/// The sampler of the file's texture `index`, as it is bound by its index: that of the emitter that
/// uploaded it, else one that repeats as the texture itself says; none where nothing is uploaded.
pub open spec fn sampler_by_index(ptcl: PtclFile, source: BntxSource, index: int) -> Option<
    TextureSampler,
> {
    match source {
        BntxSource::Emitter { set, emitter } => Some(
            samplers_of(ptcl.emitter_sets@[set as int].emitters@[emitter as int]).color,
        ),
        BntxSource::Own(upload) => {
            let wrap = ptcl.bntx_textures@[index].wrap_mode;
            Some(wrapped_sampler(wrap, wrap, FilterMode::Linear))
        },
        BntxSource::Missing => None,
    }
}

/// The sampler of a texture that is bound by its index.
pub fn bntx_sampler(ptcl: &PtclFile, plan: &TexturePlan, index: usize) -> (r: Option<
    TextureSampler,
>)
    requires
        index < plan.bntx@.len(),
        index < ptcl.bntx_textures@.len(),
        exists|honour: bool| #[trigger]
            bntx_planned(plan.bntx@[index as int], *ptcl, honour, index as int),
    ensures
        r == sampler_by_index(*ptcl, plan.bntx@[index as int], index as int),
{
    match &plan.bntx[index] {
        BntxSource::Emitter { set, emitter } => {
            let samplers = emitter_samplers(&ptcl.emitter_sets[*set].emitters[*emitter]);
            Some(samplers.color)
        },
        BntxSource::Own(_) => {
            let wrap = ptcl.bntx_textures[index].wrap_mode;
            Some(sampler_for(wrap, wrap, FilterMode::Linear))
        },
        BntxSource::Missing => None,
    }
}

/// Whether the file's texture `index` has texels.
pub open spec fn has_texels(ptcl: PtclFile, index: int) -> bool {
    &&& 0 <= index < ptcl.bntx_textures@.len()
    &&& ptcl.bntx_textures@[index].width > 0
    &&& ptcl.bntx_textures@[index].height > 0
}

/// The indices of the file's textures that have texels, in order. They are covered whether or not
/// an emitter refers to them.
pub fn bntx_indices_covered_by_emitters(ptcl: &PtclFile) -> (r: Vec<u32>)
    requires
        ptcl.bntx_textures@.len() <= u32::MAX,
    ensures
        forall|i: int, j: int| 0 <= i < j < r@.len() ==> r@[i] < r@[j],
        forall|index: u32| r@.contains(index) <==> has_texels(*ptcl, index as int),
{
    let mut r: Vec<u32> = Vec::new();
    let mut i: usize = 0;
    while i < ptcl.bntx_textures.len()
        invariant
            i <= ptcl.bntx_textures.len(),
            ptcl.bntx_textures@.len() <= u32::MAX,
            forall|k: int| 0 <= k < r@.len() ==> #[trigger] r@[k] < i,
            forall|i: int, j: int| 0 <= i < j < r@.len() ==> r@[i] < r@[j],
            forall|index: u32|
                r@.contains(index) <==> has_texels(*ptcl, index as int) && index < i,
        decreases ptcl.bntx_textures.len() - i,
    {
        let ghost was = r@;
        if ptcl.bntx_textures[i].width > 0 && ptcl.bntx_textures[i].height > 0 {
            r.push(i as u32);
            assert forall|index: u32|
                r@.contains(index) <==> has_texels(*ptcl, index as int) && index < i + 1 by {
                if was.contains(index) {
                    let k = was.index_of(index);
                    assert(r@[k] == index);
                }
                if index == i {
                    assert(r@[was.len() as int] == index);
                }
                if r@.contains(index) && index != i {
                    let k = r@.index_of(index);
                    assert(was[k] == index);
                }
            }
        }
        i = i + 1;
    }
    r
}

/// Every texture of the file that can be uploaded is found by its index, whether or not an emitter
/// refers to it.
pub proof fn law_every_texture_is_covered(
    source: BntxSource,
    ptcl: PtclFile,
    honour: bool,
    index: int,
)
    requires
        0 <= index < ptcl.bntx_textures@.len(),
        bntx_planned(source, ptcl, honour, index),
        colour_upload(ptcl.bntx_textures@[index], ptcl.texture_section@, honour, true) is Some,
    ensures
        !(source is Missing),
{
}

/// Which texture of a mesh a material takes.
#[derive(Clone, Copy, Debug, PartialEq, Eq, Structural)]
pub enum MaterialSlot {
    Color,
    Emissive,
    Pbr,
}

/// The index of a mesh's texture for a slot.
pub open spec fn slot_index(mesh: BfresMesh, slot: MaterialSlot) -> u32 {
    match slot {
        MaterialSlot::Color => mesh.texture_index,
        MaterialSlot::Emissive => mesh.emissive_tex_index,
        MaterialSlot::Pbr => mesh.prm_tex_index,
    }
}

/// The meshes of all models, in order.
pub open spec fn all_meshes(models: Seq<BfresModel>) -> Seq<BfresMesh>
    decreases models.len(),
{
    if models.len() == 0 {
        Seq::empty()
    } else {
        all_meshes(models.drop_last()) + models.last().meshes@
    }
}

/// Whether a texture index names a texture that can be created as a material texture.
pub open spec fn usable_material(ptcl: PtclFile, index: u32) -> bool {
    &&& index != u32::MAX
    &&& index < ptcl.bntx_textures@.len()
    &&& material_error(ptcl.bntx_textures@[index as int], ptcl.texture_section@) is None
}

/// The texture of a material slot: that of the first mesh whose texture can be created.
pub open spec fn material_of(ptcl: PtclFile, meshes: Seq<BfresMesh>, slot: MaterialSlot) -> Option<
    UploadView,
>
    decreases meshes.len(),
{
    if meshes.len() == 0 {
        None
    } else {
        match material_of(ptcl, meshes.drop_last(), slot) {
            Some(upload) => Some(upload),
            None => {
                let index = slot_index(meshes.last(), slot);
                if usable_material(ptcl, index) {
                    let res = ptcl.bntx_textures@[index as int];
                    Some(material_upload(res, first_level(res, ptcl.texture_section@, true)->0))
                } else {
                    None
                }
            },
        }
    }
}

/// The textures of a material; a slot without one is drawn white.
#[derive(Debug)]
pub struct MaterialTextures {
    pub color: Option<TextureUpload>,
    pub emissive: Option<TextureUpload>,
    pub pbr: Option<TextureUpload>,
    /// Bit zero for colour, one for emissive, two for the surface parameters.
    pub flags: u32,
}

fn collect_meshes(models: &Vec<BfresModel>) -> (r: Vec<BfresMesh>)
    ensures
        r@ == all_meshes(models@),
{
    let mut r: Vec<BfresMesh> = Vec::new();
    let mut m: usize = 0;
    assert(models@.take(0) =~= Seq::empty());
    while m < models.len()
        invariant
            m <= models.len(),
            r@ == all_meshes(models@.take(m as int)),
        decreases models.len() - m,
    {
        let ghost was = r@;
        let meshes = &models[m].meshes;
        let mut i: usize = 0;
        while i < meshes.len()
            invariant
                i <= meshes.len(),
                r@ == was + meshes@.take(i as int),
            decreases meshes.len() - i,
        {
            r.push(meshes[i]);
            i = i + 1;
            assert(r@ =~= was + meshes@.take(i as int));
        }
        assert(meshes@.take(meshes@.len() as int) =~= meshes@);
        assert(models@.take(m + 1).drop_last() =~= models@.take(m as int));
        m = m + 1;
    }
    assert(models@.take(models@.len() as int) =~= models@);
    r
}

proof fn lemma_material_stays(ptcl: PtclFile, meshes: Seq<BfresMesh>, slot: MaterialSlot, i: int)
    requires
        0 <= i <= meshes.len(),
        material_of(ptcl, meshes.take(i), slot) is Some,
    ensures
        material_of(ptcl, meshes, slot) == material_of(ptcl, meshes.take(i), slot),
    decreases meshes.len() - i,
{
    if i == meshes.len() {
        assert(meshes.take(i) =~= meshes);
    } else {
        assert(meshes.take(i + 1).drop_last() =~= meshes.take(i));
        lemma_material_stays(ptcl, meshes, slot, i + 1);
    }
}

fn find_material(ptcl: &PtclFile, meshes: &Vec<BfresMesh>, slot: MaterialSlot) -> (r: Option<
    TextureUpload,
>)
    requires
        sizes_fit(*ptcl),
    ensures
        upload_view(r) == material_of(*ptcl, meshes@, slot),
{
    let mut i: usize = 0;
    assert(meshes@.take(0) =~= Seq::empty());
    while i < meshes.len()
        invariant
            i <= meshes.len(),
            sizes_fit(*ptcl),
            material_of(*ptcl, meshes@.take(i as int), slot) is None,
        decreases meshes.len() - i,
    {
        assert(meshes@.take(i + 1).drop_last() =~= meshes@.take(i as int));
        let index: u32 = match slot {
            MaterialSlot::Color => meshes[i].texture_index,
            MaterialSlot::Emissive => meshes[i].emissive_tex_index,
            MaterialSlot::Pbr => meshes[i].prm_tex_index,
        };
        if index != u32::MAX && (index as usize) < ptcl.bntx_textures.len() {
            match create_texture_from_res(
                &ptcl.bntx_textures[index as usize],
                &ptcl.texture_section,
            ) {
                Ok(upload) => {
                    proof {
                        lemma_material_stays(*ptcl, meshes@, slot, i + 1);
                    }
                    return Some(upload);
                },
                Err(_) => {},
            }
        }
        i = i + 1;
    }
    assert(meshes@.take(meshes@.len() as int) =~= meshes@);
    None
}

/// The bit of a slot that has a texture.
pub open spec fn slot_flag(present: bool, bit: int) -> int {
    if present {
        bit
    } else {
        0
    }
}

/// The material textures of an effect file, taken from its models. None where the file does not
/// draw its models' materials.
pub fn create_material_texture_bind_groups(ptcl: &PtclFile, needs_material_pass: bool) -> (r:
    Option<MaterialTextures>)
    requires
        sizes_fit(*ptcl),
    ensures
        r is Some == needs_material_pass,
        r is Some ==> ({
            let meshes = all_meshes(ptcl.bfres_models@);
            &&& upload_view(r->0.color) == material_of(*ptcl, meshes, MaterialSlot::Color)
            &&& upload_view(r->0.emissive) == material_of(*ptcl, meshes, MaterialSlot::Emissive)
            &&& upload_view(r->0.pbr) == material_of(*ptcl, meshes, MaterialSlot::Pbr)
            &&& r->0.flags == slot_flag(r->0.color is Some, 1) + slot_flag(
                r->0.emissive is Some,
                2,
            ) + slot_flag(r->0.pbr is Some, 4)
        }),
{
    if !needs_material_pass {
        return None;
    }
    let meshes = collect_meshes(&ptcl.bfres_models);
    let color = find_material(ptcl, &meshes, MaterialSlot::Color);
    let emissive = find_material(ptcl, &meshes, MaterialSlot::Emissive);
    let pbr = find_material(ptcl, &meshes, MaterialSlot::Pbr);
    let mut flags: u32 = 0;
    if color.is_some() {
        flags = flags + 1;
    }
    if emissive.is_some() {
        flags = flags + 2;
    }
    if pbr.is_some() {
        flags = flags + 4;
    }
    Some(MaterialTextures { color, emissive, pbr, flags })
}

/// What stands at one binding of the material bind group.
#[derive(Clone, Copy, Debug, PartialEq, Eq, Structural)]
pub enum MaterialBinding {
    Texture(MaterialSlot),
    Sampler(MaterialSlot),
    Flags,
}

/// The list with an entry put behind every entry whose slot is not larger.
pub open spec fn slotted(
    entries: Seq<(u32, MaterialBinding)>,
    entry: (u32, MaterialBinding),
) -> Seq<(u32, MaterialBinding)>
    decreases entries.len(),
{
    if entries.len() == 0 || entries.last().0 <= entry.0 {
        entries.push(entry)
    } else {
        slotted(entries.drop_last(), entry).push(entries.last())
    }
}

/// The entries ordered by slot; those with the same slot keep their order.
pub open spec fn by_slot(entries: Seq<(u32, MaterialBinding)>) -> Seq<(u32, MaterialBinding)>
    decreases entries.len(),
{
    if entries.len() == 0 {
        entries
    } else {
        slotted(by_slot(entries.drop_last()), entries.last())
    }
}

/// The entries of the material bind group before ordering: each texture at its slot with its
/// sampler behind it, and the flags at slot six.
pub open spec fn material_entries(col: u32, emi: u32, prm: u32) -> Seq<(u32, MaterialBinding)> {
    seq![
        (col, MaterialBinding::Texture(MaterialSlot::Color)),
        ((col + 1) as u32, MaterialBinding::Sampler(MaterialSlot::Color)),
        (emi, MaterialBinding::Texture(MaterialSlot::Emissive)),
        ((emi + 1) as u32, MaterialBinding::Sampler(MaterialSlot::Emissive)),
        (prm, MaterialBinding::Texture(MaterialSlot::Pbr)),
        ((prm + 1) as u32, MaterialBinding::Sampler(MaterialSlot::Pbr)),
        (6u32, MaterialBinding::Flags),
    ]
}

fn put_by_slot(entries: &mut Vec<(u32, MaterialBinding)>, entry: (u32, MaterialBinding))
    ensures
        final(entries)@ == slotted(old(entries)@, entry),
{
    let ghost was = entries@;
    let mut i: usize = entries.len();
    assert(was.take(i as int) =~= was);
    assert(was.skip(i as int) =~= Seq::empty());
    assert(slotted(was, entry) =~= slotted(was.take(i as int), entry) + was.skip(i as int));
    while i > 0 && entries[i - 1].0 > entry.0
        invariant
            i <= entries.len(),
            entries@ == was,
            slotted(was, entry) == slotted(was.take(i as int), entry) + was.skip(i as int),
        decreases i,
    {
        assert(was.take(i as int).drop_last() =~= was.take(i - 1));
        assert(seq![was[i - 1]] + was.skip(i as int) =~= was.skip(i - 1));
        assert(slotted(was, entry) =~= slotted(was.take(i - 1), entry) + was.skip(i - 1));
        i = i - 1;
    }
    entries.insert(i, entry);
    assert(entries@ =~= was.take(i as int).push(entry) + was.skip(i as int));
}

/// The bindings of the material bind group in slot order.
pub fn material_bindings(col_slot: u32, emi_slot: u32, prm_slot: u32) -> (r: Vec<
    (u32, MaterialBinding),
>)
    requires
        col_slot < u32::MAX,
        emi_slot < u32::MAX,
        prm_slot < u32::MAX,
    ensures
        r@ == by_slot(material_entries(col_slot, emi_slot, prm_slot)),
{
    let entries = vec![
        (col_slot, MaterialBinding::Texture(MaterialSlot::Color)),
        (col_slot + 1, MaterialBinding::Sampler(MaterialSlot::Color)),
        (emi_slot, MaterialBinding::Texture(MaterialSlot::Emissive)),
        (emi_slot + 1, MaterialBinding::Sampler(MaterialSlot::Emissive)),
        (prm_slot, MaterialBinding::Texture(MaterialSlot::Pbr)),
        (prm_slot + 1, MaterialBinding::Sampler(MaterialSlot::Pbr)),
        (6u32, MaterialBinding::Flags),
    ];
    assert(entries@ =~= material_entries(col_slot, emi_slot, prm_slot));
    let mut r: Vec<(u32, MaterialBinding)> = Vec::new();
    let mut i: usize = 0;
    assert(r@ =~= by_slot(entries@.take(0)));
    while i < entries.len()
        invariant
            i <= entries.len(),
            r@ == by_slot(entries@.take(i as int)),
        decreases entries.len() - i,
    {
        assert(entries@.take(i + 1).drop_last() =~= entries@.take(i as int));
        put_by_slot(&mut r, entries[i]);
        i = i + 1;
    }
    assert(entries@.take(entries@.len() as int) =~= entries@);
    r
}

proof fn lemma_slotted_sorted(entries: Seq<(u32, MaterialBinding)>, entry: (u32, MaterialBinding))
    requires
        forall|i: int, j: int| 0 <= i <= j < entries.len() ==> entries[i].0 <= entries[j].0,
    ensures
        ({
            let r = slotted(entries, entry);
            &&& r.len() == entries.len() + 1
            &&& r.to_multiset() == entries.to_multiset().insert(entry)
            &&& forall|i: int, j: int| 0 <= i <= j < r.len() ==> r[i].0 <= r[j].0
            &&& forall|i: int|
                0 <= i < r.len() ==> (#[trigger] r[i]).0 <= entry.0 || (entries.len() > 0 && r[i].0
                    <= entries.last().0)
        }),
    decreases entries.len(),
{
    broadcast use vstd::seq_lib::group_to_multiset_ensures;

    if entries.len() == 0 || entries.last().0 <= entry.0 {
    } else {
        let rest = entries.drop_last();
        lemma_slotted_sorted(rest, entry);
        assert(entries =~= rest.push(entries.last()));
        let inner = slotted(rest, entry);
        let r = slotted(entries, entry);
        assert(r == inner.push(entries.last()));
        assert forall|i: int| 0 <= i < r.len() implies (#[trigger] r[i]).0 <= entries.last().0 by {
            if i < inner.len() {
                assert(r[i] == inner[i]);
                if rest.len() > 0 {
                    assert(rest.last() == entries[entries.len() - 2]);
                }
            }
        }
        assert(r.to_multiset() =~= entries.to_multiset().insert(entry));
    }
}

/// The bindings of the material bind group ascend by slot, and are those that were put in.
pub proof fn law_material_bindings_ascend(entries: Seq<(u32, MaterialBinding)>)
    ensures
        forall|i: int, j: int|
            0 <= i <= j < by_slot(entries).len() ==> by_slot(entries)[i].0 <= by_slot(entries)[j].0,
        by_slot(entries).to_multiset() == entries.to_multiset(),
    decreases entries.len(),
{
    broadcast use vstd::seq_lib::group_to_multiset_ensures;

    if entries.len() > 0 {
        law_material_bindings_ascend(entries.drop_last());
        lemma_slotted_sorted(by_slot(entries.drop_last()), entries.last());
        assert(entries =~= entries.drop_last().push(entries.last()));
    }
}

/// What a wrap byte asks for: one mirrors, two and three hold the edge, and the rest repeat. Only
/// the filter byte one reads the nearest texel.
pub proof fn law_wrap_bytes_mean_one_mode_each(byte: u8)
    ensures
        address_mode(byte) == AddressMode::MirrorRepeat <==> byte == 1,
        address_mode(byte) == AddressMode::ClampToEdge <==> byte == 2 || byte == 3,
        filter_mode(byte) == FilterMode::Nearest <==> byte == 1,
{
}

/// Each texture of an emitter is read past its edges as its own wrap bytes say, the third as those
/// of the second; only the colour texture is read as the filter byte says.
pub proof fn law_each_texture_wraps_as_its_own_bytes_say(emitter: EmitterDef)
    ensures
        samplers_of(emitter).color.address_u == address_mode(emitter.tex_wrap_u),
        samplers_of(emitter).color.address_v == address_mode(emitter.tex_wrap_v),
        samplers_of(emitter).color.filter == filter_mode(emitter.tex_filter),
        samplers_of(emitter).secondary.address_u == address_mode(emitter.tex2_wrap_u),
        samplers_of(emitter).secondary.address_v == address_mode(emitter.tex2_wrap_v),
        samplers_of(emitter).slot2 == samplers_of(emitter).secondary,
        samplers_of(emitter).tex3.address_u == address_mode(emitter.tex_extra_slots@[0].wrap_u),
        samplers_of(emitter).tex3.address_v == address_mode(emitter.tex_extra_slots@[0].wrap_v),
        samplers_of(emitter).tex4.address_u == address_mode(emitter.tex_extra_slots@[1].wrap_u),
        samplers_of(emitter).tex4.address_v == address_mode(emitter.tex_extra_slots@[1].wrap_v),
        samplers_of(emitter).tex5.address_u == address_mode(emitter.tex_extra_slots@[2].wrap_u),
        samplers_of(emitter).tex5.address_v == address_mode(emitter.tex_extra_slots@[2].wrap_v),
        samplers_of(emitter).secondary.filter == FilterMode::Linear,
        samplers_of(emitter).tex3.filter == FilterMode::Linear,
        samplers_of(emitter).tex4.filter == FilterMode::Linear,
        samplers_of(emitter).tex5.filter == FilterMode::Linear,
        samplers_of(emitter).color.mip_filter == FilterMode::Linear,
        samplers_of(emitter).secondary.mip_filter == FilterMode::Linear,
        samplers_of(emitter).tex3.mip_filter == FilterMode::Linear,
        samplers_of(emitter).tex4.mip_filter == FilterMode::Linear,
        samplers_of(emitter).tex5.mip_filter == FilterMode::Linear,
{
}

/// Whether a texture is a distortion map by its name.
spec fn is_distortion(res: TextureRes) -> bool {
    contains(unicode_lower(res.tex_name@), "indirect"@)
}

proof fn lemma_first_indirect(textures: Seq<TextureRes>)
    ensures
        match first_indirect(textures) {
            Some(i) => {
                &&& 0 <= i < textures.len()
                &&& is_distortion(textures[i])
                &&& forall|j: int| 0 <= j < i ==> !is_distortion(#[trigger] textures[j])
            },
            None => forall|j: int| 0 <= j < textures.len() ==> !is_distortion(#[trigger] textures[j]),
        },
    decreases textures.len(),
{
    if textures.len() > 0 {
        lemma_first_indirect(textures.drop_last());
        let front = textures.drop_last();
        assert forall|j: int| 0 <= j < front.len() implies front[j] == #[trigger] textures[j] by {}
        if first_indirect(front) is None {
            assert forall|j: int| 0 <= j < front.len() implies !is_distortion(
                #[trigger] textures[j],
            ) by {
                assert(front[j] == textures[j]);
            }
        } else {
            let i = first_indirect(front)->0;
            assert(front[i] == textures[i]);
            assert forall|j: int| 0 <= j < i implies !is_distortion(#[trigger] textures[j]) by {
                assert(front[j] == textures[j]);
            }
        }
    }
}

/// An emitter's second texture is the first that is named as a distortion map; where none is, the
/// second of its textures; and none where it has but one.
pub proof fn law_the_second_texture_is_the_distortion_map(textures: Seq<TextureRes>, i: int)
    requires
        0 <= i < textures.len(),
    ensures
        contains(unicode_lower(textures[i].tex_name@), "indirect"@) && (forall|j: int|
            0 <= j < i ==> !contains(
                unicode_lower((#[trigger] textures[j]).tex_name@),
                "indirect"@,
            )) ==> secondary_place(textures) == Some(i),
        (forall|j: int|
            0 <= j < textures.len() ==> !contains(
                unicode_lower((#[trigger] textures[j]).tex_name@),
                "indirect"@,
            )) ==> secondary_place(textures) == (if textures.len() >= 2 {
            Some(1int)
        } else {
            None
        }),
{
    lemma_first_indirect(textures);
    match first_indirect(textures) {
        Some(k) => {
            assert(is_distortion(textures[k]));
            if k < i {
                assert(is_distortion(textures[k]));
            }
            if i < k {
                assert(!is_distortion(textures[i]));
            }
        },
        None => {
            assert(!is_distortion(textures[i]));
        },
    }
}

/// What is uploaded for an emitter is the texture that its index names, and its own textures at
/// their places. An emitter whose index names no texture, or one that cannot be uploaded, has
/// neither a colour texture nor a second one.
pub proof fn law_an_emitter_uploads_its_own_textures(
    plan: EmitterTextures,
    ptcl: PtclFile,
    emitter: EmitterDef,
    honour: bool,
)
    requires
        emitter_planned(plan, ptcl, emitter, honour),
    ensures
        emitter.texture_index >= ptcl.bntx_textures@.len() ==> plan.color is None
            && plan.secondary is None,
        plan.color is None ==> plan.secondary is None,
        emitter.texture_index < ptcl.bntx_textures@.len() ==> upload_view(plan.color)
            == colour_upload(
            ptcl.bntx_textures@[emitter.texture_index as int],
            ptcl.texture_section@,
            honour,
            false,
        ),
        emitter.textures@.len() <= 2 ==> plan.slot2 is None,
        emitter.textures@.len() > 2 ==> upload_view(plan.slot2) == plain_upload(
            emitter.textures@[2],
            ptcl.texture_section@,
        ),
        emitter.textures@.len() > 3 ==> plan.extra is Some && upload_view(plan.extra->0@[0])
            == plain_upload(emitter.textures@[3], ptcl.texture_section@),
        emitter.textures@.len() > 4 ==> upload_view(plan.extra->0@[1]) == plain_upload(
            emitter.textures@[4],
            ptcl.texture_section@,
        ),
        emitter.textures@.len() > 5 ==> upload_view(plan.extra->0@[2]) == plain_upload(
            emitter.textures@[5],
            ptcl.texture_section@,
        ),
        emitter.textures@.len() <= 3 ==> (plan.extra is Some <==> exists|i: int|
            0 <= i < emitter.tex_anims_extra@.len() && {
                let anim = #[trigger] emitter.tex_anims_extra@[i];
                anim.is_scroll || anim.is_rotate || anim.is_scale
            }),
{
    if plan.extra is Some {
        assert(upload_view(plan.extra->0@[0]) == emitter_plain(ptcl, emitter, 3));
        assert(upload_view(plan.extra->0@[1]) == emitter_plain(ptcl, emitter, 4));
        assert(upload_view(plan.extra->0@[2]) == emitter_plain(ptcl, emitter, 5));
    }
}

proof fn lemma_material_of(ptcl: PtclFile, meshes: Seq<BfresMesh>, slot: MaterialSlot)
    ensures
        material_of(ptcl, meshes, slot) is Some <==> exists|i: int|
            0 <= i < meshes.len() && usable_material(ptcl, slot_index(#[trigger] meshes[i], slot)),
        forall|i: int|
            #![trigger meshes[i]]
            0 <= i < meshes.len() && usable_material(ptcl, slot_index(meshes[i], slot)) && (forall|
                j: int,
            |
                0 <= j < i ==> !usable_material(ptcl, slot_index(#[trigger] meshes[j], slot)))
                ==> material_of(ptcl, meshes, slot) == Some(
                material_upload(
                    ptcl.bntx_textures@[slot_index(meshes[i], slot) as int],
                    first_level(
                        ptcl.bntx_textures@[slot_index(meshes[i], slot) as int],
                        ptcl.texture_section@,
                        true,
                    )->0,
                ),
            ),
    decreases meshes.len(),
{
    if meshes.len() > 0 {
        let front = meshes.drop_last();
        lemma_material_of(ptcl, front, slot);
        assert forall|j: int| 0 <= j < front.len() implies front[j] == #[trigger] meshes[j] by {}
        if material_of(ptcl, front, slot) is Some {
            let i = choose|i: int|
                0 <= i < front.len() && usable_material(ptcl, slot_index(#[trigger] front[i], slot));
            assert(front[i] == meshes[i]);
        } else {
            assert forall|j: int| 0 <= j < front.len() implies !usable_material(
                ptcl,
                slot_index(#[trigger] meshes[j], slot),
            ) by {
                assert(!usable_material(ptcl, slot_index(front[j], slot)));
            }
        }
        assert forall|i: int|
            #![trigger meshes[i]]
            0 <= i < meshes.len() && usable_material(ptcl, slot_index(meshes[i], slot)) && (forall|
                j: int,
            |
                0 <= j < i ==> !usable_material(
                    ptcl,
                    slot_index(#[trigger] meshes[j], slot),
                )) implies material_of(ptcl, meshes, slot) == Some(
            material_upload(
                ptcl.bntx_textures@[slot_index(meshes[i], slot) as int],
                first_level(
                    ptcl.bntx_textures@[slot_index(meshes[i], slot) as int],
                    ptcl.texture_section@,
                    true,
                )->0,
            ),
        ) by {
            if i < front.len() {
                assert(front[i] == meshes[i]);
                assert forall|j: int| 0 <= j < i implies !usable_material(
                    ptcl,
                    slot_index(#[trigger] front[j], slot),
                ) by {
                    assert(front[j] == meshes[j]);
                }
            } else {
                assert(meshes[i] == meshes.last());
                assert forall|j: int| 0 <= j < front.len() implies !usable_material(
                    ptcl,
                    slot_index(#[trigger] front[j], slot),
                ) by {
                    assert(front[j] == meshes[j]);
                }
            }
        }
    }
}

/// The texture of a material slot is that of the first mesh whose index for that slot names a
/// texture with a first level; meshes before it, and textures of other slots, do not matter.
pub proof fn law_a_material_is_the_first_that_can_be_made(
    ptcl: PtclFile,
    meshes: Seq<BfresMesh>,
    slot: MaterialSlot,
    i: int,
)
    requires
        0 <= i < meshes.len(),
        usable_material(ptcl, slot_index(meshes[i], slot)),
        forall|j: int|
            0 <= j < i ==> !usable_material(ptcl, slot_index(#[trigger] meshes[j], slot)),
    ensures
        ({
            let index = match slot {
                MaterialSlot::Color => meshes[i].texture_index,
                MaterialSlot::Emissive => meshes[i].emissive_tex_index,
                MaterialSlot::Pbr => meshes[i].prm_tex_index,
            };
            &&& index < ptcl.bntx_textures@.len()
            &&& material_of(ptcl, meshes, slot) == Some(
                material_upload(
                    ptcl.bntx_textures@[index as int],
                    first_level(
                        ptcl.bntx_textures@[index as int],
                        ptcl.texture_section@,
                        true,
                    )->0,
                ),
            )
        }),
{
    lemma_material_of(ptcl, meshes, slot);
}

/// Without a mesh whose index names a texture that can be created, a slot stays empty.
pub proof fn law_no_usable_mesh_no_material(
    ptcl: PtclFile,
    meshes: Seq<BfresMesh>,
    slot: MaterialSlot,
)
    requires
        forall|j: int|
            0 <= j < meshes.len() ==> !usable_material(ptcl, slot_index(#[trigger] meshes[j], slot)),
    ensures
        material_of(ptcl, meshes, slot) is None,
{
    lemma_material_of(ptcl, meshes, slot);
}

proof fn lemma_slotted(entries: Seq<(u32, MaterialBinding)>, entry: (u32, MaterialBinding))
    ensures
        slotted(entries, entry).to_multiset() == entries.to_multiset().insert(entry),
        slotted(entries, entry).len() == entries.len() + 1,
    decreases entries.len(),
{
    broadcast use vstd::seq_lib::group_to_multiset_ensures;

    if entries.len() == 0 || entries.last().0 <= entry.0 {
    } else {
        let front = entries.drop_last();
        lemma_slotted(front, entry);
        assert(front.push(entries.last()) =~= entries);
        assert(slotted(front, entry).push(entries.last()).to_multiset()
            =~= entries.to_multiset().insert(entry));
    }
}

/// Ordering the entries of a bind group neither drops nor adds one.
pub proof fn law_ordering_keeps_every_binding(entries: Seq<(u32, MaterialBinding)>)
    ensures
        by_slot(entries).to_multiset() == entries.to_multiset(),
        by_slot(entries).len() == entries.len(),
    decreases entries.len(),
{
    broadcast use vstd::seq_lib::group_to_multiset_ensures;

    if entries.len() > 0 {
        let front = entries.drop_last();
        law_ordering_keeps_every_binding(front);
        lemma_slotted(by_slot(front), entries.last());
        assert(front.push(entries.last()) =~= entries);
    }
}

/// Every texture of a material is bound at its slot with its own sampler at the next, and the flags
/// at slot six.
pub proof fn law_a_sampler_follows_its_texture(col: u32, emi: u32, prm: u32)
    requires
        col < u32::MAX,
        emi < u32::MAX,
        prm < u32::MAX,
    ensures
        ({
            let all = material_entries(col, emi, prm);
            &&& all.len() == 7
            &&& forall|e: (u32, MaterialBinding)|
                all.contains(e) <==> match e.1 {
                    MaterialBinding::Texture(MaterialSlot::Color) => e.0 == col,
                    MaterialBinding::Sampler(MaterialSlot::Color) => e.0 == col + 1,
                    MaterialBinding::Texture(MaterialSlot::Emissive) => e.0 == emi,
                    MaterialBinding::Sampler(MaterialSlot::Emissive) => e.0 == emi + 1,
                    MaterialBinding::Texture(MaterialSlot::Pbr) => e.0 == prm,
                    MaterialBinding::Sampler(MaterialSlot::Pbr) => e.0 == prm + 1,
                    MaterialBinding::Flags => e.0 == 6,
                }
        }),
{
    let all = material_entries(col, emi, prm);
    assert forall|e: (u32, MaterialBinding)|
        (match e.1 {
            MaterialBinding::Texture(MaterialSlot::Color) => e.0 == col,
            MaterialBinding::Sampler(MaterialSlot::Color) => e.0 == col + 1,
            MaterialBinding::Texture(MaterialSlot::Emissive) => e.0 == emi,
            MaterialBinding::Sampler(MaterialSlot::Emissive) => e.0 == emi + 1,
            MaterialBinding::Texture(MaterialSlot::Pbr) => e.0 == prm,
            MaterialBinding::Sampler(MaterialSlot::Pbr) => e.0 == prm + 1,
            MaterialBinding::Flags => e.0 == 6,
        }) implies all.contains(e) by {
        assert(all[0] == e || all[1] == e || all[2] == e || all[3] == e || all[4] == e || all[5]
            == e || all[6] == e);
    }
}

/// The meshes of the models are those of each model in turn.
pub proof fn law_meshes_follow_their_models(models: Seq<BfresModel>, more: BfresModel)
    ensures
        all_meshes(models.push(more)) == all_meshes(models) + more.meshes@,
        all_meshes(Seq::empty()).len() == 0,
{
    assert(models.push(more).drop_last() =~= models);
}

/// A texture that an emitter uploaded is read as that emitter reads its colours, one of its own as
/// its own wrap byte says in both directions; nothing is read where nothing was uploaded.
pub proof fn law_a_texture_is_read_as_its_uploader_says(
    ptcl: PtclFile,
    source: BntxSource,
    index: int,
)
    ensures
        sampler_by_index(ptcl, source, index) is None <==> source is Missing,
        match (source, sampler_by_index(ptcl, source, index)) {
            (BntxSource::Emitter { set, emitter }, Some(sampler)) => {
                let def = ptcl.emitter_sets@[set as int].emitters@[emitter as int];
                &&& sampler.address_u == address_mode(def.tex_wrap_u)
                &&& sampler.address_v == address_mode(def.tex_wrap_v)
                &&& sampler.filter == filter_mode(def.tex_filter)
            },
            (BntxSource::Own(_), Some(sampler)) => {
                &&& sampler.address_u == address_mode(ptcl.bntx_textures@[index].wrap_mode)
                &&& sampler.address_v == sampler.address_u
                &&& sampler.filter == FilterMode::Linear
            },
            _ => source is Missing,
        },
{
}

/// A texture index counts only where it names a texture that has texels.
pub proof fn law_only_textures_with_texels_count(ptcl: PtclFile, index: int)
    ensures
        has_texels(ptcl, index) <==> 0 <= index < ptcl.bntx_textures@.len()
            && ptcl.bntx_textures@[index].width > 0 && ptcl.bntx_textures@[index].height > 0,
        usable_material(ptcl, index as u32) && 0 <= index < u32::MAX ==> has_texels(ptcl, index),
{
}

} // verus!
