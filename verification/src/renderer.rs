//! Viewport state: sizes, cached animation data, and which skeleton a bone name means.

use vstd::prelude::*;

use crate::mipmaps::TextureFormat;
use crate::particle_renderer::{ParticleRenderer, SwordTrail};
use crate::paths::{are_same_path, same_path};
use crate::text::{ascii_lower, lowercase, same, to_ascii_lower, unicode_lower};

verus! {

/// The skeleton of a weapon that a fighter holds.
#[derive(Debug)]
pub struct WeaponSkel {
    pub name: String,
    /// Names of the bones whose place is known.
    pub bones: Vec<String>,
    /// The body bone that the weapon is fixed to.
    pub attach_bone: String,
}

/// Where a bone's matrix comes from.
#[derive(Clone, Copy, Debug, PartialEq, Eq, Structural)]
pub enum BoneSource {
    /// This bone of the body.
    Body(usize),
    /// The fighter's root.
    Root,
    /// This bone of this weapon.
    Weapon { weapon: usize, bone: usize },
}

/// What to do with cached data when a path is asked for.
#[derive(Clone, Copy, Debug, PartialEq, Eq, Structural)]
pub enum CacheStep {
    Keep,
    Load,
    Drop,
}

/// What a change of the viewport's size asks for.
#[derive(Clone, Copy, Debug, PartialEq, Eq, Structural)]
pub struct ResizeStep {
    pub resize_scene: bool,
    pub recreate_target: bool,
}

/// A path that may be missing, as text.
pub open spec fn path_text(path: Option<String>) -> Option<Seq<char>> {
    match path {
        Some(path) => Some(path@),
        None => None,
    }
}

/// The viewport's state.
#[derive(Debug)]
pub struct HitboxRenderState {
    pub current_width: u32,
    pub current_height: u32,
    pub particle_target_size: (u32, u32),
    pub cached_anim: Option<String>,
    pub cached_skel: Option<String>,
    /// Bone names of the cached skeleton.
    pub bones: Vec<String>,
    pub weapon_skels: Vec<WeaponSkel>,
    pub last_anim_path: Option<String>,
    pub last_skel_path: Option<String>,
    /// Whether the frame that was drawn last is known.
    pub frame_known: bool,
    /// The format of the surface, and of the particle target.
    pub surface_format: TextureFormat,
    /// Whether the scene is drawn with bloom and with shadows.
    pub render_bloom: bool,
    pub render_shadows: bool,
    pub particle_renderer: Option<ParticleRenderer>,
    /// The trails that the next frame draws.
    pub pending_trails: Vec<SwordTrail>,
}

/// The body bone that a weapon is fixed to: the left hand for shields, else the right hand.
pub open spec fn attach_bone(weapon_dir: Seq<char>) -> Seq<char> {
    if weapon_dir == "shield"@ || weapon_dir == "shieldl"@ {
        "havel"@
    } else {
        "haver"@
    }
}

/// The body bone that a weapon folder's model is fixed to.
pub fn weapon_attach_bone(weapon_dir: &str) -> (r: String)
    ensures
        r@ == attach_bone(weapon_dir@),
{
    if same(weapon_dir, "shield") || same(weapon_dir, "shieldl") {
        "havel".to_owned()
    } else {
        "haver".to_owned()
    }
}

/// Whether a folder beside the body model is a weapon: it is not the body, and has a skeleton.
pub fn is_weapon_dir(dir_name: &str, has_skeleton: bool) -> (r: bool)
    ensures
        r == (dir_name@ != "body"@ && has_skeleton),
{
    !same(dir_name, "body") && has_skeleton
}

/// What to do with data cached for one path when another is asked for.
pub open spec fn cache_step(cached: Option<Seq<char>>, wanted: Option<Seq<char>>) -> CacheStep {
    match wanted {
        Some(path) => if cached is Some && same_path(cached->0, path) {
            CacheStep::Keep
        } else {
            CacheStep::Load
        },
        None => CacheStep::Drop,
    }
}

/// What is cached once a path was asked for. What cannot be read is not cached.
pub open spec fn held_after(cached: Option<String>, wanted: Option<String>, read: bool) -> Option<
    String,
> {
    match cache_step(path_text(cached), path_text(wanted)) {
        CacheStep::Keep => cached,
        CacheStep::Load => if read {
            wanted
        } else {
            None
        },
        CacheStep::Drop => None,
    }
}

/// Whether two paths that may be missing are the same.
pub open spec fn same_source(a: Option<Seq<char>>, b: Option<Seq<char>>) -> bool {
    match (a, b) {
        (Some(a), Some(b)) => same_path(a, b),
        (None, None) => true,
        _ => false,
    }
}

fn step_for(cached: &Option<String>, wanted: &Option<String>) -> (r: CacheStep)
    ensures
        r == cache_step(path_text(*cached), path_text(*wanted)),
{
    match wanted {
        Some(path) => match cached {
            Some(held) => if are_same_path(held.as_str(), path.as_str()) {
                CacheStep::Keep
            } else {
                CacheStep::Load
            },
            None => CacheStep::Load,
        },
        None => CacheStep::Drop,
    }
}

fn is_same_source(a: &Option<String>, b: &Option<String>) -> (r: bool)
    ensures
        r == same_source(path_text(*a), path_text(*b)),
{
    match (a, b) {
        (Some(a), Some(b)) => are_same_path(a.as_str(), b.as_str()),
        (None, None) => true,
        _ => false,
    }
}

/// Whether a name means a bone: its own name or the lower-case form of it.
pub open spec fn names_bone(name: Seq<char>, bone: Seq<char>) -> bool {
    name == bone || name == unicode_lower(bone)
}

/// Whether a source is what a name means. The last body bone of that name comes first, then the
/// root under `top`, then the first weapon bone of that name.
pub open spec fn is_bone_source(
    source: Option<BoneSource>,
    bones: Seq<String>,
    weapons: Seq<WeaponSkel>,
    name: Seq<char>,
) -> bool {
    let in_body = exists|i: int| 0 <= i < bones.len() && names_bone(name, #[trigger] bones[i]@);
    let root = name == "top"@ || name == "Top"@;
    match source {
        Some(BoneSource::Body(at)) => {
            &&& at < bones.len()
            &&& names_bone(name, bones[at as int]@)
            &&& forall|i: int| at < i < bones.len() ==> !names_bone(name, #[trigger] bones[i]@)
        },
        Some(BoneSource::Root) => !in_body && root,
        Some(BoneSource::Weapon { weapon, bone }) => {
            &&& !in_body
            &&& !root
            &&& weapon < weapons.len()
            &&& bone < weapons[weapon as int].bones@.len()
            &&& names_bone(name, weapons[weapon as int].bones@[bone as int]@)
            &&& forall|w: int, b: int|
                0 <= w < weapons.len() && 0 <= b < weapons[w].bones@.len() && (w < weapon || (w
                    == weapon && b < bone)) ==> !names_bone(
                    name,
                    #[trigger] weapons[w].bones@[b]@,
                )
        },
        None => {
            &&& !in_body
            &&& !root
            &&& forall|w: int, b: int|
                0 <= w < weapons.len() && 0 <= b < weapons[w].bones@.len() ==> !names_bone(
                    name,
                    #[trigger] weapons[w].bones@[b]@,
                )
        },
    }
}

fn means_bone(name: &str, bone: &str) -> (r: bool)
    ensures
        r == names_bone(name@, bone@),
{
    if same(name, bone) {
        return true;
    }
    let lower = lowercase(bone);
    same(name, lower.as_str())
}

impl HitboxRenderState {
    /// A viewport that has drawn nothing, for a surface of a format. Its particles are drawn in the
    /// format of the surface; its scene is drawn without bloom and shadows.
    pub fn new(surface_format: TextureFormat) -> (r: HitboxRenderState)
        ensures
            r.surface_format == surface_format,
            r.particle_renderer matches Some(particles) && particles.surface_format
                == surface_format && particles.particle_format == surface_format
                && particles.is_fresh(),
            !r.render_bloom,
            !r.render_shadows,
            r.pending_trails@.len() == 0,
            r.current_width == 0,
            r.current_height == 0,
            r.particle_target_size == (0u32, 0u32),
            r.cached_anim is None,
            r.cached_skel is None,
            r.bones@.len() == 0,
            r.weapon_skels@.len() == 0,
            r.last_anim_path is None,
            r.last_skel_path is None,
            !r.frame_known,
    {
        HitboxRenderState {
            current_width: 0,
            current_height: 0,
            particle_target_size: (0, 0),
            cached_anim: None,
            cached_skel: None,
            bones: Vec::new(),
            weapon_skels: Vec::new(),
            last_anim_path: None,
            last_skel_path: None,
            frame_known: false,
            surface_format,
            render_bloom: false,
            render_shadows: false,
            particle_renderer: Some(ParticleRenderer::new(surface_format)),
            pending_trails: Vec::new(),
        }
    }

    /// Takes the viewport's size. An empty size or one that is already taken asks for nothing.
    pub fn resize(&mut self, width: u32, height: u32) -> (r: ResizeStep)
        ensures
            old(self).resizes(width, height, *final(self), r),
    {
        if width == 0 || height == 0 {
            return ResizeStep { resize_scene: false, recreate_target: false };
        }
        if width == self.current_width && height == self.current_height {
            return ResizeStep { resize_scene: false, recreate_target: false };
        }
        self.current_width = width;
        self.current_height = height;
        let recreate_target = self.particle_target_size.0 != width || self.particle_target_size.1
            != height;
        if recreate_target {
            self.particle_target_size = (width, height);
        }
        ResizeStep { resize_scene: true, recreate_target }
    }

    /// Takes the weapons of a newly loaded model; the next frame is skinned anew.
    pub fn load_model(&mut self, weapons: Vec<WeaponSkel>)
        ensures
            *final(self) == (HitboxRenderState {
                weapon_skels: weapons,
                last_anim_path: None,
                last_skel_path: None,
                frame_known: false,
                ..*old(self)
            }),
    {
        self.weapon_skels = weapons;
        self.frame_known = false;
        self.last_anim_path = None;
        self.last_skel_path = None;
    }

    /// What becomes of the viewport when it is given a size: nothing where an edge has no length or
    /// it has that size already.
    pub open spec fn resizes(
        &self,
        width: u32,
        height: u32,
        now: HitboxRenderState,
        r: ResizeStep,
    ) -> bool {
        let changes = width != 0 && height != 0 && !(width == self.current_width && height
            == self.current_height);
        &&& r.resize_scene == changes
        &&& r.recreate_target == (changes && self.particle_target_size != (width, height))
        &&& now == if changes {
            HitboxRenderState {
                current_width: width,
                current_height: height,
                particle_target_size: (width, height),
                ..*self
            }
        } else {
            *self
        }
    }

    /// Whether a frame has to be skinned: its time, animation or skeleton is another than that of
    /// the frame before it.
    pub open spec fn reskins(
        &self,
        same_time: bool,
        anim_path: Option<String>,
        skel_path: Option<String>,
    ) -> bool {
        ||| !(self.frame_known && same_time)
        ||| !same_source(path_text(anim_path), path_text(self.last_anim_path))
        ||| !same_source(path_text(skel_path), path_text(self.last_skel_path))
    }

    /// Decides whether a frame has to be skinned, and notes it. `same_time` says whether its time
    /// is that of the frame before it.
    pub fn prepare(
        &mut self,
        same_time: bool,
        anim_path: Option<String>,
        skel_path: Option<String>,
    ) -> (r: bool)
        ensures
            r == old(self).reskins(same_time, anim_path, skel_path),
            *final(self) == if r {
                HitboxRenderState {
                    frame_known: true,
                    last_anim_path: anim_path,
                    last_skel_path: skel_path,
                    ..*old(self)
                }
            } else {
                *old(self)
            },
    {
        let changed = !(self.frame_known && same_time) || !is_same_source(
            &anim_path,
            &self.last_anim_path,
        ) || !is_same_source(&skel_path, &self.last_skel_path);
        if changed {
            self.frame_known = true;
            self.last_anim_path = anim_path;
            self.last_skel_path = skel_path;
        }
        changed
    }

    /// What to do with the cached animation and skeleton when these paths are asked for.
    pub fn apply_animation(&self, anim_path: &Option<String>, skel_path: &Option<String>) -> (r: (
        CacheStep,
        CacheStep,
    ))
        ensures
            r.0 == cache_step(path_text(self.cached_anim), path_text(*anim_path)),
            r.1 == cache_step(path_text(self.cached_skel), path_text(*skel_path)),
    {
        (step_for(&self.cached_anim, anim_path), step_for(&self.cached_skel, skel_path))
    }

    /// Holds what came of reading the paths that were asked for. `anim_read` says whether the
    /// animation could be read, and `skel_bones` has the bone names of a skeleton that could.
    pub fn hold_animation(
        &mut self,
        anim_path: Option<String>,
        anim_read: bool,
        skel_path: Option<String>,
        skel_bones: Option<Vec<String>>,
    )
        ensures
            final(self).cached_anim == held_after(old(self).cached_anim, anim_path, anim_read),
            final(self).cached_skel == held_after(
                old(self).cached_skel,
                skel_path,
                skel_bones is Some,
            ),
            final(self).bones == if cache_step(
                path_text(old(self).cached_skel),
                path_text(skel_path),
            ) == CacheStep::Load && skel_bones is Some {
                skel_bones->0
            } else {
                old(self).bones
            },
            *final(self) == (HitboxRenderState {
                cached_anim: final(self).cached_anim,
                cached_skel: final(self).cached_skel,
                bones: final(self).bones,
                ..*old(self)
            }),
    {
        let (anim, skel) = self.apply_animation(&anim_path, &skel_path);
        match anim {
            CacheStep::Keep => {},
            CacheStep::Load => {
                self.cached_anim = if anim_read {
                    anim_path
                } else {
                    None
                };
            },
            CacheStep::Drop => {
                self.cached_anim = None;
            },
        }
        match skel {
            CacheStep::Keep => {},
            CacheStep::Load => {
                match skel_bones {
                    Some(bones) => {
                        self.cached_skel = skel_path;
                        self.bones = bones;
                    },
                    None => {
                        self.cached_skel = None;
                    },
                }
            },
            CacheStep::Drop => {
                self.cached_skel = None;
            },
        }
    }

    /// The bone names of the cached skeleton; none without one.
    pub fn bone_names(&self) -> (r: Vec<String>)
        ensures
            crate::text::texts(r@) == if self.cached_skel is Some {
                crate::text::texts(self.bones@)
            } else {
                Seq::empty()
            },
    {
        if self.cached_skel.is_some() {
            crate::text::copy_texts(&self.bones)
        } else {
            let none: Vec<String> = Vec::new();
            assert(crate::text::texts(none@) =~= Seq::empty());
            none
        }
    }

    /// How many weapon skeletons are loaded.
    pub fn weapon_skel_count(&self) -> (r: usize)
        ensures
            r == self.weapon_skels@.len(),
    {
        self.weapon_skels.len()
    }

    /// Finds what a bone name means. Nothing is known without a skeleton.
    pub fn bone_world_matrix(&self, name: &str) -> (r: Option<BoneSource>)
        ensures
            self.cached_skel is None ==> r is None,
            self.cached_skel is Some ==> is_bone_source(
                r,
                self.bones@,
                self.weapon_skels@,
                name@,
            ),
    {
        if self.cached_skel.is_none() {
            return None;
        }
        let mut i: usize = self.bones.len();
        while i > 0
            invariant
                i <= self.bones.len(),
                self.cached_skel is Some,
                forall|j: int|
                    i <= j < self.bones@.len() ==> !names_bone(name@, #[trigger] self.bones@[j]@),
            decreases i,
        {
            i = i - 1;
            if means_bone(name, self.bones[i].as_str()) {
                return Some(BoneSource::Body(i));
            }
        }
        if same(name, "top") || same(name, "Top") {
            return Some(BoneSource::Root);
        }
        let mut w: usize = 0;
        while w < self.weapon_skels.len()
            invariant
                w <= self.weapon_skels.len(),
                self.cached_skel is Some,
                name@ != "top"@ && name@ != "Top"@,
                forall|j: int|
                    0 <= j < self.bones@.len() ==> !names_bone(name@, #[trigger] self.bones@[j]@),
                forall|p: int, q: int|
                    0 <= p < w && 0 <= q < self.weapon_skels@[p].bones@.len() ==> !names_bone(
                        name@,
                        #[trigger] self.weapon_skels@[p].bones@[q]@,
                    ),
            decreases self.weapon_skels.len() - w,
        {
            let mut b: usize = 0;
            while b < self.weapon_skels[w].bones.len()
                invariant
                    w < self.weapon_skels@.len(),
                    b <= self.weapon_skels@[w as int].bones@.len(),
                    self.cached_skel is Some,
                    name@ != "top"@ && name@ != "Top"@,
                    forall|j: int|
                        0 <= j < self.bones@.len() ==> !names_bone(
                            name@,
                            #[trigger] self.bones@[j]@,
                        ),
                    forall|p: int, q: int|
                        0 <= p <= w && 0 <= q < self.weapon_skels@[p].bones@.len() && (p < w || q
                            < b) ==> !names_bone(
                            name@,
                            #[trigger] self.weapon_skels@[p].bones@[q]@,
                        ),
                decreases self.weapon_skels@[w as int].bones@.len() - b,
            {
                if means_bone(name, self.weapon_skels[w].bones[b].as_str()) {
                    return Some(BoneSource::Weapon { weapon: w, bone: b });
                }
                b = b + 1;
            }
            w = w + 1;
        }
        None
    }

    /// The body bone that a weapon is fixed to: the first whose name agrees but for ASCII case.
    pub fn attach_index(&self, weapon: usize) -> (r: Option<usize>)
        requires
            weapon < self.weapon_skels@.len(),
        ensures
            ({
                let wanted = ascii_lower(self.weapon_skels@[weapon as int].attach_bone@);
                match r {
                    Some(at) => {
                        &&& at < self.bones@.len()
                        &&& ascii_lower(self.bones@[at as int]@) == wanted
                        &&& forall|i: int|
                            0 <= i < at ==> ascii_lower(#[trigger] self.bones@[i]@) != wanted
                    },
                    None => forall|i: int|
                        0 <= i < self.bones@.len() ==> ascii_lower(#[trigger] self.bones@[i]@)
                            != wanted,
                }
            }),
    {
        let wanted = to_ascii_lower(self.weapon_skels[weapon].attach_bone.as_str());
        let mut i: usize = 0;
        while i < self.bones.len()
            invariant
                i <= self.bones.len(),
                weapon < self.weapon_skels@.len(),
                wanted@ == ascii_lower(self.weapon_skels@[weapon as int].attach_bone@),
                forall|j: int| 0 <= j < i ==> ascii_lower(#[trigger] self.bones@[j]@) != wanted@,
            decreases self.bones.len() - i,
        {
            let bone = to_ascii_lower(self.bones[i].as_str());
            if same(bone.as_str(), wanted.as_str()) {
                return Some(i);
            }
            i = i + 1;
        }
        None
    }
}

/// The values of a track of an animation.
#[derive(Clone, Copy, Debug, PartialEq, Eq, Structural)]
pub enum TrackKind {
    /// This many transforms.
    Transform(usize),
    Other,
}

/// A node of an animation, with its tracks.
#[derive(Debug)]
pub struct AnimNode {
    pub name: String,
    pub tracks: Vec<TrackKind>,
}

/// A group of an animation.
#[derive(Debug)]
pub struct AnimGroup {
    /// Whether the group moves bones.
    pub is_transform: bool,
    pub nodes: Vec<AnimNode>,
}

/// Whether a node has transforms to give: its first track has some.
pub open spec fn has_transforms(node: AnimNode) -> bool {
    &&& node.tracks@.len() > 0
    &&& match node.tracks@[0] {
        TrackKind::Transform(count) => count > 0,
        TrackKind::Other => false,
    }
}

/// Whether a bone is the first of its name.
pub open spec fn first_named(bones: Seq<String>, bone: int, name: Seq<char>) -> bool {
    &&& 0 <= bone < bones.len()
    &&& bones[bone]@ == name
    &&& forall|j: int| 0 <= j < bone ==> (#[trigger] bones[j])@ != name
}

/// Whether a node of a group moves a bone: the group moves bones, the node has transforms, and the
/// bone is the first of the node's name.
pub open spec fn moves_bone(
    bones: Seq<String>,
    groups: Seq<AnimGroup>,
    group: int,
    node: int,
    bone: int,
) -> bool {
    &&& 0 <= group < groups.len()
    &&& 0 <= node < groups[group].nodes@.len()
    &&& groups[group].is_transform
    &&& has_transforms(groups[group].nodes@[node])
    &&& first_named(bones, bone, groups[group].nodes@[node].name@)
}

/// Whether a node comes before a place in the order of the file.
pub open spec fn comes_before(group: int, node: int, end_group: int, end_node: int) -> bool {
    group < end_group || (group == end_group && node < end_node)
}

/// Whether `driver` is the node that a bone takes its pose from, of those before a place: the last
/// that moves the bone.
pub open spec fn is_driver(
    driver: Option<(usize, usize)>,
    bones: Seq<String>,
    groups: Seq<AnimGroup>,
    bone: int,
    end_group: int,
    end_node: int,
) -> bool {
    match driver {
        Some((group, node)) => {
            &&& comes_before(group as int, node as int, end_group, end_node)
            &&& moves_bone(bones, groups, group as int, node as int, bone)
            &&& forall|g: int, n: int|
                comes_before(g, n, end_group, end_node) && comes_before(
                    group as int,
                    node as int,
                    g,
                    n,
                ) ==> !#[trigger] moves_bone(bones, groups, g, n, bone)
        },
        None => forall|g: int, n: int|
            comes_before(g, n, end_group, end_node) ==> !#[trigger] moves_bone(
                bones,
                groups,
                g,
                n,
                bone,
            ),
    }
}

/// The first bone of a name.
fn find_bone(bones: &Vec<String>, name: &str) -> (r: Option<usize>)
    ensures
        match r {
            Some(at) => first_named(bones@, at as int, name@),
            None => forall|b: int| !#[trigger] first_named(bones@, b, name@),
        },
{
    let mut i: usize = 0;
    while i < bones.len()
        invariant
            i <= bones.len(),
            forall|j: int| 0 <= j < i ==> (#[trigger] bones@[j])@ != name@,
        decreases bones.len() - i,
    {
        if same(bones[i].as_str(), name) {
            return Some(i);
        }
        i = i + 1;
    }
    None
}

fn gives_transforms(node: &AnimNode) -> (r: bool)
    ensures
        r == has_transforms(*node),
{
    if node.tracks.len() == 0 {
        return false;
    }
    match node.tracks[0] {
        TrackKind::Transform(count) => count > 0,
        TrackKind::Other => false,
    }
}

/// The node of an animation that each bone takes its pose from, as the places of its group and of
/// the node in it; none where the bone keeps the pose of the skeleton.
pub fn driving_nodes(bones: &Vec<String>, groups: &Vec<AnimGroup>) -> (r: Vec<
    Option<(usize, usize)>,
>)
    ensures
        r@.len() == bones@.len(),
        forall|b: int|
            0 <= b < r@.len() ==> is_driver(
                #[trigger] r@[b],
                bones@,
                groups@,
                b,
                groups@.len() as int,
                0,
            ),
{
    let mut drivers: Vec<Option<(usize, usize)>> = Vec::new();
    while drivers.len() < bones.len()
        invariant
            drivers@.len() <= bones@.len(),
            forall|b: int| 0 <= b < drivers@.len() ==> (#[trigger] drivers@[b]) is None,
        decreases bones.len() - drivers.len(),
    {
        drivers.push(None);
    }
    let mut g: usize = 0;
    while g < groups.len()
        invariant
            g <= groups.len(),
            drivers@.len() == bones@.len(),
            forall|b: int|
                0 <= b < drivers@.len() ==> is_driver(
                    #[trigger] drivers@[b],
                    bones@,
                    groups@,
                    b,
                    g as int,
                    0,
                ),
        decreases groups.len() - g,
    {
        let mut n: usize = 0;
        while n < groups[g].nodes.len()
            invariant
                g < groups@.len(),
                n <= groups@[g as int].nodes@.len(),
                drivers@.len() == bones@.len(),
                forall|b: int|
                    0 <= b < drivers@.len() ==> is_driver(
                        #[trigger] drivers@[b],
                        bones@,
                        groups@,
                        b,
                        g as int,
                        n as int,
                    ),
            decreases groups@[g as int].nodes@.len() - n,
        {
            let ghost was = drivers@;
            let node = &groups[g].nodes[n];
            let found = if groups[g].is_transform && gives_transforms(node) {
                find_bone(bones, node.name.as_str())
            } else {
                None
            };
            if let Some(at) = found {
                drivers.set(at, Some((g, n)));
            }
            proof {
                assert forall|b: int| 0 <= b < drivers@.len() implies is_driver(
                    #[trigger] drivers@[b],
                    bones@,
                    groups@,
                    b,
                    g as int,
                    n + 1,
                ) by {
                    assert(is_driver(was[b], bones@, groups@, b, g as int, n as int));
                    if found is Some && found->0 == b {
                        assert(moves_bone(bones@, groups@, g as int, n as int, b));
                    } else {
                        if moves_bone(bones@, groups@, g as int, n as int, b) {
                            assert(first_named(bones@, b, node.name@));
                            if let Some(at) = found {
                                assert(first_named(bones@, at as int, node.name@));
                                assert(bones@[at as int]@ == bones@[b]@);
                            }
                        }
                        assert(drivers@[b] == was[b]);
                    }
                }
            }
            n = n + 1;
        }
        assert forall|b: int| 0 <= b < drivers@.len() implies is_driver(
            #[trigger] drivers@[b],
            bones@,
            groups@,
            b,
            g + 1,
            0,
        ) by {
            assert(is_driver(drivers@[b], bones@, groups@, b, g as int, n as int));
            assert forall|h: int, m: int|
                comes_before(h, m, g + 1, 0) && moves_bone(bones@, groups@, h, m, b) implies
                comes_before(h, m, g as int, n as int) by {}
        }
        g = g + 1;
    }
    drivers
}

/// A bone that two nodes move takes its pose from the later of them.
pub proof fn law_the_last_node_moves_a_bone(
    driver: Option<(usize, usize)>,
    bones: Seq<String>,
    groups: Seq<AnimGroup>,
    bone: int,
    group: int,
    node: int,
)
    requires
        is_driver(driver, bones, groups, bone, groups.len() as int, 0),
        moves_bone(bones, groups, group, node, bone),
    ensures
        match driver {
            Some((last_group, last_node)) => !comes_before(
                last_group as int,
                last_node as int,
                group,
                node,
            ),
            None => false,
        },
{
    assert(comes_before(group, node, groups.len() as int, 0));
}

/// A bone of the body always comes before a weapon bone of the same name.
pub proof fn law_body_bones_come_first(
    source: Option<BoneSource>,
    bones: Seq<String>,
    weapons: Seq<WeaponSkel>,
    name: Seq<char>,
    bone: int,
)
    requires
        is_bone_source(source, bones, weapons, name),
        0 <= bone < bones.len(),
        names_bone(name, bones[bone]@),
    ensures
        source matches Some(BoneSource::Body(_)),
{
    assert(names_bone(name, bones[bone]@));
}

/// A file is read only when its path changes: one that was read is kept when it is asked for again.
pub proof fn law_a_file_is_read_once(cached: Option<String>, wanted: Option<String>)
    requires
        wanted is Some,
    ensures
        cache_step(path_text(held_after(cached, wanted, true)), path_text(wanted))
            == CacheStep::Keep,
{
}

/// Shields are held in the left hand, and every other weapon in the right.
pub proof fn law_only_shields_are_held_left(weapon_dir: Seq<char>)
    ensures
        attach_bone(weapon_dir) == seq!['h', 'a', 'v', 'e', 'l'] <==> weapon_dir == seq![
            's',
            'h',
            'i',
            'e',
            'l',
            'd',
        ] || weapon_dir == seq!['s', 'h', 'i', 'e', 'l', 'd', 'l'],
        attach_bone(weapon_dir) == seq!['h', 'a', 'v', 'e', 'l'] || attach_bone(weapon_dir) == seq![
            'h',
            'a',
            'v',
            'e',
            'r',
        ],
{
    reveal_strlit("shield");
    reveal_strlit("shieldl");
    reveal_strlit("havel");
    reveal_strlit("haver");
    assert("shield"@ =~= seq!['s', 'h', 'i', 'e', 'l', 'd']);
    assert("shieldl"@ =~= seq!['s', 'h', 'i', 'e', 'l', 'd', 'l']);
    assert("havel"@ =~= seq!['h', 'a', 'v', 'e', 'l']);
    assert("haver"@ =~= seq!['h', 'a', 'v', 'e', 'r']);
    assert("havel"@[4] != "haver"@[4]);
}

/// What is held after a path was asked for is that path where it could be read, or what was held
/// before where it is the same file; nothing is held where nothing was asked for or it could not be
/// read.
pub proof fn law_what_is_held_is_what_was_asked_for(
    cached: Option<String>,
    wanted: Option<String>,
    read: bool,
)
    ensures
        wanted is None ==> held_after(cached, wanted, read) is None,
        held_after(cached, wanted, read) is Some ==> wanted is Some && same_path(
            held_after(cached, wanted, read)->0@,
            wanted->0@,
        ),
        wanted is Some && read ==> held_after(cached, wanted, read) is Some,
        wanted is Some && cached is Some && same_path(cached->0@, wanted->0@) ==> held_after(
            cached,
            wanted,
            read,
        ) == cached,
        wanted is Some && !read && !(cached is Some && same_path(cached->0@, wanted->0@))
            ==> held_after(cached, wanted, read) is None,
{
}

/// A bone is meant by its own name, and by that name in lower case.
pub proof fn law_a_bone_is_meant_by_its_name(bone: Seq<char>)
    ensures
        names_bone(bone, bone),
        names_bone(unicode_lower(bone), bone),
        forall|name: Seq<char>| #[trigger]
            names_bone(name, bone) && name != bone ==> name == unicode_lower(bone),
{
}

/// A node moves a bone only by the transforms of its first track, and only the first bone of its
/// name, in a group that moves bones.
pub proof fn law_a_node_moves_the_bone_of_its_name(
    bones: Seq<String>,
    groups: Seq<AnimGroup>,
    group: int,
    node: int,
    bone: int,
    other: int,
)
    requires
        moves_bone(bones, groups, group, node, bone),
    ensures
        bones[bone]@ == groups[group].nodes@[node].name@,
        groups[group].is_transform,
        groups[group].nodes@[node].tracks@.len() > 0,
        match groups[group].nodes@[node].tracks@[0] {
            TrackKind::Transform(count) => count >= 1,
            TrackKind::Other => false,
        },
        moves_bone(bones, groups, group, node, other) ==> other == bone,
{
}

/// A frame is skinned again exactly where something about it is new: no frame was skinned yet, or
/// its time, its animation or its skeleton is another.
pub proof fn law_only_a_new_frame_is_skinned(
    state: HitboxRenderState,
    same_time: bool,
    anim: Option<String>,
    skel: Option<String>,
)
    ensures
        state.frame_known && same_time && state.last_anim_path == anim && state.last_skel_path
            == skel ==> !state.reskins(same_time, anim, skel),
        !state.frame_known ==> state.reskins(same_time, anim, skel),
        !same_time ==> state.reskins(same_time, anim, skel),
        anim is Some != state.last_anim_path is Some ==> state.reskins(same_time, anim, skel),
        skel is Some != state.last_skel_path is Some ==> state.reskins(same_time, anim, skel),
        anim is Some && state.last_anim_path is Some && !same_path(
            anim->0@,
            state.last_anim_path->0@,
        ) ==> state.reskins(same_time, anim, skel),
        skel is Some && state.last_skel_path is Some && !same_path(
            skel->0@,
            state.last_skel_path->0@,
        ) ==> state.reskins(same_time, anim, skel),
{
}

/// A directory is that of a weapon where it has a skeleton and is not the body's.
pub proof fn law_a_weapon_has_a_skeleton_of_its_own(dir: &str, has_skeleton: bool, r: bool)
    requires
        call_ensures(is_weapon_dir, (dir, has_skeleton), r),
    ensures
        r ==> has_skeleton,
        dir@ == seq!['b', 'o', 'd', 'y'] ==> !r,
        has_skeleton && dir@ != seq!['b', 'o', 'd', 'y'] ==> r,
{
    reveal_strlit("body");
    assert("body"@ =~= seq!['b', 'o', 'd', 'y']);
}

/// After a viewport was given a size that has texels it has that size, and so have its targets;
/// giving it the same size again, or one without texels, changes nothing.
pub proof fn law_a_viewport_takes_its_size_once(
    was: HitboxRenderState,
    now: HitboxRenderState,
    later: HitboxRenderState,
    width: u32,
    height: u32,
    first: ResizeStep,
    second: ResizeStep,
)
    requires
        was.resizes(width, height, now, first),
        now.resizes(width, height, later, second),
    ensures
        width > 0 && height > 0 ==> now.current_width == width && now.current_height == height,
        first.resize_scene ==> now.particle_target_size == (width, height),
        width == 0 || height == 0 ==> now == was && !first.resize_scene && !first.recreate_target,
        later == now,
        !second.resize_scene && !second.recreate_target,
        first.recreate_target ==> first.resize_scene,
        width > 0 && height > 0 && (was.current_width != width || was.current_height != height)
            ==> first.resize_scene,
{
}

/// What a name means is a bone that bears it: the last of the body's, where the body has one; else
/// the root for its two names; else the first of the weapons', weapon by weapon.
pub proof fn law_a_name_means_a_bone_that_bears_it(
    source: Option<BoneSource>,
    bones: Seq<String>,
    weapons: Seq<WeaponSkel>,
    name: Seq<char>,
    i: int,
    w: int,
    b: int,
)
    requires
        is_bone_source(source, bones, weapons, name),
    ensures
        match source {
            Some(BoneSource::Body(at)) => {
                &&& at < bones.len()
                &&& name == bones[at as int]@ || name == unicode_lower(bones[at as int]@)
                &&& at < i < bones.len() ==> name != bones[i]@
            },
            Some(BoneSource::Root) => name == "top"@ || name == "Top"@,
            Some(BoneSource::Weapon { weapon, bone }) => {
                &&& weapon < weapons.len()
                &&& bone < weapons[weapon as int].bones@.len()
                &&& name == weapons[weapon as int].bones@[bone as int]@ || name == unicode_lower(
                    weapons[weapon as int].bones@[bone as int]@,
                )
                &&& 0 <= w < weapon && 0 <= b < weapons[w].bones@.len() ==> name
                    != weapons[w].bones@[b]@
            },
            None => {
                &&& 0 <= i < bones.len() ==> name != bones[i]@
                &&& 0 <= w < weapons.len() && 0 <= b < weapons[w].bones@.len() ==> name
                    != weapons[w].bones@[b]@
                &&& name != "top"@ && name != "Top"@
            },
        },
        0 <= i < bones.len() && name == bones[i]@ ==> source is Some && source->0 is Body,
{
    if 0 <= i < bones.len() && name == bones[i]@ {
        assert(names_bone(name, bones[i]@));
    }
    if 0 <= w < weapons.len() && 0 <= b < weapons[w].bones@.len() && name == weapons[w].bones@[b]@ {
        assert(names_bone(name, weapons[w].bones@[b]@));
    }
}

/// The node that a bone takes its pose from is in the file, moves that bone, and no node behind it
/// does; a bone that some node moves takes its pose from one.
pub proof fn law_a_bone_is_driven_by_a_node_of_its_name(
    driver: Option<(usize, usize)>,
    bones: Seq<String>,
    groups: Seq<AnimGroup>,
    bone: int,
    g: int,
    n: int,
)
    requires
        is_driver(driver, bones, groups, bone, groups.len() as int, 0),
    ensures
        match driver {
            Some((group, node)) => {
                &&& group < groups.len()
                &&& node < groups[group as int].nodes@.len()
                &&& groups[group as int].is_transform
                &&& groups[group as int].nodes@[node as int].name@ == bones[bone]@
                &&& group < g || (group == g && node < n) ==> !moves_bone(bones, groups, g, n, bone)
            },
            None => !moves_bone(bones, groups, g, n, bone),
        },
{
    if moves_bone(bones, groups, g, n, bone) {
        assert(comes_before(g, n, groups.len() as int, 0));
    }
}

} // verus!
