//! How the shader modules of a pipeline are made from a decoded shader, and which pipelines are
//! made up front.

use vstd::prelude::*;
use vstd::string::*;

use crate::effects::{BlendType, EmitterDef, EmitterSet};
use crate::particle_frame::PipelineNeeds;
use crate::particle_renderer_bnsh::{
    is_whole, BnshShaderSet, EffectShaderPair, ShaderVsProfile,
};
use crate::text::{concat, contains, has_text, hex, hex_text, texts};

verus! {

/// One rewriting of the text of a vertex shader.
#[derive(Clone, Copy, Debug, PartialEq, Eq, Structural)]
pub enum VertexStep {
    /// What the simulation computes is handed on to the fragment stage.
    WireSimulationVaryings,
    /// The inputs are read from the particle's vertices, as the shader's profile says.
    PatchWithHint,
}

/// One rewriting of the text of a fragment shader.
#[derive(Clone, Copy, Debug, PartialEq, Eq, Structural)]
pub enum FragmentStep {
    /// The cross-fade is taken from the vertex stage.
    WireCrossfade,
    /// The coordinates of the further textures are taken from the vertex stage.
    WireExtraTextures,
    /// The coordinates on the quad are taken from the vertex stage.
    WireQuadUv,
    /// Outputs beyond those of the composite are taken out.
    ClampOutputs,
    /// The shader's own colour is kept and completed.
    EnhanceNative,
    /// A discard by the particle's life is taken out.
    NeutralizeLifeDiscard,
    /// The shader's colour is replaced by that of the emitter.
    PatchFragment,
    /// Everything is drawn in one colour, to look for faults.
    DebugSolid,
    /// The fade near other surfaces is added.
    InjectSoftParticle,
    /// Faint pixels are discarded, so that only the core of a particle writes depth.
    InjectOpaqueCoreAlphaTest,
}

/// How the texts of a shader are rewritten.
#[derive(Clone, Debug, PartialEq, Eq)]
pub struct WgslPlan {
    pub vertex: Vec<VertexStep>,
    pub fragment: Vec<FragmentStep>,
    /// The fragment shader of the passes that write depth.
    pub depth_write: Vec<FragmentStep>,
    /// Behind how many fragment steps the text shows whether its own colour can be kept.
    pub decide_behind: usize,
    /// Behind how many fragment steps the text is read for the textures, the blend uniform and the
    /// alpha uniform it needs.
    pub read_behind: usize,
    /// Behind how many fragment steps the text is read for the soft particle group and the constant
    /// buffers it needs.
    pub read_last_behind: usize,
}

/// The steps that join the fragment stage to the vertex stage.
pub open spec fn wiring_steps() -> Seq<FragmentStep> {
    seq![
        FragmentStep::WireCrossfade,
        FragmentStep::WireExtraTextures,
        FragmentStep::WireQuadUv,
        FragmentStep::ClampOutputs,
    ]
}

/// The steps that settle the colour. A native shader keeps its own.
pub open spec fn colour_steps(uses_native: bool) -> Seq<FragmentStep> {
    if uses_native {
        seq![FragmentStep::EnhanceNative, FragmentStep::NeutralizeLifeDiscard]
    } else {
        seq![FragmentStep::PatchFragment]
    }
}

/// How the text of a fragment shader is rewritten, in order.
pub open spec fn fragment_steps(uses_native: bool, debug_solid: bool) -> Seq<FragmentStep> {
    wiring_steps() + colour_steps(uses_native) + (if debug_solid {
        seq![FragmentStep::DebugSolid]
    } else {
        Seq::empty()
    }) + seq![FragmentStep::InjectSoftParticle]
}

fn list_steps(uses_native: bool, debug_solid: bool) -> (steps: Vec<FragmentStep>)
    ensures
        steps@ == fragment_steps(uses_native, debug_solid),
{
    let mut steps: Vec<FragmentStep> = vec![
        FragmentStep::WireCrossfade,
        FragmentStep::WireExtraTextures,
        FragmentStep::WireQuadUv,
        FragmentStep::ClampOutputs,
    ];
    if uses_native {
        steps.push(FragmentStep::EnhanceNative);
        steps.push(FragmentStep::NeutralizeLifeDiscard);
    } else {
        steps.push(FragmentStep::PatchFragment);
    }
    if debug_solid {
        steps.push(FragmentStep::DebugSolid);
    }
    steps.push(FragmentStep::InjectSoftParticle);
    assert(steps@ =~= fragment_steps(uses_native, debug_solid));
    steps
}

/// How the texts of a shader are rewritten. Whether the colour is native is decided on the joined
/// text. Which textures and uniforms the shader needs is read behind the colour, before anything is
/// added; whether it needs the soft particle group, and which constant buffers it uses, is read
/// behind all steps.
pub fn prepare_bnsh_wgsl(uses_native: bool, debug_solid: bool) -> (r: WgslPlan)
    ensures
        r.vertex@ == seq![VertexStep::WireSimulationVaryings, VertexStep::PatchWithHint],
        r.fragment@ == fragment_steps(uses_native, debug_solid),
        r.depth_write@ == r.fragment@.push(FragmentStep::InjectOpaqueCoreAlphaTest),
        r.decide_behind == wiring_steps().len(),
        r.read_behind == wiring_steps().len() + colour_steps(uses_native).len(),
        r.read_behind < r.fragment@.len(),
        r.read_last_behind == r.fragment@.len(),
        r.fragment@.last() == FragmentStep::InjectSoftParticle,
{
    let fragment = list_steps(uses_native, debug_solid);
    let mut depth_write = list_steps(uses_native, debug_solid);
    depth_write.push(FragmentStep::InjectOpaqueCoreAlphaTest);
    let read_behind: usize = if uses_native {
        6
    } else {
        5
    };
    let read_last_behind = fragment.len();
    WgslPlan {
        vertex: vec![VertexStep::WireSimulationVaryings, VertexStep::PatchWithHint],
        fragment,
        depth_write,
        decide_behind: 4,
        read_behind,
        read_last_behind,
    }
}

/// What the vertex stage is patched with, as a merge of profiles gives it: that of the registry,
/// merged with that of the stage's reflection where it has one, merged with the one that its text
/// shows. None where nothing is known then.
pub fn vertex_hint(
    registry: ShaderVsProfile,
    reflected: Option<ShaderVsProfile>,
    classified: ShaderVsProfile,
    merge: impl Fn(ShaderVsProfile, ShaderVsProfile) -> ShaderVsProfile,
) -> (r: Option<ShaderVsProfile>)
    requires
        forall|a: ShaderVsProfile, b: ShaderVsProfile| #[trigger] call_requires(merge, (a, b)),
    ensures
        exists|known: ShaderVsProfile, hint: ShaderVsProfile|
            {
                &&& match reflected {
                    Some(profile) => call_ensures(merge, (registry, profile), known),
                    None => known == registry,
                }
                &&& #[trigger] call_ensures(merge, (known, classified), hint)
                &&& r == if hint == ShaderVsProfile::Unknown {
                    None
                } else {
                    Some(hint)
                }
            },
{
    let known = match reflected {
        Some(profile) => merge(registry, profile),
        None => registry,
    };
    let hint = merge(known, classified);
    assert(call_ensures(merge, (known, classified), hint));
    if hint == ShaderVsProfile::Unknown {
        None
    } else {
        Some(hint)
    }
}

/// The texts of a shader after they were rewritten, and what they read.
#[derive(Debug)]
pub struct PreparedBnshWgsl {
    pub vs_wgsl: String,
    pub fs_wgsl: String,
    pub fs_wgsl_depth_write: String,
    pub uses_native_fs_fragment: bool,
    pub needs: PipelineNeeds,
}

/// The modules of a pipeline, as they are to be made.
#[derive(Debug)]
pub struct BnshLoadedModules {
    pub vs_label: String,
    pub fs_label: String,
    pub fs_depth_label: String,
    pub vs_entry: String,
    pub fs_entry: String,
    /// Whether bindings of the fragment stage that stand against the vertex stage are taken out, and
    /// the result is checked again.
    pub strip_conflicts: bool,
    /// The labels under which the stripped texts are checked, each with the file that a text which
    /// fails is written to.
    pub checks: Vec<(String, String)>,
    /// The files that the rewritten texts are written to, the vertex stage first.
    pub prepared_dumps: Vec<String>,
    /// The files that the final texts are written to, the vertex stage first. Only those of the
    /// watched shader are kept.
    pub final_dumps: Vec<String>,
    pub needs: PipelineNeeds,
}

/// The shader whose rewritten texts are kept to be looked at.
pub const WATCHED_SHADER: &'static str = "5740678a2aa5959f";

/// The file of a shader text that is kept to be looked at.
pub open spec fn dump_name(kind: Seq<char>, tag: Seq<char>) -> Seq<char> {
    kind + tag + ".wgsl"@
}

fn dump_text(kind: &str, tag: &str) -> (r: String)
    ensures
        r@ == dump_name(kind@, tag@),
{
    let front = concat(kind, tag);
    concat(front.as_str(), ".wgsl")
}

/// How the modules of a shader are made. The shader has both stages.
pub fn load_bnsh_shader_modules(
    pair: &EffectShaderPair,
    label_tag: &str,
    prepared: &PreparedBnshWgsl,
) -> (r: BnshLoadedModules)
    requires
        is_whole(*pair),
    ensures
        r.vs_label@ == "particle_bnsh_vs_"@ + label_tag@,
        r.fs_label@ == "particle_bnsh_fs_"@ + label_tag@,
        r.fs_depth_label@ == "particle_bnsh_fs_depth_write_"@ + label_tag@,
        r.vs_entry@ == pair.vertex->0.entry_point@,
        r.fs_entry@ == pair.fragment->0.entry_point@,
        r.strip_conflicts == prepared.uses_native_fs_fragment,
        r.checks@.len() == if prepared.uses_native_fs_fragment {
            2int
        } else {
            0
        },
        prepared.uses_native_fs_fragment ==> {
            &&& r.checks@[0].0@ == r.fs_label@
            &&& r.checks@[0].1@ == dump_name("hitbox_stripped_fs_"@, label_tag@)
            &&& r.checks@[1].0@ == r.fs_depth_label@
            &&& r.checks@[1].1@ == dump_name("hitbox_stripped_fs_depth_"@, label_tag@)
        },
        texts(r.prepared_dumps@) == seq![
            dump_name("hitbox_prepared_vs_"@, label_tag@),
            dump_name("hitbox_prepared_fs_"@, label_tag@),
        ],
        texts(r.final_dumps@) == if contains(label_tag@, WATCHED_SHADER@) {
            seq![
                dump_name("hitbox_patched_vs_"@, label_tag@),
                dump_name("hitbox_patched_fs_"@, label_tag@),
            ]
        } else {
            Seq::empty()
        },
        r.needs == prepared.needs,
{
    let vs_entry = match &pair.vertex {
        Some(stage) => stage.entry_point.clone(),
        None => String::new(),
    };
    let fs_entry = match &pair.fragment {
        Some(stage) => stage.entry_point.clone(),
        None => String::new(),
    };
    let fs_label = concat("particle_bnsh_fs_", label_tag);
    let fs_depth_label = concat("particle_bnsh_fs_depth_write_", label_tag);
    let mut checks: Vec<(String, String)> = Vec::new();
    if prepared.uses_native_fs_fragment {
        checks.push((fs_label.clone(), dump_text("hitbox_stripped_fs_", label_tag)));
        checks.push((fs_depth_label.clone(), dump_text("hitbox_stripped_fs_depth_", label_tag)));
    }
    let mut prepared_dumps: Vec<String> = Vec::new();
    prepared_dumps.push(dump_text("hitbox_prepared_vs_", label_tag));
    prepared_dumps.push(dump_text("hitbox_prepared_fs_", label_tag));
    let mut final_dumps: Vec<String> = Vec::new();
    if has_text(label_tag, WATCHED_SHADER) {
        final_dumps.push(dump_text("hitbox_patched_vs_", label_tag));
        final_dumps.push(dump_text("hitbox_patched_fs_", label_tag));
    }
    BnshLoadedModules {
        vs_label: concat("particle_bnsh_vs_", label_tag),
        fs_label,
        fs_depth_label,
        vs_entry,
        fs_entry,
        strip_conflicts: prepared.uses_native_fs_fragment,
        checks,
        prepared_dumps,
        final_dumps,
        needs: prepared.needs,
    }
}

/// The label of a pipeline: its key in hexadecimal.
pub fn pipeline_label(key: u64) -> (r: String)
    ensures
        r@ == "0x"@ + hex(key as nat, 1),
{
    let digits = hex_text(key, 1);
    concat("0x", digits.as_str())
}

/// The keys of the emitters of a set, each once, behind those of a list.
pub open spec fn keys_of_emitters(
    keys: Seq<u64>,
    shaders: BnshShaderSet,
    set: EmitterSet,
    count: int,
) -> Seq<u64>
    decreases count,
{
    if count <= 0 {
        keys
    } else {
        let front = keys_of_emitters(keys, shaders, set, count - 1);
        let key = shaders.key_of(set.emitters@[count - 1]);
        if front.contains(key) {
            front
        } else {
            front.push(key)
        }
    }
}

/// The keys of the emitters of some sets, each once, in the order they first occur.
pub open spec fn keys_of_sets(shaders: BnshShaderSet, sets: Seq<EmitterSet>) -> Seq<u64>
    decreases sets.len(),
{
    if sets.len() == 0 {
        Seq::empty()
    } else {
        keys_of_emitters(
            keys_of_sets(shaders, sets.drop_last()),
            shaders,
            sets.last(),
            sets.last().emitters@.len() as int,
        )
    }
}

fn has_key(keys: &Vec<u64>, key: u64) -> (r: bool)
    ensures
        r == keys@.contains(key),
{
    let mut i: usize = 0;
    while i < keys.len()
        invariant
            i <= keys.len(),
            forall|j: int| 0 <= j < i ==> keys@[j] != key,
        decreases keys.len() - i,
    {
        if keys[i] == key {
            assert(keys@[i as int] == key);
            return true;
        }
        i = i + 1;
    }
    false
}

/// The key of an emitter's pipeline, and the label to make the pipeline with where it is not among
/// those that are `made`. No pipeline is made twice.
pub fn ensure_bnsh_pipeline(made: &mut Vec<u64>, shaders: &BnshShaderSet, emitter: &EmitterDef) -> (r:
    (u64, Option<String>))
    ensures
        r.0 == shaders.key_of(*emitter),
        final(made)@.contains(r.0),
        match r.1 {
            Some(label) => !old(made)@.contains(r.0) && final(made)@ == old(made)@.push(r.0)
                && label@ == "0x"@ + hex(r.0 as nat, 1),
            None => old(made)@.contains(r.0) && final(made)@ == old(made)@,
        },
        old(made)@.no_duplicates() ==> final(made)@.no_duplicates(),
{
    let key = shaders.pipeline_key_for_emitter(emitter);
    if has_key(made, key) {
        return (key, None);
    }
    made.push(key);
    assert(made@.last() == key);
    (key, Some(pipeline_label(key)))
}

/// The keys of the pipelines to make up front, so that the first frame does not wait for them: one
/// for each shader that an emitter uses.
pub fn warm_bnsh_pipelines(shaders: &BnshShaderSet, sets: &Vec<EmitterSet>) -> (keys: Vec<u64>)
    ensures
        keys@ == keys_of_sets(*shaders, sets@),
{
    let mut keys: Vec<u64> = Vec::new();
    let mut i: usize = 0;
    assert(sets@.take(0) =~= Seq::empty());
    while i < sets.len()
        invariant
            i <= sets.len(),
            keys@ == keys_of_sets(*shaders, sets@.take(i as int)),
        decreases sets.len() - i,
    {
        let ghost first = keys@;
        let set = &sets[i];
        assert(sets@.take(i + 1).drop_last() =~= sets@.take(i as int));
        let mut k: usize = 0;
        while k < set.emitters.len()
            invariant
                k <= set.emitters@.len(),
                keys@ == keys_of_emitters(first, *shaders, *set, k as int),
            decreases set.emitters.len() - k,
        {
            let key = shaders.pipeline_key_for_emitter(&set.emitters[k]);
            if !has_key(&keys, key) {
                keys.push(key);
            }
            k = k + 1;
        }
        i = i + 1;
    }
    assert(sets@.take(sets@.len() as int) =~= sets@);
    keys
}

/// The blends and depth modes of a shader that are made up front: each blend without depth, with
/// depth tested, and with depth written.
pub fn warm_variants() -> (r: Vec<(BlendType, bool, bool)>)
    ensures
        r@ == seq![
            (BlendType::Normal, false, false),
            (BlendType::Normal, true, false),
            (BlendType::Normal, true, true),
            (BlendType::Add, false, false),
            (BlendType::Add, true, false),
            (BlendType::Add, true, true),
            (BlendType::Sub, false, false),
            (BlendType::Sub, true, false),
            (BlendType::Sub, true, true),
            (BlendType::Screen, false, false),
            (BlendType::Screen, true, false),
            (BlendType::Screen, true, true),
            (BlendType::Multiply, false, false),
            (BlendType::Multiply, true, false),
            (BlendType::Multiply, true, true),
        ],
{
    vec![
        (BlendType::Normal, false, false),
        (BlendType::Normal, true, false),
        (BlendType::Normal, true, true),
        (BlendType::Add, false, false),
        (BlendType::Add, true, false),
        (BlendType::Add, true, true),
        (BlendType::Sub, false, false),
        (BlendType::Sub, true, false),
        (BlendType::Sub, true, true),
        (BlendType::Screen, false, false),
        (BlendType::Screen, true, false),
        (BlendType::Screen, true, true),
        (BlendType::Multiply, false, false),
        (BlendType::Multiply, true, false),
        (BlendType::Multiply, true, true),
    ]
}

proof fn lemma_keys_of_emitters(
    keys: Seq<u64>,
    shaders: BnshShaderSet,
    set: EmitterSet,
    count: int,
    key: u64,
)
    requires
        0 <= count <= set.emitters@.len(),
        keys.no_duplicates(),
    ensures
        keys_of_emitters(keys, shaders, set, count).no_duplicates(),
        keys_of_emitters(keys, shaders, set, count).contains(key) == (keys.contains(key) || exists|
            k: int,
        |
            0 <= k < count && shaders.key_of(#[trigger] set.emitters@[k]) == key),
    decreases count,
{
    if count > 0 {
        lemma_keys_of_emitters(keys, shaders, set, count - 1, key);
        let front = keys_of_emitters(keys, shaders, set, count - 1);
        let now = keys_of_emitters(keys, shaders, set, count);
        let last = shaders.key_of(set.emitters@[count - 1]);
        if front.contains(key) {
            let i = front.index_of(key);
            assert(now[i] == key);
        }
        if last == key && !front.contains(key) {
            assert(now[front.len() as int] == key);
        }
        if now.contains(key) {
            let i = now.index_of(key);
            if i < front.len() {
                assert(front[i] == key);
            }
        }
    }
}

/// Every shader that an emitter uses is made up front, none twice, and no other is.
pub proof fn law_each_used_shader_is_warmed_once(
    shaders: BnshShaderSet,
    sets: Seq<EmitterSet>,
    key: u64,
)
    ensures
        keys_of_sets(shaders, sets).no_duplicates(),
        keys_of_sets(shaders, sets).contains(key) == exists|i: int, k: int|
            0 <= i < sets.len() && 0 <= k < sets[i].emitters@.len() && shaders.key_of(
                #[trigger] sets[i].emitters@[k],
            ) == key,
    decreases sets.len(),
{
    if sets.len() > 0 {
        let front = sets.drop_last();
        law_each_used_shader_is_warmed_once(shaders, front, key);
        let last = sets.last();
        lemma_keys_of_emitters(
            keys_of_sets(shaders, front),
            shaders,
            last,
            last.emitters@.len() as int,
            key,
        );
        if keys_of_sets(shaders, front).contains(key) {
            let (i, k) = choose|i: int, k: int|
                0 <= i < front.len() && 0 <= k < front[i].emitters@.len() && shaders.key_of(
                    #[trigger] front[i].emitters@[k],
                ) == key;
            assert(shaders.key_of(sets[i].emitters@[k]) == key);
        }
        if exists|k: int|
            0 <= k < last.emitters@.len() && shaders.key_of(#[trigger] last.emitters@[k]) == key {
            let k = choose|k: int|
                0 <= k < last.emitters@.len() && shaders.key_of(#[trigger] last.emitters@[k])
                    == key;
            assert(shaders.key_of(sets[sets.len() - 1].emitters@[k]) == key);
        }
        if exists|i: int, k: int|
            0 <= i < sets.len() && 0 <= k < sets[i].emitters@.len() && shaders.key_of(
                #[trigger] sets[i].emitters@[k],
            ) == key {
            let (i, k) = choose|i: int, k: int|
                0 <= i < sets.len() && 0 <= k < sets[i].emitters@.len() && shaders.key_of(
                    #[trigger] sets[i].emitters@[k],
                ) == key;
            if i < front.len() {
                assert(shaders.key_of(front[i].emitters@[k]) == key);
            } else {
                assert(shaders.key_of(last.emitters@[k]) == key);
            }
        }
    }
}

/// A fragment shader is always joined to the vertex stage first and reads the depth last. A native
/// one keeps its own colour, any other one is patched, and the solid colour stands in only where it
/// is asked for, behind all other colours.
pub proof fn law_fragment_steps_are_in_order(uses_native: bool, debug_solid: bool)
    ensures
        ({
            let steps = fragment_steps(uses_native, debug_solid);
            &&& steps[0] == FragmentStep::WireCrossfade
            &&& steps[1] == FragmentStep::WireExtraTextures
            &&& steps[2] == FragmentStep::WireQuadUv
            &&& steps[3] == FragmentStep::ClampOutputs
            &&& uses_native ==> steps[4] == FragmentStep::EnhanceNative && steps[5]
                == FragmentStep::NeutralizeLifeDiscard
            &&& !uses_native ==> steps[4] == FragmentStep::PatchFragment
            &&& steps.last() == FragmentStep::InjectSoftParticle
            &&& debug_solid ==> steps[steps.len() - 2] == FragmentStep::DebugSolid
            &&& steps.len() == 6 + (if uses_native {
                1int
            } else {
                0
            }) + (if debug_solid {
                1int
            } else {
                0
            })
        }),
{
}

/// Every blend is warmed without depth, with depth, and with depth written, and nothing twice.
pub proof fn law_every_blend_is_warmed_in_every_variant(r: Vec<(BlendType, bool, bool)>)
    requires
        call_ensures(warm_variants, (), r),
    ensures
        r@.len() == 15,
        forall|i: int|
            0 <= i < r@.len() && !(#[trigger] r@[i]).1 ==> !r@[i].2,
        forall|i: int, j: int| 0 <= i < j < r@.len() ==> #[trigger] r@[i] != #[trigger] r@[j],
{
}

/// The depth variant of a fragment shader has its steps and one more, the test of its alpha; what a
/// shader reads is settled behind the steps that join it and those that settle its colour.
pub proof fn law_the_depth_variant_tests_alpha(uses_native: bool, debug_solid: bool, r: WgslPlan)
    requires
        call_ensures(prepare_bnsh_wgsl, (uses_native, debug_solid), r),
    ensures
        r.depth_write@.len() == r.fragment@.len() + 1,
        r.depth_write@.drop_last() == r.fragment@,
        r.depth_write@.last() == FragmentStep::InjectOpaqueCoreAlphaTest,
        r.decide_behind == 4,
        r.read_behind == (if uses_native {
            6int
        } else {
            5
        }),
        r.read_last_behind == r.fragment@.len(),
        r.vertex@.len() == 2,
        r.vertex@[0] == VertexStep::WireSimulationVaryings,
{
    assert(r.depth_write@.drop_last() =~= r.fragment@);
}

} // verus!
