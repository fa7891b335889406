//! One frame of particles: the order they are drawn in, the batches, and what each batch reads.

use vstd::prelude::*;

use vstd::string::*;

use crate::effects::BlendType;
use crate::text::{lowercase, same, texts, unicode_lower};

verus! {

/// What particles must share to be drawn together.
#[derive(Clone, Copy, Debug, PartialEq, Eq, Structural)]
pub struct BatchKey {
    pub draw_path: u32,
    pub order: u32,
    pub set_idx: usize,
    pub emitter_idx: usize,
}

/// A particle as the frame sees it.
#[derive(Clone, Copy, Debug, PartialEq, Eq, Structural)]
pub struct FrameParticle {
    /// Orders particles before their depth does.
    pub sort_key: u64,
    /// Ascends with the particle's clip depth.
    pub depth: i64,
    pub batch: BatchKey,
    /// How many vertices the particle is drawn with.
    pub vertices: u32,
    /// Whether the particle is opaque enough to write depth.
    pub opaque: bool,
}

/// Which uniforms and textures a shader reads beyond the emitter's own textures.
#[derive(Clone, Copy, Debug, PartialEq, Eq, Structural)]
pub struct PipelineNeeds {
    pub extra_tex3: bool,
    pub extra_tex4: bool,
    pub extra_tex5: bool,
    pub tex_blend_uniform: bool,
    pub particle_alpha_uniform: bool,
    pub soft_particle: bool,
}

/// Whether a shader reads any texture beyond the first three.
pub open spec fn needs_extra_tex(needs: PipelineNeeds) -> bool {
    needs.extra_tex3 || needs.extra_tex4 || needs.extra_tex5
}

/// Whether a shader reads the bind group behind the emitter textures.
pub open spec fn needs_group2(needs: PipelineNeeds) -> bool {
    needs_extra_tex(needs) || needs.tex_blend_uniform || needs.particle_alpha_uniform
}

/// Whether a shader reads the texture blend uniform.
pub open spec fn needs_blend(needs: PipelineNeeds) -> bool {
    needs.tex_blend_uniform || needs_extra_tex(needs)
}

impl PipelineNeeds {
    /// Whether the shader reads any texture beyond the first three.
    pub fn extra_tex(&self) -> (r: bool)
        ensures
            r == needs_extra_tex(*self),
    {
        self.extra_tex3 || self.extra_tex4 || self.extra_tex5
    }

    /// Whether the shader reads the bind group behind the emitter textures.
    pub fn group2(&self) -> (r: bool)
        ensures
            r == needs_group2(*self),
    {
        self.extra_tex() || self.tex_blend_uniform || self.particle_alpha_uniform
    }

    /// Whether the shader reads the texture blend uniform.
    pub fn blend(&self) -> (r: bool)
        ensures
            r == needs_blend(*self),
    {
        self.tex_blend_uniform || self.extra_tex()
    }
}

/// How an emitter is drawn.
#[derive(Clone, Copy, Debug, PartialEq, Eq, Structural)]
pub struct EmitterDraw {
    pub pipeline_key: u64,
    pub blend: BlendType,
    pub needs: PipelineNeeds,
}

/// One batch that is ready to be drawn.
#[derive(Clone, Copy, Debug, PartialEq, Eq, Structural)]
pub struct PreparedBnshDraw {
    pub draw_path: u32,
    pub pipeline_key: u64,
    pub blend: BlendType,
    /// Whether every particle of the batch is opaque.
    pub opaque_core: bool,
    pub needs: PipelineNeeds,
    pub set_idx: usize,
    pub emitter_idx: usize,
    /// Where the batch begins in the frame's particle order, and how many particles it has.
    pub first_particle: usize,
    pub particle_count: usize,
    pub vertex_byte_offset: u64,
    pub vertex_count: u32,
    /// Where the batch's uniforms stand in their pools.
    pub indirect_offset: u64,
    pub blend_offset: u64,
    pub alpha_mod_offset: u64,
    pub soft_offset: u64,
}

/// Alignment of a uniform's place in its pool.
pub const INDIRECT_UNIFORM_ALIGN: u64 = 256;

/// How many draws each uniform pool has room for.
pub const INDIRECT_UNIFORM_POOL_DRAWS: u64 = 128;

/// Bytes of one particle vertex: thirteen vectors of four floats.
pub const BNSH_VERTEX_STRIDE: u64 = 208;

/// Whether a particle takes part: its emitter is the one shown alone, where there is one, and is
/// not the one left out.
pub open spec fn is_shown(p: FrameParticle, only: Option<usize>, skip: Option<usize>) -> bool {
    &&& only is Some ==> p.batch.emitter_idx == only->0
    &&& skip is Some ==> p.batch.emitter_idx != skip->0
}

/// Whether particle `i` is drawn before particle `j`: by sort key, then by depth, then in the order
/// they were given.
pub open spec fn drawn_before(ps: Seq<FrameParticle>, i: int, j: int) -> bool {
    let a = ps[i];
    let b = ps[j];
    if a.sort_key != b.sort_key {
        a.sort_key < b.sort_key
    } else if a.depth != b.depth {
        a.depth < b.depth
    } else {
        i < j
    }
}

/// Whether `order` lists the shown particles in the order they are drawn.
pub open spec fn is_draw_order(
    order: Seq<usize>,
    ps: Seq<FrameParticle>,
    only: Option<usize>,
    skip: Option<usize>,
) -> bool {
    &&& forall|i: int, j: int|
        0 <= i < j < order.len() ==> drawn_before(
            ps,
            #[trigger] order[i] as int,
            #[trigger] order[j] as int,
        )
    &&& forall|k: usize|
        #[trigger] order.contains(k) <==> k < ps.len() && is_shown(ps[k as int], only, skip)
}

/// Lists the shown particles in the order they are drawn.
pub fn draw_order(ps: &Vec<FrameParticle>, only: Option<usize>, skip: Option<usize>) -> (order: Vec<
    usize,
>)
    ensures
        is_draw_order(order@, ps@, only, skip),
{
    let mut order: Vec<usize> = Vec::new();
    let mut k: usize = 0;
    while k < ps.len()
        invariant
            k <= ps.len(),
            forall|i: int| 0 <= i < order@.len() ==> #[trigger] order@[i] < k,
            forall|i: int, j: int|
                0 <= i < j < order@.len() ==> drawn_before(
                    ps@,
                    #[trigger] order@[i] as int,
                    #[trigger] order@[j] as int,
                ),
            forall|n: usize|
                #[trigger] order@.contains(n) <==> n < k && is_shown(ps@[n as int], only, skip),
        decreases ps.len() - k,
    {
        let p = ps[k];
        let shown = (match only {
            Some(e) => p.batch.emitter_idx == e,
            None => true,
        }) && (match skip {
            Some(e) => p.batch.emitter_idx != e,
            None => true,
        });
        if shown {
            insert_in_order(&mut order, ps, k);
        }
        k = k + 1;
    }
    order
}

fn goes_before(p: FrameParticle, q: FrameParticle) -> (r: bool)
    ensures
        r == (p.sort_key < q.sort_key || (p.sort_key == q.sort_key && p.depth < q.depth)),
{
    p.sort_key < q.sort_key || (p.sort_key == q.sort_key && p.depth < q.depth)
}

fn insert_in_order(order: &mut Vec<usize>, ps: &Vec<FrameParticle>, k: usize)
    requires
        k < ps@.len(),
        forall|i: int| 0 <= i < old(order)@.len() ==> #[trigger] old(order)@[i] < k,
        forall|i: int, j: int|
            0 <= i < j < old(order)@.len() ==> drawn_before(
                ps@,
                #[trigger] old(order)@[i] as int,
                #[trigger] old(order)@[j] as int,
            ),
    ensures
        forall|i: int| 0 <= i < final(order)@.len() ==> #[trigger] final(order)@[i] <= k,
        forall|i: int, j: int|
            0 <= i < j < final(order)@.len() ==> drawn_before(
                ps@,
                #[trigger] final(order)@[i] as int,
                #[trigger] final(order)@[j] as int,
            ),
        forall|n: usize|
            #[trigger] final(order)@.contains(n) <==> n == k || old(order)@.contains(n),
{
    let ghost was = order@;
    let p = ps[k];
    let mut at: usize = order.len();
    while at > 0 && goes_before(p, ps[order[at - 1]])
        invariant
            at <= order.len(),
            order@ == was,
            k < ps@.len(),
            p == ps@[k as int],
            forall|i: int| 0 <= i < was.len() ==> #[trigger] was[i] < k,
            forall|i: int| at <= i < was.len() ==> drawn_before(ps@, k as int, #[trigger] was[i] as int),
        decreases at,
    {
        at = at - 1;
    }
    order.insert(at, k);
    proof {
        let now = order@;
        assert(now == was.insert(at as int, k));
        if at > 0 {
            assert(drawn_before(ps@, was[at - 1] as int, k as int));
        }
        assert forall|i: int| 0 <= i < at implies drawn_before(ps@, #[trigger] was[i] as int, k as int) by {
            if i < at - 1 {
                assert(drawn_before(ps@, was[i] as int, was[at - 1] as int));
            }
        }
        assert forall|i: int, j: int| 0 <= i < j < now.len() implies drawn_before(
            ps@,
            #[trigger] now[i] as int,
            #[trigger] now[j] as int,
        ) by {
            let a = if i < at { i } else { i - 1 };
            let b = if j < at { j } else { j - 1 };
            if i == at {
                assert(now[j] == was[b]);
            } else if j == at {
                assert(now[i] == was[a]);
            } else {
                assert(now[i] == was[a]);
                assert(now[j] == was[b]);
            }
        }
        assert forall|n: usize| #[trigger] now.contains(n) <==> n == k || was.contains(n) by {
            if was.contains(n) {
                let i = was.index_of(n);
                assert(now[if i < at { i } else { i + 1 }] == n);
            }
            if n == k {
                assert(now[at as int] == n);
            }
            if now.contains(n) && n != k {
                let i = now.index_of(n);
                assert(was[if i < at { i } else { i - 1 }] == n);
            }
        }
    }
}

/// The batch key of each particle in draw order.
pub open spec fn ordered_keys(order: Seq<usize>, ps: Seq<FrameParticle>) -> Seq<BatchKey> {
    Seq::new(order.len(), |i: int| ps[order[i] as int].batch)
}

/// The runs of equal keys: where each begins and how long it is.
pub open spec fn runs(keys: Seq<BatchKey>) -> Seq<(int, int)>
    decreases keys.len(),
{
    if keys.len() == 0 {
        Seq::empty()
    } else {
        let before = runs(keys.drop_last());
        if keys.len() > 1 && keys[keys.len() - 2] == keys.last() {
            before.update(before.len() - 1, (before.last().0, before.last().1 + 1))
        } else {
            before.push((keys.len() - 1, 1))
        }
    }
}

/// The vertices of a stretch of the particle order.
pub open spec fn vertices_of(order: Seq<usize>, ps: Seq<FrameParticle>, from: int, count: int) -> int
    decreases count,
{
    if count <= 0 {
        0
    } else {
        vertices_of(order, ps, from, count - 1) + ps[order[from + count - 1] as int].vertices
    }
}

/// Whether every particle of a stretch of the particle order is opaque.
pub open spec fn all_opaque(order: Seq<usize>, ps: Seq<FrameParticle>, from: int, count: int) -> bool {
    forall|i: int| from <= i < from + count ==> ps[#[trigger] order[i] as int].opaque
}

/// Whether an emitter is there.
pub open spec fn emitter_exists(emitters: Seq<Vec<EmitterDraw>>, key: BatchKey) -> bool {
    key.set_idx < emitters.len() && key.emitter_idx < emitters[key.set_idx as int]@.len()
}

/// Whether a run is drawn: its emitter is there and it has vertices.
pub open spec fn run_drawn(
    run: (int, int),
    order: Seq<usize>,
    ps: Seq<FrameParticle>,
    emitters: Seq<Vec<EmitterDraw>>,
) -> bool {
    &&& emitter_exists(emitters, ps[order[run.0] as int].batch)
    &&& vertices_of(order, ps, run.0, run.1) > 0
}

/// The runs that are drawn.
pub open spec fn drawn_runs(
    order: Seq<usize>,
    ps: Seq<FrameParticle>,
    emitters: Seq<Vec<EmitterDraw>>,
) -> Seq<(int, int)> {
    runs(ordered_keys(order, ps)).filter(|run: (int, int)| run_drawn(run, order, ps, emitters))
}

/// The vertices of the first draws.
pub open spec fn vertices_before(draws: Seq<PreparedBnshDraw>) -> int
    decreases draws.len(),
{
    if draws.len() == 0 {
        0
    } else {
        vertices_before(draws.drop_last()) + draws.last().vertex_count
    }
}

/// How many of the draws read the blend uniform, the group behind the textures, or the depth.
pub open spec fn readers(draws: Seq<PreparedBnshDraw>, which: UniformPool) -> int
    decreases draws.len(),
{
    if draws.len() == 0 {
        0
    } else {
        readers(draws.drop_last(), which) + if reads_pool(draws.last().needs, which) {
            1int
        } else {
            0
        }
    }
}

/// A pool that draws take uniform space from.
#[derive(Clone, Copy, Debug, PartialEq, Eq, Structural)]
pub enum UniformPool {
    Blend,
    AlphaMod,
    Soft,
}

/// Whether a shader takes space from a pool.
pub open spec fn reads_pool(needs: PipelineNeeds, which: UniformPool) -> bool {
    match which {
        UniformPool::Blend => needs_blend(needs),
        UniformPool::AlphaMod => needs_group2(needs),
        UniformPool::Soft => needs.soft_particle,
    }
}

/// The place of a draw in a pool: behind those of the draws before it; zero where it takes none.
pub open spec fn pool_place(draws: Seq<PreparedBnshDraw>, needs: PipelineNeeds, which: UniformPool) -> int {
    if reads_pool(needs, which) {
        256 * readers(draws, which)
    } else {
        0
    }
}

/// Whether a draw is what a run becomes behind the draws before it.
pub open spec fn draw_of_run(
    draw: PreparedBnshDraw,
    run: (int, int),
    before: Seq<PreparedBnshDraw>,
    order: Seq<usize>,
    ps: Seq<FrameParticle>,
    emitters: Seq<Vec<EmitterDraw>>,
) -> bool {
    let key = ps[order[run.0] as int].batch;
    let emitter = emitters[key.set_idx as int]@[key.emitter_idx as int];
    &&& draw.draw_path == key.draw_path
    &&& draw.set_idx == key.set_idx
    &&& draw.emitter_idx == key.emitter_idx
    &&& draw.pipeline_key == emitter.pipeline_key
    &&& draw.blend == emitter.blend
    &&& draw.needs == emitter.needs
    &&& draw.opaque_core == all_opaque(order, ps, run.0, run.1)
    &&& draw.first_particle == run.0
    &&& draw.particle_count == run.1
    &&& draw.vertex_count == vertices_of(order, ps, run.0, run.1)
    &&& draw.vertex_byte_offset == 208 * vertices_before(before)
    &&& draw.indirect_offset == 256 * before.len()
    &&& draw.blend_offset == pool_place(before, emitter.needs, UniformPool::Blend)
    &&& draw.alpha_mod_offset == pool_place(before, emitter.needs, UniformPool::AlphaMod)
    &&& draw.soft_offset == pool_place(before, emitter.needs, UniformPool::Soft)
}

/// Whether the draws are what the frame's particles become.
pub open spec fn is_draw_list(
    draws: Seq<PreparedBnshDraw>,
    order: Seq<usize>,
    ps: Seq<FrameParticle>,
    emitters: Seq<Vec<EmitterDraw>>,
) -> bool {
    &&& draws.len() == drawn_runs(order, ps, emitters).len()
    &&& forall|i: int|
        0 <= i < draws.len() ==> draw_of_run(
            #[trigger] draws[i],
            drawn_runs(order, ps, emitters)[i],
            draws.take(i),
            order,
            ps,
            emitters,
        )
}

/// Where the run that begins at `from` ends.
fn run_end(order: &Vec<usize>, ps: &Vec<FrameParticle>, from: usize) -> (to: usize)
    requires
        from < order@.len(),
        forall|i: int| 0 <= i < order@.len() ==> #[trigger] order@[i] < ps@.len(),
        from > 0 ==> ordered_keys(order@, ps@)[from - 1] != ordered_keys(order@, ps@)[from as int],
    ensures
        from < to <= order@.len(),
        runs(ordered_keys(order@, ps@).take(to as int)) == runs(
            ordered_keys(order@, ps@).take(from as int),
        ).push((from as int, to - from)),
        to < order@.len() ==> ordered_keys(order@, ps@)[to - 1] != ordered_keys(order@, ps@)[to as int],
{
    let ghost keys = ordered_keys(order@, ps@);
    let key = ps[order[from]].batch;
    assert(order@.len() == order.len());
    let mut to: usize = from + 1;
    proof {
        assert(keys.take(from + 1).drop_last() =~= keys.take(from as int));
        assert(runs(keys.take(from + 1)) =~= runs(keys.take(from as int)).push((from as int, 1)));
    }
    while to < order.len() && ps[order[to]].batch == key
        invariant
            from < to <= order@.len(),
            keys == ordered_keys(order@, ps@),
            key == keys[from as int],
            forall|i: int| 0 <= i < order@.len() ==> #[trigger] order@[i] < ps@.len(),
            keys[to - 1] == key,
            runs(keys.take(to as int)) == runs(keys.take(from as int)).push(
                (from as int, to - from),
            ),
        decreases order.len() - to,
    {
        proof {
            let now = keys.take(to + 1);
            assert(now.drop_last() =~= keys.take(to as int));
            assert(now[now.len() - 2] == keys[to - 1]);
            assert(now.last() == keys[to as int]);
            assert(runs(now) =~= runs(keys.take(from as int)).push((from as int, to + 1 - from)));
        }
        to = to + 1;
    }
    to
}

/// The vertices of all particles.
pub open spec fn total_vertices(ps: Seq<FrameParticle>) -> int
    decreases ps.len(),
{
    if ps.len() == 0 {
        0
    } else {
        total_vertices(ps.drop_last()) + ps.last().vertices
    }
}

proof fn lemma_vertices_split(order: Seq<usize>, ps: Seq<FrameParticle>, from: int, a: int, b: int)
    requires
        0 <= a,
        0 <= b,
    ensures
        vertices_of(order, ps, from, a + b) == vertices_of(order, ps, from, a) + vertices_of(
            order,
            ps,
            from + a,
            b,
        ),
        0 <= vertices_of(order, ps, from + a, b),
    decreases b,
{
    if b > 0 {
        lemma_vertices_split(order, ps, from, a, b - 1);
        assert(from + (a + b) - 1 == (from + a) + b - 1);
    }
}

proof fn lemma_vertices_same(s: Seq<usize>, t: Seq<usize>, ps: Seq<FrameParticle>, n: int)
    requires
        0 <= n <= s.len(),
        n <= t.len(),
        s.take(n) == t.take(n),
    ensures
        vertices_of(s, ps, 0, n) == vertices_of(t, ps, 0, n),
    decreases n,
{
    if n > 0 {
        assert(s[n - 1] == s.take(n)[n - 1]);
        assert(t[n - 1] == t.take(n)[n - 1]);
        assert(s.take(n - 1) =~= s.take(n).take(n - 1));
        assert(t.take(n - 1) =~= t.take(n).take(n - 1));
        lemma_vertices_same(s, t, ps, n - 1);
    }
}

proof fn lemma_vertices_remove(order: Seq<usize>, ps: Seq<FrameParticle>, at: int)
    requires
        0 <= at < order.len(),
    ensures
        vertices_of(order, ps, 0, order.len() as int) == vertices_of(
            order.remove(at),
            ps,
            0,
            order.len() - 1,
        ) + ps[order[at] as int].vertices,
    decreases order.len(),
{
    let n = order.len() as int;
    if at == n - 1 {
        assert(order.remove(at).take(n - 1) =~= order.take(n - 1));
        lemma_vertices_same(order, order.remove(at), ps, n - 1);
    } else {
        let front = order.drop_last();
        lemma_vertices_remove(front, ps, at);
        assert(front.take(n - 1) =~= order.take(n - 1));
        lemma_vertices_same(front, order, ps, n - 1);
        let rest = order.remove(at);
        assert(rest[n - 2] == order[n - 1]);
        assert(front.remove(at).take(n - 2) =~= rest.take(n - 2));
        lemma_vertices_same(front.remove(at), rest, ps, n - 2);
    }
}

proof fn lemma_vertices_within(ps: Seq<FrameParticle>, qs: Seq<FrameParticle>, s: Seq<usize>, n: int)
    requires
        0 <= n <= s.len(),
        qs.len() <= ps.len(),
        forall|i: int| 0 <= i < n ==> #[trigger] s[i] < qs.len(),
        forall|i: int| 0 <= i < qs.len() ==> ps[i] == #[trigger] qs[i],
    ensures
        vertices_of(s, ps, 0, n) == vertices_of(s, qs, 0, n),
    decreases n,
{
    if n > 0 {
        lemma_vertices_within(ps, qs, s, n - 1);
        assert(s[n - 1] < qs.len());
        assert(ps[s[n - 1] as int] == qs[s[n - 1] as int]);
    }
}

proof fn lemma_order_within_total(order: Seq<usize>, ps: Seq<FrameParticle>)
    requires
        ps.len() <= usize::MAX,
        order.no_duplicates(),
        forall|i: int| 0 <= i < order.len() ==> #[trigger] order[i] < ps.len(),
    ensures
        vertices_of(order, ps, 0, order.len() as int) <= total_vertices(ps),
    decreases ps.len(),
{
    if ps.len() > 0 {
        let last = (ps.len() - 1) as usize;
        let front = ps.drop_last();
        if order.contains(last) {
            let at = order.index_of(last);
            let rest = order.remove(at);
            lemma_vertices_remove(order, ps, at);
            assert forall|i: int| 0 <= i < rest.len() implies #[trigger] rest[i] < front.len() by {
                let j = if i < at { i } else { i + 1 };
                assert(rest[i] == order[j]);
                assert(order[j] != order[at]);
            }
            assert(rest.no_duplicates()) by {
                assert forall|i: int, j: int| 0 <= i < rest.len() && 0 <= j < rest.len() && i
                    != j implies rest[i] != rest[j] by {
                    let a = if i < at { i } else { i + 1 };
                    let b = if j < at { j } else { j + 1 };
                    assert(order[a] != order[b]);
                }
            }
            lemma_order_within_total(rest, front);
            lemma_vertices_within(ps, front, rest, rest.len() as int);
        } else {
            assert forall|i: int| 0 <= i < order.len() implies #[trigger] order[i]
                < front.len() by {
                assert(order.contains(order[i]));
            }
            lemma_order_within_total(order, front);
            lemma_vertices_within(ps, front, order, order.len() as int);
        }
    } else {
        assert(order.len() == 0) by {
            if order.len() > 0 {
                assert(order[0] < ps.len());
            }
        }
    }
}

/// Turns the particles of a frame into draws: one for each run of equal batch keys whose emitter is
/// there and that has vertices.
pub fn plan_draws(
    order: &Vec<usize>,
    ps: &Vec<FrameParticle>,
    emitters: &Vec<Vec<EmitterDraw>>,
) -> (draws: Vec<PreparedBnshDraw>)
    requires
        order@.no_duplicates(),
        forall|i: int| 0 <= i < order@.len() ==> #[trigger] order@[i] < ps@.len(),
        total_vertices(ps@) <= u32::MAX,
        order@.len() <= u32::MAX,
    ensures
        is_draw_list(draws@, order@, ps@, emitters@),
{
    let ghost keys = ordered_keys(order@, ps@);
    let ghost pred = |run: (int, int)| run_drawn(run, order@, ps@, emitters@);
    let mut draws: Vec<PreparedBnshDraw> = Vec::new();
    let mut vertices: u64 = 0;
    let mut blend_slots: u64 = 0;
    let mut alpha_slots: u64 = 0;
    let mut soft_slots: u64 = 0;
    let mut i: usize = 0;
    assert(ps@.len() == ps.len());
    proof {
        lemma_order_within_total(order@, ps@);
        assert(keys.take(0) =~= Seq::empty());
        assert(runs(keys.take(0)).filter(pred) =~= Seq::empty());
    }
    while i < order.len()
        invariant
            i <= order@.len(),
            order@.len() <= u32::MAX,
            keys == ordered_keys(order@, ps@),
            pred == (|run: (int, int)| run_drawn(run, order@, ps@, emitters@)),
            forall|i: int| 0 <= i < order@.len() ==> #[trigger] order@[i] < ps@.len(),
            vertices_of(order@, ps@, 0, order@.len() as int) <= u32::MAX,
            0 < i < order@.len() ==> keys[i - 1] != keys[i as int],
            draws@.len() <= i,
            blend_slots <= draws@.len(),
            alpha_slots <= draws@.len(),
            soft_slots <= draws@.len(),
            blend_slots == readers(draws@, UniformPool::Blend),
            alpha_slots == readers(draws@, UniformPool::AlphaMod),
            soft_slots == readers(draws@, UniformPool::Soft),
            vertices == vertices_before(draws@),
            vertices <= vertices_of(order@, ps@, 0, i as int) <= u32::MAX,
            draws@.len() == runs(keys.take(i as int)).filter(pred).len(),
            forall|j: int|
                0 <= j < draws@.len() ==> draw_of_run(
                    #[trigger] draws@[j],
                    runs(keys.take(i as int)).filter(pred)[j],
                    draws@.take(j),
                    order@,
                    ps@,
                    emitters@,
                ),
        decreases order.len() - i,
    {
        let to = run_end(order, ps, i);
        let count: usize = to - i;
        let ghost old_runs = runs(keys.take(i as int));
        let ghost run = (i as int, count as int);
        let key = ps[order[i]].batch;
        proof {
            assert(runs(keys.take(to as int)).drop_last() =~= old_runs);
            reveal(Seq::filter);
            lemma_vertices_split(order@, ps@, 0, i as int, count as int);
            lemma_vertices_split(order@, ps@, 0, to as int, order@.len() - to);
        }
        let mut group: u64 = 0;
        let mut opaque = true;
        let mut k: usize = 0;
        while k < count
            invariant
                k <= count,
                i + count == to,
                to <= order@.len(),
                forall|i: int| 0 <= i < order@.len() ==> #[trigger] order@[i] < ps@.len(),
                vertices_of(order@, ps@, i as int, count as int) <= u32::MAX,
                group == vertices_of(order@, ps@, i as int, k as int),
                opaque == all_opaque(order@, ps@, i as int, k as int),
            decreases count - k,
        {
            proof {
                lemma_vertices_split(order@, ps@, i as int, k + 1, count - (k + 1));
            }
            let p = ps[order[i + k]];
            group = group + p.vertices as u64;
            opaque = opaque && p.opaque;
            k = k + 1;
        }
        let found = key.set_idx < emitters.len() && key.emitter_idx < emitters[key.set_idx].len();
        if found && group > 0 {
            let emitter = emitters[key.set_idx][key.emitter_idx];
            let needs = emitter.needs;
            let ghost before = draws@;
            let draw = PreparedBnshDraw {
                draw_path: key.draw_path,
                pipeline_key: emitter.pipeline_key,
                blend: emitter.blend,
                opaque_core: opaque,
                needs,
                set_idx: key.set_idx,
                emitter_idx: key.emitter_idx,
                first_particle: i,
                particle_count: count,
                vertex_byte_offset: vertices * BNSH_VERTEX_STRIDE,
                vertex_count: group as u32,
                indirect_offset: draws.len() as u64 * INDIRECT_UNIFORM_ALIGN,
                blend_offset: if needs.blend() {
                    blend_slots * INDIRECT_UNIFORM_ALIGN
                } else {
                    0
                },
                alpha_mod_offset: if needs.group2() {
                    alpha_slots * INDIRECT_UNIFORM_ALIGN
                } else {
                    0
                },
                soft_offset: if needs.soft_particle {
                    soft_slots * INDIRECT_UNIFORM_ALIGN
                } else {
                    0
                },
            };
            draws.push(draw);
            vertices = vertices + group;
            if needs.blend() {
                blend_slots = blend_slots + 1;
            }
            if needs.group2() {
                alpha_slots = alpha_slots + 1;
            }
            if needs.soft_particle {
                soft_slots = soft_slots + 1;
            }
            proof {
                assert(draws@.drop_last() =~= before);
                assert(pred(run));
                assert(runs(keys.take(to as int)).filter(pred) =~= old_runs.filter(pred).push(run));
                assert forall|j: int| 0 <= j < draws@.len() implies draw_of_run(
                    #[trigger] draws@[j],
                    runs(keys.take(to as int)).filter(pred)[j],
                    draws@.take(j),
                    order@,
                    ps@,
                    emitters@,
                ) by {
                    if j < before.len() {
                        assert(draws@.take(j) =~= before.take(j));
                        assert(before[j] == draws@[j]);
                    } else {
                        assert(draws@.take(j) =~= before);
                    }
                }
            }
        } else {
            proof {
                assert(!pred(run));
                assert(runs(keys.take(to as int)).filter(pred) =~= old_runs.filter(pred));
            }
        }
        i = to;
    }
    assert(keys.take(keys.len() as int) =~= keys);
    draws
}

/// The vertex ranges of a frame's draws follow one another without a gap.
pub proof fn law_vertex_ranges_are_consecutive(
    draws: Seq<PreparedBnshDraw>,
    order: Seq<usize>,
    ps: Seq<FrameParticle>,
    emitters: Seq<Vec<EmitterDraw>>,
    i: int,
)
    requires
        is_draw_list(draws, order, ps, emitters),
        0 <= i,
        i + 1 < draws.len(),
    ensures
        draws[i + 1].vertex_byte_offset == draws[i].vertex_byte_offset + 208 * draws[i].vertex_count,
{
    let a = draws[i];
    let b = draws[i + 1];
    assert(draws.take(i + 1).drop_last() =~= draws.take(i));
    assert(draws.take(i + 1).last() == a);
}

/// No two draws of a frame share a place in the pool of distortion parameters.
pub proof fn law_indirect_places_differ(
    draws: Seq<PreparedBnshDraw>,
    order: Seq<usize>,
    ps: Seq<FrameParticle>,
    emitters: Seq<Vec<EmitterDraw>>,
    i: int,
    j: int,
)
    requires
        is_draw_list(draws, order, ps, emitters),
        0 <= i < j < draws.len(),
    ensures
        draws[i].indirect_offset + 256 <= draws[j].indirect_offset,
{
    let a = draws[i];
    let b = draws[j];
    assert(draws.take(i).len() == i);
    assert(draws.take(j).len() == j);
}

/// An emitter that runs: which one it is, and the bone it is attached to.
#[derive(Clone, Debug)]
pub struct RunningEmitter {
    pub set_idx: usize,
    pub emitter_idx: usize,
    pub bone_name: String,
}

/// Whether a running emitter is the given one, on the given bone.
pub open spec fn runs_on(inst: RunningEmitter, set_idx: usize, emitter_idx: usize, bone: Seq<
    char,
>) -> bool {
    inst.set_idx == set_idx && inst.emitter_idx == emitter_idx && inst.bone_name@ == bone
}

/// The running emitter that places a batch: the first of its emitter on the bone of its first
/// particle. Without one, the batch is placed by the emitter's own transform.
pub fn placing_instance(
    running: &Vec<RunningEmitter>,
    set_idx: usize,
    emitter_idx: usize,
    bone: &str,
) -> (r: Option<usize>)
    ensures
        is_first_running(running@, set_idx, emitter_idx, bone@, r),
{
    let mut i: usize = 0;
    while i < running.len()
        invariant
            i <= running.len(),
            forall|j: int|
                0 <= j < i ==> !runs_on(#[trigger] running@[j], set_idx, emitter_idx, bone@),
        decreases running.len() - i,
    {
        let inst = &running[i];
        if inst.set_idx == set_idx && inst.emitter_idx == emitter_idx && same(
            inst.bone_name.as_str(),
            bone,
        ) {
            return Some(i);
        }
        i = i + 1;
    }
    None
}

/// Whether `r` is the first running emitter that is the given one on the given bone.
pub open spec fn is_first_running(
    running: Seq<RunningEmitter>,
    set_idx: usize,
    emitter_idx: usize,
    bone: Seq<char>,
    r: Option<usize>,
) -> bool {
    match r {
        Some(at) => {
            &&& at < running.len()
            &&& runs_on(running[at as int], set_idx, emitter_idx, bone)
            &&& forall|j: int|
                0 <= j < at ==> !runs_on(#[trigger] running[j], set_idx, emitter_idx, bone)
        },
        None => forall|j: int|
            0 <= j < running.len() ==> !runs_on(#[trigger] running[j], set_idx, emitter_idx, bone),
    }
}

/// Whether `r` is the first bone of the first name that the skeleton has.
pub open spec fn is_placing_bone(names: Seq<String>, bone: Seq<char>, r: Option<usize>) -> bool {
    match r {
        Some(at) => at < names.len() && exists|c: int|
            {
                &&& 0 <= c < 4
                &&& names[at as int]@ == #[trigger] bone_candidates(bone)[c]
                &&& forall|d: int|
                    0 <= d < c ==> !texts(names).contains(#[trigger] bone_candidates(bone)[d])
                &&& forall|j: int|
                    0 <= j < at ==> (#[trigger] names[j])@ != bone_candidates(bone)[c]
            },
        None => forall|d: int|
            0 <= d < 4 ==> !texts(names).contains(#[trigger] bone_candidates(bone)[d]),
    }
}

/// The names under which the bone of an emitter is looked up, in order: its own, its own in lower
/// case, and the two roots.
pub open spec fn bone_candidates(bone: Seq<char>) -> Seq<Seq<char>> {
    seq![bone, unicode_lower(bone), "top"@, "Trans"@]
}

fn find_name(names: &Vec<String>, name: &str) -> (r: Option<usize>)
    ensures
        match r {
            Some(at) => {
                &&& at < names@.len()
                &&& names@[at as int]@ == name@
                &&& forall|j: int| 0 <= j < at ==> (#[trigger] names@[j])@ != name@
            },
            None => !texts(names@).contains(name@),
        },
{
    let mut i: usize = 0;
    while i < names.len()
        invariant
            i <= names.len(),
            forall|j: int| 0 <= j < i ==> (#[trigger] names@[j])@ != name@,
        decreases names.len() - i,
    {
        if same(names[i].as_str(), name) {
            return Some(i);
        }
        i = i + 1;
    }
    assert(!texts(names@).contains(name@)) by {
        if texts(names@).contains(name@) {
            let j = choose|j: int| 0 <= j < texts(names@).len() && texts(names@)[j] == name@;
            assert(names@[j]@ == name@);
        }
    }
    None
}

/// The bone whose matrix places an emitter that is attached to `bone`: the first candidate that the
/// skeleton has. Without any, the emitter stands at the origin.
pub fn placing_bone(names: &Vec<String>, bone: &str) -> (r: Option<usize>)
    ensures
        is_placing_bone(names@, bone@, r),
{
    let ghost all = bone_candidates(bone@);
    let own = find_name(names, bone);
    if own.is_some() {
        assert(names@[own->0 as int]@ == all[0]);
        return own;
    }
    let lower = lowercase(bone);
    let lowered = find_name(names, lower.as_str());
    if lowered.is_some() {
        assert(names@[lowered->0 as int]@ == all[1]);
        return lowered;
    }
    let top = find_name(names, "top");
    if top.is_some() {
        assert(names@[top->0 as int]@ == all[2]);
        return top;
    }
    let trans = find_name(names, "Trans");
    if trans.is_some() {
        assert(names@[trans->0 as int]@ == all[3]);
    }
    trans
}

/// A particle is drawn exactly where its emitter is the one shown alone, if one is, and not the one
/// left out, if one is; it is drawn once.
pub proof fn law_every_shown_particle_is_drawn_once(
    order: Seq<usize>,
    ps: Seq<FrameParticle>,
    only: Option<usize>,
    skip: Option<usize>,
    k: usize,
    i: int,
    j: int,
)
    requires
        is_draw_order(order, ps, only, skip),
        k < ps.len(),
        0 <= i < j < order.len(),
    ensures
        order.contains(k) <==> !(only is Some && ps[k as int].batch.emitter_idx != only->0) && !(
        skip is Some && ps[k as int].batch.emitter_idx == skip->0),
        order[i] != order[j],
        order[i] < ps.len(),
{
    assert(order.contains(order[i]));
    assert(drawn_before(ps, order[i] as int, order[j] as int));
}

/// With nothing shown alone and nothing left out, every particle is drawn.
pub proof fn law_without_a_choice_all_are_drawn(order: Seq<usize>, ps: Seq<FrameParticle>, k: usize)
    requires
        is_draw_order(order, ps, None, None),
    ensures
        order.contains(k) <==> k < ps.len(),
{
}

/// What is drawn earlier has a smaller sort key; of those with the same one, the smaller depth; of
/// those with both the same, the earlier place in the frame.
pub proof fn law_particles_are_drawn_by_key_depth_and_place(
    order: Seq<usize>,
    ps: Seq<FrameParticle>,
    only: Option<usize>,
    skip: Option<usize>,
    i: int,
    j: int,
)
    requires
        is_draw_order(order, ps, only, skip),
        0 <= i < j < order.len(),
    ensures
        ({
            let a = ps[order[i] as int];
            let b = ps[order[j] as int];
            &&& a.sort_key <= b.sort_key
            &&& a.sort_key == b.sort_key ==> a.depth <= b.depth
            &&& a.sort_key == b.sort_key && a.depth == b.depth ==> order[i] < order[j]
        }),
{
    assert(drawn_before(ps, order[i] as int, order[j] as int));
}

/// The runs of a list of keys divide it: the first begins at its start, each begins where the one
/// before it ends, and the last ends where it ends. All keys of a run are the same, and the keys of
/// neighbouring runs differ.
pub proof fn law_runs_divide_the_keys(keys: Seq<BatchKey>)
    ensures
        keys.len() == 0 ==> runs(keys).len() == 0,
        keys.len() > 0 ==> runs(keys).len() > 0 && runs(keys)[0].0 == 0 && runs(keys).last().0
            + runs(keys).last().1 == keys.len(),
        forall|r: int|
            0 <= r < runs(keys).len() ==> 0 <= (#[trigger] runs(keys)[r]).0 && runs(keys)[r].1 > 0
                && runs(keys)[r].0 + runs(keys)[r].1 <= keys.len(),
        forall|r: int, k: int|
            0 <= r < runs(keys).len() && runs(keys)[r].0 <= k < runs(keys)[r].0 + runs(keys)[r].1
                ==> #[trigger] keys[k] == keys[(#[trigger] runs(keys)[r]).0],
        forall|r: int, q: int|
            0 <= r && q == r + 1 && q < runs(keys).len() ==> (#[trigger] runs(keys)[q]).0 == (
            #[trigger] runs(keys)[r]).0 + runs(keys)[r].1 && keys[runs(keys)[q].0]
                != keys[runs(keys)[r].0],
    decreases keys.len(),
{
    if keys.len() > 0 {
        let front = keys.drop_last();
        law_runs_divide_the_keys(front);
        let before = runs(front);
        let all = runs(keys);
        assert forall|k: int| 0 <= k < front.len() implies front[k] == #[trigger] keys[k] by {}
        if keys.len() > 1 && keys[keys.len() - 2] == keys.last() {
            let n = before.len() - 1;
            assert(front[front.len() - 1] == front[before[n].0]);
            assert(all[n] == (before[n].0, before[n].1 + 1));
            assert forall|r: int, k: int|
                0 <= r < all.len() && all[r].0 <= k < all[r].0 + all[r].1 implies #[trigger] keys[k]
                == keys[(#[trigger] all[r]).0] by {
                assert(all[r].0 == before[r].0);
                if k < front.len() {
                    assert(front[k] == keys[k]);
                    assert(k < before[r].0 + before[r].1);
                    assert(front[k] == front[before[r].0]);
                } else if r < n {
                    assert(before[r].0 + before[r].1 <= front.len());
                } else {
                    assert(keys[k] == front[front.len() - 1]);
                }
            }
            assert forall|r: int, q: int| 0 <= r && q == r + 1 && q < all.len() implies (
            #[trigger] all[q]).0 == (#[trigger] all[r]).0 + all[r].1 && keys[all[q].0]
                != keys[all[r].0] by {
                assert(all[r] == before[r]);
                assert(all[q].0 == before[q].0);
                assert(front[before[q].0] != front[before[r].0]);
            }
        } else {
            let n = before.len() as int;
            assert(all[n] == (keys.len() - 1, 1int));
            assert forall|r: int| 0 <= r < n implies #[trigger] all[r] == before[r] by {}
            if n > 0 {
                assert(front[front.len() - 1] == front[before[n - 1].0]);
            }
            assert forall|r: int, k: int|
                0 <= r < all.len() && all[r].0 <= k < all[r].0 + all[r].1 implies #[trigger] keys[k]
                == keys[(#[trigger] all[r]).0] by {
                if r < n {
                    assert(all[r] == before[r]);
                    assert(front[k] == keys[k]);
                    assert(front[k] == front[before[r].0]);
                }
            }
            assert forall|r: int, q: int| 0 <= r && q == r + 1 && q < all.len() implies (
            #[trigger] all[q]).0 == (#[trigger] all[r]).0 + all[r].1 && keys[all[q].0]
                != keys[all[r].0] by {
                assert(all[r] == before[r]);
                if q < n {
                    assert(all[q] == before[q]);
                    assert(front[before[q].0] != front[before[r].0]);
                }
            }
        }
    }
}

/// The vertices of a stretch add up: a stretch of one particle has that particle's, and two
/// stretches that meet have those of both.
pub proof fn law_vertices_add_up(
    order: Seq<usize>,
    ps: Seq<FrameParticle>,
    from: int,
    first: int,
    second: int,
)
    requires
        0 <= first,
        0 <= second,
    ensures
        vertices_of(order, ps, from, 0) == 0,
        vertices_of(order, ps, from, 1) == ps[order[from] as int].vertices,
        vertices_of(order, ps, from, first + second) == vertices_of(order, ps, from, first)
            + vertices_of(order, ps, from + first, second),
    decreases second,
{
    reveal_with_fuel(vertices_of, 2);
    if second > 0 {
        law_vertices_add_up(order, ps, from, first, second - 1);
    }
}

/// The vertices of all particles are those of each, whatever list they are counted in.
pub proof fn law_all_vertices_add_up(ps: Seq<FrameParticle>, more: Seq<FrameParticle>)
    ensures
        total_vertices(ps + more) == total_vertices(ps) + total_vertices(more),
        ps.len() == 1 ==> total_vertices(ps) == ps[0].vertices,
    decreases more.len(),
{
    reveal_with_fuel(total_vertices, 2);
    if more.len() == 0 {
        assert(ps + more =~= ps);
    } else {
        law_all_vertices_add_up(ps, more.drop_last());
        assert((ps + more).drop_last() =~= ps + more.drop_last());
    }
}

/// Every draw is of particles of one emitter on one path, all of them neighbours in the draw order;
/// it is opaque exactly where all of them are, and takes the pipeline and the blend of that emitter.
pub proof fn law_a_draw_is_of_one_emitter(
    draws: Seq<PreparedBnshDraw>,
    order: Seq<usize>,
    ps: Seq<FrameParticle>,
    emitters: Seq<Vec<EmitterDraw>>,
    i: int,
    k: int,
)
    requires
        is_draw_list(draws, order, ps, emitters),
        0 <= i < draws.len(),
        draws[i].first_particle <= k < draws[i].first_particle + draws[i].particle_count,
    ensures
        k < order.len(),
        ps[order[k] as int].batch.set_idx == draws[i].set_idx,
        ps[order[k] as int].batch.emitter_idx == draws[i].emitter_idx,
        ps[order[k] as int].batch.draw_path == draws[i].draw_path,
        draws[i].opaque_core ==> ps[order[k] as int].opaque,
        draws[i].set_idx < emitters.len(),
        draws[i].emitter_idx < emitters[draws[i].set_idx as int]@.len(),
        draws[i].blend == emitters[draws[i].set_idx as int]@[draws[i].emitter_idx as int].blend,
        draws[i].pipeline_key
            == emitters[draws[i].set_idx as int]@[draws[i].emitter_idx as int].pipeline_key,
        draws[i].vertex_count > 0,
{
    let keys = ordered_keys(order, ps);
    let drawn = drawn_runs(order, ps, emitters);
    let d = draws[i];
    let run = drawn[i];
    assert(draw_of_run(d, run, draws.take(i), order, ps, emitters));
    let keep = |run: (int, int)| run_drawn(run, order, ps, emitters);
    runs(keys).lemma_filter_contains_rev(keep, run);
    assert(drawn.contains(run));
    runs(keys).filter_lemma(keep);
    assert(keep(drawn[i]));
    law_runs_divide_the_keys(keys);
    let r = choose|r: int| 0 <= r < runs(keys).len() && runs(keys)[r] == run;
    assert(runs(keys)[r] == run);
    assert(keys[k] == keys[runs(keys)[r].0]);
}

proof fn lemma_readers(draws: Seq<PreparedBnshDraw>, i: int, j: int, which: UniformPool)
    requires
        0 <= i <= j <= draws.len(),
    ensures
        0 <= readers(draws.take(i), which) <= readers(draws.take(j), which),
        i < j && reads_pool(draws[i].needs, which) ==> readers(draws.take(i), which) + 1 <= readers(
            draws.take(j),
            which,
        ),
    decreases j,
{
    if j > 0 {
        assert(draws.take(j).drop_last() =~= draws.take(j - 1));
        assert(draws.take(j).last() == draws[j - 1]);
        if i < j {
            lemma_readers(draws, i, j - 1, which);
        } else {
            lemma_readers(draws, i - 1, j - 1, which);
        }
    }
}

/// Two draws that both read a pool have places of their own in it. A draw reads the pool of blends
/// where its shader blends textures or has more than three, that of alphas where it reads either of
/// these or an alpha, and that of depths where its particles are soft.
pub proof fn law_pool_places_differ(
    draws: Seq<PreparedBnshDraw>,
    order: Seq<usize>,
    ps: Seq<FrameParticle>,
    emitters: Seq<Vec<EmitterDraw>>,
    i: int,
    j: int,
)
    requires
        is_draw_list(draws, order, ps, emitters),
        0 <= i < j < draws.len(),
    ensures
        ({
            let a = draws[i].needs;
            let b = draws[j].needs;
            let extra_a = a.extra_tex3 || a.extra_tex4 || a.extra_tex5;
            let extra_b = b.extra_tex3 || b.extra_tex4 || b.extra_tex5;
            let blend_a = a.tex_blend_uniform || extra_a;
            let blend_b = b.tex_blend_uniform || extra_b;
            &&& blend_a && blend_b ==> draws[i].blend_offset + 256 <= draws[j].blend_offset
            &&& (blend_a || a.particle_alpha_uniform) && (blend_b || b.particle_alpha_uniform)
                ==> draws[i].alpha_mod_offset + 256 <= draws[j].alpha_mod_offset
            &&& a.soft_particle && b.soft_particle ==> draws[i].soft_offset + 256
                <= draws[j].soft_offset
        }),
{
    let a = draws[i];
    let b = draws[j];
    assert(draw_of_run(
        a,
        drawn_runs(order, ps, emitters)[i],
        draws.take(i),
        order,
        ps,
        emitters,
    ));
    assert(draw_of_run(
        b,
        drawn_runs(order, ps, emitters)[j],
        draws.take(j),
        order,
        ps,
        emitters,
    ));
    lemma_readers(draws, i, j, UniformPool::Blend);
    lemma_readers(draws, i, j, UniformPool::AlphaMod);
    lemma_readers(draws, i, j, UniformPool::Soft);
}

/// The bone of an emitter is looked up under its own name first and under a root last.
pub proof fn law_a_bone_is_sought_by_its_own_name_first(bone: Seq<char>)
    ensures
        bone_candidates(bone).len() == 4,
        bone_candidates(bone).first() == bone,
        bone_candidates(bone)[1] == unicode_lower(bone),
        bone_candidates(bone)[2] == seq!['t', 'o', 'p'],
        bone_candidates(bone).last() == seq!['T', 'r', 'a', 'n', 's'],
{
    reveal_strlit("top");
    reveal_strlit("Trans");
    assert("top"@ =~= seq!['t', 'o', 'p']);
    assert("Trans"@ =~= seq!['T', 'r', 'a', 'n', 's']);
}

proof fn lemma_run_of(keys: Seq<BatchKey>, k: int)
    requires
        0 <= k < keys.len(),
    ensures
        exists|r: int|
            0 <= r < runs(keys).len() && (#[trigger] runs(keys)[r]).0 <= k < runs(keys)[r].0
                + runs(keys)[r].1,
    decreases keys.len(),
{
    let front = keys.drop_last();
    let before = runs(front);
    let all = runs(keys);
    law_runs_divide_the_keys(front);
    law_runs_divide_the_keys(keys);
    if k == keys.len() - 1 {
        let r = all.len() - 1;
        assert(all[r].0 <= k < all[r].0 + all[r].1);
    } else {
        lemma_run_of(front, k);
        let r = choose|r: int|
            0 <= r < before.len() && (#[trigger] before[r]).0 <= k < before[r].0 + before[r].1;
        assert(all[r].0 == before[r].0 && all[r].1 >= before[r].1);
    }
}

proof fn lemma_vertices_of_stretch(
    order: Seq<usize>,
    ps: Seq<FrameParticle>,
    from: int,
    count: int,
    k: int,
)
    requires
        from <= k < from + count,
    ensures
        vertices_of(order, ps, from, count) >= ps[order[k] as int].vertices,
        vertices_of(order, ps, from, count) >= 0,
    decreases count,
{
    reveal_with_fuel(vertices_of, 2);
    if k < from + count - 1 {
        lemma_vertices_of_stretch(order, ps, from, count - 1, k);
    } else if count > 1 {
        lemma_vertices_of_stretch(order, ps, from, count - 1, from);
    }
}

/// Whether a draw covers a place of the draw order.
pub open spec fn covers(draw: PreparedBnshDraw, k: int) -> bool {
    draw.first_particle <= k < draw.first_particle + draw.particle_count
}

/// A particle that has a vertex, and whose emitter is there, is in one of the draws; a draw has as
/// many vertices as its particles together, and is opaque where all of them are.
pub proof fn law_no_particle_is_lost(
    draws: Seq<PreparedBnshDraw>,
    order: Seq<usize>,
    ps: Seq<FrameParticle>,
    emitters: Seq<Vec<EmitterDraw>>,
    k: int,
)
    requires
        is_draw_list(draws, order, ps, emitters),
        0 <= k < order.len(),
        ps[order[k] as int].vertices > 0,
        ps[order[k] as int].batch.set_idx < emitters.len(),
        ps[order[k] as int].batch.emitter_idx
            < emitters[ps[order[k] as int].batch.set_idx as int]@.len(),
    ensures
        exists|i: int| 0 <= i < draws.len() && covers(#[trigger] draws[i], k),
        forall|i: int|
            0 <= i < draws.len() ==> (#[trigger] draws[i]).vertex_count == vertices_of(
                order,
                ps,
                draws[i].first_particle as int,
                draws[i].particle_count as int,
            ),
        forall|i: int|
            0 <= i < draws.len() && !(#[trigger] draws[i]).opaque_core ==> exists|at: int|
                covers(draws[i], at) && !ps[#[trigger] order[at] as int].opaque,
{
    let keys = ordered_keys(order, ps);
    let all = runs(keys);
    let drawn = drawn_runs(order, ps, emitters);
    let keep = |run: (int, int)| run_drawn(run, order, ps, emitters);
    lemma_run_of(keys, k);
    law_runs_divide_the_keys(keys);
    let r = choose|r: int| 0 <= r < all.len() && (#[trigger] all[r]).0 <= k < all[r].0 + all[r].1;
    let run = all[r];
    assert(keys[k] == keys[all[r].0]);
    lemma_vertices_of_stretch(order, ps, run.0, run.1, k);
    assert(keep(run));
    assert(all.contains(run));
    all.lemma_filter_contains(keep, r);
    assert(drawn.contains(run));
    let i = choose|i: int| 0 <= i < drawn.len() && drawn[i] == run;
    assert(draw_of_run(draws[i], drawn[i], draws.take(i), order, ps, emitters));
    assert(covers(draws[i], k));
    assert forall|i: int|
        0 <= i < draws.len() && !(#[trigger] draws[i]).opaque_core implies exists|at: int|
        covers(draws[i], at) && !ps[#[trigger] order[at] as int].opaque by {
        assert(draw_of_run(draws[i], drawn[i], draws.take(i), order, ps, emitters));
        let at = choose|at: int|
            drawn[i].0 <= at < drawn[i].0 + drawn[i].1 && !ps[#[trigger] order[at] as int].opaque;
        assert(covers(draws[i], at));
    }
}

/// A particle is placed by the first running emitter of its own that is on its bone.
pub proof fn law_a_particle_is_placed_by_its_emitter(
    running: &Vec<RunningEmitter>,
    set_idx: usize,
    emitter_idx: usize,
    bone: &str,
    r: Option<usize>,
    at: int,
)
    requires
        call_ensures(placing_instance, (running, set_idx, emitter_idx, bone), r),
        0 <= at < running@.len(),
        running@[at].set_idx == set_idx,
        running@[at].emitter_idx == emitter_idx,
        running@[at].bone_name@ == bone@,
    ensures
        r is Some,
        r->0 <= at,
        running@[r->0 as int].set_idx == set_idx,
        running@[r->0 as int].emitter_idx == emitter_idx,
        running@[r->0 as int].bone_name@ == bone@,
{
    assert(runs_on(running@[at], set_idx, emitter_idx, bone@));
    if r is Some && r->0 > at {
        assert(!runs_on(running@[at], set_idx, emitter_idx, bone@));
    }
}

/// A bone that the skeleton has is found under its own name, at its first place.
pub proof fn law_a_bone_of_the_skeleton_is_found(
    names: &Vec<String>,
    bone: &str,
    r: Option<usize>,
    at: int,
)
    requires
        call_ensures(placing_bone, (names, bone), r),
        0 <= at < names@.len(),
        names@[at]@ == bone@,
        forall|j: int| 0 <= j < at ==> (#[trigger] names@[j])@ != bone@,
    ensures
        r == Some(at as usize),
{
    assert(texts(names@)[at] == bone@);
    assert(texts(names@).contains(bone_candidates(bone@)[0]));
    if r is Some {
        let found = r->0 as int;
        assert(names@[found]@ == bone@);
        if at < found {
            assert(names@[at]@ != bone_candidates(bone@)[0]);
        }
        if found < at {
            assert(names@[found]@ != bone@);
        }
    }
}

} // verus!
