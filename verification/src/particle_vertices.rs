//! The layout of particle vertices. A word holds the bits of one float.

use vstd::prelude::*;

verus! {

/// A vector of four floats, as their bits.
pub type Words = [u32; 4];

/// What all vertices of one quad of a particle share.
#[derive(Clone, Copy, Debug)]
pub struct QuadShared {
    /// The quad's centre.
    pub center: Words,
    pub color: Words,
    /// Velocity and rotation.
    pub motion: Words,
    /// Age, size and aspect.
    pub shape: Words,
    /// Texture offset and scroll.
    pub scroll: Words,
    /// Rotation at spawn.
    pub spawn: Words,
    /// Crossfade between pattern frames.
    pub pattern: Words,
    /// Offsets of textures three and four.
    pub extra: Words,
    /// Offset of texture five.
    pub extra_last: Words,
}

/// What differs between the corners of a quad.
#[derive(Clone, Copy, Debug)]
pub struct QuadCorner {
    /// Texture coordinates.
    pub uv: Words,
    /// Half extents with the pivot, and the pivot.
    pub extent: Words,
    /// Half extents, and the billboard's offset and type.
    pub corner: Words,
}

/// The words of one vertex: thirteen vectors.
pub open spec fn vertex_words(shared: QuadShared, corner: QuadCorner) -> Seq<u32> {
    shared.center@ + shared.color@ + corner.uv@ + shared.motion@ + shared.shape@ + shared.scroll@
        + corner.extent@ + corner.corner@ + shared.color@ + shared.spawn@ + shared.pattern@
        + shared.extra@ + shared.extra_last@
}

/// The words of the vertices of a quad.
pub open spec fn quad_words(shared: QuadShared, corners: Seq<QuadCorner>) -> Seq<u32>
    decreases corners.len(),
{
    if corners.len() == 0 {
        Seq::empty()
    } else {
        quad_words(shared, corners.drop_last()) + vertex_words(shared, corners.last())
    }
}

fn push_words(out: &mut Vec<u32>, words: &Words)
    ensures
        final(out)@ == old(out)@ + words@,
{
    let ghost was = out@;
    out.push(words[0]);
    out.push(words[1]);
    out.push(words[2]);
    out.push(words[3]);
    assert(out@ =~= was + words@);
}

/// Appends the vertices of one quad: fifty-two words for each corner.
pub fn append_bnsh_particle_vertices(
    vertex_data: &mut Vec<u32>,
    shared: &QuadShared,
    corners: &Vec<QuadCorner>,
)
    ensures
        final(vertex_data)@ == old(vertex_data)@ + quad_words(*shared, corners@),
        quad_words(*shared, corners@).len() == 52 * corners@.len(),
{
    let ghost was = vertex_data@;
    let mut i: usize = 0;
    assert(corners@.take(0) =~= Seq::empty());
    assert(vertex_data@ =~= was + quad_words(*shared, corners@.take(0)));
    while i < corners.len()
        invariant
            i <= corners.len(),
            vertex_data@ == was + quad_words(*shared, corners@.take(i as int)),
            quad_words(*shared, corners@.take(i as int)).len() == 52 * i,
        decreases corners.len() - i,
    {
        let corner = corners[i];
        let ghost before = vertex_data@;
        push_words(vertex_data, &shared.center);
        push_words(vertex_data, &shared.color);
        push_words(vertex_data, &corner.uv);
        push_words(vertex_data, &shared.motion);
        push_words(vertex_data, &shared.shape);
        push_words(vertex_data, &shared.scroll);
        push_words(vertex_data, &corner.extent);
        push_words(vertex_data, &corner.corner);
        push_words(vertex_data, &shared.color);
        push_words(vertex_data, &shared.spawn);
        push_words(vertex_data, &shared.pattern);
        push_words(vertex_data, &shared.extra);
        push_words(vertex_data, &shared.extra_last);
        assert(vertex_data@ =~= before + vertex_words(*shared, corner));
        assert(corners@.take(i + 1).drop_last() =~= corners@.take(i as int));
        assert(vertex_data@ =~= was + quad_words(*shared, corners@.take(i + 1)));
        i = i + 1;
    }
    assert(corners@.take(corners@.len() as int) =~= corners@);
}

/// Which corner of the unit quad each of the six vertices of its two triangles is: whether it lies
/// to the right, and whether it lies at the top.
pub fn quad_corners() -> (r: Vec<(bool, bool)>)
    ensures
        r@ == seq![
            (false, false),
            (true, false),
            (true, true),
            (false, false),
            (true, true),
            (false, true),
        ],
{
    let r = vec![
        (false, false),
        (true, false),
        (true, true),
        (false, false),
        (true, true),
        (false, true),
    ];
    assert(r@ =~= seq![
        (false, false),
        (true, false),
        (true, true),
        (false, false),
        (true, true),
        (false, true),
    ]);
    r
}

/// How many vertices a particle is drawn with: six for each rectangle of its silhouette, or for one
/// quad where it has none.
pub fn particle_vertex_count(silhouette_rects: u32) -> (r: u32)
    requires
        silhouette_rects * 6 <= u32::MAX,
    ensures
        r == if silhouette_rects == 0 {
            6
        } else {
            silhouette_rects * 6
        },
{
    if silhouette_rects == 0 {
        6
    } else {
        silhouette_rects * 6
    }
}

/// The attributes that carry a particle's birth and lifetime where the shader does not say.
pub open spec fn life_attributes(roles: Option<(u32, u32)>) -> (u32, u32) {
    match roles {
        Some(roles) => roles,
        None => (5, 4),
    }
}

/// The last word of an attribute: with the frame clock, the birth on the shader's birth attribute
/// and the lifetime on its lifetime attribute; else what it holds by itself.
pub fn attribute_last_word(
    index: u32,
    own: u32,
    frame_clock: bool,
    birth: u32,
    lifetime: u32,
    roles: Option<(u32, u32)>,
) -> (r: u32)
    ensures
        r == if frame_clock && index == life_attributes(roles).0 {
            birth
        } else if frame_clock && index == life_attributes(roles).1 {
            lifetime
        } else {
            own
        },
{
    let (birth_attr, life_attr) = match roles {
        Some(roles) => roles,
        None => (5, 4),
    };
    if frame_clock && index == birth_attr {
        birth
    } else if frame_clock && index == life_attr {
        lifetime
    } else {
        own
    }
}

/// Every vertex of a quad is thirteen vectors of four words, each at the place of its attribute:
/// what all corners share is the same in each of them, and what differs is the corner's own.
pub proof fn law_a_vertex_holds_each_vector_at_its_attribute(
    shared: QuadShared,
    corner: QuadCorner,
    w: int,
)
    requires
        0 <= w < 4,
    ensures
        vertex_words(shared, corner).len() == 52,
        vertex_words(shared, corner)[w] == shared.center@[w],
        vertex_words(shared, corner)[4 + w] == shared.color@[w],
        vertex_words(shared, corner)[8 + w] == corner.uv@[w],
        vertex_words(shared, corner)[12 + w] == shared.motion@[w],
        vertex_words(shared, corner)[16 + w] == shared.shape@[w],
        vertex_words(shared, corner)[20 + w] == shared.scroll@[w],
        vertex_words(shared, corner)[24 + w] == corner.extent@[w],
        vertex_words(shared, corner)[28 + w] == corner.corner@[w],
        vertex_words(shared, corner)[32 + w] == shared.color@[w],
        vertex_words(shared, corner)[36 + w] == shared.spawn@[w],
        vertex_words(shared, corner)[40 + w] == shared.pattern@[w],
        vertex_words(shared, corner)[44 + w] == shared.extra@[w],
        vertex_words(shared, corner)[48 + w] == shared.extra_last@[w],
{
}

/// The vertices of a quad stand one behind the other in the order of its corners.
pub proof fn law_vertices_follow_their_corners(
    shared: QuadShared,
    corners: Seq<QuadCorner>,
    i: int,
    w: int,
)
    requires
        0 <= i < corners.len(),
        0 <= w < 52,
    ensures
        quad_words(shared, corners).len() == 52 * corners.len(),
        quad_words(shared, corners)[52 * i + w] == vertex_words(shared, corners[i])[w],
    decreases corners.len(),
{
    let front = corners.drop_last();
    law_a_vertex_holds_each_vector_at_its_attribute(shared, corners.last(), 0);
    if front.len() == 0 {
        assert(quad_words(shared, front).len() == 0);
    } else if i < front.len() {
        law_vertices_follow_their_corners(shared, front, i, w);
    } else {
        law_vertices_follow_their_corners(shared, front, 0, 0);
    }
}

/// A quad is two triangles with one diagonal between them: each of its four corners is there, and
/// the corners of the diagonal are there twice.
pub proof fn law_a_quad_is_two_triangles(r: Vec<(bool, bool)>)
    requires
        call_ensures(quad_corners, (), r),
    ensures
        r@.len() == 6,
        r@[0] == r@[3],
        r@[2] == r@[4],
        r@[0].0 != r@[2].0 && r@[0].1 != r@[2].1,
        r@[1] != r@[0] && r@[1] != r@[2] && r@[1] != r@[5],
        r@[5] != r@[0] && r@[5] != r@[2],
{
}

/// A particle without a silhouette is one quad, any other one quad for each of its rectangles.
pub proof fn law_every_rectangle_is_a_quad(rects: u32, r: u32)
    requires
        call_ensures(particle_vertex_count, (rects,), r),
        rects * 6 <= u32::MAX,
    ensures
        r % 6 == 0,
        r > 0,
        rects > 0 ==> r / 6 == rects,
        rects == 0 ==> r == 6,
{
}

/// Only the attributes of birth and lifetime take another word than their own, and only where the
/// shader counts by frames; the attributes are the fifth and the fourth unless it says otherwise.
pub proof fn law_only_life_attributes_are_replaced(
    index: u32,
    own: u32,
    frame_clock: bool,
    birth: u32,
    lifetime: u32,
    roles: Option<(u32, u32)>,
    r: u32,
)
    requires
        call_ensures(
            attribute_last_word,
            (index, own, frame_clock, birth, lifetime, roles),
            r,
        ),
    ensures
        !frame_clock ==> r == own,
        roles is None && frame_clock ==> r == (if index == 5 {
            birth
        } else if index == 4 {
            lifetime
        } else {
            own
        }),
        match roles {
            Some((first, second)) => {
                &&& index != first && index != second ==> r == own
                &&& frame_clock && index == first ==> r == birth
                &&& frame_clock && index == second && first != second ==> r == lifetime
            },
            None => true,
        },
{
}

} // verus!
