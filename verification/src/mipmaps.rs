//! Mip levels of a tightly packed texture, and the row padding of an upload.

use vstd::arithmetic::div_mod::*;
use vstd::arithmetic::mul::*;
use vstd::prelude::*;

verus! {

/// The texture formats that the renderer creates textures and render targets in.
#[derive(Clone, Copy, Debug, PartialEq, Eq, Structural)]
pub enum TextureFormat {
    R8Unorm,
    Rg8Unorm,
    R16Unorm,
    Rgba8Unorm,
    Rgba8UnormSrgb,
    Bgra8Unorm,
    Bgra8UnormSrgb,
    Rgba16Float,
    R32Float,
    Depth32Float,
    Depth24PlusStencil8,
}

/// Bytes per texel of the formats that can be halved on the CPU; none for the others.
pub open spec fn texel_bytes(format: TextureFormat) -> Option<int> {
    match format {
        TextureFormat::Rgba8Unorm | TextureFormat::Rgba8UnormSrgb => Some(4),
        TextureFormat::Rg8Unorm => Some(2),
        TextureFormat::R8Unorm => Some(1),
        TextureFormat::R16Unorm => Some(2),
        _ => None,
    }
}

/// Half of an edge, never less than one texel.
pub open spec fn half_edge(n: int) -> int {
    if n / 2 > 1 {
        n / 2
    } else {
        1
    }
}

/// The smaller of a coordinate and the last one of an edge.
pub open spec fn within(x: int, edge: int) -> int {
    if x < edge - 1 {
        x
    } else {
        edge - 1
    }
}

/// Where the bytes of texel `(x, y)` begin in an image of width `w`.
pub open spec fn texel_offset(x: int, y: int, w: int, bpp: int) -> int {
    (y * w + x) * bpp
}

/// The mean of four numbers, rounded to the nearest.
pub open spec fn mean_of_four(a: int, b: int, c: int, d: int) -> int {
    (a + b + c + d + 2) / 4
}

/// A sixteen bit lane, low byte first.
pub open spec fn lane(s: Seq<u8>, at: int) -> int {
    s[at] + 256 * s[at + 1]
}

/// Byte `c` of the texel `(x, y)` of the half-size image: the mean of the texels of the two by two
/// box it covers, lane by lane, the box clamped to the image.
pub open spec fn box_byte(
    prev: Seq<u8>,
    pw: int,
    ph: int,
    bpp: int,
    wide: bool,
    x: int,
    y: int,
    c: int,
) -> u8 {
    let x0 = within(2 * x, pw);
    let y0 = within(2 * y, ph);
    let x1 = within(x0 + 1, pw);
    let y1 = within(y0 + 1, ph);
    let a = texel_offset(x0, y0, pw, bpp);
    let b = texel_offset(x1, y0, pw, bpp);
    let d = texel_offset(x0, y1, pw, bpp);
    let e = texel_offset(x1, y1, pw, bpp);
    if wide {
        let mean = mean_of_four(lane(prev, a), lane(prev, b), lane(prev, d), lane(prev, e));
        if c == 0 {
            (mean % 256) as u8
        } else {
            (mean / 256) as u8
        }
    } else {
        mean_of_four(
            prev[a + c] as int,
            prev[b + c] as int,
            prev[d + c] as int,
            prev[e + c] as int,
        ) as u8
    }
}

/// The image at half size, tightly packed.
pub open spec fn halved(prev: Seq<u8>, pw: int, ph: int, bpp: int, wide: bool) -> Seq<u8> {
    let nw = half_edge(pw);
    let nh = half_edge(ph);
    Seq::new(
        (nw * nh * bpp) as nat,
        |k: int|
            box_byte(prev, pw, ph, bpp, wide, (k / bpp) % nw, (k / bpp) / nw, k % bpp),
    )
}

/// The levels below an image, down to a single texel: each is the one before at half size.
pub open spec fn mip_levels(base: Seq<u8>, w: int, h: int, bpp: int, wide: bool) -> Seq<
    (Seq<u8>, int, int),
>
    decreases w + h,
{
    if w < 1 || h < 1 || (w == 1 && h == 1) {
        Seq::empty()
    } else {
        let next = halved(base, w, h, bpp, wide);
        seq![(next, half_edge(w), half_edge(h))] + mip_levels(
            next,
            half_edge(w),
            half_edge(h),
            bpp,
            wide,
        )
    }
}

/// The contents of executable mip levels.
pub open spec fn levels_view(v: Seq<(Vec<u8>, u32, u32)>) -> Seq<(Seq<u8>, int, int)> {
    Seq::new(v.len(), |i: int| (v[i].0@, v[i].1 as int, v[i].2 as int))
}

/// What the whole chain of a texture is: empty where the format cannot be halved or the base is
/// short.
pub open spec fn mip_chain(base: Seq<u8>, w: int, h: int, format: TextureFormat) -> Seq<
    (Seq<u8>, int, int),
> {
    match texel_bytes(format) {
        Some(bpp) => if base.len() < w * h * bpp {
            Seq::empty()
        } else {
            mip_levels(base.take(w * h * bpp), w, h, bpp, format == TextureFormat::R16Unorm)
        },
        None => Seq::empty(),
    }
}

proof fn lemma_texel_in_image(x: int, y: int, w: int, h: int, bpp: int)
    requires
        0 <= x < w,
        0 <= y < h,
        1 <= bpp,
    ensures
        0 <= texel_offset(x, y, w, bpp),
        texel_offset(x, y, w, bpp) + bpp <= w * h * bpp,
        0 <= y * w + x < w * h,
{
    assert(y * w + x < w * h && 0 <= y * w) by (nonlinear_arith)
        requires
            0 <= x < w,
            0 <= y < h,
    ;
    assert(0 <= (y * w + x) * bpp && (y * w + x) * bpp + bpp <= w * h * bpp) by (nonlinear_arith)
        requires
            0 <= y * w + x < w * h,
            1 <= bpp,
    ;
}

proof fn lemma_byte_place(t: int, c: int, bpp: int)
    requires
        0 <= t,
        0 <= c < bpp,
    ensures
        (t * bpp + c) / bpp == t,
        (t * bpp + c) % bpp == c,
{
    lemma_fundamental_div_mod_converse(t * bpp + c, bpp, t, c);
}

fn clamp_to(x: usize, edge: usize) -> (r: usize)
    requires
        edge >= 1,
    ensures
        r == within(x as int, edge as int),
{
    if x < edge - 1 {
        x
    } else {
        edge - 1
    }
}

/// The bytes of texel `(x, y)` of the half-size image, appended to `out`.
fn push_box(
    out: &mut Vec<u8>,
    prev: &Vec<u8>,
    pw: usize,
    ph: usize,
    bpp: usize,
    wide: bool,
    x: usize,
    y: usize,
)
    requires
        pw >= 1,
        ph >= 1,
        1 <= bpp <= 4,
        wide ==> bpp == 2,
        prev@.len() == pw * ph * bpp,
        x < half_edge(pw as int),
        y < half_edge(ph as int),
    ensures
        final(out)@ == old(out)@ + Seq::new(
            bpp as nat,
            |c: int|
                box_byte(prev@, pw as int, ph as int, bpp as int, wide, x as int, y as int, c),
        ),
{
    let ghost was = out@;
    assert(prev@.len() == prev.len());
    let x0: usize = clamp_to(2 * x, pw);
    let y0: usize = clamp_to(2 * y, ph);
    let x1: usize = clamp_to(x0 + 1, pw);
    let y1: usize = clamp_to(y0 + 1, ph);
    proof {
        lemma_texel_in_image(x0 as int, y0 as int, pw as int, ph as int, bpp as int);
        lemma_texel_in_image(x1 as int, y0 as int, pw as int, ph as int, bpp as int);
        lemma_texel_in_image(x0 as int, y1 as int, pw as int, ph as int, bpp as int);
        lemma_texel_in_image(x1 as int, y1 as int, pw as int, ph as int, bpp as int);
        assert(pw * ph <= pw * ph * bpp) by (nonlinear_arith)
            requires
                1 <= bpp,
                0 <= pw * ph,
        ;
        assert(0 <= y0 * pw <= y0 * pw + x0 && 0 <= y1 * pw) by (nonlinear_arith)
            requires
                0 <= y0,
                0 <= y1,
                0 <= pw,
                0 <= x0,
        ;
    }
    let a: usize = (y0 * pw + x0) * bpp;
    let b: usize = (y0 * pw + x1) * bpp;
    let d: usize = (y1 * pw + x0) * bpp;
    let e: usize = (y1 * pw + x1) * bpp;
    if wide {
        let sum: u32 = (prev[a] as u32 + 256 * prev[a + 1] as u32) + (prev[b] as u32 + 256 * prev[b
            + 1] as u32) + (prev[d] as u32 + 256 * prev[d + 1] as u32) + (prev[e] as u32 + 256
            * prev[e + 1] as u32);
        let mean: u32 = (sum + 2) / 4;
        out.push((mean % 256) as u8);
        out.push((mean / 256) as u8);
        assert(out@ =~= was + Seq::new(
            bpp as nat,
            |c: int|
                box_byte(prev@, pw as int, ph as int, bpp as int, wide, x as int, y as int, c),
        ));
        return ;
    }
    let mut c: usize = 0;
    while c < bpp
        invariant
            c <= bpp,
            !wide,
            a == texel_offset(x0 as int, y0 as int, pw as int, bpp as int),
            b == texel_offset(x1 as int, y0 as int, pw as int, bpp as int),
            d == texel_offset(x0 as int, y1 as int, pw as int, bpp as int),
            e == texel_offset(x1 as int, y1 as int, pw as int, bpp as int),
            x0 == within(2 * x, pw as int),
            y0 == within(2 * y, ph as int),
            x1 == within(x0 + 1, pw as int),
            y1 == within(y0 + 1, ph as int),
            a + bpp <= prev.len(),
            b + bpp <= prev.len(),
            d + bpp <= prev.len(),
            e + bpp <= prev.len(),
            out@ == was + Seq::new(
                c as nat,
                |c: int|
                    box_byte(prev@, pw as int, ph as int, bpp as int, wide, x as int, y as int, c),
            ),
        decreases bpp - c,
    {
        let sum: u32 = prev[a + c] as u32 + prev[b + c] as u32 + prev[d + c] as u32 + prev[e
            + c] as u32;
        out.push(((sum + 2) / 4) as u8);
        c = c + 1;
        assert(out@ =~= was + Seq::new(
            c as nat,
            |c: int|
                box_byte(prev@, pw as int, ph as int, bpp as int, wide, x as int, y as int, c),
        ));
    }
}

/// The image at half size.
fn halve(prev: &Vec<u8>, pw: usize, ph: usize, bpp: usize, wide: bool) -> (next: Vec<u8>)
    requires
        pw >= 1,
        ph >= 1,
        pw > 1 || ph > 1,
        1 <= bpp <= 4,
        wide ==> bpp == 2,
        prev@.len() == pw * ph * bpp,
    ensures
        next@ == halved(prev@, pw as int, ph as int, bpp as int, wide),
{
    let nw: usize = if pw / 2 > 1 {
        pw / 2
    } else {
        1
    };
    let nh: usize = if ph / 2 > 1 {
        ph / 2
    } else {
        1
    };
    let ghost goal = halved(prev@, pw as int, ph as int, bpp as int, wide);
    assert(prev@.len() == prev.len());
    proof {
        assert(nw * nh <= pw * ph) by (nonlinear_arith)
            requires
                0 <= nw <= pw,
                0 <= nh <= ph,
        ;
        assert(pw * ph <= pw * ph * bpp) by (nonlinear_arith)
            requires
                1 <= bpp,
                0 <= pw * ph,
        ;
        assert(0 <= nw * nh && 0 <= nw * nh * bpp) by (nonlinear_arith)
            requires
                0 <= nw,
                0 <= nh,
                0 <= bpp,
        ;
    }
    let count: usize = nw * nh;
    let mut next: Vec<u8> = Vec::new();
    let mut t: usize = 0;
    while t < count
        invariant
            t <= count,
            count == nw * nh,
            nw == half_edge(pw as int),
            nh == half_edge(ph as int),
            pw >= 1,
            ph >= 1,
            1 <= bpp <= 4,
            wide ==> bpp == 2,
            prev@.len() == pw * ph * bpp,
            goal == halved(prev@, pw as int, ph as int, bpp as int, wide),
            goal.len() == count * bpp,
            next@.len() == t * bpp,
            next@ == goal.take(t * bpp),
        decreases count - t,
    {
        let x: usize = t % nw;
        let y: usize = t / nw;
        proof {
            lemma_fundamental_div_mod(t as int, nw as int);
            assert(y < nh) by (nonlinear_arith)
                requires
                    t < nw * nh,
                    t == nw * y + x,
                    0 <= x,
                    0 <= nw,
                    0 <= nh,
            ;
        }
        let ghost was = next@;
        push_box(&mut next, prev, pw, ph, bpp, wide, x, y);
        proof {
            assert((t + 1) * bpp == t * bpp + bpp) by (nonlinear_arith);
            assert((t + 1) * bpp <= count * bpp) by (nonlinear_arith)
                requires
                    t < count,
                    0 <= bpp,
            ;
            assert forall|k: int| 0 <= k < (t + 1) * bpp implies next@[k] == goal[k] by {
                if k < t * bpp {
                    assert(next@[k] == was[k]);
                    assert(was[k] == goal.take(t * bpp)[k]);
                } else {
                    lemma_byte_place(t as int, k - t * bpp, bpp as int);
                    assert(k == t * bpp + (k - t * bpp));
                }
            }
            assert(next@ =~= goal.take((t + 1) * bpp));
        }
        t = t + 1;
    }
    assert(goal.take(count * bpp) =~= goal);
    next
}

/// Generates the mip levels below a tightly packed base image with a two by two box filter.
///
/// Empty where the format cannot be halved on the CPU or the base is short.
pub fn generate_mip_chain(base: &Vec<u8>, w: u32, h: u32, format: TextureFormat) -> (levels: Vec<
    (Vec<u8>, u32, u32),
>)
    requires
        w as int * h as int * 4 <= usize::MAX,
        (w >= 1 && h >= 1) || (w <= 1 && h <= 1),
    ensures
        levels_view(levels@) == mip_chain(base@, w as int, h as int, format),
{
    let bpp: usize = match format {
        TextureFormat::Rgba8Unorm | TextureFormat::Rgba8UnormSrgb => 4,
        TextureFormat::Rg8Unorm => 2,
        TextureFormat::R8Unorm => 1,
        TextureFormat::R16Unorm => 2,
        _ => {
            let none: Vec<(Vec<u8>, u32, u32)> = Vec::new();
            assert(levels_view(none@) =~= Seq::empty());
            return none;
        },
    };
    let wide = matches!(format, TextureFormat::R16Unorm);
    proof {
        assert(w * h * bpp <= w * h * 4 && w * h <= w * h * 4 && 0 <= w * h) by (nonlinear_arith)
            requires
                1 <= bpp <= 4,
                0 <= w,
                0 <= h,
        ;
    }
    let base_len: usize = w as usize * h as usize * bpp;
    let mut levels: Vec<(Vec<u8>, u32, u32)> = Vec::new();
    if base.len() < base_len {
        assert(levels_view(levels@) =~= Seq::empty());
        return levels;
    }
    let mut prev: Vec<u8> = Vec::new();
    let mut i: usize = 0;
    while i < base_len
        invariant
            i <= base_len <= base.len(),
            prev@ == base@.take(i as int),
        decreases base_len - i,
    {
        prev.push(base[i]);
        i = i + 1;
    }
    let ghost goal = mip_chain(base@, w as int, h as int, format);
    let mut pw: u32 = w;
    let mut ph: u32 = h;
    assert(levels_view(levels@) + mip_levels(
        prev@,
        pw as int,
        ph as int,
        bpp as int,
        wide,
    ) =~= goal);
    while pw > 1 || ph > 1
        invariant
            1 <= bpp <= 4,
            wide ==> bpp == 2,
            (pw >= 1 && ph >= 1) || (pw <= 1 && ph <= 1),
            prev@.len() == pw * ph * bpp,
            goal == levels_view(levels@) + mip_levels(
                prev@,
                pw as int,
                ph as int,
                bpp as int,
                wide,
            ),
        decreases pw + ph,
    {
        let next = halve(&prev, pw as usize, ph as usize, bpp, wide);
        let nw: u32 = if pw / 2 > 1 {
            pw / 2
        } else {
            1
        };
        let nh: u32 = if ph / 2 > 1 {
            ph / 2
        } else {
            1
        };
        let ghost done = levels_view(levels@);
        let mut copy: Vec<u8> = Vec::new();
        let mut j: usize = 0;
        while j < next.len()
            invariant
                j <= next.len(),
                copy@ == next@.take(j as int),
            decreases next.len() - j,
        {
            copy.push(next[j]);
            j = j + 1;
        }
        assert(copy@ =~= next@);
        levels.push((copy, nw, nh));
        assert(levels_view(levels@) =~= done.push((next@, nw as int, nh as int)));
        assert(0 <= nw * nh * bpp) by (nonlinear_arith)
            requires
                0 <= nw,
                0 <= nh,
                0 <= bpp,
        ;
        prev = next;
        pw = nw;
        ph = nh;
        assert(goal =~= levels_view(levels@) + mip_levels(
            prev@,
            pw as int,
            ph as int,
            bpp as int,
            wide,
        ));
    }
    assert(levels_view(levels@) =~= goal);
    levels
}

/// Row alignment of a texture upload.
pub const COPY_ROW_ALIGNMENT: u32 = 256;

/// A row length rounded up to the upload alignment.
pub open spec fn aligned_row(tight: int) -> int {
    ((tight + 255) / 256) * 256
}

/// The rows of an image padded with zeros to the upload alignment; a row that the image is too
/// short for is all zeros. An image whose rows are aligned is taken as it is.
pub open spec fn padded_rows(tight: Seq<u8>, rows: int, tight_bpr: int) -> Seq<u8> {
    let bpr = aligned_row(tight_bpr);
    if bpr == tight_bpr {
        tight
    } else {
        Seq::new(
            (rows * bpr) as nat,
            |k: int|
                {
                    let row = k / bpr;
                    let col = k % bpr;
                    if col < tight_bpr && (row + 1) * tight_bpr <= tight.len() {
                        tight[row * tight_bpr + col]
                    } else {
                        0u8
                    }
                },
        )
    }
}

/// Pads the rows of an image to the upload alignment: the data and its bytes per row.
pub fn pad_rows(tight: &Vec<u8>, rows: u32, tight_bpr: u32) -> (r: (Vec<u8>, u32))
    requires
        tight_bpr <= u32::MAX - 255,
        rows as int * aligned_row(tight_bpr as int) <= usize::MAX,
        (rows + 1) * tight_bpr <= usize::MAX,
    ensures
        r.1 == aligned_row(tight_bpr as int),
        r.0@ == padded_rows(tight@, rows as int, tight_bpr as int),
{
    let bpr: u32 = ((tight_bpr + (COPY_ROW_ALIGNMENT - 1)) / COPY_ROW_ALIGNMENT)
        * COPY_ROW_ALIGNMENT;
    let mut v: Vec<u8> = Vec::new();
    if bpr == tight_bpr {
        let mut i: usize = 0;
        while i < tight.len()
            invariant
                i <= tight.len(),
                v@ == tight@.take(i as int),
            decreases tight.len() - i,
        {
            v.push(tight[i]);
            i = i + 1;
        }
        assert(v@ =~= tight@);
        return (v, bpr);
    }
    let ghost goal = padded_rows(tight@, rows as int, tight_bpr as int);
    let mut row: u32 = 0;
    assert(0 <= rows * bpr) by (nonlinear_arith)
        requires
            0 <= rows,
            0 <= bpr,
    ;
    while row < rows
        invariant
            row <= rows,
            tight_bpr < bpr,
            bpr == aligned_row(tight_bpr as int),
            rows * bpr <= usize::MAX,
            (rows + 1) * tight_bpr <= usize::MAX,
            goal == padded_rows(tight@, rows as int, tight_bpr as int),
            goal.len() == rows * bpr,
            v@.len() == row * bpr,
            v@ == goal.take(row * bpr),
        decreases rows - row,
    {
        proof {
            assert((row + 1) * tight_bpr <= (rows + 1) * tight_bpr && row * tight_bpr <= (row + 1)
                * tight_bpr && (row + 1) * tight_bpr == row * tight_bpr + tight_bpr && 0 <= row
                * tight_bpr) by (nonlinear_arith)
                requires
                    0 <= row < rows,
                    0 <= tight_bpr,
            ;
            assert((row + 1) * bpr <= rows * bpr && (row + 1) * bpr == row * bpr + bpr)
                by (nonlinear_arith)
                requires
                    0 <= row < rows,
                    0 <= bpr,
            ;
        }
        let start: usize = row as usize * tight_bpr as usize;
        let whole = start + tight_bpr as usize <= tight.len();
        let mut col: u32 = 0;
        while col < bpr
            invariant
                col <= bpr,
                row < rows,
                tight_bpr < bpr,
                bpr == aligned_row(tight_bpr as int),
                (row + 1) * bpr <= rows * bpr,
                (row + 1) * bpr == row * bpr + bpr,
                (row + 1) * tight_bpr == row * tight_bpr + tight_bpr,
                start == row * tight_bpr,
                whole == (start + tight_bpr <= tight.len()),
                goal == padded_rows(tight@, rows as int, tight_bpr as int),
                goal.len() == rows * bpr,
                v@.len() == row * bpr + col,
                v@ == goal.take(row * bpr + col),
            decreases bpr - col,
        {
            let ghost was = v@;
            if whole && col < tight_bpr {
                v.push(tight[start + col as usize]);
            } else {
                v.push(0u8);
            }
            proof {
                lemma_byte_place(row as int, col as int, bpr as int);
                assert(v@ =~= goal.take(row * bpr + col + 1));
            }
            col = col + 1;
        }
        row = row + 1;
    }
    assert(goal.take(rows * bpr) =~= goal);
    (v, bpr)
}

/// The levels below an image end at a single texel, each is tightly packed, and none is empty.
pub proof fn law_a_mip_chain_ends_at_one_texel(
    base: Seq<u8>,
    w: int,
    h: int,
    bpp: int,
    wide: bool,
)
    requires
        w >= 1,
        h >= 1,
        bpp >= 1,
        w > 1 || h > 1,
    ensures
        mip_levels(base, w, h, bpp, wide).len() > 0,
        mip_levels(base, w, h, bpp, wide).last().1 == 1,
        mip_levels(base, w, h, bpp, wide).last().2 == 1,
        forall|i: int|
            0 <= i < mip_levels(base, w, h, bpp, wide).len() ==> {
                let level = #[trigger] mip_levels(base, w, h, bpp, wide)[i];
                level.1 >= 1 && level.2 >= 1 && level.0.len() == level.1 * level.2 * bpp
            },
    decreases w + h,
{
    let nw = half_edge(w);
    let nh = half_edge(h);
    let next = halved(base, w, h, bpp, wide);
    let rest = mip_levels(next, nw, nh, bpp, wide);
    let all = mip_levels(base, w, h, bpp, wide);
    assert(nw * nh * bpp >= 0) by (nonlinear_arith)
        requires
            nw >= 1,
            nh >= 1,
            bpp >= 1,
    ;
    if nw > 1 || nh > 1 {
        law_a_mip_chain_ends_at_one_texel(next, nw, nh, bpp, wide);
        assert(all.last() == rest.last());
    }
    assert forall|i: int| 0 <= i < all.len() implies {
        let level = #[trigger] all[i];
        level.1 >= 1 && level.2 >= 1 && level.0.len() == level.1 * level.2 * bpp
    } by {
        if i > 0 {
            assert(all[i] == rest[i - 1]);
        }
    }
}

/// The image above level `k`: the base, or the level before.
spec fn above(base: Seq<u8>, w: int, h: int, levels: Seq<(Seq<u8>, int, int)>, k: int) -> (
    Seq<u8>,
    int,
    int,
) {
    if k == 0 {
        (base, w, h)
    } else {
        levels[k - 1]
    }
}

proof fn lemma_levels_follow(base: Seq<u8>, w: int, h: int, bpp: int, wide: bool, k: int)
    requires
        w >= 1,
        h >= 1,
        bpp >= 1,
        base.len() == w * h * bpp,
        0 <= k < mip_levels(base, w, h, bpp, wide).len(),
    ensures
        ({
            let levels = mip_levels(base, w, h, bpp, wide);
            let up = above(base, w, h, levels, k);
            &&& levels[k] == (halved(up.0, up.1, up.2, bpp, wide), half_edge(up.1), half_edge(up.2))
            &&& up.1 >= 1 && up.2 >= 1
            &&& up.0.len() == up.1 * up.2 * bpp
            &&& levels[k].0.len() == levels[k].1 * levels[k].2 * bpp
        }),
    decreases k,
{
    let levels = mip_levels(base, w, h, bpp, wide);
    let nw = half_edge(w);
    let nh = half_edge(h);
    let next = halved(base, w, h, bpp, wide);
    assert(nw * nh * bpp >= 0) by (nonlinear_arith)
        requires
            nw >= 1,
            nh >= 1,
            bpp >= 1,
    ;
    if k > 0 {
        let rest = mip_levels(next, nw, nh, bpp, wide);
        assert(levels[k] == rest[k - 1]);
        lemma_levels_follow(next, nw, nh, bpp, wide, k - 1);
        if k > 1 {
            assert(levels[k - 1] == rest[k - 2]);
        }
    }
}

proof fn lemma_halved_byte(
    prev: Seq<u8>,
    pw: int,
    ph: int,
    bpp: int,
    wide: bool,
    x: int,
    y: int,
    c: int,
)
    requires
        pw >= 1,
        ph >= 1,
        bpp >= 1,
        0 <= x < half_edge(pw),
        0 <= y < half_edge(ph),
        0 <= c < bpp,
    ensures
        0 <= (y * half_edge(pw) + x) * bpp + c < half_edge(pw) * half_edge(ph) * bpp,
        halved(prev, pw, ph, bpp, wide)[(y * half_edge(pw) + x) * bpp + c] == box_byte(
            prev,
            pw,
            ph,
            bpp,
            wide,
            x,
            y,
            c,
        ),
{
    let nw = half_edge(pw);
    let nh = half_edge(ph);
    lemma_texel_in_image(x, y, nw, nh, bpp);
    lemma_byte_place(y * nw + x, c, bpp);
    lemma_fundamental_div_mod_converse(y * nw + x, nw, y, x);
    assert(nw * y == y * nw) by (nonlinear_arith);
}

/// How many bytes each texel of a format with one byte per channel has; none for other formats.
pub open spec fn byte_channels(format: TextureFormat) -> Option<int> {
    if format == TextureFormat::Rgba8Unorm || format == TextureFormat::Rgba8UnormSrgb {
        Some(4)
    } else if format == TextureFormat::Rg8Unorm {
        Some(2)
    } else if format == TextureFormat::R8Unorm {
        Some(1)
    } else {
        None
    }
}

/// Every level of a mip chain has half the edges of the image above it, an odd edge rounded down and
/// no edge shorter than a texel, and has that many texels.
pub proof fn law_every_level_halves_the_one_above(
    base: Seq<u8>,
    w: int,
    h: int,
    format: TextureFormat,
    k: int,
)
    requires
        w >= 1,
        h >= 1,
        0 <= k < mip_chain(base, w, h, format).len(),
    ensures
        ({
            let levels = mip_chain(base, w, h, format);
            let uw = if k == 0 {
                w
            } else {
                levels[k - 1].1
            };
            let uh = if k == 0 {
                h
            } else {
                levels[k - 1].2
            };
            let bytes = if format == TextureFormat::R16Unorm {
                2
            } else {
                byte_channels(format)->0
            };
            &&& format == TextureFormat::R16Unorm || byte_channels(format) is Some
            &&& uw > 1 || uh > 1
            &&& levels[k].1 >= 1 && (uw == 1 ==> levels[k].1 == 1) && (uw > 1 ==> 2 * levels[k].1
                <= uw <= 2 * levels[k].1 + 1)
            &&& levels[k].2 >= 1 && (uh == 1 ==> levels[k].2 == 1) && (uh > 1 ==> 2 * levels[k].2
                <= uh <= 2 * levels[k].2 + 1)
            &&& levels[k].0.len() == levels[k].1 * levels[k].2 * bytes
        }),
{
    let bpp = texel_bytes(format)->0;
    let own = base.take(w * h * bpp);
    assert(0 <= w * h * bpp) by (nonlinear_arith)
        requires
            w >= 1,
            h >= 1,
            bpp >= 1,
    ;
    let wide = format == TextureFormat::R16Unorm;
    lemma_levels_follow(own, w, h, bpp, wide, k);
    lemma_not_last(own, w, h, bpp, wide, k);
}

proof fn lemma_not_last(base: Seq<u8>, w: int, h: int, bpp: int, wide: bool, k: int)
    requires
        w >= 1,
        h >= 1,
        0 <= k < mip_levels(base, w, h, bpp, wide).len(),
    ensures
        ({
            let up = above(base, w, h, mip_levels(base, w, h, bpp, wide), k);
            up.1 > 1 || up.2 > 1
        }),
    decreases k,
{
    if k > 0 {
        let levels = mip_levels(base, w, h, bpp, wide);
        let next = halved(base, w, h, bpp, wide);
        let rest = mip_levels(next, half_edge(w), half_edge(h), bpp, wide);
        assert(levels[k] == rest[k - 1]);
        lemma_not_last(next, half_edge(w), half_edge(h), bpp, wide, k - 1);
        if k > 1 {
            assert(levels[k - 1] == rest[k - 2]);
        }
    }
}

/// A texture that can be halved has levels down to one texel; one of another format, or one that has
/// fewer bytes than its size asks for, has none.
pub proof fn law_a_chain_is_whole_or_empty(base: Seq<u8>, w: int, h: int, format: TextureFormat)
    requires
        w >= 1,
        h >= 1,
    ensures
        ({
            let levels = mip_chain(base, w, h, format);
            let bytes = if format == TextureFormat::R16Unorm {
                Some(2int)
            } else {
                byte_channels(format)
            };
            if bytes is Some && base.len() >= w * h * bytes->0 && (w > 1 || h > 1) {
                &&& levels.len() > 0
                &&& levels.last().1 == 1
                &&& levels.last().2 == 1
            } else {
                levels.len() == 0
            }
        }),
{
    if let Some(bpp) = texel_bytes(format) {
        if base.len() >= w * h * bpp && (w > 1 || h > 1) {
            law_a_mip_chain_ends_at_one_texel(
                base.take(w * h * bpp),
                w,
                h,
                bpp,
                format == TextureFormat::R16Unorm,
            );
        }
    }
}

/// In a format with one byte per channel, every channel of a texel is the mean, to the nearest whole
/// number, of the same channel of the four texels that it covers in the image above; of an edge of
/// one texel the same one counts twice.
pub proof fn law_a_texel_is_the_mean_of_what_it_covers(
    base: Seq<u8>,
    w: int,
    h: int,
    format: TextureFormat,
    k: int,
    x: int,
    y: int,
    c: int,
)
    requires
        w >= 1,
        h >= 1,
        byte_channels(format) is Some,
        0 <= k < mip_chain(base, w, h, format).len(),
        0 <= x < mip_chain(base, w, h, format)[k].1,
        0 <= y < mip_chain(base, w, h, format)[k].2,
        0 <= c < byte_channels(format)->0,
    ensures
        ({
            let levels = mip_chain(base, w, h, format);
            let n = byte_channels(format)->0;
            let (up, uw, uh) = if k == 0 {
                (base, w, h)
            } else {
                levels[k - 1]
            };
            let right = if uw == 1 {
                0
            } else {
                2 * x + 1
            };
            let low = if uh == 1 {
                0
            } else {
                2 * y + 1
            };
            let sum = up[(2 * y * uw + 2 * x) * n + c] + up[(2 * y * uw + right) * n + c] + up[(low
                * uw + 2 * x) * n + c] + up[(low * uw + right) * n + c];
            let own = levels[k].0[(y * levels[k].1 + x) * n + c] as int;
            4 * own - 2 <= sum < 4 * own + 2
        }),
{
    let n = byte_channels(format)->0;
    let own = base.take(w * h * n);
    assert(0 <= w * h * n) by (nonlinear_arith)
        requires
            w >= 1,
            h >= 1,
            n >= 1,
    ;
    let levels = mip_levels(own, w, h, n, false);
    assert(mip_chain(base, w, h, format) == levels);
    lemma_levels_follow(own, w, h, n, false, k);
    let (up, uw, uh) = above(own, w, h, levels, k);
    lemma_halved_byte(up, uw, uh, n, false, x, y, c);
    let right = if uw == 1 {
        0
    } else {
        2 * x + 1
    };
    let low = if uh == 1 {
        0
    } else {
        2 * y + 1
    };
    assert(within(2 * x, uw) == 2 * x && within(2 * x + 1, uw) == right);
    assert(within(2 * y, uh) == 2 * y && within(2 * y + 1, uh) == low);
    lemma_texel_in_image(2 * x, 2 * y, uw, uh, n);
    lemma_texel_in_image(right, 2 * y, uw, uh, n);
    lemma_texel_in_image(2 * x, low, uw, uh, n);
    lemma_texel_in_image(right, low, uw, uh, n);
}

/// In a format of one sixteen bit channel, low byte first, every texel is the mean, to the nearest
/// whole number, of the four texels that it covers in the image above.
pub proof fn law_a_wide_texel_is_the_mean_of_what_it_covers(
    base: Seq<u8>,
    w: int,
    h: int,
    k: int,
    x: int,
    y: int,
)
    requires
        w >= 1,
        h >= 1,
        0 <= k < mip_chain(base, w, h, TextureFormat::R16Unorm).len(),
        0 <= x < mip_chain(base, w, h, TextureFormat::R16Unorm)[k].1,
        0 <= y < mip_chain(base, w, h, TextureFormat::R16Unorm)[k].2,
    ensures
        ({
            let levels = mip_chain(base, w, h, TextureFormat::R16Unorm);
            let (up, uw, uh) = if k == 0 {
                (base, w, h)
            } else {
                levels[k - 1]
            };
            let right = if uw == 1 {
                0
            } else {
                2 * x + 1
            };
            let low = if uh == 1 {
                0
            } else {
                2 * y + 1
            };
            let at = |image: Seq<u8>, texel: int| image[2 * texel] + 256 * image[2 * texel + 1];
            let sum = at(up, 2 * y * uw + 2 * x) + at(up, 2 * y * uw + right) + at(
                up,
                low * uw + 2 * x,
            ) + at(up, low * uw + right);
            let own = at(levels[k].0, y * levels[k].1 + x);
            4 * own - 2 <= sum < 4 * own + 2
        }),
{
    let own = base.take(w * h * 2);
    assert(0 <= w * h * 2) by (nonlinear_arith)
        requires
            w >= 1,
            h >= 1,
    ;
    let levels = mip_levels(own, w, h, 2, true);
    assert(mip_chain(base, w, h, TextureFormat::R16Unorm) == levels);
    lemma_levels_follow(own, w, h, 2, true, k);
    let (up, uw, uh) = above(own, w, h, levels, k);
    lemma_halved_byte(up, uw, uh, 2, true, x, y, 0);
    lemma_halved_byte(up, uw, uh, 2, true, x, y, 1);
    let right = if uw == 1 {
        0
    } else {
        2 * x + 1
    };
    let low = if uh == 1 {
        0
    } else {
        2 * y + 1
    };
    assert(within(2 * x, uw) == 2 * x && within(2 * x + 1, uw) == right);
    assert(within(2 * y, uh) == 2 * y && within(2 * y + 1, uh) == low);
    lemma_texel_in_image(2 * x, 2 * y, uw, uh, 2);
    lemma_texel_in_image(right, 2 * y, uw, uh, 2);
    lemma_texel_in_image(2 * x, low, uw, uh, 2);
    lemma_texel_in_image(right, low, uw, uh, 2);
}

/// Channels stay apart in a mip chain: what bounds a channel in every texel of the base bounds that
/// channel in every texel of every level. So an image of one solid colour stays that colour.
pub proof fn law_channels_stay_apart(
    base: Seq<u8>,
    w: int,
    h: int,
    format: TextureFormat,
    c: int,
    lo: int,
    hi: int,
    k: int,
    t: int,
)
    requires
        w >= 1,
        h >= 1,
        byte_channels(format) is Some,
        0 <= c < byte_channels(format)->0,
        forall|u: int|
            0 <= u < w * h ==> lo <= #[trigger] base[u * byte_channels(format)->0 + c] <= hi,
        0 <= k < mip_chain(base, w, h, format).len(),
        0 <= t < mip_chain(base, w, h, format)[k].1 * mip_chain(base, w, h, format)[k].2,
    ensures
        lo <= mip_chain(base, w, h, format)[k].0[t * byte_channels(format)->0 + c] <= hi,
    decreases k,
{
    let levels = mip_chain(base, w, h, format);
    let n = byte_channels(format)->0;
    law_every_level_halves_the_one_above(base, w, h, format, k);
    let lw = levels[k].1;
    let lh = levels[k].2;
    let x = t % lw;
    let y = t / lw;
    lemma_fundamental_div_mod(t, lw);
    assert(y * lw == lw * y) by (nonlinear_arith);
    assert(0 <= y < lh) by (nonlinear_arith)
        requires
            0 <= t < lw * lh,
            t == lw * y + x,
            0 <= x < lw,
            lh >= 1,
    ;
    law_a_texel_is_the_mean_of_what_it_covers(base, w, h, format, k, x, y, c);
    let (up, uw, uh) = if k == 0 {
        (base, w, h)
    } else {
        levels[k - 1]
    };
    let right = if uw == 1 {
        0
    } else {
        2 * x + 1
    };
    let low = if uh == 1 {
        0
    } else {
        2 * y + 1
    };
    if k > 0 {
        law_every_level_halves_the_one_above(base, w, h, format, k - 1);
    }
    lemma_texel_in_image(2 * x, 2 * y, uw, uh, n);
    lemma_texel_in_image(right, 2 * y, uw, uh, n);
    lemma_texel_in_image(2 * x, low, uw, uh, n);
    lemma_texel_in_image(right, low, uw, uh, n);
    if k > 0 {
        law_channels_stay_apart(base, w, h, format, c, lo, hi, k - 1, 2 * y * uw + 2 * x);
        law_channels_stay_apart(base, w, h, format, c, lo, hi, k - 1, 2 * y * uw + right);
        law_channels_stay_apart(base, w, h, format, c, lo, hi, k - 1, low * uw + 2 * x);
        law_channels_stay_apart(base, w, h, format, c, lo, hi, k - 1, low * uw + right);
    } else {
        assert(lo <= base[(2 * y * uw + 2 * x) * n + c] <= hi);
        assert(lo <= base[(2 * y * uw + right) * n + c] <= hi);
        assert(lo <= base[(low * uw + 2 * x) * n + c] <= hi);
        assert(lo <= base[(low * uw + right) * n + c] <= hi);
    }
}

/// Padding keeps every row where an upload looks for it: rows are a multiple of the alignment long
/// and no longer than they must be, a row of the image stands at the begin of its padded row, and
/// what is behind it is zero.
pub proof fn law_padding_keeps_the_rows(
    tight: Seq<u8>,
    rows: int,
    tight_bpr: int,
    row: int,
    col: int,
)
    requires
        tight_bpr >= 1,
        0 <= row < rows,
        tight.len() == rows * tight_bpr,
        0 <= col < aligned_row(tight_bpr),
    ensures
        aligned_row(tight_bpr) % 256 == 0,
        tight_bpr <= aligned_row(tight_bpr) < tight_bpr + 256,
        padded_rows(tight, rows, tight_bpr).len() == rows * aligned_row(tight_bpr),
        padded_rows(tight, rows, tight_bpr)[row * aligned_row(tight_bpr) + col] == if col
            < tight_bpr {
            tight[row * tight_bpr + col]
        } else {
            0
        },
{
    let bpr = aligned_row(tight_bpr);
    lemma_byte_place(row, col, bpr);
    assert(row * bpr + col < rows * bpr && 0 <= row * bpr && (row + 1) * tight_bpr <= rows
        * tight_bpr && 0 <= rows * bpr) by (nonlinear_arith)
        requires
            0 <= row < rows,
            0 <= col < bpr,
            tight_bpr >= 1,
    ;
}

} // verus!
