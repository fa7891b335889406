//! Comparing a rendered frame with its golden image.

use vstd::prelude::*;
use vstd::string::*;

use crate::particle_renderer::BnshDrawFilter;
use crate::paths::{join_path, joined};
use crate::text::{two_digit_text, two_digits};

verus! {

/// Edge of the rendered image.
pub const TARGET_SIZE: u32 = 256;

/// Texels of the rendered image.
pub const TARGET_PIXELS: usize = 65536;

/// The red, green and blue of the background as it is stored.
pub const BG_RED: u8 = 63;

pub const BG_GREEN: u8 = 63;

pub const BG_BLUE: u8 = 89;

/// How far a channel may be off the background and still count as background.
pub const BG_TOLERANCE: u8 = 8;

/// The distance of two bytes.
pub open spec fn delta(a: u8, b: u8) -> int {
    if a > b {
        a - b
    } else {
        b - a
    }
}

fn byte_delta(a: u8, b: u8) -> (r: u8)
    ensures
        r == delta(a, b),
{
    if a > b {
        a - b
    } else {
        b - a
    }
}

/// Whether the pixel that begins at `at` differs from the background.
pub open spec fn is_visible(pixels: Seq<u8>, at: int) -> bool {
    ||| delta(pixels[at], BG_RED) > BG_TOLERANCE
    ||| delta(pixels[at + 1], BG_GREEN) > BG_TOLERANCE
    ||| delta(pixels[at + 2], BG_BLUE) > BG_TOLERANCE
}

/// How many of the first `n` pixels differ from the background.
pub open spec fn visible_count(pixels: Seq<u8>, n: int) -> int
    decreases n,
{
    if n <= 0 {
        0
    } else {
        visible_count(pixels, n - 1) + if is_visible(pixels, 4 * (n - 1)) {
            1int
        } else {
            0
        }
    }
}

/// Counts the whole pixels that differ from the background.
pub fn visible_pixels(pixels: &[u8]) -> (r: usize)
    ensures
        r == visible_count(pixels@, (pixels@.len() / 4) as int),
{
    let n: usize = pixels.len() / 4;
    let mut r: usize = 0;
    let mut i: usize = 0;
    while i < n
        invariant
            i <= n,
            n == pixels@.len() / 4,
            4 * n <= pixels.len(),
            r <= i,
            r == visible_count(pixels@, i as int),
        decreases n - i,
    {
        if byte_delta(pixels[4 * i], BG_RED) > BG_TOLERANCE || byte_delta(
            pixels[4 * i + 1],
            BG_GREEN,
        ) > BG_TOLERANCE || byte_delta(pixels[4 * i + 2], BG_BLUE) > BG_TOLERANCE {
            r = r + 1;
        }
        i = i + 1;
    }
    r
}

/// The sum of the squared distances of channel `c` over the first `n` pixels.
pub open spec fn squares(a: Seq<u8>, b: Seq<u8>, c: int, n: int) -> int
    decreases n,
{
    if n <= 0 {
        0
    } else {
        squares(a, b, c, n - 1) + delta(a[4 * (n - 1) + c], b[4 * (n - 1) + c]) * delta(
            a[4 * (n - 1) + c],
            b[4 * (n - 1) + c],
        )
    }
}

/// The sum of the distances of the first `n` bytes.
pub open spec fn distances(a: Seq<u8>, b: Seq<u8>, n: int) -> int
    decreases n,
{
    if n <= 0 {
        0
    } else {
        distances(a, b, n - 1) + delta(a[n - 1], b[n - 1])
    }
}

/// The largest distance among the first `n` bytes.
pub open spec fn largest(a: Seq<u8>, b: Seq<u8>, n: int) -> int
    decreases n,
{
    if n <= 0 {
        0
    } else if delta(a[n - 1], b[n - 1]) > largest(a, b, n - 1) {
        delta(a[n - 1], b[n - 1])
    } else {
        largest(a, b, n - 1)
    }
}

/// Whether any channel of a pixel differs.
pub open spec fn pixel_differs(a: Seq<u8>, b: Seq<u8>, at: int) -> bool {
    a[at] != b[at] || a[at + 1] != b[at + 1] || a[at + 2] != b[at + 2] || a[at + 3] != b[at + 3]
}

/// How many of the first `n` pixels differ.
pub open spec fn changed_count(a: Seq<u8>, b: Seq<u8>, n: int) -> int
    decreases n,
{
    if n <= 0 {
        0
    } else {
        changed_count(a, b, n - 1) + if pixel_differs(a, b, 4 * (n - 1)) {
            1int
        } else {
            0
        }
    }
}

/// Comparison of two images. The means of the squared and absolute distances are these sums over
/// the number of pixels and bytes.
#[derive(Clone, Copy, Debug, PartialEq, Eq)]
pub struct DiffReport {
    pub width: u32,
    pub height: u32,
    /// Sums of squared distances of red, green, blue and alpha.
    pub square_sums: [u64; 4],
    /// Sum of the distances of all channels.
    pub distance_sum: u64,
    /// Largest distance of a channel.
    pub max_delta: u8,
    /// Pixels with a channel that differs.
    pub changed_px: usize,
    pub visible_actual: usize,
    pub visible_golden: usize,
}

/// Compares two images of the target's size.
pub fn diff_images(actual: &[u8], golden: &[u8]) -> (r: DiffReport)
    requires
        actual@.len() == TARGET_PIXELS * 4,
        golden@.len() == TARGET_PIXELS * 4,
    ensures
        r.width == TARGET_SIZE,
        r.height == TARGET_SIZE,
        forall|c: int|
            0 <= c < 4 ==> #[trigger] r.square_sums@[c] == squares(
                actual@,
                golden@,
                c,
                TARGET_PIXELS as int,
            ),
        r.distance_sum == distances(actual@, golden@, TARGET_PIXELS * 4),
        r.max_delta == largest(actual@, golden@, TARGET_PIXELS * 4),
        r.changed_px == changed_count(actual@, golden@, TARGET_PIXELS as int),
        r.visible_actual == visible_count(actual@, TARGET_PIXELS as int),
        r.visible_golden == visible_count(golden@, TARGET_PIXELS as int),
{
    let mut s0: u64 = 0;
    let mut s1: u64 = 0;
    let mut s2: u64 = 0;
    let mut s3: u64 = 0;
    let mut distance_sum: u64 = 0;
    let mut max_delta: u8 = 0;
    let mut changed_px: usize = 0;
    let mut i: usize = 0;
    while i < TARGET_PIXELS
        invariant
            i <= TARGET_PIXELS,
            actual@.len() == TARGET_PIXELS * 4,
            golden@.len() == TARGET_PIXELS * 4,
            s0 == squares(actual@, golden@, 0, i as int),
            s1 == squares(actual@, golden@, 1, i as int),
            s2 == squares(actual@, golden@, 2, i as int),
            s3 == squares(actual@, golden@, 3, i as int),
            s0 <= i * 65025,
            s1 <= i * 65025,
            s2 <= i * 65025,
            s3 <= i * 65025,
            distance_sum == distances(actual@, golden@, 4 * i),
            distance_sum <= i * 1020,
            max_delta == largest(actual@, golden@, 4 * i),
            changed_px == changed_count(actual@, golden@, i as int),
            changed_px <= i,
        decreases TARGET_PIXELS - i,
    {
        let d0: u8 = byte_delta(actual[4 * i], golden[4 * i]);
        let d1: u8 = byte_delta(actual[4 * i + 1], golden[4 * i + 1]);
        let d2: u8 = byte_delta(actual[4 * i + 2], golden[4 * i + 2]);
        let d3: u8 = byte_delta(actual[4 * i + 3], golden[4 * i + 3]);
        proof {
            lemma_square_small(d0);
            lemma_square_small(d1);
            lemma_square_small(d2);
            lemma_square_small(d3);
            reveal_with_fuel(distances, 5);
            reveal_with_fuel(largest, 5);
        }
        s0 = s0 + d0 as u64 * d0 as u64;
        s1 = s1 + d1 as u64 * d1 as u64;
        s2 = s2 + d2 as u64 * d2 as u64;
        s3 = s3 + d3 as u64 * d3 as u64;
        distance_sum = distance_sum + d0 as u64 + d1 as u64 + d2 as u64 + d3 as u64;
        if d0 > max_delta {
            max_delta = d0;
        }
        if d1 > max_delta {
            max_delta = d1;
        }
        if d2 > max_delta {
            max_delta = d2;
        }
        if d3 > max_delta {
            max_delta = d3;
        }
        if d0 > 0 || d1 > 0 || d2 > 0 || d3 > 0 {
            changed_px = changed_px + 1;
        }
        i = i + 1;
    }
    DiffReport {
        width: TARGET_SIZE,
        height: TARGET_SIZE,
        square_sums: [s0, s1, s2, s3],
        distance_sum,
        max_delta,
        changed_px,
        visible_actual: visible_pixels(actual),
        visible_golden: visible_pixels(golden),
    }
}

proof fn lemma_square_small(d: u8)
    ensures
        0 <= d * d <= 65025,
{
    assert(0 <= d * d <= 65025) by (nonlinear_arith)
        requires
            0 <= d <= 255,
    ;
}

/// An image has no distance from itself.
pub proof fn law_an_image_equals_itself(image: Seq<u8>, n: int, c: int)
    ensures
        squares(image, image, c, n) == 0,
        distances(image, image, n) == 0,
        largest(image, image, n) == 0,
        changed_count(image, image, n) == 0,
    decreases n,
{
    if n > 0 {
        law_an_image_equals_itself(image, n - 1, c);
        assert(0int * 0int == 0) by (nonlinear_arith);
    }
}

/// Comparing is symmetric.
pub proof fn law_comparing_is_symmetric(a: Seq<u8>, b: Seq<u8>, n: int, c: int)
    ensures
        squares(a, b, c, n) == squares(b, a, c, n),
        distances(a, b, n) == distances(b, a, n),
        largest(a, b, n) == largest(b, a, n),
        changed_count(a, b, n) == changed_count(b, a, n),
    decreases n,
{
    if n > 0 {
        law_comparing_is_symmetric(a, b, n - 1, c);
    }
}

/// The largest of a pixel's four channel distances.
pub open spec fn pixel_delta(a: Seq<u8>, b: Seq<u8>, at: int) -> int {
    let red_green = if delta(a[at], b[at]) > delta(a[at + 1], b[at + 1]) {
        delta(a[at], b[at])
    } else {
        delta(a[at + 1], b[at + 1])
    };
    let blue_alpha = if delta(a[at + 2], b[at + 2]) > delta(a[at + 3], b[at + 3]) {
        delta(a[at + 2], b[at + 2])
    } else {
        delta(a[at + 3], b[at + 3])
    };
    if red_green > blue_alpha {
        red_green
    } else {
        blue_alpha
    }
}

/// The red of a heatmap pixel: four times the distance, as far as a byte goes.
pub open spec fn heat(d: int) -> u8 {
    if 4 * d > 255 {
        255
    } else {
        (4 * d) as u8
    }
}

/// How many whole pixels two images share.
pub open spec fn shared_pixels(a: Seq<u8>, b: Seq<u8>) -> int {
    if a.len() / 4 < b.len() / 4 {
        (a.len() / 4) as int
    } else {
        (b.len() / 4) as int
    }
}

/// The heatmap of two images: opaque grey by the largest channel distance of each pixel; blank
/// where the second image is shorter.
pub open spec fn heatmap_bytes(actual: Seq<u8>, golden: Seq<u8>) -> Seq<u8> {
    Seq::new(
        actual.len(),
        |k: int|
            if k / 4 >= shared_pixels(actual, golden) {
                0u8
            } else if k % 4 == 3 {
                255
            } else {
                heat(pixel_delta(actual, golden, 4 * (k / 4)))
            },
    )
}

fn larger(a: u8, b: u8) -> (r: u8)
    ensures
        r == if a > b {
            a
        } else {
            b
        },
{
    if a > b {
        a
    } else {
        b
    }
}

/// Draws the heatmap of two images.
pub fn heatmap(actual: &[u8], golden: &[u8]) -> (r: Vec<u8>)
    ensures
        r@ == heatmap_bytes(actual@, golden@),
{
    let ghost goal = heatmap_bytes(actual@, golden@);
    let n: usize = if actual.len() / 4 < golden.len() / 4 {
        actual.len() / 4
    } else {
        golden.len() / 4
    };
    let mut r: Vec<u8> = Vec::new();
    let mut i: usize = 0;
    while i < n
        invariant
            i <= n,
            n == shared_pixels(actual@, golden@),
            4 * n <= actual.len(),
            4 * n <= golden.len(),
            goal == heatmap_bytes(actual@, golden@),
            r@ == goal.take(4 * i),
        decreases n - i,
    {
        let red_green: u8 = larger(
            byte_delta(actual[4 * i], golden[4 * i]),
            byte_delta(actual[4 * i + 1], golden[4 * i + 1]),
        );
        let blue_alpha: u8 = larger(
            byte_delta(actual[4 * i + 2], golden[4 * i + 2]),
            byte_delta(actual[4 * i + 3], golden[4 * i + 3]),
        );
        let d: u8 = larger(red_green, blue_alpha);
        let amp: u8 = if d as u16 * 4 > 255 {
            255
        } else {
            d * 4
        };
        r.push(amp);
        r.push(amp);
        r.push(amp);
        r.push(255u8);
        i = i + 1;
        assert(r@ =~= goal.take(4 * i));
    }
    while r.len() < actual.len()
        invariant
            4 * n <= r@.len() <= actual@.len(),
            n == shared_pixels(actual@, golden@),
            goal == heatmap_bytes(actual@, golden@),
            r@ == goal.take(r@.len() as int),
        decreases actual@.len() - r@.len(),
    {
        r.push(0u8);
        assert(r@ =~= goal.take(r@.len() as int));
    }
    assert(r@ =~= goal);
    r
}

/// Whether an image of this size can be compared with a rendered frame.
pub fn is_target_size(width: u32, height: u32) -> (r: bool)
    ensures
        r == (width == TARGET_SIZE && height == TARGET_SIZE),
{
    width == TARGET_SIZE && height == TARGET_SIZE
}

/// The path of a golden image: the effect's directory and the frame's two-digit number.
pub open spec fn golden_file(goldens: Seq<char>, effect: Seq<char>, frame: u32) -> Seq<char> {
    joined(joined(goldens, effect), "frame_"@ + two_digits(frame as nat) + ".png"@)
}

/// The path of the golden image of an effect's frame.
pub fn golden_path(goldens_dir: &str, effect: &str, frame: u32) -> (r: String)
    ensures
        r@ == golden_file(goldens_dir@, effect@, frame),
{
    let mut name = "frame_".to_owned();
    name.append(two_digit_text(frame as u64).as_str());
    name.append(".png");
    let dir = join_path(goldens_dir, effect);
    join_path(dir.as_str(), name.as_str())
}

/// Start of the fingerprint.
pub const FINGERPRINT_START: u64 = 0xcbf29ce484222325;

/// Factor of the fingerprint.
pub const FINGERPRINT_FACTOR: u64 = 0x100000001b3;

/// The fingerprint of some bytes behind a start: each byte is mixed in by exclusive or and a
/// multiplication.
pub open spec fn fingerprint(start: u64, bytes: Seq<u8>) -> u64
    decreases bytes.len(),
{
    if bytes.len() == 0 {
        start
    } else {
        (fingerprint(start, bytes.drop_last()) ^ (bytes.last() as u64)).wrapping_mul(
            FINGERPRINT_FACTOR,
        )
    }
}

/// The bytes of some words, low byte first.
pub open spec fn le_bytes(words: Seq<u32>) -> Seq<u8> {
    crate::particle_renderer_bnsh::word_bytes(words)
}

/// The fingerprint of a simulation: its particles' values, each as the bits of a float, in order.
pub fn sim_fingerprint(words: &Vec<u32>) -> (r: u64)
    ensures
        r == fingerprint(FINGERPRINT_START, le_bytes(words@)),
{
    let bytes = crate::particle_renderer_bnsh::words_to_bytes(words);
    let mut h: u64 = FINGERPRINT_START;
    let mut i: usize = 0;
    assert(bytes@.take(0) =~= Seq::empty());
    while i < bytes.len()
        invariant
            i <= bytes.len(),
            h == fingerprint(FINGERPRINT_START, bytes@.take(i as int)),
        decreases bytes.len() - i,
    {
        assert(bytes@.take(i + 1).drop_last() =~= bytes@.take(i as int));
        h = (h ^ (bytes[i] as u64)).wrapping_mul(FINGERPRINT_FACTOR);
        i = i + 1;
    }
    assert(bytes@.take(bytes@.len() as int) =~= bytes@);
    h
}

/// One pass of a rendered frame: a draw path, whether the target is cleared before it, and its two
/// draws, each with whether trails are drawn and which billboards.
#[derive(Clone, Copy, Debug, PartialEq, Eq)]
pub struct FramePass {
    pub path: u32,
    pub clear: bool,
    pub first: (bool, BnshDrawFilter),
    pub second: (bool, BnshDrawFilter),
}

/// The passes of a rendered frame: one for each draw path, and only the first clears. What darkens
/// is drawn behind the rest, and trails are drawn once.
pub fn frame_passes(draw_paths: &[u32]) -> (r: Vec<FramePass>)
    ensures
        r@.len() == draw_paths@.len(),
        forall|i: int|
            0 <= i < r@.len() ==> #[trigger] r@[i] == (FramePass {
                path: draw_paths@[i],
                clear: i == 0,
                first: (true, BnshDrawFilter::ExcludeSub),
                second: (false, BnshDrawFilter::SubOnly),
            }),
{
    let mut r: Vec<FramePass> = Vec::new();
    let mut i: usize = 0;
    while i < draw_paths.len()
        invariant
            i <= draw_paths.len(),
            r@.len() == i,
            forall|k: int|
                0 <= k < i ==> #[trigger] r@[k] == (FramePass {
                    path: draw_paths@[k],
                    clear: k == 0,
                    first: (true, BnshDrawFilter::ExcludeSub),
                    second: (false, BnshDrawFilter::SubOnly),
                }),
        decreases draw_paths.len() - i,
    {
        r.push(
            FramePass {
                path: draw_paths[i],
                clear: i == 0,
                first: (true, BnshDrawFilter::ExcludeSub),
                second: (false, BnshDrawFilter::SubOnly),
            },
        );
        i = i + 1;
    }
    r
}

/// The distance of two bytes is that of their values.
pub proof fn law_a_distance_is_that_of_the_values(a: u8, b: u8)
    ensures
        delta(a, b) >= 0,
        delta(a, b) == a - b || delta(a, b) == b - a,
        delta(a, b) == 0 <==> a == b,
{
}

/// A pixel is visible where one of its colours is more than eight away from the background, which is
/// a dark blue; alpha does not matter. An image of which every pixel is near the background shows
/// nothing, one of which none is near it shows all of them.
pub proof fn law_only_what_is_off_the_background_is_visible(pixels: Seq<u8>, n: int)
    requires
        0 <= n,
    ensures
        0 <= visible_count(pixels, n) <= n,
        (forall|i: int| #![trigger pixels[4 * i]]
            0 <= i < n ==> 55 <= pixels[4 * i] <= 71 && 55 <= pixels[4 * i + 1] <= 71 && 81
                <= pixels[4 * i + 2] <= 97) ==> visible_count(pixels, n) == 0,
        (forall|i: int| #![trigger pixels[4 * i]]
            0 <= i < n ==> !(55 <= pixels[4 * i] <= 71 && 55 <= pixels[4 * i + 1] <= 71 && 81
                <= pixels[4 * i + 2] <= 97)) ==> visible_count(pixels, n) == n,
    decreases n,
{
    if n > 0 {
        law_only_what_is_off_the_background_is_visible(pixels, n - 1);
        let first = pixels[4 * (n - 1)];
    }
}

/// One more pixel adds one to those that are visible, or to those that changed, or nothing.
pub proof fn law_pixels_are_counted_one_by_one(a: Seq<u8>, b: Seq<u8>, n: int)
    requires
        0 <= n,
    ensures
        visible_count(a, n + 1) - visible_count(a, n) == (if 55 <= a[4 * n] <= 71 && 55 <= a[4 * n
            + 1] <= 71 && 81 <= a[4 * n + 2] <= 97 {
            0int
        } else {
            1
        }),
        changed_count(a, b, n + 1) - changed_count(a, b, n) == (if a[4 * n] == b[4 * n] && a[4 * n
            + 1] == b[4 * n + 1] && a[4 * n + 2] == b[4 * n + 2] && a[4 * n + 3] == b[4 * n + 3] {
            0int
        } else {
            1
        }),
{
}

/// No pixel changed exactly where the two images hold the same bytes.
pub proof fn law_no_change_means_the_same_pixels(a: Seq<u8>, b: Seq<u8>, n: int)
    requires
        0 <= n,
        4 * n <= a.len(),
        4 * n <= b.len(),
    ensures
        0 <= changed_count(a, b, n) <= n,
        changed_count(a, b, n) == 0 <==> a.take(4 * n) == b.take(4 * n),
    decreases n,
{
    if n > 0 {
        law_no_change_means_the_same_pixels(a, b, n - 1);
        let at = 4 * (n - 1);
        if changed_count(a, b, n) == 0 {
            assert forall|k: int| 0 <= k < 4 * n implies a[k] == b[k] by {
                if k < at {
                    assert(a.take(at)[k] == b.take(at)[k]);
                } else {
                    assert(k == at || k == at + 1 || k == at + 2 || k == at + 3);
                }
            }
            assert(a.take(4 * n) =~= b.take(4 * n));
        }
        if a.take(4 * n) == b.take(4 * n) {
            assert(a.take(at) =~= a.take(4 * n).take(at));
            assert(b.take(at) =~= b.take(4 * n).take(at));
            assert(a.take(4 * n)[at] == b.take(4 * n)[at]);
            assert(a.take(4 * n)[at + 1] == b.take(4 * n)[at + 1]);
            assert(a.take(4 * n)[at + 2] == b.take(4 * n)[at + 2]);
            assert(a.take(4 * n)[at + 3] == b.take(4 * n)[at + 3]);
        }
    } else {
        assert(a.take(0) =~= b.take(0));
    }
}

/// The largest distance bounds that of every byte, and is the distance of one of them.
pub proof fn law_the_largest_distance_is_the_largest(a: Seq<u8>, b: Seq<u8>, n: int)
    requires
        0 <= n,
    ensures
        forall|i: int|
            0 <= i < n ==> -largest(a, b, n) <= (#[trigger] a[i]) - b[i] <= largest(a, b, n),
        largest(a, b, n) >= 0,
        largest(a, b, n) > 0 ==> exists|i: int|
            0 <= i < n && ((#[trigger] a[i]) - b[i] == largest(a, b, n) || b[i] - a[i] == largest(
                a,
                b,
                n,
            )),
    decreases n,
{
    if n > 0 {
        law_the_largest_distance_is_the_largest(a, b, n - 1);
        if delta(a[n - 1], b[n - 1]) <= largest(a, b, n - 1) && largest(a, b, n) > 0 {
            let i = choose|i: int|
                0 <= i < n - 1 && ((#[trigger] a[i]) - b[i] == largest(a, b, n - 1) || b[i] - a[i]
                    == largest(a, b, n - 1));
            assert(0 <= i < n);
        }
    }
}

/// One more byte adds its distance, and one more pixel the square of the distance of its channel.
pub proof fn law_distances_add_up(a: Seq<u8>, b: Seq<u8>, c: int, n: int)
    requires
        0 <= n,
    ensures
        distances(a, b, n + 1) - distances(a, b, n) == a[n] - b[n] || distances(a, b, n + 1)
            - distances(a, b, n) == b[n] - a[n],
        distances(a, b, n) <= distances(a, b, n + 1),
        squares(a, b, c, n + 1) - squares(a, b, c, n) == (a[4 * n + c] - b[4 * n + c]) * (a[4 * n
            + c] - b[4 * n + c]),
{
    let x = a[4 * n + c];
    let y = b[4 * n + c];
    assert((x - y) * (x - y) == (y - x) * (y - x)) by (nonlinear_arith);
}

/// A heatmap is as red, as green and as blue as four times the largest distance of a pixel's
/// channels, as far as a byte goes; so it is black where nothing changed. It is opaque where both
/// images have the pixel, and blank where one has not.
pub proof fn law_a_heatmap_shows_the_largest_distance(actual: Seq<u8>, golden: Seq<u8>, i: int)
    requires
        0 <= i,
        4 * i + 3 < actual.len(),
    ensures
        ({
            let map = heatmap_bytes(actual, golden);
            let red = map[4 * i] as int;
            &&& map.len() == actual.len()
            &&& map[4 * i + 1] == red && map[4 * i + 2] == red
            &&& 4 * i + 3 < golden.len() ==> map[4 * i + 3] == 255 && forall|c: int|
                0 <= c < 4 && red < 255 ==> -red <= 4 * (#[trigger] actual[4 * i + c] - golden[4 * i
                    + c]) <= red
            &&& 4 * i + 3 < golden.len() && red > 0 ==> exists|c: int|
                0 <= c < 4 && (4 * (#[trigger] actual[4 * i + c] - golden[4 * i + c]) >= red || 4
                    * (golden[4 * i + c] - actual[4 * i + c]) >= red)
            &&& 4 * i + 3 >= golden.len() ==> red == 0 && map[4 * i + 3] == 0
        }),
{
    let map = heatmap_bytes(actual, golden);
    let red = map[4 * i] as int;
    assert((4 * i) / 4 == i && (4 * i + 1) / 4 == i && (4 * i + 2) / 4 == i && (4 * i + 3) / 4
        == i);
    if 4 * i + 3 < golden.len() {
        assert(i < shared_pixels(actual, golden));
        let d = pixel_delta(actual, golden, 4 * i);
        assert(red == heat(d));
        assert forall|c: int| 0 <= c < 4 && red < 255 implies -red <= 4 * (#[trigger] actual[4 * i
            + c] - golden[4 * i + c]) <= red by {
            assert(c == 0 || c == 1 || c == 2 || c == 3);
        }
        if red > 0 {
            let c: int = if delta(actual[4 * i], golden[4 * i]) == d {
                0
            } else if delta(actual[4 * i + 1], golden[4 * i + 1]) == d {
                1
            } else if delta(actual[4 * i + 2], golden[4 * i + 2]) == d {
                2
            } else {
                3
            };
            assert(delta(actual[4 * i + c], golden[4 * i + c]) == d);
        }
    }
}

/// A fingerprint of more bytes goes on where that of the first ones ended, and one byte is mixed in
/// by exclusive or before the multiplication.
pub proof fn law_a_fingerprint_goes_on(start: u64, a: Seq<u8>, b: Seq<u8>)
    ensures
        fingerprint(start, a + b) == fingerprint(fingerprint(start, a), b),
        a.len() == 1 ==> fingerprint(start, a) == (start ^ (a[0] as u64)).wrapping_mul(
            0x100000001b3,
        ),
    decreases b.len(),
{
    if a.len() == 1 {
        reveal_with_fuel(fingerprint, 2);
        assert(a.drop_last() =~= Seq::empty());
    }
    if b.len() == 0 {
        assert(a + b =~= a);
    } else {
        law_a_fingerprint_goes_on(start, a, b.drop_last());
        assert((a + b).drop_last() =~= a + b.drop_last());
        assert((a + b).last() == b.last());
    }
}

/// Each path of a frame is drawn in two passes, its own draws with the trails first and its Sub
/// draws alone second; only the first path clears.
pub proof fn law_only_the_first_path_clears(draw_paths: &[u32], r: Vec<FramePass>, i: int)
    requires
        call_ensures(frame_passes, (draw_paths,), r),
        0 <= i < draw_paths@.len(),
    ensures
        r@.len() == draw_paths@.len(),
        r@[i].path == draw_paths@[i],
        r@[i].clear <==> i == 0,
        r@[i].first == (true, BnshDrawFilter::ExcludeSub),
        r@[i].second == (false, BnshDrawFilter::SubOnly),
{
    let pass = r@[i];
}

} // verus!
