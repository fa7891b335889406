//! Gamma correction of UI images, by a table of the corrected values.

use vstd::prelude::*;

verus! {

/// A pixel row in which the colours are corrected; every fourth byte is an alpha and stays.
pub open spec fn corrected(pixels: Seq<u8>, table: Seq<u8>) -> Seq<u8> {
    pixels.map(
        |i: int, v: u8|
            if i % 4 == 3 {
                v
            } else {
                table[v as int]
            },
    )
}

/// Corrects the colours of an image; alpha stays. `table` holds the corrected value of each byte.
pub fn apply_gamma(pixels: &mut Vec<u8>, table: &Vec<u8>)
    requires
        table@.len() == 256,
    ensures
        final(pixels)@ == corrected(old(pixels)@, table@),
{
    let ghost was = pixels@;
    let mut i: usize = 0;
    while i < pixels.len()
        invariant
            i <= pixels.len(),
            pixels@.len() == was.len(),
            table@.len() == 256,
            forall|j: int| 0 <= j < i ==> #[trigger] pixels@[j] == corrected(was, table@)[j],
            forall|j: int| i <= j < was.len() ==> #[trigger] pixels@[j] == was[j],
        decreases pixels.len() - i,
    {
        if i % 4 != 3 {
            let value: u8 = table[pixels[i] as usize];
            pixels.set(i, value);
        }
        i = i + 1;
    }
    assert(pixels@ =~= corrected(was, table@));
}

/// A corrected copy of an image.
pub fn gamma_corrected(pixels: &Vec<u8>, table: &Vec<u8>) -> (r: Vec<u8>)
    requires
        table@.len() == 256,
    ensures
        r@ == corrected(pixels@, table@),
{
    let mut r: Vec<u8> = Vec::new();
    let mut i: usize = 0;
    while i < pixels.len()
        invariant
            i <= pixels.len(),
            r@ == pixels@.take(i as int),
        decreases pixels.len() - i,
    {
        r.push(pixels[i]);
        assert(pixels@.take(i + 1) =~= pixels@.take(i as int).push(pixels@[i as int]));
        i = i + 1;
    }
    assert(pixels@.take(pixels@.len() as int) =~= pixels@);
    apply_gamma(&mut r, table);
    r
}

/// Correction keeps the size of an image and every alpha.
pub proof fn law_alpha_is_preserved(pixels: Seq<u8>, table: Seq<u8>)
    ensures
        corrected(pixels, table).len() == pixels.len(),
        forall|i: int|
            0 <= i < pixels.len() && i % 4 == 3 ==> #[trigger] corrected(pixels, table)[i]
                == pixels[i],
{
}

/// A table undoes another exactly where it takes each of its values back.
pub proof fn law_a_table_can_be_undone(pixels: Seq<u8>, table: Seq<u8>, back: Seq<u8>)
    requires
        forall|v: u8| back[#[trigger] table[v as int] as int] == v,
    ensures
        corrected(corrected(pixels, table), back) == pixels,
{
    assert(corrected(corrected(pixels, table), back) =~= pixels);
}

/// Every colour of every pixel is what the table gives for it; red, green and blue alike.
pub proof fn law_every_colour_is_looked_up(pixels: Seq<u8>, table: Seq<u8>, i: int)
    requires
        0 <= i,
        4 * i + 3 < pixels.len(),
    ensures
        corrected(pixels, table)[4 * i] == table[pixels[4 * i] as int],
        corrected(pixels, table)[4 * i + 1] == table[pixels[4 * i + 1] as int],
        corrected(pixels, table)[4 * i + 2] == table[pixels[4 * i + 2] as int],
        corrected(pixels, table)[4 * i + 3] == pixels[4 * i + 3],
{
}

} // verus!
