//! Cubemap faces: the byte layout of a face texture and reading a pixel of
//! an RGBA image.
use vstd::prelude::*;
use crate::hdr::{
    Rgbe, lemma_grid_index, lemma_grid_index_distinct, pixel_offset, rgbe_at, store_hdr_pixel,
};

verus! {

/// The side of a face texture: the requested size, at least one pixel.
pub open spec fn face_side(face_size: u32) -> int {
    if face_size == 0 {
        1
    } else {
        face_size as int
    }
}

/// A face is as many pixels a side as asked for, and one pixel when asked
/// for none.
pub proof fn lemma_face_side(face_size: u32)
    ensures
        face_size >= 1 ==> face_side(face_size) == face_size,
        face_size == 0 ==> face_side(face_size) == 1,
{
}

/// The four bytes of pixel `(x, y)` of a row-major RGBA image that is
/// `width` pixels wide.
pub fn fetch_rgba(source: &[u8], width: usize, x: usize, y: usize) -> (r: [u8; 4])
    requires
        pixel_offset(width as int, x as int, y as int) + 4 <= source@.len(),
    ensures
        r@ == source@.subrange(
            pixel_offset(width as int, x as int, y as int),
            pixel_offset(width as int, x as int, y as int) + 4,
        ),
{
    let n = source.len();
    assert(0 <= y * width) by (nonlinear_arith)
        requires
            0 <= y,
            0 <= width,
    ;
    let idx = (y * width + x) * 4;
    let r = [source[idx], source[idx + 1], source[idx + 2], source[idx + 3]];
    assert(r@ =~= source@.subrange(idx as int, idx + 4));
    r
}

/// The pixels of one cubemap face, `side` x `side` with
/// `side = max(face_size, 1)`, four bytes each, row by row: pixel `(x, y)`
/// is what `sample(x, y, side)` gives.
pub fn generate_cubemap_face_pixels<F: Fn(usize, usize, usize) -> Rgbe>(
    face_size: u32,
    sample: F,
) -> (pixels: Vec<u8>)
    requires
        face_side(face_size) * face_side(face_size) * 4 <= usize::MAX,
        forall|x: usize, y: usize|
            x < face_side(face_size) && y < face_side(face_size) ==> #[trigger] call_requires(
                sample,
                (x, y, face_side(face_size) as usize),
            ),
    ensures
        pixels@.len() == face_side(face_size) * face_side(face_size) * 4,
        forall|x: usize, y: usize|
            x < face_side(face_size) && y < face_side(face_size) ==> call_ensures(
                sample,
                (x, y, face_side(face_size) as usize),
                #[trigger] rgbe_at(pixels@, face_side(face_size), x as int, y as int),
            ),
        face_size >= 1 ==> pixels@.len() == face_size * face_size * 4,
        face_size == 0 ==> pixels@.len() == 4,
        face_size >= 1 ==> forall|x: usize, y: usize|
            x < face_size && y < face_size ==> call_ensures(
                sample,
                (x, y, face_size as usize),
                #[trigger] rgbe_at(pixels@, face_size as int, x as int, y as int),
            ),
        face_size == 0 ==> call_ensures(sample, (0usize, 0usize, 1usize), rgbe_at(pixels@, 1, 0, 0)),
{
    let size: usize = if face_size == 0 {
        1
    } else {
        face_size as usize
    };
    let ghost n = size as int;
    let mut pixels: Vec<u8> = vec![0u8; size * size * 4];
    let mut y: usize = 0;
    while y < size
        invariant
            n == size,
            n == face_side(face_size),
            y <= size,
            size * size * 4 <= usize::MAX,
            pixels@.len() == size * size * 4,
            forall|sx: usize, sy: usize|
                sx < size && sy < size ==> #[trigger] call_requires(sample, (sx, sy, size)),
            forall|sx: usize, sy: usize|
                sx < size && sy < y ==> call_ensures(
                    sample,
                    (sx, sy, size),
                    #[trigger] rgbe_at(pixels@, n, sx as int, sy as int),
                ),
        decreases size - y,
    {
        let mut x: usize = 0;
        while x < size
            invariant
                n == size,
                y < size,
                x <= size,
                size * size * 4 <= usize::MAX,
                pixels@.len() == size * size * 4,
                forall|sx: usize, sy: usize|
                    sx < size && sy < size ==> #[trigger] call_requires(sample, (sx, sy, size)),
                forall|sx: usize, sy: usize|
                    (sx < size && sy < y) || (sx < x && sy == y) ==> call_ensures(
                        sample,
                        (sx, sy, size),
                        #[trigger] rgbe_at(pixels@, n, sx as int, sy as int),
                    ),
            decreases size - x,
        {
            let texel = sample(x, y, size);
            proof {
                lemma_grid_index(n, n, x as int, y as int);
            }
            let ghost before = pixels@;
            store_hdr_pixel(&mut pixels, size, x, y, texel);
            proof {
                assert forall|sx: usize, sy: usize|
                    (sx < size && sy < y) || (sx < x && sy == y) implies #[trigger] rgbe_at(
                    pixels@,
                    n,
                    sx as int,
                    sy as int,
                ) == rgbe_at(before, n, sx as int, sy as int) by {
                    lemma_grid_index(n, n, sx as int, sy as int);
                    lemma_grid_index_distinct(n, sx as int, sy as int, x as int, y as int);
                }
            }
            x += 1;
        }
        y += 1;
    }
    pixels
}

/// Reading a pixel of a face back with `fetch_rgba` gives the texel that
/// `generate_cubemap_face_pixels` placed there.
pub proof fn lemma_fetch_reads_texel(pixels: Seq<u8>, width: int, x: int, y: int)
    requires
        0 <= pixel_offset(width, x, y),
        pixel_offset(width, x, y) + 4 <= pixels.len(),
    ensures
        pixels.subrange(pixel_offset(width, x, y), pixel_offset(width, x, y) + 4) == seq![
            rgbe_at(pixels, width, x, y).0,
            rgbe_at(pixels, width, x, y).1,
            rgbe_at(pixels, width, x, y).2,
            rgbe_at(pixels, width, x, y).3,
        ],
{
    let o = pixel_offset(width, x, y);
    assert(pixels.subrange(o, o + 4) =~= seq![pixels[o], pixels[o + 1], pixels[o + 2], pixels[o + 3]]);
}

} // verus!
