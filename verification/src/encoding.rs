//! The two ways a Radiance file stores its pixels, run-length scanlines and
//! uncompressed pixels, and the laws that the decoder reads each of them
//! back as the pixels it stores.
use vstd::prelude::*;
use vstd::arithmetic::div_mod::{lemma_div_is_ordered, lemma_fundamental_div_mod, lemma_mod_bound};
use crate::hdr::{
    HdrError, Rgbe, RowsOutcome, flat_pixels, pixel_stream, prepend_rows, rle_channel, rle_rows,
    rle_scanline,
};

verus! {

/// `values` stored as literal runs of at most 128 values each.
pub open spec fn literal_runs(values: Seq<u8>) -> Seq<u8>
    decreases values.len(),
{
    if values.len() == 0 {
        Seq::empty()
    } else {
        let n: int = if values.len() < 128 {
            values.len() as int
        } else {
            128
        };
        seq![n as u8] + values.take(n) + literal_runs(values.skip(n))
    }
}

/// `n` copies of `value` stored as repeat runs of at most 127 copies each.
pub open spec fn repeat_runs(value: u8, n: nat) -> Seq<u8>
    decreases n,
{
    if n == 0 {
        Seq::empty()
    } else {
        let k: nat = if n < 127 {
            n
        } else {
            127
        };
        seq![(128 + k) as u8, value] + repeat_runs(value, (n - k) as nat)
    }
}

/// One channel of a row of pixels: 0 red, 1 green, 2 blue, 3 exponent.
pub open spec fn channel(row: Seq<Rgbe>, c: int) -> Seq<u8> {
    Seq::new(
        row.len(),
        |x: int|
            if c == 0 {
                row[x].0
            } else if c == 1 {
                row[x].1
            } else if c == 2 {
                row[x].2
            } else {
                row[x].3
            },
    )
}

/// A row stored as a run-length scanline: the marker 2, 2, width (big
/// endian), then each channel as literal runs.
pub open spec fn rle_row_bytes(row: Seq<Rgbe>) -> Seq<u8> {
    seq![2u8, 2u8, (row.len() / 256) as u8, (row.len() % 256) as u8] + literal_runs(
        channel(row, 0),
    ) + literal_runs(channel(row, 1)) + literal_runs(channel(row, 2)) + literal_runs(
        channel(row, 3),
    )
}

/// Rows stored one run-length scanline after the other.
pub open spec fn rle_image_bytes(rows: Seq<Seq<Rgbe>>) -> Seq<u8>
    decreases rows.len(),
{
    if rows.len() == 0 {
        Seq::empty()
    } else {
        rle_row_bytes(rows[0]) + rle_image_bytes(rows.drop_first())
    }
}

/// Pixels stored uncompressed, four bytes each.
pub open spec fn flat_bytes(pixels: Seq<Rgbe>) -> Seq<u8>
    decreases pixels.len(),
{
    if pixels.len() == 0 {
        Seq::empty()
    } else {
        seq![pixels[0].0, pixels[0].1, pixels[0].2, pixels[0].3] + flat_bytes(pixels.drop_first())
    }
}

/// A piece of `b` that equals `x + y` splits into a piece equal to `x`
/// followed by a piece equal to `y`.
proof fn lemma_subrange_split(b: Seq<u8>, a: int, x: Seq<u8>, y: Seq<u8>)
    requires
        0 <= a,
        a + x.len() + y.len() <= b.len(),
        b.subrange(a, a + x.len() + y.len()) == x + y,
    ensures
        b.subrange(a, a + x.len()) == x,
        b.subrange(a + x.len(), a + x.len() + y.len()) == y,
{
    assert forall|i: int| 0 <= i < x.len() implies b.subrange(a, a + x.len())[i] == x[i] by {
        assert(b.subrange(a, a + x.len() + y.len())[i] == (x + y)[i]);
    }
    assert forall|i: int| 0 <= i < y.len() implies b.subrange(
        a + x.len(),
        a + x.len() + y.len(),
    )[i] == y[i] by {
        let j = x.len() + i;
        assert(b.subrange(a, a + x.len() + y.len())[j] == (x + y)[j]);
        assert(b.subrange(a, a + x.len() + y.len())[j] == b[a + j]);
        assert((x + y)[j] == y[i]);
        assert(b.subrange(a + x.len(), a + x.len() + y.len())[i] == b[a + j]);
    }
    assert(b.subrange(a, a + x.len()) =~= x);
    assert(b.subrange(a + x.len(), a + x.len() + y.len()) =~= y);
}

/// A channel stored as literal runs decodes to its values and ends right
/// after the runs.
pub proof fn lemma_literal_runs_channel(b: Seq<u8>, offset: int, values: Seq<u8>, x: int)
    requires
        0 <= offset,
        0 <= x,
        offset + literal_runs(values).len() <= b.len(),
        b.subrange(offset, offset + literal_runs(values).len()) == literal_runs(values),
    ensures
        rle_channel(b, offset, x + values.len(), x) == Ok::<(Seq<u8>, int), HdrError>(
            (values, offset + literal_runs(values).len()),
        ),
    decreases values.len(),
{
    if values.len() == 0 {
        assert(values =~= Seq::<u8>::empty());
    } else {
        let n: int = if values.len() < 128 {
            values.len() as int
        } else {
            128
        };
        let rest = values.skip(n);
        let head = seq![n as u8] + values.take(n);
        let tail = literal_runs(rest);
        assert(literal_runs(values) == head + tail);
        lemma_subrange_split(b, offset, head, tail);
        lemma_subrange_split(b, offset, seq![n as u8], values.take(n));
        assert(b.subrange(offset, offset + 1)[0] == b[offset]);
        assert(b[offset] == n as u8);
        lemma_literal_runs_channel(b, offset + 1 + n, rest, x + n);
        assert(values.take(n) + rest =~= values);
    }
}

/// A channel of `n` copies of `value` stored as repeat runs decodes to
/// those `n` copies and ends right after the runs.
pub proof fn lemma_repeat_runs_channel(b: Seq<u8>, offset: int, value: u8, n: nat, x: int)
    requires
        0 <= offset,
        0 <= x,
        offset + repeat_runs(value, n).len() <= b.len(),
        b.subrange(offset, offset + repeat_runs(value, n).len()) == repeat_runs(value, n),
    ensures
        rle_channel(b, offset, x + n, x) == Ok::<(Seq<u8>, int), HdrError>(
            (Seq::new(n, |i: int| value), offset + repeat_runs(value, n).len()),
        ),
    decreases n,
{
    if n == 0 {
        assert(Seq::new(0, |i: int| value) =~= Seq::<u8>::empty());
    } else {
        let k: nat = if n < 127 {
            n
        } else {
            127
        };
        let head = seq![(128 + k) as u8, value];
        let tail = repeat_runs(value, (n - k) as nat);
        assert(repeat_runs(value, n) == head + tail);
        lemma_subrange_split(b, offset, head, tail);
        assert(b.subrange(offset, offset + 2)[0] == b[offset]);
        assert(b.subrange(offset, offset + 2)[1] == b[offset + 1]);
        assert(b[offset] == 128 + k);
        lemma_repeat_runs_channel(b, offset + 2, value, (n - k) as nat, x + k);
        assert(Seq::new(k, |i: int| b[offset + 1]) + Seq::new((n - k) as nat, |i: int| value)
            =~= Seq::new(n, |i: int| value));
    }
}

/// A row stored as a run-length scanline starts with its marker and decodes
/// to the row, ending right after it.
proof fn lemma_rle_row_scanline(b: Seq<u8>, offset: int, row: Seq<Rgbe>)
    requires
        0 <= offset,
        row.len() <= 0x7fff,
        offset + rle_row_bytes(row).len() <= b.len(),
        b.subrange(offset, offset + rle_row_bytes(row).len()) == rle_row_bytes(row),
    ensures
        b[offset] == 2,
        b[offset + 1] == 2,
        b[offset + 2] as int * 256 + b[offset + 3] as int == row.len(),
        rle_scanline(b, offset + 4, row.len() as int) == Ok::<(Seq<Rgbe>, int), HdrError>(
            (row, offset + rle_row_bytes(row).len()),
        ),
{
    let w = row.len() as int;
    let marker = seq![2u8, 2u8, (w / 256) as u8, (w % 256) as u8];
    let l0 = literal_runs(channel(row, 0));
    let l1 = literal_runs(channel(row, 1));
    let l2 = literal_runs(channel(row, 2));
    let l3 = literal_runs(channel(row, 3));
    lemma_subrange_split(b, offset, marker + l0 + l1 + l2, l3);
    lemma_subrange_split(b, offset, marker + l0 + l1, l2);
    lemma_subrange_split(b, offset, marker + l0, l1);
    lemma_subrange_split(b, offset, marker, l0);
    assert(b.subrange(offset, offset + 4)[0] == b[offset]);
    assert(b.subrange(offset, offset + 4)[1] == b[offset + 1]);
    assert(b.subrange(offset, offset + 4)[2] == b[offset + 2]);
    assert(b.subrange(offset, offset + 4)[3] == b[offset + 3]);
    lemma_fundamental_div_mod(w, 256);
    lemma_mod_bound(w, 256);
    lemma_div_is_ordered(0, w, 256);
    lemma_div_is_ordered(w, 0x7fff, 256);
    assert(0x7fffint / 256 == 127);
    let o0 = offset + 4;
    let o1 = o0 + l0.len();
    let o2 = o1 + l1.len();
    let o3 = o2 + l2.len();
    lemma_literal_runs_channel(b, o0, channel(row, 0), 0);
    lemma_literal_runs_channel(b, o1, channel(row, 1), 0);
    lemma_literal_runs_channel(b, o2, channel(row, 2), 0);
    lemma_literal_runs_channel(b, o3, channel(row, 3), 0);
    let c0 = channel(row, 0);
    let c1 = channel(row, 1);
    let c2 = channel(row, 2);
    let c3 = channel(row, 3);
    assert(Seq::new(w as nat, |x: int| (c0[x], c1[x], c2[x], c3[x])) =~= row);
}

/// Rows stored as run-length scanlines from `offset` on decode, from row
/// `y` to the last, to the concatenation of the rows.
proof fn lemma_rle_rows_decode(
    b: Seq<u8>,
    offset: int,
    rows: Seq<Seq<Rgbe>>,
    width: int,
    height: int,
    y: int,
)
    requires
        8 <= width <= 0x7fff,
        0 <= offset,
        0 <= y,
        rows.len() == height - y,
        forall|i: int| 0 <= i < rows.len() ==> #[trigger] rows[i].len() == width,
        offset + rle_image_bytes(rows).len() <= b.len(),
        b.subrange(offset, offset + rle_image_bytes(rows).len()) == rle_image_bytes(rows),
    ensures
        rle_rows(b, offset, width, height, y) == RowsOutcome::Done(rows.flatten()),
    decreases rows.len(),
{
    if rows.len() == 0 {
    } else {
        let row = rows[0];
        let rest = rows.drop_first();
        let r = rle_row_bytes(row);
        let t = rle_image_bytes(rest);
        assert(rle_image_bytes(rows) == r + t);
        lemma_subrange_split(b, offset, r, t);
        assert(row.len() == width);
        lemma_rle_row_scanline(b, offset, row);
        assert(forall|i: int| 0 <= i < rest.len() ==> #[trigger] rest[i] == rows[i + 1]);
        lemma_rle_rows_decode(b, offset + r.len(), rest, width, height, y + 1);
    }
}

/// Rows stored as run-length scanlines, each channel as literal runs,
/// decode to the pixels of the rows, top row first.
pub proof fn lemma_rle_scanlines_decode(rows: Seq<Seq<Rgbe>>, width: int)
    requires
        8 <= width <= 0x7fff,
        forall|y: int| 0 <= y < rows.len() ==> #[trigger] rows[y].len() == width,
    ensures
        pixel_stream(rle_image_bytes(rows), 0, width, rows.len() as int) == Ok::<
            Seq<Rgbe>,
            HdrError,
        >(rows.flatten()),
{
    let b = rle_image_bytes(rows);
    assert(b.subrange(0, b.len() as int) =~= b);
    lemma_rle_rows_decode(b, 0, rows, width, rows.len() as int, 0);
}

/// The bytes of uncompressed pixels: four per pixel, in order.
proof fn lemma_flat_bytes_index(pixels: Seq<Rgbe>)
    ensures
        flat_bytes(pixels).len() == 4 * pixels.len(),
        forall|p: int|
            0 <= p < pixels.len() ==> (
            #[trigger] pixels[p]) == (
                flat_bytes(pixels)[4 * p],
                flat_bytes(pixels)[4 * p + 1],
                flat_bytes(pixels)[4 * p + 2],
                flat_bytes(pixels)[4 * p + 3],
            ),
    decreases pixels.len(),
{
    if pixels.len() > 0 {
        let rest = pixels.drop_first();
        lemma_flat_bytes_index(rest);
        let head = seq![pixels[0].0, pixels[0].1, pixels[0].2, pixels[0].3];
        assert(flat_bytes(pixels) == head + flat_bytes(rest));
        assert forall|p: int| 0 <= p < pixels.len() implies (#[trigger] pixels[p]) == (
            flat_bytes(pixels)[4 * p],
            flat_bytes(pixels)[4 * p + 1],
            flat_bytes(pixels)[4 * p + 2],
            flat_bytes(pixels)[4 * p + 3],
        ) by {
            if p > 0 {
                assert(pixels[p] == rest[p - 1]);
            }
        }
    }
}

/// Whether the first pixel of `pixels` reads as a run-length scanline
/// marker for `width`.
pub open spec fn starts_like_scanline(pixels: Seq<Rgbe>, width: int) -> bool {
    &&& pixels.len() > 0
    &&& pixels[0].0 == 2
    &&& pixels[0].1 == 2
    &&& pixels[0].2 as int * 256 + pixels[0].3 as int == width
}

/// Uncompressed pixels decode to themselves, in file order.  The one
/// exception: where the width allows run-length scanlines, data whose first
/// pixel reads as a scanline marker is taken for run-length data.
pub proof fn lemma_flat_pixels_decode(pixels: Seq<Rgbe>, width: int, height: int)
    requires
        0 <= width,
        0 <= height,
        pixels.len() == width * height,
        !(8 <= width <= 0x7fff && starts_like_scanline(pixels, width)),
    ensures
        pixel_stream(flat_bytes(pixels), 0, width, height) == Ok::<Seq<Rgbe>, HdrError>(pixels),
{
    lemma_flat_bytes_index(pixels);
    let b = flat_bytes(pixels);
    assert(flat_pixels(b, 0, width, height) == Ok::<Seq<Rgbe>, HdrError>(pixels)) by {
        let s = Seq::new(
            (width * height) as nat,
            |p: int| (b[0 + 4 * p], b[0 + 4 * p + 1], b[0 + 4 * p + 2], b[0 + 4 * p + 3]),
        );
        assert(s =~= pixels);
    }
    if 8 <= width <= 0x7fff && height > 0 {
        assert(width * height >= 1) by (nonlinear_arith)
            requires
                width >= 8,
                height >= 1,
        ;
        assert(pixels[0] == (b[0], b[1], b[2], b[3]));
        assert(rle_rows(b, 0, width, height, 0) == RowsOutcome::Fallback(0));
    }
    if height == 0 {
        assert(pixels =~= Seq::<Rgbe>::empty());
    }
}

/// `height` rows of `width` pixels hold `width * height` pixels.
proof fn lemma_flatten_len(rows: Seq<Seq<Rgbe>>, width: int)
    requires
        forall|y: int| 0 <= y < rows.len() ==> #[trigger] rows[y].len() == width,
    ensures
        rows.flatten().len() == width * rows.len(),
    decreases rows.len(),
{
    if rows.len() > 0 {
        let rest = rows.drop_first();
        assert(forall|i: int| 0 <= i < rest.len() ==> #[trigger] rest[i] == rows[i + 1]);
        lemma_flatten_len(rest, width);
        assert(width * rows.len() == width + width * rest.len()) by (nonlinear_arith)
            requires
                rows.len() == rest.len() + 1,
        ;
    }
}

/// An image decodes to the same pixels whether its rows are stored as
/// run-length scanlines or uncompressed, unless the uncompressed data starts
/// with a pixel that reads as a scanline marker.
pub proof fn lemma_storage_forms_agree(rows: Seq<Seq<Rgbe>>, width: int)
    requires
        8 <= width <= 0x7fff,
        forall|y: int| 0 <= y < rows.len() ==> #[trigger] rows[y].len() == width,
        !starts_like_scanline(rows.flatten(), width),
    ensures
        pixel_stream(rle_image_bytes(rows), 0, width, rows.len() as int) == pixel_stream(
            flat_bytes(rows.flatten()),
            0,
            width,
            rows.len() as int,
        ),
{
    lemma_rle_scanlines_decode(rows, width);
    lemma_flatten_len(rows, width);
    lemma_flat_pixels_decode(rows.flatten(), width, rows.len() as int);
}

} // verus!
