//! Radiance (`.hdr`) images: pixel orientation, pixel layout and the
//! decoding of the pixel stream that follows the header.
use vstd::prelude::*;
use crate::header::{parse_hdr_header, radiance_header};
use vstd::arithmetic::div_mod::{
    lemma_div_pos_is_pos, lemma_fundamental_div_mod, lemma_mod_bound, lemma_multiply_divide_lt,
};

verus! {

/// One pixel in the shared-exponent encoding: red, green, blue mantissas and
/// the common exponent byte.
pub type Rgbe = (u8, u8, u8, u8);

/// Why a Radiance byte stream could not be decoded.
#[derive(Clone, Copy, Debug, PartialEq, Eq, Structural)]
pub enum HdrError {
    /// The header ended before its resolution line.
    UnexpectedEndOfHeader,
    /// A header line is not valid UTF-8.
    HeaderNotUtf8,
    /// The resolution line does not hold exactly four tokens.
    InvalidResolutionLine,
    /// A resolution value is not a decimal number that fits a `usize`.
    InvalidResolutionNumber,
    /// A resolution axis token has neither `X` nor `Y` as its second character.
    InvalidAxisToken,
    /// The resolution line names no width.
    MissingWidth,
    /// The resolution line names no height.
    MissingHeight,
    /// A run-length scanline has no room for its four-byte marker.
    UnexpectedEndOfData,
    /// A run-length scanline ends before all of its values.
    UnexpectedEndOfScanline,
    /// A repeat run is cut off or overruns the scanline.
    InvalidRleRun,
    /// A literal run is empty, cut off or overruns the scanline.
    InvalidLiteralRun,
    /// Uncompressed pixel data ends before the last pixel.
    UnexpectedEndOfFlatData,
}

impl HdrError {
    /// The text that reports this error.
    pub fn message(&self) -> (r: &'static str)
        ensures
            *self == HdrError::UnexpectedEndOfHeader ==> r@ == "unexpected end of HDR header"@,
            *self == HdrError::HeaderNotUtf8 ==> r@ == "HDR header is not valid UTF-8"@,
            *self == HdrError::InvalidResolutionLine ==> r@ == "invalid HDR resolution line"@,
            *self == HdrError::InvalidResolutionNumber ==> r@ == "invalid HDR resolution number"@,
            *self == HdrError::InvalidAxisToken ==> r@ == "invalid HDR axis token"@,
            *self == HdrError::MissingWidth ==> r@ == "missing HDR width"@,
            *self == HdrError::MissingHeight ==> r@ == "missing HDR height"@,
            *self == HdrError::UnexpectedEndOfData ==> r@ == "unexpected end of HDR data"@,
            *self == HdrError::UnexpectedEndOfScanline ==> r@ == "unexpected end of HDR scanline"@,
            *self == HdrError::InvalidRleRun ==> r@ == "invalid HDR RLE run"@,
            *self == HdrError::InvalidLiteralRun ==> r@ == "invalid HDR literal run"@,
            *self == HdrError::UnexpectedEndOfFlatData ==> r@ == "unexpected end of flat HDR data"@,
    {
        match self {
            HdrError::UnexpectedEndOfHeader => "unexpected end of HDR header",
            HdrError::HeaderNotUtf8 => "HDR header is not valid UTF-8",
            HdrError::InvalidResolutionLine => "invalid HDR resolution line",
            HdrError::InvalidResolutionNumber => "invalid HDR resolution number",
            HdrError::InvalidAxisToken => "invalid HDR axis token",
            HdrError::MissingWidth => "missing HDR width",
            HdrError::MissingHeight => "missing HDR height",
            HdrError::UnexpectedEndOfData => "unexpected end of HDR data",
            HdrError::UnexpectedEndOfScanline => "unexpected end of HDR scanline",
            HdrError::InvalidRleRun => "invalid HDR RLE run",
            HdrError::InvalidLiteralRun => "invalid HDR literal run",
            HdrError::UnexpectedEndOfFlatData => "unexpected end of flat HDR data",
        }
    }
}

/// The direction in which the file stores columns (`+X` or `-X`) and rows
/// (`-Y`: top to bottom, `+Y`: bottom to top).
#[derive(Clone, Copy, Debug, PartialEq, Eq, Structural)]
pub struct HdrOrientation {
    pub x_positive: bool,
    pub y_positive: bool,
}

/// Column in the decoded image of column `x` of the file.
pub open spec fn remap_x(o: HdrOrientation, x: int, width: int) -> int {
    if o.x_positive {
        x
    } else {
        width - 1 - x
    }
}

/// Row in the decoded image of scanline `y` of the file.
pub open spec fn remap_y(o: HdrOrientation, y: int, height: int) -> int {
    if o.y_positive {
        height - 1 - y
    } else {
        y
    }
}

/// Index of the first byte of pixel `(x, y)` in a row-major four-byte-per-pixel buffer.
pub open spec fn pixel_offset(width: int, x: int, y: int) -> int {
    (y * width + x) * 4
}

/// The four bytes of pixel `(x, y)` in a row-major buffer.
pub open spec fn rgbe_at(data: Seq<u8>, width: int, x: int, y: int) -> Rgbe {
    let i = pixel_offset(width, x, y);
    (data[i], data[i + 1], data[i + 2], data[i + 3])
}

/// The bytes that the decoded image holds for pixel `(x, y)` of the file.
pub open spec fn oriented_rgbe(
    data: Seq<u8>,
    width: int,
    height: int,
    o: HdrOrientation,
    x: int,
    y: int,
) -> Rgbe {
    rgbe_at(data, width, remap_x(o, x, width), remap_y(o, y, height))
}

impl HdrOrientation {
    /// Where pixel `(x, y)` of the file lands in the decoded image.
    pub fn remap(&self, x: usize, y: usize, width: usize, height: usize) -> (r: (usize, usize))
        requires
            !self.x_positive ==> x < width,
            self.y_positive ==> y < height,
        ensures
            r.0 == remap_x(*self, x as int, width as int),
            r.1 == remap_y(*self, y as int, height as int),
    {
        let dst_x = if self.x_positive {
            x
        } else {
            width - 1 - x
        };
        let dst_y = if self.y_positive {
            height - 1 - y
        } else {
            y
        };
        (dst_x, dst_y)
    }
}

/// Remapping keeps every pixel of a `width` x `height` image inside the image,
/// and remapping twice gives the pixel back: the remap is a permutation of
/// the pixels.
pub proof fn lemma_remap_involution(o: HdrOrientation, x: int, y: int, width: int, height: int)
    requires
        0 <= x < width,
        0 <= y < height,
    ensures
        0 <= remap_x(o, x, width) < width,
        0 <= remap_y(o, y, height) < height,
        remap_x(o, remap_x(o, x, width), width) == x,
        remap_y(o, remap_y(o, y, height), height) == y,
{
}

/// Two different pixels never land on the same place.
pub proof fn lemma_remap_injective(
    o: HdrOrientation,
    x1: int,
    y1: int,
    x2: int,
    y2: int,
    width: int,
    height: int,
)
    requires
        0 <= x1 < width,
        0 <= y1 < height,
        0 <= x2 < width,
        0 <= y2 < height,
        x1 != x2 || y1 != y2,
    ensures
        remap_x(o, x1, width) != remap_x(o, x2, width) || remap_y(o, y1, height) != remap_y(
            o,
            y2,
            height,
        ),
{
}

/// The row-major index of a pixel lies inside the image.
pub proof fn lemma_grid_index(width: int, height: int, x: int, y: int)
    requires
        0 <= x < width,
        0 <= y < height,
    ensures
        0 <= y * width,
        0 <= y * width + x < width * height,
        y * width + x < height * width,
        y * width + width <= width * height,
{
    assert(0 <= y * width) by (nonlinear_arith)
        requires
            0 <= y,
            0 <= width,
    ;
    assert(y * width + width <= width * height) by (nonlinear_arith)
        requires
            0 <= y < height,
            0 <= width,
    ;
    assert(width * height == height * width) by (nonlinear_arith);
}

/// Distinct pixels have distinct row-major indices.
pub proof fn lemma_grid_index_distinct(width: int, x1: int, y1: int, x2: int, y2: int)
    requires
        0 <= x1 < width,
        0 <= x2 < width,
        0 <= y1,
        0 <= y2,
        x1 != x2 || y1 != y2,
    ensures
        y1 * width + x1 != y2 * width + x2,
{
    if y1 < y2 {
        assert(y1 * width + width <= y2 * width) by (nonlinear_arith)
            requires
                y1 < y2,
                0 <= width,
        ;
    } else if y2 < y1 {
        assert(y2 * width + width <= y1 * width) by (nonlinear_arith)
            requires
                y2 < y1,
                0 <= width,
        ;
    }
}

/// A decoded image: `data` holds four bytes per pixel, row by row from the top.
#[derive(Debug)]
pub struct HdrImage {
    pub width: usize,
    pub height: usize,
    pub data: Vec<u8>,
}

impl HdrImage {
    /// `data` holds the pixels `scan` (in file order, scanline by scanline)
    /// each at the place that the orientation gives it.
    pub open spec fn arranges(&self, scan: Seq<Rgbe>, o: HdrOrientation) -> bool {
        &&& self.data@.len() == self.width * self.height * 4
        &&& scan.len() == self.width * self.height
        &&& forall|x: int, y: int|
            0 <= x < self.width && 0 <= y < self.height ==> #[trigger] oriented_rgbe(
                self.data@,
                self.width as int,
                self.height as int,
                o,
                x,
                y,
            ) == scan[y * self.width + x]
    }
}

/// `r` is the image of `expected` laid out by `o`, or the same error.
pub open spec fn decodes_to(
    r: Result<HdrImage, HdrError>,
    expected: Result<Seq<Rgbe>, HdrError>,
    width: usize,
    height: usize,
    o: HdrOrientation,
) -> bool {
    match expected {
        Ok(scan) => r matches Ok(img) && img.width == width && img.height == height && img.arranges(
            scan,
            o,
        ),
        Err(e) => r == Err::<HdrImage, HdrError>(e),
    }
}

/// Pixels stored without compression: four bytes each from `offset` on.
pub open spec fn flat_pixels(b: Seq<u8>, offset: int, width: int, height: int) -> Result<
    Seq<Rgbe>,
    HdrError,
> {
    if offset + width * height * 4 <= b.len() {
        Ok(
            Seq::new(
                (width * height) as nat,
                |p: int| (b[offset + 4 * p], b[offset + 4 * p + 1], b[offset + 4 * p + 2], b[offset + 4 * p + 3]),
            ),
        )
    } else {
        Err(HdrError::UnexpectedEndOfFlatData)
    }
}

/// Writes `rgbe` into the four bytes of pixel `(x, y)`.
pub fn store_hdr_pixel(data: &mut Vec<u8>, width: usize, x: usize, y: usize, rgbe: Rgbe)
    requires
        x < width,
        pixel_offset(width as int, x as int, y as int) + 4 <= old(data)@.len(),
    ensures
        final(data)@ == old(data)@.update(pixel_offset(width as int, x as int, y as int), rgbe.0).update(
            pixel_offset(width as int, x as int, y as int) + 1,
            rgbe.1,
        ).update(pixel_offset(width as int, x as int, y as int) + 2, rgbe.2).update(
            pixel_offset(width as int, x as int, y as int) + 3,
            rgbe.3,
        ),
{
    let n = data.len();
    assert(0 <= y * width) by (nonlinear_arith)
        requires
            0 <= y,
            0 <= width,
    ;
    let idx = (y * width + x) * 4;
    data.set(idx, rgbe.0);
    data.set(idx + 1, rgbe.1);
    data.set(idx + 2, rgbe.2);
    data.set(idx + 3, rgbe.3);
}

/// Places the pixels of scanline `y` by the orientation, leaving the pixels
/// of every other scanline as they were.
fn store_scanline(
    data: &mut Vec<u8>,
    width: usize,
    height: usize,
    y: usize,
    o: HdrOrientation,
    row: &Vec<Rgbe>,
)
    requires
        old(data)@.len() == width * height * 4,
        y < height,
        row@.len() == width,
    ensures
        final(data)@.len() == old(data)@.len(),
        forall|sx: int|
            0 <= sx < width ==> #[trigger] oriented_rgbe(
                final(data)@,
                width as int,
                height as int,
                o,
                sx,
                y as int,
            ) == row@[sx],
        forall|sx: int, sy: int|
            0 <= sx < width && 0 <= sy < height && sy != y ==> #[trigger] oriented_rgbe(
                final(data)@,
                width as int,
                height as int,
                o,
                sx,
                sy,
            ) == oriented_rgbe(old(data)@, width as int, height as int, o, sx, sy),
{
    let ghost w = width as int;
    let ghost h = height as int;
    let mut x: usize = 0;
    while x < width
        invariant
            x <= width,
            y < height,
            row@.len() == width,
            w == width,
            h == height,
            data@.len() == width * height * 4,
            forall|sx: int|
                0 <= sx < x ==> #[trigger] oriented_rgbe(data@, w, h, o, sx, y as int) == row@[sx],
            forall|sx: int, sy: int|
                0 <= sx < width && 0 <= sy < height && sy != y ==> #[trigger] oriented_rgbe(
                    data@,
                    w,
                    h,
                    o,
                    sx,
                    sy,
                ) == oriented_rgbe(old(data)@, w, h, o, sx, sy),
        decreases width - x,
    {
        let (dx, dy) = o.remap(x, y, width, height);
        proof {
            lemma_grid_index(w, h, dx as int, dy as int);
        }
        let ghost before = data@;
        store_hdr_pixel(data, width, dx, dy, row[x]);
        proof {
            assert forall|sx: int, sy: int|
                0 <= sx < width && 0 <= sy < height && (sx != x || sy != y) implies #[trigger] oriented_rgbe(
                data@,
                w,
                h,
                o,
                sx,
                sy,
            ) == oriented_rgbe(before, w, h, o, sx, sy) by {
                lemma_remap_involution(o, sx, sy, w, h);
                lemma_grid_index(w, h, remap_x(o, sx, w), remap_y(o, sy, h));
                lemma_remap_injective(o, sx, sy, x as int, y as int, w, h);
                lemma_grid_index_distinct(
                    w,
                    remap_x(o, sx, w),
                    remap_y(o, sy, h),
                    dx as int,
                    dy as int,
                );
            }
        }
        x += 1;
    }
}

/// Decodes `width` x `height` uncompressed pixels starting at `offset`.
fn decode_radiance_hdr_flat(
    bytes: &[u8],
    offset: usize,
    width: usize,
    height: usize,
    orientation: HdrOrientation,
) -> (r: Result<HdrImage, HdrError>)
    requires
        offset <= bytes@.len(),
        width * height * 4 <= usize::MAX,
    ensures
        decodes_to(
            r,
            flat_pixels(bytes@, offset as int, width as int, height as int),
            width,
            height,
            orientation,
        ),
{
    let total = width * height * 4;
    let len = bytes.len();
    if len - offset < total {
        return Err(HdrError::UnexpectedEndOfFlatData);
    }
    let ghost b = bytes@;
    let ghost w = width as int;
    let ghost h = height as int;
    let ghost scan = Seq::new(
        (w * h) as nat,
        |p: int| (b[offset + 4 * p], b[offset + 4 * p + 1], b[offset + 4 * p + 2], b[offset + 4 * p + 3]),
    );
    assert(flat_pixels(b, offset as int, w, h) == Ok::<Seq<Rgbe>, HdrError>(scan));
    let mut data: Vec<u8> = vec![0u8; total];
    let mut scan_y: usize = 0;
    while scan_y < height
        invariant
            b == bytes@,
            w == width,
            h == height,
            total == width * height * 4,
            offset + total <= bytes@.len(),
            len == bytes@.len(),
            scan.len() == w * h,
            scan_y <= height,
            data@.len() == total,
            forall|p: int|
                0 <= p < w * h ==> #[trigger] scan[p] == (
                    b[offset + 4 * p],
                    b[offset + 4 * p + 1],
                    b[offset + 4 * p + 2],
                    b[offset + 4 * p + 3],
                ),
            forall|sx: int, sy: int|
                0 <= sx < width && 0 <= sy < scan_y ==> #[trigger] oriented_rgbe(
                    data@,
                    w,
                    h,
                    orientation,
                    sx,
                    sy,
                ) == scan[sy * w + sx],
        decreases height - scan_y,
    {
        let mut row: Vec<Rgbe> = Vec::new();
        let mut x: usize = 0;
        while x < width
            invariant
                b == bytes@,
                w == width,
                h == height,
                total == width * height * 4,
                offset + total <= bytes@.len(),
                len == bytes@.len(),
            len == bytes@.len(),
                scan.len() == w * h,
                scan_y < height,
                x <= width,
                row@.len() == x,
                forall|p: int|
                    0 <= p < w * h ==> #[trigger] scan[p] == (
                        b[offset + 4 * p],
                        b[offset + 4 * p + 1],
                        b[offset + 4 * p + 2],
                        b[offset + 4 * p + 3],
                    ),
                forall|sx: int| 0 <= sx < x ==> row@[sx] == #[trigger] scan[scan_y * w + sx],
            decreases width - x,
        {
            proof {
                lemma_grid_index(w, h, x as int, scan_y as int);
                assert((scan_y * w + x) * 4 + 4 <= w * h * 4);
            }
            let idx = offset + (scan_y * width + x) * 4;
            row.push((bytes[idx], bytes[idx + 1], bytes[idx + 2], bytes[idx + 3]));
            proof {
                assert(row@[x as int] == scan[scan_y * w + x]);
            }
            x += 1;
        }
        store_scanline(&mut data, width, height, scan_y, orientation, &row);
        scan_y += 1;
    }
    Ok(HdrImage { width, height, data })
}


/// Puts `p` in front of the values of a successful decoding step.
pub open spec fn prefix_run(p: Seq<u8>, r: Result<(Seq<u8>, int), HdrError>) -> Result<
    (Seq<u8>, int),
    HdrError,
> {
    match r {
        Ok((v, end)) => Ok((p + v, end)),
        Err(e) => Err(e),
    }
}

/// One channel of a run-length scanline: the values of columns `x` up to
/// `width` read from `offset` on, with the offset that follows them.  A code
/// above 128 repeats the next byte `code - 128` times; any other code copies
/// the next `code` bytes.
pub open spec fn rle_channel(b: Seq<u8>, offset: int, width: int, x: int) -> Result<
    (Seq<u8>, int),
    HdrError,
>
    decreases width - x,
{
    if x >= width {
        Ok((Seq::empty(), offset))
    } else if offset >= b.len() {
        Err(HdrError::UnexpectedEndOfScanline)
    } else if b[offset] > 128 {
        let count = b[offset] - 128;
        if offset + 1 >= b.len() || x + count > width {
            Err(HdrError::InvalidRleRun)
        } else {
            prefix_run(
                Seq::new(count as nat, |i: int| b[offset + 1]),
                rle_channel(b, offset + 2, width, x + count),
            )
        }
    } else {
        let count = b[offset] as int;
        if count == 0 || offset + 1 + count > b.len() || x + count > width {
            Err(HdrError::InvalidLiteralRun)
        } else {
            prefix_run(
                b.subrange(offset + 1, offset + 1 + count),
                rle_channel(b, offset + 1 + count, width, x + count),
            )
        }
    }
}

/// A run-length scanline: its red, green, blue and exponent channels one
/// after the other, joined into pixels.
pub open spec fn rle_scanline(b: Seq<u8>, offset: int, width: int) -> Result<
    (Seq<Rgbe>, int),
    HdrError,
> {
    match rle_channel(b, offset, width, 0) {
        Err(e) => Err(e),
        Ok((red, o1)) => match rle_channel(b, o1, width, 0) {
            Err(e) => Err(e),
            Ok((green, o2)) => match rle_channel(b, o2, width, 0) {
                Err(e) => Err(e),
                Ok((blue, o3)) => match rle_channel(b, o3, width, 0) {
                    Err(e) => Err(e),
                    Ok((exponent, o4)) => Ok(
                        (
                            Seq::new(
                                width as nat,
                                |x: int| (red[x], green[x], blue[x], exponent[x]),
                            ),
                            o4,
                        ),
                    ),
                },
            },
        },
    }
}

/// How reading run-length scanlines from some row on ends: with the pixels
/// of the remaining rows, by falling back to uncompressed data at an offset,
/// or with an error.
pub enum RowsOutcome {
    Done(Seq<Rgbe>),
    Fallback(int),
    Failed(HdrError),
}

/// Puts the pixels `p` in front of a finished outcome.
pub open spec fn prepend_rows(p: Seq<Rgbe>, r: RowsOutcome) -> RowsOutcome {
    match r {
        RowsOutcome::Done(s) => RowsOutcome::Done(p + s),
        other => other,
    }
}

/// Run-length scanlines `y` up to `height` from `offset` on.  A scanline
/// starts with the bytes 2, 2 and its width in two big-endian bytes; a
/// scanline without that marker makes the whole image be read again as
/// uncompressed data from that scanline's offset.
pub open spec fn rle_rows(b: Seq<u8>, offset: int, width: int, height: int, y: int) -> RowsOutcome
    decreases height - y,
{
    if y >= height {
        RowsOutcome::Done(Seq::empty())
    } else if offset + 4 > b.len() {
        RowsOutcome::Failed(HdrError::UnexpectedEndOfData)
    } else if !(b[offset] == 2 && b[offset + 1] == 2 && b[offset + 2] as int * 256 + b[offset
        + 3] as int == width) {
        RowsOutcome::Fallback(offset)
    } else {
        match rle_scanline(b, offset + 4, width) {
            Err(e) => RowsOutcome::Failed(e),
            Ok((row, end)) => prepend_rows(row, rle_rows(b, end, width, height, y + 1)),
        }
    }
}

/// The pixels, in file order, of the pixel data that starts at `offset`:
/// run-length scanlines where the width allows them (8 to 0x7fff),
/// uncompressed pixels otherwise.
pub open spec fn pixel_stream(b: Seq<u8>, offset: int, width: int, height: int) -> Result<
    Seq<Rgbe>,
    HdrError,
> {
    if 8 <= width <= 0x7fff {
        match rle_rows(b, offset, width, height, 0) {
            RowsOutcome::Done(s) => Ok(s),
            RowsOutcome::Fallback(o) => flat_pixels(b, o, width, height),
            RowsOutcome::Failed(e) => Err(e),
        }
    } else {
        flat_pixels(b, offset, width, height)
    }
}

proof fn lemma_prefix_run_assoc(a: Seq<u8>, c: Seq<u8>, r: Result<(Seq<u8>, int), HdrError>)
    ensures
        prefix_run(a, prefix_run(c, r)) == prefix_run(a + c, r),
{
    match r {
        Ok((v, end)) => {
            assert(a + (c + v) =~= (a + c) + v);
        },
        Err(_) => {},
    }
}

proof fn lemma_prepend_rows_assoc(a: Seq<Rgbe>, c: Seq<Rgbe>, r: RowsOutcome)
    ensures
        prepend_rows(a, prepend_rows(c, r)) == prepend_rows(a + c, r),
{
    match r {
        RowsOutcome::Done(v) => {
            assert(a + (c + v) =~= (a + c) + v);
        },
        _ => {},
    }
}

/// A repeat run: a code `c` above 128 followed by a value `v` stands for
/// exactly `c - 128` copies of `v` (1 to 127 of them), and the channel goes
/// on right after those two bytes.
pub proof fn lemma_repeat_run(b: Seq<u8>, offset: int, width: int, x: int)
    requires
        0 <= offset,
        offset + 1 < b.len(),
        129 <= b[offset] <= 255,
        x + (b[offset] - 128) <= width,
    ensures
        rle_channel(b, offset, width, x) == prefix_run(
            Seq::new((b[offset] - 128) as nat, |i: int| b[offset + 1]),
            rle_channel(b, offset + 2, width, x + b[offset] - 128),
        ),
        Seq::new((b[offset] - 128) as nat, |i: int| b[offset + 1]).len() == b[offset] - 128,
{
}

/// A literal run: a code `c` from 1 to 128 stands for the `c` bytes that
/// follow it, and the channel goes on right after them.
pub proof fn lemma_literal_run(b: Seq<u8>, offset: int, width: int, x: int)
    requires
        0 <= offset,
        offset < b.len(),
        1 <= b[offset] <= 128,
        offset + 1 + b[offset] <= b.len(),
        x + b[offset] <= width,
    ensures
        rle_channel(b, offset, width, x) == prefix_run(
            b.subrange(offset + 1, offset + 1 + b[offset]),
            rle_channel(b, offset + 1 + b[offset], width, x + b[offset]),
        ),
{
}

/// A channel fails exactly where its data runs out or a run does not fit:
/// no code left, a repeat run without its value or longer than the columns
/// left, a literal run of length 0, cut off or longer than the columns left.
pub proof fn lemma_run_errors(b: Seq<u8>, offset: int, width: int, x: int)
    requires
        0 <= offset,
        x < width,
    ensures
        offset >= b.len() ==> rle_channel(b, offset, width, x) == Err::<(Seq<u8>, int), HdrError>(
            HdrError::UnexpectedEndOfScanline,
        ),
        offset < b.len() && b[offset] > 128 && (offset + 1 >= b.len() || x + b[offset] - 128
            > width) ==> rle_channel(b, offset, width, x) == Err::<(Seq<u8>, int), HdrError>(
            HdrError::InvalidRleRun,
        ),
        offset < b.len() && b[offset] <= 128 && (b[offset] == 0 || offset + 1 + b[offset]
            > b.len() || x + b[offset] > width) ==> rle_channel(b, offset, width, x) == Err::<
            (Seq<u8>, int),
            HdrError,
        >(HdrError::InvalidLiteralRun),
{
}

/// A channel that decodes yields one value per remaining column and stops
/// inside the input.
proof fn lemma_rle_channel_shape(b: Seq<u8>, offset: int, width: int, x: int)
    requires
        0 <= offset <= b.len(),
        x <= width,
    ensures
        rle_channel(b, offset, width, x) matches Ok((v, end)) ==> v.len() == width - x && offset
            <= end <= b.len(),
    decreases width - x,
{
    if x < width && offset < b.len() {
        if b[offset] > 128 {
            let count = b[offset] - 128;
            if !(offset + 1 >= b.len() || x + count > width) {
                lemma_rle_channel_shape(b, offset + 2, width, x + count);
            }
        } else {
            let count = b[offset] as int;
            if !(count == 0 || offset + 1 + count > b.len() || x + count > width) {
                lemma_rle_channel_shape(b, offset + 1 + count, width, x + count);
            }
        }
    }
}

/// Decodes one run-length channel of `width` values starting at `offset`.
fn decode_rle_channel(bytes: &[u8], offset: usize, width: usize) -> (r: Result<
    (Vec<u8>, usize),
    HdrError,
>)
    requires
        offset <= bytes@.len(),
    ensures
        match rle_channel(bytes@, offset as int, width as int, 0) {
            Ok((v, end)) => r matches Ok((out, e)) && out@ == v && e == end,
            Err(err) => r matches Err(e) && e == err,
        },
{
    let len = bytes.len();
    let mut out: Vec<u8> = Vec::new();
    let mut x: usize = 0;
    let mut pos = offset;
    while x < width
        invariant
            len == bytes@.len(),
            x <= width,
            pos <= len,
            out@.len() == x,
            rle_channel(bytes@, offset as int, width as int, 0) == prefix_run(
                out@,
                rle_channel(bytes@, pos as int, width as int, x as int),
            ),
        decreases width - x,
    {
        if pos >= len {
            return Err(HdrError::UnexpectedEndOfScanline);
        }
        let code = bytes[pos];
        if code > 128 {
            let count = (code - 128) as usize;
            if pos + 1 >= len || count > width - x {
                return Err(HdrError::InvalidRleRun);
            }
            let value = bytes[pos + 1];
            let ghost before = out@;
            let ghost run = Seq::new(count as nat, |i: int| value);
            let mut i: usize = 0;
            while i < count
                invariant
                    i <= count,
                    out@ == before + Seq::new(i as nat, |j: int| value),
                decreases count - i,
            {
                out.push(value);
                proof {
                    assert(out@ =~= before + Seq::new((i + 1) as nat, |j: int| value));
                }
                i += 1;
            }
            proof {
                assert(out@ =~= before + run);
                lemma_prefix_run_assoc(
                    before,
                    run,
                    rle_channel(bytes@, pos + 2, width as int, x + count),
                );
            }
            pos = pos + 2;
            x = x + count;
        } else {
            let count = code as usize;
            if count == 0 || count > len - (pos + 1) || count > width - x {
                return Err(HdrError::InvalidLiteralRun);
            }
            let ghost before = out@;
            let ghost run = bytes@.subrange(pos + 1, pos + 1 + count);
            let mut i: usize = 0;
            while i < count
                invariant
                    i <= count,
                    pos + 1 + count <= len,
                    len == bytes@.len(),
                    out@ == before + bytes@.subrange(pos + 1, pos + 1 + i),
                decreases count - i,
            {
                out.push(bytes[pos + 1 + i]);
                proof {
                    assert(out@ =~= before + bytes@.subrange(pos + 1, pos + 1 + i + 1));
                }
                i += 1;
            }
            proof {
                lemma_prefix_run_assoc(
                    before,
                    run,
                    rle_channel(bytes@, pos + 1 + count, width as int, x + count),
                );
            }
            pos = pos + 1 + count;
            x = x + count;
        }
    }
    proof {
        assert(out@ + Seq::<u8>::empty() =~= out@);
    }
    Ok((out, pos))
}


/// Decodes the four channels of one run-length scanline that starts at
/// `offset` (after its marker) and joins them into pixels.
fn decode_rle_scanline(bytes: &[u8], offset: usize, width: usize) -> (r: Result<
    (Vec<Rgbe>, usize),
    HdrError,
>)
    requires
        offset <= bytes@.len(),
    ensures
        match rle_scanline(bytes@, offset as int, width as int) {
            Ok((row, end)) => r matches Ok((out, e)) && out@ == row && e == end,
            Err(err) => r matches Err(e) && e == err,
        },
{
    proof {
        lemma_rle_channel_shape(bytes@, offset as int, width as int, 0);
    }
    let (red, o1) = match decode_rle_channel(bytes, offset, width) {
        Ok(v) => v,
        Err(e) => return Err(e),
    };
    proof {
        lemma_rle_channel_shape(bytes@, o1 as int, width as int, 0);
    }
    let (green, o2) = match decode_rle_channel(bytes, o1, width) {
        Ok(v) => v,
        Err(e) => return Err(e),
    };
    proof {
        lemma_rle_channel_shape(bytes@, o2 as int, width as int, 0);
    }
    let (blue, o3) = match decode_rle_channel(bytes, o2, width) {
        Ok(v) => v,
        Err(e) => return Err(e),
    };
    proof {
        lemma_rle_channel_shape(bytes@, o3 as int, width as int, 0);
    }
    let (exponent, o4) = match decode_rle_channel(bytes, o3, width) {
        Ok(v) => v,
        Err(e) => return Err(e),
    };
    let ghost expected = Seq::new(
        width as nat,
        |x: int| (red@[x], green@[x], blue@[x], exponent@[x]),
    );
    let mut row: Vec<Rgbe> = Vec::new();
    let mut x: usize = 0;
    while x < width
        invariant
            x <= width,
            red@.len() == width,
            green@.len() == width,
            blue@.len() == width,
            exponent@.len() == width,
            row@ == expected.take(x as int),
            expected.len() == width,
            forall|i: int|
                0 <= i < width ==> #[trigger] expected[i] == (
                    red@[i],
                    green@[i],
                    blue@[i],
                    exponent@[i],
                ),
        decreases width - x,
    {
        row.push((red[x], green[x], blue[x], exponent[x]));
        proof {
            assert(row@ =~= expected.take(x + 1));
        }
        x += 1;
    }
    proof {
        assert(row@ =~= expected);
    }
    Ok((row, o4))
}

/// Decodes the pixel data that starts at `offset` into a `width` x `height`
/// image laid out by `orientation`.
fn decode_pixel_stream(
    bytes: &[u8],
    offset: usize,
    width: usize,
    height: usize,
    orientation: HdrOrientation,
) -> (r: Result<HdrImage, HdrError>)
    requires
        offset <= bytes@.len(),
        width * height * 4 <= usize::MAX,
    ensures
        decodes_to(
            r,
            pixel_stream(bytes@, offset as int, width as int, height as int),
            width,
            height,
            orientation,
        ),
{
    if width >= 8 && width <= 0x7fff {
        let len = bytes.len();
        let total = width * height * 4;
        let ghost b = bytes@;
        let ghost w = width as int;
        let ghost h = height as int;
        let ghost start = rle_rows(b, offset as int, w, h, 0);
        let ghost mut prefix: Seq<Rgbe> = Seq::empty();
        let mut data: Vec<u8> = vec![0u8; total];
        let mut pos = offset;
        let mut scan_y: usize = 0;
        assert(prepend_rows(prefix, start) == start) by {
            match start {
                RowsOutcome::Done(v) => {
                    assert(prefix + v =~= v);
                },
                _ => {},
            }
        }
        while scan_y < height
            invariant
                b == bytes@,
                len == bytes@.len(),
                w == width,
                h == height,
                total == width * height * 4,
                8 <= width <= 0x7fff,
                pos <= len,
                scan_y <= height,
                data@.len() == total,
                start == rle_rows(b, offset as int, w, h, 0),
                start == prepend_rows(prefix, rle_rows(b, pos as int, w, h, scan_y as int)),
                prefix.len() == scan_y * w,
                forall|sx: int, sy: int|
                    0 <= sx < width && 0 <= sy < scan_y ==> #[trigger] oriented_rgbe(
                        data@,
                        w,
                        h,
                        orientation,
                        sx,
                        sy,
                    ) == prefix[sy * w + sx],
            decreases height - scan_y,
        {
            if len - pos < 4 {
                return Err(HdrError::UnexpectedEndOfData);
            }
            let header_ok = bytes[pos] == 2 && bytes[pos + 1] == 2;
            let scan_width = (bytes[pos + 2] as usize) * 256 + (bytes[pos + 3] as usize);
            if header_ok && scan_width == width {
                let (row, end) = match decode_rle_scanline(bytes, pos + 4, width) {
                    Ok(v) => v,
                    Err(e) => return Err(e),
                };
                proof {
                    lemma_rle_channel_shape(b, pos + 4, w, 0);
                    let (c0, o1) = rle_channel(b, pos + 4, w, 0)->Ok_0;
                    lemma_rle_channel_shape(b, o1, w, 0);
                    let (c1, o2) = rle_channel(b, o1, w, 0)->Ok_0;
                    lemma_rle_channel_shape(b, o2, w, 0);
                    let (c2, o3) = rle_channel(b, o2, w, 0)->Ok_0;
                    lemma_rle_channel_shape(b, o3, w, 0);
                }
                let ghost before = data@;
                store_scanline(&mut data, width, height, scan_y, orientation, &row);
                proof {
                    lemma_prepend_rows_assoc(prefix, row@, rle_rows(b, end as int, w, h, scan_y + 1));
                    let next = prefix + row@;
                    assert forall|sx: int, sy: int|
                        0 <= sx < width && 0 <= sy < scan_y + 1 implies #[trigger] oriented_rgbe(
                        data@,
                        w,
                        h,
                        orientation,
                        sx,
                        sy,
                    ) == next[sy * w + sx] by {
                        if sy < scan_y {
                            lemma_grid_index(w, scan_y as int, sx, sy);
                            assert(sy * w + sx < scan_y * w);
                            assert(oriented_rgbe(before, w, h, orientation, sx, sy) == prefix[sy * w
                                + sx]);
                            assert(next[sy * w + sx] == prefix[sy * w + sx]);
                        } else {
                            assert(sy * w + sx == prefix.len() + sx);
                            assert(next[sy * w + sx] == row@[sx]);
                        }
                    }
                    prefix = next;
                    assert(prefix.len() == (scan_y + 1) * w) by (nonlinear_arith)
                        requires
                            prefix.len() == scan_y * w + w,
                    ;
                }
                pos = end;
            } else {
                return decode_radiance_hdr_flat(bytes, pos, width, height, orientation);
            }
            scan_y += 1;
        }
        proof {
            assert(prefix + Seq::<Rgbe>::empty() =~= prefix);
            assert(prefix.len() == w * h) by (nonlinear_arith)
                requires
                    prefix.len() == h * w,
            ;
        }
        Ok(HdrImage { width, height, data })
    } else {
        decode_radiance_hdr_flat(bytes, offset, width, height, orientation)
    }
}


/// The size that the header of `b` announces fits in memory at four bytes
/// per pixel (the decoder cannot allocate the image otherwise).
pub open spec fn header_fits(b: Seq<u8>) -> bool {
    radiance_header(b) matches Ok((w, h, _, _)) ==> w * h * 4 <= usize::MAX
}

/// The pixels, in file order, of a whole Radiance file.
pub open spec fn radiance_pixels(b: Seq<u8>) -> Result<Seq<Rgbe>, HdrError> {
    match radiance_header(b) {
        Err(e) => Err(e),
        Ok((w, h, _, off)) => pixel_stream(b, off as int, w as int, h as int),
    }
}

/// Decodes a Radiance (`.hdr`) file: its header, then its pixels, laid out
/// top row first by the orientation that the header gives.
pub fn decode_radiance_hdr(bytes: &[u8]) -> (r: Result<HdrImage, HdrError>)
    requires
        header_fits(bytes@),
    ensures
        match radiance_header(bytes@) {
            Err(e) => r matches Err(e2) && e2 == e,
            Ok((w, h, o, _)) => decodes_to(r, radiance_pixels(bytes@), w, h, o),
        },
{
    let (width, height, orientation, offset) = match parse_hdr_header(bytes) {
        Ok(v) => v,
        Err(e) => return Err(e),
    };
    decode_pixel_stream(bytes, offset, width, height, orientation)
}


/// Every byte of a decoded image belongs to exactly one pixel of the file:
/// two images of the same size that hold the same pixels laid out by the
/// same orientation are byte for byte the same.
pub proof fn lemma_arrangement_unique(a: HdrImage, b: HdrImage, scan: Seq<Rgbe>, o: HdrOrientation)
    requires
        a.width == b.width,
        a.height == b.height,
        a.arranges(scan, o),
        b.arranges(scan, o),
    ensures
        a.data@ == b.data@,
{
    let w = a.width as int;
    let h = a.height as int;
    assert forall|i: int| 0 <= i < a.data@.len() implies a.data@[i] == b.data@[i] by {
        let p = i / 4;
        let k = i % 4;
        lemma_fundamental_div_mod(i, 4);
        lemma_mod_bound(i, 4);
        lemma_div_pos_is_pos(i, 4);
        lemma_multiply_divide_lt(i, 4, w * h);
        assert(w > 0) by (nonlinear_arith)
            requires
                0 <= p < w * h,
                0 <= w,
                0 <= h,
        ;
        let dy = p / w;
        let dx = p % w;
        lemma_fundamental_div_mod(p, w);
        lemma_mod_bound(p, w);
        lemma_div_pos_is_pos(p, w);
        lemma_multiply_divide_lt(p, w, h);
        assert(i == (dy * w + dx) * 4 + k) by (nonlinear_arith)
            requires
                i == 4 * p + k,
                p == w * dy + dx,
        ;
        let sx = remap_x(o, dx, w);
        let sy = remap_y(o, dy, h);
        lemma_remap_involution(o, dx, dy, w, h);
        lemma_remap_involution(o, sx, sy, w, h);
        assert(oriented_rgbe(a.data@, w, h, o, sx, sy) == scan[sy * w + sx]);
        assert(oriented_rgbe(b.data@, w, h, o, sx, sy) == scan[sy * w + sx]);
        assert(rgbe_at(a.data@, w, dx, dy) == rgbe_at(b.data@, w, dx, dy));
    }
    assert(a.data@ =~= b.data@);
}

/// A file stored top row first, left to right (`-Y height +X width`) is
/// decoded with every pixel in place.
pub proof fn lemma_standard_orientation_in_place(x: int, y: int, width: int, height: int)
    ensures
        remap_x(HdrOrientation { x_positive: true, y_positive: false }, x, width) == x,
        remap_y(HdrOrientation { x_positive: true, y_positive: false }, y, height) == y,
{
}

} // verus!
