//! The text header of a Radiance file: comment and variable lines, then a
//! resolution line such as `-Y 512 +X 1024` that gives the image size and
//! the orientation of its pixels.
use vstd::prelude::*;
use vstd::utf8::{decode_utf8, valid_utf8, encode_utf8_decode_utf8};
use vstd::string::StringSliceAdditionalSpecFns;
use crate::hdr::{HdrError, HdrOrientation};
use crate::text::{
    decimal_text, lemma_decimal_text, lemma_parse_usize_decimal, lemma_split_space,
    lemma_split_token, white_space, chars_of, contains_char, parse_usize, parse_usize_chars, split_whitespace,
    split_whitespace_chars, starts_with, starts_with_chars, strip_trailing_cr,
    strip_trailing_cr_chars, trim, trim_chars, views,
};

verus! {

/// Calls `std::str::from_utf8`, which gives back a string slice exactly when
/// the bytes are valid UTF-8; the slice then holds those very bytes.
#[verifier::external_body]
fn utf8_str(bytes: &[u8]) -> (r: Option<&str>)
    ensures
        r is Some <==> valid_utf8(bytes@),
        r matches Some(s) ==> s.spec_bytes() == bytes@,
{
    std::str::from_utf8(bytes).ok()
}

/// Index of the first newline at or after `i`, or the length of `b`.
pub open spec fn line_end(b: Seq<u8>, i: int) -> int
    decreases b.len() - i,
{
    if i >= b.len() || b[i] == 10 {
        i
    } else {
        line_end(b, i + 1)
    }
}

/// The line that starts at `start` (decoded, carriage returns at its end
/// removed) and the offset of the next line.
pub open spec fn hdr_line(b: Seq<u8>, start: int) -> Result<(Seq<char>, int), HdrError> {
    if start >= b.len() {
        Err(HdrError::UnexpectedEndOfHeader)
    } else {
        let end = line_end(b, start);
        let raw = b.subrange(start, end);
        if !valid_utf8(raw) {
            Err(HdrError::HeaderNotUtf8)
        } else {
            Ok(
                (
                    strip_trailing_cr(decode_utf8(raw)),
                    if end < b.len() {
                        end + 1
                    } else {
                        end
                    },
                ),
            )
        }
    }
}

/// A line ends inside the bytes, after its start.
pub proof fn lemma_line_end(b: Seq<u8>, i: int)
    requires
        0 <= i <= b.len(),
    ensures
        i <= line_end(b, i) <= b.len(),
        line_end(b, i) < b.len() ==> b[line_end(b, i)] == 10,
    decreases b.len() - i,
{
    if i < b.len() && b[i] != 10 {
        lemma_line_end(b, i + 1);
    }
}

/// Reading a line moves forward and stays inside the bytes.
pub proof fn lemma_hdr_line_advances(b: Seq<u8>, start: int)
    requires
        0 <= start,
    ensures
        hdr_line(b, start) matches Ok((_, next)) ==> start < next <= b.len(),
{
    if start < b.len() {
        lemma_line_end(b, start);
    }
}

/// The resolution values read so far.
#[derive(Clone, Copy)]
pub struct AxisState {
    pub width: Option<usize>,
    pub height: Option<usize>,
    pub x_positive: bool,
    pub y_positive: bool,
}

/// Reads one `axis value` pair of the resolution line: the value must be a
/// number, and the second character of the axis token must be `X` or `Y`;
/// a leading `+` makes the axis positive.
pub open spec fn apply_axis(st: AxisState, axis: Seq<char>, value: Seq<char>) -> Result<
    AxisState,
    HdrError,
> {
    match parse_usize(value) {
        None => Err(HdrError::InvalidResolutionNumber),
        Some(v) => if axis.len() > 1 && axis[1] == 'X' {
            Ok(
                AxisState {
                    width: Some(v),
                    height: st.height,
                    x_positive: axis[0] == '+',
                    y_positive: st.y_positive,
                },
            )
        } else if axis.len() > 1 && axis[1] == 'Y' {
            Ok(
                AxisState {
                    width: st.width,
                    height: Some(v),
                    x_positive: st.x_positive,
                    y_positive: axis[0] == '+',
                },
            )
        } else {
            Err(HdrError::InvalidAxisToken)
        },
    }
}

/// The image size and orientation that a resolution line gives, with the
/// offset `next` of the pixel data.
pub open spec fn resolution(line: Seq<char>, next: int) -> Result<
    (usize, usize, HdrOrientation, usize),
    HdrError,
> {
    let parts = split_whitespace(line);
    if parts.len() != 4 {
        Err(HdrError::InvalidResolutionLine)
    } else {
        let start = AxisState { width: None, height: None, x_positive: false, y_positive: false };
        match apply_axis(start, parts[0], parts[1]) {
            Err(e) => Err(e),
            Ok(st1) => match apply_axis(st1, parts[2], parts[3]) {
                Err(e) => Err(e),
                Ok(st2) => match (st2.width, st2.height) {
                    (None, _) => Err(HdrError::MissingWidth),
                    (Some(_), None) => Err(HdrError::MissingHeight),
                    (Some(w), Some(h)) => Ok(
                        (
                            w,
                            h,
                            HdrOrientation { x_positive: st2.x_positive, y_positive: st2.y_positive },
                            next as usize,
                        ),
                    ),
                },
            },
        }
    }
}

/// The resolution line `-Y height +X width` of an image stored top row
/// first, left to right.
pub open spec fn standard_resolution_line(width: nat, height: nat) -> Seq<char> {
    seq!['-', 'Y', ' '] + decimal_text(height) + seq![' ', '+', 'X', ' '] + decimal_text(width)
}

/// A resolution line `-Y h +X w` gives width `w`, height `h` and the
/// standard orientation, for every `w` and `h` that fit a `usize`.
pub proof fn lemma_standard_resolution(width: usize, height: usize, next: int)
    ensures
        resolution(standard_resolution_line(width as nat, height as nat), next) == Ok::<
            (usize, usize, HdrOrientation, usize),
            HdrError,
        >((width, height, HdrOrientation { x_positive: true, y_positive: false }, next as usize)),
{
    let h = decimal_text(height as nat);
    let w = decimal_text(width as nat);
    lemma_decimal_text(height as nat);
    lemma_decimal_text(width as nat);
    lemma_parse_usize_decimal(height);
    lemma_parse_usize_decimal(width);
    let y_axis = seq!['-', 'Y'];
    let x_axis = seq!['+', 'X'];
    assert(white_space(' '));
    assert(!white_space('-') && !white_space('Y') && !white_space('+') && !white_space('X'));
    assert(forall|i: int| 0 <= i < y_axis.len() ==> !white_space(#[trigger] y_axis[i]));
    assert(forall|i: int| 0 <= i < x_axis.len() ==> !white_space(#[trigger] x_axis[i]));
    let t4 = w;
    let s4 = seq![' '] + t4;
    let t3 = x_axis + s4;
    let s3 = seq![' '] + t3;
    let t2 = h + s3;
    let s2 = seq![' '] + t2;
    let line = y_axis + s2;
    assert(standard_resolution_line(width as nat, height as nat) =~= line);
    lemma_split_token(w, Seq::empty());
    assert(w + Seq::<char>::empty() =~= w);
    assert(split_whitespace(Seq::<char>::empty()) =~= Seq::<Seq<char>>::empty());
    lemma_split_space(' ', t4);
    lemma_split_token(x_axis, s4);
    lemma_split_space(' ', t3);
    lemma_split_token(h, s3);
    lemma_split_space(' ', t2);
    lemma_split_token(y_axis, s2);
    let parts = split_whitespace(line);
    assert(parts =~= seq![y_axis, h, x_axis, w]);
    assert(parts[0] == y_axis && parts[1] == h && parts[2] == x_axis && parts[3] == w);
}

/// Header lines that carry nothing for decoding: empty lines, comments and
/// the `FORMAT=` and `EXPOSURE=` variables.
pub open spec fn ignored_line(line: Seq<char>) -> bool {
    ||| line.len() == 0
    ||| starts_with(line, seq!['#'])
    ||| starts_with(line, seq!['F', 'O', 'R', 'M', 'A', 'T', '='])
    ||| starts_with(line, seq!['E', 'X', 'P', 'O', 'S', 'U', 'R', 'E', '='])
}

/// The header read from the line at `offset` on: lines are skipped until
/// one that holds both an `X` and a `Y`, which must be the resolution line.
pub open spec fn header_from(b: Seq<u8>, offset: int) -> Result<
    (usize, usize, HdrOrientation, usize),
    HdrError,
>
    decreases b.len() - offset,
    when 0 <= offset
{
    match hdr_line(b, offset) {
        Err(e) => Err(e),
        Ok((raw, next)) => {
            proof {
                lemma_hdr_line_advances(b, offset);
            }
            let line = trim(raw);
            if ignored_line(line) {
                header_from(b, next)
            } else if line.contains('X') && line.contains('Y') {
                resolution(line, next)
            } else {
                header_from(b, next)
            }
        },
    }
}

/// The header of a Radiance file: width, height, orientation and the offset
/// at which the pixel data starts.
pub open spec fn radiance_header(b: Seq<u8>) -> Result<
    (usize, usize, HdrOrientation, usize),
    HdrError,
> {
    header_from(b, 0)
}

/// The pixel data starts inside the bytes.
pub proof fn lemma_header_offset(b: Seq<u8>, offset: int)
    requires
        0 <= offset,
        b.len() <= usize::MAX,
    ensures
        header_from(b, offset) matches Ok((_, _, _, off)) ==> off <= b.len(),
    decreases b.len() - offset,
{
    lemma_hdr_line_advances(b, offset);
    match hdr_line(b, offset) {
        Err(_) => {},
        Ok((raw, next)) => {
            let line = trim(raw);
            if ignored_line(line) || !(line.contains('X') && line.contains('Y')) {
                lemma_header_offset(b, next);
            }
        },
    }
}

/// Reads the line that starts at `start`: up to the next newline, which it
/// skips, with the carriage returns at the end of the line removed.
pub fn read_hdr_line(bytes: &[u8], start: usize) -> (r: Result<(Vec<char>, usize), HdrError>)
    ensures
        match hdr_line(bytes@, start as int) {
            Ok((line, next)) => r matches Ok((l, n)) && l@ == line && n == next,
            Err(e) => r matches Err(e2) && e2 == e,
        },
{
    let len = bytes.len();
    if start >= len {
        return Err(HdrError::UnexpectedEndOfHeader);
    }
    let mut end = start;
    while end < len && bytes[end] != 10u8
        invariant
            start <= end <= len,
            len == bytes@.len(),
            line_end(bytes@, start as int) == line_end(bytes@, end as int),
        decreases len - end,
    {
        end += 1;
    }
    let raw = &bytes[start..end];
    match utf8_str(raw) {
        None => Err(HdrError::HeaderNotUtf8),
        Some(s) => {
            proof {
                encode_utf8_decode_utf8(s@);
            }
            let chars = chars_of(s);
            let line = strip_trailing_cr_chars(&chars);
            let next = if end < len {
                end + 1
            } else {
                end
            };
            Ok((line, next))
        },
    }
}

/// Reads one `axis value` pair of the resolution line.
fn apply_axis_chars(st: AxisState, axis: &Vec<char>, value: &Vec<char>) -> (r: Result<
    AxisState,
    HdrError,
>)
    ensures
        r == apply_axis(st, axis@, value@),
{
    let v = match parse_usize_chars(value) {
        None => return Err(HdrError::InvalidResolutionNumber),
        Some(v) => v,
    };
    if axis.len() > 1 && axis[1] == 'X' {
        Ok(
            AxisState {
                width: Some(v),
                height: st.height,
                x_positive: axis[0] == '+',
                y_positive: st.y_positive,
            },
        )
    } else if axis.len() > 1 && axis[1] == 'Y' {
        Ok(
            AxisState {
                width: st.width,
                height: Some(v),
                x_positive: st.x_positive,
                y_positive: axis[0] == '+',
            },
        )
    } else {
        Err(HdrError::InvalidAxisToken)
    }
}

/// Reads a resolution line; `next` is the offset of the pixel data.
pub fn parse_resolution_line(line: &Vec<char>, next: usize) -> (r: Result<
    (usize, usize, HdrOrientation, usize),
    HdrError,
>)
    ensures
        r == resolution(line@, next as int),
{
    let parts = split_whitespace_chars(line);
    if parts.len() != 4 {
        return Err(HdrError::InvalidResolutionLine);
    }
    proof {
        assert(views(parts@)[0] == parts@[0]@);
        assert(views(parts@)[1] == parts@[1]@);
        assert(views(parts@)[2] == parts@[2]@);
        assert(views(parts@)[3] == parts@[3]@);
    }
    let start = AxisState { width: None, height: None, x_positive: false, y_positive: false };
    let st1 = match apply_axis_chars(start, &parts[0], &parts[1]) {
        Ok(st) => st,
        Err(e) => return Err(e),
    };
    let st2 = match apply_axis_chars(st1, &parts[2], &parts[3]) {
        Ok(st) => st,
        Err(e) => return Err(e),
    };
    match (st2.width, st2.height) {
        (None, _) => Err(HdrError::MissingWidth),
        (Some(_), None) => Err(HdrError::MissingHeight),
        (Some(w), Some(h)) => Ok(
            (w, h, HdrOrientation { x_positive: st2.x_positive, y_positive: st2.y_positive }, next),
        ),
    }
}

/// Reads the header of a Radiance file: the width, the height, the
/// orientation of the pixels and the offset at which the pixel data starts.
pub fn parse_hdr_header(bytes: &[u8]) -> (r: Result<(usize, usize, HdrOrientation, usize), HdrError>)
    ensures
        r == radiance_header(bytes@),
        r matches Ok((_, _, _, off)) ==> off <= bytes@.len(),
{
    let len = bytes.len();
    let mut offset: usize = 0;
    proof {
        lemma_header_offset(bytes@, 0);
    }
    loop
        invariant
            offset <= len,
            len == bytes@.len(),
            header_from(bytes@, 0) == header_from(bytes@, offset as int),
        decreases len - offset,
    {
        proof {
            lemma_hdr_line_advances(bytes@, offset as int);
        }
        let (raw, next) = match read_hdr_line(bytes, offset) {
            Ok(v) => v,
            Err(e) => return Err(e),
        };
        let line = trim_chars(&raw);
        proof {
            assert(['#']@ =~= seq!['#']);
            assert(['F', 'O', 'R', 'M', 'A', 'T', '=']@ =~= seq!['F', 'O', 'R', 'M', 'A', 'T', '=']);
            assert(['E', 'X', 'P', 'O', 'S', 'U', 'R', 'E', '=']@ =~= seq![
                'E',
                'X',
                'P',
                'O',
                'S',
                'U',
                'R',
                'E',
                '=',
            ]);
        }
        if line.len() == 0 || starts_with_chars(&line, &['#']) || starts_with_chars(
            &line,
            &['F', 'O', 'R', 'M', 'A', 'T', '='],
        ) || starts_with_chars(&line, &['E', 'X', 'P', 'O', 'S', 'U', 'R', 'E', '=']) {
            offset = next;
            continue ;
        }
        if contains_char(&line, 'X') && contains_char(&line, 'Y') {
            return parse_resolution_line(&line, next);
        }
        offset = next;
    }
}

} // verus!
