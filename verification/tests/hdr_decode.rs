use alloy::hdr::{decode_radiance_hdr, HdrError, HdrImage, HdrOrientation};
use alloy::header::parse_hdr_header;

fn file(header: &str, pixels: &[u8]) -> Vec<u8> {
    let mut bytes = header.as_bytes().to_vec();
    bytes.extend_from_slice(pixels);
    bytes
}

fn decode(bytes: &[u8]) -> Result<HdrImage, HdrError> {
    decode_radiance_hdr(bytes)
}

#[test]
fn header_standard_layout() {
    let bytes = file("#?RADIANCE\nFORMAT=32-bit_rle_rgbe\nEXPOSURE=1.0\n\n-Y 2 +X 3\n", &[]);
    let (width, height, orientation, offset) = parse_hdr_header(&bytes).unwrap();
    assert_eq!(width, 3);
    assert_eq!(height, 2);
    assert_eq!(orientation, HdrOrientation { x_positive: true, y_positive: false });
    assert_eq!(offset, bytes.len());
}

#[test]
fn header_with_crlf_and_other_variables() {
    let bytes = file("#?RADIANCE\r\nSOFTWARE=test\r\n  +Y 4 -X 5  \r\nrest", &[]);
    let (width, height, orientation, offset) = parse_hdr_header(&bytes).unwrap();
    assert_eq!((width, height), (5, 4));
    assert_eq!(orientation, HdrOrientation { x_positive: false, y_positive: true });
    assert_eq!(&bytes[offset..], b"rest");
}

#[test]
fn header_plus_sign_in_number() {
    let bytes = file("-Y +7 +X 0010\n", &[]);
    let (width, height, _, _) = parse_hdr_header(&bytes).unwrap();
    assert_eq!((width, height), (10, 7));
}

#[test]
fn header_errors() {
    assert_eq!(parse_hdr_header(b"").unwrap_err(), HdrError::UnexpectedEndOfHeader);
    assert_eq!(parse_hdr_header(b"#?RADIANCE\n\n").unwrap_err(), HdrError::UnexpectedEndOfHeader);
    assert_eq!(parse_hdr_header(b"#ok\n\xff\xfe\n-Y 1 +X 1\n").unwrap_err(), HdrError::HeaderNotUtf8);
    assert_eq!(parse_hdr_header(b"-Y 2 +X\n").unwrap_err(), HdrError::InvalidResolutionLine);
    assert_eq!(parse_hdr_header(b"-Y a +X 2\n").unwrap_err(), HdrError::InvalidResolutionNumber);
    assert_eq!(parse_hdr_header(b"-Y -2 +X 2\n").unwrap_err(), HdrError::InvalidResolutionNumber);
    assert_eq!(
        parse_hdr_header(b"-Y 2 +X 99999999999999999999999\n").unwrap_err(),
        HdrError::InvalidResolutionNumber
    );
    assert_eq!(parse_hdr_header(b"-Y 2 Xa 3\n").unwrap_err(), HdrError::InvalidAxisToken);
    assert_eq!(parse_hdr_header(b"XY 2 -Y 3\n").unwrap_err(), HdrError::MissingWidth);
    assert_eq!(parse_hdr_header(b"YX 2 -X 3\n").unwrap_err(), HdrError::MissingHeight);
}

#[test]
fn header_unicode_whitespace_separates_tokens() {
    let bytes = file("-Y\u{3000}2 +X\u{a0}3\n", &[]);
    let (width, height, _, _) = parse_hdr_header(&bytes).unwrap();
    assert_eq!((width, height), (3, 2));
}

#[test]
fn flat_pixels_in_file_order() {
    let pixels: Vec<u8> = (0u8..16).collect();
    let image = decode(&file("-Y 2 +X 2\n", &pixels)).unwrap();
    assert_eq!((image.width, image.height), (2, 2));
    assert_eq!(image.data, pixels);
}

#[test]
fn flat_pixels_flipped_vertically() {
    let pixels: Vec<u8> = (0u8..16).collect();
    let image = decode(&file("+Y 2 +X 2\n", &pixels)).unwrap();
    let expected: Vec<u8> = vec![8, 9, 10, 11, 12, 13, 14, 15, 0, 1, 2, 3, 4, 5, 6, 7];
    assert_eq!(image.data, expected);
}

#[test]
fn flat_pixels_flipped_horizontally() {
    let pixels: Vec<u8> = (0u8..16).collect();
    let image = decode(&file("-Y 2 -X 2\n", &pixels)).unwrap();
    let expected: Vec<u8> = vec![4, 5, 6, 7, 0, 1, 2, 3, 12, 13, 14, 15, 8, 9, 10, 11];
    assert_eq!(image.data, expected);
}

#[test]
fn flat_pixels_cut_short() {
    let pixels: Vec<u8> = (0u8..15).collect();
    assert_eq!(decode(&file("-Y 2 +X 2\n", &pixels)).unwrap_err(), HdrError::UnexpectedEndOfFlatData);
}

#[test]
fn empty_image_decodes() {
    let image = decode(&file("-Y 0 +X 9\n", &[])).unwrap();
    assert_eq!((image.width, image.height), (9, 0));
    assert!(image.data.is_empty());
}

fn rle_channel_literal(values: &[u8]) -> Vec<u8> {
    let mut out = vec![values.len() as u8];
    out.extend_from_slice(values);
    out
}

#[test]
fn rle_scanline_with_runs_and_literals() {
    // One scanline of 8 pixels: red as one repeat run, green as two literal
    // runs, blue as a repeat and a literal run, exponent as one repeat run.
    let mut pixels = vec![2, 2, 0, 8];
    pixels.extend_from_slice(&[128 + 8, 10]);
    pixels.extend_from_slice(&[3, 1, 2, 3, 5, 4, 5, 6, 7, 8]);
    pixels.extend_from_slice(&[128 + 6, 0, 2, 9, 9]);
    pixels.extend_from_slice(&[128 + 8, 130]);
    let image = decode(&file("-Y 1 +X 8\n", &pixels)).unwrap();
    let mut expected = Vec::new();
    let green = [1, 2, 3, 4, 5, 6, 7, 8];
    let blue = [0, 0, 0, 0, 0, 0, 9, 9];
    for x in 0..8 {
        expected.extend_from_slice(&[10, green[x], blue[x], 130]);
    }
    assert_eq!(image.data, expected);
}

#[test]
fn rle_two_rows_bottom_up() {
    let mut pixels = Vec::new();
    for row in 0..2u8 {
        pixels.extend_from_slice(&[2, 2, 0, 8]);
        for channel in 0..4u8 {
            pixels.extend_from_slice(&[128 + 8, row * 10 + channel]);
        }
    }
    let image = decode(&file("+Y 2 +X 8\n", &pixels)).unwrap();
    assert_eq!(&image.data[0..4], &[10, 11, 12, 13]);
    assert_eq!(&image.data[32..36], &[0, 1, 2, 3]);
}

#[test]
fn rle_marker_mismatch_falls_back_to_flat() {
    let pixels: Vec<u8> = (0u8..32).map(|v| v + 1).collect();
    let image = decode(&file("-Y 1 +X 8\n", &pixels)).unwrap();
    assert_eq!(image.data, pixels);
}

#[test]
fn rle_fallback_rereads_from_the_failing_row() {
    // The first row is run-length encoded, the second is not: the whole
    // image is then read as flat data from the second row's offset.
    let mut pixels = vec![2, 2, 0, 8];
    for channel in 0..4u8 {
        pixels.extend_from_slice(&rle_channel_literal(&[channel; 8]));
    }
    let flat: Vec<u8> = (100u8..164).collect();
    pixels.extend_from_slice(&flat);
    let image = decode(&file("-Y 2 +X 8\n", &pixels)).unwrap();
    assert_eq!(image.data, flat);
}

#[test]
fn rle_errors() {
    assert_eq!(decode(&file("-Y 1 +X 8\n", &[2, 2, 0])).unwrap_err(), HdrError::UnexpectedEndOfData);
    assert_eq!(
        decode(&file("-Y 1 +X 8\n", &[2, 2, 0, 8, 128 + 4, 1])).unwrap_err(),
        HdrError::UnexpectedEndOfScanline
    );
    assert_eq!(
        decode(&file("-Y 1 +X 8\n", &[2, 2, 0, 8, 128 + 9, 1])).unwrap_err(),
        HdrError::InvalidRleRun
    );
    assert_eq!(decode(&file("-Y 1 +X 8\n", &[2, 2, 0, 8, 128 + 8])).unwrap_err(), HdrError::InvalidRleRun);
    assert_eq!(decode(&file("-Y 1 +X 8\n", &[2, 2, 0, 8, 0, 1])).unwrap_err(), HdrError::InvalidLiteralRun);
    assert_eq!(
        decode(&file("-Y 1 +X 8\n", &[2, 2, 0, 8, 9, 1, 2, 3, 4, 5, 6, 7, 8, 9])).unwrap_err(),
        HdrError::InvalidLiteralRun
    );
    assert_eq!(decode(&file("-Y 1 +X 8\n", &[2, 2, 0, 8, 3, 1])).unwrap_err(), HdrError::InvalidLiteralRun);
}

#[test]
fn decode_reports_header_errors() {
    assert_eq!(decode(b"#?RADIANCE\n").unwrap_err(), HdrError::UnexpectedEndOfHeader);
}

#[test]
fn remap_values() {
    let standard = HdrOrientation { x_positive: true, y_positive: false };
    assert_eq!(standard.remap(1, 2, 4, 5), (1, 2));
    let flipped = HdrOrientation { x_positive: false, y_positive: true };
    assert_eq!(flipped.remap(1, 2, 4, 5), (2, 2));
    assert_eq!(flipped.remap(0, 0, 4, 5), (3, 4));
    assert_eq!(flipped.remap(flipped.remap(0, 0, 4, 5).0, flipped.remap(0, 0, 4, 5).1, 4, 5), (0, 0));
}

fn literal_runs(values: &[u8]) -> Vec<u8> {
    let mut out = Vec::new();
    for chunk in values.chunks(128) {
        out.push(chunk.len() as u8);
        out.extend_from_slice(chunk);
    }
    out
}

#[test]
fn rle_and_flat_storage_agree() {
    let width = 130usize;
    let height = 3usize;
    let mut pixels: Vec<[u8; 4]> = Vec::new();
    for y in 0..height {
        for x in 0..width {
            pixels.push([(x % 251) as u8, (y * 7) as u8, ((x + y) % 256) as u8, 128]);
        }
    }
    let mut rle = Vec::new();
    for y in 0..height {
        rle.extend_from_slice(&[2, 2, (width >> 8) as u8, (width & 0xff) as u8]);
        for c in 0..4 {
            let values: Vec<u8> = (0..width).map(|x| pixels[y * width + x][c]).collect();
            rle.extend_from_slice(&literal_runs(&values));
        }
    }
    let flat: Vec<u8> = pixels.iter().flat_map(|p| p.iter().copied()).collect();
    let header = format!("-Y {height} +X {width}\n");
    let from_rle = decode(&file(&header, &rle)).unwrap();
    let from_flat = decode(&file(&header, &flat)).unwrap();
    assert_eq!(from_rle.data, flat);
    assert_eq!(from_flat.data, flat);
}

#[test]
fn flat_data_that_looks_like_a_scanline_is_read_as_one() {
    // A first pixel of 2, 2, 0, 8 reads as a run-length marker for width 8.
    let mut pixels = vec![2u8, 2, 0, 8];
    pixels.extend(std::iter::repeat(1u8).take(28));
    assert!(decode(&file("-Y 1 +X 8\n", &pixels)).is_err());
}

#[test]
fn decoding_is_a_function_of_the_file() {
    let pixels: Vec<u8> = (0u8..64).collect();
    let bytes = file("+Y 4 -X 4\n", &pixels);
    let first = decode(&bytes).unwrap();
    let second = decode(&bytes).unwrap();
    assert_eq!(first.data, second.data);
    assert_eq!(first.data.len(), 64);
}
