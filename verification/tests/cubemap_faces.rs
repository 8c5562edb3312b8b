use alloy::cubemap::{fetch_rgba, generate_cubemap_face_pixels};

#[test]
fn fetch_rgba_reads_four_bytes() {
    let source: Vec<u8> = (0u8..24).collect();
    assert_eq!(fetch_rgba(&source, 3, 0, 0), [0, 1, 2, 3]);
    assert_eq!(fetch_rgba(&source, 3, 2, 1), [20, 21, 22, 23]);
    assert_eq!(fetch_rgba(&source, 2, 1, 1), [12, 13, 14, 15]);
}

#[test]
fn face_of_size_zero_has_one_pixel() {
    let pixels = generate_cubemap_face_pixels(0, |x, y, size| (x as u8, y as u8, size as u8, 255));
    assert_eq!(pixels, vec![0, 0, 1, 255]);
}

#[test]
fn face_pixels_are_row_major() {
    let pixels = generate_cubemap_face_pixels(2, |x, y, size| (x as u8, y as u8, size as u8, 9));
    assert_eq!(pixels.len(), 16);
    assert_eq!(pixels, vec![0, 0, 2, 9, 1, 0, 2, 9, 0, 1, 2, 9, 1, 1, 2, 9]);
    assert_eq!(fetch_rgba(&pixels, 2, 1, 1), [1, 1, 2, 9]);
}
