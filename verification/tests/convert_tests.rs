use domino_maker::{convert, normalize, ConvertError, Domino};
use image::codecs::png::PngEncoder;
use image::{ExtendedColorType, GenericImageView, ImageEncoder};

/// Encode a single-channel image of the given size as PNG bytes, with the
/// pixel at (x, y) given by `f`.
fn luma_png(width: u32, height: u32, f: impl Fn(u32, u32) -> u8) -> Vec<u8> {
    let mut pixels = Vec::new();
    for y in 0..height {
        for x in 0..width {
            pixels.push(f(x, y));
        }
    }
    let mut out = Vec::new();
    PngEncoder::new(&mut out)
        .write_image(&pixels, width, height, ExtendedColorType::L8)
        .unwrap();
    out
}

fn strings(rows: &[&[&str]]) -> Vec<Vec<String>> {
    rows.iter()
        .map(|row| row.iter().map(|s| s.to_string()).collect())
        .collect()
}

#[test]
fn all_black_three_by_two() {
    let input = luma_png(40, 56, |_, _| 0);
    let result = convert(&input, (3, 2)).unwrap();
    assert_eq!(result.map, strings(&[&["3b"], &["3b"]]));
    assert_eq!(result.black_count, 6);
    assert_eq!(result.white_count, 0);
}

#[test]
fn all_white_three_by_two() {
    let input = luma_png(40, 56, |_, _| 255);
    let result = convert(&input, (3, 2)).unwrap();
    assert_eq!(result.map, strings(&[&["3w"], &["3w"]]));
    assert_eq!(result.white_count, 6);
    assert_eq!(result.black_count, 0);
}

#[test]
fn single_cell() {
    let input = luma_png(16, 16, |_, _| 0);
    let result = convert(&input, (1, 1)).unwrap();
    let decoded = image::load_from_memory(&result.bytes).unwrap();
    assert_eq!(decoded.dimensions(), (8, 24));
    // The single cell is black, so the repainted, re-encoded image is
    // dark everywhere (allowing for lossy encoding).
    assert!(decoded.to_luma8().get_pixel(4, 12)[0] < 32);
    assert_eq!(result.map.len(), 1);
    assert_eq!(result.map[0].len(), 1);
    assert!(result.map[0][0] == "1b" || result.map[0][0] == "1w");
    assert_eq!(result.map, strings(&[&["1b"]]));
}

#[test]
fn zero_columns_rejected() {
    let input = luma_png(16, 16, |_, _| 0);
    let result = convert(&input, (0, 1));
    assert!(matches!(result, Err(ConvertError::InvalidBoardSize)));
}

#[test]
fn zero_rows_rejected() {
    let input = luma_png(16, 16, |_, _| 0);
    let result = convert(&input, (1, 0));
    assert!(matches!(result, Err(ConvertError::InvalidBoardSize)));
}

#[test]
fn output_geometry() {
    let input = luma_png(100, 80, |x, y| (x + y) as u8);
    let result = convert(&input, (5, 3)).unwrap();
    let decoded = image::load_from_memory(&result.bytes).unwrap();
    assert_eq!(decoded.dimensions(), (8 * (2 * 5 - 1), 8 * (4 * 3 - 1)));
}

#[test]
fn deterministic() {
    let input = luma_png(100, 80, |x, y| (3 * x + 7 * y) as u8);
    let first = convert(&input, (4, 3)).unwrap();
    let second = convert(&input, (4, 3)).unwrap();
    assert_eq!(first.bytes, second.bytes);
    assert_eq!(first.map, second.map);
    assert_eq!(first.white_count, second.white_count);
    assert_eq!(first.black_count, second.black_count);
}

#[test]
fn mixed_runs_merge_and_conserve() {
    // An input already at the exact target size for a 4 x 1 board, with
    // cell colors black, white, white, black.
    let cell_colors = [0u8, 255, 255, 0];
    let input = luma_png(56, 24, |x, _| {
        if x % 16 < 8 {
            cell_colors[(x / 16) as usize]
        } else {
            0x80
        }
    });
    let result = convert(&input, (4, 1)).unwrap();
    assert_eq!(result.map, strings(&[&["1b", "2w", "1b"]]));
    assert_eq!(result.white_count, 2);
    assert_eq!(result.black_count, 2);
    // Run-sum conservation: counts in the row sum to the column count.
    let total: u32 = result.map[0]
        .iter()
        .map(|s| s[..s.len() - 1].parse::<u32>().unwrap())
        .sum();
    assert_eq!(total, 4);
    // Cell-count conservation over the whole board.
    assert_eq!(result.white_count + result.black_count, 4);
}

#[test]
fn multi_digit_label() {
    let input = luma_png(184, 24, |_, _| 255);
    let result = convert(&input, (12, 1)).unwrap();
    assert_eq!(result.map, strings(&[&["12w"]]));
    assert_eq!(result.white_count, 12);
    assert_eq!(result.black_count, 0);
}

#[test]
fn unguessable_input_rejected() {
    let result = convert(b"definitely not an image", (3, 2));
    assert!(matches!(result, Err(ConvertError::InvalidInput)));
}

#[test]
fn undecodable_payload_rejected() {
    // A valid PNG signature followed by garbage: the format is guessed
    // but the payload cannot be decoded.
    let mut bytes = vec![0x89u8, 0x50, 0x4e, 0x47, 0x0d, 0x0a, 0x1a, 0x0a];
    bytes.extend_from_slice(&[0u8; 32]);
    let result = convert(&bytes, (3, 2));
    assert!(matches!(result, Err(ConvertError::UnsupportedFormat)));
}

#[test]
fn oversize_board_fails_encode() {
    // Boards whose rendered image would exceed the JPEG dimension cap of
    // 65535 pixels cannot be encoded: 4097 columns need 8*(2*4097-1) =
    // 65544 pixels of width, 2049 rows need 65560 of height.
    let input = luma_png(16, 16, |_, _| 0);
    let result = convert(&input, (4097, 1));
    assert!(matches!(result, Err(ConvertError::EncodeFailure)));
    let result = convert(&input, (1, 2049));
    assert!(matches!(result, Err(ConvertError::EncodeFailure)));
    // The widest encodable board in one row: 8*(2*4096-1) = 65528 wide.
    let result = convert(&input, (4096, 1)).unwrap();
    assert_eq!(result.white_count + result.black_count, 4096);
}

#[test]
fn normalize_binarizes() {
    let dark = luma_png(30, 30, |_, _| 100);
    let v = normalize(&dark, (1, 1)).unwrap();
    assert_eq!(v.len(), 8 * 24);
    assert!(v.iter().all(|&p| p == 0));

    let bright = luma_png(30, 30, |_, _| 200);
    let v = normalize(&bright, (1, 1)).unwrap();
    assert_eq!(v.len(), 8 * 24);
    assert!(v.iter().all(|&p| p == 255));
}

#[test]
fn threshold_midpoint() {
    let below = luma_png(24, 24, |_, _| 127);
    let result = convert(&below, (2, 1)).unwrap();
    assert_eq!(result.map, strings(&[&["2b"]]));

    let at = luma_png(24, 24, |_, _| 128);
    let result = convert(&at, (2, 1)).unwrap();
    assert_eq!(result.map, strings(&[&["2w"]]));
}

#[test]
fn domino_color_values() {
    assert_eq!(Domino::Black(3).color(), 0x00);
    assert_eq!(Domino::White(1).color(), 0xff);
}
