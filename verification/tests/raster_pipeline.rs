use printer_monitor::raster::{
    escpos_target_width, floyd_steinberg, gray_from_rgba, pdf_to_escpos,
    raster_to_escpos_gsvzero, GrayRaster, RgbaRaster,
};

fn gray(width: u32, height: u32, pixels: Vec<u8>) -> GrayRaster {
    GrayRaster { width, height, pixels }
}

#[test]
fn gray_uses_integer_luma_weights() {
    let img = RgbaRaster {
        width: 3,
        height: 1,
        data: vec![255, 0, 0, 255, 0, 255, 0, 0, 200, 200, 200, 7],
    };
    let g = gray_from_rgba(&img);
    assert_eq!(g.width, 3);
    assert_eq!(g.height, 1);
    // 255*299/1000 = 76, 255*587/1000 = 149, gray stays gray; alpha ignored.
    assert_eq!(g.pixels, vec![76, 149, 200]);
}

#[test]
fn dithering_carries_error_to_the_right() {
    // 100 -> black, error 100; right neighbour becomes 100 + 700/16 = 143 -> white.
    let r = floyd_steinberg(&gray(2, 1, vec![100, 100]));
    assert_eq!(r.pixels, vec![0, 255]);
}

#[test]
fn dithering_carries_negative_error_down() {
    // 200 -> white, error -55; pixel below becomes 100 - 275/16 = 83 -> black.
    let r = floyd_steinberg(&gray(1, 2, vec![200, 100]));
    assert_eq!(r.pixels, vec![255, 0]);
}

#[test]
fn dithering_two_by_two() {
    let r = floyd_steinberg(&gray(2, 2, vec![200, 0, 100, 100]));
    assert_eq!((r.width, r.height), (2, 2));
    assert_eq!(r.pixels, vec![255, 0, 0, 255]);
}

#[test]
fn dithering_output_is_one_bit() {
    let pixels: Vec<u8> = (0..64u32).map(|i| (i * 4) as u8).collect();
    let r = floyd_steinberg(&gray(8, 8, pixels));
    assert!(r.pixels.iter().all(|&p| p == 0 || p == 255));
    assert_eq!(r.pixels.len(), 64);
}

#[test]
fn gsv0_header_and_rows() {
    let out = raster_to_escpos_gsvzero(&gray(2, 2, vec![255, 0, 0, 255]));
    assert_eq!(out, vec![0x1d, 0x76, 0x30, 0x00, 1, 0, 2, 0, 0x40, 0x80]);
}

#[test]
fn gsv0_wide_rows_and_dark_threshold() {
    // 10 pixels wide: two bytes per row; 127 is dark, 128 is not.
    let pixels = vec![0, 255, 255, 255, 255, 255, 255, 127, 128, 0];
    let out = raster_to_escpos_gsvzero(&gray(10, 1, pixels));
    assert_eq!(out, vec![0x1d, 0x76, 0x30, 0x00, 2, 0, 1, 0, 0b1000_0001, 0b0100_0000]);
}

#[test]
fn gsv0_header_splits_large_sizes() {
    let out = raster_to_escpos_gsvzero(&gray(8, 300, vec![255; 2400]));
    assert_eq!(&out[..8], &[0x1d, 0x76, 0x30, 0x00, 1, 0, 0x2c, 0x01]);
    assert_eq!(out.len(), 8 + 300);
    assert!(out[8..].iter().all(|&b| b == 0));
}

#[test]
fn pages_to_escpos_stream() {
    let page = RgbaRaster {
        width: 2,
        height: 2,
        data: vec![
            200, 200, 200, 255, 0, 0, 0, 255, 100, 100, 100, 255, 100, 100, 100, 255,
        ],
    };
    let out = pdf_to_escpos(&vec![page]);
    let expected = vec![
        0x1b, 0x40, 0x1d, 0x76, 0x30, 0x00, 1, 0, 2, 0, 0x40, 0x80, 0x0a, 0x0a, 0x0a, 0x0a, 0x1d,
        0x56, 0x42, 0x00,
    ];
    assert_eq!(out, expected);
}

#[test]
fn no_pages_gives_init_feed_and_cut() {
    let out = pdf_to_escpos(&vec![]);
    assert_eq!(out, vec![0x1b, 0x40, 0x0a, 0x0a, 0x0a, 0x1d, 0x56, 0x42, 0x00]);
}

#[test]
fn target_widths_by_paper() {
    assert_eq!(escpos_target_width("58mm"), 384);
    assert_eq!(escpos_target_width("80mm"), 832);
    assert_eq!(escpos_target_width("50mm"), 576);
}
