use plurimus::geometry::Rect;
use plurimus::render3d::{
    align_copy_bytes_per_row, cell_source_coords, copy_unpadded, depth_row_stride, frame_dest,
    keeps_depth, mask_losing_cells, pixel_at, pixels_per_cell, unpadded_rows, EdgeCharacters, EdgeSource,
    ReadbackFrame, StrategyKind, Supersample,
};

const PADDING: u8 = 0xEE;

fn padded_rows(width: usize, rows: usize, stride: usize) -> Vec<u8> {
    let mut padded = vec![PADDING; stride * rows];
    for row in 0..rows {
        let marker = row as u8 + 1;
        padded[row * stride..row * stride + width * 4].fill(marker);
    }
    padded
}

#[test]
fn braille_targets_render_at_dot_density() {
    assert_eq!(pixels_per_cell(StrategyKind::Braille), (2, 4));
    assert_eq!(pixels_per_cell(StrategyKind::Halfblocks), (1, 2));
}

#[test]
fn strips_row_padding_from_unaligned_widths() {
    let bytes = padded_rows(80, 2, 512);
    let mut frame = ReadbackFrame::default();

    copy_unpadded(&bytes, (80, 2), &mut frame);

    assert_eq!(frame.pixels.len(), 80 * 4 * 2);
    assert!(frame.pixels[..80 * 4].iter().all(|byte| *byte == 1));
    assert!(frame.pixels[80 * 4..].iter().all(|byte| *byte == 2));
}

#[test]
fn aligned_widths_copy_without_padding() {
    let bytes = padded_rows(64, 3, 256);
    let mut frame = ReadbackFrame::default();

    copy_unpadded(&bytes, (64, 3), &mut frame);

    assert_eq!(frame.pixels.len(), 64 * 4 * 3);
    assert_eq!(frame.pixels[64 * 4 * 2], 3);
    assert!(!frame.pixels.contains(&PADDING));
}

#[test]
fn target_stale_short_data_keeps_the_previous_frame() {
    let mut frame = ReadbackFrame { pixels: vec![7; 16], size: (2, 2) };

    copy_unpadded(&[0; 64], (80, 2), &mut frame);

    assert_eq!(frame.pixels, vec![7; 16]);
    assert_eq!(frame.size, (2, 2));
}

#[test]
fn single_row_needs_no_stride_beyond_its_pixels() {
    let bytes = padded_rows(3, 1, 256);
    let mut frame = ReadbackFrame::default();

    copy_unpadded(&bytes[..12], (3, 1), &mut frame);

    assert_eq!(frame.pixels.len(), 12);
}

#[test]
fn row_pitches_round_up_to_the_copy_alignment() {
    assert_eq!(align_copy_bytes_per_row(0), 0);
    assert_eq!(align_copy_bytes_per_row(1), 256);
    assert_eq!(align_copy_bytes_per_row(256), 256);
    assert_eq!(align_copy_bytes_per_row(320), 512);
    assert_eq!(depth_row_stride(80), 512);
    assert_eq!(unpadded_rows(511, 320, 2), None);
    assert_eq!(unpadded_rows(832, 320, 2), Some(512));
    assert_eq!(unpadded_rows(832, 320, 0), None);
}

#[test]
fn letterboxed_dest_centers_the_frame() {
    let area = Rect::new(0, 0, 10, 4);
    assert_eq!(frame_dest(StrategyKind::Halfblocks, false, (4, 4), area), area);
    assert_eq!(frame_dest(StrategyKind::Halfblocks, true, (4, 4), area), Rect::new(3, 1, 4, 2));
    assert_eq!(frame_dest(StrategyKind::Braille, true, (100, 100), area), area);
}

#[test]
fn cells_sample_their_ratio_mapped_source_rows() {
    assert_eq!(cell_source_coords((4, 8), Rect::new(0, 0, 4, 4), (1, 1)), (1, 2, 3));
    assert_eq!(cell_source_coords((8, 16), Rect::new(0, 0, 4, 4), (3, 3)), (6, 12, 14));
    let pixels = [1u8, 2, 3, 4, 5, 6, 7, 8];
    assert_eq!(pixel_at(&pixels, 2, 1, 0), [5, 6, 7, 8]);
}

fn every_alpha_is(pixels: &[u8], alpha: u8) -> bool {
    pixels.chunks(4).all(|pixel| pixel[3] == alpha)
}

#[test]
fn lost_cells_mask_their_pixels_only() {
    let dest = Rect::new(0, 0, 2, 1);
    let mut pixels = vec![255u8; 2 * 2 * 4];
    mask_losing_cells(&[false, false], dest, &mut pixels, (2, 2));
    assert!(every_alpha_is(&pixels, 255));

    mask_losing_cells(&[true, false], dest, &mut pixels, (2, 2));
    assert_eq!(pixels[3], 0);
    assert_eq!(pixels[7], 255);
    assert_eq!(pixels[11], 0);
    assert_eq!(pixels[15], 255);
    assert_eq!(pixels[0], 255, "only alpha changes");

    mask_losing_cells(&[true, true], dest, &mut pixels, (2, 2));
    assert!(every_alpha_is(&pixels, 0));
}

#[test]
fn edge_sources_read_what_they_name() {
    assert!(EdgeSource::default().reads_luminance());
    assert!(!EdgeSource::Luminance.reads_depth());
    assert!(EdgeSource::Depth.reads_depth() && !EdgeSource::Depth.reads_luminance());
    assert!(EdgeSource::Both.reads_depth() && EdgeSource::Both.reads_luminance());
    let characters = EdgeCharacters::default();
    assert_eq!(characters.vertical, '|');
    assert_eq!(characters.falling, '\\');
}

#[test]
fn supersampling_refuses_zero() {
    assert!(Supersample::new(0).is_none());
    assert_eq!(Supersample::new(3).unwrap().factor(), 3);
}

#[test]
fn only_occlusion_and_the_depth_strategy_keep_depths() {
    assert!(keeps_depth(StrategyKind::Depth, false));
    assert!(keeps_depth(StrategyKind::Halfblocks, true));
    assert!(!keeps_depth(StrategyKind::Halfblocks, false));
    assert!(!keeps_depth(StrategyKind::Luminance, false));
    assert!(!keeps_depth(StrategyKind::Braille, false));
    assert!(!keeps_depth(StrategyKind::Unconverted, false));
}
