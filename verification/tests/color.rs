use plurimus::camera::{camera_buffer, Background, ExtractedCamera, TerminalSize};
use plurimus::color::{downsample, downsample_frame, ColorDepth};
use plurimus::compositor::composite;
use plurimus::geometry::{Position, Rect};
use plurimus::style::{Color, Style};

#[test]
fn truecolor_and_non_rgb_colors_pass_through() {
    let rgb = Color::Rgb(12, 34, 56);
    assert_eq!(downsample(rgb, ColorDepth::TrueColor), rgb);
    assert_eq!(downsample(Color::Magenta, ColorDepth::Ansi256), Color::Magenta);
    assert_eq!(downsample(Color::Indexed(42), ColorDepth::Ansi16), Color::Indexed(42));
}

#[test]
fn ansi256_maps_cube_corners_to_cube_indices() {
    assert_eq!(downsample(Color::Rgb(0, 0, 0), ColorDepth::Ansi256), Color::Indexed(16));
    assert_eq!(downsample(Color::Rgb(255, 0, 0), ColorDepth::Ansi256), Color::Indexed(196));
    assert_eq!(downsample(Color::Rgb(255, 255, 255), ColorDepth::Ansi256), Color::Indexed(231));
}

#[test]
fn ansi256_prefers_the_gray_ramp_for_grays() {
    assert_eq!(downsample(Color::Rgb(128, 128, 128), ColorDepth::Ansi256), Color::Indexed(244));
    assert_eq!(downsample(Color::Rgb(8, 8, 8), ColorDepth::Ansi256), Color::Indexed(232));
}

#[test]
fn ansi16_picks_the_nearest_standard_color() {
    assert_eq!(downsample(Color::Rgb(200, 30, 30), ColorDepth::Ansi16), Color::LightRed);
    assert_eq!(downsample(Color::Rgb(0, 100, 0), ColorDepth::Ansi16), Color::Green);
    assert_eq!(downsample(Color::Rgb(250, 250, 250), ColorDepth::Ansi16), Color::White);
}

/// Recolors only if the composed cell still holds the raw rasterized RGB,
/// so running before merge or after downsample leaves the frame red.
fn recolor_raw_red(frame: &mut plurimus::buffer::Buffer) {
    let cell = &mut frame.content[0];
    if cell.fg == Color::Rgb(255, 0, 0) {
        cell.fg = Color::Rgb(0, 255, 0);
    }
}

#[test]
fn post_process_runs_between_merge_and_downsample() {
    let area = Rect::new(0, 0, 2, 1);
    let mut buffer = camera_buffer(area, Background::TerminalDefault);
    buffer.set_stringn(0, 0, "R", usize::MAX, Style::new().fg(Color::Rgb(255, 0, 0)));
    let layers = vec![(ExtractedCamera::new(0, area, Background::TerminalDefault), buffer)];

    let mut frame = composite(TerminalSize::new(2, 1), &layers);
    recolor_raw_red(&mut frame);
    downsample_frame(&mut frame, ColorDepth::Ansi16);

    assert_eq!(frame.cell(Position::new(0, 0)).unwrap().fg, Color::LightGreen);
}

#[test]
fn downsampling_twice_changes_nothing_more() {
    for depth in [ColorDepth::Ansi256, ColorDepth::Ansi16] {
        for rgb in [(0u8, 0u8, 0u8), (13, 200, 77), (128, 128, 128), (255, 1, 254)] {
            let once = downsample(Color::Rgb(rgb.0, rgb.1, rgb.2), depth);
            assert_eq!(downsample(once, depth), once);
        }
    }
}
