//! Matching the frame's colors to what the terminal can actually show.
//!
//! Pipelines always work in true color; the frame is quantized once, after
//! compositing and before present, so nothing upstream has to know what the
//! terminal supports. [`ColorDepth`] picks the target - the xterm 256 cube
//! plus its grayscale ramp, or the 16 named ANSI colors - and only
//! `Color::Rgb` values are touched, so a widget that asked for
//! `Color::Green` still gets the terminal's green at every depth.

use vstd::prelude::*;

use crate::buffer::Buffer;
use crate::style::Color;

verus! {

/// Output color depth of the composed frame. `TrueColor` passes RGB
/// through untouched; the other depths quantize every `Color::Rgb` in the
/// frame after compositing, before present.
#[derive(Clone, Copy, Debug, PartialEq, Eq, Structural)]
pub enum ColorDepth {
    /// 24-bit RGB pass-through.
    TrueColor,
    /// The xterm 256-color palette: 6x6x6 cube plus grayscale ramp.
    Ansi256,
    /// The 16 standard ANSI colors.
    Ansi16,
}

impl Default for ColorDepth {
    /// True color.
    fn default() -> (d: ColorDepth)
        ensures
            d == ColorDepth::TrueColor,
    {
        ColorDepth::TrueColor
    }
}

/// The six channel levels of the xterm color cube.
pub open spec fn cube_level(k: int) -> int {
    if k == 0 {
        0
    } else if k == 1 {
        95
    } else if k == 2 {
        135
    } else if k == 3 {
        175
    } else if k == 4 {
        215
    } else {
        255
    }
}

/// The distance between two channel values.
pub open spec fn abs_diff(a: int, b: int) -> int {
    if a >= b {
        a - b
    } else {
        b - a
    }
}

/// Level `k` is the first of the six cube levels nearest to `channel`.
pub open spec fn is_nearest_level(channel: int, k: int) -> bool {
    &&& 0 <= k < 6
    &&& forall|j: int|
        0 <= j < 6 ==> abs_diff(channel, cube_level(k)) <= abs_diff(channel, #[trigger] cube_level(j))
    &&& forall|j: int|
        0 <= j < k ==> abs_diff(channel, cube_level(k)) < abs_diff(channel, #[trigger] cube_level(j))
}

/// Squared euclidean distance between two RGB triples.
pub open spec fn distance_spec(a: (u8, u8, u8), b: (u8, u8, u8)) -> int {
    (a.0 - b.0) * (a.0 - b.0) + (a.1 - b.1) * (a.1 - b.1) + (a.2 - b.2) * (a.2 - b.2)
}

/// The grayscale ramp step nearest to the channel average of `rgb`.
pub open spec fn gray_step(rgb: (u8, u8, u8)) -> int {
    let average = (rgb.0 + rgb.1 + rgb.2) / 3;
    let raised = if average >= 8 {
        average - 8
    } else {
        0
    };
    let step = (raised + 5) / 10;
    if step > 23 {
        23
    } else {
        step
    }
}

/// The sixteen ANSI colors with the RGB each stands for, in palette order.
pub open spec fn ansi16_entry(k: int) -> (Color, (u8, u8, u8)) {
    if k == 0 {
        (Color::Black, (0, 0, 0))
    } else if k == 1 {
        (Color::Red, (128, 0, 0))
    } else if k == 2 {
        (Color::Green, (0, 128, 0))
    } else if k == 3 {
        (Color::Yellow, (128, 128, 0))
    } else if k == 4 {
        (Color::Blue, (0, 0, 128))
    } else if k == 5 {
        (Color::Magenta, (128, 0, 128))
    } else if k == 6 {
        (Color::Cyan, (0, 128, 128))
    } else if k == 7 {
        (Color::Gray, (192, 192, 192))
    } else if k == 8 {
        (Color::DarkGray, (128, 128, 128))
    } else if k == 9 {
        (Color::LightRed, (255, 0, 0))
    } else if k == 10 {
        (Color::LightGreen, (0, 255, 0))
    } else if k == 11 {
        (Color::LightYellow, (255, 255, 0))
    } else if k == 12 {
        (Color::LightBlue, (0, 0, 255))
    } else if k == 13 {
        (Color::LightMagenta, (255, 0, 255))
    } else if k == 14 {
        (Color::LightCyan, (0, 255, 255))
    } else {
        (Color::White, (255, 255, 255))
    }
}

/// Entry `k` is the first of the sixteen ANSI colors nearest to `rgb`.
pub open spec fn is_nearest_ansi16(rgb: (u8, u8, u8), k: int) -> bool {
    &&& 0 <= k < 16
    &&& forall|j: int|
        0 <= j < 16 ==> distance_spec(rgb, ansi16_entry(k).1) <= distance_spec(
            rgb,
            #[trigger] ansi16_entry(j).1,
        )
    &&& forall|j: int|
        0 <= j < k ==> distance_spec(rgb, ansi16_entry(k).1) < distance_spec(
            rgb,
            #[trigger] ansi16_entry(j).1,
        )
}

/// The palette index and RGB of the cube entry nearest `rgb`, channel by
/// channel.
pub open spec fn cube_entry_of(rgb: (u8, u8, u8), r: int, g: int, b: int) -> (u8, (u8, u8, u8)) {
    (
        (16 + 36 * r + 6 * g + b) as u8,
        (cube_level(r) as u8, cube_level(g) as u8, cube_level(b) as u8),
    )
}

/// What `downsample` makes of an RGB triple at the 256-color depth: the
/// gray ramp entry when it is strictly closer than the nearest cube entry.
pub open spec fn ansi256_of(rgb: (u8, u8, u8), r: int, g: int, b: int) -> Color {
    let cube = cube_entry_of(rgb, r, g, b);
    let step = gray_step(rgb);
    let gray_level = (8 + 10 * step) as u8;
    if distance_spec(rgb, (gray_level, gray_level, gray_level)) < distance_spec(rgb, cube.1) {
        Color::Indexed((232 + step) as u8)
    } else {
        Color::Indexed(cube.0)
    }
}

/// `downsample`'s result: `color` unchanged unless it is RGB at a reduced
/// depth, which becomes the nearest palette color.
pub open spec fn downsample_spec(color: Color, depth: ColorDepth) -> Color {
    match color {
        Color::Rgb(red, green, blue) => match depth {
            ColorDepth::TrueColor => color,
            ColorDepth::Ansi256 => {
                let rgb = (red, green, blue);
                let r = choose|r: int| is_nearest_level(red as int, r);
                let g = choose|g: int| is_nearest_level(green as int, g);
                let b = choose|b: int| is_nearest_level(blue as int, b);
                ansi256_of(rgb, r, g, b)
            },
            ColorDepth::Ansi16 => {
                let k = choose|k: int| is_nearest_ansi16((red, green, blue), k);
                ansi16_entry(k).0
            },
        },
        _ => color,
    }
}

/// The nearest level is unique: two first-nearest levels are the same.
pub proof fn lemma_nearest_level_unique(channel: int, k1: int, k2: int)
    requires
        is_nearest_level(channel, k1),
        is_nearest_level(channel, k2),
    ensures
        k1 == k2,
{
    if k1 < k2 {
        assert(abs_diff(channel, cube_level(k2)) < abs_diff(channel, cube_level(k1)));
        assert(abs_diff(channel, cube_level(k1)) <= abs_diff(channel, cube_level(k2)));
    } else if k2 < k1 {
        assert(abs_diff(channel, cube_level(k1)) < abs_diff(channel, cube_level(k2)));
        assert(abs_diff(channel, cube_level(k2)) <= abs_diff(channel, cube_level(k1)));
    }
}

/// The first-nearest ANSI color is unique.
pub proof fn lemma_nearest_ansi16_unique(rgb: (u8, u8, u8), k1: int, k2: int)
    requires
        is_nearest_ansi16(rgb, k1),
        is_nearest_ansi16(rgb, k2),
    ensures
        k1 == k2,
{
    if k1 < k2 {
        assert(distance_spec(rgb, ansi16_entry(k2).1) < distance_spec(rgb, ansi16_entry(k1).1));
        assert(distance_spec(rgb, ansi16_entry(k1).1) <= distance_spec(rgb, ansi16_entry(k2).1));
    } else if k2 < k1 {
        assert(distance_spec(rgb, ansi16_entry(k1).1) < distance_spec(rgb, ansi16_entry(k2).1));
        assert(distance_spec(rgb, ansi16_entry(k2).1) <= distance_spec(rgb, ansi16_entry(k1).1));
    }
}

/// The channel value of cube level `k`.
fn cube_level_value(k: usize) -> (v: u8)
    requires
        k < 6,
    ensures
        v == cube_level(k as int),
{
    if k == 0 {
        0
    } else if k == 1 {
        95
    } else if k == 2 {
        135
    } else if k == 3 {
        175
    } else if k == 4 {
        215
    } else {
        255
    }
}

/// The first of the six cube levels nearest `channel`.
fn level_of(channel: u8) -> (k: usize)
    ensures
        is_nearest_level(channel as int, k as int),
{
    let mut best: usize = 0;
    let mut best_diff: u8 = channel;
    let mut level: usize = 1;
    while level < 6
        invariant
            1 <= level <= 6,
            best < level,
            best_diff == abs_diff(channel as int, cube_level(best as int)),
            forall|j: int|
                0 <= j < level ==> best_diff <= abs_diff(channel as int, #[trigger] cube_level(j)),
            forall|j: int|
                0 <= j < best ==> best_diff < abs_diff(channel as int, #[trigger] cube_level(j)),
        decreases 6 - level,
    {
        let value = cube_level_value(level);
        let diff = if channel >= value {
            channel - value
        } else {
            value - channel
        };
        if diff < best_diff {
            best = level;
            best_diff = diff;
        }
        level = level + 1;
    }
    best
}

/// Squared distance between two RGB triples.
pub fn distance(a: (u8, u8, u8), b: (u8, u8, u8)) -> (d: u32)
    ensures
        d == distance_spec(a, b),
{
    let d0 = if a.0 >= b.0 {
        (a.0 - b.0) as u32
    } else {
        (b.0 - a.0) as u32
    };
    let d1 = if a.1 >= b.1 {
        (a.1 - b.1) as u32
    } else {
        (b.1 - a.1) as u32
    };
    let d2 = if a.2 >= b.2 {
        (a.2 - b.2) as u32
    } else {
        (b.2 - a.2) as u32
    };
    assert(d0 * d0 <= 255 * 255 && d1 * d1 <= 255 * 255 && d2 * d2 <= 255 * 255) by (nonlinear_arith)
        requires
            d0 <= 255,
            d1 <= 255,
            d2 <= 255,
    ;
    assert(d0 * d0 == (a.0 - b.0) * (a.0 - b.0)) by (nonlinear_arith)
        requires
            d0 == abs_diff(a.0 as int, b.0 as int),
    ;
    assert(d1 * d1 == (a.1 - b.1) * (a.1 - b.1)) by (nonlinear_arith)
        requires
            d1 == abs_diff(a.1 as int, b.1 as int),
    ;
    assert(d2 * d2 == (a.2 - b.2) * (a.2 - b.2)) by (nonlinear_arith)
        requires
            d2 == abs_diff(a.2 as int, b.2 as int),
    ;
    d0 * d0 + d1 * d1 + d2 * d2
}

/// The xterm cube entry nearest `rgb`: its palette index and its RGB.
pub fn nearest_cube(rgb: (u8, u8, u8)) -> (r: (u8, (u8, u8, u8)))
    ensures
        exists|kr: int, kg: int, kb: int|
            is_nearest_level(rgb.0 as int, kr) && is_nearest_level(rgb.1 as int, kg)
                && is_nearest_level(rgb.2 as int, kb) && r == cube_entry_of(rgb, kr, kg, kb),
{
    let red = level_of(rgb.0);
    let green = level_of(rgb.1);
    let blue = level_of(rgb.2);
    let index: u8 = (16 + (red * 6 + green) * 6 + blue) as u8;
    let value = (cube_level_value(red), cube_level_value(green), cube_level_value(blue));
    assert(16 + (red * 6 + green) * 6 + blue == 16 + 36 * red + 6 * green + blue);
    assert(cube_entry_of(rgb, red as int, green as int, blue as int) == (index, value));
    (index, value)
}

/// The grayscale ramp entry nearest the channel average of `rgb`: its
/// palette index and its RGB.
pub fn nearest_gray(rgb: (u8, u8, u8)) -> (r: (u8, (u8, u8, u8)))
    ensures
        r.0 == 232 + gray_step(rgb),
        r.1 == ((8 + 10 * gray_step(rgb)) as u8, (8 + 10 * gray_step(rgb)) as u8, (8 + 10
            * gray_step(rgb)) as u8),
{
    let average: u16 = (rgb.0 as u16 + rgb.1 as u16 + rgb.2 as u16) / 3;
    let raised: u16 = average.saturating_sub(8);
    let step0: u16 = (raised + 5) / 10;
    let step: u16 = if step0 < 23 {
        step0
    } else {
        23
    };
    let level: u8 = (8 + 10 * step) as u8;
    ((232 + step) as u8, (level, level, level))
}

/// The 256-color palette entry nearest `rgb`.
fn nearest_ansi256(rgb: (u8, u8, u8)) -> (c: Color)
    ensures
        c == downsample_spec(Color::Rgb(rgb.0, rgb.1, rgb.2), ColorDepth::Ansi256),
{
    let (cube_index, cube_rgb) = nearest_cube(rgb);
    let (gray_index, gray_rgb) = nearest_gray(rgb);
    proof {
        let kr = choose|r: int| is_nearest_level(rgb.0 as int, r);
        let kg = choose|g: int| is_nearest_level(rgb.1 as int, g);
        let kb = choose|b: int| is_nearest_level(rgb.2 as int, b);
        let (wr, wg, wb) = choose|wr: int, wg: int, wb: int|
            is_nearest_level(rgb.0 as int, wr) && is_nearest_level(rgb.1 as int, wg)
                && is_nearest_level(rgb.2 as int, wb) && (cube_index, cube_rgb) == cube_entry_of(
                rgb,
                wr,
                wg,
                wb,
            );
        lemma_nearest_level_unique(rgb.0 as int, kr, wr);
        lemma_nearest_level_unique(rgb.1 as int, kg, wg);
        lemma_nearest_level_unique(rgb.2 as int, kb, wb);
    }
    if distance(rgb, gray_rgb) < distance(rgb, cube_rgb) {
        Color::Indexed(gray_index)
    } else {
        Color::Indexed(cube_index)
    }
}

/// Entry `k` of the ANSI palette.
fn ansi16_entry_value(k: usize) -> (e: (Color, (u8, u8, u8)))
    requires
        k < 16,
    ensures
        e == ansi16_entry(k as int),
{
    if k == 0 {
        (Color::Black, (0, 0, 0))
    } else if k == 1 {
        (Color::Red, (128, 0, 0))
    } else if k == 2 {
        (Color::Green, (0, 128, 0))
    } else if k == 3 {
        (Color::Yellow, (128, 128, 0))
    } else if k == 4 {
        (Color::Blue, (0, 0, 128))
    } else if k == 5 {
        (Color::Magenta, (128, 0, 128))
    } else if k == 6 {
        (Color::Cyan, (0, 128, 128))
    } else if k == 7 {
        (Color::Gray, (192, 192, 192))
    } else if k == 8 {
        (Color::DarkGray, (128, 128, 128))
    } else if k == 9 {
        (Color::LightRed, (255, 0, 0))
    } else if k == 10 {
        (Color::LightGreen, (0, 255, 0))
    } else if k == 11 {
        (Color::LightYellow, (255, 255, 0))
    } else if k == 12 {
        (Color::LightBlue, (0, 0, 255))
    } else if k == 13 {
        (Color::LightMagenta, (255, 0, 255))
    } else if k == 14 {
        (Color::LightCyan, (0, 255, 255))
    } else {
        (Color::White, (255, 255, 255))
    }
}

/// The ANSI color nearest `rgb`; the earliest in palette order on ties.
fn nearest_ansi16(rgb: (u8, u8, u8)) -> (c: Color)
    ensures
        c == downsample_spec(Color::Rgb(rgb.0, rgb.1, rgb.2), ColorDepth::Ansi16),
{
    let first = ansi16_entry_value(0);
    let mut best: usize = 0;
    let mut best_distance: u32 = distance(rgb, first.1);
    let mut k: usize = 1;
    while k < 16
        invariant
            1 <= k <= 16,
            best < k,
            best_distance == distance_spec(rgb, ansi16_entry(best as int).1),
            forall|j: int|
                0 <= j < k ==> best_distance <= distance_spec(rgb, #[trigger] ansi16_entry(j).1),
            forall|j: int|
                0 <= j < best ==> best_distance < distance_spec(rgb, #[trigger] ansi16_entry(j).1),
        decreases 16 - k,
    {
        let entry = ansi16_entry_value(k);
        let d = distance(rgb, entry.1);
        if d < best_distance {
            best = k;
            best_distance = d;
        }
        k = k + 1;
    }
    proof {
        let chosen = choose|j: int| is_nearest_ansi16(rgb, j);
        assert(is_nearest_ansi16(rgb, best as int));
        lemma_nearest_ansi16_unique(rgb, chosen, best as int);
    }
    ansi16_entry_value(best).0
}

/// Quantizes `color` to `depth`. Only `Color::Rgb` values change; named,
/// indexed, and reset colors pass through at every depth.
pub fn downsample(color: Color, depth: ColorDepth) -> (c: Color)
    ensures
        c == downsample_spec(color, depth),
{
    match color {
        Color::Rgb(red, green, blue) => match depth {
            ColorDepth::TrueColor => color,
            ColorDepth::Ansi256 => nearest_ansi256((red, green, blue)),
            ColorDepth::Ansi16 => nearest_ansi16((red, green, blue)),
        },
        _ => color,
    }
}

/// Quantizes every foreground and background of `frame` to `depth`;
/// symbols, underline colors and modifiers are untouched.
pub fn downsample_frame(frame: &mut Buffer, depth: ColorDepth)
    requires
        old(frame).wf(),
    ensures
        final(frame).wf(),
        final(frame).area == old(frame).area,
        forall|i: int|
            0 <= i < final(frame).content@.len() ==> {
                &&& (#[trigger] final(frame).content@[i]).fg == downsample_spec(
                    old(frame).content@[i].fg,
                    depth,
                )
                &&& final(frame).content@[i].bg == downsample_spec(old(frame).content@[i].bg, depth)
                &&& final(frame).content@[i].symbol == old(frame).content@[i].symbol
                &&& final(frame).content@[i].underline_color == old(
                    frame,
                ).content@[i].underline_color
                &&& final(frame).content@[i].modifier == old(frame).content@[i].modifier
            },
{
    if depth == ColorDepth::TrueColor {
        return ;
    }
    let n = frame.content.len();
    let mut i: usize = 0;
    while i < n
        invariant
            i <= n,
            n == frame.content@.len(),
            frame.wf(),
            frame.area == old(frame).area,
            depth != ColorDepth::TrueColor,
            forall|j: int|
                i <= j < n ==> #[trigger] frame.content@[j] == old(frame).content@[j],
            forall|j: int|
                0 <= j < i ==> {
                    &&& (#[trigger] frame.content@[j]).fg == downsample_spec(
                        old(frame).content@[j].fg,
                        depth,
                    )
                    &&& frame.content@[j].bg == downsample_spec(old(frame).content@[j].bg, depth)
                    &&& frame.content@[j].symbol == old(frame).content@[j].symbol
                    &&& frame.content@[j].underline_color == old(frame).content@[j].underline_color
                    &&& frame.content@[j].modifier == old(frame).content@[j].modifier
                },
        decreases n - i,
    {
        let fg = downsample(frame.content[i].fg, depth);
        let bg = downsample(frame.content[i].bg, depth);
        frame.content[i].fg = fg;
        frame.content[i].bg = bg;
        i = i + 1;
    }
}

/// Only RGB colors are quantized: a named, indexed or reset color comes
/// back as it was at every depth, and true color changes nothing.
pub proof fn lemma_only_rgb_is_quantized(color: Color, depth: ColorDepth)
    ensures
        !(color is Rgb) ==> downsample_spec(color, depth) == color,
        depth == ColorDepth::TrueColor ==> downsample_spec(color, depth) == color,
{
}

/// Quantizing twice is quantizing once: a quantized color is never RGB
/// at a reduced depth.
pub proof fn lemma_downsample_idempotent(color: Color, depth: ColorDepth)
    ensures
        downsample_spec(downsample_spec(color, depth), depth) == downsample_spec(color, depth),
{
    match color {
        Color::Rgb(red, green, blue) => match depth {
            ColorDepth::TrueColor => {},
            ColorDepth::Ansi256 => {},
            ColorDepth::Ansi16 => {
                let k = choose|k: int| is_nearest_ansi16((red, green, blue), k);
                assert(!(ansi16_entry(k).0 is Rgb));
            },
        },
        _ => {},
    }
}

/// A triple whose every channel is a cube level quantizes to that cube
/// entry at the 256-color depth: exact cube colors never fall to the gray
/// ramp.
pub proof fn lemma_cube_colors_stay_on_the_cube(kr: int, kg: int, kb: int)
    requires
        0 <= kr < 6,
        0 <= kg < 6,
        0 <= kb < 6,
    ensures
        downsample_spec(
            Color::Rgb(cube_level(kr) as u8, cube_level(kg) as u8, cube_level(kb) as u8),
            ColorDepth::Ansi256,
        ) == Color::Indexed((16 + 36 * kr + 6 * kg + kb) as u8),
{
    let rgb = (cube_level(kr) as u8, cube_level(kg) as u8, cube_level(kb) as u8);
    assert(is_nearest_level(cube_level(kr), kr));
    assert(is_nearest_level(cube_level(kg), kg));
    assert(is_nearest_level(cube_level(kb), kb));
    let r = choose|r: int| is_nearest_level(rgb.0 as int, r);
    let g = choose|g: int| is_nearest_level(rgb.1 as int, g);
    let b = choose|b: int| is_nearest_level(rgb.2 as int, b);
    lemma_nearest_level_unique(rgb.0 as int, r, kr);
    lemma_nearest_level_unique(rgb.1 as int, g, kg);
    lemma_nearest_level_unique(rgb.2 as int, b, kb);
    let step = gray_step(rgb);
    let gray_level = (8 + 10 * step) as u8;
    assert(distance_spec(rgb, (gray_level, gray_level, gray_level)) >= 0) by (nonlinear_arith);
    assert(distance_spec(rgb, cube_entry_of(rgb, kr, kg, kb).1) == 0);
}

/// An ANSI entry's own RGB is nearest to itself, and it is the first entry
/// with that RGB.
proof fn lemma_entry_is_its_own_nearest(k: int)
    requires
        0 <= k < 16,
    ensures
        is_nearest_ansi16(ansi16_entry(k).1, k),
{
    let rgb = ansi16_entry(k).1;
    assert forall|j: int| 0 <= j < 16 implies distance_spec(rgb, ansi16_entry(k).1) <= distance_spec(
        rgb,
        #[trigger] ansi16_entry(j).1,
    ) by {
        let e = ansi16_entry(j).1;
        assert(distance_spec(rgb, e) >= 0) by (nonlinear_arith);
    }
    assert forall|j: int| 0 <= j < k implies distance_spec(rgb, ansi16_entry(k).1) < distance_spec(
        rgb,
        #[trigger] ansi16_entry(j).1,
    ) by {
        let e = ansi16_entry(j).1;
        assert(e != rgb);
        assert(distance_spec(rgb, e) > 0) by (nonlinear_arith)
            requires
                e != rgb,
        ;
    }
}

/// Quantizing entry `k`'s own RGB to sixteen colors gives entry `k`'s
/// named color.
proof fn lemma_entry_rgb_quantizes_to_its_name(k: int)
    requires
        0 <= k < 16,
    ensures
        ({
            let (name, rgb) = ansi16_entry(k);
            downsample_spec(Color::Rgb(rgb.0, rgb.1, rgb.2), ColorDepth::Ansi16) == name
        }),
{
    let rgb = ansi16_entry(k).1;
    lemma_entry_is_its_own_nearest(k);
    let chosen = choose|j: int| is_nearest_ansi16((rgb.0, rgb.1, rgb.2), j);
    assert((rgb.0, rgb.1, rgb.2) == rgb);
    lemma_nearest_ansi16_unique(rgb, chosen, k);
}

/// Each of the sixteen ANSI colors stands for its own RGB: quantizing that
/// RGB to sixteen colors gives back the color of that name - dark yellow is
/// (128, 128, 0), cyan is (0, 128, 128), and so on through white.
pub proof fn lemma_ansi16_names_their_own_rgb()
    ensures
        downsample_spec(Color::Rgb(0, 0, 0), ColorDepth::Ansi16) == Color::Black,
        downsample_spec(Color::Rgb(128, 0, 0), ColorDepth::Ansi16) == Color::Red,
        downsample_spec(Color::Rgb(0, 128, 0), ColorDepth::Ansi16) == Color::Green,
        downsample_spec(Color::Rgb(128, 128, 0), ColorDepth::Ansi16) == Color::Yellow,
        downsample_spec(Color::Rgb(0, 0, 128), ColorDepth::Ansi16) == Color::Blue,
        downsample_spec(Color::Rgb(128, 0, 128), ColorDepth::Ansi16) == Color::Magenta,
        downsample_spec(Color::Rgb(0, 128, 128), ColorDepth::Ansi16) == Color::Cyan,
        downsample_spec(Color::Rgb(192, 192, 192), ColorDepth::Ansi16) == Color::Gray,
        downsample_spec(Color::Rgb(128, 128, 128), ColorDepth::Ansi16) == Color::DarkGray,
        downsample_spec(Color::Rgb(255, 0, 0), ColorDepth::Ansi16) == Color::LightRed,
        downsample_spec(Color::Rgb(0, 255, 0), ColorDepth::Ansi16) == Color::LightGreen,
        downsample_spec(Color::Rgb(255, 255, 0), ColorDepth::Ansi16) == Color::LightYellow,
        downsample_spec(Color::Rgb(0, 0, 255), ColorDepth::Ansi16) == Color::LightBlue,
        downsample_spec(Color::Rgb(255, 0, 255), ColorDepth::Ansi16) == Color::LightMagenta,
        downsample_spec(Color::Rgb(0, 255, 255), ColorDepth::Ansi16) == Color::LightCyan,
        downsample_spec(Color::Rgb(255, 255, 255), ColorDepth::Ansi16) == Color::White,
{
    lemma_entry_rgb_quantizes_to_its_name(0);
    lemma_entry_rgb_quantizes_to_its_name(1);
    lemma_entry_rgb_quantizes_to_its_name(2);
    lemma_entry_rgb_quantizes_to_its_name(3);
    lemma_entry_rgb_quantizes_to_its_name(4);
    lemma_entry_rgb_quantizes_to_its_name(5);
    lemma_entry_rgb_quantizes_to_its_name(6);
    lemma_entry_rgb_quantizes_to_its_name(7);
    lemma_entry_rgb_quantizes_to_its_name(8);
    lemma_entry_rgb_quantizes_to_its_name(9);
    lemma_entry_rgb_quantizes_to_its_name(10);
    lemma_entry_rgb_quantizes_to_its_name(11);
    lemma_entry_rgb_quantizes_to_its_name(12);
    lemma_entry_rgb_quantizes_to_its_name(13);
    lemma_entry_rgb_quantizes_to_its_name(14);
    lemma_entry_rgb_quantizes_to_its_name(15);
}

/// The six levels of the 256-color cube, per channel, are the xterm ones:
/// 0, 95, 135, 175, 215 and 255.
pub proof fn lemma_cube_levels_are_the_xterm_levels()
    ensures
        cube_level(0) == 0,
        cube_level(1) == 95,
        cube_level(2) == 135,
        cube_level(3) == 175,
        cube_level(4) == 215,
        cube_level(5) == 255,
{
}

/// Each gray of the 24-step ramp, `8 + 10 * step` on every channel,
/// quantizes to its own ramp entry `232 + step` at the 256-color depth.
pub proof fn lemma_ramp_grays_stay_on_the_ramp(step: int)
    requires
        0 <= step < 24,
    ensures
        downsample_spec(
            Color::Rgb((8 + 10 * step) as u8, (8 + 10 * step) as u8, (8 + 10 * step) as u8),
            ColorDepth::Ansi256,
        ) == Color::Indexed((232 + step) as u8),
{
    let v = (8 + 10 * step) as u8;
    let rgb = (v, v, v);
    assert(gray_step(rgb) == step);
    let r = choose|r: int| is_nearest_level(v as int, r);
    assert(exists|k: int| is_nearest_level(v as int, k)) by {
        lemma_some_level_is_nearest(v as int);
    }
    assert(is_nearest_level(v as int, r));
    let cube = cube_entry_of(rgb, r, r, r);
    assert(cube_level(r) != v as int);
    let d = v as int - cube_level(r);
    assert(distance_spec(rgb, cube.1) == 3 * (d * d));
    assert(d * d > 0) by (nonlinear_arith)
        requires
            d != 0,
    ;
    assert(distance_spec(rgb, (v, v, v)) == 0);
}

/// Some cube level is the first nearest to any channel value.
proof fn lemma_some_level_is_nearest(channel: int)
    ensures
        exists|k: int| is_nearest_level(channel, k),
{
    let d0 = abs_diff(channel, cube_level(0));
    let d1 = abs_diff(channel, cube_level(1));
    let d2 = abs_diff(channel, cube_level(2));
    let d3 = abs_diff(channel, cube_level(3));
    let d4 = abs_diff(channel, cube_level(4));
    let d5 = abs_diff(channel, cube_level(5));
    let m = if d0 <= d1 && d0 <= d2 && d0 <= d3 && d0 <= d4 && d0 <= d5 {
        0
    } else if d1 <= d2 && d1 <= d3 && d1 <= d4 && d1 <= d5 && d1 < d0 {
        1
    } else if d2 <= d3 && d2 <= d4 && d2 <= d5 && d2 < d0 && d2 < d1 {
        2
    } else if d3 <= d4 && d3 <= d5 && d3 < d0 && d3 < d1 && d3 < d2 {
        3
    } else if d4 <= d5 && d4 < d0 && d4 < d1 && d4 < d2 && d4 < d3 {
        4
    } else {
        5
    };
    assert(is_nearest_level(channel, m)) by {
        assert forall|j: int| 0 <= j < 6 implies abs_diff(channel, cube_level(m)) <= abs_diff(
            channel,
            #[trigger] cube_level(j),
        ) by {
            assert(j == 0 || j == 1 || j == 2 || j == 3 || j == 4 || j == 5);
        }
        assert forall|j: int| 0 <= j < m implies abs_diff(channel, cube_level(m)) < abs_diff(
            channel,
            #[trigger] cube_level(j),
        ) by {
            assert(j == 0 || j == 1 || j == 2 || j == 3 || j == 4);
        }
    }
}

} // verus!
