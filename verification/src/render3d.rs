//! The integer side of 3d rendering into cells: how many pixels a cell
//! renders at, where a letterboxed frame lands in its viewport, which
//! source pixels a cell samples, how GPU readbacks are unpadded, and how
//! cells lost to nearer geometry are masked out.

use vstd::prelude::*;

use crate::geometry::Rect;

verus! {

/// How a 3d camera's frame becomes cells, as far as its pixel density
/// goes.
#[derive(Clone, Copy, Debug, PartialEq, Eq, Structural)]
pub enum StrategyKind {
    /// Two colored halves per cell.
    Halfblocks,
    /// One character per cell, picked by luminance.
    Luminance,
    /// A 2x4 dot grid per cell.
    Braille,
    /// One character per cell, picked by depth.
    Depth,
    /// No conversion: the frame is rendered but not drawn into cells.
    Unconverted,
}

/// Render pixels per cell for a strategy: 2x4 for braille, 1x2 for the
/// rest.
pub open spec fn pixels_per_cell_spec(strategy: StrategyKind) -> (u32, u32) {
    match strategy {
        StrategyKind::Braille => (2, 4),
        _ => (1, 2),
    }
}

/// Render pixels per cell for a strategy; see [`pixels_per_cell_spec`].
pub fn pixels_per_cell(strategy: StrategyKind) -> (p: (u32, u32))
    ensures
        p == pixels_per_cell_spec(strategy),
{
    match strategy {
        StrategyKind::Braille => (2, 4),
        _ => (1, 2),
    }
}

/// Whether a camera's frame keeps its read-back depths for the draw pass:
/// occlusion tests them and the depth strategy draws from them; every
/// other frame drops them.
pub fn keeps_depth(strategy: StrategyKind, occlusion: bool) -> (b: bool)
    ensures
        b == (occlusion || strategy == StrategyKind::Depth),
{
    occlusion || match strategy {
        StrategyKind::Depth => true,
        _ => false,
    }
}

/// Renders a 3d camera at a multiple of its cell resolution; the factor is
/// never zero.
#[derive(Clone, Copy, Debug, PartialEq, Eq, Structural)]
pub struct Supersample(u32);

impl Supersample {
    /// The factor.
    pub closed spec fn factor_spec(self) -> u32 {
        self.0
    }

    /// A supersample by `factor`; `None` for zero.
    pub fn new(factor: u32) -> (s: Option<Supersample>)
        ensures
            s is None <==> factor == 0,
            s matches Some(v) ==> v.factor_spec() == factor,
    {
        if factor == 0 {
            None
        } else {
            Some(Supersample(factor))
        }
    }

    /// The factor, at least one.
    pub fn factor(self) -> (f: u32)
        ensures
            f == self.factor_spec(),
    {
        self.0
    }
}

/// Marks a 3d camera whose depth buffer is read back each frame.
#[derive(Clone, Copy, Debug, PartialEq, Eq, Structural)]
pub struct DepthReadback;

/// Marks a 3d camera that cells nearer geometry already drew may hide.
#[derive(Clone, Copy, Debug, PartialEq, Eq, Structural)]
pub struct DepthOcclusion;

/// What an edge overlay detects edges in.
#[derive(Clone, Copy, Debug, PartialEq, Eq, Structural)]
pub enum EdgeSource {
    /// Luminance changes.
    Luminance,
    /// Depth changes.
    Depth,
    /// Either.
    Both,
}

impl Default for EdgeSource {
    /// Luminance.
    fn default() -> (s: EdgeSource)
        ensures
            s == EdgeSource::Luminance,
    {
        EdgeSource::Luminance
    }
}

impl EdgeSource {
    /// Whether luminance is read.
    pub fn reads_luminance(self) -> (b: bool)
        ensures
            b == (self == EdgeSource::Luminance || self == EdgeSource::Both),
    {
        match self {
            EdgeSource::Luminance | EdgeSource::Both => true,
            EdgeSource::Depth => false,
        }
    }

    /// Whether depth is read.
    pub fn reads_depth(self) -> (b: bool)
        ensures
            b == (self == EdgeSource::Depth || self == EdgeSource::Both),
    {
        match self {
            EdgeSource::Depth | EdgeSource::Both => true,
            EdgeSource::Luminance => false,
        }
    }

    /// Which fields the overlay measures gradients over, as
    /// `(luminance, depth)`: luminance whenever this source reads it, depth
    /// only when this source reads it and a depth frame came back. A depth
    /// source without a depth frame measures nothing, so it draws nothing.
    pub fn resolved_fields(self, has_depth_frame: bool) -> (fields: (bool, bool))
        ensures
            fields.0 == (self == EdgeSource::Luminance || self == EdgeSource::Both),
            fields.1 == ((self == EdgeSource::Depth || self == EdgeSource::Both) && has_depth_frame),
            self == EdgeSource::Depth && !has_depth_frame ==> !fields.0 && !fields.1,
    {
        (self.reads_luminance(), self.reads_depth() && has_depth_frame)
    }
}

/// The characters an edge overlay draws, by edge direction.
#[derive(Clone, Copy, Debug, PartialEq, Eq, Structural)]
pub struct EdgeCharacters {
    /// A horizontal edge.
    pub horizontal: char,
    /// A vertical edge.
    pub vertical: char,
    /// An edge rising to the right.
    pub rising: char,
    /// An edge falling to the right.
    pub falling: char,
}

impl Default for EdgeCharacters {
    /// `―`, `|`, `/` and `\`.
    fn default() -> (c: EdgeCharacters)
        ensures
            c == (EdgeCharacters { horizontal: '―', vertical: '|', rising: '/', falling: '\\' }),
    {
        EdgeCharacters { horizontal: '―', vertical: '|', rising: '/', falling: '\\' }
    }
}

/// Where a camera's frame lands in its viewport: the whole viewport, or,
/// when letterboxed, the cells the frame fills at the strategy's density,
/// centered.
pub open spec fn frame_dest_spec(strategy: StrategyKind, letterboxed: bool, size: (u32, u32), area: Rect) -> Rect {
    if !letterboxed {
        area
    } else {
        let scale = pixels_per_cell_spec(strategy);
        let columns: int = if size.0 / scale.0 < area.width {
            (size.0 / scale.0) as int
        } else {
            area.width as int
        };
        let rows: int = if size.1 / scale.1 < area.height {
            (size.1 / scale.1) as int
        } else {
            area.height as int
        };
        Rect::new_spec(
            (area.x + (area.width - columns) / 2) as u16,
            (area.y + (area.height - rows) / 2) as u16,
            columns as u16,
            rows as u16,
        )
    }
}

/// Where a camera's frame lands in its viewport; see [`frame_dest_spec`].
pub fn frame_dest(strategy: StrategyKind, letterboxed: bool, size: (u32, u32), area: Rect) -> (r: Rect)
    requires
        area.fits(),
    ensures
        r == frame_dest_spec(strategy, letterboxed, size, area),
{
    if !letterboxed {
        return area;
    }
    let scale = pixels_per_cell(strategy);
    let columns = if size.0 / scale.0 < area.width as u32 {
        (size.0 / scale.0) as u16
    } else {
        area.width
    };
    let rows = if size.1 / scale.1 < area.height as u32 {
        (size.1 / scale.1) as u16
    } else {
        area.height
    };
    Rect::new(area.x + (area.width - columns) / 2, area.y + (area.height - rows) / 2, columns, rows)
}

/// The source pixel column and the two source rows a destination cell
/// samples, mapped by ratio from the destination to the source size.
pub open spec fn cell_source_spec(size: (u32, u32), dest: Rect, cell: (u16, u16)) -> (int, int, int) {
    let sub_rows = dest.height * 2;
    (
        cell.0 * size.0 / (dest.width as int),
        cell.1 * 2 * size.1 / sub_rows,
        (cell.1 * 2 + 1) * size.1 / sub_rows,
    )
}

/// The source pixel column and rows a destination cell samples; see
/// [`cell_source_spec`].
pub fn cell_source_coords(size: (u32, u32), dest: Rect, cell: (u16, u16)) -> (r: (usize, usize, usize))
    requires
        dest.width > 0,
        dest.height > 0,
        cell.0 * size.0 <= usize::MAX,
        (cell.1 * 2 + 1) * size.1 <= usize::MAX,
    ensures
        (r.0 as int, r.1 as int, r.2 as int) == cell_source_spec(size, dest, cell),
{
    let (column, row) = cell;
    proof {
        assert(row * 2 * size.1 <= (row * 2 + 1) * size.1) by (nonlinear_arith);
    }
    let x = (column as usize) * (size.0 as usize) / (dest.width as usize);
    let sub_rows = (dest.height as usize) * 2;
    let upper_y = (row as usize) * 2 * (size.1 as usize) / sub_rows;
    let lower_y = ((row as usize) * 2 + 1) * (size.1 as usize) / sub_rows;
    (x, upper_y, lower_y)
}

/// Bytes per RGBA8 pixel.
pub const CHANNELS: usize = 4;

/// The alpha channel's offset within a pixel.
pub const ALPHA: usize = 3;

/// The RGBA8 pixel at `(x, y)` of an image `width` pixels wide.
pub fn pixel_at(pixels: &[u8], width: u32, x: usize, y: usize) -> (p: [u8; 4])
    requires
        (y * width + x) * 4 + 4 <= pixels@.len(),
    ensures
        p@ == pixels@.subrange((y * width + x) * 4, (y * width + x) * 4 + 4),
{
    let len = pixels.len();
    proof {
        assert(y * width <= y * width + x);
        assert(y * width + x <= (y * width + x) * 4) by (nonlinear_arith)
            requires
                y * width + x >= 0,
        ;
    }
    let start = (y * (width as usize) + x) * CHANNELS;
    let p = [pixels[start], pixels[start + 1], pixels[start + 2], pixels[start + 3]];
    proof {
        assert(p@ =~= pixels@.subrange(start as int, start as int + 4));
    }
    p
}

/// A GPU copy's row pitch: bytes per row rounded up to the 256-byte copy
/// alignment.
pub open spec fn aligned_row_bytes(row_bytes: int) -> int {
    (row_bytes + 255) / 256 * 256
}

/// A GPU copy's row pitch for rows of `row_bytes` bytes; see
/// [`aligned_row_bytes`].
pub fn align_copy_bytes_per_row(row_bytes: usize) -> (stride: usize)
    requires
        row_bytes + 255 <= usize::MAX,
    ensures
        stride == aligned_row_bytes(row_bytes as int),
{
    let padded = row_bytes + 255;
    padded - padded % 256
}

/// Bytes per depth pixel.
pub const DEPTH_BYTES_PER_PIXEL: usize = 4;

/// The row pitch of a depth readback `width` pixels wide.
pub fn depth_row_stride(width: u32) -> (stride: usize)
    requires
        width * 4 + 255 <= usize::MAX,
    ensures
        stride == aligned_row_bytes(width * 4),
{
    align_copy_bytes_per_row((width as usize) * DEPTH_BYTES_PER_PIXEL)
}

/// The row pitch of a readback of `rows` rows of `row_bytes` bytes, when
/// `len` bytes arrived: `None` when there are no rows or the data is too
/// short to hold them (the last row needs only its own bytes).
pub open spec fn readback_stride(len: int, row_bytes: int, rows: int) -> Option<int> {
    if rows < 1 || len < (rows - 1) * aligned_row_bytes(row_bytes) + row_bytes {
        None
    } else {
        Some(aligned_row_bytes(row_bytes))
    }
}

/// The row pitch of a readback; see [`readback_stride`].
pub fn unpadded_rows(len: usize, row_bytes: usize, rows: usize) -> (stride: Option<usize>)
    requires
        row_bytes + 255 <= usize::MAX,
        rows >= 1 ==> (rows - 1) * aligned_row_bytes(row_bytes as int) + row_bytes <= usize::MAX,
    ensures
        stride matches Some(s) ==> readback_stride(len as int, row_bytes as int, rows as int) == Some(
            s as int,
        ),
        stride is None ==> readback_stride(len as int, row_bytes as int, rows as int) is None,
{
    let stride = align_copy_bytes_per_row(row_bytes);
    if rows < 1 {
        return None;
    }
    let expected = (rows - 1) * stride + row_bytes;
    if len < expected {
        return None;
    }
    Some(stride)
}

/// A camera's read-back color frame: tightly packed RGBA8 rows.
#[derive(Debug)]
pub struct ReadbackFrame {
    /// The pixels, row-major.
    pub pixels: Vec<u8>,
    /// Width and height in pixels.
    pub size: (u32, u32),
}

impl Default for ReadbackFrame {
    /// No pixels, zero size.
    fn default() -> (f: ReadbackFrame)
        ensures
            f.pixels@.len() == 0,
            f.size == (0u32, 0u32),
    {
        ReadbackFrame { pixels: Vec::new(), size: (0, 0) }
    }
}

/// The rows of a padded readback, each stripped to its `row_bytes`, one
/// after another.
pub open spec fn unpadded(bytes: Seq<u8>, stride: int, row_bytes: int, rows: int) -> Seq<u8>
    decreases rows,
{
    if rows <= 0 {
        Seq::empty()
    } else {
        unpadded(bytes, stride, row_bytes, rows - 1) + bytes.subrange(
            (rows - 1) * stride,
            (rows - 1) * stride + row_bytes,
        )
    }
}

/// Stores a padded GPU readback of a `size` image into `frame`, stripping
/// each row's padding. Data too short for the image (a stale readback
/// from before a resize) leaves the frame as it was.
pub fn copy_unpadded(bytes: &[u8], size: (u32, u32), frame: &mut ReadbackFrame)
    requires
        size.0 * 4 + 255 <= usize::MAX,
        size.1 >= 1 ==> (size.1 - 1) * aligned_row_bytes(size.0 * 4) + size.0 * 4 <= usize::MAX,
    ensures
        match readback_stride(bytes@.len() as int, size.0 * 4, size.1 as int) {
            None => final(frame).pixels@ == old(frame).pixels@ && final(frame).size == old(frame).size,
            Some(stride) => final(frame).size == size && final(frame).pixels@ == unpadded(
                bytes@,
                stride,
                size.0 * 4,
                size.1 as int,
            ),
        },
{
    let row_bytes = (size.0 as usize) * CHANNELS;
    let rows = size.1 as usize;
    let len = bytes.len();
    let stride = match unpadded_rows(len, row_bytes, rows) {
        Some(s) => s,
        None => return,
    };
    frame.size = size;
    frame.pixels = Vec::new();
    let mut r: usize = 0;
    while r < rows
        invariant
            r <= rows,
            rows >= 1,
            stride == aligned_row_bytes(row_bytes as int),
            row_bytes <= stride,
            (rows - 1) * stride + row_bytes <= bytes@.len(),
            len == bytes@.len(),
            frame.size == size,
            frame.pixels@ == unpadded(bytes@, stride as int, row_bytes as int, r as int),
        decreases rows - r,
    {
        proof {
            assert(r * stride + row_bytes <= (rows - 1) * stride + row_bytes) by (nonlinear_arith)
                requires
                    r <= rows - 1,
                    stride >= 0,
            ;
        }
        let start = r * stride;
        let mut k: usize = 0;
        let ghost before = frame.pixels@;
        while k < row_bytes
            invariant
                k <= row_bytes,
                start + row_bytes <= bytes@.len(),
                len == bytes@.len(),
                frame.size == size,
                frame.pixels@ == before + bytes@.subrange(start as int, start + k),
            decreases row_bytes - k,
        {
            frame.pixels.push(bytes[start + k]);
            proof {
                assert(bytes@.subrange(start as int, start + k + 1) =~= bytes@.subrange(
                    start as int,
                    start + k,
                ).push(bytes@[start + k]));
            }
            k = k + 1;
        }
        r = r + 1;
    }
}

/// The span of source pixels `[ceil(i*n/d), ceil((i+1)*n/d))` that cell
/// `i` of `d` covers along an axis `n` pixels long.
pub open spec fn span_start(i: int, n: int, d: int) -> int {
    (i * n + d - 1) / d
}

/// Whether lost cell `i` of `dest` covers pixel `(x, y)` of a `size`
/// image.
pub open spec fn covers(losses: Seq<bool>, dest: Rect, size: (u32, u32), i: int, x: int, y: int) -> bool {
    let dw = dest.width as int;
    let dh = dest.height as int;
    &&& losses[i]
    &&& span_start(i % dw, size.0 as int, dw) <= x < span_start(i % dw + 1, size.0 as int, dw)
    &&& span_start(i / dw, size.1 as int, dh) <= y < span_start(i / dw + 1, size.1 as int, dh)
}

/// Whether pixel `(x, y)` lies under one of the first `n` cells, and that
/// cell is lost.
pub open spec fn under_lost_cell(losses: Seq<bool>, dest: Rect, size: (u32, u32), n: int, x: int, y: int) -> bool {
    exists|i: int| 0 <= i < n && #[trigger] covers(losses, dest, size, i, x, y)
}

/// The pixels after masking: every alpha byte of a pixel under a lost cell
/// among the first `n` is zero, everything else as it was.
pub open spec fn masked(old: Seq<u8>, losses: Seq<bool>, dest: Rect, size: (u32, u32), n: int) -> Seq<u8> {
    Seq::new(
        old.len(),
        |k: int|
            if k < size.0 * size.1 * 4 && k % 4 == 3 && under_lost_cell(
                losses,
                dest,
                size,
                n,
                (k / 4) % (size.0 as int),
                (k / 4) / (size.0 as int),
            ) {
                0u8
            } else {
                old[k]
            },
    )
}

/// The pixels while cell `index` is being masked: the cells before it
/// done, and cell `index` done over its rows above `y` and its row `y`
/// left of `x`.
pub open spec fn masked_partial(
    old: Seq<u8>,
    losses: Seq<bool>,
    dest: Rect,
    size: (u32, u32),
    index: int,
    y: int,
    x: int,
) -> Seq<u8> {
    Seq::new(
        old.len(),
        |k: int|
            {
                let px = (k / 4) % (size.0 as int);
                let py = (k / 4) / (size.0 as int);
                if k < size.0 * size.1 * 4 && k % 4 == 3 && (under_lost_cell(losses, dest, size, index, px, py) || (
                covers(losses, dest, size, index, px, py) && (py < y || (py == y && px < x)))) {
                    0u8
                } else {
                    old[k]
                }
            },
    )
}

/// The alpha byte of pixel `(x, y)` in an image `w` wide, and no other
/// byte, decodes back to that pixel's alpha.
proof fn lemma_alpha_index(w: int, x: int, y: int, k: int)
    requires
        0 <= x < w,
        0 <= y,
        k >= 0,
    ensures
        ((y * w + x) * 4 + 3) % 4 == 3,
        ((y * w + x) * 4 + 3) / 4 == y * w + x,
        (y * w + x) % w == x,
        (y * w + x) / w == y,
        (k % 4 == 3 && (k / 4) % w == x && (k / 4) / w == y) ==> k == (y * w + x) * 4 + 3,
{
    vstd::arithmetic::div_mod::lemma_fundamental_div_mod_converse((y * w + x) * 4 + 3, 4, y * w + x, 3);
    vstd::arithmetic::div_mod::lemma_fundamental_div_mod_converse(y * w + x, w, y, x);
    if k % 4 == 3 && (k / 4) % w == x && (k / 4) / w == y {
        vstd::arithmetic::div_mod::lemma_fundamental_div_mod(k, 4);
        vstd::arithmetic::div_mod::lemma_fundamental_div_mod(k / 4, w);
        assert(k / 4 == w * y + x);
        assert(k == 4 * (y * w + x) + 3) by (nonlinear_arith)
            requires
                k == 4 * (k / 4) + k % 4,
                k / 4 == w * y + x,
                k % 4 == 3,
        ;
    }
}

proof fn lemma_span_bound(i: int, n: int, d: int)
    requires
        0 <= i < d,
        n >= 0,
    ensures
        0 <= span_start(i, n, d) <= span_start(i + 1, n, d) <= n,
{
    assert((i * n + d - 1) / d <= ((i + 1) * n + d - 1) / d) by (nonlinear_arith)
        requires
            0 <= i,
            n >= 0,
            d > 0,
    {
        vstd::arithmetic::div_mod::lemma_div_is_ordered(i * n + d - 1, (i + 1) * n + d - 1, d);
    }
    assert(((i + 1) * n + d - 1) / d <= n) by (nonlinear_arith)
        requires
            i + 1 <= d,
            n >= 0,
            d > 0,
    {
        vstd::arithmetic::div_mod::lemma_div_is_ordered((i + 1) * n + d - 1, d * n + d - 1, d);
        vstd::arithmetic::div_mod::lemma_fundamental_div_mod_converse(d * n + d - 1, d, n, d - 1);
    }
    assert(0 <= (i * n + d - 1) / d) by (nonlinear_arith)
        requires
            i >= 0,
            n >= 0,
            d > 0,
    ;
}

/// Makes transparent every pixel under a cell `losses` marks lost: cell
/// `i` of `dest` (row-major) covers the pixels from `ceil(c * w / dw)` up
/// to `ceil((c + 1) * w / dw)` across and likewise down, so the cells
/// split the image between them.
pub fn mask_losing_cells(losses: &[bool], dest: Rect, pixels: &mut Vec<u8>, size: (u32, u32))
    requires
        losses@.len() <= dest.width * dest.height,
        size.0 * size.1 * 4 <= old(pixels)@.len(),
        (size.0 + 1) * (dest.width + 1) <= usize::MAX,
        (size.1 + 1) * (dest.height + 1) <= usize::MAX,
    ensures
        final(pixels)@ == masked(old(pixels)@, losses@, dest, size, losses@.len() as int),
{
    let dw = dest.width as usize;
    let dh = dest.height as usize;
    let w = size.0 as usize;
    let h = size.1 as usize;
    let ghost base = pixels@;
    let total = pixels.len();
    let n = losses.len();
    proof {
        assert(masked(base, losses@, dest, size, 0) =~= base);
    }
    let mut index: usize = 0;
    while index < n
        invariant
            index <= n,
            n == losses@.len(),
            n <= dw * dh,
            dw == dest.width,
            dh == dest.height,
            w == size.0,
            h == size.1,
            w * h * 4 <= base.len(),
            total == base.len(),
            (w + 1) * (dw + 1) <= usize::MAX,
            (h + 1) * (dh + 1) <= usize::MAX,
            pixels@ == masked(base, losses@, dest, size, index as int),
        decreases n - index,
    {
        if losses[index] {
            proof {
                assert(dw > 0 && dh > 0) by (nonlinear_arith)
                    requires
                        index < n,
                        n <= dw * dh,
                ;
                assert(index / dw < dh) by (nonlinear_arith)
                    requires
                        index < dw * dh,
                        dw > 0,
                ;
                lemma_span_bound((index % dw) as int, w as int, dw as int);
                lemma_span_bound((index / dw) as int, h as int, dh as int);
                assert((index % dw + 1) * w + dw <= (w + 1) * (dw + 1)) by (nonlinear_arith)
                    requires
                        index % dw < dw,
                        w >= 0,
                ;
                assert((index / dw + 1) * h + dh <= (h + 1) * (dh + 1)) by (nonlinear_arith)
                    requires
                        index / dw < dh,
                        h >= 0,
                ;
                assert(index % dw * w <= (index % dw + 1) * w) by (nonlinear_arith)
                    requires
                        w >= 0,
                ;
                assert(index / dw * h <= (index / dw + 1) * h) by (nonlinear_arith)
                    requires
                        h >= 0,
                ;
            }
            let column = index % dw;
            let row = index / dw;
            let xs = (column * w + dw - 1) / dw;
            let xe = ((column + 1) * w + dw - 1) / dw;
            let ys = (row * h + dh - 1) / dh;
            let ye = ((row + 1) * h + dh - 1) / dh;
            let mut y = ys;
            proof {
                assert(masked_partial(base, losses@, dest, size, index as int, ys as int, xs as int)
                    =~= masked(base, losses@, dest, size, index as int)) by {
                    assert forall|k: int| 0 <= k < base.len() implies masked_partial(
                        base, losses@, dest, size, index as int, ys as int, xs as int)[k]
                        == masked(base, losses@, dest, size, index as int)[k] by {
                        let px = (k / 4) % (w as int);
                        let py = (k / 4) / (w as int);
                        if covers(losses@, dest, size, index as int, px, py) {
                            assert(!(py < ys || (py == ys && px < xs)));
                        }
                    }
                }
            }
            while y < ye
                invariant
                    index < n,
                    n == losses@.len(),
                    losses@[index as int],
                    dw == dest.width,
                    dh == dest.height,
                    dw > 0,
                    w == size.0,
                    h == size.1,
                    w * h * 4 <= base.len(),
                    total == base.len(),
                    column == index % dw,
                    row == index / dw,
                    xs == span_start(column as int, w as int, dw as int),
                    xe == span_start(column as int + 1, w as int, dw as int),
                    ys == span_start(row as int, h as int, dh as int),
                    ye == span_start(row as int + 1, h as int, dh as int),
                    xs <= xe <= w,
                    ys <= y <= ye,
                    ye <= h,
                    pixels@ == masked_partial(base, losses@, dest, size, index as int, y as int, xs as int),
                decreases ye - y,
            {
                let mut x = xs;
                while x < xe
                    invariant
                        index < n,
                        n == losses@.len(),
                        losses@[index as int],
                        dw == dest.width,
                        dh == dest.height,
                        dw > 0,
                        w == size.0,
                        h == size.1,
                        w * h * 4 <= base.len(),
                        total == base.len(),
                        column == index % dw,
                        row == index / dw,
                        xs == span_start(column as int, w as int, dw as int),
                        xe == span_start(column as int + 1, w as int, dw as int),
                        ys == span_start(row as int, h as int, dh as int),
                        ye == span_start(row as int + 1, h as int, dh as int),
                        xs <= x <= xe,
                        xe <= w,
                        ys <= y < ye,
                        ye <= h,
                        pixels@ == masked_partial(base, losses@, dest, size, index as int, y as int, x as int),
                    decreases xe - x,
                {
                    proof {
                        assert(y * w + x < w * h) by (nonlinear_arith)
                            requires
                                y < h,
                                x < w,
                        ;
                        assert((y * w + x) * 4 + 3 < w * h * 4) by (nonlinear_arith)
                            requires
                                y * w + x < w * h,
                        ;
                        assert(y * w <= y * w + x);
                    }
                    let k0 = (y * w + x) * CHANNELS + ALPHA;
                    let ghost before = pixels@;
                    pixels.set(k0, 0);
                    proof {
                        assert forall|k: int| 0 <= k < base.len() implies #[trigger] pixels@[k]
                            == masked_partial(base, losses@, dest, size, index as int, y as int, x + 1)[k] by {
                            lemma_alpha_index(w as int, x as int, y as int, k);
                        }
                        assert(pixels@ =~= masked_partial(base, losses@, dest, size, index as int, y as int, x + 1));
                    }
                    x = x + 1;
                }
                proof {
                    assert forall|k: int| 0 <= k < base.len() implies #[trigger] pixels@[k]
                        == masked_partial(base, losses@, dest, size, index as int, y + 1, xs as int)[k] by {
                        let px = (k / 4) % (w as int);
                        let py = (k / 4) / (w as int);
                        if w > 0 {
                            vstd::arithmetic::div_mod::lemma_mod_bound(k / 4, w as int);
                        }
                    }
                    assert(pixels@ =~= masked_partial(base, losses@, dest, size, index as int, y + 1, xs as int));
                }
                y = y + 1;
            }
            proof {
                assert forall|k: int| 0 <= k < base.len() implies #[trigger] pixels@[k]
                    == masked(base, losses@, dest, size, index + 1)[k] by {
                    let px = (k / 4) % (w as int);
                    let py = (k / 4) / (w as int);
                    if under_lost_cell(losses@, dest, size, index + 1, px, py) {
                        let i = choose|i: int| 0 <= i < index + 1 && #[trigger] covers(losses@, dest, size, i, px, py);
                        if i < index {
                            assert(under_lost_cell(losses@, dest, size, index as int, px, py));
                        }
                    }
                    if under_lost_cell(losses@, dest, size, index as int, px, py) {
                        let i = choose|i: int| 0 <= i < index && #[trigger] covers(losses@, dest, size, i, px, py);
                        assert(covers(losses@, dest, size, i, px, py));
                    }
                    if covers(losses@, dest, size, index as int, px, py) {
                        assert(under_lost_cell(losses@, dest, size, index + 1, px, py));
                    }
                }
                assert(pixels@ =~= masked(base, losses@, dest, size, index + 1));
            }
        } else {
            proof {
                assert forall|k: int| 0 <= k < base.len() implies #[trigger] pixels@[k]
                    == masked(base, losses@, dest, size, index + 1)[k] by {
                    let px = (k / 4) % (w as int);
                    let py = (k / 4) / (w as int);
                    if under_lost_cell(losses@, dest, size, index + 1, px, py) {
                        let i = choose|i: int| 0 <= i < index + 1 && #[trigger] covers(losses@, dest, size, i, px, py);
                        assert(i != index);
                        assert(under_lost_cell(losses@, dest, size, index as int, px, py));
                    }
                    if under_lost_cell(losses@, dest, size, index as int, px, py) {
                        let i = choose|i: int| 0 <= i < index && #[trigger] covers(losses@, dest, size, i, px, py);
                        assert(covers(losses@, dest, size, i, px, py));
                    }
                }
                assert(pixels@ =~= masked(base, losses@, dest, size, index + 1));
            }
        }
        index = index + 1;
    }
}

/// Braille packs a 2 by 4 dot grid into each cell; every other strategy
/// draws two vertically stacked pixels per cell.
pub proof fn lemma_pixels_per_cell_by_strategy()
    ensures
        pixels_per_cell_spec(StrategyKind::Braille) == (2u32, 4u32),
        pixels_per_cell_spec(StrategyKind::Halfblocks) == (1u32, 2u32),
        pixels_per_cell_spec(StrategyKind::Luminance) == (1u32, 2u32),
        pixels_per_cell_spec(StrategyKind::Depth) == (1u32, 2u32),
        pixels_per_cell_spec(StrategyKind::Unconverted) == (1u32, 2u32),
{
}

} // verus!
