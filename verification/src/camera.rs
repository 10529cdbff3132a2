//! Terminal cameras: what each view covers, how it composites, and the
//! buffer it rasterizes into.
//!
//! [`TerminalCamera`] is what an app declares - its [`Viewport`],
//! [`Background`] and order decide where a view lands and how it
//! composites. Each frame one [`ExtractedCamera`] stands for every active
//! camera, with a buffer sized to its resolved viewport, and entities that
//! name no camera of their own fall back to the default camera: the active
//! one with the lowest `(order, entity)`.

use vstd::prelude::*;

use crate::buffer::{is_blank, Buffer, Cell};
use crate::geometry::Rect;
use crate::order::index_before;
use crate::style::Color;
use crate::viewport::Viewport;

verus! {

/// A world entity, by its id; ids order entities.
#[derive(Clone, Copy, Debug, PartialEq, Eq, Structural)]
pub struct Entity(pub u64);

/// Terminal dimensions in cells.
#[derive(Clone, Copy, Debug, PartialEq, Eq, Structural)]
pub struct TerminalSize {
    /// Number of columns.
    pub cols: u16,
    /// Number of rows.
    pub rows: u16,
}

impl TerminalSize {
    /// A size of `cols` by `rows` cells.
    pub fn new(cols: u16, rows: u16) -> (s: TerminalSize)
        ensures
            s.cols == cols,
            s.rows == rows,
    {
        TerminalSize { cols, rows }
    }

    /// The full-terminal rectangle at the origin.
    pub open spec fn rect_spec(self) -> Rect {
        Rect { x: 0, y: 0, width: self.cols, height: self.rows }
    }

    /// The full-terminal rectangle at the origin.
    pub fn rect(&self) -> (r: Rect)
        ensures
            r == self.rect_spec(),
            r.fits(),
    {
        Rect::new(0, 0, self.cols, self.rows)
    }
}

impl Default for TerminalSize {
    /// 80 columns by 24 rows, until something reports otherwise.
    fn default() -> (s: TerminalSize)
        ensures
            s.cols == 80,
            s.rows == 24,
    {
        TerminalSize { cols: 80, rows: 24 }
    }
}

/// What a camera's untouched cells become when composited.
#[derive(Clone, Copy, Debug, PartialEq, Eq, Structural)]
pub enum Background {
    /// Untouched cells keep the terminal default.
    TerminalDefault,
    /// Untouched cells show whatever lower cameras drew; drawing a default
    /// space cell is then indistinguishable from not drawing.
    Transparent,
    /// The camera buffer is pre-filled with this color before
    /// rasterization, so untouched cells composite as solid background.
    Clear(Color),
}

impl Default for Background {
    /// The terminal default.
    fn default() -> (b: Background)
        ensures
            b == Background::TerminalDefault,
    {
        Background::TerminalDefault
    }
}

/// A view composited into the terminal frame.
#[derive(Clone, Copy, Debug, PartialEq, Eq, Structural)]
pub struct TerminalCamera {
    /// Cameras with a higher order composite later, on top.
    pub order: isize,
    /// Cell-space region of the terminal this camera occupies.
    pub viewport: Viewport,
    /// Inactive cameras are skipped entirely.
    pub active: bool,
    /// What untouched cells become when composited.
    pub background: Background,
}

impl TerminalCamera {
    /// Sets the composite order; higher composites later, on top.
    pub fn with_order(self, order: isize) -> (c: TerminalCamera)
        ensures
            c == (TerminalCamera { order, ..self }),
    {
        TerminalCamera { order, ..self }
    }

    /// Sets the cell-space region of the terminal the camera occupies.
    pub fn with_viewport(self, viewport: Viewport) -> (c: TerminalCamera)
        ensures
            c == (TerminalCamera { viewport, ..self }),
    {
        TerminalCamera { viewport, ..self }
    }

    /// Sets whether the camera renders at all.
    pub fn with_active(self, active: bool) -> (c: TerminalCamera)
        ensures
            c == (TerminalCamera { active, ..self }),
    {
        TerminalCamera { active, ..self }
    }

    /// Sets what untouched cells become when composited.
    pub fn with_background(self, background: Background) -> (c: TerminalCamera)
        ensures
            c == (TerminalCamera { background, ..self }),
    {
        TerminalCamera { background, ..self }
    }
}

impl Default for TerminalCamera {
    /// A full-screen, active camera at order zero over the terminal
    /// default background.
    fn default() -> (c: TerminalCamera)
        ensures
            c == (TerminalCamera {
                order: 0,
                viewport: Viewport::Full,
                active: true,
                background: Background::TerminalDefault,
            }),
    {
        TerminalCamera {
            order: 0,
            viewport: Viewport::Full,
            active: true,
            background: Background::TerminalDefault,
        }
    }
}

/// The per-frame copy of an active [`TerminalCamera`].
#[derive(Clone, Copy, Debug, PartialEq, Eq, Structural)]
pub struct ExtractedCamera {
    /// Compositing order, from [`TerminalCamera::order`].
    pub order: isize,
    /// Resolved terminal region this camera occupies.
    pub viewport: Rect,
    /// Compositing mode, from [`TerminalCamera::background`].
    pub background: Background,
}

impl ExtractedCamera {
    /// A frame camera over `viewport`.
    pub fn new(order: isize, viewport: Rect, background: Background) -> (c: ExtractedCamera)
        ensures
            c == (ExtractedCamera { order, viewport, background }),
    {
        ExtractedCamera { order, viewport, background }
    }
}

/// The sort key of a camera: its order, then its entity.
pub open spec fn camera_key(camera: (Entity, TerminalCamera)) -> (i64, u64) {
    (camera.1.order as i64, camera.0.0)
}

/// The sort keys of `cameras`.
pub open spec fn camera_keys(cameras: Seq<(Entity, TerminalCamera)>) -> Seq<(i64, u64)> {
    cameras.map_values(|c: (Entity, TerminalCamera)| camera_key(c))
}

/// The sort keys of `cameras`, in order.
pub fn camera_sort_keys(cameras: &[(Entity, TerminalCamera)]) -> (keys: Vec<(i64, u64)>)
    ensures
        keys@ == camera_keys(cameras@),
{
    let mut keys: Vec<(i64, u64)> = Vec::new();
    let mut i: usize = 0;
    while i < cameras.len()
        invariant
            i <= cameras@.len(),
            keys@ == camera_keys(cameras@.take(i as int)),
        decreases cameras@.len() - i,
    {
        keys.push((cameras[i].1.order as i64, cameras[i].0.0));
        proof {
            assert(camera_keys(cameras@.take(i as int + 1)) =~= camera_keys(
                cameras@.take(i as int),
            ).push(camera_key(cameras@[i as int])));
        }
        i = i + 1;
    }
    proof {
        assert(cameras@.take(i as int) =~= cameras@);
    }
    keys
}

/// `i` is the active camera with the lowest `(order, entity)`, the first
/// in `cameras` on ties.
pub open spec fn is_default_camera(cameras: Seq<(Entity, TerminalCamera)>, i: int) -> bool {
    &&& 0 <= i < cameras.len()
    &&& cameras[i].1.active
    &&& forall|j: int|
        0 <= j < cameras.len() && #[trigger] cameras[j].1.active && j != i ==> index_before(
            camera_keys(cameras),
            i,
            j,
        )
}

/// There is at most one default camera: two active cameras cannot each
/// come before the other.
pub proof fn lemma_default_camera_unique(cameras: Seq<(Entity, TerminalCamera)>, i: int, j: int)
    requires
        is_default_camera(cameras, i),
        is_default_camera(cameras, j),
    ensures
        i == j,
{
    if i != j {
        assert(cameras[j].1.active);
        assert(cameras[i].1.active);
        assert(index_before(camera_keys(cameras), i, j));
        assert(index_before(camera_keys(cameras), j, i));
    }
}

/// The default camera: the active camera with the lowest
/// `(order, entity)`; `None` when no camera is active.
pub fn default_camera(cameras: &[(Entity, TerminalCamera)]) -> (d: Option<Entity>)
    ensures
        d is None <==> forall|j: int| 0 <= j < cameras@.len() ==> !(#[trigger] cameras@[j]).1.active,
        d matches Some(e) ==> exists|i: int| is_default_camera(cameras@, i) && cameras@[i].0 == e,
{
    let mut best: Option<usize> = None;
    let mut i: usize = 0;
    let ghost keys = camera_keys(cameras@);
    while i < cameras.len()
        invariant
            i <= cameras@.len(),
            keys == camera_keys(cameras@),
            best is None <==> forall|j: int| 0 <= j < i ==> !(#[trigger] cameras@[j]).1.active,
            best matches Some(b) ==> b < i && cameras@[b as int].1.active && forall|j: int|
                0 <= j < i && #[trigger] cameras@[j].1.active && j != b ==> index_before(
                    keys,
                    b as int,
                    j,
                ),
        decreases cameras@.len() - i,
    {
        if cameras[i].1.active {
            match best {
                None => {
                    best = Some(i);
                },
                Some(b) => {
                    let kb = (cameras[b].1.order as i64, cameras[b].0.0);
                    let ki = (cameras[i].1.order as i64, cameras[i].0.0);
                    if ki.0 < kb.0 || (ki.0 == kb.0 && ki.1 < kb.1) {
                        best = Some(i);
                        proof {
                            assert forall|j: int|
                                0 <= j < i + 1 && #[trigger] cameras@[j].1.active && j != i
                                    implies index_before(keys, i as int, j) by {
                                if j != b {
                                    assert(index_before(keys, b as int, j));
                                }
                            }
                        }
                    }
                },
            }
        }
        i = i + 1;
    }
    match best {
        Some(b) => {
            proof {
                assert(is_default_camera(cameras@, b as int));
            }
            Some(cameras[b].0)
        },
        None => None,
    }
}

/// The buffer a camera rasterizes into: blank cells, pre-filled with the
/// background color for [`Background::Clear`].
pub fn camera_buffer(viewport: Rect, background: Background) -> (b: Buffer)
    requires
        viewport.fits(),
    ensures
        b.wf(),
        b.area == viewport,
        forall|i: int|
            0 <= i < b.content@.len() ==> match background {
                Background::Clear(color) => {
                    let c = #[trigger] b.content@[i];
                    &&& c.symbol@ == seq![' ']
                    &&& c.fg == Color::Reset
                    &&& c.bg == color
                    &&& c.underline_color == Color::Reset
                    &&& c.modifier.bits == 0
                },
                _ => is_blank(b.content@[i]),
            },
{
    match background {
        Background::Clear(color) => {
            let mut cell = Cell::empty();
            cell.bg = color;
            Buffer::filled(viewport, &cell)
        },
        _ => Buffer::empty(viewport),
    }
}

/// The frame copies of the active cameras among `cameras`, with their
/// resolved viewports, in input order.
pub open spec fn extracted_spec(
    cameras: Seq<(Entity, TerminalCamera)>,
    resolved: Seq<Rect>,
) -> Seq<(Entity, ExtractedCamera)>
    decreases cameras.len(),
{
    if cameras.len() == 0 || resolved.len() == 0 {
        Seq::empty()
    } else {
        let prev = extracted_spec(cameras.drop_last(), resolved.drop_last());
        let (entity, camera) = cameras.last();
        if camera.active {
            prev.push(
                (
                    entity,
                    ExtractedCamera {
                        order: camera.order,
                        viewport: resolved.last(),
                        background: camera.background,
                    },
                ),
            )
        } else {
            prev
        }
    }
}

/// The active cameras, each with its resolved viewport, as the frame sees
/// them: one [`ExtractedCamera`] per active camera, in input order.
pub fn extract_cameras(
    cameras: &[(Entity, TerminalCamera)],
    resolved: &[Rect],
) -> (extracted: Vec<(Entity, ExtractedCamera)>)
    requires
        resolved@.len() == cameras@.len(),
    ensures
        extracted@ == extracted_spec(cameras@, resolved@),
{
    let mut out: Vec<(Entity, ExtractedCamera)> = Vec::new();
    let mut i: usize = 0;
    while i < cameras.len()
        invariant
            i <= cameras@.len(),
            resolved@.len() == cameras@.len(),
            out@ == extracted_spec(cameras@.take(i as int), resolved@.take(i as int)),
        decreases cameras@.len() - i,
    {
        let (entity, camera) = cameras[i];
        proof {
            assert(cameras@.take(i as int + 1).drop_last() =~= cameras@.take(i as int));
            assert(resolved@.take(i as int + 1).drop_last() =~= resolved@.take(i as int));
        }
        if camera.active {
            out.push((entity, ExtractedCamera::new(camera.order, resolved[i], camera.background)));
        }
        i = i + 1;
    }
    proof {
        assert(cameras@.take(i as int) =~= cameras@);
        assert(resolved@.take(i as int) =~= resolved@);
    }
    out
}

} // verus!
