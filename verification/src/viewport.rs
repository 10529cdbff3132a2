//! Declarative camera viewports, resolved to concrete rects each frame.
//!
//! A camera declares where it wants to sit - the whole terminal, a fixed
//! rect, a strip docked to an edge, or whatever is left over - and the
//! declaration is resolved against the terminal size. Cameras resolve in
//! `(order, entity)` sequence and every docked strip carves from one shared
//! remaining region, so a later dock sees a smaller screen and a fill takes
//! only what survives.

use vstd::prelude::*;

use crate::camera::{camera_keys, camera_sort_keys, Entity, TerminalCamera, TerminalSize};
use crate::geometry::{u16_max, Rect};
use crate::order::{sort_order, stable_order, stable_sort_indices};

verus! {

/// A terminal edge a strip docks to.
#[derive(Clone, Copy, Debug, PartialEq, Eq, Structural)]
pub enum Edge {
    /// Left edge.
    Left,
    /// Right edge.
    Right,
    /// Top edge.
    Top,
    /// Bottom edge.
    Bottom,
}

/// Where a camera's viewport sits, resolved against the terminal each
/// frame.
#[derive(Clone, Copy, Debug, PartialEq, Eq, Structural)]
pub enum Viewport {
    /// The whole terminal.
    Full,
    /// A fixed cell rect, clamped to the screen.
    Fixed(Rect),
    /// A strip carved off one edge of the remaining region.
    Docked {
        /// Edge the strip is docked to.
        edge: Edge,
        /// Strip thickness in cells, clamped to what remains.
        cells: u16,
    },
    /// Whatever remains after all docked strips.
    Fill,
}

impl Default for Viewport {
    /// The whole terminal.
    fn default() -> (v: Viewport)
        ensures
            v == Viewport::Full,
    {
        Viewport::Full
    }
}

/// The screen region resolved for a camera this frame; the zero rect while
/// the camera is inactive.
#[derive(Clone, Copy, Debug, PartialEq, Eq, Structural)]
pub struct ResolvedViewport(pub Rect);

/// The sets that maintain cameras each frame, run as `SyncSize`, then
/// `PropagateCameras`, then `ResolveViewports`.
#[derive(Clone, Copy, Debug, PartialEq, Eq, Structural)]
pub enum CameraSystems {
    /// Where the terminal size settles for the frame.
    SyncSize,
    /// Resolves every camera's viewport; runs last.
    ResolveViewports,
    /// Resolves every widget's camera against the hierarchy; runs between
    /// the other two.
    PropagateCameras,
}

/// `inner` covers no cell outside `outer`.
pub open spec fn within(inner: Rect, outer: Rect) -> bool {
    inner.empty_spec() || (outer.x <= inner.x && inner.right_spec() <= outer.right_spec() && outer.y
        <= inner.y && inner.bottom_spec() <= outer.bottom_spec())
}

/// The smaller of two `u16`s.
pub open spec fn min_u16(a: u16, b: u16) -> u16 {
    if a <= b {
        a
    } else {
        b
    }
}

/// Carving a strip `cells` thick off `edge` of `remaining`: the strip, and
/// what remains after it.
pub open spec fn carve_spec(remaining: Rect, edge: Edge, cells: u16) -> (Rect, Rect) {
    match edge {
        Edge::Left => {
            let w = min_u16(cells, remaining.width);
            (
                Rect { width: w, ..remaining },
                Rect { x: (remaining.x + w) as u16, width: (remaining.width - w) as u16, ..remaining },
            )
        },
        Edge::Right => {
            let w = min_u16(cells, remaining.width);
            let rest = Rect { width: (remaining.width - w) as u16, ..remaining };
            (Rect { x: (rest.x + rest.width) as u16, width: w, ..remaining }, rest)
        },
        Edge::Top => {
            let h = min_u16(cells, remaining.height);
            (
                Rect { height: h, ..remaining },
                Rect { y: (remaining.y + h) as u16, height: (remaining.height - h) as u16, ..remaining },
            )
        },
        Edge::Bottom => {
            let h = min_u16(cells, remaining.height);
            let rest = Rect { height: (remaining.height - h) as u16, ..remaining };
            (Rect { y: (rest.y + rest.height) as u16, height: h, ..remaining }, rest)
        },
    }
}

/// Whether carving stays in `u16`: the remainder's new left or top edge
/// after a left or top strip, and the strip's left or top edge after a
/// right or bottom one. Past that the coordinate addition overflows.
pub open spec fn carve_in_range(remaining: Rect, edge: Edge, cells: u16) -> bool {
    match edge {
        Edge::Left => remaining.x + min_u16(cells, remaining.width) <= u16_max(),
        Edge::Right => remaining.x + (remaining.width - min_u16(cells, remaining.width)) <= u16_max(),
        Edge::Top => remaining.y + min_u16(cells, remaining.height) <= u16_max(),
        Edge::Bottom => remaining.y + (remaining.height - min_u16(cells, remaining.height))
            <= u16_max(),
    }
}

/// Carves a strip `cells` thick off `edge` of `remaining`, leaving the rest
/// in `remaining`, and returns the strip: a left or right strip keeps the
/// rows of `remaining` and takes `min(cells, width)` columns at that side,
/// a top or bottom strip keeps the columns and takes `min(cells, height)`
/// rows. A rect whose far edges fit in `u16` can always be carved, and
/// both pieces then fit too.
pub fn carve(remaining: &mut Rect, edge: Edge, cells: u16) -> (strip: Rect)
    requires
        carve_in_range(*old(remaining), edge, cells),
    ensures
        (strip, *final(remaining)) == carve_spec(*old(remaining), edge, cells),
        old(remaining).fits() ==> final(remaining).fits() && strip.fits(),
{
    let mut strip = *remaining;
    match edge {
        Edge::Left => {
            strip.width = if cells <= remaining.width {
                cells
            } else {
                remaining.width
            };
            remaining.x = remaining.x + strip.width;
            remaining.width = remaining.width - strip.width;
        },
        Edge::Right => {
            strip.width = if cells <= remaining.width {
                cells
            } else {
                remaining.width
            };
            remaining.width = remaining.width - strip.width;
            strip.x = remaining.x + remaining.width;
        },
        Edge::Top => {
            strip.height = if cells <= remaining.height {
                cells
            } else {
                remaining.height
            };
            remaining.y = remaining.y + strip.height;
            remaining.height = remaining.height - strip.height;
        },
        Edge::Bottom => {
            strip.height = if cells <= remaining.height {
                cells
            } else {
                remaining.height
            };
            remaining.height = remaining.height - strip.height;
            strip.y = remaining.y + remaining.height;
        },
    }
    strip
}

/// A carve splits the remaining region in two: every cell of it lands in
/// exactly one of the strip and the new remainder, and neither reaches
/// outside it.
pub proof fn lemma_carve_partitions(remaining: Rect, edge: Edge, cells: u16, px: int, py: int)
    requires
        carve_in_range(remaining, edge, cells),
    ensures
        ({
            let (strip, rest) = carve_spec(remaining, edge, cells);
            &&& remaining.contains_spec(px, py) <==> (strip.contains_spec(px, py)
                || rest.contains_spec(px, py))
            &&& !(strip.contains_spec(px, py) && rest.contains_spec(px, py))
            &&& within(strip, remaining)
            &&& within(rest, remaining)
            &&& remaining.fits() ==> rest.fits() && strip.fits()
        }),
{
}

/// Whether a camera takes part in docking this frame.
pub open spec fn docks(camera: TerminalCamera) -> bool {
    camera.active && camera.viewport is Docked
}

/// Docking `cameras` in sequence against `screen`: the strip each camera
/// receives (zero for cameras that do not dock) and the region left over.
pub open spec fn carve_all(cameras: Seq<TerminalCamera>, screen: Rect) -> (Seq<Rect>, Rect)
    decreases cameras.len(),
{
    if cameras.len() == 0 {
        (Seq::empty(), screen)
    } else {
        let (strips, remaining) = carve_all(cameras.drop_last(), screen);
        let camera = cameras.last();
        match camera.viewport {
            Viewport::Docked { edge, cells } => if camera.active {
                let (strip, rest) = carve_spec(remaining, edge, cells);
                (strips.push(strip), rest)
            } else {
                (strips.push(Rect { x: 0, y: 0, width: 0, height: 0 }), remaining)
            },
            _ => (strips.push(Rect { x: 0, y: 0, width: 0, height: 0 }), remaining),
        }
    }
}

/// The rect a camera resolves to, given the screen, the region left after
/// every dock, and the strip it was carved.
pub open spec fn resolve_one_spec(
    camera: TerminalCamera,
    screen: Rect,
    remaining: Rect,
    strip: Rect,
) -> Rect {
    if !camera.active {
        Rect { x: 0, y: 0, width: 0, height: 0 }
    } else {
        match camera.viewport {
            Viewport::Full => screen,
            Viewport::Fixed(rect) => rect.intersection_spec(screen),
            Viewport::Docked { .. } => strip,
            Viewport::Fill => remaining,
        }
    }
}

/// The rect a camera resolves to, given the screen, the region left after
/// every dock, and the strip it was carved.
pub fn resolve_one(camera: &TerminalCamera, screen: Rect, remaining: Rect, strip: Rect) -> (r: Rect)
    ensures
        r == resolve_one_spec(*camera, screen, remaining, strip),
{
    if !camera.active {
        return Rect::zero();
    }
    match camera.viewport {
        Viewport::Full => screen,
        Viewport::Fixed(rect) => rect.intersection(screen),
        Viewport::Docked { .. } => strip,
        Viewport::Fill => remaining,
    }
}

/// The cameras in resolution order: by `(order, entity)`, ties in input
/// order.
pub open spec fn sorted_cameras(cameras: Seq<(Entity, TerminalCamera)>) -> Seq<TerminalCamera> {
    let order = sort_order(camera_keys(cameras));
    Seq::new(cameras.len(), |k: int| cameras[order[k] as int].1)
}

/// The rect the camera at resolution position `k` resolves to.
pub open spec fn resolved_at(cameras: Seq<(Entity, TerminalCamera)>, screen: Rect, k: int) -> Rect {
    let sorted = sorted_cameras(cameras);
    let (strips, remaining) = carve_all(sorted, screen);
    resolve_one_spec(sorted[k], screen, remaining, strips[k])
}

/// Every strip of a docking pass, and what it leaves over, lies within the
/// screen; the strips have one entry per camera.
pub proof fn lemma_carve_all_within(cameras: Seq<TerminalCamera>, screen: Rect)
    requires
        screen.fits(),
    ensures
        carve_all(cameras, screen).0.len() == cameras.len(),
        carve_all(cameras, screen).1.fits(),
        within(carve_all(cameras, screen).1, screen),
        forall|k: int|
            0 <= k < cameras.len() ==> within(#[trigger] carve_all(cameras, screen).0[k], screen),
    decreases cameras.len(),
{
    if cameras.len() > 0 {
        lemma_carve_all_within(cameras.drop_last(), screen);
    }
}

/// Whatever a camera declares, the rect it resolves to lies within the
/// screen.
pub proof fn lemma_resolved_within_screen(
    cameras: Seq<(Entity, TerminalCamera)>,
    screen: Rect,
    k: int,
)
    requires
        screen.fits(),
        0 <= k < cameras.len(),
    ensures
        within(resolved_at(cameras, screen, k), screen),
{
    let sorted = sorted_cameras(cameras);
    lemma_carve_all_within(sorted, screen);
    let (strips, remaining) = carve_all(sorted, screen);
    match sorted[k].viewport {
        Viewport::Fixed(rect) => {
            crate::geometry::lemma_intersection_within(rect, screen);
        },
        Viewport::Docked { .. } => {
            assert(within(strips[k], screen));
        },
        _ => {},
    }
}

/// Resolves every camera's viewport against a terminal of `size`: entry
/// `i` of the result is the rect of `cameras[i]`. Cameras resolve in
/// `(order, entity)` sequence; docked strips carve from one shared
/// remaining region and fills take what survives.
pub fn resolve_camera_viewports(size: TerminalSize, cameras: &[(Entity, TerminalCamera)]) -> (resolved:
    Vec<Rect>)
    ensures
        resolved@.len() == cameras@.len(),
        forall|k: int|
            0 <= k < cameras@.len() ==> resolved@[#[trigger] sort_order(camera_keys(cameras@))[k] as int]
                == resolved_at(cameras@, size.rect_spec(), k),
{
    let screen = size.rect();
    let keys = camera_sort_keys(cameras);
    let order = stable_sort_indices(keys.as_slice());
    let n = cameras.len();
    let ghost sorted = sorted_cameras(cameras@);
    proof {
        lemma_carve_all_within(sorted, screen);
    }
    let mut remaining = screen;
    let mut strips: Vec<Rect> = Vec::new();
    let mut k: usize = 0;
    while k < n
        invariant
            k <= n,
            n == cameras@.len(),
            order@ == sort_order(camera_keys(cameras@)),
            stable_order(camera_keys(cameras@), order@),
            sorted == sorted_cameras(cameras@),
            screen.fits(),
            (strips@, remaining) == carve_all(sorted.take(k as int), screen),
            remaining.fits(),
        decreases n - k,
    {
        let camera = cameras[order[k]].1;
        assert(sorted.take(k as int + 1).drop_last() =~= sorted.take(k as int));
        assert(camera == sorted[k as int]);
        let strip = match camera.viewport {
            Viewport::Docked { edge, cells } => {
                if camera.active {
                    carve(&mut remaining, edge, cells)
                } else {
                    Rect::zero()
                }
            },
            _ => Rect::zero(),
        };
        strips.push(strip);
        k = k + 1;
    }
    assert(sorted.take(n as int) =~= sorted);
    let mut resolved: Vec<Rect> = Vec::new();
    let mut i: usize = 0;
    while i < n
        invariant
            i <= n,
            resolved@.len() == i,
        decreases n - i,
    {
        resolved.push(Rect::zero());
        i = i + 1;
    }
    let mut k: usize = 0;
    while k < n
        invariant
            k <= n,
            n == cameras@.len(),
            resolved@.len() == n,
            strips@.len() == n,
            order@ == sort_order(camera_keys(cameras@)),
            stable_order(camera_keys(cameras@), order@),
            sorted == sorted_cameras(cameras@),
            (strips@, remaining) == carve_all(sorted, screen),
            screen == size.rect_spec(),
            forall|j: int|
                0 <= j < k ==> resolved@[#[trigger] order@[j] as int] == resolved_at(
                    cameras@,
                    screen,
                    j,
                ),
        decreases n - k,
    {
        let idx = order[k];
        let r = resolve_one(&cameras[idx].1, screen, remaining, strips[k]);
        let ghost before = resolved@;
        resolved.set(idx, r);
        proof {
            assert forall|j: int| 0 <= j < k + 1 implies resolved@[#[trigger] order@[j] as int]
                == resolved_at(cameras@, screen, j) by {
                if j < k {
                    assert(order@[j] != order@[k as int]);
                    assert(resolved@[order@[j] as int] == before[order@[j] as int]);
                }
            }
        }
        k = k + 1;
    }
    resolved
}

/// Entry `i` of `resolved` is the first one for entity `t`.
pub open spec fn is_first_entry(resolved: Seq<(Entity, Rect)>, t: Entity, i: int) -> bool {
    &&& 0 <= i < resolved.len()
    &&& resolved[i].0 == t
    &&& forall|j: int| 0 <= j < i ==> (#[trigger] resolved[j]).0 != t
}

/// An entity has at most one first entry.
proof fn lemma_first_entry_unique(resolved: Seq<(Entity, Rect)>, t: Entity, a: int, b: int)
    requires
        is_first_entry(resolved, t, a),
        is_first_entry(resolved, t, b),
    ensures
        a == b,
{
    if a < b {
        assert(resolved[a].0 != t);
    } else if b < a {
        assert(resolved[b].0 != t);
    }
}

/// The viewport of `camera`, or of `default_camera` when `camera` is
/// `None`, looked up among `resolved`: the first entry for that entity.
/// `None` when no camera is named or the one named has no entry.
pub open spec fn viewport_of_spec(
    camera: Option<Entity>,
    default_camera: Option<Entity>,
    resolved: Seq<(Entity, Rect)>,
) -> Option<Rect> {
    let target = match camera {
        Some(c) => Some(c),
        None => default_camera,
    };
    match target {
        None => None,
        Some(t) => lookup_spec(resolved, t),
    }
}

/// The rect of the first entry for `t` in `resolved`, if any.
pub open spec fn lookup_spec(resolved: Seq<(Entity, Rect)>, t: Entity) -> Option<Rect> {
    if exists|i: int| #[trigger] is_first_entry(resolved, t, i) {
        Some(resolved[choose|i: int| #[trigger] is_first_entry(resolved, t, i)].1)
    } else {
        None
    }
}

/// The resolved viewports of the cameras, with the default camera to fall
/// back on: what a system placing widgets against a camera reads.
pub struct CameraViewports {
    /// The default camera, if any is active.
    pub default_camera: Option<Entity>,
    /// Each camera's resolved viewport.
    pub viewports: Vec<(Entity, Rect)>,
}

impl CameraViewports {
    /// The viewport of `camera`, or of the default camera when `None`.
    ///
    /// `None` when no camera answers - none is active, or the one named has
    /// no viewport resolved yet, which is the frame an entity spawns on.
    pub fn of(&self, camera: Option<Entity>) -> (r: Option<Rect>)
        ensures
            r == viewport_of_spec(camera, self.default_camera, self.viewports@),
    {
        let target = match camera {
            Some(c) => c,
            None => match self.default_camera {
                Some(d) => d,
                None => return None,
            },
        };
        let mut i: usize = 0;
        while i < self.viewports.len()
            invariant
                i <= self.viewports@.len(),
                camera is Some ==> camera == Some(target),
                camera is None ==> self.default_camera == Some(target),
                forall|j: int| 0 <= j < i ==> (#[trigger] self.viewports@[j]).0 != target,
            decreases self.viewports@.len() - i,
        {
            if self.viewports[i].0 == target {
                proof {
                    assert(is_first_entry(self.viewports@, target, i as int));
                    lemma_first_entry_unique(
                        self.viewports@,
                        target,
                        i as int,
                        choose|c: int| #[trigger] is_first_entry(self.viewports@, target, c),
                    );
                    assert(lookup_spec(self.viewports@, target) == Some(self.viewports@[i as int].1));
                }
                return Some(self.viewports[i].1);
            }
            i = i + 1;
        }
        proof {
            if exists|c: int| #[trigger] is_first_entry(self.viewports@, target, c) {
                let c = choose|c: int| #[trigger] is_first_entry(self.viewports@, target, c);
                assert(self.viewports@[c].0 == target);
            }
        }
        None
    }
}

} // verus!
