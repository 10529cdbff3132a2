//! Where a widget lands: its area relative to its camera's viewport, the
//! camera it draws through, and its draw order.
//!
//! A widget's area is given in the camera's local cells and resolved
//! against the camera's viewport, clipped to it. The camera is the nearest
//! one named on the widget or its ancestors, else the default camera.

use vstd::prelude::*;

use crate::camera::Entity;
use crate::geometry::{lemma_intersection_contains, sat_add, sat_sub, Rect};

verus! {

/// The region a widget occupies within its camera's viewport.
#[derive(Clone, Copy, Debug, PartialEq, Eq, Structural)]
pub enum UiArea {
    /// The whole viewport.
    Fill,
    /// A rect in viewport-local cells, clipped to the viewport.
    Fixed(Rect),
}

impl Default for UiArea {
    /// The whole viewport.
    fn default() -> (a: UiArea)
        ensures
            a == UiArea::Fill,
    {
        UiArea::Fill
    }
}

/// A widget's draw order: higher draws later, on top.
#[derive(Clone, Copy, Debug, PartialEq, Eq, Structural)]
pub struct UiOrder(pub i32);

impl UiOrder {
    /// An order above anything ordinary, for overlays: half of `i32::MAX`.
    pub fn overlay() -> (o: UiOrder)
        ensures
            o.0 == i32::MAX / 2,
    {
        UiOrder(i32::MAX / 2)
    }
}

impl Default for UiOrder {
    /// Order zero.
    fn default() -> (o: UiOrder)
        ensures
            o.0 == 0,
    {
        UiOrder(0)
    }
}

/// Marks a widget that is not drawn.
#[derive(Clone, Copy, Debug, PartialEq, Eq, Structural)]
pub struct UiHidden;

/// Names the camera a widget and its descendants draw through.
#[derive(Clone, Copy, Debug, PartialEq, Eq, Structural)]
pub struct UiCamera(pub Entity);

/// The camera a widget draws through, resolved against its ancestors and
/// the default camera.
#[derive(Clone, Copy, Debug, PartialEq, Eq, Structural)]
pub struct ComputedUiCamera(pub Option<Entity>);

/// Marks a widget whose rasterization a later system does itself.
#[derive(Clone, Copy, Debug, PartialEq, Eq, Structural)]
pub struct RasterDeferred;

/// The set widgets rasterize in.
#[derive(Clone, Copy, Debug, PartialEq, Eq, Structural)]
pub struct WidgetRasterize;

/// The camera a widget names, else the default camera.
pub fn resolve_camera(explicit: Option<UiCamera>, default_camera: Option<Entity>) -> (c: Option<Entity>)
    ensures
        c == match explicit {
            Some(camera) => Some(camera.0),
            None => default_camera,
        },
{
    match explicit {
        Some(camera) => Some(camera.0),
        None => default_camera,
    }
}

/// The first camera named along a widget's chain - the widget itself, then
/// each ancestor outward - else the default camera.
pub open spec fn propagated_spec(chain: Seq<Option<UiCamera>>, default_camera: Option<Entity>) -> Option<Entity>
    decreases chain.len(),
{
    if chain.len() == 0 {
        default_camera
    } else {
        match chain[0] {
            Some(camera) => Some(camera.0),
            None => propagated_spec(chain.drop_first(), default_camera),
        }
    }
}

/// The camera a widget draws through, given the cameras named along its
/// chain from itself outward; see [`propagated_spec`].
pub fn propagated_camera(chain: &[Option<UiCamera>], default_camera: Option<Entity>) -> (c: ComputedUiCamera)
    ensures
        c.0 == propagated_spec(chain@, default_camera),
{
    let mut i: usize = 0;
    proof {
        assert(chain@.skip(0) =~= chain@);
    }
    while i < chain.len()
        invariant
            i <= chain@.len(),
            propagated_spec(chain@.skip(i as int), default_camera) == propagated_spec(chain@, default_camera),
        decreases chain@.len() - i,
    {
        proof {
            assert(chain@.skip(i as int).drop_first() =~= chain@.skip(i as int + 1));
        }
        if let Some(camera) = chain[i] {
            return ComputedUiCamera(Some(camera.0));
        }
        i = i + 1;
    }
    proof {
        assert(chain@.skip(i as int) =~= Seq::<Option<UiCamera>>::empty());
    }
    ComputedUiCamera(default_camera)
}

/// A screen rect in `viewport`-local cells; coordinates left of or above
/// the viewport saturate at zero.
pub open spec fn local_area_spec(rect: Rect, viewport: Rect) -> Rect {
    Rect::new_spec(
        sat_sub(rect.x as int, viewport.x as int) as u16,
        sat_sub(rect.y as int, viewport.y as int) as u16,
        rect.width,
        rect.height,
    )
}

/// A screen rect in `viewport`-local cells; see [`local_area_spec`].
pub fn local_area(rect: Rect, viewport: Rect) -> (r: Rect)
    ensures
        r == local_area_spec(rect, viewport),
{
    Rect::new(rect.x.saturating_sub(viewport.x), rect.y.saturating_sub(viewport.y), rect.width, rect.height)
}

/// A widget's area on screen: the viewport for [`UiArea::Fill`]; for
/// [`UiArea::Fixed`], the rect moved into the viewport and clipped to it.
pub open spec fn resolve_area_spec(area: UiArea, viewport: Rect) -> Rect {
    match area {
        UiArea::Fill => viewport,
        UiArea::Fixed(rect) => Rect::new_spec(
            sat_add(viewport.x as int, rect.x as int) as u16,
            sat_add(viewport.y as int, rect.y as int) as u16,
            rect.width,
            rect.height,
        ).intersection_spec(viewport),
    }
}

/// A widget's area on screen; see [`resolve_area_spec`].
pub fn resolve_area(area: UiArea, viewport: Rect) -> (r: Rect)
    ensures
        r == resolve_area_spec(area, viewport),
{
    match area {
        UiArea::Fill => viewport,
        UiArea::Fixed(rect) => Rect::new(
            viewport.x.saturating_add(rect.x),
            viewport.y.saturating_add(rect.y),
            rect.width,
            rect.height,
        ).intersection(viewport),
    }
}

/// A local rect that lies inside the viewport survives the round trip to
/// the screen and back.
pub proof fn lemma_local_round_trip(local: Rect, viewport: Rect)
    requires
        viewport.fits(),
        local.x + local.width <= viewport.width,
        local.y + local.height <= viewport.height,
    ensures
        local_area_spec(resolve_area_spec(UiArea::Fixed(local), viewport), viewport) == local,
{
}

/// A fixed area never reaches outside the viewport: every cell of the
/// resolved rect is a cell of the viewport.
pub proof fn lemma_resolved_area_within(local: Rect, viewport: Rect, px: int, py: int)
    ensures
        resolve_area_spec(UiArea::Fixed(local), viewport).contains_spec(px, py) ==> viewport.contains_spec(px, py),
{
    let moved = Rect::new_spec(
        sat_add(viewport.x as int, local.x as int) as u16,
        sat_add(viewport.y as int, local.y as int) as u16,
        local.width,
        local.height,
    );
    lemma_intersection_contains(moved, viewport, px, py);
}

} // verus!
