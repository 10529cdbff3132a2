//! The order and place widgets draw in.
//!
//! Every extracted widget draws in one pass, sorted by `(order, source
//! entity)` so equal orders still resolve the same way from one frame to
//! the next, into the buffer of the camera it targets - the default camera
//! when it names none - at its area resolved against that camera's
//! viewport. A widget whose camera has no buffer, or whose area is empty
//! there, is skipped. What a widget draws is its own business.

use vstd::prelude::*;

use crate::camera::Entity;
use crate::geometry::Rect;
use crate::order::{sort_order, stable_order, stable_sort_indices};
use crate::placement::{resolve_area, resolve_area_spec, UiArea};
use crate::viewport::is_first_entry;

verus! {

/// A widget as the draw pass sees it: where it is placed, its z-order,
/// the widget entity that breaks ties between equal orders, and the camera
/// it targets (`None` for the default camera).
#[derive(Clone, Copy, Debug, PartialEq, Eq, Structural)]
pub struct ExtractedWidget {
    /// Camera-local placement.
    pub area: UiArea,
    /// Z-order; higher draws later, on top.
    pub order: i32,
    /// The widget entity, tie-breaking equal orders.
    pub source: Entity,
    /// The camera to draw through; `None` is the default camera.
    pub target: Option<Entity>,
}

impl ExtractedWidget {
    /// A widget extracted for `source`, on the default camera at order
    /// zero.
    pub fn new(area: UiArea, source: Entity) -> (w: ExtractedWidget)
        ensures
            w == (ExtractedWidget { area, order: 0, source, target: None }),
    {
        ExtractedWidget { area, order: 0, source, target: None }
    }

    /// Sets the z-order; higher draws later, on top.
    pub fn with_order(self, order: i32) -> (w: ExtractedWidget)
        ensures
            w == (ExtractedWidget { order, ..self }),
    {
        ExtractedWidget { order, ..self }
    }

    /// Sets the camera to draw through; `None` is the default camera.
    pub fn with_target(self, target: Option<Entity>) -> (w: ExtractedWidget)
        ensures
            w == (ExtractedWidget { target, ..self }),
    {
        ExtractedWidget { target, ..self }
    }
}

/// One widget drawn: which widget, into which camera's buffer, over which
/// cells.
#[derive(Clone, Copy, Debug, PartialEq, Eq, Structural)]
pub struct WidgetDraw {
    /// The widget's index among those given.
    pub widget: usize,
    /// The camera's index among those given.
    pub camera: usize,
    /// The screen cells it draws over.
    pub area: Rect,
}

/// The keys widgets draw by: order, then source entity.
pub open spec fn widget_keys(widgets: Seq<ExtractedWidget>) -> Seq<(i64, u64)> {
    widgets.map_values(|w: ExtractedWidget| (w.order as i64, w.source.0))
}

/// The index of the first camera entry for `t`, if any.
pub open spec fn first_camera(cameras: Seq<(Entity, Rect)>, t: Entity) -> Option<int> {
    if exists|i: int| #[trigger] is_first_entry(cameras, t, i) {
        Some(choose|i: int| #[trigger] is_first_entry(cameras, t, i))
    } else {
        None
    }
}

/// How widget `k` draws, if it does: into the first buffer of the camera
/// it targets, or of `default_camera` when it names none, over its area
/// resolved against that buffer's area; `None` when there is no such
/// camera or the area is empty.
pub open spec fn draw_of(
    widgets: Seq<ExtractedWidget>,
    k: int,
    default_camera: Option<Entity>,
    cameras: Seq<(Entity, Rect)>,
) -> Option<WidgetDraw> {
    let w = widgets[k];
    let target = match w.target {
        Some(t) => Some(t),
        None => default_camera,
    };
    match target {
        None => None,
        Some(t) => match first_camera(cameras, t) {
            None => None,
            Some(c) => {
                let area = resolve_area_spec(w.area, cameras[c].1);
                if area.empty_spec() {
                    None
                } else {
                    Some(WidgetDraw { widget: k as usize, camera: c as usize, area })
                }
            },
        },
    }
}

/// The draws of the first `n` widgets of `order`, in that order.
pub open spec fn draws_in(
    widgets: Seq<ExtractedWidget>,
    order: Seq<usize>,
    default_camera: Option<Entity>,
    cameras: Seq<(Entity, Rect)>,
    n: int,
) -> Seq<WidgetDraw>
    decreases n,
{
    if n <= 0 || n > order.len() {
        Seq::empty()
    } else {
        let earlier = draws_in(widgets, order, default_camera, cameras, n - 1);
        match draw_of(widgets, order[n - 1] as int, default_camera, cameras) {
            Some(d) => earlier.push(d),
            None => earlier,
        }
    }
}

/// The first camera entry for `t`; see [`first_camera`].
fn find_camera(cameras: &[(Entity, Rect)], t: Entity) -> (c: Option<usize>)
    ensures
        match c {
            Some(i) => first_camera(cameras@, t) == Some(i as int),
            None => first_camera(cameras@, t) is None,
        },
{
    let mut i: usize = 0;
    while i < cameras.len()
        invariant
            i <= cameras@.len(),
            forall|j: int| 0 <= j < i ==> (#[trigger] cameras@[j]).0 != t,
        decreases cameras@.len() - i,
    {
        if cameras[i].0 == t {
            proof {
                assert(is_first_entry(cameras@, t, i as int));
                let c = choose|c: int| #[trigger] is_first_entry(cameras@, t, c);
                if c < i {
                    assert(cameras@[c].0 != t);
                } else if c > i {
                    assert(cameras@[i as int].0 != t);
                }
            }
            return Some(i);
        }
        i = i + 1;
    }
    proof {
        if exists|c: int| #[trigger] is_first_entry(cameras@, t, c) {
            let c = choose|c: int| #[trigger] is_first_entry(cameras@, t, c);
            assert(cameras@[c].0 == t);
        }
    }
    None
}

/// The widget draws of a frame, in drawing order: widgets sorted by
/// `(order, source)` - ties in the order given - each into the buffer of
/// its camera, or of `default_camera` when it names none, over its area
/// resolved against that camera's area; widgets with no such camera or an
/// empty area are left out. `cameras` pairs each camera with its buffer's
/// area.
pub fn widget_draws(
    widgets: &[ExtractedWidget],
    default_camera: Option<Entity>,
    cameras: &[(Entity, Rect)],
) -> (draws: Vec<WidgetDraw>)
    ensures
        draws@ == draws_in(
            widgets@,
            sort_order(widget_keys(widgets@)),
            default_camera,
            cameras@,
            widgets@.len() as int,
        ),
        stable_order(widget_keys(widgets@), sort_order(widget_keys(widgets@))),
{
    let mut keys: Vec<(i64, u64)> = Vec::new();
    let mut j: usize = 0;
    while j < widgets.len()
        invariant
            j <= widgets@.len(),
            keys@ == widget_keys(widgets@).take(j as int),
        decreases widgets@.len() - j,
    {
        proof {
            assert(widget_keys(widgets@).take(j as int + 1) =~= widget_keys(widgets@).take(j as int).push(
                (widgets@[j as int].order as i64, widgets@[j as int].source.0),
            ));
        }
        keys.push((widgets[j].order as i64, widgets[j].source.0));
        j = j + 1;
    }
    proof {
        assert(widget_keys(widgets@).take(j as int) =~= widget_keys(widgets@));
    }
    let order = stable_sort_indices(keys.as_slice());
    let mut draws: Vec<WidgetDraw> = Vec::new();
    let mut k: usize = 0;
    while k < order.len()
        invariant
            k <= order@.len(),
            order@ == sort_order(widget_keys(widgets@)),
            stable_order(widget_keys(widgets@), order@),
            draws@ == draws_in(widgets@, order@, default_camera, cameras@, k as int),
        decreases order@.len() - k,
    {
        let index = order[k];
        let w = widgets[index];
        let target = match w.target {
            Some(t) => Some(t),
            None => default_camera,
        };
        if let Some(t) = target {
            if let Some(c) = find_camera(cameras, t) {
                let area = resolve_area(w.area, cameras[c].1);
                if !area.is_empty() {
                    draws.push(WidgetDraw { widget: index, camera: c, area });
                }
            }
        }
        k = k + 1;
    }
    draws
}

} // verus!
