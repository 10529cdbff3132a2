use plurimus::camera::Entity;
use plurimus::geometry::Rect;
use plurimus::placement::{
    local_area, propagated_camera, resolve_area, resolve_camera, UiArea, UiCamera, UiOrder,
};

const VIEWPORT: Rect = Rect { x: 4, y: 2, width: 10, height: 6 };

#[test]
fn a_local_rect_survives_the_round_trip() {
    let local = Rect::new(2, 1, 3, 2);

    let screen = resolve_area(UiArea::Fixed(local), VIEWPORT);

    assert_eq!(screen, Rect::new(6, 3, 3, 2));
    assert_eq!(local_area(screen, VIEWPORT), local);
}

#[test]
fn a_rect_the_viewport_clipped_localizes_to_what_survived() {
    let screen = resolve_area(UiArea::Fixed(Rect::new(8, 5, 6, 4)), VIEWPORT);

    assert_eq!(screen, Rect::new(12, 7, 2, 1));
    assert_eq!(local_area(screen, VIEWPORT), Rect::new(8, 5, 2, 1));
}

#[test]
fn a_rect_outside_the_origin_saturates() {
    assert_eq!(local_area(Rect::new(1, 0, 2, 2), VIEWPORT), Rect::new(0, 0, 2, 2));
}

#[test]
fn fill_takes_the_whole_viewport() {
    assert_eq!(resolve_area(UiArea::Fill, VIEWPORT), VIEWPORT);
    assert_eq!(resolve_area(UiArea::default(), VIEWPORT), VIEWPORT);
}

#[test]
fn the_nearest_named_camera_wins_else_the_default() {
    let chain = [None, Some(UiCamera(Entity(5))), Some(UiCamera(Entity(6)))];
    assert_eq!(propagated_camera(&chain, Some(Entity(1))).0, Some(Entity(5)));
    assert_eq!(propagated_camera(&[None, None], Some(Entity(1))).0, Some(Entity(1)));
    assert_eq!(propagated_camera(&[], None).0, None);
    assert_eq!(resolve_camera(Some(UiCamera(Entity(2))), Some(Entity(1))), Some(Entity(2)));
    assert_eq!(resolve_camera(None, Some(Entity(1))), Some(Entity(1)));
}

#[test]
fn overlays_order_above_ordinary_widgets() {
    assert_eq!(UiOrder::overlay().0, i32::MAX / 2);
    assert!(UiOrder::overlay().0 > UiOrder::default().0);
}
