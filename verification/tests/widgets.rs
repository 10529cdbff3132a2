use plurimus::camera::Entity;
use plurimus::geometry::Rect;
use plurimus::placement::UiArea;
use plurimus::widgets::{widget_draws, ExtractedWidget, WidgetDraw};

#[test]
fn widgets_draw_by_order_then_source() {
    let widgets = [
        ExtractedWidget::new(UiArea::Fill, Entity(1)).with_order(1),
        ExtractedWidget::new(UiArea::Fill, Entity(2)),
        ExtractedWidget::new(UiArea::Fill, Entity(1)),
    ];
    let cameras = [(Entity(9), Rect::new(0, 0, 4, 2))];

    let draws = widget_draws(&widgets, Some(Entity(9)), &cameras);

    let order: Vec<usize> = draws.iter().map(|d| d.widget).collect();
    assert_eq!(order, vec![2, 1, 0]);
}

#[test]
fn widgets_resolve_their_area_against_their_camera() {
    let widgets = [
        ExtractedWidget::new(UiArea::Fixed(Rect::new(1, 1, 10, 1)), Entity(1)).with_target(Some(Entity(8))),
        ExtractedWidget::new(UiArea::Fixed(Rect::new(0, 0, 2, 1)), Entity(2)),
    ];
    let cameras = [(Entity(9), Rect::new(0, 0, 4, 2)), (Entity(8), Rect::new(4, 0, 4, 2))];

    let draws = widget_draws(&widgets, Some(Entity(9)), &cameras);

    assert_eq!(
        draws,
        vec![
            WidgetDraw { widget: 0, camera: 1, area: Rect::new(5, 1, 3, 1) },
            WidgetDraw { widget: 1, camera: 0, area: Rect::new(0, 0, 2, 1) },
        ]
    );
}

#[test]
fn widgets_without_a_camera_or_cells_are_skipped() {
    let widgets = [
        ExtractedWidget::new(UiArea::Fill, Entity(1)),
        ExtractedWidget::new(UiArea::Fill, Entity(2)).with_target(Some(Entity(7))),
        ExtractedWidget::new(UiArea::Fixed(Rect::new(9, 9, 1, 1)), Entity(3)).with_target(Some(Entity(9))),
    ];
    let cameras = [(Entity(9), Rect::new(0, 0, 4, 2))];

    assert_eq!(widget_draws(&widgets, None, &cameras), vec![]);
}
