use plurimus::buffer::Buffer;
use plurimus::camera::{
    camera_buffer, default_camera, extract_cameras, Background, Entity, ExtractedCamera,
    TerminalCamera, TerminalSize,
};
use plurimus::compositor::composite;
use plurimus::color::{downsample_frame, ColorDepth};
use plurimus::geometry::{Position, Rect};
use plurimus::style::{Color, Style};
use plurimus::viewport::{carve, resolve_camera_viewports, CameraViewports, Edge, Viewport};

fn resolve(size: TerminalSize, cameras: &[(Entity, TerminalCamera)]) -> Vec<Rect> {
    resolve_camera_viewports(size, cameras)
}

#[test]
fn extracts_active_cameras_with_clamped_viewports() {
    let cameras = [
        (Entity(0), TerminalCamera::default()),
        (
            Entity(1),
            TerminalCamera::default().with_viewport(Viewport::Fixed(Rect::new(8, 3, 10, 10))),
        ),
        (Entity(2), TerminalCamera::default().with_active(false)),
    ];
    let resolved = resolve(TerminalSize::new(10, 5), &cameras);

    let extracted = extract_cameras(&cameras, &resolved);

    let mut areas: Vec<(Rect, Rect)> = extracted
        .iter()
        .map(|(_, camera)| {
            let buffer = camera_buffer(camera.viewport, camera.background);
            (camera.viewport, buffer.area)
        })
        .collect();
    areas.sort_by_key(|(viewport, _)| (viewport.x, viewport.y));
    assert_eq!(
        areas,
        vec![
            (Rect::new(0, 0, 10, 5), Rect::new(0, 0, 10, 5)),
            (Rect::new(8, 3, 2, 2), Rect::new(8, 3, 2, 2)),
        ]
    );
}

#[test]
fn default_camera_is_lowest_order_active() {
    let cameras = [
        (Entity(0), TerminalCamera::default().with_order(1)),
        (Entity(1), TerminalCamera::default()),
    ];
    assert_eq!(default_camera(&cameras), Some(Entity(1)));
}

#[test]
fn extracted_cameras_link_back_to_their_source_entity() {
    let cameras = [(Entity(7), TerminalCamera::default())];
    let resolved = resolve(TerminalSize::default(), &cameras);
    let sources: Vec<Entity> = extract_cameras(&cameras, &resolved)
        .iter()
        .map(|(entity, _)| *entity)
        .collect();
    assert_eq!(sources, vec![Entity(7)]);
}

#[test]
fn an_inactive_camera_is_never_the_default() {
    let cameras = [
        (Entity(0), TerminalCamera::default().with_active(false)),
        (Entity(1), TerminalCamera::default().with_order(3)),
    ];
    assert_eq!(default_camera(&cameras), Some(Entity(1)));
    let dormant = [(Entity(0), TerminalCamera::default().with_active(false))];
    assert_eq!(default_camera(&dormant), None);
}

#[test]
fn equal_orders_default_to_the_lower_entity() {
    let cameras = [
        (Entity(9), TerminalCamera::default()),
        (Entity(4), TerminalCamera::default()),
    ];
    assert_eq!(default_camera(&cameras), Some(Entity(4)));
}

#[test]
fn a_lookup_falls_back_to_the_default_camera() {
    let cameras = [
        (
            Entity(1),
            TerminalCamera::default().with_viewport(Viewport::Fixed(Rect::new(0, 0, 4, 2))),
        ),
        (
            Entity(2),
            TerminalCamera::default()
                .with_order(1)
                .with_viewport(Viewport::Fixed(Rect::new(4, 0, 6, 2))),
        ),
    ];
    let (main, side, stranger) = (Entity(1), Entity(2), Entity(3));
    let rects = resolve(TerminalSize::new(10, 6), &cameras);
    let resolved: Vec<(Entity, Rect)> =
        cameras.iter().map(|(e, _)| *e).zip(rects.iter().copied()).collect();
    let cameras = CameraViewports { default_camera: default_camera(&cameras), viewports: resolved };

    assert_eq!(cameras.of(Some(side)), Some(Rect::new(4, 0, 6, 2)));
    assert_eq!(cameras.of(None), Some(Rect::new(0, 0, 4, 2)));
    assert_eq!(cameras.of(Some(main)), cameras.of(None));
    assert_eq!(cameras.of(Some(stranger)), None);
}

#[test]
fn a_lookup_with_no_camera_at_all_answers_nothing() {
    let cameras = CameraViewports { default_camera: default_camera(&[]), viewports: Vec::new() };
    assert_eq!(cameras.of(None), None);
}

#[test]
fn docked_strips_carve_in_order_and_fill_takes_the_rest() {
    let cameras = [
        (Entity(1), TerminalCamera::default().with_viewport(Viewport::Fill)),
        (
            Entity(2),
            TerminalCamera::default()
                .with_order(1)
                .with_viewport(Viewport::Docked { edge: Edge::Left, cells: 3 }),
        ),
        (
            Entity(3),
            TerminalCamera::default()
                .with_order(2)
                .with_viewport(Viewport::Docked { edge: Edge::Bottom, cells: 1 }),
        ),
    ];

    let resolved = resolve(TerminalSize::new(10, 6), &cameras);

    assert_eq!(resolved[1], Rect::new(0, 0, 3, 6));
    assert_eq!(resolved[2], Rect::new(3, 5, 7, 1));
    assert_eq!(resolved[0], Rect::new(3, 0, 7, 5));
}

#[test]
fn oversized_docks_clamp_and_inactive_cameras_resolve_empty() {
    let cameras = [
        (
            Entity(1),
            TerminalCamera::default().with_viewport(Viewport::Docked { edge: Edge::Right, cells: 10 }),
        ),
        (Entity(2), TerminalCamera::default().with_order(1).with_viewport(Viewport::Fill)),
        (Entity(3), TerminalCamera::default().with_active(false)),
    ];

    let resolved = resolve(TerminalSize::new(4, 2), &cameras);

    assert_eq!(resolved[0], Rect::new(0, 0, 4, 2));
    assert!(resolved[1].is_empty());
    assert_eq!(resolved[2], Rect::zero());
}

#[test]
fn full_and_fixed_viewports_ignore_docking() {
    let cameras = [
        (Entity(1), TerminalCamera::default().with_order(5)),
        (
            Entity(2),
            TerminalCamera::default().with_viewport(Viewport::Fixed(Rect::new(8, 3, 10, 10))),
        ),
        (
            Entity(3),
            TerminalCamera::default()
                .with_order(1)
                .with_viewport(Viewport::Docked { edge: Edge::Top, cells: 2 }),
        ),
    ];

    let resolved = resolve(TerminalSize::new(10, 4), &cameras);

    assert_eq!(resolved[0], Rect::new(0, 0, 10, 4));
    assert_eq!(resolved[1], Rect::new(8, 3, 2, 1));
}

#[test]
fn every_resolved_viewport_lies_within_the_screen() {
    let screen = TerminalSize::new(12, 7);
    let cameras = [
        (Entity(1), TerminalCamera::default().with_viewport(Viewport::Fixed(Rect::new(9, 5, 40, 40)))),
        (Entity(2), TerminalCamera::default().with_viewport(Viewport::Docked { edge: Edge::Top, cells: 30 })),
        (Entity(3), TerminalCamera::default().with_order(2).with_viewport(Viewport::Fill)),
    ];
    for rect in resolve(screen, &cameras) {
        if !rect.is_empty() {
            assert!(rect.x + rect.width <= 12 && rect.y + rect.height <= 7);
        }
    }
}

fn painted(area: Rect, symbol: &str, background: Background) -> Buffer {
    let mut buffer = camera_buffer(area, background);
    buffer.set_stringn(area.x, area.y, symbol, usize::MAX, Style::new());
    buffer
}

fn row(frame: &Buffer, width: u16) -> String {
    (0..width)
        .map(|x| frame.cell(Position::new(x, 0)).unwrap().symbol.clone())
        .collect()
}

#[test]
fn composite_layers_cameras_by_order() {
    let base = Rect::new(0, 0, 4, 1);
    let top = Rect::new(2, 0, 2, 1);
    let layers = vec![
        (ExtractedCamera::new(1, top, Background::TerminalDefault), painted(top, "BB", Background::TerminalDefault)),
        (ExtractedCamera::new(0, base, Background::TerminalDefault), painted(base, "AAAA", Background::TerminalDefault)),
    ];

    let frame = composite(TerminalSize::new(4, 1), &layers);

    assert_eq!(row(&frame, 4), "AABB");
}

#[test]
fn transparent_cameras_let_untouched_cells_through() {
    let area = Rect::new(0, 0, 4, 1);
    let mut overlay = camera_buffer(area, Background::Transparent);
    overlay.set_stringn(2, 0, "B", usize::MAX, Style::new());
    let layers = vec![
        (ExtractedCamera::new(0, area, Background::TerminalDefault), painted(area, "AAAA", Background::TerminalDefault)),
        (ExtractedCamera::new(1, area, Background::Transparent), overlay),
    ];

    let frame = composite(TerminalSize::new(4, 1), &layers);

    assert_eq!(row(&frame, 4), "AABA");
}

#[test]
fn clear_cameras_fill_untouched_cells_over_lower_layers() {
    let base = Rect::new(0, 0, 4, 1);
    let top = Rect::new(2, 0, 2, 1);
    let layers = vec![
        (ExtractedCamera::new(0, base, Background::TerminalDefault), painted(base, "AAAA", Background::TerminalDefault)),
        (ExtractedCamera::new(1, top, Background::Clear(Color::Blue)), camera_buffer(top, Background::Clear(Color::Blue))),
    ];

    let frame = composite(TerminalSize::new(4, 1), &layers);

    assert_eq!(frame.cell(Position::new(0, 0)).unwrap().symbol, "A");
    let cleared = frame.cell(Position::new(2, 0)).unwrap();
    assert_eq!(cleared.symbol, " ");
    assert_eq!(cleared.bg, Color::Blue);
}

#[test]
fn equal_orders_composite_in_the_order_given() {
    let area = Rect::new(0, 0, 2, 1);
    let layers = vec![
        (ExtractedCamera::new(0, area, Background::TerminalDefault), painted(area, "XX", Background::TerminalDefault)),
        (ExtractedCamera::new(0, area, Background::TerminalDefault), painted(area, "YY", Background::TerminalDefault)),
    ];

    let frame = composite(TerminalSize::new(2, 1), &layers);

    assert_eq!(row(&frame, 2), "YY");
}

#[test]
fn ansi16_depth_downsamples_composed_cell_colors() {
    let area = Rect::new(0, 0, 2, 1);
    let mut buffer = camera_buffer(area, Background::TerminalDefault);
    buffer.set_stringn(0, 0, "R", usize::MAX, Style::new().fg(Color::Rgb(255, 0, 0)));
    let layers = vec![(ExtractedCamera::new(0, area, Background::TerminalDefault), buffer)];

    let mut frame = composite(TerminalSize::new(2, 1), &layers);
    downsample_frame(&mut frame, ColorDepth::Ansi16);

    assert_eq!(frame.cell(Position::new(0, 0)).unwrap().fg, Color::LightRed);
}

#[test]
fn carving_a_rect_that_reaches_past_u16_still_splits_it() {
    let mut remaining = Rect { x: 65000, y: 0, width: 1000, height: 3 };
    let strip = carve(&mut remaining, Edge::Left, 10);
    assert_eq!(strip, Rect { x: 65000, y: 0, width: 10, height: 3 });
    assert_eq!(remaining, Rect { x: 65010, y: 0, width: 990, height: 3 });

    let mut remaining = Rect { x: 0, y: 65000, width: 4, height: 1000 };
    let strip = carve(&mut remaining, Edge::Top, 10);
    assert_eq!(strip, Rect { x: 0, y: 65000, width: 4, height: 10 });
    assert_eq!(remaining, Rect { x: 0, y: 65010, width: 4, height: 990 });
}

#[test]
fn carving_more_than_is_left_takes_all_of_it() {
    let mut remaining = Rect { x: 2, y: 3, width: 5, height: 4 };
    let strip = carve(&mut remaining, Edge::Right, 9);
    assert_eq!(strip, Rect { x: 2, y: 3, width: 5, height: 4 });
    assert_eq!(remaining, Rect { x: 2, y: 3, width: 0, height: 4 });
}
