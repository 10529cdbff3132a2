use plurimus::geometry::Rect;
use plurimus::shadow::{offset_and_inflate, shadow_cells};

#[test]
fn a_shadow_moves_by_its_offset() {
    let node = Rect::new(1, 0, 4, 1);
    assert_eq!(offset_and_inflate(node, (1, 1), 0), Some(Rect::new(2, 1, 4, 1)));
}

#[test]
fn spread_grows_every_side_and_the_screen_corner_cuts() {
    let node = Rect::new(1, 0, 4, 1);
    assert_eq!(offset_and_inflate(node, (0, 0), 1), Some(Rect::new(0, 0, 6, 2)));
    assert_eq!(offset_and_inflate(node, (-3, 0), 0), Some(Rect::new(0, 0, 2, 1)));
}

#[test]
fn a_shadow_shrunk_or_pushed_away_covers_nothing() {
    let node = Rect::new(1, 1, 2, 2);
    assert_eq!(offset_and_inflate(node, (0, 0), -1), None);
    assert_eq!(offset_and_inflate(node, (-5, 0), 0), None);
}

#[test]
fn box_shadow_dims_cells_outside_the_node() {
    let node = Rect::new(1, 0, 4, 1);
    let shadow = offset_and_inflate(node, (1, 1), 0).unwrap();

    let cells = shadow_cells(shadow, node, Rect::new(0, 0, 8, 3), None);

    assert_eq!(cells, vec![(2, 1), (3, 1), (4, 1), (5, 1)]);
}

#[test]
fn shadows_skip_the_node_and_respect_the_clip() {
    let node = Rect::new(1, 0, 4, 1);
    let shadow = offset_and_inflate(node, (0, 0), 1).unwrap();

    let cells = shadow_cells(shadow, node, Rect::new(0, 0, 8, 3), Some(Rect::new(0, 0, 8, 1)));

    assert_eq!(cells, vec![(0, 0), (5, 0)]);
}
