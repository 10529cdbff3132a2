use plurimus::buffer::Buffer;
use plurimus::geometry::{Position, Rect};
use plurimus::overlay::{cell_block, draw_edges, edge_char, EdgeDirection};
use plurimus::render3d::{EdgeCharacters, EdgeSource};
use plurimus::style::Color;

fn symbols(buffer: &Buffer) -> Vec<String> {
    (buffer.area.y..buffer.area.y + buffer.area.height)
        .map(|y| {
            (buffer.area.x..buffer.area.x + buffer.area.width)
                .map(|x| buffer.cell(Position::new(x, y)).unwrap().symbol.clone())
                .collect()
        })
        .collect()
}

#[test]
fn cells_cover_their_ratio_mapped_source_block() {
    assert_eq!(cell_block((4, 2), (0, 0), (2, 1)), ((0, 2), (0, 2)));
    assert_eq!(cell_block((4, 2), (1, 0), (2, 1)), ((2, 4), (0, 2)));
}

#[test]
fn undersized_sources_still_give_every_cell_a_sample() {
    assert_eq!(cell_block((1, 1), (2, 2), (3, 3)), ((0, 1), (0, 1)));
    assert_eq!(cell_block((2, 2), (1, 0), (4, 4)), ((0, 1), (0, 1)));
}

#[test]
fn edges_draw_their_direction_in_the_interior_only() {
    let mut buffer = Buffer::empty(Rect::new(0, 0, 5, 5));
    let dest = buffer.area;
    let mut directions = vec![Some(EdgeDirection::Vertical); 25];
    directions[2 * 5 + 2] = None;
    directions[1 * 5 + 3] = Some(EdgeDirection::Rising);

    draw_edges(&mut buffer, dest, EdgeCharacters::default(), Some(Color::Red), &directions);

    assert_eq!(symbols(&buffer), vec!["     ", " ||/ ", " | | ", " ||| ", "     "]);
    assert_eq!(buffer.cell(Position::new(1, 1)).unwrap().fg, Color::Red);
    assert_eq!(buffer.cell(Position::new(2, 2)).unwrap().fg, Color::Reset);
}

#[test]
fn edges_keep_the_cell_color_without_an_overlay_color() {
    let mut buffer = Buffer::empty(Rect::new(0, 0, 3, 3));
    buffer.put_fg_symbol(1, 1, &"x".to_string(), Color::Blue);
    let dest = buffer.area;

    draw_edges(&mut buffer, dest, EdgeCharacters::default(), None, &[Some(EdgeDirection::Horizontal); 9]);

    let cell = buffer.cell(Position::new(1, 1)).unwrap();
    assert_eq!(cell.symbol, edge_char(EdgeCharacters::default(), EdgeDirection::Horizontal).to_string());
    assert_eq!(cell.fg, Color::Blue);
}

#[test]
fn destinations_without_an_interior_draw_nothing() {
    let mut buffer = Buffer::empty(Rect::new(0, 0, 2, 5));
    let dest = buffer.area;

    draw_edges(&mut buffer, dest, EdgeCharacters::default(), None, &[Some(EdgeDirection::Falling); 10]);

    assert_eq!(symbols(&buffer), vec!["  "; 5]);
}

#[test]
fn depth_sources_draw_nothing_without_a_depth_frame() {
    let (luminance, depth) = EdgeSource::Depth.resolved_fields(false);
    assert!(!luminance && !depth);

    let mut buffer = Buffer::empty(Rect::new(0, 0, 5, 5));
    let dest = buffer.area;
    let directions = vec![None; 25];
    draw_edges(&mut buffer, dest, EdgeCharacters::default(), None, &directions);

    let blank = Buffer::empty(Rect::new(0, 0, 5, 5));
    assert_eq!(symbols(&buffer), symbols(&blank));
}

#[test]
fn depth_fields_need_both_a_depth_source_and_a_depth_frame() {
    assert_eq!(EdgeSource::Depth.resolved_fields(true), (false, true));
    assert_eq!(EdgeSource::Both.resolved_fields(false), (true, false));
    assert_eq!(EdgeSource::Both.resolved_fields(true), (true, true));
    assert_eq!(EdgeSource::Luminance.resolved_fields(true), (true, false));
}
