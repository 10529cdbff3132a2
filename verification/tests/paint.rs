use plurimus::bui::{
    cell_rect, clip_cells, clipped, fill, paint, BorderSides, BuiNode, RoundedCorners, TextRun,
};
use plurimus::buffer::Buffer;
use plurimus::geometry::{Position, Rect};
use plurimus::style::{Color, Style};

fn symbols(buffer: &Buffer) -> Vec<String> {
    let area = buffer.area;
    (area.y..area.y + area.height)
        .map(|y| {
            (area.x..area.x + area.width)
                .map(|x| buffer.cell(Position::new(x, y)).unwrap().symbol.clone())
                .collect()
        })
        .collect()
}

fn node(rect: Rect) -> BuiNode {
    BuiNode {
        rect,
        clip: None,
        background: None,
        border: None,
        corners: RoundedCorners { top_left: false, top_right: false, bottom_right: false, bottom_left: false },
        background_gradient: None,
        border_gradient: None,
        text: None,
    }
}

fn all_sides(color: Color) -> BorderSides {
    BorderSides { top: Some(color), right: Some(color), bottom: Some(color), left: Some(color) }
}

#[test]
fn a_border_boxes_the_node() {
    let mut buffer = Buffer::empty(Rect::new(0, 0, 4, 3));
    let mut n = node(Rect::new(0, 0, 4, 3));
    n.border = Some(all_sides(Color::White));

    paint(&n, &mut buffer);

    assert_eq!(symbols(&buffer), ["┌──┐", "│  │", "└──┘"]);
    assert_eq!(buffer.cell(Position::new(0, 0)).unwrap().fg, Color::White);
}

#[test]
fn border_radius_rounds_corner_glyphs() {
    let mut buffer = Buffer::empty(Rect::new(0, 0, 3, 2));
    let mut n = node(Rect::new(0, 0, 3, 2));
    n.border = Some(all_sides(Color::White));
    n.corners = RoundedCorners { top_left: true, top_right: false, bottom_right: true, bottom_left: false };

    paint(&n, &mut buffer);

    assert_eq!(symbols(&buffer), ["╭─┐", "└─╯"]);
}

#[test]
fn a_side_without_a_color_is_not_drawn() {
    let mut buffer = Buffer::empty(Rect::new(0, 0, 3, 3));
    let mut n = node(Rect::new(0, 0, 3, 3));
    n.border = Some(BorderSides { top: Some(Color::Red), right: None, bottom: None, left: Some(Color::Red) });

    paint(&n, &mut buffer);

    assert_eq!(symbols(&buffer), ["┌─┐", "│  ", "   "]);
}

#[test]
fn background_and_text_fill_the_content_box() {
    let mut buffer = Buffer::empty(Rect::new(0, 0, 6, 3));
    let mut n = node(Rect::new(0, 0, 6, 3));
    n.background = Some(Color::Blue);
    n.border = Some(all_sides(Color::White));
    n.text = Some(TextRun {
        spans: vec![("hi there".to_owned(), Style::new().fg(Color::Yellow))],
        content: Rect::new(1, 1, 4, 1),
    });

    paint(&n, &mut buffer);

    assert_eq!(symbols(&buffer), ["┌────┐", "│hi  │", "└────┘"]);
    let h = buffer.cell(Position::new(1, 1)).unwrap();
    assert_eq!(h.fg, Color::Yellow);
    assert_eq!(h.bg, Color::Blue);
}

#[test]
fn a_clip_limits_what_a_node_paints() {
    let mut buffer = Buffer::empty(Rect::new(0, 0, 4, 1));
    let mut n = node(Rect::new(0, 0, 4, 1));
    n.clip = Some(Rect::new(1, 0, 2, 1));
    n.background = Some(Color::Green);

    paint(&n, &mut buffer);

    let bgs: Vec<Color> = (0..4).map(|x| buffer.cell(Position::new(x, 0)).unwrap().bg).collect();
    assert_eq!(bgs, [Color::Reset, Color::Green, Color::Green, Color::Reset]);
}

#[test]
fn sampled_border_gradients_color_their_cells() {
    let mut buffer = Buffer::empty(Rect::new(0, 0, 2, 1));
    let mut n = node(Rect::new(0, 0, 2, 1));
    n.border = Some(all_sides(Color::White));
    n.border_gradient = Some(vec![Some(Color::Red), None]);

    paint(&n, &mut buffer);

    assert_eq!(buffer.cell(Position::new(0, 0)).unwrap().fg, Color::Red);
    assert_eq!(buffer.cell(Position::new(1, 0)).unwrap().fg, Color::White);
}

#[test]
fn clipping_and_rect_edges_follow_the_viewport() {
    assert_eq!(clipped(Rect::new(2, 2, 10, 10), Rect::new(0, 0, 5, 5), None), Rect::new(2, 2, 3, 3));
    assert_eq!(
        clipped(Rect::new(2, 2, 10, 10), Rect::new(0, 0, 5, 5), Some(Rect::new(3, 0, 1, 9))),
        Rect::new(3, 2, 1, 3)
    );
    assert_eq!(cell_rect(1, 1, 1, 3, Rect::new(0, 0, 9, 9)), None);
    assert_eq!(cell_rect(1, 2, 4, 3, Rect::new(5, 5, 9, 9)), Some(Rect::new(6, 7, 3, 1)));
    assert_eq!(clip_cells(3, 1, 2, 4, Rect::new(1, 1, 9, 9)), Rect::new(4, 2, 0, 3));
}

#[test]
fn fill_paints_spaces_on_a_color() {
    let mut buffer = Buffer::empty(Rect::new(0, 0, 3, 1));
    buffer.set_stringn(0, 0, "abc", usize::MAX, Style::new());
    fill(&mut buffer, Rect::new(1, 0, 1, 1), Color::Red);
    assert_eq!(symbols(&buffer), ["a c"]);
    assert_eq!(buffer.cell(Position::new(1, 0)).unwrap().bg, Color::Red);
}
