use plurimus::bui::measure_text;
use plurimus::style::{Color, Style};
use plurimus::text::{wrap_spans, Seg};

fn plain(text: &str) -> Vec<Seg> {
    vec![(text.to_owned(), Style::default())]
}

fn flat(lines: &[Vec<Seg>]) -> Vec<String> {
    lines
        .iter()
        .map(|line| line.iter().map(|(content, _)| content.as_str()).collect())
        .collect()
}

#[test]
fn wraps_by_display_width() {
    assert_eq!(
        flat(&wrap_spans(&plain("hello wide world"), Some(10))),
        ["hello wide", "world"]
    );
    assert_eq!(flat(&wrap_spans(&plain("ab\ncd"), None)), ["ab", "cd"]);
    assert_eq!(
        flat(&wrap_spans(&plain("ああああ"), Some(4))),
        ["ああ", "ああ"]
    );
    assert_eq!(flat(&wrap_spans(&plain(""), Some(5))), [""]);
}

#[test]
fn wrap_points_cross_span_boundaries() {
    let red = Style::new().fg(Color::Red);
    let blue = Style::new().fg(Color::Blue);
    let spans = vec![("hello wi".to_owned(), red), ("de world".to_owned(), blue)];
    let lines = wrap_spans(&spans, Some(10));
    assert_eq!(flat(&lines), ["hello wide", "world"]);
    assert_eq!(
        lines[0],
        vec![("hello wi".to_owned(), red), ("de".to_owned(), blue)]
    );
    assert_eq!(lines[1], vec![("world".to_owned(), blue)]);
}

#[test]
fn hard_break_keeps_char_styles() {
    let red = Style::new().fg(Color::Red);
    let blue = Style::new().fg(Color::Blue);
    let spans = vec![("abc".to_owned(), red), ("def".to_owned(), blue)];
    let lines = wrap_spans(&spans, Some(4));
    assert_eq!(flat(&lines), ["abcd", "ef"]);
    assert_eq!(
        lines[0],
        vec![("abc".to_owned(), red), ("d".to_owned(), blue)]
    );
}

#[test]
fn newline_inside_span_splits_lines() {
    let red = Style::new().fg(Color::Red);
    let spans = vec![("a\nb".to_owned(), red)];
    assert_eq!(flat(&wrap_spans(&spans, Some(5))), ["a", "b"]);
}

#[test]
fn a_zero_limit_wraps_like_a_limit_of_one() {
    assert_eq!(flat(&wrap_spans(&plain("ab"), Some(0))), ["a", "b"]);
}

#[test]
fn text_nodes_measure_by_grapheme_width() {
    assert_eq!(measure_text(&plain("hello plurimus"), None), Some((14, 1)));
    assert_eq!(measure_text(&plain("hello wide world"), Some(10)), Some((10, 2)));
}

#[test]
fn wide_graphemes_measure_two_columns_and_empty_text_one_row() {
    assert_eq!(measure_text(&plain("苹果 ab"), None), Some((7, 1)));
    assert_eq!(measure_text(&[], Some(5)), Some((0, 1)));
}

#[test]
fn wrapped_lines_merge_equal_styles_into_one_segment() {
    let red = Style::new().fg(Color::Red);
    let spans = vec![
        ("ab".to_owned(), red),
        ("cd".to_owned(), red),
        (" ef".to_owned(), Style::default()),
    ];

    let lines = wrap_spans(&spans, None);

    assert_eq!(lines, vec![vec![("abcd".to_owned(), red), (" ef".to_owned(), Style::default())]]);
}

#[test]
fn wrapped_lines_are_words_between_single_spaces_and_fit() {
    let text = "  the   quick\tbrown  fox jumps over   the lazy dog  ";
    let lines = flat(&wrap_spans(&plain(text), Some(9)));
    assert_eq!(lines, ["the quick", "brown fox", "jumps", "over the", "lazy dog"]);
    for line in &lines {
        assert!(line.chars().count() <= 9);
        assert!(!line.starts_with(char::is_whitespace) && !line.ends_with(char::is_whitespace));
        assert!(!line.contains("  "));
    }
}

#[test]
fn wrapping_keeps_every_non_space_character_in_order() {
    let text = "split\nthese  wordsareverylong ok\n\nend";
    for limit in [None, Some(0), Some(3), Some(7), Some(40)] {
        let lines = flat(&wrap_spans(&plain(text), limit));
        let kept: String = lines.concat().chars().filter(|c| !c.is_whitespace()).collect();
        let given: String = text.chars().filter(|c| !c.is_whitespace()).collect();
        assert_eq!(kept, given, "limit {limit:?}");
    }
}
