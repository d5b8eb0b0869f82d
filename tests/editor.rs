use vcte::colour_string::{Colour, ColourString};
use vcte::cursor::Direction;
use vcte::editor::{editor_left, File};
use vcte::syntax_highlighter::{rgb, SyntaxHighlighter};

fn text(l: &ColourString) -> String {
    l.get_content().iter().map(|c| c.content.clone()).collect::<Vec<_>>().concat()
}

fn file(content: &str) -> File {
    let mut f = File::new("/tmp/x.rs".to_string(), "x.rs".to_string(), content.to_string(), 40, 12);
    f.cursor.set_min(5, 1);
    let (x, y) = (f.cursor.x_min, f.cursor.y_min);
    f.cursor.update(x, y);
    f
}

const PALETTE: [Colour; 8] = [
    Colour::Rgb(248, 248, 242),
    Colour::Rgb(139, 233, 253),
    Colour::Rgb(80, 250, 123),
    Colour::Rgb(255, 184, 108),
    Colour::Rgb(255, 121, 198),
    Colour::Rgb(189, 147, 249),
    Colour::Rgb(255, 85, 85),
    Colour::Rgb(241, 250, 140),
];

#[test]
fn rgb_builds_colour() {
    assert_eq!(rgb(1, 2, 3), Colour::Rgb(1, 2, 3));
}

#[test]
fn highlight_colours_words_by_class_and_strings() {
    let mut h = SyntaxHighlighter::new();
    h.init(vec!["f() 12 ( + x".to_string()]);
    let line = h.highlight("f() 12 ( + x \"s t\"".to_string());
    let cells = line.get_content();
    assert_eq!(text(&line), "f() 12 ( + x \"s t\"");
    assert_eq!(cells[0].colour.foreground, Colour::Ansi(120));
    assert_eq!(cells[4].colour.foreground, Colour::Ansi(222));
    assert_eq!(cells[7].colour.foreground, Colour::Ansi(103));
    assert_eq!(cells[9].colour.foreground, Colour::Ansi(212));
    assert!(PALETTE.contains(&cells[11].colour.foreground));
    for k in 13..18 {
        assert_eq!(cells[k].colour.foreground, Colour::Ansi(229), "cell {}", k);
    }
}

#[test]
fn highlight_keeps_a_word_colour() {
    let mut h = SyntaxHighlighter::new();
    let a = h.highlight("word other".to_string());
    let b = h.highlight("other word".to_string());
    assert_eq!(a.get_content()[0].colour, b.get_content()[6].colour);
    assert_eq!(a.get_content()[5].colour, b.get_content()[0].colour);
}

#[test]
fn unclosed_quote_stays_uncoloured() {
    let mut h = SyntaxHighlighter::new();
    let line = h.highlight("\"ab".to_string());
    assert_ne!(line.get_content()[0].colour.foreground, Colour::Ansi(229));
}

#[test]
fn new_file_splits_lines_and_widens_tabs() {
    let f = file("a\tb\r\nsecond\n");
    assert_eq!(f.lines, vec!["a    b".to_string(), "second".to_string()]);
    assert_eq!(f.highlighted_lines.len(), 2);
    assert_eq!(text(&f.highlighted_lines[0]), "a    b");
    assert_eq!(f.text(), "a    b\nsecond");
}

#[test]
fn insert_char_pads_and_moves_right() {
    let mut f = file("ab");
    f.insert_char('X');
    assert_eq!(f.lines[0], "Xab");
    assert_eq!(f.cursor.x, 6);
    f.cursor.update(10, 1);
    f.insert_char('Y');
    assert_eq!(f.lines[0], "Xab  Y");
    assert!(f.modified);
    assert_eq!(text(&f.highlighted_lines[0]), "Xab  Y");
}

#[test]
fn insert_char_on_new_row_adds_lines() {
    let mut f = file("ab");
    f.cursor.update(5, 3);
    f.insert_char('z');
    assert_eq!(f.lines, vec!["ab".to_string(), "".to_string(), "z".to_string()]);
    assert_eq!(f.highlighted_lines.len(), 3);
}

#[test]
fn backspace_deletes_or_joins() {
    let mut f = file("abc\ndef");
    f.cursor.update(7, 1);
    f.backspace();
    assert_eq!(f.lines[0], "ac");
    assert_eq!(f.cursor.x, 6);
    f.cursor.update(5, 2);
    f.backspace();
    assert_eq!(f.lines, vec!["acdef".to_string()]);
    assert_eq!((f.cursor.x, f.cursor.y), (7, 1));
    f.cursor.update(5, 1);
    f.backspace();
    assert_eq!(f.lines, vec!["acdef".to_string()]);
}

#[test]
fn enter_splits_line() {
    let mut f = file("hello");
    f.cursor.update(7, 1);
    f.enter();
    assert_eq!(f.lines, vec!["he".to_string(), "llo".to_string()]);
    assert_eq!((f.cursor.x, f.cursor.y), (5, 2));
    assert_eq!(text(&f.highlighted_lines[1]), "llo");
}

#[test]
fn render_numbers_lines_and_marks_the_end() {
    let mut f = file("one\ntwo");
    let frame = f.render(12, 4);
    assert_eq!(frame.len(), 4);
    assert_eq!(text(&frame[0]), "   1 one");
    assert_eq!(text(&frame[1]), "   2 two");
    assert_eq!(text(&frame[2]), "   ~ ");
    assert_eq!((f.cursor.x_max, f.cursor.y_max), (12, 2));
    f.cursor.parse_direction(Direction::Down);
    f.cursor.parse_direction(Direction::Down);
    assert_eq!(text(&f.render(12, 4)[0]), "   2 two");
}

#[test]
fn saved_message_names_path() {
    let f = file("x");
    assert_eq!(text(&f.saved_message()), "saved file to /tmp/x.rs");
    assert_eq!(f.saved_message().get_content()[0].colour.foreground, Colour::Ansi(10));
}

#[test]
fn text_moves_with_the_explorer() {
    assert_eq!(editor_left(false, 40), 5);
    assert_eq!(editor_left(true, 40), 14);
    let mut f = File::new("/tmp/y".to_string(), "y".to_string(), "abc".to_string(), 40, 12);
    f.place_cursor(editor_left(false, 40));
    assert_eq!((f.cursor.x, f.cursor.y, f.cursor.x_min, f.cursor.y_min), (5, 1, 5, 1));
    f.cursor.update(7, 1);
    f.shift_text(9, true);
    assert_eq!((f.cursor.x, f.cursor.x_min), (16, 14));
    f.shift_text(9, false);
    assert_eq!((f.cursor.x, f.cursor.x_min), (7, 5));
}

#[test]
fn words_are_keyed_without_surrounding_whitespace() {
    let mut h = SyntaxHighlighter::new();
    h.init(vec!["12\t".to_string()]);
    let line = h.highlight("12".to_string());
    assert_eq!(line.get_content()[0].colour.foreground, Colour::Ansi(222));
}

#[test]
fn drawn_colours_make_highlighting_reproducible() {
    let drawn = vec![Colour::Rgb(1, 1, 1), Colour::Rgb(2, 2, 2)];
    let mut h = SyntaxHighlighter::new();
    let line = h.highlight_drawn("bb a".to_string(), &drawn);
    // Shorter words first: "a" takes the first drawn colour, "bb" the second.
    assert_eq!(line.get_content()[3].colour.foreground, Colour::Rgb(1, 1, 1));
    assert_eq!(line.get_content()[0].colour.foreground, Colour::Rgb(2, 2, 2));
    let mut k = SyntaxHighlighter::new();
    k.init_drawn(vec!["x 7".to_string()], &drawn);
    let line = k.highlight_drawn("7 x".to_string(), &vec![]);
    assert_eq!(line.get_content()[0].colour.foreground, Colour::Ansi(222));
    assert_eq!(line.get_content()[2].colour.foreground, Colour::Rgb(1, 1, 1));
}
