use crossterm::style::{Attribute as TermAttribute, Color, Stylize};
use vcte::colour_string::{Attribute, Char, Colour, ColourString, Info, RED, WHITE};

fn line(s: &str) -> ColourString {
    ColourString::new(s.to_string(), None)
}

fn texts(l: &ColourString) -> Vec<String> {
    l.get_content().iter().map(|c| c.content.clone()).collect()
}

fn joined_text(l: &ColourString) -> String {
    texts(l).concat()
}

fn red() -> Info {
    Info::new(Colour::Ansi(RED), Colour::Reset, vec![])
}

fn plain_colour(c: &Char) -> bool {
    c.colour == Info::plain()
}

#[test]
fn new_counts_grapheme_clusters() {
    let l = line("he\u{301}llo");
    assert_eq!(l.len(), 5);
    assert_eq!(texts(&l), vec!["h", "e\u{301}", "l", "l", "o"]);
    assert!(l.get_content().iter().all(plain_colour));
}

#[test]
fn new_keeps_crlf_as_one_cell() {
    let l = line("a\r\nb");
    assert_eq!(texts(&l), vec!["a", "\r\n", "b"]);
}

#[test]
fn new_with_style_stamps_every_cell() {
    let l = ColourString::new("ab".to_string(), Some(red()));
    assert!(l.get_content().iter().all(|c| c.colour == red()));
}

#[test]
fn truncate_past_end_keeps_line_and_render() {
    let mut l = ColourString::new("hello".to_string(), Some(red()));
    let before = l.render();
    l.truncate(5);
    l.truncate(9);
    assert_eq!(l.len(), 5);
    assert_eq!(l.render(), before);
}

#[test]
fn truncate_drops_tail() {
    let mut l = line("hello");
    l.truncate(2);
    assert_eq!(joined_text(&l), "he");
}

#[test]
fn join_of_no_lines_renders_empty() {
    let sep = line("|");
    let j = ColourString::join(vec![], sep);
    assert_eq!(j.len(), 0);
    assert_eq!(j.render(), "");
}

#[test]
fn join_puts_separator_between_lines() {
    let j = ColourString::join(vec![line("ab"), line("c"), line("de")], line("|"));
    assert_eq!(joined_text(&j), "ab|c|de");
    let one = ColourString::join(vec![line("ab")], line("|"));
    assert_eq!(joined_text(&one), "ab");
}

#[test]
fn set_colour_pattern_recolours_matched_columns() {
    let mut l = line("hello world");
    l.set_colour_pattern("lo".to_string(), red());
    for (i, c) in l.get_content().iter().enumerate() {
        if i == 3 || i == 4 {
            assert_eq!(c.colour, red(), "column {}", i);
        } else {
            assert_eq!(c.colour, Info::plain(), "column {}", i);
        }
    }
}

#[test]
fn set_colour_pattern_finds_every_occurrence() {
    let mut l = line("aXaXa");
    l.set_colour_pattern("a".to_string(), red());
    let coloured: Vec<bool> = l.get_content().iter().map(|c| c.colour == red()).collect();
    assert_eq!(coloured, vec![true, false, true, false, true]);
}

#[test]
fn set_colour_pattern_does_not_overlap() {
    let mut l = line("aaa");
    l.set_colour_pattern("aa".to_string(), red());
    let coloured: Vec<bool> = l.get_content().iter().map(|c| c.colour == red()).collect();
    assert_eq!(coloured, vec![true, true, false]);
}

#[test]
fn set_colour_pattern_empty_matches_nothing() {
    let mut l = line("abc");
    l.set_colour_pattern(String::new(), red());
    assert!(l.get_content().iter().all(plain_colour));
}

#[test]
fn set_colour_pattern_spans_multi_codepoint_cells() {
    let mut l = line("ae\u{301}b");
    l.set_colour_pattern("e\u{301}".to_string(), red());
    let coloured: Vec<bool> = l.get_content().iter().map(|c| c.colour == red()).collect();
    assert_eq!(coloured, vec![false, true, false]);
}

#[test]
fn replace_swaps_each_match() {
    let mut l = line("a-b-c");
    l.replace("-".to_string(), "+=".to_string(), Some(red()));
    assert_eq!(joined_text(&l), "a+=b+=c");
    assert_eq!(l.get_content()[1].colour, red());
    assert_eq!(l.get_content()[0].colour, Info::plain());
}

#[test]
fn replace_takes_leftmost_without_overlap() {
    let mut l = line("aaab");
    l.replace("aa".to_string(), "X".to_string(), None);
    assert_eq!(joined_text(&l), "Xab");
    let mut m = line("aab");
    m.replace("ab".to_string(), "Y".to_string(), None);
    assert_eq!(joined_text(&m), "aY");
}

#[test]
fn replace_with_empty_pattern_changes_nothing() {
    let mut l = line("abc");
    l.replace(String::new(), "X".to_string(), None);
    assert_eq!(joined_text(&l), "abc");
}

#[test]
fn replace_char_swaps_equal_cells() {
    let mut l = line("a b c");
    l.replace_char(" ".to_string(), "_".to_string(), Some(red()));
    assert_eq!(joined_text(&l), "a_b_c");
    assert_eq!(l.get_content()[1].colour, red());
}

#[test]
fn l_shift_drops_last_and_prepends() {
    let mut l = line("hello");
    l.l_shift("X".to_string(), None);
    assert_eq!(joined_text(&l), "Xhell");
    let mut e = ColourString::empty();
    e.l_shift("Y".to_string(), None);
    assert_eq!(joined_text(&e), "Y");
}

#[test]
fn skip_returns_tail_or_nothing() {
    let mut l = line("hello");
    assert_eq!(joined_text(&l.skip(2)), "llo");
    assert_eq!(l.skip(5).len(), 0);
    assert_eq!(l.skip(40).len(), 0);
    assert_eq!(joined_text(&l), "hello");
}

#[test]
fn insert_clamps_index() {
    let mut l = line("ac");
    l.insert(1, "b".to_string(), None);
    assert_eq!(joined_text(&l), "abc");
    l.insert(99, "d".to_string(), None);
    assert_eq!(joined_text(&l), "abcd");
}

#[test]
fn replace_range_clamps_end() {
    let mut l = line("hello");
    l.replace_range(1, 3, line("EY"));
    assert_eq!(joined_text(&l), "hEYlo");
    l.replace_range(3, 99, line("!"));
    assert_eq!(joined_text(&l), "hEY!");
    l.replace_range(9, 99, line("?"));
    assert_eq!(joined_text(&l), "hEY!?");
}

#[test]
fn set_colour_clamps_end() {
    let mut l = line("abc");
    l.set_colour(red(), 1, 50);
    let coloured: Vec<bool> = l.get_content().iter().map(|c| c.colour == red()).collect();
    assert_eq!(coloured, vec![false, true, true]);
}

#[test]
fn set_background_changes_every_cell() {
    let mut l = line("ab");
    l.set_background(Colour::Rgb(1, 2, 3));
    assert!(l.get_content().iter().all(|c| c.colour.background == Colour::Rgb(1, 2, 3)
        && c.colour.foreground == Colour::Ansi(WHITE)));
}

#[test]
fn pad_fills_up_to_length() {
    let mut l = line("ab");
    l.pad(5, ".".to_string(), None);
    assert_eq!(joined_text(&l), "ab...");
    l.pad(2, ".".to_string(), None);
    assert_eq!(joined_text(&l), "ab...");
}

#[test]
fn push_str_and_push_colour_string_append() {
    let mut l = line("ab");
    l.push_str("cd", Some(red()));
    l.push_colour_string(line("e"));
    assert_eq!(joined_text(&l), "abcde");
    assert_eq!(l.get_content()[2].colour, red());
}

#[test]
fn render_of_empty_line_is_empty() {
    assert_eq!(ColourString::empty().render(), "");
}

#[test]
fn render_emits_one_chunk_per_run() {
    let mut l = line("ab");
    l.push_str("c", Some(red()));
    let expected = format!(
        "{}{}",
        "ab".with(Color::AnsiValue(15)).on(Color::Reset),
        "c".with(Color::AnsiValue(9)).on(Color::Reset)
    );
    assert_eq!(l.render(), expected);
}

#[test]
fn render_applies_each_attribute() {
    let style = Info::new(Colour::Rgb(1, 2, 3), Colour::Ansi(0), vec![Attribute::Bold, Attribute::Italic]);
    let l = ColourString::new("hi".to_string(), Some(style));
    let expected = "hi"
        .with(Color::Rgb { r: 1, g: 2, b: 3 })
        .on(Color::AnsiValue(0))
        .attribute(TermAttribute::Bold)
        .attribute(TermAttribute::Italic)
        .to_string();
    assert_eq!(l.render(), expected);
}

#[test]
fn render_vector_joins_lines_with_crlf() {
    let out = ColourString::render_vector(vec![line("ab"), line("cd")]);
    let expected = "ab\r\ncd".with(Color::AnsiValue(15)).on(Color::Reset).to_string();
    assert_eq!(out, expected.trim_end());
    assert_eq!(ColourString::render_vector(vec![]), "");
}

#[test]
fn parse_ansi_string_reads_colours() {
    let l = ColourString::parse_ansi_string("\x1b[38;2;255;0;10mhi\x1b[0mx".to_string());
    assert_eq!(joined_text(&l), "hix");
    let rgb = Info::new(Colour::Rgb(255, 0, 10), Colour::Reset, vec![]);
    assert_eq!(l.get_content()[0].colour, rgb);
    assert_eq!(l.get_content()[1].colour, rgb);
    assert_eq!(l.get_content()[2].colour, Info::new(Colour::Rgb(0, 0, 0), Colour::Reset, vec![]));
}

#[test]
fn parse_ansi_string_defaults_bad_fields_to_zero() {
    let l = ColourString::parse_ansi_string("a\x1b[38;2;300;x1;+7mz".to_string());
    assert_eq!(joined_text(&l), "az");
    assert_eq!(l.get_content()[0].colour, Info::plain());
    assert_eq!(l.get_content()[1].colour, Info::new(Colour::Rgb(0, 0, 7), Colour::Reset, vec![]));
}

#[test]
fn parse_ansi_string_reads_the_last_three_fields() {
    let l = ColourString::parse_ansi_string("\x1b[1;38;2;10;20;30mA".to_string());
    assert_eq!(joined_text(&l), "A");
    assert_eq!(l.get_content()[0].colour, Info::new(Colour::Rgb(10, 20, 30), Colour::Reset, vec![]));
    let m = ColourString::parse_ansi_string("\x1b[7;8mB".to_string());
    assert_eq!(m.get_content()[0].colour, Info::new(Colour::Rgb(0, 0, 8), Colour::Reset, vec![]));
}
