use vcte::colour_string::{Colour, ColourString, Info, DARK_GREY, RED};
use vcte::window::{tick_layout, Pane, PushDirection, Slot, Window};

fn line(s: &str) -> ColourString {
    ColourString::new(s.to_string(), None)
}

fn text(l: &ColourString) -> String {
    l.get_content().iter().map(|c| c.content.clone()).collect::<Vec<_>>().concat()
}

fn red_line(s: &str) -> ColourString {
    ColourString::new(s.to_string(), Some(Info::new(Colour::Ansi(RED), Colour::Reset, vec![])))
}

fn dim() -> Info {
    Info::new(Colour::Ansi(DARK_GREY), Colour::Reset, vec![])
}

#[test]
fn compose_starts_from_blank_screen() {
    let w = Window::new();
    let screen = w.compose(4, 2);
    assert_eq!(screen.len(), 2);
    assert!(screen.iter().all(|l| text(l) == "    "));
}

#[test]
fn overwrite_with_blank_frame_changes_nothing() {
    let mut w = Window::new();
    w.register(vec![line("hello"), line("world")], None, false);
    w.register(vec![line("     "), line("  ")], None, false);
    let screen = w.compose(5, 2);
    assert_eq!(text(&screen[0]), "hello");
    assert_eq!(text(&screen[1]), "world");
}

#[test]
fn overwrite_skips_spaces_unless_told_not_to() {
    let mut w = Window::new();
    w.register(vec![line("hello")], None, false);
    w.register(vec![line("x y")], None, false);
    assert_eq!(text(&w.compose(5, 1)[0]), "xeylo");
    w.register(vec![line("a b")], None, true);
    assert_eq!(text(&w.compose(5, 1)[0]), "a blo");
}

#[test]
fn overwrite_ignores_columns_past_the_screen() {
    let mut w = Window::new();
    w.register(vec![line("abcdefg")], None, false);
    assert_eq!(text(&w.compose(3, 1)[0]), "abc");
}

#[test]
fn push_left_slides_row_in_from_the_left() {
    let mut w = Window::new();
    w.register(vec![line("hello world")], None, false);
    w.register(vec![line("XX")], Some(PushDirection::Left), false);
    let screen = w.compose(11, 1);
    assert_eq!(text(&screen[0]), "XXhello wor");
}

#[test]
fn push_up_inserts_row_on_top() {
    let mut w = Window::new();
    w.register(vec![line("aaa"), line("bbb"), line("ccc")], None, false);
    w.register(vec![line("TAB")], Some(PushDirection::Up), false);
    let screen = w.compose(3, 3);
    let rows: Vec<String> = screen.iter().map(text).collect();
    assert_eq!(rows, vec!["TAB", "aaa", "bbb"]);
}

#[test]
fn frames_taller_than_screen_are_cut() {
    let mut w = Window::new();
    w.register(vec![line("a"), line("b"), line("c")], None, false);
    let screen = w.compose(1, 2);
    assert_eq!(screen.len(), 2);
    assert_eq!(text(&screen[1]), "b");
}

#[test]
fn overlay_dims_every_frame_but_the_last() {
    let mut w = Window::new();
    w.register(vec![red_line("ab\u{2588}d")], None, false);
    w.register(vec![red_line("  ")], None, false);
    w.overlay = true;
    let screen = w.compose(4, 1);
    let cells = screen[0].get_content();
    assert_eq!(cells[0].colour, dim());
    assert_eq!(cells[1].colour, dim());
    assert_eq!(cells[2].colour.foreground, Colour::Ansi(RED));
    assert_eq!(cells[3].colour, dim());

    let mut v = Window::new();
    v.register(vec![red_line("ab")], None, false);
    v.register(vec![red_line("x")], None, false);
    v.overlay = true;
    let top = v.compose(2, 1);
    assert_eq!(top[0].get_content()[0].colour.foreground, Colour::Ansi(RED));
    assert_eq!(top[0].get_content()[1].colour, dim());
}

#[test]
fn render_frames_clears_queue_and_overlay() {
    let mut w = Window::new();
    w.register(vec![line("hi")], None, false);
    w.overlay = true;
    let expected = ColourString::render_vector(w.compose(2, 1));
    let out = w.render_frames(2, 1);
    assert_eq!(out, expected);
    assert!(w.frames.is_empty());
    assert!(!w.overlay);
}

#[test]
fn push_up_keeps_a_row_wider_than_the_screen_whole() {
    let mut w = Window::new();
    w.register(vec![line("aaa"), line("bbb")], None, false);
    w.register(vec![line("TABBAR")], Some(PushDirection::Up), false);
    let screen = w.compose(3, 2);
    let rows: Vec<String> = screen.iter().map(text).collect();
    assert_eq!(rows, vec!["TABBAR", "aaa"]);
}

#[test]
fn white_space_other_than_spaces_is_transparent() {
    let mut w = Window::new();
    w.register(vec![line("hello")], None, false);
    w.register(vec![line("\t\u{a0}x")], None, false);
    assert_eq!(text(&w.compose(5, 1)[0]), "hexlo");
    w.register(vec![line("\t")], None, true);
    assert_eq!(text(&w.compose(5, 1)[0]), "\texlo");
}

#[test]
fn blank_frame_registered_last_changes_nothing() {
    let mut a = Window::new();
    a.register(vec![line("ab"), line("cd")], None, false);
    a.register(vec![line("X")], Some(PushDirection::Left), false);
    let before = a.compose(3, 2);
    a.register(vec![line(" \t "), line("  ")], None, false);
    let after = a.compose(3, 2);
    assert_eq!(before.iter().map(text).collect::<Vec<_>>(), after.iter().map(text).collect::<Vec<_>>());
    assert_eq!(before[0].get_content()[1].colour, after[0].get_content()[1].colour);
}

#[test]
fn overlay_dims_cell_the_last_frame_leaves() {
    let mut w = Window::new();
    w.register(vec![red_line("abc")], None, false);
    w.register(vec![red_line(" Z")], None, false);
    w.overlay = true;
    let cells = w.compose(3, 1)[0].get_content().clone();
    assert_eq!((cells[0].content.as_str(), &cells[0].colour), ("a", &dim()));
    assert_eq!(cells[1].content, "Z");
    assert_eq!(cells[1].colour.foreground, Colour::Ansi(RED));
    assert_eq!((cells[2].content.as_str(), &cells[2].colour), ("c", &dim()));
}

#[test]
fn tick_layout_orders_panes_back_to_front() {
    let (slots, overlay) = tick_layout(true, true, true);
    let panes: Vec<Pane> = slots.iter().map(|s| s.pane).collect();
    assert_eq!(panes, vec![Pane::File, Pane::FileExplorer, Pane::Tabs, Pane::StatusBar, Pane::CommandPalette]);
    assert_eq!(slots[1].push, Some(PushDirection::Left));
    assert_eq!(slots[2].push, Some(PushDirection::Up));
    assert!(slots[3].ignore_whitespace);
    assert!(overlay);
    let (slots, overlay) = tick_layout(false, true, false);
    assert_eq!(
        slots,
        vec![
            Slot { pane: Pane::Home, push: None, ignore_whitespace: false },
            Slot { pane: Pane::StatusBar, push: None, ignore_whitespace: true },
        ]
    );
    assert!(!overlay);
}
