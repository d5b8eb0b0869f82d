use vcte::colour_string::{Colour, ColourString, Info, BLACK, DARK_GREY, WHITE};
use vcte::command_palette::CommandPalette;
use vcte::file_explorer::{Content, Entry, FileExplorer, Name};
use vcte::home::Home;
use vcte::readonly::help;
use vcte::status_bar::{file_status, StatusBar};
use vcte::status_message::{Mode, StatusMessage};
use vcte::tab::Tab;

fn text(l: &ColourString) -> String {
    l.get_content().iter().map(|c| c.content.clone()).collect::<Vec<_>>().concat()
}

#[test]
fn status_bar_shows_output_over_message() {
    let mut bar = StatusBar::new();
    bar.set_message(ColourString::new("message".to_string(), None));
    let frame = bar.render(4, 3);
    assert_eq!(frame.len(), 3);
    assert_eq!(text(&frame[0]), "");
    assert_eq!(text(&frame[2]), "mess");
    bar.set_command_output(ColourString::new("out".to_string(), None));
    assert_eq!(text(&bar.render(10, 2)[1]), "out");
    assert!(StatusBar::new().render(5, 0).is_empty());
}

#[test]
fn tab_bar_marks_current_file_and_pads() {
    let mut tab = Tab::new();
    let names = vec!["a.rs".to_string(), "b.rs".to_string()];
    let frame = tab.render(&names, 1, 16);
    assert_eq!(frame.len(), 1);
    assert_eq!(text(&frame[0]), " a.rs \u{2595} b.rs    ");
    let cells = frame[0].get_content();
    assert_eq!(cells[0].colour.background, Colour::Ansi(BLACK));
    assert_eq!(cells[8].colour.background, Colour::Ansi(DARK_GREY));
    assert_eq!(cells[6].colour.foreground, Colour::Ansi(BLACK));
    assert_eq!(text(&tab.render(&names, 0, 5)[0]), " a.rs");
}

#[test]
fn home_screen_centres_title() {
    let mut home = Home::new(20, 6);
    let frame = home.render(20, 6, "hello");
    assert_eq!(frame.len(), 6);
    assert_eq!(text(&frame[0]), "~");
    assert_eq!(text(&frame[2]), "~      hello");
}

#[test]
fn command_palette_draws_box_and_places_cursor() {
    let mut palette = CommandPalette::new(20, 24);
    palette.command = "ab".to_string();
    let frame = palette.render(20, 24);
    assert_eq!(frame.len(), 24);
    assert_eq!(text(&frame[3]), format!("{}{}", " ".repeat(7), "\u{258f}:ab\u{2595}"));
    assert_eq!(text(&frame[2]), format!("{}{}", " ".repeat(7), "\u{2581}".repeat(5)));
    assert_eq!(text(&frame[4]), format!("{}{}", " ".repeat(7), "\u{2594}".repeat(5)));
    assert_eq!(text(&frame[0]), " ".repeat(20));
    assert_eq!((palette.cursor.x, palette.cursor.y), (11, 3));
}

#[test]
fn help_lists_commands() {
    let lines = help();
    assert_eq!(lines.len(), 19);
    assert_eq!(lines[0], "navigation:");
    assert_eq!(lines[4], "        :q or :quit - quit");
}

#[test]
fn status_message_starts_disabled() {
    let m = StatusMessage::new();
    assert_eq!(m.mode, Mode::Disabled);
    assert!(m.command.is_empty() && m.error.is_empty());
}

#[test]
fn file_status_puts_position_at_right_end() {
    let line = file_status(false, &"a.rs".to_string(), &"12b".to_string(), 0, 4, 30);
    assert_eq!(text(&line), "view a.rs 12b      Ln 1, Col 5");
    assert_eq!(line.get_content()[0].colour, Info::new(Colour::Ansi(10), Colour::Reset, vec![]));
    assert_eq!(line.get_content()[6].colour.foreground, Colour::Ansi(WHITE));
}

#[test]
fn content_splits_path() {
    let c = Content::new("/a/b/c.txt".to_string(), 3, false);
    assert_eq!(c.file_name, "c.txt");
    assert_eq!(c.parent, "/a/b");
    assert_eq!(c.y, 3);
    let n = Name::new("x".to_string(), true);
    assert!(n.current_file);
}

fn entry(path: &str, is_dir: bool, depth: usize) -> Entry {
    Entry { path: path.to_string(), is_dir, depth }
}

#[test]
fn explorer_lists_entries_and_toggles_directories() {
    let mut ex = FileExplorer::new(50, 24);
    assert_eq!((ex.cursor.y, ex.cursor.y_min), (1, 1));
    let frame = ex.render(
        vec![entry("/p/src", true, 0), entry("/p/main.rs", false, 0)],
        &"/p/main.rs".to_string(),
        50,
        24,
    );
    assert_eq!(frame.len(), 24);
    assert_eq!(text(&frame[0]), format!("src \u{25b6}{}\u{2595}", " ".repeat(5)));
    assert_eq!(frame[1].get_content()[0].colour.foreground, Colour::Ansi(DARK_GREY));
    assert_eq!(text(&frame[2]), format!("{}\u{2595}", " ".repeat(10)));
    assert_eq!(ex.contents[0].y, 2);
    ex.cursor.update(0, 1);
    // Row 1 of the cursor selects the entry on screen row 2: the directory.
    assert_eq!(ex.parse_input(), None);
    assert_eq!(ex.open_dirs, vec!["/p/src".to_string()]);
    let frame = ex.render(
        vec![entry("/p/src", true, 0), entry("/p/src/lib.rs", false, 1), entry("/p/main.rs", false, 0)],
        &"/p/main.rs".to_string(),
        50,
        24,
    );
    assert_eq!(text(&frame[0]), format!("src \u{25bc}{}\u{2595}", " ".repeat(5)));
    assert_eq!(text(&frame[1]), format!(" lib.rs{}\u{2595}", " ".repeat(3)));
    ex.cursor.update(0, 2);
    assert_eq!(ex.parse_input(), Some("/p/src/lib.rs".to_string()));
    ex.cursor.update(0, 1);
    assert_eq!(ex.parse_input(), None);
    assert!(ex.open_dirs.is_empty());
    assert_eq!(ex.contents.len(), 2);
    ex.cursor.update(0, 9);
    assert_eq!(ex.parse_input(), None);
}
