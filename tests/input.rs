use vcte::cursor::Direction;
use vcte::input::{
    Effect, Panes, action_for_key, action_for_mouse, missing_file_message, unknown_command_message, Mouse, focus, next_tab, parse_command, previous_tab, tab_after_close, Action, Command, Focus, Key, Target,
};

#[test]
fn palette_takes_keys_first() {
    assert_eq!(action_for_key(true, true, true, true, Key::Char('q')), Action::TypeCommand('q'));
    assert_eq!(action_for_key(true, false, false, false, Key::Backspace), Action::EraseCommand);
    assert_eq!(action_for_key(true, false, false, false, Key::Enter), Action::RunCommand);
    assert_eq!(action_for_key(true, false, false, false, Key::Esc), Action::CancelCommand);
    assert_eq!(action_for_key(true, false, false, false, Key::Up), Action::Nothing);
}

#[test]
fn insert_mode_edits_the_file() {
    assert_eq!(action_for_key(false, true, true, false, Key::Char(':')), Action::InsertChar(':'));
    assert_eq!(action_for_key(false, true, true, false, Key::Enter), Action::NewLine);
    assert_eq!(action_for_key(false, true, true, false, Key::Esc), Action::LeaveInsert);
    assert_eq!(action_for_key(false, true, true, false, Key::Backspace), Action::Backspace);
}

#[test]
fn view_mode_keys() {
    assert_eq!(action_for_key(false, true, false, false, Key::Char(':')), Action::OpenPalette);
    assert_eq!(action_for_key(false, true, false, false, Key::Char('c')), Action::ToggleExplorer);
    assert_eq!(action_for_key(false, true, false, false, Key::Char('C')), Action::ToggleExplorerFocus);
    assert_eq!(action_for_key(false, true, false, false, Key::Char('n')), Action::NextTab);
    assert_eq!(action_for_key(false, true, false, false, Key::Char('x')), Action::CloseTab);
    assert_eq!(action_for_key(false, true, false, true, Key::Char('s')), Action::Move(Target::FileExplorer, Direction::Down));
    assert_eq!(action_for_key(false, false, false, false, Key::Left), Action::Move(Target::Home, Direction::Left));
    assert_eq!(action_for_key(false, true, false, false, Key::Char('d')), Action::Move(Target::File, Direction::Right));
    assert_eq!(action_for_key(false, true, false, false, Key::Char('z')), Action::Nothing);
}

#[test]
fn focus_follows_priority() {
    assert_eq!(focus(true, true, true, false), Focus::CommandPalette);
    assert_eq!(focus(false, true, true, false), Focus::FileExplorer);
    assert_eq!(focus(false, false, true, true), Focus::Editor { insert: true });
    assert_eq!(focus(false, false, false, false), Focus::Home);
}

#[test]
fn tab_indices_wrap() {
    assert_eq!(next_tab(2, 3), 0);
    assert_eq!(next_tab(0, 3), 1);
    assert_eq!(previous_tab(0, 3), 2);
    assert_eq!(previous_tab(2, 3), 1);
    assert_eq!(tab_after_close(0), 0);
    assert_eq!(tab_after_close(2), 1);
}

#[test]
fn commands_are_read_by_first_word() {
    assert_eq!(parse_command("Q"), Command::Quit);
    assert_eq!(parse_command("  quit  "), Command::Quit);
    assert_eq!(parse_command("o a.txt b"), Command::Open(Some("a.txt".to_string())));
    assert_eq!(parse_command("open"), Command::Open(None));
    assert_eq!(parse_command("SAVE"), Command::Save);
    assert_eq!(parse_command("Frob x"), Command::Unknown("Frob".to_string()));
    assert_eq!(parse_command("   "), Command::Empty);
}

#[test]
fn mouse_goes_to_explorer_file_or_home() {
    assert_eq!(action_for_mouse(true, true, Mouse::LeftDown(3, 4)), Action::Click(Target::FileExplorer, 3, 4));
    assert_eq!(action_for_mouse(false, true, Mouse::LeftDown(3, 4)), Action::Click(Target::File, 3, 4));
    assert_eq!(action_for_mouse(false, false, Mouse::ScrollUp), Action::Move(Target::Home, Direction::Up));
    assert_eq!(action_for_mouse(true, true, Mouse::ScrollDown), Action::Move(Target::File, Direction::Down));
    assert_eq!(action_for_mouse(true, true, Mouse::Other), Action::Nothing);
}

#[test]
fn command_errors_name_the_input() {
    let m = missing_file_message(&"a.txt".to_string());
    let text: String = m.get_content().iter().map(|c| c.content.clone()).collect();
    assert_eq!(text, "a.txt: No such file");
    assert_eq!(m.get_content()[0].colour.foreground, vcte::colour_string::Colour::Ansi(9));
    let u = unknown_command_message(&"zz".to_string());
    let text: String = u.get_content().iter().map(|c| c.content.clone()).collect();
    assert_eq!(text, "zz: Command not found");
}

fn panes(files: usize) -> Panes {
    Panes {
        palette_enabled: false,
        explorer_enabled: false,
        explorer_selected: false,
        insert: false,
        file_count: files,
        file_index: 0,
    }
}

#[test]
fn step_updates_panes_and_names_the_work() {
    let p = Panes { palette_enabled: true, ..panes(2) };
    let (q, e) = p.step(Action::EraseCommand, 1);
    assert!(!q.palette_enabled);
    assert_eq!(e, Effect::EraseFromCommand);
    let (q, _) = p.step(Action::EraseCommand, 3);
    assert!(q.palette_enabled);
    let (q, e) = panes(2).step(Action::ToggleExplorer, 0);
    assert!(q.explorer_enabled);
    assert_eq!(e, Effect::ShiftText(true));
    let (r, e) = Panes { explorer_selected: true, ..q }.step(Action::ToggleExplorer, 0);
    assert!(!r.explorer_enabled && !r.explorer_selected);
    assert_eq!(e, Effect::ShiftText(false));
    let (q, e) = panes(0).step(Action::ToggleExplorer, 0);
    assert_eq!((q, e), (panes(0), Effect::Done));
    let (q, e) = Panes { file_index: 1, ..panes(2) }.step(Action::CloseTab, 0);
    assert_eq!((q.file_count, q.file_index), (1, 0));
    assert_eq!(e, Effect::CloseFile(1));
    let (q, _) = panes(3).step(Action::PreviousTab, 0);
    assert_eq!(q.file_index, 2);
    let (q, _) = panes(1).step(Action::EnterInsert, 0);
    assert!(q.insert);
    assert_eq!(panes(1).step(Action::OpenSelected, 0).1, Effect::Done);
    assert_eq!(q.focus(), Focus::Editor { insert: true });
}
