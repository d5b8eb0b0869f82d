//! The help text.

use vstd::prelude::*;
use vstd::string::*;

verus! {

/// The lines of the help screen.
pub open spec fn help_lines() -> Seq<Seq<char>> {
    seq![
        "navigation:"@,
        "        (in view mode) wasd or arrow keys"@,
        "        (in insert mode) arrow keys"@,
        "commands (press : to enter command mode):"@,
        "        :q or :quit - quit"@,
        "        :s :save - save current file"@,
        "        :o <path> or :open <path> - open file "@,
        "        :h or :help - show help (this menu)"@,
        "hotkeys:"@,
        "        i - enter insert mode"@,
        "        n - go to next tab"@,
        "        shift + n - move tab to the right"@,
        "        b - go to previous tab"@,
        "        shift + b - move tab to the left"@,
        "        x - close current tab"@,
        "        esc - escape almost everything"@,
        "quick commands: (in view mode only)"@,
        "        (number)j - jumps to line number"@,
        "        rr - deletes current line"@,
    ]
}

/// The help screen, one string per line.
pub fn help() -> (r: Vec<String>)
    ensures
        r@.map_values(|s: String| s@) == help_lines(),
{
    let r = vec![
        String::from_str("navigation:"),
        String::from_str("        (in view mode) wasd or arrow keys"),
        String::from_str("        (in insert mode) arrow keys"),
        String::from_str("commands (press : to enter command mode):"),
        String::from_str("        :q or :quit - quit"),
        String::from_str("        :s :save - save current file"),
        String::from_str("        :o <path> or :open <path> - open file "),
        String::from_str("        :h or :help - show help (this menu)"),
        String::from_str("hotkeys:"),
        String::from_str("        i - enter insert mode"),
        String::from_str("        n - go to next tab"),
        String::from_str("        shift + n - move tab to the right"),
        String::from_str("        b - go to previous tab"),
        String::from_str("        shift + b - move tab to the left"),
        String::from_str("        x - close current tab"),
        String::from_str("        esc - escape almost everything"),
        String::from_str("quick commands: (in view mode only)"),
        String::from_str("        (number)j - jumps to line number"),
        String::from_str("        rr - deletes current line"),
    ];
    assert(r@.map_values(|s: String| s@) =~= help_lines());
    r
}

} // verus!
