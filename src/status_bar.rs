//! The status line at the bottom of the screen.

use crate::colour_string::{
    cells_of, default_style, grapheme_clusters, line_views, truncated, Cell, Colour, ColourString, Info, Style, GREEN,
    RED,
};
use crate::editor::{decimal_text, number_text, spaces};
use vstd::prelude::*;
use vstd::string::*;

verus! {

/// The bottom line: a status message, or the output of the last command
/// while there is one.
pub struct StatusBar {
    pub message: ColourString,
    pub command_output: Option<ColourString>,
}

/// What the bar shows: the command output if there is one, else the message.
pub open spec fn shown(bar: &StatusBar) -> Seq<Cell> {
    match bar.command_output {
        Some(out) => out@,
        None => bar.message@,
    }
}

impl StatusBar {
    /// An empty message and no command output.
    pub fn new() -> (r: Self)
        ensures
            r.message@ == Seq::<Cell>::empty(),
            r.command_output is None,
    {
        StatusBar { message: ColourString::empty(), command_output: None }
    }

    pub fn set_message(&mut self, message: ColourString)
        ensures
            final(self).message == message,
            final(self).command_output == old(self).command_output,
    {
        self.message = message;
    }

    pub fn set_command_output(&mut self, command_output: ColourString)
        ensures
            final(self).command_output == Some(command_output),
            final(self).message == old(self).message,
    {
        self.command_output = Some(command_output);
    }

    /// A frame of `height` rows, all empty but the last, which shows the bar
    /// cut to `width`.
    pub fn render(&self, width: u16, height: u16) -> (r: Vec<ColourString>)
        ensures
            line_views(r@) == Seq::new(
                height as nat,
                |i: int| if i == height - 1 { truncated(shown(self), width as int) } else { Seq::<Cell>::empty() },
            ),
    {
        let ghost target = Seq::new(
            height as nat,
            |i: int| if i == height - 1 { truncated(shown(self), width as int) } else { Seq::<Cell>::empty() },
        );
        let mut frame: Vec<ColourString> = Vec::new();
        let mut i: u16 = 0;
        while i < height
            invariant
                i <= height,
                frame@.len() == i,
                line_views(frame@) == target.take(i as int),
                target == Seq::new(
                    height as nat,
                    |i: int| if i == height - 1 { truncated(shown(self), width as int) } else { Seq::<Cell>::empty() },
                ),
            decreases height - i,
        {
            let line = if i == height - 1 {
                let mut last = match &self.command_output {
                    Some(out) => out.duplicate(),
                    None => self.message.duplicate(),
                };
                last.truncate(width as usize);
                last
            } else {
                ColourString::empty()
            };
            let ghost prev = frame@;
            frame.push(line);
            assert(line_views(frame@) =~= line_views(prev).push(line@));
            assert(target.take(i + 1) =~= target.take(i as int).push(target[i as int]));
            i = i + 1;
        }
        assert(target.take(height as int) =~= target);
        frame
    }
}

pub open spec fn mode_style(insert: bool) -> Style {
    Style { foreground: Colour::Ansi(if insert { RED } else { GREEN }), background: Colour::Reset, attributes: Seq::empty() }
}

pub open spec fn mode_text(insert: bool) -> Seq<char> {
    if insert {
        "insert "@
    } else {
        "view "@
    }
}

/// `Ln <row>, Col <column>`, counting from 1.
pub open spec fn position_text(row: nat, column: nat) -> Seq<char> {
    "Ln "@ + decimal_text(row + 1) + ", Col "@ + decimal_text(column + 1)
}

/// The status line for the current file: the mode in its colour, the
/// file's name and size, and at the right end of `width` columns the
/// cursor's line and column.
pub open spec fn file_status_cells(
    insert: bool,
    name: Seq<char>,
    size: Seq<char>,
    row: nat,
    column: nat,
    width: nat,
) -> Seq<Cell> {
    let head = cells_of(grapheme_clusters(mode_text(insert)), mode_style(insert)) + cells_of(
        grapheme_clusters(name + seq![' '] + size),
        default_style(),
    );
    let end = position_text(row, column);
    let used = head.len() + end.len();
    head + spaces(if width > used { (width - used) as nat } else { 0 }) + cells_of(
        grapheme_clusters(end),
        default_style(),
    )
}

/// The status line for the current file; `size` is its size as text.
pub fn file_status(insert: bool, name: &String, size: &String, row: usize, column: usize, width: u16) -> (r:
    ColourString)
    requires
        row < usize::MAX,
        column < usize::MAX,
    ensures
        r@ == file_status_cells(insert, name@, size@, row as nat, column as nat, width as nat),
{
    proof {
        reveal_strlit("insert ");
        reveal_strlit("view ");
        reveal_strlit("Ln ");
        reveal_strlit(", Col ");
        reveal_strlit(" ");
    }
    let mode = if insert { String::from_str("insert ") } else { String::from_str("view ") };
    let style = Info::new(Colour::Ansi(if insert { RED } else { GREEN }), Colour::Reset, Vec::new());
    assert(style@ =~= mode_style(insert));
    let mut message = ColourString::new(mode, Some(style));
    let mut about = name.clone();
    about.append(" ");
    about.append(size.as_str());
    assert(about@ =~= name@ + seq![' '] + size@);
    message.push_str(about.as_str(), None);
    let mut end = String::from_str("Ln ");
    end.append(number_text(row + 1).as_str());
    end.append(", Col ");
    end.append(number_text(column + 1).as_str());
    let end_len = end.as_str().unicode_len();
    let head_len = message.len();
    let gap: usize = if head_len < width as usize && end_len < width as usize - head_len {
        width as usize - head_len - end_len
    } else {
        0
    };
    let mut fill = ColourString::empty();
    let space = String::from_str(" ");
    assert(space@ =~= seq![' ']);
    fill.pad(gap, space, None);
    assert(fill@ =~= spaces(gap as nat));
    message.push_colour_string(fill);
    message.push_str(end.as_str(), None);
    message
}

} // verus!
