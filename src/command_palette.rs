//! The command palette drawn over the other panes.

use crate::colour_string::{cells_of, grapheme_clusters, line_views, Cell, Colour, ColourString, Info, Style, WHITE};
use crate::cursor::{clamped, Cursor};
use crate::window::blank_cell;
use vstd::prelude::*;
use vstd::string::*;

verus! {

/// The command line that `:` opens, drawn as a box over the other panes.
pub struct CommandPalette {
    pub command: String,
    pub enabled: bool,
    pub cursor: Cursor,
}

pub open spec fn white_style() -> Style {
    Style { foreground: Colour::Ansi(WHITE), background: Colour::Reset, attributes: Seq::empty() }
}

/// The boxed command: `▏:`, the command, `▕`.
pub open spec fn palette_cells(command: Seq<char>) -> Seq<Cell> {
    cells_of(grapheme_clusters(seq!['\u{258f}', ':'] + command + seq!['\u{2595}']), white_style())
}

/// The row the command is drawn on.
pub open spec fn palette_top(height: nat) -> nat {
    if height / 8 > 1 {
        height / 8
    } else {
        2
    }
}

/// The column the box starts at: centred, or 0 where it does not fit.
pub open spec fn palette_left(width: nat, n: nat) -> nat {
    if width > n {
        ((width - n) / 2) as nat
    } else {
        0
    }
}

/// A row of the palette's frame: blank, but for the box's three rows.
pub open spec fn palette_row(i: int, width: nat, height: nat, command: Seq<char>) -> Seq<Cell> {
    let cmd = palette_cells(command);
    let n = cmd.len();
    let top = palette_top(height);
    let blank = Seq::new(width, |j: int| blank_cell());
    let left = blank.take(palette_left(width, n) as int);
    if i == top - 1 {
        left + Seq::new(n, |j: int| Cell { text: seq!['\u{2581}'], style: white_style() })
    } else if i == top {
        left + cmd
    } else if i == top + 1 {
        left + Seq::new(n, |j: int| Cell { text: seq!['\u{2594}'], style: white_style() })
    } else {
        blank
    }
}

/// A row of `n` copies of a one-character cell in white.
fn border(glyph: &str, n: usize) -> (r: ColourString)
    ensures
        r@ == Seq::new(n as nat, |j: int| Cell { text: glyph@, style: white_style() }),
{
    let mut line = ColourString::empty();
    let style = Info::new(Colour::Ansi(WHITE), Colour::Reset, Vec::new());
    assert(style@ =~= white_style());
    line.pad(n, String::from_str(glyph), Some(style));
    assert(line@ =~= Seq::new(n as nat, |j: int| Cell { text: glyph@, style: white_style() }));
    line
}

impl CommandPalette {
    pub fn new(width: u16, height: u16) -> (r: Self)
        ensures
            r.command@.len() == 0,
            !r.enabled,
            r.cursor == Cursor::new_spec(width, height),
    {
        CommandPalette { command: String::new(), enabled: false, cursor: Cursor::new(width, height) }
    }

    /// A frame of `height` rows of `width` blanks with the boxed command
    /// centred on it; the cursor goes to just after the command.
    pub fn render(&mut self, width: u16, height: u16) -> (r: Vec<ColourString>)
        ensures
            line_views(r@) == Seq::new(
                height as nat,
                |i: int| palette_row(i, width as nat, height as nat, old(self).command@),
            ),
            ({
                let n = palette_cells(old(self).command@).len();
                let x = palette_left(width as nat, n) + grapheme_clusters(old(self).command@).len() + 2;
                *final(self) == CommandPalette {
                    cursor: Cursor {
                        x: clamped(
                            if x > u16::MAX { u16::MAX as int } else { x as int },
                            old(self).cursor.x_min,
                            old(self).cursor.x_max,
                        ),
                        y: clamped(palette_top(height as nat) as int, old(self).cursor.y_min, old(self).cursor.y_max),
                        ..old(self).cursor
                    },
                    ..*old(self)
                }
            }),
    {
        let ghost command = self.command@;
        let mut text = String::from_str("\u{258f}:");
        text.append(self.command.as_str());
        text.append("\u{2595}");
        proof {
            reveal_strlit("\u{258f}:");
            reveal_strlit("\u{2595}");
        }
        assert(text@ =~= seq!['\u{258f}', ':'] + command + seq!['\u{2595}']);
        let style = Info::new(Colour::Ansi(WHITE), Colour::Reset, Vec::new());
        assert(style@ =~= white_style());
        let cmd = ColourString::new(text, Some(style));
        let n = cmd.len();
        let top: u16 = if height / 8 > 1 { height / 8 } else { 2 };
        let left: usize = if (width as usize) > n { (width as usize - n) / 2 } else { 0 };
        let ghost target = Seq::new(height as nat, |i: int| palette_row(i, width as nat, height as nat, command));
        let space = String::from_str(" ");
        proof {
            reveal_strlit(" ");
        }
        assert(space@ =~= seq![' ']);
        let mut blank = ColourString::empty();
        blank.pad(width as usize, space, None);
        assert(blank@ =~= Seq::new(width as nat, |j: int| blank_cell()));
        let mut frame: Vec<ColourString> = Vec::new();
        let mut i: u16 = 0;
        while i < height
            invariant
                i <= height,
                frame@.len() == i,
                command == self.command@,
                cmd@ == palette_cells(command),
                n == cmd@.len(),
                top == palette_top(height as nat),
                left == palette_left(width as nat, n as nat),
                blank@ == Seq::new(width as nat, |j: int| blank_cell()),
                target == Seq::new(height as nat, |i: int| palette_row(i, width as nat, height as nat, command)),
                line_views(frame@) == target.take(i as int),
            decreases height - i,
        {
            let mut row = blank.duplicate();
            if i as u32 + 1 == top as u32 {
                let glyph = "\u{2581}";
                proof {
                    reveal_strlit("\u{2581}");
                }
                assert(glyph@ =~= seq!['\u{2581}']);
                let b = border(glyph, n);
                assert(b@ =~= Seq::new(n as nat, |j: int| Cell { text: seq!['\u{2581}'], style: white_style() }));
                row.replace_range(left, width as usize, b);
            } else if i == top {
                row.replace_range(left, width as usize, cmd.duplicate());
            } else if i as u32 == top as u32 + 1 {
                let glyph = "\u{2594}";
                proof {
                    reveal_strlit("\u{2594}");
                }
                assert(glyph@ =~= seq!['\u{2594}']);
                let b = border(glyph, n);
                assert(b@ =~= Seq::new(n as nat, |j: int| Cell { text: seq!['\u{2594}'], style: white_style() }));
                row.replace_range(left, width as usize, b);
            }
            assert(row@ =~= target[i as int]);
            let ghost prev = frame@;
            frame.push(row);
            assert(line_views(frame@) =~= line_views(prev).push(target[i as int]));
            assert(target.take(i + 1) =~= target.take(i as int).push(target[i as int]));
            i = i + 1;
        }
        assert(target.take(height as int) =~= target);
        let typed = ColourString::new(self.command.clone(), None);
        let typed_len = typed.len();
        let x: u16 = if typed_len > u16::MAX as usize || left + typed_len + 2 > u16::MAX as usize {
            u16::MAX
        } else {
            (left + typed_len + 2) as u16
        };
        self.cursor.update(x, top);
        frame
    }
}

} // verus!
