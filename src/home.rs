//! The home screen shown while no file is open.

use crate::colour_string::{cells_of, default_style, grapheme_clusters, line_views, truncated, Cell, ColourString};
use crate::cursor::Cursor;
use crate::window::blank_cell;
use vstd::prelude::*;
use vstd::string::*;

verus! {

/// The screen shown while no file is open.
pub struct Home {
    pub cursor: Cursor,
}

/// The padding that centres `n` columns in `width`, less one; 0 where they
/// do not fit.
pub open spec fn centring(width: nat, n: nat) -> nat {
    let half = if width > n { (width - n) / 2 } else { 0 };
    if half > 0 {
        (half - 1) as nat
    } else {
        0
    }
}

/// Row `i` of the home screen: a `~`, and on the row a third of the way
/// down the title, centred and cut to `width`.
pub open spec fn home_row(i: int, width: nat, height: nat, title: Seq<char>) -> Seq<Cell> {
    let tilde = cells_of(grapheme_clusters(seq!['~']), default_style());
    let t = cells_of(grapheme_clusters(title), default_style());
    if i == height / 3 {
        tilde + Seq::new(centring(width, t.len()), |j: int| blank_cell()) + truncated(t, width as int)
    } else {
        tilde
    }
}

impl Home {
    pub fn new(width: u16, height: u16) -> (r: Self)
        ensures
            r.cursor == Cursor::new_spec(width, height),
    {
        Home { cursor: Cursor::new(width, height) }
    }

    /// A frame of `height` rows for a terminal `width` columns wide.
    pub fn render(&mut self, width: u16, height: u16, title: &str) -> (r: Vec<ColourString>)
        ensures
            line_views(r@) == Seq::new(height as nat, |i: int| home_row(i, width as nat, height as nat, title@)),
            final(self).cursor == old(self).cursor,
    {
        let ghost target = Seq::new(height as nat, |i: int| home_row(i, width as nat, height as nat, title@));
        let mut output: Vec<ColourString> = Vec::new();
        let mut i: u16 = 0;
        while i < height
            invariant
                i <= height,
                output@.len() == i,
                target == Seq::new(height as nat, |i: int| home_row(i, width as nat, height as nat, title@)),
                line_views(output@) == target.take(i as int),
            decreases height - i,
        {
            let tilde = String::from_str("~");
            proof {
                reveal_strlit("~");
            }
            assert(tilde@ =~= seq!['~']);
            let mut line = ColourString::new(tilde, None);
            if i == height / 3 {
                let mut t = ColourString::new(String::from_str(title), None);
                let n = t.len();
                let half: usize = if (width as usize) > n { (width as usize - n) / 2 } else { 0 };
                let padding: usize = if half > 0 { half - 1 } else { 0 };
                t.truncate(width as usize);
                let space = String::from_str(" ");
                proof {
                    reveal_strlit(" ");
                }
                assert(space@ =~= seq![' ']);
                let mut gap = ColourString::empty();
                gap.pad(padding, space, None);
                assert(gap@ =~= Seq::new(centring(width as nat, n as nat), |j: int| blank_cell()));
                line.push_colour_string(gap);
                line.push_colour_string(t);
            }
            assert(line@ == target[i as int]);
            let ghost prev = output@;
            output.push(line);
            assert(line_views(output@) =~= line_views(prev).push(target[i as int]));
            assert(target.take(i + 1) =~= target.take(i as int).push(target[i as int]));
            i = i + 1;
        }
        assert(target.take(height as int) =~= target);
        output
    }
}

} // verus!
