//! The tab bar of open files.

use crate::colour_string::{
    cells_of, grapheme_clusters, joined, line_views, truncated, Cell, Colour, ColourString, Info, Style,
    BLACK, DARK_GREY, WHITE,
};
use vstd::prelude::*;
use vstd::string::*;

verus! {

/// The tab bar: one tab per open file.
pub struct Tab;

/// The style of a tab: white on dark grey for the current file, on black
/// for the others.
pub open spec fn tab_style(current: bool) -> Style {
    Style {
        foreground: Colour::Ansi(WHITE),
        background: Colour::Ansi(if current { DARK_GREY } else { BLACK }),
        attributes: Seq::empty(),
    }
}

/// The cells of one tab: the name with a space on each side.
pub open spec fn tab_cells(name: Seq<char>, current: bool) -> Seq<Cell> {
    cells_of(grapheme_clusters(seq![' '] + name + seq![' ']), tab_style(current))
}

pub open spec fn tab_separator() -> Seq<Cell> {
    cells_of(
        grapheme_clusters(seq!['\u{2595}']),
        Style { foreground: Colour::Ansi(BLACK), background: Colour::Reset, attributes: Seq::empty() },
    )
}

/// One tab per name.
pub open spec fn tabs_of(names: Seq<Seq<char>>, current: int) -> Seq<Seq<Cell>> {
    Seq::new(names.len(), |i: int| tab_cells(names[i], i == current))
}

/// The tabs side by side, cut to `width` and padded with spaces up to it.
pub open spec fn tab_bar(names: Seq<Seq<char>>, current: int, width: nat) -> Seq<Cell> {
    let cut = truncated(joined(tabs_of(names, current), tab_separator()), width as int);
    cut + Seq::new(
        (if width > cut.len() { width - cut.len() } else { 0 }) as nat,
        |i: int| Cell { text: seq![' '], style: crate::colour_string::default_style() },
    )
}

impl Tab {
    pub fn new() -> (r: Self) {
        Tab
    }

    /// A one-row frame holding the tab bar for files with the given names,
    /// `file_index` being the current one.
    pub fn render(&mut self, names: &Vec<String>, file_index: usize, width: u16) -> (r: Vec<ColourString>)
        ensures
            line_views(r@) == seq![tab_bar(names@.map_values(|s: String| s@), file_index as int, width as nat)],
    {
        let ghost nv = names@.map_values(|s: String| s@);
        let ghost tabs_spec = tabs_of(nv, file_index as int);
        let mut tabs: Vec<ColourString> = Vec::new();
        let mut i: usize = 0;
        while i < names.len()
            invariant
                i <= names@.len(),
                nv == names@.map_values(|s: String| s@),
                tabs_spec == tabs_of(nv, file_index as int),
                tabs@.len() == i,
                line_views(tabs@) == tabs_spec.take(i as int),
            decreases names@.len() - i,
        {
            let mut text = String::from_str(" ");
            text.append(names[i].as_str());
            text.append(" ");
            proof {
                reveal_strlit(" ");
            }
            assert(text@ =~= seq![' '] + nv[i as int] + seq![' ']);
            let style = if i == file_index {
                Info::new(Colour::Ansi(WHITE), Colour::Ansi(DARK_GREY), Vec::new())
            } else {
                Info::new(Colour::Ansi(WHITE), Colour::Ansi(BLACK), Vec::new())
            };
            assert(style@ =~= tab_style(i == file_index));
            let tab = ColourString::new(text, Some(style));
            let ghost prev = tabs@;
            tabs.push(tab);
            assert(line_views(tabs@) =~= line_views(prev).push(tab@));
            assert(tabs_spec.take(i + 1) =~= tabs_spec.take(i as int).push(tabs_spec[i as int]));
            i = i + 1;
        }
        assert(tabs_spec.take(i as int) =~= tabs_spec);
        let bar = String::from_str("\u{2595}");
        proof {
            reveal_strlit("\u{2595}");
        }
        assert(bar@ =~= seq!['\u{2595}']);
        let sep_style = Info::new(Colour::Ansi(BLACK), Colour::Reset, Vec::new());
        assert(sep_style@.attributes =~= Seq::<crate::colour_string::Attribute>::empty());
        let separator = ColourString::new(bar, Some(sep_style));
        assert(line_views(tabs@) =~= tabs_spec);
        assert(separator@ == tab_separator());
        let mut frame = ColourString::join(tabs, separator);
        frame.truncate(width as usize);
        let ghost cut = frame@;
        assert(cut == truncated(joined(tabs_spec, tab_separator()), width as int));
        let space = String::from_str(" ");
        proof {
            reveal_strlit(" ");
        }
        assert(space@ =~= seq![' ']);
        frame.pad(width as usize, space, None);
        let ghost n: nat = (if width > cut.len() { width - cut.len() } else { 0 }) as nat;
        let ghost fill = Seq::new(n, |i: int| Cell { text: seq![' '], style: crate::colour_string::default_style() });
        assert(frame@.len() == cut.len() + n);
        assert forall|k: int| 0 <= k < frame@.len() implies #[trigger] frame@[k] == (cut + fill)[k] by {
            if k >= cut.len() {
                assert(frame@[k] == Cell { text: space@, style: crate::colour_string::style_or_default(None) });
            }
        }
        assert(frame@ =~= cut + fill);
        assert(frame@ =~= tab_bar(nv, file_index as int, width as nat));
        let r = vec![frame];
        assert(line_views(r@) =~= seq![tab_bar(nv, file_index as int, width as nat)]);
        r
    }
}

} // verus!
