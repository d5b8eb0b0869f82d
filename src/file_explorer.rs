//! The file explorer pane: the listed directory tree and the selection
//! in it.

use crate::colour_string::{
    cells_of, default_style, grapheme_clusters, graphemes, line_views, Cell, Colour, ColourString, Info, Style,
    DARK_GREY,
};
use crate::cursor::{clamped, Cursor};
use crate::editor::concat_all;
use crate::syntax_highlighter::string_views;
use crate::window::blank_cell;
use vstd::prelude::*;
use vstd::string::*;

verus! {

/// An entry of the directory tree as listed on screen.
pub struct Content {
    pub path: String,
    pub file_name: String,
    pub is_dir: bool,
    pub parent: String,
    /// The screen row the entry is listed on.
    pub y: usize,
}

/// A line of the tree, and whether it names the file being edited.
pub struct Name {
    pub name: String,
    pub current_file: bool,
}

/// The side pane listing the directory of the file being edited.
pub struct FileExplorer {
    pub enabled: bool,
    pub selected: bool,
    pub cursor: Cursor,
    pub open_dirs: Vec<String>,
    pub contents: Vec<Content>,
}

/// The last component of a path; empty where it has none.
pub uninterp spec fn path_file_name(path: Seq<char>) -> Seq<char>;

/// The path without its last component; empty where it has none.
pub uninterp spec fn path_parent(path: Seq<char>) -> Seq<char>;

/// Relies on std's `Path::file_name`: the path's last component.
#[verifier::external_body]
fn file_name_of(path: &str) -> (r: String)
    ensures
        r@ == path_file_name(path@),
{
    match std::path::Path::new(path).file_name() {
        Some(name) => name.to_string_lossy().to_string(),
        None => String::new(),
    }
}

/// Relies on std's `Path::parent`: the path without its last component.
#[verifier::external_body]
fn parent_of(path: &str) -> (r: String)
    ensures
        r@ == path_parent(path@),
{
    match std::path::Path::new(path).parent() {
        Some(parent) => parent.to_string_lossy().to_string(),
        None => String::new(),
    }
}

/// Index of the first entry listed on row `y`; the length when none is.
pub open spec fn first_on_row(contents: Seq<Content>, y: int) -> int
    decreases contents.len(),
{
    if contents.len() == 0 {
        0
    } else if contents[0].y == y {
        0
    } else {
        1 + first_on_row(contents.skip(1), y)
    }
}

/// The paths other than `path`, in order.
pub open spec fn without_path(dirs: Seq<String>, path: Seq<char>) -> Seq<String>
    decreases dirs.len(),
{
    if dirs.len() == 0 {
        dirs
    } else if dirs.last()@ == path {
        without_path(dirs.drop_last(), path)
    } else {
        without_path(dirs.drop_last(), path).push(dirs.last())
    }
}

/// The entries whose parent is not `dir`, in order.
pub open spec fn outside_dir(contents: Seq<Content>, dir: Seq<char>) -> Seq<Content>
    decreases contents.len(),
{
    if contents.len() == 0 {
        contents
    } else if contents.last().parent@ == dir {
        outside_dir(contents.drop_last(), dir)
    } else {
        outside_dir(contents.drop_last(), dir).push(contents.last())
    }
}

/// The screen row the explorer's cursor selects.
pub open spec fn selected_row(c: Cursor) -> int {
    c.y + c.y_offset + c.y_min
}

proof fn lemma_first_on_row(contents: Seq<Content>, y: int, k: int)
    requires
        0 <= k <= contents.len(),
        forall|j: int| 0 <= j < k ==> #[trigger] contents[j].y != y,
        k == contents.len() || contents[k].y == y,
    ensures
        first_on_row(contents, y) == k,
    decreases contents.len(),
{
    if contents.len() > 0 && k > 0 {
        let rest = contents.skip(1);
        assert forall|j: int| 0 <= j < k - 1 implies #[trigger] rest[j].y != y by {
            assert(contents[j + 1].y != y);
        }
        lemma_first_on_row(rest, y, k - 1);
    }
}

impl Content {
    /// The entry for `path`, listed on row `y`; whether it is a directory
    /// is read from the file system by the caller.
    pub fn new(path: String, y: usize, is_dir: bool) -> (r: Self)
        ensures
            r.path@ == path@,
            r.file_name@ == path_file_name(path@),
            r.parent@ == path_parent(path@),
            r.is_dir == is_dir,
            r.y == y,
    {
        let file_name = file_name_of(path.as_str());
        let parent = parent_of(path.as_str());
        Content { path, file_name, is_dir, parent, y }
    }
}

impl Name {
    pub fn new(name: String, current_file: bool) -> (r: Self)
        ensures
            r.name == name,
            r.current_file == current_file,
    {
        Name { name, current_file }
    }
}

impl FileExplorer {
    /// A hidden, unselected explorer with nothing open, its cursor on the
    /// first row under the header.
    pub fn new(width: u16, height: u16) -> (r: Self)
        ensures
            !r.enabled,
            !r.selected,
            r.open_dirs@.len() == 0,
            r.contents@.len() == 0,
            ({
                let c = Cursor::new_spec(width, height);
                let y_min: u16 = if 1 <= c.y_max { 1 } else { c.y_max };
                r.cursor == Cursor { y_min, y: clamped(1, y_min, c.y_max), ..c }
            }),
            r.cursor.wf(),
    {
        let mut cursor = Cursor::new(width, height);
        cursor.set_min(0, 1);
        cursor.update(cursor.x, 1);
        FileExplorer { enabled: false, selected: false, cursor, open_dirs: Vec::new(), contents: Vec::new() }
    }

    /// Acts on the entry on the selected row: a file's path is returned;
    /// a closed directory is opened; an open one is closed, and the entries
    /// listed under it are dropped. Nothing happens when no entry is there.
    pub fn parse_input(&mut self) -> (r: Option<String>)
        ensures
            ({
                let k = first_on_row(old(self).contents@, selected_row(old(self).cursor));
                let dirs = old(self).open_dirs@.map_values(|d: String| d@);
                &&& final(self).cursor == old(self).cursor
                &&& final(self).enabled == old(self).enabled
                &&& final(self).selected == old(self).selected
                &&& if k >= old(self).contents@.len() {
                    &&& r is None
                    &&& final(self).open_dirs@ == old(self).open_dirs@
                    &&& final(self).contents@ == old(self).contents@
                } else {
                    let entry = old(self).contents@[k];
                    if !entry.is_dir {
                        &&& r is Some
                        &&& r->0@ == entry.path@
                        &&& final(self).open_dirs@ == old(self).open_dirs@
                        &&& final(self).contents@ == old(self).contents@
                    } else if dirs.contains(entry.path@) {
                        &&& r is None
                        &&& final(self).open_dirs@ == without_path(old(self).open_dirs@, entry.path@)
                        &&& final(self).contents@ == outside_dir(old(self).contents@, entry.path@)
                    } else {
                        &&& r is None
                        &&& final(self).open_dirs@.map_values(|d: String| d@) == dirs.push(entry.path@)
                        &&& final(self).contents@ == old(self).contents@
                    }
                }
            }),
    {
        let y = self.cursor.y as usize + self.cursor.y_offset as usize + self.cursor.y_min as usize;
        let ghost contents = self.contents@;
        let n = self.contents.len();
        let mut k: usize = 0;
        while k < n && self.contents[k].y != y
            invariant
                n == contents.len(),
                contents == self.contents@,
                y == selected_row(self.cursor),
                k <= n,
                forall|j: int| 0 <= j < k ==> #[trigger] contents[j].y != y,
            decreases n - k,
        {
            k = k + 1;
        }
        proof {
            lemma_first_on_row(contents, y as int, k as int);
        }
        if k >= n {
            return None;
        }
        if !self.contents[k].is_dir {
            return Some(self.contents[k].path.clone());
        }
        let path = self.contents[k].path.clone();
        let ghost dirs = self.open_dirs@.map_values(|d: String| d@);
        // Is the directory open?
        let mut open = false;
        let mut j: usize = 0;
        while j < self.open_dirs.len()
            invariant
                j <= self.open_dirs@.len(),
                dirs == self.open_dirs@.map_values(|d: String| d@),
                open == exists|i: int| 0 <= i < j && #[trigger] dirs[i] == path@,
            decreases self.open_dirs@.len() - j,
        {
            assert(dirs[j as int] == self.open_dirs@[j as int]@);
            if self.open_dirs[j] == path {
                open = true;
            }
            j = j + 1;
        }
        assert(open == dirs.contains(path@)) by {
            if dirs.contains(path@) {
                let i = choose|i: int| 0 <= i < dirs.len() && dirs[i] == path@;
                assert(dirs[i] == path@);
            }
        }
        let ghost start_cursor = self.cursor;
        let ghost start_enabled = self.enabled;
        let ghost start_selected = self.selected;
        if open {
            let mut old_dirs: Vec<String> = Vec::new();
            std::mem::swap(&mut old_dirs, &mut self.open_dirs);
            let ghost od = old_dirs@;
            let mut i: usize = 0;
            assert(od.take(0) =~= Seq::<String>::empty());
            while i < old_dirs.len()
                invariant
                    old_dirs@ == od,
                    i <= od.len(),
                    self.contents@ == contents,
                    self.cursor == start_cursor,
                    self.enabled == start_enabled,
                    self.selected == start_selected,
                    self.open_dirs@ == without_path(od.take(i as int), path@),
                decreases od.len() - i,
            {
                assert(od.take(i + 1).drop_last() =~= od.take(i as int));
                if old_dirs[i] != path {
                    self.open_dirs.push(old_dirs[i].clone());
                }
                i = i + 1;
            }
            assert(od.take(i as int) =~= od);
            let mut old_contents: Vec<Content> = Vec::new();
            std::mem::swap(&mut old_contents, &mut self.contents);
            let ghost oc = old_contents@;
            let total_len = old_contents.len();
            let mut reversed: Vec<Content> = Vec::new();
            while old_contents.len() > 0
                invariant
                    old_contents@ + reversed@.reverse() == oc,
                decreases old_contents@.len(),
            {
                let c = old_contents.pop().unwrap();
                let ghost before = reversed@;
                reversed.push(c);
                assert(reversed@.reverse() =~= seq![c] + before.reverse());
                assert(old_contents@ + reversed@.reverse() =~= oc);
            }
            let ghost total = reversed@.len();
            assert(reversed@.reverse() =~= oc);
            let mut taken: usize = 0;
            assert(oc.take(0) =~= Seq::<Content>::empty());
            while reversed.len() > 0
                invariant
                    taken + reversed@.len() == total,
                    total == oc.len(),
                    total == total_len,
                    self.open_dirs@ == without_path(od, path@),
                    self.cursor == start_cursor,
                    self.enabled == start_enabled,
                    self.selected == start_selected,
                    forall|q: int| 0 <= q < reversed@.len() ==> #[trigger] reversed@[q] == oc[total - 1 - q],
                    self.contents@ == outside_dir(oc.take(taken as int), path@),
                decreases reversed@.len(),
            {
                let ghost before = reversed@;
                let c = reversed.pop().unwrap();
                assert(c == oc[taken as int]);
                assert(oc.take(taken + 1).drop_last() =~= oc.take(taken as int));
                assert(forall|q: int| 0 <= q < reversed@.len() ==> #[trigger] reversed@[q] == before[q]);
                if c.parent != path {
                    self.contents.push(c);
                }
                taken = taken + 1;
            }
            assert(oc.take(taken as int) =~= oc);
        } else {
            let ghost before = self.open_dirs@;
            self.open_dirs.push(path);
            assert(self.open_dirs@.map_values(|d: String| d@) =~= dirs.push(contents[k as int].path@));
        }
        None
    }
}

/// An entry of the directory tree as the caller read it, in listing order:
/// the children of an open directory follow it, one level deeper.
pub struct Entry {
    pub path: String,
    pub is_dir: bool,
    pub depth: usize,
}

/// How an entry is listed: indented by its depth, with an open or closed
/// marker after a directory.
pub open spec fn entry_name(path: Seq<char>, is_dir: bool, depth: nat, open: Seq<Seq<char>>) -> Seq<char> {
    Seq::new(depth, |i: int| ' ') + path_file_name(path) + if !is_dir {
        Seq::<char>::empty()
    } else if open.contains(path) {
        seq![' ', '\u{25bc}']
    } else {
        seq![' ', '\u{25b6}']
    }
}

/// The explorer's blank row: its width in spaces, then the border.
pub open spec fn explorer_blank(pane: nat) -> Seq<Cell> {
    Seq::new(pane, |i: int| blank_cell()) + cells_of(grapheme_clusters(seq!['\u{2595}']), default_style())
}

pub open spec fn grey_style() -> Style {
    Style { foreground: Colour::Ansi(DARK_GREY), background: Colour::Reset, attributes: Seq::empty() }
}

/// What is shown of a name: scrolled by `skip` clusters and cut to `pane`.
pub open spec fn shown_name(name: Seq<char>, skip: nat, pane: nat) -> Seq<char> {
    let g = grapheme_clusters(name);
    let rest = if skip < g.len() { g.skip(skip as int) } else { Seq::empty() };
    concat_all(if pane < rest.len() { rest.take(pane as int) } else { rest })
}

/// A listed row: the shown name over the blank row, grey for the file
/// being edited.
pub open spec fn explorer_row(name: Seq<char>, current: bool, skip: nat, pane: nat) -> Seq<Cell> {
    let shown = shown_name(name, skip, pane);
    let cells = cells_of(grapheme_clusters(shown), if current { grey_style() } else { default_style() });
    let blank = explorer_blank(pane);
    let k = grapheme_clusters(shown).len();
    cells + blank.skip(if k < blank.len() { k as int } else { blank.len() as int })
}

impl FileExplorer {
    /// The explorer pane for a terminal of the given size, listing
    /// `entries`, with `current` the path of the file being edited. The
    /// entries become the selectable contents, one per row from the row
    /// under the header, and the cursor's bounds are set to the pane.
    pub fn render(&mut self, entries: Vec<Entry>, current: &String, width: u16, height: u16) -> (r: Vec<ColourString>)
        requires
            old(self).cursor.y_offset + old(self).cursor.y_min + 1 + entries@.len() <= usize::MAX,
        ensures
            final(self).contents@.len() == entries@.len(),
            forall|i: int| 0 <= i < entries@.len() ==> {
                let c = #[trigger] final(self).contents@[i];
                &&& c.path@ == entries@[i].path@
                &&& c.file_name@ == path_file_name(entries@[i].path@)
                &&& c.parent@ == path_parent(entries@[i].path@)
                &&& c.is_dir == entries@[i].is_dir
                &&& c.y == old(self).cursor.y_offset + old(self).cursor.y_min + 1 + i
            },
            final(self).open_dirs == old(self).open_dirs,
            final(self).cursor.x_offset == old(self).cursor.x_offset,
            final(self).cursor.y_offset == old(self).cursor.y_offset,
            ({
                let pane = (width / 5) as nat;
                let rows = if entries@.len() > height { entries@.len() } else { height as nat };
                let skip = old(self).cursor.y_offset as int;
                let all = Seq::new(
                    rows,
                    |i: int|
                        if i < entries@.len() {
                            explorer_row(
                                entry_name(
                                    entries@[i].path@,
                                    entries@[i].is_dir,
                                    entries@[i].depth as nat,
                                    string_views(old(self).open_dirs@),
                                ),
                                entries@[i].path@ == current@,
                                old(self).cursor.x_offset as nat,
                                pane,
                            )
                        } else {
                            explorer_blank(pane)
                        },
                );
                line_views(r@) == if skip < all.len() { all.skip(skip) } else { Seq::empty() }
            }),
    {
        let pane: u16 = width / 5;
        let ghost dirs = string_views(self.open_dirs@);
        let n = entries.len();
        let rows: usize = if n > height as usize { n } else { height as usize };
        let border = String::from_str("\u{2595}");
        proof {
            reveal_strlit("\u{2595}");
        }
        assert(border@ =~= seq!['\u{2595}']);
        let mut blank = ColourString::empty();
        let space = String::from_str(" ");
        proof {
            reveal_strlit(" ");
        }
        assert(space@ =~= seq![' ']);
        blank.pad(pane as usize, space, None);
        blank.push_colour_string(ColourString::new(border, None));
        assert(blank@ =~= explorer_blank(pane as nat));
        let ghost all = Seq::new(
            rows as nat,
            |i: int|
                if i < entries@.len() {
                    explorer_row(
                        entry_name(entries@[i].path@, entries@[i].is_dir, entries@[i].depth as nat, dirs),
                        entries@[i].path@ == current@,
                        self.cursor.x_offset as nat,
                        pane as nat,
                    )
                } else {
                    explorer_blank(pane as nat)
                },
        );
        let base_y: usize = self.cursor.y_offset as usize + self.cursor.y_min as usize + 1;
        let mut contents: Vec<Content> = Vec::new();
        let mut frame: Vec<ColourString> = Vec::new();
        let mut i: usize = 0;
        while i < rows
            invariant
                rows == all.len(),
                n == entries@.len(),
                n <= rows,
                i <= rows,
                dirs == string_views(self.open_dirs@),
                blank@ == explorer_blank(pane as nat),
                base_y == self.cursor.y_offset + self.cursor.y_min + 1,
                base_y + n <= usize::MAX,
                all == Seq::new(
                    rows as nat,
                    |i: int|
                        if i < entries@.len() {
                            explorer_row(
                                entry_name(entries@[i].path@, entries@[i].is_dir, entries@[i].depth as nat, dirs),
                                entries@[i].path@ == current@,
                                self.cursor.x_offset as nat,
                                pane as nat,
                            )
                        } else {
                            explorer_blank(pane as nat)
                        },
                ),
                frame@.len() == i,
                line_views(frame@) == all.take(i as int),
                contents@.len() == if i < n { i } else { n },
                forall|j: int| 0 <= j < contents@.len() ==> {
                    let c = #[trigger] contents@[j];
                    &&& c.path@ == entries@[j].path@
                    &&& c.file_name@ == path_file_name(entries@[j].path@)
                    &&& c.parent@ == path_parent(entries@[j].path@)
                    &&& c.is_dir == entries@[j].is_dir
                    &&& c.y == base_y + j
                },
            decreases rows - i,
        {
            let row = if i < n {
                let e = &entries[i];
                // The listed name.
                let mut name = String::new();
                let mut d: usize = 0;
                while d < e.depth
                    invariant
                        d <= e.depth,
                        name@ == Seq::new(d as nat, |k: int| ' '),
                    decreases e.depth - d,
                {
                    name.append(" ");
                    proof {
                        reveal_strlit(" ");
                    }
                    assert(name@ =~= Seq::new((d + 1) as nat, |k: int| ' '));
                    d = d + 1;
                }
                let content = Content::new(e.path.clone(), base_y + i, e.is_dir);
                name.append(content.file_name.as_str());
                if e.is_dir {
                    let mut open = false;
                    let mut q: usize = 0;
                    while q < self.open_dirs.len()
                        invariant
                            q <= self.open_dirs@.len(),
                            dirs == string_views(self.open_dirs@),
                            open == exists|j: int| 0 <= j < q && #[trigger] dirs[j] == e.path@,
                        decreases self.open_dirs@.len() - q,
                    {
                        assert(dirs[q as int] == self.open_dirs@[q as int]@);
                        if self.open_dirs[q] == e.path {
                            open = true;
                        }
                        q = q + 1;
                    }
                    assert(open == dirs.contains(e.path@)) by {
                        if dirs.contains(e.path@) {
                            let j = choose|j: int| 0 <= j < dirs.len() && dirs[j] == e.path@;
                            assert(dirs[j] == e.path@);
                        }
                    }
                    if open {
                        name.append(" \u{25bc}");
                        proof {
                            reveal_strlit(" \u{25bc}");
                        }
                    } else {
                        name.append(" \u{25b6}");
                        proof {
                            reveal_strlit(" \u{25b6}");
                        }
                    }
                }
                assert(name@ =~= entry_name(e.path@, e.is_dir, e.depth as nat, dirs));
                let ghost prev = contents@;
                contents.push(content);
                assert(forall|j: int| 0 <= j < prev.len() ==> contents@[j] == prev[j]);
                // What is shown of it.
                let g = graphemes(name.as_str());
                let ghost gv = string_views(g@);
                let skip = self.cursor.x_offset as usize;
                let mut shown_parts: Vec<String> = Vec::new();
                let mut k: usize = skip;
                while k < g.len() && shown_parts.len() < pane as usize
                    invariant
                        gv == string_views(g@),
                        k >= skip,
                        shown_parts@.len() == k - skip,
                        shown_parts@.len() <= pane,
                        skip < g@.len() ==> k <= g@.len(),
                        skip < g@.len() ==> string_views(shown_parts@) == gv.subrange(skip as int, k as int),
                        skip >= g@.len() ==> shown_parts@.len() == 0,
                    decreases g@.len() - k,
                {
                    let ghost prev_parts = string_views(shown_parts@);
                    shown_parts.push(g[k].clone());
                    assert(string_views(shown_parts@) =~= prev_parts.push(gv[k as int]));
                    assert(gv.subrange(skip as int, k + 1) =~= gv.subrange(skip as int, k as int).push(gv[k as int]));
                    k = k + 1;
                }
                proof {
                    let rest = if (skip as nat) < gv.len() { gv.skip(skip as int) } else { Seq::<Seq<char>>::empty() };
                    let kept = if (pane as nat) < rest.len() { rest.take(pane as int) } else { rest };
                    if skip < gv.len() {
                        assert(kept =~= gv.subrange(skip as int, k as int));
                    } else {
                        assert(kept =~= string_views(shown_parts@));
                    }
                }
                let shown = crate::editor::join_all_parts(&shown_parts);
                let style = if e.path == *current {
                    Info::new(Colour::Ansi(DARK_GREY), Colour::Reset, Vec::new())
                } else {
                    Info::plain()
                };
                assert(style@ =~= (if e.path@ == current@ { grey_style() } else { default_style() }));
                let cells = ColourString::new(shown, Some(style));
                let len = cells.len();
                let mut row = blank.duplicate();
                row.replace_range(0, len, cells);
                row
            } else {
                blank.duplicate()
            };
            assert(row@ =~= all[i as int]);
            let ghost prev = frame@;
            frame.push(row);
            assert(line_views(frame@) =~= line_views(prev).push(all[i as int]));
            assert(all.take(i + 1) =~= all.take(i as int).push(all[i as int]));
            i = i + 1;
        }
        assert(all.take(rows as int) =~= all);
        let ghost old_cursor = self.cursor;
        self.contents = contents;
        self.cursor.set_max(pane, height.saturating_sub(2));
        let skip = self.cursor.y_offset;
        let mut out: Vec<ColourString> = Vec::new();
        let mut j: usize = skip as usize;
        assert(skip < frame@.len() ==> all.subrange(skip as int, skip as int) =~= Seq::<Seq<Cell>>::empty());
        while j < frame.len()
            invariant
                skip as int == old_cursor.y_offset,
                line_views(frame@) == all,
                j >= skip,
                skip < all.len() ==> j <= all.len(),
                skip < all.len() ==> line_views(out@) == all.subrange(skip as int, j as int),
                skip >= all.len() ==> out@.len() == 0,
            decreases frame@.len() - j,
        {
            let ghost prev = line_views(out@);
            out.push(frame[j].duplicate());
            assert(line_views(out@) =~= prev.push(all[j as int]));
            assert(all.subrange(skip as int, j + 1) =~= all.subrange(skip as int, j as int).push(all[j as int]));
            j = j + 1;
        }
        proof {
            if (skip as int) < all.len() {
                assert(all.subrange(skip as int, all.len() as int) =~= all.skip(skip as int));
            } else {
                assert(line_views(out@) =~= Seq::<Seq<Cell>>::empty());
            }
            assert(skip as int == old_cursor.y_offset);
        }
        out
    }
}

} // verus!
