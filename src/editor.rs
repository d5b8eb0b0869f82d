//! An open file: its lines, their colouring, editing at the cursor, and
//! the editor pane.

use crate::colour_string::{
    cells_of, grapheme_clusters, graphemes, line_views, skipped, truncated, Cell, Char, Colour, ColourString, Info,
    Style, DARK_GREY,
};
use crate::window::blank_cell;
use crate::cursor::{can_step, stepped, Cursor, Direction};
use crate::syntax_highlighter::{highlighted, string_views, SyntaxHighlighter};
use vstd::prelude::*;
use vstd::string::*;

verus! {

/// An open file: its lines, the cursor over them, and their colouring.
pub struct File {
    pub path: String,
    pub name: String,
    pub lines: Vec<String>,
    pub cursor: Cursor,
    pub modified: bool,
    pub insert: bool,
    pub highlighted_lines: Vec<ColourString>,
    pub syntax_highlighter: SyntaxHighlighter,
}

/// The texts one after another.
pub open spec fn concat_all(parts: Seq<Seq<char>>) -> Seq<char>
    decreases parts.len(),
{
    if parts.len() == 0 {
        Seq::empty()
    } else {
        concat_all(parts.drop_last()) + parts.last()
    }
}

proof fn lemma_concat_all_split(parts: Seq<Seq<char>>, k: int)
    requires
        0 <= k <= parts.len(),
    ensures
        concat_all(parts.take(k)) + concat_all(parts.skip(k)) == concat_all(parts),
    decreases parts.len() - k,
{
    if k < parts.len() {
        lemma_concat_all_split(parts, k + 1);
        lemma_concat_all_front(parts.skip(k));
        assert(parts.take(k + 1) =~= parts.take(k).push(parts[k]));
        assert(parts.skip(k).skip(1) =~= parts.skip(k + 1));
        assert(parts.take(k + 1).drop_last() =~= parts.take(k));
    } else {
        assert(parts.take(k) =~= parts);
        assert(parts.skip(k) =~= Seq::<Seq<char>>::empty());
    }
}

proof fn lemma_concat_all_front(parts: Seq<Seq<char>>)
    requires
        parts.len() > 0,
    ensures
        concat_all(parts) == parts[0] + concat_all(parts.skip(1)),
    decreases parts.len(),
{
    if parts.len() == 1 {
        assert(parts.skip(1) =~= Seq::<Seq<char>>::empty());
        assert(parts.drop_last() =~= Seq::<Seq<char>>::empty());
    } else {
        lemma_concat_all_front(parts.drop_last());
        assert(parts.drop_last().skip(1) =~= parts.skip(1).drop_last());
    }
}

/// The line of the file the cursor is on.
pub open spec fn row_of(c: Cursor) -> int {
    c.y + c.y_offset - c.y_min
}

/// The column of the line the cursor is on.
pub open spec fn column_of(c: Cursor) -> int {
    c.x + c.x_offset - c.x_min
}

/// The lines, with empty ones added so that there are at least `n`.
pub open spec fn padded_lines(lines: Seq<Seq<char>>, n: int) -> Seq<Seq<char>> {
    if lines.len() < n {
        lines + Seq::new((n - lines.len()) as nat, |i: int| Seq::<char>::empty())
    } else {
        lines
    }
}

/// The clusters, with spaces added so that there are at least `n`.
pub open spec fn padded_clusters(g: Seq<Seq<char>>, n: int) -> Seq<Seq<char>> {
    if g.len() < n {
        g + Seq::new((n - g.len()) as nat, |i: int| seq![' '])
    } else {
        g
    }
}

/// A line with `c` put in at column `x`, spaces filling any gap.
pub open spec fn with_char(line: Seq<char>, x: int, c: char) -> Seq<char> {
    concat_all(padded_clusters(grapheme_clusters(line), x).insert(x, seq![c]))
}

/// A line without the cluster at column `x`, if it has one.
pub open spec fn without_column(line: Seq<char>, x: int) -> Seq<char> {
    let g = grapheme_clusters(line);
    if 0 <= x < g.len() {
        concat_all(g.remove(x))
    } else {
        concat_all(g)
    }
}

/// The lines of a text, as std's `str::lines` splits them.
pub uninterp spec fn text_lines(text: Seq<char>) -> Seq<Seq<char>>;

/// Relies on std's `str::lines`: the lines, without their line endings.
#[verifier::external_body]
fn split_lines(text: &str) -> (r: Vec<String>)
    ensures
        string_views(r@) == text_lines(text@),
{
    text.lines().map(|l| l.to_string()).collect()
}

/// A text with each tab widened to four spaces.
pub open spec fn tabs_expanded(s: Seq<char>) -> Seq<char>
    decreases s.len(),
{
    if s.len() == 0 {
        s
    } else {
        tabs_expanded(s.drop_last()) + if s.last() == '\t' { seq![' ', ' ', ' ', ' '] } else { seq![s.last()] }
    }
}

fn expand_tabs(s: &str) -> (r: String)
    ensures
        r@ == tabs_expanded(s@),
{
    let n = s.unicode_len();
    let mut out = String::new();
    let mut i: usize = 0;
    assert(s@.take(0) =~= Seq::<char>::empty());
    while i < n
        invariant
            n == s@.len(),
            i <= n,
            out@ == tabs_expanded(s@.take(i as int)),
        decreases n - i,
    {
        assert(s@.take(i + 1).drop_last() =~= s@.take(i as int));
        if s.get_char(i) == '\t' {
            out.append("    ");
            proof {
                reveal_strlit("    ");
            }
            assert(out@ =~= tabs_expanded(s@.take(i + 1)));
        } else {
            let piece = s.substring_char(i, i + 1);
            out.append(piece);
            assert(out@ =~= tabs_expanded(s@.take(i + 1)));
        }
        i = i + 1;
    }
    assert(s@.take(n as int) =~= s@);
    out
}

/// The texts one after another.
pub(crate) fn join_all_parts(parts: &Vec<String>) -> (r: String)
    ensures
        r@ == concat_all(string_views(parts@)),
{
    join_all(parts)
}

/// The texts one after another.
fn join_all(parts: &Vec<String>) -> (r: String)
    ensures
        r@ == concat_all(string_views(parts@)),
{
    let ghost ps = string_views(parts@);
    let mut out = String::new();
    let mut i: usize = 0;
    assert(ps.take(0) =~= Seq::<Seq<char>>::empty());
    while i < parts.len()
        invariant
            ps == string_views(parts@),
            i <= parts@.len(),
            out@ == concat_all(ps.take(i as int)),
        decreases parts@.len() - i,
    {
        assert(ps.take(i + 1).drop_last() =~= ps.take(i as int));
        out.append(parts[i].as_str());
        i = i + 1;
    }
    assert(ps.take(i as int) =~= ps);
    out
}

impl File {
    /// Every line has its colouring, the key has no repeated word and the
    /// cursor lies within its bounds.
    pub open spec fn wf(&self) -> bool {
        &&& self.coloured()
        &&& self.syntax_highlighter.wf()
        &&& self.cursor.wf()
    }

    /// Each line's colouring is the line highlighted with the current key,
    /// which gives all its words a colour.
    pub open spec fn coloured(&self) -> bool {
        &&& self.highlighted_lines@.len() == self.lines@.len()
        &&& forall|i: int| 0 <= i < self.lines@.len() ==> #[trigger] self.highlighted_lines@[i]@ == highlighted(
            self.lines@[i]@,
            self.syntax_highlighter.colour_key@,
        ) && covers(self.syntax_highlighter.colour_key@, self.lines@[i]@)
    }

    /// A file at `path` named `name` holding `text` (read by the caller), its
    /// tabs widened, coloured, with the cursor at the origin of a terminal
    /// of the given size.
    pub fn new(path: String, name: String, text: String, width: u16, height: u16) -> (r: Self)
        ensures
            r.wf(),
            r.path == path,
            r.name == name,
            string_views(r.lines@) == text_lines(text@).map_values(|l: Seq<char>| tabs_expanded(l)),
            r.cursor == Cursor::new_spec(width, height),
            !r.modified,
            !r.insert,
            forall|i: int| 0 <= i < r.lines@.len() ==> #[trigger] r.highlighted_lines@[i]@ == highlighted(
                r.lines@[i]@,
                r.syntax_highlighter.colour_key@,
            ),
    {
        let raw = split_lines(text.as_str());
        let ghost rv = string_views(raw@);
        let mut lines: Vec<String> = Vec::new();
        let mut i: usize = 0;
        while i < raw.len()
            invariant
                rv == string_views(raw@),
                i <= raw@.len(),
                string_views(lines@) == rv.take(i as int).map_values(|l: Seq<char>| tabs_expanded(l)),
            decreases raw@.len() - i,
        {
            let line = expand_tabs(raw[i].as_str());
            let ghost prev = string_views(lines@);
            lines.push(line);
            assert(string_views(lines@) =~= prev.push(tabs_expanded(rv[i as int])));
            assert(rv.take(i + 1).map_values(|l: Seq<char>| tabs_expanded(l)) =~= rv.take(i as int).map_values(
                |l: Seq<char>| tabs_expanded(l),
            ).push(tabs_expanded(rv[i as int])));
            i = i + 1;
        }
        assert(rv.take(i as int) =~= rv);
        let mut syntax_highlighter = SyntaxHighlighter::new();
        let mut copy: Vec<String> = Vec::new();
        let mut j: usize = 0;
        while j < lines.len()
            invariant
                j <= lines@.len(),
                copy@.len() == j,
                forall|k: int| 0 <= k < j ==> #[trigger] copy@[k]@ == lines@[k]@,
            decreases lines@.len() - j,
        {
            copy.push(lines[j].clone());
            j = j + 1;
        }
        syntax_highlighter.init(copy);
        let mut file = File {
            path,
            name,
            lines,
            cursor: Cursor::new(width, height),
            modified: false,
            insert: false,
            highlighted_lines: Vec::new(),
            syntax_highlighter,
        };
        file.refresh_lines();
        file
    }

    /// Colours every line afresh with the current key.
    fn refresh_lines(&mut self)
        requires
            old(self).syntax_highlighter.wf(),
        ensures
            final(self).syntax_highlighter.wf(),
            final(self).highlighted_lines@.len() == final(self).lines@.len(),
            final(self).lines == old(self).lines,
            final(self).path == old(self).path,
            final(self).name == old(self).name,
            final(self).cursor == old(self).cursor,
            final(self).modified == old(self).modified,
            final(self).insert == old(self).insert,
            forall|i: int| 0 <= i < final(self).lines@.len() ==> #[trigger] final(self).highlighted_lines@[i]@ == highlighted(
                final(self).lines@[i]@,
                final(self).syntax_highlighter.colour_key@,
            ),
            final(self).coloured(),
    {
        let mut out: Vec<ColourString> = Vec::new();
        let mut i: usize = 0;
        while i < self.lines.len()
            invariant
                self.lines == old(self).lines,
                self.path == old(self).path,
                self.name == old(self).name,
                self.cursor == old(self).cursor,
                self.modified == old(self).modified,
                self.insert == old(self).insert,
                i <= self.lines@.len(),
                self.syntax_highlighter.wf(),
                out@.len() == i,
                forall|k: int| 0 <= k < i ==> #[trigger] out@[k]@ == highlighted(
                    self.lines@[k]@,
                    self.syntax_highlighter.colour_key@,
                ),
                forall|k: int| 0 <= k < i ==> covers(self.syntax_highlighter.colour_key@, #[trigger] self.lines@[k]@),
            decreases self.lines@.len() - i,
        {
            let ghost key = self.syntax_highlighter.colour_key@;
            let line = self.syntax_highlighter.highlight(self.lines[i].clone());
            assert(covers(self.syntax_highlighter.colour_key@, self.lines@[i as int]@));
            proof {
                assert forall|k: int| 0 <= k < i implies #[trigger] out@[k]@ == highlighted(
                    self.lines@[k]@,
                    self.syntax_highlighter.colour_key@,
                ) by {
                    lemma_highlight_stable(self.lines@[k]@, key, self.syntax_highlighter.colour_key@);
                }
                assert forall|k: int| 0 <= k < i implies covers(self.syntax_highlighter.colour_key@, #[trigger] self.lines@[k]@) by {
                    assert(covers(key, self.lines@[k]@));
                    assert forall|j: int| 0 <= j < crate::syntax_highlighter::line_words(self.lines@[k]@).len() implies crate::syntax_highlighter::lookup(
                        self.syntax_highlighter.colour_key@,
                        crate::syntax_highlighter::trimmed(#[trigger] crate::syntax_highlighter::line_words(self.lines@[k]@)[j]),
                    ) is Some by {
                        let v = crate::syntax_highlighter::trimmed(crate::syntax_highlighter::line_words(self.lines@[k]@)[j]);
                        assert(crate::syntax_highlighter::lookup(key, v) is Some);
                    }
                }
            }
            out.push(line);
            i = i + 1;
        }
        self.highlighted_lines = out;
    }

    /// Starts a fresh colour key for the file's lines and colours them all.
    pub fn refresh_highlight(&mut self)
        ensures
            final(self).syntax_highlighter.wf(),
            final(self).highlighted_lines@.len() == final(self).lines@.len(),
            final(self).lines == old(self).lines,
            final(self).cursor == old(self).cursor,
            forall|i: int| 0 <= i < final(self).lines@.len() ==> #[trigger] final(self).highlighted_lines@[i]@ == highlighted(
                final(self).lines@[i]@,
                final(self).syntax_highlighter.colour_key@,
            ),
            final(self).coloured(),
    {
        let mut copy: Vec<String> = Vec::new();
        let mut j: usize = 0;
        while j < self.lines.len()
            invariant
                j <= self.lines@.len(),
                copy@.len() == j,
            decreases self.lines@.len() - j,
        {
            copy.push(self.lines[j].clone());
            j = j + 1;
        }
        self.syntax_highlighter.init(copy);
        self.refresh_lines();
    }
}

/// Whether the key gives a colour to every word of the line.
pub open spec fn covers(key: Seq<(String, crate::colour_string::Colour)>, line: Seq<char>) -> bool {
    forall|i: int| 0 <= i < crate::syntax_highlighter::line_words(line).len() ==> crate::syntax_highlighter::lookup(
        key,
        crate::syntax_highlighter::trimmed(#[trigger] crate::syntax_highlighter::line_words(line)[i]),
    ) is Some
}

/// A line's colouring stays as it was while the key keeps the colours of
/// its words.
proof fn lemma_highlight_stable(
    line: Seq<char>,
    before: Seq<(String, crate::colour_string::Colour)>,
    after: Seq<(String, crate::colour_string::Colour)>,
)
    requires
        forall|v: Seq<char>| #[trigger] crate::syntax_highlighter::lookup(before, v) is Some ==> crate::syntax_highlighter::lookup(after, v)
            == crate::syntax_highlighter::lookup(before, v),
        forall|i: int| 0 <= i < crate::syntax_highlighter::line_words(line).len() ==> crate::syntax_highlighter::lookup(
            before,
            crate::syntax_highlighter::trimmed(#[trigger] crate::syntax_highlighter::line_words(line)[i]),
        ) is Some,
    ensures
        highlighted(line, after) == highlighted(line, before),
{
    let words = crate::syntax_highlighter::line_words(line);
    assert(Seq::new(words.len(), |i: int| crate::syntax_highlighter::colour_in(after, crate::syntax_highlighter::trimmed(words[i])))
        =~= Seq::new(words.len(), |i: int| crate::syntax_highlighter::colour_in(before, crate::syntax_highlighter::trimmed(words[i]))));
}

/// Relies on std's `char::to_string`: the one-character text.
#[verifier::external_body]
fn char_string(c: char) -> (r: String)
    ensures
        r@ == seq![c],
{
    c.to_string()
}

/// The key still colours a line as before once it has grown.
proof fn lemma_still_coloured(
    line: Seq<char>,
    h: Seq<crate::colour_string::Cell>,
    before: Seq<(String, crate::colour_string::Colour)>,
    after: Seq<(String, crate::colour_string::Colour)>,
)
    requires
        forall|v: Seq<char>| #[trigger] crate::syntax_highlighter::lookup(before, v) is Some ==> crate::syntax_highlighter::lookup(after, v)
            == crate::syntax_highlighter::lookup(before, v),
        h == highlighted(line, before),
        covers(before, line),
    ensures
        h == highlighted(line, after),
        covers(after, line),
{
    lemma_highlight_stable(line, before, after);
    assert forall|j: int| 0 <= j < crate::syntax_highlighter::line_words(line).len() implies crate::syntax_highlighter::lookup(
        after,
        crate::syntax_highlighter::trimmed(#[trigger] crate::syntax_highlighter::line_words(line)[j]),
    ) is Some by {
        let v = crate::syntax_highlighter::trimmed(crate::syntax_highlighter::line_words(line)[j]);
        assert(crate::syntax_highlighter::lookup(before, v) is Some);
    }
}

impl File {
    /// Replaces line `y`, colouring it.
    fn set_line(&mut self, y: usize, text: String)
        requires
            old(self).coloured(),
            old(self).syntax_highlighter.wf(),
            y < old(self).lines@.len(),
        ensures
            final(self).coloured(),
            final(self).syntax_highlighter.wf(),
            string_views(final(self).lines@) == string_views(old(self).lines@).update(y as int, text@),
            final(self).lines@.len() == old(self).lines@.len(),
            final(self).cursor == old(self).cursor,
            final(self).path == old(self).path,
            final(self).name == old(self).name,
            final(self).insert == old(self).insert,
            final(self).modified == old(self).modified,
    {
        let ghost key = self.syntax_highlighter.colour_key@;
        let h = self.syntax_highlighter.highlight(text.clone());
        proof {
            assert forall|i: int| 0 <= i < self.lines@.len() implies #[trigger] self.highlighted_lines@[i]@ == highlighted(
                self.lines@[i]@,
                self.syntax_highlighter.colour_key@,
            ) && covers(self.syntax_highlighter.colour_key@, self.lines@[i]@) by {
                assert(self.highlighted_lines@[i]@ == highlighted(self.lines@[i]@, key) && covers(key, self.lines@[i]@));
                lemma_still_coloured(self.lines@[i]@, self.highlighted_lines@[i]@, key, self.syntax_highlighter.colour_key@);
            }
        }
        let ghost t = text@;
        self.lines.set(y, text);
        self.highlighted_lines.set(y, h);
        assert(string_views(self.lines@) =~= string_views(old(self).lines@).update(y as int, t));
        assert(covers(self.syntax_highlighter.colour_key@, t));
    }

    /// Puts a coloured line in at `y`.
    fn insert_line(&mut self, y: usize, text: String)
        requires
            old(self).coloured(),
            old(self).syntax_highlighter.wf(),
            y <= old(self).lines@.len(),
        ensures
            final(self).coloured(),
            final(self).syntax_highlighter.wf(),
            string_views(final(self).lines@) == string_views(old(self).lines@).insert(y as int, text@),
            final(self).lines@.len() == old(self).lines@.len() + 1,
            final(self).cursor == old(self).cursor,
            final(self).path == old(self).path,
            final(self).name == old(self).name,
            final(self).insert == old(self).insert,
            final(self).modified == old(self).modified,
    {
        let ghost key = self.syntax_highlighter.colour_key@;
        let h = self.syntax_highlighter.highlight(text.clone());
        proof {
            assert forall|i: int| 0 <= i < self.lines@.len() implies #[trigger] self.highlighted_lines@[i]@ == highlighted(
                self.lines@[i]@,
                self.syntax_highlighter.colour_key@,
            ) && covers(self.syntax_highlighter.colour_key@, self.lines@[i]@) by {
                assert(self.highlighted_lines@[i]@ == highlighted(self.lines@[i]@, key) && covers(key, self.lines@[i]@));
                lemma_still_coloured(self.lines@[i]@, self.highlighted_lines@[i]@, key, self.syntax_highlighter.colour_key@);
            }
        }
        let ghost t = text@;
        self.lines.insert(y, text);
        self.highlighted_lines.insert(y, h);
        assert(string_views(self.lines@) =~= string_views(old(self).lines@).insert(y as int, t));
        assert(covers(self.syntax_highlighter.colour_key@, t));
        assert forall|i: int| 0 <= i < self.lines@.len() implies #[trigger] self.highlighted_lines@[i]@ == highlighted(
            self.lines@[i]@,
            self.syntax_highlighter.colour_key@,
        ) && covers(self.syntax_highlighter.colour_key@, self.lines@[i]@) by {
            if i > y {
                assert(self.lines@[i] == old(self).lines@[i - 1]);
                assert(self.highlighted_lines@[i] == old(self).highlighted_lines@[i - 1]);
            } else if i < y {
                assert(self.lines@[i] == old(self).lines@[i]);
            }
        }
    }

    /// Takes line `y` out, returning it.
    fn remove_line(&mut self, y: usize) -> (r: String)
        requires
            old(self).coloured(),
            y < old(self).lines@.len(),
        ensures
            final(self).coloured(),
            final(self).syntax_highlighter == old(self).syntax_highlighter,
            string_views(final(self).lines@) == string_views(old(self).lines@).remove(y as int),
            final(self).lines@.len() == old(self).lines@.len() - 1,
            r@ == old(self).lines@[y as int]@,
            final(self).cursor == old(self).cursor,
            final(self).path == old(self).path,
            final(self).name == old(self).name,
            final(self).insert == old(self).insert,
            final(self).modified == old(self).modified,
    {
        let r = self.lines.remove(y);
        self.highlighted_lines.remove(y);
        assert(string_views(self.lines@) =~= string_views(old(self).lines@).remove(y as int));
        assert forall|i: int| 0 <= i < self.lines@.len() implies #[trigger] self.highlighted_lines@[i]@ == highlighted(
            self.lines@[i]@,
            self.syntax_highlighter.colour_key@,
        ) && covers(self.syntax_highlighter.colour_key@, self.lines@[i]@) by {
            if i >= y {
                assert(self.lines@[i] == old(self).lines@[i + 1]);
                assert(self.highlighted_lines@[i] == old(self).highlighted_lines@[i + 1]);
            }
        }
        r
    }

    /// Adds empty lines until there are at least `n`.
    fn ensure_lines(&mut self, n: usize)
        requires
            old(self).coloured(),
            old(self).syntax_highlighter.wf(),
        ensures
            final(self).coloured(),
            final(self).syntax_highlighter.wf(),
            string_views(final(self).lines@) == padded_lines(string_views(old(self).lines@), n as int),
            final(self).lines@.len() >= n,
            final(self).cursor == old(self).cursor,
            final(self).path == old(self).path,
            final(self).name == old(self).name,
            final(self).insert == old(self).insert,
            final(self).modified == old(self).modified,
    {
        let ghost start = string_views(self.lines@);
        while self.lines.len() < n
            invariant
                self.coloured(),
                self.syntax_highlighter.wf(),
                start.len() <= self.lines@.len(),
                self.lines@.len() <= n || self.lines@.len() == start.len(),
                string_views(self.lines@) == start + Seq::new(
                    (self.lines@.len() - start.len()) as nat,
                    |i: int| Seq::<char>::empty(),
                ),
                self.cursor == old(self).cursor,
                self.path == old(self).path,
                self.name == old(self).name,
                self.insert == old(self).insert,
                self.modified == old(self).modified,
            decreases n - self.lines@.len(),
        {
            let ghost before = string_views(self.lines@);
            let len = self.lines.len();
            self.insert_line(len, String::new());
            assert(string_views(self.lines@) =~= start + Seq::new(
                (self.lines@.len() - start.len()) as nat,
                |i: int| Seq::<char>::empty(),
            ));
        }
        assert(string_views(self.lines@) =~= padded_lines(start, n as int));
    }

    /// Puts `c` in at the cursor, spaces filling any gap, and moves the
    /// cursor one column on.
    pub fn insert_char(&mut self, c: char)
        requires
            old(self).wf(),
            can_step(old(self).cursor, Direction::Right),
        ensures
            final(self).wf(),
            ({
                let y = row_of(old(self).cursor);
                let lines = padded_lines(string_views(old(self).lines@), y + 1);
                string_views(final(self).lines@) == lines.update(y, with_char(lines[y], column_of(old(self).cursor), c))
            }),
            final(self).cursor == stepped(old(self).cursor, Direction::Right),
            final(self).modified,
            final(self).insert == old(self).insert,
    {
        let y = self.cursor.y as usize + self.cursor.y_offset as usize - self.cursor.y_min as usize;
        let x = self.cursor.x as usize + self.cursor.x_offset as usize - self.cursor.x_min as usize;
        self.ensure_lines(y + 1);
        let ghost line = self.lines@[y as int]@;
        let mut g = graphemes(self.lines[y].as_str());
        let ghost g0 = string_views(g@);
        assert(g0 == grapheme_clusters(line));
        while g.len() < x
            invariant
                g0.len() <= string_views(g@).len(),
                g@.len() <= x || g@.len() == g0.len(),
                string_views(g@) == g0 + Seq::new((g@.len() - g0.len()) as nat, |i: int| seq![' ']),
            decreases x - g@.len(),
        {
            let ghost before = string_views(g@);
            let space = String::from_str(" ");
            proof {
                reveal_strlit(" ");
            }
            assert(space@ =~= seq![' ']);
            g.push(space);
            assert(string_views(g@) =~= before.push(seq![' ']));
            assert(string_views(g@) =~= g0 + Seq::new((g@.len() - g0.len()) as nat, |i: int| seq![' ']));
        }
        assert(string_views(g@) =~= padded_clusters(g0, x as int));
        let ghost padded = string_views(g@);
        g.insert(x, char_string(c));
        assert(string_views(g@) =~= padded.insert(x as int, seq![c]));
        let text = join_all(&g);
        self.set_line(y, text);
        self.cursor.parse_direction(Direction::Right);
        self.modified = true;
    }

    /// Deletes the character before the cursor; at the start of a line,
    /// joins the line to the one above.
    pub fn backspace(&mut self)
        requires
            old(self).wf(),
        ensures
            final(self).wf(),
            final(self).modified,
            final(self).insert == old(self).insert,
            ({
                let y = row_of(old(self).cursor);
                let x = column_of(old(self).cursor);
                let lines = padded_lines(string_views(old(self).lines@), y + 1);
                if old(self).cursor.x > old(self).cursor.x_min {
                    &&& string_views(final(self).lines@) == lines.update(y, without_column(lines[y], x - 1))
                    &&& final(self).cursor == stepped(old(self).cursor, Direction::Left)
                } else if y != 0 {
                    let up = stepped(old(self).cursor, Direction::Up);
                    let prev = lines[y - 1];
                    let n = grapheme_clusters(prev).len() + up.x_min;
                    &&& string_views(final(self).lines@) == lines.remove(y).update(y - 1, prev + lines[y])
                    &&& final(self).cursor == Cursor {
                        x: crate::cursor::clamped(if n > u16::MAX { u16::MAX as int } else { n }, up.x_min, up.x_max),
                        ..up
                    }
                } else {
                    &&& string_views(final(self).lines@) == lines
                    &&& final(self).cursor == old(self).cursor
                }
            }),
    {
        let y = self.cursor.y as usize + self.cursor.y_offset as usize - self.cursor.y_min as usize;
        let x = self.cursor.x as usize + self.cursor.x_offset as usize - self.cursor.x_min as usize;
        self.ensure_lines(y + 1);
        let ghost lines = string_views(self.lines@);
        if self.cursor.x > self.cursor.x_min {
            let mut g = graphemes(self.lines[y].as_str());
            let ghost g0 = string_views(g@);
            if g.len() > x - 1 {
                g.remove(x - 1);
                assert(string_views(g@) =~= g0.remove(x - 1));
            }
            let text = join_all(&g);
            self.set_line(y, text);
            self.cursor.parse_direction(Direction::Left);
        } else if y != 0 {
            let line = self.remove_line(y);
            assert(string_views(self.lines@)[y - 1] == lines[y - 1]);
            let mut joined = self.lines[y - 1].clone();
            let prev_len = graphemes(joined.as_str()).len();
            joined.append(line.as_str());
            self.set_line(y - 1, joined);
            assert(string_views(self.lines@) =~= lines.remove(y as int).update(y - 1, lines[y - 1] + lines[y as int]));
            self.cursor.parse_direction(Direction::Up);
            let to: u16 = if prev_len > u16::MAX as usize || prev_len + self.cursor.x_min as usize > u16::MAX as usize {
                u16::MAX
            } else {
                (prev_len + self.cursor.x_min as usize) as u16
            };
            self.cursor.update(to, self.cursor.y);
        }
        self.modified = true;
    }

    /// Splits the line at the cursor; the cursor goes to the start of the
    /// new line below.
    pub fn enter(&mut self)
        requires
            old(self).wf(),
            can_step(old(self).cursor, Direction::Down),
        ensures
            final(self).wf(),
            final(self).modified,
            final(self).insert == old(self).insert,
            ({
                let y = row_of(old(self).cursor);
                let x = column_of(old(self).cursor);
                let lines = padded_lines(string_views(old(self).lines@), y + 1);
                let g = grapheme_clusters(lines[y]);
                let cut = if x < g.len() { x } else { g.len() as int };
                &&& string_views(final(self).lines@) == lines.update(y, concat_all(g.take(cut))).insert(
                    y + 1,
                    concat_all(g.skip(cut)),
                )
                &&& final(self).lines@[y]@ + final(self).lines@[y + 1]@ == lines[y]
                &&& final(self).cursor == Cursor {
                    x: crate::cursor::clamped(
                        stepped(old(self).cursor, Direction::Down).x_min as int,
                        stepped(old(self).cursor, Direction::Down).x_min,
                        stepped(old(self).cursor, Direction::Down).x_max,
                    ),
                    ..stepped(old(self).cursor, Direction::Down)
                }
            }),
    {
        let y = self.cursor.y as usize + self.cursor.y_offset as usize - self.cursor.y_min as usize;
        let x = self.cursor.x as usize + self.cursor.x_offset as usize - self.cursor.x_min as usize;
        self.ensure_lines(y + 1);
        let ghost lines = string_views(self.lines@);
        let g = graphemes(self.lines[y].as_str());
        let ghost g0 = string_views(g@);
        let cut = if x < g.len() { x } else { g.len() };
        let mut first: Vec<String> = Vec::new();
        let mut rest: Vec<String> = Vec::new();
        let mut i: usize = 0;
        while i < g.len()
            invariant
                g0 == string_views(g@),
                cut <= g@.len(),
                i <= g@.len(),
                string_views(first@) == g0.take(if i < cut { i as int } else { cut as int }),
                string_views(rest@) == g0.subrange(cut as int, if i < cut { cut as int } else { i as int }),
            decreases g@.len() - i,
        {
            let piece = g[i].clone();
            assert(piece@ == g0[i as int]);
            if i < cut {
                let ghost prev = string_views(first@);
                first.push(piece);
                assert(string_views(first@) =~= prev.push(g0[i as int]));
                assert(string_views(first@) =~= g0.take(i + 1));
            } else {
                let ghost prev = string_views(rest@);
                rest.push(piece);
                assert(string_views(rest@) =~= prev.push(g0[i as int]));
                assert(string_views(rest@) =~= g0.subrange(cut as int, i + 1));
            }
            i = i + 1;
        }
        assert(g0.subrange(cut as int, g@.len() as int) =~= g0.skip(cut as int));
        proof {
            lemma_concat_all_split(g0, cut as int);
        }
        let head = join_all(&first);
        let tail = join_all(&rest);
        assert(concat_all(g0) == lines[y as int]);
        assert(head@ + tail@ == lines[y as int]);
        self.set_line(y, head);
        self.insert_line(y + 1, tail);
        assert(self.lines@[y as int]@ == string_views(self.lines@)[y as int]);
        assert(self.lines@[y + 1]@ == string_views(self.lines@)[y + 1]);
        self.cursor.parse_direction(Direction::Down);
        self.cursor.update(self.cursor.x_min, self.cursor.y);
        self.modified = true;
    }
}

/// The digit for a value below ten.
pub open spec fn digit_char(d: nat) -> char {
    seq!['0', '1', '2', '3', '4', '5', '6', '7', '8', '9'][d as int]
}

/// The decimal digits of a number, without leading zeros.
pub open spec fn decimal_text(n: nat) -> Seq<char>
    decreases n,
{
    if n < 10 {
        seq![digit_char(n)]
    } else {
        decimal_text(n / 10).push(digit_char(n % 10))
    }
}

/// The decimal digits of a number.
pub(crate) fn number_text(n: usize) -> (r: String)
    ensures
        r@ == decimal_text(n as nat),
    decreases n,
{
    let digits = vec!['0', '1', '2', '3', '4', '5', '6', '7', '8', '9'];
    assert(digits@ =~= seq!['0', '1', '2', '3', '4', '5', '6', '7', '8', '9']);
    if n < 10 {
        let r = char_string(digits[n]);
        assert(r@ =~= decimal_text(n as nat));
        r
    } else {
        let mut r = number_text(n / 10);
        let last = char_string(digits[n % 10]);
        r.append(last.as_str());
        assert(r@ =~= decimal_text(n as nat));
        r
    }
}

pub open spec fn dark_style() -> Style {
    Style { foreground: Colour::Ansi(DARK_GREY), background: Colour::Reset, attributes: Seq::empty() }
}

pub open spec fn spaces(n: nat) -> Seq<Cell> {
    Seq::new(n, |i: int| blank_cell())
}

/// The line number column: the number right-aligned in four columns, or a
/// `~` past the end of the file.
pub open spec fn gutter(number: nat, count: nat) -> Seq<Cell> {
    if number > count {
        spaces(3) + cells_of(grapheme_clusters(seq!['~']), dark_style())
    } else {
        let t = decimal_text(number);
        spaces(if t.len() < 4 { (4 - t.len()) as nat } else { 0 }) + cells_of(grapheme_clusters(t), dark_style())
    }
}

/// Row `i` of the editor pane: the line number, a space, and the line
/// scrolled by the cursor's offsets, cut to `width`.
pub open spec fn editor_row(coloured: Seq<Seq<Cell>>, count: nat, c: Cursor, i: int, width: nat) -> Seq<Cell> {
    let k = i + c.y_offset;
    let body = if k < coloured.len() { coloured[k] } else { Seq::empty() };
    truncated(gutter((k + 1) as nat, count) + seq![blank_cell()] + skipped(body, c.x_offset as int), width as int)
}

/// A row of blank cells.
fn blanks(n: usize) -> (r: ColourString)
    ensures
        r@ == spaces(n as nat),
{
    let mut line = ColourString::empty();
    let space = String::from_str(" ");
    proof {
        reveal_strlit(" ");
    }
    assert(space@ =~= seq![' ']);
    line.pad(n, space, None);
    assert(line@ =~= spaces(n as nat));
    line
}

impl File {
    /// The editor pane for a terminal of the given size; the cursor's
    /// bounds are set to the pane first.
    pub fn render(&mut self, width: u16, height: u16) -> (r: Vec<ColourString>)
        ensures
            ({
                let m = if height >= 2 { (height - 2) as u16 } else { 0u16 };
                let x_max = if width >= old(self).cursor.x_min { width } else { old(self).cursor.x_min };
                let y_max = if m >= old(self).cursor.y_min { m } else { old(self).cursor.y_min };
                final(self).cursor == Cursor {
                    x_max,
                    y_max,
                    x: crate::cursor::clamped(old(self).cursor.x as int, old(self).cursor.x_min, x_max),
                    y: crate::cursor::clamped(old(self).cursor.y as int, old(self).cursor.y_min, y_max),
                    ..old(self).cursor
                }
            }),
            final(self).lines == old(self).lines,
            final(self).highlighted_lines == old(self).highlighted_lines,
            final(self).syntax_highlighter == old(self).syntax_highlighter,
            line_views(r@) == Seq::new(
                height as nat,
                |i: int|
                    editor_row(
                        line_views(old(self).highlighted_lines@),
                        old(self).lines@.len(),
                        final(self).cursor,
                        i,
                        width as nat,
                    ),
            ),
    {
        self.cursor.set_max(width, height.saturating_sub(2));
        let ghost hl = line_views(self.highlighted_lines@);
        let ghost target = Seq::new(
            height as nat,
            |i: int| editor_row(hl, self.lines@.len(), self.cursor, i, width as nat),
        );
        let count = self.lines.len();
        let mut frame: Vec<ColourString> = Vec::new();
        let mut i: u16 = 0;
        while i < height
            invariant
                i <= height,
                frame@.len() == i,
                count == self.lines@.len(),
                hl == line_views(self.highlighted_lines@),
                target == Seq::new(
                    height as nat,
                    |i: int| editor_row(hl, self.lines@.len(), self.cursor, i, width as nat),
                ),
                line_views(frame@) == target.take(i as int),
            decreases height - i,
        {
            let k: usize = i as usize + self.cursor.y_offset as usize;
            let mut body = if k < self.highlighted_lines.len() {
                self.highlighted_lines[k].duplicate()
            } else {
                ColourString::empty()
            };
            let body = body.skip(self.cursor.x_offset as usize);
            let dark = Info::new(Colour::Ansi(DARK_GREY), Colour::Reset, Vec::new());
            assert(dark@ =~= dark_style());
            let mut row = if k + 1 > count {
                let mut g = blanks(3);
                let tilde = String::from_str("~");
                proof {
                    reveal_strlit("~");
                }
                assert(tilde@ =~= seq!['~']);
                g.push_colour_string(ColourString::new(tilde, Some(dark)));
                g
            } else {
                let t = number_text(k + 1);
                let digits = t.as_str().unicode_len();
                let mut g = blanks(if digits < 4 { 4 - digits } else { 0 });
                g.push_colour_string(ColourString::new(t, Some(dark)));
                g
            };
            let space = String::from_str(" ");
            proof {
                reveal_strlit(" ");
            }
            assert(space@ =~= seq![' ']);
            row.push_char(Char { content: space, colour: Info::plain() });
            row.push_colour_string(body);
            row.truncate(width as usize);
            assert(row@ =~= target[i as int]);
            let ghost prev = frame@;
            frame.push(row);
            assert(line_views(frame@) =~= line_views(prev).push(target[i as int]));
            assert(target.take(i + 1) =~= target.take(i as int).push(target[i as int]));
            i = i + 1;
        }
        assert(target.take(height as int) =~= target);
        frame
    }
}

/// The lines joined with `\n` between each two.
pub open spec fn joined_lines(lines: Seq<Seq<char>>) -> Seq<char>
    decreases lines.len(),
{
    if lines.len() == 0 {
        Seq::empty()
    } else if lines.len() == 1 {
        lines[0]
    } else {
        joined_lines(lines.drop_last()) + seq!['\n'] + lines.last()
    }
}

pub open spec fn green_style() -> Style {
    Style { foreground: Colour::Ansi(crate::colour_string::GREEN), background: Colour::Reset, attributes: Seq::empty() }
}

impl File {
    /// The file's text as it is saved: its lines joined with `\n`.
    pub fn text(&self) -> (r: String)
        ensures
            r@ == joined_lines(string_views(self.lines@)),
    {
        let ghost ls = string_views(self.lines@);
        let mut out = String::new();
        let mut i: usize = 0;
        assert(ls.take(0) =~= Seq::<Seq<char>>::empty());
        while i < self.lines.len()
            invariant
                ls == string_views(self.lines@),
                i <= self.lines@.len(),
                out@ == joined_lines(ls.take(i as int)),
            decreases self.lines@.len() - i,
        {
            assert(ls.take(i + 1).drop_last() =~= ls.take(i as int));
            if i > 0 {
                out.append("\n");
                proof {
                    reveal_strlit("\n");
                }
            }
            out.append(self.lines[i].as_str());
            if i == 0 {
                assert(out@ =~= joined_lines(ls.take(1)));
            } else {
                assert(out@ =~= joined_lines(ls.take(i + 1)));
            }
            i = i + 1;
        }
        assert(ls.take(i as int) =~= ls);
        out
    }

    /// The status message after a save: `saved file to` and the path, in
    /// green.
    pub fn saved_message(&self) -> (r: ColourString)
        ensures
            r@ == cells_of(grapheme_clusters("saved file to "@ + self.path@), green_style()),
    {
        let mut text = String::from_str("saved file to ");
        text.append(self.path.as_str());
        let green = Info::new(Colour::Ansi(crate::colour_string::GREEN), Colour::Reset, Vec::new());
        assert(green@ =~= green_style());
        ColourString::new(text, Some(green))
    }
}

/// The first column of the editor's text: after the four-column line
/// numbers and a space, and after the explorer pane (a fifth of the width
/// and its border) when it is shown.
pub open spec fn text_left(explorer_shown: bool, width: u16) -> u16 {
    (5 + if explorer_shown { width / 5 + 1 } else { 0 }) as u16
}

pub fn editor_left(explorer_shown: bool, width: u16) -> (r: u16)
    ensures
        r == text_left(explorer_shown, width),
{
    5 + if explorer_shown { width / 5 + 1 } else { 0 }
}

impl File {
    /// Puts the cursor at the top left of the text, which starts at column
    /// `left` under the tab bar.
    pub fn place_cursor(&mut self, left: u16)
        requires
            old(self).wf(),
        ensures
            final(self).wf(),
            ({
                let c = old(self).cursor;
                let x_min = if left <= c.x_max { left } else { c.x_max };
                let y_min: u16 = if 1 <= c.y_max { 1 } else { c.y_max };
                final(self).cursor == Cursor { x_min, y_min, x: x_min, y: y_min, ..c }
            }),
            final(self).lines == old(self).lines,
    {
        self.cursor.set_min(left, 1);
        let (x, y) = (self.cursor.x_min, self.cursor.y_min);
        self.cursor.update(x, y);
    }

    /// Moves the text `shift` columns right, or back left, as the explorer
    /// pane is shown or hidden; the cursor keeps its place in the text where
    /// the bounds allow.
    pub fn shift_text(&mut self, shift: u16, show: bool)
        requires
            old(self).wf(),
        ensures
            final(self).wf(),
            final(self).lines == old(self).lines,
            ({
                let c = old(self).cursor;
                if show {
                    let x = crate::cursor::clamped(
                        if c.x + shift > u16::MAX { u16::MAX as int } else { c.x + shift },
                        c.x_min,
                        c.x_max,
                    );
                    let wanted = if c.x_min + shift > u16::MAX { u16::MAX as int } else { c.x_min + shift };
                    let x_min = if wanted <= c.x_max { wanted as u16 } else { c.x_max };
                    final(self).cursor == Cursor { x_min, x: crate::cursor::clamped(x as int, x_min, c.x_max), ..c }
                } else {
                    let x_min: u16 = if 5 <= c.x_max { 5 } else { c.x_max };
                    let x = crate::cursor::clamped(c.x as int, x_min, c.x_max);
                    let back = if x >= shift { x - shift } else { 0 };
                    final(self).cursor == Cursor { x_min, x: crate::cursor::clamped(back, x_min, c.x_max), ..c }
                }
            }),
    {
        if show {
            let x = if self.cursor.x as u32 + shift as u32 > u16::MAX as u32 { u16::MAX } else { self.cursor.x + shift };
            let y = self.cursor.y;
            self.cursor.update(x, y);
            let left = if self.cursor.x_min as u32 + shift as u32 > u16::MAX as u32 {
                u16::MAX
            } else {
                self.cursor.x_min + shift
            };
            let y_min = self.cursor.y_min;
            self.cursor.set_min(left, y_min);
        } else {
            let y_min = self.cursor.y_min;
            self.cursor.set_min(5, y_min);
            let x = self.cursor.x.saturating_sub(shift);
            let y = self.cursor.y;
            self.cursor.update(x, y);
        }
    }
}

} // verus!
