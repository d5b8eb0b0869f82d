//! The compositor: the frames the panes register in a tick, laid over one
//! another into one screen.

use crate::colour_string::{
    default_style, line_views, rendered, screen_cells, trimmed_end, truncated, views, Attribute, Cell, Char, Colour,
    ColourString, Info, Style, DARK_GREY,
};
use vstd::prelude::*;
use vstd::string::*;

verus! {

/// How a frame is laid over what is already on screen.
#[derive(Clone, Copy, Debug, PartialEq, Eq, Structural)]
pub enum PushDirection {
    /// Each row slides in from the left edge, pushing the screen's row right.
    Left,
    /// Each row is put on top, pushing the screen's rows down.
    Up,
}

/// One pane's rendered rows for the current tick, with how they are laid
/// over the screen. With no push direction the frame overwrites; then
/// `ignore_whitespace` makes its spaces overwrite too.
pub struct Frame {
    pub content: Vec<ColourString>,
    pub push: Option<PushDirection>,
    pub ignore_whitespace: bool,
}

/// The mathematical value of a frame.
pub struct Layer {
    pub rows: Seq<Seq<Cell>>,
    pub push: Option<PushDirection>,
    pub ignore_whitespace: bool,
}

impl View for Frame {
    type V = Layer;

    open spec fn view(&self) -> Layer {
        Layer { rows: line_views(self.content@), push: self.push, ignore_whitespace: self.ignore_whitespace }
    }
}

/// The values of a sequence of frames.
pub open spec fn layers(frames: Seq<Frame>) -> Seq<Layer> {
    frames.map_values(|f: Frame| f@)
}

pub open spec fn space() -> Seq<char> {
    seq![' ']
}

/// The glyph whose cells keep their style under the overlay dimming.
pub open spec fn block_glyph() -> Seq<char> {
    seq!['\u{2588}']
}

/// The style that cells behind an overlay are drawn in.
pub open spec fn dim_style() -> Style {
    Style { foreground: Colour::Ansi(DARK_GREY), background: Colour::Reset, attributes: Seq::empty() }
}

/// A blank cell: a space in the default style.
pub open spec fn blank_cell() -> Cell {
    Cell { text: space(), style: default_style() }
}

/// A screen of `height` rows of `width` blank cells.
pub open spec fn blank_screen(width: nat, height: nat) -> Seq<Seq<Cell>> {
    Seq::new(height, |i: int| Seq::new(width, |j: int| blank_cell()))
}

/// A cell as drawn behind an overlay when `dim` holds.
pub open spec fn dimmed(c: Cell, dim: bool) -> Cell {
    if dim && c.text != block_glyph() {
        Cell { text: c.text, style: dim_style() }
    } else {
        c
    }
}

pub open spec fn dim_row(row: Seq<Cell>, dim: bool) -> Seq<Cell> {
    row.map_values(|c: Cell| dimmed(c, dim))
}

/// Whether a character has Unicode's White_Space property, which is what
/// std's `char::is_whitespace` tests.
pub open spec fn white_space(c: char) -> bool {
    let u = c as u32;
    (0x9 <= u <= 0xd) || u == 0x20 || u == 0x85 || u == 0xa0 || u == 0x1680 || (0x2000 <= u <= 0x200a) || u
        == 0x2028 || u == 0x2029 || u == 0x202f || u == 0x205f || u == 0x3000
}

pub(crate) fn is_whitespace(c: char) -> (r: bool)
    ensures
        r == white_space(c),
{
    let u = c as u32;
    (0x9 <= u && u <= 0xd) || u == 0x20 || u == 0x85 || u == 0xa0 || u == 0x1680 || (0x2000 <= u && u <= 0x200a)
        || u == 0x2028 || u == 0x2029 || u == 0x202f || u == 0x205f || u == 0x3000
}

/// Whether a cell's text is white space (and not empty).
pub open spec fn is_blank(text: Seq<char>) -> bool {
    text.len() > 0 && forall|i: int| 0 <= i < text.len() ==> white_space(#[trigger] text[i])
}

fn blank_text(text: &String) -> (r: bool)
    ensures
        r == is_blank(text@),
{
    let cs = crate::colour_string::chars_of(text.as_str());
    if cs.len() == 0 {
        return false;
    }
    let mut i: usize = 0;
    while i < cs.len()
        invariant
            cs@ == text@,
            i <= cs@.len(),
            forall|j: int| 0 <= j < i ==> white_space(#[trigger] cs@[j]),
        decreases cs@.len() - i,
    {
        if !is_whitespace(cs[i]) {
            assert(!white_space(text@[i as int]));
            return false;
        }
        i = i + 1;
    }
    true
}

/// `base` with each column that `row` covers replaced by `row`'s cell,
/// except that `row`'s white space cells leave `base` showing unless `all`.
pub open spec fn overwritten(base: Seq<Cell>, row: Seq<Cell>, all: bool) -> Seq<Cell> {
    Seq::new(
        base.len(),
        |k: int| if k < row.len() && (all || !is_blank(row[k].text)) { row[k] } else { base[k] },
    )
}

/// `base` with `row` slid in from the left: `row` first, then `base`,
/// cut to `base`'s length (at least one cell) and to `width`.
pub open spec fn pushed_left(base: Seq<Cell>, row: Seq<Cell>, width: nat) -> Seq<Cell> {
    let keep = if base.len() == 0 { 1 } else { base.len() };
    (row + base).take(if keep < width { keep as int } else { width as int })
}

/// The screen after laying row `li` of a frame over it. Empty rows change
/// nothing.
pub open spec fn blend_row(
    screen: Seq<Seq<Cell>>,
    li: int,
    row: Seq<Cell>,
    frame: Layer,
    dim: bool,
    width: nat,
    height: nat,
) -> Seq<Seq<Cell>> {
    if row.len() == 0 {
        screen
    } else {
        let r = dim_row(row, dim);
        match frame.push {
            None => screen.update(li, overwritten(screen[li], r, frame.ignore_whitespace)),
            Some(PushDirection::Left) => screen.update(li, pushed_left(screen[li], r, width)),
            Some(PushDirection::Up) => (seq![r] + screen).take(height as int),
        }
    }
}

/// The screen after laying the first `n` rows of a frame over it.
pub open spec fn blend_rows(
    screen: Seq<Seq<Cell>>,
    frame: Layer,
    n: int,
    dim: bool,
    width: nat,
    height: nat,
) -> Seq<Seq<Cell>>
    decreases n,
{
    if n <= 0 {
        screen
    } else {
        blend_row(
            blend_rows(screen, frame, n - 1, dim, width, height),
            n - 1,
            frame.rows[n - 1],
            frame,
            dim,
            width,
            height,
        )
    }
}

/// The screen after laying a frame, cut to the screen's height, over it.
pub open spec fn blend_frame(screen: Seq<Seq<Cell>>, frame: Layer, dim: bool, width: nat, height: nat) -> Seq<
    Seq<Cell>,
> {
    let n = if frame.rows.len() < height { frame.rows.len() as int } else { height as int };
    blend_rows(screen, frame, n, dim, width, height)
}

/// The screen after laying the first `k` frames over it in order; under an
/// overlay, every frame but the last one of all is dimmed.
pub open spec fn blend_frames(
    screen: Seq<Seq<Cell>>,
    frames: Seq<Layer>,
    k: int,
    overlay: bool,
    width: nat,
    height: nat,
) -> Seq<Seq<Cell>>
    decreases k,
{
    if k <= 0 {
        screen
    } else {
        blend_frame(
            blend_frames(screen, frames, k - 1, overlay, width, height),
            frames[k - 1],
            overlay && k - 1 != frames.len() - 1,
            width,
            height,
        )
    }
}

/// All frames laid in order over a blank screen.
pub open spec fn composed(frames: Seq<Layer>, overlay: bool, width: nat, height: nat) -> Seq<Seq<Cell>> {
    blend_frames(blank_screen(width, height), frames, frames.len() as int, overlay, width, height)
}

/// A screen of `height` rows.
pub open spec fn screen_fits(screen: Seq<Seq<Cell>>, height: nat) -> bool {
    screen.len() == height
}

impl Frame {
    pub fn new(content: Vec<ColourString>, push: Option<PushDirection>, ignore_whitespace: bool) -> (r: Self)
        ensures
            r@ == (Layer { rows: line_views(content@), push, ignore_whitespace }),
    {
        Frame { content, push, ignore_whitespace }
    }
}

/// A one-character text.
fn text_of(s: &str) -> (r: String)
    ensures
        r@ == s@,
{
    String::from_str(s)
}

/// A cell as drawn behind an overlay when `dim` holds.
fn dim_cell(c: &Char, dim: bool) -> (r: Char)
    ensures
        r@ == dimmed(c@, dim),
{
    let block = text_of("\u{2588}");
    proof {
        reveal_strlit("\u{2588}");
    }
    assert(block@ =~= block_glyph());
    if dim && c.content != block {
        let colour = Info::new(Colour::Ansi(DARK_GREY), Colour::Reset, Vec::new());
        assert(colour@.attributes =~= Seq::<Attribute>::empty());
        Char { content: c.content.clone(), colour }
    } else {
        c.duplicate()
    }
}

/// A row as drawn behind an overlay when `dim` holds.
fn dim_line(row: &ColourString, dim: bool) -> (r: ColourString)
    ensures
        r@ == dim_row(row@, dim),
{
    let cells = row.get_content();
    let mut out = ColourString::empty();
    let mut i: usize = 0;
    while i < cells.len()
        invariant
            views(cells@) == row@,
            i <= cells@.len(),
            out@ == dim_row(row@, dim).take(i as int),
        decreases cells@.len() - i,
    {
        let c = dim_cell(&cells[i], dim);
        out.push_char(c);
        assert(dim_row(row@, dim).take(i + 1) =~= dim_row(row@, dim).take(i as int).push(dimmed(row@[i as int], dim)));
        i = i + 1;
    }
    assert(dim_row(row@, dim).take(i as int) =~= dim_row(row@, dim));
    out
}

/// Lays `row`, row `li` of `frame`, over the screen.
fn blend_row_into(
    screen: &mut Vec<ColourString>,
    li: usize,
    row: &ColourString,
    frame: &Frame,
    dim: bool,
    width: u16,
    height: u16,
)
    requires
        li < old(screen)@.len(),
        screen_fits(line_views(old(screen)@), height as nat),
    ensures
        line_views(final(screen)@) == blend_row(
            line_views(old(screen)@),
            li as int,
            row@,
            frame@,
            dim,
            width as nat,
            height as nat,
        ),
        screen_fits(line_views(final(screen)@), height as nat),
{
    if row.len() == 0 {
        return;
    }
    let r = dim_line(row, dim);
    let ghost before = line_views(screen@);
    match frame.push {
        None => {
            let mut cur = ColourString::empty();
            screen.set_and_swap(li, &mut cur);
            let ghost base = cur@;
            assert(base == before[li as int]);
            let cells = r.get_content();
            let mut ci: usize = 0;
            assert(overwritten(base, r@.take(0), frame.ignore_whitespace) =~= base);
            while ci < cells.len()
                invariant
                    views(cells@) == r@,
                    ci <= cells@.len(),
                    cur@.len() == base.len(),
                    cur@ == overwritten(base, r@.take(ci as int), frame.ignore_whitespace),
                decreases cells@.len() - ci,
            {
                let ghost prev = cur@;
                if ci < cur.len() && (frame.ignore_whitespace || !blank_text(&cells[ci].content)) {
                    let mut one = ColourString::empty();
                    one.push_char(cells[ci].duplicate());
                    cur.replace_range(ci, ci + 1, one);
                }
                assert(cur@ =~= overwritten(base, r@.take(ci + 1), frame.ignore_whitespace));
                ci = ci + 1;
            }
            assert(r@.take(ci as int) =~= r@);
            screen.set_and_swap(li, &mut cur);
            assert(line_views(screen@) =~= before.update(li as int, overwritten(base, r@, frame.ignore_whitespace)));
        },
        Some(PushDirection::Left) => {
            let mut cur = ColourString::empty();
            screen.set_and_swap(li, &mut cur);
            let ghost base = cur@;
            assert(base == before[li as int]);
            let ghost keep: int = if base.len() == 0 { 1 } else { base.len() as int };
            let ghost m: int = if keep < width { keep } else { width as int };
            let cells = r.get_content();
            let n = cells.len();
            let mut ci: usize = n;
            while ci > 0
                invariant
                    views(cells@) == r@,
                    n == cells@.len(),
                    n > 0,
                    ci <= n,
                    keep == (if base.len() == 0 { 1 } else { base.len() as int }),
                    m == (if keep < width { keep } else { width as int }),
                    ci == n ==> cur@ == base,
                    ci < n ==> cur@ == (r@.skip(ci as int) + base).take(m),
                decreases ci,
            {
                let c = &cells[ci - 1];
                let ghost prev = cur@;
                cur.l_shift(c.content.clone(), Some(c.colour.duplicate()));
                cur.truncate(width as usize);
                assert(r@.skip(ci - 1) =~= seq![r@[ci - 1]] + r@.skip(ci as int));
                assert(cur@ =~= (r@.skip(ci - 1) + base).take(m));
                ci = ci - 1;
            }
            assert(r@.skip(0) =~= r@);
            screen.set_and_swap(li, &mut cur);
            assert(line_views(screen@) =~= before.update(li as int, pushed_left(base, r@, width as nat)));
        },
        Some(PushDirection::Up) => {
            screen.insert(0, r);
            screen.truncate(height as usize);
            assert(line_views(screen@) =~= (seq![dim_row(row@, dim)] + before).take(height as int));
        },
    }
}

/// Lays a frame, cut to the screen's height, over the screen.
fn blend_frame_into(screen: &mut Vec<ColourString>, frame: &Frame, dim: bool, width: u16, height: u16)
    requires
        screen_fits(line_views(old(screen)@), height as nat),
    ensures
        line_views(final(screen)@) == blend_frame(line_views(old(screen)@), frame@, dim, width as nat, height as nat),
        screen_fits(line_views(final(screen)@), height as nat),
{
    let h = height as usize;
    let n = if frame.content.len() < h { frame.content.len() } else { h };
    let mut li: usize = 0;
    while li < n
        invariant
            n <= frame.content@.len(),
            n <= height,
            n == (if frame@.rows.len() < height { frame@.rows.len() as int } else { height as int }),
            li <= n,
            screen_fits(line_views(screen@), height as nat),
            line_views(screen@) == blend_rows(line_views(old(screen)@), frame@, li as int, dim, width as nat, height as nat),
        decreases n - li,
    {
        blend_row_into(screen, li, &frame.content[li], frame, dim, width, height);
        li = li + 1;
    }
}

/// The queue of frames registered for the current tick, and whether a
/// modal pane is drawn over the others this tick.
pub struct Window {
    pub frames: Vec<Frame>,
    pub overlay: bool,
}

impl Window {
    /// An empty queue, with no overlay.
    pub fn new() -> (r: Self)
        ensures
            r.frames@.len() == 0,
            !r.overlay,
    {
        Window { frames: Vec::new(), overlay: false }
    }

    /// Adds a frame on top of those registered so far.
    pub fn register(&mut self, frame: Vec<ColourString>, push: Option<PushDirection>, ignore_whitespace: bool)
        ensures
            layers(final(self).frames@) == layers(old(self).frames@).push(
                Layer { rows: line_views(frame@), push, ignore_whitespace },
            ),
            final(self).overlay == old(self).overlay,
    {
        let f = Frame::new(frame, push, ignore_whitespace);
        let ghost layer = f@;
        self.frames.push(f);
        assert(layers(self.frames@) =~= layers(old(self).frames@).push(layer));
    }

    /// The registered frames laid in order over a blank screen of the
    /// given size.
    pub fn compose(&self, width: u16, height: u16) -> (r: Vec<ColourString>)
        ensures
            line_views(r@) == composed(layers(self.frames@), self.overlay, width as nat, height as nat),
    {
        let mut blank_row = ColourString::empty();
        let mut j: usize = 0;
        while j < width as usize
            invariant
                j <= width,
                blank_row@ == Seq::new(j as nat, |k: int| blank_cell()),
            decreases width - j,
        {
            let blank = text_of(" ");
            proof {
                reveal_strlit(" ");
            }
            assert(blank@ =~= space());
            let c = Char { content: blank, colour: Info::plain() };
            blank_row.push_char(c);
            assert(blank_row@ =~= Seq::new((j + 1) as nat, |k: int| blank_cell()));
            j = j + 1;
        }
        let mut screen: Vec<ColourString> = Vec::new();
        let mut i: usize = 0;
        while i < height as usize
            invariant
                i <= height,
                screen@.len() == i,
                blank_row@ == Seq::new(width as nat, |k: int| blank_cell()),
                line_views(screen@) == blank_screen(width as nat, height as nat).take(i as int),
            decreases height - i,
        {
            let row = blank_row.duplicate();
            let ghost prev = screen@;
            screen.push(row);
            assert(line_views(screen@) =~= line_views(prev).push(blank_row@));
            assert(blank_screen(width as nat, height as nat)[i as int] =~= blank_row@);
            assert(line_views(screen@) =~= blank_screen(width as nat, height as nat).take(i + 1));
            i = i + 1;
        }
        assert(line_views(screen@) =~= blank_screen(width as nat, height as nat));
        let ghost all = layers(self.frames@);
        let n = self.frames.len();
        let mut k: usize = 0;
        while k < n
            invariant
                n == self.frames@.len(),
                all == layers(self.frames@),
                k <= n,
                screen_fits(line_views(screen@), height as nat),
                line_views(screen@) == blend_frames(
                    blank_screen(width as nat, height as nat),
                    all,
                    k as int,
                    self.overlay,
                    width as nat,
                    height as nat,
                ),
            decreases n - k,
        {
            let dim = self.overlay && k + 1 != n;
            blend_frame_into(&mut screen, &self.frames[k], dim, width, height);
            k = k + 1;
        }
        screen
    }

    /// Composes the registered frames into one text for the terminal, then
    /// empties the queue and clears the overlay for the next tick.
    pub fn render_frames(&mut self, width: u16, height: u16) -> (r: String)
        ensures
            r@ == trimmed_end(
                rendered(screen_cells(composed(layers(old(self).frames@), old(self).overlay, width as nat, height as nat))),
            ),
            final(self).frames@.len() == 0,
            !final(self).overlay,
    {
        let screen = self.compose(width, height);
        let text = ColourString::render_vector(screen);
        self.frames = Vec::new();
        self.overlay = false;
        text
    }
}

/// Overwriting rows leaves the screen's height and touches each row only
/// through the frame's row at the same index.
proof fn lemma_overwrite_rows(screen: Seq<Seq<Cell>>, frame: Layer, n: int, dim: bool, width: nat, height: nat)
    requires
        frame.push is None,
        screen.len() == height,
        0 <= n <= frame.rows.len(),
        n <= height,
    ensures
        blend_rows(screen, frame, n, dim, width, height).len() == height,
        forall|li: int| 0 <= li < height ==> #[trigger] blend_rows(screen, frame, n, dim, width, height)[li] == (
        if li < n && frame.rows[li].len() > 0 {
            overwritten(screen[li], dim_row(frame.rows[li], dim), frame.ignore_whitespace)
        } else {
            screen[li]
        }),
    decreases n,
{
    if n > 0 {
        lemma_overwrite_rows(screen, frame, n - 1, dim, width, height);
    }
}

/// Laying a frame over a screen of `height` rows leaves `height` rows.
proof fn lemma_blend_rows_height(screen: Seq<Seq<Cell>>, frame: Layer, n: int, dim: bool, width: nat, height: nat)
    requires
        screen.len() == height,
        n <= height,
    ensures
        blend_rows(screen, frame, n, dim, width, height).len() == height,
    decreases n,
{
    if n > 0 {
        lemma_blend_rows_height(screen, frame, n - 1, dim, width, height);
    }
}

proof fn lemma_blend_frames_height(
    screen: Seq<Seq<Cell>>,
    frames: Seq<Layer>,
    k: int,
    overlay: bool,
    width: nat,
    height: nat,
)
    requires
        screen.len() == height,
    ensures
        blend_frames(screen, frames, k, overlay, width, height).len() == height,
    decreases k,
{
    if k > 0 {
        lemma_blend_frames_height(screen, frames, k - 1, overlay, width, height);
        let prev = blend_frames(screen, frames, k - 1, overlay, width, height);
        let f = frames[k - 1];
        let n = if f.rows.len() < height { f.rows.len() as int } else { height as int };
        lemma_blend_rows_height(prev, f, n, overlay && k - 1 != frames.len() - 1, width, height);
    }
}

/// Without an overlay, the first frames are laid the same whatever frame
/// comes after them.
proof fn lemma_blend_frames_prefix(
    screen: Seq<Seq<Cell>>,
    frames: Seq<Layer>,
    last: Layer,
    k: int,
    width: nat,
    height: nat,
)
    requires
        k <= frames.len(),
    ensures
        blend_frames(screen, frames.push(last), k, false, width, height) == blend_frames(
            screen,
            frames,
            k,
            false,
            width,
            height,
        ),
    decreases k,
{
    if k > 0 {
        lemma_blend_frames_prefix(screen, frames, last, k - 1, width, height);
        assert(frames.push(last)[k - 1] == frames[k - 1]);
    }
}

/// A space is white space.
pub proof fn space_is_blank()
    ensures
        is_blank(space()),
{
    assert(white_space(space()[0]));
}

/// Laying a frame whose cells are all white space over a screen, without
/// forcing white space through, leaves the screen as it was.
pub proof fn blank_overwrite_keeps_screen(
    screen: Seq<Seq<Cell>>,
    frame: Layer,
    dim: bool,
    width: nat,
    height: nat,
)
    requires
        screen.len() == height,
        frame.push is None,
        !frame.ignore_whitespace,
        forall|i: int, k: int|
            0 <= i < frame.rows.len() && 0 <= k < frame.rows[i].len() ==> is_blank(#[trigger] frame.rows[i][k].text),
    ensures
        blend_frame(screen, frame, dim, width, height) == screen,
{
    let n = if frame.rows.len() < height { frame.rows.len() as int } else { height as int };
    lemma_overwrite_rows(screen, frame, n, dim, width, height);
    let after = blend_frame(screen, frame, dim, width, height);
    assert forall|li: int| 0 <= li < height implies #[trigger] after[li] == screen[li] by {
        if li < n && frame.rows[li].len() > 0 {
            let r = dim_row(frame.rows[li], dim);
            assert forall|k: int| 0 <= k < r.len() implies is_blank(#[trigger] r[k].text) by {
                assert(is_blank(frame.rows[li][k].text));
            }
            assert(overwritten(screen[li], r, false) =~= screen[li]);
        }
    }
    assert(after =~= screen);
}

/// Registering, last, an overwriting frame whose cells are all white space
/// (without forcing white space through) changes nothing on the composed
/// screen.
pub proof fn blank_frame_changes_nothing(frames: Seq<Layer>, last: Layer, width: nat, height: nat)
    requires
        last.push is None,
        !last.ignore_whitespace,
        forall|i: int, k: int|
            0 <= i < last.rows.len() && 0 <= k < last.rows[i].len() ==> is_blank(#[trigger] last.rows[i][k].text),
    ensures
        composed(frames.push(last), false, width, height) == composed(frames, false, width, height),
{
    let blank = blank_screen(width, height);
    let all = frames.push(last);
    lemma_blend_frames_prefix(blank, frames, last, frames.len() as int, width, height);
    lemma_blend_frames_height(blank, frames, frames.len() as int, false, width, height);
    assert(all[frames.len() as int] == last);
    blank_overwrite_keeps_screen(
        blend_frames(blank, frames, frames.len() as int, false, width, height),
        last,
        false,
        width,
        height,
    );
}

/// Pushing a one-row frame up puts its whole row on top of the screen; the
/// other rows move down one and the bottom row falls off.
pub proof fn push_up_puts_row_on_top(
    screen: Seq<Seq<Cell>>,
    row: Seq<Cell>,
    ignore_whitespace: bool,
    width: nat,
    height: nat,
)
    requires
        screen.len() == height,
        height >= 1,
        row.len() > 0,
    ensures
        blend_frame(screen, Layer { rows: seq![row], push: Some(PushDirection::Up), ignore_whitespace }, false, width, height)
            == seq![row] + screen.take(height - 1),
{
    let frame = Layer { rows: seq![row], push: Some(PushDirection::Up), ignore_whitespace };
    assert(dim_row(row, false) =~= row);
    assert(blend_rows(screen, frame, 0, false, width, height) == screen);
    assert((seq![row] + screen).take(height as int) =~= seq![row] + screen.take(height - 1));
}

/// Registering, last, a one-row frame pushed up puts its whole row on top
/// of the screen composed so far, which moves down one row and loses its
/// bottom row.
pub proof fn push_up_frame_goes_on_top(
    frames: Seq<Layer>,
    row: Seq<Cell>,
    ignore_whitespace: bool,
    width: nat,
    height: nat,
)
    requires
        height >= 1,
        row.len() > 0,
    ensures
        composed(
            frames.push(Layer { rows: seq![row], push: Some(PushDirection::Up), ignore_whitespace }),
            false,
            width,
            height,
        ) == seq![row] + composed(frames, false, width, height).take(height - 1),
{
    let last = Layer { rows: seq![row], push: Some(PushDirection::Up), ignore_whitespace };
    let blank = blank_screen(width, height);
    let all = frames.push(last);
    lemma_blend_frames_prefix(blank, frames, last, frames.len() as int, width, height);
    lemma_blend_frames_height(blank, frames, frames.len() as int, false, width, height);
    assert(all[frames.len() as int] == last);
    push_up_puts_row_on_top(
        blend_frames(blank, frames, frames.len() as int, false, width, height),
        row,
        ignore_whitespace,
        width,
        height,
    );
}

/// Under an overlay, of two frames the first is laid dimmed and the last
/// as it is.
pub proof fn overlay_dims_all_but_last(
    screen: Seq<Seq<Cell>>,
    first: Layer,
    last: Layer,
    width: nat,
    height: nat,
)
    ensures
        blend_frames(screen, seq![first, last], 2, true, width, height) == blend_frame(
            blend_frame(screen, first, true, width, height),
            last,
            false,
            width,
            height,
        ),
{
    let frames = seq![first, last];
    assert(blend_frames(screen, frames, 0, true, width, height) == screen);
    assert(frames[0] == first);
    assert(frames[1] == last);
    assert(blend_frames(screen, frames, 1, true, width, height) == blend_frame(screen, first, true, width, height));
}

/// Under an overlay, each cell an overwriting frame (not the last) puts on
/// screen keeps its text and takes the dim style, unless it is the block
/// glyph.
pub proof fn overlay_first_frame_cells_dimmed(
    screen: Seq<Seq<Cell>>,
    frame: Layer,
    width: nat,
    height: nat,
    li: int,
    k: int,
)
    requires
        screen_fits(screen, height),
        frame.push is None,
        0 <= li < frame.rows.len(),
        li < height,
        0 <= k < frame.rows[li].len(),
        k < screen[li].len(),
        frame.ignore_whitespace || !is_blank(frame.rows[li][k].text),
        frame.rows[li][k].text != block_glyph(),
    ensures
        blend_frame(screen, frame, true, width, height)[li][k] == (Cell {
            text: frame.rows[li][k].text,
            style: dim_style(),
        }),
        blend_frame(screen, frame, true, width, height).len() == height,
        blend_frame(screen, frame, true, width, height)[li].len() == screen[li].len(),
{
    let n = if frame.rows.len() < height { frame.rows.len() as int } else { height as int };
    lemma_overwrite_rows(screen, frame, n, true, width, height);
}

/// Under an overlay, a cell that the first of two overwriting frames puts
/// on screen, and that the last frame leaves alone, shows on the composed
/// screen with its text in the dim style, whatever its own style, unless it
/// is the block glyph.
pub proof fn overlay_dims_cells_behind(first: Layer, last: Layer, width: nat, height: nat, li: int, k: int)
    requires
        first.push is None,
        last.push is None,
        0 <= li < first.rows.len(),
        li < height,
        0 <= k < first.rows[li].len(),
        k < width,
        first.ignore_whitespace || !is_blank(first.rows[li][k].text),
        first.rows[li][k].text != block_glyph(),
        !(li < last.rows.len() && k < last.rows[li].len() && (last.ignore_whitespace || !is_blank(
            last.rows[li][k].text,
        ))),
    ensures
        composed(seq![first, last], true, width, height)[li][k] == (Cell {
            text: first.rows[li][k].text,
            style: dim_style(),
        }),
{
    let blank = blank_screen(width, height);
    overlay_dims_all_but_last(blank, first, last, width, height);
    assert(blank[li].len() == width);
    overlay_first_frame_cells_dimmed(blank, first, width, height, li, k);
    let behind = blend_frame(blank, first, true, width, height);
    let n = if last.rows.len() < height { last.rows.len() as int } else { height as int };
    lemma_overwrite_rows(behind, last, n, false, width, height);
    if li < n && last.rows[li].len() > 0 {
        let r = dim_row(last.rows[li], false);
        if k < r.len() {
            assert(r[k] == last.rows[li][k]);
        }
    }
}

/// A pane that draws a frame each tick.
#[derive(Clone, Copy, Debug, PartialEq, Eq, Structural)]
pub enum Pane {
    Home,
    File,
    FileExplorer,
    Tabs,
    StatusBar,
    CommandPalette,
}

/// One frame of a tick: the pane that draws it and how it is laid.
#[derive(Clone, Copy, Debug, PartialEq, Eq, Structural)]
pub struct Slot {
    pub pane: Pane,
    pub push: Option<PushDirection>,
    pub ignore_whitespace: bool,
}

pub open spec fn slot(pane: Pane, push: Option<PushDirection>, ignore_whitespace: bool) -> Slot {
    Slot { pane, push, ignore_whitespace }
}

/// The frames of a tick, back to front: the current file (or the home
/// screen), the file explorer sliding in from the left when shown, the tab
/// bar pushed on top when files are open, the status bar with its spaces
/// drawn, and the command palette last when it is open.
pub open spec fn tick_slots(has_files: bool, explorer_enabled: bool, palette_enabled: bool) -> Seq<Slot> {
    seq![slot(if has_files { Pane::File } else { Pane::Home }, None, false)] + (if explorer_enabled && has_files {
        seq![slot(Pane::FileExplorer, Some(PushDirection::Left), false)]
    } else {
        Seq::empty()
    }) + (if has_files {
        seq![slot(Pane::Tabs, Some(PushDirection::Up), false)]
    } else {
        Seq::empty()
    }) + seq![slot(Pane::StatusBar, None, true)] + (if palette_enabled {
        seq![slot(Pane::CommandPalette, None, false)]
    } else {
        Seq::empty()
    })
}

/// The frames to register this tick, in order, and whether the tick is an
/// overlay tick (the command palette is drawn last, over the others).
pub fn tick_layout(has_files: bool, explorer_enabled: bool, palette_enabled: bool) -> (r: (Vec<Slot>, bool))
    ensures
        r.0@ == tick_slots(has_files, explorer_enabled, palette_enabled),
        r.1 == palette_enabled,
{
    let mut slots: Vec<Slot> = Vec::new();
    slots.push(Slot { pane: if has_files { Pane::File } else { Pane::Home }, push: None, ignore_whitespace: false });
    if explorer_enabled && has_files {
        slots.push(Slot { pane: Pane::FileExplorer, push: Some(PushDirection::Left), ignore_whitespace: false });
    }
    if has_files {
        slots.push(Slot { pane: Pane::Tabs, push: Some(PushDirection::Up), ignore_whitespace: false });
    }
    slots.push(Slot { pane: Pane::StatusBar, push: None, ignore_whitespace: true });
    if palette_enabled {
        slots.push(Slot { pane: Pane::CommandPalette, push: None, ignore_whitespace: false });
    }
    assert(slots@ =~= tick_slots(has_files, explorer_enabled, palette_enabled));
    (slots, palette_enabled)
}

} // verus!
