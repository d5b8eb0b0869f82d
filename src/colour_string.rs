//! Styled text: a row of grapheme cells, each with its colours and
//! attributes, its edits, and its rendering as terminal escape sequences.

use crossterm::style::{
    Attribute as TermAttribute, Color, ResetColor, SetAttribute, SetBackgroundColor, SetForegroundColor,
};
use crossterm::Command;
use unicode_segmentation::UnicodeSegmentation;
use vstd::prelude::*;
use vstd::string::*;
use crate::window::{is_whitespace, white_space};

verus! {

/// A terminal colour: the terminal default, an entry of the 256-colour
/// palette, or a 24-bit colour.
#[derive(Clone, Copy, Debug, PartialEq, Eq, Structural)]
pub enum Colour {
    Reset,
    Ansi(u8),
    Rgb(u8, u8, u8),
}

/// Palette indices of the named colours this editor draws with.
pub const BLACK: u8 = 0;

pub const DARK_GREY: u8 = 8;

pub const RED: u8 = 9;

pub const GREEN: u8 = 10;

pub const WHITE: u8 = 15;

/// A text attribute applied on top of the colours.
#[derive(Clone, Copy, Debug, PartialEq, Eq, Structural)]
pub enum Attribute {
    Bold,
    Dim,
    Italic,
    Underlined,
    SlowBlink,
    RapidBlink,
    Reverse,
    Hidden,
    CrossedOut,
}

/// The mathematical value of a style.
pub struct Style {
    pub foreground: Colour,
    pub background: Colour,
    pub attributes: Seq<Attribute>,
}

/// The mathematical value of a cell: one grapheme cluster and its style.
pub struct Cell {
    pub text: Seq<char>,
    pub style: Style,
}

/// Foreground, background and attributes of a run of text.
#[derive(Clone, Debug, PartialEq, Eq)]
pub struct Info {
    pub foreground: Colour,
    pub background: Colour,
    pub attributes: Vec<Attribute>,
}

/// One terminal column: a grapheme cluster and its style.
#[derive(Clone, Debug, PartialEq, Eq)]
pub struct Char {
    pub content: String,
    pub colour: Info,
}

/// A row of styled grapheme cells.
#[derive(Clone, Debug, PartialEq, Eq)]
pub struct ColourString {
    content: Vec<Char>,
}

impl View for Info {
    type V = Style;

    open spec fn view(&self) -> Style {
        Style { foreground: self.foreground, background: self.background, attributes: self.attributes@ }
    }
}

impl View for Char {
    type V = Cell;

    open spec fn view(&self) -> Cell {
        Cell { text: self.content@, style: self.colour@ }
    }
}

impl View for ColourString {
    type V = Seq<Cell>;

    closed spec fn view(&self) -> Seq<Cell> {
        self.content@.map_values(|c: Char| c@)
    }
}

/// White on the terminal's default background, with no attributes.
pub open spec fn default_style() -> Style {
    Style { foreground: Colour::Ansi(WHITE), background: Colour::Reset, attributes: Seq::empty() }
}

/// The style given, or the default style.
pub open spec fn style_or_default(colour: Option<Info>) -> Style {
    match colour {
        Some(info) => info@,
        None => default_style(),
    }
}

/// Cells holding the given texts, all in one style.
pub open spec fn cells_of(texts: Seq<Seq<char>>, style: Style) -> Seq<Cell> {
    texts.map_values(|t: Seq<char>| Cell { text: t, style: style })
}

/// The values of a sequence of cells.
pub open spec fn views(v: Seq<Char>) -> Seq<Cell> {
    v.map_values(|c: Char| c@)
}

/// The first `n` cells, or all of them when there are fewer.
pub open spec fn truncated(s: Seq<Cell>, n: int) -> Seq<Cell> {
    if n < s.len() {
        s.take(n)
    } else {
        s
    }
}

/// The cells from index `n` on; none when `n` is past the end.
pub open spec fn skipped(s: Seq<Cell>, n: int) -> Seq<Cell> {
    if n < s.len() {
        s.skip(n)
    } else {
        Seq::empty()
    }
}

/// `n` clamped into `[lo, hi]`, where `lo <= hi`.
pub open spec fn clamp(n: int, lo: int, hi: int) -> int {
    if n < lo {
        lo
    } else if n > hi {
        hi
    } else {
        n
    }
}

/// Appends copies of `src[from..to]` to `out`.
fn extend_cells(out: &mut Vec<Char>, src: &Vec<Char>, from: usize, to: usize)
    requires
        from <= to <= src@.len(),
    ensures
        views(final(out)@) == views(old(out)@) + views(src@).subrange(from as int, to as int),
{
    let ghost start = out@;
    let mut i: usize = from;
    while i < to
        invariant
            from <= i <= to <= src@.len(),
            out@.len() == start.len() + (i - from),
            views(out@) == views(start) + views(src@).subrange(from as int, i as int),
        decreases to - i,
    {
        let c = src[i].duplicate();
        let ghost prev = out@;
        out.push(c);
        assert(views(out@) =~= views(prev).push(c@));
        assert(views(src@).subrange(from as int, i + 1) =~= views(src@).subrange(from as int, i as int).push(src@[i as int]@));
        i = i + 1;
    }
}

/// The text of a row of cells.
pub open spec fn line_text(cells: Seq<Cell>) -> Seq<char>
    decreases cells.len(),
{
    if cells.len() == 0 {
        Seq::empty()
    } else {
        line_text(cells.drop_last()) + cells.last().text
    }
}

/// The number of leading cells that share the first cell's style.
pub open spec fn run_length(cells: Seq<Cell>) -> nat
    decreases cells.len(),
{
    if cells.len() <= 1 {
        cells.len()
    } else if cells[1].style == cells[0].style {
        1 + run_length(cells.skip(1))
    } else {
        1
    }
}

/// The escape sequence that sets the foreground colour.
pub uninterp spec fn foreground_code(colour: Colour) -> Seq<char>;

/// The escape sequence that sets the background colour.
pub uninterp spec fn background_code(colour: Colour) -> Seq<char>;

/// The escape sequence that switches an attribute on.
pub uninterp spec fn attribute_code(attribute: Attribute) -> Seq<char>;

/// The escape sequence that resets colours and attributes.
pub open spec fn reset_code() -> Seq<char> {
    seq!['\x1b', '[', '0', 'm']
}

/// The sequences that switch each attribute on, in turn.
pub open spec fn attribute_codes(attributes: Seq<Attribute>) -> Seq<char>
    decreases attributes.len(),
{
    if attributes.len() == 0 {
        Seq::empty()
    } else {
        attribute_codes(attributes.drop_last()) + attribute_code(attributes.last())
    }
}

/// One run of text in one style, as sent to the terminal: the background,
/// the foreground and each attribute set once, the text, then a reset of
/// everything after attributes, or of the two colours otherwise.
pub open spec fn styled(text: Seq<char>, style: Style) -> Seq<char> {
    background_code(style.background) + foreground_code(style.foreground) + attribute_codes(style.attributes) + text
        + if style.attributes.len() == 0 {
        background_code(Colour::Reset) + foreground_code(Colour::Reset)
    } else {
        reset_code()
    }
}

/// A row of cells as sent to the terminal: one styled chunk for each
/// maximal run of consecutive cells that share a style.
pub open spec fn rendered(cells: Seq<Cell>) -> Seq<char>
    decreases cells.len(),
{
    if cells.len() == 0 {
        Seq::empty()
    } else {
        let k = run_length(cells);
        if 1 <= k <= cells.len() {
            styled(line_text(cells.take(k as int)), cells[0].style) + rendered(cells.skip(k as int))
        } else {
            Seq::empty()
        }
    }
}

/// A run ends at the first cell whose style differs from the first cell's.
proof fn lemma_run_length(cells: Seq<Cell>, j: int)
    requires
        1 <= j <= cells.len(),
        forall|k: int| 0 <= k < j ==> #[trigger] cells[k].style == cells[0].style,
        j == cells.len() || cells[j].style != cells[0].style,
    ensures
        run_length(cells) == j,
    decreases cells.len(),
{
    if cells.len() > 1 {
        if cells[1].style == cells[0].style {
            let rest = cells.skip(1);
            assert forall|k: int| 0 <= k < j - 1 implies #[trigger] rest[k].style == rest[0].style by {
                assert(cells[k + 1].style == cells[0].style);
            }
            lemma_run_length(rest, j - 1);
        }
    }
}

/// Relies on crossterm's `SetForegroundColor::write_ansi`, which only
/// formats the colour's code: a function of the colour alone.
#[verifier::external_body]
fn set_foreground(colour: Colour) -> (r: String)
    ensures
        r@ == foreground_code(colour),
{
    let c = match colour {
        Colour::Reset => Color::Reset,
        Colour::Ansi(v) => Color::AnsiValue(v),
        Colour::Rgb(r, g, b) => Color::Rgb { r, g, b },
    };
    let mut out = String::new();
    let _ = SetForegroundColor(c).write_ansi(&mut out);
    out
}

/// Relies on crossterm's `SetBackgroundColor::write_ansi`, which only
/// formats the colour's code: a function of the colour alone.
#[verifier::external_body]
fn set_background_colour(colour: Colour) -> (r: String)
    ensures
        r@ == background_code(colour),
{
    let c = match colour {
        Colour::Reset => Color::Reset,
        Colour::Ansi(v) => Color::AnsiValue(v),
        Colour::Rgb(r, g, b) => Color::Rgb { r, g, b },
    };
    let mut out = String::new();
    let _ = SetBackgroundColor(c).write_ansi(&mut out);
    out
}

/// Relies on crossterm's `SetAttribute::write_ansi`, which only formats the
/// attribute's SGR code: a function of the attribute alone.
#[verifier::external_body]
fn set_attribute(attribute: Attribute) -> (r: String)
    ensures
        r@ == attribute_code(attribute),
{
    let a = match attribute {
        Attribute::Bold => TermAttribute::Bold,
        Attribute::Dim => TermAttribute::Dim,
        Attribute::Italic => TermAttribute::Italic,
        Attribute::Underlined => TermAttribute::Underlined,
        Attribute::SlowBlink => TermAttribute::SlowBlink,
        Attribute::RapidBlink => TermAttribute::RapidBlink,
        Attribute::Reverse => TermAttribute::Reverse,
        Attribute::Hidden => TermAttribute::Hidden,
        Attribute::CrossedOut => TermAttribute::CrossedOut,
    };
    let mut out = String::new();
    let _ = SetAttribute(a).write_ansi(&mut out);
    out
}

/// Relies on crossterm's `ResetColor::write_ansi`, which writes `ESC [ 0 m`.
#[verifier::external_body]
fn reset_all() -> (r: String)
    ensures
        r@ == reset_code(),
{
    let mut out = String::new();
    let _ = ResetColor.write_ansi(&mut out);
    out
}

/// One run of text in one style, as sent to the terminal.
fn style_text(text: &String, style: &Info) -> (r: String)
    ensures
        r@ == styled(text@, style@),
{
    let mut out = set_background_colour(style.background);
    out.append(set_foreground(style.foreground).as_str());
    let ghost head = out@;
    let attrs = &style.attributes;
    let mut i: usize = 0;
    assert(attrs@.take(0) =~= Seq::<Attribute>::empty());
    while i < attrs.len()
        invariant
            i <= attrs@.len(),
            out@ == head + attribute_codes(attrs@.take(i as int)),
        decreases attrs@.len() - i,
    {
        assert(attrs@.take(i + 1).drop_last() =~= attrs@.take(i as int));
        out.append(set_attribute(attrs[i]).as_str());
        i = i + 1;
    }
    assert(attrs@.take(i as int) =~= attrs@);
    out.append(text.as_str());
    if attrs.len() == 0 {
        out.append(set_background_colour(Colour::Reset).as_str());
        out.append(set_foreground(Colour::Reset).as_str());
    } else {
        out.append(reset_all().as_str());
    }
    out
}

/// Cells of `s` with the cells in `[start, end)` restyled.
pub open spec fn recoloured(s: Seq<Cell>, style: Style, start: int, end: int) -> Seq<Cell> {
    Seq::new(s.len(), |i: int| if start <= i < end { Cell { text: s[i].text, style: style } } else { s[i] })
}

/// The texts of a row of cells.
pub open spec fn texts(cells: Seq<Cell>) -> Seq<Seq<char>> {
    cells.map_values(|c: Cell| c.text)
}

/// `cells` with each leftmost, non-overlapping run of cells whose texts are
/// `pattern` replaced by `replacement`; an empty pattern matches nothing.
pub open spec fn replaced(cells: Seq<Cell>, pattern: Seq<Seq<char>>, replacement: Seq<Cell>) -> Seq<Cell>
    decreases cells.len(),
{
    if pattern.len() == 0 || cells.len() < pattern.len() {
        cells
    } else if texts(cells.take(pattern.len() as int)) == pattern {
        replacement + replaced(cells.skip(pattern.len() as int), pattern, replacement)
    } else {
        seq![cells[0]] + replaced(cells.skip(1), pattern, replacement)
    }
}

/// Start positions of the leftmost, non-overlapping occurrences of a
/// non-empty `pattern` in `text` from position `from` on.
pub open spec fn occurrences(text: Seq<char>, pattern: Seq<char>, from: int) -> Seq<int>
    decreases text.len() - from,
{
    if pattern.len() == 0 || from < 0 || from + pattern.len() > text.len() {
        Seq::empty()
    } else if text.subrange(from, from + pattern.len()) == pattern {
        seq![from] + occurrences(text, pattern, from + pattern.len())
    } else {
        occurrences(text, pattern, from + 1)
    }
}

/// Whether the character span `[a, b)` meets one of the spans of length
/// `len` starting at `starts`.
pub open spec fn meets_any(starts: Seq<int>, len: int, a: int, b: int) -> bool {
    exists|m: int| 0 <= m < starts.len() && #[trigger] starts[m] < b && a < starts[m] + len
}

/// Position in the line's text at which cell `k` starts.
pub open spec fn cell_start(cells: Seq<Cell>, k: int) -> int {
    line_text(cells.take(k)).len() as int
}

/// `cells` with every cell that overlaps an occurrence of `pattern` in the
/// line's text restyled.
pub open spec fn pattern_recoloured(cells: Seq<Cell>, pattern: Seq<char>, style: Style) -> Seq<Cell> {
    let found = occurrences(line_text(cells), pattern, 0);
    Seq::new(
        cells.len(),
        |k: int|
            if meets_any(found, pattern.len() as int, cell_start(cells, k), cell_start(cells, k + 1)) {
                Cell { text: cells[k].text, style: style }
            } else {
                cells[k]
            },
    )
}

/// The characters of a text.
pub(crate) fn chars_of(s: &str) -> (r: Vec<char>)
    ensures
        r@ == s@,
{
    let n = s.unicode_len();
    let mut out: Vec<char> = Vec::new();
    let mut i: usize = 0;
    while i < n
        invariant
            n == s@.len(),
            i <= n,
            out@ == s@.take(i as int),
        decreases n - i,
    {
        out.push(s.get_char(i));
        assert(s@.take(i + 1) =~= s@.take(i as int).push(s@[i as int]));
        i = i + 1;
    }
    assert(s@.take(n as int) =~= s@);
    out
}

/// Whether the cells `[i, i + pattern.len())` hold the texts of `pattern`.
fn matches_at(cells: &Vec<Char>, i: usize, pattern: &Vec<String>) -> (r: bool)
    requires
        i + pattern@.len() <= cells@.len(),
    ensures
        r == (texts(views(cells@).subrange(i as int, i + pattern@.len())) == pattern@.map_values(|g: String| g@)),
{
    let ghost want = pattern@.map_values(|g: String| g@);
    let ghost have = texts(views(cells@).subrange(i as int, i + pattern@.len()));
    let total = cells.len();
    let mut k: usize = 0;
    while k < pattern.len()
        invariant
            total == cells@.len(),
            i + pattern@.len() <= cells@.len(),
            k <= pattern@.len(),
            have.len() == want.len(),
            have == texts(views(cells@).subrange(i as int, i + pattern@.len())),
            want == pattern@.map_values(|g: String| g@),
            forall|j: int| 0 <= j < k ==> have[j] == want[j],
        decreases pattern@.len() - k,
    {
        if cells[i + k].content != pattern[k] {
            assert(have[k as int] != want[k as int]);
            return false;
        }
        k = k + 1;
    }
    assert(have =~= want);
    true
}

/// Whether `text[from..from + pattern.len())` is `pattern`.
fn text_matches_at(text: &Vec<char>, from: usize, pattern: &Vec<char>) -> (r: bool)
    requires
        from + pattern@.len() <= text@.len(),
    ensures
        r == (text@.subrange(from as int, from + pattern@.len()) == pattern@),
{
    let total = text.len();
    let mut k: usize = 0;
    while k < pattern.len()
        invariant
            total == text@.len(),
            from + pattern@.len() <= text@.len(),
            k <= pattern@.len(),
            forall|j: int| 0 <= j < k ==> text@[from + j] == pattern@[j],
        decreases pattern@.len() - k,
    {
        if text[from + k] != pattern[k] {
            assert(text@.subrange(from as int, from + pattern@.len())[k as int] != pattern@[k as int]);
            return false;
        }
        k = k + 1;
    }
    assert(text@.subrange(from as int, from + pattern@.len()) =~= pattern@);
    true
}

/// Every occurrence found from `from` on lies within the text.
proof fn lemma_occurrences_in_text(text: Seq<char>, pattern: Seq<char>, from: int)
    ensures
        forall|m: int| 0 <= m < occurrences(text, pattern, from).len() ==> from <= #[trigger] occurrences(text, pattern, from)[m]
            && occurrences(text, pattern, from)[m] + pattern.len() <= text.len(),
    decreases text.len() - from,
{
    if pattern.len() == 0 || from < 0 || from + pattern.len() > text.len() {
    } else if text.subrange(from, from + pattern.len()) == pattern {
        let next = from + pattern.len();
        lemma_occurrences_in_text(text, pattern, next);
        let all = occurrences(text, pattern, from);
        assert(all == seq![from] + occurrences(text, pattern, next));
        assert forall|m: int| 0 <= m < all.len() implies from <= #[trigger] all[m] && all[m] + pattern.len()
            <= text.len() by {
            if m > 0 {
                assert(all[m] == occurrences(text, pattern, next)[m - 1]);
            }
        }
    } else {
        lemma_occurrences_in_text(text, pattern, from + 1);
        let all = occurrences(text, pattern, from);
        assert(all == occurrences(text, pattern, from + 1));
        assert forall|m: int| 0 <= m < all.len() implies from <= #[trigger] all[m] && all[m] + pattern.len()
            <= text.len() by {
            assert(all[m] == occurrences(text, pattern, from + 1)[m]);
        }
    }
}

/// The number of `;` in a text.
pub open spec fn semicolons(s: Seq<char>) -> int
    decreases s.len(),
{
    if s.len() == 0 {
        0
    } else {
        semicolons(s.drop_last()) + if s.last() == ';' { 1int } else { 0int }
    }
}

/// The `k`-th `;`-separated field of a text; empty where there is none.
pub open spec fn field(s: Seq<char>, k: int) -> Seq<char>
    decreases s.len(),
{
    if s.len() == 0 {
        Seq::empty()
    } else if s.last() != ';' && semicolons(s.drop_last()) == k {
        field(s.drop_last(), k).push(s.last())
    } else {
        field(s.drop_last(), k)
    }
}

pub open spec fn is_digit(c: char) -> bool {
    '0' <= c <= '9'
}

pub open spec fn all_digits(s: Seq<char>) -> bool {
    forall|i: int| 0 <= i < s.len() ==> is_digit(#[trigger] s[i])
}

/// A text without its leading `+`, if it has one.
pub open spec fn without_plus(s: Seq<char>) -> Seq<char> {
    if s.len() > 0 && s[0] == '+' {
        s.skip(1)
    } else {
        s
    }
}

/// The value of a run of decimal digits.
pub open spec fn decimal(s: Seq<char>) -> int
    decreases s.len(),
{
    if s.len() == 0 {
        0
    } else {
        decimal(s.drop_last()) * 10 + (s.last() as int - '0' as int)
    }
}

/// The number a text spells as a `u8` (an optional `+`, then one or more
/// decimal digits, at most 255), or 0 where it spells none.
pub open spec fn byte_or_zero(s: Seq<char>) -> u8 {
    let digits = without_plus(s);
    if digits.len() > 0 && all_digits(digits) && decimal(digits) <= 255 {
        decimal(digits) as u8
    } else {
        0
    }
}

/// The colour an escape sequence selects: its last three `;`-separated
/// fields read as red, green and blue, a missing field counting as 0.
/// `body` runs from the escape character up to, not including, the closing
/// `m`.
pub open spec fn escape_style(body: Seq<char>) -> Style {
    let last = semicolons(body);
    Style {
        foreground: Colour::Rgb(
            byte_or_zero(field(body, last - 2)),
            byte_or_zero(field(body, last - 1)),
            byte_or_zero(field(body, last)),
        ),
        background: Colour::Reset,
        attributes: Seq::empty(),
    }
}

pub open spec fn escape_char() -> char {
    '\x1b'
}

/// The cells read from `s[i..]`, where `escape` is where an unfinished
/// escape sequence started and `style` the colour in force: escape
/// sequences are dropped and set the colour; every other character becomes
/// one cell.
pub open spec fn ansi_cells(s: Seq<char>, i: int, escape: Option<int>, style: Style) -> Seq<Cell>
    decreases s.len() - i,
{
    if i < 0 || i >= s.len() {
        Seq::empty()
    } else if s[i] == escape_char() {
        ansi_cells(s, i + 1, Some(i), style)
    } else {
        match escape {
            Some(e) => if s[i] == 'm' {
                ansi_cells(s, i + 1, None, escape_style(s.subrange(e, i)))
            } else {
                ansi_cells(s, i + 1, escape, style)
            },
            None => seq![Cell { text: seq![s[i]], style: style }] + ansi_cells(s, i + 1, None, style),
        }
    }
}

proof fn lemma_decimal_grows(s: Seq<char>, k: int)
    requires
        0 <= k <= s.len(),
        forall|i: int| 0 <= i < s.len() ==> is_digit(#[trigger] s[i]),
    ensures
        decimal(s) >= decimal(s.take(k)),
        decimal(s) >= 0,
    decreases s.len(),
{
    if s.len() > 0 {
        let d = s.drop_last();
        assert forall|i: int| 0 <= i < d.len() implies is_digit(#[trigger] d[i]) by {
            assert(d[i] == s[i]);
        }
        if k == s.len() {
            assert(s.take(k) =~= s);
            lemma_decimal_grows(d, 0);
        } else {
            assert(s.take(k) =~= d.take(k));
            lemma_decimal_grows(d, k);
        }
    } else {
        assert(s.take(k) =~= s);
    }
}

/// The number `s` spells as a `u8`, or 0; what `str::parse::<u8>` gives
/// with 0 in place of an error.
fn parse_byte_or_zero(s: &Vec<char>) -> (r: u8)
    ensures
        r == byte_or_zero(s@),
{
    let n = s.len();
    let start: usize = if n > 0 && s[0] == '+' { 1 } else { 0 };
    let ghost digits = without_plus(s@);
    assert(digits =~= s@.skip(start as int));
    if start >= n {
        return 0;
    }
    let mut value: u32 = 0;
    let mut j: usize = start;
    assert(digits.take(0) =~= Seq::<char>::empty());
    while j < n
        invariant
            n == s@.len(),
            start <= j <= n,
            digits == s@.skip(start as int),
            digits == without_plus(s@),
            value <= 255,
            value == decimal(digits.take(j - start)),
            forall|i: int| 0 <= i < j - start ==> is_digit(#[trigger] digits[i]),
        decreases n - j,
    {
        let c = s[j];
        assert(digits[j - start] == c);
        if !('0' <= c && c <= '9') {
            assert(!is_digit(digits[j - start]));
            assert(!all_digits(digits));
            return 0;
        }
        assert(digits.take(j - start + 1).drop_last() =~= digits.take(j - start));
        let d = (c as u32) - ('0' as u32);
        value = value * 10 + d;
        assert(value == decimal(digits.take(j - start + 1)));
        if value > 255 {
            proof {
                if all_digits(digits) {
                    lemma_decimal_grows(digits, j - start + 1);
                }
            }
            return 0;
        }
        j = j + 1;
    }
    assert(digits.take(n - start) =~= digits);
    value as u8
}

/// The style the escape sequence `text[from..to)` selects.
fn escape_colour(text: &Vec<char>, from: usize, to: usize) -> (r: Info)
    requires
        from <= to <= text@.len(),
    ensures
        r@ == escape_style(text@.subrange(from as int, to as int)),
{
    // How many separators the body has, and so which fields are the last three.
    let mut total: usize = 0;
    let mut j: usize = from;
    assert(text@.subrange(from as int, from as int) =~= Seq::<char>::empty());
    while j < to
        invariant
            from <= j <= to <= text@.len(),
            total <= j - from,
            total == semicolons(text@.subrange(from as int, j as int)),
        decreases to - j,
    {
        assert(text@.subrange(from as int, j + 1).drop_last() =~= text@.subrange(from as int, j as int));
        if text[j] == ';' {
            total = total + 1;
        }
        j = j + 1;
    }
    let ghost body = text@.subrange(from as int, to as int);
    let ghost last = total as int;
    let mut red: Vec<char> = Vec::new();
    let mut green: Vec<char> = Vec::new();
    let mut blue: Vec<char> = Vec::new();
    let mut semis: usize = 0;
    j = from;
    while j < to
        invariant
            from <= j <= to <= text@.len(),
            last == total,
            semis <= j - from,
            semis == semicolons(text@.subrange(from as int, j as int)),
            red@ == field(text@.subrange(from as int, j as int), last - 2),
            green@ == field(text@.subrange(from as int, j as int), last - 1),
            blue@ == field(text@.subrange(from as int, j as int), last),
        decreases to - j,
    {
        let c = text[j];
        assert(text@.subrange(from as int, j + 1).drop_last() =~= text@.subrange(from as int, j as int));
        if c == ';' {
            semis = semis + 1;
        } else if total >= 2 && semis == total - 2 {
            red.push(c);
        } else if total >= 1 && semis == total - 1 {
            green.push(c);
        } else if semis == total {
            blue.push(c);
        }
        j = j + 1;
    }
    assert(last == semicolons(body));
    let r = parse_byte_or_zero(&red);
    let g = parse_byte_or_zero(&green);
    let b = parse_byte_or_zero(&blue);
    let info = Info { foreground: Colour::Rgb(r, g, b), background: Colour::Reset, attributes: Vec::new() };
    assert(info@.attributes =~= Seq::<Attribute>::empty());
    info
}

pub open spec fn start_as_int(escape: Option<usize>) -> Option<int> {
    match escape {
        Some(e) => Some(e as int),
        None => None,
    }
}

/// The values of a sequence of lines.
pub open spec fn line_views(lines: Seq<ColourString>) -> Seq<Seq<Cell>> {
    lines.map_values(|l: ColourString| l@)
}

/// The lines one after another with `separator` between each two.
pub open spec fn joined(lines: Seq<Seq<Cell>>, separator: Seq<Cell>) -> Seq<Cell>
    decreases lines.len(),
{
    if lines.len() == 0 {
        Seq::empty()
    } else if lines.len() == 1 {
        lines[0]
    } else {
        joined(lines.drop_last(), separator) + separator + lines.last()
    }
}

pub open spec fn crlf() -> Seq<char> {
    seq!['\r', '\n']
}

/// The line break cell after a line: CR LF in the style of the line's
/// last cell, or in the default style after an empty line.
pub open spec fn line_break(line: Seq<Cell>) -> Cell {
    Cell { text: crlf(), style: if line.len() == 0 { default_style() } else { line.last().style } }
}

/// The lines one after another with a line break between each two.
pub open spec fn screen_cells(lines: Seq<Seq<Cell>>) -> Seq<Cell>
    decreases lines.len(),
{
    if lines.len() == 0 {
        Seq::empty()
    } else if lines.len() == 1 {
        lines[0]
    } else {
        screen_cells(lines.drop_last()) + seq![line_break(lines[lines.len() - 2])] + lines.last()
    }
}

/// A text without its trailing white space, as std's `str::trim_end`
/// gives it.
pub open spec fn trimmed_end(s: Seq<char>) -> Seq<char>
    decreases s.len(),
{
    if s.len() > 0 && white_space(s.last()) {
        trimmed_end(s.drop_last())
    } else {
        s
    }
}

/// A text without its leading white space, as std's `str::trim_start`
/// gives it.
pub open spec fn trimmed_start(s: Seq<char>) -> Seq<char>
    decreases s.len(),
{
    if s.len() > 0 && white_space(s[0]) {
        trimmed_start(s.skip(1))
    } else {
        s
    }
}

/// The text without its trailing white space.
pub(crate) fn trim_end(s: &str) -> (r: String)
    ensures
        r@ == trimmed_end(s@),
{
    let cs = chars_of(s);
    let mut k: usize = cs.len();
    assert(s@.take(k as int) =~= s@);
    while k > 0 && is_whitespace(cs[k - 1])
        invariant
            cs@ == s@,
            k <= s@.len(),
            trimmed_end(s@) == trimmed_end(s@.take(k as int)),
        decreases k,
    {
        assert(s@.take(k as int).drop_last() =~= s@.take(k - 1));
        k = k - 1;
    }
    assert(k == 0 ==> s@.take(k as int) =~= Seq::<char>::empty());
    String::from_str(s.substring_char(0, k))
}

/// The text without its leading white space.
pub(crate) fn trim_start(s: &str) -> (r: String)
    ensures
        r@ == trimmed_start(s@),
{
    let cs = chars_of(s);
    let n = cs.len();
    let mut j: usize = 0;
    assert(s@.skip(0) =~= s@);
    while j < n && is_whitespace(cs[j])
        invariant
            cs@ == s@,
            n == s@.len(),
            j <= n,
            trimmed_start(s@) == trimmed_start(s@.skip(j as int)),
        decreases n - j,
    {
        assert(s@.skip(j as int).skip(1) =~= s@.skip(j + 1));
        j = j + 1;
    }
    assert(s@.skip(j as int) =~= s@.subrange(j as int, n as int));
    String::from_str(s.substring_char(j, n))
}

/// The extended grapheme clusters of a text, in order.
pub uninterp spec fn grapheme_clusters(s: Seq<char>) -> Seq<Seq<char>>;

/// Relies on `UnicodeSegmentation::graphemes` (extended clusters) of
/// unicode-segmentation: the clusters of the text, in order; they are
/// consecutive non-empty slices that together make up the text.
#[verifier::external_body]
pub(crate) fn graphemes(s: &str) -> (r: Vec<String>)
    ensures
        r@.map_values(|g: String| g@) == grapheme_clusters(s@),
        crate::editor::concat_all(r@.map_values(|g: String| g@)) == s@,
        forall|i: int| 0 <= i < r@.len() ==> (#[trigger] r@[i])@.len() > 0,
{
    s.graphemes(true).map(|g| g.to_string()).collect()
}

impl Info {
    pub fn new(foreground: Colour, background: Colour, attributes: Vec<Attribute>) -> (r: Self)
        ensures
            r@ == (Style { foreground, background, attributes: attributes@ }),
    {
        Info { foreground, background, attributes }
    }

    /// The default style: white on the terminal's default background.
    pub fn plain() -> (r: Self)
        ensures
            r@ == default_style(),
    {
        Info { foreground: Colour::Ansi(WHITE), background: Colour::Reset, attributes: Vec::new() }
    }

    /// A copy with the same value.
    pub fn duplicate(&self) -> (r: Self)
        ensures
            r@ == self@,
    {
        let mut attributes: Vec<Attribute> = Vec::new();
        let mut i: usize = 0;
        while i < self.attributes.len()
            invariant
                i <= self.attributes@.len(),
                attributes@ == self.attributes@.subrange(0, i as int),
            decreases self.attributes@.len() - i,
        {
            attributes.push(self.attributes[i]);
            i = i + 1;
        }
        assert(attributes@ =~= self.attributes@);
        Info { foreground: self.foreground, background: self.background, attributes }
    }

    /// Whether two styles are equal.
    pub fn same_as(&self, other: &Info) -> (r: bool)
        ensures
            r == (self@ == other@),
    {
        if self.foreground != other.foreground || self.background != other.background {
            return false;
        }
        if self.attributes.len() != other.attributes.len() {
            assert(self.attributes@.len() != other.attributes@.len());
            return false;
        }
        let mut i: usize = 0;
        while i < self.attributes.len()
            invariant
                i <= self.attributes@.len(),
                self.attributes@.len() == other.attributes@.len(),
                self.attributes@.subrange(0, i as int) == other.attributes@.subrange(0, i as int),
            decreases self.attributes@.len() - i,
        {
            if self.attributes[i] != other.attributes[i] {
                assert(self.attributes@[i as int] != other.attributes@[i as int]);
                return false;
            }
            assert(self.attributes@.subrange(0, i + 1) =~= self.attributes@.subrange(0, i as int).push(self.attributes@[i as int]));
            assert(other.attributes@.subrange(0, i + 1) =~= other.attributes@.subrange(0, i as int).push(other.attributes@[i as int]));
            i = i + 1;
        }
        assert(self.attributes@ =~= self.attributes@.subrange(0, i as int));
        assert(other.attributes@ =~= other.attributes@.subrange(0, i as int));
        true
    }
}

impl Char {
    /// A copy with the same value.
    pub fn duplicate(&self) -> (r: Self)
        ensures
            r@ == self@,
    {
        Char { content: self.content.clone(), colour: self.colour.duplicate() }
    }
}

fn style_or_plain(colour: Option<Info>) -> (r: Info)
    ensures
        r@ == style_or_default(colour),
{
    match colour {
        Some(info) => info,
        None => Info::plain(),
    }
}

/// Cells for the given texts, each stamped with a copy of `style`.
fn stamp(texts: Vec<String>, style: &Info) -> (r: Vec<Char>)
    ensures
        views(r@) == cells_of(texts@.map_values(|g: String| g@), style@),
{
    let ghost target = cells_of(texts@.map_values(|g: String| g@), style@);
    let mut out: Vec<Char> = Vec::new();
    let mut i: usize = 0;
    while i < texts.len()
        invariant
            i <= texts@.len(),
            target == cells_of(texts@.map_values(|g: String| g@), style@),
            views(out@) == target.take(i as int),
        decreases texts@.len() - i,
    {
        let c = Char { content: texts[i].clone(), colour: style.duplicate() };
        assert(c@ == target[i as int]);
        let ghost prev = views(out@);
        out.push(c);
        assert(views(out@) =~= prev.push(c@));
        assert(target.take(i + 1) =~= target.take(i as int).push(target[i as int]));
        i = i + 1;
    }
    assert(target.take(i as int) =~= target);
    out
}

impl ColourString {
    /// Splits `content` into grapheme clusters, one cell each, all in
    /// `colour` (or the default style).
    pub fn new(content: String, colour: Option<Info>) -> (r: Self)
        ensures
            r@ == cells_of(grapheme_clusters(content@), style_or_default(colour)),
            r@.len() == grapheme_clusters(content@).len(),
    {
        let style = style_or_plain(colour);
        let texts = graphemes(content.as_str());
        let content = stamp(texts, &style);
        ColourString { content }
    }

    /// An empty line.
    pub fn empty() -> (r: Self)
        ensures
            r@ == Seq::<Cell>::empty(),
    {
        let r = ColourString { content: Vec::new() };
        assert(r@ =~= Seq::<Cell>::empty());
        r
    }

    /// A copy with the same cells.
    pub fn duplicate(&self) -> (r: Self)
        ensures
            r@ == self@,
    {
        let mut content: Vec<Char> = Vec::new();
        extend_cells(&mut content, &self.content, 0, self.content.len());
        let r = ColourString { content };
        assert(r@ =~= self@);
        r
    }

    pub fn get_content(&self) -> (r: &Vec<Char>)
        ensures
            views(r@) == self@,
    {
        &self.content
    }

    /// The number of cells, which is the number of columns the line takes.
    pub fn len(&self) -> (r: usize)
        ensures
            r == self@.len(),
    {
        self.content.len()
    }

    /// Drops the cells at index `len` and beyond.
    pub fn truncate(&mut self, len: usize)
        ensures
            final(self)@ == truncated(old(self)@, len as int),
    {
        let ghost before = self.content@;
        self.content.truncate(len);
        assert(self@ =~= truncated(old(self)@, len as int)) by {
            if len < before.len() {
                assert(self.content@ == before.subrange(0, len as int));
            }
        }
    }

    /// Drops the last cell and puts a cell holding `content` in front.
    pub fn l_shift(&mut self, content: String, colour: Option<Info>)
        ensures
            final(self)@ == seq![Cell { text: content@, style: style_or_default(colour) }] + (
            if old(self)@.len() > 0 {
                old(self)@.drop_last()
            } else {
                old(self)@
            }),
    {
        let style = style_or_plain(colour);
        let mut out: Vec<Char> = Vec::new();
        let c = Char { content, colour: style };
        let ghost cell = c@;
        out.push(c);
        let n = self.content.len();
        let end = if n > 0 { n - 1 } else { 0 };
        extend_cells(&mut out, &self.content, 0, end);
        self.content = out;
        assert(views(seq![c]) =~= seq![cell]);
        assert(self@ =~= seq![cell] + (if old(self)@.len() > 0 { old(self)@.drop_last() } else { old(self)@ }));
    }

    /// The cells from index `n` on, as a new line.
    pub fn skip(&mut self, n: usize) -> (r: ColourString)
        ensures
            final(self)@ == old(self)@,
            r@ == skipped(old(self)@, n as int),
    {
        let mut content: Vec<Char> = Vec::new();
        if n < self.content.len() {
            extend_cells(&mut content, &self.content, n, self.content.len());
        }
        let r = ColourString { content };
        assert(r@ =~= skipped(self@, n as int));
        r
    }

    /// Appends one cell.
    pub fn push_char(&mut self, c: Char)
        ensures
            final(self)@ == old(self)@.push(c@),
    {
        let ghost cell = c@;
        self.content.push(c);
        assert(self@ =~= old(self)@.push(cell));
    }

    /// Appends the cells of `other`.
    pub fn push_colour_string(&mut self, other: ColourString)
        ensures
            final(self)@ == old(self)@ + other@,
    {
        extend_cells(&mut self.content, &other.content, 0, other.content.len());
        assert(views(other.content@).subrange(0, other.content@.len() as int) =~= other@);
    }

    /// Appends the grapheme clusters of `content`, all in one style.
    pub fn push_str(&mut self, content: &str, colour: Option<Info>)
        ensures
            final(self)@ == old(self)@ + cells_of(grapheme_clusters(content@), style_or_default(colour)),
    {
        let style = style_or_plain(colour);
        let texts = graphemes(content);
        let added = stamp(texts, &style);
        extend_cells(&mut self.content, &added, 0, added.len());
        assert(views(added@).subrange(0, added@.len() as int) =~= views(added@));
    }

    /// Appends copies of a cell until the line is `len` cells long.
    pub fn pad(&mut self, len: usize, content: String, colour: Option<Info>)
        ensures
            final(self)@ == old(self)@ + Seq::new(
                (if len > old(self)@.len() { len - old(self)@.len() } else { 0 }) as nat,
                |i: int| Cell { text: content@, style: style_or_default(colour) },
            ),
    {
        let style = style_or_plain(colour);
        let ghost cell = Cell { text: content@, style: style@ };
        let ghost start = self@;
        while self.content.len() < len
            invariant
                self@.len() <= len || self@ == start,
                self@ == start + Seq::new((self@.len() - start.len()) as nat, |i: int| cell),
                self@.len() >= start.len(),
                cell == (Cell { text: content@, style: style@ }),
            decreases len - self@.len(),
        {
            let c = Char { content: content.clone(), colour: style.duplicate() };
            let ghost prev = self.content@;
            let ghost before = self@;
            assert(c@ == cell);
            self.content.push(c);
            assert(views(self.content@) =~= views(prev).push(cell));
            assert(self@ =~= before.push(cell));
            assert(self@ =~= start + Seq::new((self@.len() - start.len()) as nat, |i: int| cell));
        }
        assert(self@ =~= start + Seq::new(
            (if len > start.len() { len - start.len() } else { 0 }) as nat,
            |i: int| cell,
        ));
    }

    /// Puts `content`'s cells in place of the cells in `[start, end)`; both
    /// ends are clamped to the line.
    pub fn replace_range(&mut self, start: usize, end: usize, content: ColourString)
        ensures
            ({
                let e = clamp(end as int, 0, old(self)@.len() as int);
                let b = clamp(start as int, 0, e);
                final(self)@ == old(self)@.take(b) + content@ + old(self)@.skip(e)
            }),
    {
        let n = self.content.len();
        let e = if end < n { end } else { n };
        let b = if start < e { start } else { e };
        let mut out: Vec<Char> = Vec::new();
        extend_cells(&mut out, &self.content, 0, b);
        extend_cells(&mut out, &content.content, 0, content.content.len());
        extend_cells(&mut out, &self.content, e, n);
        self.content = out;
        assert(views(content.content@).subrange(0, content.content@.len() as int) =~= content@);
        assert(self@ =~= old(self)@.take(b as int) + content@ + old(self)@.skip(e as int));
    }

    /// Inserts the grapheme clusters of `content`, all in one style, at
    /// `index` clamped to the line.
    pub fn insert(&mut self, index: usize, content: String, colour: Option<Info>)
        ensures
            ({
                let i = clamp(index as int, 0, old(self)@.len() as int);
                final(self)@ == old(self)@.take(i) + cells_of(grapheme_clusters(content@), style_or_default(colour))
                    + old(self)@.skip(i)
            }),
    {
        let style = style_or_plain(colour);
        let texts = graphemes(content.as_str());
        let added = stamp(texts, &style);
        let n = self.content.len();
        let i = if index < n { index } else { n };
        let mut out: Vec<Char> = Vec::new();
        extend_cells(&mut out, &self.content, 0, i);
        extend_cells(&mut out, &added, 0, added.len());
        extend_cells(&mut out, &self.content, i, n);
        self.content = out;
        assert(views(added@).subrange(0, added@.len() as int) =~= views(added@));
        assert(self@ =~= old(self)@.take(i as int) + views(added@) + old(self)@.skip(i as int));
    }

    /// Replaces each cell whose text is `pattern` by a cell holding
    /// `replacement`.
    pub fn replace_char(&mut self, pattern: String, replacement: String, colour: Option<Info>)
        ensures
            final(self)@ == Seq::new(
                old(self)@.len(),
                |i: int|
                    if old(self)@[i].text == pattern@ {
                        Cell { text: replacement@, style: style_or_default(colour) }
                    } else {
                        old(self)@[i]
                    },
            ),
    {
        let style = style_or_plain(colour);
        let ghost target = Seq::new(
            self@.len(),
            |i: int|
                if self@[i].text == pattern@ {
                    Cell { text: replacement@, style: style@ }
                } else {
                    self@[i]
                },
        );
        let mut out: Vec<Char> = Vec::new();
        let mut i: usize = 0;
        while i < self.content.len()
            invariant
                i <= self.content@.len(),
                out@.len() == i,
                views(out@) == target.take(i as int),
                target.len() == self@.len(),
                forall|k: int| 0 <= k < self@.len() ==> target[k] == (if self@[k].text == pattern@ {
                    Cell { text: replacement@, style: style@ }
                } else {
                    self@[k]
                }),
            decreases self.content@.len() - i,
        {
            let c = if self.content[i].content == pattern {
                Char { content: replacement.clone(), colour: style.duplicate() }
            } else {
                self.content[i].duplicate()
            };
            assert(c@ == target[i as int]);
            let ghost prev = out@;
            out.push(c);
            assert(views(out@) =~= views(prev).push(c@));
            assert(target.take(i + 1) =~= target.take(i as int).push(target[i as int]));
            i = i + 1;
        }
        self.content = out;
        assert(self@ =~= target);
    }

    /// Sets the background colour of every cell.
    pub fn set_background(&mut self, colour: Colour)
        ensures
            final(self)@ == old(self)@.map_values(
                |c: Cell| Cell { text: c.text, style: Style { background: colour, ..c.style } },
            ),
    {
        let ghost target = self@.map_values(
            |c: Cell| Cell { text: c.text, style: Style { background: colour, ..c.style } },
        );
        let mut out: Vec<Char> = Vec::new();
        let mut i: usize = 0;
        while i < self.content.len()
            invariant
                i <= self.content@.len(),
                out@.len() == i,
                views(out@) == target.take(i as int),
                target == self@.map_values(
                    |c: Cell| Cell { text: c.text, style: Style { background: colour, ..c.style } },
                ),
            decreases self.content@.len() - i,
        {
            let mut c = self.content[i].duplicate();
            c.colour.background = colour;
            assert(c@ == target[i as int]);
            let ghost prev = out@;
            out.push(c);
            assert(views(out@) =~= views(prev).push(c@));
            assert(target.take(i + 1) =~= target.take(i as int).push(target[i as int]));
            i = i + 1;
        }
        self.content = out;
        assert(self@ =~= target);
    }

    /// Restyles the cells in `[start, end)`; `end` is clamped to the line.
    pub fn set_colour(&mut self, colour: Info, start: usize, end: usize)
        ensures
            final(self)@ == recoloured(old(self)@, colour@, start as int, end as int),
    {
        let ghost target = recoloured(self@, colour@, start as int, end as int);
        let mut out: Vec<Char> = Vec::new();
        let mut i: usize = 0;
        while i < self.content.len()
            invariant
                i <= self.content@.len(),
                out@.len() == i,
                views(out@) == target.take(i as int),
                target == recoloured(self@, colour@, start as int, end as int),
            decreases self.content@.len() - i,
        {
            let c = if start <= i && i < end {
                Char { content: self.content[i].content.clone(), colour: colour.duplicate() }
            } else {
                self.content[i].duplicate()
            };
            assert(c@ == target[i as int]);
            let ghost prev = out@;
            out.push(c);
            assert(views(out@) =~= views(prev).push(c@));
            assert(target.take(i + 1) =~= target.take(i as int).push(target[i as int]));
            i = i + 1;
        }
        self.content = out;
        assert(self@ =~= target);
    }

    /// Replaces each leftmost, non-overlapping run of cells whose texts are
    /// the grapheme clusters of `pattern` by cells for the grapheme clusters
    /// of `replacement`.
    pub fn replace(&mut self, pattern: String, replacement: String, colour: Option<Info>)
        ensures
            final(self)@ == replaced(
                old(self)@,
                grapheme_clusters(pattern@),
                cells_of(grapheme_clusters(replacement@), style_or_default(colour)),
            ),
    {
        let style = style_or_plain(colour);
        let pat = graphemes(pattern.as_str());
        let rep = stamp(graphemes(replacement.as_str()), &style);
        let ghost pv = pat@.map_values(|g: String| g@);
        let ghost rv = views(rep@);
        let ghost cells = self@;
        let n = self.content.len();
        let m = pat.len();
        if m == 0 {
            return;
        }
        let mut out: Vec<Char> = Vec::new();
        let mut i: usize = 0;
        assert(cells.skip(0) =~= cells);
        assert(views(out@) + replaced(cells, pv, rv) =~= replaced(cells, pv, rv));
        while i < n
            invariant
                n == cells.len(),
                cells == self@,
                m == pv.len(),
                m > 0,
                pv == pat@.map_values(|g: String| g@),
                rv == views(rep@),
                i <= n,
                views(out@) + replaced(cells.skip(i as int), pv, rv) == replaced(cells, pv, rv),
            decreases n - i,
        {
            let ghost rest = cells.skip(i as int);
            let ghost prev = out@;
            if n - i >= m && matches_at(&self.content, i, &pat) {
                assert(rest.take(m as int) =~= views(self.content@).subrange(i as int, i + m));
                assert(rest.skip(m as int) =~= cells.skip(i + m));
                extend_cells(&mut out, &rep, 0, rep.len());
                assert(views(rep@).subrange(0, rep@.len() as int) =~= rv);
                assert(views(out@) + replaced(cells.skip(i + m), pv, rv) =~= views(prev) + replaced(rest, pv, rv));
                i = i + m;
            } else {
                if n - i >= m {
                    assert(rest.take(m as int) =~= views(self.content@).subrange(i as int, i + m));
                }
                assert(rest.skip(1) =~= cells.skip(i + 1));
                let c = self.content[i].duplicate();
                out.push(c);
                assert(views(out@) =~= views(prev).push(cells[i as int]));
                assert(views(out@) + replaced(cells.skip(i + 1), pv, rv) =~= views(prev) + replaced(rest, pv, rv));
                i = i + 1;
            }
        }
        assert(cells.skip(n as int) =~= Seq::<Cell>::empty());
        assert(views(out@) =~= replaced(cells, pv, rv));
        self.content = out;
    }

    /// Restyles every cell that overlaps an occurrence of `pattern` in the
    /// line's text; occurrences are leftmost and non-overlapping, and an
    /// empty pattern matches nothing. A cluster of several characters that an
    /// occurrence covers only in part is restyled whole: it meets the
    /// occurrence, though it does not lie inside it.
    pub fn set_colour_pattern(&mut self, pattern: String, colour: Info)
        ensures
            final(self)@ == pattern_recoloured(old(self)@, pattern@, colour@),
    {
        let ghost cells = self@;
        let n = self.content.len();
        // The line's text, and where each cell starts in it.
        let mut text: Vec<char> = Vec::new();
        let mut starts: Vec<usize> = Vec::new();
        starts.push(0);
        let mut k: usize = 0;
        assert(cells.take(0) =~= Seq::<Cell>::empty());
        while k < n
            invariant
                n == cells.len(),
                cells == self@,
                k <= n,
                text@ == line_text(cells.take(k as int)),
                starts@.len() == k + 1,
                forall|j: int| 0 <= j <= k ==> #[trigger] starts@[j] == cell_start(cells, j),
            decreases n - k,
        {
            let piece = chars_of(self.content[k].content.as_str());
            let mut c: usize = 0;
            let ghost base = text@;
            while c < piece.len()
                invariant
                    c <= piece@.len(),
                    text@ == base + piece@.take(c as int),
                decreases piece@.len() - c,
            {
                text.push(piece[c]);
                assert(piece@.take(c + 1) =~= piece@.take(c as int).push(piece@[c as int]));
                c = c + 1;
            }
            assert(piece@.take(c as int) =~= piece@);
            assert(cells.take(k + 1).drop_last() =~= cells.take(k as int));
            starts.push(text.len());
            k = k + 1;
        }
        assert(cells.take(n as int) =~= cells);
        let pat = chars_of(pattern.as_str());
        let m = pat.len();
        let tn = text.len();
        // The occurrences of the pattern in the text.
        let ghost t = text@;
        let ghost found = occurrences(t, pat@, 0);
        let mut occ: Vec<usize> = Vec::new();
        if m > 0 {
            let mut from: usize = 0;
            while from <= tn && m <= tn - from
                invariant
                    t == text@,
                    tn == t.len(),
                    m == pat@.len(),
                    m > 0,
                    from <= tn,
                    found == occurrences(t, pat@, 0),
                    occ@.map_values(|x: usize| x as int) + occurrences(t, pat@, from as int) == found,
                decreases tn - from,
            {
                let ghost prev = occ@;
                if text_matches_at(&text, from, &pat) {
                    occ.push(from);
                    assert(occ@.map_values(|x: usize| x as int) =~= prev.map_values(|x: usize| x as int).push(from as int));
                    assert(occ@.map_values(|x: usize| x as int) + occurrences(t, pat@, from + m) =~= prev.map_values(|x: usize| x as int) + occurrences(t, pat@, from as int));
                    from = from + m;
                } else {
                    from = from + 1;
                }
            }
            assert(occurrences(t, pat@, from as int) =~= Seq::<int>::empty());
        } else {
            assert(found =~= Seq::<int>::empty());
        }
        assert(occ@.map_values(|x: usize| x as int) =~= found);
        proof {
            lemma_occurrences_in_text(t, pat@, 0);
        }
        // Restyle each cell that meets an occurrence.
        let ghost target = pattern_recoloured(cells, pattern@, colour@);
        let mut out: Vec<Char> = Vec::new();
        let mut i: usize = 0;
        while i < n
            invariant
                n == cells.len(),
                cells == self@,
                i <= n,
                out@.len() == i,
                m == pattern@.len(),
                starts@.len() == n + 1,
                forall|j: int| 0 <= j <= n ==> #[trigger] starts@[j] == cell_start(cells, j),
                occ@.map_values(|x: usize| x as int) == found,
                found == occurrences(line_text(cells), pattern@, 0),
                forall|q: int| 0 <= q < found.len() ==> #[trigger] found[q] + m <= tn,
                target == pattern_recoloured(cells, pattern@, colour@),
                views(out@) == target.take(i as int),
            decreases n - i,
        {
            let a = starts[i];
            let b = starts[i + 1];
            let mut hit = false;
            let mut q: usize = 0;
            while q < occ.len()
                invariant
                    q <= occ@.len(),
                    occ@.map_values(|x: usize| x as int) == found,
                    hit == exists|r: int| 0 <= r < q && #[trigger] found[r] < b && a < found[r] + m,
                decreases occ@.len() - q,
            {
                let o = occ[q];
                assert(found[q as int] == o);
                if o < b && (o > a || a - o < m) {
                    hit = true;
                }
                q = q + 1;
            }
            assert(hit == meets_any(found, m as int, a as int, b as int));
            let c = if hit {
                Char { content: self.content[i].content.clone(), colour: colour.duplicate() }
            } else {
                self.content[i].duplicate()
            };
            assert(c@ == target[i as int]);
            let ghost prev = out@;
            out.push(c);
            assert(views(out@) =~= views(prev).push(c@));
            assert(target.take(i + 1) =~= target.take(i as int).push(target[i as int]));
            i = i + 1;
        }
        assert(views(out@) =~= target);
        self.content = out;
    }

    /// Reads text coloured with 24-bit escape sequences: each sequence,
    /// from the escape character to the next `m`, is dropped and sets the
    /// colour of the characters after it; every other character becomes
    /// one cell.
    pub fn parse_ansi_string(string: String) -> (r: ColourString)
        ensures
            r@ == ansi_cells(string@, 0, None, default_style()),
    {
        let text = chars_of(string.as_str());
        let n = text.len();
        let ghost t = text@;
        let mut out: Vec<Char> = Vec::new();
        let mut cur = Info::plain();
        let mut escape: Option<usize> = None;
        let mut i: usize = 0;
        assert(views(out@) + ansi_cells(t, 0, None, default_style()) =~= ansi_cells(t, 0, None, default_style()));
        while i < n
            invariant
                t == text@,
                t == string@,
                n == t.len(),
                i <= n,
                match escape {
                    Some(e) => e < i,
                    None => true,
                },
                views(out@) + ansi_cells(t, i as int, start_as_int(escape), cur@) == ansi_cells(
                    t,
                    0,
                    None,
                    default_style(),
                ),
            decreases n - i,
        {
            let c = text[i];
            let ghost prev = out@;
            if c == '\x1b' {
                escape = Some(i);
            } else {
                match escape {
                    Some(e) => {
                        if c == 'm' {
                            cur = escape_colour(&text, e, i);
                            escape = None;
                        }
                    },
                    None => {
                        let piece = string.as_str().substring_char(i, i + 1);
                        let cell = Char { content: String::from_str(piece), colour: cur.duplicate() };
                        assert(cell@.text =~= seq![t[i as int]]);
                        out.push(cell);
                        assert(views(out@) =~= views(prev).push(cell@));
                    },
                }
            }
            i = i + 1;
        }
        assert(views(out@) =~= ansi_cells(t, 0, None, default_style()));
        ColourString { content: out }
    }

    /// The lines one after another with `separator` between each two; no
    /// lines give an empty line.
    pub fn join(vector: Vec<ColourString>, separator: ColourString) -> (r: ColourString)
        ensures
            r@ == joined(line_views(vector@), separator@),
    {
        let ghost lines = line_views(vector@);
        let mut out: Vec<Char> = Vec::new();
        let n = vector.len();
        let mut i: usize = 0;
        assert(lines.take(0) =~= Seq::<Seq<Cell>>::empty());
        while i < n
            invariant
                n == vector@.len(),
                lines == line_views(vector@),
                i <= n,
                views(out@) == joined(lines.take(i as int), separator@),
            decreases n - i,
        {
            let ghost prev = views(out@);
            if i > 0 {
                extend_cells(&mut out, &separator.content, 0, separator.content.len());
                assert(views(separator.content@).subrange(0, separator.content@.len() as int) =~= separator@);
            }
            let ghost mid = views(out@);
            extend_cells(&mut out, &vector[i].content, 0, vector[i].content.len());
            assert(views(vector@[i as int].content@).subrange(0, vector@[i as int].content@.len() as int) =~= lines[i as int]);
            assert(lines.take(i + 1).drop_last() =~= lines.take(i as int));
            if i == 0 {
                assert(views(out@) =~= joined(lines.take(1), separator@));
            }
            i = i + 1;
        }
        assert(lines.take(n as int) =~= lines);
        ColourString { content: out }
    }

    /// The lines as one text for the terminal: rendered one after another
    /// with CR LF between each two, without trailing whitespace.
    pub fn render_vector(vector: Vec<ColourString>) -> (r: String)
        ensures
            r@ == trimmed_end(rendered(screen_cells(line_views(vector@)))),
    {
        let ghost lines = line_views(vector@);
        let mut out: Vec<Char> = Vec::new();
        let n = vector.len();
        let mut i: usize = 0;
        assert(lines.take(0) =~= Seq::<Seq<Cell>>::empty());
        while i < n
            invariant
                n == vector@.len(),
                lines == line_views(vector@),
                i <= n,
                views(out@) == screen_cells(lines.take(i as int)),
            decreases n - i,
        {
            if i > 0 {
                let previous = &vector[i - 1];
                let k = previous.content.len();
                let style = if k > 0 { previous.content[k - 1].colour.duplicate() } else { Info::plain() };
                let text = String::from_str("\r\n");
                proof {
                    reveal_strlit("\r\n");
                }
                assert(text@ =~= crlf());
                let c = Char { content: text, colour: style };
                assert(c@ == line_break(lines[i - 1]));
                out.push(c);
            }
            let ghost mid = views(out@);
            extend_cells(&mut out, &vector[i].content, 0, vector[i].content.len());
            assert(views(vector@[i as int].content@).subrange(0, vector@[i as int].content@.len() as int) =~= lines[i as int]);
            assert(lines.take(i + 1).drop_last() =~= lines.take(i as int));
            if i == 0 {
                assert(views(out@) =~= screen_cells(lines.take(1)));
            } else {
                assert(lines.take(i + 1)[i - 1] == lines[i - 1]);
                assert(views(out@) =~= screen_cells(lines.take(i + 1)));
            }
            i = i + 1;
        }
        assert(lines.take(n as int) =~= lines);
        let line = ColourString { content: out };
        let text = line.render();
        trim_end(text.as_str())
    }

    /// The line as sent to the terminal, one styled chunk per run of
    /// equally styled cells; an empty line renders as nothing.
    pub fn render(&self) -> (r: String)
        ensures
            r@ == rendered(self@),
    {
        let n = self.content.len();
        let ghost cells = self@;
        let mut out = String::new();
        let mut i: usize = 0;
        assert(cells.skip(0) =~= cells);
        assert(out@ + rendered(cells) =~= rendered(cells));
        while i < n
            invariant
                n == cells.len(),
                cells == self@,
                i <= n,
                out@ + rendered(cells.skip(i as int)) == rendered(cells),
            decreases n - i,
        {
            let style = &self.content[i].colour;
            let mut text = self.content[i].content.clone();
            let mut j: usize = i + 1;
            proof {
                let first = cells.subrange(i as int, j as int);
                assert(first.drop_last() =~= Seq::<Cell>::empty());
                assert(line_text(first) =~= line_text(Seq::<Cell>::empty()) + cells[i as int].text);
            }
            while j < n && self.content[j].colour.same_as(style)
                invariant
                    n == cells.len(),
                    cells == self@,
                    i < j <= n,
                    style@ == cells[i as int].style,
                    forall|k: int| i <= k < j ==> #[trigger] cells[k].style == cells[i as int].style,
                    text@ == line_text(cells.subrange(i as int, j as int)),
                decreases n - j,
            {
                assert(cells.subrange(i as int, j + 1).drop_last() =~= cells.subrange(i as int, j as int));
                text.append(self.content[j].content.as_str());
                j = j + 1;
            }
            let ghost rest = cells.skip(i as int);
            proof {
                lemma_run_length(rest, j - i);
                assert(rest.take(j - i) =~= cells.subrange(i as int, j as int));
                assert(rest.skip(j - i) =~= cells.skip(j as int));
            }
            let chunk = style_text(&text, style);
            out.append(chunk.as_str());
            i = j;
        }
        assert(cells.skip(n as int) =~= Seq::<Cell>::empty());
        out
    }
}

/// Truncating a line at or past its length leaves the line, and so its
/// rendering, unchanged.
pub proof fn truncate_past_end_keeps_line(line: Seq<Cell>, n: int)
    requires
        n >= line.len(),
    ensures
        truncated(line, n) == line,
        rendered(truncated(line, n)) == rendered(line),
{
}

/// Joining no lines gives an empty line, whatever the separator, and it
/// renders as nothing.
pub proof fn join_of_no_lines_renders_nothing(separator: Seq<Cell>)
    ensures
        joined(Seq::empty(), separator) == Seq::<Cell>::empty(),
        rendered(joined(Seq::empty(), separator)) == Seq::<char>::empty(),
{
}

} // verus!
