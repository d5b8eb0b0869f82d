//! Colouring of source lines: one colour per word, by its class or drawn
//! from a palette, and strings in their own colour.

use crate::colour_string::{
    cells_of, default_style, grapheme_clusters, pattern_recoloured, recoloured, Cell, Colour, ColourString, Info,
    Style,
};
use rand::seq::SliceRandom;
use vstd::prelude::*;
use vstd::string::*;

verus! {

/// Colours words of source text: each distinct word keeps one colour for
/// the whole file.
pub struct SyntaxHighlighter {
    /// Each word's colour; no word appears twice.
    pub colour_key: Vec<(String, Colour)>,
}

pub fn rgb(r: u8, g: u8, b: u8) -> (c: Colour)
    ensures
        c == Colour::Rgb(r, g, b),
{
    Colour::Rgb(r, g, b)
}

/// The colours words without a class are drawn from.
pub open spec fn palette_spec() -> Seq<Colour> {
    seq![
        Colour::Rgb(248, 248, 242),
        Colour::Rgb(139, 233, 253),
        Colour::Rgb(80, 250, 123),
        Colour::Rgb(255, 184, 108),
        Colour::Rgb(255, 121, 198),
        Colour::Rgb(189, 147, 249),
        Colour::Rgb(255, 85, 85),
        Colour::Rgb(241, 250, 140),
    ]
}

fn palette() -> (r: Vec<Colour>)
    ensures
        r@ == palette_spec(),
{
    let r = vec![
        rgb(248, 248, 242),
        rgb(139, 233, 253),
        rgb(80, 250, 123),
        rgb(255, 184, 108),
        rgb(255, 121, 198),
        rgb(189, 147, 249),
        rgb(255, 85, 85),
        rgb(241, 250, 140),
    ];
    assert(r@ =~= palette_spec());
    r
}

/// Relies on rand's `SliceRandom::choose` with the thread's generator:
/// `None` exactly for an empty slice, else one of its elements.
#[verifier::external_body]
fn choose_colour(colours: &Vec<Colour>) -> (r: Option<Colour>)
    ensures
        colours@.len() == 0 <==> r is None,
        r matches Some(c) ==> colours@.contains(c),
{
    colours.choose(&mut rand::thread_rng()).copied()
}

/// Whether a character is numeric (a Unicode number).
pub uninterp spec fn numeric(c: char) -> bool;

/// Relies on std's `char::is_numeric`.
#[verifier::external_body]
fn is_numeric(c: char) -> (r: bool)
    ensures
        r == numeric(c),
{
    c.is_numeric()
}

/// A text without leading and trailing white space, as std's `str::trim`
/// gives it.
pub open spec fn trimmed(s: Seq<char>) -> Seq<char> {
    crate::colour_string::trimmed_start(crate::colour_string::trimmed_end(s))
}

/// The text without leading and trailing white space.
fn trim(s: &str) -> (r: String)
    ensures
        r@ == trimmed(s@),
{
    let end = crate::colour_string::trim_end(s);
    crate::colour_string::trim_start(end.as_str())
}

pub open spec fn is_separator(c: char) -> bool {
    c == ' ' || c == '.' || c == ':'
}

/// The pieces of a text between separators, empty ones included; at least
/// one.
pub open spec fn pieces(s: Seq<char>) -> Seq<Seq<char>>
    decreases s.len(),
{
    if s.len() == 0 {
        seq![Seq::empty()]
    } else {
        let p = pieces(s.drop_last());
        if is_separator(s.last()) {
            p.push(Seq::empty())
        } else {
            p.update(p.len() - 1, p.last().push(s.last()))
        }
    }
}

/// The words, each once, in order of first appearance.
pub open spec fn distinct(words: Seq<Seq<char>>) -> Seq<Seq<char>>
    decreases words.len(),
{
    if words.len() == 0 {
        words
    } else {
        let d = distinct(words.drop_last());
        if d.contains(words.last()) {
            d
        } else {
            d.push(words.last())
        }
    }
}

/// `sorted` with `w` put after every word no longer than it.
pub open spec fn insert_by_length(sorted: Seq<Seq<char>>, w: Seq<char>) -> Seq<Seq<char>>
    decreases sorted.len(),
{
    if sorted.len() == 0 || sorted.last().len() <= w.len() {
        sorted.push(w)
    } else {
        insert_by_length(sorted.drop_last(), w).push(sorted.last())
    }
}

/// The words sorted by length, words of one length in their first order.
pub open spec fn by_length(words: Seq<Seq<char>>) -> Seq<Seq<char>>
    decreases words.len(),
{
    if words.len() == 0 {
        words
    } else {
        insert_by_length(by_length(words.drop_last()), words.last())
    }
}

/// The words of a line in the order they are coloured: shorter first, so
/// that longer words are coloured over them.
pub open spec fn line_words(line: Seq<char>) -> Seq<Seq<char>> {
    by_length(distinct(pieces(line)))
}

pub open spec fn is_bracket(c: char) -> bool {
    c == '(' || c == ')' || c == '{' || c == '}' || c == '[' || c == ']'
}

pub open spec fn is_operator(c: char) -> bool {
    c == '+' || c == '-' || c == '*' || c == '/' || c == '%' || c == '=' || c == '>' || c == '<' || c == '!'
}

/// The colour a word's class gives it: calls, numbers, brackets and
/// operators; other words have none.
pub open spec fn word_class(w: Seq<char>) -> Option<Colour> {
    if exists|i: int| 0 <= i < w.len() - 1 && #[trigger] w[i] == '(' && w[i + 1] == ')' {
        Some(Colour::Ansi(120))
    } else if exists|i: int| 0 <= i < w.len() && numeric(#[trigger] w[i]) {
        Some(Colour::Ansi(222))
    } else if w.len() == 1 && is_bracket(w[0]) {
        Some(Colour::Ansi(103))
    } else if exists|i: int| 0 <= i < w.len() && is_operator(#[trigger] w[i]) {
        Some(Colour::Ansi(212))
    } else {
        None
    }
}

/// The colour a key gives a word; the last entry wins.
pub open spec fn lookup(key: Seq<(String, Colour)>, w: Seq<char>) -> Option<Colour>
    decreases key.len(),
{
    if key.len() == 0 {
        None
    } else if key.last().0@ == w {
        Some(key.last().1)
    } else {
        lookup(key.drop_last(), w)
    }
}

/// The colour a key gives a word, or the terminal default.
pub open spec fn colour_in(key: Seq<(String, Colour)>, w: Seq<char>) -> Colour {
    match lookup(key, w) {
        Some(c) => c,
        None => Colour::Reset,
    }
}

pub open spec fn foreground(c: Colour) -> Style {
    Style { foreground: c, background: Colour::Reset, attributes: Seq::empty() }
}

/// `cells` with each word recoloured in turn, in its colour.
pub open spec fn coloured_words(cells: Seq<Cell>, words: Seq<Seq<char>>, colours: Seq<Colour>) -> Seq<Cell>
    decreases words.len(),
{
    if words.len() == 0 {
        cells
    } else {
        pattern_recoloured(
            coloured_words(cells, words.drop_last(), colours),
            words.last(),
            foreground(colours[words.len() - 1]),
        )
    }
}

pub open spec fn is_quote(c: Cell) -> bool {
    c.text == seq!['"']
}

/// The number of `"` cells.
pub open spec fn quote_count(cells: Seq<Cell>) -> int
    decreases cells.len(),
{
    if cells.len() == 0 {
        0
    } else {
        quote_count(cells.drop_last()) + if is_quote(cells.last()) { 1int } else { 0int }
    }
}

/// Whether cell `k` lies in a quoted string: from an opening `"` to the
/// `"` that closes it, both included; an unclosed `"` quotes nothing.
pub open spec fn in_quotes(cells: Seq<Cell>, k: int) -> bool {
    let before = quote_count(cells.take(k));
    let after = quote_count(cells.skip(k + 1));
    if is_quote(cells[k]) {
        before % 2 == 1 || after > 0
    } else {
        before % 2 == 1 && after > 0
    }
}

/// `cells` with quoted strings in the string colour.
pub open spec fn quoted(cells: Seq<Cell>) -> Seq<Cell> {
    Seq::new(
        cells.len(),
        |k: int| if in_quotes(cells, k) { Cell { text: cells[k].text, style: foreground(Colour::Ansi(229)) } } else { cells[k] },
    )
}

/// A line coloured word by word with the colours of `key`, and its quoted
/// strings after that.
pub open spec fn highlighted(line: Seq<char>, key: Seq<(String, Colour)>) -> Seq<Cell> {
    let words = line_words(line);
    quoted(
        coloured_words(
            cells_of(grapheme_clusters(line), default_style()),
            words,
            Seq::new(words.len(), |i: int| colour_in(key, trimmed(words[i]))),
        ),
    )
}

/// No word has two entries.
pub open spec fn keys_unique(key: Seq<(String, Colour)>) -> bool {
    forall|i: int, j: int| 0 <= i < j < key.len() ==> #[trigger] key[i].0@ != #[trigger] key[j].0@
}

pub open spec fn string_views(v: Seq<String>) -> Seq<Seq<char>> {
    v.map_values(|s: String| s@)
}

/// The pieces of a line between separators.
fn split_pieces(line: &str) -> (r: Vec<String>)
    ensures
        string_views(r@) == pieces(line@),
{
    let n = line.unicode_len();
    let mut out: Vec<String> = Vec::new();
    let mut start: usize = 0;
    let mut i: usize = 0;
    assert(line@.take(0) =~= Seq::<char>::empty());
    assert(line@.subrange(0, 0) =~= Seq::<char>::empty());
    assert(string_views(out@).push(line@.subrange(0, 0)) =~= pieces(line@.take(0)));
    while i < n
        invariant
            n == line@.len(),
            start <= i <= n,
            string_views(out@).push(line@.subrange(start as int, i as int)) == pieces(line@.take(i as int)),
        decreases n - i,
    {
        let c = line.get_char(i);
        let ghost prev = string_views(out@);
        assert(line@.take(i + 1).drop_last() =~= line@.take(i as int));
        if c == ' ' || c == '.' || c == ':' {
            let piece = String::from_str(line.substring_char(start, i));
            out.push(piece);
            assert(string_views(out@) =~= prev.push(line@.subrange(start as int, i as int)));
            start = i + 1;
            assert(line@.subrange(start as int, i + 1) =~= Seq::<char>::empty());
        } else {
            assert(line@.subrange(start as int, i + 1) =~= line@.subrange(start as int, i as int).push(c));
        }
        assert(string_views(out@).push(line@.subrange(start as int, i + 1)) =~= pieces(line@.take(i + 1)));
        i = i + 1;
    }
    let piece = String::from_str(line.substring_char(start, n));
    let ghost prev = string_views(out@);
    out.push(piece);
    assert(string_views(out@) =~= prev.push(line@.subrange(start as int, n as int)));
    assert(line@.take(n as int) =~= line@);
    out
}

/// The words, each once, in order of first appearance.
fn distinct_words(words: Vec<String>) -> (r: Vec<String>)
    ensures
        string_views(r@) == distinct(string_views(words@)),
{
    let ghost ws = string_views(words@);
    let mut out: Vec<String> = Vec::new();
    let mut i: usize = 0;
    assert(ws.take(0) =~= Seq::<Seq<char>>::empty());
    while i < words.len()
        invariant
            ws == string_views(words@),
            i <= words@.len(),
            string_views(out@) == distinct(ws.take(i as int)),
        decreases words@.len() - i,
    {
        assert(ws.take(i + 1).drop_last() =~= ws.take(i as int));
        let ghost d = string_views(out@);
        let mut seen = false;
        let mut j: usize = 0;
        while j < out.len()
            invariant
                j <= out@.len(),
                d == string_views(out@),
                i < words@.len(),
                ws == string_views(words@),
                seen == exists|q: int| 0 <= q < j && #[trigger] d[q] == ws[i as int],
            decreases out@.len() - j,
        {
            assert(d[j as int] == out@[j as int]@);
            if out[j] == words[i] {
                seen = true;
            }
            j = j + 1;
        }
        assert(seen == d.contains(ws[i as int])) by {
            if d.contains(ws[i as int]) {
                let q = choose|q: int| 0 <= q < d.len() && d[q] == ws[i as int];
                assert(d[q] == ws[i as int]);
            }
        }
        if !seen {
            out.push(words[i].clone());
            assert(string_views(out@) =~= d.push(ws[i as int]));
        }
        i = i + 1;
    }
    assert(ws.take(i as int) =~= ws);
    out
}

/// Inserting `w` at the position found from the end.
proof fn lemma_insert_by_length(sorted: Seq<Seq<char>>, w: Seq<char>, j: int)
    requires
        0 <= j <= sorted.len(),
        j == 0 || sorted[j - 1].len() <= w.len(),
        forall|q: int| j <= q < sorted.len() ==> #[trigger] sorted[q].len() > w.len(),
    ensures
        insert_by_length(sorted, w) == sorted.take(j) + seq![w] + sorted.skip(j),
    decreases sorted.len(),
{
    if sorted.len() == 0 || sorted.last().len() <= w.len() {
        assert(sorted.take(j) + seq![w] + sorted.skip(j) =~= sorted.push(w));
    } else {
        let d = sorted.drop_last();
        lemma_insert_by_length(d, w, j);
        assert(sorted.take(j) + seq![w] + sorted.skip(j) =~= (d.take(j) + seq![w] + d.skip(j)).push(sorted.last()));
    }
}

/// The words sorted by length, words of one length in their first order.
fn sort_by_length(words: Vec<String>) -> (r: Vec<String>)
    ensures
        string_views(r@) == by_length(string_views(words@)),
{
    let ghost ws = string_views(words@);
    let mut out: Vec<String> = Vec::new();
    let mut i: usize = 0;
    assert(ws.take(0) =~= Seq::<Seq<char>>::empty());
    while i < words.len()
        invariant
            ws == string_views(words@),
            i <= words@.len(),
            string_views(out@) == by_length(ws.take(i as int)),
        decreases words@.len() - i,
    {
        assert(ws.take(i + 1).drop_last() =~= ws.take(i as int));
        let ghost sorted = string_views(out@);
        let len = words[i].as_str().unicode_len();
        let mut j: usize = out.len();
        while j > 0 && out[j - 1].as_str().unicode_len() > len
            invariant
                j <= out@.len(),
                sorted == string_views(out@),
                i < words@.len(),
                len == ws[i as int].len(),
                ws == string_views(words@),
                forall|q: int| j <= q < sorted.len() ==> #[trigger] sorted[q].len() > len,
            decreases j,
        {
            j = j - 1;
        }
        proof {
            lemma_insert_by_length(sorted, ws[i as int], j as int);
        }
        out.insert(j, words[i].clone());
        assert(string_views(out@) =~= sorted.take(j as int) + seq![ws[i as int]] + sorted.skip(j as int));
        i = i + 1;
    }
    assert(ws.take(i as int) =~= ws);
    out
}

/// The colour a word's class gives it.
fn classify(word: &str) -> (r: Option<Colour>)
    ensures
        r == word_class(word@),
{
    let w = crate::colour_string::chars_of(word);
    let n = w.len();
    let mut call = false;
    let mut number = false;
    let mut operator = false;
    let mut i: usize = 0;
    while i < n
        invariant
            n == w@.len(),
            w@ == word@,
            i <= n,
            call == exists|k: int| 0 <= k < i && k < n - 1 && #[trigger] w@[k] == '(' && w@[k + 1] == ')',
            number == exists|k: int| 0 <= k < i && numeric(#[trigger] w@[k]),
            operator == exists|k: int| 0 <= k < i && is_operator(#[trigger] w@[k]),
        decreases n - i,
    {
        let c = w[i];
        if i + 1 < n && c == '(' && w[i + 1] == ')' {
            call = true;
        }
        if is_numeric(c) {
            number = true;
        }
        if c == '+' || c == '-' || c == '*' || c == '/' || c == '%' || c == '=' || c == '>' || c == '<' || c == '!' {
            operator = true;
        }
        i = i + 1;
    }
    if call {
        Some(Colour::Ansi(120))
    } else if number {
        Some(Colour::Ansi(222))
    } else if n == 1 && (w[0] == '(' || w[0] == ')' || w[0] == '{' || w[0] == '}' || w[0] == '[' || w[0] == ']') {
        Some(Colour::Ansi(103))
    } else if operator {
        Some(Colour::Ansi(212))
    } else {
        None
    }
}

proof fn lemma_lookup_none(key: Seq<(String, Colour)>, w: Seq<char>)
    requires
        lookup(key, w) is None,
    ensures
        forall|i: int| 0 <= i < key.len() ==> #[trigger] key[i].0@ != w,
    decreases key.len(),
{
    if key.len() > 0 {
        lemma_lookup_none(key.drop_last(), w);
        assert forall|i: int| 0 <= i < key.len() implies #[trigger] key[i].0@ != w by {
            if i < key.len() - 1 {
                assert(key[i] == key.drop_last()[i]);
            }
        }
    }
}

proof fn lemma_lookup_push(key: Seq<(String, Colour)>, entry: (String, Colour), w: Seq<char>)
    ensures
        lookup(key.push(entry), w) == if entry.0@ == w { Some(entry.1) } else { lookup(key, w) },
{
    assert(key.push(entry).drop_last() =~= key);
}


/// The colour drawn for the word at place `i`; the terminal default where
/// none was drawn.
pub open spec fn drawn_colour(drawn: Seq<Colour>, i: int) -> Colour {
    if 0 <= i < drawn.len() {
        drawn[i]
    } else {
        Colour::Reset
    }
}

/// The colour a key gives `v` after the first `n` words are added where it
/// lacks them, each with the colour drawn at its place.
pub open spec fn lookup_after(
    key: Seq<(String, Colour)>,
    words: Seq<Seq<char>>,
    drawn: Seq<Colour>,
    n: int,
    v: Seq<char>,
) -> Option<Colour>
    decreases n,
{
    if n <= 0 {
        lookup(key, v)
    } else {
        let prev = lookup_after(key, words, drawn, n - 1, v);
        if prev is Some {
            prev
        } else if trimmed(words[n - 1]) == v {
            Some(drawn_colour(drawn, n - 1))
        } else {
            None
        }
    }
}

proof fn lemma_lookup_after_covers(
    key: Seq<(String, Colour)>,
    words: Seq<Seq<char>>,
    drawn: Seq<Colour>,
    n: int,
    i: int,
)
    requires
        0 <= i < n,
    ensures
        lookup_after(key, words, drawn, n, trimmed(words[i])) is Some,
    decreases n,
{
    if i < n - 1 {
        lemma_lookup_after_covers(key, words, drawn, n - 1, i);
    }
}

proof fn lemma_lookup_after_keeps(
    key: Seq<(String, Colour)>,
    words: Seq<Seq<char>>,
    drawn: Seq<Colour>,
    n: int,
    v: Seq<char>,
)
    requires
        lookup(key, v) is Some,
    ensures
        lookup_after(key, words, drawn, n, v) == lookup(key, v),
    decreases n,
{
    if n > 0 {
        lemma_lookup_after_keeps(key, words, drawn, n - 1, v);
    }
}

proof fn lemma_lookup_after_drawn(
    key: Seq<(String, Colour)>,
    words: Seq<Seq<char>>,
    drawn: Seq<Colour>,
    n: int,
    v: Seq<char>,
)
    requires
        lookup(key, v) is None,
        n <= drawn.len(),
        forall|j: int| 0 <= j < drawn.len() ==> palette_spec().contains(#[trigger] drawn[j]),
        lookup_after(key, words, drawn, n, v) is Some,
    ensures
        palette_spec().contains(lookup_after(key, words, drawn, n, v)->0),
    decreases n,
{
    if n > 0 && lookup_after(key, words, drawn, n - 1, v) is Some {
        lemma_lookup_after_drawn(key, words, drawn, n - 1, v);
    }
}


/// The pieces of all the lines, line after line.
pub open spec fn all_pieces(lines: Seq<Seq<char>>) -> Seq<Seq<char>>
    decreases lines.len(),
{
    if lines.len() == 0 {
        Seq::empty()
    } else {
        all_pieces(lines.drop_last()) + pieces(lines.last())
    }
}

/// The colour a fresh key gives `v` after the first `n` words are added
/// where it lacks them: the word's class colour, or the colour drawn at its
/// place.
pub open spec fn lookup_init(words: Seq<Seq<char>>, drawn: Seq<Colour>, n: int, v: Seq<char>) -> Option<Colour>
    decreases n,
{
    if n <= 0 {
        None
    } else {
        let prev = lookup_init(words, drawn, n - 1, v);
        if prev is Some {
            prev
        } else if trimmed(words[n - 1]) == v {
            Some(
                match word_class(words[n - 1]) {
                    Some(k) => k,
                    None => drawn_colour(drawn, n - 1),
                },
            )
        } else {
            None
        }
    }
}

proof fn lemma_lookup_init_covers(words: Seq<Seq<char>>, drawn: Seq<Colour>, n: int, i: int)
    requires
        0 <= i < n,
    ensures
        lookup_init(words, drawn, n, trimmed(words[i])) is Some,
    decreases n,
{
    if i < n - 1 {
        lemma_lookup_init_covers(words, drawn, n - 1, i);
    }
}

proof fn lemma_lookup_init_justified(words: Seq<Seq<char>>, drawn: Seq<Colour>, n: int, v: Seq<char>)
    requires
        n <= drawn.len(),
        forall|j: int| 0 <= j < drawn.len() ==> palette_spec().contains(#[trigger] drawn[j]),
    ensures
        lookup_init(words, drawn, n, v) matches Some(c) ==> exists|i: int|
            0 <= i < n && trimmed(#[trigger] words[i]) == v && class_or_palette(words[i], c),
    decreases n,
{
    if n > 0 {
        lemma_lookup_init_justified(words, drawn, n - 1, v);
        let prev = lookup_init(words, drawn, n - 1, v);
        if prev is None && trimmed(words[n - 1]) == v {
            assert(trimmed(words[n - 1]) == v);
        }
    }
}

/// The pieces of all the lines, line after line.
fn all_words(lines: &Vec<String>) -> (r: Vec<String>)
    ensures
        string_views(r@) == all_pieces(string_views(lines@)),
{
    let ghost ls = string_views(lines@);
    let mut out: Vec<String> = Vec::new();
    let mut l: usize = 0;
    assert(ls.take(0) =~= Seq::<Seq<char>>::empty());
    while l < lines.len()
        invariant
            ls == string_views(lines@),
            l <= lines@.len(),
            string_views(out@) == all_pieces(ls.take(l as int)),
        decreases lines@.len() - l,
    {
        assert(ls.take(l + 1).drop_last() =~= ls.take(l as int));
        let ps = split_pieces(lines[l].as_str());
        let ghost pv = string_views(ps@);
        let ghost before = string_views(out@);
        let mut k: usize = 0;
        while k < ps.len()
            invariant
                pv == string_views(ps@),
                k <= ps@.len(),
                string_views(out@) == before + pv.take(k as int),
            decreases ps@.len() - k,
        {
            let piece = ps[k].clone();
            assert(piece@ == pv[k as int]);
            let ghost prev = string_views(out@);
            out.push(piece);
            assert(string_views(out@) =~= prev.push(pv[k as int]));
            assert(pv.take(k + 1) =~= pv.take(k as int).push(pv[k as int]));
            assert(string_views(out@) =~= before + pv.take(k + 1));
            k = k + 1;
        }
        assert(pv.take(k as int) =~= pv);
        assert(ls.take(l + 1).last() == ls[l as int]);
        l = l + 1;
    }
    assert(ls.take(l as int) =~= ls);
    out
}

/// The words of a line in the order they are coloured.
pub fn line_word_list(line: &str) -> (r: Vec<String>)
    ensures
        string_views(r@) == line_words(line@),
{
    sort_by_length(distinct_words(split_pieces(line)))
}

impl SyntaxHighlighter {
    pub open spec fn wf(&self) -> bool {
        keys_unique(self.colour_key@)
    }

    /// No colours yet.
    pub fn new() -> (r: Self)
        ensures
            r.colour_key@.len() == 0,
            r.wf(),
    {
        SyntaxHighlighter { colour_key: Vec::new() }
    }

    /// The colour the key gives a word.
    fn find(&self, w: &String) -> (r: Option<Colour>)
        ensures
            r == lookup(self.colour_key@, w@),
    {
        let ghost key = self.colour_key@;
        let mut i: usize = self.colour_key.len();
        assert(key.take(i as int) =~= key);
        while i > 0
            invariant
                i <= key.len(),
                key == self.colour_key@,
                lookup(key, w@) == lookup(key.take(i as int), w@),
            decreases i,
        {
            assert(key.take(i as int).drop_last() =~= key.take(i - 1));
            if self.colour_key[i - 1].0 == *w {
                return Some(self.colour_key[i - 1].1);
            }
            i = i - 1;
        }
        assert(key.take(0) =~= Seq::<(String, Colour)>::empty());
        None
    }

    /// Adds a word with no colour yet, keeping words unique.
    fn add(&mut self, w: String, c: Colour)
        requires
            old(self).wf(),
            lookup(old(self).colour_key@, w@) is None,
        ensures
            final(self).wf(),
            final(self).colour_key@ == old(self).colour_key@.push((w, c)),
            forall|v: Seq<char>| #[trigger] lookup(final(self).colour_key@, v) == if v == w@ {
                Some(c)
            } else {
                lookup(old(self).colour_key@, v)
            },
    {
        let ghost key = self.colour_key@;
        proof {
            lemma_lookup_none(key, w@);
        }
        let entry = (w, c);
        self.colour_key.push(entry);
        proof {
            assert forall|v: Seq<char>| #[trigger] lookup(self.colour_key@, v) == if v == entry.0@ {
                Some(c)
            } else {
                lookup(key, v)
            } by {
                lemma_lookup_push(key, entry, v);
            }
            assert forall|i: int, j: int| 0 <= i < j < self.colour_key@.len() implies #[trigger] self.colour_key@[i].0@
                != #[trigger] self.colour_key@[j].0@ by {
                if j == key.len() {
                    assert(key[i].0@ != entry.0@);
                } else {
                    assert(self.colour_key@[i] == key[i] && self.colour_key@[j] == key[j]);
                }
            }
        }
    }

    /// A colour drawn from the palette.
    fn random_colour() -> (r: Colour)
        ensures
            palette_spec().contains(r),
    {
        let colours = palette();
        match choose_colour(&colours) {
            Some(c) => c,
            None => Colour::Reset,
        }
    }
}

proof fn lemma_quote_count_nonneg(a: Seq<Cell>)
    ensures
        quote_count(a) >= 0,
    decreases a.len(),
{
    if a.len() > 0 {
        lemma_quote_count_nonneg(a.drop_last());
    }
}

proof fn lemma_quote_count_concat(a: Seq<Cell>, b: Seq<Cell>)
    ensures
        quote_count(a + b) == quote_count(a) + quote_count(b),
    decreases b.len(),
{
    if b.len() > 0 {
        lemma_quote_count_concat(a, b.drop_last());
        assert((a + b).drop_last() =~= a + b.drop_last());
    } else {
        assert(a + b =~= a);
    }
}

/// Puts quoted strings in the string colour.
fn colour_quotes(line: &mut ColourString)
    ensures
        final(line)@ == quoted(old(line)@),
{
    let ghost cells = line@;
    let n = line.len();
    let content = line.get_content();
    let quote = String::from_str("\"");
    proof {
        reveal_strlit("\"");
    }
    assert(quote@ =~= seq!['"']);
    // How many quotes there are.
    let mut total: usize = 0;
    let mut k: usize = 0;
    assert(cells.take(0) =~= Seq::<Cell>::empty());
    while k < n
        invariant
            n == cells.len(),
            crate::colour_string::views(content@) == cells,
            quote@ == seq!['"'],
            k <= n,
            total <= k,
            total == quote_count(cells.take(k as int)),
        decreases n - k,
    {
        assert(cells.take(k + 1).drop_last() =~= cells.take(k as int));
        if content[k].content == quote {
            total = total + 1;
        }
        k = k + 1;
    }
    assert(cells.take(n as int) =~= cells);
    // Which cells are quoted.
    let mut flags: Vec<bool> = Vec::new();
    let mut before: usize = 0;
    k = 0;
    while k < n
        invariant
            n == cells.len(),
            crate::colour_string::views(content@) == cells,
            quote@ == seq!['"'],
            k <= n,
            total == quote_count(cells),
            before == quote_count(cells.take(k as int)),
            before <= total,
            flags@.len() == k,
            forall|j: int| 0 <= j < k ==> #[trigger] flags@[j] == in_quotes(cells, j),
        decreases n - k,
    {
        let q = content[k].content == quote;
        proof {
            assert(cells.take(k + 1).drop_last() =~= cells.take(k as int));
            lemma_quote_count_concat(cells.take(k + 1), cells.skip(k + 1));
            lemma_quote_count_nonneg(cells.skip(k + 1));
            assert(cells.take(k + 1) + cells.skip(k + 1) =~= cells);
            assert(cells[k as int] == content@[k as int]@);
            assert(q == is_quote(cells[k as int]));
        }
        let after = total - before - if q { 1 } else { 0 };
        let flag = if q { before % 2 == 1 || after > 0 } else { before % 2 == 1 && after > 0 };
        flags.push(flag);
        if q {
            before = before + 1;
        }
        k = k + 1;
    }
    // Colour them.
    let string = Info::new(Colour::Ansi(229), Colour::Reset, Vec::new());
    assert(string@ =~= foreground(Colour::Ansi(229)));
    k = 0;
    while k < n
        invariant
            n == cells.len(),
            k <= n,
            flags@.len() == n,
            forall|j: int| 0 <= j < n ==> #[trigger] flags@[j] == in_quotes(cells, j),
            string@ == foreground(Colour::Ansi(229)),
            line@ == Seq::new(
                n as nat,
                |j: int| if j < k && in_quotes(cells, j) {
                    Cell { text: cells[j].text, style: foreground(Colour::Ansi(229)) }
                } else {
                    cells[j]
                },
            ),
        decreases n - k,
    {
        if flags[k] {
            line.set_colour(string.duplicate(), k, k + 1);
        }
        assert(line@ =~= Seq::new(
            n as nat,
            |j: int| if j < k + 1 && in_quotes(cells, j) {
                Cell { text: cells[j].text, style: foreground(Colour::Ansi(229)) }
            } else {
                cells[j]
            },
        ));
        k = k + 1;
    }
    assert(line@ =~= quoted(cells));
}

/// Whether a word's class, or else the palette, accounts for a colour.
pub open spec fn class_or_palette(w: Seq<char>, c: Colour) -> bool {
    match word_class(w) {
        Some(k) => c == k,
        None => palette_spec().contains(c),
    }
}

impl SyntaxHighlighter {
    /// Colours a line: its words, shortest first, each in the colour the key
    /// gives it, then its quoted strings. A word new to the key takes the
    /// drawn colour at its place among the line's words (the terminal
    /// default where `drawn` is too short) and keeps it.
    pub fn highlight_drawn(&mut self, line: String, drawn: &Vec<Colour>) -> (r: ColourString)
        requires
            old(self).wf(),
        ensures
            final(self).wf(),
            r@ == highlighted(line@, final(self).colour_key@),
            forall|v: Seq<char>| #[trigger] lookup(final(self).colour_key@, v) == lookup_after(
                old(self).colour_key@,
                line_words(line@),
                drawn@,
                line_words(line@).len() as int,
                v,
            ),
    {
        let words = line_word_list(line.as_str());
        let ghost ws = string_views(words@);
        let ghost start = self.colour_key@;
        let mut colours: Vec<Colour> = Vec::new();
        let mut i: usize = 0;
        while i < words.len()
            invariant
                ws == string_views(words@),
                i <= words@.len(),
                colours@.len() == i,
                self.wf(),
                forall|j: int| 0 <= j < i ==> lookup(self.colour_key@, trimmed(#[trigger] ws[j])) == Some(colours@[j]),
                forall|v: Seq<char>| #[trigger] lookup(self.colour_key@, v) == lookup_after(start, ws, drawn@, i as int, v),
            decreases words@.len() - i,
        {
            let t = trim(words[i].as_str());
            assert(t@ == trimmed(ws[i as int]));
            let ghost key = self.colour_key@;
            let c = match self.find(&t) {
                Some(c) => c,
                None => {
                    let c = if i < drawn.len() { drawn[i] } else { Colour::Reset };
                    self.add(t, c);
                    c
                },
            };
            assert forall|v: Seq<char>| #[trigger] lookup(self.colour_key@, v) == lookup_after(
                start,
                ws,
                drawn@,
                i + 1,
                v,
            ) by {
                assert(lookup(key, v) == lookup_after(start, ws, drawn@, i as int, v));
            }
            colours.push(c);
            i = i + 1;
        }
        let ghost key = self.colour_key@;
        assert(colours@ =~= Seq::new(ws.len(), |j: int| colour_in(key, trimmed(ws[j]))));
        let mut out = ColourString::new(line, None);
        let ghost base = out@;
        let mut k: usize = 0;
        assert(ws.take(0) =~= Seq::<Seq<char>>::empty());
        while k < words.len()
            invariant
                ws == string_views(words@),
                k <= words@.len(),
                colours@.len() == words@.len(),
                out@ == coloured_words(base, ws.take(k as int), colours@),
            decreases words@.len() - k,
        {
            assert(ws.take(k + 1).drop_last() =~= ws.take(k as int));
            let style = Info::new(colours[k], Colour::Reset, Vec::new());
            assert(style@ =~= foreground(colours@[k as int]));
            out.set_colour_pattern(words[k].clone(), style);
            k = k + 1;
        }
        assert(ws.take(k as int) =~= ws);
        colour_quotes(&mut out);
        out
    }

    /// Colours a line as `highlight_drawn` does, drawing the colours of new
    /// words from the palette.
    pub fn highlight(&mut self, line: String) -> (r: ColourString)
        requires
            old(self).wf(),
        ensures
            final(self).wf(),
            r@ == highlighted(line@, final(self).colour_key@),
            forall|i: int| 0 <= i < line_words(line@).len() ==> lookup(
                final(self).colour_key@,
                trimmed(#[trigger] line_words(line@)[i]),
            ) is Some,
            forall|v: Seq<char>| #[trigger] lookup(old(self).colour_key@, v) is Some ==> lookup(final(self).colour_key@, v)
                == lookup(old(self).colour_key@, v),
            forall|v: Seq<char>| #[trigger] lookup(old(self).colour_key@, v) is None && lookup(final(self).colour_key@, v) is Some
                ==> palette_spec().contains(lookup(final(self).colour_key@, v)->0),
    {
        let n = line_word_list(line.as_str()).len();
        let mut drawn: Vec<Colour> = Vec::new();
        while drawn.len() < n
            invariant
                drawn@.len() <= n,
                forall|j: int| 0 <= j < drawn@.len() ==> palette_spec().contains(#[trigger] drawn@[j]),
            decreases n - drawn@.len(),
        {
            drawn.push(SyntaxHighlighter::random_colour());
        }
        let ghost start = self.colour_key@;
        let ghost ws = line_words(line@);
        let ghost dv = drawn@;
        let r = self.highlight_drawn(line, &drawn);
        proof {
            assert forall|i: int| 0 <= i < ws.len() implies lookup(self.colour_key@, trimmed(#[trigger] ws[i])) is Some by {
                lemma_lookup_after_covers(start, ws, dv, ws.len() as int, i);
            }
            assert forall|v: Seq<char>| #[trigger] lookup(start, v) is Some implies lookup(self.colour_key@, v) == lookup(
                start,
                v,
            ) by {
                lemma_lookup_after_keeps(start, ws, dv, ws.len() as int, v);
            }
            assert forall|v: Seq<char>| #[trigger] lookup(start, v) is None && lookup(self.colour_key@, v) is Some implies palette_spec().contains(
                lookup(self.colour_key@, v)->0,
            ) by {
                lemma_lookup_after_drawn(start, ws, dv, ws.len() as int, v);
            }
        }
        r
    }

    /// Starts a fresh key for the given lines: each word of theirs, in
    /// order, that the key lacks gets the colour of its class, or else the
    /// colour drawn at its place among all the words (the terminal default
    /// where `drawn` is too short).
    pub fn init_drawn(&mut self, lines: Vec<String>, drawn: &Vec<Colour>)
        ensures
            final(self).wf(),
            forall|v: Seq<char>| #[trigger] lookup(final(self).colour_key@, v) == lookup_init(
                all_pieces(string_views(lines@)),
                drawn@,
                all_pieces(string_views(lines@)).len() as int,
                v,
            ),
    {
        let words = all_words(&lines);
        let ghost ws = string_views(words@);
        self.colour_key = Vec::new();
        let mut i: usize = 0;
        while i < words.len()
            invariant
                ws == string_views(words@),
                ws == all_pieces(string_views(lines@)),
                i <= words@.len(),
                self.wf(),
                forall|v: Seq<char>| #[trigger] lookup(self.colour_key@, v) == lookup_init(ws, drawn@, i as int, v),
            decreases words@.len() - i,
        {
            let t = trim(words[i].as_str());
            assert(t@ == trimmed(ws[i as int]));
            let ghost key = self.colour_key@;
            match self.find(&t) {
                Some(_) => {},
                None => {
                    let c = match classify(words[i].as_str()) {
                        Some(c) => c,
                        None => if i < drawn.len() { drawn[i] } else { Colour::Reset },
                    };
                    self.add(t, c);
                },
            }
            assert forall|v: Seq<char>| #[trigger] lookup(self.colour_key@, v) == lookup_init(ws, drawn@, i + 1, v) by {
                assert(lookup(key, v) == lookup_init(ws, drawn@, i as int, v));
            }
            i = i + 1;
        }
    }

    /// Starts a fresh key for the given lines as `init_drawn` does, drawing
    /// the colours of words without a class from the palette.
    pub fn init(&mut self, lines: Vec<String>)
        ensures
            final(self).wf(),
            forall|i: int| 0 <= i < all_pieces(string_views(lines@)).len() ==> lookup(
                final(self).colour_key@,
                trimmed(#[trigger] all_pieces(string_views(lines@))[i]),
            ) is Some,
            forall|v: Seq<char>| #[trigger] lookup(final(self).colour_key@, v) matches Some(c) ==> exists|i: int|
                0 <= i < all_pieces(string_views(lines@)).len() && trimmed(
                    #[trigger] all_pieces(string_views(lines@))[i],
                ) == v && class_or_palette(all_pieces(string_views(lines@))[i], c),
    {
        let n = all_words(&lines).len();
        let mut drawn: Vec<Colour> = Vec::new();
        while drawn.len() < n
            invariant
                drawn@.len() <= n,
                forall|j: int| 0 <= j < drawn@.len() ==> palette_spec().contains(#[trigger] drawn@[j]),
            decreases n - drawn@.len(),
        {
            drawn.push(SyntaxHighlighter::random_colour());
        }
        let ghost ws = all_pieces(string_views(lines@));
        let ghost dv = drawn@;
        self.init_drawn(lines, &drawn);
        proof {
            assert forall|i: int| 0 <= i < ws.len() implies lookup(self.colour_key@, trimmed(#[trigger] ws[i])) is Some by {
                lemma_lookup_init_covers(ws, dv, ws.len() as int, i);
            }
            assert forall|v: Seq<char>| #[trigger] lookup(self.colour_key@, v) is Some implies exists|i: int|
                0 <= i < ws.len() && trimmed(#[trigger] ws[i]) == v && class_or_palette(
                    ws[i],
                    lookup(self.colour_key@, v)->0,
                ) by {
                lemma_lookup_init_justified(ws, dv, ws.len() as int, v);
            }
        }
    }
}

} // verus!
