use std::ops::Range;
use vstd::prelude::*;

use crate::cursor::EditorPosition;
use crate::text::{
    chars_of, is_space, skip_spaces, skip_whitespace, lemma_pieces_len, pieces, spliced,
    split_pieces, string_of, texts, RawText, WrappedText,
};

verus! {

/// How a line is shown: the first line of a heading (with its level), a line that carries
/// a heading on, or an ordinary line.
#[derive(Debug, Clone, Copy, PartialEq, Eq, Structural)]
pub enum LineType {
    HeadlineStart(usize),
    HeadlineNotStart,
    Normal,
}

/// One line of the document and its kind.
#[derive(Debug, Clone)]
pub struct Line {
    pub text: String,
    pub kind: LineType,
}

/// The first column of a line of kind `k`: a heading's marker (`#` per level and a space)
/// takes the columns before 0.
pub open spec fn begin_of(k: LineType) -> int {
    match k {
        LineType::HeadlineStart(level) => -(level + 1),
        _ => 0,
    }
}

/// How many characters at the start of a line of kind `k` are hidden before column 0.
pub open spec fn hidden_of(k: LineType) -> int {
    -begin_of(k)
}

/// The last column of a line of `len` characters and kind `k`.
pub open spec fn end_of(len: int, k: LineType) -> int {
    len - hidden_of(k)
}

/// `x` held within `[lo, hi]`, the bound `lo` first.
pub open spec fn clamp_to(x: int, lo: int, hi: int) -> int {
    if x < lo {
        lo
    } else if x > hi {
        hi
    } else {
        x
    }
}

impl Line {
    /// The line's length and level fit the column type.
    pub open spec fn fits(&self) -> bool {
        &&& self.text@.len() <= isize::MAX
        &&& self.kind matches LineType::HeadlineStart(level) ==> level < isize::MAX
    }

    pub fn beginning(&self) -> (r: isize)
        requires
            self.fits(),
        ensures
            r == begin_of(self.kind),
    {
        match self.kind {
            LineType::HeadlineStart(level) => -(level as isize) - 1,
            LineType::HeadlineNotStart => 0,
            LineType::Normal => 0,
        }
    }

    pub fn end(&self) -> (r: isize)
        requires
            self.fits(),
        ensures
            r == end_of(self.text@.len() as int, self.kind),
    {
        let len = self.length() as isize;
        match self.kind {
            LineType::HeadlineStart(level) => len - (level as isize) - 1,
            LineType::HeadlineNotStart => len,
            LineType::Normal => len,
        }
    }

    /// The number of characters in the line, its marker included.
    pub fn length(&self) -> (r: usize)
        ensures
            r == self.text@.len(),
    {
        self.text.as_str().unicode_len()
    }

    /// `preferred_x` held within the line's columns.
    pub fn clamp_x(&self, preferred_x: isize) -> (r: isize)
        requires
            self.fits(),
        ensures
            r == clamp_to(
                preferred_x as int,
                begin_of(self.kind),
                end_of(self.text@.len() as int, self.kind),
            ),
    {
        if preferred_x < self.beginning() {
            return self.beginning();
        }
        if preferred_x > self.end() {
            return self.end();
        }
        preferred_x
    }
}

/// How many `#` characters run from index `i` of `t`.
pub open spec fn hash_run(t: Seq<char>, i: int) -> int
    decreases t.len() - i,
{
    if i < 0 || i >= t.len() || t[i] != '#' {
        0
    } else {
        1 + hash_run(t, i + 1)
    }
}

/// The level of a heading line: the `#` characters after its leading whitespace.
pub open spec fn level_of(t: Seq<char>) -> int {
    hash_run(t, skip_spaces(t, 0))
}

/// Whether `t`, after its leading whitespace, starts with one to six `#` characters and a
/// space.
pub open spec fn is_headline_text(t: Seq<char>) -> bool {
    let s = skip_spaces(t, 0);
    let h = hash_run(t, s);
    &&& 1 <= h <= 6
    &&& s + h < t.len()
    &&& t[s + h] == ' '
}

/// Whether, after the first `n` of `ls`, a heading carries on: a heading line starts one,
/// an empty line ends it.
pub open spec fn inside_after(ls: Seq<Seq<char>>, n: int) -> bool
    decreases n,
{
    if n <= 0 {
        false
    } else if ls[n - 1].len() == 0 {
        false
    } else if is_headline_text(ls[n - 1]) {
        true
    } else {
        inside_after(ls, n - 1)
    }
}

/// The kind of line `i` of `ls`.
pub open spec fn kind_of(ls: Seq<Seq<char>>, i: int) -> LineType {
    if is_headline_text(ls[i]) {
        LineType::HeadlineStart(level_of(ls[i]) as usize)
    } else if inside_after(ls, i + 1) {
        LineType::HeadlineNotStart
    } else {
        LineType::Normal
    }
}

/// The lines of the document `t`: one per newline-delimited line, and an empty line at the
/// end where the text does not already end in one.
pub open spec fn doc_lines(t: Seq<char>) -> Seq<Seq<char>> {
    let p = pieces(t);
    if p.last().len() == 0 {
        p
    } else {
        p.push(Seq::<char>::empty())
    }
}

/// The offset at which line `y` of `ls` starts: each line before it, and its newline.
pub open spec fn line_start(ls: Seq<Seq<char>>, y: int) -> int
    decreases y,
{
    if y <= 0 {
        0
    } else {
        line_start(ls, y - 1) + ls[y - 1].len() + 1
    }
}

/// The offset of column `x` of line `y` of the document `t`, floored at 0.
pub open spec fn offset_at(t: Seq<char>, y: int, x: int) -> int {
    let ls = doc_lines(t);
    let o = line_start(ls, y) + hidden_of(kind_of(ls, y)) + x;
    if o < 0 {
        0
    } else {
        o
    }
}

/// The first line, from `y` on, that ends at or after offset `o`; the number of lines where
/// none does.
pub open spec fn find_line(ls: Seq<Seq<char>>, o: int, y: int) -> int
    decreases ls.len() - y,
{
    if y >= ls.len() {
        ls.len() as int
    } else if o <= line_start(ls, y) + ls[y].len() {
        y
    } else {
        find_line(ls, o, y + 1)
    }
}

/// The position of offset `o` in the document `t`: its line and its column there; the end
/// of the document for an offset past it.
pub open spec fn position_at(t: Seq<char>, o: int) -> (int, int) {
    let ls = doc_lines(t);
    let y = find_line(ls, o, 0);
    if y < ls.len() {
        (y, o - line_start(ls, y) - hidden_of(kind_of(ls, y)))
    } else {
        let last = ls.len() - 1;
        (last, end_of(ls[last].len() as int, kind_of(ls, last)))
    }
}

/// Whether `p` addresses a line of the document `t` and a column within it.
pub open spec fn valid_position(t: Seq<char>, p: EditorPosition) -> bool {
    let ls = doc_lines(t);
    &&& p.y < ls.len()
    &&& begin_of(kind_of(ls, p.y as int)) <= p.x <= end_of(
        ls[p.y as int].len() as int,
        kind_of(ls, p.y as int),
    )
}

proof fn lemma_line_start_same(a: Seq<Seq<char>>, b: Seq<Seq<char>>, y: int)
    requires
        0 <= y <= a.len(),
        y <= b.len(),
        forall|i: int| 0 <= i < y ==> a[i].len() == b[i].len(),
    ensures
        line_start(a, y) == line_start(b, y),
    decreases y,
{
    if y > 0 {
        lemma_line_start_same(a, b, y - 1);
    }
}

proof fn lemma_line_start_mono(ls: Seq<Seq<char>>, a: int, b: int)
    requires
        0 <= a <= b,
    ensures
        line_start(ls, a) + (b - a) <= line_start(ls, b),
    decreases b - a,
{
    if a < b {
        lemma_line_start_mono(ls, a, b - 1);
    }
}

proof fn lemma_pieces_total(t: Seq<char>)
    ensures
        line_start(pieces(t), pieces(t).len() as int) == t.len() + 1,
    decreases t.len(),
{
    lemma_pieces_len(t);
    if t.len() == 0 {
        assert(pieces(t) == seq![Seq::<char>::empty()]);
        assert(line_start(pieces(t), 1) == line_start(pieces(t), 0) + 1);
    } else {
        let u = t.drop_last();
        lemma_pieces_total(u);
        lemma_pieces_len(u);
        let p = pieces(u);
        if t.last() == '\n' {
            let q = p.push(Seq::<char>::empty());
            assert(pieces(t) == q);
            lemma_line_start_same(q, p, p.len() as int);
            assert(line_start(q, q.len() as int) == line_start(q, p.len() as int) + 1);
        } else {
            let q = p.update(p.len() - 1, p.last().push(t.last()));
            assert(pieces(t) == q);
            lemma_line_start_same(q, p, p.len() - 1);
            assert(line_start(q, q.len() as int) == line_start(q, p.len() - 1) + q[p.len() - 1].len() + 1);
            assert(line_start(p, p.len() as int) == line_start(p, p.len() - 1) + p[p.len() - 1].len() + 1);
        }
    }
}

/// Every line of the document lies within its text, and one past it at most.
pub proof fn lemma_doc_lines_bounds(t: Seq<char>)
    ensures
        doc_lines(t).len() >= 1,
        doc_lines(t).last().len() == 0,
        forall|y: int|
            0 <= y < doc_lines(t).len() ==> line_start(doc_lines(t), y) + #[trigger] doc_lines(
                t,
            )[y].len() <= t.len() + 1,
{
    lemma_pieces_len(t);
    lemma_pieces_total(t);
    let p = pieces(t);
    let ls = doc_lines(t);
    if p.last().len() != 0 {
        lemma_line_start_same(ls, p, p.len() as int);
    }
    assert forall|y: int| 0 <= y < ls.len() implies line_start(ls, y) + #[trigger] ls[y].len()
        <= t.len() + 1 by {
        if p.last().len() == 0 {
            lemma_line_start_mono(ls, y + 1, ls.len() as int);
        } else if y < p.len() {
            lemma_line_start_mono(ls, y + 1, p.len() as int);
        } else {
        }
    }
}

/// A text short enough that every offset into it, and one past its end, fits a column.
pub open spec fn fits_text(t: Seq<char>) -> bool {
    t.len() < isize::MAX
}

/// Whether `l` is line `y` of the document `t`, with its kind.
pub open spec fn is_line_of(t: Seq<char>, y: int, l: Line) -> bool {
    &&& 0 <= y < doc_lines(t).len()
    &&& l.text@ == doc_lines(t)[y]
    &&& l.kind == kind_of(doc_lines(t), y)
}

pub(crate) proof fn lemma_kind_level(ls: Seq<Seq<char>>, i: int)
    requires
        0 <= i < ls.len(),
    ensures
        kind_of(ls, i) matches LineType::HeadlineStart(level) ==> 1 <= level <= 6 && level + 1
            <= ls[i].len(),
{
}

/// Each line of a document that fits is in bounds, and its columns run from its beginning
/// to its end.
pub proof fn lemma_line_fits(t: Seq<char>, y: int, l: Line)
    requires
        fits_text(t),
        is_line_of(t, y, l),
    ensures
        l.fits(),
        begin_of(l.kind) <= 0 <= end_of(l.text@.len() as int, l.kind),
{
    lemma_doc_lines_bounds(t);
    lemma_kind_level(doc_lines(t), y);
    assert(line_start(doc_lines(t), y) >= 0) by {
        lemma_line_start_mono(doc_lines(t), 0, y);
    }
}

pub(crate) proof fn lemma_line_start_nonneg(ls: Seq<Seq<char>>, y: int)
    requires
        0 <= y,
    ensures
        line_start(ls, y) >= 0,
{
    lemma_line_start_mono(ls, 0, y);
}

proof fn lemma_find_line_at(ls: Seq<Seq<char>>, o: int, k: int, y: int)
    requires
        0 <= k <= y < ls.len(),
        line_start(ls, y) <= o <= line_start(ls, y) + ls[y].len(),
    ensures
        find_line(ls, o, k) == y,
    decreases y - k,
{
    if k < y {
        lemma_line_start_mono(ls, k + 1, y);
        lemma_find_line_at(ls, o, k + 1, y);
    }
}

proof fn lemma_find_line_bounds(ls: Seq<Seq<char>>, o: int, k: int)
    requires
        0 <= k <= ls.len(),
        line_start(ls, k) <= o,
    ensures
        k <= find_line(ls, o, k) <= ls.len(),
        find_line(ls, o, k) < ls.len() ==> line_start(ls, find_line(ls, o, k)) <= o
            <= line_start(ls, find_line(ls, o, k)) + ls[find_line(ls, o, k)].len(),
    decreases ls.len() - k,
{
    if k < ls.len() && o > line_start(ls, k) + ls[k].len() {
        lemma_find_line_bounds(ls, o, k + 1);
    }
}

/// The position of any offset addresses a line of the document and a column within it.
pub proof fn lemma_position_at_valid(t: Seq<char>, o: int)
    requires
        fits_text(t),
        0 <= o,
    ensures
        ({
            let (y, x) = position_at(t, o);
            let ls = doc_lines(t);
            &&& 0 <= y < ls.len()
            &&& begin_of(kind_of(ls, y)) <= x <= end_of(ls[y].len() as int, kind_of(ls, y))
        }),
{
    let ls = doc_lines(t);
    lemma_doc_lines_bounds(t);
    lemma_find_line_bounds(ls, o, 0);
    let y = find_line(ls, o, 0);
    if y < ls.len() {
        lemma_kind_level(ls, y);
    } else {
        lemma_kind_level(ls, ls.len() - 1);
    }
}

/// The offset of a valid position lies within the text, or one past its end.
pub proof fn lemma_valid_offset(t: Seq<char>, p: EditorPosition)
    requires
        fits_text(t),
        valid_position(t, p),
    ensures
        offset_at(t, p.y as int, p.x as int) <= t.len() + 1,
{
    lemma_doc_lines_bounds(t);
    assert(line_start(doc_lines(t), p.y as int) + doc_lines(t)[p.y as int].len() <= t.len() + 1);
}

/// Converting a valid position to an offset and back gives the position again.
pub proof fn lemma_round_trip(t: Seq<char>, p: EditorPosition)
    requires
        valid_position(t, p),
    ensures
        position_at(t, offset_at(t, p.y as int, p.x as int)) == (p.y as int, p.x as int),
{
    let ls = doc_lines(t);
    lemma_line_start_mono(ls, 0, p.y as int);
    lemma_find_line_at(ls, offset_at(t, p.y as int, p.x as int), 0, p.y as int);
}

/// On a heading's first line of level `L`, the line begins at column `-(L + 1)`, and the
/// marker start and column 0 lie `L + 1` characters apart.
pub proof fn lemma_marker_addressing(t: Seq<char>, y: int)
    requires
        0 <= y < doc_lines(t).len(),
        kind_of(doc_lines(t), y) is HeadlineStart,
    ensures
        ({
            let level = kind_of(doc_lines(t), y)->HeadlineStart_0;
            &&& begin_of(kind_of(doc_lines(t), y)) == -(level + 1)
            &&& offset_at(t, y, 0) - offset_at(t, y, begin_of(kind_of(doc_lines(t), y)))
                == level + 1
        }),
{
    lemma_line_start_mono(doc_lines(t), 0, y);
}

/// A column clamped into a line lies between the line's beginning and its end.
pub proof fn lemma_clamp_bound(l: Line, preferred_x: int)
    ensures
        begin_of(l.kind) <= clamp_to(
            preferred_x,
            begin_of(l.kind),
            end_of(l.text@.len() as int, l.kind),
        ) <= end_of(l.text@.len() as int, l.kind),
{
}

/// The lines of the document `t`, as character vectors.
fn doc_line_chars(t: &Vec<char>) -> (r: Vec<Vec<char>>)
    ensures
        texts(r@) == doc_lines(t@),
{
    let mut ps = split_pieces(t);
    proof {
        lemma_pieces_len(t@);
    }
    if ps[ps.len() - 1].len() != 0 {
        let ghost old_ps = ps@;
        ps.push(Vec::new());
        assert(texts(ps@) == texts(old_ps).push(Seq::<char>::empty()));
    }
    ps
}

/// The number of leading whitespace characters of `t`, and the run of `#` after them.
pub(crate) fn marker_of(t: &Vec<char>) -> (r: (usize, usize))
    ensures
        r.0 == skip_spaces(t@, 0),
        r.1 == hash_run(t@, r.0 as int),
        r.0 + r.1 <= t@.len(),
{
    let s = skip_whitespace(t, 0);
    let mut e: usize = s;
    while e < t.len() && t[e] == '#'
        invariant
            s <= e <= t@.len(),
            hash_run(t@, s as int) == (e - s) + hash_run(t@, e as int),
        decreases t.len() - e,
    {
        e = e + 1;
    }
    (s, e - s)
}

/// The heading level of `t` where it is a heading line.
fn headline_level(t: &Vec<char>) -> (r: Option<usize>)
    ensures
        r is Some <==> is_headline_text(t@),
        r matches Some(l) ==> l == level_of(t@),
{
    let m = marker_of(t);
    let s = m.0;
    let h = m.1;
    if 1 <= h && h <= 6 && h < t.len() - s && t[s + h] == ' ' {
        Some(h)
    } else {
        None
    }
}

/// Whether `line`, after its leading whitespace, starts with one to six `#` characters and
/// a space.
pub fn is_headline(line: String) -> (r: bool)
    ensures
        r == is_headline_text(line@),
{
    let t = chars_of(line.as_str());
    match headline_level(&t) {
        Some(_) => true,
        None => false,
    }
}

/// The kinds of the lines `ls`.
fn line_kinds(ls: &Vec<Vec<char>>) -> (r: Vec<LineType>)
    ensures
        r@.len() == ls@.len(),
        forall|i: int| 0 <= i < ls@.len() ==> #[trigger] r@[i] == kind_of(texts(ls@), i),
{
    let ghost v = texts(ls@);
    let mut kinds: Vec<LineType> = Vec::new();
    let mut inside = false;
    let mut k: usize = 0;
    while k < ls.len()
        invariant
            k <= ls@.len(),
            v == texts(ls@),
            inside == inside_after(v, k as int),
            kinds@.len() == k,
            forall|i: int| 0 <= i < k ==> #[trigger] kinds@[i] == kind_of(v, i),
        decreases ls.len() - k,
    {
        let level = headline_level(&ls[k]);
        if let Some(_) = level {
            inside = true;
        }
        if ls[k].len() == 0 {
            inside = false;
        }
        let kind = match level {
            Some(l) => LineType::HeadlineStart(l),
            None => if inside {
                LineType::HeadlineNotStart
            } else {
                LineType::Normal
            },
        };
        kinds.push(kind);
        k = k + 1;
    }
    kinds
}

/// A document's text, read as classified lines and addressed by editor positions.
#[derive(Debug, Clone)]
pub struct Content {
    text: RawText,
}

impl View for Content {
    type V = Seq<char>;

    closed spec fn view(&self) -> Seq<char> {
        self.text@
    }
}

impl Content {
    pub fn new(text: String) -> (r: Content)
        ensures
            r@ == text@,
    {
        Content { text: RawText::new(text) }
    }

    pub fn empty() -> (r: Content)
        ensures
            r@ == Seq::<char>::empty(),
    {
        Content { text: RawText::empty() }
    }

    pub fn to_string(&self) -> (r: String)
        ensures
            r@ == self@,
    {
        self.text.to_string()
    }

    /// The text, for display in wrapped rows.
    pub fn text(&self) -> (r: WrappedText)
        ensures
            r@ == self@,
    {
        WrappedText::new(self.text.to_string())
    }

    /// The number of characters in the text.
    pub fn len(&self) -> (r: usize)
        ensures
            r == self@.len(),
    {
        self.text.len()
    }

    /// The lines of the text and their kinds.
    fn table(&self) -> (r: (Vec<Vec<char>>, Vec<LineType>))
        ensures
            texts(r.0@) == doc_lines(self@),
            r.1@.len() == r.0@.len(),
            forall|i: int|
                0 <= i < r.0@.len() ==> #[trigger] r.1@[i] == kind_of(doc_lines(self@), i),
    {
        let ls = doc_line_chars(self.text.chars());
        let kinds = line_kinds(&ls);
        (ls, kinds)
    }

    /// The lines of the text: one per newline-delimited line, and an empty one at the end
    /// where the text does not already end in one.
    pub fn lines(&self) -> (r: Vec<Line>)
        ensures
            r@.len() == doc_lines(self@).len(),
            forall|y: int| 0 <= y < r@.len() ==> is_line_of(self@, y, #[trigger] r@[y]),
    {
        let (ls, kinds) = self.table();
        let mut out: Vec<Line> = Vec::new();
        let mut y: usize = 0;
        while y < ls.len()
            invariant
                y <= ls@.len() == kinds@.len(),
                texts(ls@) == doc_lines(self@),
                forall|i: int|
                    0 <= i < ls@.len() ==> #[trigger] kinds@[i] == kind_of(doc_lines(self@), i),
                out@.len() == y,
                forall|i: int| 0 <= i < y ==> is_line_of(self@, i, #[trigger] out@[i]),
            decreases ls.len() - y,
        {
            let line = Line { text: string_of(ls[y].as_slice()), kind: kinds[y] };
            assert(ls@[y as int]@ == texts(ls@)[y as int]);
            out.push(line);
            y = y + 1;
        }
        out
    }

    /// How many lines there are.
    pub fn line_count(&self) -> (r: usize)
        ensures
            r == doc_lines(self@).len(),
            r >= 1,
    {
        proof {
            lemma_doc_lines_bounds(self@);
        }
        let (ls, _) = self.table();
        ls.len()
    }

    /// Line `index`.
    pub fn line(&self, index: usize) -> (r: Line)
        requires
            index < doc_lines(self@).len(),
        ensures
            is_line_of(self@, index as int, r),
    {
        let (ls, kinds) = self.table();
        assert(ls@[index as int]@ == texts(ls@)[index as int]);
        Line { text: string_of(ls[index].as_slice()), kind: kinds[index] }
    }

    /// Replaces the characters in `range` by `replacement`.
    pub fn replace(&mut self, range: Range<usize>, replacement: String)
        requires
            range.start <= range.end <= old(self)@.len(),
            fits_text(spliced(old(self)@, range.start as int, range.end as int, replacement@)),
        ensures
            final(self)@ == spliced(old(self)@, range.start as int, range.end as int, replacement@),
    {
        self.text.replace(range, replacement);
    }

    /// The characters in `range`.
    pub fn read_range(&self, range: Range<usize>) -> (r: String)
        requires
            range.start <= range.end <= self@.len(),
        ensures
            r@ == self@.subrange(range.start as int, range.end as int),
    {
        self.text.read_range(range)
    }

    /// The offset of `position`: the lines before it with their newlines, a heading's
    /// hidden marker, and the column; floored at 0.
    pub fn position_to_offset(&self, position: EditorPosition) -> (r: usize)
        requires
            fits_text(self@),
            position.y < doc_lines(self@).len(),
            offset_at(self@, position.y as int, position.x as int) <= usize::MAX,
        ensures
            r == offset_at(self@, position.y as int, position.x as int),
    {
        let ghost t = self@;
        let ghost lv = doc_lines(t);
        proof {
            lemma_doc_lines_bounds(t);
        }
        let (ls, kinds) = self.table();
        let mut offset: usize = 0;
        let mut k: usize = 0;
        while k < position.y
            invariant
                k <= position.y < ls@.len(),
                texts(ls@) == lv,
                lv == doc_lines(t),
                fits_text(t),
                forall|y: int|
                    0 <= y < lv.len() ==> line_start(lv, y) + #[trigger] lv[y].len() <= t.len()
                        + 1,
                offset == line_start(lv, k as int),
            decreases position.y - k,
        {
            assert(ls@[k as int]@ == lv[k as int]);
            offset = offset + ls[k].len() + 1;
            k = k + 1;
        }
        let hidden: usize = match kinds[position.y] {
            LineType::HeadlineStart(level) => level + 1,
            LineType::HeadlineNotStart => 0,
            LineType::Normal => 0,
        };
        proof {
            lemma_kind_level(lv, position.y as int);
            lemma_line_start_mono(lv, 0, position.y as int);
        }
        let o: i128 = offset as i128 + hidden as i128 + position.x as i128;
        if o < 0 {
            0
        } else {
            o as usize
        }
    }

    /// The position of `offset`: the line it falls in, and its column there; the end of the
    /// document for an offset past it.
    pub fn offset_to_position(&self, offset: usize) -> (r: EditorPosition)
        requires
            fits_text(self@),
        ensures
            (r.y as int, r.x as int) == position_at(self@, offset as int),
    {
        let ghost t = self@;
        let ghost lv = doc_lines(t);
        proof {
            lemma_doc_lines_bounds(t);
        }
        let (ls, kinds) = self.table();
        let mut x: usize = offset;
        let mut y: usize = 0;
        while y < ls.len() && x > ls[y].len()
            invariant
                y <= ls@.len(),
                texts(ls@) == lv,
                lv == doc_lines(t),
                x == offset - line_start(lv, y as int),
                find_line(lv, offset as int, y as int) == find_line(lv, offset as int, 0),
            decreases ls.len() - y,
        {
            assert(ls@[y as int]@ == lv[y as int]);
            x = x - ls[y].len() - 1;
            y = y + 1;
        }
        if y == ls.len() {
            let last = ls.len() - 1;
            assert(ls@[last as int]@ == lv[last as int]);
            proof {
                lemma_kind_level(lv, last as int);
            }
            let len = ls[last].len() as isize;
            let end = match kinds[last] {
                LineType::HeadlineStart(level) => len - level as isize - 1,
                LineType::HeadlineNotStart => len,
                LineType::Normal => len,
            };
            return EditorPosition::new(last, end);
        }
        assert(ls@[y as int]@ == lv[y as int]);
        proof {
            lemma_kind_level(lv, y as int);
            lemma_line_start_mono(lv, 0, y as int);
        }
        let hidden: isize = match kinds[y] {
            LineType::HeadlineStart(level) => level as isize + 1,
            LineType::HeadlineNotStart => 0,
            LineType::Normal => 0,
        };
        EditorPosition::new(y, x as isize - hidden)
    }
}

} // verus!
