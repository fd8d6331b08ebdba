use std::ops::Range;
use vstd::prelude::*;

use crate::buffer::Buffer;
use crate::content::{
    begin_of, clamp_to, doc_lines, end_of, fits_text, kind_of, lemma_doc_lines_bounds, valid_position,
    lemma_kind_level, lemma_line_fits, offset_at, position_at, Line,
    LineType,
};
use crate::cursor::{
    direction_of, largest_of, smallest_of, Cursor, EditLocation, EditorPosition, Selection,
    SelectionDirection,
};
use crate::text::{
    chars_of, clamped_range, next_boundary, previous_boundary, skip_spaces, skip_whitespace,
    spliced, WrappedText,
};

verus! {

/// The number of lines of the document `t`.
pub open spec fn count_of(t: Seq<char>) -> int {
    doc_lines(t).len() as int
}

/// The first column of line `y` of the document `t`.
pub open spec fn begin_at(t: Seq<char>, y: int) -> int {
    begin_of(kind_of(doc_lines(t), y))
}

/// The last column of line `y` of the document `t`.
pub open spec fn end_at(t: Seq<char>, y: int) -> int {
    end_of(doc_lines(t)[y].len() as int, kind_of(doc_lines(t), y))
}

/// The position at line `y`, column `x`.
pub open spec fn at(y: int, x: int) -> EditorPosition {
    EditorPosition { y: y as usize, x: x as isize }
}

/// One step left: the previous column, or the end of the previous line from a line's
/// beginning; unchanged at the beginning of the document.
pub open spec fn left_of(t: Seq<char>, p: EditorPosition) -> EditorPosition {
    if p.x == begin_at(t, p.y as int) {
        if p.y == 0 {
            p
        } else {
            at(p.y - 1, end_at(t, p.y - 1))
        }
    } else {
        at(p.y as int, p.x - 1)
    }
}

/// One step right: the next column, or column 0 of the next line from a line's end;
/// unchanged at the end of the document.
pub open spec fn right_of(t: Seq<char>, p: EditorPosition) -> EditorPosition {
    if p.x == end_at(t, p.y as int) {
        if p.y == count_of(t) - 1 {
            p
        } else {
            at(p.y + 1, 0)
        }
    } else {
        at(p.y as int, p.x + 1)
    }
}

/// One line up, at `preferred_x` held within that line; the beginning of the first line
/// from the first line.
pub open spec fn up_of(t: Seq<char>, p: EditorPosition, preferred_x: int) -> EditorPosition {
    if p.y == 0 {
        at(0, begin_at(t, 0))
    } else {
        at(p.y - 1, clamp_to(preferred_x, begin_at(t, p.y - 1), end_at(t, p.y - 1)))
    }
}

/// One line down, at `preferred_x` held within that line; the end of the last line from the
/// last line.
pub open spec fn down_of(t: Seq<char>, p: EditorPosition, preferred_x: int) -> EditorPosition {
    if p.y == count_of(t) - 1 {
        at(p.y as int, end_at(t, p.y as int))
    } else {
        at(p.y + 1, clamp_to(preferred_x, begin_at(t, p.y + 1), end_at(t, p.y + 1)))
    }
}

pub open spec fn line_beginning_of(t: Seq<char>, p: EditorPosition) -> EditorPosition {
    at(p.y as int, begin_at(t, p.y as int))
}

pub open spec fn line_end_of(t: Seq<char>, p: EditorPosition) -> EditorPosition {
    at(p.y as int, end_at(t, p.y as int))
}

pub open spec fn file_beginning_of(t: Seq<char>) -> EditorPosition {
    at(0, begin_at(t, 0))
}

pub open spec fn file_end_of(t: Seq<char>) -> EditorPosition {
    at(count_of(t) - 1, end_at(t, count_of(t) - 1))
}

/// Whether `l` holds whitespace only.
pub open spec fn is_blank(l: Seq<char>) -> bool {
    skip_spaces(l, 0) == l.len()
}

/// The start of the nearest word that starts before `p` on its line; where none does, the
/// start of the last word of the previous line, or that line's beginning where it is blank;
/// the beginning of the document from the first line.
pub open spec fn word_beginning_of(t: Seq<char>, p: EditorPosition) -> EditorPosition {
    let ls = doc_lines(t);
    let b = begin_at(t, p.y as int);
    match previous_boundary(ls[p.y as int], p.x - b) {
        Some(w) => at(p.y as int, b + w),
        None => if p.y == 0 {
            file_beginning_of(t)
        } else {
            let q = ls[p.y - 1];
            match previous_boundary(q, q.len() as int) {
                Some(w) => at(p.y - 1, begin_at(t, p.y - 1) + w),
                None => at(p.y - 1, begin_at(t, p.y - 1)),
            }
        },
    }
}

/// The start of the next word after `p` on its line, or the line's end where the last word
/// runs on to it; where only whitespace follows, the first word of the next line, or that
/// line's beginning where it is blank; the end of the line on the last line.
pub open spec fn word_end_of(t: Seq<char>, p: EditorPosition) -> EditorPosition {
    let ls = doc_lines(t);
    let b = begin_at(t, p.y as int);
    match next_boundary(ls[p.y as int], p.x - b) {
        Some(w) => at(p.y as int, b + w),
        None => if p.y >= count_of(t) - 1 {
            at(p.y as int, end_at(t, p.y as int))
        } else {
            let q = ls[p.y + 1];
            if is_blank(q) {
                at(p.y + 1, begin_at(t, p.y + 1))
            } else {
                at(p.y + 1, begin_at(t, p.y + 1) + skip_spaces(q, 0))
            }
        },
    }
}

/// Every line of a document that fits has columns from at least `-7` to its end, with 0
/// among them.
pub proof fn lemma_columns(t: Seq<char>, y: int)
    requires
        fits_text(t),
        0 <= y < count_of(t),
    ensures
        -7 <= begin_at(t, y) <= 0 <= end_at(t, y) <= isize::MAX,
        end_at(t, y) - begin_at(t, y) == doc_lines(t)[y].len(),
{
    lemma_doc_lines_bounds(t);
    lemma_kind_level(doc_lines(t), y);
    crate::content::lemma_line_start_nonneg(doc_lines(t), y);
    assert(crate::content::line_start(doc_lines(t), y) + doc_lines(t)[y].len() <= t.len() + 1);
}

/// The position of offset `o` of the document `t`.
pub open spec fn position_of(t: Seq<char>, o: int) -> EditorPosition {
    at(position_at(t, o).0, position_at(t, o).1)
}

/// The raw range that the positions `a` and `b` span, held within the text.
pub open spec fn span_of(t: Seq<char>, a: EditorPosition, b: EditorPosition) -> (int, int) {
    clamped_range(t.len() as int, offset_at(t, a.y as int, a.x as int), offset_at(t, b.y as int, b.x as int))
}

/// `t` with the span from `a` to `b` replaced by `r`.
pub open spec fn replaced(t: Seq<char>, a: EditorPosition, b: EditorPosition, r: Seq<char>) -> Seq<char> {
    spliced(t, span_of(t, a, b).0, span_of(t, a, b).1, r)
}

/// `p` brought onto the document `t`: its line held to the last, its column within that line.
pub open spec fn normalized(t: Seq<char>, p: EditorPosition) -> EditorPosition {
    let y = if p.y < count_of(t) {
        p.y as int
    } else {
        count_of(t) - 1
    };
    at(y, clamp_to(p.x as int, begin_at(t, y), end_at(t, y)))
}

/// The edit location `loc` brought onto the document `t`.
pub open spec fn normalized_location(t: Seq<char>, loc: EditLocation) -> EditLocation {
    match loc {
        EditLocation::Cursor(c) => EditLocation::Cursor(
            Cursor { position: normalized(t, c.position), preferred_x: c.preferred_x },
        ),
        EditLocation::Selection(s) => EditLocation::Selection(
            Selection { start: normalized(t, s.start), end: normalized(t, s.end) },
        ),
    }
}

/// A caret at `p` that aims for column `preferred_x`.
pub open spec fn cursor_at(p: EditorPosition, preferred_x: int) -> EditLocation {
    EditLocation::Cursor(Cursor { position: p, preferred_x: preferred_x as isize })
}

/// A selection from `start` to `end`; a caret where the two are equal.
pub open spec fn selecting(start: EditorPosition, end: EditorPosition) -> EditLocation {
    if start == end {
        cursor_at(start, start.x as int)
    } else {
        EditLocation::Selection(Selection { start, end })
    }
}

/// The caret's position, or a selection's anchor.
pub open spec fn anchor_of(loc: EditLocation) -> EditorPosition {
    match loc {
        EditLocation::Cursor(c) => c.position,
        EditLocation::Selection(s) => s.start,
    }
}

/// The caret's position, or a selection's earlier end.
pub open spec fn first_of(loc: EditLocation) -> EditorPosition {
    match loc {
        EditLocation::Cursor(c) => c.position,
        EditLocation::Selection(s) => smallest_of(s),
    }
}

/// The caret's position, or a selection's later end.
pub open spec fn last_of(loc: EditLocation) -> EditorPosition {
    match loc {
        EditLocation::Cursor(c) => c.position,
        EditLocation::Selection(s) => largest_of(s),
    }
}

/// The caret's position, or the end of a selection that its direction leads to.
pub open spec fn leading_of(loc: EditLocation) -> EditorPosition {
    match loc {
        EditLocation::Cursor(c) => c.position,
        EditLocation::Selection(s) => match direction_of(s) {
            SelectionDirection::Backwards => smallest_of(s),
            SelectionDirection::Forwards => largest_of(s),
        },
    }
}

/// The caret after a move to `p`, aiming for `p`'s column.
pub open spec fn moved(p: EditorPosition) -> EditLocation {
    cursor_at(p, p.x as int)
}

/// Whether typing `text` with location `loc` completes a heading marker: a single space
/// typed by a caret at the column of the heading's level, on a line that is a heading's
/// first line once it is typed.
pub open spec fn completes_marker(t2: Seq<char>, loc: EditLocation, text: Seq<char>) -> bool {
    &&& loc is Cursor
    &&& text == seq![' ']
    &&& loc->Cursor_0.position.y < count_of(t2)
    &&& kind_of(doc_lines(t2), loc->Cursor_0.position.y as int) matches LineType::HeadlineStart(
        level,
    ) && loc->Cursor_0.position.x == level
}

/// The caret after `text` replaced the span from `a` to `b` of `t`, giving `t2`.
pub open spec fn after_insert(
    t: Seq<char>,
    t2: Seq<char>,
    loc: EditLocation,
    a: EditorPosition,
    b: EditorPosition,
    text: Seq<char>,
) -> EditLocation {
    if completes_marker(t2, loc, text) {
        cursor_at(at(loc->Cursor_0.position.y as int, 0), 0)
    } else {
        moved(position_of(t2, span_of(t, a, b).0 + text.len()))
    }
}

/// The line where a line break typed at `a` leaves the caret in `t2`.
pub open spec fn break_line(t2: Seq<char>, a: EditorPosition) -> int {
    if a.y + 1 < count_of(t2) {
        a.y + 1
    } else {
        count_of(t2) - 1
    }
}

/// Whether the edit location `loc` addresses the document `t`.
pub open spec fn location_valid(t: Seq<char>, loc: EditLocation) -> bool {
    match loc {
        EditLocation::Cursor(c) => valid_position(t, c.position),
        EditLocation::Selection(s) => valid_position(t, s.start) && valid_position(t, s.end),
    }
}

/// Replacing the empty range at a valid position with nothing leaves the text, its lines
/// and every edit location that addresses it as they were.
pub proof fn lemma_empty_replace_is_identity(t: Seq<char>, p: EditorPosition, loc: EditLocation)
    requires
        valid_position(t, p),
    ensures
        replaced(t, p, p, Seq::empty()) == t,
        doc_lines(replaced(t, p, p, Seq::empty())) == doc_lines(t),
        location_valid(t, loc) ==> normalized_location(t, loc) == loc,
{
    let (s, e) = span_of(t, p, p);
    assert(s == e);
    assert(t.subrange(0, s) + Seq::<char>::empty() + t.subrange(s, t.len() as int) == t);
}

/// An editing session: a document and the place where the next command applies.
pub struct Editor {
    buffer: Buffer,
    edit_location: EditLocation,
}

impl Editor {
    /// The document's text.
    pub closed spec fn text(&self) -> Seq<char> {
        self.buffer.text()
    }

    /// Where the next command applies.
    pub closed spec fn location(&self) -> EditLocation {
        self.edit_location
    }

    /// The session's buffer.
    pub closed spec fn buffer_spec(&self) -> Buffer {
        self.buffer
    }

    /// The text fits, and the edit location addresses it.
    pub open spec fn wf(&self) -> bool {
        &&& fits_text(self.text())
        &&& location_valid(self.text(), self.location())
    }

    /// Line `y` of the document.
    fn line_at(&self, y: usize) -> (r: Line)
        requires
            fits_text(self.text()),
            y < count_of(self.text()),
        ensures
            r.text@ == doc_lines(self.text())[y as int],
            r.kind == kind_of(doc_lines(self.text()), y as int),
            r.fits(),
            begin_of(r.kind) == begin_at(self.text(), y as int),
            end_of(r.text@.len() as int, r.kind) == end_at(self.text(), y as int),
    {
        let line = self.buffer.line(y);
        proof {
            lemma_line_fits(self.text(), y as int, line);
        }
        line
    }

    pub fn left_position(&self, point: EditorPosition) -> (r: EditorPosition)
        requires
            self.wf(),
            valid_position(self.text(), point),
        ensures
            r == left_of(self.text(), point),
            valid_position(self.text(), r),
    {
        let line = self.line_at(point.y);
        if point.y == 0 && point.x == line.beginning() {
            return point;
        }
        if point.x == line.beginning() {
            let y = point.y - 1;
            let previous = self.line_at(y);
            proof {
                lemma_columns(self.text(), y as int);
            }
            return EditorPosition::new(y, previous.end());
        }
        EditorPosition::new(point.y, point.x - 1)
    }

    pub fn right_position(&self, point: EditorPosition) -> (r: EditorPosition)
        requires
            self.wf(),
            valid_position(self.text(), point),
        ensures
            r == right_of(self.text(), point),
            valid_position(self.text(), r),
    {
        let count = self.buffer.line_count();
        let line = self.line_at(point.y);
        if point.y == count - 1 && point.x == line.end() {
            return point;
        }
        if point.x == line.end() {
            proof {
                lemma_columns(self.text(), point.y + 1);
            }
            return EditorPosition::new(point.y + 1, 0);
        }
        EditorPosition::new(point.y, point.x + 1)
    }

    pub fn up_position(&self, point: EditorPosition, preferred_x: isize) -> (r: EditorPosition)
        requires
            self.wf(),
            valid_position(self.text(), point),
        ensures
            r == up_of(self.text(), point, preferred_x as int),
            valid_position(self.text(), r),
    {
        if point.y == 0 {
            let line = self.line_at(0);
            return EditorPosition::new(0, line.beginning());
        }
        let previous = self.line_at(point.y - 1);
        proof {
            lemma_columns(self.text(), point.y - 1);
        }
        EditorPosition::new(point.y - 1, previous.clamp_x(preferred_x))
    }

    pub fn down_position(&self, point: EditorPosition, preferred_x: isize) -> (r: EditorPosition)
        requires
            self.wf(),
            valid_position(self.text(), point),
        ensures
            r == down_of(self.text(), point, preferred_x as int),
            valid_position(self.text(), r),
    {
        let line = self.line_at(point.y);
        if point.y == self.buffer.line_count() - 1 {
            return EditorPosition::new(point.y, line.end());
        }
        let next = self.line_at(point.y + 1);
        proof {
            lemma_columns(self.text(), point.y + 1);
        }
        EditorPosition::new(point.y + 1, next.clamp_x(preferred_x))
    }

    pub fn beginning_of_file_position(&self) -> (r: EditorPosition)
        requires
            self.wf(),
        ensures
            r == file_beginning_of(self.text()),
            valid_position(self.text(), r),
    {
        proof {
            lemma_doc_lines_bounds(self.text());
            lemma_columns(self.text(), 0);
        }
        let line = self.line_at(0);
        EditorPosition::new(0, line.beginning())
    }

    pub fn end_of_file_position(&self) -> (r: EditorPosition)
        requires
            self.wf(),
        ensures
            r == file_end_of(self.text()),
            valid_position(self.text(), r),
    {
        let y = self.buffer.line_count() - 1;
        proof {
            lemma_columns(self.text(), y as int);
        }
        let line = self.line_at(y);
        EditorPosition::new(y, line.end())
    }

    pub fn beginning_of_line_position(&self, point: EditorPosition) -> (r: EditorPosition)
        requires
            self.wf(),
            valid_position(self.text(), point),
        ensures
            r == line_beginning_of(self.text(), point),
            valid_position(self.text(), r),
    {
        let line = self.line_at(point.y);
        EditorPosition::new(point.y, line.beginning())
    }

    pub fn end_of_line_position(&self, point: EditorPosition) -> (r: EditorPosition)
        requires
            self.wf(),
            valid_position(self.text(), point),
        ensures
            r == line_end_of(self.text(), point),
            valid_position(self.text(), r),
    {
        let line = self.line_at(point.y);
        EditorPosition::new(point.y, line.end())
    }

    pub fn beginning_of_word_position(&self, point: EditorPosition) -> (r: EditorPosition)
        requires
            self.wf(),
            valid_position(self.text(), point),
        ensures
            r == word_beginning_of(self.text(), point),
            valid_position(self.text(), r),
    {
        let ghost t = self.text();
        proof {
            lemma_columns(t, point.y as int);
        }
        let line = self.line_at(point.y);
        let beginning = line.beginning();
        let offset = (point.x - beginning) as usize;
        proof {
            crate::text::lemma_word_start_before_bounds(doc_lines(t)[point.y as int], offset as int);
        }
        let wrapped = WrappedText::new(line.text);
        if let Some(boundary) = wrapped.previous_word_boundary(offset) {
            return EditorPosition::new(point.y, beginning + boundary as isize);
        }
        if point.y == 0 {
            return self.beginning_of_file_position();
        }
        let y = point.y - 1;
        proof {
            lemma_columns(t, y as int);
        }
        let previous = self.line_at(y);
        let previous_beginning = previous.beginning();
        let length = previous.length();
        proof {
            crate::text::lemma_word_start_before_bounds(doc_lines(t)[y as int], length as int);
        }
        let wrapped = WrappedText::new(previous.text);
        match wrapped.previous_word_boundary(length) {
            Some(boundary) => EditorPosition::new(y, previous_beginning + boundary as isize),
            None => EditorPosition::new(y, previous_beginning),
        }
    }

    pub fn end_of_word_position(&self, point: EditorPosition) -> (r: EditorPosition)
        requires
            self.wf(),
            valid_position(self.text(), point),
        ensures
            r == word_end_of(self.text(), point),
            valid_position(self.text(), r),
    {
        let ghost t = self.text();
        proof {
            lemma_columns(t, point.y as int);
        }
        let line = self.line_at(point.y);
        let beginning = line.beginning();
        let end = line.end();
        let offset = (point.x - beginning) as usize;
        proof {
            crate::text::lemma_word_start_from_bounds(doc_lines(t)[point.y as int], offset + 1);
        }
        let wrapped = WrappedText::new(line.text);
        if let Some(boundary) = wrapped.next_word_boundary(offset) {
            return EditorPosition::new(point.y, beginning + boundary as isize);
        }
        let count = self.buffer.line_count();
        if point.y >= count - 1 {
            return EditorPosition::new(point.y, end);
        }
        let y = point.y + 1;
        proof {
            lemma_columns(t, y as int);
        }
        let next = self.line_at(y);
        let chars = chars_of(next.text.as_str());
        let spaces = skip_whitespace(&chars, 0);
        let next_beginning = next.beginning();
        if spaces == chars.len() {
            return EditorPosition::new(y, next_beginning);
        }
        EditorPosition::new(y, next_beginning + spaces as isize)
    }
}


impl Editor {
    pub fn new(buffer: Buffer) -> (r: Editor)
        requires
            fits_text(buffer.text()),
        ensures
            r.wf(),
            r.buffer_spec() == buffer,
            r.location() == cursor_at(at(0, 0), 0),
    {
        proof {
            lemma_doc_lines_bounds(buffer.text());
            lemma_columns(buffer.text(), 0);
        }
        Editor { buffer, edit_location: EditLocation::Cursor(Cursor::new(0, 0, 0)) }
    }

    pub fn buffer(&self) -> (r: &Buffer)
        ensures
            *r == self.buffer_spec(),
            r.text() == self.text(),
    {
        &self.buffer
    }

    pub fn edit_location(&self) -> (r: EditLocation)
        ensures
            r == self.location(),
    {
        self.edit_location
    }

    /// Whether `p` addresses a line of the document and a column within it.
    pub fn is_valid_position(&self, p: EditorPosition) -> (r: bool)
        requires
            fits_text(self.text()),
        ensures
            r == valid_position(self.text(), p),
    {
        if p.y >= self.buffer.line_count() {
            return false;
        }
        let line = self.line_at(p.y);
        line.beginning() <= p.x && p.x <= line.end()
    }

    /// `p` brought onto the document.
    fn normalize(&self, p: EditorPosition) -> (r: EditorPosition)
        requires
            fits_text(self.text()),
        ensures
            r == normalized(self.text(), p),
            valid_position(self.text(), r),
    {
        let count = self.buffer.line_count();
        let y = if p.y < count {
            p.y
        } else {
            count - 1
        };
        proof {
            lemma_columns(self.text(), y as int);
        }
        let line = self.line_at(y);
        EditorPosition::new(y, line.clamp_x(p.x))
    }

    /// The edit location brought onto the document.
    fn normalize_location(&mut self)
        requires
            fits_text(old(self).text()),
        ensures
            final(self).wf(),
            final(self).buffer_spec() == old(self).buffer_spec(),
            final(self).location() == normalized_location(old(self).text(), old(self).location()),
    {
        self.edit_location = match self.edit_location {
            EditLocation::Cursor(c) => EditLocation::Cursor(
                Cursor { position: self.normalize(c.position), preferred_x: c.preferred_x },
            ),
            EditLocation::Selection(s) => EditLocation::Selection(
                Selection { start: self.normalize(s.start), end: self.normalize(s.end) },
            ),
        };
    }

    /// Replaces the session's document, keeping the edit location on it.
    pub fn set_buffer(&mut self, buffer: Buffer)
        requires
            fits_text(buffer.text()),
        ensures
            final(self).wf(),
            final(self).buffer_spec() == buffer,
            final(self).location() == normalized_location(buffer.text(), old(self).location()),
    {
        self.buffer = buffer;
        self.normalize_location();
    }

    /// Starts an empty, unsaved-to-anywhere document.
    pub fn new_file(&mut self)
        ensures
            final(self).wf(),
            final(self).text() == Seq::<char>::empty(),
            !final(self).buffer_spec().file_set(),
            final(self).location() == normalized_location(
                Seq::<char>::empty(),
                old(self).location(),
            ),
    {
        self.set_buffer(Buffer::empty());
    }

    /// Records that the document was written to its storage target.
    pub fn mark_saved(&mut self)
        requires
            old(self).wf(),
        ensures
            final(self).wf(),
            final(self).text() == old(self).text(),
            final(self).location() == old(self).location(),
            final(self).buffer_spec().saved(),
            final(self).buffer_spec().file_set() == old(self).buffer_spec().file_set(),
    {
        self.buffer.mark_saved();
    }

    /// Associates a storage target with the document.
    pub fn set_file(&mut self)
        requires
            old(self).wf(),
        ensures
            final(self).wf(),
            final(self).text() == old(self).text(),
            final(self).location() == old(self).location(),
            final(self).buffer_spec().file_set(),
            final(self).buffer_spec().saved() == old(self).buffer_spec().saved(),
    {
        self.buffer.set_file();
    }

    /// Puts a caret at `position`, aiming for column `preferred_x`.
    pub fn move_to(&mut self, position: EditorPosition, preferred_x: isize)
        requires
            old(self).wf(),
            valid_position(old(self).text(), position),
        ensures
            final(self).wf(),
            final(self).buffer_spec() == old(self).buffer_spec(),
            final(self).location() == cursor_at(position, preferred_x as int),
    {
        self.edit_location = EditLocation::Cursor(Cursor { position, preferred_x });
    }

    /// Selects from `start` to `end`; puts a caret there where the two are equal.
    pub fn select(&mut self, start: EditorPosition, end: EditorPosition)
        requires
            old(self).wf(),
            valid_position(old(self).text(), start),
            valid_position(old(self).text(), end),
        ensures
            final(self).wf(),
            final(self).buffer_spec() == old(self).buffer_spec(),
            final(self).location() == selecting(start, end),
    {
        if start == end {
            self.move_to(start, start.x);
        } else {
            self.edit_location = EditLocation::Selection(Selection::new(start, end));
        }
    }

    /// Selects from the caret, or the selection's anchor, to `end`.
    pub fn select_to(&mut self, end: EditorPosition)
        requires
            old(self).wf(),
            valid_position(old(self).text(), end),
        ensures
            final(self).wf(),
            final(self).buffer_spec() == old(self).buffer_spec(),
            final(self).location() == selecting(anchor_of(old(self).location()), end),
    {
        let start = match self.edit_location {
            EditLocation::Cursor(cursor) => cursor.position,
            EditLocation::Selection(selection) => selection.start,
        };
        self.select(start, end);
    }

    /// The characters between two positions.
    pub fn read_range(&self, range: Range<EditorPosition>) -> (r: String)
        requires
            self.wf(),
            valid_position(self.text(), range.start),
            valid_position(self.text(), range.end),
        ensures
            r@ == self.text().subrange(
                span_of(self.text(), range.start, range.end).0,
                span_of(self.text(), range.start, range.end).1,
            ),
    {
        let (start, end) = self.span(range.start, range.end);
        self.buffer.read_range(start..end)
    }

    /// The raw range between two positions.
    fn span(&self, a: EditorPosition, b: EditorPosition) -> (r: (usize, usize))
        requires
            self.wf(),
            valid_position(self.text(), a),
            valid_position(self.text(), b),
        ensures
            (r.0 as int, r.1 as int) == span_of(self.text(), a, b),
    {
        proof {
            crate::content::lemma_valid_offset(self.text(), a);
            crate::content::lemma_valid_offset(self.text(), b);
        }
        let start = self.buffer.position_to_offset(a);
        let end = self.buffer.position_to_offset(b);
        let len = self.buffer.content_len();
        let s = if start < len {
            start
        } else {
            len
        };
        let e = if end < s {
            s
        } else if end < len {
            end
        } else {
            len
        };
        (s, e)
    }

    /// Replaces the characters between two positions; the edit location is then brought
    /// onto the new text.
    pub fn replace_range(&mut self, range: Range<EditorPosition>, replacement: String)
        requires
            old(self).wf(),
            valid_position(old(self).text(), range.start),
            valid_position(old(self).text(), range.end),
            old(self).text().len() + replacement@.len() < isize::MAX,
        ensures
            final(self).wf(),
            final(self).text() == replaced(old(self).text(), range.start, range.end, replacement@),
            final(self).location() == normalized_location(final(self).text(), old(self).location()),
            final(self).buffer_spec().file_set() == old(self).buffer_spec().file_set(),
            !final(self).buffer_spec().saved(),
    {
        let (start, end) = self.span(range.start, range.end);
        self.buffer.replace(start..end, replacement);
        self.normalize_location();
    }
}


impl Editor {
    /// The caret's position, or a selection's earlier end.
    fn first_point(&self) -> (r: EditorPosition)
        requires
            self.wf(),
        ensures
            r == first_of(self.location()),
            valid_position(self.text(), r),
    {
        match self.edit_location {
            EditLocation::Cursor(cursor) => cursor.position,
            EditLocation::Selection(selection) => selection.smallest(),
        }
    }

    /// The caret's position, or a selection's later end.
    fn last_point(&self) -> (r: EditorPosition)
        requires
            self.wf(),
        ensures
            r == last_of(self.location()),
            valid_position(self.text(), r),
    {
        match self.edit_location {
            EditLocation::Cursor(cursor) => cursor.position,
            EditLocation::Selection(selection) => selection.largest(),
        }
    }

    /// The caret's position, or the end of a selection that its direction leads to.
    fn leading_point(&self) -> (r: EditorPosition)
        requires
            self.wf(),
        ensures
            r == leading_of(self.location()),
            valid_position(self.text(), r),
    {
        match self.edit_location {
            EditLocation::Cursor(cursor) => cursor.position,
            EditLocation::Selection(selection) => match selection.direction() {
                SelectionDirection::Backwards => selection.smallest(),
                SelectionDirection::Forwards => selection.largest(),
            },
        }
    }

    pub fn move_left(&mut self)
        requires
            old(self).wf(),
        ensures
            final(self).wf(),
            final(self).buffer_spec() == old(self).buffer_spec(),
            final(self).location() == moved(left_of(old(self).text(), first_of(old(self).location()))),
    {
        let position = self.left_position(self.first_point());
        self.move_to(position, position.x);
    }

    pub fn move_right(&mut self)
        requires
            old(self).wf(),
        ensures
            final(self).wf(),
            final(self).buffer_spec() == old(self).buffer_spec(),
            final(self).location() == moved(right_of(old(self).text(), last_of(old(self).location()))),
    {
        let position = self.right_position(self.last_point());
        self.move_to(position, position.x);
    }

    /// One line up from the caret, aiming for its preferred column; from a selection, from
    /// its earlier end, aiming for that end's column and then for the column reached.
    pub fn move_up(&mut self)
        requires
            old(self).wf(),
        ensures
            final(self).wf(),
            final(self).buffer_spec() == old(self).buffer_spec(),
            final(self).location() == (match old(self).location() {
                EditLocation::Cursor(c) => cursor_at(
                    up_of(old(self).text(), c.position, c.preferred_x as int),
                    c.preferred_x as int,
                ),
                EditLocation::Selection(s) => moved(
                    up_of(old(self).text(), smallest_of(s), smallest_of(s).x as int),
                ),
            }),
    {
        match self.edit_location {
            EditLocation::Cursor(cursor) => {
                let position = self.up_position(cursor.position, cursor.preferred_x);
                self.move_to(position, cursor.preferred_x);
            },
            EditLocation::Selection(selection) => {
                let start = selection.smallest();
                let position = self.up_position(start, start.x);
                self.move_to(position, position.x);
            },
        }
    }

    /// One line down from the caret, aiming for its preferred column; from a selection,
    /// from its later end, aiming for that end's column and then for the column reached.
    pub fn move_down(&mut self)
        requires
            old(self).wf(),
        ensures
            final(self).wf(),
            final(self).buffer_spec() == old(self).buffer_spec(),
            final(self).location() == (match old(self).location() {
                EditLocation::Cursor(c) => cursor_at(
                    down_of(old(self).text(), c.position, c.preferred_x as int),
                    c.preferred_x as int,
                ),
                EditLocation::Selection(s) => moved(
                    down_of(old(self).text(), largest_of(s), largest_of(s).x as int),
                ),
            }),
    {
        match self.edit_location {
            EditLocation::Cursor(cursor) => {
                let position = self.down_position(cursor.position, cursor.preferred_x);
                self.move_to(position, cursor.preferred_x);
            },
            EditLocation::Selection(selection) => {
                let end = selection.largest();
                let position = self.down_position(end, end.x);
                self.move_to(position, position.x);
            },
        }
    }

    pub fn move_beginning_of_file(&mut self)
        requires
            old(self).wf(),
        ensures
            final(self).wf(),
            final(self).buffer_spec() == old(self).buffer_spec(),
            final(self).location() == moved(file_beginning_of(old(self).text())),
    {
        let position = self.beginning_of_file_position();
        self.move_to(position, position.x);
    }

    pub fn move_end_of_file(&mut self)
        requires
            old(self).wf(),
        ensures
            final(self).wf(),
            final(self).buffer_spec() == old(self).buffer_spec(),
            final(self).location() == moved(file_end_of(old(self).text())),
    {
        let position = self.end_of_file_position();
        self.move_to(position, position.x);
    }

    pub fn move_beginning_of_line(&mut self)
        requires
            old(self).wf(),
        ensures
            final(self).wf(),
            final(self).buffer_spec() == old(self).buffer_spec(),
            final(self).location() == moved(
                line_beginning_of(old(self).text(), leading_of(old(self).location())),
            ),
    {
        let position = self.beginning_of_line_position(self.leading_point());
        self.move_to(position, position.x);
    }

    pub fn move_end_of_line(&mut self)
        requires
            old(self).wf(),
        ensures
            final(self).wf(),
            final(self).buffer_spec() == old(self).buffer_spec(),
            final(self).location() == moved(
                line_end_of(old(self).text(), leading_of(old(self).location())),
            ),
    {
        let position = self.end_of_line_position(self.leading_point());
        self.move_to(position, position.x);
    }

    pub fn move_beginning_of_word(&mut self)
        requires
            old(self).wf(),
        ensures
            final(self).wf(),
            final(self).buffer_spec() == old(self).buffer_spec(),
            final(self).location() == moved(
                word_beginning_of(old(self).text(), first_of(old(self).location())),
            ),
    {
        let position = self.beginning_of_word_position(self.first_point());
        self.move_to(position, position.x);
    }

    pub fn move_end_of_word(&mut self)
        requires
            old(self).wf(),
        ensures
            final(self).wf(),
            final(self).buffer_spec() == old(self).buffer_spec(),
            final(self).location() == moved(
                word_end_of(old(self).text(), last_of(old(self).location())),
            ),
    {
        let position = self.end_of_word_position(self.last_point());
        self.move_to(position, position.x);
    }

    pub fn select_left(&mut self)
        requires
            old(self).wf(),
        ensures
            final(self).wf(),
            final(self).buffer_spec() == old(self).buffer_spec(),
            final(self).location() == (match old(self).location() {
                EditLocation::Cursor(c) => selecting(
                    c.position,
                    left_of(old(self).text(), c.position),
                ),
                EditLocation::Selection(s) => selecting(s.start, left_of(old(self).text(), s.end)),
            }),
    {
        match self.edit_location {
            EditLocation::Cursor(cursor) => {
                let end = self.left_position(cursor.position);
                self.select(cursor.position, end);
            },
            EditLocation::Selection(selection) => {
                let end = self.left_position(selection.end);
                self.select(selection.start, end);
            },
        }
    }

    pub fn select_right(&mut self)
        requires
            old(self).wf(),
        ensures
            final(self).wf(),
            final(self).buffer_spec() == old(self).buffer_spec(),
            final(self).location() == (match old(self).location() {
                EditLocation::Cursor(c) => selecting(
                    c.position,
                    right_of(old(self).text(), c.position),
                ),
                EditLocation::Selection(s) => selecting(s.start, right_of(old(self).text(), s.end)),
            }),
    {
        match self.edit_location {
            EditLocation::Cursor(cursor) => {
                let end = self.right_position(cursor.position);
                self.select(cursor.position, end);
            },
            EditLocation::Selection(selection) => {
                let end = self.right_position(selection.end);
                self.select(selection.start, end);
            },
        }
    }

    /// Moves the selection's end one line up: aiming for the anchor's column where the
    /// selection runs backwards, for the end's own column otherwise.
    pub fn select_up(&mut self)
        requires
            old(self).wf(),
        ensures
            final(self).wf(),
            final(self).buffer_spec() == old(self).buffer_spec(),
            final(self).location() == (match old(self).location() {
                EditLocation::Cursor(c) => selecting(
                    c.position,
                    up_of(old(self).text(), c.position, c.position.x as int),
                ),
                EditLocation::Selection(s) => selecting(
                    s.start,
                    up_of(
                        old(self).text(),
                        s.end,
                        if direction_of(s) == SelectionDirection::Backwards {
                            s.start.x as int
                        } else {
                            s.end.x as int
                        },
                    ),
                ),
            }),
    {
        match self.edit_location {
            EditLocation::Cursor(cursor) => {
                let end = self.up_position(cursor.position, cursor.position.x);
                self.select_to(end);
            },
            EditLocation::Selection(selection) => match selection.direction() {
                SelectionDirection::Backwards => {
                    let end = self.up_position(selection.end, selection.start.x);
                    self.select_to(end);
                },
                SelectionDirection::Forwards => {
                    let end = self.up_position(selection.end, selection.end.x);
                    self.select(selection.start, end);
                },
            },
        }
    }

    /// Moves the selection's end one line down: aiming for the end's own column where the
    /// selection runs backwards, for the anchor's column otherwise.
    pub fn select_down(&mut self)
        requires
            old(self).wf(),
        ensures
            final(self).wf(),
            final(self).buffer_spec() == old(self).buffer_spec(),
            final(self).location() == (match old(self).location() {
                EditLocation::Cursor(c) => selecting(
                    c.position,
                    down_of(old(self).text(), c.position, c.position.x as int),
                ),
                EditLocation::Selection(s) => selecting(
                    s.start,
                    down_of(
                        old(self).text(),
                        s.end,
                        if direction_of(s) == SelectionDirection::Backwards {
                            s.end.x as int
                        } else {
                            s.start.x as int
                        },
                    ),
                ),
            }),
    {
        match self.edit_location {
            EditLocation::Cursor(cursor) => {
                let end = self.down_position(cursor.position, cursor.position.x);
                self.select_to(end);
            },
            EditLocation::Selection(selection) => match selection.direction() {
                SelectionDirection::Backwards => {
                    let end = self.down_position(selection.end, selection.end.x);
                    self.select(selection.start, end);
                },
                SelectionDirection::Forwards => {
                    let end = self.down_position(selection.end, selection.start.x);
                    self.select_to(end);
                },
            },
        }
    }

    pub fn select_beginning_of_file(&mut self)
        requires
            old(self).wf(),
        ensures
            final(self).wf(),
            final(self).buffer_spec() == old(self).buffer_spec(),
            final(self).location() == selecting(
                anchor_of(old(self).location()),
                file_beginning_of(old(self).text()),
            ),
    {
        let end = self.beginning_of_file_position();
        self.select_to(end);
    }

    pub fn select_end_of_file(&mut self)
        requires
            old(self).wf(),
        ensures
            final(self).wf(),
            final(self).buffer_spec() == old(self).buffer_spec(),
            final(self).location() == selecting(
                anchor_of(old(self).location()),
                file_end_of(old(self).text()),
            ),
    {
        let end = self.end_of_file_position();
        self.select_to(end);
    }

    pub fn select_beginning_of_line(&mut self)
        requires
            old(self).wf(),
        ensures
            final(self).wf(),
            final(self).buffer_spec() == old(self).buffer_spec(),
            final(self).location() == (match old(self).location() {
                EditLocation::Cursor(c) => selecting(
                    c.position,
                    line_beginning_of(old(self).text(), c.position),
                ),
                EditLocation::Selection(s) => selecting(
                    s.start,
                    line_beginning_of(old(self).text(), s.end),
                ),
            }),
    {
        match self.edit_location {
            EditLocation::Cursor(cursor) => {
                let end = self.beginning_of_line_position(cursor.position);
                self.select(cursor.position, end);
            },
            EditLocation::Selection(selection) => {
                let end = self.beginning_of_line_position(selection.end);
                self.select(selection.start, end);
            },
        }
    }

    pub fn select_end_of_line(&mut self)
        requires
            old(self).wf(),
        ensures
            final(self).wf(),
            final(self).buffer_spec() == old(self).buffer_spec(),
            final(self).location() == (match old(self).location() {
                EditLocation::Cursor(c) => selecting(
                    c.position,
                    line_end_of(old(self).text(), c.position),
                ),
                EditLocation::Selection(s) => selecting(s.start, line_end_of(old(self).text(), s.end)),
            }),
    {
        match self.edit_location {
            EditLocation::Cursor(cursor) => {
                let end = self.end_of_line_position(cursor.position);
                self.select(cursor.position, end);
            },
            EditLocation::Selection(selection) => {
                let end = self.end_of_line_position(selection.end);
                self.select(selection.start, end);
            },
        }
    }

    pub fn select_beginning_of_word(&mut self)
        requires
            old(self).wf(),
        ensures
            final(self).wf(),
            final(self).buffer_spec() == old(self).buffer_spec(),
            final(self).location() == (match old(self).location() {
                EditLocation::Cursor(c) => selecting(
                    c.position,
                    word_beginning_of(old(self).text(), c.position),
                ),
                EditLocation::Selection(s) => selecting(
                    s.start,
                    word_beginning_of(old(self).text(), s.end),
                ),
            }),
    {
        match self.edit_location {
            EditLocation::Cursor(cursor) => {
                let end = self.beginning_of_word_position(cursor.position);
                self.select(cursor.position, end);
            },
            EditLocation::Selection(selection) => {
                let end = self.beginning_of_word_position(selection.end);
                self.select(selection.start, end);
            },
        }
    }

    pub fn select_end_of_word(&mut self)
        requires
            old(self).wf(),
        ensures
            final(self).wf(),
            final(self).buffer_spec() == old(self).buffer_spec(),
            final(self).location() == (match old(self).location() {
                EditLocation::Cursor(c) => selecting(
                    c.position,
                    word_end_of(old(self).text(), c.position),
                ),
                EditLocation::Selection(s) => selecting(s.start, word_end_of(old(self).text(), s.end)),
            }),
    {
        match self.edit_location {
            EditLocation::Cursor(cursor) => {
                let end = self.end_of_word_position(cursor.position);
                self.select(cursor.position, end);
            },
            EditLocation::Selection(selection) => {
                let end = self.end_of_word_position(selection.end);
                self.select(selection.start, end);
            },
        }
    }

    pub fn select_all(&mut self)
        requires
            old(self).wf(),
        ensures
            final(self).wf(),
            final(self).buffer_spec() == old(self).buffer_spec(),
            final(self).location() == selecting(
                file_beginning_of(old(self).text()),
                file_end_of(old(self).text()),
            ),
    {
        let start = self.beginning_of_file_position();
        let end = self.end_of_file_position();
        self.select(start, end);
    }

    /// Drops a selection, leaving a caret at its anchor.
    pub fn remove_selection(&mut self)
        requires
            old(self).wf(),
        ensures
            final(self).wf(),
            final(self).buffer_spec() == old(self).buffer_spec(),
            final(self).location() == (match old(self).location() {
                EditLocation::Cursor(c) => old(self).location(),
                EditLocation::Selection(s) => moved(s.start),
            }),
    {
        if let EditLocation::Selection(selection) = self.edit_location {
            self.move_to(selection.start, selection.start.x);
        }
    }
}


impl Editor {
    /// The position of `offset`, which addresses the document.
    fn position_of_offset(&self, offset: usize) -> (r: EditorPosition)
        requires
            fits_text(self.text()),
        ensures
            r == position_of(self.text(), offset as int),
            valid_position(self.text(), r),
    {
        proof {
            crate::content::lemma_position_at_valid(self.text(), offset as int);
        }
        self.buffer.offset_to_position(offset)
    }

    /// Deletes before the caret: nothing at the beginning of the document; the whole marker
    /// from column 0 of a heading's first line; else one position, and the caret moves
    /// there. A selection is deleted, and a caret left at its earlier end, at column 0 at
    /// least.
    pub fn backspace(&mut self)
        requires
            old(self).wf(),
        ensures
            final(self).wf(),
            final(self).buffer_spec().file_set() == old(self).buffer_spec().file_set(),
            ({
                let t = old(self).text();
                let t2 = final(self).text();
                match old(self).location() {
                    EditLocation::Cursor(c) => {
                        let p = c.position;
                        if p == file_beginning_of(t) {
                            final(self).buffer_spec() == old(self).buffer_spec()
                                && final(self).location() == old(self).location()
                        } else if kind_of(doc_lines(t), p.y as int) is HeadlineStart && p.x == 0 {
                            t2 == replaced(t, line_beginning_of(t, p), p, Seq::empty())
                                && final(self).location() == normalized_location(
                                t2,
                                old(self).location(),
                            )
                        } else {
                            let q = left_of(t, p);
                            t2 == replaced(t, q, p, Seq::empty()) && final(self).location()
                                == moved(position_of(t2, span_of(t, q, p).0))
                        }
                    },
                    EditLocation::Selection(s) => {
                        let a = smallest_of(s);
                        let x = if a.x < 0 {
                            0
                        } else {
                            a.x as int
                        };
                        t2 == replaced(t, a, largest_of(s), Seq::empty()) && final(self).location()
                            == cursor_at(normalized(t2, at(a.y as int, x)), x)
                    },
                }
            }),
    {
        match self.edit_location {
            EditLocation::Cursor(cursor) => {
                let position = cursor.position;
                if position == self.beginning_of_file_position() {
                    return;
                }
                let line = self.line_at(position.y);
                let is_heading = match line.kind {
                    LineType::HeadlineStart(_) => true,
                    LineType::HeadlineNotStart => false,
                    LineType::Normal => false,
                };
                if is_heading && position.x == 0 {
                    let start = self.beginning_of_line_position(position);
                    self.replace_range(start..position, String::new());
                } else {
                    let previous = self.left_position(position);
                    let (start, _) = self.span(previous, position);
                    self.replace_range(previous..position, String::new());
                    let target = self.position_of_offset(start);
                    self.move_to(target, target.x);
                }
            },
            EditLocation::Selection(selection) => {
                let smallest = selection.smallest();
                let largest = selection.largest();
                self.replace_range(smallest..largest, String::new());
                let x = if smallest.x < 0 {
                    0
                } else {
                    smallest.x
                };
                let target = self.normalize(EditorPosition::new(smallest.y, x));
                self.move_to(target, x);
            },
        }
    }

    /// Replaces the caret's place or the selection with a line break, and puts the caret at
    /// the beginning of the line that follows it.
    pub fn enter(&mut self)
        requires
            old(self).wf(),
            old(self).text().len() + 1 < isize::MAX,
        ensures
            final(self).wf(),
            final(self).buffer_spec().file_set() == old(self).buffer_spec().file_set(),
            ({
                let t = old(self).text();
                let t2 = final(self).text();
                let a = first_of(old(self).location());
                let y = break_line(t2, a);
                &&& t2 == replaced(t, a, last_of(old(self).location()), seq!['\n'])
                &&& final(self).location() == moved(at(y, begin_at(t2, y)))
            }),
    {
        let start = self.first_point();
        let end = self.last_point();
        let newline = String::from_str("\n");
        proof {
            reveal_strlit("\n");
        }
        self.replace_range(start..end, newline);
        let count = self.buffer.line_count();
        let y = if start.y < count - 1 {
            start.y + 1
        } else {
            count - 1
        };
        proof {
            lemma_columns(self.text(), y as int);
        }
        let line = self.line_at(y);
        let position = EditorPosition::new(y, line.beginning());
        self.move_to(position, position.x);
    }

    /// Replaces the raw range `range`, or else the caret's place or the selection, with
    /// `text`, and puts the caret after it; a space that completes a heading's marker
    /// leaves the caret at column 0.
    pub fn replace_text_in_range(&mut self, range: Option<Range<usize>>, text: String)
        requires
            old(self).wf(),
            old(self).text().len() + text@.len() < isize::MAX,
        ensures
            final(self).wf(),
            final(self).buffer_spec().file_set() == old(self).buffer_spec().file_set(),
            ({
                let t = old(self).text();
                let loc = old(self).location();
                let (a, b) = match range {
                    Some(r) => (position_of(t, r.start as int), position_of(t, r.end as int)),
                    None => (first_of(loc), last_of(loc)),
                };
                &&& final(self).text() == replaced(t, a, b, text@)
                &&& final(self).location() == after_insert(t, final(self).text(), loc, a, b, text@)
            }),
    {
        let (a, b) = match range {
            Some(r) => (self.position_of_offset(r.start), self.position_of_offset(r.end)),
            None => (self.first_point(), self.last_point()),
        };
        let location = self.edit_location;
        let (start, _) = self.span(a, b);
        let length = text.as_str().unicode_len();
        let is_space = length == 1 && text.as_str().get_char(0) == ' ';
        proof {
            if is_space {
                assert(text@ == seq![' ']);
            }
        }
        self.replace_range(a..b, text);
        if let EditLocation::Cursor(cursor) = location {
            if is_space && cursor.position.y < self.buffer.line_count() {
                let line = self.line_at(cursor.position.y);
                if let LineType::HeadlineStart(level) = line.kind {
                    if cursor.position.x == level as isize {
                        self.move_to(EditorPosition::new(cursor.position.y, 0), 0);
                        return;
                    }
                }
            }
        }
        let target = self.position_of_offset(start + length);
        self.move_to(target, target.x);
    }

    /// Replaces the caret's place or the selection with pasted `content`, and puts the caret
    /// after it.
    pub fn paste(&mut self, content: String)
        requires
            old(self).wf(),
            old(self).text().len() + content@.len() < isize::MAX,
        ensures
            final(self).wf(),
            final(self).buffer_spec().file_set() == old(self).buffer_spec().file_set(),
            ({
                let t = old(self).text();
                let a = first_of(old(self).location());
                let b = last_of(old(self).location());
                &&& final(self).text() == replaced(t, a, b, content@)
                &&& final(self).location() == moved(
                    position_of(final(self).text(), span_of(t, a, b).0 + content@.len()),
                )
            }),
    {
        let a = self.first_point();
        let b = self.last_point();
        let (start, _) = self.span(a, b);
        let length = content.as_str().unicode_len();
        self.replace_range(a..b, content);
        let target = self.position_of_offset(start + length);
        self.move_to(target, target.x);
    }

    /// The selected text; none for a caret.
    pub fn copy(&self) -> (r: Option<String>)
        requires
            self.wf(),
        ensures
            match self.location() {
                EditLocation::Cursor(_) => r is None,
                EditLocation::Selection(s) => r is Some && r->0@ == self.text().subrange(
                    span_of(self.text(), smallest_of(s), largest_of(s)).0,
                    span_of(self.text(), smallest_of(s), largest_of(s)).1,
                ),
            },
    {
        match self.edit_location {
            EditLocation::Cursor(_) => None,
            EditLocation::Selection(selection) => Some(
                self.read_range(selection.smallest()..selection.largest()),
            ),
        }
    }

    /// Removes and returns the selected text, leaving a caret at its earlier end; none, and
    /// nothing changed, for a caret.
    pub fn cut(&mut self) -> (r: Option<String>)
        requires
            old(self).wf(),
        ensures
            final(self).wf(),
            final(self).buffer_spec().file_set() == old(self).buffer_spec().file_set(),
            ({
                let t = old(self).text();
                match old(self).location() {
                    EditLocation::Cursor(_) => r is None && final(self).buffer_spec()
                        == old(self).buffer_spec() && final(self).location() == old(
                        self,
                    ).location(),
                    EditLocation::Selection(s) => {
                        let a = smallest_of(s);
                        let b = largest_of(s);
                        &&& r is Some
                        &&& r->0@ == t.subrange(span_of(t, a, b).0, span_of(t, a, b).1)
                        &&& final(self).text() == replaced(t, a, b, Seq::empty())
                        &&& final(self).location() == cursor_at(
                            normalized(final(self).text(), a),
                            a.x as int,
                        )
                    },
                }
            }),
    {
        match self.edit_location {
            EditLocation::Cursor(_) => None,
            EditLocation::Selection(selection) => {
                let smallest = selection.smallest();
                let largest = selection.largest();
                let text = self.read_range(smallest..largest);
                self.replace_range(smallest..largest, String::new());
                let target = self.normalize(smallest);
                self.move_to(target, smallest.x);
                Some(text)
            },
        }
    }
}

} // verus!
