use std::ops::Range;
use vstd::prelude::*;

use crate::content::{doc_lines, fits_text, is_line_of, Content, Line};
use crate::cursor::EditorPosition;
use crate::text::spliced;

verus! {

/// Why a document could not be saved.
#[derive(Debug, Clone, PartialEq, Eq)]
pub enum SaveError {
    /// No storage target is associated with the document yet.
    NoFileAssociated,
    /// The storage target failed, with its message.
    IoError(String),
}

/// A document: its content, whether a storage target is associated with it, and whether it
/// is unchanged since it was last loaded or saved.
pub struct Buffer {
    content: Content,
    file: bool,
    is_saved: bool,
}

impl Buffer {
    /// The document's text.
    pub closed spec fn text(&self) -> Seq<char> {
        self.content@
    }

    /// Whether a storage target is associated with the document.
    pub closed spec fn file_set(&self) -> bool {
        self.file
    }

    /// Whether the document is unchanged since it was last loaded or saved.
    pub closed spec fn saved(&self) -> bool {
        self.is_saved
    }

    pub fn empty() -> (r: Buffer)
        ensures
            r.text() == Seq::<char>::empty(),
            !r.file_set(),
            r.saved(),
    {
        Buffer { content: Content::empty(), file: false, is_saved: true }
    }

    /// A document loaded from a storage target, with the text read from it.
    pub fn from_file_contents(contents: String) -> (r: Buffer)
        ensures
            r.text() == contents@,
            r.file_set(),
            r.saved(),
    {
        Buffer { content: Content::new(contents), file: true, is_saved: true }
    }

    /// The text to write to the storage target; an error where none is associated.
    pub fn contents_to_save(&self) -> (r: Result<String, SaveError>)
        ensures
            self.file_set() ==> r is Ok && r->Ok_0@ == self.text(),
            !self.file_set() ==> r == Err::<String, SaveError>(SaveError::NoFileAssociated),
    {
        if self.file {
            Ok(self.content.to_string())
        } else {
            Err(SaveError::NoFileAssociated)
        }
    }

    /// Records that the text was written to the storage target.
    pub fn mark_saved(&mut self)
        ensures
            final(self).text() == old(self).text(),
            final(self).file_set() == old(self).file_set(),
            final(self).saved(),
    {
        self.is_saved = true;
    }

    /// Associates a storage target with the document; it still has to be saved there.
    pub fn set_file(&mut self)
        ensures
            final(self).text() == old(self).text(),
            final(self).file_set(),
            final(self).saved() == old(self).saved(),
    {
        self.file = true;
    }

    /// A copy of the document's content.
    pub fn content(&self) -> (r: Content)
        ensures
            r@ == self.text(),
    {
        Content::new(self.content.to_string())
    }

    /// The number of characters in the text.
    pub fn content_len(&self) -> (r: usize)
        ensures
            r == self.text().len(),
    {
        self.content.len()
    }

    pub fn is_empty(&self) -> (r: bool)
        ensures
            r == (self.text().len() == 0),
    {
        self.content.len() == 0
    }

    pub fn pristine(&self) -> (r: bool)
        ensures
            r == self.saved(),
    {
        self.is_saved
    }

    pub fn has_file(&self) -> (r: bool)
        ensures
            r == self.file_set(),
    {
        self.file
    }

    pub fn lines(&self) -> (r: Vec<Line>)
        ensures
            r@.len() == doc_lines(self.text()).len(),
            forall|y: int| 0 <= y < r@.len() ==> is_line_of(self.text(), y, #[trigger] r@[y]),
    {
        self.content.lines()
    }

    pub fn line_count(&self) -> (r: usize)
        ensures
            r == doc_lines(self.text()).len(),
            r >= 1,
    {
        self.content.line_count()
    }

    pub fn line(&self, index: usize) -> (r: Line)
        requires
            index < doc_lines(self.text()).len(),
        ensures
            is_line_of(self.text(), index as int, r),
    {
        self.content.line(index)
    }

    pub fn position_to_offset(&self, position: EditorPosition) -> (r: usize)
        requires
            fits_text(self.text()),
            position.y < doc_lines(self.text()).len(),
            crate::content::offset_at(self.text(), position.y as int, position.x as int)
                <= usize::MAX,
        ensures
            r == crate::content::offset_at(self.text(), position.y as int, position.x as int),
    {
        self.content.position_to_offset(position)
    }

    pub fn offset_to_position(&self, offset: usize) -> (r: EditorPosition)
        requires
            fits_text(self.text()),
        ensures
            (r.y as int, r.x as int) == crate::content::position_at(self.text(), offset as int),
    {
        self.content.offset_to_position(offset)
    }

    pub fn read_range(&self, range: Range<usize>) -> (r: String)
        requires
            range.start <= range.end <= self.text().len(),
        ensures
            r@ == self.text().subrange(range.start as int, range.end as int),
    {
        self.content.read_range(range)
    }

    /// Replaces the characters in `range`; the document is then unsaved.
    pub fn replace(&mut self, range: Range<usize>, replacement: String)
        requires
            range.start <= range.end <= old(self).text().len(),
            fits_text(
                spliced(old(self).text(), range.start as int, range.end as int, replacement@),
            ),
        ensures
            final(self).text() == spliced(
                old(self).text(),
                range.start as int,
                range.end as int,
                replacement@,
            ),
            final(self).file_set() == old(self).file_set(),
            !final(self).saved(),
    {
        self.is_saved = false;
        self.content.replace(range, replacement);
    }
}

} // verus!
