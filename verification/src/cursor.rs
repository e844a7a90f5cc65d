//! A cursor over the codepoints of a text.
//!
//! The cursor stands between two codepoints, or at either end of the text,
//! and its offset counts the codepoints before it. It steps over one
//! codepoint at a time, in either direction, and can go back to a place where
//! it has been.

use crate::rope::{
    byte_offset, cursor_chars, cursor_index, lemma_byte_offset_bounds, RopeCursor, Text,
};
use vstd::prelude::*;

verus! {

/// A place in a text where a cursor has been: an offset in codepoints,
/// together with the byte position that the rope knows it by.
#[derive(Clone, Copy)]
pub struct Mark {
    index: usize,
    byte: usize,
}

impl Mark {
    /// The offset of the place, in codepoints.
    pub closed spec fn offset(self) -> nat {
        self.index as nat
    }

    /// The byte position is that of the offset, in `text`.
    pub closed spec fn anchored(self, text: Seq<char>) -> bool {
        self.byte == byte_offset(text, self.index as int)
    }

    /// The place lies in `text`.
    pub open spec fn fits(self, text: Seq<char>) -> bool {
        self.offset() <= text.len() && self.anchored(text)
    }

    /// The offset of the place, in codepoints.
    pub fn index(&self) -> (offset: usize)
        ensures
            offset == self.offset(),
    {
        self.index
    }
}

/// A cursor over the codepoints of a [`Text`].
pub struct CodepointCursor<'a> {
    cursor: RopeCursor<'a>,
    index: usize,
    byte: usize,
}

impl<'a> CodepointCursor<'a> {
    /// The codepoints of the text under the cursor.
    pub closed spec fn text(&self) -> Seq<char> {
        cursor_chars(&self.cursor)
    }

    /// The number of codepoints before the cursor.
    pub closed spec fn offset(&self) -> nat {
        self.index as nat
    }

    /// The rope's cursor stands where this one does.
    pub closed spec fn anchored(&self) -> bool {
        &&& self.byte == byte_offset(self.text(), self.index as int)
        &&& cursor_index(&self.cursor) == Some(self.index as nat)
    }

    /// The cursor stands in its text.
    pub open spec fn wf(&self) -> bool {
        self.offset() <= self.text().len() && self.anchored()
    }

    /// The offset of a cursor fits in a machine word.
    pub proof fn lemma_offset_bounded(&self)
        ensures
            self.offset() <= usize::MAX,
    {
    }

    /// A cursor at `offset` codepoints into `text`, or `None` where the text
    /// has fewer codepoints than that.
    pub fn try_new(text: &'a Text, offset: usize) -> (r: Option<CodepointCursor<'a>>)
        ensures
            r is Some <==> offset <= text@.len(),
            r matches Some(cursor) ==> cursor.wf() && cursor.text() == text@ && cursor.offset()
                == offset,
    {
        let mut cursor = CodepointCursor { cursor: RopeCursor::new(text, 0), index: 0, byte: 0 };
        while cursor.index < offset
            invariant
                cursor.wf(),
                cursor.text() == text@,
                cursor.index <= offset,
            decreases offset - cursor.index,
        {
            if cursor.next_codepoint().is_none() {
                return None;
            }
        }
        Some(cursor)
    }

    /// A cursor at `offset` codepoints into `text`.
    pub fn new(text: &'a Text, offset: usize) -> (cursor: CodepointCursor<'a>)
        requires
            offset <= text@.len(),
        ensures
            cursor.wf(),
            cursor.text() == text@,
            cursor.offset() == offset,
    {
        CodepointCursor::try_new(text, offset).unwrap()
    }

    /// The number of codepoints before the cursor.
    pub fn position(&self) -> (offset: usize)
        ensures
            offset == self.offset(),
    {
        self.index
    }

    /// The place where the cursor stands.
    pub fn mark(&self) -> (mark: Mark)
        requires
            self.wf(),
        ensures
            mark.fits(self.text()),
            mark.offset() == self.offset(),
    {
        Mark { index: self.index, byte: self.byte }
    }

    /// Moves the cursor to a place of its text.
    pub fn set(&mut self, mark: Mark)
        requires
            old(self).wf(),
            mark.fits(old(self).text()),
        ensures
            final(self).wf(),
            final(self).text() == old(self).text(),
            final(self).offset() == mark.offset(),
    {
        self.cursor.set(mark.byte);
        self.index = mark.index;
        self.byte = mark.byte;
    }

    /// The codepoint after the cursor, if there is one. The cursor stays.
    pub fn peek_next_codepoint(&self) -> (r: Option<char>)
        requires
            self.wf(),
        ensures
            r == if self.offset() < self.text().len() {
                Some(self.text()[self.offset() as int])
            } else {
                None
            },
    {
        self.cursor.peek_next_codepoint()
    }

    /// Steps over the codepoint after the cursor and returns it. At the end
    /// of the text the cursor stays and the result is `None`.
    pub fn next_codepoint(&mut self) -> (r: Option<char>)
        requires
            old(self).wf(),
        ensures
            final(self).wf(),
            final(self).text() == old(self).text(),
            old(self).offset() < old(self).text().len() ==> r == Some(
                old(self).text()[old(self).offset() as int],
            ) && final(self).offset() == old(self).offset() + 1,
            old(self).offset() >= old(self).text().len() ==> r is None && final(self).offset()
                == old(self).offset(),
    {
        let r = self.cursor.next_codepoint();
        if r.is_some() {
            self.byte = self.cursor.pos();
            proof {
                lemma_byte_offset_bounds(self.text(), self.index + 1);
            }
            self.index = self.index + 1;
        } else {
            self.cursor.set(self.byte);
        }
        r
    }

    /// Steps back over the codepoint before the cursor and returns it. At
    /// the start of the text the cursor stays and the result is `None`.
    pub fn prev_codepoint(&mut self) -> (r: Option<char>)
        requires
            old(self).wf(),
        ensures
            final(self).wf(),
            final(self).text() == old(self).text(),
            old(self).offset() > 0 ==> r == Some(old(self).text()[old(self).offset() - 1])
                && final(self).offset() == old(self).offset() - 1,
            old(self).offset() == 0 ==> r is None && final(self).offset() == 0,
    {
        let r = self.cursor.prev_codepoint();
        if r.is_some() {
            self.byte = self.cursor.pos();
            self.index = self.index - 1;
        } else {
            self.cursor.set(self.byte);
        }
        r
    }
}

} // verus!
