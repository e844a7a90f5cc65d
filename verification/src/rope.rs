//! The text store: a rope of `xi_rope`, and the rope's own cursor.
//!
//! What the rope and its cursor do is not proved here. This module states
//! it, in terms of the codepoints of a text, on the functions marked
//! `external_body`; the rest of the crate is proved from these statements.
//! A rope counts positions in bytes of UTF-8, so the statements relate a
//! byte position to the number of codepoints that lie before it.

use vstd::prelude::*;
use xi_rope::{Cursor, Rope, RopeInfo};

verus! {

/// An immutable text, kept in an `xi_rope::Rope`.
#[verifier::external_body]
pub struct Text {
    rope: Rope,
}

/// A `xi_rope::Cursor` over the rope of a [`Text`].
#[verifier::external_body]
pub struct RopeCursor<'a> {
    cursor: Cursor<'a, RopeInfo>,
}

/// The codepoints of a text, in order.
pub uninterp spec fn text_chars(text: &Text) -> Seq<char>;

/// The codepoints of the text that a cursor walks over.
pub uninterp spec fn cursor_chars(cursor: &RopeCursor) -> Seq<char>;

/// Where a cursor stands. `Some(k)` says that the cursor is valid (in the
/// rope's sense: it has not run off either end since it was last set) and
/// that its position is the first byte of codepoint `k`, or the end of the
/// text when `k` is the number of codepoints. `None` says that the cursor is
/// invalid or stands inside a codepoint.
pub uninterp spec fn cursor_index(cursor: &RopeCursor) -> Option<nat>;

impl View for Text {
    type V = Seq<char>;

    open spec fn view(&self) -> Seq<char> {
        text_chars(self)
    }
}

/// The number of bytes that UTF-8 takes for one codepoint.
pub open spec fn utf8_width(c: char) -> nat {
    if (c as u32) < 0x80 {
        1
    } else if (c as u32) < 0x800 {
        2
    } else if (c as u32) < 0x1_0000 {
        3
    } else {
        4
    }
}

/// The byte position at which codepoint `k` of `chars` begins: the bytes
/// that UTF-8 takes for the `k` codepoints before it.
pub open spec fn byte_offset(chars: Seq<char>, k: int) -> nat
    decreases k,
{
    if k <= 0 {
        0
    } else {
        byte_offset(chars, k - 1) + utf8_width(chars[k - 1])
    }
}

/// A byte position is never less than the number of codepoints before it.
pub proof fn lemma_byte_offset_bounds(chars: Seq<char>, k: int)
    requires
        0 <= k,
    ensures
        k <= byte_offset(chars, k),
    decreases k,
{
    if k > 0 {
        lemma_byte_offset_bounds(chars, k - 1);
    }
}

/// `Rope::from`, on a string slice. The rope holds the codepoints of the
/// string, in the same order.
#[verifier::external_body]
pub(crate) fn rope_from_str(s: &str) -> (text: Text)
    ensures
        text_chars(&text) == s@,
{
    Text { rope: Rope::from(s) }
}

impl<'a> RopeCursor<'a> {
    /// `Cursor::new`. The cursor walks over the text it was made on, and is
    /// valid. Where `position` is the byte position of codepoint `k`, the
    /// cursor stands at codepoint `k`.
    #[verifier::external_body]
    pub(crate) fn new(text: &'a Text, position: usize) -> (cursor: RopeCursor<'a>)
        ensures
            cursor_chars(&cursor) == text_chars(text),
            forall|k: int|
                0 <= k <= text_chars(text).len() && position == #[trigger] byte_offset(
                    text_chars(text),
                    k,
                ) ==> cursor_index(&cursor) == Some(k as nat),
    {
        RopeCursor { cursor: Cursor::new(&text.rope, position) }
    }

    /// `Cursor::pos`. It returns the byte position; for a cursor that stands
    /// at codepoint `k` that is the byte position of codepoint `k`.
    #[verifier::external_body]
    pub(crate) fn pos(&self) -> (position: usize)
        ensures
            cursor_index(self) matches Some(k) ==> position == byte_offset(
                cursor_chars(self),
                k as int,
            ),
    {
        self.cursor.pos()
    }

    /// `Cursor::set`. The text stays, and the cursor is valid afterwards.
    /// Where `position` is the byte position of codepoint `k`, the cursor
    /// then stands at codepoint `k`.
    #[verifier::external_body]
    pub(crate) fn set(&mut self, position: usize)
        ensures
            cursor_chars(final(self)) == cursor_chars(old(self)),
            forall|k: int|
                0 <= k <= cursor_chars(old(self)).len() && position == #[trigger] byte_offset(
                    cursor_chars(old(self)),
                    k,
                ) ==> cursor_index(final(self)) == Some(k as nat),
    {
        self.cursor.set(position)
    }

    /// `Cursor::peek_next_codepoint`, on a cursor that stands at a
    /// codepoint. It returns that codepoint, or `None` at the end of the
    /// text.
    #[verifier::external_body]
    pub(crate) fn peek_next_codepoint(&self) -> (r: Option<char>)
        requires
            cursor_index(self) is Some,
        ensures
            r == if cursor_index(self)->0 < cursor_chars(self).len() {
                Some(cursor_chars(self)[cursor_index(self)->0 as int])
            } else {
                None
            },
    {
        self.cursor.peek_next_codepoint()
    }

    /// `Cursor::next_codepoint`, on a cursor that stands at a codepoint.
    /// Before the end of the text it returns that codepoint and leaves the
    /// cursor at the next one. At the end it returns `None` and the cursor
    /// becomes invalid.
    #[verifier::external_body]
    pub(crate) fn next_codepoint(&mut self) -> (r: Option<char>)
        requires
            cursor_index(old(self)) is Some,
        ensures
            cursor_chars(final(self)) == cursor_chars(old(self)),
            cursor_index(old(self))->0 < cursor_chars(old(self)).len() ==> r == Some(
                cursor_chars(old(self))[cursor_index(old(self))->0 as int],
            ) && cursor_index(final(self)) == Some(cursor_index(old(self))->0 + 1),
            cursor_index(old(self))->0 >= cursor_chars(old(self)).len() ==> r is None
                && cursor_index(final(self)) is None,
    {
        self.cursor.next_codepoint()
    }

    /// `Cursor::prev_codepoint`, on a cursor that stands at a codepoint.
    /// After the start of the text it returns the codepoint before the
    /// cursor and leaves the cursor at it. At the start it returns `None`
    /// and the cursor becomes invalid.
    #[verifier::external_body]
    pub(crate) fn prev_codepoint(&mut self) -> (r: Option<char>)
        requires
            cursor_index(old(self)) is Some,
        ensures
            cursor_chars(final(self)) == cursor_chars(old(self)),
            cursor_index(old(self))->0 > 0 ==> r == Some(
                cursor_chars(old(self))[cursor_index(old(self))->0 - 1],
            ) && cursor_index(final(self)) == Some((cursor_index(old(self))->0 - 1) as nat),
            cursor_index(old(self))->0 == 0 ==> r is None && cursor_index(final(self)) is None,
    {
        self.cursor.prev_codepoint()
    }
}

impl Text {
    /// The text that holds the codepoints of `s`.
    pub fn new(s: &str) -> (text: Text)
        ensures
            text@ == s@,
    {
        rope_from_str(s)
    }
}

} // verus!
