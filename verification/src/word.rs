//! Word boundaries: the class of a codepoint, the kind of boundary between
//! two neighbouring codepoints, and a cursor that moves by them.

use crate::cursor::CodepointCursor;
use crate::rope::Text;
use vstd::prelude::*;

verus! {

/// The classes of codepoints by which word boundaries are told.
#[derive(Clone, Copy, Debug, PartialEq, Eq, Structural)]
pub enum CharClassification {
    /// Carriage return (`\r`)
    Cr,
    /// Line feed (`\n`)
    Lf,
    /// Any other codepoint up to the space (U+0020)
    Space,
    /// An ASCII punctuation mark
    Punctuation,
    /// Everything else: letters, digits, `_`, and all of non-ASCII Unicode
    Other,
}

/// What lies between two neighbouring codepoints.
#[derive(Clone, Copy, Debug, PartialEq, Eq, Structural)]
pub enum WordBoundary {
    /// No boundary
    Interior,
    /// A word starts with the codepoint on the right
    Start,
    /// A word ends with the codepoint on the left
    End,
    /// A word ends on the left and another starts on the right
    Both,
}

impl WordBoundary {
    /// A word starts here.
    pub open spec fn starts(&self) -> bool {
        *self == WordBoundary::Start || *self == WordBoundary::Both
    }

    /// A word ends here.
    pub open spec fn ends(&self) -> bool {
        *self == WordBoundary::End || *self == WordBoundary::Both
    }

    /// A word starts here.
    #[verifier::when_used_as_spec(starts)]
    pub fn is_start(&self) -> (r: bool)
        ensures
            r == self.starts(),
    {
        *self == WordBoundary::Start || *self == WordBoundary::Both
    }

    /// A word ends here.
    #[verifier::when_used_as_spec(ends)]
    pub fn is_end(&self) -> (r: bool)
        ensures
            r == self.ends(),
    {
        *self == WordBoundary::End || *self == WordBoundary::Both
    }

    /// A word starts or ends here.
    pub fn is_boundary(&self) -> (r: bool)
        ensures
            r == (*self != WordBoundary::Interior),
            r == (self.starts() || self.ends()),
    {
        *self != WordBoundary::Interior
    }
}

/// The punctuation marks of ASCII.
pub open spec fn is_punctuation(c: char) -> bool {
    ||| c == '!'
    ||| c == '"'
    ||| c == '#'
    ||| c == '$'
    ||| c == '%'
    ||| c == '&'
    ||| c == '\''
    ||| c == '('
    ||| c == ')'
    ||| c == '*'
    ||| c == '+'
    ||| c == ','
    ||| c == '-'
    ||| c == '.'
    ||| c == '/'
    ||| c == ':'
    ||| c == ';'
    ||| c == '<'
    ||| c == '='
    ||| c == '>'
    ||| c == '?'
    ||| c == '@'
    ||| c == '['
    ||| c == '\\'
    ||| c == ']'
    ||| c == '^'
    ||| c == '`'
    ||| c == '{'
    ||| c == '|'
    ||| c == '}'
    ||| c == '~'
}

/// The class of a codepoint.
pub open spec fn class_of(c: char) -> CharClassification {
    if c == '\r' {
        CharClassification::Cr
    } else if c == '\n' {
        CharClassification::Lf
    } else if c <= ' ' {
        CharClassification::Space
    } else if is_punctuation(c) {
        CharClassification::Punctuation
    } else {
        CharClassification::Other
    }
}

/// The kind of boundary between a codepoint of class `prev` and the next
/// one, of class `next`. The rules are tried in this order, and the first
/// that fits decides.
pub open spec fn boundary_of(prev: CharClassification, next: CharClassification) -> WordBoundary {
    match (prev, next) {
        (CharClassification::Lf, CharClassification::Lf) => WordBoundary::Start,
        (CharClassification::Lf, CharClassification::Space) => WordBoundary::Interior,
        (CharClassification::Cr, CharClassification::Lf) => WordBoundary::Interior,
        (CharClassification::Space, CharClassification::Lf) => WordBoundary::Interior,
        (CharClassification::Space, CharClassification::Cr) => WordBoundary::Interior,
        (CharClassification::Space, CharClassification::Space) => WordBoundary::Interior,
        (_, CharClassification::Space) => WordBoundary::End,
        (CharClassification::Space, _) => WordBoundary::Start,
        (CharClassification::Lf, _) => WordBoundary::Start,
        (_, CharClassification::Cr) => WordBoundary::End,
        (_, CharClassification::Lf) => WordBoundary::End,
        (CharClassification::Punctuation, CharClassification::Other) => WordBoundary::Both,
        (CharClassification::Other, CharClassification::Punctuation) => WordBoundary::Both,
        _ => WordBoundary::Interior,
    }
}

/// Return the [`CharClassification`] of the input character.
///
/// Up to the space, every codepoint but `\r` and `\n` is of class `Space`,
/// and beyond ASCII every codepoint is of class `Other`.
pub fn get_char_property(codepoint: char) -> (class: CharClassification)
    ensures
        class == class_of(codepoint),
        codepoint == '\r' ==> class == CharClassification::Cr,
        codepoint == '\n' ==> class == CharClassification::Lf,
        codepoint <= ' ' && codepoint != '\r' && codepoint != '\n' ==> class
            == CharClassification::Space,
        codepoint > '\u{7f}' ==> class == CharClassification::Other,
{
    if codepoint <= ' ' {
        if codepoint == '\r' {
            return CharClassification::Cr;
        }
        if codepoint == '\n' {
            return CharClassification::Lf;
        }
        return CharClassification::Space;
    } else if codepoint <= '\u{3f}' {
        let bit: u64 = codepoint as u64;
        assert(((0xfc00fffe00000000u64 >> bit) & 1 != 0) == (0x21 <= bit <= 0x2f || 0x3a <= bit
            <= 0x3f)) by (bit_vector)
            requires
                0x20 < bit <= 0x3f,
        ;
        if (0xfc00fffe00000000u64 >> bit) & 1 != 0 {
            return CharClassification::Punctuation;
        }
    } else if codepoint <= '\u{7f}' {
        let wide: u64 = codepoint as u64;
        let bit: u64 = wide & 0x3f;
        assert(bit < 64 && (((0x7800000178000001u64 >> bit) & 1 != 0) == (wide == 0x40 || 0x5b
            <= wide <= 0x5e || wide == 0x60 || 0x7b <= wide <= 0x7e))) by (bit_vector)
            requires
                0x3f < wide <= 0x7f,
                bit == wide & 0x3f,
        ;
        if (0x7800000178000001u64 >> bit) & 1 != 0 {
            return CharClassification::Punctuation;
        }
    }
    CharClassification::Other
}

/// The kind of boundary between a codepoint of class `prev` and the next
/// one, of class `next`.
pub fn classify_boundary(prev: CharClassification, next: CharClassification) -> (kind:
    WordBoundary)
    ensures
        kind == boundary_of(prev, next),
{
    match (prev, next) {
        (CharClassification::Lf, CharClassification::Lf) => WordBoundary::Start,
        (CharClassification::Lf, CharClassification::Space) => WordBoundary::Interior,
        (CharClassification::Cr, CharClassification::Lf) => WordBoundary::Interior,
        (CharClassification::Space, CharClassification::Lf) => WordBoundary::Interior,
        (CharClassification::Space, CharClassification::Cr) => WordBoundary::Interior,
        (CharClassification::Space, CharClassification::Space) => WordBoundary::Interior,
        (_, CharClassification::Space) => WordBoundary::End,
        (CharClassification::Space, _) => WordBoundary::Start,
        (CharClassification::Lf, _) => WordBoundary::Start,
        (_, CharClassification::Cr) => WordBoundary::End,
        (_, CharClassification::Lf) => WordBoundary::End,
        (CharClassification::Punctuation, CharClassification::Other) => WordBoundary::Both,
        (CharClassification::Other, CharClassification::Punctuation) => WordBoundary::Both,
        _ => WordBoundary::Interior,
    }
}

/// The kind of boundary in front of codepoint `k` of `text`.
pub open spec fn boundary_at(text: Seq<char>, k: int) -> WordBoundary
    recommends
        0 < k < text.len(),
{
    boundary_of(class_of(text[k - 1]), class_of(text[k]))
}

/// A word starts at offset `k`, inside `text`.
pub open spec fn is_word_start(text: Seq<char>, k: int) -> bool {
    0 < k < text.len() && boundary_at(text, k).starts()
}

/// A word ends at offset `k`, inside `text`.
pub open spec fn is_word_end(text: Seq<char>, k: int) -> bool {
    0 < k < text.len() && boundary_at(text, k).ends()
}

/// `to` is the first offset after `from` at which a word starts, or the end
/// of the text where none starts after `from`.
pub open spec fn next_start(text: Seq<char>, from: int, to: int) -> bool {
    &&& from < to <= text.len()
    &&& to == text.len() || is_word_start(text, to)
    &&& forall|k: int| from < k < to ==> !is_word_start(text, k)
}

/// `to` is the first offset after `from` at which a word ends, or the end of
/// the text where none ends after `from`.
pub open spec fn next_end(text: Seq<char>, from: int, to: int) -> bool {
    &&& from < to <= text.len()
    &&& to == text.len() || is_word_end(text, to)
    &&& forall|k: int| from < k < to ==> !is_word_end(text, k)
}

/// `to` is the last offset before `from` at which a word starts, or the
/// start of the text where none starts before `from`.
pub open spec fn prev_start(text: Seq<char>, from: int, to: int) -> bool {
    &&& 0 <= to < from <= text.len()
    &&& to == 0 || is_word_start(text, to)
    &&& forall|k: int| to < k < from ==> !is_word_start(text, k)
}

/// Codepoint `k` of `text` is of the given class.
pub open spec fn has_class(text: Seq<char>, k: int, class: CharClassification) -> bool {
    0 <= k < text.len() && class_of(text[k]) == class
}

/// The codepoints from offset `from` up to offset `to` are all of the given
/// class.
pub open spec fn is_run(text: Seq<char>, from: int, to: int, class: CharClassification) -> bool {
    &&& 0 <= from <= to <= text.len()
    &&& forall|k: int| from <= k < to ==> has_class(text, k, class)
}

/// The codepoints from `from` up to `to` are a run of the given class that
/// cannot be made longer at either end.
pub open spec fn is_maximal_run(
    text: Seq<char>,
    from: int,
    to: int,
    class: CharClassification,
) -> bool {
    &&& is_run(text, from, to, class)
    &&& !has_class(text, from - 1, class)
    &&& !has_class(text, to, class)
}

/// `to` is where the run of codepoints of the given class that ends at
/// `from` starts: all codepoints from `to` up to `from` are of that class,
/// and the one before `to` is not.
pub open spec fn run_start(text: Seq<char>, from: int, to: int, class: CharClassification) -> bool {
    is_run(text, to, from, class) && !has_class(text, to - 1, class)
}

/// `to` is where the run of codepoints of the given class that starts at
/// `from` ends: all codepoints from `from` up to `to` are of that class, and
/// the one at `to` is not.
pub open spec fn run_end(text: Seq<char>, from: int, to: int, class: CharClassification) -> bool {
    is_run(text, from, to, class) && !has_class(text, to, class)
}

/// A backward deletion that has stepped over codepoint `m` keeps the word
/// before it: codepoint `m` is a line break, or the second of two blanks.
pub open spec fn keeps_word_at(text: Seq<char>, m: int) -> bool {
    ||| class_of(text[m]) == CharClassification::Lf
    ||| class_of(text[m]) == CharClassification::Cr
    ||| class_of(text[m]) == CharClassification::Space && class_of(text[m - 1])
        == CharClassification::Space
}

/// A backward deletion that has stepped over the codepoints from `from` up
/// to `to` keeps the word before them.
pub open spec fn keeps_word(text: Seq<char>, from: int, to: int) -> bool {
    exists|m: int| from <= m < to && #[trigger] keeps_word_at(text, m)
}

/// A backward deletion from offset `from` stops at offset `k`, between the
/// codepoint on its left and the one on its right: where a line feed is on
/// the left and a blank on the right, at the start of a line that holds
/// blanks alone so far; or where the word is kept and a punctuation mark or
/// an `Other` is on the left; or where the boundary is of the kind `Start`,
/// so that a word starts and none ends. A boundary of the kind `Both`,
/// between a punctuation mark and an `Other`, does not stop it.
pub open spec fn stops_deletion(text: Seq<char>, from: int, k: int) -> bool {
    &&& 0 < k < from <= text.len()
    &&& {
        let left = class_of(text[k - 1]);
        let right = class_of(text[k]);
        ||| left == CharClassification::Lf && right == CharClassification::Space
        ||| keeps_word(text, k, from) && (left == CharClassification::Punctuation || left
            == CharClassification::Other)
        ||| boundary_of(left, right) == WordBoundary::Start
    }
}

/// `to` is the last offset before `from` at which a backward deletion from
/// `from` stops, or the start of the text where it stops nowhere.
pub open spec fn deletion_start(text: Seq<char>, from: int, to: int) -> bool {
    &&& 0 <= to < from <= text.len()
    &&& to == 0 || stops_deletion(text, from, to)
    &&& forall|k: int| to < k < from ==> !stops_deletion(text, from, k)
}

/// After an offset, the next word starts at one offset only.
pub proof fn lemma_next_start_unique(text: Seq<char>, from: int, a: int, b: int)
    requires
        next_start(text, from, a),
        next_start(text, from, b),
    ensures
        a == b,
{
}

/// After an offset, the next word ends at one offset only.
pub proof fn lemma_next_end_unique(text: Seq<char>, from: int, a: int, b: int)
    requires
        next_end(text, from, a),
        next_end(text, from, b),
    ensures
        a == b,
{
}

/// Before an offset, the last word starts at one offset only.
pub proof fn lemma_prev_start_unique(text: Seq<char>, from: int, a: int, b: int)
    requires
        prev_start(text, from, a),
        prev_start(text, from, b),
    ensures
        a == b,
{
}

/// A backward deletion from an offset starts at one offset only.
pub proof fn lemma_deletion_start_unique(text: Seq<char>, from: int, a: int, b: int)
    requires
        deletion_start(text, from, a),
        deletion_start(text, from, b),
    ensures
        a == b,
{
}

/// The run of a class that ends at an offset starts at one offset only.
pub proof fn lemma_run_start_unique(
    text: Seq<char>,
    from: int,
    a: int,
    b: int,
    class: CharClassification,
)
    requires
        run_start(text, from, a, class),
        run_start(text, from, b, class),
    ensures
        a == b,
{
}

/// The run of a class that starts at an offset ends at one offset only.
pub proof fn lemma_run_end_unique(
    text: Seq<char>,
    from: int,
    a: int,
    b: int,
    class: CharClassification,
)
    requires
        run_end(text, from, a, class),
        run_end(text, from, b, class),
    ensures
        a == b,
{
}

/// Every pair of classes has one kind of boundary, the one that the rules
/// give when they are tried in order. Row by row, by the class on the left:
/// after `Cr` a word ends before a blank or another `Cr`; after `Lf` a word
/// starts unless a blank follows; after a blank a word starts with a
/// punctuation mark or an `Other`; a punctuation mark and an `Other` are a
/// boundary on both sides of each other, none beside their like, and the end
/// of a word before anything else.
pub proof fn lemma_boundary_table(prev: CharClassification, next: CharClassification)
    ensures
        boundary_of(prev, next) == match prev {
            CharClassification::Cr => if next == CharClassification::Space || next
                == CharClassification::Cr {
                WordBoundary::End
            } else {
                WordBoundary::Interior
            },
            CharClassification::Lf => if next == CharClassification::Space {
                WordBoundary::Interior
            } else {
                WordBoundary::Start
            },
            CharClassification::Space => if next == CharClassification::Punctuation || next
                == CharClassification::Other {
                WordBoundary::Start
            } else {
                WordBoundary::Interior
            },
            CharClassification::Punctuation => if next == CharClassification::Other {
                WordBoundary::Both
            } else if next == CharClassification::Punctuation {
                WordBoundary::Interior
            } else {
                WordBoundary::End
            },
            CharClassification::Other => if next == CharClassification::Punctuation {
                WordBoundary::Both
            } else if next == CharClassification::Other {
                WordBoundary::Interior
            } else {
                WordBoundary::End
            },
        },
{
}

/// The start and the end of the run of `Other` codepoints around an offset
/// bound a run that cannot be made longer, and the offset lies in it.
pub proof fn lemma_selection_is_maximal(text: Seq<char>, at: int, start: int, end: int)
    requires
        run_start(text, at, start, CharClassification::Other),
        run_end(text, at, end, CharClassification::Other),
    ensures
        is_maximal_run(text, start, end, CharClassification::Other),
        start <= at <= end,
{
}

/// From every offset of a run of `Other` codepoints that cannot be made
/// longer, its two ends included, the selection is exactly that run.
pub proof fn lemma_selection_exact(
    text: Seq<char>,
    from: int,
    to: int,
    at: int,
    start: int,
    end: int,
)
    requires
        is_maximal_run(text, from, to, CharClassification::Other),
        from <= at <= to,
        run_start(text, at, start, CharClassification::Other),
        run_end(text, at, end, CharClassification::Other),
    ensures
        start == from,
        end == to,
{
}

/// Selecting again from any offset of a selection gives the same selection.
pub proof fn lemma_selection_idempotent(
    text: Seq<char>,
    at: int,
    start: int,
    end: int,
    again: int,
    start_again: int,
    end_again: int,
)
    requires
        run_start(text, at, start, CharClassification::Other),
        run_end(text, at, end, CharClassification::Other),
        start <= again <= end,
        run_start(text, again, start_again, CharClassification::Other),
        run_end(text, again, end_again, CharClassification::Other),
    ensures
        start_again == start,
        end_again == end,
{
    lemma_selection_is_maximal(text, at, start, end);
    lemma_selection_exact(text, start, end, again, start_again, end_again);
}

/// Cursor motion by words.
///
/// A cursor stands at an offset into a text, counted in codepoints. Each
/// method leaves the text as it is and the cursor at the offset it returns;
/// where a method returns `None`, the cursor is at the end of the text that
/// the scan ran into.
pub trait WordCursor {
    /// The codepoints of the text under the cursor.
    spec fn text(&self) -> Seq<char>;

    /// The number of codepoints before the cursor.
    spec fn offset(&self) -> nat;

    /// The cursor stands in its text.
    spec fn wf(&self) -> bool;

    /// Moves back to where the word before the cursor starts. `None` at the
    /// start of the text.
    fn prev_boundary(&mut self) -> (r: Option<usize>)
        requires
            old(self).wf(),
        ensures
            final(self).wf(),
            final(self).text() == old(self).text(),
            match r {
                Some(to) => prev_start(old(self).text(), old(self).offset() as int, to as int)
                    && final(self).offset() == to,
                None => old(self).offset() == 0 && final(self).offset() == 0,
            },
    ;

    /// Moves back to where a deletion of the word before the cursor would
    /// start. `None` at the start of the text.
    fn prev_deletion_boundary(&mut self) -> (r: Option<usize>)
        requires
            old(self).wf(),
        ensures
            final(self).wf(),
            final(self).text() == old(self).text(),
            match r {
                Some(to) => deletion_start(old(self).text(), old(self).offset() as int, to as int)
                    && final(self).offset() == to,
                None => old(self).offset() == 0 && final(self).offset() == 0,
            },
    ;

    /// Moves on to where the next word starts. `None` at the end of the
    /// text.
    fn next_boundary(&mut self) -> (r: Option<usize>)
        requires
            old(self).wf(),
        ensures
            final(self).wf(),
            final(self).text() == old(self).text(),
            match r {
                Some(to) => next_start(old(self).text(), old(self).offset() as int, to as int)
                    && final(self).offset() == to,
                None => old(self).offset() == old(self).text().len() && final(self).offset()
                    == old(self).offset(),
            },
    ;

    /// Steps over one codepoint and moves on to where the word there ends.
    /// `None` where no codepoint follows the one stepped over.
    fn end_boundary(&mut self) -> (r: Option<usize>)
        requires
            old(self).wf(),
        ensures
            final(self).wf(),
            final(self).text() == old(self).text(),
            match r {
                Some(to) => next_end(old(self).text(), old(self).offset() as int + 1, to as int)
                    && final(self).offset() == to,
                None => old(self).offset() + 1 >= old(self).text().len() && final(self).offset()
                    == old(self).text().len(),
            },
    ;

    /// Moves back to the start of the run of `Other` codepoints that ends at
    /// the cursor.
    fn prev_code_boundary(&mut self) -> (to: usize)
        requires
            old(self).wf(),
        ensures
            final(self).wf(),
            final(self).text() == old(self).text(),
            run_start(
                old(self).text(),
                old(self).offset() as int,
                to as int,
                CharClassification::Other,
            ),
            final(self).offset() == to,
    ;

    /// Moves on to the end of the run of `Other` codepoints that starts at
    /// the cursor.
    fn next_code_boundary(&mut self) -> (to: usize)
        requires
            old(self).wf(),
        ensures
            final(self).wf(),
            final(self).text() == old(self).text(),
            run_end(
                old(self).text(),
                old(self).offset() as int,
                to as int,
                CharClassification::Other,
            ),
            final(self).offset() == to,
    ;

    /// The start and the end of the run of `Other` codepoints around the
    /// cursor. The cursor moves to the start.
    fn select_word(&mut self) -> (r: (usize, usize))
        requires
            old(self).wf(),
        ensures
            final(self).wf(),
            final(self).text() == old(self).text(),
            run_start(
                old(self).text(),
                old(self).offset() as int,
                r.0 as int,
                CharClassification::Other,
            ),
            run_end(
                old(self).text(),
                old(self).offset() as int,
                r.1 as int,
                CharClassification::Other,
            ),
            final(self).offset() == r.0,
    ;
}

/// A cursor that moves over a [`Text`] by word boundaries.
pub struct ModalWordCursor<'a> {
    inner: CodepointCursor<'a>,
}

impl<'a> ModalWordCursor<'a> {
    /// A cursor at `pos` codepoints into `text`.
    pub fn new(text: &'a Text, pos: usize) -> (cursor: ModalWordCursor<'a>)
        requires
            pos <= text@.len(),
        ensures
            cursor.wf(),
            cursor.text() == text@,
            cursor.offset() == pos,
    {
        ModalWordCursor { inner: CodepointCursor::new(text, pos) }
    }

    /// A cursor at `pos` codepoints into `text`, or `None` where the text
    /// has fewer codepoints than that.
    pub fn try_new(text: &'a Text, pos: usize) -> (r: Option<ModalWordCursor<'a>>)
        ensures
            r is Some <==> pos <= text@.len(),
            r matches Some(cursor) ==> cursor.wf() && cursor.text() == text@ && cursor.offset()
                == pos,
    {
        match CodepointCursor::try_new(text, pos) {
            Some(inner) => Some(ModalWordCursor { inner }),
            None => None,
        }
    }

    /// Moves on to the end of the run of `Space` codepoints that starts at
    /// the cursor: to the next codepoint that is not blank, or to the end of
    /// the text.
    pub fn next_non_blank_char(&mut self) -> (to: usize)
        requires
            old(self).wf(),
        ensures
            final(self).wf(),
            final(self).text() == old(self).text(),
            run_end(
                old(self).text(),
                old(self).offset() as int,
                to as int,
                CharClassification::Space,
            ),
            final(self).offset() == to,
    {
        let ghost text = self.inner.text();
        let ghost from = self.inner.offset() as int;
        let mut candidate = self.inner.mark();
        loop
            invariant_except_break
                candidate.offset() == self.inner.offset(),
                is_run(text, from, candidate.offset() as int, CharClassification::Space),
            invariant
                self.inner.wf(),
                self.inner.text() == text,
                candidate.fits(text),
            ensures
                self.inner.wf(),
                self.inner.text() == text,
                candidate.fits(text),
                run_end(text, from, candidate.offset() as int, CharClassification::Space),
            decreases text.len() - self.inner.offset(),
        {
            match self.inner.next_codepoint() {
                None => {
                    break ;
                },
                Some(next) => {
                    let prop = get_char_property(next);
                    if prop != CharClassification::Space {
                        break ;
                    }
                    candidate = self.inner.mark();
                },
            }
        }
        self.inner.set(candidate);
        candidate.index()
    }
}

impl<'a> WordCursor for ModalWordCursor<'a> {
    closed spec fn text(&self) -> Seq<char> {
        self.inner.text()
    }

    closed spec fn offset(&self) -> nat {
        self.inner.offset()
    }

    closed spec fn wf(&self) -> bool {
        self.inner.wf()
    }

    fn prev_boundary(&mut self) -> (r: Option<usize>) {
        let ghost text = self.inner.text();
        let ghost from = self.inner.offset() as int;
        match self.inner.prev_codepoint() {
            None => None,
            Some(ch) => {
                let mut prop = get_char_property(ch);
                let mut candidate = self.inner.mark();
                loop
                    invariant_except_break
                        candidate.offset() == self.inner.offset(),
                        0 <= candidate.offset() < from <= text.len(),
                        prop == class_of(text[candidate.offset() as int]),
                        forall|k: int| candidate.offset() < k < from ==> !is_word_start(text, k),
                    invariant
                        self.inner.wf(),
                        self.inner.text() == text,
                        candidate.fits(text),
                    ensures
                        self.inner.wf(),
                        self.inner.text() == text,
                        candidate.fits(text),
                        prev_start(text, from, candidate.offset() as int),
                    decreases self.inner.offset(),
                {
                    match self.inner.prev_codepoint() {
                        None => {
                            break ;
                        },
                        Some(prev) => {
                            let prop_prev = get_char_property(prev);
                            if classify_boundary(prop_prev, prop).is_start() {
                                break ;
                            }
                            prop = prop_prev;
                            candidate = self.inner.mark();
                        },
                    }
                }
                self.inner.set(candidate);
                Some(candidate.index())
            },
        }
    }

    fn prev_deletion_boundary(&mut self) -> (r: Option<usize>) {
        let ghost text = self.inner.text();
        let ghost from = self.inner.offset() as int;
        match self.inner.prev_codepoint() {
            None => None,
            Some(ch) => {
                let mut prop = get_char_property(ch);
                let mut candidate = self.inner.mark();
                // Whether the word before the blank space is kept, and only
                // the blank space deleted.
                let mut keep_word = false;
                loop
                    invariant_except_break
                        candidate.offset() == self.inner.offset(),
                        0 <= candidate.offset() < from <= text.len(),
                        prop == class_of(text[candidate.offset() as int]),
                        keep_word == keeps_word(text, candidate.offset() as int + 1, from),
                        forall|k: int|
                            candidate.offset() < k < from ==> !stops_deletion(text, from, k),
                    invariant
                        self.inner.wf(),
                        self.inner.text() == text,
                        candidate.fits(text),
                    ensures
                        self.inner.wf(),
                        self.inner.text() == text,
                        candidate.fits(text),
                        deletion_start(text, from, candidate.offset() as int),
                    decreases self.inner.offset(),
                {
                    match self.inner.prev_codepoint() {
                        None => {
                            break ;
                        },
                        Some(prev) => {
                            let prop_prev = get_char_property(prev);
                            // The word is kept from here on if it was kept so far,
                            // or if this step finds a reason to keep it.
                            assert(keeps_word(text, candidate.offset() as int, from) == (keep_word
                                || keeps_word_at(text, candidate.offset() as int)));

                            // The start of a line is reached over blank space alone.
                            if prop_prev == CharClassification::Lf && prop
                                == CharClassification::Space {
                                break ;
                            }
                            // More than one blank: keep the word, delete the blanks.
                            if prop == CharClassification::Space && prop_prev
                                == CharClassification::Space {
                                keep_word = true;
                            }
                            // A line break: keep the word, delete the break and the
                            // blank space after it.
                            if prop == CharClassification::Lf || prop == CharClassification::Cr {
                                keep_word = true;
                            }
                            // The word that is kept ends here.
                            if keep_word && (prop_prev == CharClassification::Punctuation
                                || prop_prev == CharClassification::Other) {
                                break ;
                            }
                            // The plain case: delete back to where a word starts
                            // and none ends.
                            if classify_boundary(prop_prev, prop) == WordBoundary::Start {
                                break ;
                            }
                            prop = prop_prev;
                            candidate = self.inner.mark();
                        },
                    }
                }
                self.inner.set(candidate);
                Some(candidate.index())
            },
        }
    }

    fn next_boundary(&mut self) -> (r: Option<usize>) {
        let ghost text = self.inner.text();
        let ghost from = self.inner.offset() as int;
        match self.inner.next_codepoint() {
            None => None,
            Some(ch) => {
                let mut prop = get_char_property(ch);
                let mut candidate = self.inner.mark();
                loop
                    invariant_except_break
                        candidate.offset() == self.inner.offset(),
                        0 <= from < candidate.offset() <= text.len(),
                        prop == class_of(text[candidate.offset() - 1]),
                        forall|k: int| from < k < candidate.offset() ==> !is_word_start(text, k),
                    invariant
                        self.inner.wf(),
                        self.inner.text() == text,
                        candidate.fits(text),
                    ensures
                        self.inner.wf(),
                        self.inner.text() == text,
                        candidate.fits(text),
                        next_start(text, from, candidate.offset() as int),
                    decreases text.len() - self.inner.offset(),
                {
                    match self.inner.next_codepoint() {
                        None => {
                            break ;
                        },
                        Some(next) => {
                            let prop_next = get_char_property(next);
                            if classify_boundary(prop, prop_next).is_start() {
                                break ;
                            }
                            prop = prop_next;
                            candidate = self.inner.mark();
                        },
                    }
                }
                self.inner.set(candidate);
                Some(candidate.index())
            },
        }
    }

    fn end_boundary(&mut self) -> (r: Option<usize>) {
        let ghost text = self.inner.text();
        let ghost from = self.inner.offset() as int + 1;
        self.inner.next_codepoint();
        match self.inner.next_codepoint() {
            None => None,
            Some(ch) => {
                let mut prop = get_char_property(ch);
                let mut candidate = self.inner.mark();
                loop
                    invariant_except_break
                        candidate.offset() == self.inner.offset(),
                        0 < from < candidate.offset() <= text.len(),
                        prop == class_of(text[candidate.offset() - 1]),
                        forall|k: int| from < k < candidate.offset() ==> !is_word_end(text, k),
                    invariant
                        self.inner.wf(),
                        self.inner.text() == text,
                        candidate.fits(text),
                    ensures
                        self.inner.wf(),
                        self.inner.text() == text,
                        candidate.fits(text),
                        next_end(text, from, candidate.offset() as int),
                    decreases text.len() - self.inner.offset(),
                {
                    match self.inner.next_codepoint() {
                        None => {
                            break ;
                        },
                        Some(next) => {
                            let prop_next = get_char_property(next);
                            if classify_boundary(prop, prop_next).is_end() {
                                break ;
                            }
                            prop = prop_next;
                            candidate = self.inner.mark();
                        },
                    }
                }
                self.inner.set(candidate);
                Some(candidate.index())
            },
        }
    }

    fn prev_code_boundary(&mut self) -> (to: usize) {
        let ghost text = self.inner.text();
        let ghost from = self.inner.offset() as int;
        let mut candidate = self.inner.mark();
        loop
            invariant_except_break
                candidate.offset() == self.inner.offset(),
                is_run(text, candidate.offset() as int, from, CharClassification::Other),
            invariant
                self.inner.wf(),
                self.inner.text() == text,
                candidate.fits(text),
            ensures
                self.inner.wf(),
                self.inner.text() == text,
                candidate.fits(text),
                run_start(text, from, candidate.offset() as int, CharClassification::Other),
            decreases self.inner.offset(),
        {
            match self.inner.prev_codepoint() {
                None => {
                    break ;
                },
                Some(prev) => {
                    let prop_prev = get_char_property(prev);
                    if prop_prev != CharClassification::Other {
                        break ;
                    }
                    candidate = self.inner.mark();
                },
            }
        }
        self.inner.set(candidate);
        candidate.index()
    }

    fn next_code_boundary(&mut self) -> (to: usize) {
        let ghost text = self.inner.text();
        let ghost from = self.inner.offset() as int;
        let mut candidate = self.inner.mark();
        loop
            invariant_except_break
                candidate.offset() == self.inner.offset(),
                is_run(text, from, candidate.offset() as int, CharClassification::Other),
            invariant
                self.inner.wf(),
                self.inner.text() == text,
                candidate.fits(text),
            ensures
                self.inner.wf(),
                self.inner.text() == text,
                candidate.fits(text),
                run_end(text, from, candidate.offset() as int, CharClassification::Other),
            decreases text.len() - self.inner.offset(),
        {
            match self.inner.next_codepoint() {
                None => {
                    break ;
                },
                Some(next) => {
                    let prop_next = get_char_property(next);
                    if prop_next != CharClassification::Other {
                        break ;
                    }
                    candidate = self.inner.mark();
                },
            }
        }
        self.inner.set(candidate);
        candidate.index()
    }

    fn select_word(&mut self) -> (r: (usize, usize)) {
        let initial = self.inner.mark();
        let end = self.next_code_boundary();
        self.inner.set(initial);
        let start = self.prev_code_boundary();
        (start, end)
    }
}

} // verus!
