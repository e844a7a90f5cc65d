//! Bracket matching: a cursor that finds the partner of the bracket it
//! stands on, passing over the pairs nested in between.

use crate::cursor::CodepointCursor;
use crate::rope::Text;
use crate::syntax::util::{counterpart, matching_char, matching_pair_direction, opens_pair};
use vstd::prelude::*;

verus! {

/// What one codepoint adds to the nesting depth, in a search for the bracket
/// `c` whose counterpart is `other`: a counterpart opens one more pair to
/// pass over, a `c` closes one.
pub open spec fn weight(ch: char, c: char, other: char) -> int {
    if ch == other {
        1
    } else if ch == c {
        -1
    } else {
        0
    }
}

/// The nesting depth of the codepoints of `text` from offset `from` up to
/// offset `to`: the counterparts among them, less the `c`s.
pub open spec fn nesting(text: Seq<char>, c: char, other: char, from: int, to: int) -> int
    decreases to - from,
{
    if to <= from {
        0
    } else {
        nesting(text, c, other, from, to - 1) + weight(text[to - 1], c, other)
    }
}

/// The codepoint before offset `to` is a `c` that no counterpart between
/// `from` and it pairs with.
pub open spec fn unmatched_after(
    text: Seq<char>,
    c: char,
    other: char,
    from: int,
    to: int,
) -> bool {
    &&& 0 <= from < to <= text.len()
    &&& text[to - 1] == c
    &&& nesting(text, c, other, from, to - 1) == 0
}

/// `to` is the first offset after `from` that lies behind an unmatched `c`.
pub open spec fn first_unmatched_after(
    text: Seq<char>,
    c: char,
    other: char,
    from: int,
    to: int,
) -> bool {
    &&& unmatched_after(text, c, other, from, to)
    &&& forall|k: int| from < k < to ==> !unmatched_after(text, c, other, from, k)
}

/// No `c` after `from` is unmatched.
pub open spec fn all_matched_after(text: Seq<char>, c: char, other: char, from: int) -> bool {
    forall|to: int| !unmatched_after(text, c, other, from, to)
}

/// The codepoint at offset `to` is a `c` that no counterpart between it and
/// `from` pairs with.
pub open spec fn unmatched_before(
    text: Seq<char>,
    c: char,
    other: char,
    from: int,
    to: int,
) -> bool {
    &&& 0 <= to < from <= text.len()
    &&& text[to] == c
    &&& nesting(text, c, other, to + 1, from) == 0
}

/// `to` is the last offset before `from` at which an unmatched `c` stands.
pub open spec fn first_unmatched_before(
    text: Seq<char>,
    c: char,
    other: char,
    from: int,
    to: int,
) -> bool {
    &&& unmatched_before(text, c, other, from, to)
    &&& forall|k: int| to < k < from ==> !unmatched_before(text, c, other, from, k)
}

/// No `c` before `from` is unmatched.
pub open spec fn all_matched_before(text: Seq<char>, c: char, other: char, from: int) -> bool {
    forall|to: int| !unmatched_before(text, c, other, from, to)
}

/// The bracket at offset `to` is the partner of the bracket at offset `at`:
/// for a closing bracket the last unmatched counterpart before it, for an
/// opening bracket the first unmatched counterpart after it.
pub open spec fn partner(text: Seq<char>, at: int, to: int) -> bool {
    &&& 0 <= at < text.len()
    &&& counterpart(text[at]) matches Some(other) && if opens_pair(other) == Some(true) {
        first_unmatched_before(text, other, text[at], at, to)
    } else {
        first_unmatched_after(text, other, text[at], at + 1, to + 1)
    }
}

/// The depth of a stretch is the depth of its first codepoint and the depth
/// of the rest.
pub proof fn lemma_nesting_front(text: Seq<char>, c: char, other: char, from: int, to: int)
    requires
        from < to,
    ensures
        nesting(text, c, other, from, to) == weight(text[from], c, other) + nesting(
            text,
            c,
            other,
            from + 1,
            to,
        ),
    decreases to - from,
{
    if from + 1 < to {
        lemma_nesting_front(text, c, other, from, to - 1);
    } else {
        assert(nesting(text, c, other, from, from) == 0);
    }
}

/// The depth of a stretch is the sum of the depths of its two parts.
pub proof fn lemma_nesting_split(
    text: Seq<char>,
    c: char,
    other: char,
    from: int,
    mid: int,
    to: int,
)
    requires
        from <= mid <= to,
    ensures
        nesting(text, c, other, from, to) == nesting(text, c, other, from, mid) + nesting(
            text,
            c,
            other,
            mid,
            to,
        ),
    decreases to - mid,
{
    if mid < to {
        lemma_nesting_split(text, c, other, from, mid, to - 1);
    }
}

/// Seen from the other bracket of the pair, every depth changes its sign.
pub proof fn lemma_nesting_mirror(text: Seq<char>, c: char, other: char, from: int, to: int)
    requires
        c != other,
    ensures
        nesting(text, other, c, from, to) == -nesting(text, c, other, from, to),
    decreases to - from,
{
    if from < to {
        lemma_nesting_mirror(text, c, other, from, to - 1);
    }
}

/// Before the first unmatched `c`, the depth never falls below zero.
pub proof fn lemma_depth_after(text: Seq<char>, c: char, other: char, from: int, to: int, k: int)
    requires
        first_unmatched_after(text, c, other, from, to),
        from <= k < to,
    ensures
        nesting(text, c, other, from, k) >= 0,
    decreases k - from,
{
    if from < k {
        lemma_depth_after(text, c, other, from, to, k - 1);
        assert(!unmatched_after(text, c, other, from, k));
    }
}

/// After the last unmatched `c`, the depth never falls below zero.
pub proof fn lemma_depth_before(text: Seq<char>, c: char, other: char, from: int, to: int, k: int)
    requires
        first_unmatched_before(text, c, other, from, to),
        to < k <= from,
    ensures
        nesting(text, c, other, k, from) >= 0,
    decreases from - k,
{
    if k < from {
        lemma_depth_before(text, c, other, from, to, k + 1);
        lemma_nesting_front(text, c, other, k, from);
        assert(!unmatched_before(text, c, other, from, k));
    }
}

/// Where the depth after `from` never falls below zero, every `c` after
/// `from` is matched: a forward search for `c` finds none.
pub proof fn lemma_none_unmatched_after(text: Seq<char>, c: char, other: char, from: int)
    requires
        c != other,
        forall|k: int| from <= k <= text.len() ==> nesting(text, c, other, from, k) >= 0,
    ensures
        all_matched_after(text, c, other, from),
{
    assert forall|to: int| !unmatched_after(text, c, other, from, to) by {
        if unmatched_after(text, c, other, from, to) {
            assert(nesting(text, c, other, from, to) == -1);
        }
    }
}

/// Where the depth before `from` never falls below zero, every `c` before
/// `from` is matched: a backward search for `c` finds none.
pub proof fn lemma_none_unmatched_before(text: Seq<char>, c: char, other: char, from: int)
    requires
        c != other,
        forall|k: int| 0 <= k <= from ==> nesting(text, c, other, k, from) >= 0,
    ensures
        all_matched_before(text, c, other, from),
{
    assert forall|to: int| !unmatched_before(text, c, other, from, to) by {
        if unmatched_before(text, c, other, from, to) {
            lemma_nesting_front(text, c, other, to, from);
        }
    }
}

/// A `c` behind a stretch in which every bracket has its partner, however
/// deep the pairs are nested, is the first unmatched `c`: a forward search
/// from the start of the stretch finds it.
pub proof fn lemma_unmatched_after_nested(
    text: Seq<char>,
    c: char,
    other: char,
    from: int,
    to: int,
)
    requires
        c != other,
        0 <= from < to <= text.len(),
        text[to - 1] == c,
        nesting(text, c, other, from, to - 1) == 0,
        forall|k: int| from <= k < to ==> nesting(text, c, other, from, k) >= 0,
    ensures
        first_unmatched_after(text, c, other, from, to),
{
    assert forall|k: int| from < k < to implies !unmatched_after(text, c, other, from, k) by {
        if unmatched_after(text, c, other, from, k) {
            assert(nesting(text, c, other, from, k) == -1);
        }
    }
}

/// A `c` in front of a stretch in which every bracket has its partner,
/// however deep the pairs are nested, is the last unmatched `c`: a backward
/// search from the end of the stretch finds it.
pub proof fn lemma_unmatched_before_nested(
    text: Seq<char>,
    c: char,
    other: char,
    from: int,
    to: int,
)
    requires
        c != other,
        0 <= to < from <= text.len(),
        text[to] == c,
        nesting(text, c, other, to + 1, from) == 0,
        forall|k: int| to < k <= from ==> nesting(text, c, other, k, from) >= 0,
    ensures
        first_unmatched_before(text, c, other, from, to),
{
    assert forall|k: int| to < k < from implies !unmatched_before(text, c, other, from, k) by {
        if unmatched_before(text, c, other, from, k) {
            lemma_nesting_front(text, c, other, k, from);
        }
    }
}

/// A forward search for `c` has one result only.
pub proof fn lemma_first_unmatched_after_unique(
    text: Seq<char>,
    c: char,
    other: char,
    from: int,
    a: int,
    b: int,
)
    requires
        first_unmatched_after(text, c, other, from, a),
        first_unmatched_after(text, c, other, from, b),
    ensures
        a == b,
{
}

/// A backward search for `c` has one result only.
pub proof fn lemma_first_unmatched_before_unique(
    text: Seq<char>,
    c: char,
    other: char,
    from: int,
    a: int,
    b: int,
)
    requires
        first_unmatched_before(text, c, other, from, a),
        first_unmatched_before(text, c, other, from, b),
    ensures
        a == b,
{
}

/// A bracket has one partner only.
pub proof fn lemma_partner_unique(text: Seq<char>, at: int, a: int, b: int)
    requires
        partner(text, at, a),
        partner(text, at, b),
    ensures
        a == b,
{
}

/// Partners are partners of each other: where the bracket at `to` is the
/// partner of the bracket at `at`, the bracket at `at` is the partner of the
/// bracket at `to`.
pub proof fn lemma_partner_involution(text: Seq<char>, at: int, to: int)
    requires
        partner(text, at, to),
    ensures
        partner(text, to, at),
{
    let here = text[at];
    let there = counterpart(here)->0;
    if opens_pair(there) == Some(true) {
        // `here` closes the pair, and `there` was found by a search backward.
        lemma_nesting_mirror(text, there, here, to + 1, at);
        let from = to + 1;
        assert forall|k: int| from < k < at + 1 implies !unmatched_after(
            text,
            here,
            there,
            from,
            k,
        ) by {
            if unmatched_after(text, here, there, from, k) {
                lemma_nesting_mirror(text, there, here, to + 1, k - 1);
                lemma_nesting_split(text, there, here, to + 1, k - 1, at);
                lemma_nesting_front(text, there, here, k - 1, at);
                lemma_depth_before(text, there, here, at, to, k);
            }
        }
    } else {
        // `here` opens the pair, and `there` was found by a search forward.
        lemma_nesting_mirror(text, there, here, at + 1, to);
        assert forall|k: int| at < k < to implies !unmatched_before(text, here, there, to, k) by {
            if unmatched_before(text, here, there, to, k) {
                lemma_nesting_mirror(text, there, here, k + 1, to);
                lemma_nesting_split(text, there, here, at + 1, k, to);
                lemma_nesting_front(text, there, here, k, to);
                lemma_depth_after(text, there, here, at + 1, to + 1, k);
            }
        }
    }
}

/// A cursor that finds unmatched brackets in a [`Text`].
///
/// The cursor stands at an offset into the text, counted in codepoints.
/// Each method leaves the text as it is. A search that finds its bracket
/// leaves the cursor at the offset it returns; one that finds none leaves it
/// at the end of the text that the search ran into.
pub struct BracketCursor<'a> {
    inner: CodepointCursor<'a>,
}

impl<'a> BracketCursor<'a> {
    /// The codepoints of the text under the cursor.
    pub closed spec fn text(&self) -> Seq<char> {
        self.inner.text()
    }

    /// The number of codepoints before the cursor.
    pub closed spec fn offset(&self) -> nat {
        self.inner.offset()
    }

    /// The cursor stands in its text.
    pub closed spec fn wf(&self) -> bool {
        self.inner.wf()
    }

    /// A cursor at `pos` codepoints into `text`.
    pub fn new(text: &'a Text, pos: usize) -> (cursor: BracketCursor<'a>)
        requires
            pos <= text@.len(),
        ensures
            cursor.wf(),
            cursor.text() == text@,
            cursor.offset() == pos,
    {
        BracketCursor { inner: CodepointCursor::new(text, pos) }
    }

    /// A cursor at `pos` codepoints into `text`, or `None` where the text
    /// has fewer codepoints than that.
    pub fn try_new(text: &'a Text, pos: usize) -> (r: Option<BracketCursor<'a>>)
        ensures
            r is Some <==> pos <= text@.len(),
            r matches Some(cursor) ==> cursor.wf() && cursor.text() == text@ && cursor.offset()
                == pos,
    {
        match CodepointCursor::try_new(text, pos) {
            Some(inner) => Some(BracketCursor { inner }),
            None => None,
        }
    }

    /// Looks for the partner of the bracket that the cursor stands on:
    /// forward for an opening bracket, backward for a closing one. It
    /// returns the offset of the partner and leaves the cursor there.
    /// `None` where the cursor stands on no bracket, or the bracket has no
    /// partner.
    pub fn match_pairs(&mut self) -> (r: Option<usize>)
        requires
            old(self).wf(),
        ensures
            final(self).wf(),
            final(self).text() == old(self).text(),
            match r {
                Some(to) => partner(old(self).text(), old(self).offset() as int, to as int)
                    && final(self).offset() == to,
                None => forall|to: int| !partner(old(self).text(), old(self).offset() as int, to),
            },
            r is None ==> final(self).offset() == if old(self).offset() >= old(self).text().len()
                || counterpart(old(self).text()[old(self).offset() as int]) is None {
                old(self).offset()
            } else if opens_pair(old(self).text()[old(self).offset() as int]) == Some(true) {
                old(self).text().len()
            } else {
                0
            },
    {
        let c = match self.inner.peek_next_codepoint() {
            Some(c) => c,
            None => {
                return None;
            },
        };
        let other = match matching_char(c) {
            Some(other) => other,
            None => {
                return None;
            },
        };
        let left = match matching_pair_direction(other) {
            Some(left) => left,
            None => {
                return None;
            },
        };
        if left {
            self.previous_unmatched(other)
        } else {
            self.inner.next_codepoint();
            match self.next_unmatched(other) {
                Some(offset) => {
                    self.inner.prev_codepoint();
                    Some(offset - 1)
                },
                None => None,
            }
        }
    }

    /// Looks forward for the first `c` that no counterpart since the cursor
    /// pairs with. It returns the offset behind that `c` and leaves the
    /// cursor there. `None` where `c` is no bracket, and then the cursor
    /// stays; or where no such `c` follows, and then the cursor is at the
    /// end of the text.
    pub fn next_unmatched(&mut self, c: char) -> (r: Option<usize>)
        requires
            old(self).wf(),
        ensures
            final(self).wf(),
            final(self).text() == old(self).text(),
            match r {
                Some(to) => counterpart(c) matches Some(other) && first_unmatched_after(
                    old(self).text(),
                    c,
                    other,
                    old(self).offset() as int,
                    to as int,
                ) && final(self).offset() == to,
                None => match counterpart(c) {
                    Some(other) => final(self).offset() == old(self).text().len()
                        && all_matched_after(
                        old(self).text(),
                        c,
                        other,
                        old(self).offset() as int,
                    ),
                    None => final(self).offset() == old(self).offset(),
                },
            },
    {
        let other = match matching_char(c) {
            Some(other) => other,
            None => {
                return None;
            },
        };
        let ghost text = self.inner.text();
        let ghost from = self.inner.offset() as int;
        let mut n: usize = 0;
        loop
            invariant
                self.inner.wf(),
                self.inner.text() == text,
                text == old(self).text(),
                from == old(self).offset(),
                counterpart(c) == Some(other),
                0 <= from <= self.inner.offset(),
                n == nesting(text, c, other, from, self.inner.offset() as int),
                n <= self.inner.offset() - from,
                forall|k: int| from < k <= self.inner.offset() ==> !unmatched_after(
                        text,
                        c,
                        other,
                        from,
                        k,
                    ),
            decreases text.len() - self.inner.offset(),
        {
            match self.inner.next_codepoint() {
                None => {
                    return None;
                },
                Some(current) => {
                    proof {
                        self.inner.lemma_offset_bounded();
                    }
                    if current == c && n == 0 {
                        return Some(self.inner.position());
                    }
                    if current == other {
                        n = n + 1;
                    } else if current == c {
                        n = n - 1;
                    }
                },
            }
        }
    }

    /// Looks backward for the first `c` that no counterpart up to the cursor
    /// pairs with. It returns the offset of that `c` and leaves the cursor
    /// there. `None` where `c` is no bracket, and then the cursor stays; or
    /// where no such `c` stands before the cursor, and then the cursor is
    /// at the start of the text.
    pub fn previous_unmatched(&mut self, c: char) -> (r: Option<usize>)
        requires
            old(self).wf(),
        ensures
            final(self).wf(),
            final(self).text() == old(self).text(),
            match r {
                Some(to) => counterpart(c) matches Some(other) && first_unmatched_before(
                    old(self).text(),
                    c,
                    other,
                    old(self).offset() as int,
                    to as int,
                ) && final(self).offset() == to,
                None => match counterpart(c) {
                    Some(other) => final(self).offset() == 0 && all_matched_before(
                        old(self).text(),
                        c,
                        other,
                        old(self).offset() as int,
                    ),
                    None => final(self).offset() == old(self).offset(),
                },
            },
    {
        let other = match matching_char(c) {
            Some(other) => other,
            None => {
                return None;
            },
        };
        let ghost text = self.inner.text();
        let ghost from = self.inner.offset() as int;
        proof {
            self.inner.lemma_offset_bounded();
        }
        let mut n: usize = 0;
        loop
            invariant
                self.inner.wf(),
                self.inner.text() == text,
                text == old(self).text(),
                from == old(self).offset(),
                counterpart(c) == Some(other),
                self.inner.offset() <= from <= text.len(),
                from <= usize::MAX,
                n == nesting(text, c, other, self.inner.offset() as int, from),
                n <= from - self.inner.offset(),
                forall|k: int| self.inner.offset() <= k < from ==> !unmatched_before(
                        text,
                        c,
                        other,
                        from,
                        k,
                    ),
            decreases self.inner.offset(),
        {
            match self.inner.prev_codepoint() {
                None => {
                    return None;
                },
                Some(current) => {
                    proof {
                        lemma_nesting_front(text, c, other, self.inner.offset() as int, from);
                    }
                    if current == c && n == 0 {
                        return Some(self.inner.position());
                    }
                    if current == other {
                        n = n + 1;
                    } else if current == c {
                        n = n - 1;
                    }
                },
            }
        }
    }
}

} // verus!
