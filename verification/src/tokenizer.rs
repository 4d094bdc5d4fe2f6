//! Whitespace tokenizer over a byte buffer.
//!
//! A [`BytesParser`] is a cursor into a caller-owned buffer. `take_line`
//! returns the next whitespace-delimited token (possibly empty, when two
//! delimiters are adjacent) and advances past the delimiter; `take_rest`
//! hands the whole untouched tail over, so that no binary byte is ever
//! misinterpreted as a delimiter; `skip_comment_line` jumps past the end of
//! the line a comment token started on.

use vstd::prelude::*;

verus! {

/// Whether a byte delimits tokens: space, newline, carriage return or tab.
pub open spec fn is_ws(b: u8) -> bool {
    b == 32 || b == 10 || b == 13 || b == 9
}

/// Index of the first whitespace byte at or after `i`, or `s.len()` if none.
pub open spec fn token_end(s: Seq<u8>, i: int) -> int
    decreases s.len() - i,
{
    if i < 0 || i >= s.len() {
        s.len() as int
    } else if is_ws(s[i]) {
        i
    } else {
        token_end(s, i + 1)
    }
}

/// Index of the first newline byte at or after `i`, or `s.len()` if none.
pub open spec fn line_end(s: Seq<u8>, i: int) -> int
    decreases s.len() - i,
{
    if i < 0 || i >= s.len() {
        s.len() as int
    } else if s[i] == 10 {
        i
    } else {
        line_end(s, i + 1)
    }
}

/// Cursor position after the token that starts at `i`: one past its
/// delimiter, or the buffer end when the token runs to the end.
pub open spec fn after_token(s: Seq<u8>, i: int) -> int {
    if token_end(s, i) < s.len() {
        token_end(s, i) + 1
    } else {
        s.len() as int
    }
}

/// Cursor position after the line that position `i` lies on: one past its
/// newline, or the buffer end when no newline follows.
pub open spec fn after_line(s: Seq<u8>, i: int) -> int {
    if line_end(s, i) < s.len() {
        line_end(s, i) + 1
    } else {
        s.len() as int
    }
}

/// `token_end(s, i)` points into `s[i..]`: no whitespace lies before it,
/// and whitespace (or the buffer end) lies at it.
pub proof fn lemma_token_end_bounds(s: Seq<u8>, i: int)
    requires
        0 <= i <= s.len(),
    ensures
        i <= token_end(s, i) <= s.len(),
        forall|j: int| i <= j < token_end(s, i) ==> !is_ws(s[j]),
        token_end(s, i) < s.len() ==> is_ws(s[token_end(s, i)]),
    decreases s.len() - i,
{
    if i < s.len() && !is_ws(s[i]) {
        lemma_token_end_bounds(s, i + 1);
    }
}

/// `line_end(s, i)` points into `s[i..]`: no newline lies before it, and a
/// newline (or the buffer end) lies at it.
pub proof fn lemma_line_end_bounds(s: Seq<u8>, i: int)
    requires
        0 <= i <= s.len(),
    ensures
        i <= line_end(s, i) <= s.len(),
        forall|j: int| i <= j < line_end(s, i) ==> s[j] != 10,
        line_end(s, i) < s.len() ==> s[line_end(s, i)] == 10,
    decreases s.len() - i,
{
    if i < s.len() && s[i] != 10 {
        lemma_line_end_bounds(s, i + 1);
    }
}

/// A newline is whitespace, so the first whitespace byte comes no later
/// than the first newline.
pub proof fn lemma_token_end_le_line_end(s: Seq<u8>, i: int)
    requires
        0 <= i <= s.len(),
    ensures
        token_end(s, i) <= line_end(s, i),
    decreases s.len() - i,
{
    lemma_line_end_bounds(s, i);
    if i < s.len() && !is_ws(s[i]) {
        lemma_token_end_le_line_end(s, i + 1);
    }
}

/// A token's end can be read off directly: it is the first position `k` at
/// which whitespace (or the buffer end) stands, no whitespace before it.
pub proof fn lemma_token_end_is(s: Seq<u8>, i: int, k: int)
    requires
        0 <= i <= k <= s.len(),
        forall|j: int| i <= j < k ==> !is_ws(s[j]),
        k == s.len() || is_ws(s[k]),
    ensures
        token_end(s, i) == k,
    decreases k - i,
{
    if i < k {
        lemma_token_end_is(s, i + 1, k);
    }
}

/// A line's end can be read off directly: it is the first position `k` at
/// which a newline (or the buffer end) stands, no newline before it.
pub proof fn lemma_line_end_is(s: Seq<u8>, i: int, k: int)
    requires
        0 <= i <= k <= s.len(),
        forall|j: int| i <= j < k ==> s[j] != 10,
        k == s.len() || s[k] == 10,
    ensures
        line_end(s, i) == k,
    decreases k - i,
{
    if i < k {
        lemma_line_end_is(s, i + 1, k);
    }
}

/// Scanning for a token end depends only on the bytes from the start
/// position on: a prefix in front shifts it by the prefix's length.
pub proof fn lemma_token_end_shift(a: Seq<u8>, b: Seq<u8>, i: int)
    requires
        0 <= i <= b.len(),
    ensures
        token_end(a + b, a.len() + i) == a.len() + token_end(b, i),
    decreases b.len() - i,
{
    if i < b.len() {
        assert((a + b)[a.len() + i] == b[i]);
        if !is_ws(b[i]) {
            lemma_token_end_shift(a, b, i + 1);
        }
    }
}

/// Scanning for a line end depends only on the bytes from the start
/// position on: a prefix in front shifts it by the prefix's length.
pub proof fn lemma_line_end_shift(a: Seq<u8>, b: Seq<u8>, i: int)
    requires
        0 <= i <= b.len(),
    ensures
        line_end(a + b, a.len() + i) == a.len() + line_end(b, i),
    decreases b.len() - i,
{
    if i < b.len() {
        assert((a + b)[a.len() + i] == b[i]);
        if b[i] != 10 {
            lemma_line_end_shift(a, b, i + 1);
        }
    }
}

/// Whether `b` delimits tokens; executable twin of [`is_ws`].
pub fn byte_is_ws(b: u8) -> (r: bool)
    ensures
        r == is_ws(b),
{
    b == 32 || b == 10 || b == 13 || b == 9
}

/// Cursor over a byte buffer. `whitespace_index` is the position the next
/// operation scans from; `prev_whitespace_index` is where the last returned
/// token started. Both only ever move forward.
pub struct BytesParser {
    pub whitespace_index: usize,
    pub prev_whitespace_index: usize,
}

impl BytesParser {
    /// A fresh cursor at the start of a buffer.
    pub fn new() -> (p: BytesParser)
        ensures
            p.whitespace_index == 0,
            p.prev_whitespace_index == 0,
    {
        BytesParser { whitespace_index: 0, prev_whitespace_index: 0 }
    }

    /// Returns the next token: the bytes from the cursor up to (excluding)
    /// the first whitespace byte, advancing the cursor past that delimiter;
    /// when no whitespace remains, the token spans to the buffer end and the
    /// cursor stops there. Adjacent delimiters yield an empty token.
    pub fn take_line<'a>(&mut self, contents: &'a [u8]) -> (line: &'a [u8])
        requires
            old(self).whitespace_index <= contents@.len(),
        ensures
            final(self).prev_whitespace_index == old(self).whitespace_index,
            line@ == contents@.subrange(
                old(self).whitespace_index as int,
                token_end(contents@, old(self).whitespace_index as int),
            ),
            final(self).whitespace_index as int == after_token(
                contents@,
                old(self).whitespace_index as int,
            ),
            old(self).whitespace_index <= final(self).whitespace_index <= contents@.len(),
    {
        proof {
            lemma_token_end_bounds(contents@, self.whitespace_index as int);
        }
        self.prev_whitespace_index = self.whitespace_index;
        let len = contents.len();
        let mut j = self.whitespace_index;
        while j < len && !byte_is_ws(contents[j])
            invariant
                self.prev_whitespace_index == old(self).whitespace_index,
                self.prev_whitespace_index <= j <= len,
                len == contents@.len(),
                token_end(contents@, self.prev_whitespace_index as int) == token_end(
                    contents@,
                    j as int,
                ),
            decreases len - j,
        {
            j = j + 1;
        }
        let line = vstd::slice::slice_subrange(contents, self.prev_whitespace_index, j);
        if j < len {
            self.whitespace_index = j + 1;
        } else {
            self.whitespace_index = j;
        }
        line
    }

    /// Returns everything from the cursor to the buffer end, verbatim, and
    /// advances the cursor to the end.
    pub fn take_rest<'a>(&mut self, contents: &'a [u8]) -> (rest: &'a [u8])
        requires
            old(self).whitespace_index <= contents@.len(),
        ensures
            final(self).prev_whitespace_index == old(self).whitespace_index,
            final(self).whitespace_index == contents@.len(),
            rest@ == contents@.subrange(old(self).whitespace_index as int, contents@.len() as int),
    {
        self.prev_whitespace_index = self.whitespace_index;
        self.whitespace_index = contents.len();
        vstd::slice::slice_subrange(contents, self.prev_whitespace_index, contents.len())
    }

    /// After a token starting with `#` was taken, advances the cursor past
    /// the newline that ends the comment's line, so that a comment may hold
    /// embedded spaces without its tail being read as header fields.
    pub fn skip_comment_line(&mut self, contents: &[u8])
        requires
            old(self).prev_whitespace_index <= contents@.len(),
        ensures
            final(self).prev_whitespace_index == old(self).prev_whitespace_index,
            final(self).whitespace_index as int == after_line(
                contents@,
                old(self).prev_whitespace_index as int,
            ),
    {
        proof {
            lemma_line_end_bounds(contents@, self.prev_whitespace_index as int);
        }
        let len = contents.len();
        let mut j = self.prev_whitespace_index;
        while j < len && contents[j] != 10
            invariant
                self.prev_whitespace_index <= j <= len,
                len == contents@.len(),
                self.prev_whitespace_index == old(self).prev_whitespace_index,
                line_end(contents@, self.prev_whitespace_index as int) == line_end(
                    contents@,
                    j as int,
                ),
            decreases len - j,
        {
            j = j + 1;
        }
        if j < len {
            self.whitespace_index = j + 1;
        } else {
            self.whitespace_index = j;
        }
    }
}

} // verus!
