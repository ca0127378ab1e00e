//! The lines of a text.
//!
//! A line ends with a line feed; a carriage return right in front of that line
//! feed belongs to the line ending. The last line needs no line ending, and a
//! text that ends with one has no empty line behind it.

use vstd::prelude::*;
use vstd::string::*;
use vstd::utf8::*;
use crate::text::{boundary, bytes_of, lemma_ascii_byte_boundaries, lemma_encode_concat, newlines_before,
    slice, NEWLINE};

verus! {

/// The carriage return byte.
pub const RETURN: u8 = 13;

/// The index of the first line feed at or behind `from`, or the length of the
/// text where there is none.
pub open spec fn next_newline(bytes: Seq<u8>, from: int) -> int
    decreases bytes.len() - from,
{
    if from < 0 || from >= bytes.len() {
        bytes.len() as int
    } else if bytes[from] == NEWLINE {
        from
    } else {
        next_newline(bytes, from + 1)
    }
}

/// Where the line that starts at `from` ends, its line ending left out.
pub open spec fn line_end(bytes: Seq<u8>, from: int) -> int {
    let feed = next_newline(bytes, from);
    if from < feed && feed < bytes.len() && bytes[feed - 1] == RETURN {
        feed - 1
    } else {
        feed
    }
}

/// How many lines a text has.
pub open spec fn line_count(bytes: Seq<u8>) -> nat {
    if bytes.len() > 0 && bytes.last() != NEWLINE {
        newlines_before(bytes, bytes.len() as int) + 1
    } else {
        newlines_before(bytes, bytes.len() as int)
    }
}

/// The first `n` lines of the text behind `from`, joined by line feeds.
pub open spec fn head_lines(bytes: Seq<u8>, from: int, n: int) -> Seq<u8>
    decreases n,
{
    if n <= 0 || from < 0 || from >= bytes.len() {
        Seq::empty()
    } else {
        let line = bytes.subrange(from, line_end(bytes, from));
        if n == 1 || next_newline(bytes, from) + 1 >= bytes.len() {
            line
        } else {
            line + seq![NEWLINE] + head_lines(bytes, next_newline(bytes, from) + 1, n - 1)
        }
    }
}

/// The first line feed at or behind `from` lies within the text or at its end,
/// and no line feed stands in front of it.
pub proof fn lemma_next_newline(bytes: Seq<u8>, from: int)
    requires
        0 <= from <= bytes.len(),
    ensures
        from <= next_newline(bytes, from) <= bytes.len(),
        next_newline(bytes, from) < bytes.len() ==> bytes[next_newline(bytes, from)] == NEWLINE,
        forall|i: int| from <= i < next_newline(bytes, from) ==> bytes[i] != NEWLINE,
    decreases bytes.len() - from,
{
    if from < bytes.len() && bytes[from] != NEWLINE {
        lemma_next_newline(bytes, from + 1);
    }
}

/// Finds the first line feed at or behind `from`.
pub fn find_newline(bytes: &[u8], from: usize) -> (r: usize)
    requires
        from <= bytes@.len(),
    ensures
        r == next_newline(bytes@, from as int),
        from <= r <= bytes@.len(),
{
    let mut i: usize = from;
    while i < bytes.len() && bytes[i] != NEWLINE
        invariant
            from <= i <= bytes@.len(),
            next_newline(bytes@, i as int) == next_newline(bytes@, from as int),
        decreases bytes@.len() - i,
    {
        i = i + 1;
    }
    i
}

/// Counts the lines of a text.
pub fn count_lines(bytes: &[u8]) -> (n: usize)
    ensures
        n == line_count(bytes@),
{
    let mut n: usize = 0;
    let mut i: usize = 0;
    while i < bytes.len()
        invariant
            i <= bytes@.len(),
            n == newlines_before(bytes@, i as int),
            n <= i,
        decreases bytes@.len() - i,
    {
        if bytes[i] == NEWLINE {
            n = n + 1;
        }
        i = i + 1;
    }
    if bytes.len() > 0 && bytes[bytes.len() - 1] != NEWLINE {
        assert(n < bytes@.len()) by {
            lemma_last_is_no_feed(bytes@);
        }
        n + 1
    } else {
        n
    }
}

proof fn lemma_last_is_no_feed(bytes: Seq<u8>)
    requires
        bytes.len() > 0,
        bytes.last() != NEWLINE,
    ensures
        newlines_before(bytes, bytes.len() as int) < bytes.len(),
{
    crate::text::lemma_newlines_bounded(bytes, bytes.len() - 1);
}

/// The first `n` lines of a text, joined by line feeds.
pub fn first_lines(content: &str, n: usize) -> (r: String)
    ensures
        bytes_of(r@) == head_lines(bytes_of(content@), 0, n as int),
{
    let bytes = content.as_bytes();
    let len = bytes.len();
    let mut out = String::new();
    if n == 0 || len == 0 {
        assert(bytes_of(out@) =~= Seq::<u8>::empty());
        return out;
    }
    let ghost goal = head_lines(bytes@, 0, n as int);
    let mut from: usize = 0;
    let mut left: usize = n;
    proof {
        encode_utf8_valid_utf8(content@);
        is_char_boundary_start_end_of_seq(bytes@);
        assert(bytes_of(out@) + goal =~= goal);
        reveal_strlit("\n");
        assert("\n"@ =~= seq!['\n']);
        is_ascii_chars_encode_utf8("\n"@);
        assert(bytes_of("\n"@) =~= seq![NEWLINE]);
    }
    loop
        invariant
            bytes@ == bytes_of(content@),
            len == bytes@.len(),
            valid_utf8(bytes@),
            from < len,
            left >= 1,
            boundary(bytes@, from as int),
            bytes_of("\n"@) == seq![NEWLINE],
            goal == head_lines(bytes@, 0, n as int),
            bytes_of(out@) + head_lines(bytes@, from as int, left as int) == goal,
        decreases left,
    {
        let feed = find_newline(bytes, from);
        proof {
            lemma_next_newline(bytes@, from as int);
            is_char_boundary_start_end_of_seq(bytes@);
            if feed < len {
                lemma_ascii_byte_boundaries(bytes@, feed as int);
            }
        }
        let end: usize = if from < feed && feed < len && bytes[feed - 1] == RETURN {
            proof {
                lemma_ascii_byte_boundaries(bytes@, feed - 1);
            }
            feed - 1
        } else {
            feed
        };
        let ghost before = out@;
        let line = slice(content, from, end);
        out.append(line);
        proof {
            lemma_encode_concat(before, line@);
        }
        if left == 1 || feed >= len - 1 {
            assert(head_lines(bytes@, from as int, left as int) == bytes@.subrange(from as int, end as int));
            return out;
        }
        let ghost middle = out@;
        out.append("\n");
        proof {
            lemma_encode_concat(middle, "\n"@);
            assert(bytes_of(out@) + head_lines(bytes@, feed + 1, left - 1) =~= bytes_of(before)
                + head_lines(bytes@, from as int, left as int));
        }
        from = feed + 1;
        left = left - 1;
    }
}

} // verus!
