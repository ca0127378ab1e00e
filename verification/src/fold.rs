//! Folding byte ranges of a text into a placeholder.
//!
//! A fold pass orders the ranges by their start, keeps the first range of
//! every cluster of overlapping ranges and replaces each kept range by the
//! placeholder. What lies between the kept ranges is copied unchanged.

use vstd::prelude::*;
use vstd::string::*;
use vstd::utf8::*;
use crate::order::{lemma_sorted_by_key, sort_by_key, sorted_by_key, Keyed};
use crate::text::{boundary, bytes_of, lemma_encode_concat, slice};

verus! {

/// A range of bytes of a text, from `start` up to but not including `end`.
#[derive(Clone, Copy, Debug, PartialEq, Eq)]
pub struct Span {
    pub start: usize,
    pub end: usize,
}

impl Keyed for Span {
    open spec fn key(self) -> int {
        self.start as int
    }

    fn key_of(&self) -> (k: u64) {
        self.start as u64
    }
}

/// The ranges in ascending order of their start; ranges with the same start
/// keep the order in which they came.
pub open spec fn sorted_by_start(s: Seq<Span>) -> Seq<Span> {
    sorted_by_key(s)
}

/// No range starts before one that stands in front of it.
pub open spec fn ordered_by_start(s: Seq<Span>) -> bool {
    forall|i: int, j: int| 0 <= i < j < s.len() ==> s[i].start <= s[j].start
}

/// A range can be folded when it lies within the text behind the cursor and
/// cuts no character in two.
pub open spec fn applies(bytes: Seq<u8>, cursor: int, s: Span) -> bool {
    &&& cursor <= s.start <= s.end <= bytes.len()
    &&& is_char_boundary(bytes, s.start as int)
    &&& is_char_boundary(bytes, s.end as int)
}

/// The ranges that a pass over `spans` folds, starting with the cursor at
/// `cursor`: each range that can be folded when the pass reaches it.
pub open spec fn retained(bytes: Seq<u8>, spans: Seq<Span>, cursor: int) -> Seq<Span>
    decreases spans.len(),
{
    if spans.len() == 0 {
        seq![]
    } else if applies(bytes, cursor, spans[0]) {
        seq![spans[0]] + retained(bytes, spans.drop_first(), spans[0].end as int)
    } else {
        retained(bytes, spans.drop_first(), cursor)
    }
}

/// The text from `cursor` on, with each range of `kept` replaced by the placeholder.
pub open spec fn rendered(bytes: Seq<u8>, kept: Seq<Span>, placeholder: Seq<u8>, cursor: int) -> Seq<u8>
    decreases kept.len(),
{
    if kept.len() == 0 {
        bytes.subrange(cursor, bytes.len() as int)
    } else {
        bytes.subrange(cursor, kept[0].start as int) + placeholder + rendered(
            bytes,
            kept.drop_first(),
            placeholder,
            kept[0].end as int,
        )
    }
}

/// The bytes of the folded text.
pub open spec fn folded(bytes: Seq<u8>, spans: Seq<Span>, placeholder: Seq<u8>) -> Seq<u8> {
    rendered(bytes, retained(bytes, sorted_by_start(spans), 0), placeholder, 0)
}

/// The ranges of `kept` lie behind `cursor`, within the text, one behind the
/// other, and none ends before it starts.
pub open spec fn laid_out(bytes: Seq<u8>, kept: Seq<Span>, cursor: int) -> bool {
    &&& forall|i: int| 0 <= i < kept.len() ==> cursor <= (#[trigger] kept[i]).start <= kept[i].end <= bytes.len()
    &&& forall|i: int, j: int| 0 <= i < j < kept.len() ==> (#[trigger] kept[i]).end <= (#[trigger] kept[j]).start
}

/// The ranges that a pass folds do not overlap, come in ascending order and
/// have no negative length.
pub proof fn lemma_retained_laid_out(bytes: Seq<u8>, spans: Seq<Span>, cursor: int)
    ensures
        laid_out(bytes, retained(bytes, spans, cursor), cursor),
    decreases spans.len(),
{
    if spans.len() == 0 {
    } else if applies(bytes, cursor, spans[0]) {
        let rest = retained(bytes, spans.drop_first(), spans[0].end as int);
        lemma_retained_laid_out(bytes, spans.drop_first(), spans[0].end as int);
        let kept = retained(bytes, spans, cursor);
        assert(kept =~= seq![spans[0]] + rest);
        assert forall|i: int| 0 <= i < kept.len() implies cursor <= (#[trigger] kept[i]).start
            <= kept[i].end <= bytes.len() by {
            if i > 0 {
                assert(kept[i] == rest[i - 1]);
            }
        }
        assert forall|i: int, j: int| 0 <= i < j < kept.len() implies (#[trigger] kept[i]).end <= (
        #[trigger] kept[j]).start by {
            assert(kept[j] == rest[j - 1]);
            if i > 0 {
                assert(kept[i] == rest[i - 1]);
            }
        }
    } else {
        lemma_retained_laid_out(bytes, spans.drop_first(), cursor);
    }
}

/// Where the cursor stands after a pass over the first `n` ranges.
pub open spec fn cursor_after(bytes: Seq<u8>, spans: Seq<Span>, n: int) -> int
    decreases n,
{
    if n <= 0 || n > spans.len() {
        0
    } else if applies(bytes, cursor_after(bytes, spans, n - 1), spans[n - 1]) {
        spans[n - 1].end as int
    } else {
        cursor_after(bytes, spans, n - 1)
    }
}

/// Whether a pass over `spans` folds the range at index `j`.
pub open spec fn is_folded(bytes: Seq<u8>, spans: Seq<Span>, j: int) -> bool {
    0 <= j < spans.len() && applies(bytes, cursor_after(bytes, spans, j), spans[j])
}

/// A range within the text that cuts no character in two.
pub open spec fn well_formed(bytes: Seq<u8>, s: Span) -> bool {
    applies(bytes, 0, s)
}

/// The cursor is at the start of the text or at the end of a folded range in
/// front of it.
pub proof fn lemma_cursor_origin(bytes: Seq<u8>, spans: Seq<Span>, n: int)
    requires
        0 <= n <= spans.len(),
    ensures
        cursor_after(bytes, spans, n) == 0 || exists|i: int|
            0 <= i < n && is_folded(bytes, spans, i) && #[trigger] spans[i].end == cursor_after(
                bytes,
                spans,
                n,
            ),
    decreases n,
{
    if n > 0 {
        if applies(bytes, cursor_after(bytes, spans, n - 1), spans[n - 1]) {
            assert(is_folded(bytes, spans, n - 1));
        } else {
            lemma_cursor_origin(bytes, spans, n - 1);
        }
    }
}

/// In a pass over ranges in ascending order, a well-formed range is left out
/// only when it starts inside a range that was folded before it: of a cluster
/// of overlapping ranges the pass folds the outermost one.
pub proof fn lemma_skipped_is_covered(bytes: Seq<u8>, spans: Seq<Span>, j: int)
    requires
        ordered_by_start(spans),
        0 <= j < spans.len(),
        well_formed(bytes, spans[j]),
        !is_folded(bytes, spans, j),
    ensures
        exists|i: int|
            0 <= i < j && is_folded(bytes, spans, i) && (#[trigger] spans[i]).start <= spans[j].start
                < spans[i].end,
{
    lemma_cursor_origin(bytes, spans, j);
    let i = choose|i: int|
        0 <= i < j && is_folded(bytes, spans, i) && #[trigger] spans[i].end == cursor_after(
            bytes,
            spans,
            j,
        );
    assert(spans[i].start <= spans[j].start);
}

/// Where the cursor stands after a pass over all of `spans` that began at `cursor`.
pub open spec fn pass_end(bytes: Seq<u8>, spans: Seq<Span>, cursor: int) -> int
    decreases spans.len(),
{
    if spans.len() == 0 {
        cursor
    } else if applies(bytes, cursor, spans[0]) {
        pass_end(bytes, spans.drop_first(), spans[0].end as int)
    } else {
        pass_end(bytes, spans.drop_first(), cursor)
    }
}

proof fn lemma_cursor_of_prefix(bytes: Seq<u8>, spans: Seq<Span>, n: int)
    requires
        0 <= n <= spans.len(),
    ensures
        cursor_after(bytes, spans, n) == pass_end(bytes, spans.subrange(0, n), 0),
    decreases n,
{
    if n > 0 {
        lemma_cursor_of_prefix(bytes, spans, n - 1);
        let p = spans.subrange(0, n);
        assert(p.drop_last() =~= spans.subrange(0, n - 1));
        lemma_pass_end_last(bytes, p, 0);
    }
}

proof fn lemma_pass_end_last(bytes: Seq<u8>, spans: Seq<Span>, cursor: int)
    requires
        spans.len() > 0,
    ensures
        pass_end(bytes, spans, cursor) == if applies(
            bytes,
            pass_end(bytes, spans.drop_last(), cursor),
            spans.last(),
        ) {
            spans.last().end as int
        } else {
            pass_end(bytes, spans.drop_last(), cursor)
        },
    decreases spans.len(),
{
    reveal_with_fuel(pass_end, 2);
    if spans.len() == 1 {
        assert(spans.drop_first() =~= Seq::empty());
        assert(spans.drop_last() =~= Seq::empty());
    } else {
        let next = if applies(bytes, cursor, spans[0]) {
            spans[0].end as int
        } else {
            cursor
        };
        let rest = spans.drop_first();
        let front = spans.drop_last();
        lemma_pass_end_last(bytes, rest, next);
        assert(rest.drop_last() =~= front.drop_first());
        assert(front[0] == spans[0]);
        assert(rest.last() == spans.last());
        assert(pass_end(bytes, front, cursor) == pass_end(bytes, front.drop_first(), next));
        assert(pass_end(bytes, spans, cursor) == pass_end(bytes, rest, next));
    }
}

proof fn lemma_retained_split(bytes: Seq<u8>, spans: Seq<Span>, cursor: int, n: int)
    requires
        0 <= n <= spans.len(),
    ensures
        retained(bytes, spans, cursor) == retained(bytes, spans.subrange(0, n), cursor) + retained(
            bytes,
            spans.subrange(n, spans.len() as int),
            pass_end(bytes, spans.subrange(0, n), cursor),
        ),
    decreases n,
{
    if n == 0 {
        assert(spans.subrange(0, 0) =~= Seq::empty());
        assert(spans.subrange(0, spans.len() as int) =~= spans);
        assert(Seq::<Span>::empty() + retained(bytes, spans, cursor) =~= retained(bytes, spans, cursor));
    } else {
        let next = if applies(bytes, cursor, spans[0]) {
            spans[0].end as int
        } else {
            cursor
        };
        let rest = spans.drop_first();
        lemma_retained_split(bytes, rest, next, n - 1);
        let p = spans.subrange(0, n);
        assert(p.drop_first() =~= rest.subrange(0, n - 1));
        assert(p[0] == spans[0]);
        assert(rest.subrange(n - 1, rest.len() as int) =~= spans.subrange(n, spans.len() as int));
        let tail = retained(bytes, spans.subrange(n, spans.len() as int), pass_end(bytes, p, cursor));
        if applies(bytes, cursor, spans[0]) {
            assert(seq![spans[0]] + (retained(bytes, p.drop_first(), next) + tail) =~= (seq![spans[0]]
                + retained(bytes, p.drop_first(), next)) + tail);
        }
    }
}

/// A pass can be cut in two at any index: the ranges that it folds are those
/// that the pass over the first `n` ranges folds, and behind them those that a
/// pass over the others folds when it begins where the first one left the cursor.
pub proof fn lemma_pass_in_two(bytes: Seq<u8>, spans: Seq<Span>, n: int)
    requires
        0 <= n <= spans.len(),
    ensures
        retained(bytes, spans, 0) == retained(bytes, spans.subrange(0, n), 0) + retained(
            bytes,
            spans.subrange(n, spans.len() as int),
            cursor_after(bytes, spans, n),
        ),
{
    lemma_retained_split(bytes, spans, 0, n);
    lemma_cursor_of_prefix(bytes, spans, n);
}

/// What a fold does with ranges that overlap: the ranges that it folds lie one
/// behind the other within the text, none with a negative length, and a
/// well-formed range that it leaves out starts inside one that it folds.
pub proof fn lemma_overlap_safety(bytes: Seq<u8>, spans: Seq<Span>, j: int)
    ensures
        ordered_by_start(sorted_by_start(spans)),
        sorted_by_start(spans).to_multiset() == spans.to_multiset(),
        laid_out(bytes, retained(bytes, sorted_by_start(spans), 0), 0),
        0 <= j < spans.len() && well_formed(bytes, sorted_by_start(spans)[j]) && !is_folded(
            bytes,
            sorted_by_start(spans),
            j,
        ) ==> exists|i: int|
            0 <= i < j && is_folded(bytes, sorted_by_start(spans), i) && (#[trigger] sorted_by_start(
                spans,
            )[i]).start <= sorted_by_start(spans)[j].start < sorted_by_start(spans)[i].end,
{
    let sorted = sorted_by_start(spans);
    lemma_sorted_by_key(spans);
    assert forall|a: int, b: int| 0 <= a < b < sorted.len() implies sorted[a].start <= sorted[b].start by {
        assert(sorted[a].key() <= sorted[b].key());
    }
    lemma_retained_laid_out(bytes, sorted, 0);
    if 0 <= j < spans.len() && well_formed(bytes, sorted[j]) && !is_folded(bytes, sorted, j) {
        lemma_skipped_is_covered(bytes, sorted, j);
    }
}

/// Replaces ranges of `content` by `placeholder`.
///
/// The ranges are taken in ascending order of their start. A range that starts
/// before the end of the last replaced one is left out, and so is a range that
/// reaches beyond the text, ends before it starts or cuts a character in two.
pub fn fold(content: &str, spans: &Vec<Span>, placeholder: &str) -> (r: String)
    ensures
        bytes_of(r@) == folded(bytes_of(content@), spans@, bytes_of(placeholder@)),
{
    let sorted = sort_by_key(spans);
    let len = content.as_bytes().len();
    let ghost bytes = bytes_of(content@);
    let ghost mark = bytes_of(placeholder@);
    let ghost goal = folded(bytes, spans@, mark);
    let mut out = String::new();
    let mut cursor: usize = 0;
    let mut i: usize = 0;
    proof {
        encode_utf8_valid_utf8(content@);
        is_char_boundary_start_end_of_seq(bytes);
        assert(sorted@.skip(0) =~= sorted@);
        assert(bytes_of(out@) + goal =~= goal);
    }
    while i < sorted.len()
        invariant
            i <= sorted@.len(),
            len == bytes.len(),
            bytes == bytes_of(content@),
            mark == bytes_of(placeholder@),
            valid_utf8(bytes),
            boundary(bytes, cursor as int),
            bytes_of(out@) + rendered(bytes, retained(bytes, sorted@.skip(i as int), cursor as int), mark, cursor as int)
                == goal,
        decreases sorted@.len() - i,
    {
        let s = sorted[i];
        proof {
            assert(sorted@.skip(i as int)[0] == s);
            assert(sorted@.skip(i as int).drop_first() =~= sorted@.skip(i + 1));
        }
        if cursor <= s.start && s.start <= s.end && s.end <= len && content.is_char_boundary(s.start)
            && content.is_char_boundary(s.end) {
            let ghost before = out@;
            let piece = slice(content, cursor, s.start);
            out.append(piece);
            out.append(placeholder);
            proof {
                let rest = retained(bytes, sorted@.skip(i + 1), s.end as int);
                let kept = retained(bytes, sorted@.skip(i as int), cursor as int);
                assert(kept =~= seq![s] + rest);
                assert(kept.drop_first() =~= rest);
                lemma_encode_concat(before, piece@);
                lemma_encode_concat(before + piece@, placeholder@);
                assert(bytes_of(out@) + rendered(bytes, rest, mark, s.end as int) =~= bytes_of(before)
                    + rendered(bytes, kept, mark, cursor as int));
            }
            cursor = s.end;
        }
        i = i + 1;
    }
    let ghost before = out@;
    let tail = slice(content, cursor, len);
    out.append(tail);
    proof {
        assert(sorted@.skip(i as int) =~= Seq::empty());
        lemma_encode_concat(before, tail@);
    }
    out
}

} // verus!
