//! Cutting a source file into the declarations that are worth indexing.
//!
//! A chunk is one captured declaration together with the documentation that
//! stands closely in front of it. Chunks come in the order of their
//! declarations in the text, each range once, and only those that reach over
//! more than three lines.

use vstd::prelude::*;
use vstd::string::*;
use vstd::utf8::*;
use tree_sitter::{Language, Node};
use crate::order::{lemma_sorted_by_key, ordered_by_key, sort_by_key, sorted_by_key, Keyed};
use crate::registry::{extension_of, extension_text, grammar_of, item_query_of, resolve};
use crate::syntax::{
    captured_nodes, captures_of, language_for, language_of, node_view, preceding_of, prepare,
    prepared_of, previous_sibling, read_node, NodeView, Prepared, PreparedView, SyntaxNode,
};
use crate::text::{bytes_of, count_newlines, lemma_newlines_bounded, lemma_newlines_monotone, line_at, slice,
    str_eq};

verus! {

/// A sibling is attached only when fewer bytes than this lie between its end
/// and the start reached so far.
pub const GAP_LIMIT: usize = 50;

/// A chunk is kept only when its last line lies more than this many lines
/// behind its first.
pub const MIN_LINE_SPAN: usize = 3;

/// A declaration of a source file with the documentation in front of it.
#[derive(Clone, Debug)]
pub struct CodeChunk {
    pub path: String,
    pub content: String,
    pub start_line: usize,
    pub end_line: usize,
}

/// The mathematical value of a [`CodeChunk`].
pub struct ChunkView {
    pub path: Seq<char>,
    pub content: Seq<char>,
    pub start_line: nat,
    pub end_line: nat,
}

impl View for CodeChunk {
    type V = ChunkView;

    open spec fn view(&self) -> ChunkView {
        ChunkView {
            path: self.path@,
            content: self.content@,
            start_line: self.start_line as nat,
            end_line: self.end_line as nat,
        }
    }
}

/// The values of a list of chunks.
pub open spec fn chunk_views(chunks: Seq<CodeChunk>) -> Seq<ChunkView> {
    chunks.map_values(|c: CodeChunk| c@)
}

/// A captured declaration as plain values: its byte range and the siblings in
/// front of it, the nearest first.
#[derive(Clone, Debug)]
pub struct Capture {
    pub start: usize,
    pub end: usize,
    pub preceding: Vec<SyntaxNode>,
}

/// The values of the siblings in front of a capture.
pub open spec fn siblings_of(capture: Capture) -> Seq<NodeView> {
    capture.preceding@.map_values(|n: SyntaxNode| n@)
}

/// A captured range and the offset from which its chunk starts.
#[derive(Clone, Copy, Debug)]
pub struct Located {
    pub start: usize,
    pub end: usize,
    pub from: usize,
}

impl Keyed for Located {
    open spec fn key(self) -> int {
        self.start as int
    }

    fn key_of(&self) -> (k: u64) {
        self.start as u64
    }
}

/// `needle` stands in `hay` at index `i`.
pub open spec fn stands_at(hay: Seq<u8>, needle: Seq<u8>, i: int) -> bool {
    &&& 0 <= i
    &&& i + needle.len() <= hay.len()
    &&& forall|m: int| 0 <= m < needle.len() ==> hay[i + m] == needle[m]
}

/// `needle` stands somewhere in `hay`.
pub open spec fn has_infix(hay: Seq<u8>, needle: Seq<u8>) -> bool {
    exists|i: int| stands_at(hay, needle, i)
}

/// The kinds of node that count as documentation: every kind with `comment`
/// in its name, and `string`.
pub open spec fn doc_kind(kind: Seq<char>) -> bool {
    has_infix(bytes_of(kind), bytes_of("comment"@)) || kind == "string"@
}

/// A sibling is attached to a chunk that starts at `start` when it is
/// documentation, ends at or before `start` and leaves a gap below the limit.
pub open spec fn attaches(sibling: NodeView, start: usize) -> bool {
    &&& doc_kind(sibling.kind)
    &&& sibling.end <= start
    &&& start - sibling.end < GAP_LIMIT
}

/// Where a chunk starts: the walk goes back over the siblings in front of the
/// declaration, moves the start to each sibling that attaches and stops at the
/// first that does not.
pub open spec fn attached_start(start: usize, preceding: Seq<NodeView>) -> usize
    decreases preceding.len(),
{
    if preceding.len() == 0 || !attaches(preceding[0], start) {
        start
    } else {
        attached_start(preceding[0].start, preceding.drop_first())
    }
}

/// Whether `needle` stands somewhere in `hay`.
pub fn contains_bytes(hay: &[u8], needle: &[u8]) -> (r: bool)
    ensures
        r == has_infix(hay@, needle@),
{
    if needle.len() > hay.len() {
        assert forall|i: int| !stands_at(hay@, needle@, i) by {}
        return false;
    }
    let last = hay.len() - needle.len();
    let mut i: usize = 0;
    loop
        invariant
            i <= last,
            last == hay@.len() - needle@.len(),
            hay@.len() <= usize::MAX,
            forall|k: int| 0 <= k < i ==> !stands_at(hay@, needle@, k),
        decreases last - i,
    {
        let mut j: usize = 0;
        while j < needle.len() && hay[i + j] == needle[j]
            invariant
                j <= needle@.len(),
                i <= last,
                last == hay@.len() - needle@.len(),
                hay@.len() <= usize::MAX,
                forall|m: int| 0 <= m < j ==> hay@[i + m] == needle@[m],
            decreases needle@.len() - j,
        {
            j = j + 1;
        }
        if j == needle.len() {
            assert(stands_at(hay@, needle@, i as int));
            return true;
        }
        assert(!stands_at(hay@, needle@, i as int));
        if i == last {
            assert forall|k: int| !stands_at(hay@, needle@, k) by {}
            return false;
        }
        i = i + 1;
    }
}

/// Whether a kind of node counts as documentation.
pub fn is_doc_kind(kind: &str) -> (r: bool)
    ensures
        r == doc_kind(kind@),
{
    contains_bytes(kind.as_bytes(), "comment".as_bytes()) || str_eq(kind, "string")
}

/// Whether a sibling is attached to a chunk that starts at `start`.
pub fn attaches_to(sibling: &SyntaxNode, start: usize) -> (r: bool)
    ensures
        r == attaches(sibling@, start),
{
    is_doc_kind(sibling.kind.as_str()) && sibling.end <= start && start - sibling.end < GAP_LIMIT
}

/// Walks back over the siblings in front of a declaration that starts at
/// `start` and returns where its chunk starts.
pub fn attach_leading(start: usize, preceding: &Vec<SyntaxNode>) -> (from: usize)
    ensures
        from == attached_start(start, preceding@.map_values(|n: SyntaxNode| n@)),
{
    let ghost all = preceding@.map_values(|n: SyntaxNode| n@);
    let mut from = start;
    let mut i: usize = 0;
    proof {
        assert(all.skip(0) =~= all);
    }
    while i < preceding.len()
        invariant
            i <= preceding@.len(),
            all == preceding@.map_values(|n: SyntaxNode| n@),
            attached_start(from, all.skip(i as int)) == attached_start(start, all),
        decreases preceding@.len() - i,
    {
        proof {
            assert(all.skip(i as int)[0] == preceding@[i as int]@);
            assert(all.skip(i as int).drop_first() =~= all.skip(i + 1));
        }
        if !attaches_to(&preceding[i], from) {
            return from;
        }
        from = preceding[i].start;
        i = i + 1;
    }
    from
}

/// Walks back over the siblings in front of a node of a tree, as
/// [`attach_leading`] does over a list.
fn leading_start(node: &Node, start: usize) -> (from: usize)
    ensures
        from == attached_start(start, preceding_of(*node)),
{
    let mut from = start;
    let mut current = *node;
    loop
        invariant
            attached_start(from, preceding_of(current)) == attached_start(start, preceding_of(*node)),
        decreases preceding_of(current).len(),
    {
        match previous_sibling(&current) {
            None => {
                return from;
            },
            Some(sibling) => {
                let read = read_node(&sibling);
                if !attaches_to(&read, from) {
                    return from;
                }
                from = read.start;
                current = sibling;
            },
        }
    }
}

/// Where the chunk of a capture lies.
pub open spec fn located_capture(capture: Capture) -> Located {
    Located {
        start: capture.start,
        end: capture.end,
        from: attached_start(capture.start, siblings_of(capture)),
    }
}

/// Where the chunk of a captured node lies.
pub open spec fn located_node(node: Node) -> Located {
    Located {
        start: node_view(node).start,
        end: node_view(node).end,
        from: attached_start(node_view(node).start, preceding_of(node)),
    }
}

/// Where the chunks of captures lie.
pub open spec fn located_captures(captures: Seq<Capture>) -> Seq<Located> {
    Seq::new(captures.len(), |i: int| located_capture(captures[i]))
}

/// Where the chunks of captured nodes lie.
pub open spec fn located_nodes(nodes: Seq<Node>) -> Seq<Located> {
    Seq::new(nodes.len(), |i: int| located_node(nodes[i]))
}

fn locate_captures(captures: &Vec<Capture>) -> (r: Vec<Located>)
    ensures
        r@ == located_captures(captures@),
{
    let mut out: Vec<Located> = Vec::new();
    let mut i: usize = 0;
    while i < captures.len()
        invariant
            i <= captures@.len(),
            out@.len() == i,
            forall|k: int| 0 <= k < i ==> out@[k] == located_capture(captures@[k]),
        decreases captures@.len() - i,
    {
        let capture = &captures[i];
        let from = attach_leading(capture.start, &capture.preceding);
        out.push(Located { start: capture.start, end: capture.end, from });
        i = i + 1;
    }
    assert(out@ =~= located_captures(captures@));
    out
}

fn locate_nodes(nodes: &Vec<Node>) -> (r: Vec<Located>)
    ensures
        r@ == located_nodes(nodes@),
{
    let mut out: Vec<Located> = Vec::new();
    let mut i: usize = 0;
    while i < nodes.len()
        invariant
            i <= nodes@.len(),
            out@.len() == i,
            forall|k: int| 0 <= k < i ==> out@[k] == located_node(nodes@[k]),
        decreases nodes@.len() - i,
    {
        let read = read_node(&nodes[i]);
        let from = leading_start(&nodes[i], read.start);
        out.push(Located { start: read.start, end: read.end, from });
        i = i + 1;
    }
    assert(out@ =~= located_nodes(nodes@));
    out
}

/// No range in front of index `k` is the range at `k`.
pub open spec fn fresh(s: Seq<Located>, k: int) -> bool {
    forall|j: int| 0 <= j < k ==> !(s[j].start == s[k].start && s[j].end == s[k].end)
}

/// The chunk of a located range, if it is one to keep: the range lies within
/// the text, cuts no character in two and its last line lies more than
/// [`MIN_LINE_SPAN`] lines behind its first. Lines are counted from 1.
pub open spec fn chunk_at(bytes: Seq<u8>, path: Seq<char>, item: Located) -> Option<ChunkView> {
    if item.from <= item.end <= bytes.len() && is_char_boundary(bytes, item.from as int)
        && is_char_boundary(bytes, item.end as int) && line_at(bytes, item.end as int) <= usize::MAX
        && line_at(bytes, item.end as int) - line_at(bytes, item.from as int) > MIN_LINE_SPAN {
        Some(
            ChunkView {
                path,
                content: decode_utf8(bytes.subrange(item.from as int, item.end as int)),
                start_line: line_at(bytes, item.from as int),
                end_line: line_at(bytes, item.end as int),
            },
        )
    } else {
        None
    }
}

/// The chunks of the first `n` ranges of `s`: of each range that no range in
/// front of it repeats, the chunk if it is one to keep.
pub open spec fn chunks_upto(bytes: Seq<u8>, path: Seq<char>, s: Seq<Located>, n: int) -> Seq<ChunkView>
    decreases n,
{
    if n <= 0 || n > s.len() {
        Seq::empty()
    } else {
        let before = chunks_upto(bytes, path, s, n - 1);
        if fresh(s, n - 1) && chunk_at(bytes, path, s[n - 1]) is Some {
            before.push(chunk_at(bytes, path, s[n - 1])->0)
        } else {
            before
        }
    }
}

/// The chunks of located ranges: the ranges are taken in ascending order of
/// their start.
pub open spec fn assembled(bytes: Seq<u8>, path: Seq<char>, located: Seq<Located>) -> Seq<ChunkView> {
    chunks_upto(bytes, path, sorted_by_key(located), located.len() as int)
}

fn is_fresh(sorted: &Vec<Located>, k: usize) -> (r: bool)
    requires
        k < sorted@.len(),
        ordered_by_key(sorted@),
    ensures
        r == fresh(sorted@, k as int),
{
    let mut j: usize = k;
    while j > 0 && sorted[j - 1].start == sorted[k].start
        invariant
            j <= k < sorted@.len(),
            forall|m: int| j <= m < k ==> !(sorted@[m].start == sorted@[k as int].start && sorted@[m].end
                == sorted@[k as int].end),
        decreases j,
    {
        if sorted[j - 1].end == sorted[k].end {
            return false;
        }
        j = j - 1;
    }
    proof {
        assert forall|m: int| 0 <= m < j implies sorted@[m].start != sorted@[k as int].start by {
            assert(sorted@[m].key() <= sorted@[j - 1].key());
            assert(sorted@[j - 1].key() <= sorted@[k as int].key());
        }
    }
    true
}

fn make_chunk(content: &str, path: &str, item: Located) -> (r: Option<CodeChunk>)
    ensures
        match r {
            Some(chunk) => chunk_at(bytes_of(content@), path@, item) == Some(chunk@),
            None => chunk_at(bytes_of(content@), path@, item) is None,
        },
{
    let bytes = content.as_bytes();
    if !(item.from <= item.end && item.end <= bytes.len() && content.is_char_boundary(item.from)
        && content.is_char_boundary(item.end)) {
        return None;
    }
    let first = count_newlines(bytes, item.from);
    let last = count_newlines(bytes, item.end);
    proof {
        lemma_newlines_monotone(bytes@, item.from as int, item.end as int);
        lemma_newlines_bounded(bytes@, item.end as int);
    }
    if last == usize::MAX || last - first <= MIN_LINE_SPAN {
        return None;
    }
    let piece = slice(content, item.from, item.end);
    proof {
        encode_utf8_decode_utf8(piece@);
    }
    Some(
        CodeChunk {
            path: String::from_str(path),
            content: String::from_str(piece),
            start_line: first + 1,
            end_line: last + 1,
        },
    )
}

fn assemble(content: &str, path: &str, located: &Vec<Located>) -> (r: Vec<CodeChunk>)
    ensures
        chunk_views(r@) == assembled(bytes_of(content@), path@, located@),
{
    let sorted = sort_by_key(located);
    proof {
        lemma_sorted_by_key(located@);
    }
    let ghost bytes = bytes_of(content@);
    let mut out: Vec<CodeChunk> = Vec::new();
    let mut k: usize = 0;
    assert(chunk_views(out@) =~= Seq::<ChunkView>::empty());
    while k < sorted.len()
        invariant
            k <= sorted@.len(),
            sorted@ == sorted_by_key(located@),
            ordered_by_key(sorted@),
            bytes == bytes_of(content@),
            chunk_views(out@) == chunks_upto(bytes, path@, sorted@, k as int),
        decreases sorted@.len() - k,
    {
        if is_fresh(&sorted, k) {
            match make_chunk(content, path, sorted[k]) {
                Some(chunk) => {
                    let ghost before = out@;
                    out.push(chunk);
                    assert(chunk_views(out@) =~= chunk_views(before).push(chunk@));
                },
                None => {},
            }
        }
        k = k + 1;
    }
    out
}

/// The chunks that a query yields for a text, or the description of the
/// defect that stood in the way. A text without a tree has no chunks.
pub open spec fn extracted(path: Seq<char>, content: Seq<char>, language: Language, query: Seq<char>) -> Result<
    Seq<ChunkView>,
    Seq<char>,
> {
    match prepared_of(language, query, content) {
        PreparedView::Unparsed => Ok(Seq::empty()),
        PreparedView::Defect(message) => Err(message),
        PreparedView::Ready(tree, compiled) => Ok(
            assembled(bytes_of(content), path, located_nodes(captures_of(compiled, tree, content))),
        ),
    }
}

/// The chunks of a file. A path whose extension has no grammar has none.
pub open spec fn chunks_of(path: Seq<char>, content: Seq<char>) -> Result<Seq<ChunkView>, Seq<char>> {
    match grammar_of(extension_text(path)) {
        None => Ok(Seq::empty()),
        Some(grammar) => extracted(path, content, language_of(grammar), item_query_of(grammar)),
    }
}

/// The outcome of a call is the expected one: the same chunks, or the same
/// message.
pub open spec fn yields(r: Result<Vec<CodeChunk>, String>, expected: Result<Seq<ChunkView>, Seq<char>>) -> bool {
    match r {
        Ok(chunks) => expected == Ok::<Seq<ChunkView>, Seq<char>>(chunk_views(chunks@)),
        Err(message) => expected == Err::<Seq<ChunkView>, Seq<char>>(message@),
    }
}

/// Every chunk of `chunks_upto` carries the path, reaches over more lines than
/// [`MIN_LINE_SPAN`] and numbers its lines from 1.
pub proof fn lemma_chunks_are_significant(bytes: Seq<u8>, path: Seq<char>, s: Seq<Located>, n: int)
    ensures
        forall|i: int|
            0 <= i < chunks_upto(bytes, path, s, n).len() ==> {
                let chunk = #[trigger] chunks_upto(bytes, path, s, n)[i];
                &&& chunk.path == path
                &&& chunk.start_line >= 1
                &&& chunk.end_line - chunk.start_line > MIN_LINE_SPAN
            },
        chunks_upto(bytes, path, s, n).len() <= if n < 0 {
            0
        } else {
            n
        },
    decreases n,
{
    if 0 < n <= s.len() {
        lemma_chunks_are_significant(bytes, path, s, n - 1);
    }
}

/// The indices of the ranges among the first `n` of `s` that give a chunk.
pub open spec fn kept_upto(bytes: Seq<u8>, path: Seq<char>, s: Seq<Located>, n: int) -> Seq<int>
    decreases n,
{
    if n <= 0 || n > s.len() {
        Seq::empty()
    } else {
        let before = kept_upto(bytes, path, s, n - 1);
        if fresh(s, n - 1) && chunk_at(bytes, path, s[n - 1]) is Some {
            before.push(n - 1)
        } else {
            before
        }
    }
}

/// The chunks come in the order of the ranges they are made of: chunk by
/// chunk they belong to ranges further on in `s`, each range no range in front
/// of it repeats.
pub proof fn lemma_chunks_follow_ranges(bytes: Seq<u8>, path: Seq<char>, s: Seq<Located>, n: int)
    ensures
        kept_upto(bytes, path, s, n).len() == chunks_upto(bytes, path, s, n).len(),
        forall|k: int|
            0 <= k < kept_upto(bytes, path, s, n).len() ==> {
                let i = #[trigger] kept_upto(bytes, path, s, n)[k];
                &&& 0 <= i < n
                &&& i < s.len()
                &&& fresh(s, i)
                &&& chunk_at(bytes, path, s[i]) == Some(chunks_upto(bytes, path, s, n)[k])
            },
        forall|a: int, b: int|
            0 <= a < b < kept_upto(bytes, path, s, n).len() ==> kept_upto(bytes, path, s, n)[a] < kept_upto(
                bytes,
                path,
                s,
                n,
            )[b],
    decreases n,
{
    if 0 < n <= s.len() {
        lemma_chunks_follow_ranges(bytes, path, s, n - 1);
    }
}

/// The chunks of a file come in the order of the text: a chunk that follows
/// another belongs to a declaration that starts no earlier, and no two
/// chunks belong to the same range.
pub proof fn lemma_chunks_in_source_order(bytes: Seq<u8>, path: Seq<char>, located: Seq<Located>, a: int, b: int)
    requires
        0 <= a < b < assembled(bytes, path, located).len(),
    ensures
        ({
            let sorted = sorted_by_key(located);
            let kept = kept_upto(bytes, path, sorted, located.len() as int);
            &&& kept.len() == assembled(bytes, path, located).len()
            &&& 0 <= kept[a] < kept[b] < sorted.len()
            &&& chunk_at(bytes, path, sorted[kept[a]]) == Some(assembled(bytes, path, located)[a])
            &&& chunk_at(bytes, path, sorted[kept[b]]) == Some(assembled(bytes, path, located)[b])
            &&& sorted[kept[a]].start <= sorted[kept[b]].start
            &&& !(sorted[kept[a]].start == sorted[kept[b]].start && sorted[kept[a]].end == sorted[kept[b]].end)
        }),
{
    let sorted = sorted_by_key(located);
    lemma_sorted_by_key(located);
    lemma_chunks_follow_ranges(bytes, path, sorted, located.len() as int);
    let kept = kept_upto(bytes, path, sorted, located.len() as int);
    assert(sorted[kept[a]].key() <= sorted[kept[b]].key());
    assert(fresh(sorted, kept[b]));
}

/// The chunks of a file are determined by its path and its text: two calls
/// for the same file give the same chunks, whatever was cut before.
pub proof fn lemma_same_file_same_chunks(
    first: Result<Vec<CodeChunk>, String>,
    second: Result<Vec<CodeChunk>, String>,
    path: Seq<char>,
    content: Seq<char>,
)
    requires
        yields(first, chunks_of(path, content)),
        yields(second, chunks_of(path, content)),
    ensures
        match (first, second) {
            (Ok(a), Ok(b)) => chunk_views(a@) == chunk_views(b@),
            (Err(a), Err(b)) => a@ == b@,
            _ => false,
        },
{
}

/// Cuts source files into chunks.
pub struct Chunker;

impl Chunker {
    /// The chunks of a file, in the order of the text. The grammar is chosen
    /// by the extension of `path`; a file without a grammar has no chunks. A
    /// defect of the grammar or of its query is returned as an error.
    pub fn chunk(content: &str, path: &str) -> (r: Result<Vec<CodeChunk>, String>)
        ensures
            yields(r, chunks_of(path@, content@)),
    {
        match resolve(extension_of(path)) {
            None => {
                let none: Vec<CodeChunk> = Vec::new();
                assert(chunk_views(none@) =~= Seq::<ChunkView>::empty());
                Ok(none)
            },
            Some(entry) => Self::extract_chunks(content, path, language_for(entry.grammar), entry.item_query),
        }
    }

    /// The chunks that a query yields for a text: parses the text, runs the
    /// query and assembles the chunks of the captured declarations.
    pub fn extract_chunks(content: &str, path: &str, language: Language, query: &str) -> (r: Result<
        Vec<CodeChunk>,
        String,
    >)
        ensures
            yields(r, extracted(path@, content@, language, query@)),
    {
        match prepare(language, query, content) {
            Prepared::Unparsed => {
                let none: Vec<CodeChunk> = Vec::new();
                assert(chunk_views(none@) =~= Seq::<ChunkView>::empty());
                Ok(none)
            },
            Prepared::Defect(message) => Err(message),
            Prepared::Ready(tree, compiled) => {
                let nodes = captured_nodes(&compiled, &tree, content);
                let located = locate_nodes(&nodes);
                Ok(assemble(content, path, &located))
            },
        }
    }

    /// The chunks of captured declarations that are given as plain values.
    pub fn chunks_from_captures(content: &str, path: &str, captures: &Vec<Capture>) -> (r: Vec<CodeChunk>)
        ensures
            chunk_views(r@) == assembled(bytes_of(content@), path@, located_captures(captures@)),
    {
        let located = locate_captures(captures);
        assemble(content, path, &located)
    }
}

} // verus!
