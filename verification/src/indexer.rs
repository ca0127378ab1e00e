//! The index of chunks and the ranking of its entries.
//!
//! The library does not compute embeddings. It says what is to be embedded,
//! pairs the vectors that come back with the chunks they belong to, and ranks
//! the entries of the index by the scores that the caller computed for them.
//! A vector is held as the bit patterns of its components.

use vstd::prelude::*;
use vstd::string::*;
use crate::chunker::{chunk_views, chunks_of, ChunkView, Chunker, CodeChunk};
use crate::order::{lemma_insert_keeps_order, lemma_sorted_by_key, insert_by_key, ordered_by_key, sort_by_key,
    sorted_by_key, Keyed};
use crate::text::{decimal, decimal_text};

verus! {

/// A chunk with its embedding vector.
#[derive(Clone, Debug)]
pub struct IndexedDoc {
    pub path: String,
    pub content: String,
    pub start_line: usize,
    pub embedding: Vec<u32>,
}

/// The mathematical value of an [`IndexedDoc`].
pub struct DocView {
    pub path: Seq<char>,
    pub content: Seq<char>,
    pub start_line: nat,
    pub embedding: Seq<u32>,
}

impl View for IndexedDoc {
    type V = DocView;

    open spec fn view(&self) -> DocView {
        DocView {
            path: self.path@,
            content: self.content@,
            start_line: self.start_line as nat,
            embedding: self.embedding@,
        }
    }
}

/// The values of a list of entries.
pub open spec fn doc_views(docs: Seq<IndexedDoc>) -> Seq<DocView> {
    docs.map_values(|d: IndexedDoc| d@)
}

/// All vectors have the same number of components.
pub open spec fn uniform(docs: Seq<DocView>) -> bool {
    forall|i: int, j: int|
        0 <= i < docs.len() && 0 <= j < docs.len() ==> docs[i].embedding.len() == docs[j].embedding.len()
}

/// A file as the caller read it: its path and its text, or no text where it
/// could not be read.
#[derive(Clone, Debug)]
pub struct SourceFile {
    pub path: String,
    pub content: Option<String>,
}

/// What a rebuild has to embed.
#[derive(Debug)]
pub enum RebuildPlan {
    /// The files have no chunks: the index stays as it is.
    Nothing,
    /// The chunks and, for each of them, the text to embed.
    Embed { chunks: Vec<CodeChunk>, inputs: Vec<String> },
}

/// How a rebuild ended.
#[derive(Debug)]
pub enum RebuildStatus {
    /// There was nothing to index; the index is as it was.
    NoChange,
    /// The rebuild was given up; the index is as it was.
    Failed(String),
    /// The index holds the new entries, this many.
    Updated(usize),
}

/// The score of one entry for a query: a number that is larger for a better
/// match, and the text that shows the score.
#[derive(Clone, Debug)]
pub struct Score {
    pub rank: u32,
    pub shown: String,
}

/// An entry of the index as the ranking sees it.
#[derive(Clone, Copy, Debug)]
pub struct Ranked {
    pub rank: u32,
    pub index: usize,
}

impl Keyed for Ranked {
    open spec fn key(self) -> int {
        u32::MAX - self.rank
    }

    fn key_of(&self) -> (k: u64) {
        (u32::MAX - self.rank) as u64
    }
}

/// The text that is embedded for a chunk: the path and the first line of the
/// chunk in front of its text.
pub open spec fn embedding_input_of(chunk: ChunkView) -> Seq<char> {
    "File: "@ + chunk.path + "\nLine: "@ + decimal(chunk.start_line) + "\n\n"@ + chunk.content
}

/// The texts that are embedded for chunks, one for each and in their order.
pub open spec fn embedding_inputs_of(chunks: Seq<ChunkView>) -> Seq<Seq<char>> {
    Seq::new(chunks.len(), |i: int| embedding_input_of(chunks[i]))
}

/// The chunks of the readable files, file by file in the order of the list,
/// or the first defect that cutting a file met.
pub open spec fn collected(files: Seq<SourceFile>) -> Result<Seq<ChunkView>, Seq<char>>
    decreases files.len(),
{
    if files.len() == 0 {
        Ok(Seq::empty())
    } else {
        match collected(files.drop_last()) {
            Err(message) => Err(message),
            Ok(before) => match files.last().content {
                None => Ok(before),
                Some(text) => match chunks_of(files.last().path@, text@) {
                    Err(message) => Err(message),
                    Ok(chunks) => Ok(before + chunks),
                },
            },
        }
    }
}

/// The entry made of a chunk and its vector.
pub open spec fn paired_doc(chunk: ChunkView, vector: Seq<u32>) -> DocView {
    DocView { path: chunk.path, content: chunk.content, start_line: chunk.start_line, embedding: vector }
}

/// The entries made of chunks and vectors, each chunk with the vector at its
/// own position.
pub open spec fn paired(chunks: Seq<ChunkView>, vectors: Seq<Seq<u32>>) -> Seq<DocView> {
    Seq::new(chunks.len(), |i: int| paired_doc(chunks[i], vectors[i]))
}

/// The vectors as sequences.
pub open spec fn vector_views(vectors: Seq<Vec<u32>>) -> Seq<Seq<u32>> {
    vectors.map_values(|v: Vec<u32>| v@)
}

/// There is one vector for each chunk and all have the same number of
/// components.
pub open spec fn fitting(chunks: int, vectors: Seq<Seq<u32>>) -> bool {
    &&& vectors.len() == chunks
    &&& forall|i: int, j: int|
        0 <= i < vectors.len() && 0 <= j < vectors.len() ==> vectors[i].len() == vectors[j].len()
}

/// The entries that are ranked: those that have a score, each with its rank
/// and its position.
pub open spec fn candidates(ranks: Seq<u32>, docs: int) -> Seq<Ranked> {
    Seq::new(
        if ranks.len() <= docs {
            ranks.len()
        } else {
            docs as nat
        },
        |i: int| Ranked { rank: ranks[i], index: i as usize },
    )
}

/// The ranking: the candidates in descending order of their rank, those of
/// equal rank in the order of their positions.
pub open spec fn ranking(ranks: Seq<u32>, docs: int) -> Seq<Ranked> {
    sorted_by_key(candidates(ranks, docs))
}

/// How one match is shown.
pub open spec fn match_text(shown: Seq<char>, doc: DocView) -> Seq<char> {
    "--- Match (Score: "@ + shown + ") ---\nFile: "@ + doc.path + ":"@ + decimal(doc.start_line)
        + "\n\n"@ + doc.content + "\n"@
}

/// The first `n` matches of a ranking, a line feed between one and the next.
pub open spec fn matches_text(order: Seq<Ranked>, shown: Seq<Seq<char>>, docs: Seq<DocView>, n: int) -> Seq<char>
    decreases n,
{
    if n <= 0 || n > order.len() {
        Seq::empty()
    } else if n == 1 {
        match_text(shown[order[0].index as int], docs[order[0].index as int])
    } else {
        matches_text(order, shown, docs, n - 1) + "\n"@ + match_text(
            shown[order[n - 1].index as int],
            docs[order[n - 1].index as int],
        )
    }
}

/// The ranks of scores.
pub open spec fn ranks_of(scores: Seq<Score>) -> Seq<u32> {
    scores.map_values(|s: Score| s.rank)
}

/// The texts of scores.
pub open spec fn shown_of(scores: Seq<Score>) -> Seq<Seq<char>> {
    scores.map_values(|s: Score| s.shown@)
}

/// How many matches are shown: as many as asked for, but no more than there
/// are candidates.
pub open spec fn shown_count(limit: int, ranked: int) -> int {
    if limit < ranked {
        limit
    } else {
        ranked
    }
}

/// What a search answers.
pub open spec fn search_text(docs: Seq<DocView>, scored: Result<Seq<Score>, Seq<char>>, limit: int) -> Seq<char> {
    if docs.len() == 0 {
        "Index is empty. Run initialization."@
    } else {
        match scored {
            Err(reason) => "Failed to embed query: "@ + reason,
            Ok(scores) => {
                let order = ranking(ranks_of(scores), docs.len() as int);
                if shown_count(limit, order.len() as int) <= 0 {
                    "No relevant code found."@
                } else {
                    matches_text(order, shown_of(scores), docs, shown_count(limit, order.len() as int))
                }
            },
        }
    }
}

/// The value of the scores that a search is given.
pub open spec fn scored_view(scored: Result<Vec<Score>, String>) -> Result<Seq<Score>, Seq<char>> {
    match scored {
        Ok(scores) => Ok(scores@),
        Err(reason) => Err(reason@),
    }
}

fn copy_vector(vector: &Vec<u32>) -> (r: Vec<u32>)
    ensures
        r@ == vector@,
{
    let mut out: Vec<u32> = Vec::new();
    let mut i: usize = 0;
    while i < vector.len()
        invariant
            i <= vector@.len(),
            out@ == vector@.subrange(0, i as int),
        decreases vector@.len() - i,
    {
        out.push(vector[i]);
        assert(out@ =~= vector@.subrange(0, i + 1));
        i = i + 1;
    }
    assert(vector@.subrange(0, vector@.len() as int) =~= vector@);
    out
}

fn is_uniform(docs: &Vec<IndexedDoc>) -> (r: bool)
    ensures
        r == uniform(doc_views(docs@)),
{
    let mut i: usize = 1;
    while i < docs.len()
        invariant
            1 <= i,
            forall|k: int| 0 <= k < i && k < docs@.len() ==> (#[trigger] docs@[k]).embedding@.len() == docs@[0].embedding@.len(),
        decreases docs@.len() - i,
    {
        if docs[i].embedding.len() != docs[0].embedding.len() {
            assert(doc_views(docs@)[i as int].embedding.len() != doc_views(docs@)[0].embedding.len());
            return false;
        }
        i = i + 1;
    }
    assert forall|a: int, b: int| 0 <= a < docs@.len() && 0 <= b < docs@.len() implies doc_views(
        docs@,
    )[a].embedding.len() == doc_views(docs@)[b].embedding.len() by {
        assert(docs@[a].embedding@.len() == docs@[0].embedding@.len());
        assert(docs@[b].embedding@.len() == docs@[0].embedding@.len());
    }
    true
}

fn is_fitting(chunks: usize, vectors: &Vec<Vec<u32>>) -> (r: bool)
    ensures
        r == fitting(chunks as int, vector_views(vectors@)),
{
    if vectors.len() != chunks {
        return false;
    }
    let mut i: usize = 1;
    while i < vectors.len()
        invariant
            1 <= i,
            forall|k: int| 0 <= k < i && k < vectors@.len() ==> (#[trigger] vectors@[k])@.len() == vectors@[0]@.len(),
        decreases vectors@.len() - i,
    {
        if vectors[i].len() != vectors[0].len() {
            assert(vector_views(vectors@)[i as int].len() != vector_views(vectors@)[0].len());
            return false;
        }
        i = i + 1;
    }
    assert forall|a: int, b: int| 0 <= a < vectors@.len() && 0 <= b < vectors@.len() implies vector_views(
        vectors@,
    )[a].len() == vector_views(vectors@)[b].len() by {
        assert(vectors@[a]@.len() == vectors@[0]@.len());
        assert(vectors@[b]@.len() == vectors@[0]@.len());
    }
    true
}

/// The index of the chunks of a repository.
pub struct SemanticIndexer {
    index: Vec<IndexedDoc>,
}

impl SemanticIndexer {
    /// The entries of the index.
    pub closed spec fn entries(self) -> Seq<DocView> {
        doc_views(self.index@)
    }

    /// An indexer over entries that were kept from an earlier rebuild. Entries
    /// whose vectors differ in length are not an index: the indexer starts
    /// empty then.
    pub fn new(index: Vec<IndexedDoc>) -> (indexer: Self)
        ensures
            indexer.entries() == if uniform(doc_views(index@)) {
                doc_views(index@)
            } else {
                Seq::empty()
            },
            uniform(indexer.entries()),
    {
        if is_uniform(&index) {
            SemanticIndexer { index }
        } else {
            let none: Vec<IndexedDoc> = Vec::new();
            assert(doc_views(none@) =~= Seq::<DocView>::empty());
            SemanticIndexer { index: none }
        }
    }

    /// The entries of the index, to persist them.
    pub fn documents(&self) -> (docs: &Vec<IndexedDoc>)
        ensures
            doc_views(docs@) == self.entries(),
    {
        &self.index
    }

    /// How many entries the index has.
    pub fn len(&self) -> (n: usize)
        ensures
            n == self.entries().len(),
    {
        self.index.len()
    }

    /// The text that is embedded for a chunk.
    pub fn embedding_input(chunk: &CodeChunk) -> (r: String)
        ensures
            r@ == embedding_input_of(chunk@),
    {
        let mut out = String::from_str("File: ");
        out.append(chunk.path.as_str());
        out.append("\nLine: ");
        out.append(decimal_text(chunk.start_line).as_str());
        out.append("\n\n");
        out.append(chunk.content.as_str());
        out
    }

    /// The texts that are embedded for chunks, in the order of the chunks.
    pub fn embedding_inputs(chunks: &Vec<CodeChunk>) -> (r: Vec<String>)
        ensures
            r@.map_values(|s: String| s@) == embedding_inputs_of(chunk_views(chunks@)),
    {
        let mut out: Vec<String> = Vec::new();
        let mut i: usize = 0;
        while i < chunks.len()
            invariant
                i <= chunks@.len(),
                out@.len() == i,
                forall|k: int| 0 <= k < i ==> out@[k]@ == embedding_input_of(chunks@[k]@),
            decreases chunks@.len() - i,
        {
            out.push(Self::embedding_input(&chunks[i]));
            i = i + 1;
        }
        assert(out@.map_values(|s: String| s@) =~= embedding_inputs_of(chunk_views(chunks@)));
        out
    }

    /// The chunks of the files, file by file in the order of the list. A file
    /// that could not be read is passed over.
    pub fn collect(files: &Vec<SourceFile>) -> (r: Result<Vec<CodeChunk>, String>)
        ensures
            match r {
                Ok(chunks) => collected(files@) == Ok::<Seq<ChunkView>, Seq<char>>(chunk_views(chunks@)),
                Err(message) => collected(files@) == Err::<Seq<ChunkView>, Seq<char>>(message@),
            },
    {
        let mut all: Vec<CodeChunk> = Vec::new();
        let mut i: usize = 0;
        assert(files@.subrange(0, 0) =~= Seq::<SourceFile>::empty());
        assert(chunk_views(all@) =~= Seq::<ChunkView>::empty());
        while i < files.len()
            invariant
                i <= files@.len(),
                collected(files@.subrange(0, i as int)) == Ok::<Seq<ChunkView>, Seq<char>>(chunk_views(all@)),
            decreases files@.len() - i,
        {
            proof {
                let next = files@.subrange(0, i + 1);
                assert(next.drop_last() =~= files@.subrange(0, i as int));
                assert(next.last() == files@[i as int]);
            }
            match &files[i].content {
                None => {},
                Some(text) => {
                    match Chunker::chunk(text.as_str(), files[i].path.as_str()) {
                        Err(message) => {
                            proof {
                                lemma_collected_fails(files@, i + 1);
                            }
                            return Err(message);
                        },
                        Ok(mut chunks) => {
                            let ghost before = all@;
                            let ghost added = chunks@;
                            all.append(&mut chunks);
                            assert(chunk_views(all@) =~= chunk_views(before) + chunk_views(added));
                        },
                    }
                },
            }
            i = i + 1;
        }
        assert(files@.subrange(0, files@.len() as int) =~= files@);
        Ok(all)
    }

    /// What a rebuild over the files has to embed.
    pub fn plan_rebuild(files: &Vec<SourceFile>) -> (r: Result<RebuildPlan, String>)
        ensures
            match r {
                Err(message) => collected(files@) == Err::<Seq<ChunkView>, Seq<char>>(message@),
                Ok(RebuildPlan::Nothing) => collected(files@) == Ok::<Seq<ChunkView>, Seq<char>>(Seq::empty()),
                Ok(RebuildPlan::Embed { chunks, inputs }) => {
                    &&& chunks@.len() > 0
                    &&& collected(files@) == Ok::<Seq<ChunkView>, Seq<char>>(chunk_views(chunks@))
                    &&& inputs@.map_values(|s: String| s@) == embedding_inputs_of(chunk_views(chunks@))
                },
            },
    {
        match Self::collect(files) {
            Err(message) => Err(message),
            Ok(chunks) => {
                if chunks.len() == 0 {
                    assert(chunk_views(chunks@) =~= Seq::<ChunkView>::empty());
                    Ok(RebuildPlan::Nothing)
                } else {
                    let inputs = Self::embedding_inputs(&chunks);
                    Ok(RebuildPlan::Embed { chunks, inputs })
                }
            },
        }
    }

    /// Ends a rebuild: puts the chunks with their vectors in place of the
    /// index.
    ///
    /// Without chunks there is nothing to do. Where the embedding failed, the
    /// index stays as it was, and so it does where the vectors do not fit the
    /// chunks. Else the index holds, for each chunk and in their order, the
    /// chunk with the vector at the same position.
    pub fn index_repo(&mut self, chunks: &Vec<CodeChunk>, embedded: Result<Vec<Vec<u32>>, String>) -> (status:
        RebuildStatus)
        ensures
            uniform(old(self).entries()) ==> uniform(final(self).entries()),
            chunks@.len() == 0 ==> status is NoChange && final(self).entries() == old(self).entries(),
            chunks@.len() > 0 ==> match embedded {
                Err(reason) => {
                    &&& status matches RebuildStatus::Failed(message)
                    &&& message@ == "Embedding failed: "@ + reason@
                    &&& final(self).entries() == old(self).entries()
                },
                Ok(vectors) => if fitting(chunks@.len() as int, vector_views(vectors@)) {
                    &&& status == RebuildStatus::Updated(chunks.len())
                    &&& final(self).entries() == paired(chunk_views(chunks@), vector_views(vectors@))
                } else {
                    &&& status matches RebuildStatus::Failed(message)
                    &&& message@ == "Embedding failed: the vectors do not fit the chunks"@
                    &&& final(self).entries() == old(self).entries()
                },
            },
    {
        if chunks.len() == 0 {
            return RebuildStatus::NoChange;
        }
        let vectors = match embedded {
            Err(reason) => {
                let mut message = String::from_str("Embedding failed: ");
                message.append(reason.as_str());
                return RebuildStatus::Failed(message);
            },
            Ok(vectors) => vectors,
        };
        if !is_fitting(chunks.len(), &vectors) {
            return RebuildStatus::Failed(String::from_str("Embedding failed: the vectors do not fit the chunks"));
        }
        let mut docs: Vec<IndexedDoc> = Vec::new();
        let mut i: usize = 0;
        while i < chunks.len()
            invariant
                i <= chunks@.len(),
                vectors@.len() == chunks@.len(),
                docs@.len() == i,
                forall|k: int| 0 <= k < i ==> docs@[k]@ == paired_doc(chunks@[k]@, vectors@[k]@),
            decreases chunks@.len() - i,
        {
            docs.push(
                IndexedDoc {
                    path: chunks[i].path.clone(),
                    content: chunks[i].content.clone(),
                    start_line: chunks[i].start_line,
                    embedding: copy_vector(&vectors[i]),
                },
            );
            i = i + 1;
        }
        proof {
            let target = paired(chunk_views(chunks@), vector_views(vectors@));
            assert(doc_views(docs@) =~= target);
            assert forall|a: int, b: int| 0 <= a < target.len() && 0 <= b < target.len() implies target[a].embedding.len()
                == target[b].embedding.len() by {
                assert(vector_views(vectors@)[a].len() == vector_views(vectors@)[b].len());
            }
        }
        self.index = docs;
        RebuildStatus::Updated(chunks.len())
    }

    /// Whether the index has no entries. A search on such an index is
    /// answered without scores.
    pub fn is_empty(&self) -> (r: bool)
        ensures
            r == (self.entries().len() == 0),
    {
        self.index.len() == 0
    }

    /// Answers a search from the scores of the entries for the query.
    ///
    /// `scored` holds one score for each entry, in the order of the index, or
    /// the reason why the query could not be embedded. An empty index is
    /// answered with a note of its own, whatever the scores. Else the entries
    /// are shown in descending order of their rank, entries of equal rank in
    /// the order of the index, and no more than `limit` of them.
    pub fn search(&self, scored: Result<Vec<Score>, String>, limit: usize) -> (r: String)
        ensures
            r@ == search_text(self.entries(), scored_view(scored), limit as int),
    {
        if self.index.len() == 0 {
            return String::from_str("Index is empty. Run initialization.");
        }
        let scores = match scored {
            Err(reason) => {
                let mut message = String::from_str("Failed to embed query: ");
                message.append(reason.as_str());
                return message;
            },
            Ok(scores) => scores,
        };
        let order = rank(&scores, self.index.len());
        let count = if limit < order.len() {
            limit
        } else {
            order.len()
        };
        if count == 0 {
            return String::from_str("No relevant code found.");
        }
        let ghost docs = doc_views(self.index@);
        let ghost shown = shown_of(scores@);
        let mut out = String::new();
        let mut k: usize = 0;
        assert(out@ =~= matches_text(order@, shown, docs, 0));
        while k < count
            invariant
                k <= count <= order@.len(),
                docs == doc_views(self.index@),
                shown == shown_of(scores@),
                order@ == ranking(ranks_of(scores@), self.index@.len() as int),
                forall|i: int| 0 <= i < order@.len() ==> order@[i].index < scores@.len() && order@[i].index
                    < self.index@.len(),
                out@ == matches_text(order@, shown, docs, k as int),
            decreases count - k,
        {
            let at = order[k].index;
            if k > 0 {
                out.append("\n");
            }
            let ghost before = out@;
            out.append("--- Match (Score: ");
            out.append(scores[at].shown.as_str());
            out.append(") ---\nFile: ");
            out.append(self.index[at].path.as_str());
            out.append(":");
            out.append(decimal_text(self.index[at].start_line).as_str());
            out.append("\n\n");
            out.append(self.index[at].content.as_str());
            out.append("\n");
            proof {
                assert(out@ =~= before + match_text(shown[at as int], docs[at as int]));
                assert(out@ =~= matches_text(order@, shown, docs, k + 1));
            }
            k = k + 1;
        }
        out
    }
}

/// `a` stands in front of `b` in a ranking: it has the larger rank, or the
/// same rank and the earlier position.
pub open spec fn outranks(a: Ranked, b: Ranked) -> bool {
    a.rank > b.rank || (a.rank == b.rank && a.index < b.index)
}

/// The entry at position `k` of the index stands somewhere in the ranking.
pub open spec fn occurs(order: Seq<Ranked>, k: int) -> bool {
    exists|i: int| 0 <= i < order.len() && (#[trigger] order[i]).index == k
}

/// Each entry stands in front of all that follow it.
pub open spec fn in_rank_order(order: Seq<Ranked>) -> bool {
    forall|i: int, j: int| 0 <= i < j < order.len() ==> outranks(order[i], order[j])
}

proof fn lemma_in_rank_order_is_ordered(t: Seq<Ranked>)
    requires
        in_rank_order(t),
    ensures
        ordered_by_key(t),
{
    assert forall|i: int, j: int| 0 <= i < j < t.len() implies t[i].key() <= t[j].key() by {
        assert(outranks(t[i], t[j]));
    }
}

proof fn lemma_insert_in_rank_order(t: Seq<Ranked>, x: Ranked)
    requires
        in_rank_order(t),
        forall|i: int| 0 <= i < t.len() ==> t[i].index < x.index,
    ensures
        in_rank_order(insert_by_key(t, x)),
    decreases t.len(),
{
    broadcast use vstd::seq_lib::group_to_multiset_ensures;

    if t.len() == 0 {
    } else if t.last().key() <= x.key() {
        let r = t.push(x);
        assert forall|i: int, j: int| 0 <= i < j < r.len() implies outranks(r[i], r[j]) by {
            if j == t.len() {
                if i < t.len() - 1 {
                    assert(outranks(t[i], t.last()));
                }
            } else {
                assert(outranks(t[i], t[j]));
            }
        }
    } else {
        let head = t.drop_last();
        assert forall|i: int, j: int| 0 <= i < j < head.len() implies outranks(head[i], head[j]) by {
            assert(outranks(t[i], t[j]));
        }
        lemma_insert_in_rank_order(head, x);
        lemma_in_rank_order_is_ordered(head);
        lemma_insert_keeps_order(head, x);
        let u = insert_by_key(head, x);
        let r = u.push(t.last());
        assert forall|i: int, j: int| 0 <= i < j < r.len() implies outranks(r[i], r[j]) by {
            if j == u.len() {
                assert(u.to_multiset().count(u[i]) > 0);
                if u[i] != x {
                    assert(head.to_multiset().count(u[i]) > 0);
                    let k = choose|k: int| 0 <= k < head.len() && head[k] == u[i];
                    assert(outranks(t[k], t.last()));
                }
            } else {
                assert(outranks(u[i], u[j]));
            }
        }
    }
}

proof fn lemma_ranking_of_prefix(c: Seq<Ranked>, n: int)
    requires
        0 <= n <= c.len(),
        forall|i: int| 0 <= i < c.len() ==> (#[trigger] c[i]).index == i,
    ensures
        in_rank_order(sorted_by_key(c.subrange(0, n))),
        forall|i: int|
            0 <= i < sorted_by_key(c.subrange(0, n)).len() ==> (#[trigger] sorted_by_key(
                c.subrange(0, n),
            )[i]).index < n,
    decreases n,
{
    broadcast use vstd::seq_lib::group_to_multiset_ensures;

    if n > 0 {
        let p = c.subrange(0, n);
        let head = c.subrange(0, n - 1);
        assert(p.drop_last() =~= head);
        assert(p.last() == c[n - 1]);
        lemma_ranking_of_prefix(c, n - 1);
        let t = sorted_by_key(head);
        lemma_sorted_by_key(head);
        lemma_insert_in_rank_order(t, c[n - 1]);
        lemma_insert_keeps_order(t, c[n - 1]);
        let r = insert_by_key(t, c[n - 1]);
        assert forall|i: int| 0 <= i < r.len() implies (#[trigger] r[i]).index < n by {
            assert(r.to_multiset().count(r[i]) > 0);
            if r[i] != c[n - 1] {
                assert(t.to_multiset().count(r[i]) > 0);
                let k = choose|k: int| 0 <= k < t.len() && t[k] == r[i];
                assert(t[k].index < n - 1);
            }
        }
    }
}

/// A ranking holds each entry that has a score once, with its own rank. It
/// goes down by rank, and entries of equal rank keep the order of the index.
pub proof fn lemma_ranking(ranks: Seq<u32>, docs: int)
    requires
        0 <= docs <= usize::MAX,
    ensures
        ranking(ranks, docs).len() == if ranks.len() <= docs {
            ranks.len() as int
        } else {
            docs
        },
        in_rank_order(ranking(ranks, docs)),
        forall|i: int|
            0 <= i < ranking(ranks, docs).len() ==> {
                let entry = #[trigger] ranking(ranks, docs)[i];
                entry.index < ranking(ranks, docs).len() && entry.rank == ranks[entry.index as int]
            },
        forall|k: int| 0 <= k < ranking(ranks, docs).len() ==> #[trigger] occurs(ranking(ranks, docs), k),
{
    broadcast use vstd::seq_lib::group_to_multiset_ensures;

    let c = candidates(ranks, docs);
    let order = ranking(ranks, docs);
    lemma_sorted_by_key(c);
    assert(c.subrange(0, c.len() as int) =~= c);
    lemma_ranking_of_prefix(c, c.len() as int);
    assert forall|i: int| 0 <= i < order.len() implies {
        let entry = #[trigger] order[i];
        entry.index < order.len() && entry.rank == ranks[entry.index as int]
    } by {
        assert(order.to_multiset().count(order[i]) > 0);
        assert(c.to_multiset().count(order[i]) > 0);
        let k = choose|k: int| 0 <= k < c.len() && c[k] == order[i];
        assert(c[k].index == k);
    }
    assert forall|k: int| 0 <= k < order.len() implies #[trigger] occurs(order, k) by {
        assert(c.to_multiset().count(c[k]) > 0);
        assert(order.to_multiset().count(c[k]) > 0);
        let i = choose|i: int| 0 <= i < order.len() && order[i] == c[k];
        assert(order[i].index == k);
    }
}

/// The chunks of a list of files do not depend on how the list is split up:
/// the chunks of two lists, one behind the other, are the chunks of the lists
/// joined, so the files can be cut apart in any grouping.
pub proof fn lemma_collected_in_parts(first: Seq<SourceFile>, second: Seq<SourceFile>)
    requires
        collected(first) is Ok,
        collected(second) is Ok,
    ensures
        collected(first + second) == Ok::<Seq<ChunkView>, Seq<char>>(
            collected(first)->Ok_0 + collected(second)->Ok_0,
        ),
    decreases second.len(),
{
    if second.len() == 0 {
        assert(first + second =~= first);
        assert(collected(first)->Ok_0 + collected(second)->Ok_0 =~= collected(first)->Ok_0);
    } else {
        let all = first + second;
        assert(all.drop_last() =~= first + second.drop_last());
        assert(all.last() == second.last());
        lemma_collected_in_parts(first, second.drop_last());
        let a = collected(first)->Ok_0;
        let b = collected(second.drop_last())->Ok_0;
        match second.last().content {
            None => {},
            Some(text) => {
                let c = chunks_of(second.last().path@, text@)->Ok_0;
                assert((a + b) + c =~= a + (b + c));
            },
        }
    }
}

proof fn lemma_collected_fails(files: Seq<SourceFile>, n: int)
    requires
        0 <= n <= files.len(),
        collected(files.subrange(0, n)) is Err,
    ensures
        collected(files) == collected(files.subrange(0, n)),
    decreases files.len() - n,
{
    if n == files.len() {
        assert(files.subrange(0, n) =~= files);
    } else {
        assert(files.subrange(0, n + 1).drop_last() =~= files.subrange(0, n));
        lemma_collected_fails(files, n + 1);
    }
}

/// Ranks the entries that have a score: in descending order of their rank,
/// entries of equal rank in the order of their positions.
pub fn rank(scores: &Vec<Score>, docs: usize) -> (order: Vec<Ranked>)
    ensures
        order@ == ranking(ranks_of(scores@), docs as int),
        forall|i: int| 0 <= i < order@.len() ==> order@[i].index < scores@.len() && order@[i].index < docs,
{
    let count = if scores.len() <= docs {
        scores.len()
    } else {
        docs
    };
    let mut items: Vec<Ranked> = Vec::new();
    let mut i: usize = 0;
    while i < count
        invariant
            i <= count,
            count <= scores@.len(),
            count <= docs,
            items@.len() == i,
            forall|k: int| 0 <= k < i ==> items@[k] == (Ranked { rank: scores@[k].rank, index: k as usize }),
        decreases count - i,
    {
        items.push(Ranked { rank: scores[i].rank, index: i });
        i = i + 1;
    }
    assert(items@ =~= candidates(ranks_of(scores@), docs as int));
    let order = sort_by_key(&items);
    proof {
        lemma_sorted_by_key(items@);
        broadcast use vstd::seq_lib::group_to_multiset_ensures;

        assert forall|i: int| 0 <= i < order@.len() implies order@[i].index < scores@.len() && order@[i].index
            < docs by {
            assert(order@.to_multiset().count(order@[i]) > 0);
            assert(items@.to_multiset().count(order@[i]) > 0);
            let k = choose|k: int| 0 <= k < items@.len() && items@[k] == order@[i];
            assert(items@[k].index == k);
        }
    }
    order
}

} // verus!
