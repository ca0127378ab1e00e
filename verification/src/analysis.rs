//! Skeletons: source files with the bodies of their definitions folded away.
//!
//! A skeleton is made from the text of a file and the grammar that its
//! extension selects. Made once, it is kept under a key that is a hash of the
//! path and the text, and handed out again for the same key.

use vstd::prelude::*;
use vstd::string::*;
use vstd::utf8::*;
use tree_sitter::Language;
use crate::fold::{fold, folded};
use crate::lines::{count_lines, first_lines, head_lines, line_count};
use crate::registry::{extension_of, extension_text, fold_query_of, grammar_of, placeholder_of, resolve};
use crate::syntax::{
    captured_nodes, captures_of, language_for, language_of, node_spans, prepare, prepared_of,
    spans_of, Prepared, PreparedView,
};
use crate::text::{bytes_of, decimal, decimal_text, lemma_encode_concat};

verus! {

/// A file without a grammar is cut short when it has more lines than this.
pub const LINE_LIMIT: usize = 50;

/// How many lines of a file that is cut short are shown.
pub const HEAD_LINES: usize = 20;

/// The text shown for a file without a grammar: the text itself, or for a
/// long text its first lines and the number of lines that are hidden.
pub open spec fn truncated(bytes: Seq<u8>) -> Seq<u8> {
    if line_count(bytes) > LINE_LIMIT {
        head_lines(bytes, 0, HEAD_LINES as int) + bytes_of("\n... ("@) + bytes_of(
            decimal((line_count(bytes) - HEAD_LINES) as nat),
        ) + bytes_of(" lines hidden)"@)
    } else {
        bytes
    }
}

/// The skeleton that a fold query gives for a text: the text itself where the
/// parser gives no tree, the description of a defect of the grammar or of the
/// query, and else the text with the captured ranges folded.
pub open spec fn skeleton_with(language: Language, query: Seq<char>, placeholder: Seq<char>, content: Seq<char>) -> Seq<
    u8,
> {
    match prepared_of(language, query, content) {
        PreparedView::Unparsed => bytes_of(content),
        PreparedView::Defect(message) => bytes_of(message),
        PreparedView::Ready(tree, compiled) => folded(
            bytes_of(content),
            spans_of(captures_of(compiled, tree, content)),
            bytes_of(placeholder),
        ),
    }
}

/// The bytes of the skeleton of a file.
pub open spec fn skeleton_bytes(path: Seq<char>, content: Seq<char>) -> Seq<u8> {
    match grammar_of(extension_text(path)) {
        None => truncated(bytes_of(content)),
        Some(grammar) => skeleton_with(
            language_of(grammar),
            fold_query_of(grammar),
            placeholder_of(grammar),
            content,
        ),
    }
}

/// The skeleton of a file.
pub open spec fn skeleton_text(path: Seq<char>, content: Seq<char>) -> Seq<char> {
    decode_utf8(skeleton_bytes(path, content))
}

/// The MD5 digest of a sequence of bytes.
pub uninterp spec fn md5_of(data: Seq<u8>) -> Seq<u8>;

/// Calls `md5::compute`, which returns the digest of the data as sixteen
/// bytes. The contract names the digest and states its length.
#[verifier::external_body]
fn md5_digest(data: &[u8]) -> (digest: Vec<u8>)
    ensures
        digest@ == md5_of(data@),
        digest@.len() == 16,
{
    md5::compute(data).0.to_vec()
}

/// The hexadecimal digit for a value below sixteen, in lower case.
pub open spec fn hex_char(d: int) -> char {
    if d == 0 {
        '0'
    } else if d == 1 {
        '1'
    } else if d == 2 {
        '2'
    } else if d == 3 {
        '3'
    } else if d == 4 {
        '4'
    } else if d == 5 {
        '5'
    } else if d == 6 {
        '6'
    } else if d == 7 {
        '7'
    } else if d == 8 {
        '8'
    } else if d == 9 {
        '9'
    } else if d == 10 {
        'a'
    } else if d == 11 {
        'b'
    } else if d == 12 {
        'c'
    } else if d == 13 {
        'd'
    } else if d == 14 {
        'e'
    } else {
        'f'
    }
}

/// Bytes written as two hexadecimal digits each.
pub open spec fn hex_of(data: Seq<u8>) -> Seq<char>
    decreases data.len(),
{
    if data.len() == 0 {
        Seq::empty()
    } else {
        hex_of(data.drop_last()).push(hex_char(data.last() as int / 16)).push(
            hex_char(data.last() as int % 16),
        )
    }
}

fn hex_text(d: u8) -> (r: &'static str)
    requires
        d < 16,
    ensures
        r@ == seq![hex_char(d as int)],
{
    proof {
        reveal_strlit("0");
        reveal_strlit("1");
        reveal_strlit("2");
        reveal_strlit("3");
        reveal_strlit("4");
        reveal_strlit("5");
        reveal_strlit("6");
        reveal_strlit("7");
        reveal_strlit("8");
        reveal_strlit("9");
        reveal_strlit("a");
        reveal_strlit("b");
        reveal_strlit("c");
        reveal_strlit("d");
        reveal_strlit("e");
        reveal_strlit("f");
    }
    let r = if d == 0 {
        "0"
    } else if d == 1 {
        "1"
    } else if d == 2 {
        "2"
    } else if d == 3 {
        "3"
    } else if d == 4 {
        "4"
    } else if d == 5 {
        "5"
    } else if d == 6 {
        "6"
    } else if d == 7 {
        "7"
    } else if d == 8 {
        "8"
    } else if d == 9 {
        "9"
    } else if d == 10 {
        "a"
    } else if d == 11 {
        "b"
    } else if d == 12 {
        "c"
    } else if d == 13 {
        "d"
    } else if d == 14 {
        "e"
    } else {
        "f"
    };
    assert(r@ =~= seq![hex_char(d as int)]);
    r
}

/// Writes bytes as hexadecimal digits in lower case.
pub fn to_hex(data: &[u8]) -> (r: String)
    ensures
        r@ == hex_of(data@),
{
    let mut out = String::new();
    let mut i: usize = 0;
    assert(data@.subrange(0, 0) =~= Seq::<u8>::empty());
    while i < data.len()
        invariant
            i <= data@.len(),
            out@ == hex_of(data@.subrange(0, i as int)),
        decreases data@.len() - i,
    {
        let byte = data[i];
        out.append(hex_text(byte / 16));
        out.append(hex_text(byte % 16));
        proof {
            let next = data@.subrange(0, i + 1);
            assert(next.drop_last() =~= data@.subrange(0, i as int));
            assert(next.last() == byte);
            assert(out@ =~= hex_of(next));
        }
        i = i + 1;
    }
    assert(data@.subrange(0, data@.len() as int) =~= data@);
    out
}

/// The key under which the skeleton of a file is kept: the digest of the path
/// followed by the text, in hexadecimal digits.
pub open spec fn cache_key_of(path: Seq<char>, content: Seq<char>) -> Seq<char> {
    hex_of(md5_of(bytes_of(path + content)))
}

/// A skeleton as it is kept: the key and the text.
#[derive(Clone, Debug)]
pub struct Skeleton {
    pub cache_key: String,
    pub text: String,
}

/// The text that a list of kept skeletons holds for a key: that of the first
/// entry with the key.
pub open spec fn stored(entries: Seq<Skeleton>, key: Seq<char>) -> Option<Seq<char>>
    decreases entries.len(),
{
    if entries.len() == 0 {
        None
    } else if entries[0].cache_key@ == key {
        Some(entries[0].text@)
    } else {
        stored(entries.drop_first(), key)
    }
}

proof fn lemma_stored_push(entries: Seq<Skeleton>, entry: Skeleton, key: Seq<char>)
    ensures
        stored(entries.push(entry), key) == if stored(entries, key) is Some {
            stored(entries, key)
        } else if entry.cache_key@ == key {
            Some(entry.text@)
        } else {
            None
        },
    decreases entries.len(),
{
    reveal_with_fuel(stored, 2);
    if entries.len() == 0 {
        assert(entries.push(entry).drop_first() =~= Seq::<Skeleton>::empty());
    } else {
        lemma_stored_push(entries.drop_first(), entry, key);
        assert(entries.push(entry).drop_first() =~= entries.drop_first().push(entry));
    }
}

/// Makes skeletons and keeps them.
pub struct AnalysisEngine {
    entries: Vec<Skeleton>,
}

impl AnalysisEngine {
    /// The text kept for a key, if any.
    pub closed spec fn cached(self, key: Seq<char>) -> Option<Seq<char>> {
        stored(self.entries@, key)
    }

    /// What a request for the skeleton of a file is answered with: the text
    /// kept under the key of the file, or without one the skeleton made anew.
    pub open spec fn answer(self, path: Seq<char>, content: Seq<char>) -> Seq<char> {
        match self.cached(cache_key_of(path, content)) {
            Some(text) => text,
            None => skeleton_text(path, content),
        }
    }

    /// Every text that is kept is the skeleton of a file with its key.
    pub open spec fn faithful(self) -> bool {
        forall|key: Seq<char>| #[trigger]
            self.cached(key) is Some ==> exists|path: Seq<char>, content: Seq<char>|
                cache_key_of(path, content) == key && self.cached(key) == Some(
                    #[trigger] skeleton_text(path, content),
                )
    }

    /// An engine that keeps nothing yet.
    pub fn new() -> (engine: Self)
        ensures
            forall|key: Seq<char>| engine.cached(key) is None,
            engine.faithful(),
    {
        AnalysisEngine { entries: Vec::new() }
    }

    /// The key under which the skeleton of a file is kept.
    pub fn cache_key(rel_path: &str, content: &str) -> (key: String)
        ensures
            key@ == cache_key_of(rel_path@, content@),
    {
        let mut joined = String::from_str(rel_path);
        joined.append(content);
        let digest = md5_digest(joined.as_str().as_bytes());
        to_hex(digest.as_slice())
    }

    /// The name of the file that holds the skeleton kept under a key.
    pub fn cache_file(key: &str) -> (name: String)
        ensures
            name@ == key@ + ".skel"@,
    {
        let mut name = String::from_str(key);
        name.append(".skel");
        name
    }

    /// The text kept under a key, if any.
    pub fn get(&self, key: &str) -> (r: Option<String>)
        ensures
            match r {
                Some(text) => self.cached(key@) == Some(text@),
                None => self.cached(key@) is None,
            },
    {
        let mut i: usize = 0;
        assert(self.entries@.skip(0) =~= self.entries@);
        while i < self.entries.len()
            invariant
                i <= self.entries@.len(),
                stored(self.entries@.skip(i as int), key@) == stored(self.entries@, key@),
            decreases self.entries@.len() - i,
        {
            proof {
                assert(self.entries@.skip(i as int)[0] == self.entries@[i as int]);
                assert(self.entries@.skip(i as int).drop_first() =~= self.entries@.skip(i + 1));
            }
            if crate::text::str_eq(self.entries[i].cache_key.as_str(), key) {
                return Some(self.entries[i].text.clone());
            }
            i = i + 1;
        }
        None
    }

    /// Keeps a text under a key. A key that holds a text already keeps it:
    /// what is kept is never changed.
    pub fn put(&mut self, key: String, text: String)
        ensures
            final(self).cached(key@) == if old(self).cached(key@) is Some {
                old(self).cached(key@)
            } else {
                Some(text@)
            },
            forall|other: Seq<char>| other != key@ ==> final(self).cached(other) == old(self).cached(other),
    {
        let held = self.get(key.as_str());
        if held.is_none() {
            let entry = Skeleton { cache_key: key, text };
            proof {
                let before = self.entries@;
                assert forall|other: Seq<char>|
                    stored(before.push(entry), other) == if stored(before, other) is Some {
                        stored(before, other)
                    } else if entry.cache_key@ == other {
                        Some(entry.text@)
                    } else {
                        None
                    } by {
                    lemma_stored_push(before, entry, other);
                }
            }
            self.entries.push(entry);
        }
    }

    /// The skeleton of a file, made once for each path and text.
    ///
    /// `content` is the text of the file, or nothing where the file could not
    /// be read. A text kept under the key of the file is returned as it is;
    /// else the skeleton is made, kept and returned.
    pub fn get_skeleton(&mut self, rel_path: &str, content: Option<&str>) -> (r: String)
        ensures
            match content {
                None => r@ == "Error: File not found"@ && forall|key: Seq<char>|
                    final(self).cached(key) == old(self).cached(key),
                Some(text) => {
                    &&& r@ == old(self).answer(rel_path@, text@)
                    &&& final(self).cached(cache_key_of(rel_path@, text@)) == Some(r@)
                    &&& forall|key: Seq<char>|
                        key != cache_key_of(rel_path@, text@) ==> final(self).cached(key) == old(
                            self,
                        ).cached(key)
                },
            },
            old(self).faithful() ==> final(self).faithful(),
    {
        let text = match content {
            None => {
                return String::from_str("Error: File not found");
            },
            Some(text) => text,
        };
        let key = Self::cache_key(rel_path, text);
        match self.get(key.as_str()) {
            Some(kept) => kept,
            None => {
                let skeleton = self.generate_skeleton(text, rel_path);
                self.put(key, skeleton.clone());
                proof {
                    let made = skeleton_text(rel_path@, text@);
                    let k = cache_key_of(rel_path@, text@);
                    if old(self).faithful() {
                        assert forall|other: Seq<char>| #[trigger]
                            final(self).cached(other) is Some implies exists|p: Seq<char>, c: Seq<char>|
                            cache_key_of(p, c) == other && final(self).cached(other) == Some(
                                #[trigger] skeleton_text(p, c),
                            ) by {
                            if other == k {
                                assert(cache_key_of(rel_path@, text@) == other && final(self).cached(other)
                                    == Some(skeleton_text(rel_path@, text@)));
                            } else {
                                assert(old(self).cached(other) is Some);
                            }
                        }
                    }
                }
                skeleton
            },
        }
    }

    /// Makes the skeleton of a file. The grammar is chosen by the extension
    /// of `path`; a file without a grammar is shown as it is or cut short.
    pub fn generate_skeleton(&self, content: &str, path: &str) -> (r: String)
        ensures
            bytes_of(r@) == skeleton_bytes(path@, content@),
            r@ == skeleton_text(path@, content@),
    {
        let r = match resolve(extension_of(path)) {
            Some(entry) => self.process_tree_sitter(
                content,
                language_for(entry.grammar),
                entry.fold_query,
                entry.placeholder,
            ),
            None => truncate(content),
        };
        proof {
            encode_utf8_decode_utf8(r@);
        }
        r
    }

    /// Makes a skeleton with a language and a fold query: parses the text,
    /// runs the query and folds the captured ranges into `replacement`.
    pub fn process_tree_sitter(&self, content: &str, language: Language, query: &str, replacement: &str) -> (r:
        String)
        ensures
            bytes_of(r@) == skeleton_with(language, query@, replacement@, content@),
    {
        match prepare(language, query, content) {
            Prepared::Unparsed => String::from_str(content),
            Prepared::Defect(message) => message,
            Prepared::Ready(tree, compiled) => {
                let nodes = captured_nodes(&compiled, &tree, content);
                let spans = node_spans(&nodes);
                fold(content, &spans, replacement)
            },
        }
    }
}

/// No file with another skeleton has the key of this file.
pub open spec fn unmistakable(path: Seq<char>, content: Seq<char>) -> bool {
    forall|p: Seq<char>, c: Seq<char>|
        cache_key_of(p, c) == cache_key_of(path, content) ==> #[trigger] skeleton_text(p, c)
            == skeleton_text(path, content)
}

/// The skeleton of a file is the same text whether it is made anew or taken
/// from what is kept: an engine that keeps only skeletons answers a request
/// for a file whose key is unmistakable with the skeleton of that file.
pub proof fn lemma_answer_is_skeleton(engine: AnalysisEngine, path: Seq<char>, content: Seq<char>)
    requires
        engine.faithful(),
        unmistakable(path, content),
    ensures
        engine.answer(path, content) == skeleton_text(path, content),
{
    let key = cache_key_of(path, content);
    if engine.cached(key) is Some {
        let (p, c) = choose|p: Seq<char>, c: Seq<char>|
            cache_key_of(p, c) == key && engine.cached(key) == Some(#[trigger] skeleton_text(p, c));
        assert(skeleton_text(p, c) == skeleton_text(path, content));
    }
}

/// The skeleton of a file does not depend on the files that were asked for
/// before it: two engines that keep only skeletons, whatever they keep, give
/// the same answer for a file whose key is unmistakable.
pub proof fn lemma_answer_whatever_came_before(
    first: AnalysisEngine,
    second: AnalysisEngine,
    path: Seq<char>,
    content: Seq<char>,
)
    requires
        first.faithful(),
        second.faithful(),
        unmistakable(path, content),
    ensures
        first.answer(path, content) == second.answer(path, content),
{
    lemma_answer_is_skeleton(first, path, content);
    lemma_answer_is_skeleton(second, path, content);
}

/// Shows a text without a grammar: as it is, or its first lines and the
/// number of lines that are hidden.
pub fn truncate(content: &str) -> (r: String)
    ensures
        bytes_of(r@) == truncated(bytes_of(content@)),
{
    let count = count_lines(content.as_bytes());
    if count > LINE_LIMIT {
        let mut out = first_lines(content, HEAD_LINES);
        let number = decimal_text(count - HEAD_LINES);
        let ghost head = out@;
        out.append("\n... (");
        out.append(number.as_str());
        out.append(" lines hidden)");
        proof {
            lemma_encode_concat(head, "\n... ("@);
            lemma_encode_concat(head + "\n... ("@, number@);
            lemma_encode_concat(head + "\n... ("@ + number@, " lines hidden)"@);
        }
        out
    } else {
        String::from_str(content)
    }
}

} // verus!
