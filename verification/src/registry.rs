//! The grammars that the library knows, by file extension.
//!
//! An entry names the grammar and holds the query that finds the bodies to
//! fold, the query that finds the declarations to index and the placeholder
//! that stands for a folded body. An extension without an entry is no error:
//! callers fall back as they document.

use vstd::prelude::*;
use vstd::string::*;
use vstd::utf8::*;
use crate::text::{bytes_of, lemma_ascii_byte_boundaries, slice, str_eq};

verus! {

/// The byte of the path separator.
pub const SLASH: u8 = 47;

/// The byte of the full stop.
pub const DOT: u8 = 46;

/// A grammar that source text can be parsed with.
#[derive(Clone, Copy, Debug, PartialEq, Eq, Structural)]
pub enum Grammar {
    Rust,
    Python,
    JavaScript,
    Java,
    Cpp,
    C,
    Go,
}

/// What the registry holds for one extension.
#[derive(Clone, Copy, Debug)]
pub struct GrammarEntry {
    pub grammar: Grammar,
    pub fold_query: &'static str,
    pub item_query: &'static str,
    pub placeholder: &'static str,
}

/// The grammar registered for an extension, if there is one.
pub open spec fn grammar_of(extension: Seq<char>) -> Option<Grammar> {
    if extension == "rs"@ {
        Some(Grammar::Rust)
    } else if extension == "py"@ {
        Some(Grammar::Python)
    } else if extension == "js"@ || extension == "ts"@ || extension == "jsx"@ || extension == "tsx"@ {
        Some(Grammar::JavaScript)
    } else if extension == "java"@ {
        Some(Grammar::Java)
    } else if extension == "cpp"@ || extension == "cc"@ || extension == "hpp"@ {
        Some(Grammar::Cpp)
    } else if extension == "c"@ || extension == "h"@ {
        Some(Grammar::C)
    } else if extension == "go"@ {
        Some(Grammar::Go)
    } else {
        None
    }
}

/// The query that captures the bodies to fold.
pub open spec fn fold_query_of(grammar: Grammar) -> Seq<char> {
    match grammar {
        Grammar::Rust => "(function_item body: (block) @body) (impl_item body: (declaration_list) @body) (mod_item body: (declaration_list) @body)\n"@,
        Grammar::Python => "(function_definition body: (block) @body) (class_definition body: (block) @body)\n"@,
        Grammar::JavaScript => "(function_declaration body: (statement_block) @body) (method_definition body: (statement_block) @body) (class_declaration body: (class_body) @body) (arrow_function body: (statement_block) @body)\n"@,
        Grammar::Java => "(method_declaration body: (block) @body) (constructor_declaration body: (constructor_body) @body) (class_declaration body: (class_body) @body)\n"@,
        Grammar::Cpp => "(function_definition body: (compound_statement) @body) (struct_specifier body: (field_declaration_list) @body) (class_specifier body: (field_declaration_list) @body)\n"@,
        Grammar::C => "(function_definition body: (compound_statement) @body)\n"@,
        Grammar::Go => "(function_declaration body: (block) @body) (method_declaration body: (block) @body)\n"@,
    }
}

/// The query that captures the declarations to index.
pub open spec fn item_query_of(grammar: Grammar) -> Seq<char> {
    match grammar {
        Grammar::Rust => "(function_item) @item (impl_item) @item (struct_item) @item\n"@,
        Grammar::Python => "(function_definition) @item (class_definition) @item\n"@,
        Grammar::JavaScript => "(function_declaration) @item (class_declaration) @item (method_definition) @item\n"@,
        Grammar::Java => "(method_declaration) @item (class_declaration) @item\n"@,
        Grammar::Cpp => "(function_definition) @item (class_specifier) @item\n"@,
        Grammar::C => "(function_definition) @item\n"@,
        Grammar::Go => "(function_declaration) @item (method_declaration) @item\n"@,
    }
}

/// The text that stands for a folded body.
pub open spec fn placeholder_of(grammar: Grammar) -> Seq<char> {
    match grammar {
        Grammar::Rust => " ... "@,
        Grammar::Python => " ..."@,
        Grammar::JavaScript => " { ... }"@,
        Grammar::Java => " { /* ... */ }"@,
        Grammar::Cpp => " { /* ... */ }"@,
        Grammar::C => " { /* ... */ }"@,
        Grammar::Go => " { ... }"@,
    }
}

/// The entry is the one that the registry holds for its grammar.
pub open spec fn registered(entry: GrammarEntry) -> bool {
    &&& entry.fold_query@ == fold_query_of(entry.grammar)
    &&& entry.item_query@ == item_query_of(entry.grammar)
    &&& entry.placeholder@ == placeholder_of(entry.grammar)
}

/// The registry's entry for a grammar.
pub fn entry_of(grammar: Grammar) -> (entry: GrammarEntry)
    ensures
        entry.grammar == grammar,
        registered(entry),
{
    match grammar {
        Grammar::Rust => GrammarEntry {
            grammar,
            fold_query: "(function_item body: (block) @body) (impl_item body: (declaration_list) @body) (mod_item body: (declaration_list) @body)\n",
            item_query: "(function_item) @item (impl_item) @item (struct_item) @item\n",
            placeholder: " ... ",
        },
        Grammar::Python => GrammarEntry {
            grammar,
            fold_query: "(function_definition body: (block) @body) (class_definition body: (block) @body)\n",
            item_query: "(function_definition) @item (class_definition) @item\n",
            placeholder: " ...",
        },
        Grammar::JavaScript => GrammarEntry {
            grammar,
            fold_query: "(function_declaration body: (statement_block) @body) (method_definition body: (statement_block) @body) (class_declaration body: (class_body) @body) (arrow_function body: (statement_block) @body)\n",
            item_query: "(function_declaration) @item (class_declaration) @item (method_definition) @item\n",
            placeholder: " { ... }",
        },
        Grammar::Java => GrammarEntry {
            grammar,
            fold_query: "(method_declaration body: (block) @body) (constructor_declaration body: (constructor_body) @body) (class_declaration body: (class_body) @body)\n",
            item_query: "(method_declaration) @item (class_declaration) @item\n",
            placeholder: " { /* ... */ }",
        },
        Grammar::Cpp => GrammarEntry {
            grammar,
            fold_query: "(function_definition body: (compound_statement) @body) (struct_specifier body: (field_declaration_list) @body) (class_specifier body: (field_declaration_list) @body)\n",
            item_query: "(function_definition) @item (class_specifier) @item\n",
            placeholder: " { /* ... */ }",
        },
        Grammar::C => GrammarEntry {
            grammar,
            fold_query: "(function_definition body: (compound_statement) @body)\n",
            item_query: "(function_definition) @item\n",
            placeholder: " { /* ... */ }",
        },
        Grammar::Go => GrammarEntry {
            grammar,
            fold_query: "(function_declaration body: (block) @body) (method_declaration body: (block) @body)\n",
            item_query: "(function_declaration) @item (method_declaration) @item\n",
            placeholder: " { ... }",
        },
    }
}

/// Looks an extension up. There is an entry exactly for the extensions that
/// `grammar_of` knows, and it is the registered entry of that grammar.
pub fn resolve(extension: &str) -> (r: Option<GrammarEntry>)
    ensures
        match r {
            Some(entry) => grammar_of(extension@) == Some(entry.grammar) && registered(entry),
            None => grammar_of(extension@) is None,
        },
{
    if str_eq(extension, "rs") {
        Some(entry_of(Grammar::Rust))
    } else if str_eq(extension, "py") {
        Some(entry_of(Grammar::Python))
    } else if str_eq(extension, "js") || str_eq(extension, "ts") || str_eq(extension, "jsx")
        || str_eq(extension, "tsx") {
        Some(entry_of(Grammar::JavaScript))
    } else if str_eq(extension, "java") {
        Some(entry_of(Grammar::Java))
    } else if str_eq(extension, "cpp") || str_eq(extension, "cc") || str_eq(extension, "hpp") {
        Some(entry_of(Grammar::Cpp))
    } else if str_eq(extension, "c") || str_eq(extension, "h") {
        Some(entry_of(Grammar::C))
    } else if str_eq(extension, "go") {
        Some(entry_of(Grammar::Go))
    } else {
        None
    }
}

/// The largest index below `upto` at which `byte` stands, or -1.
pub open spec fn last_at(bytes: Seq<u8>, byte: u8, upto: int) -> int
    decreases upto,
{
    if upto <= 0 || upto > bytes.len() {
        -1
    } else if bytes[upto - 1] == byte {
        upto - 1
    } else {
        last_at(bytes, byte, upto - 1)
    }
}

/// Where the last component of a path starts: behind its last separator.
pub open spec fn name_start(path: Seq<u8>) -> int {
    last_at(path, SLASH, path.len() as int) + 1
}

/// The extension of a path: what follows the last full stop of its last
/// component. A component without a full stop has none, nor has one whose
/// only full stop is its first byte.
pub open spec fn extension_bytes(path: Seq<u8>) -> Seq<u8> {
    let dot = last_at(path, DOT, path.len() as int);
    if dot > name_start(path) {
        path.subrange(dot + 1, path.len() as int)
    } else {
        Seq::empty()
    }
}

proof fn lemma_last_at_range(bytes: Seq<u8>, byte: u8, upto: int)
    requires
        0 <= upto <= bytes.len(),
    ensures
        -1 <= last_at(bytes, byte, upto) < upto,
        last_at(bytes, byte, upto) >= 0 ==> bytes[last_at(bytes, byte, upto)] == byte,
    decreases upto,
{
    if upto > 0 && bytes[upto - 1] != byte {
        lemma_last_at_range(bytes, byte, upto - 1);
    }
}

fn find_last(bytes: &[u8], byte: u8) -> (r: Option<usize>)
    ensures
        match r {
            Some(i) => i == last_at(bytes@, byte, bytes@.len() as int),
            None => last_at(bytes@, byte, bytes@.len() as int) == -1,
        },
{
    let mut i: usize = bytes.len();
    while i > 0
        invariant
            i <= bytes@.len(),
            last_at(bytes@, byte, bytes@.len() as int) == last_at(bytes@, byte, i as int),
        decreases i,
    {
        if bytes[i - 1] == byte {
            return Some(i - 1);
        }
        i = i - 1;
    }
    None
}

/// The last component of a path: what follows its last separator.
pub open spec fn file_name_bytes(path: Seq<u8>) -> Seq<u8> {
    path.subrange(name_start(path), path.len() as int)
}

/// The last component of a path.
pub fn file_name(path: &str) -> (r: &str)
    ensures
        bytes_of(r@) == file_name_bytes(bytes_of(path@)),
{
    let bytes = path.as_bytes();
    let len = bytes.len();
    proof {
        encode_utf8_valid_utf8(path@);
        is_char_boundary_start_end_of_seq(bytes@);
        lemma_last_at_range(bytes@, SLASH, len as int);
    }
    match find_last(bytes, SLASH) {
        Some(i) => {
            proof {
                lemma_ascii_byte_boundaries(bytes@, i as int);
            }
            slice(path, i + 1, len)
        },
        None => slice(path, 0, len),
    }
}

/// The extension of a path as text.
pub open spec fn extension_text(path: Seq<char>) -> Seq<char> {
    decode_utf8(extension_bytes(bytes_of(path)))
}

/// The extension of a path, empty where it has none.
pub fn extension_of(path: &str) -> (r: &str)
    ensures
        bytes_of(r@) == extension_bytes(bytes_of(path@)),
        r@ == extension_text(path@),
{
    let bytes = path.as_bytes();
    let len = bytes.len();
    proof {
        encode_utf8_valid_utf8(path@);
        is_char_boundary_start_end_of_seq(bytes@);
        lemma_last_at_range(bytes@, DOT, len as int);
        lemma_last_at_range(bytes@, SLASH, len as int);
    }
    let start: usize = match find_last(bytes, SLASH) {
        Some(i) => i + 1,
        None => 0,
    };
    match find_last(bytes, DOT) {
        Some(dot) => {
            if dot > start {
                proof {
                    lemma_ascii_byte_boundaries(bytes@, dot as int);
                }
                let r = slice(path, dot + 1, len);
                proof {
                    encode_utf8_decode_utf8(r@);
                }
                r
            } else {
                let r = slice(path, len, len);
                assert(bytes_of(r@) =~= Seq::<u8>::empty());
                proof {
                    encode_utf8_decode_utf8(r@);
                }
                r
            }
        },
        None => {
            let r = slice(path, len, len);
            assert(bytes_of(r@) =~= Seq::<u8>::empty());
            proof {
                encode_utf8_decode_utf8(r@);
            }
            r
        },
    }
}

/// A character that can stand in a name of a query.
pub open spec fn name_char(c: char) -> bool {
    ('a' <= c && c <= 'z') || ('A' <= c && c <= 'Z') || ('0' <= c && c <= '9') || c == '_' || c
        == '-'
}

/// A query source that the library hands to the parser: ASCII text without
/// predicates that does not end in the middle of a name.
pub open spec fn plain_query(source: Seq<char>) -> bool {
    &&& is_ascii_chars(source)
    &&& forall|i: int| 0 <= i < source.len() ==> source[i] != '#'
    &&& source.len() > 0 ==> !name_char(source.last())
}

/// Whether a query source is one that the library hands to the parser.
pub fn is_plain_query(source: &str) -> (r: bool)
    ensures
        r == plain_query(source@),
{
    if !source.is_ascii() {
        return false;
    }
    let bytes = source.as_bytes();
    proof {
        is_ascii_chars_encode_utf8(source@);
    }
    let mut i: usize = 0;
    while i < bytes.len()
        invariant
            i <= bytes@.len(),
            bytes@ == bytes_of(source@),
            is_ascii_chars(source@),
            bytes@.len() == source@.len(),
            forall|k: int| 0 <= k < source@.len() ==> source@[k] as u8 == #[trigger] bytes@[k],
            forall|k: int| 0 <= k < i ==> source@[k] != '#',
        decreases bytes@.len() - i,
    {
        if bytes[i] == 35 {
            assert(source@[i as int] as u8 == bytes@[i as int]);
            assert(source@[i as int] == '#');
            return false;
        }
        assert(source@[i as int] as u8 == bytes@[i as int]);
        i = i + 1;
    }
    if bytes.len() == 0 {
        return true;
    }
    let last = bytes[bytes.len() - 1];
    assert(source@.last() as u8 == bytes@[bytes@.len() - 1]);
    let named = (97 <= last && last <= 122) || (65 <= last && last <= 90) || (48 <= last && last
        <= 57) || last == 95 || last == 45;
    !named
}

proof fn lemma_rust_queries_are_plain()
    ensures
        plain_query(fold_query_of(Grammar::Rust)),
        plain_query(item_query_of(Grammar::Rust)),
{
    reveal_strlit("(function_item body: (block) @body) (impl_item body: (declaration_list) @body) (mod_item body: (declaration_list) @body)\n");
    reveal_strlit("(function_item) @item (impl_item) @item (struct_item) @item\n");
}

proof fn lemma_python_queries_are_plain()
    ensures
        plain_query(fold_query_of(Grammar::Python)),
        plain_query(item_query_of(Grammar::Python)),
{
    reveal_strlit("(function_definition body: (block) @body) (class_definition body: (block) @body)\n");
    reveal_strlit("(function_definition) @item (class_definition) @item\n");
}

proof fn lemma_javascript_queries_are_plain()
    ensures
        plain_query(fold_query_of(Grammar::JavaScript)),
        plain_query(item_query_of(Grammar::JavaScript)),
{
    reveal_strlit("(function_declaration body: (statement_block) @body) (method_definition body: (statement_block) @body) (class_declaration body: (class_body) @body) (arrow_function body: (statement_block) @body)\n");
    reveal_strlit("(function_declaration) @item (class_declaration) @item (method_definition) @item\n");
}

proof fn lemma_java_queries_are_plain()
    ensures
        plain_query(fold_query_of(Grammar::Java)),
        plain_query(item_query_of(Grammar::Java)),
{
    reveal_strlit("(method_declaration body: (block) @body) (constructor_declaration body: (constructor_body) @body) (class_declaration body: (class_body) @body)\n");
    reveal_strlit("(method_declaration) @item (class_declaration) @item\n");
}

proof fn lemma_cpp_queries_are_plain()
    ensures
        plain_query(fold_query_of(Grammar::Cpp)),
        plain_query(item_query_of(Grammar::Cpp)),
{
    reveal_strlit("(function_definition body: (compound_statement) @body) (struct_specifier body: (field_declaration_list) @body) (class_specifier body: (field_declaration_list) @body)\n");
    reveal_strlit("(function_definition) @item (class_specifier) @item\n");
}

proof fn lemma_c_queries_are_plain()
    ensures
        plain_query(fold_query_of(Grammar::C)),
        plain_query(item_query_of(Grammar::C)),
{
    reveal_strlit("(function_definition body: (compound_statement) @body)\n");
    reveal_strlit("(function_definition) @item\n");
}

proof fn lemma_go_queries_are_plain()
    ensures
        plain_query(fold_query_of(Grammar::Go)),
        plain_query(item_query_of(Grammar::Go)),
{
    reveal_strlit("(function_declaration body: (block) @body) (method_declaration body: (block) @body)\n");
    reveal_strlit("(function_declaration) @item (method_declaration) @item\n");
}

/// The queries of the registry are plain: the parser takes each of them as
/// it is written.
pub proof fn lemma_registered_queries_are_plain(grammar: Grammar)
    ensures
        plain_query(fold_query_of(grammar)),
        plain_query(item_query_of(grammar)),
{
    match grammar {
        Grammar::Rust => lemma_rust_queries_are_plain(),
        Grammar::Python => lemma_python_queries_are_plain(),
        Grammar::JavaScript => lemma_javascript_queries_are_plain(),
        Grammar::Java => lemma_java_queries_are_plain(),
        Grammar::Cpp => lemma_cpp_queries_are_plain(),
        Grammar::C => lemma_c_queries_are_plain(),
        Grammar::Go => lemma_go_queries_are_plain(),
    }
}

} // verus!
