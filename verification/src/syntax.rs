//! The boundary to the tree-sitter parser.
//!
//! Parsing and query matching are done by tree-sitter and are not proved here.
//! What they return is given a name, and the functions of this module say in
//! terms of those names what they hand to the rest of the library. A node of a
//! syntax tree is read into a [`SyntaxNode`], which holds as plain values what
//! the library looks at: the kind of the node and the bytes that it spans.

use vstd::prelude::*;
use vstd::string::*;
use vstd::utf8::*;
use tree_sitter::{Language, Node, Parser, Query, QueryCursor, Tree};
use crate::fold::Span;
use crate::registry::{is_plain_query, plain_query, Grammar};

verus! {

#[verifier::external_type_specification]
#[verifier::external_body]
pub struct ExLanguage(Language);

#[verifier::external_type_specification]
#[verifier::external_body]
pub struct ExTree(Tree);

#[verifier::external_type_specification]
#[verifier::external_body]
pub struct ExQuery(Query);

#[verifier::external_type_specification]
#[verifier::external_body]
pub struct ExNode<'a>(Node<'a>);

/// What the library reads of a node of a syntax tree.
#[derive(Clone, Debug)]
pub struct SyntaxNode {
    pub kind: String,
    pub start: usize,
    pub end: usize,
}

/// The mathematical value of a [`SyntaxNode`].
pub struct NodeView {
    pub kind: Seq<char>,
    pub start: usize,
    pub end: usize,
}

impl View for SyntaxNode {
    type V = NodeView;

    open spec fn view(&self) -> NodeView {
        NodeView { kind: self.kind@, start: self.start, end: self.end }
    }
}

/// How an attempt to parse a text ended.
pub enum Parse {
    /// The parser refused the grammar.
    NoGrammar,
    /// The parser gave no tree.
    Failed,
    /// The syntax tree of the text.
    Tree(Tree),
}

/// The tree-sitter language of a grammar.
pub uninterp spec fn language_of(grammar: Grammar) -> Language;

/// What parsing a text with a language gives.
pub uninterp spec fn parse_of(language: Language, content: Seq<char>) -> Parse;

/// What compiling a query source for a language gives: the query, or the
/// description of the error.
pub uninterp spec fn compile_of(language: Language, source: Seq<char>) -> Result<Query, Seq<char>>;

/// The nodes that a query captures in a tree, match by match and within a
/// match capture by capture.
pub uninterp spec fn captures_of(query: Query, tree: Tree, content: Seq<char>) -> Seq<Node<'static>>;

/// The kind of a node.
pub uninterp spec fn kind_of(node: Node) -> Seq<char>;

/// The offset of the first byte of a node.
pub uninterp spec fn start_of(node: Node) -> usize;

/// The offset behind the last byte of a node.
pub uninterp spec fn end_of(node: Node) -> usize;

/// The kind and the byte range of a node.
pub open spec fn node_view(node: Node) -> NodeView {
    NodeView { kind: kind_of(node), start: start_of(node), end: end_of(node) }
}

/// The siblings in front of a node, the nearest first.
pub uninterp spec fn preceding_of(node: Node) -> Seq<NodeView>;

/// Calls `tree_sitter_rust::language`, which returns the language generated
/// from the Rust grammar; the contract only names it.
#[verifier::external_body]
fn rust_language() -> (language: Language)
    ensures
        language == language_of(Grammar::Rust),
{
    tree_sitter_rust::language()
}

/// Calls `tree_sitter_python::language`, which returns the language generated
/// from the Python grammar; the contract only names it.
#[verifier::external_body]
fn python_language() -> (language: Language)
    ensures
        language == language_of(Grammar::Python),
{
    tree_sitter_python::language()
}

/// Calls `tree_sitter_javascript::language`, which returns the language
/// generated from the JavaScript grammar; the contract only names it.
#[verifier::external_body]
fn javascript_language() -> (language: Language)
    ensures
        language == language_of(Grammar::JavaScript),
{
    tree_sitter_javascript::language()
}

/// Calls `tree_sitter_java::language`, which returns the language generated
/// from the Java grammar; the contract only names it.
#[verifier::external_body]
fn java_language() -> (language: Language)
    ensures
        language == language_of(Grammar::Java),
{
    tree_sitter_java::language()
}

/// Calls `tree_sitter_cpp::language`, which returns the language generated
/// from the C++ grammar; the contract only names it.
#[verifier::external_body]
fn cpp_language() -> (language: Language)
    ensures
        language == language_of(Grammar::Cpp),
{
    tree_sitter_cpp::language()
}

/// Calls `tree_sitter_c::language`, which returns the language generated from
/// the C grammar; the contract only names it.
#[verifier::external_body]
fn c_language() -> (language: Language)
    ensures
        language == language_of(Grammar::C),
{
    tree_sitter_c::language()
}

/// Calls `tree_sitter_go::language`, which returns the language generated from
/// the Go grammar; the contract only names it.
#[verifier::external_body]
fn go_language() -> (language: Language)
    ensures
        language == language_of(Grammar::Go),
{
    tree_sitter_go::language()
}

/// The tree-sitter language of a grammar.
pub fn language_for(grammar: Grammar) -> (language: Language)
    ensures
        language == language_of(grammar),
{
    match grammar {
        Grammar::Rust => rust_language(),
        Grammar::Python => python_language(),
        Grammar::JavaScript => javascript_language(),
        Grammar::Java => java_language(),
        Grammar::Cpp => cpp_language(),
        Grammar::C => c_language(),
        Grammar::Go => go_language(),
    }
}

/// Makes a parser with `Parser::new`, gives it the language with
/// `Parser::set_language` and parses the text with `Parser::parse`, without an
/// earlier tree. `set_language` fails where the language was generated for
/// another version of the library; `parse` returns no tree where the parser
/// has no language or was stopped. The contract claims only that the outcome
/// is determined by the language and the text.
#[verifier::external_body]
pub(crate) fn parse_source(language: Language, content: &str) -> (parse: Parse)
    ensures
        parse == parse_of(language, content@),
{
    let mut parser = Parser::new();
    if parser.set_language(language).is_err() {
        return Parse::NoGrammar;
    }
    match parser.parse(content, None) {
        Some(tree) => Parse::Tree(tree),
        None => Parse::Failed,
    }
}

/// Compiles a query with `Query::new`. It returns the query or an error that
/// tells where the source is wrong; the error is handed on in its `Debug`
/// form. While it builds the error, `Query::new` cuts the source at the byte
/// where the wrong name starts and at the end of that name: a source in ASCII
/// that does not end within a name keeps both cuts inside the text, which is
/// what `requires` asks. The contract claims only that the outcome is
/// determined by the language and the source.
#[verifier::external_body]
pub(crate) fn compile_query(language: Language, source: &str) -> (r: Result<Query, String>)
    requires
        plain_query(source@),
    ensures
        match r {
            Ok(query) => compile_of(language, source@) == Ok::<Query, Seq<char>>(query),
            Err(message) => compile_of(language, source@) == Err::<Query, Seq<char>>(message@),
        },
{
    match Query::new(language, source) {
        Ok(query) => Ok(query),
        Err(error) => Err(format!("{:?}", error)),
    }
}

/// Runs a query over a whole tree with `QueryCursor::matches` and hands out
/// the captured nodes in the order in which the matches come, and within a
/// match in the order of its captures. `content` is the text that the tree was
/// parsed from; tree-sitter reads it only for the predicates of a query, and a
/// query made by `compile_query` has none. The contract only names the nodes.
#[verifier::external_body]
pub(crate) fn captured_nodes<'a>(query: &Query, tree: &'a Tree, content: &str) -> (nodes: Vec<Node<'a>>)
    ensures
        nodes@ == captures_of(*query, *tree, content@),
{
    let mut cursor = QueryCursor::new();
    let mut nodes = Vec::new();
    for found in cursor.matches(query, tree.root_node(), content.as_bytes()) {
        for capture in found.captures {
            nodes.push(capture.node);
        }
    }
    nodes
}

/// Calls `Node::kind`, which returns the name of the node's type in its
/// grammar. The contract only names it.
#[verifier::external_body]
fn node_kind(node: &Node) -> (kind: &'static str)
    ensures
        kind@ == kind_of(*node),
{
    node.kind()
}

/// Calls `Node::start_byte`, which returns the offset at which the node
/// starts. The contract only names it.
#[verifier::external_body]
fn node_start(node: &Node) -> (start: usize)
    ensures
        start == start_of(*node),
{
    node.start_byte()
}

/// Calls `Node::end_byte`, which returns the offset at which the node ends.
/// The contract only names it.
#[verifier::external_body]
fn node_end(node: &Node) -> (end: usize)
    ensures
        end == end_of(*node),
{
    node.end_byte()
}

/// Reads the kind and the byte range of a node.
pub fn read_node(node: &Node) -> (r: SyntaxNode)
    ensures
        r@ == node_view(*node),
{
    SyntaxNode { kind: String::from_str(node_kind(node)), start: node_start(node), end: node_end(node) }
}

/// Calls `Node::prev_sibling`, which returns the sibling in front of a node or
/// nothing for a first child. The contract says this over the list of the
/// siblings in front of the node: the list is empty exactly when nothing is
/// returned, and else the sibling returned is its head and has the rest of
/// the list in front of it.
#[verifier::external_body]
pub(crate) fn previous_sibling<'a>(node: &Node<'a>) -> (r: Option<Node<'a>>)
    ensures
        match r {
            Some(sibling) => {
                &&& preceding_of(*node).len() > 0
                &&& preceding_of(*node)[0] == node_view(sibling)
                &&& preceding_of(sibling) == preceding_of(*node).drop_first()
            },
            None => preceding_of(*node).len() == 0,
        },
{
    node.prev_sibling()
}

/// A text parsed and a query compiled, or the reason why there is neither.
pub enum Prepared {
    /// The parser gave no tree for the text.
    Unparsed,
    /// The grammar or the query is defective; the message says which.
    Defect(String),
    /// The tree of the text and the compiled query.
    Ready(Tree, Query),
}

/// The mathematical value of a [`Prepared`].
pub enum PreparedView {
    Unparsed,
    Defect(Seq<char>),
    Ready(Tree, Query),
}

impl View for Prepared {
    type V = PreparedView;

    open spec fn view(&self) -> PreparedView {
        match self {
            Prepared::Unparsed => PreparedView::Unparsed,
            Prepared::Defect(message) => PreparedView::Defect(message@),
            Prepared::Ready(tree, query) => PreparedView::Ready(*tree, *query),
        }
    }
}

/// What preparing a text and a query gives. The text is parsed first: a
/// grammar that the parser refuses is a defect, and without a tree the query
/// is not looked at. A query source that is not plain is a defect, and so is
/// one that does not compile.
pub open spec fn prepared_of(language: Language, source: Seq<char>, content: Seq<char>) -> PreparedView {
    match parse_of(language, content) {
        Parse::NoGrammar => PreparedView::Defect("Error: Failed to load language grammar"@),
        Parse::Failed => PreparedView::Unparsed,
        Parse::Tree(tree) => if !plain_query(source) {
            PreparedView::Defect("Query Error: unsupported query source"@)
        } else {
            match compile_of(language, source) {
                Ok(query) => PreparedView::Ready(tree, query),
                Err(message) => PreparedView::Defect("Query Error: "@ + message),
            }
        },
    }
}

/// Parses a text and compiles a query for it.
pub fn prepare(language: Language, source: &str, content: &str) -> (r: Prepared)
    ensures
        r@ == prepared_of(language, source@, content@),
{
    match parse_source(language, content) {
        Parse::NoGrammar => Prepared::Defect(String::from_str("Error: Failed to load language grammar")),
        Parse::Failed => Prepared::Unparsed,
        Parse::Tree(tree) => {
            if !is_plain_query(source) {
                Prepared::Defect(String::from_str("Query Error: unsupported query source"))
            } else {
                match compile_query(language, source) {
                    Ok(query) => Prepared::Ready(tree, query),
                    Err(message) => {
                        let mut text = String::from_str("Query Error: ");
                        text.append(message.as_str());
                        Prepared::Defect(text)
                    },
                }
            }
        },
    }
}

/// The byte ranges of nodes.
pub open spec fn spans_of(nodes: Seq<Node>) -> Seq<Span> {
    Seq::new(
        nodes.len(),
        |i: int| Span { start: node_view(nodes[i]).start, end: node_view(nodes[i]).end },
    )
}

/// Reads the byte range of each node.
pub fn node_spans(nodes: &Vec<Node>) -> (spans: Vec<Span>)
    ensures
        spans@ == spans_of(nodes@),
{
    let mut spans: Vec<Span> = Vec::new();
    let mut i: usize = 0;
    while i < nodes.len()
        invariant
            i <= nodes@.len(),
            spans@.len() == i,
            forall|k: int| 0 <= k < i ==> spans@[k] == spans_of(nodes@)[k],
        decreases nodes@.len() - i,
    {
        spans.push(Span { start: node_start(&nodes[i]), end: node_end(&nodes[i]) });
        i = i + 1;
    }
    assert(spans@ =~= spans_of(nodes@));
    spans
}

} // verus!
