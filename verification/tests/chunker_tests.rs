use git_agent::chunker::{attach_leading, attaches_to, contains_bytes, is_doc_kind, Capture, Chunker, CodeChunk};
use git_agent::syntax::SyntaxNode;

fn node(kind: &str, start: usize, end: usize) -> SyntaxNode {
    SyntaxNode { kind: kind.to_string(), start, end }
}

fn capture(start: usize, end: usize, preceding: Vec<SyntaxNode>) -> Capture {
    Capture { start, end, preceding }
}

fn lines_of(chunks: &Vec<CodeChunk>) -> Vec<(usize, usize)> {
    chunks.iter().map(|c| (c.start_line, c.end_line)).collect()
}

const TWO_FUNCTIONS: &str = "/// Adds.\nfn add(a: i32, b: i32) -> i32 {\n    let c = a + b;\n    let d = c * 2;\n    d\n}\n\nfn sub(a: i32, b: i32) -> i32 {\n    let c = a - b;\n    let d = c * 2;\n    d\n}\n";

#[test]
fn contains_bytes_finds_an_infix() {
    assert!(contains_bytes(b"line_comment", b"comment"));
    assert!(contains_bytes(b"comment", b"comment"));
    assert!(contains_bytes(b"abc", b""));
    assert!(!contains_bytes(b"commen", b"comment"));
    assert!(!contains_bytes(b"", b"comment"));
    assert!(contains_bytes(b"xxcommcomment", b"comment"));
}

#[test]
fn doc_kinds_are_comments_and_strings() {
    assert!(is_doc_kind("comment"));
    assert!(is_doc_kind("line_comment"));
    assert!(is_doc_kind("block_comment"));
    assert!(is_doc_kind("string"));
    assert!(!is_doc_kind("string_literal"));
    assert!(!is_doc_kind("function_item"));
    assert!(!is_doc_kind(""));
}

#[test]
fn a_sibling_attaches_below_the_gap_limit() {
    assert!(attaches_to(&node("comment", 0, 90), 100));
    assert!(attaches_to(&node("comment", 0, 100), 100));
    assert!(attaches_to(&node("comment", 0, 51), 100));
    assert!(!attaches_to(&node("comment", 0, 50), 100));
    assert!(!attaches_to(&node("comment", 0, 101), 100));
    assert!(!attaches_to(&node("attribute_item", 0, 90), 100));
}

#[test]
fn a_comment_ten_bytes_in_front_is_attached() {
    assert_eq!(attach_leading(1000, &vec![node("line_comment", 950, 990)]), 950);
}

#[test]
fn a_comment_a_thousand_bytes_in_front_is_not_attached() {
    assert_eq!(attach_leading(2000, &vec![node("line_comment", 950, 1000)]), 2000);
}

#[test]
fn the_walk_attaches_a_run_of_comments_and_stops_at_the_first_that_fails() {
    let preceding = vec![
        node("line_comment", 80, 99),
        node("line_comment", 60, 79),
        node("use_declaration", 40, 59),
        node("line_comment", 20, 39),
    ];
    assert_eq!(attach_leading(100, &preceding), 60);
    assert_eq!(attach_leading(100, &vec![]), 100);
    let far = vec![node("comment", 80, 99), node("comment", 0, 20)];
    assert_eq!(attach_leading(100, &far), 80);
}

fn numbered_lines(n: usize) -> String {
    (1..=n).map(|i| format!("line {}\n", i)).collect()
}

#[test]
fn a_declaration_over_a_span_of_three_lines_is_left_out() {
    let text = numbered_lines(10);
    let start = text.find("line 2").unwrap();
    let end = text.find("line 5").unwrap() + "line 5".len();
    let chunks = Chunker::chunks_from_captures(&text, "a.rs", &vec![capture(start, end, vec![])]);
    assert!(chunks.is_empty());
}

#[test]
fn a_declaration_over_a_span_of_four_lines_is_kept() {
    let text = numbered_lines(10);
    let start = text.find("line 2").unwrap();
    let end = text.find("line 6").unwrap() + "line 6".len();
    let chunks = Chunker::chunks_from_captures(&text, "a.rs", &vec![capture(start, end, vec![])]);
    assert_eq!(chunks.len(), 1);
    assert_eq!(chunks[0].path, "a.rs");
    assert_eq!(chunks[0].start_line, 2);
    assert_eq!(chunks[0].end_line, 6);
    assert_eq!(chunks[0].content, "line 2\nline 3\nline 4\nline 5\nline 6");
}

#[test]
fn attached_documentation_counts_for_the_span() {
    let text = numbered_lines(10);
    let start = text.find("line 3").unwrap();
    let end = text.find("line 6").unwrap() + "line 6".len();
    let doc_start = text.find("line 2").unwrap();
    let doc = node("line_comment", doc_start, doc_start + 6);
    let alone = Chunker::chunks_from_captures(&text, "a.rs", &vec![capture(start, end, vec![])]);
    assert!(alone.is_empty());
    let with_doc = Chunker::chunks_from_captures(&text, "a.rs", &vec![capture(start, end, vec![doc])]);
    assert_eq!(lines_of(&with_doc), vec![(2, 6)]);
    assert!(with_doc[0].content.starts_with("line 2\n"));
}

#[test]
fn chunks_come_in_the_order_of_the_text_and_each_range_once() {
    let text = numbered_lines(30);
    let at = |n: usize| text.find(&format!("line {}\n", n)).unwrap();
    let captures = vec![
        capture(at(20), at(26), vec![]),
        capture(at(1), at(8), vec![]),
        capture(at(20), at(26), vec![]),
        capture(at(10), at(12), vec![]),
        capture(at(1), at(6), vec![]),
    ];
    let chunks = Chunker::chunks_from_captures(&text, "a.rs", &captures);
    assert_eq!(lines_of(&chunks), vec![(1, 8), (1, 6), (20, 26)]);
}

#[test]
fn captures_outside_the_text_give_no_chunk() {
    let text = numbered_lines(10);
    let len = text.len();
    let chunks = Chunker::chunks_from_captures(
        &text,
        "a.rs",
        &vec![capture(0, len + 1, vec![]), capture(len, 0, vec![])],
    );
    assert!(chunks.is_empty());
    let whole = Chunker::chunks_from_captures(&text, "a.rs", &vec![capture(0, len, vec![])]);
    assert_eq!(lines_of(&whole), vec![(1, 11)]);
}

#[test]
fn a_file_without_a_grammar_has_no_chunks() {
    assert!(Chunker::chunk(TWO_FUNCTIONS, "notes.txt").unwrap().is_empty());
    assert!(Chunker::chunk(TWO_FUNCTIONS, "Makefile").unwrap().is_empty());
}

#[test]
fn two_functions_of_a_file_give_two_chunks_in_the_order_of_the_text() {
    let chunks = Chunker::chunk(TWO_FUNCTIONS, "src/math.rs").unwrap();
    assert_eq!(chunks.len(), 2);
    assert_eq!(lines_of(&chunks), vec![(1, 6), (8, 12)]);
    assert_eq!(chunks[0].path, "src/math.rs");
    assert_eq!(chunks[1].path, "src/math.rs");
    assert_eq!(
        chunks[0].content,
        "/// Adds.\nfn add(a: i32, b: i32) -> i32 {\n    let c = a + b;\n    let d = c * 2;\n    d\n}"
    );
    assert_eq!(
        chunks[1].content,
        "fn sub(a: i32, b: i32) -> i32 {\n    let c = a - b;\n    let d = c * 2;\n    d\n}"
    );
}

#[test]
fn short_declarations_of_a_file_are_left_out() {
    let text = "fn one() -> i32 {\n    1\n}\n\nstruct Point {\n    x: i32,\n    y: i32,\n    z: i32,\n}\n";
    let chunks = Chunker::chunk(text, "lib.rs").unwrap();
    assert_eq!(lines_of(&chunks), vec![(5, 9)]);
}

#[test]
fn nested_declarations_are_chunks_of_their_own() {
    let text = "impl Point {\n    // The sum.\n    fn sum(&self) -> i32 {\n        let a = self.x;\n        let b = self.y;\n        a + b\n    }\n}\n";
    let chunks = Chunker::chunk(text, "point.rs").unwrap();
    assert_eq!(lines_of(&chunks), vec![(1, 8), (2, 7)]);
    assert!(chunks[1].content.starts_with("// The sum.\n    fn sum"));
}

#[test]
fn python_functions_are_chunked() {
    let text = "def area(w, h):\n    a = w * h\n    b = a + 0\n    c = b\n    return c\n";
    let chunks = Chunker::chunk(text, "geometry.py").unwrap();
    assert_eq!(lines_of(&chunks), vec![(1, 5)]);
}

#[test]
fn a_query_that_does_not_compile_is_reported() {
    let language = git_agent::syntax::language_for(git_agent::registry::Grammar::Rust);
    let r = Chunker::extract_chunks(TWO_FUNCTIONS, "a.rs", language, "(no_such_node) @item ");
    let message = r.unwrap_err();
    assert!(message.starts_with("Query Error: "), "{}", message);
    assert!(message.contains("NodeType"), "{}", message);
    let r = Chunker::extract_chunks(TWO_FUNCTIONS, "a.rs", language, "(function_item) @item ; name");
    assert_eq!(r.unwrap_err(), "Query Error: unsupported query source");
}

#[test]
fn every_registered_item_query_compiles() {
    for path in ["a.rs", "a.py", "a.js", "a.java", "a.cpp", "a.c", "a.go"] {
        assert!(Chunker::chunk("x", path).is_ok(), "{}", path);
    }
}

#[test]
fn chunks_do_not_depend_on_the_order_of_the_files() {
    let files = [("a.rs", TWO_FUNCTIONS), ("b.py", "def f(x):\n    a = x\n    b = a\n    c = b\n    return c\n")];
    let forward: Vec<Vec<(usize, usize)>> =
        files.iter().map(|(p, c)| lines_of(&Chunker::chunk(c, p).unwrap())).collect();
    let mut backward: Vec<Vec<(usize, usize)>> =
        files.iter().rev().map(|(p, c)| lines_of(&Chunker::chunk(c, p).unwrap())).collect();
    backward.reverse();
    assert_eq!(forward, backward);
    assert_eq!(forward, vec![vec![(1, 6), (8, 12)], vec![(1, 5)]]);
}

#[test]
fn a_comment_far_above_a_declaration_is_not_attached() {
    let gap = "\n".repeat(60);
    let text = format!("// far away{}fn f() -> i32 {{\n    let a = 1;\n    let b = 2;\n    let c = 3;\n    a + b + c\n}}\n", gap);
    let chunks = Chunker::chunk(&text, "f.rs").unwrap();
    assert_eq!(lines_of(&chunks), vec![(61, 66)]);
    assert!(chunks[0].content.starts_with("fn f()"));
}

#[test]
fn declarations_of_other_languages_are_chunked() {
    let go = "package m\n\n// Sum adds.\nfunc Sum(a int, b int) int {\n\tc := a + b\n\td := c\n\treturn d\n}\n";
    assert_eq!(lines_of(&Chunker::chunk(go, "m.go").unwrap()), vec![(3, 8)]);
    let c = "/* twice */\nint twice(int a) {\n  int b = a;\n  int c = b * 2;\n  return c;\n}\n";
    assert_eq!(lines_of(&Chunker::chunk(c, "t.c").unwrap()), vec![(1, 6)]);
    assert_eq!(lines_of(&Chunker::chunk(c, "t.h").unwrap()), vec![(1, 6)]);
    assert_eq!(lines_of(&Chunker::chunk(c, "t.cpp").unwrap()), vec![(1, 6)]);
    let js = "function area(w, h) {\n  const a = w * h;\n  const b = a;\n  const c = b;\n  return c;\n}\n";
    assert_eq!(lines_of(&Chunker::chunk(js, "a.js").unwrap()), vec![(1, 6)]);
    assert_eq!(lines_of(&Chunker::chunk(js, "a.ts").unwrap()), vec![(1, 6)]);
    let java = "class A {\n  int f() {\n    int a = 1;\n    int b = a;\n    int c = b;\n    return c;\n  }\n}\n";
    assert_eq!(lines_of(&Chunker::chunk(java, "A.java").unwrap()), vec![(1, 8), (2, 7)]);
}

#[test]
fn a_python_comment_above_a_function_is_attached() {
    let text = "# Adds one.\ndef inc(x):\n    a = x\n    b = a + 1\n    return b\n";
    let chunks = Chunker::chunk(text, "inc.py").unwrap();
    assert_eq!(lines_of(&chunks), vec![(1, 5)]);
    assert!(chunks[0].content.starts_with("# Adds one.\ndef inc"));
}
