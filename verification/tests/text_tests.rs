use git_agent::lines::{count_lines, find_newline, first_lines};
use git_agent::registry::{entry_of, extension_of, file_name, resolve, Grammar};
use git_agent::text::{count_newlines, decimal_text, slice, str_eq};

#[test]
fn decimal_text_writes_numerals() {
    assert_eq!(decimal_text(0), "0");
    assert_eq!(decimal_text(7), "7");
    assert_eq!(decimal_text(10), "10");
    assert_eq!(decimal_text(3000), "3000");
    assert_eq!(decimal_text(1234567890), "1234567890");
    assert_eq!(decimal_text(usize::MAX), usize::MAX.to_string());
}

#[test]
fn count_newlines_counts_up_to_the_offset() {
    let text = "a\nbc\n\nd";
    assert_eq!(count_newlines(text.as_bytes(), 0), 0);
    assert_eq!(count_newlines(text.as_bytes(), 1), 0);
    assert_eq!(count_newlines(text.as_bytes(), 2), 1);
    assert_eq!(count_newlines(text.as_bytes(), 6), 3);
    assert_eq!(count_newlines(text.as_bytes(), 7), 3);
}

#[test]
fn slice_takes_the_bytes_between_two_offsets() {
    assert_eq!(slice("hello world", 6, 11), "world");
    assert_eq!(slice("a\u{e9}b", 1, 3), "\u{e9}");
    assert_eq!(slice("abc", 2, 2), "");
}

#[test]
fn str_eq_compares_texts() {
    assert!(str_eq("rs", "rs"));
    assert!(!str_eq("rs", "r"));
    assert!(!str_eq("rs", "py"));
    assert!(str_eq("", ""));
}

#[test]
fn count_lines_counts_as_lines_are_read() {
    assert_eq!(count_lines(b""), 0);
    assert_eq!(count_lines(b"a"), 1);
    assert_eq!(count_lines(b"a\n"), 1);
    assert_eq!(count_lines(b"a\nb"), 2);
    assert_eq!(count_lines(b"a\n\n"), 2);
    assert_eq!(count_lines(b"\n"), 1);
    for text in ["", "a", "a\n", "a\nb", "a\n\n", "\n", "x\r\ny\r\n"] {
        assert_eq!(count_lines(text.as_bytes()), text.lines().count());
    }
}

#[test]
fn find_newline_finds_the_next_line_feed() {
    assert_eq!(find_newline(b"ab\ncd\n", 0), 2);
    assert_eq!(find_newline(b"ab\ncd\n", 2), 2);
    assert_eq!(find_newline(b"ab\ncd\n", 3), 5);
    assert_eq!(find_newline(b"ab\ncd", 3), 5);
}

#[test]
fn first_lines_joins_the_first_lines() {
    assert_eq!(first_lines("a\nb\nc\n", 2), "a\nb");
    assert_eq!(first_lines("a\nb\nc\n", 5), "a\nb\nc");
    assert_eq!(first_lines("a\r\nb\r\nc", 2), "a\nb");
    assert_eq!(first_lines("a\n\nb", 3), "a\n\nb");
    assert_eq!(first_lines("abc", 0), "");
    assert_eq!(first_lines("", 3), "");
    for text in ["a\nb\nc\n", "a\r\nb\r\nc", "a\n\nb\n\n", "one", "\n\n\n"] {
        for n in 0..5 {
            let expected: Vec<&str> = text.lines().take(n).collect();
            assert_eq!(first_lines(text, n), expected.join("\n"));
        }
    }
}

#[test]
fn extension_of_takes_what_follows_the_last_full_stop_of_the_name() {
    assert_eq!(extension_of("src/main.rs"), "rs");
    assert_eq!(extension_of("main.rs"), "rs");
    assert_eq!(extension_of("a.b/c"), "");
    assert_eq!(extension_of("a.b/c.tar.gz"), "gz");
    assert_eq!(extension_of(".gitignore"), "");
    assert_eq!(extension_of("dir/.gitignore"), "");
    assert_eq!(extension_of("dir/.hidden.py"), "py");
    assert_eq!(extension_of("Makefile"), "");
    assert_eq!(extension_of("name."), "");
    assert_eq!(extension_of(""), "");
}

#[test]
fn file_name_takes_the_last_component() {
    assert_eq!(file_name("/home/user/repo"), "repo");
    assert_eq!(file_name("repo"), "repo");
    assert_eq!(file_name("a/b/"), "");
}

#[test]
fn resolve_knows_the_registered_extensions() {
    let cases = [
        ("rs", Grammar::Rust),
        ("py", Grammar::Python),
        ("js", Grammar::JavaScript),
        ("ts", Grammar::JavaScript),
        ("jsx", Grammar::JavaScript),
        ("tsx", Grammar::JavaScript),
        ("java", Grammar::Java),
        ("cpp", Grammar::Cpp),
        ("cc", Grammar::Cpp),
        ("hpp", Grammar::Cpp),
        ("c", Grammar::C),
        ("h", Grammar::C),
        ("go", Grammar::Go),
    ];
    for (extension, grammar) in cases {
        let entry = resolve(extension).unwrap();
        assert_eq!(entry.grammar, grammar);
        assert_eq!(entry.fold_query, entry_of(grammar).fold_query);
        assert_eq!(entry.item_query, entry_of(grammar).item_query);
        assert_eq!(entry.placeholder, entry_of(grammar).placeholder);
    }
}

#[test]
fn resolve_has_no_entry_for_other_extensions() {
    for extension in ["", "txt", "md", "RS", "rss", "r", "json"] {
        assert!(resolve(extension).is_none());
    }
}

#[test]
fn entries_hold_the_placeholders_of_their_grammars() {
    assert_eq!(entry_of(Grammar::Rust).placeholder, " ... ");
    assert_eq!(entry_of(Grammar::Python).placeholder, " ...");
    assert_eq!(entry_of(Grammar::JavaScript).placeholder, " { ... }");
    assert_eq!(entry_of(Grammar::Java).placeholder, " { /* ... */ }");
    assert_eq!(entry_of(Grammar::Cpp).placeholder, " { /* ... */ }");
    assert_eq!(entry_of(Grammar::C).placeholder, " { /* ... */ }");
    assert_eq!(entry_of(Grammar::Go).placeholder, " { ... }");
}
