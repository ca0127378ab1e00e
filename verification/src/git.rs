//! The commands of the version control program and what is reported of them.
//!
//! The library does not run anything. Each operation gives the command to
//! run: its arguments and the way in which its outcome is to be reported. The
//! caller runs the command and hands the outcome back to [`GitEngine::report`].

use vstd::prelude::*;
use vstd::string::*;
use vstd::utf8::*;
use crate::lines::{count_lines, find_newline, lemma_next_newline, line_count, line_end, next_newline, RETURN};
use crate::registry::{file_name, file_name_bytes, SLASH};
use crate::text::{boundary, bytes_of, decimal, decimal_text, lemma_ascii_byte_boundaries, lemma_encode_concat,
    slice, str_eq};

verus! {

/// A report of a diff is cut behind this many bytes.
pub const DIFF_LIMIT: usize = 3000;

/// A tree shows no more files than this.
pub const TREE_LIMIT: usize = 50;

/// How the outcome of a command is reported.
#[derive(Clone, Copy, Debug, PartialEq, Eq, Structural)]
pub enum Rendering {
    /// The output, or the error message of a command that failed.
    Plain,
    /// The output of a command that succeeded; without any, a note that the
    /// working directory is clean.
    Status,
    /// As `Plain`, cut short where it is long.
    Diff,
    /// The output, or the error message behind a note that the merge failed.
    Merge,
    /// The listed files as a tree, down to a depth.
    Tree(usize),
}

/// A command to run: the arguments for the program and the way to report
/// what comes of it.
#[derive(Debug)]
pub struct GitCommand {
    pub args: Vec<String>,
    pub rendering: Rendering,
}

/// The texts of a list of arguments.
pub open spec fn arg_views(args: Seq<String>) -> Seq<Seq<char>> {
    args.map_values(|s: String| s@)
}

/// The command has these arguments and is reported in this way.
pub open spec fn is_command(command: GitCommand, args: Seq<Seq<char>>, rendering: Rendering) -> bool {
    arg_views(command.args@) == args && command.rendering == rendering
}

/// The arguments that list the files.
pub open spec fn tree_args() -> Seq<Seq<char>> {
    seq!["ls-files"@]
}

/// The arguments that ask for the status.
pub open spec fn status_args() -> Seq<Seq<char>> {
    seq!["status"@]
}

/// The arguments that ask for the changes against a target.
pub open spec fn diff_args(target: Seq<char>) -> Seq<Seq<char>> {
    if target == "staged"@ {
        seq!["diff"@, "--staged"@]
    } else if target == "unstaged"@ {
        seq!["diff"@]
    } else {
        seq!["diff"@, target]
    }
}

/// The arguments that commit with a message.
pub open spec fn commit_args(msg: Seq<char>) -> Seq<Seq<char>> {
    seq!["commit"@, "-m"@, msg]
}

/// The arguments that stage files.
pub open spec fn add_args(files: Seq<Seq<char>>) -> Seq<Seq<char>> {
    if files.len() == 0 || (files.len() == 1 && files[0] == "."@) {
        seq!["add"@, "."@]
    } else {
        seq!["add"@] + files
    }
}

/// The arguments that ask for the last commits.
pub open spec fn log_args(count: nat) -> Seq<Seq<char>> {
    seq!["log"@, "--oneline"@, "-"@ + decimal(count), "--graph"@, "--decorate"@]
}

/// The arguments that switch to a branch.
pub open spec fn checkout_args(branch: Seq<char>, create: bool) -> Seq<Seq<char>> {
    if create {
        seq!["checkout"@, "-b"@, branch]
    } else {
        seq!["checkout"@, branch]
    }
}

/// The arguments that push a branch to a remote.
pub open spec fn push_args(remote: Seq<char>, branch: Seq<char>) -> Seq<Seq<char>> {
    seq!["push"@, remote, branch]
}

/// The arguments that pull a branch from a remote.
pub open spec fn pull_args(remote: Seq<char>, branch: Seq<char>) -> Seq<Seq<char>> {
    seq!["pull"@, remote, branch]
}

/// The arguments that merge a branch.
pub open spec fn merge_args(branch: Seq<char>) -> Seq<Seq<char>> {
    seq!["merge"@, branch]
}

/// The arguments that stash, take a stash back or list the stashes.
pub open spec fn stash_args(action: Seq<char>) -> Seq<Seq<char>> {
    if action == "pop"@ {
        seq!["stash"@, "pop"@]
    } else if action == "list"@ {
        seq!["stash"@, "list"@]
    } else {
        seq!["stash"@]
    }
}

/// The arguments that reset to a target.
pub open spec fn reset_args(target: Seq<char>, hard: bool) -> Seq<Seq<char>> {
    if hard {
        seq!["reset"@, "--hard"@, target]
    } else {
        seq!["reset"@, target]
    }
}

/// The arguments that list the branches.
pub open spec fn branch_list_args() -> Seq<Seq<char>> {
    seq!["branch"@, "-vv"@]
}

/// The value of the outcome of a command.
pub open spec fn outcome_view(outcome: Result<String, String>) -> Result<Seq<char>, Seq<char>> {
    match outcome {
        Ok(text) => Ok(text@),
        Err(text) => Err(text@),
    }
}

/// The characters that count as white space: those with the Unicode property
/// White_Space.
pub open spec fn white_space(c: char) -> bool {
    ('\u{9}' <= c && c <= '\u{d}') || c == ' ' || c == '\u{85}' || c == '\u{a0}' || c == '\u{1680}' || (
    '\u{2000}' <= c && c <= '\u{200a}') || c == '\u{2028}' || c == '\u{2029}' || c == '\u{202f}' || c
        == '\u{205f}' || c == '\u{3000}'
}

/// A text without the white space at its start.
pub open spec fn trimmed_start(text: Seq<char>) -> Seq<char>
    decreases text.len(),
{
    if text.len() > 0 && white_space(text[0]) {
        trimmed_start(text.drop_first())
    } else {
        text
    }
}

/// A text without the white space at its end.
pub open spec fn trimmed_end(text: Seq<char>) -> Seq<char>
    decreases text.len(),
{
    if text.len() > 0 && white_space(text.last()) {
        trimmed_end(text.drop_last())
    } else {
        text
    }
}

/// A text without the white space at its start and at its end.
pub open spec fn trimmed(text: Seq<char>) -> Seq<char> {
    trimmed_end(trimmed_start(text))
}

/// Calls `str::trim`, which returns the text without leading and trailing
/// white space, where white space is what Unicode gives the property
/// White_Space. The contract says the same.
#[verifier::external_body]
fn trim_text(text: &str) -> (r: String)
    ensures
        r@ == trimmed(text@),
{
    text.trim().to_string()
}

/// What a run of the program comes to: the trimmed output of a run that
/// succeeded, or its trimmed error output where it printed nothing else; the
/// trimmed error output of a run that failed.
pub open spec fn outcome_of(success: bool, stdout: Seq<char>, stderr: Seq<char>) -> Result<Seq<char>, Seq<char>> {
    if success {
        if trimmed(stdout).len() == 0 {
            Ok(trimmed(stderr))
        } else {
            Ok(trimmed(stdout))
        }
    } else {
        Err(trimmed(stderr))
    }
}

/// The output of a command, or its error message.
pub open spec fn either_text(outcome: Result<Seq<char>, Seq<char>>) -> Seq<char> {
    match outcome {
        Ok(text) => text,
        Err(text) => text,
    }
}

/// The output of a command, or nothing where it failed.
pub open spec fn output_text(outcome: Result<Seq<char>, Seq<char>>) -> Seq<char> {
    match outcome {
        Ok(text) => text,
        Err(_) => Seq::empty(),
    }
}

/// The largest offset up to `at` at which a character of the text starts.
pub open spec fn floor_boundary(bytes: Seq<u8>, at: int) -> int
    decreases at,
{
    if at <= 0 {
        0
    } else if is_char_boundary(bytes, at) {
        at
    } else {
        floor_boundary(bytes, at - 1)
    }
}

/// A text cut behind [`DIFF_LIMIT`] bytes, or in front of the character that
/// lies across that limit, with a note that it was cut.
pub open spec fn clipped(bytes: Seq<u8>) -> Seq<u8> {
    if bytes.len() > DIFF_LIMIT {
        bytes.subrange(0, floor_boundary(bytes, DIFF_LIMIT as int)) + bytes_of(
            "\n...[Diff truncated to 3000 chars]"@,
        )
    } else {
        bytes
    }
}

/// How often a byte stands in a text.
pub open spec fn occurrences(bytes: Seq<u8>, byte: u8) -> nat
    decreases bytes.len(),
{
    if bytes.len() == 0 {
        0
    } else if bytes.last() == byte {
        occurrences(bytes.drop_last(), byte) + 1
    } else {
        occurrences(bytes.drop_last(), byte)
    }
}

/// A text repeated `n` times.
pub open spec fn repeated(unit: Seq<u8>, n: nat) -> Seq<u8>
    decreases n,
{
    if n == 0 {
        Seq::empty()
    } else {
        repeated(unit, (n - 1) as nat) + unit
    }
}

/// The line of a tree for one file: nothing for a file that lies deeper than
/// the tree goes, and else the name behind an indentation of its depth.
pub open spec fn tree_entry(line: Seq<u8>, max_depth: usize) -> Seq<u8> {
    if occurrences(line, SLASH) < max_depth {
        repeated(bytes_of("  "@), occurrences(line, SLASH) + 1) + bytes_of("\u{1F4C4} "@) + line
            + bytes_of("\n"@)
    } else {
        Seq::empty()
    }
}

/// The lines of a tree for the first `n` files of the listing behind `from`.
pub open spec fn tree_lines(listing: Seq<u8>, from: int, n: int, max_depth: usize) -> Seq<u8>
    decreases n,
{
    if n <= 0 || from < 0 || from >= listing.len() {
        Seq::empty()
    } else {
        tree_entry(listing.subrange(from, line_end(listing, from)), max_depth) + tree_lines(
            listing,
            next_newline(listing, from) + 1,
            n - 1,
            max_depth,
        )
    }
}

/// The tree of a repository: its name, the first files of the listing and a
/// note where the listing has more.
pub open spec fn tree_bytes(repo_path: Seq<u8>, listing: Seq<u8>, max_depth: usize) -> Seq<u8> {
    bytes_of("\u{1F4C2} "@) + file_name_bytes(repo_path) + bytes_of("/\n"@) + tree_lines(
        listing,
        0,
        TREE_LIMIT as int,
        max_depth,
    ) + if line_count(listing) > TREE_LIMIT {
        bytes_of("  ... (truncated)\n"@)
    } else {
        Seq::empty()
    }
}

/// The report of a command.
pub open spec fn report_bytes(
    repo_path: Seq<char>,
    rendering: Rendering,
    outcome: Result<Seq<char>, Seq<char>>,
) -> Seq<u8> {
    match rendering {
        Rendering::Plain => bytes_of(either_text(outcome)),
        Rendering::Status => if output_text(outcome).len() == 0 {
            bytes_of("Clean working directory"@)
        } else {
            bytes_of(output_text(outcome))
        },
        Rendering::Diff => clipped(bytes_of(either_text(outcome))),
        Rendering::Merge => match outcome {
            Ok(text) => bytes_of(text),
            Err(text) => bytes_of("Merge failed (Conflict?): "@ + text),
        },
        Rendering::Tree(max_depth) => tree_bytes(
            bytes_of(repo_path),
            bytes_of(output_text(outcome)),
            max_depth,
        ),
    }
}

fn count_byte(bytes: &[u8], from: usize, end: usize, byte: u8) -> (n: usize)
    requires
        from <= end <= bytes@.len(),
    ensures
        n == occurrences(bytes@.subrange(from as int, end as int), byte),
        n <= end - from,
{
    let mut n: usize = 0;
    let mut i: usize = from;
    assert(bytes@.subrange(from as int, from as int) =~= Seq::<u8>::empty());
    while i < end
        invariant
            from <= i <= end <= bytes@.len(),
            n == occurrences(bytes@.subrange(from as int, i as int), byte),
            n <= i - from,
        decreases end - i,
    {
        proof {
            let next = bytes@.subrange(from as int, i + 1);
            assert(next.drop_last() =~= bytes@.subrange(from as int, i as int));
            assert(next.last() == bytes@[i as int]);
        }
        if bytes[i] == byte {
            n = n + 1;
        }
        i = i + 1;
    }
    n
}

fn clip(text: String) -> (r: String)
    ensures
        bytes_of(r@) == clipped(bytes_of(text@)),
{
    let len = text.as_str().as_bytes().len();
    if len <= DIFF_LIMIT {
        return text;
    }
    let ghost bytes = bytes_of(text@);
    let mut cut: usize = DIFF_LIMIT;
    proof {
        encode_utf8_valid_utf8(text@);
        is_char_boundary_start_end_of_seq(bytes);
    }
    while cut > 0 && !text.as_str().is_char_boundary(cut)
        invariant
            cut <= DIFF_LIMIT < len,
            len == bytes.len(),
            bytes == bytes_of(text@),
            floor_boundary(bytes, cut as int) == floor_boundary(bytes, DIFF_LIMIT as int),
        decreases cut,
    {
        cut = cut - 1;
    }
    let head = slice(text.as_str(), 0, cut);
    let mut out = String::from_str(head);
    out.append("\n...[Diff truncated to 3000 chars]");
    proof {
        lemma_encode_concat(head@, "\n...[Diff truncated to 3000 chars]"@);
    }
    out
}

fn render_tree(repo_path: &str, listing: &str, max_depth: usize) -> (r: String)
    ensures
        bytes_of(r@) == tree_bytes(bytes_of(repo_path@), bytes_of(listing@), max_depth),
{
    let bytes = listing.as_bytes();
    let len = bytes.len();
    let name = file_name(repo_path);
    let mut out = String::from_str("\u{1F4C2} ");
    out.append(name);
    out.append("/\n");
    let ghost header = out@;
    let ghost lines = tree_lines(bytes@, 0, TREE_LIMIT as int, max_depth);
    let mut from: usize = 0;
    let mut left: usize = TREE_LIMIT;
    proof {
        lemma_encode_concat("\u{1F4C2} "@, name@);
        lemma_encode_concat("\u{1F4C2} "@ + name@, "/\n"@);
        encode_utf8_valid_utf8(listing@);
        is_char_boundary_start_end_of_seq(bytes@);
    }
    while left > 0 && from < len
        invariant
            bytes@ == bytes_of(listing@),
            len == bytes@.len(),
            valid_utf8(bytes@),
            from <= len,
            boundary(bytes@, from as int),
            lines == tree_lines(bytes@, 0, TREE_LIMIT as int, max_depth),
            bytes_of(out@) + tree_lines(bytes@, from as int, left as int, max_depth) == bytes_of(header)
                + lines,
        decreases left,
    {
        let feed = find_newline(bytes, from);
        proof {
            lemma_next_newline(bytes@, from as int);
            is_char_boundary_start_end_of_seq(bytes@);
            if feed < len {
                lemma_ascii_byte_boundaries(bytes@, feed as int);
            }
        }
        let end: usize = if from < feed && feed < len && bytes[feed - 1] == RETURN {
            proof {
                lemma_ascii_byte_boundaries(bytes@, feed - 1);
            }
            feed - 1
        } else {
            feed
        };
        let depth = count_byte(bytes, from, end, SLASH);
        let ghost before = out@;
        let ghost line = bytes@.subrange(from as int, end as int);
        if depth < max_depth {
            let mut i: usize = 0;
            while i < depth + 1
                invariant
                    i <= depth + 1,
                    depth < max_depth,
                    bytes_of(out@) == bytes_of(before) + repeated(bytes_of("  "@), i as nat),
                decreases depth + 1 - i,
            {
                let ghost here = out@;
                out.append("  ");
                proof {
                    lemma_encode_concat(here, "  "@);
                }
                i = i + 1;
            }
            let ghost indented = out@;
            let piece = slice(listing, from, end);
            out.append("\u{1F4C4} ");
            out.append(piece);
            out.append("\n");
            proof {
                lemma_encode_concat(indented, "\u{1F4C4} "@);
                lemma_encode_concat(indented + "\u{1F4C4} "@, piece@);
                lemma_encode_concat(indented + "\u{1F4C4} "@ + piece@, "\n"@);
                assert(bytes_of(out@) =~= bytes_of(before) + tree_entry(line, max_depth));
            }
        }
        proof {
            assert(bytes_of(out@) =~= bytes_of(before) + tree_entry(line, max_depth));
            assert(bytes_of(out@) + tree_lines(bytes@, feed + 1, left - 1, max_depth) =~= bytes_of(before)
                + tree_lines(bytes@, from as int, left as int, max_depth));
        }
        if feed < len {
            from = feed + 1;
        } else {
            from = len;
        }
        left = left - 1;
    }
    let ghost body = out@;
    if count_lines(bytes) > TREE_LIMIT {
        out.append("  ... (truncated)\n");
        proof {
            lemma_encode_concat(body, "  ... (truncated)\n"@);
        }
    }
    proof {
        assert(bytes_of(body) =~= bytes_of(header) + lines);
    }
    out
}

/// Plans the commands on a repository and reports their outcomes.
#[derive(Debug)]
pub struct GitEngine {
    pub repo_path: String,
}

impl GitEngine {
    /// An engine for the repository at `repo_path`.
    pub fn new(repo_path: String) -> (engine: Self)
        ensures
            engine.repo_path@ == repo_path@,
    {
        GitEngine { repo_path }
    }

    /// What a run of the program comes to, from its exit status and what it
    /// printed.
    pub fn outcome(success: bool, stdout: &str, stderr: &str) -> (r: Result<String, String>)
        ensures
            outcome_view(r) == outcome_of(success, stdout@, stderr@),
    {
        if success {
            let out = trim_text(stdout);
            if out.as_str().is_empty() {
                Ok(trim_text(stderr))
            } else {
                Ok(out)
            }
        } else {
            Err(trim_text(stderr))
        }
    }

    /// Reports the outcome of a command in the way that the command asks for.
    pub fn report(&self, rendering: Rendering, outcome: Result<String, String>) -> (r: String)
        ensures
            bytes_of(r@) == report_bytes(self.repo_path@, rendering, outcome_view(outcome)),
    {
        match rendering {
            Rendering::Plain => match outcome {
                Ok(text) => text,
                Err(text) => text,
            },
            Rendering::Status => match outcome {
                Ok(text) => {
                    if text.as_str().is_empty() {
                        String::from_str("Clean working directory")
                    } else {
                        text
                    }
                },
                Err(_) => String::from_str("Clean working directory"),
            },
            Rendering::Diff => match outcome {
                Ok(text) => clip(text),
                Err(text) => clip(text),
            },
            Rendering::Merge => match outcome {
                Ok(text) => text,
                Err(text) => {
                    let mut out = String::from_str("Merge failed (Conflict?): ");
                    out.append(text.as_str());
                    out
                },
            },
            Rendering::Tree(max_depth) => match outcome {
                Ok(text) => render_tree(self.repo_path.as_str(), text.as_str(), max_depth),
                Err(_) => {
                    let none = String::new();
                    render_tree(self.repo_path.as_str(), none.as_str(), max_depth)
                },
            },
        }
    }

    /// The report of an attempt to read a file: the text, or why there is none.
    pub fn read_file(&self, inside: bool, read: Result<String, String>) -> (r: String)
        ensures
            r@ == if !inside {
                "Error: Access denied (path traversal)"@
            } else {
                match read {
                    Ok(text) => text@,
                    Err(reason) => "Error reading file: "@ + reason@,
                }
            },
    {
        if !inside {
            return String::from_str("Error: Access denied (path traversal)");
        }
        match read {
            Ok(text) => text,
            Err(reason) => {
                let mut out = String::from_str("Error reading file: ");
                out.append(reason.as_str());
                out
            },
        }
    }

    /// The report of an attempt to write a file.
    pub fn write_file(&self, rel_path: &str, inside: bool, written: Result<(), String>) -> (r: String)
        ensures
            r@ == if !inside {
                "Error: Access denied (path traversal)"@
            } else {
                match written {
                    Ok(_) => "Successfully wrote to "@ + rel_path@,
                    Err(reason) => "Error writing file: "@ + reason@,
                }
            },
    {
        if !inside {
            return String::from_str("Error: Access denied (path traversal)");
        }
        match written {
            Ok(_) => {
                let mut out = String::from_str("Successfully wrote to ");
                out.append(rel_path);
                out
            },
            Err(reason) => {
                let mut out = String::from_str("Error writing file: ");
                out.append(reason.as_str());
                out
            },
        }
    }

    /// Lists the files, to show them as a tree down to `max_depth`.
    pub fn get_file_tree(&self, max_depth: usize) -> (command: GitCommand)
        ensures
            is_command(command, tree_args(), Rendering::Tree(max_depth)),
    {
        let mut args: Vec<String> = Vec::new();
        args.push(String::from_str("ls-files"));
        assert(arg_views(args@) =~= seq!["ls-files"@]);
        GitCommand { args, rendering: Rendering::Tree(max_depth) }
    }

    /// Asks for the status of the working directory.
    pub fn status(&self) -> (command: GitCommand)
        ensures
            is_command(command, status_args(), Rendering::Status),
    {
        let mut args: Vec<String> = Vec::new();
        args.push(String::from_str("status"));
        assert(arg_views(args@) =~= seq!["status"@]);
        GitCommand { args, rendering: Rendering::Status }
    }

    /// Asks for the changes: the staged ones for `staged`, those of the
    /// working directory for `unstaged`, and else those against `target`.
    pub fn diff(&self, target: &str) -> (command: GitCommand)
        ensures
            is_command(command, diff_args(target@), Rendering::Diff),
    {
        let mut args: Vec<String> = Vec::new();
        args.push(String::from_str("diff"));
        if str_eq(target, "staged") {
            args.push(String::from_str("--staged"));
            assert(arg_views(args@) =~= seq!["diff"@, "--staged"@]);
        } else if !str_eq(target, "unstaged") {
            args.push(String::from_str(target));
            assert(arg_views(args@) =~= seq!["diff"@, target@]);
        } else {
            assert(arg_views(args@) =~= seq!["diff"@]);
        }
        GitCommand { args, rendering: Rendering::Diff }
    }

    /// Commits what is staged with a message.
    pub fn commit(&self, msg: &str) -> (command: GitCommand)
        ensures
            is_command(command, commit_args(msg@), Rendering::Plain),
    {
        let mut args: Vec<String> = Vec::new();
        args.push(String::from_str("commit"));
        args.push(String::from_str("-m"));
        args.push(String::from_str(msg));
        assert(arg_views(args@) =~= seq!["commit"@, "-m"@, msg@]);
        GitCommand { args, rendering: Rendering::Plain }
    }

    /// Stages files: the named ones, or everything where none is named or
    /// the only name is a full stop.
    pub fn add(&self, files: Vec<String>) -> (command: GitCommand)
        ensures
            is_command(command, add_args(arg_views(files@)), Rendering::Plain),
    {
        let mut args: Vec<String> = Vec::new();
        args.push(String::from_str("add"));
        if files.len() == 0 || (files.len() == 1 && str_eq(files[0].as_str(), ".")) {
            args.push(String::from_str("."));
            assert(arg_views(args@) =~= seq!["add"@, "."@]);
        } else {
            let mut i: usize = 0;
            assert(arg_views(args@) =~= seq!["add"@] + arg_views(files@.subrange(0, 0)));
            while i < files.len()
                invariant
                    i <= files@.len(),
                    arg_views(args@) == seq!["add"@] + arg_views(files@.subrange(0, i as int)),
                decreases files@.len() - i,
            {
                let ghost before = args@;
                args.push(files[i].clone());
                proof {
                    let target = seq!["add"@] + arg_views(files@.subrange(0, i + 1));
                    assert(arg_views(before).len() == i + 1);
                    assert forall|k: int| 0 <= k < args@.len() implies arg_views(args@)[k] == target[k] by {
                        if k < before.len() {
                            assert(arg_views(args@)[k] == arg_views(before)[k]);
                            if k > 0 {
                                assert(arg_views(files@.subrange(0, i as int))[k - 1] == files@[k - 1]@);
                            }
                        }
                    }
                    assert(arg_views(args@) =~= target);
                }
                i = i + 1;
            }
            assert(files@.subrange(0, files@.len() as int) =~= files@);
        }
        GitCommand { args, rendering: Rendering::Plain }
    }

    /// Asks for the last `count` commits, one line each, as a graph.
    pub fn log(&self, count: usize) -> (command: GitCommand)
        ensures
            is_command(command, log_args(count as nat), Rendering::Plain),
    {
        let mut number = String::from_str("-");
        number.append(decimal_text(count).as_str());
        let mut args: Vec<String> = Vec::new();
        args.push(String::from_str("log"));
        args.push(String::from_str("--oneline"));
        args.push(number);
        args.push(String::from_str("--graph"));
        args.push(String::from_str("--decorate"));
        assert(arg_views(args@) =~= seq![
            "log"@,
            "--oneline"@,
            "-"@ + decimal(count as nat),
            "--graph"@,
            "--decorate"@,
        ]);
        GitCommand { args, rendering: Rendering::Plain }
    }

    /// Switches to a branch, which is made first where `create` is set.
    pub fn checkout(&self, branch: &str, create: bool) -> (command: GitCommand)
        ensures
            is_command(command, checkout_args(branch@, create), Rendering::Plain),
    {
        let mut args: Vec<String> = Vec::new();
        args.push(String::from_str("checkout"));
        if create {
            args.push(String::from_str("-b"));
        }
        args.push(String::from_str(branch));
        assert(arg_views(args@) =~= if create {
            seq!["checkout"@, "-b"@, branch@]
        } else {
            seq!["checkout"@, branch@]
        });
        GitCommand { args, rendering: Rendering::Plain }
    }

    /// Pushes a branch to a remote.
    pub fn push(&self, remote: &str, branch: &str) -> (command: GitCommand)
        ensures
            is_command(command, push_args(remote@, branch@), Rendering::Plain),
    {
        let mut args: Vec<String> = Vec::new();
        args.push(String::from_str("push"));
        args.push(String::from_str(remote));
        args.push(String::from_str(branch));
        assert(arg_views(args@) =~= seq!["push"@, remote@, branch@]);
        GitCommand { args, rendering: Rendering::Plain }
    }

    /// Pulls a branch from a remote.
    pub fn pull(&self, remote: &str, branch: &str) -> (command: GitCommand)
        ensures
            is_command(command, pull_args(remote@, branch@), Rendering::Plain),
    {
        let mut args: Vec<String> = Vec::new();
        args.push(String::from_str("pull"));
        args.push(String::from_str(remote));
        args.push(String::from_str(branch));
        assert(arg_views(args@) =~= seq!["pull"@, remote@, branch@]);
        GitCommand { args, rendering: Rendering::Plain }
    }

    /// Merges a branch into the current one.
    pub fn merge(&self, branch: &str) -> (command: GitCommand)
        ensures
            is_command(command, merge_args(branch@), Rendering::Merge),
    {
        let mut args: Vec<String> = Vec::new();
        args.push(String::from_str("merge"));
        args.push(String::from_str(branch));
        assert(arg_views(args@) =~= seq!["merge"@, branch@]);
        GitCommand { args, rendering: Rendering::Merge }
    }

    /// Stashes the changes, or for `pop` and `list` takes the last stash back
    /// or lists the stashes.
    pub fn stash(&self, action: &str) -> (command: GitCommand)
        ensures
            is_command(command, stash_args(action@), Rendering::Plain),
    {
        let mut args: Vec<String> = Vec::new();
        args.push(String::from_str("stash"));
        if str_eq(action, "pop") {
            args.push(String::from_str("pop"));
            assert(arg_views(args@) =~= seq!["stash"@, "pop"@]);
        } else if str_eq(action, "list") {
            args.push(String::from_str("list"));
            assert(arg_views(args@) =~= seq!["stash"@, "list"@]);
        } else {
            assert(arg_views(args@) =~= seq!["stash"@]);
        }
        GitCommand { args, rendering: Rendering::Plain }
    }

    /// Resets the current branch to a target, the working directory too where
    /// `hard` is set.
    pub fn reset(&self, target: &str, hard: bool) -> (command: GitCommand)
        ensures
            is_command(command, reset_args(target@, hard), Rendering::Plain),
    {
        let mut args: Vec<String> = Vec::new();
        args.push(String::from_str("reset"));
        if hard {
            args.push(String::from_str("--hard"));
        }
        args.push(String::from_str(target));
        assert(arg_views(args@) =~= if hard {
            seq!["reset"@, "--hard"@, target@]
        } else {
            seq!["reset"@, target@]
        });
        GitCommand { args, rendering: Rendering::Plain }
    }

    /// Lists the branches with what they track.
    pub fn branch_list(&self) -> (command: GitCommand)
        ensures
            is_command(command, branch_list_args(), Rendering::Plain),
    {
        let mut args: Vec<String> = Vec::new();
        args.push(String::from_str("branch"));
        args.push(String::from_str("-vv"));
        assert(arg_views(args@) =~= seq!["branch"@, "-vv"@]);
        GitCommand { args, rendering: Rendering::Plain }
    }
}

} // verus!
