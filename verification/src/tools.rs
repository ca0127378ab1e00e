//! The tools that an assistant can call, and what a call of one comes to.
//!
//! A call names a tool and brings arguments. The library turns it into the
//! operation to carry out, with the defaults for the arguments that are
//! missing; carrying it out is left to the caller.

use vstd::prelude::*;
use vstd::string::*;
use crate::git::{
    add_args, arg_views, branch_list_args, checkout_args, commit_args, diff_args, is_command, log_args,
    merge_args, pull_args, push_args, reset_args, stash_args, status_args, tree_args, GitCommand,
    GitEngine, Rendering,
};
use crate::text::str_eq;

verus! {

/// How many matches a search by a tool shows.
pub const SEARCH_LIMIT: usize = 3;

/// The kind of value that a parameter of a tool takes.
#[derive(Clone, Copy, Debug, PartialEq, Eq, Structural)]
pub enum ParameterKind {
    Integer,
    Text,
    Boolean,
    TextList,
}

/// A parameter of a tool.
#[derive(Clone, Copy, Debug)]
pub struct ToolParameter {
    pub name: &'static str,
    pub kind: ParameterKind,
    pub required: bool,
}

/// A tool as it is offered: its name, what it is for and what it takes.
#[derive(Debug)]
pub struct ToolDefinition {
    pub name: &'static str,
    pub description: &'static str,
    pub parameters: Vec<ToolParameter>,
}

/// The arguments of a call, each present or missing.
#[derive(Debug)]
pub struct ToolArgs {
    pub max_depth: Option<u64>,
    pub path: Option<String>,
    pub content: Option<String>,
    pub message: Option<String>,
    pub files: Option<Vec<Option<String>>>,
    pub target: Option<String>,
    pub count: Option<u64>,
    pub branch: Option<String>,
    pub create_new: Option<bool>,
    pub remote: Option<String>,
    pub action: Option<String>,
    pub hard: Option<bool>,
    pub query: Option<String>,
}

/// What a call of a tool comes to.
#[derive(Debug)]
pub enum ToolCall {
    /// Run a command and report its outcome.
    Git(GitCommand),
    /// Show the skeleton of the file at a path.
    Skeleton(String),
    /// Read the file at a path.
    Read(String),
    /// Write a text to the file at a path.
    Write(String, String),
    /// Search the index for a query and show so many matches.
    Search(String, usize),
    /// There is no such tool; the message says so.
    NotFound(String),
}

/// The names of the tools, in the order in which they are offered.
pub open spec fn tool_names() -> Seq<Seq<char>> {
    seq![
        "get_project_structure"@,
        "inspect_file_interface"@,
        "read_file"@,
        "write_file"@,
        "git_status"@,
        "git_add"@,
        "git_commit"@,
        "view_diff"@,
        "git_log"@,
        "git_checkout"@,
        "git_branch_list"@,
        "git_merge"@,
        "git_push"@,
        "git_pull"@,
        "git_stash"@,
        "git_reset"@,
        "semantic_search"@,
    ]
}

/// Whether a tool of this name is offered.
pub open spec fn known_tool(name: Seq<char>) -> bool {
    exists|i: int| 0 <= i < tool_names().len() && tool_names()[i] == name
}

/// A text argument, or the default where it is missing.
pub open spec fn text_or(value: Option<String>, default: Seq<char>) -> Seq<char> {
    match value {
        Some(text) => text@,
        None => default,
    }
}

/// A number argument, or the default where it is missing.
pub open spec fn number_or(value: Option<u64>, default: u64) -> usize {
    match value {
        Some(number) => number as usize,
        None => default as usize,
    }
}

/// A switch, off where it is missing.
pub open spec fn flag_or_off(value: Option<bool>) -> bool {
    match value {
        Some(flag) => flag,
        None => false,
    }
}

/// The files named in a call: an entry that is no text stands for everything.
pub open spec fn named_files(value: Option<Vec<Option<String>>>) -> Seq<Seq<char>> {
    match value {
        Some(files) => Seq::new(files@.len(), |i: int| text_or(files@[i], "."@)),
        None => Seq::empty(),
    }
}

/// The call comes to this command.
pub open spec fn runs(call: ToolCall, args: Seq<Seq<char>>, rendering: Rendering) -> bool {
    call matches ToolCall::Git(command) && is_command(command, args, rendering)
}

/// What the call of a tool comes to.
pub open spec fn comes_to(name: Seq<char>, args: ToolArgs, call: ToolCall) -> bool {
    if name == "get_project_structure"@ {
        runs(call, tree_args(), Rendering::Tree(number_or(args.max_depth, 2)))
    } else if name == "inspect_file_interface"@ {
        call matches ToolCall::Skeleton(path) && path@ == text_or(args.path, ""@)
    } else if name == "read_file"@ {
        call matches ToolCall::Read(path) && path@ == text_or(args.path, ""@)
    } else if name == "write_file"@ {
        call matches ToolCall::Write(path, content) && path@ == text_or(args.path, ""@) && content@
            == text_or(args.content, ""@)
    } else if name == "git_status"@ {
        runs(call, status_args(), Rendering::Status)
    } else if name == "git_commit"@ {
        runs(call, commit_args(text_or(args.message, "update"@)), Rendering::Plain)
    } else if name == "git_add"@ {
        runs(call, add_args(named_files(args.files)), Rendering::Plain)
    } else if name == "view_diff"@ {
        runs(call, diff_args(text_or(args.target, "unstaged"@)), Rendering::Diff)
    } else if name == "git_log"@ {
        runs(call, log_args(number_or(args.count, 5) as nat), Rendering::Plain)
    } else if name == "git_checkout"@ {
        runs(
            call,
            checkout_args(text_or(args.branch, "main"@), flag_or_off(args.create_new)),
            Rendering::Plain,
        )
    } else if name == "git_branch_list"@ {
        runs(call, branch_list_args(), Rendering::Plain)
    } else if name == "git_merge"@ {
        runs(call, merge_args(text_or(args.branch, ""@)), Rendering::Merge)
    } else if name == "git_push"@ {
        runs(call, push_args(text_or(args.remote, "origin"@), text_or(args.branch, "main"@)), Rendering::Plain)
    } else if name == "git_pull"@ {
        runs(call, pull_args(text_or(args.remote, "origin"@), text_or(args.branch, "main"@)), Rendering::Plain)
    } else if name == "git_stash"@ {
        runs(call, stash_args(text_or(args.action, "push"@)), Rendering::Plain)
    } else if name == "git_reset"@ {
        runs(call, reset_args(text_or(args.target, "HEAD"@), flag_or_off(args.hard)), Rendering::Plain)
    } else if name == "semantic_search"@ {
        call matches ToolCall::Search(query, limit) && query@ == text_or(args.query, ""@) && limit
            == SEARCH_LIMIT
    } else {
        call matches ToolCall::NotFound(message) && message@ == "Tool "@ + name + " not found"@
    }
}

fn text_of(value: &Option<String>, default: &str) -> (r: String)
    ensures
        r@ == text_or(*value, default@),
{
    match value {
        Some(text) => text.clone(),
        None => String::from_str(default),
    }
}

fn number_of(value: &Option<u64>, default: u64) -> (r: usize)
    ensures
        r == number_or(*value, default),
{
    match value {
        Some(number) => #[verifier::truncate]
        (*number as usize),
        None => #[verifier::truncate]
        (default as usize),
    }
}

fn flag_of(value: &Option<bool>) -> (r: bool)
    ensures
        r == flag_or_off(*value),
{
    match value {
        Some(flag) => *flag,
        None => false,
    }
}

fn files_of(value: &Option<Vec<Option<String>>>) -> (r: Vec<String>)
    ensures
        arg_views(r@) == named_files(*value),
{
    let mut out: Vec<String> = Vec::new();
    match value {
        None => {
            assert(arg_views(out@) =~= named_files(*value));
        },
        Some(files) => {
            let mut i: usize = 0;
            while i < files.len()
                invariant
                    i <= files@.len(),
                    out@.len() == i,
                    forall|k: int| 0 <= k < i ==> out@[k]@ == text_or(files@[k], "."@),
                decreases files@.len() - i,
            {
                out.push(text_of(&files[i], "."));
                i = i + 1;
            }
            assert(arg_views(out@) =~= named_files(*value));
        },
    }
    out
}

/// Turns the call of a tool into the operation to carry out.
pub fn dispatch(name: &str, args: &ToolArgs, git: &GitEngine) -> (call: ToolCall)
    ensures
        comes_to(name@, *args, call),
{
    if str_eq(name, "get_project_structure") {
        ToolCall::Git(git.get_file_tree(number_of(&args.max_depth, 2)))
    } else if str_eq(name, "inspect_file_interface") {
        ToolCall::Skeleton(text_of(&args.path, ""))
    } else if str_eq(name, "read_file") {
        ToolCall::Read(text_of(&args.path, ""))
    } else if str_eq(name, "write_file") {
        ToolCall::Write(text_of(&args.path, ""), text_of(&args.content, ""))
    } else if str_eq(name, "git_status") {
        ToolCall::Git(git.status())
    } else if str_eq(name, "git_commit") {
        ToolCall::Git(git.commit(text_of(&args.message, "update").as_str()))
    } else if str_eq(name, "git_add") {
        ToolCall::Git(git.add(files_of(&args.files)))
    } else if str_eq(name, "view_diff") {
        ToolCall::Git(git.diff(text_of(&args.target, "unstaged").as_str()))
    } else if str_eq(name, "git_log") {
        ToolCall::Git(git.log(number_of(&args.count, 5)))
    } else if str_eq(name, "git_checkout") {
        ToolCall::Git(git.checkout(text_of(&args.branch, "main").as_str(), flag_of(&args.create_new)))
    } else if str_eq(name, "git_branch_list") {
        ToolCall::Git(git.branch_list())
    } else if str_eq(name, "git_merge") {
        ToolCall::Git(git.merge(text_of(&args.branch, "").as_str()))
    } else if str_eq(name, "git_push") {
        ToolCall::Git(
            git.push(text_of(&args.remote, "origin").as_str(), text_of(&args.branch, "main").as_str()),
        )
    } else if str_eq(name, "git_pull") {
        ToolCall::Git(
            git.pull(text_of(&args.remote, "origin").as_str(), text_of(&args.branch, "main").as_str()),
        )
    } else if str_eq(name, "git_stash") {
        ToolCall::Git(git.stash(text_of(&args.action, "push").as_str()))
    } else if str_eq(name, "git_reset") {
        ToolCall::Git(git.reset(text_of(&args.target, "HEAD").as_str(), flag_of(&args.hard)))
    } else if str_eq(name, "semantic_search") {
        ToolCall::Search(text_of(&args.query, ""), SEARCH_LIMIT)
    } else {
        let mut message = String::from_str("Tool ");
        message.append(name);
        message.append(" not found");
        ToolCall::NotFound(message)
    }
}

/// A call is answered with "not found" exactly for the names of no tool.
pub proof fn lemma_known_tools_are_dispatched(name: Seq<char>, args: ToolArgs, call: ToolCall)
    requires
        comes_to(name, args, call),
    ensures
        call is NotFound <==> !known_tool(name),
{
    let names = tool_names();
    if call is NotFound {
        assert forall|i: int| 0 <= i < names.len() implies names[i] != name by {}
    } else {
        if name == "get_project_structure"@ {
            assert(names[0] == name);
        } else if name == "inspect_file_interface"@ {
            assert(names[1] == name);
        } else if name == "read_file"@ {
            assert(names[2] == name);
        } else if name == "write_file"@ {
            assert(names[3] == name);
        } else if name == "git_status"@ {
            assert(names[4] == name);
        } else if name == "git_commit"@ {
            assert(names[6] == name);
        } else if name == "git_add"@ {
            assert(names[5] == name);
        } else if name == "view_diff"@ {
            assert(names[7] == name);
        } else if name == "git_log"@ {
            assert(names[8] == name);
        } else if name == "git_checkout"@ {
            assert(names[9] == name);
        } else if name == "git_branch_list"@ {
            assert(names[10] == name);
        } else if name == "git_merge"@ {
            assert(names[11] == name);
        } else if name == "git_push"@ {
            assert(names[12] == name);
        } else if name == "git_pull"@ {
            assert(names[13] == name);
        } else if name == "git_stash"@ {
            assert(names[14] == name);
        } else if name == "git_reset"@ {
            assert(names[15] == name);
        } else {
            assert(names[16] == name);
        }
    }
}

fn parameter(name: &'static str, kind: ParameterKind, required: bool) -> (r: ToolParameter)
    ensures
        r.name@ == name@,
        r.kind == kind,
        r.required == required,
{
    ToolParameter { name, kind, required }
}

fn tool(name: &'static str, description: &'static str, parameters: Vec<ToolParameter>) -> (r: ToolDefinition)
    ensures
        r.name@ == name@,
        r.description@ == description@,
        r.parameters@ == parameters@,
{
    ToolDefinition { name, description, parameters }
}

/// The names of tool definitions.
pub open spec fn defined_names(tools: Seq<ToolDefinition>) -> Seq<Seq<char>> {
    tools.map_values(|t: ToolDefinition| t.name@)
}

/// The tools that are offered, each with its parameters.
pub fn get_tool_definitions() -> (tools: Vec<ToolDefinition>)
    ensures
        defined_names(tools@) == tool_names(),
{
    let mut tools: Vec<ToolDefinition> = Vec::new();
    tools.push(
        tool(
            "get_project_structure",
            "See the folder layout (file names only).",
            vec![parameter("max_depth", ParameterKind::Integer, false)],
        ),
    );
    tools.push(
        tool(
            "inspect_file_interface",
            "See code skeleton (classes/funcs) without reading the whole body.",
            vec![parameter("path", ParameterKind::Text, true)],
        ),
    );
    tools.push(tool("read_file", "Read full file content.", vec![parameter("path", ParameterKind::Text, true)]));
    tools.push(
        tool(
            "write_file",
            "Overwrite a file with new content. Use this to resolve merge conflicts or fix code.",
            vec![parameter("path", ParameterKind::Text, true), parameter("content", ParameterKind::Text, true)],
        ),
    );
    tools.push(tool("git_status", "Check git status (staged/unstaged changes).", Vec::new()));
    tools.push(
        tool("git_add", "Stage files for commit.", vec![parameter("files", ParameterKind::TextList, true)]),
    );
    tools.push(
        tool("git_commit", "Commit staged changes.", vec![parameter("message", ParameterKind::Text, true)]),
    );
    tools.push(
        tool(
            "view_diff",
            "View changes. Target can be 'staged', 'unstaged', or a branch/commit hash.",
            vec![parameter("target", ParameterKind::Text, false)],
        ),
    );
    tools.push(tool("git_log", "View commit history.", vec![parameter("count", ParameterKind::Integer, false)]));
    tools.push(
        tool(
            "git_checkout",
            "Switch branches or create a new one.",
            vec![
                parameter("branch", ParameterKind::Text, true),
                parameter("create_new", ParameterKind::Boolean, false),
            ],
        ),
    );
    tools.push(tool("git_branch_list", "List all local branches.", Vec::new()));
    tools.push(
        tool(
            "git_merge",
            "Merge a branch into the current one.",
            vec![parameter("branch", ParameterKind::Text, true)],
        ),
    );
    tools.push(
        tool(
            "git_push",
            "Push commits to remote.",
            vec![parameter("remote", ParameterKind::Text, true), parameter("branch", ParameterKind::Text, true)],
        ),
    );
    tools.push(
        tool(
            "git_pull",
            "Pull changes from remote.",
            vec![parameter("remote", ParameterKind::Text, true), parameter("branch", ParameterKind::Text, true)],
        ),
    );
    tools.push(
        tool(
            "git_stash",
            "Stash changes. Actions: 'push', 'pop', 'list'.",
            vec![parameter("action", ParameterKind::Text, true)],
        ),
    );
    tools.push(
        tool(
            "git_reset",
            "Reset current HEAD to a state.",
            vec![parameter("target", ParameterKind::Text, true), parameter("hard", ParameterKind::Boolean, false)],
        ),
    );
    tools.push(
        tool(
            "semantic_search",
            "Search the codebase by meaning. Use this when you don't know the exact file. E.g., 'How is auth retried?'",
            vec![parameter("query", ParameterKind::Text, true)],
        ),
    );
    assert(defined_names(tools@) =~= tool_names());
    tools
}

} // verus!
