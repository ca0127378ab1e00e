use git_agent::git::{GitEngine, Rendering};
use git_agent::tools::{dispatch, get_tool_definitions, ParameterKind, ToolArgs, ToolCall};

fn no_args() -> ToolArgs {
    ToolArgs {
        max_depth: None,
        path: None,
        content: None,
        message: None,
        files: None,
        target: None,
        count: None,
        branch: None,
        create_new: None,
        remote: None,
        action: None,
        hard: None,
        query: None,
    }
}

fn engine() -> GitEngine {
    GitEngine::new("/repo".to_string())
}

fn command(name: &str, args: &ToolArgs) -> (Vec<String>, Rendering) {
    match dispatch(name, args, &engine()) {
        ToolCall::Git(command) => (command.args, command.rendering),
        other => panic!("{} came to {:?}", name, other),
    }
}

fn texts(items: &[&str]) -> Vec<String> {
    items.iter().map(|s| s.to_string()).collect()
}

#[test]
fn dispatch_uses_the_defaults_for_missing_arguments() {
    let none = no_args();
    assert_eq!(command("get_project_structure", &none), (texts(&["ls-files"]), Rendering::Tree(2)));
    assert_eq!(command("git_status", &none), (texts(&["status"]), Rendering::Status));
    assert_eq!(command("git_commit", &none), (texts(&["commit", "-m", "update"]), Rendering::Plain));
    assert_eq!(command("git_add", &none), (texts(&["add", "."]), Rendering::Plain));
    assert_eq!(command("view_diff", &none), (texts(&["diff"]), Rendering::Diff));
    assert_eq!(
        command("git_log", &none),
        (texts(&["log", "--oneline", "-5", "--graph", "--decorate"]), Rendering::Plain)
    );
    assert_eq!(command("git_checkout", &none), (texts(&["checkout", "main"]), Rendering::Plain));
    assert_eq!(command("git_branch_list", &none), (texts(&["branch", "-vv"]), Rendering::Plain));
    assert_eq!(command("git_merge", &none), (texts(&["merge", ""]), Rendering::Merge));
    assert_eq!(command("git_push", &none), (texts(&["push", "origin", "main"]), Rendering::Plain));
    assert_eq!(command("git_pull", &none), (texts(&["pull", "origin", "main"]), Rendering::Plain));
    assert_eq!(command("git_stash", &none), (texts(&["stash"]), Rendering::Plain));
    assert_eq!(command("git_reset", &none), (texts(&["reset", "HEAD"]), Rendering::Plain));
}

#[test]
fn dispatch_passes_the_arguments_of_the_call() {
    let mut args = no_args();
    args.max_depth = Some(4);
    args.message = Some("fix".to_string());
    args.files = Some(vec![Some("a.rs".to_string()), None]);
    args.target = Some("staged".to_string());
    args.count = Some(12);
    args.branch = Some("dev".to_string());
    args.create_new = Some(true);
    args.remote = Some("fork".to_string());
    args.action = Some("pop".to_string());
    args.hard = Some(true);
    assert_eq!(command("get_project_structure", &args).1, Rendering::Tree(4));
    assert_eq!(command("git_commit", &args).0, texts(&["commit", "-m", "fix"]));
    assert_eq!(command("git_add", &args).0, texts(&["add", "a.rs", "."]));
    assert_eq!(command("view_diff", &args).0, texts(&["diff", "--staged"]));
    assert_eq!(command("git_log", &args).0[2], "-12");
    assert_eq!(command("git_checkout", &args).0, texts(&["checkout", "-b", "dev"]));
    assert_eq!(command("git_merge", &args).0, texts(&["merge", "dev"]));
    assert_eq!(command("git_push", &args).0, texts(&["push", "fork", "dev"]));
    assert_eq!(command("git_pull", &args).0, texts(&["pull", "fork", "dev"]));
    assert_eq!(command("git_stash", &args).0, texts(&["stash", "pop"]));
    assert_eq!(command("git_reset", &args).0, texts(&["reset", "--hard", "staged"]));
}

#[test]
fn dispatch_of_file_tools_names_the_path() {
    let mut args = no_args();
    assert!(matches!(dispatch("read_file", &args, &engine()), ToolCall::Read(p) if p.is_empty()));
    args.path = Some("src/a.rs".to_string());
    args.content = Some("text".to_string());
    assert!(matches!(dispatch("inspect_file_interface", &args, &engine()), ToolCall::Skeleton(p) if p == "src/a.rs"));
    assert!(matches!(dispatch("read_file", &args, &engine()), ToolCall::Read(p) if p == "src/a.rs"));
    assert!(
        matches!(dispatch("write_file", &args, &engine()), ToolCall::Write(p, c) if p == "src/a.rs" && c == "text")
    );
}

#[test]
fn dispatch_of_a_search_shows_three_matches() {
    let mut args = no_args();
    args.query = Some("where is auth retried".to_string());
    assert!(
        matches!(dispatch("semantic_search", &args, &engine()), ToolCall::Search(q, 3) if q == "where is auth retried")
    );
}

#[test]
fn dispatch_of_an_unknown_tool_says_so() {
    assert!(
        matches!(dispatch("git_rebase", &no_args(), &engine()), ToolCall::NotFound(m) if m == "Tool git_rebase not found")
    );
    assert!(matches!(dispatch("", &no_args(), &engine()), ToolCall::NotFound(m) if m == "Tool  not found"));
}

#[test]
fn every_tool_that_is_offered_can_be_called() {
    let tools = get_tool_definitions();
    assert_eq!(tools.len(), 17);
    for tool in &tools {
        assert!(!matches!(dispatch(tool.name, &no_args(), &engine()), ToolCall::NotFound(_)), "{}", tool.name);
        assert!(!tool.description.is_empty());
    }
    let checkout = tools.iter().find(|t| t.name == "git_checkout").unwrap();
    assert_eq!(checkout.parameters.len(), 2);
    assert_eq!(checkout.parameters[0].name, "branch");
    assert!(checkout.parameters[0].required);
    assert_eq!(checkout.parameters[1].kind, ParameterKind::Boolean);
    assert!(!checkout.parameters[1].required);
}
