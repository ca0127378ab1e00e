use git_agent::git::{GitCommand, GitEngine, Rendering};

fn engine() -> GitEngine {
    GitEngine::new("/home/user/project".to_string())
}

fn args(command: &GitCommand) -> Vec<&str> {
    command.args.iter().map(|s| s.as_str()).collect()
}

#[test]
fn status_asks_for_the_status() {
    let command = engine().status();
    assert_eq!(args(&command), vec!["status"]);
    assert_eq!(command.rendering, Rendering::Status);
}

#[test]
fn diff_chooses_its_arguments_by_the_target() {
    assert_eq!(args(&engine().diff("staged")), vec!["diff", "--staged"]);
    assert_eq!(args(&engine().diff("unstaged")), vec!["diff"]);
    assert_eq!(args(&engine().diff("main")), vec!["diff", "main"]);
    assert_eq!(engine().diff("main").rendering, Rendering::Diff);
}

#[test]
fn commit_passes_the_message() {
    let command = engine().commit("fix the parser");
    assert_eq!(args(&command), vec!["commit", "-m", "fix the parser"]);
    assert_eq!(command.rendering, Rendering::Plain);
}

#[test]
fn add_stages_everything_without_names() {
    assert_eq!(args(&engine().add(vec![])), vec!["add", "."]);
    assert_eq!(args(&engine().add(vec![".".to_string()])), vec!["add", "."]);
}

#[test]
fn add_stages_the_named_files() {
    let command = engine().add(vec!["a.rs".to_string(), "b.rs".to_string()]);
    assert_eq!(args(&command), vec!["add", "a.rs", "b.rs"]);
    let command = engine().add(vec![".".to_string(), "b.rs".to_string()]);
    assert_eq!(args(&command), vec!["add", ".", "b.rs"]);
    let command = engine().add(vec!["a.rs".to_string()]);
    assert_eq!(args(&command), vec!["add", "a.rs"]);
}

#[test]
fn log_asks_for_a_number_of_commits() {
    let command = engine().log(5);
    assert_eq!(args(&command), vec!["log", "--oneline", "-5", "--graph", "--decorate"]);
    assert_eq!(args(&engine().log(120))[2], "-120");
}

#[test]
fn checkout_creates_a_branch_on_request() {
    assert_eq!(args(&engine().checkout("dev", false)), vec!["checkout", "dev"]);
    assert_eq!(args(&engine().checkout("dev", true)), vec!["checkout", "-b", "dev"]);
}

#[test]
fn push_and_pull_name_remote_and_branch() {
    assert_eq!(args(&engine().push("origin", "main")), vec!["push", "origin", "main"]);
    assert_eq!(args(&engine().pull("origin", "main")), vec!["pull", "origin", "main"]);
}

#[test]
fn merge_reports_a_failure_as_such() {
    let command = engine().merge("feature");
    assert_eq!(args(&command), vec!["merge", "feature"]);
    assert_eq!(command.rendering, Rendering::Merge);
    assert_eq!(engine().report(command.rendering, Ok("Fast-forward".to_string())), "Fast-forward");
    assert_eq!(
        engine().report(command.rendering, Err("CONFLICT in a.rs".to_string())),
        "Merge failed (Conflict?): CONFLICT in a.rs"
    );
}

#[test]
fn stash_chooses_its_arguments_by_the_action() {
    assert_eq!(args(&engine().stash("pop")), vec!["stash", "pop"]);
    assert_eq!(args(&engine().stash("list")), vec!["stash", "list"]);
    assert_eq!(args(&engine().stash("push")), vec!["stash"]);
    assert_eq!(args(&engine().stash("")), vec!["stash"]);
}

#[test]
fn reset_is_hard_on_request() {
    assert_eq!(args(&engine().reset("HEAD", false)), vec!["reset", "HEAD"]);
    assert_eq!(args(&engine().reset("HEAD~1", true)), vec!["reset", "--hard", "HEAD~1"]);
}

#[test]
fn branch_list_lists_the_branches() {
    assert_eq!(args(&engine().branch_list()), vec!["branch", "-vv"]);
}

#[test]
fn plain_report_is_the_output_or_the_error() {
    assert_eq!(engine().report(Rendering::Plain, Ok("done".to_string())), "done");
    assert_eq!(engine().report(Rendering::Plain, Err("fatal: no".to_string())), "fatal: no");
}

#[test]
fn status_report_notes_a_clean_directory() {
    assert_eq!(engine().report(Rendering::Status, Ok("".to_string())), "Clean working directory");
    assert_eq!(engine().report(Rendering::Status, Err("fatal".to_string())), "Clean working directory");
    assert_eq!(engine().report(Rendering::Status, Ok("On branch main".to_string())), "On branch main");
}

#[test]
fn diff_report_is_cut_behind_the_limit() {
    let short = "x".repeat(3000);
    assert_eq!(engine().report(Rendering::Diff, Ok(short.clone())), short);
    let long = "x".repeat(3001);
    let expected = format!("{}\n...[Diff truncated to 3000 chars]", "x".repeat(3000));
    assert_eq!(engine().report(Rendering::Diff, Ok(long.clone())), expected);
    assert_eq!(engine().report(Rendering::Diff, Err(long)), expected);
}

#[test]
fn diff_report_is_cut_in_front_of_a_character_across_the_limit() {
    let long = format!("{}\u{e9}tail", "x".repeat(2999));
    let expected = format!("{}\n...[Diff truncated to 3000 chars]", "x".repeat(2999));
    assert_eq!(engine().report(Rendering::Diff, Ok(long)), expected);
}

#[test]
fn get_file_tree_lists_the_files() {
    let command = engine().get_file_tree(2);
    assert_eq!(args(&command), vec!["ls-files"]);
    assert_eq!(command.rendering, Rendering::Tree(2));
}

#[test]
fn tree_report_indents_by_depth_and_hides_deep_files() {
    let listing = "Cargo.toml\nsrc/main.rs\nsrc/deep/mod.rs".to_string();
    let report = engine().report(Rendering::Tree(2), Ok(listing));
    assert_eq!(
        report,
        "\u{1F4C2} project/\n  \u{1F4C4} Cargo.toml\n    \u{1F4C4} src/main.rs\n"
    );
}

#[test]
fn tree_report_of_a_failed_listing_shows_the_root_only() {
    assert_eq!(engine().report(Rendering::Tree(3), Err("fatal".to_string())), "\u{1F4C2} project/\n");
    assert_eq!(engine().report(Rendering::Tree(3), Ok(String::new())), "\u{1F4C2} project/\n");
    assert_eq!(engine().report(Rendering::Tree(0), Ok("a\nb".to_string())), "\u{1F4C2} project/\n");
}

#[test]
fn tree_report_shows_fifty_files_and_notes_the_rest() {
    let names: Vec<String> = (0..51).map(|i| format!("f{}", i)).collect();
    let report = engine().report(Rendering::Tree(1), Ok(names.join("\n")));
    let mut expected = String::from("\u{1F4C2} project/\n");
    for name in names.iter().take(50) {
        expected.push_str(&format!("  \u{1F4C4} {}\n", name));
    }
    expected.push_str("  ... (truncated)\n");
    assert_eq!(report, expected);
    let fifty = engine().report(Rendering::Tree(1), Ok(names[..50].join("\n")));
    assert!(!fifty.contains("truncated"));
    assert_eq!(fifty.lines().count(), 51);
}

#[test]
fn outcome_trims_and_prefers_the_output() {
    assert_eq!(GitEngine::outcome(true, "  out \n", " err "), Ok("out".to_string()));
    assert_eq!(GitEngine::outcome(true, " \n", " pushed \n"), Ok("pushed".to_string()));
    assert_eq!(GitEngine::outcome(false, "out", " fatal: bad \n"), Err("fatal: bad".to_string()));
}

#[test]
fn read_file_reports_the_text_or_the_reason() {
    assert_eq!(engine().read_file(true, Ok("text".to_string())), "text");
    assert_eq!(engine().read_file(true, Err("gone".to_string())), "Error reading file: gone");
    assert_eq!(engine().read_file(false, Ok("text".to_string())), "Error: Access denied (path traversal)");
}

#[test]
fn write_file_reports_success_or_the_reason() {
    assert_eq!(engine().write_file("a.rs", true, Ok(())), "Successfully wrote to a.rs");
    assert_eq!(engine().write_file("a.rs", true, Err("full".to_string())), "Error writing file: full");
    assert_eq!(engine().write_file("a.rs", false, Ok(())), "Error: Access denied (path traversal)");
}

#[test]
fn outcome_trims_every_kind_of_white_space() {
    assert_eq!(GitEngine::outcome(true, "\u{a0}\t out put\u{3000}\r\n", ""), Ok("out put".to_string()));
    assert_eq!(GitEngine::outcome(true, "\u{2028}\u{85}", "\u{1680}e\u{205f}"), Ok("e".to_string()));
    assert_eq!(GitEngine::outcome(false, "", "\u{200b}x"), Err("\u{200b}x".to_string()));
}
