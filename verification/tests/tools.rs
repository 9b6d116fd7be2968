use codemap::eval::tools::{
    command_text, control_tools, number_lines, plan_tool, read_file_text, strip_repo,
    treatment_tools, CommandOutput, ToolPlan,
};
use codemap::json::{self, Json};

/// An object of texts.
fn object(members: &[(&str, &str)]) -> Json {
    let mut out = json::empty_object();
    for (key, value) in members {
        out = json::add_member(out, key, json::text_value(value));
    }
    out
}

/// The names of some tools.
fn names(tools: &[Json]) -> Vec<&str> {
    tools.iter().map(|t| json::as_str(json::get(Some(t), "name")).unwrap()).collect()
}

/// What a command wrote.
fn ran(success: bool, stdout: &str, stderr: &str) -> CommandOutput {
    CommandOutput::Ran { success, stdout: stdout.to_string(), stderr: stderr.to_string() }
}

#[test]
fn the_tools_of_both_sides() {
    let control = control_tools();
    let treatment = treatment_tools();
    assert_eq!(names(&control), vec!["grep", "glob", "read_file"]);
    assert_eq!(
        names(&treatment),
        vec!["grep", "glob", "read_file", "codemap_context", "codemap_symbol", "codemap_deps"]
    );
    let schema = json::get(Some(&treatment[5]), "input_schema");
    assert_eq!(json::as_str(json::zeroth(json::get(schema, "required"))), Some("file"));
    let direction = json::get(json::get(schema, "properties"), "direction");
    assert_eq!(json::as_array(json::get(direction, "enum")).unwrap().len(), 3);
}

#[test]
fn tools_become_commands() {
    match plan_tool("grep", &object(&[("pattern", "x"), ("glob", "*.ts")])) {
        ToolPlan::Search { args, path } => {
            let want =
                vec!["--max-count", "20", "-n", "--no-heading", "--glob", "*.ts", "x"];
            assert_eq!(args, want);
            assert_eq!(path, ".");
        }
        _ => panic!(),
    }
    match plan_tool("glob", &json::empty_object()) {
        ToolPlan::ListFiles { args } => assert_eq!(args, vec!["--files", "--glob", "**/*"]),
        _ => panic!(),
    }
    match plan_tool("read_file", &object(&[("path", "a.ts")])) {
        ToolPlan::ReadFile { path, limit } => assert_eq!((path.as_str(), limit), ("a.ts", 200)),
        _ => panic!(),
    }
    match plan_tool("codemap_context", &object(&[("query", "q")])) {
        ToolPlan::Codemap { args } => {
            assert_eq!(args, vec!["context", "--json", "q", "--limit", "10"])
        }
        _ => panic!(),
    }
    let exact = json::add_member(object(&[("name", "n")]), "exact", Json::Bool(true));
    match plan_tool("codemap_symbol", &exact) {
        ToolPlan::Codemap { args } => assert_eq!(args, vec!["symbol", "--json", "n", "--exact"]),
        _ => panic!(),
    }
    match plan_tool("codemap_deps", &object(&[("file", "f")])) {
        ToolPlan::Codemap { args } => {
            assert_eq!(args, vec!["deps", "--json", "f", "--direction", "both"])
        }
        _ => panic!(),
    }
    match plan_tool("rm", &json::empty_object()) {
        ToolPlan::Unknown { message } => assert_eq!(message, "Unknown tool: rm"),
        _ => panic!(),
    }
}

#[test]
fn outputs_are_told() {
    assert_eq!(command_text(&ran(true, "out", "err")), "out");
    assert_eq!(command_text(&ran(true, "", "err")), "No results found.");
    assert_eq!(command_text(&ran(false, "out", "bad")), "Error: bad");
    assert_eq!(command_text(&ran(false, "out", "")), "No results found.");
    let lost = CommandOutput::NotRun { error: "gone".to_string() };
    assert_eq!(command_text(&lost), "Failed to execute command: gone");
    let long = format!("{}\u{e9}{}", "a".repeat(7999), "b".repeat(9));
    assert_eq!(
        command_text(&ran(true, &long, "")),
        format!("{}\n... (truncated, 8010 total chars)", "a".repeat(7999))
    );
}

#[test]
fn paths_lose_the_repository() {
    assert_eq!(strip_repo("/r/a.ts:1:x\nother\n", "/r/"), "a.ts:1:x\nother");
    assert_eq!(strip_repo("", "/r/"), "");
}

#[test]
fn lines_are_numbered() {
    assert_eq!(number_lines("a\r\nb\nc", 2), "   1  a\n   2  b");
    assert_eq!(number_lines("a", 0), "");
    assert_eq!(read_file_text("p", &Ok("x\n".to_string()), 200), "   1  x");
    assert_eq!(read_file_text("p", &Err("gone".to_string()), 200), "Error reading p: gone");
}
