//! The tools that a model can use: how they are described, what they run, and what they answer.
use vstd::prelude::*;

use crate::json;
use crate::json::{Json, JsonView};
use crate::parser;
use crate::queries;
use crate::text;

verus! {

// ---------------------------------------------------------------------------------------------
// Descriptions
// ---------------------------------------------------------------------------------------------

/// A parameter of a tool.
pub open spec fn parameter(kind: Seq<char>, description: Seq<char>) -> JsonView {
    let p = json::with_member(JsonView::Object(Seq::empty()), "type"@, JsonView::Text(kind));
    json::with_member(p, "description"@, JsonView::Text(description))
}

/// A tool with its parameters, one of which has to be given.
pub open spec fn tool(
    name: Seq<char>,
    description: Seq<char>,
    properties: JsonView,
    required: Seq<char>,
) -> JsonView {
    let schema = json::with_member(
        JsonView::Object(Seq::empty()),
        "type"@,
        JsonView::Text("object"@),
    );
    let schema = json::with_member(schema, "properties"@, properties);
    let schema = json::with_member(
        schema,
        "required"@,
        JsonView::Array(json::text_views(seq![required])),
    );
    let t = json::with_member(JsonView::Object(Seq::empty()), "name"@, JsonView::Text(name));
    let t = json::with_member(t, "description"@, JsonView::Text(description));
    json::with_member(t, "input_schema"@, schema)
}

/// A parameter of a tool.
fn make_parameter(kind: &str, description: &str) -> (r: Json)
    ensures
        r.tree() == parameter(kind@, description@),
{
    let p = json::add_member(json::empty_object(), "type", json::text_value(kind));
    json::add_member(p, "description", json::text_value(description))
}

/// A tool with its parameters, one of which has to be given.
fn make_tool(name: &str, description: &str, properties: Json, required: &str) -> (r: Json)
    ensures
        r.tree() == tool(name@, description@, properties.tree(), required@),
{
    let mut names: Vec<String> = Vec::new();
    names.push(required.to_string());
    assert(text::views(names@) =~= seq![required@]);
    let schema = json::add_member(json::empty_object(), "type", json::text_value("object"));
    let schema = json::add_member(schema, "properties", properties);
    let schema = json::add_member(schema, "required", json::text_array(&names));
    let t = json::add_member(json::empty_object(), "name", json::text_value(name));
    let t = json::add_member(t, "description", json::text_value(description));
    json::add_member(t, "input_schema", schema)
}

/// The tool that searches files for a pattern.
pub open spec fn grep_view() -> JsonView {
    let p = JsonView::Object(Seq::empty());
    let p = json::with_member(
        p,
        "pattern"@,
        parameter("string"@, "Regex pattern to search for"@),
    );
    let p = json::with_member(
        p,
        "path"@,
        parameter("string"@, "Directory or file to search in. Defaults to repo root."@),
    );
    let p = json::with_member(p, "glob"@, parameter("string"@, "File glob filter, e.g. '*.ts'"@));
    tool(
        "grep"@,
        "Search file contents for a regex pattern. Returns matching file paths and line content."@,
        p,
        "pattern"@,
    )
}

/// The tool that finds files by a pattern.
pub open spec fn glob_view() -> JsonView {
    let p = json::with_member(
        JsonView::Object(Seq::empty()),
        "pattern"@,
        parameter("string"@, "Glob pattern, e.g. 'src/**/*.ts'"@),
    );
    tool(
        "glob"@,
        "Find files matching a glob pattern. Returns file paths sorted by modification time."@,
        p,
        "pattern"@,
    )
}

/// The tool that reads a file.
pub open spec fn read_file_view() -> JsonView {
    let p = JsonView::Object(Seq::empty());
    let p = json::with_member(
        p,
        "path"@,
        parameter("string"@, "File path relative to repo root"@),
    );
    let p = json::with_member(
        p,
        "limit"@,
        parameter("integer"@, "Max lines to read. Default: 200"@),
    );
    tool("read_file"@, "Read the contents of a file."@, p, "path"@)
}

/// The tool that suggests files.
pub open spec fn codemap_context_view() -> JsonView {
    let p = JsonView::Object(Seq::empty());
    let p = json::with_member(
        p,
        "query"@,
        parameter("string"@, "Natural language task description"@),
    );
    let p = json::with_member(p, "limit"@, parameter("integer"@, "Max results. Default: 10"@));
    tool(
        "codemap_context"@,
        "Find the most relevant files for a task description, ranked by structural importance."@,
        p,
        "query"@,
    )
}

/// The tool that finds a symbol.
pub open spec fn codemap_symbol_view() -> JsonView {
    let p = JsonView::Object(Seq::empty());
    let p = json::with_member(p, "name"@, parameter("string"@, "Symbol name or pattern"@));
    let p = json::with_member(
        p,
        "exact"@,
        parameter("boolean"@, "Exact match only. Default: false"@),
    );
    tool(
        "codemap_symbol"@,
        "Find where a symbol is defined and who references it."@,
        p,
        "name"@,
    )
}

/// The tool that shows the neighbours of a file.
pub open spec fn codemap_deps_view() -> JsonView {
    let d = json::with_member(
        JsonView::Object(Seq::empty()),
        "type"@,
        JsonView::Text("string"@),
    );
    let d = json::with_member(
        d,
        "enum"@,
        JsonView::Array(json::text_views(seq!["imports"@, "importers"@, "both"@])),
    );
    let d = json::with_member(d, "description"@, JsonView::Text("Default: both"@));
    let p = JsonView::Object(Seq::empty());
    let p = json::with_member(p, "file"@, parameter("string"@, "File path to inspect"@));
    let p = json::with_member(p, "direction"@, d);
    tool("codemap_deps"@, "Show imports and importers of a file."@, p, "file"@)
}

/// The tools without the index.
pub open spec fn control_views() -> Seq<JsonView> {
    seq![grep_view(), glob_view(), read_file_view()]
}

/// The tools with the index.
pub open spec fn treatment_views() -> Seq<JsonView> {
    control_views() + seq![codemap_context_view(), codemap_symbol_view(), codemap_deps_view()]
}

/// The tool that searches files for a pattern.
fn grep_tool() -> (r: Json)
    ensures
        r.tree() == grep_view(),
{
    let p = json::add_member(
        json::empty_object(),
        "pattern",
        make_parameter("string", "Regex pattern to search for"),
    );
    let p = json::add_member(
        p,
        "path",
        make_parameter("string", "Directory or file to search in. Defaults to repo root."),
    );
    let p = json::add_member(p, "glob", make_parameter("string", "File glob filter, e.g. '*.ts'"));
    make_tool(
        "grep",
        "Search file contents for a regex pattern. Returns matching file paths and line content.",
        p,
        "pattern",
    )
}

/// The tool that finds files by a pattern.
fn glob_tool() -> (r: Json)
    ensures
        r.tree() == glob_view(),
{
    let p = json::add_member(
        json::empty_object(),
        "pattern",
        make_parameter("string", "Glob pattern, e.g. 'src/**/*.ts'"),
    );
    make_tool(
        "glob",
        "Find files matching a glob pattern. Returns file paths sorted by modification time.",
        p,
        "pattern",
    )
}

/// The tool that reads a file.
fn read_file_tool() -> (r: Json)
    ensures
        r.tree() == read_file_view(),
{
    let p = json::add_member(
        json::empty_object(),
        "path",
        make_parameter("string", "File path relative to repo root"),
    );
    let p = json::add_member(
        p,
        "limit",
        make_parameter("integer", "Max lines to read. Default: 200"),
    );
    make_tool("read_file", "Read the contents of a file.", p, "path")
}

/// The tool that suggests files.
fn codemap_context_tool() -> (r: Json)
    ensures
        r.tree() == codemap_context_view(),
{
    let p = json::add_member(
        json::empty_object(),
        "query",
        make_parameter("string", "Natural language task description"),
    );
    let p = json::add_member(p, "limit", make_parameter("integer", "Max results. Default: 10"));
    make_tool(
        "codemap_context",
        "Find the most relevant files for a task description, ranked by structural importance.",
        p,
        "query",
    )
}

/// The tool that finds a symbol.
fn codemap_symbol_tool() -> (r: Json)
    ensures
        r.tree() == codemap_symbol_view(),
{
    let p = json::add_member(
        json::empty_object(),
        "name",
        make_parameter("string", "Symbol name or pattern"),
    );
    let p = json::add_member(
        p,
        "exact",
        make_parameter("boolean", "Exact match only. Default: false"),
    );
    make_tool(
        "codemap_symbol",
        "Find where a symbol is defined and who references it.",
        p,
        "name",
    )
}

/// The tool that shows the neighbours of a file.
fn codemap_deps_tool() -> (r: Json)
    ensures
        r.tree() == codemap_deps_view(),
{
    let mut ways: Vec<String> = Vec::new();
    ways.push("imports".to_string());
    ways.push("importers".to_string());
    ways.push("both".to_string());
    assert(text::views(ways@) =~= seq!["imports"@, "importers"@, "both"@]);
    let d = json::add_member(json::empty_object(), "type", json::text_value("string"));
    let d = json::add_member(d, "enum", json::text_array(&ways));
    let d = json::add_member(d, "description", json::text_value("Default: both"));
    let p = json::add_member(
        json::empty_object(),
        "file",
        make_parameter("string", "File path to inspect"),
    );
    let p = json::add_member(p, "direction", d);
    make_tool("codemap_deps", "Show imports and importers of a file.", p, "file")
}

/// The tools without the index.
pub fn control_tools() -> (r: Vec<Json>)
    ensures
        json::trees(r@) == control_views(),
{
    let mut tools: Vec<Json> = Vec::new();
    json::push_value(&mut tools, grep_tool());
    json::push_value(&mut tools, glob_tool());
    json::push_value(&mut tools, read_file_tool());
    assert(json::trees(tools@) =~= control_views());
    tools
}

/// The tools with the index.
pub fn treatment_tools() -> (r: Vec<Json>)
    ensures
        json::trees(r@) == treatment_views(),
{
    let mut tools = control_tools();
    json::push_value(&mut tools, codemap_context_tool());
    json::push_value(&mut tools, codemap_symbol_tool());
    json::push_value(&mut tools, codemap_deps_tool());
    assert(json::trees(tools@) =~= treatment_views());
    tools
}

// ---------------------------------------------------------------------------------------------
// What a tool runs
// ---------------------------------------------------------------------------------------------

/// What the use of a tool comes to.
pub enum ToolPlan {
    /// Search with these arguments, and then this path below the repository.
    Search { args: Vec<String>, path: String },
    /// List files with these arguments, and then the repository.
    ListFiles { args: Vec<String> },
    /// Read so many lines of a file.
    ReadFile { path: String, limit: u64 },
    /// Run the index with these arguments.
    Codemap { args: Vec<String> },
    /// There is no such tool.
    Unknown { message: String },
}

/// What the use of a tool comes to.
#[verifier::ext_equal]
pub enum PlanView {
    Search { args: Seq<Seq<char>>, path: Seq<char> },
    ListFiles { args: Seq<Seq<char>> },
    ReadFile { path: Seq<char>, limit: u64 },
    Codemap { args: Seq<Seq<char>> },
    Unknown { message: Seq<char> },
}

impl View for ToolPlan {
    type V = PlanView;

    open spec fn view(&self) -> PlanView {
        match self {
            ToolPlan::Search { args, path } => PlanView::Search {
                args: text::views(args@),
                path: path@,
            },
            ToolPlan::ListFiles { args } => PlanView::ListFiles { args: text::views(args@) },
            ToolPlan::ReadFile { path, limit } => PlanView::ReadFile { path: path@, limit: *limit },
            ToolPlan::Codemap { args } => PlanView::Codemap { args: text::views(args@) },
            ToolPlan::Unknown { message } => PlanView::Unknown { message: message@ },
        }
    }
}

/// The text of an input, or another where there is none.
pub open spec fn text_input(input: JsonView, key: Seq<char>, other: Seq<char>) -> Seq<char> {
    text::text_or(json::opt_text(json::field(input, key)), other)
}

/// The number of an input, or another where there is none.
pub open spec fn number_input(input: JsonView, key: Seq<char>, other: u64) -> u64 {
    match json::opt_whole(json::field(input, key)) {
        Some(n) => n,
        None => other,
    }
}

/// The arguments of a search.
pub open spec fn search_args(input: JsonView) -> Seq<Seq<char>> {
    let head = seq!["--max-count"@, "20"@, "-n"@, "--no-heading"@];
    let filter = match json::opt_text(json::field(input, "glob"@)) {
        Some(g) => seq!["--glob"@, g],
        None => Seq::empty(),
    };
    (head + filter).push(text_input(input, "pattern"@, ""@))
}

/// The arguments for a symbol.
pub open spec fn symbol_args(input: JsonView) -> Seq<Seq<char>> {
    let head = seq!["symbol"@, "--json"@, text_input(input, "name"@, ""@)];
    if json::is_true(json::field(input, "exact"@)) {
        head.push("--exact"@)
    } else {
        head
    }
}

/// What the use of a tool comes to.
pub open spec fn plan_for(name: Seq<char>, input: JsonView) -> PlanView {
    if name == "grep"@ {
        PlanView::Search { args: search_args(input), path: text_input(input, "path"@, "."@) }
    } else if name == "glob"@ {
        PlanView::ListFiles {
            args: seq!["--files"@, "--glob"@, text_input(input, "pattern"@, "**/*"@)],
        }
    } else if name == "read_file"@ {
        PlanView::ReadFile {
            path: text_input(input, "path"@, ""@),
            limit: number_input(input, "limit"@, 200),
        }
    } else if name == "codemap_context"@ {
        PlanView::Codemap {
            args: seq![
                "context"@,
                "--json"@,
                text_input(input, "query"@, ""@),
                "--limit"@,
                text::decimal(number_input(input, "limit"@, 10) as nat),
            ],
        }
    } else if name == "codemap_symbol"@ {
        PlanView::Codemap { args: symbol_args(input) }
    } else if name == "codemap_deps"@ {
        PlanView::Codemap {
            args: seq![
                "deps"@,
                "--json"@,
                text_input(input, "file"@, ""@),
                "--direction"@,
                text_input(input, "direction"@, "both"@),
            ],
        }
    } else {
        PlanView::Unknown { message: "Unknown tool: "@ + name }
    }
}

/// The text of an input, or another where there is none.
fn get_text<'a>(input: &'a Json, key: &str, other: &'a str) -> (r: &'a str)
    ensures
        r@ == text_input(input.tree(), key@, other@),
{
    json::str_or(json::as_str(json::get(Some(input), key)), other)
}

/// The number of an input, or another where there is none.
fn get_number(input: &Json, key: &str, other: u64) -> (r: u64)
    ensures
        r == number_input(input.tree(), key@, other),
{
    match json::as_whole(json::get(Some(input), key)) {
        Some(n) => n,
        None => other,
    }
}

/// The arguments of a search.
fn make_search_args(input: &Json) -> (r: Vec<String>)
    ensures
        text::views(r@) == search_args(input.tree()),
{
    let mut args: Vec<String> = Vec::new();
    args.push("--max-count".to_string());
    args.push("20".to_string());
    args.push("-n".to_string());
    args.push("--no-heading".to_string());
    if let Some(g) = json::as_str(json::get(Some(input), "glob")) {
        args.push("--glob".to_string());
        args.push(g.to_string());
    }
    args.push(get_text(input, "pattern", "").to_string());
    assert(text::views(args@) =~= search_args(input.tree()));
    args
}

/// The arguments for a symbol.
fn make_symbol_args(input: &Json) -> (r: Vec<String>)
    ensures
        text::views(r@) == symbol_args(input.tree()),
{
    let mut args: Vec<String> = Vec::new();
    args.push("symbol".to_string());
    args.push("--json".to_string());
    args.push(get_text(input, "name", "").to_string());
    if json::is_flag_set(json::get(Some(input), "exact")) {
        args.push("--exact".to_string());
    }
    assert(text::views(args@) =~= symbol_args(input.tree()));
    args
}

/// Five texts as a list.
fn five(a: &str, b: &str, c: &str, d: &str, e: &str) -> (r: Vec<String>)
    ensures
        text::views(r@) == seq![a@, b@, c@, d@, e@],
{
    let mut args: Vec<String> = Vec::new();
    args.push(a.to_string());
    args.push(b.to_string());
    args.push(c.to_string());
    args.push(d.to_string());
    args.push(e.to_string());
    assert(text::views(args@) =~= seq![a@, b@, c@, d@, e@]);
    args
}

/// What the use of a tool comes to.
pub fn plan_tool(name: &str, input: &Json) -> (r: ToolPlan)
    ensures
        r@ == plan_for(name@, input.tree()),
{
    if text::same(name, "grep") {
        ToolPlan::Search {
            args: make_search_args(input),
            path: get_text(input, "path", ".").to_string(),
        }
    } else if text::same(name, "glob") {
        let mut args: Vec<String> = Vec::new();
        args.push("--files".to_string());
        args.push("--glob".to_string());
        args.push(get_text(input, "pattern", "**/*").to_string());
        assert(text::views(args@) =~= seq![
            "--files"@,
            "--glob"@,
            text_input(input.tree(), "pattern"@, "**/*"@),
        ]);
        ToolPlan::ListFiles { args }
    } else if text::same(name, "read_file") {
        ToolPlan::ReadFile {
            path: get_text(input, "path", "").to_string(),
            limit: get_number(input, "limit", 200),
        }
    } else if text::same(name, "codemap_context") {
        let limit = text::decimal_of(get_number(input, "limit", 10));
        ToolPlan::Codemap {
            args: five(
                "context",
                "--json",
                get_text(input, "query", ""),
                "--limit",
                limit.as_str(),
            ),
        }
    } else if text::same(name, "codemap_symbol") {
        ToolPlan::Codemap { args: make_symbol_args(input) }
    } else if text::same(name, "codemap_deps") {
        ToolPlan::Codemap {
            args: five(
                "deps",
                "--json",
                get_text(input, "file", ""),
                "--direction",
                get_text(input, "direction", "both"),
            ),
        }
    } else {
        ToolPlan::Unknown { message: "Unknown tool: ".to_string().concat(name) }
    }
}

// ---------------------------------------------------------------------------------------------
// What a tool answers
// ---------------------------------------------------------------------------------------------

/// What came of a command.
pub enum CommandOutput {
    Ran { success: bool, stdout: String, stderr: String },
    NotRun { error: String },
}

/// How many bytes of an output are shown.
pub const SHOWN_BYTES: usize = 8000;

/// An output, cut off where it is long.
pub open spec fn shown_output(stdout: Seq<char>) -> Seq<char> {
    if stdout.len() == 0 {
        "No results found."@
    } else if text::byte_len(stdout) > SHOWN_BYTES {
        parser::truncated(stdout, SHOWN_BYTES as nat) + "\n... (truncated, "@ + text::decimal(
            text::byte_len(stdout),
        ) + " total chars)"@
    } else {
        stdout
    }
}

/// The answer of a command.
pub open spec fn command_answer(came: CommandOutput) -> Seq<char> {
    match came {
        CommandOutput::Ran { success, stdout, stderr } => if success {
            shown_output(stdout@)
        } else if stderr@.len() == 0 {
            "No results found."@
        } else {
            "Error: "@ + stderr@
        },
        CommandOutput::NotRun { error } => "Failed to execute command: "@ + error@,
    }
}

/// Whether a text is empty.
fn is_empty(s: &str) -> (r: bool)
    ensures
        r == (s@.len() == 0),
{
    text::chars_of(s).len() == 0
}

/// The answer of a command.
pub fn command_text(came: &CommandOutput) -> (r: String)
    ensures
        r@ == command_answer(*came),
{
    match came {
        CommandOutput::Ran { success, stdout, stderr } => {
            if *success {
                if is_empty(stdout.as_str()) {
                    "No results found.".to_string()
                } else if text::bytes_in(stdout.as_str()) > SHOWN_BYTES {
                    parser::truncate(stdout.as_str(), SHOWN_BYTES).to_string().concat(
                        "\n... (truncated, ",
                    ).concat(
                        text::decimal_of(text::bytes_in(stdout.as_str()) as u64).as_str(),
                    ).concat(" total chars)")
                } else {
                    stdout.clone()
                }
            } else if is_empty(stderr.as_str()) {
                "No results found.".to_string()
            } else {
                "Error: ".to_string().concat(stderr.as_str())
            }
        },
        CommandOutput::NotRun { error } =>
            "Failed to execute command: ".to_string().concat(error.as_str()),
    }
}

/// A line without a prefix.
pub open spec fn without_prefix(line: Seq<char>, prefix: Seq<char>) -> Seq<char> {
    if prefix.is_prefix_of(line) {
        line.skip(prefix.len() as int)
    } else {
        line
    }
}

/// The lines of an output, each without the prefix of the repository.
pub open spec fn relative_lines(output: Seq<char>, prefix: Seq<char>) -> Seq<char> {
    text::join(
        text::lines(output).map_values(|line: Seq<char>| without_prefix(line, prefix)),
        "\n"@,
    )
}

/// The lines of an output, each without the prefix of the repository.
pub fn strip_repo(output: &str, prefix: &str) -> (r: String)
    ensures
        r@ == relative_lines(output@, prefix@),
{
    let lines = text::lines_of(output);
    let ghost all = text::lines(output@).map_values(
        |line: Seq<char>| without_prefix(line, prefix@),
    );
    let mut out: Vec<String> = Vec::new();
    assert(text::views(lines@).len() == lines@.len());
    assert(text::views(out@) =~= all.take(0));
    for i in 0..lines.len()
        invariant
            text::views(lines@) == text::lines(output@),
            all == text::lines(output@).map_values(
                |line: Seq<char>| without_prefix(line, prefix@),
            ),
            text::views(out@) == all.take(i as int),
    {
        let ghost before = text::views(out@);
        assert(text::views(lines@)[i as int] == lines@[i as int]@);
        let line = match text::strip_prefix(lines[i].as_str(), prefix) {
            Some(rest) => rest,
            None => lines[i].clone(),
        };
        let ghost shown = line@;
        out.push(line);
        proof {
            assert(text::views(out@) =~= before.push(shown));
            assert(text::views(out@) =~= all.take(i + 1));
        }
    }
    assert(all.take(lines@.len() as int) =~= all);
    text::join_all(&out, "\n")
}

/// A line with its number.
pub open spec fn numbered(number: nat, line: Seq<char>) -> Seq<char> {
    text::padded_left(text::decimal(number), 4) + "  "@ + line
}

/// The first lines of a file, each with its number.
pub open spec fn numbered_lines(content: Seq<char>, limit: nat) -> Seq<Seq<char>> {
    let shown = queries::first(text::lines(content), limit);
    Seq::new(shown.len(), |i: int| numbered((i + 1) as nat, shown[i]))
}

/// The first lines of a file, each with its number.
pub fn number_lines(content: &str, limit: u64) -> (r: String)
    ensures
        r@ == text::join(numbered_lines(content@, limit as nat), "\n"@),
{
    let lines = text::lines_of(content);
    let ghost all = numbered_lines(content@, limit as nat);
    let mut out: Vec<String> = Vec::new();
    assert(text::views(lines@).len() == lines@.len());
    assert(text::views(out@) =~= all.take(0));
    let mut i: usize = 0;
    while i < lines.len() && (i as u64) < limit
        invariant
            text::views(lines@) == text::lines(content@),
            text::views(lines@).len() == lines@.len(),
            all == numbered_lines(content@, limit as nat),
            i <= lines@.len(),
            i <= limit,
            text::views(out@) == all.take(i as int),
        decreases lines@.len() - i,
    {
        let ghost before = text::views(out@);
        assert(text::views(lines@)[i as int] == lines@[i as int]@);
        let mut line = String::new();
        text::append_left(&mut line, text::decimal_of(i as u64 + 1).as_str(), 4);
        line.append("  ");
        line.append(lines[i].as_str());
        assert(line@ =~= numbered((i + 1) as nat, lines@[i as int]@));
        let ghost shown = line@;
        out.push(line);
        i += 1;
        proof {
            assert(text::views(out@) =~= before.push(shown));
            assert(text::views(out@) =~= all.take(i as int));
        }
    }
    assert(all.take(i as int) =~= all);
    text::join_all(&out, "\n")
}

/// The answer to reading a file, given what it holds or why that is not known.
pub fn read_file_text(path: &str, content: &Result<String, String>, limit: u64) -> (r: String)
    ensures
        r@ == (match content {
            Ok(s) => text::join(numbered_lines(s@, limit as nat), "\n"@),
            Err(e) => "Error reading "@ + path@ + ": "@ + e@,
        }),
{
    match content {
        Ok(s) => number_lines(s.as_str(), limit),
        Err(e) => "Error reading ".to_string().concat(path).concat(": ").concat(e.as_str()),
    }
}

/// What is shown of a file is its first lines, as many as are asked for, each behind its number.
pub proof fn law_numbered_lines(content: Seq<char>, limit: nat, i: int)
    requires
        0 <= i < numbered_lines(content, limit).len(),
    ensures
        numbered_lines(content, limit).len() == vstd::math::min(
            limit as int,
            text::lines(content).len() as int,
        ),
        numbered_lines(content, limit)[i] == text::padded_left(text::decimal((i + 1) as nat), 4)
            + "  "@ + text::lines(content)[i],
{
}

/// A line below a directory is shown without it; any other stays as it is.
pub proof fn law_without_prefix(rest: Seq<char>, prefix: Seq<char>)
    ensures
        without_prefix(prefix + rest, prefix) == rest,
        !prefix.is_prefix_of(rest) ==> without_prefix(rest, prefix) == rest,
{
    let line = prefix + rest;
    assert(line.take(prefix.len() as int) =~= prefix);
    assert(line.skip(prefix.len() as int) =~= rest);
}

/// Output of at most 8000 bytes is shown whole; of more, the beginning is, and how much there is.
pub proof fn law_shown_output(stdout: Seq<char>)
    requires
        stdout.len() > 0,
    ensures
        text::byte_len(stdout) <= 8000 ==> shown_output(stdout) == stdout,
        text::byte_len(stdout) > 8000 ==> shown_output(stdout) == parser::truncated(stdout, 8000)
            + "\n... (truncated, "@ + text::decimal(text::byte_len(stdout)) + " total chars)"@,
{
}

/// A search is for the pattern that is asked for, in the files and below the path that are.
pub proof fn law_search(input: JsonView, pattern: Seq<char>, path: Seq<char>, files: Seq<char>)
    requires
        json::opt_text(json::field(input, "pattern"@)) == Some(pattern),
        json::opt_text(json::field(input, "path"@)) == Some(path),
        json::opt_text(json::field(input, "glob"@)) == Some(files),
    ensures
        plan_for("grep"@, input) == (PlanView::Search {
            args: seq![
                "--max-count"@,
                "20"@,
                "-n"@,
                "--no-heading"@,
                "--glob"@,
                files,
                pattern,
            ],
            path,
        }),
{
    assert(search_args(input) =~= seq![
        "--max-count"@,
        "20"@,
        "-n"@,
        "--no-heading"@,
        "--glob"@,
        files,
        pattern,
    ]);
}

/// Each tool does what its name says with what it is given: a file is read up to the line that is
/// asked for, files are listed by their pattern, and codemap is asked with the words, the name or
/// the file that is given.
pub proof fn law_plans(input: JsonView, given: Seq<char>, number: u64)
    ensures
        json::opt_text(json::field(input, "path"@)) == Some(given) && json::opt_whole(
            json::field(input, "limit"@),
        ) == Some(number) ==> plan_for("read_file"@, input) == (PlanView::ReadFile {
            path: given,
            limit: number,
        }),
        json::opt_text(json::field(input, "pattern"@)) == Some(given) ==> plan_for("glob"@, input)
            == (PlanView::ListFiles { args: seq!["--files"@, "--glob"@, given] }),
        json::opt_text(json::field(input, "query"@)) == Some(given) && json::opt_whole(
            json::field(input, "limit"@),
        ) == Some(number) ==> plan_for("codemap_context"@, input) == (PlanView::Codemap {
            args: seq![
                "context"@,
                "--json"@,
                given,
                "--limit"@,
                text::decimal(number as nat),
            ],
        }),
        json::opt_text(json::field(input, "name"@)) == Some(given) && json::is_true(
            json::field(input, "exact"@),
        ) ==> plan_for("codemap_symbol"@, input) == (PlanView::Codemap {
            args: seq!["symbol"@, "--json"@, given, "--exact"@],
        }),
        json::opt_text(json::field(input, "name"@)) == Some(given) && !json::is_true(
            json::field(input, "exact"@),
        ) ==> plan_for("codemap_symbol"@, input) == (PlanView::Codemap {
            args: seq!["symbol"@, "--json"@, given],
        }),
        json::opt_text(json::field(input, "file"@)) == Some(given) && json::opt_text(
            json::field(input, "direction"@),
        ) is None ==> plan_for("codemap_deps"@, input) == (PlanView::Codemap {
            args: seq!["deps"@, "--json"@, given, "--direction"@, "both"@],
        }),
{
    reveal_strlit("grep");
    reveal_strlit("glob");
    reveal_strlit("read_file");
    reveal_strlit("codemap_context");
    reveal_strlit("codemap_symbol");
    reveal_strlit("codemap_deps");
    assert("grep"@.len() == 4 && "glob"@.len() == 4 && "read_file"@.len() == 9
        && "codemap_context"@.len() == 15 && "codemap_symbol"@.len() == 14 && "codemap_deps"@.len()
        == 12);
    assert("grep"@[1] == 'r' && "glob"@[1] == 'l');
    assert(seq!["symbol"@, "--json"@, given].push("--exact"@) =~= seq![
        "symbol"@,
        "--json"@,
        given,
        "--exact"@,
    ]);
}

/// What a command is answered by: its output where it ran well, its errors where it did not, and
/// why it could not run.
pub proof fn law_command_answer(success: bool, stdout: String, stderr: String, error: String)
    ensures
        ({
            let answer = command_answer(CommandOutput::Ran { success, stdout, stderr });
            &&& success ==> answer == shown_output(stdout@)
            &&& !success && stderr@.len() > 0 ==> answer == "Error: "@ + stderr@
            &&& !success && stderr@.len() == 0 ==> answer == "No results found."@
        }),
        command_answer(CommandOutput::NotRun { error }) == "Failed to execute command: "@ + error@,
{
}

}
